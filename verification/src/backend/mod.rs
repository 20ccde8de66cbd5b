//! Code generation: from statements to a QBE module.
pub mod codegen;
pub mod ir;
pub mod qbe;

use crate::backend::codegen::{g_compile, GenSt};
use crate::parser::ast::{stmts_v, Stmt};
use crate::report::DiagV;
use crate::session::source::FileId;
use crate::session::Session;
use crate::text::{append_chars, dec, push_str, string_of, u64_text};
use vstd::prelude::*;

verus! {

/// What a backend produces for one file: text or bytes.
#[derive(Debug, Clone)]
pub enum BackendOutput {
    Text(String),
    Binary(Vec<u8>),
}

/// Bytes as a list: `[1, 2, 3]`.
pub open spec fn bytes_text(b: Seq<u8>) -> Seq<char>
    decreases b.len(),
{
    if b.len() == 0 {
        "[]"@
    } else {
        "["@ + bytes_items(b) + "]"@
    }
}

/// The numbers of `b` separated by `, `.
pub open spec fn bytes_items(b: Seq<u8>) -> Seq<char>
    decreases b.len(),
{
    if b.len() == 0 {
        Seq::empty()
    } else if b.len() == 1 {
        dec(b[0] as nat)
    } else {
        bytes_items(b.drop_last()) + ", "@ + dec(b.last() as nat)
    }
}

/// How an output is shown: the text itself, or the bytes as a list.
pub open spec fn output_text(o: BackendOutput) -> Seq<char> {
    match o {
        BackendOutput::Text(t) => t@,
        BackendOutput::Binary(b) => bytes_text(b@),
    }
}

impl BackendOutput {
    /// The output as text: the text itself, or the bytes as a list.
    pub fn to_string(&self) -> (s: String)
        ensures
            s@ == output_text(*self),
    {
        match self {
            BackendOutput::Text(t) => t.clone(),
            BackendOutput::Binary(b) => {
                let mut v: Vec<char> = Vec::new();
                let mut i: usize = 0;
                while i < b.len()
                    invariant
                        i <= b.len(),
                        v@ == bytes_items(b@.take(i as int)),
                    decreases b.len() - i,
                {
                    if i > 0 {
                        push_str(&mut v, ", ");
                    }
                    let d = u64_text(b[i] as u64);
                    append_chars(&mut v, &d);
                    proof {
                        let t = b@.take(i + 1);
                        assert(t.drop_last() =~= b@.take(i as int));
                        assert(t.last() == b@[i as int]);
                        if i == 0 {
                            assert(v@ =~= dec(t[0] as nat));
                        }
                    }
                    i = i + 1;
                }
                assert(b@.take(b.len() as int) =~= b@);
                let mut r: Vec<char> = Vec::new();
                push_str(&mut r, "[");
                append_chars(&mut r, &v);
                push_str(&mut r, "]");
                proof {
                    reveal_strlit("[]");
                    reveal_strlit("[");
                    reveal_strlit("]");
                    if b.len() == 0 {
                        assert(r@ =~= "[]"@);
                    }
                }
                string_of(&r)
            },
        }
    }
}

/// A code generator: compiles the statements of one file, and says where and under
/// which extension its output is written.
pub trait Backend {
    /// The generator's state, as the code-generation specification sees it, with the
    /// session's diagnostics `diags`.
    spec fn gen_state(&self, diags: Seq<DiagV>) -> GenSt;

    /// Compiles the statements of file `file_id` into the module.
    fn compile(&mut self, session: &mut Session, file_id: FileId, ast: &Vec<Stmt>)
        requires
            old(session).wf(),
            g_compile(file_id as nat, old(self).gen_state(old(session).diags()), stmts_v(ast@)) is Some,
        ensures
            final(session).wf(),
            final(session).spec_sources() == old(session).spec_sources(),
            final(session).mangle_count() == old(session).mangle_count(),
            final(session).spec_reporter() == old(session).spec_reporter(),
            final(session).spec_modules() == old(session).spec_modules(),
            g_compile(file_id as nat, old(self).gen_state(old(session).diags()), stmts_v(ast@)) == Some(
                final(self).gen_state(final(session).diags()),
            ),
    ;

    /// The extension of the files written.
    fn ext(&self) -> String;

    /// The directory, under the build directory, that the output goes to.
    fn out_dir(&self) -> String;
}

} // verus!
