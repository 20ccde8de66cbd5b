//! Turning tokens into statements.
pub mod ast;
pub mod expr;
pub mod grammar;
pub mod standard;
pub mod type_laws;
pub mod types;

use crate::lexer::token::{tokens_view, Token};
use crate::parser::ast::{stmts_v, Stmt};
use crate::parser::grammar::{p_program, PSt};
use crate::session::source::FileId;
use crate::session::Session;
use crate::text::{append_chars, dec, push_str, string_of, u64_text};
use vstd::prelude::*;

verus! {

/// A parser: builds the statements of a file from its tokens and reports the errors
/// it finds to the session.
pub trait Parser {
    fn parse(&mut self, session: &mut Session, tokens: Vec<Token>, file_id: FileId) -> (ast: Vec<Stmt>)
        requires
            old(session).wf(),
            p_program(tokens_view(tokens@), file_id as nat, PSt { idx: 0, diags: old(session).diags() }, Seq::empty()) is Some,
        ensures
            final(session).wf(),
            final(session).spec_sources() == old(session).spec_sources(),
            final(session).mangle_count() == old(session).mangle_count(),
            final(session).spec_reporter() == old(session).spec_reporter(),
            final(session).spec_modules() == old(session).spec_modules(),
            ({
                let r = p_program(tokens_view(tokens@), file_id as nat, PSt { idx: 0, diags: old(session).diags() }, Seq::empty()).unwrap();
                &&& stmts_v(ast@) == r.0
                &&& final(session).diags() == r.1.diags
            }),
    ;
}

/// Position of an expression or a type: line, column and length.
#[derive(Debug, Clone, Copy, PartialEq, Eq, Structural)]
pub struct Info {
    pub line: usize,
    pub offset: usize,
    pub len: usize,
}

impl Info {
    pub fn empty() -> (i: Info)
        ensures
            i == (Info { line: 0, offset: 0, len: 0 }),
    {
        Info { len: 0, line: 0, offset: 0 }
    }

    /// `line:offset len`.
    pub fn to_string(&self) -> (s: String)
        ensures
            s@ == info_text(*self),
    {
        let mut v = u64_text(self.line as u64);
        push_str(&mut v, ":");
        let o = u64_text(self.offset as u64);
        append_chars(&mut v, &o);
        push_str(&mut v, " ");
        let l = u64_text(self.len as u64);
        append_chars(&mut v, &l);
        string_of(&v)
    }
}

/// How a position is written: `line:offset len`.
pub open spec fn info_text(i: Info) -> Seq<char> {
    dec(i.line as nat) + ":"@ + dec(i.offset as nat) + " "@ + dec(i.len as nat)
}

} // verus!
