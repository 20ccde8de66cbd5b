//! The compiler: lexes, parses and generates code for every source of a session, and
//! what it keeps of each file for the files that use it.
use crate::backend::codegen::{g_compile, GenSt};
use crate::backend::ir::{data_v, functions_v, DataV, FunctionV, IrModule};
use crate::backend::qbe::QbeBackend;
use crate::lexer::standard::{fresh_state, lex_all, room, LexSt, StdLexer};
use crate::lexer::Lexer;
use crate::lexer::token::tokens_view;
use crate::parser::ast::{opt_type_v, stmts_v, Stmt, StmtV};
use crate::parser::grammar::{p_program, PSt};
use crate::parser::standard::StdParser;
use crate::parser::Parser;
use crate::parser::types::{Type, TypeV};
use crate::report::DiagV;
use crate::session::source::{all_wf, FileId, Source};
use crate::session::{has_error_in, Session};
use crate::text::{dec, string_of, u64_text};
use vstd::prelude::*;

verus! {

/// A public function as other files see it.
#[derive(Debug)]
pub struct FuncInfo {
    /// The name it is declared with.
    pub id: String,
    /// The name it is compiled under: `f0`, `f1`, ...
    pub id_mangled: String,
    pub args: Vec<Type>,
    pub ret_ty: Option<Type>,
}

/// A function's information as plain values.
pub struct FuncInfoV {
    pub id: Seq<char>,
    pub id_mangled: Seq<char>,
    pub args: Seq<TypeV>,
    pub ret_ty: Option<TypeV>,
}

impl View for FuncInfo {
    type V = FuncInfoV;

    open spec fn view(&self) -> FuncInfoV {
        FuncInfoV {
            id: self.id@,
            id_mangled: self.id_mangled@,
            args: self.args@.map_values(|t: Type| t@),
            ret_ty: opt_type_v(self.ret_ty),
        }
    }
}

impl FuncInfo {
    pub fn new(id: String, id_mangled: String, args: Vec<Type>, ret_ty: Option<Type>) -> (f: Self)
        ensures
            f.id == id,
            f.id_mangled == id_mangled,
            f.args == args,
            f.ret_ty == ret_ty,
    {
        FuncInfo { id, args, id_mangled, ret_ty }
    }
}

/// What one file offers the others.
#[derive(Debug)]
pub struct Module {
    pub id: String,
    pub pub_func: Vec<FuncInfo>,
    pub pub_uses: Vec<String>,
}

/// The first entry of `ms` that belongs to file `id`.
pub open spec fn module_pos(ms: Seq<(FileId, Module)>, id: FileId) -> Option<int> {
    if exists|j: int| 0 <= j < ms.len() && (#[trigger] ms[j]).0 == id {
        let j = choose|j: int| 0 <= j < ms.len() && (#[trigger] ms[j]).0 == id && forall|x: int| 0 <= x < j ==> (#[trigger] ms[x]).0 != id;
        Some(j)
    } else {
        None
    }
}

/// What the passes between parsing and code generation work on: the statements of each
/// file, and what each file offers the others, at most one entry per file.
pub struct KrezCompilerApi {
    pub ast: Vec<Vec<Stmt>>,
    pub modules: Vec<(FileId, Module)>,
}

impl KrezCompilerApi {
    /// Records what file `id` offers: replaces its entry where it has one, else adds one.
    pub fn push_mod(&mut self, id: FileId, modu: Module)
        ensures
            final(self).ast == old(self).ast,
            final(self).modules@ == match module_pos(old(self).modules@, id) {
                Some(j) => old(self).modules@.update(j, (id, modu)),
                None => old(self).modules@.push((id, modu)),
            },
    {
        let n = self.modules.len();
        let mut i: usize = 0;
        while i < n
            invariant
                i <= n,
                n == self.modules@.len(),
                self.modules@ == old(self).modules@,
                self.ast == old(self).ast,
                forall|x: int| 0 <= x < i ==> (#[trigger] self.modules@[x]).0 != id,
            decreases n - i,
        {
            if self.modules[i].0 == id {
                proof {
                    let ms = old(self).modules@;
                    assert(0 <= i < ms.len() && ms[i as int].0 == id);
                    let j = choose|j: int| 0 <= j < ms.len() && (#[trigger] ms[j]).0 == id && forall|x: int| 0 <= x < j ==> (#[trigger] ms[x]).0 != id;
                    assert(0 <= i < ms.len() && ms[i as int].0 == id && forall|x: int| 0 <= x < i ==> (#[trigger] ms[x]).0 != id);
                    if j < i {
                    } else if j > i {
                    }
                    assert(j == i);
                }
                self.modules.set(i, (id, modu));
                return;
            }
            i = i + 1;
        }
        self.modules.push((id, modu));
    }
}


/// Lexing source `fid` from its start, after `diags`; `None` where the lexer would not
/// finish or its counters would not fit.
pub open spec fn lex_file(src: Source, fid: nat, diags: Seq<DiagV>) -> Option<LexSt> {
    if room(fresh_state(diags), src.len as int) {
        lex_all(src.text@, src.len as int, fid, fresh_state(diags))
    } else {
        None
    }
}

#[verifier::opaque]
/// The front end from source `i` on: each source is lexed, then parsed, until the
/// first phase that leaves an error. The statements parsed so far and the diagnostics.
pub open spec fn front_end(srcs: Seq<Source>, i: nat, diags: Seq<DiagV>, asts: Seq<Seq<StmtV>>) -> Option<(Seq<Seq<StmtV>>, Seq<DiagV>)>
    decreases srcs.len() - i,
{
    if i >= srcs.len() {
        Some((asts, diags))
    } else {
        match lex_file(srcs[i as int], i, diags) {
            None => None,
            Some(l) => if has_error_in(l.diags) {
                Some((asts, l.diags))
            } else {
                match p_program(l.toks, i, PSt { idx: 0, diags: l.diags }, Seq::empty()) {
                    None => None,
                    Some((ast, p)) => if has_error_in(p.diags) {
                        Some((asts.push(ast), p.diags))
                    } else {
                        front_end(srcs, i + 1, p.diags, asts.push(ast))
                    },
                }
            },
        }
    }
}

/// What the module is after a file: its functions and its data.
pub type ModuleV = (Seq<FunctionV>, Seq<DataV>);

#[verifier::opaque]
/// The back end from file `i` on: each file's statements are compiled, until the first
/// that leaves an error. The backend state, and the module after each file compiled
/// before that one.
pub open spec fn back_end(asts: Seq<Seq<StmtV>>, i: nat, g: GenSt, outs: Seq<ModuleV>) -> Option<(GenSt, Seq<ModuleV>)>
    decreases asts.len() - i,
{
    if i >= asts.len() {
        Some((g, outs))
    } else {
        match g_compile(i, g, asts[i as int]) {
            None => None,
            Some(g2) => if has_error_in(g2.diags) {
                Some((g2, outs))
            } else {
                back_end(asts, i + 1, g2, outs.push((g2.out, g2.data)))
            },
        }
    }
}

#[verifier::opaque]
/// The whole compilation of `srcs` after `diags` with backend `b`: the diagnostics at the
/// end, and, where lexing and parsing left no error, the module after each file that
/// code generation went through before its first error. `None` where some phase would
/// not finish normally.
pub open spec fn pipeline(srcs: Seq<Source>, diags: Seq<DiagV>, b: QbeBackend) -> Option<(Seq<DiagV>, Option<Seq<ModuleV>>)> {
    match front_end(srcs, 0, diags, Seq::empty()) {
        None => None,
        Some((asts, d1)) => if has_error_in(d1) {
            Some((d1, None))
        } else {
            match back_end(asts, 0, b.gst(d1), Seq::empty()) {
                None => None,
                Some((g, outs)) => Some((g.diags, Some(outs))),
            }
        },
    }
}

/// One module per file, in order: the `k`-th names file `k` by its number in decimal
/// and offers nothing yet.
pub open spec fn file_modules(ms: Seq<(FileId, Module)>, n: nat) -> bool {
    &&& ms.len() == n
    &&& forall|k: int| 0 <= k < n ==> (#[trigger] ms[k]).0 == k && ms[k].1.id@ == dec(k as nat) && ms[k].1.pub_func@.len() == 0
        && ms[k].1.pub_uses@.len() == 0
}

pub open spec fn asts_v(a: Seq<Vec<Stmt>>) -> Seq<Seq<StmtV>> {
    a.map_values(|v: Vec<Stmt>| stmts_v(v@))
}

/// The compiler: a lexer and a parser of the caller's choice, and the QBE backend.
pub struct KrezCompiler<L: Lexer, P: Parser> {
    lexer: L,
    parser: P,
    backend: QbeBackend,
}

impl KrezCompiler<StdLexer, StdParser> {
    /// A compiler of fresh components.
    pub fn default() -> (c: Self)
        ensures
            forall|d: Seq<DiagV>| #[trigger] c.backend_v().gst(d) == (GenSt {
                labels: 0,
                tmps: 0,
                lits: 0,
                scopes: Seq::empty(),
                loops: Seq::empty(),
                funcs: Seq::empty(),
                strings: Seq::empty(),
                uses: Seq::empty(),
                current: Seq::empty(),
                out: Seq::empty(),
                data: Seq::empty(),
                diags: d,
            }),
    {
        KrezCompiler { lexer: StdLexer::new(), parser: StdParser::new(), backend: QbeBackend::new() }
    }
}

impl<L: Lexer, P: Parser> KrezCompiler<L, P> {
    /// The backend, whose state carries over from one compilation to the next.
    pub closed spec fn backend_v(&self) -> QbeBackend {
        self.backend
    }

    /// The backend, as it stands.
    pub fn backend(&self) -> (b: &QbeBackend)
        ensures
            *b == self.backend_v(),
    {
        &self.backend
    }

    pub fn new(lexer: L, parser: P, backend: QbeBackend) -> (c: Self)
        ensures
            c.backend_v() == backend,
    {
        KrezCompiler { lexer, parser, backend }
    }

    /// Lexes and parses source `i`: adds its statements to `asts` unless lexing left an
    /// error, and says whether to stop (an error was reported).
    #[verifier::spinoff_prover]
    fn front_file(&mut self, session: &mut Session, i: usize, asts: &mut Vec<Vec<Stmt>>) -> (stop: bool)
        requires
            old(session).wf(),
            all_wf(old(session).spec_sources()),
            i < old(session).spec_sources().len(),
            front_end(old(session).spec_sources(), i as nat, old(session).diags(), asts_v(old(asts)@)) is Some,
        ensures
            final(session).wf(),
            final(session).spec_sources() == old(session).spec_sources(),
            final(session).mangle_count() == old(session).mangle_count(),
            final(session).spec_reporter() == old(session).spec_reporter(),
            final(session).spec_modules() == old(session).spec_modules(),
            final(self).backend == old(self).backend,
            stop == has_error_in(final(session).diags()),
            stop ==> front_end(old(session).spec_sources(), i as nat, old(session).diags(), asts_v(old(asts)@)) == Some(
                (asts_v(final(asts)@), final(session).diags()),
            ),
            !stop ==> front_end(old(session).spec_sources(), i as nat, old(session).diags(), asts_v(old(asts)@)) == front_end(
                old(session).spec_sources(),
                (i + 1) as nat,
                final(session).diags(),
                asts_v(final(asts)@),
            ),
            !stop ==> final(asts)@.len() == old(asts)@.len() + 1,
    {
        let ghost srcs = session.spec_sources();
        assert(srcs[i as int].wf());
        reveal(front_end);
        let tokens = self.lexer.tokenize(session, i);
        if session.has_error() {
            return true;
        }
        let ast = self.parser.parse(session, tokens, i);
        let ghost av = asts_v(asts@);
        asts.push(ast);
        assert(asts_v(asts@) =~= av.push(stmts_v(asts@[asts@.len() - 1]@)));
        session.has_error()
    }

    /// Generates the code of file `j` and copies the module as it then stands, unless
    /// an error was reported.
    #[verifier::spinoff_prover]
    fn back_file(&mut self, session: &mut Session, j: usize, ast: &Vec<Stmt>) -> (m: Option<IrModule>)
        requires
            old(session).wf(),
            g_compile(j as nat, old(self).backend.gst(old(session).diags()), stmts_v(ast@)) is Some,
        ensures
            final(session).wf(),
            final(session).spec_sources() == old(session).spec_sources(),
            final(session).mangle_count() == old(session).mangle_count(),
            final(session).spec_reporter() == old(session).spec_reporter(),
            final(session).spec_modules() == old(session).spec_modules(),
            g_compile(j as nat, old(self).backend.gst(old(session).diags()), stmts_v(ast@)) == Some(
                final(self).backend.gst(final(session).diags()),
            ),
            final(self).backend.gst(final(session).diags()).diags == final(session).diags(),
            m is None <==> has_error_in(final(session).diags()),
            m matches Some(x) ==> functions_v(x.functions@) == final(self).backend.gst(final(session).diags()).out
                && data_v(x.data@) == final(self).backend.gst(final(session).diags()).data,
    {
        self.backend.compile(session, j, ast);
        proof {
            self.backend.lemma_gst_diags(session.diags());
        }
        if session.has_error() {
            return None;
        }
        let m = self.backend.module().copy();
        proof {
            self.backend.lemma_gst_frame(session.diags(), Seq::empty());
        }
        Some(m)
    }

    /// Compiles every source of the session, in order: lexes and parses each, stopping
    /// at the first file with an error; then, where the session holds no error, records
    /// one module per file through a `KrezCompilerApi`, loads them into the session, and
    /// generates each file's code, stopping at the first file whose code has an error.
    /// `None` where lexing or parsing reported an error; else the module as it stands
    /// after each file whose code was generated without error, in order.
    #[verifier::spinoff_prover]
    #[verifier::rlimit(50)]
    pub fn compile_sources(&mut self, session: &mut Session) -> (r: Option<Vec<(FileId, IrModule)>>)
        requires
            old(session).wf(),
            all_wf(old(session).spec_sources()),
            pipeline(old(session).spec_sources(), old(session).diags(), old(self).backend_v()) is Some,
        ensures
            final(session).wf(),
            final(session).spec_sources() == old(session).spec_sources(),
            final(session).mangle_count() == old(session).mangle_count(),
            final(session).spec_reporter() == old(session).spec_reporter(),
            ({
                let f = front_end(old(session).spec_sources(), 0, old(session).diags(), Seq::empty()).unwrap();
                &&& has_error_in(f.1) ==> final(session).spec_modules() == old(session).spec_modules()
                &&& !has_error_in(f.1) ==> (final(session).spec_modules() matches Some(ms) && file_modules(
                    ms@,
                    old(session).spec_sources().len(),
                ))
            }),
            ({
                let p = pipeline(old(session).spec_sources(), old(session).diags(), old(self).backend_v()).unwrap();
                &&& final(session).diags() == p.0
                &&& (r is None <==> p.1 is None)
                &&& (r is None ==> has_error_in(final(session).diags()))
                &&& r matches Some(out) ==> {
                    &&& out@.len() <= old(session).spec_sources().len()
                    &&& (out@.len() < old(session).spec_sources().len() <==> has_error_in(final(session).diags()))
                    &&& p.1.unwrap().len() == out@.len()
                    &&& forall|i: int| 0 <= i < out@.len() ==> (#[trigger] out@[i]).0 == i
                        && (functions_v(out@[i].1.functions@), data_v(out@[i].1.data@)) == p.1.unwrap()[i]
                }
            }),
    {
        let ghost srcs = session.spec_sources();
        let ghost b0 = self.backend;
        let ghost target = front_end(srcs, 0, session.diags(), Seq::empty());
        proof {
            reveal(pipeline);
        }
        let n = session.sources().len();
        let mut asts: Vec<Vec<Stmt>> = Vec::new();
        let mut i: usize = 0;
        assert(asts_v(asts@) =~= Seq::<Seq<StmtV>>::empty());
        while i < n
            invariant
                i <= n,
                n == srcs.len(),
                session.wf(),
                session.spec_sources() == srcs,
                session.mangle_count() == old(session).mangle_count(),
                session.spec_reporter() == old(session).spec_reporter(),
                session.spec_modules() == old(session).spec_modules(),
                all_wf(srcs),
                self.backend == b0,
                target is Some,
                front_end(srcs, i as nat, session.diags(), asts_v(asts@)) == target,
                asts@.len() == i,
                srcs == old(session).spec_sources(),
                target == front_end(old(session).spec_sources(), 0, old(session).diags(), Seq::empty()),
                b0 == old(self).backend_v(),
            decreases n - i,
        {
            let stop = self.front_file(session, i, &mut asts);
            if stop {
                proof {
                    reveal(pipeline);
                }
                return None;
            }
            i = i + 1;
        }
        proof {
            reveal(front_end);
            reveal(pipeline);
        }
        if session.has_error() {
            return None;
        }
        let ghost d1 = session.diags();
        let ghost av = asts_v(asts@);
        let mut api = KrezCompilerApi { ast: asts, modules: Vec::new() };
        let mut k: usize = 0;
        while k < n
            invariant
                k <= n,
                file_modules(api.modules@, k as nat),
                av == asts_v(api.ast@),
            decreases n - k,
        {
            let id = string_of(&u64_text(k as u64));
            api.push_mod(k, Module { id, pub_func: Vec::new(), pub_uses: Vec::new() });
            k = k + 1;
        }
        let KrezCompilerApi { ast: asts, modules: mods } = api;
        session.load_modules(mods);
        let ghost lm = session.spec_modules();
        let ghost btarget = back_end(av, 0, b0.gst(d1), Seq::empty());
        assert(pipeline(srcs, old(session).diags(), b0) == Some((btarget.unwrap().0.diags, Some(btarget.unwrap().1)))) by {
            reveal(pipeline);
        }
        let mut out: Vec<(FileId, IrModule)> = Vec::new();
        let ghost mut outs: Seq<ModuleV> = Seq::empty();
        let mut j: usize = 0;
        proof {
            b0.lemma_gst_diags(d1);
        }
        while j < n
            invariant
                j <= n,
                n == srcs.len(),
                asts@.len() == n,
                av == asts_v(asts@),
                session.wf(),
                session.spec_sources() == srcs,
                session.mangle_count() == old(session).mangle_count(),
                session.spec_reporter() == old(session).spec_reporter(),
                session.spec_modules() == lm,
                (lm matches Some(ms) && file_modules(ms@, n as nat)),
                target == Some((av, d1)),
                target == front_end(old(session).spec_sources(), 0, old(session).diags(), Seq::empty()),
                !has_error_in(d1),
                btarget is Some,
                back_end(av, j as nat, self.backend.gst(session.diags()), outs) == btarget,
                srcs == old(session).spec_sources(),
                pipeline(srcs, old(session).diags(), old(self).backend_v()) == Some((btarget.unwrap().0.diags, Some(btarget.unwrap().1))),
                self.backend.gst(session.diags()).diags == session.diags(),
                !has_error_in(session.diags()),
                out@.len() == j,
                outs.len() == j,
                forall|m: int| 0 <= m < j ==> (#[trigger] out@[m]).0 == m
                    && (functions_v(out@[m].1.functions@), data_v(out@[m].1.data@)) == outs[m],
            decreases n - j,
        {
            assert(av[j as int] == stmts_v(asts@[j as int]@));
            proof {
                reveal(back_end);
            }
            let m = self.back_file(session, j, &asts[j]);
            match m {
                None => {
                    return Some(out);
                },
                Some(x) => {
                    proof {
                        outs = outs.push((self.backend.gst(session.diags()).out, self.backend.gst(session.diags()).data));
                    }
                    out.push((j, x));
                },
            }
            j = j + 1;
        }
        proof {
            reveal(back_end);
        }
        Some(out)
    }
}

} // verus!
