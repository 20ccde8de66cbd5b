//! The QBE backend: walks the statements of a file and builds a QBE module,
//! reporting the types it cannot lower. Each step is proved to do what
//! `backend::codegen` says of it.
use crate::backend::codegen::{
    arg_types, g_compile, g_fn_args, g_program, g_stmt, lemma_g_program_prefix,
    g_assign, g_body, g_body_stmt, g_declare, g_if_branches, g_return, lemma_g_body_prefix, with_last_items,
    expr_size, exprs_size, g_args, g_binary, g_expr, lemma_exprs_size_elem, lemma_g_args_prefix,
    alloc_of, call_name, use_for, find_from, lemma_find_from, lemma_scope_from, lookup, invalid_type_error, ir_type_of, join_path, new_label, new_string, new_tmp,
    numbered, scope_from, to_qbe, var_type, declare_var, GenSt, SigV,
};
use crate::backend::ir::{
    blocks_v, data_v, string_data, functions_v, statements_v, typed_vals_v, BlockV, InstrV, IrBlock, IrCmp, IrFunction, StatementV, IrData, IrInstr, IrModule, IrStatement, IrType,
    IrValue, ValV,
};
use crate::parser::ast::{
    branches_v, lemma_branches_v_index, lemma_stmts_v_index, opt_expr_v, opt_type_v, paths_v, stmts_v, Stmt, StmtV,
};
use crate::parser::expr::{exprs_v, lemma_exprs_v_index, path_v, ArithOp, CompOp, Expr, ExprV, LogicOp, UnaryOp};
use crate::parser::Info;
use crate::parser::types::{args_v, Type, TypeV};
use crate::report::{DiagV, Diagnostic, HelpV, Level, Phase, Span};
use crate::session::source::FileId;
use crate::session::Session;
use crate::text::{append_chars, chars_of, push_str, string_eq, string_of, u64_text};
use vstd::prelude::*;

verus! {

pub open spec fn scope_v(sc: Seq<(String, Type)>) -> Seq<(Seq<char>, TypeV)> {
    sc.map_values(|p: (String, Type)| (p.0@, p.1@))
}

pub open spec fn scopes_v(s: Seq<Vec<(String, Type)>>) -> Seq<Seq<(Seq<char>, TypeV)>> {
    s.map_values(|sc: Vec<(String, Type)>| scope_v(sc@))
}

pub open spec fn pairs_v(s: Seq<(String, String)>) -> Seq<(Seq<char>, Seq<char>)> {
    s.map_values(|p: (String, String)| (p.0@, p.1@))
}

pub open spec fn types_v(s: Seq<Type>) -> Seq<TypeV> {
    s.map_values(|t: Type| t@)
}

pub open spec fn sig_v(f: (String, Option<Type>, Vec<Type>)) -> (Seq<char>, SigV) {
    (f.0@, (opt_type_v(f.1), types_v(f.2@)))
}

pub open spec fn funcs_v(s: Seq<(String, Option<Type>, Vec<Type>)>) -> Seq<(Seq<char>, SigV)> {
    s.map_values(|f: (String, Option<Type>, Vec<Type>)| sig_v(f))
}

/// `prefix_n` as a string.
fn numbered_name(prefix: &str, n: usize) -> (s: String)
    ensures
        s@ == numbered(prefix@, n as nat),
{
    let mut v = chars_of(prefix);
    push_str(&mut v, "_");
    let d = u64_text(n as u64);
    append_chars(&mut v, &d);
    string_of(&v)
}

/// The error for a type that has no QBE type.
fn invalid_type_diag(fid: FileId, t: &Type) -> (d: Diagnostic)
    ensures
        d@ == invalid_type_error(fid as nat, t@),
{
    let mut m = chars_of("Invalid type: ");
    let tt = t.text();
    append_chars(&mut m, &tt);
    let i = t.info();
    let mut notes: Vec<String> = Vec::new();
    notes.push(String::from_str("Use correct type"));
    let d = Diagnostic::new(string_of(&m), Level::Error, Span::new(fid, i.line, i.offset, i.len), Phase::CodeGen, notes, Vec::new());
    assert(d@.notes =~= seq!["Use correct type"@]);
    assert(d@.helps =~= Seq::<HelpV>::empty());
    d
}

/// The position of `k` in a list of (key, value) strings.
fn find_pair(m: &Vec<(String, String)>, k: &String) -> (r: Option<usize>)
    ensures
        match r {
            Some(i) => i < m@.len() && find_from(pairs_v(m@), k@, 0) == Some(i as int),
            None => find_from(pairs_v(m@), k@, 0) is None,
        },
{
    let ghost v = pairs_v(m@);
    let mut i: usize = 0;
    while i < m.len()
        invariant
            i <= m.len(),
            v == pairs_v(m@),
            find_from(v, k@, 0) == find_from(v, k@, i as int),
        decreases m.len() - i,
    {
        if string_eq(&m[i].0, k) {
            proof {
                lemma_find_from(v, k@, 0);
            }
            return Some(i);
        }
        i = i + 1;
    }
    None
}

/// The position of `k` in a scope.
fn find_var(m: &Vec<(String, Type)>, k: &String) -> (r: Option<usize>)
    ensures
        match r {
            Some(i) => i < m@.len() && find_from(scope_v(m@), k@, 0) == Some(i as int),
            None => find_from(scope_v(m@), k@, 0) is None,
        },
{
    let ghost v = scope_v(m@);
    let mut i: usize = 0;
    while i < m.len()
        invariant
            i <= m.len(),
            v == scope_v(m@),
            find_from(v, k@, 0) == find_from(v, k@, i as int),
        decreases m.len() - i,
    {
        if string_eq(&m[i].0, k) {
            proof {
                lemma_find_from(v, k@, 0);
            }
            return Some(i);
        }
        i = i + 1;
    }
    None
}

/// The position of function `k` among the known functions.
fn find_func(m: &Vec<(String, Option<Type>, Vec<Type>)>, k: &String) -> (r: Option<usize>)
    ensures
        match r {
            Some(i) => i < m@.len() && find_from(funcs_v(m@), k@, 0) == Some(i as int),
            None => find_from(funcs_v(m@), k@, 0) is None,
        },
{
    let ghost v = funcs_v(m@);
    let mut i: usize = 0;
    while i < m.len()
        invariant
            i <= m.len(),
            v == funcs_v(m@),
            find_from(v, k@, 0) == find_from(v, k@, i as int),
        decreases m.len() - i,
    {
        if string_eq(&m[i].0, k) {
            proof {
                lemma_find_from(v, k@, 0);
            }
            return Some(i);
        }
        i = i + 1;
    }
    None
}

/// A path joined with `_`.
fn join_strings(p: &Vec<String>) -> (r: String)
    ensures
        r@ == join_path(path_v(p@)),
{
    let ghost pv = path_v(p@);
    let mut v: Vec<char> = Vec::new();
    let mut i: usize = 0;
    while i < p.len()
        invariant
            i <= p.len(),
            pv == path_v(p@),
            v@ == join_path(pv.take(i as int)),
        decreases p.len() - i,
    {
        let w = crate::text::chars_of_string(&p[i]);
        if i > 0 {
            push_str(&mut v, "_");
        }
        append_chars(&mut v, &w);
        proof {
            let t = pv.take(i + 1);
            assert(t.drop_last() =~= pv.take(i as int));
            assert(t.last() == p@[i as int]@);
            if i == 0 {
                assert(v@ =~= t[0]);
            }
        }
        i = i + 1;
    }
    assert(pv.take(p.len() as int) =~= pv);
    string_of(&v)
}

/// Backend that lowers statements to a QBE module.
pub struct QbeBackend {
    file_id: FileId,
    module: IrModule,
    label_count: usize,
    tmp_count: usize,
    lit_count: usize,
    scopes: Vec<Vec<(String, Type)>>,
    /// (condition check, exit) labels of the enclosing loops.
    loop_stack: Vec<(String, String)>,
    /// Known functions: name, return type and argument types.
    functions: Vec<(String, Option<Type>, Vec<Type>)>,
    /// String literals and the data that holds each.
    strings: Vec<(String, String)>,
    uses: Vec<Vec<String>>,
    current_func: String,
}

impl QbeBackend {
    /// The backend's state, with `diags` as the diagnostics so far.
    pub closed spec fn gst(&self, diags: Seq<DiagV>) -> GenSt {
        GenSt {
            labels: self.label_count as nat,
            tmps: self.tmp_count as nat,
            lits: self.lit_count as nat,
            scopes: scopes_v(self.scopes@),
            loops: pairs_v(self.loop_stack@),
            funcs: funcs_v(self.functions@),
            strings: pairs_v(self.strings@),
            uses: paths_v(self.uses@),
            current: self.current_func@,
            out: functions_v(self.module.functions@),
            data: data_v(self.module.data@),
            diags,
        }
    }

    /// The file being compiled.
    pub closed spec fn fid(&self) -> nat {
        self.file_id as nat
    }

    /// What every step keeps: the file, and the session but for its diagnostics.
    pub open spec fn kept(b0: QbeBackend, b1: QbeBackend, s0: Session, s1: Session) -> bool {
        &&& b1.fid() == b0.fid()
        &&& s1.wf()
        &&& s1.spec_sources() == s0.spec_sources()
        &&& s1.mangle_count() == s0.mangle_count()
        &&& s1.spec_reporter() == s0.spec_reporter()
        &&& s1.spec_modules() == s0.spec_modules()
    }

    /// A backend with no module, counters at zero and nothing known.
    pub fn new() -> (b: Self)
        ensures
            b.fid() == 0,
            forall|d: Seq<DiagV>| #[trigger] b.gst(d) == (GenSt {
                labels: 0,
                tmps: 0,
                lits: 0,
                scopes: Seq::empty(),
                loops: Seq::empty(),
                funcs: Seq::empty(),
                strings: Seq::empty(),
                uses: Seq::empty(),
                current: Seq::empty(),
                out: Seq::empty(),
                data: Seq::empty(),
                diags: d,
            }),
    {
        let b = QbeBackend {
            file_id: 0,
            module: IrModule { functions: Vec::new(), data: Vec::new() },
            label_count: 0,
            tmp_count: 0,
            lit_count: 0,
            scopes: Vec::new(),
            loop_stack: Vec::new(),
            functions: Vec::new(),
            strings: Vec::new(),
            uses: Vec::new(),
            current_func: String::new(),
        };
        assert forall|d: Seq<DiagV>| #[trigger] b.gst(d) == (GenSt {
            labels: 0,
            tmps: 0,
            lits: 0,
            scopes: Seq::empty(),
            loops: Seq::empty(),
            funcs: Seq::empty(),
            strings: Seq::empty(),
            uses: Seq::empty(),
            current: Seq::empty(),
            out: Seq::empty(),
            data: Seq::empty(),
            diags: d,
        }) by {
            assert(scopes_v(b.scopes@) =~= Seq::empty());
            assert(pairs_v(b.loop_stack@) =~= Seq::empty());
            assert(funcs_v(b.functions@) =~= Seq::empty());
            assert(pairs_v(b.strings@) =~= Seq::empty());
            assert(paths_v(b.uses@) =~= Seq::empty());
            assert(functions_v(b.module.functions@) =~= Seq::empty());
            assert(data_v(b.module.data@) =~= Seq::empty());
            assert(b.current_func@ =~= Seq::<char>::empty());
        }
        b
    }

    /// The state holds the diagnostics it is given.
    pub proof fn lemma_gst_diags(&self, d: Seq<DiagV>)
        ensures
            self.gst(d).diags == d,
    {
    }

    /// Only the diagnostics of the state depend on the diagnostics it is given.
    pub proof fn lemma_gst_frame(&self, d1: Seq<DiagV>, d2: Seq<DiagV>)
        ensures
            self.gst(d2) == (GenSt { diags: d2, ..self.gst(d1) }),
    {
    }

    /// The module built so far.
    pub fn module(&self) -> (m: &IrModule)
        ensures
            functions_v(m.functions@) == self.gst(Seq::empty()).out,
            data_v(m.data@) == self.gst(Seq::empty()).data,
    {
        &self.module
    }

    /// A fresh label `prefix_n`.
    fn new_label(&mut self, prefix: &str, Ghost(d): Ghost<Seq<DiagV>>) -> (label: String)
        requires
            new_label(old(self).gst(d), prefix@) is Some,
        ensures
            new_label(old(self).gst(d), prefix@) == Some((final(self).gst(d), label@)),
            final(self).fid() == old(self).fid(),
    {
        let label = numbered_name(prefix, self.label_count);
        self.label_count = self.label_count + 1;
        label
    }

    /// A fresh temporary `_tmp_n`.
    fn new_tmp(&mut self, Ghost(d): Ghost<Seq<DiagV>>) -> (tmp: String)
        requires
            new_tmp(old(self).gst(d)) is Some,
        ensures
            new_tmp(old(self).gst(d)) == Some((final(self).gst(d), tmp@)),
            final(self).fid() == old(self).fid(),
    {
        let tmp = numbered_name("_tmp", self.tmp_count);
        self.tmp_count = self.tmp_count + 1;
        tmp
    }

    /// The data that holds string `text`, made on its first use.
    #[verifier::spinoff_prover]
    fn new_string(&mut self, text: &String, Ghost(d): Ghost<Seq<DiagV>>) -> (name: String)
        requires
            new_string(old(self).gst(d), text@) is Some,
        ensures
            new_string(old(self).gst(d), text@) == Some((final(self).gst(d), name@)),
            final(self).fid() == old(self).fid(),
    {
        match find_pair(&self.strings, text) {
            Some(i) => {
                proof {
                    lemma_find_from(pairs_v(self.strings@), text@, 0);
                }
                self.strings[i].1.clone()
            },
            None => {
                let name = numbered_name("_lit", self.lit_count);
                let ghost s0 = pairs_v(self.strings@);
                let ghost d0 = data_v(self.module.data@);
                self.strings.push((text.clone(), name.clone()));
                self.module.data.push(IrData::string(&name, text));
                self.lit_count = self.lit_count + 1;
                assert(pairs_v(self.strings@) =~= s0.push((text@, name@)));
                assert(data_v(self.module.data@) =~= d0.push(string_data(name@, text@)));
                name
            },
        }
    }

    /// Opens a scope.
    fn push_scope(&mut self, Ghost(d): Ghost<Seq<DiagV>>)
        ensures
            final(self).gst(d) == (GenSt { scopes: old(self).gst(d).scopes.push(Seq::empty()), ..old(self).gst(d) }),
            final(self).fid() == old(self).fid(),
    {
        let ghost s0 = scopes_v(self.scopes@);
        self.scopes.push(Vec::new());
        assert(scope_v(Seq::<(String, Type)>::empty()) =~= Seq::empty());
        assert(scopes_v(self.scopes@) =~= s0.push(Seq::empty()));
    }

    /// Closes the innermost scope.
    fn pop_scope(&mut self, Ghost(d): Ghost<Seq<DiagV>>)
        ensures
            final(self).gst(d) == (GenSt {
                scopes: if old(self).gst(d).scopes.len() > 0 {
                    old(self).gst(d).scopes.drop_last()
                } else {
                    old(self).gst(d).scopes
                },
                ..old(self).gst(d)
            }),
            final(self).fid() == old(self).fid(),
    {
        let ghost s0 = scopes_v(self.scopes@);
        if self.scopes.len() > 0 {
            self.scopes.pop();
            assert(scopes_v(self.scopes@) =~= s0.drop_last());
        }
    }

    /// The type of variable `id`, from the outermost scope that has it; unknown when
    /// none has it.
    #[verifier::spinoff_prover]
    fn var_info(&self, id: &String) -> (t: Type)
        ensures
            t@ == var_type(self.gst(Seq::empty()).scopes, id@),
    {
        let ghost sv = scopes_v(self.scopes@);
        let mut i: usize = 0;
        while i < self.scopes.len()
            invariant
                i <= self.scopes.len(),
                sv == scopes_v(self.scopes@),
                scope_from(sv, id@, 0) == scope_from(sv, id@, i as int),
            decreases self.scopes.len() - i,
        {
            assert(sv[i as int] == scope_v(self.scopes@[i as int]@));
            match find_var(&self.scopes[i], id) {
                Some(j) => {
                    proof {
                        lemma_find_from(sv[i as int], id@, 0);
                    }
                    return self.scopes[i][j].1.copy();
                },
                None => {},
            }
            i = i + 1;
        }
        Type::Unknown
    }

    /// Declares `id` with type `ty`: rebinds it in the outermost scope that has it,
    /// else binds it in the innermost scope.
    #[verifier::spinoff_prover]
    fn push_var(&mut self, id: String, ty: Type, Ghost(d): Ghost<Seq<DiagV>>)
        ensures
            final(self).gst(d) == (GenSt { scopes: declare_var(old(self).gst(d).scopes, id@, ty@), ..old(self).gst(d) }),
            final(self).fid() == old(self).fid(),
    {
        let ghost sv = scopes_v(self.scopes@);
        let ghost idv = id@;
        let ghost tyv = ty@;
        let mut i: usize = 0;
        while i < self.scopes.len()
            invariant
                i <= self.scopes.len(),
                sv == scopes_v(self.scopes@),
                self.scopes@ == old(self).scopes@,
                *self == *old(self),
                idv == id@,
                tyv == ty@,
                scope_from(sv, idv, 0) == scope_from(sv, idv, i as int),
            decreases self.scopes.len() - i,
        {
            assert(sv[i as int] == scope_v(self.scopes@[i as int]@));
            match find_var(&self.scopes[i], &id) {
                Some(j) => {
                    proof {
                        lemma_find_from(sv[i as int], idv, 0);
                    }
                    let ghost sc0 = self.scopes@[i as int]@;
                    let mut sc: Vec<(String, Type)> = Vec::new();
                    std::mem::swap(&mut sc, &mut self.scopes[i]);
                    assert(sc@ == sc0);
                    sc.set(j, (id, ty));
                    assert(scope_v(sc@) =~= scope_v(sc0).update(j as int, (idv, tyv)));
                    self.scopes.set(i, sc);
                    assert(scopes_v(self.scopes@) =~= sv.update(i as int, crate::backend::codegen::insert(sv[i as int], idv, tyv)));
                    return;
                },
                None => {},
            }
            i = i + 1;
        }
        let n = self.scopes.len();
        if n > 0 {
            proof {
                lemma_scope_from(sv, idv, 0);
                assert(find_from(sv[n - 1], idv, 0) is None);
            }
            let ghost sc0 = self.scopes@[n - 1]@;
            let mut sc: Vec<(String, Type)> = Vec::new();
            std::mem::swap(&mut sc, &mut self.scopes[n - 1]);
            assert(sc@ == sc0);
            sc.push((id, ty));
            assert(scope_v(sc@) =~= scope_v(sc0).push((idv, tyv)));
            self.scopes.set(n - 1, sc);
            assert(scopes_v(self.scopes@) =~= sv.update(n - 1, crate::backend::codegen::insert(sv.last(), idv, tyv)));
        }
    }

    /// The instructions of `e`, appended to `items`: the temporary reserved for it,
    /// its value and its type.
    #[verifier::spinoff_prover]
    fn gen_expr(&mut self, session: &mut Session, items: &mut Vec<IrStatement>, e: &Expr, ty: &Type) -> (r: (String, IrValue, Type))
        requires
            old(session).wf(),
            g_expr(old(self).fid(), old(self).gst(old(session).diags()), statements_v(old(items)@), e@, ty@) is Some,
        ensures
            Self::kept(*old(self), *final(self), *old(session), *final(session)),
            g_expr(old(self).fid(), old(self).gst(old(session).diags()), statements_v(old(items)@), e@, ty@) == Some(
                (final(self).gst(final(session).diags()), statements_v(final(items)@), r.0@, r.1@, r.2@),
            ),
        decreases expr_size(e@), 2int,
    {
        let tmp = self.new_tmp(Ghost(session.diags()));
        match e {
            Expr::Int(n, i) => (tmp, IrValue::Const(#[verifier::truncate] (*n as u64)), Type::I32(*i)),
            Expr::Float(x, i) => (tmp, IrValue::Float(x.clone()), Type::F32(*i)),
            Expr::Id(path, _) => {
                let id = join_strings(path);
                let vt = self.var_info(&id);
                vt.to_qbe(self, session);
                (tmp, IrValue::Temporary(id), vt)
            },
            Expr::Bool(b, i) => (tmp, IrValue::Const(if *b { 1 } else { 0 }), Type::Bool(*i)),
            Expr::Str(x, i) => {
                let name = self.new_string(x, Ghost(session.diags()));
                (tmp, IrValue::Global(name), Type::Str(*i))
            },
            Expr::Arith(l, op, r, i) => self.gen_binary(session, items, tmp, l, r, ty, 0, *op, LogicOp::And, CompOp::Eq, *i),
            Expr::Logic(l, op, r, i) => self.gen_binary(session, items, tmp, l, r, ty, 1, ArithOp::Add, *op, CompOp::Eq, *i),
            Expr::Comp(l, op, r, i) => self.gen_binary(session, items, tmp, l, r, ty, 2, ArithOp::Add, LogicOp::And, *op, *i),
            Expr::Unary(op, x, _) => {
                let (_, v, xt) = self.gen_expr(session, items, x, ty);
                match op {
                    UnaryOp::Neg => {
                        let q = xt.to_qbe(self, session);
                        items.push(IrStatement::Assign(IrValue::Temporary(tmp.clone()), q, IrInstr::Neg(v)));
                        (tmp.clone(), IrValue::Temporary(tmp), xt)
                    },
                    UnaryOp::Not => {
                        let zi = Info::empty();
                        let zero = Expr::Int(0, zi);
                        let xc = x.copy();
                        assert(zero@ == ExprV::Int(0, zi));
                        let is_zero = Expr::Comp(Box::new(xc), CompOp::Eq, Box::new(zero), zi);
                        proof {
                            assert(is_zero@ == ExprV::Comp(Box::new(x@), CompOp::Eq, Box::new(ExprV::Int(0, zi)), zi));
                            assert(expr_size(ExprV::Int(0, zi)) == 1);
                            assert(expr_size(is_zero@) == 2 + expr_size(x@));
                        }
                        let (ntmp, _, _) = self.gen_expr(session, items, &is_zero, &xt);
                        let q = xt.to_qbe(self, session);
                        items.push(IrStatement::Assign(IrValue::Temporary(tmp.clone()), q, IrInstr::Copy(IrValue::Temporary(ntmp))));
                        (tmp.clone(), IrValue::Temporary(tmp), xt)
                    },
                }
            },
            Expr::Call(f, args, _) => match &**f {
                Expr::Id(path, pinfo) => {
                    assert((**f)@ == ExprV::Id(path_v(path@), *pinfo));
                    let name = self.build_call_id(path);
                    let targs = self.gen_args(session, items, &name, args);
                    let rt = match find_func(&self.functions, &name) {
                        Some(k) => {
                            proof {
                                lemma_find_from(funcs_v(self.functions@), name@, 0);
                            }
                            match &self.functions[k].1 {
                                Some(t) => t.copy(),
                                None => Type::Unknown,
                            }
                        },
                        None => Type::Unknown,
                    };
                    items.push(IrStatement::Volatile(IrInstr::Call(name, targs)));
                    (tmp.clone(), IrValue::Temporary(tmp), rt)
                },
                _ => {
                    proof {
                        assert(false);
                    }
                    (tmp.clone(), IrValue::Temporary(tmp), Type::Unknown)
                },
            },
            Expr::Invalid => {
                proof {
                    assert(false);
                }
                (tmp.clone(), IrValue::Temporary(tmp), Type::Unknown)
            },
        }
    }

    /// `l op r`: the operands, then the operation into the reserved temporary `tmp`.
    #[verifier::spinoff_prover]
    fn gen_binary(
        &mut self,
        session: &mut Session,
        items: &mut Vec<IrStatement>,
        tmp: String,
        l: &Expr,
        r: &Expr,
        ty: &Type,
        op: u8,
        aop: ArithOp,
        lop: LogicOp,
        cop: CompOp,
        cinfo: Info,
    ) -> (res: (String, IrValue, Type))
        requires
            old(session).wf(),
            g_binary(old(self).fid(), old(self).gst(old(session).diags()), statements_v(old(items)@), tmp@, l@, r@, ty@, op as int, aop, lop, cop, cinfo) is Some,
        ensures
            Self::kept(*old(self), *final(self), *old(session), *final(session)),
            g_binary(old(self).fid(), old(self).gst(old(session).diags()), statements_v(old(items)@), tmp@, l@, r@, ty@, op as int, aop, lop, cop, cinfo) == Some(
                (final(self).gst(final(session).diags()), statements_v(final(items)@), res.0@, res.1@, res.2@),
            ),
        decreases 1 + expr_size(l@) + expr_size(r@), 1int,
    {
        let (_, lv, lt) = self.gen_expr(session, items, l, ty);
        let (_, rv, _) = self.gen_expr(session, items, r, ty);
        let instr = if op == 0 {
            match aop {
                ArithOp::Add => IrInstr::Add(lv, rv),
                ArithOp::Sub => IrInstr::Sub(lv, rv),
                ArithOp::Mul => IrInstr::Mul(lv, rv),
                ArithOp::Div => IrInstr::Div(lv, rv),
            }
        } else if op == 1 {
            match lop {
                LogicOp::And => IrInstr::And(lv, rv),
                LogicOp::Or => IrInstr::Or(lv, rv),
            }
        } else {
            let c = match cop {
                CompOp::Eq => IrCmp::Eq,
                CompOp::Ne => IrCmp::Ne,
                CompOp::Gt => IrCmp::Sgt,
                CompOp::Ge => IrCmp::Sge,
                CompOp::Lt => IrCmp::Slt,
                CompOp::Le => IrCmp::Sle,
            };
            IrInstr::Cmp(IrType::Word, c, lv, rv)
        };
        let q = ty.to_qbe(self, session);
        let rty = if op == 2 {
            Type::Bool(cinfo)
        } else {
            lt
        };
        items.push(IrStatement::Assign(IrValue::Temporary(tmp.clone()), q, instr));
        (tmp.clone(), IrValue::Temporary(tmp), rty)
    }

    /// The arguments of a call of `name`, each generated with the type of its parameter.
    #[verifier::spinoff_prover]
    fn gen_args(&mut self, session: &mut Session, items: &mut Vec<IrStatement>, name: &String, args: &Vec<Expr>) -> (out: Vec<(IrType, IrValue)>)
        requires
            old(session).wf(),
            g_args(old(self).fid(), old(self).gst(old(session).diags()), statements_v(old(items)@), name@, exprs_v(args@)) is Some,
        ensures
            Self::kept(*old(self), *final(self), *old(session), *final(session)),
            g_args(old(self).fid(), old(self).gst(old(session).diags()), statements_v(old(items)@), name@, exprs_v(args@)) == Some(
                (final(self).gst(final(session).diags()), statements_v(final(items)@), typed_vals_v(out@)),
            ),
        decreases exprs_size(exprs_v(args@)), 3int,
    {
        let ghost all = exprs_v(args@);
        let ghost fid = self.fid();
        let ghost st0 = self.gst(session.diags());
        let ghost it0 = statements_v(items@);
        proof {
            lemma_exprs_v_index(args@);
            assert(all.take(0) =~= Seq::<ExprV>::empty());
        }
        let mut out: Vec<(IrType, IrValue)> = Vec::new();
        assert(typed_vals_v(out@) =~= Seq::<(IrType, ValV)>::empty());
        let mut i: usize = 0;
        while i < args.len()
            invariant
                Self::kept(*old(self), *self, *old(session), *session),
                i <= args.len(),
                all == exprs_v(args@),
                all.len() == args.len(),
                forall|j: int| 0 <= j < args.len() ==> #[trigger] all[j] == args@[j]@,
                fid == self.fid(),
                st0 == old(self).gst(old(session).diags()),
                it0 == statements_v(old(items)@),
                g_args(fid, st0, it0, name@, all) is Some,
                g_args(fid, st0, it0, name@, all.take(i as int)) == Some(
                    (self.gst(session.diags()), statements_v(items@), typed_vals_v(out@)),
                ),
            decreases args.len() - i,
        {
            proof {
                lemma_g_args_prefix(fid, st0, it0, name@, all, i + 1);
                assert(all.take(i + 1).drop_last() =~= all.take(i as int));
                assert(all.take(i + 1).last() == all[i as int]);
                lemma_exprs_size_elem(all, i as int);
            }
            assert(lookup(funcs_v(self.functions@), name@) is Some);
            let k = find_func(&self.functions, name);
            let k = match k {
                Some(k) => k,
                None => {
                    proof {
                        assert(false);
                    }
                    0
                },
            };
            proof {
                lemma_find_from(funcs_v(self.functions@), name@, 0);
            }
            let pty = self.functions[k].2[i].copy();
            let (_, v, _) = self.gen_expr(session, items, &args[i], &pty);
            let q = pty.to_qbe(self, session);
            let ghost o0 = typed_vals_v(out@);
            out.push((q, v));
            assert(typed_vals_v(out@) =~= o0.push((q, v@)));
            i = i + 1;
        }
        assert(all.take(args.len() as int) =~= all);
        out
    }

    /// `id = val` into the last block.
    #[verifier::spinoff_prover]
    fn gen_assign(&mut self, session: &mut Session, blocks: &mut Vec<IrBlock>, id: &String, val: &Expr)
        requires
            old(session).wf(),
            g_assign(old(self).fid(), old(self).gst(old(session).diags()), blocks_v(old(blocks)@), id@, val@) is Some,
        ensures
            Self::kept(*old(self), *final(self), *old(session), *final(session)),
            g_assign(old(self).fid(), old(self).gst(old(session).diags()), blocks_v(old(blocks)@), id@, val@) == Some(
                (final(self).gst(final(session).diags()), blocks_v(final(blocks)@)),
            ),
    {
        let ghost bs = blocks_v(blocks@);
        let ty = self.var_info(id);
        let mut b = blocks.pop().unwrap();
        assert(b@ == bs.last());
        let (_, v, _) = self.gen_expr(session, &mut b.items, val, &ty);
        let q = ty.to_qbe(self, session);
        let ghost it1 = statements_v(b.items@);
        let ghost vv = v@;
        b.items.push(IrStatement::Assign(IrValue::Temporary(id.clone()), q, IrInstr::Copy(v)));
        assert(statements_v(b.items@) =~= it1.push(StatementV::Assign(ValV::Temporary(id@), q, InstrV::Copy(vv))));
        blocks.push(b);
        assert(blocks_v(blocks@) =~= with_last_items(bs, b@.items));
    }

    /// A declaration: its stack slot, the variable in scope, then its value.
    #[verifier::spinoff_prover]
    fn gen_declare(&mut self, session: &mut Session, blocks: &mut Vec<IrBlock>, id: &String, ty: &Type, val: &Expr)
        requires
            old(session).wf(),
            g_declare(old(self).fid(), old(self).gst(old(session).diags()), blocks_v(old(blocks)@), id@, ty@, val@) is Some,
        ensures
            Self::kept(*old(self), *final(self), *old(session), *final(session)),
            g_declare(old(self).fid(), old(self).gst(old(session).diags()), blocks_v(old(blocks)@), id@, ty@, val@) == Some(
                (final(self).gst(final(session).diags()), blocks_v(final(blocks)@)),
            ),
    {
        let ghost bs = blocks_v(blocks@);
        let sz = ty.size(self, session);
        let alloc = if sz.0 == 8 {
            IrInstr::Alloc8(sz.1 as u64)
        } else {
            IrInstr::Alloc4(sz.1 as u32)
        };
        let q = ty.to_qbe(self, session);
        let mut b = blocks.pop().unwrap();
        assert(b@ == bs.last());
        let ghost it1 = statements_v(b.items@);
        let ghost av = alloc@;
        b.items.push(IrStatement::Assign(IrValue::Temporary(id.clone()), q, alloc));
        assert(statements_v(b.items@) =~= it1.push(StatementV::Assign(ValV::Temporary(id@), q, av)));
        blocks.push(b);
        assert(blocks_v(blocks@) =~= with_last_items(bs, b@.items));
        self.push_var(id.clone(), ty.copy(), Ghost(session.diags()));
        self.gen_assign(session, blocks, id, val);
    }

    /// `ret`, with the value converted to the return type of the current function.
    #[verifier::spinoff_prover]
    fn gen_return(&mut self, session: &mut Session, blocks: &mut Vec<IrBlock>, value: &Option<Expr>)
        requires
            old(session).wf(),
            g_return(old(self).fid(), old(self).gst(old(session).diags()), blocks_v(old(blocks)@), opt_expr_v(*value)) is Some,
        ensures
            Self::kept(*old(self), *final(self), *old(session), *final(session)),
            g_return(old(self).fid(), old(self).gst(old(session).diags()), blocks_v(old(blocks)@), opt_expr_v(*value)) == Some(
                (final(self).gst(final(session).diags()), blocks_v(final(blocks)@)),
            ),
    {
        let ghost bs = blocks_v(blocks@);
        let mut b = blocks.pop().unwrap();
        assert(b@ == bs.last());
        match value {
            None => {
                let ghost it1 = statements_v(b.items@);
                b.items.push(IrStatement::Volatile(IrInstr::Ret(None)));
                assert(statements_v(b.items@) =~= it1.push(StatementV::Volatile(InstrV::Ret(None))));
            },
            Some(e) => {
                let k = match find_func(&self.functions, &self.current_func) {
                    Some(k) => k,
                    None => {
                        proof {
                            assert(false);
                        }
                        0
                    },
                };
                proof {
                    lemma_find_from(funcs_v(self.functions@), self.current_func@, 0);
                }
                let rt = match &self.functions[k].1 {
                    Some(t) => t.copy(),
                    None => {
                        proof {
                            assert(false);
                        }
                        Type::Unknown
                    },
                };
                let (_, v, _) = self.gen_expr(session, &mut b.items, e, &rt);
                let ghost it1 = statements_v(b.items@);
                let ghost vv = v@;
                b.items.push(IrStatement::Volatile(IrInstr::Ret(Some(v))));
                assert(statements_v(b.items@) =~= it1.push(StatementV::Volatile(InstrV::Ret(Some(vv)))));
            },
        }
        blocks.push(b);
        assert(blocks_v(blocks@) =~= with_last_items(bs, b@.items));
    }

    /// The statements of a body, in order.
    #[verifier::spinoff_prover]
    fn gen_body(&mut self, session: &mut Session, blocks: &mut Vec<IrBlock>, body: &Vec<Stmt>)
        requires
            old(session).wf(),
            g_body(old(self).fid(), old(self).gst(old(session).diags()), blocks_v(old(blocks)@), stmts_v(body@)) is Some,
        ensures
            Self::kept(*old(self), *final(self), *old(session), *final(session)),
            g_body(old(self).fid(), old(self).gst(old(session).diags()), blocks_v(old(blocks)@), stmts_v(body@)) == Some(
                (final(self).gst(final(session).diags()), blocks_v(final(blocks)@)),
            ),
        decreases body, 0int,
    {
        let ghost all = stmts_v(body@);
        let ghost fid = self.fid();
        let ghost st0 = self.gst(session.diags());
        let ghost bs0 = blocks_v(blocks@);
        proof {
            lemma_stmts_v_index(body@);
            assert(all.take(0) =~= Seq::<StmtV>::empty());
        }
        let mut i: usize = 0;
        while i < body.len()
            invariant
                Self::kept(*old(self), *self, *old(session), *session),
                i <= body.len(),
                all == stmts_v(body@),
                all.len() == body.len(),
                forall|j: int| 0 <= j < body.len() ==> #[trigger] all[j] == body@[j]@,
                fid == self.fid(),
                st0 == old(self).gst(old(session).diags()),
                bs0 == blocks_v(old(blocks)@),
                g_body(fid, st0, bs0, all) is Some,
                g_body(fid, st0, bs0, all.take(i as int)) == Some((self.gst(session.diags()), blocks_v(blocks@))),
            decreases body.len() - i,
        {
            proof {
                lemma_g_body_prefix(fid, st0, bs0, all, i + 1);
                assert(all.take(i + 1).drop_last() =~= all.take(i as int));
                assert(all.take(i + 1).last() == all[i as int]);
            }
            self.gen_body_stmt(session, blocks, &body[i]);
            i = i + 1;
        }
        assert(all.take(body.len() as int) =~= all);
    }

    /// The branches of an `if`; an `else` branch ends them.
    #[verifier::spinoff_prover]
    fn gen_if_branches(&mut self, session: &mut Session, blocks: &mut Vec<IrBlock>, branches: &Vec<(Option<Expr>, Vec<Stmt>)>, exit: &String)
        requires
            old(session).wf(),
            g_if_branches(old(self).fid(), old(self).gst(old(session).diags()), blocks_v(old(blocks)@), branches_v(branches@), 0, exit@, None) is Some,
        ensures
            Self::kept(*old(self), *final(self), *old(session), *final(session)),
            g_if_branches(old(self).fid(), old(self).gst(old(session).diags()), blocks_v(old(blocks)@), branches_v(branches@), 0, exit@, None) == Some(
                (final(self).gst(final(session).diags()), blocks_v(final(blocks)@)),
            ),
        decreases branches, 0int,
    {
        let ghost bv = branches_v(branches@);
        let ghost fid = self.fid();
        let ghost target = g_if_branches(fid, self.gst(session.diags()), blocks_v(blocks@), bv, 0, exit@, None);
        proof {
            lemma_branches_v_index(branches@);
        }
        let mut given: Option<(String, String)> = None;
        let mut i: usize = 0;
        loop
            invariant_except_break
                g_if_branches(fid, self.gst(session.diags()), blocks_v(blocks@), bv, i as int, exit@, label_pair_v(given)) == target,
            invariant
                Self::kept(*old(self), *self, *old(session), *session),
                i <= branches.len(),
                fid == self.fid(),
                bv == branches_v(branches@),
                bv.len() == branches.len(),
                forall|j: int| 0 <= j < branches.len() ==> #[trigger] bv[j] == (opt_expr_v(branches@[j].0), stmts_v(branches@[j].1@)),
                target is Some,
                target == g_if_branches(fid, old(self).gst(old(session).diags()), blocks_v(old(blocks)@), bv, 0, exit@, None),
            ensures
                Self::kept(*old(self), *self, *old(session), *session),
                target == Some((self.gst(session.diags()), blocks_v(blocks@))),
            decreases branches.len() - i,
        {
            if i >= branches.len() {
                break;
            }
            let (check, start) = match given {
                Some(p) => p,
                None => {
                    let c = self.new_label("if_check", Ghost(session.diags()));
                    let st = self.new_label("if_start", Ghost(session.diags()));
                    (c, st)
                },
            };
            proof {
                assert(decreases_to!(*branches => branches[i as int]));
                assert(decreases_to!(branches[i as int] => branches[i as int].1));
            }
            match &branches[i].0 {
                None => {
                    add_block(blocks, start);
                    self.gen_body(session, blocks, &branches[i].1);
                    given = None;
                    break;
                },
                Some(cond) => {
                    let mut items: Vec<IrStatement> = Vec::new();
                    assert(statements_v(items@) =~= Seq::<StatementV>::empty());
                    let (_, v, _) = self.gen_expr(session, &mut items, cond, &Type::Bool(cond.info()));
                    let more = i + 1 < branches.len();
                    let (next, target_label) = if more {
                        let c2 = self.new_label("if_check", Ghost(session.diags()));
                        let s2 = self.new_label("if_start", Ghost(session.diags()));
                        let t = match &branches[i + 1].0 {
                            Some(_) => c2.clone(),
                            None => s2.clone(),
                        };
                        (Some((c2, s2)), t)
                    } else {
                        (None, exit.clone())
                    };
                    let ghost bs = blocks_v(blocks@);
                    let ghost it = statements_v(items@);
                    let ghost vv = v@;
                    let ghost tl = target_label@;
                    items.push(IrStatement::Volatile(IrInstr::Jnz(v, start.clone(), target_label)));
                    assert(statements_v(items@) =~= it.push(StatementV::Volatile(InstrV::Jnz(vv, start@, tl))));
                    blocks.push(IrBlock { label: check, items });
                    proof {
                        let bs1 = crate::backend::codegen::add_block(bs, check@);
                        assert(blocks_v(blocks@) =~= with_last_items(bs1, statements_v(items@)));
                    }
                    add_block(blocks, start);
                    self.gen_body(session, blocks, &branches[i].1);
                    add_instr(blocks, IrInstr::Jmp(exit.clone()));
                    given = next;
                },
            }
            i = i + 1;
        }
    }

    /// `while cond { body }`: a block that checks the condition, the body, and the exit.
    #[verifier::spinoff_prover]
    #[verifier::rlimit(60)]
    fn gen_while(&mut self, session: &mut Session, blocks: &mut Vec<IrBlock>, cond: &Expr, body: &Vec<Stmt>)
        requires
            old(session).wf(),
            g_body_stmt(old(self).fid(), old(self).gst(old(session).diags()), blocks_v(old(blocks)@), StmtV::While(cond@, stmts_v(body@))) is Some,
        ensures
            Self::kept(*old(self), *final(self), *old(session), *final(session)),
            g_body_stmt(old(self).fid(), old(self).gst(old(session).diags()), blocks_v(old(blocks)@), StmtV::While(cond@, stmts_v(body@))) == Some(
                (final(self).gst(final(session).diags()), blocks_v(final(blocks)@)),
            ),
        decreases body, 1int,
    {
        let ghost bs = blocks_v(blocks@);
        let check = self.new_label("while_check", Ghost(session.diags()));
        let start = self.new_label("while_start", Ghost(session.diags()));
        let exit = self.new_label("while_end", Ghost(session.diags()));
        let ghost l0 = pairs_v(self.loop_stack@);
        self.loop_stack.push((check.clone(), exit.clone()));
        assert(pairs_v(self.loop_stack@) =~= l0.push((check@, exit@)));
        let mut items: Vec<IrStatement> = Vec::new();
        assert(statements_v(items@) =~= Seq::<StatementV>::empty());
        let (_, v, _) = self.gen_expr(session, &mut items, cond, &Type::Bool(Info::empty()));
        let ghost it = statements_v(items@);
        let ghost vv = v@;
        items.push(IrStatement::Volatile(IrInstr::Jnz(v, start.clone(), exit.clone())));
        assert(statements_v(items@) =~= it.push(StatementV::Volatile(InstrV::Jnz(vv, start@, exit@))));
        blocks.push(IrBlock { label: check.clone(), items });
        proof {
            let bs1 = crate::backend::codegen::add_block(bs, check@);
            assert(blocks_v(blocks@) =~= with_last_items(bs1, statements_v(items@)));
        }
        add_block(blocks, start);
        self.gen_body(session, blocks, body);
        add_instr(blocks, IrInstr::Jmp(check));
        add_block(blocks, exit);
        let ghost l1 = pairs_v(self.loop_stack@);
        if self.loop_stack.len() > 0 {
            self.loop_stack.pop();
            assert(pairs_v(self.loop_stack@) =~= l1.drop_last());
        }
    }

    /// A statement of a function body.
    #[verifier::loop_isolation(false)]
    #[verifier::spinoff_prover]
    fn gen_body_stmt(&mut self, session: &mut Session, blocks: &mut Vec<IrBlock>, st: &Stmt)
        requires
            old(session).wf(),
            g_body_stmt(old(self).fid(), old(self).gst(old(session).diags()), blocks_v(old(blocks)@), st@) is Some,
        ensures
            Self::kept(*old(self), *final(self), *old(session), *final(session)),
            g_body_stmt(old(self).fid(), old(self).gst(old(session).diags()), blocks_v(old(blocks)@), st@) == Some(
                (final(self).gst(final(session).diags()), blocks_v(final(blocks)@)),
            ),
        decreases st, 0int,
    {
        let ghost bs = blocks_v(blocks@);
        match st {
            Stmt::Declare(_, id, ty, val) => self.gen_declare(session, blocks, id, ty, val),
            Stmt::Assign(_, id, _, val) => self.gen_assign(session, blocks, id, val),
            Stmt::Expr(e) => {
                let mut b = blocks.pop().unwrap();
                assert(b@ == bs.last());
                self.gen_expr(session, &mut b.items, e, &Type::Unknown);
                blocks.push(b);
                assert(blocks_v(blocks@) =~= with_last_items(bs, b@.items));
            },
            Stmt::While(cond, body) => self.gen_while(session, blocks, cond, body),
            Stmt::IfElse(branches) => {
                let exit = self.new_label("if_exit", Ghost(session.diags()));
                self.gen_if_branches(session, blocks, branches, &exit);
                add_block(blocks, exit);
            },
            Stmt::Return(value) => self.gen_return(session, blocks, value),
            Stmt::Break => {
                let n = self.loop_stack.len();
                let goto = self.loop_stack[n - 1].1.clone();
                add_instr(blocks, IrInstr::Jmp(goto));
            },
            Stmt::Continue => {
                let n = self.loop_stack.len();
                let goto = self.loop_stack[n - 1].0.clone();
                add_instr(blocks, IrInstr::Jmp(goto));
            },
            _ => {
                proof {
                    assert(false);
                }
            },
        }
    }

    /// The QBE arguments of a function: each argument's type with the temporary of
    /// its name.
    #[verifier::spinoff_prover]
    fn to_qbe_func_args(&mut self, session: &mut Session, args: &Vec<(String, Type)>) -> (r: Vec<(IrType, IrValue)>)
        requires
            old(session).wf(),
        ensures
            Self::kept(*old(self), *final(self), *old(session), *final(session)),
            g_fn_args(old(self).fid(), old(self).gst(old(session).diags()), args_v(args@)) == (
                final(self).gst(final(session).diags()),
                typed_vals_v(r@),
            ),
    {
        let ghost all = args_v(args@);
        let ghost fid = self.fid();
        let ghost st0 = self.gst(session.diags());
        let mut out: Vec<(IrType, IrValue)> = Vec::new();
        assert(all.take(0) =~= Seq::<(Seq<char>, TypeV)>::empty());
        assert(typed_vals_v(out@) =~= Seq::<(IrType, ValV)>::empty());
        let mut i: usize = 0;
        while i < args.len()
            invariant
                Self::kept(*old(self), *self, *old(session), *session),
                i <= args.len(),
                all == args_v(args@),
                fid == self.fid(),
                st0 == old(self).gst(old(session).diags()),
                g_fn_args(fid, st0, all.take(i as int)) == (self.gst(session.diags()), typed_vals_v(out@)),
            decreases args.len() - i,
        {
            proof {
                assert(all.take(i + 1).drop_last() =~= all.take(i as int));
                assert(all.take(i + 1).last() == (args@[i as int].0@, args@[i as int].1@));
            }
            let q = args[i].1.to_qbe(self, session);
            let ghost o0 = typed_vals_v(out@);
            out.push((q, IrValue::Temporary(args[i].0.clone())));
            assert(typed_vals_v(out@) =~= o0.push((q, ValV::Temporary(args@[i as int].0@))));
            i = i + 1;
        }
        assert(all.take(args.len() as int) =~= all);
        out
    }

    /// A statement at the top of a file: a function, which is added to the module,
    /// or a `use`.
    #[verifier::spinoff_prover]
    #[verifier::rlimit(60)]
    fn gen_stmt(&mut self, session: &mut Session, st: &Stmt)
        requires
            old(session).wf(),
            g_stmt(old(self).fid(), old(self).gst(old(session).diags()), st@) is Some,
        ensures
            Self::kept(*old(self), *final(self), *old(session), *final(session)),
            g_stmt(old(self).fid(), old(self).gst(old(session).diags()), st@) == Some(final(self).gst(final(session).diags())),
    {
        match st {
            Stmt::Func(is_export, _, id, args, ret, body) => {
                self.current_func = id.clone();
                let mut tys: Vec<Type> = Vec::new();
                let mut i: usize = 0;
                while i < args.len()
                    invariant
                        i <= args.len(),
                        types_v(tys@) == arg_types(args_v(args@)).take(i as int),
                    decreases args.len() - i,
                {
                    let ghost t0 = types_v(tys@);
                    let t = args[i].1.copy();
                    let ghost tv = t@;
                    tys.push(t);
                    assert(types_v(tys@) =~= t0.push(tv));
                    assert(arg_types(args_v(args@))[i as int] == tv);
                    assert(arg_types(args_v(args@)).take(i + 1) =~= arg_types(args_v(args@)).take(i as int).push(tv));
                    i = i + 1;
                }
                assert(arg_types(args_v(args@)).take(args.len() as int) =~= arg_types(args_v(args@)));
                let ret_copy = match ret {
                    Some(t) => Some(t.copy()),
                    None => None,
                };
                let ghost f0 = funcs_v(self.functions@);
                let entry = (id.clone(), ret_copy, tys);
                assert(sig_v(entry) == (id@, (opt_type_v(*ret), arg_types(args_v(args@)))));
                match find_func(&self.functions, id) {
                    Some(k) => {
                        self.functions.set(k, entry);
                        assert(funcs_v(self.functions@) =~= f0.update(k as int, (id@, (opt_type_v(*ret), arg_types(args_v(args@))))));
                    },
                    None => {
                        self.functions.push(entry);
                        assert(funcs_v(self.functions@) =~= f0.push((id@, (opt_type_v(*ret), arg_types(args_v(args@))))));
                    },
                }
                let qret = match ret {
                    Some(t) => Some(t.to_qbe(self, session)),
                    None => None,
                };
                let qargs = self.to_qbe_func_args(session, args);
                let mut blocks: Vec<IrBlock> = Vec::new();
                let start = IrBlock { label: String::from_str("start"), items: Vec::new() };
                assert(statements_v(start.items@) =~= Seq::<StatementV>::empty());
                blocks.push(start);
                assert(blocks_v(blocks@) =~= seq![BlockV { label: "start"@, items: Seq::empty() }]);
                self.push_scope(Ghost(session.diags()));
                self.gen_body(session, &mut blocks, body);
                self.pop_scope(Ghost(session.diags()));
                let idc = crate::text::chars_of_string(id);
                let exported = crate::lexer::token::chars_eq(&idc, "main") || *is_export;
                let ghost o0 = functions_v(self.module.functions@);
                let f = IrFunction { exported, name: id.clone(), arguments: qargs, return_ty: qret, blocks };
                self.module.functions.push(f);
                assert(functions_v(self.module.functions@) =~= o0.push(f@));
            },
            Stmt::Use(_, paths) => {
                let ghost u0 = paths_v(self.uses@);
                let mut i: usize = 0;
                while i < paths.len()
                    invariant
                        i <= paths.len(),
                        paths_v(self.uses@) == u0 + paths_v(paths@).take(i as int),
                        self.fid() == old(self).fid(),
                        self.gst(session.diags()) == (GenSt { uses: paths_v(self.uses@), ..old(self).gst(session.diags()) }),
                        session == old(session),
                    decreases paths.len() - i,
                {
                    let p = copy_path(&paths[i]);
                    let ghost ub = paths_v(self.uses@);
                    self.uses.push(p);
                    assert(paths_v(self.uses@) =~= ub.push(paths_v(paths@)[i as int]));
                    assert(paths_v(self.uses@) =~= u0 + paths_v(paths@).take(i + 1));
                    i = i + 1;
                }
                assert(paths_v(paths@).take(paths.len() as int) =~= paths_v(paths@));
            },
            _ => {
                proof {
                    assert(false);
                }
            },
        }
    }

    /// Compiles the statements of file `file_id` into the module. Functions and
    /// scopes start empty; the counters, the string data, the `use` paths and the
    /// module itself carry over from earlier files.
    #[verifier::spinoff_prover]
    pub fn compile(&mut self, session: &mut Session, file_id: FileId, ast: &Vec<Stmt>)
        requires
            old(session).wf(),
            g_compile(file_id as nat, old(self).gst(old(session).diags()), stmts_v(ast@)) is Some,
        ensures
            final(self).fid() == file_id,
            final(session).wf(),
            final(session).spec_sources() == old(session).spec_sources(),
            final(session).mangle_count() == old(session).mangle_count(),
            final(session).spec_reporter() == old(session).spec_reporter(),
            final(session).spec_modules() == old(session).spec_modules(),
            g_compile(file_id as nat, old(self).gst(old(session).diags()), stmts_v(ast@)) == Some(
                final(self).gst(final(session).diags()),
            ),
    {
        let ghost g0 = self.gst(session.diags());
        self.file_id = file_id;
        self.functions = Vec::new();
        self.scopes = Vec::new();
        let ghost all = stmts_v(ast@);
        let ghost st0 = self.gst(session.diags());
        assert(funcs_v(self.functions@) =~= Seq::empty());
        assert(scopes_v(self.scopes@) =~= Seq::empty());
        assert(st0 == (GenSt { funcs: Seq::empty(), scopes: Seq::empty(), ..g0 }));
        proof {
            lemma_stmts_v_index(ast@);
            assert(all.take(0) =~= Seq::<StmtV>::empty());
        }
        let mut i: usize = 0;
        while i < ast.len()
            invariant
                i <= ast.len(),
                self.fid() == file_id,
                session.wf(),
                session.spec_sources() == old(session).spec_sources(),
                session.mangle_count() == old(session).mangle_count(),
                session.spec_reporter() == old(session).spec_reporter(),
                session.spec_modules() == old(session).spec_modules(),
                all == stmts_v(ast@),
                all.len() == ast.len(),
                forall|j: int| 0 <= j < ast.len() ==> #[trigger] all[j] == ast@[j]@,
                g_program(file_id as nat, st0, all) is Some,
                g_program(file_id as nat, st0, all.take(i as int)) == Some(self.gst(session.diags())),
            decreases ast.len() - i,
        {
            proof {
                lemma_g_program_prefix(file_id as nat, st0, all, i + 1);
                assert(all.take(i + 1).drop_last() =~= all.take(i as int));
                assert(all.take(i + 1).last() == all[i as int]);
            }
            self.gen_stmt(session, &ast[i]);
            i = i + 1;
        }
        assert(all.take(ast.len() as int) =~= all);
    }
}

impl Type {
    /// The QBE type of the type; a type without one is reported and becomes `z`.
    pub fn to_qbe(&self, backend: &QbeBackend, session: &mut Session) -> (q: IrType)
        requires
            old(session).wf(),
        ensures
            QbeBackend::kept(*backend, *backend, *old(session), *final(session)),
            to_qbe(backend.fid(), backend.gst(old(session).diags()), self@) == (backend.gst(final(session).diags()), q),
    {
        match self {
            Type::I32(_) | Type::Bool(_) => IrType::Word,
            Type::Ptr(..) | Type::Str(_) | Type::Array(..) | Type::Custom(..) => IrType::Long,
            Type::F32(_) => IrType::Single,
            Type::Unknown | Type::Void(_) => {
                let d = invalid_type_diag(backend.file_id, self);
                session.emit_error(d);
                IrType::Zero
            },
        }
    }

    /// The stack allocation of a variable of the type: the alignment class and the
    /// count; a type without a size is reported and gets four bytes.
    pub fn size(&self, backend: &QbeBackend, session: &mut Session) -> (r: (u8, u128))
        requires
            old(session).wf(),
        ensures
            QbeBackend::kept(*backend, *backend, *old(session), *final(session)),
            alloc_of(backend.fid(), backend.gst(old(session).diags()), self@).0 == backend.gst(final(session).diags()),
            alloc_of(backend.fid(), backend.gst(old(session).diags()), self@).1 == (if r.0 == 8 {
                crate::backend::ir::InstrV::Alloc8(1)
            } else {
                crate::backend::ir::InstrV::Alloc4(1)
            }),
            r.1 == 1,
            r.0 == 4 || r.0 == 8,
    {
        match self {
            Type::I32(_) | Type::F32(_) | Type::Bool(_) => (4, 1),
            Type::Ptr(..) | Type::Str(_) | Type::Array(..) | Type::Custom(..) => (8, 1),
            Type::Unknown | Type::Void(_) => {
                let d = invalid_type_diag(backend.file_id, self);
                session.emit_error(d);
                (4, 1)
            },
        }
    }
}

/// Adds an empty block labelled `label`.
fn add_block(blocks: &mut Vec<IrBlock>, label: String)
    ensures
        blocks_v(final(blocks)@) == crate::backend::codegen::add_block(blocks_v(old(blocks)@), label@),
{
    let ghost bs = blocks_v(blocks@);
    let b = IrBlock { label, items: Vec::new() };
    assert(statements_v(b.items@) =~= Seq::<StatementV>::empty());
    blocks.push(b);
    assert(blocks_v(blocks@) =~= crate::backend::codegen::add_block(bs, b@.label));
}

/// Adds `i` to the last block.
fn add_instr(blocks: &mut Vec<IrBlock>, i: IrInstr)
    requires
        old(blocks).len() > 0,
    ensures
        blocks_v(final(blocks)@) == crate::backend::codegen::add_instr(blocks_v(old(blocks)@), i@),
{
    let ghost bs = blocks_v(blocks@);
    let ghost iv = i@;
    let mut b = blocks.pop().unwrap();
    assert(b@ == bs.last());
    let ghost it = statements_v(b.items@);
    b.items.push(IrStatement::Volatile(i));
    assert(statements_v(b.items@) =~= it.push(StatementV::Volatile(iv)));
    blocks.push(b);
    assert(blocks_v(blocks@) =~= with_last_items(bs, b@.items));
}

impl QbeBackend {
    /// The name a call of `path` is compiled to, by the `use` paths recorded so far.
    fn build_call_id(&self, path: &Vec<String>) -> (r: String)
        ensures
            r@ == call_name(paths_v(self.uses@), path_v(path@)),
    {
        let ghost us = paths_v(self.uses@);
        let ghost pv = path_v(path@);
        if path.len() > 0 {
            let mut i: usize = 0;
            while i < self.uses.len()
                invariant
                    i <= self.uses.len(),
                    us == paths_v(self.uses@),
                    pv == path_v(path@),
                    path.len() > 0,
                    use_for(us, pv[0], 0) == use_for(us, pv[0], i as int),
                decreases self.uses.len() - i,
            {
                let u = &self.uses[i];
                assert(us[i as int] == path_v(u@));
                if u.len() > 0 && string_eq(&u[u.len() - 1], &path[0]) {
                    let mut full = copy_path(u);
                    let mut k: usize = 1;
                    while k < path.len()
                        invariant
                            1 <= k <= path.len(),
                            path_v(full@) == us[i as int] + pv.skip(1).take(k - 1),
                            pv == path_v(path@),
                        decreases path.len() - k,
                    {
                        let ghost f0 = path_v(full@);
                        full.push(path[k].clone());
                        assert(path_v(full@) =~= f0.push(pv[k as int]));
                        assert(pv.skip(1).take(k as int) =~= pv.skip(1).take(k - 1).push(pv[k as int]));
                        k = k + 1;
                    }
                    assert(pv.skip(1).take(path.len() - 1) =~= pv.skip(1));
                    return join_strings(&full);
                }
                i = i + 1;
            }
        }
        join_strings(path)
    }
}

/// Two labels as plain values.
pub open spec fn label_pair_v(p: Option<(String, String)>) -> Option<(Seq<char>, Seq<char>)> {
    match p {
        Some(x) => Some((x.0@, x.1@)),
        None => None,
    }
}

/// A copy of a path.
fn copy_path(p: &Vec<String>) -> (r: Vec<String>)
    ensures
        r@.map_values(|x: String| x@) == p@.map_values(|x: String| x@),
{
    let mut q: Vec<String> = Vec::new();
    let mut k: usize = 0;
    while k < p.len()
        invariant
            k <= p.len(),
            q@.len() == k,
            forall|j: int| 0 <= j < k ==> #[trigger] q@[j]@ == p@[j]@,
        decreases p.len() - k,
    {
        q.push(p[k].clone());
        k = k + 1;
    }
    assert(q@.map_values(|x: String| x@) =~= p@.map_values(|x: String| x@));
    q
}

/// The block instructions go to: the last one of the function.
pub fn get_block(func: &IrFunction) -> (b: &IrBlock)
    requires
        func.blocks.len() > 0,
    ensures
        b@ == func@.blocks.last(),
{
    &func.blocks[func.blocks.len() - 1]
}

impl crate::backend::Backend for QbeBackend {
    open spec fn gen_state(&self, diags: Seq<DiagV>) -> GenSt {
        self.gst(diags)
    }

    fn compile(&mut self, session: &mut Session, file_id: FileId, ast: &Vec<Stmt>) {
        QbeBackend::compile(self, session, file_id, ast)
    }

    /// `.ssa`.
    fn ext(&self) -> (r: String)
        ensures
            r@ == ".ssa"@,
    {
        let r = String::from_str(".ssa");
        proof {
            reveal_strlit(".ssa");
        }
        r
    }

    /// `/qbe`.
    fn out_dir(&self) -> (r: String)
        ensures
            r@ == "/qbe"@,
    {
        let r = String::from_str("/qbe");
        proof {
            reveal_strlit("/qbe");
        }
        r
    }
}

} // verus!
