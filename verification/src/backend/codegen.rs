//! What the QBE backend generates, as spec functions over plain values: the state
//! it keeps between statements, the instructions each expression and statement adds,
//! and the diagnostics it reports. `None` marks the inputs on which generation would
//! not finish normally (a statement where none is allowed, a call of an unknown
//! function, `break` outside a loop, a counter that leaves `usize`).
use crate::backend::ir::{cmp_holds, instr_truth, instr_value, string_data, BlockV, DataV, FunctionV, InstrV, IrCmp, IrType, StatementV, ValV};
use crate::parser::ast::StmtV;
use crate::parser::expr::{arith_value, comp_holds, logic_holds, ArithOp, CompOp, ExprV, LogicOp, UnaryOp};
use crate::parser::types::{type_info, type_text, TypeV};
use crate::parser::Info;
use crate::report::{span_v, DiagV, Level, Phase};
use crate::text::{dec, lemma_dec_injective};
use vstd::prelude::*;

verus! {

/// A function's signature as the backend records it: return type and argument types.
pub type SigV = (Option<TypeV>, Seq<TypeV>);

/// The backend's state between steps.
pub struct GenSt {
    pub labels: nat,
    pub tmps: nat,
    pub lits: nat,
    /// Variables in scope, outermost scope first.
    pub scopes: Seq<Seq<(Seq<char>, TypeV)>>,
    /// (condition check, exit) labels of the enclosing loops, innermost last: where
    /// `continue` and `break` jump.
    pub loops: Seq<(Seq<char>, Seq<char>)>,
    pub funcs: Seq<(Seq<char>, SigV)>,
    /// String literals already emitted, with the name of their data.
    pub strings: Seq<(Seq<char>, Seq<char>)>,
    pub uses: Seq<Seq<Seq<char>>>,
    pub current: Seq<char>,
    /// The module built so far.
    pub out: Seq<FunctionV>,
    pub data: Seq<DataV>,
    pub diags: Seq<DiagV>,
}

/// The first position at or after `i` whose key is `k`.
pub open spec fn find_from<V>(m: Seq<(Seq<char>, V)>, k: Seq<char>, i: int) -> Option<int>
    decreases m.len() - i,
{
    if i < 0 || i >= m.len() {
        None
    } else if m[i].0 == k {
        Some(i)
    } else {
        find_from(m, k, i + 1)
    }
}

/// What `find_from` finds: a position from `j` on with key `k`, and no such
/// position before it.
pub proof fn lemma_find_from<V>(m: Seq<(Seq<char>, V)>, k: Seq<char>, j: int)
    requires
        0 <= j,
    ensures
        match find_from(m, k, j) {
            Some(i) => j <= i < m.len() && m[i].0 == k && forall|x: int| j <= x < i ==> m[x].0 != k,
            None => forall|x: int| j <= x < m.len() ==> m[x].0 != k,
        },
    decreases m.len() - j,
{
    if j < m.len() && m[j].0 != k {
        lemma_find_from(m, k, j + 1);
    }
}

/// The value bound to `k` in an association list.
pub open spec fn lookup<V>(m: Seq<(Seq<char>, V)>, k: Seq<char>) -> Option<V> {
    match find_from(m, k, 0) {
        Some(i) => Some(m[i].1),
        None => None,
    }
}

/// `m` with `k` bound to `v`: in place where `k` is bound, else at the end.
pub open spec fn insert<V>(m: Seq<(Seq<char>, V)>, k: Seq<char>, v: V) -> Seq<(Seq<char>, V)> {
    match find_from(m, k, 0) {
        Some(i) => m.update(i, (k, v)),
        None => m.push((k, v)),
    }
}

/// The first scope, from the outermost, where `id` is bound.
pub open spec fn scope_from(scopes: Seq<Seq<(Seq<char>, TypeV)>>, id: Seq<char>, i: int) -> Option<int>
    decreases scopes.len() - i,
{
    if i < 0 || i >= scopes.len() {
        None
    } else if find_from(scopes[i], id, 0) is Some {
        Some(i)
    } else {
        scope_from(scopes, id, i + 1)
    }
}

/// What `scope_from` finds: a scope from `j` on that binds `id`, and none before it.
pub proof fn lemma_scope_from(scopes: Seq<Seq<(Seq<char>, TypeV)>>, id: Seq<char>, j: int)
    requires
        0 <= j,
    ensures
        match scope_from(scopes, id, j) {
            Some(i) => j <= i < scopes.len() && find_from(scopes[i], id, 0) is Some
                && forall|x: int| j <= x < i ==> find_from(#[trigger] scopes[x], id, 0) is None,
            None => forall|x: int| j <= x < scopes.len() ==> find_from(#[trigger] scopes[x], id, 0) is None,
        },
    decreases scopes.len() - j,
{
    if j < scopes.len() && find_from(scopes[j], id, 0) is None {
        lemma_scope_from(scopes, id, j + 1);
    }
}

/// The type of variable `id`; unknown when it is not declared.
pub open spec fn var_type(scopes: Seq<Seq<(Seq<char>, TypeV)>>, id: Seq<char>) -> TypeV {
    match scope_from(scopes, id, 0) {
        Some(i) => lookup(scopes[i], id).unwrap(),
        None => TypeV::Unknown,
    }
}

/// Declares `id`: rebinds it in the scope that has it, else binds it in the innermost one.
pub open spec fn declare_var(scopes: Seq<Seq<(Seq<char>, TypeV)>>, id: Seq<char>, ty: TypeV) -> Seq<Seq<(Seq<char>, TypeV)>> {
    match scope_from(scopes, id, 0) {
        Some(i) => scopes.update(i, insert(scopes[i], id, ty)),
        None => if scopes.len() > 0 {
            scopes.update(scopes.len() - 1, insert(scopes.last(), id, ty))
        } else {
            scopes
        },
    }
}

/// `prefix_n`.
pub open spec fn numbered(prefix: Seq<char>, n: nat) -> Seq<char> {
    prefix + "_"@ + dec(n)
}

pub open spec fn new_label(s: GenSt, prefix: Seq<char>) -> Option<(GenSt, Seq<char>)> {
    if s.labels + 1 > usize::MAX {
        None
    } else {
        Some((GenSt { labels: s.labels + 1, ..s }, numbered(prefix, s.labels)))
    }
}

pub open spec fn new_tmp(s: GenSt) -> Option<(GenSt, Seq<char>)> {
    if s.tmps + 1 > usize::MAX {
        None
    } else {
        Some((GenSt { tmps: s.tmps + 1, ..s }, numbered("_tmp"@, s.tmps)))
    }
}

/// The data that holds string `text`: the one made before for the same text, or a new one.
pub open spec fn new_string(s: GenSt, text: Seq<char>) -> Option<(GenSt, Seq<char>)> {
    match lookup(s.strings, text) {
        Some(name) => Some((s, name)),
        None => if s.lits + 1 > usize::MAX {
            None
        } else {
            let name = numbered("_lit"@, s.lits);
            Some((
                GenSt {
                    lits: s.lits + 1,
                    strings: s.strings.push((text, name)),
                    data: s.data.push(string_data(name, text)),
                    ..s
                },
                name,
            ))
        },
    }
}

/// The QBE type of a type, where it has one.
pub open spec fn ir_type_of(t: TypeV) -> Option<IrType> {
    match t {
        TypeV::I32(_) | TypeV::Bool(_) => Some(IrType::Word),
        TypeV::Ptr(..) | TypeV::Str(_) | TypeV::Array(..) | TypeV::Custom(..) => Some(IrType::Long),
        TypeV::F32(_) => Some(IrType::Single),
        TypeV::Unknown | TypeV::Void(_) => None,
    }
}

pub open spec fn invalid_type_error(fid: nat, t: TypeV) -> DiagV {
    let i = type_info(t);
    DiagV {
        message: "Invalid type: "@ + type_text(t),
        level: Level::Error,
        span: span_v(fid, i.line as nat, i.offset as nat, i.len as nat),
        phase: Phase::CodeGen,
        notes: seq!["Use correct type"@],
        helps: Seq::empty(),
    }
}

pub open spec fn report(s: GenSt, d: DiagV) -> GenSt {
    GenSt { diags: s.diags.push(d), ..s }
}

/// The QBE type of `t`; a type without one is reported and becomes `z`.
pub open spec fn to_qbe(fid: nat, s: GenSt, t: TypeV) -> (GenSt, IrType) {
    match ir_type_of(t) {
        Some(q) => (s, q),
        None => (report(s, invalid_type_error(fid, t)), IrType::Zero),
    }
}

/// The stack allocation of a variable of type `t`; a type without a size is reported
/// and gets four bytes.
pub open spec fn alloc_of(fid: nat, s: GenSt, t: TypeV) -> (GenSt, InstrV) {
    match ir_type_of(t) {
        Some(IrType::Long) => (s, InstrV::Alloc8(1)),
        Some(_) => (s, InstrV::Alloc4(1)),
        None => (report(s, invalid_type_error(fid, t)), InstrV::Alloc4(1)),
    }
}

/// A path joined with `_`.
pub open spec fn join_path(p: Seq<Seq<char>>) -> Seq<char>
    decreases p.len(),
{
    if p.len() == 0 {
        Seq::empty()
    } else if p.len() == 1 {
        p[0]
    } else {
        join_path(p.drop_last()) + "_"@ + p.last()
    }
}

/// The first `use` path, from position `i` on, whose last name is `head`.
pub open spec fn use_for(uses: Seq<Seq<Seq<char>>>, head: Seq<char>, i: int) -> Option<int>
    decreases uses.len() - i,
{
    if i < 0 || i >= uses.len() {
        None
    } else if uses[i].len() > 0 && uses[i].last() == head {
        Some(i)
    } else {
        use_for(uses, head, i + 1)
    }
}

/// The name a call of `path` is compiled to: where a `use` path ends with the head of
/// `path`, that `use` path followed by the rest of `path`, joined with `_`; else `path`
/// joined with `_`.
pub open spec fn call_name(uses: Seq<Seq<Seq<char>>>, path: Seq<Seq<char>>) -> Seq<char> {
    if path.len() > 0 {
        match use_for(uses, path[0], 0) {
            Some(i) => join_path(uses[i] + path.skip(1)),
            None => join_path(path),
        }
    } else {
        join_path(path)
    }
}

pub open spec fn arith_instr(op: ArithOp, a: ValV, b: ValV) -> InstrV {
    match op {
        ArithOp::Add => InstrV::Add(a, b),
        ArithOp::Sub => InstrV::Sub(a, b),
        ArithOp::Mul => InstrV::Mul(a, b),
        ArithOp::Div => InstrV::Div(a, b),
    }
}

pub open spec fn logic_instr(op: LogicOp, a: ValV, b: ValV) -> InstrV {
    match op {
        LogicOp::And => InstrV::And(a, b),
        LogicOp::Or => InstrV::Or(a, b),
    }
}

/// The comparison instruction of an operator.
pub open spec fn cmp_of(op: CompOp) -> IrCmp {
    match op {
        CompOp::Eq => IrCmp::Eq,
        CompOp::Ne => IrCmp::Ne,
        CompOp::Gt => IrCmp::Sgt,
        CompOp::Ge => IrCmp::Sge,
        CompOp::Lt => IrCmp::Slt,
        CompOp::Le => IrCmp::Sle,
    }
}

/// A size of expressions that shrinks from `!e` to `e != 0`.
pub open spec fn expr_size(e: ExprV) -> nat
    decreases e,
{
    match e {
        ExprV::Arith(l, _, r, _) => 1 + expr_size(*l) + expr_size(*r),
        ExprV::Comp(l, _, r, _) => 1 + expr_size(*l) + expr_size(*r),
        ExprV::Logic(l, _, r, _) => 1 + expr_size(*l) + expr_size(*r),
        ExprV::Unary(_, x, _) => 3 + expr_size(*x),
        ExprV::Call(f, args, _) => 1 + expr_size(*f) + exprs_size(args),
        _ => 1,
    }
}

pub open spec fn exprs_size(s: Seq<ExprV>) -> nat
    decreases s,
{
    if s.len() == 0 {
        0
    } else {
        exprs_size(s.drop_last()) + expr_size(s.last())
    }
}

/// An element of a sequence of expressions is no larger than the sequence.
pub proof fn lemma_exprs_size_elem(s: Seq<ExprV>, i: int)
    requires
        0 <= i < s.len(),
    ensures
        expr_size(s[i]) <= exprs_size(s),
    decreases s.len(),
{
    if i < s.len() - 1 {
        lemma_exprs_size_elem(s.drop_last(), i);
        assert(s.drop_last()[i] == s[i]);
    }
}

/// The result of generating an expression: the state, the statements of the current
/// block, the temporary reserved for it, its value and its type.
pub type ExprGen = Option<(GenSt, Seq<StatementV>, Seq<char>, ValV, TypeV)>;

/// `l op r` where the instruction for the operands goes to the reserved temporary.
pub open spec fn g_binary(
    fid: nat,
    s: GenSt,
    items: Seq<StatementV>,
    tmp: Seq<char>,
    l: ExprV,
    r: ExprV,
    ty: TypeV,
    op: int,
    aop: ArithOp,
    lop: LogicOp,
    cop: CompOp,
    cinfo: Info,
) -> ExprGen
    decreases 1 + expr_size(l) + expr_size(r), 1int,
{
    match g_expr(fid, s, items, l, ty) {
        None => None,
        Some((s1, it1, _, lv, lt)) => match g_expr(fid, s1, it1, r, ty) {
            None => None,
            Some((s2, it2, _, rv, _)) => {
                let instr = if op == 0 {
                    arith_instr(aop, lv, rv)
                } else if op == 1 {
                    logic_instr(lop, lv, rv)
                } else {
                    InstrV::Cmp(IrType::Word, cmp_of(cop), lv, rv)
                };
                let (s3, q) = to_qbe(fid, s2, ty);
                let rty = if op == 2 { TypeV::Bool(cinfo) } else { lt };
                Some((s3, it2.push(StatementV::Assign(ValV::Temporary(tmp), q, instr)), tmp, ValV::Temporary(tmp), rty))
            },
        },
    }
}

/// The instructions of expression `e`, appended to `items`; `ty` is the type it is
/// expected to have.
pub open spec fn g_expr(fid: nat, s: GenSt, items: Seq<StatementV>, e: ExprV, ty: TypeV) -> ExprGen
    decreases expr_size(e), 2int,
{
    match new_tmp(s) {
        None => None,
        Some((s0, tmp)) => match e {
            ExprV::Int(n, i) => Some((s0, items, tmp, ValV::Const(#[verifier::truncate] (n as u64)), TypeV::I32(i))),
            ExprV::Float(x, i) => Some((s0, items, tmp, ValV::Float(x), TypeV::F32(i))),
            ExprV::Id(path, _) => {
                let id = join_path(path);
                let vt = var_type(s0.scopes, id);
                Some((to_qbe(fid, s0, vt).0, items, tmp, ValV::Temporary(id), vt))
            },
            ExprV::Bool(b, i) => Some((s0, items, tmp, ValV::Const(if b { 1u64 } else { 0u64 }), TypeV::Bool(i))),
            ExprV::Str(x, i) => match new_string(s0, x) {
                None => None,
                Some((s1, name)) => Some((s1, items, tmp, ValV::Global(name), TypeV::Str(i))),
            },
            ExprV::Arith(l, op, r, i) => g_binary(fid, s0, items, tmp, *l, *r, ty, 0, op, LogicOp::And, CompOp::Eq, i),
            ExprV::Logic(l, op, r, i) => g_binary(fid, s0, items, tmp, *l, *r, ty, 1, ArithOp::Add, op, CompOp::Eq, i),
            ExprV::Comp(l, op, r, i) => g_binary(fid, s0, items, tmp, *l, *r, ty, 2, ArithOp::Add, LogicOp::And, op, i),
            ExprV::Unary(op, x, _) => match g_expr(fid, s0, items, *x, ty) {
                None => None,
                Some((s1, it1, _, v, xt)) => match op {
                    UnaryOp::Neg => {
                        let (s2, q) = to_qbe(fid, s1, xt);
                        Some((s2, it1.push(StatementV::Assign(ValV::Temporary(tmp), q, InstrV::Neg(v))), tmp, ValV::Temporary(tmp), xt))
                    },
                    UnaryOp::Not => {
                        // `!x` is 1 exactly when `x` is 0: the result of comparing it with 0.
                        let zero = ExprV::Int(0, Info { line: 0, offset: 0, len: 0 });
                        let is_zero = ExprV::Comp(x, CompOp::Eq, Box::new(zero), Info { line: 0, offset: 0, len: 0 });
                        proof {
                            assert(expr_size(zero) == 1);
                            assert(expr_size(is_zero) == 2 + expr_size(*x));
                        }
                        match g_expr(fid, s1, it1, is_zero, xt) {
                            None => None,
                            Some((s2, it2, ntmp, _, _)) => {
                                let (s3, q) = to_qbe(fid, s2, xt);
                                Some((
                                    s3,
                                    it2.push(StatementV::Assign(ValV::Temporary(tmp), q, InstrV::Copy(ValV::Temporary(ntmp)))),
                                    tmp,
                                    ValV::Temporary(tmp),
                                    xt,
                                ))
                            },
                        }
                    },
                },
            },
            ExprV::Call(f, args, _) => match *f {
                ExprV::Id(path, _) => {
                    let name = call_name(s0.uses, path);
                    match g_args(fid, s0, items, name, args) {
                        None => None,
                        Some((s1, it1, targs)) => match lookup(s1.funcs, name) {
                            None => None,
                            Some(sig) => Some((
                                s1,
                                it1.push(StatementV::Volatile(InstrV::Call(name, targs))),
                                tmp,
                                ValV::Temporary(tmp),
                                match sig.0 {
                                    Some(t) => t,
                                    None => TypeV::Unknown,
                                },
                            )),
                        },
                    }
                },
                _ => None,
            },
            ExprV::Invalid => None,
        },
    }
}

/// The arguments of a call of `name`, each with the type of its parameter.
pub open spec fn g_args(fid: nat, s: GenSt, items: Seq<StatementV>, name: Seq<char>, args: Seq<ExprV>) -> Option<
    (GenSt, Seq<StatementV>, Seq<(IrType, ValV)>),
>
    decreases exprs_size(args), 3int,
{
    if args.len() == 0 {
        Some((s, items, Seq::empty()))
    } else {
        proof {
            assert(expr_size(args.last()) >= 1);
        }
        match g_args(fid, s, items, name, args.drop_last()) {
            None => None,
            Some((s1, it1, acc)) => match lookup(s1.funcs, name) {
                None => None,
                Some(sig) => if args.len() - 1 < sig.1.len() {
                    let pty = sig.1[args.len() - 1];
                    match g_expr(fid, s1, it1, args.last(), pty) {
                        None => None,
                        Some((s2, it2, _, v, _)) => {
                            let (s3, q) = to_qbe(fid, s2, pty);
                            Some((s3, it2, acc.push((q, v))))
                        },
                    }
                } else {
                    None
                },
            },
        }
    }
}

/// The statements of the last block.
pub open spec fn last_items(bs: Seq<BlockV>) -> Seq<StatementV> {
    bs.last().items
}

/// `bs` with the statements of its last block replaced.
pub open spec fn with_last_items(bs: Seq<BlockV>, items: Seq<StatementV>) -> Seq<BlockV> {
    bs.update(bs.len() - 1, BlockV { label: bs.last().label, items })
}

pub open spec fn add_block(bs: Seq<BlockV>, label: Seq<char>) -> Seq<BlockV> {
    bs.push(BlockV { label, items: Seq::empty() })
}

/// `bs` with `i` added to its last block.
pub open spec fn add_instr(bs: Seq<BlockV>, i: InstrV) -> Seq<BlockV> {
    with_last_items(bs, last_items(bs).push(StatementV::Volatile(i)))
}

/// The result of generating statements: the state and the blocks of the function.
pub type StmtGen = Option<(GenSt, Seq<BlockV>)>;

/// `id = val` into the last block.
pub open spec fn g_assign(fid: nat, s: GenSt, bs: Seq<BlockV>, id: Seq<char>, val: ExprV) -> StmtGen {
    let ty = var_type(s.scopes, id);
    if bs.len() == 0 {
        None
    } else {
        match g_expr(fid, s, last_items(bs), val, ty) {
            None => None,
            Some((s1, it1, _, v, _)) => {
                let (s2, q) = to_qbe(fid, s1, ty);
                Some((s2, with_last_items(bs, it1.push(StatementV::Assign(ValV::Temporary(id), q, InstrV::Copy(v))))))
            },
        }
    }
}

/// A declaration: the stack slot, the variable in scope, then the assignment.
pub open spec fn g_declare(fid: nat, s: GenSt, bs: Seq<BlockV>, id: Seq<char>, ty: TypeV, val: ExprV) -> StmtGen {
    if bs.len() == 0 {
        None
    } else {
        let (s1, alloc) = alloc_of(fid, s, ty);
        let (s2, q) = to_qbe(fid, s1, ty);
        let bs1 = with_last_items(bs, last_items(bs).push(StatementV::Assign(ValV::Temporary(id), q, alloc)));
        g_assign(fid, GenSt { scopes: declare_var(s2.scopes, id, ty), ..s2 }, bs1, id, val)
    }
}

/// `ret` with the value converted to the return type of the current function.
pub open spec fn g_return(fid: nat, s: GenSt, bs: Seq<BlockV>, value: Option<ExprV>) -> StmtGen {
    if bs.len() == 0 {
        None
    } else {
        match value {
            None => Some((s, add_instr(bs, InstrV::Ret(None)))),
            Some(e) => match lookup(s.funcs, s.current) {
                None => None,
                Some(sig) => match sig.0 {
                    None => None,
                    Some(rt) => match g_expr(fid, s, last_items(bs), e, rt) {
                        None => None,
                        Some((s1, it1, _, v, _)) => Some((s1, with_last_items(bs, it1.push(StatementV::Volatile(InstrV::Ret(Some(v))))))),
                    },
                },
            },
        }
    }
}

/// A statement of a function body.
pub open spec fn g_body_stmt(fid: nat, s: GenSt, bs: Seq<BlockV>, st: StmtV) -> StmtGen
    decreases st, 0int,
{
    if bs.len() == 0 {
        None
    } else {
        match st {
            StmtV::Declare(_, id, ty, val) => g_declare(fid, s, bs, id, ty, val),
            StmtV::Assign(_, id, _, val) => g_assign(fid, s, bs, id, val),
            StmtV::Expr(e) => match g_expr(fid, s, last_items(bs), e, TypeV::Unknown) {
                None => None,
                Some((s1, it1, _, _, _)) => Some((s1, with_last_items(bs, it1))),
            },
            StmtV::While(cond, body) => match new_label(s, "while_check"@) {
                None => None,
                Some((s1, check)) => match new_label(s1, "while_start"@) {
                    None => None,
                    Some((s2, start)) => match new_label(s2, "while_end"@) {
                        None => None,
                        Some((s3, exit)) => {
                            let s4 = GenSt { loops: s3.loops.push((check, exit)), ..s3 };
                            let bs1 = add_block(bs, check);
                            match g_expr(fid, s4, Seq::empty(), cond, TypeV::Bool(Info { line: 0, offset: 0, len: 0 })) {
                                None => None,
                                Some((s5, it, _, v, _)) => {
                                    let bs2 = add_block(with_last_items(bs1, it.push(StatementV::Volatile(InstrV::Jnz(v, start, exit)))), start);
                                    match g_body(fid, s5, bs2, body) {
                                        None => None,
                                        Some((s6, bs3)) => if bs3.len() == 0 {
                                            None
                                        } else {
                                            Some((
                                                GenSt {
                                                    loops: if s6.loops.len() > 0 {
                                                        s6.loops.drop_last()
                                                    } else {
                                                        s6.loops
                                                    },
                                                    ..s6
                                                },
                                                add_block(add_instr(bs3, InstrV::Jmp(check)), exit),
                                            ))
                                        },
                                    }
                                },
                            }
                        },
                    },
                },
            },
            StmtV::IfElse(branches) => match new_label(s, "if_exit"@) {
                None => None,
                Some((s1, exit)) => match g_if_branches(fid, s1, bs, branches, 0, exit, None) {
                    None => None,
                    Some((s2, bs2)) => Some((s2, add_block(bs2, exit))),
                },
            },
            StmtV::Return(value) => g_return(fid, s, bs, value),
            StmtV::Break => if s.loops.len() == 0 {
                None
            } else {
                Some((s, add_instr(bs, InstrV::Jmp(s.loops.last().1))))
            },
            StmtV::Continue => if s.loops.len() == 0 {
                None
            } else {
                Some((s, add_instr(bs, InstrV::Jmp(s.loops.last().0))))
            },
            _ => None,
        }
    }
}

/// The labels of an `if` branch's check and start blocks: those `given`, or new ones.
pub open spec fn branch_labels(s: GenSt, given: Option<(Seq<char>, Seq<char>)>) -> Option<(GenSt, Seq<char>, Seq<char>)> {
    match given {
        Some(p) => Some((s, p.0, p.1)),
        None => match new_label(s, "if_check"@) {
            None => None,
            Some((s1, check)) => match new_label(s1, "if_start"@) {
                None => None,
                Some((s2, start)) => Some((s2, check, start)),
            },
        },
    }
}

/// The branches of an `if` from the `i`-th, whose labels are `given` (made here when
/// none are); an `else` branch ends them. A false condition jumps to the next branch:
/// its check block, or the start of an `else`; after the last, to `exit`.
pub open spec fn g_if_branches(
    fid: nat,
    s: GenSt,
    bs: Seq<BlockV>,
    branches: Seq<(Option<ExprV>, Seq<StmtV>)>,
    i: int,
    exit: Seq<char>,
    given: Option<(Seq<char>, Seq<char>)>,
) -> StmtGen
    decreases branches, branches.len() - i,
{
    if i < 0 || i >= branches.len() {
        Some((s, bs))
    } else {
        match branch_labels(s, given) {
            None => None,
            Some((s2, check, start)) => match branches[i].0 {
                None => g_body(fid, s2, add_block(bs, start), branches[i].1),
                Some(cond) => match g_expr(fid, s2, Seq::empty(), cond, TypeV::Bool(crate::parser::expr::expr_info(cond))) {
                    None => None,
                    Some((s3, it, _, v, _)) => {
                        let more = i + 1 < branches.len();
                        let nxt = if more { branch_labels(s3, None) } else { Some((s3, exit, exit)) };
                        match nxt {
                            None => None,
                            Some((s4, c2, st2)) => {
                                let target = if !more {
                                    exit
                                } else if branches[i + 1].0 is Some {
                                    c2
                                } else {
                                    st2
                                };
                                let bs1 = add_block(bs, check);
                                let bs2 = add_block(with_last_items(bs1, it.push(StatementV::Volatile(InstrV::Jnz(v, start, target)))), start);
                                match g_body(fid, s4, bs2, branches[i].1) {
                                    None => None,
                                    Some((s5, bs3)) => if bs3.len() == 0 {
                                        None
                                    } else {
                                        g_if_branches(
                                            fid,
                                            s5,
                                            add_instr(bs3, InstrV::Jmp(exit)),
                                            branches,
                                            i + 1,
                                            exit,
                                            if more { Some((c2, st2)) } else { None },
                                        )
                                    },
                                }
                            },
                        }
                    },
                },
            },
        }
    }
}

/// The statements of a body, in order.
pub open spec fn g_body(fid: nat, s: GenSt, bs: Seq<BlockV>, body: Seq<StmtV>) -> StmtGen
    decreases body, 0int,
{
    if body.len() == 0 {
        Some((s, bs))
    } else {
        match g_body(fid, s, bs, body.drop_last()) {
            None => None,
            Some((s1, bs1)) => g_body_stmt(fid, s1, bs1, body.last()),
        }
    }
}

/// The QBE arguments of a function: each type with the temporary of its name.
pub open spec fn g_fn_args(fid: nat, s: GenSt, args: Seq<(Seq<char>, TypeV)>) -> (GenSt, Seq<(IrType, ValV)>)
    decreases args.len(),
{
    if args.len() == 0 {
        (s, Seq::empty())
    } else {
        let (s1, acc) = g_fn_args(fid, s, args.drop_last());
        let (s2, q) = to_qbe(fid, s1, args.last().1);
        (s2, acc.push((q, ValV::Temporary(args.last().0))))
    }
}

pub open spec fn arg_types(args: Seq<(Seq<char>, TypeV)>) -> Seq<TypeV> {
    args.map_values(|a: (Seq<char>, TypeV)| a.1)
}

/// A statement at the top of a file: a function, which is added to the module, or a `use`.
pub open spec fn g_stmt(fid: nat, s: GenSt, st: StmtV) -> Option<GenSt> {
    match st {
        StmtV::Func(is_export, _, id, args, ret, body) => {
            let s1 = GenSt { current: id, funcs: insert(s.funcs, id, (ret, arg_types(args))), ..s };
            let (s2, qret) = match ret {
                Some(t) => {
                    let (sx, q) = to_qbe(fid, s1, t);
                    (sx, Some(q))
                },
                None => (s1, None),
            };
            let (s3, qargs) = g_fn_args(fid, s2, args);
            let s4 = GenSt { scopes: s3.scopes.push(Seq::empty()), ..s3 };
            match g_body(fid, s4, seq![BlockV { label: "start"@, items: Seq::empty() }], body) {
                None => None,
                Some((s5, bs)) => Some(GenSt {
                    scopes: if s5.scopes.len() > 0 {
                        s5.scopes.drop_last()
                    } else {
                        s5.scopes
                    },
                    out: s5.out.push(FunctionV {
                        exported: id == "main"@ || is_export,
                        name: id,
                        arguments: qargs,
                        return_ty: qret,
                        blocks: bs,
                    }),
                    ..s5
                }),
            }
        },
        StmtV::Use(_, paths) => Some(GenSt { uses: s.uses + paths, ..s }),
        _ => None,
    }
}

/// The statements of a file, in order.
pub open spec fn g_program(fid: nat, s: GenSt, ast: Seq<StmtV>) -> Option<GenSt>
    decreases ast.len(),
{
    if ast.len() == 0 {
        Some(s)
    } else {
        match g_program(fid, s, ast.drop_last()) {
            None => None,
            Some(s1) => g_stmt(fid, s1, ast.last()),
        }
    }
}

/// Compiling a file starts with no functions and no scopes; the rest carries over.
pub open spec fn g_compile(fid: nat, s: GenSt, ast: Seq<StmtV>) -> Option<GenSt> {
    g_program(fid, GenSt { funcs: Seq::empty(), scopes: Seq::empty(), ..s }, ast)
}

/// When the arguments of a call generate, so does each prefix of them.
pub proof fn lemma_g_args_prefix(fid: nat, s: GenSt, items: Seq<StatementV>, name: Seq<char>, args: Seq<ExprV>, k: int)
    requires
        0 <= k <= args.len(),
        g_args(fid, s, items, name, args) is Some,
    ensures
        g_args(fid, s, items, name, args.take(k)) is Some,
    decreases args.len() - k,
{
    if k < args.len() {
        assert(args.take(args.len() as int) =~= args);
        lemma_g_args_prefix(fid, s, items, name, args, k + 1);
        assert(args.take(k + 1).drop_last() =~= args.take(k));
    } else {
        assert(args.take(k) =~= args);
    }
}

/// When a body generates, so does each prefix of it.
pub proof fn lemma_g_body_prefix(fid: nat, s: GenSt, bs: Seq<BlockV>, body: Seq<StmtV>, k: int)
    requires
        0 <= k <= body.len(),
        g_body(fid, s, bs, body) is Some,
    ensures
        g_body(fid, s, bs, body.take(k)) is Some,
    decreases body.len() - k,
{
    if k < body.len() {
        assert(body.take(body.len() as int) =~= body);
        lemma_g_body_prefix(fid, s, bs, body, k + 1);
        assert(body.take(k + 1).drop_last() =~= body.take(k));
    } else {
        assert(body.take(k) =~= body);
    }
}

/// When a file generates, so does each prefix of it.
pub proof fn lemma_g_program_prefix(fid: nat, s: GenSt, ast: Seq<StmtV>, k: int)
    requires
        0 <= k <= ast.len(),
        g_program(fid, s, ast) is Some,
    ensures
        g_program(fid, s, ast.take(k)) is Some,
    decreases ast.len() - k,
{
    if k < ast.len() {
        assert(ast.take(ast.len() as int) =~= ast);
        lemma_g_program_prefix(fid, s, ast, k + 1);
        assert(ast.take(k + 1).drop_last() =~= ast.take(k));
    } else {
        assert(ast.take(k) =~= ast);
    }
}


/// Names numbered from one prefix are distinct for distinct numbers.
pub proof fn law_numbered_distinct(prefix: Seq<char>, n: nat, m: nat)
    requires
        n != m,
    ensures
        numbered(prefix, n) != numbered(prefix, m),
{
    if numbered(prefix, n) == numbered(prefix, m) {
        reveal_strlit("_");
        let k: int = prefix.len() as int + 1;
        assert(numbered(prefix, n).skip(k) =~= dec(n));
        assert(numbered(prefix, m).skip(k) =~= dec(m));
        lemma_dec_injective(n, m);
    }
}

/// Two temporaries asked for one after the other have different names, and two labels
/// with the same prefix too.
pub proof fn law_fresh_names_distinct(s: GenSt, prefix: Seq<char>)
    ensures
        new_tmp(s) matches Some((s1, a)) ==> (new_tmp(s1) matches Some((_, b)) ==> a != b),
        new_label(s, prefix) matches Some((s1, a)) ==> (new_label(s1, prefix) matches Some((_, b)) ==> a != b),
{
    law_numbered_distinct("_tmp"@, s.tmps, s.tmps + 1);
    law_numbered_distinct(prefix, s.labels, s.labels + 1);
}

/// Where every key of `m1` is the key of `m2` at the same place, a search finds the same place.
proof fn lemma_find_same_keys<V>(m1: Seq<(Seq<char>, V)>, m2: Seq<(Seq<char>, V)>, k: Seq<char>, j: int)
    requires
        m1.len() == m2.len(),
        forall|x: int| 0 <= x < m1.len() ==> (#[trigger] m1[x]).0 == m2[x].0,
    ensures
        find_from(m1, k, j) == find_from(m2, k, j),
    decreases m1.len() - j,
{
    if 0 <= j < m1.len() {
        lemma_find_same_keys(m1, m2, k, j + 1);
    }
}

/// A search in a list with one more pair at its end.
proof fn lemma_find_push<V>(m: Seq<(Seq<char>, V)>, e: (Seq<char>, V), k: Seq<char>, j: int)
    requires
        0 <= j <= m.len(),
    ensures
        find_from(m.push(e), k, j) == (match find_from(m, k, j) {
            Some(i) => Some(i),
            None => if e.0 == k { Some(m.len() as int) } else { None },
        }),
    decreases m.len() - j,
{
    if j < m.len() {
        assert(m.push(e)[j] == m[j]);
        lemma_find_push(m, e, k, j + 1);
    } else {
        assert(find_from(m.push(e), k, j + 1) is None);
    }
}

/// What `insert` leaves: `k` bound to `v`, every other key as it was.
proof fn lemma_insert<V>(m: Seq<(Seq<char>, V)>, k: Seq<char>, v: V, k2: Seq<char>)
    ensures
        lookup(insert(m, k, v), k) == Some(v),
        k2 != k ==> lookup(insert(m, k, v), k2) == lookup(m, k2),
        k2 != k ==> find_from(insert(m, k, v), k2, 0) is Some == find_from(m, k2, 0) is Some,
{
    lemma_find_from(m, k, 0);
    lemma_find_from(m, k2, 0);
    match find_from(m, k, 0) {
        Some(i) => {
            let m2 = m.update(i, (k, v));
            lemma_find_same_keys(m2, m, k, 0);
            lemma_find_same_keys(m2, m, k2, 0);
            if k2 != k {
                if let Some(j) = find_from(m, k2, 0) {
                    assert(j != i);
                    assert(m2[j] == m[j]);
                }
            }
        },
        None => {
            lemma_find_push(m, (k, v), k, 0);
            lemma_find_push(m, (k, v), k2, 0);
            if let Some(j) = find_from(m, k2, 0) {
                assert(m.push((k, v))[j] == m[j]);
            }
        },
    }
}

/// Where scopes bind the same names at each level, the scope found for a name is the same.
proof fn lemma_scope_same(
    sc1: Seq<Seq<(Seq<char>, TypeV)>>,
    sc2: Seq<Seq<(Seq<char>, TypeV)>>,
    k: Seq<char>,
    j: int,
)
    requires
        sc1.len() == sc2.len(),
        forall|x: int| 0 <= x < sc1.len() ==> find_from(#[trigger] sc1[x], k, 0) is Some == find_from(sc2[x], k, 0) is Some,
    ensures
        scope_from(sc1, k, j) == scope_from(sc2, k, j),
    decreases sc1.len() - j,
{
    if 0 <= j < sc1.len() {
        lemma_scope_same(sc1, sc2, k, j + 1);
    }
}

/// A variable declared in a scope is read back with the type it was declared with,
/// and every other variable keeps its type.
#[verifier::spinoff_prover]
pub proof fn law_declared_var_read_back(scopes: Seq<Seq<(Seq<char>, TypeV)>>, id: Seq<char>, ty: TypeV, other: Seq<char>)
    requires
        scopes.len() > 0,
    ensures
        var_type(declare_var(scopes, id, ty), id) == ty,
        other != id ==> var_type(declare_var(scopes, id, ty), other) == var_type(scopes, other),
{
    lemma_scope_from(scopes, id, 0);
    let i = match scope_from(scopes, id, 0) {
        Some(i) => i,
        None => scopes.len() - 1,
    };
    let sc2 = declare_var(scopes, id, ty);
    assert(sc2 == scopes.update(i, insert(scopes[i], id, ty)));
    lemma_insert(scopes[i], id, ty, other);
    lemma_scope_from(sc2, id, 0);
    assert forall|x: int| 0 <= x < i implies find_from(#[trigger] sc2[x], id, 0) is None by {
        assert(sc2[x] == scopes[x]);
    }
    assert(find_from(sc2[i], id, 0) is Some);
    assert(scope_from(sc2, id, 0) == Some(i)) by {
        match scope_from(sc2, id, 0) {
            Some(j) => {
                if j > i {
                    assert(find_from(sc2[i], id, 0) is None);
                }
            },
            None => {
                assert(find_from(sc2[i], id, 0) is None);
            },
        }
    }
    if other != id {
        assert forall|x: int| 0 <= x < sc2.len() implies find_from(#[trigger] sc2[x], other, 0) is Some == find_from(
            scopes[x],
            other,
            0,
        ) is Some by {
            if x != i {
                assert(sc2[x] == scopes[x]);
            }
        }
        lemma_scope_same(sc2, scopes, other, 0);
        lemma_scope_from(scopes, other, 0);
        if let Some(j) = scope_from(scopes, other, 0) {
            if j != i {
                assert(sc2[j] == scopes[j]);
            }
        }
    }
}

/// A variable that no enclosing scope knows, declared in a new innermost scope, is
/// gone once that scope is closed.
pub proof fn law_block_scope_restored(scopes: Seq<Seq<(Seq<char>, TypeV)>>, id: Seq<char>, ty: TypeV)
    requires
        scope_from(scopes, id, 0) is None,
    ensures
        declare_var(scopes.push(Seq::empty()), id, ty).drop_last() == scopes,
{
    let sc = scopes.push(Seq::empty());
    lemma_scope_from(scopes, id, 0);
    lemma_scope_from(sc, id, 0);
    assert forall|x: int| 0 <= x < scopes.len() implies find_from(#[trigger] sc[x], id, 0) is None by {
        assert(sc[x] == scopes[x]);
    }
    assert(find_from(sc[scopes.len() as int], id, 0) is None);
    assert(scope_from(sc, id, 0) is None);
    assert(declare_var(sc, id, ty).drop_last() =~= scopes);
}

/// The data for a string literal is made once: asking again for the same text gives the
/// same name and changes nothing.
pub proof fn law_string_made_once(s: GenSt, text: Seq<char>)
    ensures
        new_string(s, text) matches Some((s1, name)) ==> new_string(s1, text) == Some((s1, name)),
{
    lemma_find_from(s.strings, text, 0);
    if lookup(s.strings, text) is None && s.lits + 1 <= usize::MAX {
        let name = numbered("_lit"@, s.lits);
        lemma_find_push(s.strings, (text, name), text, 0);
    }
}

proof fn lemma_expr_keeps_out(fid: nat, s: GenSt, items: Seq<StatementV>, e: ExprV, ty: TypeV)
    ensures
        g_expr(fid, s, items, e, ty) matches Some(r) ==> r.0.out == s.out,
    decreases expr_size(e), 2int,
{
    match new_tmp(s) {
        None => {},
        Some((s0, tmp)) => match e {
            ExprV::Arith(l, op, r, i) => lemma_binary_keeps_out(fid, s0, items, tmp, *l, *r, ty, 0, op, LogicOp::And, CompOp::Eq, i),
            ExprV::Logic(l, op, r, i) => lemma_binary_keeps_out(fid, s0, items, tmp, *l, *r, ty, 1, ArithOp::Add, op, CompOp::Eq, i),
            ExprV::Comp(l, op, r, i) => lemma_binary_keeps_out(fid, s0, items, tmp, *l, *r, ty, 2, ArithOp::Add, LogicOp::And, op, i),
            ExprV::Unary(op, x, _) => {
                lemma_expr_keeps_out(fid, s0, items, *x, ty);
                match g_expr(fid, s0, items, *x, ty) {
                    None => {},
                    Some((s1, it1, _, v, xt)) => {
                        let zero = ExprV::Int(0, Info { line: 0, offset: 0, len: 0 });
                        let is_zero = ExprV::Comp(x, CompOp::Eq, Box::new(zero), Info { line: 0, offset: 0, len: 0 });
                        assert(expr_size(zero) == 1);
                        assert(expr_size(is_zero) == 2 + expr_size(*x));
                        lemma_expr_keeps_out(fid, s1, it1, is_zero, xt);
                    },
                }
            },
            ExprV::Call(f, args, _) => match *f {
                ExprV::Id(path, _) => lemma_args_keeps_out(fid, s0, items, call_name(s0.uses, path), args),
                _ => {},
            },
            _ => {},
        },
    }
}

proof fn lemma_binary_keeps_out(
    fid: nat,
    s: GenSt,
    items: Seq<StatementV>,
    tmp: Seq<char>,
    l: ExprV,
    r: ExprV,
    ty: TypeV,
    op: int,
    aop: ArithOp,
    lop: LogicOp,
    cop: CompOp,
    cinfo: Info,
)
    ensures
        g_binary(fid, s, items, tmp, l, r, ty, op, aop, lop, cop, cinfo) matches Some(x) ==> x.0.out == s.out,
    decreases 1 + expr_size(l) + expr_size(r), 1int,
{
    lemma_expr_keeps_out(fid, s, items, l, ty);
    match g_expr(fid, s, items, l, ty) {
        None => {},
        Some((s1, it1, _, lv, lt)) => lemma_expr_keeps_out(fid, s1, it1, r, ty),
    }
}

proof fn lemma_args_keeps_out(fid: nat, s: GenSt, items: Seq<StatementV>, name: Seq<char>, args: Seq<ExprV>)
    ensures
        g_args(fid, s, items, name, args) matches Some(x) ==> x.0.out == s.out,
    decreases exprs_size(args), 3int,
{
    if args.len() > 0 {
        assert(expr_size(args.last()) >= 1);
        lemma_args_keeps_out(fid, s, items, name, args.drop_last());
        match g_args(fid, s, items, name, args.drop_last()) {
            None => {},
            Some((s1, it1, acc)) => match lookup(s1.funcs, name) {
                None => {},
                Some(sig) => if args.len() - 1 < sig.1.len() {
                    lemma_exprs_size_elem(args, args.len() - 1);
                    lemma_expr_keeps_out(fid, s1, it1, args.last(), sig.1[args.len() - 1]);
                },
            },
        }
    }
}

proof fn lemma_body_stmt_keeps_out(fid: nat, s: GenSt, bs: Seq<BlockV>, st: StmtV)
    ensures
        g_body_stmt(fid, s, bs, st) matches Some(x) ==> x.0.out == s.out,
    decreases st, 0int,
{
    if bs.len() > 0 {
        match st {
            StmtV::Declare(_, id, ty, val) => {
                let (s1, alloc) = alloc_of(fid, s, ty);
                let (s2, q) = to_qbe(fid, s1, ty);
                let s3 = GenSt { scopes: declare_var(s2.scopes, id, ty), ..s2 };
                lemma_expr_keeps_out(fid, s3, last_items(with_last_items(bs, last_items(bs).push(StatementV::Assign(ValV::Temporary(id), q, alloc)))), val, var_type(s3.scopes, id));
            },
            StmtV::Assign(_, id, _, val) => lemma_expr_keeps_out(fid, s, last_items(bs), val, var_type(s.scopes, id)),
            StmtV::Expr(e) => lemma_expr_keeps_out(fid, s, last_items(bs), e, TypeV::Unknown),
            StmtV::While(cond, body) => match new_label(s, "while_check"@) {
                None => {},
                Some((s1, check)) => match new_label(s1, "while_start"@) {
                    None => {},
                    Some((s2, start)) => match new_label(s2, "while_end"@) {
                        None => {},
                        Some((s3, exit)) => {
                            let s4 = GenSt { loops: s3.loops.push((check, exit)), ..s3 };
                            let bs1 = add_block(bs, check);
                            lemma_expr_keeps_out(fid, s4, Seq::empty(), cond, TypeV::Bool(Info { line: 0, offset: 0, len: 0 }));
                            match g_expr(fid, s4, Seq::empty(), cond, TypeV::Bool(Info { line: 0, offset: 0, len: 0 })) {
                                None => {},
                                Some((s5, it, _, v, _)) => {
                                    let bs2 = add_block(with_last_items(bs1, it.push(StatementV::Volatile(InstrV::Jnz(v, start, exit)))), start);
                                    lemma_body_keeps_out(fid, s5, bs2, body);
                                },
                            }
                        },
                    },
                },
            },
            StmtV::IfElse(branches) => match new_label(s, "if_exit"@) {
                None => {},
                Some((s1, exit)) => lemma_if_branches_keeps_out(fid, s1, bs, branches, 0, exit, None),
            },
            StmtV::Return(value) => match value {
                None => {},
                Some(e) => match lookup(s.funcs, s.current) {
                    None => {},
                    Some(sig) => match sig.0 {
                        None => {},
                        Some(rt) => lemma_expr_keeps_out(fid, s, last_items(bs), e, rt),
                    },
                },
            },
            _ => {},
        }
    }
}

proof fn lemma_if_branches_keeps_out(
    fid: nat,
    s: GenSt,
    bs: Seq<BlockV>,
    branches: Seq<(Option<ExprV>, Seq<StmtV>)>,
    i: int,
    exit: Seq<char>,
    given: Option<(Seq<char>, Seq<char>)>,
)
    ensures
        g_if_branches(fid, s, bs, branches, i, exit, given) matches Some(x) ==> x.0.out == s.out,
    decreases branches, branches.len() - i,
{
    if 0 <= i < branches.len() {
        match branch_labels(s, given) {
            None => {},
            Some((s2, check, start)) => match branches[i].0 {
                None => lemma_body_keeps_out(fid, s2, add_block(bs, start), branches[i].1),
                Some(cond) => {
                    lemma_expr_keeps_out(fid, s2, Seq::empty(), cond, TypeV::Bool(crate::parser::expr::expr_info(cond)));
                    match g_expr(fid, s2, Seq::empty(), cond, TypeV::Bool(crate::parser::expr::expr_info(cond))) {
                        None => {},
                        Some((s3, it, _, v, _)) => {
                            let more = i + 1 < branches.len();
                            let nxt = if more { branch_labels(s3, None) } else { Some((s3, exit, exit)) };
                            match nxt {
                                None => {},
                                Some((s4, c2, st2)) => {
                                    let target = if !more {
                                        exit
                                    } else if branches[i + 1].0 is Some {
                                        c2
                                    } else {
                                        st2
                                    };
                                    let bs1 = add_block(bs, check);
                                    let bs2 = add_block(with_last_items(bs1, it.push(StatementV::Volatile(InstrV::Jnz(v, start, target)))), start);
                                    lemma_body_keeps_out(fid, s4, bs2, branches[i].1);
                                    match g_body(fid, s4, bs2, branches[i].1) {
                                        None => {},
                                        Some((s5, bs3)) => if bs3.len() > 0 {
                                            lemma_if_branches_keeps_out(
                                                fid,
                                                s5,
                                                add_instr(bs3, InstrV::Jmp(exit)),
                                                branches,
                                                i + 1,
                                                exit,
                                                if more { Some((c2, st2)) } else { None },
                                            );
                                        },
                                    }
                                },
                            }
                        },
                    }
                },
            },
        }
    }
}

proof fn lemma_body_keeps_out(fid: nat, s: GenSt, bs: Seq<BlockV>, body: Seq<StmtV>)
    ensures
        g_body(fid, s, bs, body) matches Some(x) ==> x.0.out == s.out,
    decreases body, 0int,
{
    if body.len() > 0 {
        lemma_body_keeps_out(fid, s, bs, body.drop_last());
        match g_body(fid, s, bs, body.drop_last()) {
            None => {},
            Some((s1, bs1)) => lemma_body_stmt_keeps_out(fid, s1, bs1, body.last()),
        }
    }
}

/// The functions a file declares, in order: each name and whether it is exported
/// (`main`, or marked for export to the linker).
pub open spec fn declared_functions(ast: Seq<StmtV>) -> Seq<(Seq<char>, bool)>
    decreases ast.len(),
{
    if ast.len() == 0 {
        Seq::empty()
    } else {
        let before = declared_functions(ast.drop_last());
        match ast.last() {
            StmtV::Func(is_export, _, id, _, _, _) => before.push((id, id == "main"@ || is_export)),
            _ => before,
        }
    }
}

/// Compiling a file adds one function to the module for each function it declares, in
/// order, under its own name, exported exactly when it is `main` or marked for export; what the
/// module held before stays.
pub proof fn law_one_function_per_declaration(fid: nat, s: GenSt, ast: Seq<StmtV>)
    ensures
        g_program(fid, s, ast) matches Some(s2) ==> {
            &&& s2.out.len() == s.out.len() + declared_functions(ast).len()
            &&& s2.out.take(s.out.len() as int) == s.out
            &&& forall|k: int| 0 <= k < declared_functions(ast).len() ==> ((#[trigger] s2.out[s.out.len() + k]).name, s2.out[s.out.len() + k].exported) == declared_functions(ast)[k]
        },
    decreases ast.len(),
{
    if ast.len() > 0 {
        law_one_function_per_declaration(fid, s, ast.drop_last());
        match g_program(fid, s, ast.drop_last()) {
            None => {},
            Some(s1) => {
                let fs = declared_functions(ast.drop_last());
                match ast.last() {
                    StmtV::Func(is_export, _, id, args, ret, body) => {
                        let t1 = GenSt { current: id, funcs: insert(s1.funcs, id, (ret, arg_types(args))), ..s1 };
                        let (t2, qret) = match ret {
                            Some(t) => {
                                let (sx, q) = to_qbe(fid, t1, t);
                                (sx, Some(q))
                            },
                            None => (t1, None),
                        };
                        let (t3, qargs) = g_fn_args(fid, t2, args);
                        lemma_fn_args_keep_out(fid, t2, args);
                        let t4 = GenSt { scopes: t3.scopes.push(Seq::empty()), ..t3 };
                        lemma_body_keeps_out(fid, t4, seq![BlockV { label: "start"@, items: Seq::empty() }], body);
                        if let Some(s2) = g_program(fid, s, ast) {
                            assert(s2.out.len() == s1.out.len() + 1);
                            assert(s2.out.drop_last() == s1.out);
                            assert(s2.out.take(s.out.len() as int) =~= s1.out.take(s.out.len() as int));
                            assert forall|k: int| 0 <= k < declared_functions(ast).len() implies ((#[trigger] s2.out[s.out.len() + k]).name, s2.out[s.out.len() + k].exported) == declared_functions(ast)[k] by {
                                if k < fs.len() {
                                    assert(s2.out[s.out.len() + k] == s1.out[s.out.len() + k]);
                                }
                            }
                        }
                    },
                    _ => {},
                }
            },
        }
    }
}

proof fn lemma_fn_args_keep_out(fid: nat, s: GenSt, args: Seq<(Seq<char>, TypeV)>)
    ensures
        g_fn_args(fid, s, args).0.out == s.out,
        g_fn_args(fid, s, args).0.loops == s.loops,
    decreases args.len(),
{
    if args.len() > 0 {
        lemma_fn_args_keep_out(fid, s, args.drop_last());
    }
}

/// The table of string literals: one entry per distinct text, the `k`-th named
/// `_lit_k`, as many as the counter says.
pub open spec fn strings_wf(s: GenSt) -> bool {
    &&& s.lits == s.strings.len()
    &&& forall|k: int| 0 <= k < s.strings.len() ==> (#[trigger] s.strings[k]).1 == numbered("_lit"@, k as nat)
    &&& forall|j: int, k: int| 0 <= j < k < s.strings.len() ==> (#[trigger] s.strings[j]).0 != (#[trigger] s.strings[k]).0
}

/// Asking for the data of a string keeps the table well formed and every name it
/// held; the text is then bound to the name returned, and data is added exactly when
/// the text is new: private, its bytes and then a zero byte, under that name.
pub proof fn law_string_table_grows(s: GenSt, t: Seq<char>, other: Seq<char>)
    requires
        strings_wf(s),
    ensures
        new_string(s, t) matches Some((s1, n)) ==> {
            &&& strings_wf(s1)
            &&& s1.strings.take(s.strings.len() as int) == s.strings
            &&& lookup(s1.strings, t) == Some(n)
            &&& (lookup(s.strings, other) is Some ==> lookup(s1.strings, other) == lookup(s.strings, other))
            &&& s1.data == (if lookup(s.strings, t) is Some {
                s.data
            } else {
                s.data.push(string_data(n, t))
            })
            &&& (lookup(s.strings, t) is None ==> n == numbered("_lit"@, s.lits))
        },
{
    lemma_find_from(s.strings, t, 0);
    lemma_find_from(s.strings, other, 0);
    if lookup(s.strings, t) is None && s.lits + 1 <= usize::MAX {
        let name = numbered("_lit"@, s.lits);
        let s1 = new_string(s, t).unwrap().0;
        lemma_find_push(s.strings, (t, name), t, 0);
        lemma_find_push(s.strings, (t, name), other, 0);
        assert(s1.strings.take(s.strings.len() as int) =~= s.strings);
        assert forall|j: int, k: int| 0 <= j < k < s1.strings.len() implies (#[trigger] s1.strings[j]).0 != (#[trigger] s1.strings[k]).0 by {
            if k == s.strings.len() {
                assert(s1.strings[j] == s.strings[j]);
            } else {
                assert(s1.strings[j] == s.strings[j]);
                assert(s1.strings[k] == s.strings[k]);
            }
        }
        assert forall|k: int| 0 <= k < s1.strings.len() implies (#[trigger] s1.strings[k]).1 == numbered("_lit"@, k as nat) by {
            if k < s.strings.len() {
                assert(s1.strings[k] == s.strings[k]);
            }
        }
        if let Some(j) = find_from(s.strings, other, 0) {
            assert(s1.strings[j] == s.strings[j]);
        }
    }
}

/// In a well-formed table two texts have the same name exactly when they are the same
/// text: the strings of a module each get their own data.
pub proof fn law_string_names_distinct(s: GenSt, t1: Seq<char>, t2: Seq<char>)
    requires
        strings_wf(s),
        lookup(s.strings, t1) is Some,
        lookup(s.strings, t2) is Some,
    ensures
        lookup(s.strings, t1) == lookup(s.strings, t2) <==> t1 == t2,
{
    lemma_find_from(s.strings, t1, 0);
    lemma_find_from(s.strings, t2, 0);
    let i1 = find_from(s.strings, t1, 0).unwrap();
    let i2 = find_from(s.strings, t2, 0).unwrap();
    if i1 != i2 {
        law_numbered_distinct("_lit"@, i1 as nat, i2 as nat);
    }
}

/// Asking for the data of each text of `ts` in turn: the state after, and the name
/// given for each text.
pub open spec fn new_strings(s: GenSt, ts: Seq<Seq<char>>) -> Option<(GenSt, Seq<Seq<char>>)>
    decreases ts.len(),
{
    if ts.len() == 0 {
        Some((s, Seq::empty()))
    } else {
        match new_strings(s, ts.drop_last()) {
            None => None,
            Some((s1, ns)) => match new_string(s1, ts.last()) {
                None => None,
                Some((s2, n)) => Some((s2, ns.push(n))),
            },
        }
    }
}

/// Over any run of string literals, two get the same name exactly when they are the
/// same text, each name stays bound to its text, and the module gains one data item per
/// text not seen before, after what it held.
pub proof fn law_one_data_per_distinct_string(s: GenSt, ts: Seq<Seq<char>>)
    requires
        strings_wf(s),
    ensures
        new_strings(s, ts) matches Some((s2, ns)) ==> {
            &&& strings_wf(s2)
            &&& ns.len() == ts.len()
            &&& forall|i: int| 0 <= i < ts.len() ==> lookup(s2.strings, #[trigger] ts[i]) == Some(ns[i])
            &&& forall|i: int, j: int| 0 <= i < ts.len() && 0 <= j < ts.len() ==> (#[trigger] ns[i] == #[trigger] ns[j] <==> ts[i] == ts[j])
            &&& s.data.len() <= s2.data.len()
            &&& s2.data.take(s.data.len() as int) == s.data
            &&& s2.data.len() - s.data.len() == s2.strings.len() - s.strings.len()
        },
    decreases ts.len(),
{
    if ts.len() > 0 {
        law_one_data_per_distinct_string(s, ts.drop_last());
        if let Some((s1, ns1)) = new_strings(s, ts.drop_last()) {
            let t = ts.last();
            if let Some((s2, n)) = new_string(s1, t) {
                law_string_table_grows(s1, t, t);
                let ns = ns1.push(n);
                assert forall|i: int| 0 <= i < ts.len() implies lookup(s2.strings, #[trigger] ts[i]) == Some(ns[i]) by {
                    if i < ts.len() - 1 {
                        assert(ts[i] == ts.drop_last()[i]);
                        law_string_table_grows(s1, t, ts[i]);
                    }
                }
                assert forall|i: int, j: int| 0 <= i < ts.len() && 0 <= j < ts.len() implies (#[trigger] ns[i] == #[trigger] ns[j] <==> ts[i] == ts[j]) by {
                    law_string_names_distinct(s2, ts[i], ts[j]);
                }
                assert(s2.data.take(s.data.len() as int) =~= s1.data.take(s.data.len() as int));
            }
        }
    }
}

/// The labels an instruction may jump to.
pub open spec fn instr_targets(i: InstrV) -> Seq<Seq<char>> {
    match i {
        InstrV::Jmp(l) => seq![l],
        InstrV::Jnz(_, a, b) => seq![a, b],
        _ => Seq::empty(),
    }
}

pub open spec fn stmt_targets(st: StatementV) -> Seq<Seq<char>> {
    match st {
        StatementV::Assign(_, _, i) => instr_targets(i),
        StatementV::Volatile(i) => instr_targets(i),
    }
}

/// Some block of `bs` is labelled `l`.
pub open spec fn has_label(bs: Seq<BlockV>, l: Seq<char>) -> bool {
    exists|k: int| 0 <= k < bs.len() && #[trigger] bs[k].label == l
}

/// Every jump in `bs` goes to a block of `bs` or to a label of `p`.
pub open spec fn jumps_ok(bs: Seq<BlockV>, p: Set<Seq<char>>) -> bool {
    forall|k: int, m: int, x: int|
        0 <= k < bs.len() && 0 <= m < bs[k].items.len() && 0 <= x < stmt_targets(bs[k].items[m]).len() ==> has_label(
            bs,
            #[trigger] stmt_targets(bs[k].items[m])[x],
        ) || p.contains(stmt_targets(bs[k].items[m])[x])
}

/// Every block label of `a` is one of `b`.
pub open spec fn labels_grow(a: Seq<BlockV>, b: Seq<BlockV>) -> bool {
    forall|l: Seq<char>| has_label(a, l) ==> #[trigger] has_label(b, l)
}

/// The labels of the enclosing loops are blocks of `bs` or labels of `p`.
pub open spec fn loops_ok(loops: Seq<(Seq<char>, Seq<char>)>, bs: Seq<BlockV>, p: Set<Seq<char>>) -> bool {
    forall|j: int| 0 <= j < loops.len() ==> (has_label(bs, (#[trigger] loops[j]).0) || p.contains(loops[j].0)) && (has_label(
        bs,
        loops[j].1,
    ) || p.contains(loops[j].1))
}

/// `it` is `items` followed by statements that jump nowhere.
pub open spec fn no_jumps_after(items: Seq<StatementV>, it: Seq<StatementV>) -> bool {
    &&& items.len() <= it.len()
    &&& forall|m: int| 0 <= m < items.len() ==> #[trigger] it[m] == items[m]
    &&& forall|m: int| items.len() <= m < it.len() ==> stmt_targets(#[trigger] it[m]).len() == 0
}

proof fn lemma_no_jumps_trans(a: Seq<StatementV>, b: Seq<StatementV>, c: Seq<StatementV>)
    requires
        no_jumps_after(a, b),
        no_jumps_after(b, c),
    ensures
        no_jumps_after(a, c),
{
    assert forall|m: int| a.len() <= m < c.len() implies stmt_targets(#[trigger] c[m]).len() == 0 by {
        if m < b.len() {
            assert(c[m] == b[m]);
        }
    }
}

proof fn lemma_no_jumps_push(a: Seq<StatementV>, b: Seq<StatementV>, x: StatementV)
    requires
        no_jumps_after(a, b),
        stmt_targets(x).len() == 0,
    ensures
        no_jumps_after(a, b.push(x)),
{
    assert forall|m: int| a.len() <= m < b.push(x).len() implies stmt_targets(#[trigger] b.push(x)[m]).len() == 0 by {
        if m < b.len() {
            assert(b.push(x)[m] == b[m]);
        }
    }
}

proof fn lemma_no_jumps_refl(a: Seq<StatementV>)
    ensures
        no_jumps_after(a, a),
{
}

proof fn lemma_expr_no_jumps(fid: nat, s: GenSt, items: Seq<StatementV>, e: ExprV, ty: TypeV)
    ensures
        g_expr(fid, s, items, e, ty) matches Some(r) ==> no_jumps_after(items, r.1) && r.0.loops == s.loops,
    decreases expr_size(e), 2int,
{
    match new_tmp(s) {
        None => {},
        Some((s0, tmp)) => match e {
            ExprV::Arith(l, op, r, i) => lemma_binary_no_jumps(fid, s0, items, tmp, *l, *r, ty, 0, op, LogicOp::And, CompOp::Eq, i),
            ExprV::Logic(l, op, r, i) => lemma_binary_no_jumps(fid, s0, items, tmp, *l, *r, ty, 1, ArithOp::Add, op, CompOp::Eq, i),
            ExprV::Comp(l, op, r, i) => lemma_binary_no_jumps(fid, s0, items, tmp, *l, *r, ty, 2, ArithOp::Add, LogicOp::And, op, i),
            ExprV::Unary(op, x, _) => {
                lemma_expr_no_jumps(fid, s0, items, *x, ty);
                match g_expr(fid, s0, items, *x, ty) {
                    None => {},
                    Some((s1, it1, _, v, xt)) => {
                        let zero = ExprV::Int(0, Info { line: 0, offset: 0, len: 0 });
                        let is_zero = ExprV::Comp(x, CompOp::Eq, Box::new(zero), Info { line: 0, offset: 0, len: 0 });
                        assert(expr_size(zero) == 1);
                        assert(expr_size(is_zero) == 2 + expr_size(*x));
                        lemma_expr_no_jumps(fid, s1, it1, is_zero, xt);
                        let (s2, q) = to_qbe(fid, s1, xt);
                        lemma_no_jumps_push(items, it1, StatementV::Assign(ValV::Temporary(tmp), q, InstrV::Neg(v)));
                        match g_expr(fid, s1, it1, is_zero, xt) {
                            None => {},
                            Some((s3, it2, ntmp, _, _)) => {
                                lemma_no_jumps_trans(items, it1, it2);
                                let (s4, q2) = to_qbe(fid, s3, xt);
                                lemma_no_jumps_push(items, it2, StatementV::Assign(ValV::Temporary(tmp), q2, InstrV::Copy(ValV::Temporary(ntmp))));
                            },
                        }
                    },
                }
            },
            ExprV::Call(f, args, _) => match *f {
                ExprV::Id(path, _) => {
                    let name = call_name(s0.uses, path);
                    lemma_args_no_jumps(fid, s0, items, name, args);
                    match g_args(fid, s0, items, name, args) {
                        None => {},
                        Some((s1, it1, targs)) => {
                            lemma_no_jumps_push(items, it1, StatementV::Volatile(InstrV::Call(name, targs)));
                        },
                    }
                },
                _ => {},
            },
            _ => {
                lemma_no_jumps_refl(items);
            },
        },
    }
}

proof fn lemma_binary_no_jumps(
    fid: nat,
    s: GenSt,
    items: Seq<StatementV>,
    tmp: Seq<char>,
    l: ExprV,
    r: ExprV,
    ty: TypeV,
    op: int,
    aop: ArithOp,
    lop: LogicOp,
    cop: CompOp,
    cinfo: Info,
)
    ensures
        g_binary(fid, s, items, tmp, l, r, ty, op, aop, lop, cop, cinfo) matches Some(x) ==> no_jumps_after(items, x.1) && x.0.loops == s.loops,
    decreases 1 + expr_size(l) + expr_size(r), 1int,
{
    lemma_expr_no_jumps(fid, s, items, l, ty);
    match g_expr(fid, s, items, l, ty) {
        None => {},
        Some((s1, it1, _, lv, lt)) => {
            lemma_expr_no_jumps(fid, s1, it1, r, ty);
            match g_expr(fid, s1, it1, r, ty) {
                None => {},
                Some((s2, it2, _, rv, _)) => {
                    lemma_no_jumps_trans(items, it1, it2);
                    let instr = if op == 0 {
                        arith_instr(aop, lv, rv)
                    } else if op == 1 {
                        logic_instr(lop, lv, rv)
                    } else {
                        InstrV::Cmp(IrType::Word, cmp_of(cop), lv, rv)
                    };
                    let (s3, q) = to_qbe(fid, s2, ty);
                    lemma_no_jumps_push(items, it2, StatementV::Assign(ValV::Temporary(tmp), q, instr));
                },
            }
        },
    }
}

proof fn lemma_args_no_jumps(fid: nat, s: GenSt, items: Seq<StatementV>, name: Seq<char>, args: Seq<ExprV>)
    ensures
        g_args(fid, s, items, name, args) matches Some(x) ==> no_jumps_after(items, x.1) && x.0.loops == s.loops,
    decreases exprs_size(args), 3int,
{
    if args.len() == 0 {
        lemma_no_jumps_refl(items);
    } else {
        assert(expr_size(args.last()) >= 1);
        lemma_args_no_jumps(fid, s, items, name, args.drop_last());
        match g_args(fid, s, items, name, args.drop_last()) {
            None => {},
            Some((s1, it1, acc)) => match lookup(s1.funcs, name) {
                None => {},
                Some(sig) => if args.len() - 1 < sig.1.len() {
                    lemma_exprs_size_elem(args, args.len() - 1);
                    lemma_expr_no_jumps(fid, s1, it1, args.last(), sig.1[args.len() - 1]);
                    match g_expr(fid, s1, it1, args.last(), sig.1[args.len() - 1]) {
                        None => {},
                        Some((s2, it2, _, v, _)) => lemma_no_jumps_trans(items, it1, it2),
                    }
                },
            },
        }
    }
}

proof fn lemma_labels_grow_trans(a: Seq<BlockV>, b: Seq<BlockV>, c: Seq<BlockV>)
    requires
        labels_grow(a, b),
        labels_grow(b, c),
    ensures
        labels_grow(a, c),
{
}

proof fn lemma_with_last_jumps(bs: Seq<BlockV>, it: Seq<StatementV>, p: Set<Seq<char>>)
    requires
        bs.len() > 0,
        jumps_ok(bs, p),
        no_jumps_after(last_items(bs), it),
    ensures
        jumps_ok(with_last_items(bs, it), p),
        labels_grow(bs, with_last_items(bs, it)),
        labels_grow(with_last_items(bs, it), bs),
        with_last_items(bs, it).len() == bs.len(),
{
    let b2 = with_last_items(bs, it);
    assert forall|l: Seq<char>| has_label(bs, l) implies #[trigger] has_label(b2, l) by {
        let k = choose|k: int| 0 <= k < bs.len() && #[trigger] bs[k].label == l;
        assert(b2[k].label == l);
    }
    assert forall|l: Seq<char>| has_label(b2, l) implies #[trigger] has_label(bs, l) by {
        let k = choose|k: int| 0 <= k < b2.len() && #[trigger] b2[k].label == l;
        assert(bs[k].label == l);
    }
    assert forall|k: int, m: int, x: int|
        0 <= k < b2.len() && 0 <= m < b2[k].items.len() && 0 <= x < stmt_targets(b2[k].items[m]).len() implies has_label(
        b2,
        #[trigger] stmt_targets(b2[k].items[m])[x],
    ) || p.contains(stmt_targets(b2[k].items[m])[x]) by {
        let t = stmt_targets(b2[k].items[m])[x];
        if k == bs.len() - 1 {
            assert(m < last_items(bs).len());
            assert(b2[k].items[m] == bs[k].items[m]);
        } else {
            assert(b2[k] == bs[k]);
        }
        assert(has_label(bs, t) ==> has_label(b2, t));
    }
}

proof fn lemma_add_instr_jumps(bs: Seq<BlockV>, i: InstrV, p: Set<Seq<char>>)
    requires
        bs.len() > 0,
        jumps_ok(bs, p),
        forall|x: int| 0 <= x < instr_targets(i).len() ==> has_label(bs, #[trigger] instr_targets(i)[x]) || p.contains(instr_targets(i)[x]),
    ensures
        jumps_ok(add_instr(bs, i), p),
        labels_grow(bs, add_instr(bs, i)),
        add_instr(bs, i).len() == bs.len(),
{
    let b2 = add_instr(bs, i);
    let n = last_items(bs).len();
    assert forall|l: Seq<char>| has_label(bs, l) implies #[trigger] has_label(b2, l) by {
        let k = choose|k: int| 0 <= k < bs.len() && #[trigger] bs[k].label == l;
        assert(b2[k].label == l);
    }
    assert forall|k: int, m: int, x: int|
        0 <= k < b2.len() && 0 <= m < b2[k].items.len() && 0 <= x < stmt_targets(b2[k].items[m]).len() implies has_label(
        b2,
        #[trigger] stmt_targets(b2[k].items[m])[x],
    ) || p.contains(stmt_targets(b2[k].items[m])[x]) by {
        let t = stmt_targets(b2[k].items[m])[x];
        if k == bs.len() - 1 {
            if m < n {
                assert(b2[k].items[m] == bs[k].items[m]);
            } else {
                assert(b2[k].items[m] == StatementV::Volatile(i));
                assert(t == instr_targets(i)[x]);
            }
        } else {
            assert(b2[k] == bs[k]);
        }
        assert(has_label(bs, t) ==> has_label(b2, t));
    }
}

proof fn lemma_add_block_jumps(bs: Seq<BlockV>, l: Seq<char>, p: Set<Seq<char>>)
    requires
        jumps_ok(bs, p),
    ensures
        jumps_ok(add_block(bs, l), p),
        labels_grow(bs, add_block(bs, l)),
        has_label(add_block(bs, l), l),
        add_block(bs, l).len() == bs.len() + 1,
{
    let b2 = add_block(bs, l);
    assert(b2[bs.len() as int].label == l);
    assert forall|l2: Seq<char>| has_label(bs, l2) implies #[trigger] has_label(b2, l2) by {
        let k = choose|k: int| 0 <= k < bs.len() && #[trigger] bs[k].label == l2;
        assert(b2[k].label == l2);
    }
    assert forall|k: int, m: int, x: int|
        0 <= k < b2.len() && 0 <= m < b2[k].items.len() && 0 <= x < stmt_targets(b2[k].items[m]).len() implies has_label(
        b2,
        #[trigger] stmt_targets(b2[k].items[m])[x],
    ) || p.contains(stmt_targets(b2[k].items[m])[x]) by {
        assert(k < bs.len());
        assert(b2[k] == bs[k]);
        let t = stmt_targets(b2[k].items[m])[x];
        assert(has_label(bs, t) ==> has_label(b2, t));
    }
}

/// A promised label that is now a block need not be promised.
proof fn lemma_jumps_kept(bs: Seq<BlockV>, p: Set<Seq<char>>, q: Set<Seq<char>>)
    requires
        jumps_ok(bs, p),
        forall|l: Seq<char>| p.contains(l) ==> has_label(bs, l) || q.contains(l),
    ensures
        jumps_ok(bs, q),
{
}

proof fn lemma_loops_kept(loops: Seq<(Seq<char>, Seq<char>)>, bs: Seq<BlockV>, b2: Seq<BlockV>, p: Set<Seq<char>>, q: Set<Seq<char>>)
    requires
        loops_ok(loops, bs, p),
        labels_grow(bs, b2),
        forall|l: Seq<char>| p.contains(l) ==> has_label(b2, l) || q.contains(l),
    ensures
        loops_ok(loops, b2, q),
{
    assert forall|j: int| 0 <= j < loops.len() implies (has_label(b2, (#[trigger] loops[j]).0) || q.contains(loops[j].0)) && (has_label(
        b2,
        loops[j].1,
    ) || q.contains(loops[j].1)) by {
        assert(has_label(bs, loops[j].0) ==> has_label(b2, loops[j].0));
        assert(has_label(bs, loops[j].1) ==> has_label(b2, loops[j].1));
    }
}

proof fn lemma_last_push_no_jumps(bs: Seq<BlockV>, it: Seq<StatementV>, x: StatementV, p: Set<Seq<char>>)
    requires
        bs.len() > 0,
        jumps_ok(bs, p),
        no_jumps_after(last_items(bs), it),
        stmt_targets(x).len() == 0,
    ensures
        jumps_ok(with_last_items(bs, it.push(x)), p),
        labels_grow(bs, with_last_items(bs, it.push(x))),
        with_last_items(bs, it.push(x)).len() == bs.len(),
{
    lemma_no_jumps_push(last_items(bs), it, x);
    lemma_with_last_jumps(bs, it.push(x), p);
}

proof fn lemma_assign_jumps(fid: nat, s: GenSt, bs: Seq<BlockV>, id: Seq<char>, val: ExprV, p: Set<Seq<char>>)
    requires
        bs.len() > 0,
        jumps_ok(bs, p),
    ensures
        g_assign(fid, s, bs, id, val) matches Some((s2, bs2)) ==> jumps_ok(bs2, p) && labels_grow(bs, bs2) && bs2.len() > 0
            && s2.loops == s.loops,
{
    let ty = var_type(s.scopes, id);
    lemma_expr_no_jumps(fid, s, last_items(bs), val, ty);
    match g_expr(fid, s, last_items(bs), val, ty) {
        None => {},
        Some((s1, it1, _, v, _)) => {
            let (s2, q) = to_qbe(fid, s1, ty);
            lemma_last_push_no_jumps(bs, it1, StatementV::Assign(ValV::Temporary(id), q, InstrV::Copy(v)), p);
        },
    }
}

#[verifier::spinoff_prover]
#[verifier::rlimit(40)]
proof fn lemma_while_jumps(fid: nat, s: GenSt, bs: Seq<BlockV>, cond: ExprV, body: Seq<StmtV>, p: Set<Seq<char>>)
    requires
        bs.len() > 0,
        jumps_ok(bs, p),
        loops_ok(s.loops, bs, p),
    ensures
        g_body_stmt(fid, s, bs, StmtV::While(cond, body)) matches Some((s2, bs2)) ==> jumps_ok(bs2, p) && labels_grow(bs, bs2)
            && bs2.len() > 0 && s2.loops == s.loops,
    decreases StmtV::While(cond, body), 1int,
{
    match new_label(s, "while_check"@) {
        None => {},
        Some((s1, check)) => match new_label(s1, "while_start"@) {
            None => {},
            Some((s2, start)) => match new_label(s2, "while_end"@) {
                None => {},
                Some((s3, exit)) => {
                    let s4 = GenSt { loops: s3.loops.push((check, exit)), ..s3 };
                    let q = p.insert(exit);
                    lemma_jumps_kept(bs, p, q);
                    let bs1 = add_block(bs, check);
                    lemma_add_block_jumps(bs, check, q);
                    lemma_expr_no_jumps(fid, s4, Seq::empty(), cond, TypeV::Bool(Info { line: 0, offset: 0, len: 0 }));
                    match g_expr(fid, s4, Seq::empty(), cond, TypeV::Bool(Info { line: 0, offset: 0, len: 0 })) {
                        None => {},
                        Some((s5, it, _, v, _)) => {
                            let bw = with_last_items(bs1, it);
                            lemma_with_last_jumps(bs1, it, q);
                            let jnz = InstrV::Jnz(v, start, exit);
                            lemma_jumps_kept(bw, q, q.insert(start));
                            lemma_add_instr_jumps(bw, jnz, q.insert(start));
                            assert(add_instr(bw, jnz) =~= with_last_items(bs1, it.push(StatementV::Volatile(jnz))));
                            let bj = add_instr(bw, jnz);
                            let bs2 = add_block(bj, start);
                            lemma_add_block_jumps(bj, start, q.insert(start));
                            lemma_jumps_kept(bs2, q.insert(start), q);
                            lemma_labels_grow_trans(bs, bs1, bw);
                            lemma_labels_grow_trans(bs, bw, bj);
                            lemma_labels_grow_trans(bs, bj, bs2);
                            lemma_loops_kept(s.loops, bs, bs2, p, q);
                            assert(has_label(bs1, check));
                            assert(has_label(bs2, check));
                            assert(s5.loops == s4.loops);
                            assert(loops_ok(s5.loops, bs2, q)) by {
                                assert forall|j: int| 0 <= j < s5.loops.len() implies (has_label(bs2, (#[trigger] s5.loops[j]).0) || q.contains(
                                    s5.loops[j].0,
                                )) && (has_label(bs2, s5.loops[j].1) || q.contains(s5.loops[j].1)) by {
                                    if j < s.loops.len() {
                                        assert(s5.loops[j] == s.loops[j]);
                                    }
                                }
                            }
                            lemma_body_jumps(fid, s5, bs2, body, q);
                            match g_body(fid, s5, bs2, body) {
                                None => {},
                                Some((s6, bs3)) => if bs3.len() > 0 {
                                    lemma_labels_grow_trans(bs, bs2, bs3);
                                    assert(has_label(bs3, check));
                                    lemma_add_instr_jumps(bs3, InstrV::Jmp(check), q);
                                    let bk = add_instr(bs3, InstrV::Jmp(check));
                                    lemma_add_block_jumps(bk, exit, q);
                                    let bf = add_block(bk, exit);
                                    lemma_jumps_kept(bf, q, p);
                                    lemma_labels_grow_trans(bs, bs3, bk);
                                    lemma_labels_grow_trans(bs, bk, bf);
                                    assert(s6.loops.drop_last() =~= s.loops);
                                },
                            }
                        },
                    }
                },
            },
        },
    }
}

#[verifier::spinoff_prover]
#[verifier::rlimit(40)]
proof fn lemma_if_jumps(
    fid: nat,
    s: GenSt,
    bs: Seq<BlockV>,
    branches: Seq<(Option<ExprV>, Seq<StmtV>)>,
    i: int,
    exit: Seq<char>,
    given: Option<(Seq<char>, Seq<char>)>,
    p: Set<Seq<char>>,
)
    requires
        bs.len() > 0,
        loops_ok(s.loops, bs, p),
        p.contains(exit),
        given is Some ==> 0 <= i < branches.len(),
        jumps_ok(
            bs,
            match given {
                Some(g) => p.insert(if branches[i].0 is Some { g.0 } else { g.1 }),
                None => p,
            },
        ),
    ensures
        g_if_branches(fid, s, bs, branches, i, exit, given) matches Some((s2, bs2)) ==> jumps_ok(bs2, p) && labels_grow(bs, bs2)
            && bs2.len() > 0 && s2.loops == s.loops,
    decreases branches, branches.len() - i,
{
    if i < 0 || i >= branches.len() {
    } else {
        let q0 = match given {
            Some(g) => p.insert(if branches[i].0 is Some { g.0 } else { g.1 }),
            None => p,
        };
        match branch_labels(s, given) {
            None => {},
            Some((s2, check, start)) => {
                assert(s2.loops == s.loops);
                match branches[i].0 {
                    None => {
                        let b1 = add_block(bs, start);
                        lemma_add_block_jumps(bs, start, q0);
                        lemma_jumps_kept(b1, q0, p);
                        lemma_loops_kept(s.loops, bs, b1, p, p);
                        lemma_body_jumps(fid, s2, b1, branches[i].1, p);
                        if let Some((s5, b5)) = g_body(fid, s2, b1, branches[i].1) {
                            lemma_labels_grow_trans(bs, b1, b5);
                        }
                    },
                    Some(cond) => {
                        lemma_expr_no_jumps(fid, s2, Seq::empty(), cond, TypeV::Bool(crate::parser::expr::expr_info(cond)));
                        match g_expr(fid, s2, Seq::empty(), cond, TypeV::Bool(crate::parser::expr::expr_info(cond))) {
                            None => {},
                            Some((s3, it, _, v, _)) => {
                                let more = i + 1 < branches.len();
                                let nxt = if more { branch_labels(s3, None) } else { Some((s3, exit, exit)) };
                                match nxt {
                                    None => {},
                                    Some((s4, c2, st2)) => {
                                        let target = if !more {
                                            exit
                                        } else if branches[i + 1].0 is Some {
                                            c2
                                        } else {
                                            st2
                                        };
                                        let r = p.insert(target);
                                        let bs1 = add_block(bs, check);
                                        lemma_add_block_jumps(bs, check, q0);
                                        lemma_jumps_kept(bs1, q0, r);
                                        let bw = with_last_items(bs1, it);
                                        lemma_with_last_jumps(bs1, it, r);
                                        let jnz = InstrV::Jnz(v, start, target);
                                        lemma_jumps_kept(bw, r, r.insert(start));
                                        lemma_add_instr_jumps(bw, jnz, r.insert(start));
                                        assert(add_instr(bw, jnz) =~= with_last_items(bs1, it.push(StatementV::Volatile(jnz))));
                                        let bj = add_instr(bw, jnz);
                                        let bs2 = add_block(bj, start);
                                        lemma_add_block_jumps(bj, start, r.insert(start));
                                        lemma_jumps_kept(bs2, r.insert(start), r);
                                        lemma_labels_grow_trans(bs, bs1, bw);
                                        lemma_labels_grow_trans(bs, bw, bj);
                                        lemma_labels_grow_trans(bs, bj, bs2);
                                        lemma_loops_kept(s.loops, bs, bs2, p, r);
                                        assert(s4.loops == s.loops);
                                        lemma_body_jumps(fid, s4, bs2, branches[i].1, r);
                                        match g_body(fid, s4, bs2, branches[i].1) {
                                            None => {},
                                            Some((s5, bs3)) => if bs3.len() > 0 {
                                                lemma_labels_grow_trans(bs, bs2, bs3);
                                                lemma_add_instr_jumps(bs3, InstrV::Jmp(exit), r);
                                                let bk = add_instr(bs3, InstrV::Jmp(exit));
                                                lemma_labels_grow_trans(bs, bs3, bk);
                                                let g2: Option<(Seq<char>, Seq<char>)> = if more { Some((c2, st2)) } else { None };
                                                lemma_loops_kept(s.loops, bs, bk, p, p);
                                                if !more {
                                                    lemma_jumps_kept(bk, r, p);
                                                }
                                                lemma_if_jumps(fid, s5, bk, branches, i + 1, exit, g2, p);
                                                if let Some((s6, b6)) = g_if_branches(fid, s5, bk, branches, i + 1, exit, g2) {
                                                    lemma_labels_grow_trans(bs, bk, b6);
                                                }
                                            },
                                        }
                                    },
                                }
                            },
                        }
                    },
                }
            },
        }
    }
}

#[verifier::spinoff_prover]
#[verifier::rlimit(40)]
proof fn lemma_body_stmt_jumps(fid: nat, s: GenSt, bs: Seq<BlockV>, st: StmtV, p: Set<Seq<char>>)
    requires
        bs.len() > 0,
        jumps_ok(bs, p),
        loops_ok(s.loops, bs, p),
    ensures
        g_body_stmt(fid, s, bs, st) matches Some((s2, bs2)) ==> jumps_ok(bs2, p) && labels_grow(bs, bs2) && bs2.len() > 0
            && s2.loops == s.loops,
    decreases st, 2int,
{
    match st {
        StmtV::Declare(_, id, ty, val) => {
            let (s1, alloc) = alloc_of(fid, s, ty);
            let (s2, q) = to_qbe(fid, s1, ty);
            let x = StatementV::Assign(ValV::Temporary(id), q, alloc);
            lemma_no_jumps_refl(last_items(bs));
            lemma_last_push_no_jumps(bs, last_items(bs), x, p);
            let bs1 = with_last_items(bs, last_items(bs).push(x));
            let s3 = GenSt { scopes: declare_var(s2.scopes, id, ty), ..s2 };
            lemma_assign_jumps(fid, s3, bs1, id, val, p);
            if let Some((s4, b4)) = g_assign(fid, s3, bs1, id, val) {
                lemma_labels_grow_trans(bs, bs1, b4);
            }
        },
        StmtV::Assign(_, id, _, val) => lemma_assign_jumps(fid, s, bs, id, val, p),
        StmtV::Expr(e) => {
            lemma_expr_no_jumps(fid, s, last_items(bs), e, TypeV::Unknown);
            if let Some((s1, it1, _, _, _)) = g_expr(fid, s, last_items(bs), e, TypeV::Unknown) {
                lemma_with_last_jumps(bs, it1, p);
            }
        },
        StmtV::While(cond, body) => lemma_while_jumps(fid, s, bs, cond, body, p),
        StmtV::IfElse(branches) => match new_label(s, "if_exit"@) {
            None => {},
            Some((s1, exit)) => {
                let q = p.insert(exit);
                lemma_jumps_kept(bs, p, q);
                lemma_loops_kept(s.loops, bs, bs, p, q);
                lemma_if_jumps(fid, s1, bs, branches, 0, exit, None, q);
                if let Some((s2, bs2)) = g_if_branches(fid, s1, bs, branches, 0, exit, None) {
                    lemma_add_block_jumps(bs2, exit, q);
                    lemma_jumps_kept(add_block(bs2, exit), q, p);
                    lemma_labels_grow_trans(bs, bs2, add_block(bs2, exit));
                }
            },
        },
        StmtV::Return(value) => match value {
            None => lemma_add_instr_jumps(bs, InstrV::Ret(None), p),
            Some(e) => match lookup(s.funcs, s.current) {
                None => {},
                Some(sig) => match sig.0 {
                    None => {},
                    Some(rt) => {
                        lemma_expr_no_jumps(fid, s, last_items(bs), e, rt);
                        if let Some((s1, it1, _, v, _)) = g_expr(fid, s, last_items(bs), e, rt) {
                            lemma_last_push_no_jumps(bs, it1, StatementV::Volatile(InstrV::Ret(Some(v))), p);
                        }
                    },
                },
            },
        },
        StmtV::Break => if s.loops.len() > 0 {
            lemma_add_instr_jumps(bs, InstrV::Jmp(s.loops.last().1), p);
        },
        StmtV::Continue => if s.loops.len() > 0 {
            lemma_add_instr_jumps(bs, InstrV::Jmp(s.loops.last().0), p);
        },
        _ => {},
    }
}

proof fn lemma_body_jumps(fid: nat, s: GenSt, bs: Seq<BlockV>, body: Seq<StmtV>, p: Set<Seq<char>>)
    requires
        bs.len() > 0,
        jumps_ok(bs, p),
        loops_ok(s.loops, bs, p),
    ensures
        g_body(fid, s, bs, body) matches Some((s2, bs2)) ==> jumps_ok(bs2, p) && labels_grow(bs, bs2) && bs2.len() > 0
            && s2.loops == s.loops,
    decreases body, 0int,
{
    if body.len() > 0 {
        lemma_body_jumps(fid, s, bs, body.drop_last(), p);
        if let Some((s1, bs1)) = g_body(fid, s, bs, body.drop_last()) {
            lemma_loops_kept(s.loops, bs, bs1, p, p);
            lemma_body_stmt_jumps(fid, s1, bs1, body.last(), p);
            if let Some((s2, bs2)) = g_body_stmt(fid, s1, bs1, body.last()) {
                lemma_labels_grow_trans(bs, bs1, bs2);
            }
        }
    }
}

/// Every function that compiling a file adds to the module jumps only to labels of its
/// own blocks: each `jmp` and `jnz` target, `break` and `continue` included, names a
/// block of the same function. What the module held before stays as it was.
pub proof fn law_jump_targets_are_blocks(fid: nat, s: GenSt, ast: Seq<StmtV>)
    requires
        s.loops.len() == 0,
    ensures
        g_program(fid, s, ast) matches Some(s2) ==> {
            &&& s2.loops.len() == 0
            &&& s.out.len() <= s2.out.len()
            &&& forall|k: int| 0 <= k < s.out.len() ==> #[trigger] s2.out[k] == s.out[k]
            &&& forall|k: int| s.out.len() <= k < s2.out.len() ==> jumps_ok(#[trigger] s2.out[k].blocks, Set::empty())
        },
    decreases ast.len(),
{
    if ast.len() > 0 {
        law_jump_targets_are_blocks(fid, s, ast.drop_last());
        match g_program(fid, s, ast.drop_last()) {
            None => {},
            Some(s1) => match ast.last() {
                StmtV::Func(is_export, _, id, args, ret, body) => {
                    let t1 = GenSt { current: id, funcs: insert(s1.funcs, id, (ret, arg_types(args))), ..s1 };
                    let (t2, qret) = match ret {
                        Some(t) => {
                            let (sx, q) = to_qbe(fid, t1, t);
                            (sx, Some(q))
                        },
                        None => (t1, None),
                    };
                    lemma_fn_args_keep_out(fid, t2, args);
                    let (t3, qargs) = g_fn_args(fid, t2, args);
                    let t4 = GenSt { scopes: t3.scopes.push(Seq::empty()), ..t3 };
                    let b0 = seq![BlockV { label: "start"@, items: Seq::empty() }];
                    assert(jumps_ok(b0, Set::empty()));
                    assert(loops_ok(t4.loops, b0, Set::empty()));
                    lemma_body_jumps(fid, t4, b0, body, Set::empty());
                    lemma_body_keeps_out(fid, t4, b0, body);
                },
                _ => {},
            },
        }
    }
}

/// A comparison is compiled to the QBE comparison that says the same of any two
/// integers.
pub proof fn law_comparison_keeps_its_meaning(op: CompOp, a: int, b: int)
    ensures
        cmp_holds(cmp_of(op), a, b) == comp_holds(op, a, b),
{
}

/// An arithmetic operator is compiled to the QBE instruction that computes the same
/// value from any two integers, reading the two operands in order.
pub proof fn law_arithmetic_keeps_its_meaning(op: ArithOp, x: ValV, y: ValV, a: int, b: int)
    ensures
        instr_value(arith_instr(op, x, y), a, b) == Some(arith_value(op, a, b)),
        arith_instr(op, x, y) matches InstrV::Add(p, q) ==> p == x && q == y,
        arith_instr(op, x, y) matches InstrV::Sub(p, q) ==> p == x && q == y,
        arith_instr(op, x, y) matches InstrV::Mul(p, q) ==> p == x && q == y,
        arith_instr(op, x, y) matches InstrV::Div(p, q) ==> p == x && q == y,
{
}

/// A logical operator is compiled to the QBE instruction that computes the same truth
/// value from any two truth values.
pub proof fn law_logic_keeps_its_meaning(op: LogicOp, x: ValV, y: ValV, a: bool, b: bool)
    ensures
        instr_truth(logic_instr(op, x, y), a, b) == Some(logic_holds(op, a, b)),
{
}

/// The code of a comparison `l op r` ends by setting its temporary to a word-sized QBE
/// comparison that holds of two integers exactly when `op` does; for an arithmetic or
/// logical `l op r`, to an instruction that computes what `op` computes.
pub proof fn law_binary_code_keeps_its_operator(fid: nat, s: GenSt, items: Seq<StatementV>, e: ExprV, ty: TypeV)
    ensures
        g_expr(fid, s, items, e, ty) is Some ==> match e {
            ExprV::Comp(_, op, _, _) => {
                let (s2, it, tmp, v, t) = g_expr(fid, s, items, e, ty).unwrap();
                &&& it.len() > 0
                &&& it.last() matches StatementV::Assign(dest, _, InstrV::Cmp(w, c, _, _))
                &&& dest == ValV::Temporary(tmp) && v == dest && w == IrType::Word
                &&& forall|a: int, b: int| cmp_holds(c, a, b) == comp_holds(op, a, b)
            },
            ExprV::Arith(_, op, _, _) => {
                let (s2, it, tmp, v, t) = g_expr(fid, s, items, e, ty).unwrap();
                &&& it.len() > 0
                &&& it.last() matches StatementV::Assign(dest, _, instr)
                &&& dest == ValV::Temporary(tmp) && v == dest
                &&& forall|a: int, b: int| instr_value(instr, a, b) == Some(arith_value(op, a, b))
            },
            ExprV::Logic(_, op, _, _) => {
                let (s2, it, tmp, v, t) = g_expr(fid, s, items, e, ty).unwrap();
                &&& it.len() > 0
                &&& it.last() matches StatementV::Assign(dest, _, instr)
                &&& dest == ValV::Temporary(tmp) && v == dest
                &&& forall|a: bool, b: bool| instr_truth(instr, a, b) == Some(logic_holds(op, a, b))
            },
            _ => true,
        },
{
    if let Some((s0, tmp)) = new_tmp(s) {
        match e {
            ExprV::Comp(l, op, r, i) => {
                assert(g_expr(fid, s, items, e, ty) == g_binary(fid, s0, items, tmp, *l, *r, ty, 2, ArithOp::Add, LogicOp::And, op, i));
                if let Some((s1, it1, _, lv, lt)) = g_expr(fid, s0, items, *l, ty) {
                    if let Some((s2, it2, _, rv, _)) = g_expr(fid, s1, it1, *r, ty) {
                        let (s3, q) = to_qbe(fid, s2, ty);
                        let it = it2.push(StatementV::Assign(ValV::Temporary(tmp), q, InstrV::Cmp(IrType::Word, cmp_of(op), lv, rv)));
                        assert(g_expr(fid, s, items, e, ty) == Some((s3, it, tmp, ValV::Temporary(tmp), TypeV::Bool(i))));
                        assert(it.last() == StatementV::Assign(ValV::Temporary(tmp), q, InstrV::Cmp(IrType::Word, cmp_of(op), lv, rv)));
                    }
                }
            },
            ExprV::Arith(l, op, r, i) => {
                assert(g_expr(fid, s, items, e, ty) == g_binary(fid, s0, items, tmp, *l, *r, ty, 0, op, LogicOp::And, CompOp::Eq, i));
                if let Some((s1, it1, _, lv, lt)) = g_expr(fid, s0, items, *l, ty) {
                    if let Some((s2, it2, _, rv, _)) = g_expr(fid, s1, it1, *r, ty) {
                        let (s3, q) = to_qbe(fid, s2, ty);
                        let it = it2.push(StatementV::Assign(ValV::Temporary(tmp), q, arith_instr(op, lv, rv)));
                        assert(g_expr(fid, s, items, e, ty) == Some((s3, it, tmp, ValV::Temporary(tmp), lt)));
                        assert(it.last() == StatementV::Assign(ValV::Temporary(tmp), q, arith_instr(op, lv, rv)));
                    }
                }
            },
            ExprV::Logic(l, op, r, i) => {
                assert(g_expr(fid, s, items, e, ty) == g_binary(fid, s0, items, tmp, *l, *r, ty, 1, ArithOp::Add, op, CompOp::Eq, i));
                if let Some((s1, it1, _, lv, lt)) = g_expr(fid, s0, items, *l, ty) {
                    if let Some((s2, it2, _, rv, _)) = g_expr(fid, s1, it1, *r, ty) {
                        let (s3, q) = to_qbe(fid, s2, ty);
                        let it = it2.push(StatementV::Assign(ValV::Temporary(tmp), q, logic_instr(op, lv, rv)));
                        assert(g_expr(fid, s, items, e, ty) == Some((s3, it, tmp, ValV::Temporary(tmp), lt)));
                        assert(it.last() == StatementV::Assign(ValV::Temporary(tmp), q, logic_instr(op, lv, rv)));
                    }
                }
            },
            _ => {},
        }
    }
}

/// The code of `!x` ends by copying into its temporary the result of a word-sized
/// comparison of `x`'s value with the constant 0 that holds exactly when that value is
/// 0: `!x` is 1 exactly when `x` is 0.
pub proof fn law_not_tests_for_zero(fid: nat, s: GenSt, items: Seq<StatementV>, x: ExprV, i: Info, ty: TypeV)
    ensures
        g_expr(fid, s, items, ExprV::Unary(UnaryOp::Not, Box::new(x), i), ty) matches Some((s2, it, tmp, v, t)) ==> {
            &&& it.len() >= 2
            &&& v == ValV::Temporary(tmp)
            &&& it.last() matches StatementV::Assign(dest, _, InstrV::Copy(ValV::Temporary(n)))
            &&& dest == v
            &&& it[it.len() - 2] matches StatementV::Assign(d2, _, InstrV::Cmp(w, c, _, z))
            &&& d2 == ValV::Temporary(n) && w == IrType::Word && z == ValV::Const(0)
            &&& forall|a: int| cmp_holds(c, a, 0) == (a == 0)
        },
{
    let e = ExprV::Unary(UnaryOp::Not, Box::new(x), i);
    if let Some((s0, tmp)) = new_tmp(s) {
        if let Some((s1, it1, _, v1, xt)) = g_expr(fid, s0, items, x, ty) {
            let zi = Info { line: 0, offset: 0, len: 0 };
            let zero = ExprV::Int(0, zi);
            let is_zero = ExprV::Comp(Box::new(x), CompOp::Eq, Box::new(zero), zi);
            if let Some((t0, ntmp)) = new_tmp(s1) {
                assert(g_expr(fid, s1, it1, is_zero, xt) == g_binary(fid, t0, it1, ntmp, x, zero, xt, 2, ArithOp::Add, LogicOp::And, CompOp::Eq, zi));
                if let Some((t1, j1, _, lv, lt)) = g_expr(fid, t0, it1, x, xt) {
                    if let Some((t2, j2, _, rv, _)) = g_expr(fid, t1, j1, zero, xt) {
                        assert(rv == ValV::Const(0));
                        assert(j2 == j1);
                        let (t3, q) = to_qbe(fid, t2, xt);
                        let it2 = j2.push(StatementV::Assign(ValV::Temporary(ntmp), q, InstrV::Cmp(IrType::Word, IrCmp::Eq, lv, rv)));
                        assert(g_expr(fid, s1, it1, is_zero, xt) == Some((t3, it2, ntmp, ValV::Temporary(ntmp), TypeV::Bool(zi))));
                        let (s3, q2) = to_qbe(fid, t3, xt);
                        let it = it2.push(StatementV::Assign(ValV::Temporary(tmp), q2, InstrV::Copy(ValV::Temporary(ntmp))));
                        assert(g_expr(fid, s, items, e, ty) == Some((s3, it, tmp, ValV::Temporary(tmp), xt)));
                        assert(it[it.len() - 2] == it2.last());
                    }
                }
            }
        }
    }
}

/// How many bytes a value of type `t` takes: 4 for `i32`, `f32` and `bool`, 8 for what
/// is held by its address (pointers, strings, arrays, named types); none for a type
/// without values.
pub open spec fn value_bytes(t: TypeV) -> Option<nat> {
    match t {
        TypeV::I32(_) | TypeV::F32(_) | TypeV::Bool(_) => Some(4),
        TypeV::Ptr(..) | TypeV::Str(_) | TypeV::Array(..) | TypeV::Custom(..) => Some(8),
        TypeV::Unknown | TypeV::Void(_) => None,
    }
}

/// The size in bytes of a QBE base type, and whether it holds a floating-point number.
pub open spec fn ir_bytes(q: IrType) -> nat {
    match q {
        IrType::Byte => 1,
        IrType::Word | IrType::Single => 4,
        IrType::Long => 8,
        IrType::Zero => 0,
    }
}

pub open spec fn ir_is_float(q: IrType) -> bool {
    q is Single
}

/// A type is given the QBE type of its size, floating-point exactly for `f32`, and
/// none when it has no values; a variable's stack slot is as large as its QBE type.
pub proof fn law_types_keep_their_size(fid: nat, s: GenSt, t: TypeV)
    ensures
        ir_type_of(t) is None <==> value_bytes(t) is None,
        ir_type_of(t) matches Some(q) ==> Some(ir_bytes(q)) == value_bytes(t) && ir_is_float(q) == (t is F32),
        alloc_of(fid, s, t).1 matches InstrV::Alloc4(n) ==> n == 1 && (value_bytes(t) matches Some(b) ==> b <= 4),
        alloc_of(fid, s, t).1 matches InstrV::Alloc8(n) ==> n == 1 && value_bytes(t) == Some(8nat),
        alloc_of(fid, s, t).1 is Alloc4 || alloc_of(fid, s, t).1 is Alloc8,
{
}

/// `b` keeps the blocks of `a` but the last, and the label of the last: what comes
/// after code is generated into `a`.
pub open spec fn blocks_kept(a: Seq<BlockV>, b: Seq<BlockV>) -> bool {
    &&& 0 < a.len() <= b.len()
    &&& forall|k: int| 0 <= k < a.len() - 1 ==> #[trigger] b[k] == a[k]
    &&& b[a.len() - 1].label == a.last().label
}

proof fn lemma_kept_trans(a: Seq<BlockV>, b: Seq<BlockV>, c: Seq<BlockV>)
    requires
        blocks_kept(a, b),
        blocks_kept(b, c),
    ensures
        blocks_kept(a, c),
{
    assert forall|k: int| 0 <= k < a.len() - 1 implies #[trigger] c[k] == a[k] by {
        assert(c[k] == b[k]);
    }
    if a.len() < b.len() {
        assert(c[a.len() - 1] == b[a.len() - 1]);
    }
}

proof fn lemma_kept_with_last(bs: Seq<BlockV>, it: Seq<StatementV>)
    requires
        bs.len() > 0,
    ensures
        blocks_kept(bs, with_last_items(bs, it)),
{
}

proof fn lemma_kept_add_block(bs: Seq<BlockV>, l: Seq<char>)
    requires
        bs.len() > 0,
    ensures
        blocks_kept(bs, add_block(bs, l)),
{
}

proof fn lemma_kept_refl(bs: Seq<BlockV>)
    requires
        bs.len() > 0,
    ensures
        blocks_kept(bs, bs),
{
}

#[verifier::spinoff_prover]
proof fn lemma_while_kept(fid: nat, s: GenSt, bs: Seq<BlockV>, cond: ExprV, body: Seq<StmtV>)
    requires
        bs.len() > 0,
    ensures
        g_body_stmt(fid, s, bs, StmtV::While(cond, body)) matches Some((s2, bs2)) ==> blocks_kept(bs, bs2),
    decreases StmtV::While(cond, body), 1int,
{
    if let Some((s1, check)) = new_label(s, "while_check"@) {
        if let Some((s2, start)) = new_label(s1, "while_start"@) {
            if let Some((s3, exit)) = new_label(s2, "while_end"@) {
                let s4 = GenSt { loops: s3.loops.push((check, exit)), ..s3 };
                let bs1 = add_block(bs, check);
                if let Some((s5, it, _, v, _)) = g_expr(fid, s4, Seq::empty(), cond, TypeV::Bool(Info { line: 0, offset: 0, len: 0 })) {
                    let bw = with_last_items(bs1, it.push(StatementV::Volatile(InstrV::Jnz(v, start, exit))));
                    let bs2 = add_block(bw, start);
                    lemma_kept_add_block(bs, check);
                    lemma_kept_with_last(bs1, it.push(StatementV::Volatile(InstrV::Jnz(v, start, exit))));
                    lemma_kept_add_block(bw, start);
                    lemma_kept_trans(bs, bs1, bw);
                    lemma_kept_trans(bs, bw, bs2);
                    lemma_body_kept(fid, s5, bs2, body);
                    if let Some((s6, bs3)) = g_body(fid, s5, bs2, body) {
                        if bs3.len() > 0 {
                            lemma_kept_trans(bs, bs2, bs3);
                            let bk = add_instr(bs3, InstrV::Jmp(check));
                            lemma_kept_with_last(bs3, last_items(bs3).push(StatementV::Volatile(InstrV::Jmp(check))));
                            lemma_kept_add_block(bk, exit);
                            lemma_kept_trans(bs, bs3, bk);
                            lemma_kept_trans(bs, bk, add_block(bk, exit));
                        }
                    }
                }
            }
        }
    }
}

#[verifier::spinoff_prover]
#[verifier::rlimit(40)]
proof fn lemma_if_kept(
    fid: nat,
    s: GenSt,
    bs: Seq<BlockV>,
    branches: Seq<(Option<ExprV>, Seq<StmtV>)>,
    i: int,
    exit: Seq<char>,
    given: Option<(Seq<char>, Seq<char>)>,
)
    requires
        bs.len() > 0,
    ensures
        g_if_branches(fid, s, bs, branches, i, exit, given) matches Some((s2, bs2)) ==> blocks_kept(bs, bs2),
    decreases branches, branches.len() - i,
{
    if i < 0 || i >= branches.len() {
        lemma_kept_refl(bs);
    } else {
        if let Some((s2, check, start)) = branch_labels(s, given) {
            match branches[i].0 {
                None => {
                    let b1 = add_block(bs, start);
                    lemma_kept_add_block(bs, start);
                    lemma_body_kept(fid, s2, b1, branches[i].1);
                    if let Some((s5, b5)) = g_body(fid, s2, b1, branches[i].1) {
                        lemma_kept_trans(bs, b1, b5);
                    }
                },
                Some(cond) => {
                    if let Some((s3, it, _, v, _)) = g_expr(fid, s2, Seq::empty(), cond, TypeV::Bool(crate::parser::expr::expr_info(cond))) {
                        let more = i + 1 < branches.len();
                        let nxt = if more { branch_labels(s3, None) } else { Some((s3, exit, exit)) };
                        if let Some((s4, c2, st2)) = nxt {
                            let target = if !more {
                                exit
                            } else if branches[i + 1].0 is Some {
                                c2
                            } else {
                                st2
                            };
                            let bs1 = add_block(bs, check);
                            let jit = it.push(StatementV::Volatile(InstrV::Jnz(v, start, target)));
                            let bw = with_last_items(bs1, jit);
                            let bs2 = add_block(bw, start);
                            lemma_kept_add_block(bs, check);
                            lemma_kept_with_last(bs1, jit);
                            lemma_kept_add_block(bw, start);
                            lemma_kept_trans(bs, bs1, bw);
                            lemma_kept_trans(bs, bw, bs2);
                            lemma_body_kept(fid, s4, bs2, branches[i].1);
                            if let Some((s5, bs3)) = g_body(fid, s4, bs2, branches[i].1) {
                                if bs3.len() > 0 {
                                    lemma_kept_trans(bs, bs2, bs3);
                                    let bk = add_instr(bs3, InstrV::Jmp(exit));
                                    lemma_kept_with_last(bs3, last_items(bs3).push(StatementV::Volatile(InstrV::Jmp(exit))));
                                    lemma_kept_trans(bs, bs3, bk);
                                    let g2: Option<(Seq<char>, Seq<char>)> = if more { Some((c2, st2)) } else { None };
                                    lemma_if_kept(fid, s5, bk, branches, i + 1, exit, g2);
                                    if let Some((s6, b6)) = g_if_branches(fid, s5, bk, branches, i + 1, exit, g2) {
                                        lemma_kept_trans(bs, bk, b6);
                                    }
                                }
                            }
                        }
                    }
                },
            }
        }
    }
}

#[verifier::spinoff_prover]
#[verifier::rlimit(40)]
proof fn lemma_body_stmt_kept(fid: nat, s: GenSt, bs: Seq<BlockV>, st: StmtV)
    requires
        bs.len() > 0,
    ensures
        g_body_stmt(fid, s, bs, st) matches Some((s2, bs2)) ==> blocks_kept(bs, bs2),
    decreases st, 2int,
{
    match st {
        StmtV::Declare(_, id, ty, val) => {
            let (s1, alloc) = alloc_of(fid, s, ty);
            let (s2, q) = to_qbe(fid, s1, ty);
            let bs1 = with_last_items(bs, last_items(bs).push(StatementV::Assign(ValV::Temporary(id), q, alloc)));
            lemma_kept_with_last(bs, last_items(bs).push(StatementV::Assign(ValV::Temporary(id), q, alloc)));
            let s3 = GenSt { scopes: declare_var(s2.scopes, id, ty), ..s2 };
            if let Some((s4, it1, _, v, _)) = g_expr(fid, s3, last_items(bs1), val, var_type(s3.scopes, id)) {
                let (s5, q2) = to_qbe(fid, s4, var_type(s3.scopes, id));
                lemma_kept_with_last(bs1, it1.push(StatementV::Assign(ValV::Temporary(id), q2, InstrV::Copy(v))));
                lemma_kept_trans(bs, bs1, with_last_items(bs1, it1.push(StatementV::Assign(ValV::Temporary(id), q2, InstrV::Copy(v)))));
            }
        },
        StmtV::Assign(_, id, _, val) => {
            if let Some((s1, it1, _, v, _)) = g_expr(fid, s, last_items(bs), val, var_type(s.scopes, id)) {
                let (s2, q) = to_qbe(fid, s1, var_type(s.scopes, id));
                lemma_kept_with_last(bs, it1.push(StatementV::Assign(ValV::Temporary(id), q, InstrV::Copy(v))));
            }
        },
        StmtV::Expr(e) => {
            if let Some((s1, it1, _, _, _)) = g_expr(fid, s, last_items(bs), e, TypeV::Unknown) {
                lemma_kept_with_last(bs, it1);
            }
        },
        StmtV::While(cond, body) => lemma_while_kept(fid, s, bs, cond, body),
        StmtV::IfElse(branches) => {
            if let Some((s1, exit)) = new_label(s, "if_exit"@) {
                lemma_if_kept(fid, s1, bs, branches, 0, exit, None);
                if let Some((s2, bs2)) = g_if_branches(fid, s1, bs, branches, 0, exit, None) {
                    lemma_kept_add_block(bs2, exit);
                    lemma_kept_trans(bs, bs2, add_block(bs2, exit));
                }
            }
        },
        StmtV::Return(value) => match value {
            None => lemma_kept_with_last(bs, last_items(bs).push(StatementV::Volatile(InstrV::Ret(None)))),
            Some(e) => match lookup(s.funcs, s.current) {
                None => {},
                Some(sig) => match sig.0 {
                    None => {},
                    Some(rt) => {
                        if let Some((s1, it1, _, v, _)) = g_expr(fid, s, last_items(bs), e, rt) {
                            lemma_kept_with_last(bs, it1.push(StatementV::Volatile(InstrV::Ret(Some(v)))));
                        }
                    },
                },
            },
        },
        StmtV::Break => if s.loops.len() > 0 {
            lemma_kept_with_last(bs, last_items(bs).push(StatementV::Volatile(InstrV::Jmp(s.loops.last().1))));
        },
        StmtV::Continue => if s.loops.len() > 0 {
            lemma_kept_with_last(bs, last_items(bs).push(StatementV::Volatile(InstrV::Jmp(s.loops.last().0))));
        },
        _ => {},
    }
}

proof fn lemma_body_kept(fid: nat, s: GenSt, bs: Seq<BlockV>, body: Seq<StmtV>)
    requires
        bs.len() > 0,
    ensures
        g_body(fid, s, bs, body) matches Some((s2, bs2)) ==> blocks_kept(bs, bs2),
    decreases body, 0int,
{
    if body.len() == 0 {
        lemma_kept_refl(bs);
    } else {
        lemma_body_kept(fid, s, bs, body.drop_last());
        if let Some((s1, bs1)) = g_body(fid, s, bs, body.drop_last()) {
            lemma_body_stmt_kept(fid, s1, bs1, body.last());
            if let Some((s2, bs2)) = g_body_stmt(fid, s1, bs1, body.last()) {
                lemma_kept_trans(bs, bs1, bs2);
            }
        }
    }
}

/// A `while` loop adds, after the blocks before it: a block that tests the condition and
/// jumps, when it holds, to the block right after it, where the body starts, and else
/// to the block after the loop; the body's last block jumps back to the test; the block
/// after the loop starts empty. The blocks before the loop stay as they were.
pub proof fn law_while_loops_back_to_its_test(fid: nat, s: GenSt, bs: Seq<BlockV>, cond: ExprV, body: Seq<StmtV>)
    requires
        bs.len() > 0,
    ensures
        g_body_stmt(fid, s, bs, StmtV::While(cond, body)) matches Some((s2, bs2)) ==> {
            let n = bs.len() as int;
            &&& bs2.len() >= n + 3
            &&& forall|k: int| 0 <= k < n - 1 ==> #[trigger] bs2[k] == bs[k]
            &&& bs2[n].items.len() > 0
            &&& bs2[n].items.last() matches StatementV::Volatile(InstrV::Jnz(_, yes, no))
            &&& yes == bs2[n + 1].label
            &&& no == bs2.last().label
            &&& bs2.last().items.len() == 0
            &&& bs2[bs2.len() - 2].items.len() > 0
            &&& bs2[bs2.len() - 2].items.last() == StatementV::Volatile(InstrV::Jmp(bs2[n].label))
        },
{
    if let Some((s1, check)) = new_label(s, "while_check"@) {
        if let Some((s2, start)) = new_label(s1, "while_start"@) {
            if let Some((s3, exit)) = new_label(s2, "while_end"@) {
                let s4 = GenSt { loops: s3.loops.push((check, exit)), ..s3 };
                let bs1 = add_block(bs, check);
                if let Some((s5, it, _, v, _)) = g_expr(fid, s4, Seq::empty(), cond, TypeV::Bool(Info { line: 0, offset: 0, len: 0 })) {
                    let jit = it.push(StatementV::Volatile(InstrV::Jnz(v, start, exit)));
                    let bw = with_last_items(bs1, jit);
                    let bs2 = add_block(bw, start);
                    assert(bs2[bs.len() as int].items == jit);
                    lemma_body_kept(fid, s5, bs2, body);
                    if let Some((s6, bs3)) = g_body(fid, s5, bs2, body) {
                        if bs3.len() > 0 {
                            assert(bs3[bs.len() as int] == bs2[bs.len() as int]);
                            let bk = add_instr(bs3, InstrV::Jmp(check));
                            let bf = add_block(bk, exit);
                            assert(bf[bs.len() as int] == bs3[bs.len() as int]);
                            assert(bf[bs.len() + 1int].label == start);
                            assert forall|k: int| 0 <= k < bs.len() - 1 implies #[trigger] bf[k] == bs[k] by {
                                assert(bf[k] == bs3[k]);
                                assert(bs3[k] == bs2[k]);
                            }
                            assert(bf[bf.len() - 2] == bk.last());
                        }
                    }
                }
            }
        }
    }
}

proof fn lemma_kept_labels(a: Seq<BlockV>, b: Seq<BlockV>)
    requires
        blocks_kept(a, b),
    ensures
        forall|k: int| 0 <= k < a.len() ==> #[trigger] b[k].label == a[k].label,
{
    assert forall|k: int| 0 <= k < a.len() implies #[trigger] b[k].label == a[k].label by {
        if k < a.len() - 1 {
            assert(b[k] == a[k]);
        }
    }
}

/// An `if` whose first branch has a condition adds, after the blocks before it, a block
/// that tests the condition and jumps, when it holds, to the block right after it, where
/// that branch's body starts. With a single branch, a false condition jumps to the block
/// after the `if`, which starts empty. The blocks before the `if` stay as they were.
#[verifier::rlimit(40)]
pub proof fn law_if_goes_to_its_branch_when_true(fid: nat, s: GenSt, bs: Seq<BlockV>, branches: Seq<(Option<ExprV>, Seq<StmtV>)>)
    requires
        bs.len() > 0,
        branches.len() > 0,
        branches[0].0 is Some,
    ensures
        g_body_stmt(fid, s, bs, StmtV::IfElse(branches)) matches Some((s2, bs2)) ==> {
            let n = bs.len() as int;
            &&& bs2.len() >= n + 3
            &&& forall|k: int| 0 <= k < n - 1 ==> #[trigger] bs2[k] == bs[k]
            &&& bs2[n].items.len() > 0
            &&& bs2[n].items.last() matches StatementV::Volatile(InstrV::Jnz(_, yes, no))
            &&& yes == bs2[n + 1].label
            &&& branches.len() == 1 ==> no == bs2.last().label && bs2.last().items.len() == 0
        },
{
    if let Some((s1, exit)) = new_label(s, "if_exit"@) {
        if let Some((s2, check, start)) = branch_labels(s1, None) {
            let cond = branches[0].0.unwrap();
            if let Some((s3, it, _, v, _)) = g_expr(fid, s2, Seq::empty(), cond, TypeV::Bool(crate::parser::expr::expr_info(cond))) {
                let more = 1 < branches.len();
                let nxt = if more { branch_labels(s3, None) } else { Some((s3, exit, exit)) };
                if let Some((s4, c2, st2)) = nxt {
                    let target = if !more {
                        exit
                    } else if branches[1].0 is Some {
                        c2
                    } else {
                        st2
                    };
                    let n = bs.len() as int;
                    let bs1 = add_block(bs, check);
                    let jit = it.push(StatementV::Volatile(InstrV::Jnz(v, start, target)));
                    let bw = with_last_items(bs1, jit);
                    let bs2 = add_block(bw, start);
                    assert(bs2[n].items == jit);
                    lemma_body_kept(fid, s4, bs2, branches[0].1);
                    if let Some((s5, bs3)) = g_body(fid, s4, bs2, branches[0].1) {
                        if bs3.len() > 0 {
                            let bk = add_instr(bs3, InstrV::Jmp(exit));
                            lemma_kept_with_last(bs3, last_items(bs3).push(StatementV::Volatile(InstrV::Jmp(exit))));
                            lemma_kept_trans(bs2, bs3, bk);
                            let g2: Option<(Seq<char>, Seq<char>)> = if more { Some((c2, st2)) } else { None };
                            lemma_if_kept(fid, s5, bk, branches, 1, exit, g2);
                            if let Some((s6, b6)) = g_if_branches(fid, s5, bk, branches, 1, exit, g2) {
                                lemma_kept_trans(bs2, bk, b6);
                                let bf = add_block(b6, exit);
                                lemma_kept_add_block(b6, exit);
                                lemma_kept_trans(bs2, b6, bf);
                                lemma_kept_labels(bs2, bf);
                                assert(bf[n] == bs2[n]);
                                assert forall|k: int| 0 <= k < n - 1 implies #[trigger] bf[k] == bs[k] by {
                                    assert(bf[k] == bs2[k]);
                                }
                                assert(g_body_stmt(fid, s, bs, StmtV::IfElse(branches)) == Some((s6, bf)));
                            }
                        }
                    }
                }
            }
        }
    }
}

} // verus!
