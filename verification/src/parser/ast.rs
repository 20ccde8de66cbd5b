//! Statements.
use crate::parser::expr::{expr_text, expr_v, join_texts, Expr, ExprV};
use crate::parser::types::{args_text, args_v, display_args, type_text, type_v, Type, TypeV};
use crate::text::{append_chars, chars_of, chars_of_string, push_str, string_of};
use vstd::prelude::*;

verus! {

/// `mut` or `fix`.
#[derive(Debug, Clone, Copy, PartialEq, Eq, Structural)]
pub enum MutKind {
    Mutable,
    Fixed,
}

/// `=`, `+=`, `-=`, `*=` or `/=`.
#[derive(Debug, Clone, Copy, PartialEq, Eq, Structural)]
pub enum AssignOp {
    Assign,
    Plus,
    Minus,
    Star,
    Slash,
}

impl AssignOp {
    /// The plain assignment.
    pub fn default() -> (op: AssignOp)
        ensures
            op == AssignOp::Assign,
    {
        AssignOp::Assign
    }
}

/// A declaration of something defined outside the program.
#[derive(Debug)]
pub enum Extern {
    Func(String, Vec<(String, Type)>, Option<Type>),
}

/// A statement.
#[derive(Debug)]
pub enum Stmt {
    /// Kind (mut or fix), name, type, value.
    Declare(MutKind, String, Type, Expr),
    /// Dereference (`*name`), name, operator, value.
    Assign(bool, String, AssignOp, Expr),
    /// Condition, body.
    While(Expr, Vec<Stmt>),
    /// Exported (visible to the linker), public (visible to other modules), name,
    /// arguments, return type, body.
    Func(bool, bool, String, Vec<(String, Type)>, Option<Type>, Vec<Stmt>),
    /// Branches: condition (none for `else`) and body.
    IfElse(Vec<(Option<Expr>, Vec<Stmt>)>),
    /// Public, paths (`a::b::c`).
    Use(bool, Vec<Vec<String>>),
    Extern(Vec<Extern>),
    Return(Option<Expr>),
    Expr(Expr),
    Break,
    Continue,
}

pub enum ExternV {
    Func(Seq<char>, Seq<(Seq<char>, TypeV)>, Option<TypeV>),
}

/// A statement as plain values.
pub enum StmtV {
    Declare(MutKind, Seq<char>, TypeV, ExprV),
    Assign(bool, Seq<char>, AssignOp, ExprV),
    While(ExprV, Seq<StmtV>),
    Func(bool, bool, Seq<char>, Seq<(Seq<char>, TypeV)>, Option<TypeV>, Seq<StmtV>),
    IfElse(Seq<(Option<ExprV>, Seq<StmtV>)>),
    Use(bool, Seq<Seq<Seq<char>>>),
    Extern(Seq<ExternV>),
    Return(Option<ExprV>),
    Expr(ExprV),
    Break,
    Continue,
}

pub open spec fn opt_type_v(t: Option<Type>) -> Option<TypeV> {
    match t {
        Some(t) => Some(type_v(t)),
        None => None,
    }
}

pub open spec fn opt_expr_v(e: Option<Expr>) -> Option<ExprV> {
    match e {
        Some(e) => Some(expr_v(e)),
        None => None,
    }
}

pub open spec fn extern_v(x: Extern) -> ExternV {
    match x {
        Extern::Func(n, a, r) => ExternV::Func(n@, args_v(a@), opt_type_v(r)),
    }
}

pub open spec fn paths_v(p: Seq<Vec<String>>) -> Seq<Seq<Seq<char>>> {
    p.map_values(|v: Vec<String>| v@.map_values(|s: String| s@))
}

pub open spec fn stmt_v(s: Stmt) -> StmtV
    decreases s,
{
    match s {
        Stmt::Declare(k, id, t, e) => StmtV::Declare(k, id@, type_v(t), expr_v(e)),
        Stmt::Assign(d, id, op, e) => StmtV::Assign(d, id@, op, expr_v(e)),
        Stmt::While(c, body) => StmtV::While(expr_v(c), stmts_v(body@)),
        Stmt::Func(e, p, id, args, r, body) => StmtV::Func(e, p, id@, args_v(args@), opt_type_v(r), stmts_v(body@)),
        Stmt::IfElse(bs) => StmtV::IfElse(branches_v(bs@)),
        Stmt::Use(p, paths) => StmtV::Use(p, paths_v(paths@)),
        Stmt::Extern(xs) => StmtV::Extern(xs@.map_values(|x: Extern| extern_v(x))),
        Stmt::Return(e) => StmtV::Return(opt_expr_v(e)),
        Stmt::Expr(e) => StmtV::Expr(expr_v(e)),
        Stmt::Break => StmtV::Break,
        Stmt::Continue => StmtV::Continue,
    }
}

pub open spec fn stmts_v(s: Seq<Stmt>) -> Seq<StmtV>
    decreases s,
{
    if s.len() == 0 {
        Seq::empty()
    } else {
        stmts_v(s.drop_last()).push(stmt_v(s.last()))
    }
}

pub open spec fn branches_v(s: Seq<(Option<Expr>, Vec<Stmt>)>) -> Seq<(Option<ExprV>, Seq<StmtV>)>
    decreases s,
{
    if s.len() == 0 {
        Seq::empty()
    } else {
        branches_v(s.drop_last()).push((opt_expr_v(s.last().0), stmts_v(s.last().1@)))
    }
}

impl View for Stmt {
    type V = StmtV;

    open spec fn view(&self) -> StmtV {
        stmt_v(*self)
    }
}

/// Appending a statement appends its view.
pub proof fn lemma_stmts_v_push(s: Seq<Stmt>, x: Stmt)
    ensures
        stmts_v(s.push(x)) == stmts_v(s).push(stmt_v(x)),
{
    assert(s.push(x).drop_last() =~= s);
}

/// Appending a branch appends its view.
pub proof fn lemma_branches_v_push(s: Seq<(Option<Expr>, Vec<Stmt>)>, b: (Option<Expr>, Vec<Stmt>))
    ensures
        branches_v(s.push(b)) == branches_v(s).push((opt_expr_v(b.0), stmts_v(b.1@))),
{
    assert(s.push(b).drop_last() =~= s);
}

/// The view of a sequence of statements, element by element.
pub proof fn lemma_stmts_v_index(s: Seq<Stmt>)
    ensures
        stmts_v(s).len() == s.len(),
        forall|i: int| 0 <= i < s.len() ==> #[trigger] stmts_v(s)[i] == stmt_v(s[i]),
    decreases s.len(),
{
    if s.len() > 0 {
        lemma_stmts_v_index(s.drop_last());
        assert forall|i: int| 0 <= i < s.len() implies #[trigger] stmts_v(s)[i] == stmt_v(s[i]) by {
            if i < s.len() - 1 {
                assert(s.drop_last()[i] == s[i]);
            }
        }
    }
}

/// The view of a sequence of branches, element by element.
pub proof fn lemma_branches_v_index(s: Seq<(Option<Expr>, Vec<Stmt>)>)
    ensures
        branches_v(s).len() == s.len(),
        forall|i: int| 0 <= i < s.len() ==> #[trigger] branches_v(s)[i] == (opt_expr_v(s[i].0), stmts_v(s[i].1@)),
    decreases s.len(),
{
    if s.len() > 0 {
        lemma_branches_v_index(s.drop_last());
        assert forall|i: int| 0 <= i < s.len() implies #[trigger] branches_v(s)[i] == (opt_expr_v(s[i].0), stmts_v(s[i].1@)) by {
            if i < s.len() - 1 {
                assert(s.drop_last()[i] == s[i]);
            }
        }
    }
}

pub open spec fn mut_text(k: MutKind) -> Seq<char> {
    match k {
        MutKind::Mutable => "mut"@,
        MutKind::Fixed => "fix"@,
    }
}

pub open spec fn assign_text(op: AssignOp) -> Seq<char> {
    match op {
        AssignOp::Assign => "="@,
        AssignOp::Plus => "+="@,
        AssignOp::Minus => "-="@,
        AssignOp::Star => "*="@,
        AssignOp::Slash => "/="@,
    }
}

/// No declaration of something outside, at any depth: the statements that can be
/// written back.
pub open spec fn writable(s: StmtV) -> bool
    decreases s,
{
    match s {
        StmtV::Extern(_) => false,
        StmtV::While(_, body) => writable_all(body),
        StmtV::Func(_, _, _, _, _, body) => writable_all(body),
        StmtV::IfElse(bs) => writable_branches(bs),
        _ => true,
    }
}

pub open spec fn writable_all(s: Seq<StmtV>) -> bool
    decreases s,
{
    if s.len() == 0 {
        true
    } else {
        writable_all(s.drop_last()) && writable(s.last())
    }
}

pub open spec fn writable_branches(bs: Seq<(Option<ExprV>, Seq<StmtV>)>) -> bool
    decreases bs,
{
    if bs.len() == 0 {
        true
    } else {
        writable_branches(bs.drop_last()) && writable_all(bs.last().1)
    }
}

/// How a statement is written back; a body statement on its own line after `prefix`.
pub open spec fn stmt_text(s: StmtV) -> Seq<char>
    decreases s,
{
    match s {
        StmtV::Declare(k, id, ty, val) => mut_text(k) + " "@ + id + ": "@ + type_text(ty) + " = "@ + expr_text(val) + ";"@,
        StmtV::Assign(d, id, op, val) => (if d { "*"@ } else { ""@ }) + id + " "@ + assign_text(op) + " "@ + expr_text(val) + ";"@,
        StmtV::Expr(e) => expr_text(e),
        StmtV::While(c, body) => "while "@ + expr_text(c) + " {"@ + "\n"@ + body_text(body, "\t"@) + "\n}"@,
        StmtV::Func(e, p, id, args, ret, body) => (if e { "export "@ } else { ""@ }) + (if p { "pub "@ } else { ""@ }) + "fn "@ + id + "("@ + args_text(args) + ") "@ + match ret {
            Some(t) => type_text(t),
            None => ""@,
        } + "{"@ + "\n"@ + body_text(body, "    "@) + "\n}"@,
        StmtV::IfElse(bs) => branches_text(bs, bs.len()),
        StmtV::Return(v) => match v {
            Some(e) => "ret "@ + expr_text(e) + ";"@,
            None => "ret;"@,
        },
        StmtV::Break => "break;"@,
        StmtV::Continue => "continue;"@,
        StmtV::Use(p, paths) => uses_text(p, paths),
        StmtV::Extern(_) => Seq::empty(),
    }
}

/// The statements of a body, each after `prefix`, one per line.
pub open spec fn body_text(body: Seq<StmtV>, prefix: Seq<char>) -> Seq<char>
    decreases body,
{
    if body.len() == 0 {
        Seq::empty()
    } else if body.len() == 1 {
        prefix + stmt_text(body[0])
    } else {
        body_text(body.drop_last(), prefix) + "\n"@ + prefix + stmt_text(body.last())
    }
}

/// The branches of an `if` of `n` branches.
pub open spec fn branches_text(bs: Seq<(Option<ExprV>, Seq<StmtV>)>, n: nat) -> Seq<char>
    decreases bs,
{
    if bs.len() == 0 {
        Seq::empty()
    } else {
        branches_text(bs.drop_last(), n) + branch_text((bs.len() - 1) as nat, bs.last(), n)
    }
}

/// Branch `i` of an `if` of `n` branches: `if`, `elif` or `else`, the condition, the body.
pub open spec fn branch_text(i: nat, b: (Option<ExprV>, Seq<StmtV>), n: nat) -> Seq<char>
    decreases b,
{
    let kw = if i == 0 {
        "if"@
    } else if b.0 is Some {
        "elif"@
    } else {
        "else"@
    };
    let cond = match b.0 {
        Some(c) => expr_text(c),
        None => ""@,
    };
    kw + " "@ + cond + " "@ + "{\n"@ + body_text(b.1, "    "@) + if i + 1 == n {
        "\n}\n"@
    } else {
        "\n} "@
    }
}

/// `use a::b;` for each path, one per line.
pub open spec fn uses_text(p: bool, paths: Seq<Seq<Seq<char>>>) -> Seq<char> {
    join_texts(paths.map_values(|path: Seq<Seq<char>>| (if p { "pub "@ } else { ""@ }) + "use "@ + join_texts(path, "::"@) + ";"@), "\n"@)
}

impl MutKind {
    pub fn text(&self) -> (r: &'static str)
        ensures
            r@ == mut_text(*self),
    {
        match self {
            MutKind::Mutable => "mut",
            MutKind::Fixed => "fix",
        }
    }
}

impl AssignOp {
    pub fn text(&self) -> (r: &'static str)
        ensures
            r@ == assign_text(*self),
    {
        match self {
            AssignOp::Assign => "=",
            AssignOp::Plus => "+=",
            AssignOp::Minus => "-=",
            AssignOp::Star => "*=",
            AssignOp::Slash => "/=",
        }
    }
}

/// The statements of a body, each after `prefix`, one per line.
#[verifier::loop_isolation(false)]
fn body_chars(body: &Vec<Stmt>, prefix: &str) -> (v: Vec<char>)
    requires
        writable_all(stmts_v(body@)),
    ensures
        v@ == body_text(stmts_v(body@), prefix@),
    decreases body, 0int,
{
    let ghost sv = stmts_v(body@);
    proof {
        lemma_stmts_v_index(body@);
        lemma_writable_all(sv);
    }
    let mut v: Vec<char> = Vec::new();
    let mut k: usize = 0;
    while k < body.len()
        invariant
            k <= body.len(),
            sv == stmts_v(body@),
            sv.len() == body.len(),
            forall|j: int| 0 <= j < body.len() ==> #[trigger] sv[j] == body@[j]@,
            forall|j: int| 0 <= j < sv.len() ==> writable(#[trigger] sv[j]),
            v@ == body_text(sv.take(k as int), prefix@),
        decreases body.len() - k,
    {
        if k > 0 {
            push_str(&mut v, "\n");
        }
        push_str(&mut v, prefix);
        proof {
            assert(decreases_to!(*body => body[k as int]));
            assert(writable(sv[k as int]));
        }
        let w = body[k].text_chars();
        append_chars(&mut v, &w);
        proof {
            let t = sv.take(k + 1);
            assert(t.drop_last() =~= sv.take(k as int));
            assert(t.last() == sv[k as int]);
            if k == 0 {
                assert(body_text(t, prefix@) == prefix@ + stmt_text(t[0]));
            }
            assert(v@ =~= body_text(t, prefix@));
        }
        k = k + 1;
    }
    assert(sv.take(body.len() as int) =~= sv);
    v
}

/// Each statement of a writable sequence is writable.
pub proof fn lemma_writable_all(s: Seq<StmtV>)
    requires
        writable_all(s),
    ensures
        forall|j: int| 0 <= j < s.len() ==> writable(#[trigger] s[j]),
    decreases s.len(),
{
    if s.len() > 0 {
        lemma_writable_all(s.drop_last());
        assert forall|j: int| 0 <= j < s.len() implies writable(#[trigger] s[j]) by {
            if j < s.len() - 1 {
                assert(s.drop_last()[j] == s[j]);
            }
        }
    }
}

/// Each branch of a writable `if` has a writable body.
pub proof fn lemma_writable_branches(s: Seq<(Option<ExprV>, Seq<StmtV>)>)
    requires
        writable_branches(s),
    ensures
        forall|j: int| 0 <= j < s.len() ==> writable_all(#[trigger] s[j].1),
    decreases s.len(),
{
    if s.len() > 0 {
        lemma_writable_branches(s.drop_last());
        assert forall|j: int| 0 <= j < s.len() implies writable_all(#[trigger] s[j].1) by {
            if j < s.len() - 1 {
                assert(s.drop_last()[j] == s[j]);
            }
        }
    }
}

impl Stmt {
    /// How the statement is written back.
    #[verifier::loop_isolation(false)]
    pub fn text_chars(&self) -> (r: Vec<char>)
        requires
            writable(self@),
        ensures
            r@ == stmt_text(self@),
        decreases self, 1int,
    {
        match self {
            Stmt::Declare(k, id, ty, val) => {
                let mut v = chars_of(k.text());
                push_str(&mut v, " ");
                let w = chars_of_string(id);
                append_chars(&mut v, &w);
                push_str(&mut v, ": ");
                let t = ty.text();
                append_chars(&mut v, &t);
                push_str(&mut v, " = ");
                let e = val.text_chars();
                append_chars(&mut v, &e);
                push_str(&mut v, ";");
                v
            },
            Stmt::Assign(d, id, op, val) => {
                let mut v = if *d {
                    chars_of("*")
                } else {
                    chars_of("")
                };
                let w = chars_of_string(id);
                append_chars(&mut v, &w);
                push_str(&mut v, " ");
                push_str(&mut v, op.text());
                push_str(&mut v, " ");
                let e = val.text_chars();
                append_chars(&mut v, &e);
                push_str(&mut v, ";");
                v
            },
            Stmt::Expr(e) => e.text_chars(),
            Stmt::While(c, body) => {
                let mut v = chars_of("while ");
                let ct = c.text_chars();
                append_chars(&mut v, &ct);
                push_str(&mut v, " {");
                push_str(&mut v, "\n");
                let b = body_chars(body, "\t");
                append_chars(&mut v, &b);
                push_str(&mut v, "\n}");
                v
            },
            Stmt::Func(e, p, id, args, ret, body) => {
                let mut v = if *e {
                    chars_of("export ")
                } else {
                    chars_of("")
                };
                if *p {
                    push_str(&mut v, "pub ");
                } else {
                    push_str(&mut v, "");
                }
                push_str(&mut v, "fn ");
                let w = chars_of_string(id);
                append_chars(&mut v, &w);
                push_str(&mut v, "(");
                let a = chars_of_string(&display_args(args));
                append_chars(&mut v, &a);
                push_str(&mut v, ") ");
                match ret {
                    Some(t) => {
                        let tt = t.text();
                        append_chars(&mut v, &tt);
                    },
                    None => {
                        push_str(&mut v, "");
                    },
                }
                push_str(&mut v, "{");
                push_str(&mut v, "\n");
                let b = body_chars(body, "    ");
                append_chars(&mut v, &b);
                push_str(&mut v, "\n}");
                v
            },
            Stmt::IfElse(bs) => branches_chars(bs),
            Stmt::Return(r) => match r {
                Some(e) => {
                    let mut v = chars_of("ret ");
                    let et = e.text_chars();
                    append_chars(&mut v, &et);
                    push_str(&mut v, ";");
                    v
                },
                None => chars_of("ret;"),
            },
            Stmt::Break => chars_of("break;"),
            Stmt::Continue => chars_of("continue;"),
            Stmt::Use(p, paths) => uses_chars(*p, paths),
            Stmt::Extern(_) => {
                proof {
                    assert(false);
                }
                Vec::new()
            },
        }
    }

    /// How the statement is written back, as a string.
    pub fn to_string(&self) -> (s: String)
        requires
            writable(self@),
        ensures
            s@ == stmt_text(self@),
    {
        let v = self.text_chars();
        string_of(&v)
    }
}

/// The branches of an `if`.
#[verifier::loop_isolation(false)]
fn branches_chars(bs: &Vec<(Option<Expr>, Vec<Stmt>)>) -> (v: Vec<char>)
    requires
        writable_branches(branches_v(bs@)),
    ensures
        v@ == branches_text(branches_v(bs@), branches_v(bs@).len()),
    decreases bs, 0int,
{
    let ghost bv = branches_v(bs@);
    let ghost n = bs.len() as nat;
    proof {
        lemma_branches_v_index(bs@);
        lemma_writable_branches(bv);
    }
    let mut v: Vec<char> = Vec::new();
    let mut k: usize = 0;
    while k < bs.len()
        invariant
            k <= bs.len(),
            bv == branches_v(bs@),
            bv.len() == bs.len(),
            n == bs.len(),
            forall|j: int| 0 <= j < bs.len() ==> #[trigger] bv[j] == (opt_expr_v(bs@[j].0), stmts_v(bs@[j].1@)),
            forall|j: int| 0 <= j < bv.len() ==> writable_all(#[trigger] bv[j].1),
            v@ == branches_text(bv.take(k as int), n),
        decreases bs.len() - k,
    {
        let kw = if k == 0 {
            "if"
        } else if bs[k].0.is_some() {
            "elif"
        } else {
            "else"
        };
        let mut b = chars_of(kw);
        push_str(&mut b, " ");
        match &bs[k].0 {
            Some(c) => {
                let ct = c.text_chars();
                append_chars(&mut b, &ct);
            },
            None => {
                push_str(&mut b, "");
            },
        }
        push_str(&mut b, " ");
        push_str(&mut b, "{\n");
        proof {
            assert(decreases_to!(*bs => bs[k as int]));
            assert(decreases_to!(bs[k as int] => bs[k as int].1));
            assert(writable_all(bv[k as int].1));
        }
        let body = body_chars(&bs[k].1, "    ");
        append_chars(&mut b, &body);
        if k + 1 == bs.len() {
            push_str(&mut b, "\n}\n");
        } else {
            push_str(&mut b, "\n} ");
        }
        proof {
            assert(b@ =~= branch_text(k as nat, bv[k as int], n));
        }
        append_chars(&mut v, &b);
        proof {
            let t = bv.take(k + 1);
            assert(t.drop_last() =~= bv.take(k as int));
            assert(t.last() == bv[k as int]);
            assert(v@ =~= branches_text(t, n));
        }
        k = k + 1;
    }
    assert(bv.take(bs.len() as int) =~= bv);
    v
}

/// `use a::b;` for each path, one per line.
fn uses_chars(p: bool, paths: &Vec<Vec<String>>) -> (v: Vec<char>)
    ensures
        v@ == uses_text(p, paths_v(paths@)),
{
    let ghost lines = paths_v(paths@).map_values(|path: Seq<Seq<char>>| (if p { "pub "@ } else { ""@ }) + "use "@ + join_texts(path, "::"@) + ";"@);
    let mut v: Vec<char> = Vec::new();
    let mut k: usize = 0;
    while k < paths.len()
        invariant
            k <= paths.len(),
            lines.len() == paths.len(),
            lines == paths_v(paths@).map_values(|path: Seq<Seq<char>>| (if p { "pub "@ } else { ""@ }) + "use "@ + join_texts(path, "::"@) + ";"@),
            v@ == join_texts(lines.take(k as int), "\n"@),
        decreases paths.len() - k,
    {
        if k > 0 {
            push_str(&mut v, "\n");
        }
        let mut line = if p {
            chars_of("pub ")
        } else {
            chars_of("")
        };
        push_str(&mut line, "use ");
        let path = &paths[k];
        let ghost pv = paths_v(paths@)[k as int];
        assert(pv == path@.map_values(|s: String| s@));
        let mut i: usize = 0;
        let ghost start = line@;
        while i < path.len()
            invariant
                i <= path.len(),
                pv == path@.map_values(|s: String| s@),
                line@ == start + join_texts(pv.take(i as int), "::"@),
            decreases path.len() - i,
        {
            if i > 0 {
                push_str(&mut line, "::");
            }
            let w = chars_of_string(&path[i]);
            append_chars(&mut line, &w);
            proof {
                let t = pv.take(i + 1);
                assert(t.drop_last() =~= pv.take(i as int));
                assert(t.last() == path@[i as int]@);
                if i == 0 {
                    assert(join_texts(t, "::"@) == t[0]);
                }
                assert(line@ =~= start + join_texts(t, "::"@));
            }
            i = i + 1;
        }
        assert(pv.take(path.len() as int) =~= pv);
        push_str(&mut line, ";");
        assert(line@ =~= lines[k as int]);
        append_chars(&mut v, &line);
        proof {
            let t = lines.take(k + 1);
            assert(t.drop_last() =~= lines.take(k as int));
            assert(t.last() == lines[k as int]);
            if k == 0 {
                assert(join_texts(t, "\n"@) == t[0]);
            }
            assert(v@ =~= join_texts(t, "\n"@));
        }
        k = k + 1;
    }
    assert(lines.take(paths.len() as int) =~= lines);
    v
}

} // verus!
