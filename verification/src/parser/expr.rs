//! Expressions.
use crate::parser::Info;
use crate::text::{append_chars, chars_of, chars_of_string, i64_text, int_text, push_str, string_of};
use vstd::prelude::*;

verus! {

/// Arithmetic operator.
#[derive(Debug, Clone, Copy, PartialEq, Eq, Structural)]
pub enum ArithOp {
    Add,
    Sub,
    Mul,
    Div,
}

/// Comparison operator.
#[derive(Debug, Clone, Copy, PartialEq, Eq, Structural)]
pub enum CompOp {
    Gt,
    Ge,
    Lt,
    Le,
    Eq,
    Ne,
}

/// Logical operator.
#[derive(Debug, Clone, Copy, PartialEq, Eq, Structural)]
pub enum LogicOp {
    And,
    Or,
}

/// Unary operator.
#[derive(Debug, Clone, Copy, PartialEq, Eq, Structural)]
pub enum UnaryOp {
    Not,
    Neg,
}

pub type BExpr = Box<Expr>;

/// An expression with its position.
#[derive(Debug)]
pub enum Expr {
    Invalid,
    Id(Vec<String>, Info),
    Int(i64, Info),
    /// A floating-point literal, kept as written.
    Float(String, Info),
    Bool(bool, Info),
    Str(String, Info),
    Arith(BExpr, ArithOp, BExpr, Info),
    Comp(BExpr, CompOp, BExpr, Info),
    Logic(BExpr, LogicOp, BExpr, Info),
    Unary(UnaryOp, BExpr, Info),
    Call(BExpr, Vec<Expr>, Info),
}

/// An expression as plain values.
pub enum ExprV {
    Invalid,
    Id(Seq<Seq<char>>, Info),
    Int(i64, Info),
    Float(Seq<char>, Info),
    Bool(bool, Info),
    Str(Seq<char>, Info),
    Arith(Box<ExprV>, ArithOp, Box<ExprV>, Info),
    Comp(Box<ExprV>, CompOp, Box<ExprV>, Info),
    Logic(Box<ExprV>, LogicOp, Box<ExprV>, Info),
    Unary(UnaryOp, Box<ExprV>, Info),
    Call(Box<ExprV>, Seq<ExprV>, Info),
}

pub open spec fn path_v(p: Seq<String>) -> Seq<Seq<char>> {
    p.map_values(|s: String| s@)
}

pub open spec fn expr_v(e: Expr) -> ExprV
    decreases e,
{
    match e {
        Expr::Invalid => ExprV::Invalid,
        Expr::Id(p, i) => ExprV::Id(path_v(p@), i),
        Expr::Int(n, i) => ExprV::Int(n, i),
        Expr::Float(s, i) => ExprV::Float(s@, i),
        Expr::Bool(b, i) => ExprV::Bool(b, i),
        Expr::Str(s, i) => ExprV::Str(s@, i),
        Expr::Arith(l, op, r, i) => ExprV::Arith(Box::new(expr_v(*l)), op, Box::new(expr_v(*r)), i),
        Expr::Comp(l, op, r, i) => ExprV::Comp(Box::new(expr_v(*l)), op, Box::new(expr_v(*r)), i),
        Expr::Logic(l, op, r, i) => ExprV::Logic(Box::new(expr_v(*l)), op, Box::new(expr_v(*r)), i),
        Expr::Unary(op, x, i) => ExprV::Unary(op, Box::new(expr_v(*x)), i),
        Expr::Call(f, args, i) => ExprV::Call(Box::new(expr_v(*f)), exprs_v(args@), i),
    }
}

pub open spec fn exprs_v(s: Seq<Expr>) -> Seq<ExprV>
    decreases s,
{
    if s.len() == 0 {
        Seq::empty()
    } else {
        exprs_v(s.drop_last()).push(expr_v(s.last()))
    }
}

impl View for Expr {
    type V = ExprV;

    open spec fn view(&self) -> ExprV {
        expr_v(*self)
    }
}

/// Position of an expression; none for an invalid one.
pub open spec fn expr_info(e: ExprV) -> Info {
    match e {
        ExprV::Invalid => Info { line: 0, offset: 0, len: 0 },
        ExprV::Id(_, i) => i,
        ExprV::Int(_, i) => i,
        ExprV::Float(_, i) => i,
        ExprV::Bool(_, i) => i,
        ExprV::Str(_, i) => i,
        ExprV::Arith(_, _, _, i) => i,
        ExprV::Comp(_, _, _, i) => i,
        ExprV::Logic(_, _, _, i) => i,
        ExprV::Unary(_, _, i) => i,
        ExprV::Call(_, _, i) => i,
    }
}

impl Expr {
    /// A copy of the expression.
    #[verifier::loop_isolation(false)]
    pub fn copy(&self) -> (r: Expr)
        ensures
            r@ == self@,
        decreases self,
    {
        match self {
            Expr::Invalid => Expr::Invalid,
            Expr::Id(p, i) => {
                let mut q: Vec<String> = Vec::new();
                let mut k: usize = 0;
                while k < p.len()
                    invariant
                        k <= p.len(),
                        q@.len() == k,
                        forall|j: int| 0 <= j < k ==> #[trigger] q@[j]@ == p@[j]@,
                    decreases p.len() - k,
                {
                    let x = p[k].clone();
                    q.push(x);
                    k = k + 1;
                }
                assert(path_v(q@) =~= path_v(p@));
                Expr::Id(q, *i)
            },
            Expr::Int(n, i) => Expr::Int(*n, *i),
            Expr::Float(x, i) => Expr::Float(x.clone(), *i),
            Expr::Bool(b, i) => Expr::Bool(*b, *i),
            Expr::Str(x, i) => Expr::Str(x.clone(), *i),
            Expr::Arith(l, op, r, i) => Expr::Arith(Box::new(l.copy()), *op, Box::new(r.copy()), *i),
            Expr::Comp(l, op, r, i) => Expr::Comp(Box::new(l.copy()), *op, Box::new(r.copy()), *i),
            Expr::Logic(l, op, r, i) => Expr::Logic(Box::new(l.copy()), *op, Box::new(r.copy()), *i),
            Expr::Unary(op, x, i) => Expr::Unary(*op, Box::new(x.copy()), *i),
            Expr::Call(f, args, i) => {
                let mut v: Vec<Expr> = Vec::new();
                let mut k: usize = 0;
                while k < args.len()
                    invariant
                        k <= args.len(),
                        exprs_v(v@) == exprs_v(args@.take(k as int)),
                    decreases args.len() - k,
                {
                    proof {
                        assert(decreases_to!(*args => args[k as int]));
                    }
                    let c = args[k].copy();
                    proof {
                        lemma_exprs_v_push(v@, c);
                        lemma_exprs_v_push(args@.take(k as int), args@[k as int]);
                        assert(args@.take(k as int).push(args@[k as int]) =~= args@.take(k + 1));
                    }
                    v.push(c);
                    k = k + 1;
                }
                assert(args@.take(args.len() as int) =~= args@);
                Expr::Call(Box::new(f.copy()), v, *i)
            },
        }
    }

    pub fn info(&self) -> (i: Info)
        ensures
            i == expr_info(self@),
    {
        match self {
            Expr::Str(_, info) | Expr::Int(_, info) | Expr::Float(_, info) | Expr::Id(_, info)
            | Expr::Bool(_, info) | Expr::Arith(_, _, _, info) | Expr::Comp(_, _, _, info)
            | Expr::Logic(_, _, _, info) | Expr::Unary(_, _, info) | Expr::Call(_, _, info) => *info,
            Expr::Invalid => Info { line: 0, offset: 0, len: 0 },
        }
    }
}

/// Appending an expression appends its view.
pub proof fn lemma_exprs_v_push(s: Seq<Expr>, e: Expr)
    ensures
        exprs_v(s.push(e)) == exprs_v(s).push(expr_v(e)),
{
    assert(s.push(e).drop_last() =~= s);
}

/// The view of a sequence of expressions, element by element.
pub proof fn lemma_exprs_v_index(s: Seq<Expr>)
    ensures
        exprs_v(s).len() == s.len(),
        forall|i: int| 0 <= i < s.len() ==> #[trigger] exprs_v(s)[i] == expr_v(s[i]),
    decreases s.len(),
{
    if s.len() > 0 {
        lemma_exprs_v_index(s.drop_last());
        assert forall|i: int| 0 <= i < s.len() implies #[trigger] exprs_v(s)[i] == expr_v(s[i]) by {
            if i < s.len() - 1 {
                assert(s.drop_last()[i] == s[i]);
            }
        }
    }
}

/// What a comparison says of two integers.
pub open spec fn comp_holds(op: CompOp, a: int, b: int) -> bool {
    match op {
        CompOp::Gt => a > b,
        CompOp::Ge => a >= b,
        CompOp::Lt => a < b,
        CompOp::Le => a <= b,
        CompOp::Eq => a == b,
        CompOp::Ne => a != b,
    }
}

/// What a logical operator says of two truth values.
pub open spec fn logic_holds(op: LogicOp, a: bool, b: bool) -> bool {
    match op {
        LogicOp::And => a && b,
        LogicOp::Or => a || b,
    }
}

/// The value of an arithmetic operation on two integers.
pub open spec fn arith_value(op: ArithOp, a: int, b: int) -> int {
    match op {
        ArithOp::Add => a + b,
        ArithOp::Sub => a - b,
        ArithOp::Mul => a * b,
        ArithOp::Div => a / b,
    }
}

pub open spec fn arith_text(op: ArithOp) -> Seq<char> {
    match op {
        ArithOp::Add => "+"@,
        ArithOp::Sub => "-"@,
        ArithOp::Mul => "*"@,
        ArithOp::Div => "/"@,
    }
}

pub open spec fn comp_text(op: CompOp) -> Seq<char> {
    match op {
        CompOp::Gt => ">"@,
        CompOp::Ge => ">="@,
        CompOp::Lt => "<"@,
        CompOp::Le => "<="@,
        CompOp::Eq => "=="@,
        CompOp::Ne => "!="@,
    }
}

pub open spec fn logic_text(op: LogicOp) -> Seq<char> {
    match op {
        LogicOp::And => "&&"@,
        LogicOp::Or => "||"@,
    }
}

pub open spec fn unary_text(op: UnaryOp) -> Seq<char> {
    match op {
        UnaryOp::Not => "!"@,
        UnaryOp::Neg => "-"@,
    }
}

/// Texts joined with `sep`.
pub open spec fn join_texts(s: Seq<Seq<char>>, sep: Seq<char>) -> Seq<char>
    decreases s.len(),
{
    if s.len() == 0 {
        Seq::empty()
    } else if s.len() == 1 {
        s[0]
    } else {
        join_texts(s.drop_last(), sep) + sep + s.last()
    }
}

/// `(l op r)`.
pub open spec fn binary_text(l: Seq<char>, op: Seq<char>, r: Seq<char>) -> Seq<char> {
    "("@ + l + " "@ + op + " "@ + r + ")"@
}

/// How an expression is written back: operations in parentheses, paths with `::`,
/// a floating-point number as it was written.
pub open spec fn expr_text(e: ExprV) -> Seq<char>
    decreases e,
{
    match e {
        ExprV::Invalid => "INVALID_VALUE"@,
        ExprV::Id(p, _) => join_texts(p, "::"@),
        ExprV::Int(n, _) => int_text(n as int),
        ExprV::Float(x, _) => x,
        ExprV::Bool(b, _) => if b { "true"@ } else { "false"@ },
        ExprV::Str(x, _) => "\""@ + x + "\""@,
        ExprV::Arith(l, op, r, _) => binary_text(expr_text(*l), arith_text(op), expr_text(*r)),
        ExprV::Comp(l, op, r, _) => binary_text(expr_text(*l), comp_text(op), expr_text(*r)),
        ExprV::Logic(l, op, r, _) => binary_text(expr_text(*l), logic_text(op), expr_text(*r)),
        ExprV::Unary(op, x, _) => unary_text(op) + expr_text(*x),
        ExprV::Call(f, args, _) => expr_text(*f) + "("@ + args_text_of(args) + ")"@,
    }
}

/// The texts of call arguments, joined with `, `.
pub open spec fn args_text_of(args: Seq<ExprV>) -> Seq<char>
    decreases args,
{
    if args.len() == 0 {
        Seq::empty()
    } else if args.len() == 1 {
        expr_text(args[0])
    } else {
        args_text_of(args.drop_last()) + ", "@ + expr_text(args.last())
    }
}

impl ArithOp {
    pub fn text(&self) -> (r: &'static str)
        ensures
            r@ == arith_text(*self),
    {
        match self {
            ArithOp::Add => "+",
            ArithOp::Sub => "-",
            ArithOp::Mul => "*",
            ArithOp::Div => "/",
        }
    }
}

impl CompOp {
    pub fn text(&self) -> (r: &'static str)
        ensures
            r@ == comp_text(*self),
    {
        match self {
            CompOp::Gt => ">",
            CompOp::Ge => ">=",
            CompOp::Lt => "<",
            CompOp::Le => "<=",
            CompOp::Eq => "==",
            CompOp::Ne => "!=",
        }
    }
}

impl LogicOp {
    pub fn text(&self) -> (r: &'static str)
        ensures
            r@ == logic_text(*self),
    {
        match self {
            LogicOp::And => "&&",
            LogicOp::Or => "||",
        }
    }
}

impl UnaryOp {
    pub fn text(&self) -> (r: &'static str)
        ensures
            r@ == unary_text(*self),
    {
        match self {
            UnaryOp::Not => "!",
            UnaryOp::Neg => "-",
        }
    }
}

/// `(l op r)` from the texts of the operands.
fn binary_chars(lt: &Vec<char>, op: &str, rt: &Vec<char>) -> (v: Vec<char>)
    ensures
        v@ == binary_text(lt@, op@, rt@),
{
    let mut v = chars_of("(");
    append_chars(&mut v, lt);
    push_str(&mut v, " ");
    push_str(&mut v, op);
    push_str(&mut v, " ");
    append_chars(&mut v, rt);
    push_str(&mut v, ")");
    v
}

impl Expr {
    /// How the expression is written back, as a string.
    pub fn to_string(&self) -> (s: String)
        ensures
            s@ == expr_text(self@),
    {
        let v = self.text_chars();
        string_of(&v)
    }

    /// How the expression is written back.
    #[verifier::loop_isolation(false)]
    pub fn text_chars(&self) -> (r: Vec<char>)
        ensures
            r@ == expr_text(self@),
        decreases self,
    {
        match self {
            Expr::Invalid => chars_of("INVALID_VALUE"),
            Expr::Id(p, _) => {
                let mut v: Vec<char> = Vec::new();
                let mut k: usize = 0;
                while k < p.len()
                    invariant
                        k <= p.len(),
                        v@ == join_texts(path_v(p@).take(k as int), "::"@),
                    decreases p.len() - k,
                {
                    if k > 0 {
                        push_str(&mut v, "::");
                    }
                    let w = chars_of_string(&p[k]);
                    append_chars(&mut v, &w);
                    proof {
                        let t = path_v(p@).take(k + 1);
                        assert(t.drop_last() =~= path_v(p@).take(k as int));
                        if k == 0 {
                            assert(v@ =~= t[0]);
                        }
                    }
                    k = k + 1;
                }
                assert(path_v(p@).take(p.len() as int) =~= path_v(p@));
                v
            },
            Expr::Int(n, _) => i64_text(*n),
            Expr::Float(x, _) => chars_of_string(x),
            Expr::Bool(b, _) => if *b {
                chars_of("true")
            } else {
                chars_of("false")
            },
            Expr::Str(x, _) => {
                let mut v = chars_of("\"");
                let w = chars_of_string(x);
                append_chars(&mut v, &w);
                push_str(&mut v, "\"");
                v
            },
            Expr::Arith(l, op, r, _) => {
                let lt = l.text_chars();
                let rt = r.text_chars();
                binary_chars(&lt, op.text(), &rt)
            },
            Expr::Comp(l, op, r, _) => {
                let lt = l.text_chars();
                let rt = r.text_chars();
                binary_chars(&lt, op.text(), &rt)
            },
            Expr::Logic(l, op, r, _) => {
                let lt = l.text_chars();
                let rt = r.text_chars();
                binary_chars(&lt, op.text(), &rt)
            },
            Expr::Unary(op, x, _) => {
                let mut v = chars_of(op.text());
                let w = x.text_chars();
                append_chars(&mut v, &w);
                v
            },
            Expr::Call(f, args, _) => {
                let mut v = f.text_chars();
                push_str(&mut v, "(");
                let ghost head = v@;
                let ghost av = exprs_v(args@);
                proof {
                    lemma_exprs_v_index(args@);
                }
                let mut k: usize = 0;
                while k < args.len()
                    invariant
                        k <= args.len(),
                        av == exprs_v(args@),
                        av.len() == args.len(),
                        forall|j: int| 0 <= j < args.len() ==> #[trigger] av[j] == args@[j]@,
                        v@ == head + args_text_of(av.take(k as int)),
                    decreases args.len() - k,
                {
                    if k > 0 {
                        push_str(&mut v, ", ");
                    }
                    proof {
                        assert(decreases_to!(*args => args[k as int]));
                    }
                    let w = args[k].text_chars();
                    append_chars(&mut v, &w);
                    proof {
                        let t = av.take(k + 1);
                        assert(t.drop_last() =~= av.take(k as int));
                        assert(t.last() == av[k as int]);
                        if k == 0 {
                            assert(args_text_of(t) == expr_text(t[0]));
                        }
                        assert(v@ =~= head + args_text_of(t));
                    }
                    k = k + 1;
                }
                assert(av.take(args.len() as int) =~= av);
                push_str(&mut v, ")");
                v
            },
        }
    }
}

} // verus!
