//! The grammar of the language as spec functions over token views: what the standard
//! parser produces from a token sequence, and which diagnostics it reports on the way.
//! `None` marks the inputs on which parsing would not finish normally (a token read past
//! the end, a position that goes backwards, a number that leaves `usize`).
use crate::lexer::token::{kind_text, Keyword, KindV, TokenV};
use crate::parser::ast::{assign_text, mut_text, writable, writable_all, writable_branches, AssignOp, MutKind, StmtV};
use crate::parser::expr::{arith_text, comp_text, logic_text, unary_text, ArithOp, CompOp, ExprV, LogicOp, UnaryOp};
use crate::parser::types::{type_info, type_named, TypeV};
use crate::parser::Info;
use crate::report::{error_with_help, plain_error, span_v, DiagV, HelpV, Phase, SpanV};
use vstd::prelude::*;

verus! {

/// Parser state as plain values: the index of the next token and the diagnostics so far.
pub struct PSt {
    pub idx: int,
    pub diags: Seq<DiagV>,
}

pub open spec fn tok_at(toks: Seq<TokenV>, i: int) -> Option<TokenV> {
    if 0 <= i < toks.len() {
        Some(toks[i])
    } else {
        None
    }
}

/// Tokens left to read; it shrinks with every token read.
pub open spec fn measure(toks: Seq<TokenV>, st: PSt) -> int {
    if st.idx <= toks.len() {
        toks.len() - st.idx
    } else {
        0
    }
}

pub open spec fn adv(st: PSt, n: int) -> PSt {
    PSt { idx: st.idx + n, diags: st.diags }
}

pub open spec fn emit(st: PSt, d: DiagV) -> PSt {
    PSt { idx: st.idx, diags: st.diags.push(d) }
}

pub open spec fn tok_span(fid: nat, t: TokenV) -> SpanV {
    span_v(fid, t.line, t.offset, t.len)
}

pub open spec fn tok_info(t: TokenV) -> Info {
    Info { line: t.line as usize, offset: t.offset as usize, len: t.len as usize }
}

/// An error at token `t` whose message is `msg` followed by the token, with one help
/// that puts `fixed` at a span of length `hlen`.
pub open spec fn expected_at_len(
    fid: nat,
    t: TokenV,
    msg: Seq<char>,
    hline: nat,
    hoffset: nat,
    hlen: nat,
    fixed: Seq<char>,
    hmsg: Seq<char>,
) -> DiagV {
    error_with_help(
        msg + kind_text(t.kind),
        tok_span(fid, t),
        Phase::Parsing,
        HelpV { message: hmsg, span: span_v(fid, hline, hoffset, hlen), fixed },
    )
}

/// An error at token `t` with one help at an empty span.
pub open spec fn expected_at(fid: nat, t: TokenV, msg: Seq<char>, hline: nat, hoffset: nat, fixed: Seq<char>, hmsg: Seq<char>) -> DiagV {
    expected_at_len(fid, t, msg, hline, hoffset, 0, fixed, hmsg)
}

/// "Expected ';'" at token `t`, with the help placed just after token `prev`.
pub open spec fn semicolon_error(fid: nat, t: TokenV, prev: TokenV) -> DiagV {
    expected_at(fid, t, "Expected ';', found "@, prev.line, prev.offset + prev.len, ";"@, "Add ';' here"@)
}

/// "Expected ')'" at token `t`, with the help placed just after it.
pub open spec fn rparen_after_error(fid: nat, t: TokenV) -> DiagV {
    expected_at(fid, t, "Expected ')', found "@, t.line, t.offset + t.len, ")"@, "Add ')' here"@)
}

pub open spec fn lbrace_error(fid: nat, t: TokenV) -> DiagV {
    expected_at(fid, t, "Expected '{', found "@, t.line, t.offset, "{"@, "Add '{' here"@)
}

pub open spec fn rbrace_error(fid: nat, t: TokenV) -> DiagV {
    expected_at(fid, t, "Expected '}', found "@, t.line, t.offset, "}}"@, "Add '}' here"@)
}

pub open spec fn ident_error(fid: nat, t: TokenV, hmsg: Seq<char>, fixed: Seq<char>) -> DiagV {
    expected_at(fid, t, "Expected identificator, found "@, t.line, t.offset, fixed, hmsg)
}

pub open spec fn unexpected_error(fid: nat, t: TokenV) -> DiagV {
    plain_error("Unexpected token "@ + kind_text(t.kind), tok_span(fid, t), Phase::Parsing)
}

/// `valid_pos`: the next token is not the end of the file. `None`: there is no next token.
pub open spec fn valid_at(toks: Seq<TokenV>, st: PSt) -> Option<bool> {
    match tok_at(toks, st.idx) {
        Some(t) => Some(!(t.kind is Eof)),
        None => None,
    }
}

/// `check`: consumes the next token when it has the variant of `k`.
pub open spec fn check_at(toks: Seq<TokenV>, st: PSt, k: KindV) -> Option<(bool, PSt)> {
    match tok_at(toks, st.idx) {
        Some(t) => if crate::lexer::token::kind_tag(t.kind) == crate::lexer::token::kind_tag(k) {
            Some((true, adv(st, 1)))
        } else {
            Some((false, st))
        },
        None => None,
    }
}

/// Skips tokens until one of variant `a` or `b`, or the end of the file.
pub open spec fn skip_until(toks: Seq<TokenV>, st: PSt, a: KindV, b: KindV) -> Option<PSt>
    decreases measure(toks, st),
{
    match tok_at(toks, st.idx) {
        Some(t) => if t.kind is Eof || crate::lexer::token::kind_tag(t.kind) == crate::lexer::token::kind_tag(a)
            || crate::lexer::token::kind_tag(t.kind) == crate::lexer::token::kind_tag(b) {
            Some(st)
        } else {
            skip_until(toks, adv(st, 1), a, b)
        },
        None => None,
    }
}

/// `skip_until(&[Semicolon])`, then one more token.
pub open spec fn skip_statement(toks: Seq<TokenV>, st: PSt) -> Option<PSt> {
    match skip_until(toks, st, KindV::Semicolon, KindV::Semicolon) {
        Some(s) => Some(adv(s, 1)),
        None => None,
    }
}

/// A type: a name, `[type]` or `&type`; anything else is an unknown type and is not consumed.
pub open spec fn p_type(toks: Seq<TokenV>, fid: nat, st: PSt) -> Option<(TypeV, PSt)>
    decreases measure(toks, st), 36int,
{
    match tok_at(toks, st.idx) {
        None => None,
        Some(t) => match t.kind {
            KindV::Id(id) => Some((type_named(id, tok_info(t)), adv(st, 1))),
            KindV::LBracket => match p_type(toks, fid, adv(st, 1)) {
                None => None,
                Some((ty, s1)) => match check_at(toks, s1, KindV::RBracket) {
                    None => None,
                    Some((found, s2)) => {
                        let s3 = if found {
                            s2
                        } else {
                            let cur = toks[s2.idx];
                            emit(s2, expected_at(fid, cur, "Expected ']', found "@, cur.line, cur.offset, "]"@, "Add ']' here"@))
                        };
                        let tyi = type_info(ty);
                        if tyi.offset < 1 || tyi.len + 2 > usize::MAX {
                            None
                        } else {
                            Some((TypeV::Array(Box::new(ty), Info { line: tyi.line, offset: (tyi.offset - 1) as usize, len: (tyi.len + 2) as usize }), s3))
                        }
                    },
                },
            },
            KindV::Ampersand => match p_type(toks, fid, adv(st, 1)) {
                None => None,
                Some((ty, s1)) => {
                    let tyi = type_info(ty);
                    if tyi.offset < 1 || tyi.len + 1 > usize::MAX {
                        None
                    } else {
                        Some((TypeV::Ptr(Box::new(ty), Info { line: tyi.line, offset: (tyi.offset - 1) as usize, len: (tyi.len + 1) as usize }), s1))
                    }
                },
            },
            _ => Some((TypeV::Unknown, st)),
        },
    }
}


/// Result of parsing an expression: the expression or a failure, and the new state.
pub type ExprRes = Option<(Result<ExprV, ()>, PSt)>;

/// `expr`: a logical expression.
pub open spec fn p_expr(toks: Seq<TokenV>, fid: nat, st: PSt) -> ExprRes
    decreases measure(toks, st), 20int,
{
    p_logical(toks, fid, st)
}

pub open spec fn logic_op(k: KindV) -> Option<LogicOp> {
    match k {
        KindV::And => Some(LogicOp::And),
        KindV::Or => Some(LogicOp::Or),
        _ => None,
    }
}

pub open spec fn comp_op(k: KindV) -> Option<CompOp> {
    match k {
        KindV::Gt => Some(CompOp::Gt),
        KindV::Ge => Some(CompOp::Ge),
        KindV::Lt => Some(CompOp::Lt),
        KindV::Le => Some(CompOp::Le),
        KindV::Eq => Some(CompOp::Eq),
        KindV::Ne => Some(CompOp::Ne),
        _ => None,
    }
}

pub open spec fn add_op(k: KindV) -> Option<ArithOp> {
    match k {
        KindV::Plus => Some(ArithOp::Add),
        KindV::Minus => Some(ArithOp::Sub),
        _ => None,
    }
}

pub open spec fn mul_op(k: KindV) -> Option<ArithOp> {
    match k {
        KindV::Star => Some(ArithOp::Mul),
        KindV::Slash => Some(ArithOp::Div),
        _ => None,
    }
}

pub open spec fn p_logical(toks: Seq<TokenV>, fid: nat, st: PSt) -> ExprRes
    decreases measure(toks, st), 19int,
{
    match p_comparison(toks, fid, st) {
        Some((Ok(left), s1)) => if s1.idx >= st.idx {
            p_logical_loop(toks, fid, s1, left)
        } else {
            None
        },
        other => other,
    }
}

/// `left` followed by any number of `&& e` / `|| e`, grouped to the left.
pub open spec fn p_logical_loop(toks: Seq<TokenV>, fid: nat, st: PSt, left: ExprV) -> ExprRes
    decreases measure(toks, st), 18int,
{
    match tok_at(toks, st.idx) {
        None => None,
        Some(t) => if t.kind is Eof {
            Some((Ok(left), st))
        } else {
            match logic_op(t.kind) {
                None => Some((Ok(left), st)),
                Some(op) => match p_comparison(toks, fid, adv(st, 1)) {
                    Some((Ok(right), s1)) => if s1.idx > st.idx {
                        p_logical_loop(toks, fid, s1, ExprV::Logic(Box::new(left), op, Box::new(right), tok_info(t)))
                    } else {
                        None
                    },
                    other => other,
                },
            }
        },
    }
}

pub open spec fn p_comparison(toks: Seq<TokenV>, fid: nat, st: PSt) -> ExprRes
    decreases measure(toks, st), 17int,
{
    match p_additive(toks, fid, st) {
        Some((Ok(left), s1)) => if s1.idx >= st.idx {
            p_comparison_loop(toks, fid, s1, left)
        } else {
            None
        },
        other => other,
    }
}

pub open spec fn p_comparison_loop(toks: Seq<TokenV>, fid: nat, st: PSt, left: ExprV) -> ExprRes
    decreases measure(toks, st), 16int,
{
    match tok_at(toks, st.idx) {
        None => None,
        Some(t) => if t.kind is Eof {
            Some((Ok(left), st))
        } else {
            match comp_op(t.kind) {
                None => Some((Ok(left), st)),
                Some(op) => match p_additive(toks, fid, adv(st, 1)) {
                    Some((Ok(right), s1)) => if s1.idx > st.idx {
                        p_comparison_loop(toks, fid, s1, ExprV::Comp(Box::new(left), op, Box::new(right), tok_info(t)))
                    } else {
                        None
                    },
                    other => other,
                },
            }
        },
    }
}

pub open spec fn p_additive(toks: Seq<TokenV>, fid: nat, st: PSt) -> ExprRes
    decreases measure(toks, st), 15int,
{
    match p_multiplicative(toks, fid, st) {
        Some((Ok(left), s1)) => if s1.idx >= st.idx {
            p_additive_loop(toks, fid, s1, left)
        } else {
            None
        },
        other => other,
    }
}

pub open spec fn p_additive_loop(toks: Seq<TokenV>, fid: nat, st: PSt, left: ExprV) -> ExprRes
    decreases measure(toks, st), 14int,
{
    match tok_at(toks, st.idx) {
        None => None,
        Some(t) => if t.kind is Eof {
            Some((Ok(left), st))
        } else {
            match add_op(t.kind) {
                None => Some((Ok(left), st)),
                Some(op) => match p_multiplicative(toks, fid, adv(st, 1)) {
                    Some((Ok(right), s1)) => if s1.idx > st.idx {
                        p_additive_loop(toks, fid, s1, ExprV::Arith(Box::new(left), op, Box::new(right), tok_info(t)))
                    } else {
                        None
                    },
                    other => other,
                },
            }
        },
    }
}

pub open spec fn p_multiplicative(toks: Seq<TokenV>, fid: nat, st: PSt) -> ExprRes
    decreases measure(toks, st), 13int,
{
    match p_unary(toks, fid, st) {
        Some((Ok(left), s1)) => if s1.idx >= st.idx {
            p_multiplicative_loop(toks, fid, s1, left)
        } else {
            None
        },
        other => other,
    }
}

pub open spec fn p_multiplicative_loop(toks: Seq<TokenV>, fid: nat, st: PSt, left: ExprV) -> ExprRes
    decreases measure(toks, st), 12int,
{
    match tok_at(toks, st.idx) {
        None => None,
        Some(t) => if t.kind is Eof {
            Some((Ok(left), st))
        } else {
            match mul_op(t.kind) {
                None => Some((Ok(left), st)),
                Some(op) => match p_unary(toks, fid, adv(st, 1)) {
                    Some((Ok(right), s1)) => if s1.idx > st.idx {
                        p_multiplicative_loop(toks, fid, s1, ExprV::Arith(Box::new(left), op, Box::new(right), tok_info(t)))
                    } else {
                        None
                    },
                    other => other,
                },
            }
        },
    }
}

/// `!` or `-` applied to a primary expression, or a primary expression.
pub open spec fn p_unary(toks: Seq<TokenV>, fid: nat, st: PSt) -> ExprRes
    decreases measure(toks, st), 11int,
{
    match tok_at(toks, st.idx) {
        None => None,
        Some(t) => match t.kind {
            KindV::Bang => match p_primary(toks, fid, adv(st, 1)) {
                Some((Ok(e), s1)) => Some((Ok(ExprV::Unary(UnaryOp::Not, Box::new(e), tok_info(t))), s1)),
                other => other,
            },
            KindV::Minus => match p_primary(toks, fid, adv(st, 1)) {
                Some((Ok(e), s1)) => Some((Ok(ExprV::Unary(UnaryOp::Neg, Box::new(e), tok_info(t))), s1)),
                other => other,
            },
            _ => p_primary(toks, fid, st),
        },
    }
}

/// After a name: `::name` segments (a `::` not followed by a name adds nothing).
pub open spec fn p_path_tail(toks: Seq<TokenV>, st: PSt, path: Seq<Seq<char>>) -> Option<(Seq<Seq<char>>, PSt)>
    decreases measure(toks, st),
{
    match tok_at(toks, st.idx) {
        None => None,
        Some(t) => if t.kind is Eof || !(t.kind is Path) {
            Some((path, st))
        } else {
            let s1 = adv(st, 1);
            match tok_at(toks, s1.idx) {
                None => None,
                Some(t1) => match t1.kind {
                    KindV::Id(x) => p_path_tail(toks, adv(s1, 1), path.push(x)),
                    _ => p_path_tail(toks, s1, path),
                },
            }
        },
    }
}

/// The arguments of a call, up to the closing parenthesis (not consumed).
pub open spec fn p_call_args(toks: Seq<TokenV>, fid: nat, st: PSt, args: Seq<ExprV>) -> Option<(Seq<ExprV>, PSt)>
    decreases measure(toks, st), 21int,
{
    match tok_at(toks, st.idx) {
        None => None,
        Some(t) => if t.kind is Eof || t.kind is RParen {
            Some((args, st))
        } else {
            match p_expr(toks, fid, st) {
                None => None,
                Some((r, s1)) => {
                    let e = match r {
                        Ok(e) => e,
                        Err(_) => ExprV::Invalid,
                    };
                    match check_at(toks, s1, KindV::Comma) {
                        None => None,
                        Some((_, s2)) => if s2.idx > st.idx {
                            p_call_args(toks, fid, s2, args.push(e))
                        } else {
                            None
                        },
                    }
                },
            }
        },
    }
}

/// Checks for the `)` that closes a call or a parenthesised expression; without it,
/// reports an error at the token before.
pub open spec fn close_paren(toks: Seq<TokenV>, fid: nat, st: PSt) -> Option<PSt> {
    match check_at(toks, st, KindV::RParen) {
        None => None,
        Some((true, s1)) => Some(s1),
        Some((false, s1)) => match tok_at(toks, s1.idx - 1) {
            None => None,
            Some(rp) => if rp.offset + rp.len > usize::MAX {
                None
            } else {
                Some(emit(s1, rparen_after_error(fid, rp)))
            },
        },
    }
}

/// A literal, a name (maybe called) or a parenthesised expression; anything else
/// is reported and skipped.
pub open spec fn p_primary(toks: Seq<TokenV>, fid: nat, st: PSt) -> ExprRes
    decreases measure(toks, st), 10int,
{
    match tok_at(toks, st.idx) {
        None => None,
        Some(t) => match t.kind {
            KindV::Int(n) => Some((Ok(ExprV::Int(n, tok_info(t))), adv(st, 1))),
            KindV::Float(x) => Some((Ok(ExprV::Float(x, tok_info(t))), adv(st, 1))),
            KindV::Bool(b) => Some((Ok(ExprV::Bool(b, tok_info(t))), adv(st, 1))),
            KindV::Str(x) => Some((Ok(ExprV::Str(x, tok_info(t))), adv(st, 1))),
            KindV::Id(id) => match p_path_tail(toks, adv(st, 1), seq![id]) {
                None => None,
                Some((path, s1)) => match tok_at(toks, s1.idx) {
                    None => None,
                    Some(end) => if end.pos < t.pos {
                        None
                    } else {
                        let info = Info { line: t.line as usize, offset: t.offset as usize, len: (end.pos - t.pos) as usize };
                        match check_at(toks, s1, KindV::LParen) {
                            None => None,
                            Some((false, s2)) => Some((Ok(ExprV::Id(path, info)), s2)),
                            Some((true, s2)) => if measure(toks, s2) < measure(toks, st) {
                                match p_call_args(toks, fid, s2, Seq::empty()) {
                                    None => None,
                                    Some((args, s3)) => match close_paren(toks, fid, s3) {
                                        None => None,
                                        Some(s4) => Some((Ok(ExprV::Call(Box::new(ExprV::Id(path, info)), args, info)), s4)),
                                    },
                                }
                            } else {
                                None
                            },
                        }
                    },
                },
            },
            KindV::LParen => match p_expr(toks, fid, adv(st, 1)) {
                Some((Ok(e), s1)) => match close_paren(toks, fid, s1) {
                    None => None,
                    Some(s2) => Some((Ok(e), s2)),
                },
                other => other,
            },
            _ => Some((Err(()), adv(emit(st, unexpected_error(fid, t)), 1))),
        },
    }
}

pub open spec fn expression_error(fid: nat, t: TokenV) -> DiagV {
    expected_at(fid, t, "Expected expression, found "@, t.line, t.offset, "expression"@, "Add expression here"@)
}

/// The expression of a parse result, or `Invalid` where it failed.
pub open spec fn or_invalid(r: Result<ExprV, ()>) -> ExprV {
    match r {
        Ok(e) => e,
        Err(_) => ExprV::Invalid,
    }
}

/// Checks for the `;` that ends a statement; without it, reports an error at the
/// next token with the help placed after the token before.
pub open spec fn expect_semicolon(toks: Seq<TokenV>, fid: nat, st: PSt) -> Option<PSt> {
    match check_at(toks, st, KindV::Semicolon) {
        None => None,
        Some((true, s1)) => Some(s1),
        Some((false, s1)) => match tok_at(toks, s1.idx - 1) {
            None => None,
            Some(prev) => if prev.offset + prev.len > usize::MAX {
                None
            } else {
                Some(emit(s1, semicolon_error(fid, toks[s1.idx], prev)))
            },
        },
    }
}

/// Checks for `{`; without it, reports an error at the next token.
pub open spec fn expect_lbrace(toks: Seq<TokenV>, fid: nat, st: PSt) -> Option<(bool, PSt)> {
    match check_at(toks, st, KindV::LBrace) {
        None => None,
        Some((true, s1)) => Some((true, s1)),
        Some((false, s1)) => Some((false, emit(s1, lbrace_error(fid, toks[s1.idx])))),
    }
}

/// Checks for `}`; without it, reports an error at the next token.
pub open spec fn expect_rbrace(toks: Seq<TokenV>, fid: nat, st: PSt) -> Option<PSt> {
    match check_at(toks, st, KindV::RBrace) {
        None => None,
        Some((true, s1)) => Some(s1),
        Some((false, s1)) => Some(emit(s1, rbrace_error(fid, toks[s1.idx]))),
    }
}

/// What a statement is, told by its first two tokens.
#[derive(Debug, Clone, Copy, PartialEq, Eq, Structural)]
pub enum StmtKind {
    Fn,
    IfElse,
    Declare,
    Assign,
    While,
    Return,
    Break,
    Continue,
    Expr,
    Use,
}

pub open spec fn is_assign_kind(k: KindV) -> bool {
    k is Assign || k is AssignPlus || k is AssignMinus || k is AssignSlash || k is AssignStar
}

pub open spec fn stmt_kind(t0: KindV, t1: KindV) -> StmtKind {
    match t0 {
        KindV::Keyword(Keyword::Fix) | KindV::Keyword(Keyword::Mut) => StmtKind::Declare,
        KindV::Keyword(Keyword::If) => StmtKind::IfElse,
        KindV::Keyword(Keyword::Ret) => StmtKind::Return,
        KindV::Keyword(Keyword::Fn) => StmtKind::Fn,
        KindV::Keyword(Keyword::Pub) => match t1 {
            KindV::Keyword(Keyword::Fn) => StmtKind::Fn,
            KindV::Keyword(Keyword::Use) => StmtKind::Use,
            _ => StmtKind::Expr,
        },
        KindV::Keyword(Keyword::While) => StmtKind::While,
        KindV::Id(_) => if is_assign_kind(t1) {
            StmtKind::Assign
        } else {
            StmtKind::Expr
        },
        KindV::Star => if t1 is Id {
            StmtKind::Assign
        } else {
            StmtKind::Expr
        },
        KindV::Keyword(Keyword::Break) => StmtKind::Break,
        KindV::Keyword(Keyword::Continue) => StmtKind::Continue,
        KindV::Keyword(Keyword::Use) => StmtKind::Use,
        _ => StmtKind::Expr,
    }
}

/// A `use` path: names separated by `::`.
pub open spec fn p_use_path(toks: Seq<TokenV>, st: PSt, path: Seq<Seq<char>>) -> Option<(Seq<Seq<char>>, PSt)>
    decreases measure(toks, st),
{
    match tok_at(toks, st.idx) {
        None => None,
        Some(t) => match t.kind {
            KindV::Eof => Some((path, st)),
            KindV::Id(x) => p_use_path(toks, adv(st, 1), path.push(x)),
            KindV::Path => p_use_path(toks, adv(st, 1), path),
            _ => Some((path, st)),
        },
    }
}

pub open spec fn p_break_continue(toks: Seq<TokenV>, fid: nat, st: PSt) -> Option<(StmtV, PSt)> {
    match tok_at(toks, st.idx) {
        Some(t) => match t.kind {
            KindV::Keyword(kw) => {
                let stmt = if kw == Keyword::Break { StmtV::Break } else { StmtV::Continue };
                match expect_semicolon(toks, fid, adv(st, 1)) {
                    None => None,
                    Some(s1) => Some((stmt, s1)),
                }
            },
            _ => None,
        },
        None => None,
    }
}

pub open spec fn p_use(toks: Seq<TokenV>, fid: nat, st: PSt) -> Option<(StmtV, PSt)> {
    match tok_at(toks, st.idx) {
        None => None,
        Some(t) => {
            let is_pub = t.kind == KindV::Keyword(Keyword::Pub);
            let s1 = adv(st, if is_pub { 2int } else { 1int });
            match p_use_path(toks, s1, Seq::empty()) {
                None => None,
                Some((path, s2)) => match expect_semicolon(toks, fid, s2) {
                    None => None,
                    Some(s3) => Some((StmtV::Use(is_pub, seq![path]), s3)),
                },
            }
        },
    }
}

/// The name of a declared variable or function, or `None` when the token is no name.
pub open spec fn name_of(t: TokenV) -> Option<Seq<char>> {
    match t.kind {
        KindV::Id(x) => Some(x),
        _ => None,
    }
}

pub open spec fn assign_op_of(k: KindV) -> Option<AssignOp> {
    match k {
        KindV::Assign => Some(AssignOp::Assign),
        KindV::AssignPlus => Some(AssignOp::Plus),
        KindV::AssignMinus => Some(AssignOp::Minus),
        KindV::AssignStar => Some(AssignOp::Star),
        KindV::AssignSlash => Some(AssignOp::Slash),
        _ => None,
    }
}

/// The value after `=` in a declaration or an assignment, up to and with the `;`.
/// A `;` in place of the value is reported.
pub open spec fn p_value(toks: Seq<TokenV>, fid: nat, st: PSt) -> Option<(ExprV, PSt)> {
    match tok_at(toks, st.idx) {
        None => None,
        Some(t) => if t.kind is Semicolon {
            Some((ExprV::Invalid, adv(emit(st, expression_error(fid, t)), 1)))
        } else {
            match p_expr(toks, fid, st) {
                None => None,
                Some((Ok(e), s1)) => match expect_semicolon(toks, fid, s1) {
                    None => None,
                    Some(s2) => Some((e, s2)),
                },
                Some((Err(_), s1)) => match skip_until(toks, s1, KindV::Semicolon, KindV::Semicolon) {
                    None => None,
                    Some(s2) => match expect_semicolon(toks, fid, s2) {
                        None => None,
                        Some(s3) => Some((ExprV::Invalid, s3)),
                    },
                },
            }
        },
    }
}

pub open spec fn invalid_ident() -> Seq<char> {
    "INVALID_IDENT"@
}

pub open spec fn p_assign(toks: Seq<TokenV>, fid: nat, st: PSt) -> Option<(StmtV, PSt)> {
    match tok_at(toks, st.idx) {
        None => None,
        Some(t0) => {
            let deref = t0.kind is Star;
            let s1 = if deref { adv(st, 1) } else { st };
            match tok_at(toks, s1.idx) {
                None => None,
                Some(t) => match name_of(t) {
                    None => {
                        let s2 = emit(s1, ident_error(fid, t, "Add variable identificator here"@, "var_ident"@));
                        match skip_statement(toks, s2) {
                            None => None,
                            Some(s3) => Some((StmtV::Assign(deref, invalid_ident(), AssignOp::Assign, ExprV::Invalid), s3)),
                        }
                    },
                    Some(id) => {
                        let s2 = adv(s1, 1);
                        match tok_at(toks, s2.idx) {
                            None => None,
                            Some(a) => match assign_op_of(a.kind) {
                                None => {
                                    let d = error_with_help(
                                        "Expected =/+=/-=/*=//=, found "@ + id,
                                        tok_span(fid, a),
                                        Phase::Parsing,
                                        HelpV { message: "Add assign operator here"@, span: span_v(fid, a.line, a.offset, 0), fixed: "= "@ },
                                    );
                                    match skip_statement(toks, emit(s2, d)) {
                                        None => None,
                                        Some(s3) => Some((StmtV::Assign(deref, id, AssignOp::Assign, ExprV::Invalid), s3)),
                                    }
                                },
                                Some(op) => match p_value(toks, fid, adv(s2, 1)) {
                                    None => None,
                                    Some((e, s3)) => Some((StmtV::Assign(deref, id, op, e), s3)),
                                },
                            },
                        }
                    },
                },
            }
        },
    }
}

pub open spec fn p_declare(toks: Seq<TokenV>, fid: nat, st: PSt) -> Option<(StmtV, PSt)> {
    match tok_at(toks, st.idx) {
        None => None,
        Some(t0) => {
            let mk = if t0.kind == KindV::Keyword(Keyword::Mut) { MutKind::Mutable } else { MutKind::Fixed };
            let s1 = adv(st, 1);
            match tok_at(toks, s1.idx) {
                None => None,
                Some(t) => match name_of(t) {
                    None => {
                        let s2 = emit(s1, ident_error(fid, t, "Add variable identificator here"@, "var_ident"@));
                        match skip_statement(toks, s2) {
                            None => None,
                            Some(s3) => Some((StmtV::Declare(mk, invalid_ident(), TypeV::Unknown, ExprV::Invalid), s3)),
                        }
                    },
                    Some(id) => p_declare_rest(toks, fid, adv(s1, 1), mk, id),
                },
            }
        },
    }
}

/// A declaration after its name: `: type`, then `=` and the value.
pub open spec fn p_declare_rest(toks: Seq<TokenV>, fid: nat, st: PSt, mk: MutKind, id: Seq<char>) -> Option<(StmtV, PSt)> {
    match check_at(toks, st, KindV::Colon) {
        None => None,
        Some((colon, s2)) => {
            let tyr = if colon { p_type(toks, fid, s2) } else { Some((TypeV::Unknown, s2)) };
            match tyr {
                None => None,
                Some((ty, s3)) => match check_at(toks, s3, KindV::Assign) {
                    None => None,
                    Some((false, s4)) => {
                        let a = toks[s4.idx];
                        let d = expected_at(fid, a, "Expected '=', found "@, a.line, a.offset, "= "@, "Add '=' here"@);
                        match skip_statement(toks, emit(s4, d)) {
                            None => None,
                            Some(s5) => Some((StmtV::Declare(mk, id, ty, ExprV::Invalid), s5)),
                        }
                    },
                    Some((true, s4)) => match p_value(toks, fid, s4) {
                        None => None,
                        Some((e, s5)) => Some((StmtV::Declare(mk, id, ty, e), s5)),
                    },
                },
            }
        },
    }
}

pub open spec fn p_return(toks: Seq<TokenV>, fid: nat, st: PSt) -> Option<(StmtV, PSt)> {
    match check_at(toks, adv(st, 1), KindV::Semicolon) {
        None => None,
        Some((true, s1)) => Some((StmtV::Return(None), s1)),
        Some((false, s1)) => match p_expr(toks, fid, s1) {
            None => None,
            Some((r, s2)) => match expect_semicolon(toks, fid, s2) {
                None => None,
                Some(s3) => Some((StmtV::Return(Some(or_invalid(r))), s3)),
            },
        },
    }
}


/// `while cond { body }`.
pub open spec fn p_while(toks: Seq<TokenV>, fid: nat, st: PSt) -> Option<(StmtV, PSt)>
    decreases measure(toks, st), 38int,
{
    match p_expr(toks, fid, adv(st, 1)) {
        None => None,
        Some((r, s1)) => match expect_lbrace(toks, fid, s1) {
            None => None,
            Some((false, s2)) => Some((StmtV::While(or_invalid(r), Seq::empty()), s2)),
            Some((true, s2)) => if measure(toks, s2) < measure(toks, st) {
                match p_body(toks, fid, s2, Seq::empty()) {
                    None => None,
                    Some((body, s3)) => match expect_rbrace(toks, fid, s3) {
                        None => None,
                        Some(s4) => Some((StmtV::While(or_invalid(r), body), s4)),
                    },
                }
            } else {
                None
            },
        },
    }
}

/// `if cond { .. } elif cond { .. } else { .. }`.
pub open spec fn p_if_else(toks: Seq<TokenV>, fid: nat, st: PSt) -> Option<(StmtV, PSt)>
    decreases measure(toks, st), 38int,
{
    p_if_branches(toks, fid, adv(st, 1), false, Seq::empty())
}

/// One branch of an `if`: its condition (none after `else`) and its body. `Some(None)`
/// where the `{` is missing, which ends the `if`.
#[verifier::opaque]
pub open spec fn p_if_branch(
    toks: Seq<TokenV>,
    fid: nat,
    st: PSt,
    has_else: bool,
    m: int,
) -> Option<(Option<(Option<ExprV>, Seq<StmtV>)>, PSt)>
    decreases m, 36int,
{
    let condr: Option<(Option<ExprV>, PSt)> = if has_else {
        Some((None, st))
    } else {
        match p_expr(toks, fid, st) {
            None => None,
            Some((r, s1)) => Some((Some(or_invalid(r)), s1)),
        }
    };
    match condr {
        None => None,
        Some((cond, s1)) => match expect_lbrace(toks, fid, s1) {
            None => None,
            Some((false, s2)) => Some((None, s2)),
            Some((true, s2)) => if measure(toks, s2) < m {
                match p_body(toks, fid, s2, Seq::empty()) {
                    None => None,
                    Some((body, s3)) => match expect_rbrace(toks, fid, s3) {
                        None => None,
                        Some(s4) => Some((Some((cond, body)), s4)),
                    },
                }
            } else {
                None
            },
        },
    }
}

/// The branches of an `if`, from the condition of the next one (none after `else`).
pub open spec fn p_if_branches(
    toks: Seq<TokenV>,
    fid: nat,
    st: PSt,
    has_else: bool,
    branches: Seq<(Option<ExprV>, Seq<StmtV>)>,
) -> Option<(StmtV, PSt)>
    decreases measure(toks, st), 37int,
{
    match tok_at(toks, st.idx) {
        None => None,
        Some(t) => if t.kind is Eof {
            Some((StmtV::IfElse(branches), st))
        } else {
            match p_if_branch(toks, fid, st, has_else, measure(toks, st)) {
                None => None,
                Some((None, s2)) => Some((StmtV::IfElse(branches), s2)),
                Some((Some(b), s4)) => {
                    let br = branches.push(b);
                    match tok_at(toks, s4.idx) {
                        None => None,
                        Some(n) => {
                            let s5 = adv(s4, 1);
                            if n.kind == KindV::Keyword(Keyword::Elif) || n.kind == KindV::Keyword(Keyword::Else) {
                                if measure(toks, s5) < measure(toks, st) {
                                    p_if_branches(toks, fid, s5, has_else || n.kind == KindV::Keyword(Keyword::Else), br)
                                } else {
                                    None
                                }
                            } else {
                                Some((StmtV::IfElse(br), s4))
                            }
                        },
                    }
                },
            }
        },
    }
}

/// The arguments of a function declaration, `name: type` separated by commas, up to
/// the closing parenthesis (not consumed).
pub open spec fn p_fn_args(toks: Seq<TokenV>, fid: nat, st: PSt, args: Seq<(Seq<char>, TypeV)>) -> Option<(Seq<(Seq<char>, TypeV)>, PSt)>
    decreases measure(toks, st), 37int,
{
    match tok_at(toks, st.idx) {
        None => None,
        Some(t) => if t.kind is Eof || t.kind is RParen {
            Some((args, st))
        } else {
            match name_of(t) {
                None => match skip_until(toks, st, KindV::RParen, KindV::Comma) {
                    None => None,
                    Some(s1) => {
                        let end = toks[s1.idx];
                        if end.pos < t.pos {
                            None
                        } else {
                            match check_at(toks, s1, KindV::Comma) {
                                None => None,
                                Some((_, s2)) => {
                                    let d = expected_at_len(
                                        fid,
                                        t,
                                        "Expected identificator, found "@,
                                        t.line,
                                        t.offset,
                                        (end.pos - t.pos) as nat,
                                        "ident: type"@,
                                        "Use currect argument declare"@,
                                    );
                                    let s3 = emit(s2, d);
                                    if measure(toks, s3) < measure(toks, st) {
                                        p_fn_args(toks, fid, s3, args.push((invalid_ident(), TypeV::Unknown)))
                                    } else {
                                        None
                                    }
                                },
                            }
                        }
                    },
                },
                Some(id) => {
                    let s1 = adv(st, 1);
                    match check_at(toks, s1, KindV::Colon) {
                        None => None,
                        Some((false, _)) => {
                            let c = toks[s1.idx];
                            let s2 = emit(s1, expected_at(fid, c, "Expected ':', found "@, c.line, c.offset, ": "@, "Add ':' here"@));
                            match skip_until(toks, s2, KindV::RParen, KindV::Comma) {
                                None => None,
                                Some(s3) => match check_at(toks, s3, KindV::Comma) {
                                    None => None,
                                    Some((false, _)) => Some((args, s3)),
                                    Some((true, s4)) => if measure(toks, s4) < measure(toks, st) {
                                        p_fn_args(toks, fid, s4, args)
                                    } else {
                                        None
                                    },
                                },
                            }
                        },
                        Some((true, s2)) => {
                            let c = toks[s2.idx];
                            let tyr = if c.kind is Ampersand || c.kind is LBracket || c.kind is Id {
                                p_type(toks, fid, s2)
                            } else {
                                Some((TypeV::Unknown, emit(s2, expected_at(
                                    fid,
                                    c,
                                    "Expected type (identificator)/pointer (&)/array ([type]), found "@,
                                    c.line,
                                    c.offset,
                                    "type"@,
                                    "Add argument type here"@,
                                ))))
                            };
                            match tyr {
                                None => None,
                                Some((ty, s3)) => match check_at(toks, s3, KindV::Comma) {
                                    None => None,
                                    Some((_, s4)) => if measure(toks, s4) < measure(toks, st) {
                                        p_fn_args(toks, fid, s4, args.push((id, ty)))
                                    } else {
                                        None
                                    },
                                },
                            }
                        },
                    }
                },
            }
        },
    }
}

/// The arguments of a declared function and the `)` after them.
pub open spec fn p_fn_sig_args(toks: Seq<TokenV>, fid: nat, st: PSt) -> Option<(Seq<(Seq<char>, TypeV)>, PSt)> {
    match check_at(toks, st, KindV::RParen) {
        None => None,
        Some((true, s5)) => Some((Seq::empty(), s5)),
        Some((false, s5)) => match p_fn_args(toks, fid, s5, Seq::empty()) {
            None => None,
            Some((ags, s6)) => match check_at(toks, s6, KindV::RParen) {
                None => None,
                Some((true, s7)) => Some((ags, s7)),
                Some((false, s7)) => {
                    let c = toks[s7.idx];
                    Some((ags, emit(s7, expected_at(fid, c, "Expected ')', found "@, c.line, c.offset, ")"@, "Add ')' here"@))))
                },
            },
        },
    }
}

/// A function declaration after `(`: the arguments, the return type and the body;
/// `m` bounds the tokens left, which the body must shrink.
#[verifier::opaque]
pub open spec fn p_fn_tail(
    toks: Seq<TokenV>,
    fid: nat,
    st: PSt,
    is_pub: bool,
    id: Seq<char>,
    m: int,
) -> Option<(StmtV, PSt)>
    decreases m, 37int,
{
    match p_fn_sig_args(toks, fid, st) {
        None => None,
        Some((args, s8)) => match tok_at(toks, s8.idx) {
            None => None,
            Some(t8) => {
                let retr: Option<(Option<TypeV>, PSt)> = if t8.kind is LBrace {
                    Some((None, s8))
                } else {
                    match p_type(toks, fid, s8) {
                        None => None,
                        Some((ty, s9)) => Some((Some(ty), s9)),
                    }
                };
                match retr {
                    None => None,
                    Some((ret, s9)) => match expect_lbrace(toks, fid, s9) {
                        None => None,
                        Some((_, s10)) => if measure(toks, s10) < m {
                            match p_body(toks, fid, s10, Seq::empty()) {
                                None => None,
                                Some((body, s11)) => match expect_rbrace(toks, fid, s11) {
                                    None => None,
                                    Some(s12) => Some((StmtV::Func(false, is_pub, id, args, ret, body), s12)),
                                },
                            }
                        } else {
                            None
                        },
                    },
                }
            },
        },
    }
}

/// `pub fn name(args) type { body }`.
pub open spec fn p_fn(toks: Seq<TokenV>, fid: nat, st: PSt) -> Option<(StmtV, PSt)>
    decreases measure(toks, st), 38int,
{
    match tok_at(toks, st.idx) {
        None => None,
        Some(t0) => {
            let is_pub = t0.kind == KindV::Keyword(Keyword::Pub);
            let s1 = adv(st, if is_pub { 2int } else { 1int });
            match tok_at(toks, s1.idx) {
                None => None,
                Some(t) => {
                    let id = match name_of(t) {
                        Some(x) => x,
                        None => invalid_ident(),
                    };
                    let s2 = match name_of(t) {
                        Some(_) => adv(s1, 1),
                        None => emit(s1, ident_error(fid, t, "Add function identificator here"@, "func_name"@)),
                    };
                    match check_at(toks, s2, KindV::LParen) {
                        None => None,
                        Some((lp, s3)) => {
                            let s4 = if lp {
                                s3
                            } else {
                                let c = toks[s3.idx];
                                emit(s3, expected_at(fid, c, "Expected '(', found "@, c.line, c.offset, "("@, "Add '(' here"@))
                            };
                            p_fn_tail(toks, fid, s4, is_pub, id, measure(toks, st))
                        },
                    }
                },
            }
        },
    }
}

pub open spec fn lift_stmt(r: Option<(StmtV, PSt)>) -> Option<(Result<StmtV, ()>, PSt)> {
    match r {
        None => None,
        Some((s, st)) => Some((Ok(s), st)),
    }
}

/// One statement; `Err` where it was an expression that failed.
pub open spec fn p_stmt(toks: Seq<TokenV>, fid: nat, st: PSt) -> Option<(Result<StmtV, ()>, PSt)>
    decreases measure(toks, st), 39int,
{
    match (tok_at(toks, st.idx), tok_at(toks, st.idx + 1)) {
        (Some(t0), Some(t1)) => match stmt_kind(t0.kind, t1.kind) {
            StmtKind::Expr => match p_expr(toks, fid, st) {
                None => None,
                Some((Ok(e), s1)) => Some((Ok(StmtV::Expr(e)), s1)),
                Some((Err(_), s1)) => Some((Err(()), s1)),
            },
            StmtKind::Declare => lift_stmt(p_declare(toks, fid, st)),
            StmtKind::Assign => lift_stmt(p_assign(toks, fid, st)),
            StmtKind::Fn => lift_stmt(p_fn(toks, fid, st)),
            StmtKind::IfElse => lift_stmt(p_if_else(toks, fid, st)),
            StmtKind::Return => lift_stmt(p_return(toks, fid, st)),
            StmtKind::Break => lift_stmt(p_break_continue(toks, fid, st)),
            StmtKind::Continue => lift_stmt(p_break_continue(toks, fid, st)),
            StmtKind::While => lift_stmt(p_while(toks, fid, st)),
            StmtKind::Use => lift_stmt(p_use(toks, fid, st)),
        },
        _ => None,
    }
}

/// Statements up to a `}` or the end of the file; a statement that failed is left out.
pub open spec fn p_body(toks: Seq<TokenV>, fid: nat, st: PSt, body: Seq<StmtV>) -> Option<(Seq<StmtV>, PSt)>
    decreases measure(toks, st), 40int,
{
    match tok_at(toks, st.idx) {
        None => None,
        Some(t) => if t.kind is Eof || t.kind is RBrace {
            Some((body, st))
        } else {
            match p_stmt(toks, fid, st) {
                None => None,
                Some((r, s1)) => if measure(toks, s1) < measure(toks, st) {
                    p_body(toks, fid, s1, match r {
                        Ok(x) => body.push(x),
                        Err(_) => body,
                    })
                } else {
                    None
                },
            }
        },
    }
}

/// Statements up to the end of the file; a statement that failed is left out.
pub open spec fn p_program(toks: Seq<TokenV>, fid: nat, st: PSt, ast: Seq<StmtV>) -> Option<(Seq<StmtV>, PSt)>
    decreases measure(toks, st),
{
    match tok_at(toks, st.idx) {
        None => None,
        Some(t) => if t.kind is Eof {
            Some((ast, st))
        } else {
            match p_stmt(toks, fid, st) {
                None => None,
                Some((r, s1)) => if measure(toks, s1) < measure(toks, st) {
                    p_program(toks, fid, s1, match r {
                        Ok(x) => ast.push(x),
                        Err(_) => ast,
                    })
                } else {
                    None
                },
            }
        },
    }
}


proof fn lemma_push_writable(body: Seq<StmtV>, x: StmtV)
    requires
        writable_all(body),
        writable(x),
    ensures
        writable_all(body.push(x)),
{
    assert(body.push(x).drop_last() =~= body);
}

proof fn lemma_push_branch_writable(bs: Seq<(Option<ExprV>, Seq<StmtV>)>, b: (Option<ExprV>, Seq<StmtV>))
    requires
        writable_branches(bs),
        writable_all(b.1),
    ensures
        writable_branches(bs.push(b)),
{
    assert(bs.push(b).drop_last() =~= bs);
}

proof fn lemma_simple_writable(toks: Seq<TokenV>, fid: nat, st: PSt)
    ensures
        p_declare(toks, fid, st) matches Some((x, _)) ==> writable(x),
        p_assign(toks, fid, st) matches Some((x, _)) ==> writable(x),
        p_return(toks, fid, st) matches Some((x, _)) ==> writable(x),
        p_break_continue(toks, fid, st) matches Some((x, _)) ==> writable(x),
        p_use(toks, fid, st) matches Some((x, _)) ==> writable(x),
{
    match tok_at(toks, st.idx + 1) {
        Some(t) => match name_of(t) {
            Some(id) => {
                let mk = if toks[st.idx].kind == KindV::Keyword(Keyword::Mut) { MutKind::Mutable } else { MutKind::Fixed };
                let _ = p_declare_rest(toks, fid, adv(st, 2), mk, id);
            },
            None => {},
        },
        None => {},
    }
}

proof fn lemma_stmt_writable(toks: Seq<TokenV>, fid: nat, st: PSt)
    ensures
        p_stmt(toks, fid, st) matches Some((Ok(x), _)) ==> writable(x),
    decreases measure(toks, st), 39int,
{
    match (tok_at(toks, st.idx), tok_at(toks, st.idx + 1)) {
        (Some(t0), Some(t1)) => match stmt_kind(t0.kind, t1.kind) {
            StmtKind::Fn => lemma_fn_writable(toks, fid, st),
            StmtKind::IfElse => lemma_if_branches_writable(toks, fid, adv(st, 1), false, Seq::empty()),
            StmtKind::While => lemma_while_writable(toks, fid, st),
            _ => lemma_simple_writable(toks, fid, st),
        },
        _ => {},
    }
}

proof fn lemma_body_writable(toks: Seq<TokenV>, fid: nat, st: PSt, body: Seq<StmtV>)
    requires
        writable_all(body),
    ensures
        p_body(toks, fid, st, body) matches Some((b, _)) ==> writable_all(b),
    decreases measure(toks, st), 40int,
{
    match tok_at(toks, st.idx) {
        None => {},
        Some(t) => if t.kind is Eof || t.kind is RBrace {
        } else {
            match p_stmt(toks, fid, st) {
                None => {},
                Some((r, s1)) => if measure(toks, s1) < measure(toks, st) {
                    lemma_stmt_writable(toks, fid, st);
                    match r {
                        Ok(x) => {
                            lemma_push_writable(body, x);
                            lemma_body_writable(toks, fid, s1, body.push(x));
                        },
                        Err(_) => lemma_body_writable(toks, fid, s1, body),
                    }
                },
            }
        },
    }
}

proof fn lemma_while_writable(toks: Seq<TokenV>, fid: nat, st: PSt)
    ensures
        p_while(toks, fid, st) matches Some((x, _)) ==> writable(x),
    decreases measure(toks, st), 38int,
{
    match p_expr(toks, fid, adv(st, 1)) {
        None => {},
        Some((r, s1)) => match expect_lbrace(toks, fid, s1) {
            Some((true, s2)) => if measure(toks, s2) < measure(toks, st) {
                lemma_body_writable(toks, fid, s2, Seq::empty());
            },
            _ => {},
        },
    }
}

proof fn lemma_if_branch_writable(toks: Seq<TokenV>, fid: nat, st: PSt, has_else: bool, m: int)
    ensures
        p_if_branch(toks, fid, st, has_else, m) matches Some((Some(b), _)) ==> writable_all(b.1),
    decreases m, 36int,
{
    reveal(p_if_branch);
    let condr: Option<(Option<ExprV>, PSt)> = if has_else {
        Some((None, st))
    } else {
        match p_expr(toks, fid, st) {
            None => None,
            Some((r, s1)) => Some((Some(or_invalid(r)), s1)),
        }
    };
    match condr {
        None => {},
        Some((cond, s1)) => match expect_lbrace(toks, fid, s1) {
            Some((true, s2)) => if measure(toks, s2) < m {
                lemma_body_writable(toks, fid, s2, Seq::empty());
            },
            _ => {},
        },
    }
}

proof fn lemma_if_branches_writable(
    toks: Seq<TokenV>,
    fid: nat,
    st: PSt,
    has_else: bool,
    branches: Seq<(Option<ExprV>, Seq<StmtV>)>,
)
    requires
        writable_branches(branches),
    ensures
        p_if_branches(toks, fid, st, has_else, branches) matches Some((x, _)) ==> writable(x),
    decreases measure(toks, st), 37int,
{
    match tok_at(toks, st.idx) {
        None => {},
        Some(t) => if t.kind is Eof {
        } else {
            reveal(p_if_branch);
            lemma_if_branch_writable(toks, fid, st, has_else, measure(toks, st));
            match p_if_branch(toks, fid, st, has_else, measure(toks, st)) {
                Some((Some(b), s4)) => {
                    lemma_push_branch_writable(branches, b);
                    let br = branches.push(b);
                    match tok_at(toks, s4.idx) {
                        None => {},
                        Some(n) => {
                            let s5 = adv(s4, 1);
                            if n.kind == KindV::Keyword(Keyword::Elif) || n.kind == KindV::Keyword(Keyword::Else) {
                                if measure(toks, s5) < measure(toks, st) {
                                    lemma_if_branches_writable(toks, fid, s5, has_else || n.kind == KindV::Keyword(Keyword::Else), br);
                                }
                            }
                        },
                    }
                },
                _ => {},
            }
        },
    }
}

proof fn lemma_fn_tail_writable(toks: Seq<TokenV>, fid: nat, st: PSt, is_pub: bool, id: Seq<char>, m: int)
    ensures
        p_fn_tail(toks, fid, st, is_pub, id, m) matches Some((x, _)) ==> writable(x),
    decreases m, 37int,
{
    reveal(p_fn_tail);
    match p_fn_sig_args(toks, fid, st) {
        None => {},
        Some((args, s8)) => match tok_at(toks, s8.idx) {
            None => {},
            Some(t8) => {
                let retr: Option<(Option<TypeV>, PSt)> = if t8.kind is LBrace {
                    Some((None, s8))
                } else {
                    match p_type(toks, fid, s8) {
                        None => None,
                        Some((ty, s9)) => Some((Some(ty), s9)),
                    }
                };
                match retr {
                    None => {},
                    Some((ret, s9)) => match expect_lbrace(toks, fid, s9) {
                        None => {},
                        Some((_, s10)) => if measure(toks, s10) < m {
                            lemma_body_writable(toks, fid, s10, Seq::empty());
                        },
                    },
                }
            },
        },
    }
}

proof fn lemma_fn_writable(toks: Seq<TokenV>, fid: nat, st: PSt)
    ensures
        p_fn(toks, fid, st) matches Some((x, _)) ==> writable(x),
    decreases measure(toks, st), 38int,
{
    reveal(p_fn_tail);
    match tok_at(toks, st.idx) {
        None => {},
        Some(t0) => {
            let is_pub = t0.kind == KindV::Keyword(Keyword::Pub);
            let s1 = adv(st, if is_pub { 2int } else { 1int });
            match tok_at(toks, s1.idx) {
                None => {},
                Some(t) => {
                    let id = match name_of(t) {
                        Some(x) => x,
                        None => invalid_ident(),
                    };
                    let s2 = match name_of(t) {
                        Some(_) => adv(s1, 1),
                        None => emit(s1, ident_error(fid, t, "Add function identificator here"@, "func_name"@)),
                    };
                    match check_at(toks, s2, KindV::LParen) {
                        None => {},
                        Some((lp, s3)) => {
                            let s4 = if lp {
                                s3
                            } else {
                                let c = toks[s3.idx];
                                emit(s3, expected_at(fid, c, "Expected '(', found "@, c.line, c.offset, "("@, "Add '(' here"@))
                            };
                            lemma_fn_tail_writable(toks, fid, s4, is_pub, id, measure(toks, st));
                        },
                    }
                },
            }
        },
    }
}

/// Every statement the parser produces can be written back as text: it never makes
/// an `extern` declaration, at any depth.
pub proof fn law_parsed_statements_writable(toks: Seq<TokenV>, fid: nat, st: PSt, ast: Seq<StmtV>)
    requires
        writable_all(ast),
    ensures
        p_program(toks, fid, st, ast) matches Some((a, _)) ==> writable_all(a),
    decreases measure(toks, st),
{
    match tok_at(toks, st.idx) {
        None => {},
        Some(t) => if t.kind is Eof {
        } else {
            match p_stmt(toks, fid, st) {
                None => {},
                Some((r, s1)) => if measure(toks, s1) < measure(toks, st) {
                    lemma_stmt_writable(toks, fid, st);
                    match r {
                        Ok(x) => {
                            lemma_push_writable(ast, x);
                            law_parsed_statements_writable(toks, fid, s1, ast.push(x));
                        },
                        Err(_) => law_parsed_statements_writable(toks, fid, s1, ast),
                    }
                },
            }
        },
    }
}

/// The characters of the operators' texts.
proof fn reveal_operator_texts()
    ensures
        "+"@ == seq!['+'],
        "-"@ == seq!['-'],
        "*"@ == seq!['*'],
        "/"@ == seq!['/'],
        "!"@ == seq!['!'],
        ">"@ == seq!['>'],
        ">="@ == seq!['>', '='],
        "<"@ == seq!['<'],
        "<="@ == seq!['<', '='],
        "=="@ == seq!['=', '='],
        "!="@ == seq!['!', '='],
        "&&"@ == seq!['&', '&'],
        "||"@ == seq!['|', '|'],
        "="@ == seq!['='],
        "+="@ == seq!['+', '='],
        "-="@ == seq!['-', '='],
        "*="@ == seq!['*', '='],
        "/="@ == seq!['/', '='],
{
    reveal_strlit("+");
    reveal_strlit("-");
    reveal_strlit("*");
    reveal_strlit("/");
    reveal_strlit("!");
    reveal_strlit(">");
    reveal_strlit(">=");
    reveal_strlit("<");
    reveal_strlit("<=");
    reveal_strlit("==");
    reveal_strlit("!=");
    reveal_strlit("&&");
    reveal_strlit("||");
    reveal_strlit("=");
    reveal_strlit("+=");
    reveal_strlit("-=");
    reveal_strlit("*=");
    reveal_strlit("/=");
}

/// The tokens written `=`, `+=`, `-=`, `*=` and `/=`.
pub open spec fn assignment_token(k: KindV) -> bool {
    k is Assign || k is AssignPlus || k is AssignMinus || k is AssignStar || k is AssignSlash
}

/// Every operator token stands for the operator that is written as the token is: the
/// operator read at a token prints as that token; and each operator token is read as
/// an operator of its level.
pub proof fn law_operators_spell_their_tokens(k: KindV)
    ensures
        add_op(k) matches Some(op) ==> arith_text(op) == kind_text(k),
        mul_op(k) matches Some(op) ==> arith_text(op) == kind_text(k),
        comp_op(k) matches Some(op) ==> comp_text(op) == kind_text(k),
        logic_op(k) matches Some(op) ==> logic_text(op) == kind_text(k),
        assign_op_of(k) matches Some(op) ==> assign_text(op) == kind_text(k),
        (k is Plus || k is Minus) ==> add_op(k) is Some,
        (k is Star || k is Slash) ==> mul_op(k) is Some,
        (k is Gt || k is Ge || k is Lt || k is Le || k is Eq || k is Ne) ==> comp_op(k) is Some,
        (k is And || k is Or) ==> logic_op(k) is Some,
        assignment_token(k) ==> assign_op_of(k) is Some,
{
}

/// At a `+` or `-` after a left operand, the sum built joins the left operand and the
/// next product with the operator written by the token, and reading goes on after it.
pub proof fn law_additive_step(toks: Seq<TokenV>, fid: nat, st: PSt, left: ExprV, right: ExprV, s1: PSt, op: ArithOp)
    requires
        0 <= st.idx < toks.len(),
        toks[st.idx].kind is Plus || toks[st.idx].kind is Minus,
        arith_text(op) == kind_text(toks[st.idx].kind),
        p_multiplicative(toks, fid, adv(st, 1)) == Some((Ok::<ExprV, ()>(right), s1)),
        s1.idx > st.idx,
    ensures
        p_additive_loop(toks, fid, st, left) == p_additive_loop(
            toks,
            fid,
            s1,
            ExprV::Arith(Box::new(left), op, Box::new(right), tok_info(toks[st.idx])),
        ),
{
    reveal_operator_texts();
    let t = toks[st.idx];
    assert(tok_at(toks, st.idx) == Some(t));
    assert(arith_text(op).len() == kind_text(t.kind).len());
    assert(arith_text(op)[0] == kind_text(t.kind)[0]);
    assert(add_op(t.kind) == Some(op));
}

/// At a `*` or `/` after a left operand, the product built joins the left operand and
/// the next unary expression with the operator written by the token.
pub proof fn law_multiplicative_step(toks: Seq<TokenV>, fid: nat, st: PSt, left: ExprV, right: ExprV, s1: PSt, op: ArithOp)
    requires
        0 <= st.idx < toks.len(),
        toks[st.idx].kind is Star || toks[st.idx].kind is Slash,
        arith_text(op) == kind_text(toks[st.idx].kind),
        p_unary(toks, fid, adv(st, 1)) == Some((Ok::<ExprV, ()>(right), s1)),
        s1.idx > st.idx,
    ensures
        p_multiplicative_loop(toks, fid, st, left) == p_multiplicative_loop(
            toks,
            fid,
            s1,
            ExprV::Arith(Box::new(left), op, Box::new(right), tok_info(toks[st.idx])),
        ),
{
    reveal_operator_texts();
    let t = toks[st.idx];
    assert(tok_at(toks, st.idx) == Some(t));
    assert(arith_text(op).len() == kind_text(t.kind).len());
    assert(arith_text(op)[0] == kind_text(t.kind)[0]);
    assert(mul_op(t.kind) == Some(op));
}

/// The comparison read at a comparison token is the one written as the token.
proof fn lemma_comparison_of_text(k: KindV, op: CompOp)
    requires
        comp_op(k) is Some,
        comp_text(op) == kind_text(k),
    ensures
        comp_op(k) == Some(op),
{
    reveal_operator_texts();
    assert(comp_text(op).len() == kind_text(k).len());
    assert(comp_text(op)[0] == kind_text(k)[0]);
    if kind_text(k).len() > 1 {
        assert(comp_text(op)[1] == kind_text(k)[1]);
    }
    match op {
        CompOp::Gt => assert(comp_text(op) == seq!['>'] && comp_text(op)[0] == '>' && comp_text(op).len() == 1),
        CompOp::Ge => assert(comp_text(op) == seq!['>', '='] && comp_text(op)[0] == '>' && comp_text(op).len() == 2),
        CompOp::Lt => assert(comp_text(op) == seq!['<'] && comp_text(op)[0] == '<' && comp_text(op).len() == 1),
        CompOp::Le => assert(comp_text(op) == seq!['<', '='] && comp_text(op)[0] == '<' && comp_text(op).len() == 2),
        CompOp::Eq => assert(comp_text(op) == seq!['=', '='] && comp_text(op)[0] == '=' && comp_text(op).len() == 2),
        CompOp::Ne => assert(comp_text(op) == seq!['!', '='] && comp_text(op)[0] == '!' && comp_text(op).len() == 2),
    }
    match k {
        KindV::Gt => assert(op == CompOp::Gt),
        KindV::Ge => assert(op == CompOp::Ge),
        KindV::Lt => assert(op == CompOp::Lt),
        KindV::Le => assert(op == CompOp::Le),
        KindV::Eq => assert(op == CompOp::Eq),
        KindV::Ne => assert(op == CompOp::Ne),
        _ => {},
    }
}

/// At a comparison token after a left operand, the comparison built uses the operator
/// written by the token.
pub proof fn law_comparison_step(toks: Seq<TokenV>, fid: nat, st: PSt, left: ExprV, right: ExprV, s1: PSt, op: CompOp)
    requires
        0 <= st.idx < toks.len(),
        comp_op(toks[st.idx].kind) is Some,
        comp_text(op) == kind_text(toks[st.idx].kind),
        p_additive(toks, fid, adv(st, 1)) == Some((Ok::<ExprV, ()>(right), s1)),
        s1.idx > st.idx,
    ensures
        p_comparison_loop(toks, fid, st, left) == p_comparison_loop(
            toks,
            fid,
            s1,
            ExprV::Comp(Box::new(left), op, Box::new(right), tok_info(toks[st.idx])),
        ),
{
    lemma_comparison_of_text(toks[st.idx].kind, op);
    assert(tok_at(toks, st.idx) == Some(toks[st.idx]));
}

/// At `&&` or `||` after a left operand, the expression built uses the operator written
/// by the token.
pub proof fn law_logical_step(toks: Seq<TokenV>, fid: nat, st: PSt, left: ExprV, right: ExprV, s1: PSt, op: LogicOp)
    requires
        0 <= st.idx < toks.len(),
        toks[st.idx].kind is And || toks[st.idx].kind is Or,
        logic_text(op) == kind_text(toks[st.idx].kind),
        p_comparison(toks, fid, adv(st, 1)) == Some((Ok::<ExprV, ()>(right), s1)),
        s1.idx > st.idx,
    ensures
        p_logical_loop(toks, fid, st, left) == p_logical_loop(
            toks,
            fid,
            s1,
            ExprV::Logic(Box::new(left), op, Box::new(right), tok_info(toks[st.idx])),
        ),
{
    reveal_operator_texts();
}

/// A leading `!` or `-` is read as the unary operator written by the token, applied to
/// the primary expression after it.
pub proof fn law_unary_step(toks: Seq<TokenV>, fid: nat, st: PSt, op: UnaryOp)
    requires
        0 <= st.idx < toks.len(),
        toks[st.idx].kind is Bang || toks[st.idx].kind is Minus,
        unary_text(op) == kind_text(toks[st.idx].kind),
    ensures
        p_unary(toks, fid, st) == match p_primary(toks, fid, adv(st, 1)) {
            Some((Ok(e), s1)) => Some((Ok(ExprV::Unary(op, Box::new(e), tok_info(toks[st.idx]))), s1)),
            other => other,
        },
{
    reveal_operator_texts();
    let t = toks[st.idx];
    assert(tok_at(toks, st.idx) == Some(t));
    assert(unary_text(op).len() == kind_text(t.kind).len());
    assert(unary_text(op)[0] == kind_text(t.kind)[0]);
    if t.kind is Bang {
        assert(op == UnaryOp::Not);
    } else {
        assert(op == UnaryOp::Neg);
    }
}

/// An assignment whose name is read and which has an assignment token after the name
/// uses the operator written by that token.
pub proof fn law_assignment_spells_its_operator(toks: Seq<TokenV>, fid: nat, st: PSt)
    ensures
        p_assign(toks, fid, st) matches Some((StmtV::Assign(d, id, op, e), _)) ==> ({
            let p = st.idx + (if d { 1int } else { 0int }) + 1;
            (0 < p < toks.len() && name_of(toks[p - 1]) is Some && assignment_token(toks[p].kind)) ==> assign_text(op)
                == kind_text(toks[p].kind)
        }),
{
    reveal_operator_texts();
}

/// A declaration read at `fix` or `mut` is fixed or mutable as that keyword says: it
/// prints with the keyword it was read from.
pub proof fn law_declaration_keeps_its_keyword(toks: Seq<TokenV>, fid: nat, st: PSt)
    ensures
        p_declare(toks, fid, st) matches Some((StmtV::Declare(mk, _, _, _), _)) ==> (0 <= st.idx < toks.len() && (
        toks[st.idx].kind == KindV::Keyword(Keyword::Mut) || toks[st.idx].kind == KindV::Keyword(Keyword::Fix)) ==> mut_text(mk)
            == kind_text(toks[st.idx].kind)),
{
    reveal_strlit("mut");
    reveal_strlit("fix");
}

} // verus!
