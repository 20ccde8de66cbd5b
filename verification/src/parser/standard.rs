//! The standard parser: a recursive-descent parser that reports what it expected
//! and goes on after an error. Each step is proved to do what the grammar in
//! `parser::grammar` says of it.
use crate::lexer::token::{kind_tag, tokens_view, Keyword, KindV, Token, TokenKind, TokenV};
use crate::parser::expr::{exprs_v, lemma_exprs_v_push, path_v, ArithOp, CompOp, Expr, ExprV, LogicOp, UnaryOp};
use crate::parser::ast::{branches_v, opt_expr_v, lemma_branches_v_push, lemma_stmts_v_push, paths_v, stmts_v, AssignOp, MutKind, Stmt, StmtV};
use crate::parser::grammar::{
    assign_op_of as grammar_assign_op_of, check_at, close_paren, comp_op, expect_lbrace, expect_rbrace,
    expect_semicolon, expected_at_len, measure, p_additive, p_additive_loop, p_assign,
    p_break_continue, p_call_args, p_comparison, p_comparison_loop, p_declare, p_declare_rest, p_expr, p_logical,
    p_logical_loop, p_multiplicative, p_multiplicative_loop, p_path_tail, p_primary, p_return,
    p_type, p_unary, p_use, p_use_path, p_value, skip_statement, skip_until, tok_info,
    unexpected_error, adv, invalid_ident, p_body, p_fn, p_fn_args, p_fn_sig_args, p_fn_tail, p_if_branch, p_if_branches, p_if_else,
    p_program, p_stmt, p_while, stmt_kind, PSt, StmtKind,
};
use crate::parser::types::{args_v, Type, TypeV};
use crate::parser::Info;
use crate::report::{new_error_with_help, new_plain_error, DiagV, Diagnostic, Help, Phase, Span};
use crate::session::source::FileId;
use crate::session::Session;
use crate::text::{append_chars, chars_of, chars_of_string, string_of};
use vstd::prelude::*;

verus! {

/// The view of an expression parse result.
pub open spec fn res_v(r: Result<Expr, ()>) -> Result<ExprV, ()> {
    match r {
        Ok(e) => Ok(e@),
        Err(_) => Err(()),
    }
}

/// The comparison a token stands for.
#[verifier::spinoff_prover]
fn comp_op_of(k: &TokenKind) -> (r: Option<CompOp>)
    ensures
        r == comp_op(k@),
{
    match k {
        TokenKind::Gt => Some(CompOp::Gt),
        TokenKind::Ge => Some(CompOp::Ge),
        TokenKind::Lt => Some(CompOp::Lt),
        TokenKind::Le => Some(CompOp::Le),
        TokenKind::Eq => Some(CompOp::Eq),
        TokenKind::Ne => Some(CompOp::Ne),
        _ => None,
    }
}

/// The position of token `t` as an `Info`.
#[verifier::spinoff_prover]
fn info_of(t: &Token) -> (i: Info)
    ensures
        i == tok_info(t@),
{
    Info { line: t.line, offset: t.offset, len: t.len }
}

/// The diagnostic `expected_at_len` describes.
#[verifier::spinoff_prover]
fn expected_diag(
    fid: FileId,
    t: &Token,
    msg: &str,
    hline: usize,
    hoffset: usize,
    hlen: usize,
    fixed: &str,
    hmsg: &str,
) -> (d: Diagnostic)
    ensures
        d@ == expected_at_len(fid as nat, t@, msg@, hline as nat, hoffset as nat, hlen as nat, fixed@, hmsg@),
{
    let mut m = chars_of(msg);
    let tt = t.text();
    append_chars(&mut m, &tt);
    let h = Help::new(String::from_str(hmsg), Span::new(fid, hline, hoffset, hlen), String::from_str(fixed));
    new_error_with_help(string_of(&m), Span::new(fid, t.line, t.offset, t.len), Phase::Parsing, h)
}

/// "Unexpected token" at `t`.
#[verifier::spinoff_prover]
fn unexpected_diag(fid: FileId, t: &Token) -> (d: Diagnostic)
    ensures
        d@ == unexpected_error(fid as nat, t@),
{
    let mut m = chars_of("Unexpected token ");
    let tt = t.text();
    append_chars(&mut m, &tt);
    new_plain_error(string_of(&m), Span::new(fid, t.line, t.offset, t.len), Phase::Parsing)
}

/// Parser of a token sequence of one source file.
pub struct StdParser {
    tokens: Vec<Token>,
    index: usize,
    file_id: FileId,
}

impl StdParser {
    /// The tokens being parsed.
    pub closed spec fn toks(&self) -> Seq<TokenV> {
        tokens_view(self.tokens@)
    }

    /// The file the tokens come from.
    pub closed spec fn fid(&self) -> nat {
        self.file_id as nat
    }

    /// The grammar's state of this parser, with `diags` as the diagnostics so far.
    pub closed spec fn st(&self, diags: Seq<DiagV>) -> PSt {
        PSt { idx: self.index as int, diags }
    }

    /// What every parsing step keeps: the tokens, the file, and the session but for
    /// its diagnostics.
    pub open spec fn kept(p0: StdParser, p1: StdParser, s0: Session, s1: Session) -> bool {
        &&& p1.toks() == p0.toks()
        &&& p1.fid() == p0.fid()
        &&& s1.wf()
        &&& s1.spec_sources() == s0.spec_sources()
        &&& s1.mangle_count() == s0.mangle_count()
        &&& s1.spec_reporter() == s0.spec_reporter()
        &&& s1.spec_modules() == s0.spec_modules()
    }

    /// A position inside the tokens has a successor that fits in `usize`.
    proof fn lemma_len(&self)
        ensures
            self.tokens@.len() <= usize::MAX,
            self.toks().len() == self.tokens@.len(),
    {
        assert(self.tokens.len() == self.tokens@.len());
    }

    /// Consumes the next token when it has the variant of `k`.
    #[verifier::spinoff_prover]
    fn check(&mut self, k: TokenKind, Ghost(d): Ghost<Seq<DiagV>>) -> (found: bool)
        requires
            check_at(old(self).toks(), old(self).st(d), k@) is Some,
        ensures
            check_at(old(self).toks(), old(self).st(d), k@) == Some((found, final(self).st(d))),
            final(self).toks() == old(self).toks(),
            final(self).fid() == old(self).fid(),
    {
        let i = self.index;
        proof {
            self.lemma_len();
        }
        if self.tokens[i].kind.same_kind(&k) {
            self.index = i + 1;
            true
        } else {
            false
        }
    }

    /// The `::name` segments after a name.
    #[verifier::spinoff_prover]
    fn path_tail(&mut self, path: &mut Vec<String>, Ghost(d): Ghost<Seq<DiagV>>)
        requires
            p_path_tail(old(self).toks(), old(self).st(d), path_v(old(path)@)) is Some,
        ensures
            p_path_tail(old(self).toks(), old(self).st(d), path_v(old(path)@)) == Some(
                (path_v(final(path)@), final(self).st(d)),
            ),
            final(self).toks() == old(self).toks(),
            final(self).fid() == old(self).fid(),
    {
        let ghost toks = self.toks();
        let ghost target = p_path_tail(toks, self.st(d), path_v(path@));
        loop
            invariant
                self.toks() == toks,
                self.fid() == old(self).fid(),
                target == p_path_tail(toks, self.st(d), path_v(path@)),
                target is Some,
            ensures
                self.toks() == toks,
                self.fid() == old(self).fid(),
                target == Some((path_v(path@), self.st(d))),
            decreases measure(toks, self.st(d)),
        {
            let i = self.index;
            proof {
                self.lemma_len();
            }
            match self.tokens[i].kind {
                TokenKind::Path => {},
                _ => break,
            }
            self.index = i + 1;
            match &self.tokens[i + 1].kind {
                TokenKind::Id(x) => {
                    let x = x.clone();
                    let ghost p0 = path@;
                    path.push(x);
                    assert(path_v(path@) =~= path_v(p0).push(x@));
                    self.index = i + 2;
                },
                _ => {},
            }
        }
    }

    /// The `)` that closes a call or a parenthesised expression.
    #[verifier::spinoff_prover]
    fn close_paren(&mut self, session: &mut Session)
        requires
            old(session).wf(),
            close_paren(old(self).toks(), old(self).fid(), old(self).st(old(session).diags())) is Some,
        ensures
            Self::kept(*old(self), *final(self), *old(session), *final(session)),
            close_paren(old(self).toks(), old(self).fid(), old(self).st(old(session).diags())) == Some(
                final(self).st(final(session).diags()),
            ),
    {
        let ghost d = session.diags();
        if !self.check(TokenKind::RParen, Ghost(d)) {
            let rp = &self.tokens[self.index - 1];
            let dg = expected_diag(self.file_id, rp, "Expected ')', found ", rp.line, rp.offset + rp.len, 0, ")", "Add ')' here");
            session.emit_error(dg);
        }
    }

    /// The arguments of a call, up to the closing parenthesis.
    #[verifier::spinoff_prover]
    pub fn parse_args(&mut self, session: &mut Session) -> (args: Vec<Expr>)
        requires
            old(session).wf(),
            p_call_args(old(self).toks(), old(self).fid(), old(self).st(old(session).diags()), Seq::empty()) is Some,
        ensures
            Self::kept(*old(self), *final(self), *old(session), *final(session)),
            p_call_args(old(self).toks(), old(self).fid(), old(self).st(old(session).diags()), Seq::empty()) == Some(
                (exprs_v(args@), final(self).st(final(session).diags())),
            ),
        decreases measure(old(self).toks(), old(self).st(old(session).diags())), 21int,
    {
        let ghost toks = self.toks();
        let ghost fid = self.fid();
        let ghost st0 = self.st(session.diags());
        let ghost target = p_call_args(toks, fid, st0, Seq::empty());
        let mut args: Vec<Expr> = Vec::new();
        assert(exprs_v(args@) =~= Seq::<ExprV>::empty());
        loop
            invariant
                Self::kept(*old(self), *self, *old(session), *session),
                self.toks() == toks,
                self.fid() == fid,
                target == p_call_args(toks, fid, self.st(session.diags()), exprs_v(args@)),
                target == p_call_args(toks, fid, st0, Seq::empty()),
                st0 == old(self).st(old(session).diags()),
                toks == old(self).toks(),
                target is Some,
                measure(toks, self.st(session.diags())) <= measure(toks, st0),
                st0 == old(self).st(old(session).diags()),
                toks == old(self).toks(),
            ensures
                Self::kept(*old(self), *self, *old(session), *session),
                target == Some((exprs_v(args@), self.st(session.diags()))),
            decreases measure(toks, self.st(session.diags())),
        {
            let i = self.index;
            proof {
                self.lemma_len();
            }
            match self.tokens[i].kind {
                TokenKind::Eof | TokenKind::RParen => break,
                _ => {},
            }
            let r = self.expr(session);
            let e = match r {
                Ok(e) => e,
                Err(()) => Expr::Invalid,
            };
            self.check(TokenKind::Comma, Ghost(session.diags()));
            proof {
                lemma_exprs_v_push(args@, e);
            }
            args.push(e);
        }
        args
    }

    /// A literal, a name (maybe called) or a parenthesised expression.
    #[verifier::spinoff_prover]
    fn primary(&mut self, session: &mut Session) -> (r: Result<Expr, ()>)
        requires
            old(session).wf(),
            p_primary(old(self).toks(), old(self).fid(), old(self).st(old(session).diags())) is Some,
        ensures
            Self::kept(*old(self), *final(self), *old(session), *final(session)),
            p_primary(old(self).toks(), old(self).fid(), old(self).st(old(session).diags())) == Some(
                (res_v(r), final(self).st(final(session).diags())),
            ),
        decreases measure(old(self).toks(), old(self).st(old(session).diags())), 10int,
    {
        let ghost d = session.diags();
        let i = self.index;
        proof {
            self.lemma_len();
        }
        let t = &self.tokens[i];
        let info = info_of(t);
        match &t.kind {
            TokenKind::Int(n) => {
                let n = *n;
                self.index = i + 1;
                Ok(Expr::Int(n, info))
            },
            TokenKind::Float(x) => {
                let x = x.clone();
                self.index = i + 1;
                Ok(Expr::Float(x, info))
            },
            TokenKind::Bool(b) => {
                let b = *b;
                self.index = i + 1;
                Ok(Expr::Bool(b, info))
            },
            TokenKind::Str(x) => {
                let x = x.clone();
                self.index = i + 1;
                Ok(Expr::Str(x, info))
            },
            TokenKind::Id(x) => {
                let x = x.clone();
                let start = t.pos;
                self.index = i + 1;
                let mut path: Vec<String> = Vec::new();
                path.push(x);
                assert(path_v(path@) =~= seq![x@]);
                self.path_tail(&mut path, Ghost(d));
                let end = self.tokens[self.index].pos;
                let info = Info { line: info.line, offset: info.offset, len: end - start };
                if self.check(TokenKind::LParen, Ghost(d)) {
                    let args = self.parse_args(session);
                    self.close_paren(session);
                    assert(Expr::Id(path, info)@ == ExprV::Id(path_v(path@), info));
                    Ok(Expr::Call(Box::new(Expr::Id(path, info)), args, info))
                } else {
                    Ok(Expr::Id(path, info))
                }
            },
            TokenKind::LParen => {
                self.index = i + 1;
                match self.expr(session) {
                    Ok(e) => {
                        self.close_paren(session);
                        Ok(e)
                    },
                    Err(()) => Err(()),
                }
            },
            _ => {
                let dg = unexpected_diag(self.file_id, t);
                session.emit_error(dg);
                self.index = i + 1;
                Err(())
            },
        }
    }

    /// `!` or `-` applied to a primary expression, or a primary expression.
    #[verifier::spinoff_prover]
    fn unary(&mut self, session: &mut Session) -> (r: Result<Expr, ()>)
        requires
            old(session).wf(),
            p_unary(old(self).toks(), old(self).fid(), old(self).st(old(session).diags())) is Some,
        ensures
            Self::kept(*old(self), *final(self), *old(session), *final(session)),
            p_unary(old(self).toks(), old(self).fid(), old(self).st(old(session).diags())) == Some(
                (res_v(r), final(self).st(final(session).diags())),
            ),
        decreases measure(old(self).toks(), old(self).st(old(session).diags())), 11int,
    {
        let i = self.index;
        proof {
            self.lemma_len();
        }
        let info = info_of(&self.tokens[i]);
        let op = match self.tokens[i].kind {
            TokenKind::Bang => UnaryOp::Not,
            TokenKind::Minus => UnaryOp::Neg,
            _ => {
                return self.primary(session);
            },
        };
        self.index = i + 1;
        match self.primary(session) {
            Ok(e) => Ok(Expr::Unary(op, Box::new(e), info)),
            Err(()) => Err(()),
        }
    }

    #[verifier::spinoff_prover]
    fn multiplicative(&mut self, session: &mut Session) -> (r: Result<Expr, ()>)
        requires
            old(session).wf(),
            p_multiplicative(old(self).toks(), old(self).fid(), old(self).st(old(session).diags())) is Some,
        ensures
            Self::kept(*old(self), *final(self), *old(session), *final(session)),
            p_multiplicative(old(self).toks(), old(self).fid(), old(self).st(old(session).diags())) == Some(
                (res_v(r), final(self).st(final(session).diags())),
            ),
        decreases measure(old(self).toks(), old(self).st(old(session).diags())), 13int,
    {
        let ghost toks = self.toks();
        let ghost fid = self.fid();
        let ghost st0 = self.st(session.diags());
        let ghost target = p_multiplicative(toks, fid, st0);
        let mut left = match self.unary(session) {
            Ok(e) => e,
            Err(()) => return Err(()),
        };
        loop
            invariant
                Self::kept(*old(self), *self, *old(session), *session),
                self.toks() == toks,
                self.fid() == fid,
                target == p_multiplicative_loop(toks, fid, self.st(session.diags()), left@),
                target == p_multiplicative(toks, fid, st0),
                target is Some,
                measure(toks, self.st(session.diags())) <= measure(toks, st0),
                st0 == old(self).st(old(session).diags()),
                toks == old(self).toks(),
            ensures
                Self::kept(*old(self), *self, *old(session), *session),
                target == Some((Ok::<ExprV, ()>(left@), self.st(session.diags()))),
            decreases measure(toks, self.st(session.diags())),
        {
            let i = self.index;
            proof {
                self.lemma_len();
            }
            let op = match self.tokens[i].kind {
                TokenKind::Star => ArithOp::Mul,
                TokenKind::Slash => ArithOp::Div,
                _ => break,
            };
            let info = info_of(&self.tokens[i]);
            self.index = i + 1;
            match self.unary(session) {
                Ok(right) => {
                    left = Expr::Arith(Box::new(left), op, Box::new(right), info);
                },
                Err(()) => return Err(()),
            }
        }
        Ok(left)
    }

    #[verifier::spinoff_prover]
    fn additive(&mut self, session: &mut Session) -> (r: Result<Expr, ()>)
        requires
            old(session).wf(),
            p_additive(old(self).toks(), old(self).fid(), old(self).st(old(session).diags())) is Some,
        ensures
            Self::kept(*old(self), *final(self), *old(session), *final(session)),
            p_additive(old(self).toks(), old(self).fid(), old(self).st(old(session).diags())) == Some(
                (res_v(r), final(self).st(final(session).diags())),
            ),
        decreases measure(old(self).toks(), old(self).st(old(session).diags())), 15int,
    {
        let ghost toks = self.toks();
        let ghost fid = self.fid();
        let ghost st0 = self.st(session.diags());
        let ghost target = p_additive(toks, fid, st0);
        let mut left = match self.multiplicative(session) {
            Ok(e) => e,
            Err(()) => return Err(()),
        };
        loop
            invariant
                Self::kept(*old(self), *self, *old(session), *session),
                self.toks() == toks,
                self.fid() == fid,
                target == p_additive_loop(toks, fid, self.st(session.diags()), left@),
                target == p_additive(toks, fid, st0),
                target is Some,
                measure(toks, self.st(session.diags())) <= measure(toks, st0),
                st0 == old(self).st(old(session).diags()),
                toks == old(self).toks(),
            ensures
                Self::kept(*old(self), *self, *old(session), *session),
                target == Some((Ok::<ExprV, ()>(left@), self.st(session.diags()))),
            decreases measure(toks, self.st(session.diags())),
        {
            let i = self.index;
            proof {
                self.lemma_len();
            }
            let op = match self.tokens[i].kind {
                TokenKind::Plus => ArithOp::Add,
                TokenKind::Minus => ArithOp::Sub,
                _ => break,
            };
            let info = info_of(&self.tokens[i]);
            self.index = i + 1;
            match self.multiplicative(session) {
                Ok(right) => {
                    left = Expr::Arith(Box::new(left), op, Box::new(right), info);
                },
                Err(()) => return Err(()),
            }
        }
        Ok(left)
    }

    #[verifier::spinoff_prover]
    fn comparison(&mut self, session: &mut Session) -> (r: Result<Expr, ()>)
        requires
            old(session).wf(),
            p_comparison(old(self).toks(), old(self).fid(), old(self).st(old(session).diags())) is Some,
        ensures
            Self::kept(*old(self), *final(self), *old(session), *final(session)),
            p_comparison(old(self).toks(), old(self).fid(), old(self).st(old(session).diags())) == Some(
                (res_v(r), final(self).st(final(session).diags())),
            ),
        decreases measure(old(self).toks(), old(self).st(old(session).diags())), 17int,
    {
        let ghost toks = self.toks();
        let ghost fid = self.fid();
        let ghost st0 = self.st(session.diags());
        let ghost target = p_comparison(toks, fid, st0);
        let mut left = match self.additive(session) {
            Ok(e) => e,
            Err(()) => return Err(()),
        };
        loop
            invariant
                Self::kept(*old(self), *self, *old(session), *session),
                self.toks() == toks,
                self.fid() == fid,
                target == p_comparison_loop(toks, fid, self.st(session.diags()), left@),
                target == p_comparison(toks, fid, st0),
                target is Some,
                measure(toks, self.st(session.diags())) <= measure(toks, st0),
                st0 == old(self).st(old(session).diags()),
                toks == old(self).toks(),
            ensures
                Self::kept(*old(self), *self, *old(session), *session),
                target == Some((Ok::<ExprV, ()>(left@), self.st(session.diags()))),
            decreases measure(toks, self.st(session.diags())),
        {
            let i = self.index;
            proof {
                self.lemma_len();
            }
            let op = match comp_op_of(&self.tokens[i].kind) {
                Some(op) => op,
                None => break,
            };
            let info = info_of(&self.tokens[i]);
            self.index = i + 1;
            match self.additive(session) {
                Ok(right) => {
                    left = Expr::Comp(Box::new(left), op, Box::new(right), info);
                },
                Err(()) => return Err(()),
            }
        }
        Ok(left)
    }

    #[verifier::spinoff_prover]
    #[verifier::rlimit(30)]
    fn logical(&mut self, session: &mut Session) -> (r: Result<Expr, ()>)
        requires
            old(session).wf(),
            p_logical(old(self).toks(), old(self).fid(), old(self).st(old(session).diags())) is Some,
        ensures
            Self::kept(*old(self), *final(self), *old(session), *final(session)),
            p_logical(old(self).toks(), old(self).fid(), old(self).st(old(session).diags())) == Some(
                (res_v(r), final(self).st(final(session).diags())),
            ),
        decreases measure(old(self).toks(), old(self).st(old(session).diags())), 19int,
    {
        let ghost toks = self.toks();
        let ghost fid = self.fid();
        let ghost st0 = self.st(session.diags());
        let ghost target = p_logical(toks, fid, st0);
        let mut left = match self.comparison(session) {
            Ok(e) => e,
            Err(()) => return Err(()),
        };
        loop
            invariant
                Self::kept(*old(self), *self, *old(session), *session),
                self.toks() == toks,
                self.fid() == fid,
                target == p_logical_loop(toks, fid, self.st(session.diags()), left@),
                target == p_logical(toks, fid, st0),
                target is Some,
                measure(toks, self.st(session.diags())) <= measure(toks, st0),
                st0 == old(self).st(old(session).diags()),
                toks == old(self).toks(),
            ensures
                Self::kept(*old(self), *self, *old(session), *session),
                target == Some((Ok::<ExprV, ()>(left@), self.st(session.diags()))),
            decreases measure(toks, self.st(session.diags())),
        {
            let i = self.index;
            proof {
                self.lemma_len();
            }
            let op = match self.tokens[i].kind {
                TokenKind::And => LogicOp::And,
                TokenKind::Or => LogicOp::Or,
                _ => break,
            };
            let info = info_of(&self.tokens[i]);
            self.index = i + 1;
            match self.comparison(session) {
                Ok(right) => {
                    left = Expr::Logic(Box::new(left), op, Box::new(right), info);
                },
                Err(()) => return Err(()),
            }
        }
        Ok(left)
    }

    /// An expression: `Err` after an unexpected token, which has been reported.
    #[verifier::spinoff_prover]
    pub fn expr(&mut self, session: &mut Session) -> (r: Result<Expr, ()>)
        requires
            old(session).wf(),
            p_expr(old(self).toks(), old(self).fid(), old(self).st(old(session).diags())) is Some,
        ensures
            Self::kept(*old(self), *final(self), *old(session), *final(session)),
            p_expr(old(self).toks(), old(self).fid(), old(self).st(old(session).diags())) == Some(
                (res_v(r), final(self).st(final(session).diags())),
            ),
        decreases measure(old(self).toks(), old(self).st(old(session).diags())), 20int,
    {
        self.logical(session)
    }

    /// A type: a name, `[type]` or `&type`; anything else is an unknown type and is not consumed.
    #[verifier::spinoff_prover]
    pub fn parse_type(&mut self, session: &mut Session) -> (ty: Type)
        requires
            old(session).wf(),
            p_type(old(self).toks(), old(self).fid(), old(self).st(old(session).diags())) is Some,
        ensures
            Self::kept(*old(self), *final(self), *old(session), *final(session)),
            p_type(old(self).toks(), old(self).fid(), old(self).st(old(session).diags())) == Some(
                (ty@, final(self).st(final(session).diags())),
            ),
        decreases measure(old(self).toks(), old(self).st(old(session).diags())), 36int,
    {
        let i = self.index;
        proof {
            self.lemma_len();
        }
        let info = info_of(&self.tokens[i]);
        match &self.tokens[i].kind {
            TokenKind::Id(x) => {
                let x = x.clone();
                self.index = i + 1;
                Type::from_str(&x, info)
            },
            TokenKind::LBracket => {
                self.index = i + 1;
                let ty = self.parse_type(session);
                if !self.check(TokenKind::RBracket, Ghost(session.diags())) {
                    let cur = &self.tokens[self.index];
                    let dg = expected_diag(self.file_id, cur, "Expected ']', found ", cur.line, cur.offset, 0, "]", "Add ']' here");
                    session.emit_error(dg);
                }
                let tyi = ty.info();
                Type::Array(Box::new(ty), Info { line: tyi.line, offset: tyi.offset - 1, len: tyi.len + 2 })
            },
            TokenKind::Ampersand => {
                self.index = i + 1;
                let ty = self.parse_type(session);
                let tyi = ty.info();
                Type::Ptr(Box::new(ty), Info { line: tyi.line, offset: tyi.offset - 1, len: tyi.len + 1 })
            },
            _ => Type::Unknown,
        }
    }

    /// Skips tokens up to one of the variant of `a` or `b`, or the end of the file.
    #[verifier::spinoff_prover]
    fn skip_until(&mut self, a: TokenKind, b: TokenKind, Ghost(d): Ghost<Seq<DiagV>>)
        requires
            skip_until(old(self).toks(), old(self).st(d), a@, b@) is Some,
        ensures
            skip_until(old(self).toks(), old(self).st(d), a@, b@) == Some(final(self).st(d)),
            final(self).toks() == old(self).toks(),
            final(self).fid() == old(self).fid(),
            final(self).index < final(self).tokens@.len(),
    {
        let ghost toks = self.toks();
        let ghost target = skip_until(toks, self.st(d), a@, b@);
        loop
            invariant
                self.toks() == toks,
                self.fid() == old(self).fid(),
                target == skip_until(toks, self.st(d), a@, b@),
                target is Some,
            ensures
                self.toks() == toks,
                self.fid() == old(self).fid(),
                target == Some(self.st(d)),
                self.index < self.tokens@.len(),
            decreases measure(toks, self.st(d)),
        {
            let i = self.index;
            proof {
                self.lemma_len();
            }
            let k = &self.tokens[i].kind;
            match k {
                TokenKind::Eof => break,
                _ => {},
            }
            if k.same_kind(&a) || k.same_kind(&b) {
                break;
            }
            self.index = i + 1;
        }
    }

    /// Skips to the next `;` and past it.
    #[verifier::spinoff_prover]
    fn skip_statement(&mut self, Ghost(d): Ghost<Seq<DiagV>>)
        requires
            skip_statement(old(self).toks(), old(self).st(d)) is Some,
        ensures
            skip_statement(old(self).toks(), old(self).st(d)) == Some(final(self).st(d)),
            final(self).toks() == old(self).toks(),
            final(self).fid() == old(self).fid(),
    {
        self.skip_until(TokenKind::Semicolon, TokenKind::Semicolon, Ghost(d));
        proof {
            self.lemma_len();
        }
        self.index = self.index + 1;
    }

    /// The `;` that ends a statement.
    #[verifier::spinoff_prover]
    fn expect_semicolon(&mut self, session: &mut Session)
        requires
            old(session).wf(),
            expect_semicolon(old(self).toks(), old(self).fid(), old(self).st(old(session).diags())) is Some,
        ensures
            Self::kept(*old(self), *final(self), *old(session), *final(session)),
            expect_semicolon(old(self).toks(), old(self).fid(), old(self).st(old(session).diags())) == Some(
                final(self).st(final(session).diags()),
            ),
    {
        let ghost d = session.diags();
        if !self.check(TokenKind::Semicolon, Ghost(d)) {
            let cur = &self.tokens[self.index];
            let prev = &self.tokens[self.index - 1];
            let dg = expected_diag(self.file_id, cur, "Expected ';', found ", prev.line, prev.offset + prev.len, 0, ";", "Add ';' here");
            session.emit_error(dg);
        }
    }

    /// The `{` that opens a body; whether it was there.
    #[verifier::spinoff_prover]
    fn expect_lbrace(&mut self, session: &mut Session) -> (found: bool)
        requires
            old(session).wf(),
            expect_lbrace(old(self).toks(), old(self).fid(), old(self).st(old(session).diags())) is Some,
        ensures
            Self::kept(*old(self), *final(self), *old(session), *final(session)),
            expect_lbrace(old(self).toks(), old(self).fid(), old(self).st(old(session).diags())) == Some(
                (found, final(self).st(final(session).diags())),
            ),
    {
        let ghost d = session.diags();
        if !self.check(TokenKind::LBrace, Ghost(d)) {
            let cur = &self.tokens[self.index];
            let dg = expected_diag(self.file_id, cur, "Expected '{', found ", cur.line, cur.offset, 0, "{", "Add '{' here");
            session.emit_error(dg);
            false
        } else {
            true
        }
    }

    /// The `}` that closes a body.
    #[verifier::spinoff_prover]
    fn expect_rbrace(&mut self, session: &mut Session)
        requires
            old(session).wf(),
            expect_rbrace(old(self).toks(), old(self).fid(), old(self).st(old(session).diags())) is Some,
        ensures
            Self::kept(*old(self), *final(self), *old(session), *final(session)),
            expect_rbrace(old(self).toks(), old(self).fid(), old(self).st(old(session).diags())) == Some(
                final(self).st(final(session).diags()),
            ),
    {
        let ghost d = session.diags();
        if !self.check(TokenKind::RBrace, Ghost(d)) {
            let cur = &self.tokens[self.index];
            let dg = expected_diag(self.file_id, cur, "Expected '}', found ", cur.line, cur.offset, 0, "}}", "Add '}' here");
            session.emit_error(dg);
        }
    }

    /// A `use` path: names separated by `::`.
    #[verifier::spinoff_prover]
    fn parse_path(&mut self, Ghost(d): Ghost<Seq<DiagV>>) -> (path: Vec<String>)
        requires
            p_use_path(old(self).toks(), old(self).st(d), Seq::empty()) is Some,
        ensures
            p_use_path(old(self).toks(), old(self).st(d), Seq::empty()) == Some((path_v(path@), final(self).st(d))),
            final(self).toks() == old(self).toks(),
            final(self).fid() == old(self).fid(),
    {
        let ghost toks = self.toks();
        let ghost target = p_use_path(toks, self.st(d), Seq::empty());
        let mut path: Vec<String> = Vec::new();
        assert(path_v(path@) =~= Seq::<Seq<char>>::empty());
        loop
            invariant
                self.toks() == toks,
                self.fid() == old(self).fid(),
                target == p_use_path(toks, self.st(d), path_v(path@)),
                target is Some,
            ensures
                self.toks() == toks,
                self.fid() == old(self).fid(),
                target == Some((path_v(path@), self.st(d))),
            decreases measure(toks, self.st(d)),
        {
            let i = self.index;
            proof {
                self.lemma_len();
            }
            match &self.tokens[i].kind {
                TokenKind::Id(x) => {
                    let x = x.clone();
                    let ghost p0 = path@;
                    path.push(x);
                    assert(path_v(path@) =~= path_v(p0).push(x@));
                    self.index = i + 1;
                },
                TokenKind::Path => {
                    self.index = i + 1;
                },
                _ => break,
            }
        }
        path
    }

    #[verifier::spinoff_prover]
    fn stmt_break_continue(&mut self, session: &mut Session) -> (s: Stmt)
        requires
            old(session).wf(),
            p_break_continue(old(self).toks(), old(self).fid(), old(self).st(old(session).diags())) is Some,
        ensures
            Self::kept(*old(self), *final(self), *old(session), *final(session)),
            p_break_continue(old(self).toks(), old(self).fid(), old(self).st(old(session).diags())) == Some(
                (s@, final(self).st(final(session).diags())),
            ),
    {
        let i = self.index;
        proof {
            self.lemma_len();
        }
        let stmt = match self.tokens[i].kind {
            TokenKind::Keyword(Keyword::Break) => Stmt::Break,
            _ => Stmt::Continue,
        };
        self.index = i + 1;
        self.expect_semicolon(session);
        stmt
    }

    #[verifier::spinoff_prover]
    fn stmt_use(&mut self, session: &mut Session) -> (s: Stmt)
        requires
            old(session).wf(),
            p_use(old(self).toks(), old(self).fid(), old(self).st(old(session).diags())) is Some,
        ensures
            Self::kept(*old(self), *final(self), *old(session), *final(session)),
            p_use(old(self).toks(), old(self).fid(), old(self).st(old(session).diags())) == Some(
                (s@, final(self).st(final(session).diags())),
            ),
    {
        let i = self.index;
        proof {
            self.lemma_len();
        }
        let is_pub = match self.tokens[i].kind {
            TokenKind::Keyword(Keyword::Pub) => true,
            _ => false,
        };
        self.index = if is_pub { i + 2 } else { i + 1 };
        let path = self.parse_path(Ghost(session.diags()));
        self.expect_semicolon(session);
        let ghost pv = path_v(path@);
        let mut paths: Vec<Vec<String>> = Vec::new();
        paths.push(path);
        assert(paths_v(paths@)[0] =~= pv);
        assert(paths_v(paths@) =~= seq![pv]);
        Stmt::Use(is_pub, paths)
    }

    /// The value after `=` up to and with the `;`.
    #[verifier::spinoff_prover]
    fn value(&mut self, session: &mut Session) -> (e: Expr)
        requires
            old(session).wf(),
            p_value(old(self).toks(), old(self).fid(), old(self).st(old(session).diags())) is Some,
        ensures
            Self::kept(*old(self), *final(self), *old(session), *final(session)),
            p_value(old(self).toks(), old(self).fid(), old(self).st(old(session).diags())) == Some(
                (e@, final(self).st(final(session).diags())),
            ),
    {
        let i = self.index;
        proof {
            self.lemma_len();
        }
        match self.tokens[i].kind {
            TokenKind::Semicolon => {
                let t = &self.tokens[i];
                let dg = expected_diag(self.file_id, t, "Expected expression, found ", t.line, t.offset, 0, "expression", "Add expression here");
                session.emit_error(dg);
                self.index = i + 1;
                return Expr::Invalid;
            },
            _ => {},
        }
        match self.expr(session) {
            Ok(e) => {
                self.expect_semicolon(session);
                e
            },
            Err(()) => {
                self.skip_until(TokenKind::Semicolon, TokenKind::Semicolon, Ghost(session.diags()));
                self.expect_semicolon(session);
                Expr::Invalid
            },
        }
    }

    #[verifier::spinoff_prover]
    fn stmt_assign(&mut self, session: &mut Session) -> (s: Stmt)
        requires
            old(session).wf(),
            p_assign(old(self).toks(), old(self).fid(), old(self).st(old(session).diags())) is Some,
        ensures
            Self::kept(*old(self), *final(self), *old(session), *final(session)),
            p_assign(old(self).toks(), old(self).fid(), old(self).st(old(session).diags())) == Some(
                (s@, final(self).st(final(session).diags())),
            ),
    {
        let i = self.index;
        proof {
            self.lemma_len();
        }
        let deref = match self.tokens[i].kind {
            TokenKind::Star => true,
            _ => false,
        };
        if deref {
            self.index = i + 1;
        }
        let j = self.index;
        let id = match &self.tokens[j].kind {
            TokenKind::Id(x) => x.clone(),
            _ => {
                let t = &self.tokens[j];
                let dg = expected_diag(self.file_id, t, "Expected identificator, found ", t.line, t.offset, 0, "var_ident", "Add variable identificator here");
                session.emit_error(dg);
                self.skip_statement(Ghost(session.diags()));
                return Stmt::Assign(deref, String::from_str("INVALID_IDENT"), AssignOp::Assign, Expr::Invalid);
            },
        };
        self.index = j + 1;
        let k = j + 1;
        let op = match assign_op_of(&self.tokens[k].kind) {
            Some(op) => op,
            None => {
                let a = &self.tokens[k];
                let mut m = chars_of("Expected =/+=/-=/*=//=, found ");
                let idc = chars_of_string(&id);
                append_chars(&mut m, &idc);
                let h = Help::new(
                    String::from_str("Add assign operator here"),
                    Span::new(self.file_id, a.line, a.offset, 0),
                    String::from_str("= "),
                );
                let dg = new_error_with_help(string_of(&m), Span::new(self.file_id, a.line, a.offset, a.len), Phase::Parsing, h);
                session.emit_error(dg);
                self.skip_statement(Ghost(session.diags()));
                return Stmt::Assign(deref, id, AssignOp::Assign, Expr::Invalid);
            },
        };
        self.index = k + 1;
        let e = self.value(session);
        Stmt::Assign(deref, id, op, e)
    }

    #[verifier::spinoff_prover]
    fn stmt_declare(&mut self, session: &mut Session) -> (s: Stmt)
        requires
            old(session).wf(),
            p_declare(old(self).toks(), old(self).fid(), old(self).st(old(session).diags())) is Some,
        ensures
            Self::kept(*old(self), *final(self), *old(session), *final(session)),
            p_declare(old(self).toks(), old(self).fid(), old(self).st(old(session).diags())) == Some(
                (s@, final(self).st(final(session).diags())),
            ),
    {
        let i = self.index;
        proof {
            self.lemma_len();
        }
        let mk = match self.tokens[i].kind {
            TokenKind::Keyword(Keyword::Mut) => MutKind::Mutable,
            _ => MutKind::Fixed,
        };
        self.index = i + 1;
        let j = i + 1;
        let id = match &self.tokens[j].kind {
            TokenKind::Id(x) => x.clone(),
            _ => {
                let t = &self.tokens[j];
                let dg = expected_diag(self.file_id, t, "Expected identificator, found ", t.line, t.offset, 0, "var_ident", "Add variable identificator here");
                session.emit_error(dg);
                self.skip_statement(Ghost(session.diags()));
                return Stmt::Declare(mk, String::from_str("INVALID_IDENT"), Type::Unknown, Expr::Invalid);
            },
        };
        self.index = j + 1;
        self.declare_rest(session, mk, id)
    }

    /// A declaration after its name.
    #[verifier::spinoff_prover]
    fn declare_rest(&mut self, session: &mut Session, mk: MutKind, id: String) -> (s: Stmt)
        requires
            old(session).wf(),
            p_declare_rest(old(self).toks(), old(self).fid(), old(self).st(old(session).diags()), mk, id@) is Some,
        ensures
            Self::kept(*old(self), *final(self), *old(session), *final(session)),
            p_declare_rest(old(self).toks(), old(self).fid(), old(self).st(old(session).diags()), mk, id@) == Some(
                (s@, final(self).st(final(session).diags())),
            ),
    {
        let ty = if self.check(TokenKind::Colon, Ghost(session.diags())) {
            self.parse_type(session)
        } else {
            Type::Unknown
        };
        if !self.check(TokenKind::Assign, Ghost(session.diags())) {
            let a = &self.tokens[self.index];
            let dg = expected_diag(self.file_id, a, "Expected '=', found ", a.line, a.offset, 0, "= ", "Add '=' here");
            session.emit_error(dg);
            self.skip_statement(Ghost(session.diags()));
            return Stmt::Declare(mk, id, ty, Expr::Invalid);
        }
        let e = self.value(session);
        Stmt::Declare(mk, id, ty, e)
    }

    #[verifier::spinoff_prover]
    fn stmt_return(&mut self, session: &mut Session) -> (s: Stmt)
        requires
            old(session).wf(),
            p_return(old(self).toks(), old(self).fid(), old(self).st(old(session).diags())) is Some,
        ensures
            Self::kept(*old(self), *final(self), *old(session), *final(session)),
            p_return(old(self).toks(), old(self).fid(), old(self).st(old(session).diags())) == Some(
                (s@, final(self).st(final(session).diags())),
            ),
    {
        proof {
            self.lemma_len();
            assert(self.index < self.toks().len());
        }
        self.index = self.index + 1;
        if self.check(TokenKind::Semicolon, Ghost(session.diags())) {
            return Stmt::Return(None);
        }
        let e = match self.expr(session) {
            Ok(e) => e,
            Err(()) => Expr::Invalid,
        };
        self.expect_semicolon(session);
        Stmt::Return(Some(e))
    }

    /// The arguments of a function declaration, up to the closing parenthesis.
    #[verifier::spinoff_prover]
    pub fn parse_fn_args(&mut self, session: &mut Session) -> (args: Vec<(String, Type)>)
        requires
            old(session).wf(),
            p_fn_args(old(self).toks(), old(self).fid(), old(self).st(old(session).diags()), Seq::empty()) is Some,
        ensures
            Self::kept(*old(self), *final(self), *old(session), *final(session)),
            p_fn_args(old(self).toks(), old(self).fid(), old(self).st(old(session).diags()), Seq::empty()) == Some(
                (args_v(args@), final(self).st(final(session).diags())),
            ),
    {
        let ghost toks = self.toks();
        let ghost fid = self.fid();
        let ghost target = p_fn_args(toks, fid, self.st(session.diags()), Seq::empty());
        let mut args: Vec<(String, Type)> = Vec::new();
        assert(args_v(args@) =~= Seq::<(Seq<char>, TypeV)>::empty());
        loop
            invariant_except_break
                target == p_fn_args(toks, fid, self.st(session.diags()), args_v(args@)),
            invariant
                Self::kept(*old(self), *self, *old(session), *session),
                self.toks() == toks,
                self.fid() == fid,
                target is Some,
            ensures
                Self::kept(*old(self), *self, *old(session), *session),
                target == Some((args_v(args@), self.st(session.diags()))),
            decreases measure(toks, self.st(session.diags())),
        {
            let i = self.index;
            proof {
                self.lemma_len();
            }
            match self.tokens[i].kind {
                TokenKind::Eof | TokenKind::RParen => break,
                _ => {},
            }
            let name = match &self.tokens[i].kind {
                TokenKind::Id(x) => Some(x.clone()),
                _ => None,
            };
            match name {
                None => {
                    let start = self.tokens[i].pos;
                    self.skip_until(TokenKind::RParen, TokenKind::Comma, Ghost(session.diags()));
                    let end = self.tokens[self.index].pos;
                    self.check(TokenKind::Comma, Ghost(session.diags()));
                    let t = &self.tokens[i];
                    let dg = expected_diag(
                        self.file_id,
                        t,
                        "Expected identificator, found ",
                        t.line,
                        t.offset,
                        end - start,
                        "ident: type",
                        "Use currect argument declare",
                    );
                    session.emit_error(dg);
                    let a = (String::from_str("INVALID_IDENT"), Type::Unknown);
                    let ghost a0 = args@;
                    args.push(a);
                    assert(args_v(args@) =~= args_v(a0).push((invalid_ident(), TypeV::Unknown)));
                },
                Some(id) => {
                    self.index = i + 1;
                    if !self.check(TokenKind::Colon, Ghost(session.diags())) {
                        let c = &self.tokens[self.index];
                        let dg = expected_diag(self.file_id, c, "Expected ':', found ", c.line, c.offset, 0, ": ", "Add ':' here");
                        session.emit_error(dg);
                        self.skip_until(TokenKind::RParen, TokenKind::Comma, Ghost(session.diags()));
                        if self.check(TokenKind::Comma, Ghost(session.diags())) {
                            continue;
                        } else {
                            break;
                        }
                    }
                    let j = self.index;
                    let ty = match self.tokens[j].kind {
                        TokenKind::Ampersand | TokenKind::LBracket | TokenKind::Id(_) => self.parse_type(session),
                        _ => {
                            let c = &self.tokens[j];
                            let dg = expected_diag(
                                self.file_id,
                                c,
                                "Expected type (identificator)/pointer (&)/array ([type]), found ",
                                c.line,
                                c.offset,
                                0,
                                "type",
                                "Add argument type here",
                            );
                            session.emit_error(dg);
                            Type::Unknown
                        },
                    };
                    self.check(TokenKind::Comma, Ghost(session.diags()));
                    let ghost a0 = args@;
                    let ghost idv = id@;
                    let ghost tyv = ty@;
                    args.push((id, ty));
                    assert(args_v(args@) =~= args_v(a0).push((idv, tyv)));
                },
            }
        }
        args
    }

    /// `while cond { body }`.
    #[verifier::spinoff_prover]
    fn stmt_while_loop(&mut self, session: &mut Session) -> (s: Stmt)
        requires
            old(session).wf(),
            p_while(old(self).toks(), old(self).fid(), old(self).st(old(session).diags())) is Some,
        ensures
            Self::kept(*old(self), *final(self), *old(session), *final(session)),
            p_while(old(self).toks(), old(self).fid(), old(self).st(old(session).diags())) == Some(
                (s@, final(self).st(final(session).diags())),
            ),
        decreases measure(old(self).toks(), old(self).st(old(session).diags())), 38int,
    {
        proof {
            self.lemma_len();
        }
        assert(self.index < self.toks().len());
        self.index = self.index + 1;
        let cond = match self.expr(session) {
            Ok(e) => e,
            Err(()) => Expr::Invalid,
        };
        if !self.expect_lbrace(session) {
            assert(stmts_v(Seq::<Stmt>::empty()) =~= Seq::<StmtV>::empty());
            return Stmt::While(cond, Vec::new());
        }
        let body = self.parse_body(session);
        self.expect_rbrace(session);
        Stmt::While(cond, body)
    }

    /// `if cond { .. } elif cond { .. } else { .. }`.
    #[verifier::spinoff_prover]
    #[verifier::rlimit(100)]
    fn stmt_if_else(&mut self, session: &mut Session) -> (s: Stmt)
        requires
            old(session).wf(),
            p_if_else(old(self).toks(), old(self).fid(), old(self).st(old(session).diags())) is Some,
        ensures
            Self::kept(*old(self), *final(self), *old(session), *final(session)),
            p_if_else(old(self).toks(), old(self).fid(), old(self).st(old(session).diags())) == Some(
                (s@, final(self).st(final(session).diags())),
            ),
        decreases measure(old(self).toks(), old(self).st(old(session).diags())), 38int,
    {
        let ghost toks = self.toks();
        let ghost fid = self.fid();
        let ghost st0 = self.st(session.diags());
        let ghost target = p_if_else(toks, fid, st0);
        proof {
            self.lemma_len();
        }
        assert(self.index < self.toks().len());
        self.index = self.index + 1;
        let mut has_else = false;
        let mut branches: Vec<(Option<Expr>, Vec<Stmt>)> = Vec::new();
        assert(branches_v(branches@) =~= Seq::<(Option<ExprV>, Seq<StmtV>)>::empty());
        loop
            invariant_except_break
                target == p_if_branches(toks, fid, self.st(session.diags()), has_else, branches_v(branches@)),
                measure(toks, self.st(session.diags())) <= measure(toks, adv(st0, 1)),
            invariant
                Self::kept(*old(self), *self, *old(session), *session),
                self.toks() == toks,
                self.fid() == fid,
                target == p_if_else(toks, fid, st0),
                target is Some,
                st0 == old(self).st(old(session).diags()),
                toks == old(self).toks(),
            ensures
                Self::kept(*old(self), *self, *old(session), *session),
                target == Some((StmtV::IfElse(branches_v(branches@)), self.st(session.diags()))),
            decreases measure(toks, self.st(session.diags())),
        {
            let i = self.index;
            proof {
                self.lemma_len();
            }
            match self.tokens[i].kind {
                TokenKind::Eof => break,
                _ => {},
            }
            let br = match self.if_branch(session, has_else, Ghost(measure(toks, self.st(session.diags())))) {
                None => break,
                Some(b) => b,
            };
            proof {
                lemma_branches_v_push(branches@, br);
            }
            branches.push(br);
            let j = self.index;
            proof {
                self.lemma_len();
            }
            match self.tokens[j].kind {
                TokenKind::Keyword(Keyword::Elif) => {
                    self.index = j + 1;
                },
                TokenKind::Keyword(Keyword::Else) => {
                    self.index = j + 1;
                    has_else = true;
                },
                _ => break,
            }
        }
        Stmt::IfElse(branches)
    }

    /// One branch of an `if`; `None` where its `{` is missing.
    #[verifier::spinoff_prover]
    #[verifier::rlimit(100)]
    fn if_branch(&mut self, session: &mut Session, has_else: bool, Ghost(m): Ghost<int>) -> (r: Option<(Option<Expr>, Vec<Stmt>)>)
        requires
            old(session).wf(),
            p_if_branch(old(self).toks(), old(self).fid(), old(self).st(old(session).diags()), has_else, m) is Some,
        ensures
            Self::kept(*old(self), *final(self), *old(session), *final(session)),
            p_if_branch(old(self).toks(), old(self).fid(), old(self).st(old(session).diags()), has_else, m) == Some(
                (branch_v(r), final(self).st(final(session).diags())),
            ),
        decreases m, 36int,
    {
        proof {
            reveal_with_fuel(p_if_branch, 1);
        }
        let cond = if has_else {
            None
        } else {
            match self.expr(session) {
                Ok(e) => Some(e),
                Err(()) => Some(Expr::Invalid),
            }
        };
        if !self.expect_lbrace(session) {
            return None;
        }
        let body = self.parse_body(session);
        self.expect_rbrace(session);
        Some((cond, body))
    }

    /// `pub fn name(args) type { body }`.
    #[verifier::spinoff_prover]
    #[verifier::rlimit(100)]
    fn stmt_fn(&mut self, session: &mut Session) -> (s: Stmt)
        requires
            old(session).wf(),
            p_fn(old(self).toks(), old(self).fid(), old(self).st(old(session).diags())) is Some,
        ensures
            Self::kept(*old(self), *final(self), *old(session), *final(session)),
            p_fn(old(self).toks(), old(self).fid(), old(self).st(old(session).diags())) == Some(
                (s@, final(self).st(final(session).diags())),
            ),
        decreases measure(old(self).toks(), old(self).st(old(session).diags())), 38int,
    {
        let i = self.index;
        proof {
            self.lemma_len();
        }
        let is_pub = match self.tokens[i].kind {
            TokenKind::Keyword(Keyword::Pub) => true,
            _ => false,
        };
        self.index = if is_pub { i + 2 } else { i + 1 };
        let j = self.index;
        let id = match &self.tokens[j].kind {
            TokenKind::Id(x) => {
                let x = x.clone();
                self.index = j + 1;
                x
            },
            _ => {
                let t = &self.tokens[j];
                let dg = expected_diag(self.file_id, t, "Expected identificator, found ", t.line, t.offset, 0, "func_name", "Add function identificator here");
                session.emit_error(dg);
                String::from_str("INVALID_IDENT")
            },
        };
        if !self.check(TokenKind::LParen, Ghost(session.diags())) {
            let c = &self.tokens[self.index];
            let dg = expected_diag(self.file_id, c, "Expected '(', found ", c.line, c.offset, 0, "(", "Add '(' here");
            session.emit_error(dg);
        }
        self.fn_tail(session, is_pub, id, Ghost(measure(self.toks(), old(self).st(old(session).diags()))))
    }

    /// A function declaration after `(`.
    #[verifier::spinoff_prover]
    #[verifier::rlimit(100)]
    fn fn_tail(&mut self, session: &mut Session, is_pub: bool, id: String, Ghost(m): Ghost<int>) -> (s: Stmt)
        requires
            old(session).wf(),
            p_fn_tail(old(self).toks(), old(self).fid(), old(self).st(old(session).diags()), is_pub, id@, m) is Some,
        ensures
            Self::kept(*old(self), *final(self), *old(session), *final(session)),
            p_fn_tail(old(self).toks(), old(self).fid(), old(self).st(old(session).diags()), is_pub, id@, m) == Some(
                (s@, final(self).st(final(session).diags())),
            ),
        decreases m, 37int,
    {
        proof {
            reveal_with_fuel(p_fn_tail, 1);
        }
        let args = self.fn_signature_args(session);
        let k = self.index;
        proof {
            self.lemma_len();
        }
        let ret = match self.tokens[k].kind {
            TokenKind::LBrace => None,
            _ => Some(self.parse_type(session)),
        };
        self.expect_lbrace(session);
        let body = self.parse_body(session);
        self.expect_rbrace(session);
        Stmt::Func(false, is_pub, id, args, ret, body)
    }

    /// The arguments of a declared function with their closing parenthesis.
    #[verifier::spinoff_prover]
    fn fn_signature_args(&mut self, session: &mut Session) -> (args: Vec<(String, Type)>)
        requires
            old(session).wf(),
            p_fn_sig_args(old(self).toks(), old(self).fid(), old(self).st(old(session).diags())) is Some,
        ensures
            Self::kept(*old(self), *final(self), *old(session), *final(session)),
            p_fn_sig_args(old(self).toks(), old(self).fid(), old(self).st(old(session).diags())) == Some(
                (args_v(args@), final(self).st(final(session).diags())),
            ),
    {
        if self.check(TokenKind::RParen, Ghost(session.diags())) {
            assert(args_v(Seq::<(String, Type)>::empty()) =~= Seq::<(Seq<char>, TypeV)>::empty());
            return Vec::new();
        }
        let ags = self.parse_fn_args(session);
        if !self.check(TokenKind::RParen, Ghost(session.diags())) {
            let c = &self.tokens[self.index];
            let dg = expected_diag(self.file_id, c, "Expected ')', found ", c.line, c.offset, 0, ")", "Add ')' here");
            session.emit_error(dg);
        }
        ags
    }

    /// One statement; `Err` where it was an expression that failed.
    #[verifier::spinoff_prover]
    pub fn stmt(&mut self, session: &mut Session) -> (r: Result<Stmt, ()>)
        requires
            old(session).wf(),
            p_stmt(old(self).toks(), old(self).fid(), old(self).st(old(session).diags())) is Some,
        ensures
            Self::kept(*old(self), *final(self), *old(session), *final(session)),
            p_stmt(old(self).toks(), old(self).fid(), old(self).st(old(session).diags())) == Some(
                (stmt_res_v(r), final(self).st(final(session).diags())),
            ),
        decreases measure(old(self).toks(), old(self).st(old(session).diags())), 39int,
    {
        let i = self.index;
        proof {
            self.lemma_len();
        }
        let kind = define(&self.tokens[i].kind, &self.tokens[i + 1].kind);
        match kind {
            StmtKind::Expr => match self.expr(session) {
                Ok(e) => Ok(Stmt::Expr(e)),
                Err(()) => Err(()),
            },
            StmtKind::Declare => Ok(self.stmt_declare(session)),
            StmtKind::Assign => Ok(self.stmt_assign(session)),
            StmtKind::Fn => Ok(self.stmt_fn(session)),
            StmtKind::IfElse => Ok(self.stmt_if_else(session)),
            StmtKind::Return => Ok(self.stmt_return(session)),
            StmtKind::Break | StmtKind::Continue => Ok(self.stmt_break_continue(session)),
            StmtKind::While => Ok(self.stmt_while_loop(session)),
            StmtKind::Use => Ok(self.stmt_use(session)),
        }
    }

    /// Statements up to a `}` or the end of the file.
    #[verifier::spinoff_prover]
    fn parse_body(&mut self, session: &mut Session) -> (body: Vec<Stmt>)
        requires
            old(session).wf(),
            p_body(old(self).toks(), old(self).fid(), old(self).st(old(session).diags()), Seq::empty()) is Some,
        ensures
            Self::kept(*old(self), *final(self), *old(session), *final(session)),
            p_body(old(self).toks(), old(self).fid(), old(self).st(old(session).diags()), Seq::empty()) == Some(
                (stmts_v(body@), final(self).st(final(session).diags())),
            ),
        decreases measure(old(self).toks(), old(self).st(old(session).diags())), 40int,
    {
        let ghost toks = self.toks();
        let ghost fid = self.fid();
        let ghost st0 = self.st(session.diags());
        let ghost target = p_body(toks, fid, st0, Seq::empty());
        let mut body: Vec<Stmt> = Vec::new();
        assert(stmts_v(body@) =~= Seq::<StmtV>::empty());
        loop
            invariant
                Self::kept(*old(self), *self, *old(session), *session),
                self.toks() == toks,
                self.fid() == fid,
                target == p_body(toks, fid, self.st(session.diags()), stmts_v(body@)),
                target == p_body(toks, fid, st0, Seq::empty()),
                target is Some,
                measure(toks, self.st(session.diags())) <= measure(toks, st0),
                st0 == old(self).st(old(session).diags()),
                toks == old(self).toks(),
            ensures
                Self::kept(*old(self), *self, *old(session), *session),
                target == Some((stmts_v(body@), self.st(session.diags()))),
            decreases measure(toks, self.st(session.diags())),
        {
            let i = self.index;
            proof {
                self.lemma_len();
            }
            match self.tokens[i].kind {
                TokenKind::Eof | TokenKind::RBrace => break,
                _ => {},
            }
            match self.stmt(session) {
                Ok(x) => {
                    proof {
                        lemma_stmts_v_push(body@, x);
                    }
                    body.push(x);
                },
                Err(()) => {},
            }
        }
        body
    }

    /// The position of the next token.
    pub closed spec fn pos(&self) -> nat {
        self.index as nat
    }

    /// A parser with no tokens yet.
    #[verifier::spinoff_prover]
    pub fn new() -> (p: Self)
        ensures
            p.toks() == Seq::<TokenV>::empty(),
            p.fid() == 0,
            p.pos() == 0,
    {
        let p = StdParser { index: 0, tokens: Vec::new(), file_id: 0 };
        assert(p.toks() =~= Seq::<TokenV>::empty());
        p
    }

    /// A parser of `tokens` from file `file_id`.
    #[verifier::spinoff_prover]
    pub fn new_full(tokens: Vec<Token>, file_id: FileId) -> (p: Self)
        ensures
            p.toks() == tokens_view(tokens@),
            p.fid() == file_id,
            p.pos() == 0,
    {
        StdParser { index: 0, tokens, file_id }
    }

    /// Parses `tokens` of file `file_id` into statements, reporting what it finds wrong
    /// to the session; a statement that failed is left out.
    #[verifier::spinoff_prover]
    #[verifier::rlimit(100)]
    pub fn parse(&mut self, session: &mut Session, tokens: Vec<Token>, file_id: FileId) -> (ast: Vec<Stmt>)
        requires
            old(session).wf(),
            p_program(tokens_view(tokens@), file_id as nat, PSt { idx: 0, diags: old(session).diags() }, Seq::empty()) is Some,
        ensures
            final(session).wf(),
            final(session).spec_sources() == old(session).spec_sources(),
            final(session).mangle_count() == old(session).mangle_count(),
            final(session).spec_reporter() == old(session).spec_reporter(),
            final(session).spec_modules() == old(session).spec_modules(),
            ({
                let r = p_program(tokens_view(tokens@), file_id as nat, PSt { idx: 0, diags: old(session).diags() }, Seq::empty()).unwrap();
                &&& stmts_v(ast@) == r.0
                &&& final(session).diags() == r.1.diags
            }),
            final(self).toks() == tokens_view(tokens@),
            final(self).fid() == file_id,
    {
        self.file_id = file_id;
        self.tokens = tokens;
        self.index = 0;
        let ghost toks = self.toks();
        let ghost fid = self.fid();
        let ghost target = p_program(toks, fid, self.st(session.diags()), Seq::empty());
        let mut ast: Vec<Stmt> = Vec::new();
        assert(stmts_v(ast@) =~= Seq::<StmtV>::empty());
        loop
            invariant
                session.wf(),
                session.spec_sources() == old(session).spec_sources(),
                session.mangle_count() == old(session).mangle_count(),
                session.spec_reporter() == old(session).spec_reporter(),
                session.spec_modules() == old(session).spec_modules(),
                self.toks() == toks,
                self.fid() == fid,
                toks == tokens_view(tokens@),
                fid == file_id,
                target == p_program(toks, fid, self.st(session.diags()), stmts_v(ast@)),
                target == p_program(tokens_view(tokens@), file_id as nat, PSt { idx: 0, diags: old(session).diags() }, Seq::empty()),
                target is Some,
            ensures
                session.wf(),
                session.spec_sources() == old(session).spec_sources(),
                session.mangle_count() == old(session).mangle_count(),
                session.spec_reporter() == old(session).spec_reporter(),
                session.spec_modules() == old(session).spec_modules(),
                self.toks() == toks,
                self.fid() == fid,
                target == Some((stmts_v(ast@), self.st(session.diags()))),
            decreases measure(toks, self.st(session.diags())),
        {
            let i = self.index;
            proof {
                self.lemma_len();
            }
            match self.tokens[i].kind {
                TokenKind::Eof => break,
                _ => {},
            }
            match self.stmt(session) {
                Ok(x) => {
                    proof {
                        lemma_stmts_v_push(ast@, x);
                    }
                    ast.push(x);
                },
                Err(()) => {},
            }
        }
        ast
    }
}

/// The assignment a token stands for.
#[verifier::spinoff_prover]
fn assign_op_of(k: &TokenKind) -> (r: Option<AssignOp>)
    ensures
        r == grammar_assign_op_of(k@),
{
    match k {
        TokenKind::Assign => Some(AssignOp::Assign),
        TokenKind::AssignPlus => Some(AssignOp::Plus),
        TokenKind::AssignMinus => Some(AssignOp::Minus),
        TokenKind::AssignStar => Some(AssignOp::Star),
        TokenKind::AssignSlash => Some(AssignOp::Slash),
        _ => None,
    }
}

/// What a statement is, told by its first two tokens.
#[verifier::spinoff_prover]
fn define(t0: &TokenKind, t1: &TokenKind) -> (k: StmtKind)
    ensures
        k == stmt_kind(t0@, t1@),
{
    match t0 {
        TokenKind::Keyword(Keyword::Fix) | TokenKind::Keyword(Keyword::Mut) => StmtKind::Declare,
        TokenKind::Keyword(Keyword::If) => StmtKind::IfElse,
        TokenKind::Keyword(Keyword::Ret) => StmtKind::Return,
        TokenKind::Keyword(Keyword::Fn) => StmtKind::Fn,
        TokenKind::Keyword(Keyword::Pub) => match t1 {
            TokenKind::Keyword(Keyword::Fn) => StmtKind::Fn,
            TokenKind::Keyword(Keyword::Use) => StmtKind::Use,
            _ => StmtKind::Expr,
        },
        TokenKind::Keyword(Keyword::While) => StmtKind::While,
        TokenKind::Id(_) => match t1 {
            TokenKind::Assign | TokenKind::AssignPlus | TokenKind::AssignMinus | TokenKind::AssignSlash
            | TokenKind::AssignStar => StmtKind::Assign,
            _ => StmtKind::Expr,
        },
        TokenKind::Star => match t1 {
            TokenKind::Id(_) => StmtKind::Assign,
            _ => StmtKind::Expr,
        },
        TokenKind::Keyword(Keyword::Break) => StmtKind::Break,
        TokenKind::Keyword(Keyword::Continue) => StmtKind::Continue,
        TokenKind::Keyword(Keyword::Use) => StmtKind::Use,
        _ => StmtKind::Expr,
    }
}

/// The view of a parsed `if` branch.
pub open spec fn branch_v(r: Option<(Option<Expr>, Vec<Stmt>)>) -> Option<(Option<ExprV>, Seq<StmtV>)> {
    match r {
        None => None,
        Some((c, b)) => Some((opt_expr_v(c), stmts_v(b@))),
    }
}

/// The view of a statement parse result.
pub open spec fn stmt_res_v(r: Result<Stmt, ()>) -> Result<StmtV, ()> {
    match r {
        Ok(s) => Ok(s@),
        Err(_) => Err(()),
    }
}

impl crate::parser::Parser for StdParser {
    fn parse(&mut self, session: &mut Session, tokens: Vec<Token>, file_id: FileId) -> (ast: Vec<Stmt>) {
        StdParser::parse(self, session, tokens, file_id)
    }
}

} // verus!
