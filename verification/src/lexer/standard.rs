//! The standard lexer.
use crate::lexer::token::{chars_eq, keyword_of, keyword_text, kind_text, tokens_view, Keyword, KindV, Token, TokenKind, TokenV};
use crate::report::{
    error_with_help, new_error_with_help, new_plain_error, plain_error, span_v, DiagV, Help, HelpV, Phase, Span,
};
use crate::report::standard::{help_shown, lemma_char_at_byte_ascii, renderable, span_shown, Verbose};
use crate::session::source::{column_at, lemma_line_at_bound, lemma_line_column_step, lemma_line_of_ascii, lemma_line_of_at, line_at, line_of, FileId};
use crate::session::Session;
use crate::text::{char_utf8_width, chars_of, chars_of_string, dec, digit_char, int_text, push_str, string_of, utf8_len, utf8_width};
use vstd::prelude::*;

verus! {

/// `char::is_whitespace`: the characters with the Unicode `White_Space` property.
pub open spec fn is_ws(c: char) -> bool {
    let u = c as u32;
    ||| 0x09 <= u <= 0x0D
    ||| u == 0x20
    ||| u == 0x85
    ||| u == 0xA0
    ||| u == 0x1680
    ||| 0x2000 <= u <= 0x200A
    ||| u == 0x2028
    ||| u == 0x2029
    ||| u == 0x202F
    ||| u == 0x205F
    ||| u == 0x3000
}

/// `char::is_digit(10)`.
pub open spec fn is_dec_digit(c: char) -> bool {
    '0' <= c <= '9'
}

/// Whether `char::is_alphabetic` holds of `c` (the Unicode `Alphabetic` property).
pub uninterp spec fn char_alphabetic(c: char) -> bool;

/// `char::is_alphabetic`.
///
/// Trusted: the result is whatever std's `char::is_alphabetic` answers for `c`, named
/// `char_alphabetic`; among the one-byte characters, exactly the ASCII letters have the
/// Unicode `Alphabetic` property.
#[verifier::external_body]
fn is_alphabetic(c: char) -> (r: bool)
    ensures
        r == char_alphabetic(c),
        (c as u32) < 0x80 ==> (r <==> ('a' <= c <= 'z' || 'A' <= c <= 'Z')),
{
    c.is_alphabetic()
}

/// Whether `c` is a letter in the lexer's sense (`char::is_alphabetic`); for the
/// one-byte characters these are exactly `a`-`z` and `A`-`Z`.
pub fn is_letter(c: char) -> (r: bool)
    ensures
        r == char_alphabetic(c),
        (c as u32) < 0x80 ==> (r <==> ('a' <= c <= 'z' || 'A' <= c <= 'Z')),
{
    is_alphabetic(c)
}

/// A character that may continue an identifier.
pub open spec fn is_word_char(c: char) -> bool {
    char_alphabetic(c) || is_dec_digit(c) || c == '_'
}

/// Lexer state as plain values.
pub struct LexSt {
    pub pos: int,
    pub line: int,
    pub offset: int,
    pub toks: Seq<TokenV>,
    pub diags: Seq<DiagV>,
}

/// The state a lexer starts a file in, with `diags` emitted before.
pub open spec fn fresh_state(diags: Seq<DiagV>) -> LexSt {
    LexSt { pos: 0, line: 0, offset: 0, toks: Seq::empty(), diags }
}

pub open spec fn peek_at(cs: Seq<char>, i: int) -> Option<char> {
    if 0 <= i < cs.len() {
        Some(cs[i])
    } else {
        None
    }
}

/// One step forward: a newline starts the next line.
pub open spec fn advance1(cs: Seq<char>, st: LexSt) -> LexSt {
    if peek_at(cs, st.pos) == Some('\n') {
        LexSt { pos: st.pos + 1, line: st.line + 1, offset: 0, ..st }
    } else {
        LexSt { pos: st.pos + 1, offset: st.offset + 1, ..st }
    }
}

pub open spec fn advance(cs: Seq<char>, st: LexSt, n: nat) -> LexSt
    decreases n,
{
    if n == 0 {
        st
    } else {
        advance(cs, advance1(cs, st), (n - 1) as nat)
    }
}

pub open spec fn push_tok(st: LexSt, kind: KindV, line: int, offset: int, pos: int, len: int) -> LexSt {
    LexSt {
        toks: st.toks.push(TokenV { kind, line: line as nat, offset: offset as nat, pos: pos as nat, len: len as nat }),
        ..st
    }
}

pub open spec fn emit(st: LexSt, d: DiagV) -> LexSt {
    LexSt { diags: st.diags.push(d), ..st }
}

/// Kinds of the one-character tokens that have no two-character form.
pub open spec fn single_kind(c: char) -> Option<KindV> {
    if c == '(' {
        Some(KindV::LParen)
    } else if c == ')' {
        Some(KindV::RParen)
    } else if c == '[' {
        Some(KindV::LBracket)
    } else if c == ']' {
        Some(KindV::RBracket)
    } else if c == '{' {
        Some(KindV::LBrace)
    } else if c == '}' {
        Some(KindV::RBrace)
    } else if c == ',' {
        Some(KindV::Comma)
    } else if c == ';' {
        Some(KindV::Semicolon)
    } else {
        None
    }
}

/// For a character that starts a one- or two-character token: the second character,
/// the kind of the pair and the kind of the single character.
pub open spec fn double_kinds(c: char) -> Option<(char, KindV, KindV)> {
    if c == '+' {
        Some(('=', KindV::AssignPlus, KindV::Plus))
    } else if c == '-' {
        Some(('=', KindV::AssignMinus, KindV::Minus))
    } else if c == '*' {
        Some(('=', KindV::AssignStar, KindV::Star))
    } else if c == '=' {
        Some(('=', KindV::Eq, KindV::Assign))
    } else if c == '!' {
        Some(('=', KindV::Ne, KindV::Bang))
    } else if c == '>' {
        Some(('=', KindV::Ge, KindV::Gt))
    } else if c == '<' {
        Some(('=', KindV::Le, KindV::Lt))
    } else if c == '&' {
        Some(('&', KindV::And, KindV::Ampersand))
    } else if c == ':' {
        Some((':', KindV::Path, KindV::Colon))
    } else {
        None
    }
}

/// Skips to the end of a `//` comment (stops on the newline).
pub open spec fn skip_line(cs: Seq<char>, len: int, st: LexSt) -> LexSt
    decreases len - st.pos,
{
    if st.pos < len && peek_at(cs, st.pos) != Some('\n') {
        skip_line(cs, len, advance1(cs, st))
    } else {
        st
    }
}

/// Skips a `/* */` comment up to its first `*` or `/`.
pub open spec fn skip_block(cs: Seq<char>, len: int, st: LexSt) -> LexSt
    decreases len - st.pos,
{
    if st.pos < len && peek_at(cs, st.pos) != Some('*') && peek_at(cs, st.pos) != Some('/') {
        skip_block(cs, len, advance1(cs, st))
    } else {
        st
    }
}

/// Reads the digits and points of a number.
pub open spec fn scan_number(cs: Seq<char>, len: int, st: LexSt, buf: Seq<char>) -> (LexSt, Seq<char>)
    decreases len - st.pos,
{
    if st.pos < len {
        match peek_at(cs, st.pos) {
            Some(c) => if c == '.' || is_dec_digit(c) {
                scan_number(cs, len, advance1(cs, st), buf.push(c))
            } else {
                (st, buf)
            },
            None => scan_number(cs, len, advance1(cs, st), buf),
        }
    } else {
        (st, buf)
    }
}

/// Reads the characters of a word; `None` where the lexer would never stop
/// (past the last character but short of the length in bytes).
pub open spec fn scan_word(cs: Seq<char>, len: int, st: LexSt, buf: Seq<char>) -> Option<(LexSt, Seq<char>)>
    decreases len - st.pos,
{
    if st.pos < len {
        match peek_at(cs, st.pos) {
            Some(c) => if is_word_char(c) {
                scan_word(cs, len, advance1(cs, st), buf.push(c))
            } else {
                Some((st, buf))
            },
            None => None,
        }
    } else {
        Some((st, buf))
    }
}

/// Reads the characters of a string literal up to and including its closing quote.
pub open spec fn scan_string(cs: Seq<char>, len: int, st: LexSt, buf: Seq<char>) -> (LexSt, Seq<char>)
    decreases len - st.pos,
{
    if st.pos < len {
        let st2 = advance1(cs, st);
        match peek_at(cs, st.pos) {
            Some(c) => if c != '"' {
                scan_string(cs, len, st2, buf.push(c))
            } else {
                (st2, buf)
            },
            None => scan_string(cs, len, st2, buf),
        }
    } else {
        (st, buf)
    }
}

pub open spec fn count_char(s: Seq<char>, c: char) -> nat
    decreases s.len(),
{
    if s.len() == 0 {
        0
    } else {
        count_char(s.drop_last(), c) + if s.last() == c { 1nat } else { 0nat }
    }
}

/// Value of a sequence of decimal digits.
pub open spec fn digits_value(s: Seq<char>) -> nat
    decreases s.len(),
{
    if s.len() == 0 {
        0
    } else {
        digits_value(s.drop_last()) * 10 + ((s.last() as int - 48) as nat)
    }
}

pub open spec fn number_error(fid: nat, line: int, offset: int, len: nat, what: Seq<char>) -> DiagV {
    plain_error("Failed parse number: "@ + what, span_v(fid, line as nat, offset as nat, len), Phase::Lexing)
}

/// The token for the digits and points in `buf`, read from (`line`, `offset`, `pos`).
/// A literal with a point is a float and needs exactly one point; one without is
/// an integer and must fit in `i64`.
pub open spec fn number_token(fid: nat, st: LexSt, buf: Seq<char>, line: int, offset: int, pos: int) -> LexSt {
    if count_char(buf, '.') > 0 {
        if count_char(buf, '.') == 1 {
            push_tok(st, KindV::Float(buf), line, offset, pos, buf.len() as int)
        } else {
            push_tok(
                emit(st, number_error(fid, line, offset, buf.len(), "invalid float literal"@)),
                KindV::Float("0.0"@),
                line,
                offset,
                pos,
                buf.len() as int,
            )
        }
    } else if digits_value(buf) <= i64::MAX {
        push_tok(st, KindV::Int(digits_value(buf) as i64), line, offset, pos, buf.len() as int)
    } else {
        push_tok(
            emit(st, number_error(fid, line, offset, buf.len(), "number too large to fit in target type"@)),
            KindV::Int(0),
            line,
            offset,
            pos,
            buf.len() as int,
        )
    }
}

/// The kind of a word: a boolean, a keyword or an identifier.
pub open spec fn word_kind(w: Seq<char>) -> KindV {
    if w == "true"@ {
        KindV::Bool(true)
    } else if w == "false"@ {
        KindV::Bool(false)
    } else {
        match keyword_of(w) {
            Some(k) => KindV::Keyword(k),
            None => KindV::Id(w),
        }
    }
}

pub open spec fn unknown_char_message(c: char) -> Seq<char> {
    "Unknown character '"@ + seq![c] + "'"@
}

/// The error for a `|` that is not followed by another `|`.
pub open spec fn lone_pipe_error(fid: nat, line: int, offset: int) -> DiagV {
    error_with_help(
        unknown_char_message('|'),
        span_v(fid, line as nat, offset as nat, 1),
        Phase::Lexing,
        HelpV { message: "Meybe you mean `||`?"@, span: span_v(fid, line as nat, offset as nat, 1), fixed: "||"@ },
    )
}

/// The turn of the loop at a `/`: `/=`, a comment, or `/`.
pub open spec fn slash_step(cs: Seq<char>, len: int, st: LexSt) -> LexSt {
    if peek_at(cs, st.pos + 1) == Some('=') {
        advance(cs, push_tok(st, KindV::AssignSlash, st.line, st.offset, st.pos, 2), 2)
    } else if peek_at(cs, st.pos + 1) == Some('/') {
        advance1(cs, skip_line(cs, len, advance(cs, st, 2)))
    } else if peek_at(cs, st.pos + 1) == Some('*') {
        advance(cs, skip_block(cs, len, advance(cs, st, 2)), 2)
    } else {
        advance1(cs, push_tok(st, KindV::Slash, st.line, st.offset, st.pos, 1))
    }
}

/// One turn of the lexer's loop at a position that holds a character.
pub open spec fn lex_step(cs: Seq<char>, len: int, fid: nat, st: LexSt) -> Option<LexSt> {
    let c = cs[st.pos];
    if is_ws(c) {
        Some(advance1(cs, st))
    } else if single_kind(c) is Some {
        Some(advance1(cs, push_tok(st, single_kind(c).unwrap(), st.line, st.offset, st.pos, 1)))
    } else if double_kinds(c) is Some {
        let (second, pair, single) = double_kinds(c).unwrap();
        if peek_at(cs, st.pos + 1) == Some(second) {
            Some(advance(cs, push_tok(st, pair, st.line, st.offset, st.pos, 2), 2))
        } else {
            Some(advance1(cs, push_tok(st, single, st.line, st.offset, st.pos, 1)))
        }
    } else if c == '|' {
        if peek_at(cs, st.pos + 1) == Some('|') {
            Some(advance(cs, push_tok(st, KindV::Or, st.line, st.offset, st.pos, 2), 2))
        } else {
            Some(advance1(cs, emit(st, lone_pipe_error(fid, st.line, st.offset))))
        }
    } else if c == '/' {
        Some(slash_step(cs, len, st))
    } else if is_dec_digit(c) {
        let (st2, buf) = scan_number(cs, len, st, Seq::empty());
        Some(number_token(fid, st2, buf, st.line, st.offset, st.pos))
    } else if char_alphabetic(c) {
        match scan_word(cs, len, st, Seq::empty()) {
            Some((st2, buf)) => Some(push_tok(st2, word_kind(buf), st.line, st.offset, st.pos, utf8_len(buf) as int)),
            None => None,
        }
    } else if c == '"' {
        let (st2, buf) = scan_string(cs, len, advance1(cs, st), Seq::empty());
        Some(push_tok(advance1(cs, st2), KindV::Str(buf), st.line, st.offset, st.pos, (utf8_len(buf) + 2) as int))
    } else {
        Some(advance1(cs, emit(st, plain_error(unknown_char_message(c), span_v(fid, st.line as nat, st.offset as nat, 1), Phase::Lexing))))
    }
}

/// The lexer's loop: `None` where it would never stop.
pub open spec fn lex_run(cs: Seq<char>, len: int, fid: nat, st: LexSt) -> Option<LexSt>
    decreases (if st.pos < len { len - st.pos } else { 0 }),
{
    if st.pos < len && peek_at(cs, st.pos) is Some {
        match lex_step(cs, len, fid, st) {
            Some(st2) => if st2.pos > st.pos {
                lex_run(cs, len, fid, st2)
            } else {
                None
            },
            None => None,
        }
    } else {
        Some(st)
    }
}

/// The whole lexer: its loop, then the end-of-file token.
pub open spec fn lex_all(cs: Seq<char>, len: int, fid: nat, st: LexSt) -> Option<LexSt> {
    match lex_run(cs, len, fid, st) {
        Some(s) => Some(push_tok(s, KindV::Eof, s.line, s.offset, s.pos, 1)),
        None => None,
    }
}

fn is_whitespace(c: char) -> (r: bool)
    ensures
        r == is_ws(c),
{
    let u = c as u32;
    (0x09 <= u && u <= 0x0D) || u == 0x20 || u == 0x85 || u == 0xA0 || u == 0x1680 || (0x2000 <= u
        && u <= 0x200A) || u == 0x2028 || u == 0x2029 || u == 0x202F || u == 0x205F || u == 0x3000
}

fn is_digit(c: char) -> (r: bool)
    ensures
        r == is_dec_digit(c),
{
    '0' <= c && c <= '9'
}

pub proof fn lemma_utf8_len_bound(s: Seq<char>)
    ensures
        utf8_len(s) <= 4 * s.len(),
    decreases s.len(),
{
    if s.len() > 0 {
        lemma_utf8_len_bound(s.drop_last());
    }
}

fn clone_token(t: &Token) -> (r: Token)
    ensures
        r@ == t@,
{
    let kind = match &t.kind {
        TokenKind::Plus => TokenKind::Plus,
        TokenKind::Minus => TokenKind::Minus,
        TokenKind::Star => TokenKind::Star,
        TokenKind::Slash => TokenKind::Slash,
        TokenKind::Bang => TokenKind::Bang,
        TokenKind::Comma => TokenKind::Comma,
        TokenKind::Dot => TokenKind::Dot,
        TokenKind::Semicolon => TokenKind::Semicolon,
        TokenKind::Colon => TokenKind::Colon,
        TokenKind::Path => TokenKind::Path,
        TokenKind::Ampersand => TokenKind::Ampersand,
        TokenKind::Assign => TokenKind::Assign,
        TokenKind::AssignPlus => TokenKind::AssignPlus,
        TokenKind::AssignMinus => TokenKind::AssignMinus,
        TokenKind::AssignStar => TokenKind::AssignStar,
        TokenKind::AssignSlash => TokenKind::AssignSlash,
        TokenKind::Eq => TokenKind::Eq,
        TokenKind::Ne => TokenKind::Ne,
        TokenKind::Gt => TokenKind::Gt,
        TokenKind::Ge => TokenKind::Ge,
        TokenKind::Lt => TokenKind::Lt,
        TokenKind::Le => TokenKind::Le,
        TokenKind::LParen => TokenKind::LParen,
        TokenKind::RParen => TokenKind::RParen,
        TokenKind::LBracket => TokenKind::LBracket,
        TokenKind::RBracket => TokenKind::RBracket,
        TokenKind::LBrace => TokenKind::LBrace,
        TokenKind::RBrace => TokenKind::RBrace,
        TokenKind::And => TokenKind::And,
        TokenKind::Or => TokenKind::Or,
        TokenKind::Keyword(k) => TokenKind::Keyword(*k),
        TokenKind::Id(s) => TokenKind::Id(s.clone()),
        TokenKind::Bool(b) => TokenKind::Bool(*b),
        TokenKind::Str(s) => TokenKind::Str(s.clone()),
        TokenKind::Float(s) => TokenKind::Float(s.clone()),
        TokenKind::Int(i) => TokenKind::Int(*i),
        TokenKind::Eof => TokenKind::Eof,
    };
    Token { kind, line: t.line, offset: t.offset, pos: t.pos, len: t.len }
}

/// A copy of a sequence of tokens.
pub fn clone_tokens(ts: &Vec<Token>) -> (r: Vec<Token>)
    ensures
        tokens_view(r@) == tokens_view(ts@),
{
    let mut r: Vec<Token> = Vec::new();
    let mut i: usize = 0;
    while i < ts.len()
        invariant
            i <= ts.len(),
            tokens_view(r@) == tokens_view(ts@).take(i as int),
        decreases ts.len() - i,
    {
        let t = clone_token(&ts[i]);
        let ghost r0 = r@;
        let ghost tv = t@;
        r.push(t);
        assert(tokens_view(r@) =~= tokens_view(r0).push(tv));
        assert(tokens_view(ts@).take(i + 1) =~= tokens_view(ts@).take(i as int).push(ts@[i as int]@));
        i = i + 1;
    }
    assert(tokens_view(ts@).take(ts.len() as int) =~= tokens_view(ts@));
    r
}

/// The standard lexer: the position, line, column and tokens of the file it is
/// reading. Each call of `tokenize` starts them afresh.
pub struct StdLexer {
    pos: usize,
    file_id: FileId,
    tokens: Vec<Token>,
    chars: Vec<char>,
    line: usize,
    offset: usize,
}

/// The state `st` has not gone further than the run that started at `base` allows.
pub open spec fn within(st: LexSt, base: LexSt, len: int) -> bool {
    &&& st.pos >= base.pos
    &&& st.line >= 0
    &&& st.offset >= 0
    &&& st.line <= base.line + (st.pos - base.pos)
    &&& st.offset <= base.offset + (st.pos - base.pos)
    &&& (st.pos <= len + 2 || st.pos == base.pos)
}

/// The room the counters need: a run from `base` cannot overflow them.
pub open spec fn room(base: LexSt, len: int) -> bool {
    &&& base.pos >= 0
    &&& base.line >= 0
    &&& base.offset >= 0
    &&& len >= 0
    &&& len + 3 <= usize::MAX
    &&& base.line + len + 3 <= usize::MAX
    &&& base.offset + len + 3 <= usize::MAX
    &&& base.pos <= usize::MAX
    &&& 4 * len + 8 <= usize::MAX
}

pub proof fn lemma_count_pos(s: Seq<char>, c: char, j: int)
    requires
        0 <= j < s.len(),
        s[j] == c,
    ensures
        count_char(s, c) > 0,
    decreases s.len(),
{
    if j < s.len() - 1 {
        lemma_count_pos(s.drop_last(), c, j);
    }
}

pub proof fn lemma_utf8_len_lower(s: Seq<char>)
    ensures
        s.len() <= utf8_len(s),
    decreases s.len(),
{
    if s.len() > 0 {
        lemma_utf8_len_lower(s.drop_last());
    }
}

/// Counts the points of a literal.
fn count_points(buf: &Vec<char>) -> (n: usize)
    ensures
        n == count_char(buf@, '.'),
{
    let mut n: usize = 0;
    let mut i: usize = 0;
    while i < buf.len()
        invariant
            i <= buf.len(),
            n == count_char(buf@.take(i as int), '.'),
            n <= i,
        decreases buf.len() - i,
    {
        assert(buf@.take(i + 1).drop_last() == buf@.take(i as int));
        if buf[i] == '.' {
            n = n + 1;
        }
        i = i + 1;
    }
    assert(buf@.take(buf.len() as int) == buf@);
    n
}

/// The value of a run of decimal digits, where it fits in `i64`.
fn digits_to_i64(buf: &Vec<char>) -> (r: Option<i64>)
    requires
        forall|j: int| 0 <= j < buf@.len() ==> is_dec_digit(#[trigger] buf@[j]),
    ensures
        r is Some <==> digits_value(buf@) <= i64::MAX,
        r matches Some(v) ==> v as int == digits_value(buf@),
{
    let mut acc: i64 = 0;
    let mut over = false;
    let mut i: usize = 0;
    while i < buf.len()
        invariant
            i <= buf.len(),
            forall|j: int| 0 <= j < buf@.len() ==> is_dec_digit(#[trigger] buf@[j]),
            !over ==> acc as int == digits_value(buf@.take(i as int)) && acc >= 0,
            over ==> digits_value(buf@.take(i as int)) > i64::MAX,
        decreases buf.len() - i,
    {
        assert(buf@.take(i + 1).drop_last() == buf@.take(i as int));
        assert(is_dec_digit(buf@[i as int]));
        let dch = buf[i];
        let dv: i64 = ((dch as u32) - 48) as i64;
        if !over {
            if acc > (i64::MAX - dv) / 10 {
                over = true;
            } else {
                acc = acc * 10 + dv;
            }
        }
        i = i + 1;
    }
    assert(buf@.take(buf.len() as int) == buf@);
    if over {
        None
    } else {
        Some(acc)
    }
}

impl StdLexer {
    /// The state of the lexer with `diags` as the diagnostics emitted so far.
    pub closed spec fn st(&self, diags: Seq<DiagV>) -> LexSt {
        LexSt {
            pos: self.pos as int,
            line: self.line as int,
            offset: self.offset as int,
            toks: tokens_view(self.tokens@),
            diags,
        }
    }

    pub closed spec fn spec_chars(&self) -> Seq<char> {
        self.chars@
    }

    /// Tokenizes file `file_id` of the session from its start: reports the errors it
    /// finds to the session and returns the file's tokens, ending with `Eof`. Nothing of
    /// an earlier call carries over.
    pub fn tokenize(&mut self, session: &mut Session, file_id: FileId) -> (r: Vec<Token>)
        requires
            old(session).wf(),
            file_id < old(session).spec_sources().len(),
            old(session).spec_sources()[file_id as int].wf(),
            lex_all(
                old(session).spec_sources()[file_id as int].text@,
                old(session).spec_sources()[file_id as int].len as int,
                file_id as nat,
                fresh_state(old(session).diags()),
            ) is Some,
            room(fresh_state(old(session).diags()), old(session).spec_sources()[file_id as int].len as int),
        ensures
            Self::session_kept(*old(session), *final(session)),
            ({
                let s = lex_all(
                    old(session).spec_sources()[file_id as int].text@,
                    old(session).spec_sources()[file_id as int].len as int,
                    file_id as nat,
                    fresh_state(old(session).diags()),
                ).unwrap();
                &&& final(session).diags() == s.diags
                &&& tokens_view(r@) == s.toks
                &&& final(self).st(final(session).diags()) == s
            }),
    {
        self.file_id = file_id;
        self.pos = 0;
        self.line = 0;
        self.offset = 0;
        self.tokens = Vec::new();
        assert(tokens_view(self.tokens@) =~= Seq::<TokenV>::empty());
        let len = session.sources()[file_id].len;
        self.chars = chars_of_string(&session.sources()[file_id].text);
        let ghost cs = self.chars@;
        let ghost base = self.st(session.diags());
        let ghost target = lex_run(cs, len as int, file_id as nat, base);
        proof {
            lemma_utf8_len_lower(cs);
        }
        while self.pos < len
            invariant
                lex_run(cs, len as int, file_id as nat, self.st(session.diags())) == target,
                target is Some,
                within(self.st(session.diags()), base, len as int),
                room(base, len as int),
                self.chars@ == cs,
                cs.len() <= len,
                self.file_id == file_id,
                Self::session_kept(*old(session), *session),
            ensures
                target == Some(self.st(session.diags())),
                within(self.st(session.diags()), base, len as int),
                Self::session_kept(*old(session), *session),
                self.chars@ == cs,
            decreases (if self.pos < len { len - self.pos } else { 0 }),
        {
            if self.peek(0).is_none() {
                break;
            }
            self.step(session, len, Ghost(base));
        }
        self.push(TokenKind::Eof, self.line, self.offset, self.pos, 1, Ghost(session.diags()));
        clone_tokens(&self.tokens)
    }

    pub fn new() -> (l: Self)
        ensures
            forall|d: Seq<DiagV>| #[trigger] l.st(d) == fresh_state(d),
    {
        let l = StdLexer { file_id: 0, pos: 0, tokens: Vec::new(), chars: Vec::new(), line: 0, offset: 0 };
        assert(tokens_view(l.tokens@) =~= Seq::<TokenV>::empty());
        l
    }

    fn peek(&self, offset: usize) -> (r: Option<char>)
        requires
            self.pos + offset <= usize::MAX,
        ensures
            r == peek_at(self.chars@, self.pos + offset),
    {
        let index = self.pos + offset;
        if index < self.chars.len() {
            Some(self.chars[index])
        } else {
            None
        }
    }

    fn advance1(&mut self, Ghost(d): Ghost<Seq<DiagV>>)
        requires
            old(self).pos < usize::MAX,
            old(self).line < usize::MAX,
            old(self).offset < usize::MAX,
        ensures
            final(self).st(d) == advance1(old(self).chars@, old(self).st(d)),
            final(self).chars@ == old(self).chars@,
            final(self).file_id == old(self).file_id,
    {
        if self.peek(0) == Some('\n') {
            self.offset = 0;
            self.line = self.line + 1;
        } else {
            self.offset = self.offset + 1;
        }
        self.pos = self.pos + 1;
    }

    fn advance2(&mut self, Ghost(d): Ghost<Seq<DiagV>>)
        requires
            old(self).pos + 1 < usize::MAX,
            old(self).line + 1 < usize::MAX,
            old(self).offset + 1 < usize::MAX,
        ensures
            final(self).st(d) == advance(old(self).chars@, old(self).st(d), 2),
            final(self).st(d) == advance1(old(self).chars@, advance1(old(self).chars@, old(self).st(d))),
            final(self).chars@ == old(self).chars@,
            final(self).file_id == old(self).file_id,
    {
        self.advance1(Ghost(d));
        self.advance1(Ghost(d));
        proof {
            reveal_with_fuel(advance, 3);
        }
    }

    fn push(&mut self, kind: TokenKind, line: usize, offset: usize, pos: usize, len: usize, Ghost(d): Ghost<Seq<DiagV>>)
        ensures
            final(self).st(d) == push_tok(old(self).st(d), kind@, line as int, offset as int, pos as int, len as int),
            final(self).chars@ == old(self).chars@,
            final(self).file_id == old(self).file_id,
            final(self).pos == old(self).pos,
    {
        let ghost k = kind@;
        self.tokens.push(Token::new(kind, line, offset, pos, len));
        assert(tokens_view(self.tokens@) =~= tokens_view(old(self).tokens@).push(
            TokenV { kind: k, line: line as nat, offset: offset as nat, pos: pos as nat, len: len as nat },
        ));
    }

    pub closed spec fn spec_file_id(&self) -> nat {
        self.file_id as nat
    }

    /// Emits the error for an unknown character.
    fn unknown_char(&mut self, session: &mut Session, c: char)
        requires
            old(session).wf(),
        ensures
            final(session).wf(),
            final(session).diags() == old(session).diags().push(
                plain_error(unknown_char_message(c), span_v(old(self).file_id as nat, old(self).line as nat, old(self).offset as nat, 1), Phase::Lexing),
            ),
            final(session).spec_sources() == old(session).spec_sources(),
            final(session).mangle_count() == old(session).mangle_count(),
            final(session).spec_reporter() == old(session).spec_reporter(),
            final(session).spec_modules() == old(session).spec_modules(),
            *final(self) == *old(self),
    {
        let mut m = chars_of("Unknown character '");
        let ghost m0 = m@;
        m.push(c);
        push_str(&mut m, "'");
        assert(m@ == m0 + seq![c] + "'"@);
        let d = new_plain_error(string_of(&m), Span::new(self.file_id, self.line, self.offset, 1), Phase::Lexing);
        session.emit_error(d);
    }

    /// Emits the error for a `|` that is not doubled.
    fn lone_pipe(&mut self, session: &mut Session)
        requires
            old(session).wf(),
        ensures
            final(session).wf(),
            final(session).diags() == old(session).diags().push(
                lone_pipe_error(old(self).file_id as nat, old(self).line as int, old(self).offset as int),
            ),
            final(session).spec_sources() == old(session).spec_sources(),
            final(session).mangle_count() == old(session).mangle_count(),
            final(session).spec_reporter() == old(session).spec_reporter(),
            final(session).spec_modules() == old(session).spec_modules(),
            *final(self) == *old(self),
    {
        let mut m = chars_of("Unknown character '");
        let ghost m0 = m@;
        m.push('|');
        push_str(&mut m, "'");
        assert(m@ == m0 + seq!['|'] + "'"@);
        let span = Span::new(self.file_id, self.line, self.offset, 1);
        let h = Help::new(string_of(&chars_of("Meybe you mean `||`?")), span, String::from_str("||"));
        let d = new_error_with_help(string_of(&m), span, Phase::Lexing, h);
        session.emit_error(d);
    }

    /// Emits the error for a number that does not parse.
    fn number_error(&mut self, session: &mut Session, line: usize, offset: usize, len: usize, what: &str)
        requires
            old(session).wf(),
        ensures
            final(session).wf(),
            final(session).diags() == old(session).diags().push(
                number_error(old(self).file_id as nat, line as int, offset as int, len as nat, what@),
            ),
            final(session).spec_sources() == old(session).spec_sources(),
            final(session).mangle_count() == old(session).mangle_count(),
            final(session).spec_reporter() == old(session).spec_reporter(),
            final(session).spec_modules() == old(session).spec_modules(),
            *final(self) == *old(self),
    {
        let mut m = chars_of("Failed parse number: ");
        push_str(&mut m, what);
        let d = new_plain_error(string_of(&m), Span::new(self.file_id, line, offset, len), Phase::Lexing);
        session.emit_error(d);
    }

    /// Pushes the token for the digits and points in `buf`.
    fn number(&mut self, session: &mut Session, buf: Vec<char>, line: usize, offset: usize, pos: usize)
        requires
            old(session).wf(),
            forall|j: int| 0 <= j < buf@.len() ==> (#[trigger] buf@[j] == '.' || is_dec_digit(buf@[j])),
        ensures
            final(session).wf(),
            final(self).st(final(session).diags()) == number_token(
                old(self).file_id as nat,
                old(self).st(old(session).diags()),
                buf@,
                line as int,
                offset as int,
                pos as int,
            ),
            final(session).spec_sources() == old(session).spec_sources(),
            final(session).mangle_count() == old(session).mangle_count(),
            final(session).spec_reporter() == old(session).spec_reporter(),
            final(session).spec_modules() == old(session).spec_modules(),
            final(self).chars@ == old(self).chars@,
            final(self).file_id == old(self).file_id,
            final(self).pos == old(self).pos,
    {
        let n = buf.len();
        let points = count_points(&buf);
        if points > 0 {
            if points == 1 {
                let text = string_of(&buf);
                self.push(TokenKind::Float(text), line, offset, pos, n, Ghost(session.diags()));
            } else {
                self.number_error(session, line, offset, n, "invalid float literal");
                self.push(TokenKind::Float(String::from_str("0.0")), line, offset, pos, n, Ghost(session.diags()));
            }
        } else {
            assert forall|j: int| 0 <= j < buf@.len() implies is_dec_digit(#[trigger] buf@[j]) by {
                if buf@[j] == '.' {
                    assert(count_char(buf@, '.') > 0) by {
                        lemma_count_pos(buf@, '.', j);
                    }
                }
            }
            match digits_to_i64(&buf) {
                Some(v) => {
                    self.push(TokenKind::Int(v), line, offset, pos, n, Ghost(session.diags()));
                },
                None => {
                    self.number_error(session, line, offset, n, "number too large to fit in target type");
                    self.push(TokenKind::Int(0), line, offset, pos, n, Ghost(session.diags()));
                },
            }
        }
    }

    /// Pushes the token for the word in `w`.
    fn word(&mut self, w: Vec<char>, line: usize, offset: usize, pos: usize, len: usize, Ghost(d): Ghost<Seq<DiagV>>)
        ensures
            final(self).st(d) == push_tok(old(self).st(d), word_kind(w@), line as int, offset as int, pos as int, len as int),
            final(self).chars@ == old(self).chars@,
            final(self).file_id == old(self).file_id,
            final(self).pos == old(self).pos,
    {
        let kind = if chars_eq(&w, "true") {
            TokenKind::Bool(true)
        } else if chars_eq(&w, "false") {
            TokenKind::Bool(false)
        } else {
            match Keyword::from_chars(&w) {
                Some(k) => TokenKind::Keyword(k),
                None => TokenKind::Id(string_of(&w)),
            }
        };
        self.push(kind, line, offset, pos, len, Ghost(d));
    }

    /// Session facts every lexer step keeps.
    pub open spec fn session_kept(old_s: Session, new_s: Session) -> bool {
        &&& new_s.wf()
        &&& new_s.spec_sources() == old_s.spec_sources()
        &&& new_s.mangle_count() == old_s.mangle_count()
        &&& new_s.spec_reporter() == old_s.spec_reporter()
        &&& new_s.spec_modules() == old_s.spec_modules()
    }

    /// The token or comment that starts with `/`.
    fn slash(&mut self, len: usize, Ghost(d): Ghost<Seq<DiagV>>, Ghost(base): Ghost<LexSt>)
        requires
            room(base, len as int),
            within(old(self).st(d), base, len as int),
            old(self).pos < len,
            old(self).pos < old(self).chars@.len(),
            old(self).chars@.len() <= len,
        ensures
            final(self).st(d) == slash_step(old(self).chars@, len as int, old(self).st(d)),
            within(final(self).st(d), base, len as int),
            final(self).chars@ == old(self).chars@,
            final(self).file_id == old(self).file_id,
            final(self).pos > old(self).pos,
    {
        let line = self.line;
        let offset = self.offset;
        let pos = self.pos;
        if self.peek(1) == Some('=') {
            self.push(TokenKind::AssignSlash, line, offset, pos, 2, Ghost(d));
            self.advance2(Ghost(d));
        } else if self.peek(1) == Some('/') {
            self.advance2(Ghost(d));
            let ghost cs = self.chars@;
            let ghost target = skip_line(cs, len as int, self.st(d));
            while self.pos < len && self.peek(0) != Some('\n')
                invariant
                    skip_line(cs, len as int, self.st(d)) == target,
                    within(self.st(d), base, len as int),
                    room(base, len as int),
                    self.chars@ == cs,
                    self.pos <= len + 1,
                    self.file_id == old(self).file_id,
                    self.pos > old(self).pos,
                decreases len - self.pos,
            {
                self.advance1(Ghost(d));
            }
            self.advance1(Ghost(d));
        } else if self.peek(1) == Some('*') {
            self.advance2(Ghost(d));
            let ghost cs = self.chars@;
            let ghost target = skip_block(cs, len as int, self.st(d));
            while self.pos < len && self.peek(0) != Some('*') && self.peek(0) != Some('/')
                invariant
                    skip_block(cs, len as int, self.st(d)) == target,
                    within(self.st(d), base, len as int),
                    room(base, len as int),
                    self.chars@ == cs,
                    self.pos <= len,
                    self.file_id == old(self).file_id,
                    self.pos > old(self).pos,
                decreases len - self.pos,
            {
                self.advance1(Ghost(d));
            }
            self.advance2(Ghost(d));
        } else {
            self.push(TokenKind::Slash, line, offset, pos, 1, Ghost(d));
            self.advance1(Ghost(d));
        }
    }

    /// One turn of the loop.
    fn step(&mut self, session: &mut Session, len: usize, Ghost(base): Ghost<LexSt>)
        requires
            old(session).wf(),
            room(base, len as int),
            within(old(self).st(old(session).diags()), base, len as int),
            old(self).pos < len,
            old(self).pos < old(self).chars@.len(),
            old(self).chars@.len() <= len,
            lex_step(old(self).chars@, len as int, old(self).file_id as nat, old(self).st(old(session).diags())) is Some,
        ensures
            Self::session_kept(*old(session), *final(session)),
            Some(final(self).st(final(session).diags())) == lex_step(
                old(self).chars@,
                len as int,
                old(self).file_id as nat,
                old(self).st(old(session).diags()),
            ),
            within(final(self).st(final(session).diags()), base, len as int),
            final(self).chars@ == old(self).chars@,
            final(self).file_id == old(self).file_id,
            final(self).pos > old(self).pos,
    {
        let ghost d = session.diags();
        let c = self.chars[self.pos];
        let line = self.line;
        let offset = self.offset;
        let pos = self.pos;
        if is_whitespace(c) {
            self.advance1(Ghost(d));
        } else if c == '(' || c == ')' || c == '[' || c == ']' || c == '{' || c == '}' || c == ',' || c == ';' {
            let kind = if c == '(' {
                TokenKind::LParen
            } else if c == ')' {
                TokenKind::RParen
            } else if c == '[' {
                TokenKind::LBracket
            } else if c == ']' {
                TokenKind::RBracket
            } else if c == '{' {
                TokenKind::LBrace
            } else if c == '}' {
                TokenKind::RBrace
            } else if c == ',' {
                TokenKind::Comma
            } else {
                TokenKind::Semicolon
            };
            self.push(kind, line, offset, pos, 1, Ghost(d));
            self.advance1(Ghost(d));
        } else if c == '+' || c == '-' || c == '*' || c == '=' || c == '!' || c == '>' || c == '<' || c == '&' || c == ':' {
            let second = if c == '&' {
                '&'
            } else if c == ':' {
                ':'
            } else {
                '='
            };
            if self.peek(1) == Some(second) {
                let kind = if c == '+' {
                    TokenKind::AssignPlus
                } else if c == '-' {
                    TokenKind::AssignMinus
                } else if c == '*' {
                    TokenKind::AssignStar
                } else if c == '=' {
                    TokenKind::Eq
                } else if c == '!' {
                    TokenKind::Ne
                } else if c == '>' {
                    TokenKind::Ge
                } else if c == '<' {
                    TokenKind::Le
                } else if c == '&' {
                    TokenKind::And
                } else {
                    TokenKind::Path
                };
                self.push(kind, line, offset, pos, 2, Ghost(d));
                self.advance2(Ghost(d));
            } else {
                let kind = if c == '+' {
                    TokenKind::Plus
                } else if c == '-' {
                    TokenKind::Minus
                } else if c == '*' {
                    TokenKind::Star
                } else if c == '=' {
                    TokenKind::Assign
                } else if c == '!' {
                    TokenKind::Bang
                } else if c == '>' {
                    TokenKind::Gt
                } else if c == '<' {
                    TokenKind::Lt
                } else if c == '&' {
                    TokenKind::Ampersand
                } else {
                    TokenKind::Colon
                };
                self.push(kind, line, offset, pos, 1, Ghost(d));
                self.advance1(Ghost(d));
            }
        } else if c == '|' {
            if self.peek(1) == Some('|') {
                self.push(TokenKind::Or, line, offset, pos, 2, Ghost(d));
                self.advance2(Ghost(d));
            } else {
                self.lone_pipe(session);
                self.advance1(Ghost(session.diags()));
            }
        } else if c == '/' {
            self.slash(len, Ghost(d), Ghost(base));
        } else if is_digit(c) {
            let buf = self.read_number(len, Ghost(d), Ghost(base));
            self.number(session, buf, line, offset, pos);
        } else if is_alphabetic(c) {
            let (w, bytes) = self.read_word(len, Ghost(d), Ghost(base));
            self.word(w, line, offset, pos, bytes, Ghost(d));
        } else if c == '"' {
            self.advance1(Ghost(d));
            let (buf, bytes) = self.read_string(len, Ghost(d), Ghost(base));
            self.advance1(Ghost(d));
            self.push(TokenKind::Str(string_of(&buf)), line, offset, pos, bytes + 2, Ghost(d));
        } else {
            self.unknown_char(session, c);
            self.advance1(Ghost(session.diags()));
        }
    }

    fn read_number(&mut self, len: usize, Ghost(d): Ghost<Seq<DiagV>>, Ghost(base): Ghost<LexSt>) -> (buf: Vec<char>)
        requires
            room(base, len as int),
            within(old(self).st(d), base, len as int),
            old(self).pos < len,
            old(self).chars@.len() <= len,
            old(self).pos < old(self).chars@.len(),
            is_dec_digit(old(self).chars@[old(self).pos as int]),
        ensures
            (final(self).st(d), buf@) == scan_number(old(self).chars@, len as int, old(self).st(d), Seq::empty()),
            final(self).pos > old(self).pos,
            within(final(self).st(d), base, len as int),
            final(self).chars@ == old(self).chars@,
            final(self).file_id == old(self).file_id,
            final(self).pos <= len,
            forall|j: int| 0 <= j < buf@.len() ==> (#[trigger] buf@[j] == '.' || is_dec_digit(buf@[j])),
            buf@.len() <= len,
    {
        let mut buf: Vec<char> = Vec::new();
        let ghost cs = self.chars@;
        let ghost target = scan_number(cs, len as int, self.st(d), Seq::empty());
        let ghost p0 = self.pos;
        while self.pos < len
            invariant
                p0 < len,
                p0 < cs.len(),
                is_dec_digit(cs[p0 as int]),
                scan_number(cs, len as int, self.st(d), buf@) == target,
                within(self.st(d), base, len as int),
                room(base, len as int),
                self.chars@ == cs,
                self.file_id == old(self).file_id,
                cs.len() <= len,
                self.pos <= len,
                forall|j: int| 0 <= j < buf@.len() ==> (#[trigger] buf@[j] == '.' || is_dec_digit(buf@[j])),
                buf@.len() <= self.pos - p0,
                self.pos >= p0,
            ensures
                scan_number(cs, len as int, self.st(d), buf@) == (self.st(d), buf@),
                within(self.st(d), base, len as int),
                self.chars@ == cs,
                self.file_id == old(self).file_id,
                self.pos <= len,
                forall|j: int| 0 <= j < buf@.len() ==> (#[trigger] buf@[j] == '.' || is_dec_digit(buf@[j])),
                buf@.len() <= len,
                self.pos > p0,
            decreases len - self.pos,
        {
            match self.peek(0) {
                Some(c) => {
                    if c == '.' || is_digit(c) {
                        buf.push(c);
                        self.advance1(Ghost(d));
                    } else {
                        break;
                    }
                },
                None => {
                    self.advance1(Ghost(d));
                },
            }
        }
        buf
    }

    fn read_word(&mut self, len: usize, Ghost(d): Ghost<Seq<DiagV>>, Ghost(base): Ghost<LexSt>) -> (r: (Vec<char>, usize))
        requires
            room(base, len as int),
            within(old(self).st(d), base, len as int),
            old(self).pos < len,
            old(self).chars@.len() <= len,
            scan_word(old(self).chars@, len as int, old(self).st(d), Seq::empty()) is Some,
            old(self).pos < old(self).chars@.len(),
            char_alphabetic(old(self).chars@[old(self).pos as int]),
        ensures
            Some((final(self).st(d), r.0@)) == scan_word(old(self).chars@, len as int, old(self).st(d), Seq::empty()),
            final(self).pos > old(self).pos,
            r.1 == utf8_len(r.0@),
            within(final(self).st(d), base, len as int),
            final(self).chars@ == old(self).chars@,
            final(self).file_id == old(self).file_id,
            final(self).pos <= len,
    {
        let mut buf: Vec<char> = Vec::new();
        let mut bytes: usize = 0;
        let ghost cs = self.chars@;
        let ghost target = scan_word(cs, len as int, self.st(d), Seq::empty());
        proof {
            lemma_utf8_len_bound(cs);
        }
        let ghost p0 = self.pos;
        while self.pos < len
            invariant
                p0 < len,
                p0 < cs.len(),
                char_alphabetic(cs[p0 as int]),
                scan_word(cs, len as int, self.st(d), buf@) == target,
                target is Some,
                within(self.st(d), base, len as int),
                room(base, len as int),
                self.chars@ == cs,
                self.file_id == old(self).file_id,
                cs.len() <= len,
                self.pos <= len,
                bytes == utf8_len(buf@),
                buf@.len() <= self.pos - p0,
                self.pos >= p0,
                utf8_len(buf@) <= 4 * buf@.len(),
            ensures
                Some((self.st(d), buf@)) == target,
                within(self.st(d), base, len as int),
                self.chars@ == cs,
                self.file_id == old(self).file_id,
                self.pos <= len,
                bytes == utf8_len(buf@),
                self.pos > p0,
            decreases len - self.pos,
        {
            match self.peek(0) {
                Some(c) => {
                    if is_alphabetic(c) || is_digit(c) || c == '_' {
                        let w = char_utf8_width(c);
                        proof {
                            lemma_utf8_len_bound(buf@.push(c));
                            assert(buf@.push(c).drop_last() == buf@);
                        }
                        buf.push(c);
                        bytes = bytes + w;
                        self.advance1(Ghost(d));
                    } else {
                        break;
                    }
                },
                None => {
                    assert(false);
                    break;
                },
            }
        }
        (buf, bytes)
    }

    fn read_string(&mut self, len: usize, Ghost(d): Ghost<Seq<DiagV>>, Ghost(base): Ghost<LexSt>) -> (r: (Vec<char>, usize))
        requires
            room(base, len as int),
            within(old(self).st(d), base, len as int),
            old(self).pos <= len,
            old(self).chars@.len() <= len,
        ensures
            (final(self).st(d), r.0@) == scan_string(old(self).chars@, len as int, old(self).st(d), Seq::empty()),
            r.1 == utf8_len(r.0@),
            within(final(self).st(d), base, len as int),
            final(self).chars@ == old(self).chars@,
            final(self).file_id == old(self).file_id,
            final(self).pos <= len,
            r.1 <= 4 * len,
            final(self).pos >= old(self).pos,
    {
        let mut buf: Vec<char> = Vec::new();
        let mut bytes: usize = 0;
        let ghost cs = self.chars@;
        let ghost target = scan_string(cs, len as int, self.st(d), Seq::empty());
        proof {
            lemma_utf8_len_bound(cs);
        }
        let ghost p0 = self.pos;
        while self.pos < len
            invariant_except_break
                scan_string(cs, len as int, self.st(d), buf@) == target,
            invariant
                within(self.st(d), base, len as int),
                room(base, len as int),
                self.chars@ == cs,
                self.file_id == old(self).file_id,
                cs.len() <= len,
                self.pos <= len,
                bytes == utf8_len(buf@),
                buf@.len() <= self.pos - p0,
                self.pos >= p0,
                utf8_len(buf@) <= 4 * buf@.len(),
                self.pos >= p0,
            ensures
                self.pos >= p0,
                target == (self.st(d), buf@),
                within(self.st(d), base, len as int),
                self.chars@ == cs,
                self.file_id == old(self).file_id,
                self.pos <= len,
                bytes == utf8_len(buf@),
                bytes <= 4 * len,
            decreases len - self.pos,
        {
            let current = self.peek(0);
            self.advance1(Ghost(d));
            match current {
                Some(c) => {
                    if c != '"' {
                        let w = char_utf8_width(c);
                        proof {
                            lemma_utf8_len_bound(buf@.push(c));
                            assert(buf@.push(c).drop_last() == buf@);
                        }
                        buf.push(c);
                        bytes = bytes + w;
                    } else {
                        break;
                    }
                },
                None => {},
            }
        }
        (buf, bytes)
    }
}


/// `b` extends `a`: the tokens and diagnostics of `a` stay first and unchanged,
/// and no token added after them marks the end of the file.
pub open spec fn extends(a: LexSt, b: LexSt) -> bool {
    &&& a.toks.len() <= b.toks.len()
    &&& b.toks.take(a.toks.len() as int) == a.toks
    &&& forall|i: int| a.toks.len() <= i < b.toks.len() ==> (#[trigger] b.toks[i]).kind != KindV::Eof
    &&& a.diags.len() <= b.diags.len()
    &&& b.diags.take(a.diags.len() as int) == a.diags
}

proof fn lemma_extends_trans(a: LexSt, b: LexSt, c: LexSt)
    requires
        extends(a, b),
        extends(b, c),
    ensures
        extends(a, c),
{
    assert(c.toks.take(a.toks.len() as int) =~= a.toks) by {
        assert forall|i: int| 0 <= i < a.toks.len() implies c.toks.take(a.toks.len() as int)[i] == a.toks[i] by {
            assert(c.toks.take(b.toks.len() as int)[i] == c.toks[i]);
            assert(b.toks.take(a.toks.len() as int)[i] == b.toks[i]);
        }
    }
    assert forall|i: int| a.toks.len() <= i < c.toks.len() implies (#[trigger] c.toks[i]).kind != KindV::Eof by {
        if i < b.toks.len() {
            assert(c.toks.take(b.toks.len() as int)[i] == c.toks[i]);
            assert(b.toks[i] == c.toks[i]);
        }
    }
    assert(c.diags.take(a.diags.len() as int) =~= a.diags) by {
        assert(c.diags.take(b.diags.len() as int) == b.diags);
        assert forall|i: int| 0 <= i < a.diags.len() implies c.diags.take(a.diags.len() as int)[i] == a.diags[i] by {
            assert(c.diags.take(b.diags.len() as int)[i] == c.diags[i]);
            assert(b.diags.take(a.diags.len() as int)[i] == b.diags[i]);
        }
    }
}

proof fn lemma_extends_refl(a: LexSt)
    ensures
        extends(a, a),
{
    assert(a.toks.take(a.toks.len() as int) =~= a.toks);
    assert(a.diags.take(a.diags.len() as int) =~= a.diags);
}

proof fn lemma_same_marks(a: LexSt, b: LexSt)
    requires
        a.toks == b.toks,
        a.diags == b.diags,
    ensures
        extends(a, b),
{
    lemma_extends_refl(a);
}

proof fn lemma_push_extends(st: LexSt, kind: KindV, line: int, offset: int, pos: int, len: int)
    requires
        kind != KindV::Eof,
    ensures
        extends(st, push_tok(st, kind, line, offset, pos, len)),
{
    let s2 = push_tok(st, kind, line, offset, pos, len);
    assert(s2.toks.take(st.toks.len() as int) =~= st.toks);
    assert(s2.diags.take(st.diags.len() as int) =~= st.diags);
}

proof fn lemma_emit_extends(st: LexSt, d: DiagV)
    ensures
        extends(st, emit(st, d)),
{
    let s2 = emit(st, d);
    assert(s2.toks.take(st.toks.len() as int) =~= st.toks);
    assert(s2.diags.take(st.diags.len() as int) =~= st.diags);
}

proof fn lemma_advance_marks(cs: Seq<char>, st: LexSt, n: nat)
    ensures
        advance(cs, st, n).toks == st.toks,
        advance(cs, st, n).diags == st.diags,
    decreases n,
{
    if n > 0 {
        lemma_advance_marks(cs, advance1(cs, st), (n - 1) as nat);
    }
}

proof fn lemma_skip_marks(cs: Seq<char>, len: int, st: LexSt)
    ensures
        skip_line(cs, len, st).toks == st.toks,
        skip_line(cs, len, st).diags == st.diags,
        skip_block(cs, len, st).toks == st.toks,
        skip_block(cs, len, st).diags == st.diags,
    decreases len - st.pos,
{
    if st.pos < len {
        lemma_skip_marks(cs, len, advance1(cs, st));
    }
}

proof fn lemma_scan_marks(cs: Seq<char>, len: int, st: LexSt, buf: Seq<char>)
    ensures
        scan_number(cs, len, st, buf).0.toks == st.toks,
        scan_number(cs, len, st, buf).0.diags == st.diags,
        scan_string(cs, len, st, buf).0.toks == st.toks,
        scan_string(cs, len, st, buf).0.diags == st.diags,
        scan_word(cs, len, st, buf) matches Some(r) ==> r.0.toks == st.toks && r.0.diags == st.diags,
    decreases len - st.pos,
{
    if st.pos < len {
        let c = peek_at(cs, st.pos);
        lemma_scan_marks(cs, len, advance1(cs, st), buf);
        if c is Some {
            lemma_scan_marks(cs, len, advance1(cs, st), buf.push(c.unwrap()));
        }
    }
}

proof fn lemma_number_extends(fid: nat, st: LexSt, buf: Seq<char>, line: int, offset: int, pos: int)
    ensures
        extends(st, number_token(fid, st, buf, line, offset, pos)),
{
    if count_char(buf, '.') > 0 {
        if count_char(buf, '.') == 1 {
            lemma_push_extends(st, KindV::Float(buf), line, offset, pos, buf.len() as int);
        } else {
            let e = emit(st, number_error(fid, line, offset, buf.len(), "invalid float literal"@));
            lemma_emit_extends(st, number_error(fid, line, offset, buf.len(), "invalid float literal"@));
            lemma_push_extends(e, KindV::Float("0.0"@), line, offset, pos, buf.len() as int);
            lemma_extends_trans(st, e, number_token(fid, st, buf, line, offset, pos));
        }
    } else if digits_value(buf) <= i64::MAX {
        lemma_push_extends(st, KindV::Int(digits_value(buf) as i64), line, offset, pos, buf.len() as int);
    } else {
        let d = number_error(fid, line, offset, buf.len(), "number too large to fit in target type"@);
        lemma_emit_extends(st, d);
        lemma_push_extends(emit(st, d), KindV::Int(0), line, offset, pos, buf.len() as int);
        lemma_extends_trans(st, emit(st, d), number_token(fid, st, buf, line, offset, pos));
    }
}

proof fn lemma_slash_extends(cs: Seq<char>, len: int, st: LexSt)
    ensures
        extends(st, slash_step(cs, len, st)),
{
    let r = slash_step(cs, len, st);
    if peek_at(cs, st.pos + 1) == Some('=') {
        let p = push_tok(st, KindV::AssignSlash, st.line, st.offset, st.pos, 2);
        lemma_push_extends(st, KindV::AssignSlash, st.line, st.offset, st.pos, 2);
        lemma_advance_marks(cs, p, 2);
        lemma_same_marks(p, r);
        lemma_extends_trans(st, p, r);
    } else if peek_at(cs, st.pos + 1) == Some('/') {
        lemma_advance_marks(cs, st, 2);
        lemma_skip_marks(cs, len, advance(cs, st, 2));
        lemma_same_marks(st, r);
    } else if peek_at(cs, st.pos + 1) == Some('*') {
        lemma_advance_marks(cs, st, 2);
        lemma_skip_marks(cs, len, advance(cs, st, 2));
        lemma_advance_marks(cs, skip_block(cs, len, advance(cs, st, 2)), 2);
        lemma_same_marks(st, r);
    } else {
        let p = push_tok(st, KindV::Slash, st.line, st.offset, st.pos, 1);
        lemma_push_extends(st, KindV::Slash, st.line, st.offset, st.pos, 1);
        lemma_same_marks(p, r);
        lemma_extends_trans(st, p, r);
    }
}

#[verifier::spinoff_prover]
proof fn lemma_step_extends(cs: Seq<char>, len: int, fid: nat, st: LexSt)
    requires
        0 <= st.pos < cs.len(),
        lex_step(cs, len, fid, st) is Some,
    ensures
        extends(st, lex_step(cs, len, fid, st).unwrap()),
{
    let c = cs[st.pos];
    let r = lex_step(cs, len, fid, st).unwrap();
    if is_ws(c) {
        lemma_same_marks(st, r);
    } else if single_kind(c) is Some {
        let p = push_tok(st, single_kind(c).unwrap(), st.line, st.offset, st.pos, 1);
        lemma_push_extends(st, single_kind(c).unwrap(), st.line, st.offset, st.pos, 1);
        lemma_same_marks(p, r);
        lemma_extends_trans(st, p, r);
    } else if double_kinds(c) is Some {
        let (second, pair, single) = double_kinds(c).unwrap();
        if peek_at(cs, st.pos + 1) == Some(second) {
            let p = push_tok(st, pair, st.line, st.offset, st.pos, 2);
            lemma_push_extends(st, pair, st.line, st.offset, st.pos, 2);
            lemma_advance_marks(cs, p, 2);
            lemma_same_marks(p, r);
            lemma_extends_trans(st, p, r);
        } else {
            let p = push_tok(st, single, st.line, st.offset, st.pos, 1);
            lemma_push_extends(st, single, st.line, st.offset, st.pos, 1);
            lemma_same_marks(p, r);
            lemma_extends_trans(st, p, r);
        }
    } else if c == '|' {
        if peek_at(cs, st.pos + 1) == Some('|') {
            let p = push_tok(st, KindV::Or, st.line, st.offset, st.pos, 2);
            lemma_push_extends(st, KindV::Or, st.line, st.offset, st.pos, 2);
            lemma_advance_marks(cs, p, 2);
            lemma_same_marks(p, r);
            lemma_extends_trans(st, p, r);
        } else {
            let p = emit(st, lone_pipe_error(fid, st.line, st.offset));
            lemma_emit_extends(st, lone_pipe_error(fid, st.line, st.offset));
            lemma_same_marks(p, r);
            lemma_extends_trans(st, p, r);
        }
    } else if c == '/' {
        lemma_slash_extends(cs, len, st);
    } else if is_dec_digit(c) {
        let (st2, buf) = scan_number(cs, len, st, Seq::empty());
        lemma_scan_marks(cs, len, st, Seq::empty());
        lemma_same_marks(st, st2);
        lemma_number_extends(fid, st2, buf, st.line, st.offset, st.pos);
        lemma_extends_trans(st, st2, r);
    } else if char_alphabetic(c) {
        let (st2, buf) = scan_word(cs, len, st, Seq::empty()).unwrap();
        lemma_scan_marks(cs, len, st, Seq::empty());
        lemma_same_marks(st, st2);
        lemma_push_extends(st2, word_kind(buf), st.line, st.offset, st.pos, utf8_len(buf) as int);
        lemma_extends_trans(st, st2, r);
    } else if c == '"' {
        let (st2, buf) = scan_string(cs, len, advance1(cs, st), Seq::empty());
        lemma_scan_marks(cs, len, advance1(cs, st), Seq::empty());
        let p = advance1(cs, st2);
        lemma_same_marks(st, p);
        lemma_push_extends(p, KindV::Str(buf), st.line, st.offset, st.pos, (utf8_len(buf) + 2) as int);
        lemma_extends_trans(st, p, r);
    } else {
        let d = plain_error(unknown_char_message(c), span_v(fid, st.line as nat, st.offset as nat, 1), Phase::Lexing);
        lemma_emit_extends(st, d);
        lemma_same_marks(emit(st, d), r);
        lemma_extends_trans(st, emit(st, d), r);
    }
}

proof fn lemma_run_extends(cs: Seq<char>, len: int, fid: nat, st: LexSt)
    requires
        lex_run(cs, len, fid, st) is Some,
    ensures
        extends(st, lex_run(cs, len, fid, st).unwrap()),
    decreases (if st.pos < len { len - st.pos } else { 0 }),
{
    if st.pos < len && peek_at(cs, st.pos) is Some {
        let st2 = lex_step(cs, len, fid, st).unwrap();
        lemma_step_extends(cs, len, fid, st);
        lemma_run_extends(cs, len, fid, st2);
        lemma_extends_trans(st, st2, lex_run(cs, len, fid, st).unwrap());
    } else {
        lemma_extends_refl(st);
    }
}

/// Lexing only appends: the tokens and diagnostics already held stay first and
/// unchanged, the tokens made end with exactly one `Eof`, the last one.
pub proof fn law_lexing_appends_one_eof(cs: Seq<char>, len: int, fid: nat, st: LexSt)
    requires
        lex_all(cs, len, fid, st) is Some,
    ensures
        ({
            let s = lex_all(cs, len, fid, st).unwrap();
            &&& st.toks.len() < s.toks.len()
            &&& s.toks.take(st.toks.len() as int) == st.toks
            &&& s.toks.last().kind == KindV::Eof
            &&& forall|i: int| st.toks.len() <= i < s.toks.len() - 1 ==> (#[trigger] s.toks[i]).kind != KindV::Eof
            &&& s.diags.take(st.diags.len() as int) == st.diags
        }),
{
    let r = lex_run(cs, len, fid, st).unwrap();
    lemma_run_extends(cs, len, fid, st);
    let s = lex_all(cs, len, fid, st).unwrap();
    assert(s.toks.drop_last() == r.toks);
    assert(s.toks.take(st.toks.len() as int) =~= r.toks.take(st.toks.len() as int));
    assert forall|i: int| st.toks.len() <= i < s.toks.len() - 1 implies (#[trigger] s.toks[i]).kind != KindV::Eof by {
        assert(s.toks[i] == r.toks[i]);
    }
}

/// A keyword's text is read back as that keyword, and `true` and `false` as booleans.
pub proof fn law_keyword_round_trip(k: Keyword)
    ensures
        word_kind(keyword_text(k)) == KindV::Keyword(k),
        word_kind("true"@) == KindV::Bool(true),
        word_kind("false"@) == KindV::Bool(false),
{
    reveal_strlit("true");
    reveal_strlit("false");
    reveal_strlit("fn");
    reveal_strlit("while");
    reveal_strlit("fix");
    reveal_strlit("mut");
    reveal_strlit("break");
    reveal_strlit("continue");
    reveal_strlit("if");
    reveal_strlit("elif");
    reveal_strlit("else");
    reveal_strlit("ret");
    reveal_strlit("extern");
    reveal_strlit("pub");
    reveal_strlit("use");
    assert("true"@.len() == 4 && "false"@.len() == 5 && "fn"@.len() == 2 && "while"@.len() == 5);
    assert("fix"@.len() == 3 && "mut"@.len() == 3 && "break"@.len() == 5 && "continue"@.len() == 8);
    assert("if"@.len() == 2 && "elif"@.len() == 4 && "else"@.len() == 4 && "ret"@.len() == 3);
    assert("extern"@.len() == 6 && "pub"@.len() == 3 && "use"@.len() == 3);
    assert("false"@[0] != "while"@[0]);
    match k {
        Keyword::Fn => {
            assert("fn"@ != "true"@ && "fn"@ != "false"@);
        },
        Keyword::While => {
            assert("while"@ != "true"@ && "while"@ != "false"@ && "while"@ != "fn"@);
        },
        Keyword::Fix => {
            assert("fix"@[1] != "fn"@[1]);
            assert("fix"@ != "true"@ && "fix"@ != "false"@ && "fix"@ != "fn"@ && "fix"@ != "while"@);
        },
        Keyword::Mut => {
            assert("mut"@[0] != "fix"@[0]);
            assert("mut"@ != "true"@ && "mut"@ != "false"@ && "mut"@ != "fn"@ && "mut"@ != "while"@ && "mut"@ != "fix"@);
        },
        Keyword::Break => {
            assert("break"@[0] != "while"@[0] && "break"@[0] != "false"@[0]);
            assert("break"@ != "true"@ && "break"@ != "false"@ && "break"@ != "fn"@ && "break"@ != "while"@);
        },
        Keyword::Continue => {
            assert("continue"@ != "true"@ && "continue"@ != "false"@ && "continue"@ != "fn"@);
        },
        Keyword::If => {
            assert("if"@[0] != "fn"@[0]);
            assert("if"@ != "true"@ && "if"@ != "false"@ && "if"@ != "fn"@ && "if"@ != "while"@);
        },
        Keyword::Elif => {
            assert("elif"@[0] != "true"@[0]);
            assert("elif"@ != "true"@ && "elif"@ != "false"@ && "elif"@ != "fn"@ && "elif"@ != "while"@);
        },
        Keyword::Else => {
            assert("else"@[0] != "true"@[0] && "else"@[2] != "elif"@[2]);
            assert("else"@ != "true"@ && "else"@ != "false"@ && "else"@ != "fn"@ && "else"@ != "elif"@);
        },
        Keyword::Ret => {
            assert("ret"@[0] != "fix"@[0] && "ret"@[0] != "mut"@[0] && "ret"@[0] != "fn"@[0]);
            assert("ret"@ != "true"@ && "ret"@ != "false"@ && "ret"@ != "fix"@ && "ret"@ != "mut"@);
        },
        Keyword::Extern => {
            assert("extern"@ != "true"@ && "extern"@ != "false"@ && "extern"@ != "fn"@);
        },
        Keyword::Pub => {
            assert("pub"@[0] != "fix"@[0] && "pub"@[0] != "mut"@[0] && "pub"@[0] != "ret"@[0]);
            assert("pub"@ != "true"@ && "pub"@ != "false"@ && "pub"@ != "fix"@ && "pub"@ != "mut"@ && "pub"@ != "ret"@);
        },
        Keyword::Use => {
            assert("use"@[0] != "fix"@[0] && "use"@[0] != "mut"@[0] && "use"@[0] != "ret"@[0] && "use"@[0] != "pub"@[0]);
            assert("use"@ != "true"@ && "use"@ != "false"@ && "use"@ != "fix"@ && "use"@ != "mut"@ && "use"@ != "ret"@ && "use"@ != "pub"@);
        },
    }
}

proof fn lemma_advance_pos(cs: Seq<char>, st: LexSt, n: nat)
    ensures
        advance(cs, st, n).pos == st.pos + n,
    decreases n,
{
    if n > 0 {
        lemma_advance_pos(cs, advance1(cs, st), (n - 1) as nat);
    }
}

proof fn lemma_skip_pos(cs: Seq<char>, len: int, st: LexSt)
    ensures
        skip_line(cs, len, st).pos >= st.pos,
        skip_block(cs, len, st).pos >= st.pos,
    decreases len - st.pos,
{
    if st.pos < len {
        lemma_skip_pos(cs, len, advance1(cs, st));
    }
}

/// The scanners never move back, and where the length does not pass the last
/// character a word is always read to its end.
proof fn lemma_scan_pos(cs: Seq<char>, len: int, st: LexSt, buf: Seq<char>)
    requires
        len <= cs.len(),
        0 <= st.pos,
    ensures
        scan_number(cs, len, st, buf).0.pos >= st.pos,
        scan_string(cs, len, st, buf).0.pos >= st.pos,
        scan_word(cs, len, st, buf) is Some,
        scan_word(cs, len, st, buf).unwrap().0.pos >= st.pos,
        st.pos < len && is_dec_digit(cs[st.pos]) ==> scan_number(cs, len, st, buf).0.pos > st.pos,
        st.pos < len && is_word_char(cs[st.pos]) ==> scan_word(cs, len, st, buf).unwrap().0.pos > st.pos,
    decreases len - st.pos,
{
    if st.pos < len {
        let c = cs[st.pos];
        lemma_scan_pos(cs, len, advance1(cs, st), buf);
        lemma_scan_pos(cs, len, advance1(cs, st), buf.push(c));
    }
}

/// Each turn of the lexer's loop moves forward, where the length does not pass the
/// last character.
#[verifier::spinoff_prover]
proof fn lemma_step_moves(cs: Seq<char>, len: int, fid: nat, st: LexSt)
    requires
        len <= cs.len(),
        0 <= st.pos < len,
    ensures
        lex_step(cs, len, fid, st) is Some,
        lex_step(cs, len, fid, st).unwrap().pos > st.pos,
{
    let c = cs[st.pos];
    lemma_advance_pos(cs, st, 2);
    lemma_scan_pos(cs, len, st, Seq::empty());
    lemma_scan_pos(cs, len, advance1(cs, st), Seq::empty());
    if double_kinds(c) is Some {
        let (second, pair, single) = double_kinds(c).unwrap();
        lemma_advance_pos(cs, push_tok(st, pair, st.line, st.offset, st.pos, 2), 2);
    } else if c == '|' {
        lemma_advance_pos(cs, push_tok(st, KindV::Or, st.line, st.offset, st.pos, 2), 2);
    } else if c == '/' {
        lemma_advance_pos(cs, push_tok(st, KindV::AssignSlash, st.line, st.offset, st.pos, 2), 2);
        lemma_skip_pos(cs, len, advance(cs, st, 2));
        lemma_advance_pos(cs, skip_block(cs, len, advance(cs, st, 2)), 2);
    }
}

/// The lexer finishes whenever the length it is given does not pass the last
/// character: on every text whose length in bytes is its number of characters.
pub proof fn law_lexer_finishes(cs: Seq<char>, len: int, fid: nat, st: LexSt)
    requires
        len <= cs.len(),
        0 <= st.pos,
    ensures
        lex_all(cs, len, fid, st) is Some,
    decreases (if st.pos < len { len - st.pos } else { 0 }),
{
    if st.pos < len && peek_at(cs, st.pos) is Some {
        lemma_step_moves(cs, len, fid, st);
        law_lexer_finishes(cs, len, fid, lex_step(cs, len, fid, st).unwrap());
    }
}

/// A text of one-byte characters is as long in bytes as in characters.
pub proof fn law_ascii_length(cs: Seq<char>)
    requires
        forall|i: int| 0 <= i < cs.len() ==> (#[trigger] cs[i] as u32) < 0x80,
    ensures
        utf8_len(cs) == cs.len(),
    decreases cs.len(),
{
    if cs.len() > 0 {
        assert forall|i: int| 0 <= i < cs.drop_last().len() implies (#[trigger] cs.drop_last()[i] as u32) < 0x80 by {
            assert(cs.drop_last()[i] == cs[i]);
        }
        law_ascii_length(cs.drop_last());
        assert((cs.last() as u32) < 0x80) by {
            assert(cs.last() == cs[cs.len() - 1]);
        }
    }
}

/// Every token from position `a.toks.len()` on in `b` starts at `p`, on the line and at
/// the column `a` was at, and there is at most one.
pub open spec fn pushed_at(a: LexSt, b: LexSt, p: int) -> bool {
    &&& b.toks.len() <= a.toks.len() + 1
    &&& forall|i: int| a.toks.len() <= i < b.toks.len() ==> (#[trigger] b.toks[i]).pos == p
        && b.toks[i].line == a.line as nat && b.toks[i].offset == a.offset as nat
}

/// Tokens in the order of the text: each starts after the one before.
pub open spec fn in_text_order(toks: Seq<TokenV>) -> bool {
    forall|i: int, j: int| 0 <= i < j < toks.len() ==> (#[trigger] toks[i]).pos < (#[trigger] toks[j]).pos
}

#[verifier::spinoff_prover]
proof fn lemma_step_pushed_at(cs: Seq<char>, len: int, fid: nat, st: LexSt)
    requires
        0 <= st.pos < cs.len(),
        lex_step(cs, len, fid, st) is Some,
    ensures
        pushed_at(st, lex_step(cs, len, fid, st).unwrap(), st.pos),
{
    let c = cs[st.pos];
    let r = lex_step(cs, len, fid, st).unwrap();
    lemma_advance_marks(cs, st, 2);
    lemma_scan_marks(cs, len, st, Seq::empty());
    lemma_scan_marks(cs, len, advance1(cs, st), Seq::empty());
    if double_kinds(c) is Some {
        let (second, pair, single) = double_kinds(c).unwrap();
        lemma_advance_marks(cs, push_tok(st, pair, st.line, st.offset, st.pos, 2), 2);
    } else if c == '|' {
        lemma_advance_marks(cs, push_tok(st, KindV::Or, st.line, st.offset, st.pos, 2), 2);
    } else if c == '/' {
        lemma_advance_marks(cs, push_tok(st, KindV::AssignSlash, st.line, st.offset, st.pos, 2), 2);
        lemma_skip_marks(cs, len, advance(cs, st, 2));
        lemma_advance_marks(cs, skip_block(cs, len, advance(cs, st, 2)), 2);
    } else if is_dec_digit(c) {
        let (st2, buf) = scan_number(cs, len, st, Seq::empty());
        let d1 = number_error(fid, st.line, st.offset, buf.len(), "invalid float literal"@);
        let d2 = number_error(fid, st.line, st.offset, buf.len(), "number too large to fit in target type"@);
        assert(emit(st2, d1).toks == st2.toks);
        assert(emit(st2, d2).toks == st2.toks);
    }
}

proof fn lemma_run_in_order(cs: Seq<char>, len: int, fid: nat, st: LexSt)
    requires
        lex_run(cs, len, fid, st) is Some,
        in_text_order(st.toks),
        forall|i: int| 0 <= i < st.toks.len() ==> (#[trigger] st.toks[i]).pos < st.pos,
    ensures
        in_text_order(lex_run(cs, len, fid, st).unwrap().toks),
        forall|i: int| 0 <= i < lex_run(cs, len, fid, st).unwrap().toks.len() ==> (#[trigger] lex_run(
            cs,
            len,
            fid,
            st,
        ).unwrap().toks[i]).pos < lex_run(cs, len, fid, st).unwrap().pos,
        lex_run(cs, len, fid, st).unwrap().pos >= st.pos,
    decreases (if st.pos < len { len - st.pos } else { 0 }),
{
    if st.pos < len && peek_at(cs, st.pos) is Some {
        let r = lex_step(cs, len, fid, st).unwrap();
        lemma_step_extends(cs, len, fid, st);
        lemma_step_pushed_at(cs, len, fid, st);
        let n = st.toks.len() as int;
        assert forall|i: int| 0 <= i < n implies r.toks[i] == st.toks[i] by {
            assert(r.toks.take(n)[i] == r.toks[i]);
        }
        assert forall|i: int| 0 <= i < r.toks.len() implies (#[trigger] r.toks[i]).pos < r.pos by {
            if i < n {
                assert(r.toks[i] == st.toks[i]);
            }
        }
        assert forall|i: int, j: int| 0 <= i < j < r.toks.len() implies (#[trigger] r.toks[i]).pos < (#[trigger] r.toks[j]).pos by {
            if j < n {
                assert(r.toks[i] == st.toks[i]);
                assert(r.toks[j] == st.toks[j]);
            } else {
                assert(i < n);
                assert(r.toks[i] == st.toks[i]);
            }
        }
        lemma_run_in_order(cs, len, fid, r);
    }
}

/// The lexer's tokens come in the order of the text, each starting after the one
/// before, the last (`Eof`) where the lexing stopped.
pub proof fn law_tokens_in_text_order(cs: Seq<char>, len: int, fid: nat, st: LexSt)
    requires
        lex_all(cs, len, fid, st) is Some,
        in_text_order(st.toks),
        forall|i: int| 0 <= i < st.toks.len() ==> (#[trigger] st.toks[i]).pos < st.pos,
    ensures
        in_text_order(lex_all(cs, len, fid, st).unwrap().toks),
{
    let r = lex_run(cs, len, fid, st).unwrap();
    lemma_run_in_order(cs, len, fid, st);
    let s = lex_all(cs, len, fid, st).unwrap();
    assert forall|i: int, j: int| 0 <= i < j < s.toks.len() implies (#[trigger] s.toks[i]).pos < (#[trigger] s.toks[j]).pos by {
        assert(s.toks[i] == r.toks[i]);
        if j < r.toks.len() {
            assert(s.toks[j] == r.toks[j]);
        }
    }
}

/// The lexer's line and column are those of its position in the text.
pub open spec fn tracks(cs: Seq<char>, st: LexSt) -> bool {
    &&& st.pos >= 0
    &&& st.pos <= cs.len() ==> st.line == line_at(cs, st.pos) && st.offset == column_at(cs, st.pos)
}

/// Diagnostic `d` points at the character at `p`, which is no newline; a help it has
/// covers that one character.
pub open spec fn points_at(cs: Seq<char>, fid: nat, d: DiagV, p: int) -> bool {
    &&& 0 <= p < cs.len()
    &&& cs[p] != '\n'
    &&& d.span.id == fid
    &&& d.span.line == line_at(cs, p)
    &&& d.span.offset == column_at(cs, p)
    &&& forall|j: int| 0 <= j < d.helps.len() ==> (#[trigger] d.helps[j]).span == span_v(fid, line_at(cs, p), column_at(cs, p), 1)
        && d.helps[j].fixed == "||"@
}

/// Diagnostic `d` points at some character of the text.
pub open spec fn points_in(cs: Seq<char>, fid: nat, d: DiagV) -> bool {
    exists|p: int| #[trigger] points_at(cs, fid, d, p)
}

/// The diagnostics of `b` past those of `a` each point at some character.
pub open spec fn new_diags_point(cs: Seq<char>, fid: nat, a: LexSt, b: LexSt) -> bool {
    forall|i: int| a.diags.len() <= i < b.diags.len() ==> #[trigger] points_in(cs, fid, b.diags[i])
}

proof fn lemma_advance1_tracks(cs: Seq<char>, st: LexSt)
    requires
        tracks(cs, st),
    ensures
        tracks(cs, advance1(cs, st)),
{
    if st.pos < cs.len() {
        lemma_line_column_step(cs, st.pos);
    }
}

proof fn lemma_advance_tracks(cs: Seq<char>, st: LexSt, n: nat)
    requires
        tracks(cs, st),
    ensures
        tracks(cs, advance(cs, st, n)),
    decreases n,
{
    if n > 0 {
        lemma_advance1_tracks(cs, st);
        lemma_advance_tracks(cs, advance1(cs, st), (n - 1) as nat);
    }
}

proof fn lemma_skip_tracks(cs: Seq<char>, len: int, st: LexSt)
    requires
        tracks(cs, st),
    ensures
        tracks(cs, skip_line(cs, len, st)),
        tracks(cs, skip_block(cs, len, st)),
    decreases len - st.pos,
{
    if st.pos < len {
        lemma_advance1_tracks(cs, st);
        lemma_skip_tracks(cs, len, advance1(cs, st));
    }
}

proof fn lemma_scan_tracks(cs: Seq<char>, len: int, st: LexSt, buf: Seq<char>)
    requires
        tracks(cs, st),
    ensures
        tracks(cs, scan_number(cs, len, st, buf).0),
        tracks(cs, scan_string(cs, len, st, buf).0),
        scan_word(cs, len, st, buf) matches Some(r) ==> tracks(cs, r.0),
    decreases len - st.pos,
{
    if st.pos < len {
        lemma_advance1_tracks(cs, st);
        let c = peek_at(cs, st.pos);
        lemma_scan_tracks(cs, len, advance1(cs, st), buf);
        if c is Some {
            lemma_scan_tracks(cs, len, advance1(cs, st), buf.push(c.unwrap()));
        }
    }
}

#[verifier::spinoff_prover]
#[verifier::rlimit(30)]
proof fn lemma_step_tracks(cs: Seq<char>, len: int, fid: nat, st: LexSt)
    requires
        0 <= st.pos < cs.len(),
        tracks(cs, st),
        lex_step(cs, len, fid, st) is Some,
    ensures
        tracks(cs, lex_step(cs, len, fid, st).unwrap()),
        new_diags_point(cs, fid, st, lex_step(cs, len, fid, st).unwrap()),
{
    let c = cs[st.pos];
    let r = lex_step(cs, len, fid, st).unwrap();
    let p = st.pos;
    lemma_step_extends(cs, len, fid, st);
    lemma_advance1_tracks(cs, st);
    lemma_advance_tracks(cs, st, 2);
    lemma_scan_tracks(cs, len, st, Seq::empty());
    lemma_scan_tracks(cs, len, advance1(cs, st), Seq::empty());
    lemma_scan_marks(cs, len, st, Seq::empty());
    lemma_scan_marks(cs, len, advance1(cs, st), Seq::empty());
    lemma_advance_marks(cs, st, 2);
    if is_ws(c) {
    } else if single_kind(c) is Some {
        lemma_advance1_tracks(cs, push_tok(st, single_kind(c).unwrap(), st.line, st.offset, st.pos, 1));
    } else if double_kinds(c) is Some {
        let (second, pair, single) = double_kinds(c).unwrap();
        lemma_advance_tracks(cs, push_tok(st, pair, st.line, st.offset, st.pos, 2), 2);
        lemma_advance_marks(cs, push_tok(st, pair, st.line, st.offset, st.pos, 2), 2);
        lemma_advance1_tracks(cs, push_tok(st, single, st.line, st.offset, st.pos, 1));
    } else if c == '|' {
        lemma_advance_tracks(cs, push_tok(st, KindV::Or, st.line, st.offset, st.pos, 2), 2);
        lemma_advance_marks(cs, push_tok(st, KindV::Or, st.line, st.offset, st.pos, 2), 2);
        let e = emit(st, lone_pipe_error(fid, st.line, st.offset));
        lemma_advance1_tracks(cs, e);
        if peek_at(cs, st.pos + 1) != Some('|') {
            assert(r.diags.len() == st.diags.len() + 1);
            assert(r.diags.last() == lone_pipe_error(fid, st.line, st.offset));
            assert(points_at(cs, fid, r.diags[st.diags.len() as int], p));
            assert(points_in(cs, fid, r.diags[st.diags.len() as int]));
        }
    } else if c == '/' {
        lemma_advance_tracks(cs, push_tok(st, KindV::AssignSlash, st.line, st.offset, st.pos, 2), 2);
        lemma_advance_marks(cs, push_tok(st, KindV::AssignSlash, st.line, st.offset, st.pos, 2), 2);
        lemma_skip_tracks(cs, len, advance(cs, st, 2));
        lemma_skip_marks(cs, len, advance(cs, st, 2));
        lemma_advance1_tracks(cs, skip_line(cs, len, advance(cs, st, 2)));
        lemma_advance_tracks(cs, skip_block(cs, len, advance(cs, st, 2)), 2);
        lemma_advance_marks(cs, skip_block(cs, len, advance(cs, st, 2)), 2);
        lemma_advance1_tracks(cs, push_tok(st, KindV::Slash, st.line, st.offset, st.pos, 1));
    } else if is_dec_digit(c) {
        let (st2, buf) = scan_number(cs, len, st, Seq::empty());
        if r.diags.len() > st.diags.len() {
            assert(r.diags.len() == st.diags.len() + 1);
            assert(points_at(cs, fid, r.diags[st.diags.len() as int], p));
            assert(points_in(cs, fid, r.diags[st.diags.len() as int]));
        }
    } else if char_alphabetic(c) {
    } else if c == '"' {
        let (st2, buf) = scan_string(cs, len, advance1(cs, st), Seq::empty());
        lemma_advance1_tracks(cs, st2);
    } else {
        let d = plain_error(unknown_char_message(c), span_v(fid, st.line as nat, st.offset as nat, 1), Phase::Lexing);
        lemma_advance1_tracks(cs, emit(st, d));
        assert(c != '\n');
        assert(r.diags.len() == st.diags.len() + 1);
        assert(points_at(cs, fid, r.diags[st.diags.len() as int], p));
        assert(points_in(cs, fid, r.diags[st.diags.len() as int]));
    }
}

proof fn lemma_run_tracks(cs: Seq<char>, len: int, fid: nat, st: LexSt)
    requires
        lex_run(cs, len, fid, st) is Some,
        tracks(cs, st),
    ensures
        tracks(cs, lex_run(cs, len, fid, st).unwrap()),
        new_diags_point(cs, fid, st, lex_run(cs, len, fid, st).unwrap()),
    decreases (if st.pos < len { len - st.pos } else { 0 }),
{
    if st.pos < len && peek_at(cs, st.pos) is Some {
        let r = lex_step(cs, len, fid, st).unwrap();
        let f = lex_run(cs, len, fid, st).unwrap();
        lemma_step_tracks(cs, len, fid, st);
        lemma_step_extends(cs, len, fid, st);
        lemma_run_tracks(cs, len, fid, r);
        lemma_run_extends(cs, len, fid, r);
        assert(f == lex_run(cs, len, fid, r).unwrap());
        assert(new_diags_point(cs, fid, r, f));
        assert forall|i: int| st.diags.len() <= i < f.diags.len() implies #[trigger] points_in(cs, fid, f.diags[i]) by {
            if i < r.diags.len() {
                assert(f.diags.take(r.diags.len() as int)[i] == f.diags[i]);
                assert(f.diags[i] == r.diags[i]);
                assert(points_in(cs, fid, r.diags[i]));
            }
        }
    }
}

/// Every diagnostic the lexer reports on a text of one-byte characters can be shown:
/// it points at a character of the text, on one of its lines, and a fix it offers
/// replaces that one character.
pub proof fn law_lexer_errors_can_be_shown(
    cs: Seq<char>,
    fid: nat,
    st: LexSt,
    srcs: Seq<(Seq<char>, Seq<char>)>,
    v: Verbose,
)
    requires
        forall|i: int| 0 <= i < cs.len() ==> (#[trigger] cs[i] as u32) < 0x80,
        cs.len() + 2 <= usize::MAX,
        st.pos == 0,
        st.line == 0,
        st.offset == 0,
        fid < srcs.len(),
        srcs[fid as int].1 == cs,
    ensures
        lex_all(cs, cs.len() as int, fid, st) is Some,
        forall|i: int| st.diags.len() <= i < lex_all(cs, cs.len() as int, fid, st).unwrap().diags.len() ==> renderable(
            v,
            #[trigger] lex_all(cs, cs.len() as int, fid, st).unwrap().diags[i],
            srcs,
        ),
{
    let len = cs.len() as int;
    law_lexer_finishes(cs, len, fid, st);
    assert(tracks(cs, st));
    lemma_run_tracks(cs, len, fid, st);
    let s = lex_all(cs, len, fid, st).unwrap();
    reveal_strlit("||");
    assert("||"@.len() == 2);
    law_ascii_length("||"@);
    assert forall|i: int| st.diags.len() <= i < s.diags.len() implies renderable(v, #[trigger] s.diags[i], srcs) by {
        let d = s.diags[i];
        assert(points_in(cs, fid, d));
        let p = choose|p: int| #[trigger] points_at(cs, fid, d, p);
        lemma_line_at_bound(cs, p);
        lemma_line_of_at(cs, p);
        let line = line_of(cs, line_at(cs, p));
        lemma_line_of_ascii(cs, line_at(cs, p));
        lemma_char_at_byte_ascii(line, column_at(cs, p));
        lemma_char_at_byte_ascii(line, column_at(cs, p) + 1);
        assert(span_shown(srcs, d.span));
        assert forall|j: int| 0 <= j < d.helps.len() implies help_shown(srcs, #[trigger] d.helps[j]) by {
            assert(d.helps[j].span == span_v(fid, line_at(cs, p), column_at(cs, p), 1));
        }
    }
}

/// Every token of `toks` from `n` on that starts within the text has the line and
/// column of its first character.
pub open spec fn placed_from(cs: Seq<char>, toks: Seq<TokenV>, n: int) -> bool {
    forall|i: int| n <= i < toks.len() && (#[trigger] toks[i]).pos <= cs.len() ==> toks[i].line == line_at(cs, toks[i].pos as int)
        && toks[i].offset == column_at(cs, toks[i].pos as int)
}

proof fn lemma_run_placed(cs: Seq<char>, len: int, fid: nat, st: LexSt)
    requires
        lex_run(cs, len, fid, st) is Some,
        tracks(cs, st),
    ensures
        placed_from(cs, lex_run(cs, len, fid, st).unwrap().toks, st.toks.len() as int),
    decreases (if st.pos < len { len - st.pos } else { 0 }),
{
    if st.pos < len && peek_at(cs, st.pos) is Some {
        let r = lex_step(cs, len, fid, st).unwrap();
        let f = lex_run(cs, len, fid, st).unwrap();
        lemma_step_tracks(cs, len, fid, st);
        lemma_step_pushed_at(cs, len, fid, st);
        lemma_step_extends(cs, len, fid, st);
        lemma_run_placed(cs, len, fid, r);
        lemma_run_extends(cs, len, fid, r);
        assert(f == lex_run(cs, len, fid, r).unwrap());
        assert forall|i: int| st.toks.len() <= i < f.toks.len() && (#[trigger] f.toks[i]).pos <= cs.len() implies f.toks[i].line
            == line_at(cs, f.toks[i].pos as int) && f.toks[i].offset == column_at(cs, f.toks[i].pos as int) by {
            if i < r.toks.len() {
                assert(f.toks.take(r.toks.len() as int)[i] == f.toks[i]);
                assert(f.toks[i] == r.toks[i]);
            }
        }
    }
}

/// Each token the lexer makes that starts within the text knows where it stands: its
/// line and column are those of its first character.
pub proof fn law_tokens_know_their_place(cs: Seq<char>, len: int, fid: nat, st: LexSt)
    requires
        lex_all(cs, len, fid, st) is Some,
        st.pos == 0,
        st.line == 0,
        st.offset == 0,
    ensures
        placed_from(cs, lex_all(cs, len, fid, st).unwrap().toks, st.toks.len() as int),
{
    assert(tracks(cs, st));
    let r = lex_run(cs, len, fid, st).unwrap();
    lemma_run_placed(cs, len, fid, st);
    lemma_run_tracks(cs, len, fid, st);
    let s = lex_all(cs, len, fid, st).unwrap();
    assert forall|i: int| st.toks.len() <= i < s.toks.len() && (#[trigger] s.toks[i]).pos <= cs.len() implies s.toks[i].line
        == line_at(cs, s.toks[i].pos as int) && s.toks[i].offset == column_at(cs, s.toks[i].pos as int) by {
        if i < r.toks.len() {
            assert(s.toks[i] == r.toks[i]);
        }
    }
}

impl crate::lexer::Lexer for StdLexer {
    fn tokenize(&mut self, session: &mut Session, file_id: FileId) -> (r: Vec<Token>) {
        StdLexer::tokenize(self, session, file_id)
    }
}

/// The kinds of the operator and punctuation tokens, which are shown as the very
/// characters they are written with (the braces are shown doubled, and are left out).
pub open spec fn spelled(k: KindV) -> bool {
    !(k is Keyword || k is Id || k is Bool || k is Str || k is Float || k is Int || k is Eof || k is LBrace || k is RBrace)
}

/// Token `t` covers characters of `cs` that are exactly the text of its kind.
pub open spec fn spells_at(cs: Seq<char>, t: TokenV) -> bool {
    &&& t.pos + t.len <= cs.len()
    &&& cs.subrange(t.pos as int, (t.pos + t.len) as int) == kind_text(t.kind)
}

/// The operator and punctuation tokens of `toks` from `from` on each spell their text.
pub open spec fn symbols_spelled(cs: Seq<char>, toks: Seq<TokenV>, from: int) -> bool {
    forall|j: int| from <= j < toks.len() && spelled((#[trigger] toks[j]).kind) ==> spells_at(cs, toks[j])
}

proof fn lemma_symbol_texts()
    ensures
        "+"@ == seq!['+'],
        "-"@ == seq!['-'],
        "*"@ == seq!['*'],
        "/"@ == seq!['/'],
        "!"@ == seq!['!'],
        ","@ == seq![','],
        "."@ == seq!['.'],
        ";"@ == seq![';'],
        ":"@ == seq![':'],
        "::"@ == seq![':', ':'],
        "&"@ == seq!['&'],
        "="@ == seq!['='],
        "+="@ == seq!['+', '='],
        "-="@ == seq!['-', '='],
        "*="@ == seq!['*', '='],
        "/="@ == seq!['/', '='],
        "=="@ == seq!['=', '='],
        "!="@ == seq!['!', '='],
        ">"@ == seq!['>'],
        ">="@ == seq!['>', '='],
        "<"@ == seq!['<'],
        "<="@ == seq!['<', '='],
        "("@ == seq!['('],
        ")"@ == seq![')'],
        "["@ == seq!['['],
        "]"@ == seq![']'],
        "&&"@ == seq!['&', '&'],
        "||"@ == seq!['|', '|'],
{
    reveal_strlit("+");
    reveal_strlit("-");
    reveal_strlit("*");
    reveal_strlit("/");
    reveal_strlit("!");
    reveal_strlit(",");
    reveal_strlit(".");
    reveal_strlit(";");
    reveal_strlit(":");
    reveal_strlit("::");
    reveal_strlit("&");
    reveal_strlit("=");
    reveal_strlit("+=");
    reveal_strlit("-=");
    reveal_strlit("*=");
    reveal_strlit("/=");
    reveal_strlit("==");
    reveal_strlit("!=");
    reveal_strlit(">");
    reveal_strlit(">=");
    reveal_strlit("<");
    reveal_strlit("<=");
    reveal_strlit("(");
    reveal_strlit(")");
    reveal_strlit("[");
    reveal_strlit("]");
    reveal_strlit("&&");
    reveal_strlit("||");
}

proof fn lemma_spells_one(cs: Seq<char>, t: TokenV)
    requires
        t.len == 1,
        t.pos < cs.len(),
        kind_text(t.kind) == seq![cs[t.pos as int]],
    ensures
        spells_at(cs, t),
{
    assert(cs.subrange(t.pos as int, t.pos + 1int) =~= seq![cs[t.pos as int]]);
}

proof fn lemma_spells_two(cs: Seq<char>, t: TokenV)
    requires
        t.len == 2,
        t.pos + 1 < cs.len(),
        kind_text(t.kind) == seq![cs[t.pos as int], cs[t.pos + 1int]],
    ensures
        spells_at(cs, t),
{
    assert(cs.subrange(t.pos as int, t.pos + 2int) =~= seq![cs[t.pos as int], cs[t.pos + 1int]]);
}

/// One step of the lexer: an operator or punctuation token it makes spells the
/// characters it covers.
proof fn lemma_step_spells(cs: Seq<char>, len: int, fid: nat, st: LexSt)
    requires
        0 <= st.pos < cs.len(),
        lex_step(cs, len, fid, st) is Some,
    ensures
        symbols_spelled(cs, lex_step(cs, len, fid, st).unwrap().toks, st.toks.len() as int),
{
    lemma_symbol_texts();
    let c = cs[st.pos];
    let p = st.pos;
    let r = lex_step(cs, len, fid, st).unwrap();
    let n = st.toks.len() as int;
    lemma_advance_marks(cs, st, 2);
    lemma_scan_marks(cs, len, st, Seq::empty());
    lemma_scan_marks(cs, len, advance1(cs, st), Seq::empty());
    if is_ws(c) {
        assert(r.toks == st.toks);
    } else if single_kind(c) is Some {
        let k = single_kind(c).unwrap();
        assert(r.toks == st.toks.push(TokenV { kind: k, line: st.line as nat, offset: st.offset as nat, pos: p as nat, len: 1 }));
        if spelled(k) {
            assert(kind_text(k) == seq![c]);
            lemma_spells_one(cs, r.toks[n]);
        }
    } else if double_kinds(c) is Some {
        let (second, pair, single) = double_kinds(c).unwrap();
        if peek_at(cs, p + 1) == Some(second) {
            let a = push_tok(st, pair, st.line, st.offset, st.pos, 2);
            lemma_advance_marks(cs, a, 2);
            assert(r.toks == a.toks);
            assert(kind_text(pair) == seq![c, second]);
            lemma_spells_two(cs, r.toks[n]);
        } else {
            assert(kind_text(single) == seq![c]);
            lemma_spells_one(cs, r.toks[n]);
        }
    } else if c == '|' {
        if peek_at(cs, p + 1) == Some('|') {
            let a = push_tok(st, KindV::Or, st.line, st.offset, st.pos, 2);
            lemma_advance_marks(cs, a, 2);
            lemma_spells_two(cs, r.toks[n]);
        } else {
            assert(r.toks == st.toks);
        }
    } else if c == '/' {
        if peek_at(cs, p + 1) == Some('=') {
            let a = push_tok(st, KindV::AssignSlash, st.line, st.offset, st.pos, 2);
            lemma_advance_marks(cs, a, 2);
            lemma_spells_two(cs, r.toks[n]);
        } else if peek_at(cs, p + 1) == Some('/') {
            lemma_skip_marks(cs, len, advance(cs, st, 2));
            assert(r.toks == st.toks);
        } else if peek_at(cs, p + 1) == Some('*') {
            let b = skip_block(cs, len, advance(cs, st, 2));
            lemma_skip_marks(cs, len, advance(cs, st, 2));
            lemma_advance_marks(cs, b, 2);
            assert(r.toks == st.toks);
        } else {
            lemma_spells_one(cs, r.toks[n]);
        }
    } else if is_dec_digit(c) {
        let (st2, buf) = scan_number(cs, len, st, Seq::empty());
        assert(r.toks.len() == n + 1);
        assert(r.toks[n].kind is Int || r.toks[n].kind is Float);
    } else if char_alphabetic(c) {
        assert(r.toks.len() == n + 1);
        assert(!spelled(r.toks[n].kind));
    } else if c == '"' {
        assert(r.toks.len() == n + 1);
        assert(r.toks[n].kind is Str);
    } else {
        assert(r.toks == st.toks);
    }
}

/// The lexer's loop from `st`: every operator and punctuation token it makes spells
/// the characters it covers.
proof fn lemma_run_spells(cs: Seq<char>, len: int, fid: nat, st: LexSt)
    requires
        len <= cs.len(),
        0 <= st.pos,
    ensures
        lex_run(cs, len, fid, st) matches Some(r) ==> symbols_spelled(cs, r.toks, st.toks.len() as int),
    decreases (if st.pos < len { len - st.pos } else { 0 }),
{
    if st.pos < len && peek_at(cs, st.pos) is Some {
        if let Some(st2) = lex_step(cs, len, fid, st) {
            if st2.pos > st.pos {
                lemma_step_spells(cs, len, fid, st);
                lemma_step_extends(cs, len, fid, st);
                lemma_run_spells(cs, len, fid, st2);
                if let Some(r) = lex_run(cs, len, fid, st2) {
                    assert forall|j: int| st.toks.len() <= j < r.toks.len() && spelled((#[trigger] r.toks[j]).kind) implies spells_at(
                        cs,
                        r.toks[j],
                    ) by {
                        if j < st2.toks.len() {
                            lemma_run_extends(cs, len, fid, st2);
                            assert(r.toks[j] == st2.toks[j]);
                        }
                    }
                }
            }
        }
    }
}

/// Every operator and punctuation token the lexer makes covers exactly the characters
/// its kind is written with: `>=` is read as `Ge`, `-` as `Minus`, and so on.
pub proof fn law_symbol_tokens_spell_their_text(cs: Seq<char>, len: int, fid: nat, st: LexSt)
    requires
        len <= cs.len(),
        0 <= st.pos,
    ensures
        lex_all(cs, len, fid, st) matches Some(r) ==> symbols_spelled(cs, r.toks, st.toks.len() as int),
{
    lemma_run_spells(cs, len, fid, st);
    if let Some(s) = lex_run(cs, len, fid, st) {
        let r = push_tok(s, KindV::Eof, s.line, s.offset, s.pos, 1);
        assert forall|j: int| st.toks.len() <= j < r.toks.len() && spelled((#[trigger] r.toks[j]).kind) implies spells_at(cs, r.toks[j]) by {
            if j < s.toks.len() {
                assert(r.toks[j] == s.toks[j]);
            }
        }
    }
}

/// A word is read as the keyword, boolean or name it spells: the token made of it is
/// shown as the word itself.
pub proof fn law_words_read_as_written(w: Seq<char>)
    ensures
        kind_text(word_kind(w)) == w,
{
}

/// Decimal digits with no leading zero (or a single `0`).
pub open spec fn plain_digits(s: Seq<char>) -> bool {
    &&& s.len() > 0
    &&& forall|i: int| 0 <= i < s.len() ==> is_dec_digit(#[trigger] s[i])
    &&& (s[0] != '0' || s.len() == 1)
}

proof fn lemma_digits_positive(s: Seq<char>)
    requires
        plain_digits(s),
        s[0] != '0',
    ensures
        digits_value(s) >= 1,
    decreases s.len(),
{
    if s.len() > 1 {
        let t = s.drop_last();
        assert(t[0] == s[0]);
        assert forall|i: int| 0 <= i < t.len() implies is_dec_digit(#[trigger] t[i]) by {
            assert(t[i] == s[i]);
        }
        lemma_digits_positive(t);
    }
}

proof fn lemma_digits_dec(s: Seq<char>)
    requires
        plain_digits(s),
    ensures
        dec(digits_value(s)) == s,
    decreases s.len(),
{
    let d = (s.last() as int - 48) as nat;
    assert(is_dec_digit(s[s.len() - 1]));
    assert(0 <= d < 10);
    assert(digit_char(d) == s.last());
    if s.len() == 1 {
        assert(digits_value(s.drop_last()) == 0);
        assert(dec(digits_value(s)) =~= s);
    } else {
        let t = s.drop_last();
        assert(t[0] == s[0]);
        assert forall|i: int| 0 <= i < t.len() implies is_dec_digit(#[trigger] t[i]) by {
            assert(t[i] == s[i]);
        }
        lemma_digits_dec(t);
        lemma_digits_positive(t);
        let a = digits_value(t);
        let v = a * 10 + d;
        assert(v / 10 == a && v % 10 == d) by (nonlinear_arith)
            requires
                v == a * 10 + d,
                0 <= d < 10,
                a >= 1,
        ;
        assert(v >= 10);
        assert(dec(v) == dec(a).push(digit_char(d)));
        assert(s =~= t.push(s.last()));
    }
}

/// A whole number read from digits without a leading zero, small enough to keep, is
/// shown as those very digits: the lexer reads the value the digits spell.
pub proof fn law_numbers_read_as_written(fid: nat, st: LexSt, buf: Seq<char>, line: int, offset: int, pos: int)
    requires
        plain_digits(buf),
        digits_value(buf) <= i64::MAX,
    ensures
        number_token(fid, st, buf, line, offset, pos).toks.last().kind matches KindV::Int(i) && int_text(i as int) == buf,
        number_token(fid, st, buf, line, offset, pos).diags == st.diags,
{
    assert(count_char(buf, '.') == 0) by {
        lemma_no_point(buf);
    }
    lemma_digits_dec(buf);
}

proof fn lemma_no_point(s: Seq<char>)
    requires
        forall|i: int| 0 <= i < s.len() ==> is_dec_digit(#[trigger] s[i]),
    ensures
        count_char(s, '.') == 0,
    decreases s.len(),
{
    if s.len() > 0 {
        let t = s.drop_last();
        assert forall|i: int| 0 <= i < t.len() implies is_dec_digit(#[trigger] t[i]) by {
            assert(t[i] == s[i]);
        }
        lemma_no_point(t);
        assert(is_dec_digit(s[s.len() - 1]));
    }
}

} // verus!
