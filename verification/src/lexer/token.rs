//! Tokens and their kinds.
use crate::text::{append_chars, chars_of, chars_of_string, i64_text, int_text, push_str, string_of};
use vstd::prelude::*;

verus! {

/// Reserved words of the language.
#[derive(Debug, Clone, Copy, PartialEq, Eq, Structural)]
pub enum Keyword {
    Fn,
    While,
    Fix,
    Mut,
    Break,
    Continue,
    If,
    Elif,
    Else,
    Ret,
    Extern,
    Pub,
    Use,
}

/// The word that spells a keyword.
pub open spec fn keyword_text(k: Keyword) -> Seq<char> {
    match k {
        Keyword::Fn => "fn"@,
        Keyword::While => "while"@,
        Keyword::Fix => "fix"@,
        Keyword::Mut => "mut"@,
        Keyword::Break => "break"@,
        Keyword::Continue => "continue"@,
        Keyword::If => "if"@,
        Keyword::Elif => "elif"@,
        Keyword::Else => "else"@,
        Keyword::Ret => "ret"@,
        Keyword::Extern => "extern"@,
        Keyword::Pub => "pub"@,
        Keyword::Use => "use"@,
    }
}

/// The keyword spelled by `w`, if any.
pub open spec fn keyword_of(w: Seq<char>) -> Option<Keyword> {
    if w == "fn"@ {
        Some(Keyword::Fn)
    } else if w == "while"@ {
        Some(Keyword::While)
    } else if w == "fix"@ {
        Some(Keyword::Fix)
    } else if w == "mut"@ {
        Some(Keyword::Mut)
    } else if w == "break"@ {
        Some(Keyword::Break)
    } else if w == "continue"@ {
        Some(Keyword::Continue)
    } else if w == "if"@ {
        Some(Keyword::If)
    } else if w == "elif"@ {
        Some(Keyword::Elif)
    } else if w == "else"@ {
        Some(Keyword::Else)
    } else if w == "ret"@ {
        Some(Keyword::Ret)
    } else if w == "extern"@ {
        Some(Keyword::Extern)
    } else if w == "pub"@ {
        Some(Keyword::Pub)
    } else if w == "use"@ {
        Some(Keyword::Use)
    } else {
        None
    }
}

/// Whether `v` spells `s`.
pub fn chars_eq(v: &Vec<char>, s: &str) -> (r: bool)
    ensures
        r == (v@ == s@),
{
    let w = chars_of(s);
    if v.len() != w.len() {
        return false;
    }
    let mut i: usize = 0;
    while i < v.len()
        invariant
            i <= v.len(),
            v.len() == w.len(),
            w@ == s@,
            forall|j: int| 0 <= j < i ==> v@[j] == w@[j],
        decreases v.len() - i,
    {
        if v[i] != w[i] {
            return false;
        }
        i = i + 1;
    }
    assert(v@ =~= w@);
    true
}

impl Keyword {
    /// The keyword spelled by `w`, if any.
    pub fn from_chars(w: &Vec<char>) -> (r: Option<Keyword>)
        ensures
            r == keyword_of(w@),
    {
        if chars_eq(w, "fn") {
            Some(Keyword::Fn)
        } else if chars_eq(w, "while") {
            Some(Keyword::While)
        } else if chars_eq(w, "fix") {
            Some(Keyword::Fix)
        } else if chars_eq(w, "mut") {
            Some(Keyword::Mut)
        } else if chars_eq(w, "break") {
            Some(Keyword::Break)
        } else if chars_eq(w, "continue") {
            Some(Keyword::Continue)
        } else if chars_eq(w, "if") {
            Some(Keyword::If)
        } else if chars_eq(w, "elif") {
            Some(Keyword::Elif)
        } else if chars_eq(w, "else") {
            Some(Keyword::Else)
        } else if chars_eq(w, "ret") {
            Some(Keyword::Ret)
        } else if chars_eq(w, "extern") {
            Some(Keyword::Extern)
        } else if chars_eq(w, "pub") {
            Some(Keyword::Pub)
        } else if chars_eq(w, "use") {
            Some(Keyword::Use)
        } else {
            None
        }
    }

    /// The word that spells the keyword.
    pub fn text(&self) -> (r: Vec<char>)
        ensures
            r@ == keyword_text(*self),
    {
        match self {
            Keyword::Fn => chars_of("fn"),
            Keyword::While => chars_of("while"),
            Keyword::Fix => chars_of("fix"),
            Keyword::Mut => chars_of("mut"),
            Keyword::Break => chars_of("break"),
            Keyword::Continue => chars_of("continue"),
            Keyword::If => chars_of("if"),
            Keyword::Elif => chars_of("elif"),
            Keyword::Else => chars_of("else"),
            Keyword::Ret => chars_of("ret"),
            Keyword::Extern => chars_of("extern"),
            Keyword::Pub => chars_of("pub"),
            Keyword::Use => chars_of("use"),
        }
    }
}

/// The kind of a token, with its value where it has one.
#[derive(Debug)]
pub enum TokenKind {
    Plus,
    Minus,
    Star,
    Slash,
    Bang,
    Comma,
    Dot,
    Semicolon,
    Colon,
    Path,
    Ampersand,
    Assign,
    AssignPlus,
    AssignMinus,
    AssignStar,
    AssignSlash,
    Eq,
    Ne,
    Gt,
    Ge,
    Lt,
    Le,
    LParen,
    RParen,
    LBracket,
    RBracket,
    LBrace,
    RBrace,
    And,
    Or,
    Keyword(Keyword),
    Id(String),
    Bool(bool),
    Str(String),
    /// A floating-point literal, kept as the digits and the point it was written with.
    Float(String),
    Int(i64),
    Eof,
}

/// Short name of `TokenKind`.
pub type TKind = TokenKind;

/// A token kind as plain values.
pub enum KindV {
    Plus,
    Minus,
    Star,
    Slash,
    Bang,
    Comma,
    Dot,
    Semicolon,
    Colon,
    Path,
    Ampersand,
    Assign,
    AssignPlus,
    AssignMinus,
    AssignStar,
    AssignSlash,
    Eq,
    Ne,
    Gt,
    Ge,
    Lt,
    Le,
    LParen,
    RParen,
    LBracket,
    RBracket,
    LBrace,
    RBrace,
    And,
    Or,
    Keyword(Keyword),
    Id(Seq<char>),
    Bool(bool),
    Str(Seq<char>),
    Float(Seq<char>),
    Int(i64),
    Eof,
}

impl View for TokenKind {
    type V = KindV;

    open spec fn view(&self) -> KindV {
        match self {
            TokenKind::Plus => KindV::Plus,
            TokenKind::Minus => KindV::Minus,
            TokenKind::Star => KindV::Star,
            TokenKind::Slash => KindV::Slash,
            TokenKind::Bang => KindV::Bang,
            TokenKind::Comma => KindV::Comma,
            TokenKind::Dot => KindV::Dot,
            TokenKind::Semicolon => KindV::Semicolon,
            TokenKind::Colon => KindV::Colon,
            TokenKind::Path => KindV::Path,
            TokenKind::Ampersand => KindV::Ampersand,
            TokenKind::Assign => KindV::Assign,
            TokenKind::AssignPlus => KindV::AssignPlus,
            TokenKind::AssignMinus => KindV::AssignMinus,
            TokenKind::AssignStar => KindV::AssignStar,
            TokenKind::AssignSlash => KindV::AssignSlash,
            TokenKind::Eq => KindV::Eq,
            TokenKind::Ne => KindV::Ne,
            TokenKind::Gt => KindV::Gt,
            TokenKind::Ge => KindV::Ge,
            TokenKind::Lt => KindV::Lt,
            TokenKind::Le => KindV::Le,
            TokenKind::LParen => KindV::LParen,
            TokenKind::RParen => KindV::RParen,
            TokenKind::LBracket => KindV::LBracket,
            TokenKind::RBracket => KindV::RBracket,
            TokenKind::LBrace => KindV::LBrace,
            TokenKind::RBrace => KindV::RBrace,
            TokenKind::And => KindV::And,
            TokenKind::Or => KindV::Or,
            TokenKind::Keyword(k) => KindV::Keyword(*k),
            TokenKind::Id(s) => KindV::Id(s@),
            TokenKind::Bool(b) => KindV::Bool(*b),
            TokenKind::Str(s) => KindV::Str(s@),
            TokenKind::Float(s) => KindV::Float(s@),
            TokenKind::Int(i) => KindV::Int(*i),
            TokenKind::Eof => KindV::Eof,
        }
    }
}

/// How a token kind is shown to the user.
pub open spec fn kind_text(k: KindV) -> Seq<char> {
    match k {
        KindV::Plus => "+"@,
        KindV::Minus => "-"@,
        KindV::Star => "*"@,
        KindV::Slash => "/"@,
        KindV::Bang => "!"@,
        KindV::Comma => ","@,
        KindV::Dot => "."@,
        KindV::Semicolon => ";"@,
        KindV::Colon => ":"@,
        KindV::Path => "::"@,
        KindV::Ampersand => "&"@,
        KindV::Assign => "="@,
        KindV::AssignPlus => "+="@,
        KindV::AssignMinus => "-="@,
        KindV::AssignStar => "*="@,
        KindV::AssignSlash => "/="@,
        KindV::Eq => "=="@,
        KindV::Ne => "!="@,
        KindV::Gt => ">"@,
        KindV::Ge => ">="@,
        KindV::Lt => "<"@,
        KindV::Le => "<="@,
        KindV::LParen => "("@,
        KindV::RParen => ")"@,
        KindV::LBracket => "["@,
        KindV::RBracket => "]"@,
        KindV::LBrace => "{{"@,
        KindV::RBrace => "}}"@,
        KindV::And => "&&"@,
        KindV::Or => "||"@,
        KindV::Keyword(k) => keyword_text(k),
        KindV::Id(s) => s,
        KindV::Bool(b) => if b { "true"@ } else { "false"@ },
        KindV::Str(s) => "\""@ + s + "\""@,
        KindV::Float(s) => s,
        KindV::Int(i) => int_text(i as int),
        KindV::Eof => "Eof"@,
    }
}

/// Number of the variant of a kind; two kinds compare equal when these agree.
pub open spec fn kind_tag(k: KindV) -> int {
    match k {
        KindV::Plus => 0,
        KindV::Minus => 1,
        KindV::Star => 2,
        KindV::Slash => 3,
        KindV::Bang => 4,
        KindV::Comma => 5,
        KindV::Dot => 6,
        KindV::Semicolon => 7,
        KindV::Colon => 8,
        KindV::Path => 9,
        KindV::Ampersand => 10,
        KindV::Assign => 11,
        KindV::AssignPlus => 12,
        KindV::AssignMinus => 13,
        KindV::AssignStar => 14,
        KindV::AssignSlash => 15,
        KindV::Eq => 16,
        KindV::Ne => 17,
        KindV::Gt => 18,
        KindV::Ge => 19,
        KindV::Lt => 20,
        KindV::Le => 21,
        KindV::LParen => 22,
        KindV::RParen => 23,
        KindV::LBracket => 24,
        KindV::RBracket => 25,
        KindV::LBrace => 26,
        KindV::RBrace => 27,
        KindV::And => 28,
        KindV::Or => 29,
        KindV::Keyword(_) => 30,
        KindV::Id(_) => 31,
        KindV::Bool(_) => 32,
        KindV::Str(_) => 33,
        KindV::Float(_) => 34,
        KindV::Int(_) => 35,
        KindV::Eof => 36,
    }
}

impl TokenKind {
    /// Number of the variant.
    pub fn tag(&self) -> (t: u8)
        ensures
            t as int == kind_tag(self@),
    {
        match self {
            TokenKind::Plus => 0,
            TokenKind::Minus => 1,
            TokenKind::Star => 2,
            TokenKind::Slash => 3,
            TokenKind::Bang => 4,
            TokenKind::Comma => 5,
            TokenKind::Dot => 6,
            TokenKind::Semicolon => 7,
            TokenKind::Colon => 8,
            TokenKind::Path => 9,
            TokenKind::Ampersand => 10,
            TokenKind::Assign => 11,
            TokenKind::AssignPlus => 12,
            TokenKind::AssignMinus => 13,
            TokenKind::AssignStar => 14,
            TokenKind::AssignSlash => 15,
            TokenKind::Eq => 16,
            TokenKind::Ne => 17,
            TokenKind::Gt => 18,
            TokenKind::Ge => 19,
            TokenKind::Lt => 20,
            TokenKind::Le => 21,
            TokenKind::LParen => 22,
            TokenKind::RParen => 23,
            TokenKind::LBracket => 24,
            TokenKind::RBracket => 25,
            TokenKind::LBrace => 26,
            TokenKind::RBrace => 27,
            TokenKind::And => 28,
            TokenKind::Or => 29,
            TokenKind::Keyword(_) => 30,
            TokenKind::Id(_) => 31,
            TokenKind::Bool(_) => 32,
            TokenKind::Str(_) => 33,
            TokenKind::Float(_) => 34,
            TokenKind::Int(_) => 35,
            TokenKind::Eof => 36,
        }
    }

    /// Kinds are equal when they are the same variant, whatever their values.
    pub fn same_kind(&self, other: &TokenKind) -> (r: bool)
        ensures
            r == (kind_tag(self@) == kind_tag(other@)),
    {
        self.tag() == other.tag()
    }

    /// How the kind is shown to the user.
    pub fn text(&self) -> (r: Vec<char>)
        ensures
            r@ == kind_text(self@),
    {
        match self {
            TokenKind::Plus => chars_of("+"),
            TokenKind::Minus => chars_of("-"),
            TokenKind::Star => chars_of("*"),
            TokenKind::Slash => chars_of("/"),
            TokenKind::Bang => chars_of("!"),
            TokenKind::Comma => chars_of(","),
            TokenKind::Dot => chars_of("."),
            TokenKind::Semicolon => chars_of(";"),
            TokenKind::Colon => chars_of(":"),
            TokenKind::Path => chars_of("::"),
            TokenKind::Ampersand => chars_of("&"),
            TokenKind::Assign => chars_of("="),
            TokenKind::AssignPlus => chars_of("+="),
            TokenKind::AssignMinus => chars_of("-="),
            TokenKind::AssignStar => chars_of("*="),
            TokenKind::AssignSlash => chars_of("/="),
            TokenKind::Eq => chars_of("=="),
            TokenKind::Ne => chars_of("!="),
            TokenKind::Gt => chars_of(">"),
            TokenKind::Ge => chars_of(">="),
            TokenKind::Lt => chars_of("<"),
            TokenKind::Le => chars_of("<="),
            TokenKind::LParen => chars_of("("),
            TokenKind::RParen => chars_of(")"),
            TokenKind::LBracket => chars_of("["),
            TokenKind::RBracket => chars_of("]"),
            TokenKind::LBrace => chars_of("{{"),
            TokenKind::RBrace => chars_of("}}"),
            TokenKind::And => chars_of("&&"),
            TokenKind::Or => chars_of("||"),
            TokenKind::Keyword(k) => k.text(),
            TokenKind::Id(s) => chars_of_string(s),
            TokenKind::Bool(b) => if *b { chars_of("true") } else { chars_of("false") },
            TokenKind::Str(s) => {
                let mut v = chars_of("\"");
                let inner = chars_of_string(s);
                append_chars(&mut v, &inner);
                push_str(&mut v, "\"");
                v
            },
            TokenKind::Float(s) => chars_of_string(s),
            TokenKind::Int(i) => i64_text(*i),
            TokenKind::Eof => chars_of("Eof"),
        }
    }
}

#[derive(Debug)]
pub struct Token {
    /// Kind of the token, with its value.
    pub kind: TokenKind,
    /// Line on which the token stands (from 0).
    pub line: usize,
    /// Column of its first character on that line (from 0).
    pub offset: usize,
    /// Position of its first character in the text.
    pub pos: usize,
    /// Length.
    pub len: usize,
}

/// A token as plain values.
pub struct TokenV {
    pub kind: KindV,
    pub line: nat,
    pub offset: nat,
    pub pos: nat,
    pub len: nat,
}

impl View for Token {
    type V = TokenV;

    open spec fn view(&self) -> TokenV {
        TokenV {
            kind: self.kind@,
            line: self.line as nat,
            offset: self.offset as nat,
            pos: self.pos as nat,
            len: self.len as nat,
        }
    }
}

/// The views of a sequence of tokens.
pub open spec fn tokens_view(ts: Seq<Token>) -> Seq<TokenV> {
    ts.map_values(|t: Token| t@)
}

impl Token {
    pub fn new(kind: TokenKind, line: usize, offset: usize, pos: usize, len: usize) -> (t: Self)
        ensures
            t.kind == kind,
            t.line == line,
            t.offset == offset,
            t.pos == pos,
            t.len == len,
    {
        Token { kind, len, line, offset, pos }
    }

    /// How the token is shown to the user: the text of its kind.
    pub fn text(&self) -> (r: Vec<char>)
        ensures
            r@ == kind_text(self.kind@),
    {
        self.kind.text()
    }

    /// The text of the token's kind, as a string.
    pub fn to_string(&self) -> (s: String)
        ensures
            s@ == kind_text(self.kind@),
    {
        let v = self.kind.text();
        string_of(&v)
    }
}

} // verus!
