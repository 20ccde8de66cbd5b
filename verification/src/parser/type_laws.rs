//! Reading back a printed type: the text of a type, lexed and parsed, gives a type
//! with the same text.
use crate::lexer::standard::{
    advance1, char_alphabetic, fresh_state, is_word_char, law_ascii_length, lex_all, lex_run, lex_step, push_tok, scan_word,
    word_kind, LexSt,
};
use crate::lexer::token::{keyword_of, KindV, TokenV};
use crate::parser::grammar::{adv, p_type, PSt};
use crate::parser::types::{law_type_name_round_trip, type_info, type_text, TypeV};
use crate::parser::Info;
use crate::report::DiagV;
use vstd::prelude::*;

verus! {

pub open spec fn ascii_letter(c: char) -> bool {
    'a' <= c <= 'z' || 'A' <= c <= 'Z'
}

/// A character of a type name: an ASCII letter or digit, or `_`.
pub open spec fn name_char(c: char) -> bool {
    ascii_letter(c) || ('0' <= c <= '9') || c == '_'
}

/// A name the lexer reads as one identifier: a letter, then letters, digits and `_`,
/// and neither a keyword nor `true` or `false`.
pub open spec fn type_name_ok(n: Seq<char>) -> bool {
    &&& n.len() > 0
    &&& ascii_letter(n[0])
    &&& forall|i: int| 0 <= i < n.len() ==> name_char(#[trigger] n[i])
    &&& keyword_of(n) is None
    &&& n != "true"@
    &&& n != "false"@
}

/// A type whose text reads back: names as above, arrays, and pointers to anything but
/// a pointer (`&&` is read as one token).
pub open spec fn plain_type(t: TypeV) -> bool
    decreases t,
{
    match t {
        TypeV::Array(b, _) => plain_type(*b),
        TypeV::Ptr(b, _) => !(*b is Ptr) && plain_type(*b),
        _ => type_name_ok(type_text(t)),
    }
}

/// What std's `char::is_alphabetic` answers for the one-byte characters: exactly the
/// ASCII letters are alphabetic.
pub open spec fn letters_alphabetic() -> bool {
    forall|c: char| (c as u32) < 0x80 ==> (#[trigger] char_alphabetic(c) <==> ascii_letter(c))
}

pub open spec fn tok(kind: KindV, line: nat, offset: nat, pos: nat, len: nat) -> TokenV {
    TokenV { kind, line, offset, pos, len }
}

/// The tokens of the text of `t` when it starts at line `ln`, column `o`, position `p`.
pub open spec fn type_tokens(t: TypeV, ln: nat, o: nat, p: nat) -> Seq<TokenV>
    decreases t,
{
    match t {
        TypeV::Array(b, _) => seq![tok(KindV::LBracket, ln, o, p, 1)] + type_tokens(*b, ln, o + 1, p + 1) + seq![
            tok(KindV::RBracket, ln, o + 1 + type_text(*b).len(), p + 1 + type_text(*b).len(), 1),
        ],
        TypeV::Ptr(b, _) => seq![tok(KindV::Ampersand, ln, o, p, 1)] + type_tokens(*b, ln, o + 1, p + 1),
        _ => seq![tok(KindV::Id(type_text(t)), ln, o, p, type_text(t).len())],
    }
}

/// The text of a readable type starts with `[` or a letter, or with `&` for a pointer;
/// its characters are one byte each and none is a newline.
proof fn lemma_type_chars(t: TypeV)
    requires
        plain_type(t),
    ensures
        type_text(t).len() > 0,
        t is Ptr ==> type_text(t)[0] == '&',
        !(t is Ptr) ==> type_text(t)[0] == '[' || ascii_letter(type_text(t)[0]),
        forall|i: int| 0 <= i < type_text(t).len() ==> (#[trigger] type_text(t)[i] as u32) < 0x80 && type_text(t)[i] != '\n',
    decreases t,
{
    reveal_strlit("[");
    reveal_strlit("]");
    reveal_strlit("&");
    match t {
        TypeV::Array(b, _) => {
            lemma_type_chars(*b);
            let s = type_text(t);
            let sb = type_text(*b);
            assert(s == seq!['['] + sb + seq![']']);
            assert forall|i: int| 0 <= i < s.len() implies (#[trigger] s[i] as u32) < 0x80 && s[i] != '\n' by {
                if 1 <= i < s.len() - 1 {
                    assert(s[i] == sb[i - 1]);
                }
            }
        },
        TypeV::Ptr(b, _) => {
            lemma_type_chars(*b);
            let s = type_text(t);
            let sb = type_text(*b);
            assert(s == seq!['&'] + sb);
            assert forall|i: int| 0 <= i < s.len() implies (#[trigger] s[i] as u32) < 0x80 && s[i] != '\n' by {
                if 1 <= i {
                    assert(s[i] == sb[i - 1]);
                }
            }
        },
        _ => {},
    }
}

/// Reading the rest of a name: the lexer stops right after it, one column further per
/// character.
proof fn lemma_scan_name(cs: Seq<char>, len: int, st: LexSt, n: Seq<char>, p: int, k: int)
    requires
        letters_alphabetic(),
        type_name_ok(n),
        len == cs.len(),
        0 <= p,
        0 <= k <= n.len(),
        p + n.len() <= cs.len(),
        cs.subrange(p, p + n.len()) == n,
        p + n.len() == cs.len() || cs[p + n.len()] == ']',
        st.pos == p + k,
    ensures
        scan_word(cs, len, st, n.take(k)) == Some((LexSt { pos: p + n.len(), offset: st.offset + (n.len() - k), ..st }, n)),
    decreases n.len() - k,
{
    if k < n.len() {
        let c = n[k];
        assert(cs[p + k] == c);
        assert(name_char(c));
        assert((c as u32) < 0x80);
        assert(char_alphabetic(c) <==> ascii_letter(c));
        assert(is_word_char(c));
        assert(n.take(k).push(c) =~= n.take(k + 1));
        lemma_scan_name(cs, len, advance1(cs, st), n, p, k + 1);
    } else {
        assert(n.take(k) =~= n);
        if p + n.len() < cs.len() {
            let c = cs[p + n.len()];
            assert(char_alphabetic(c) <==> ascii_letter(c));
            assert(!is_word_char(c));
        }
    }
}

/// Lexing the text of a readable type, followed by `]` or the end, adds its tokens and
/// moves past it on the same line.
proof fn lemma_lex_type(cs: Seq<char>, len: int, fid: nat, st: LexSt, t: TypeV)
    requires
        plain_type(t),
        letters_alphabetic(),
        len == cs.len(),
        0 <= st.pos,
        0 <= st.line,
        0 <= st.offset,
        st.pos + type_text(t).len() <= cs.len(),
        cs.subrange(st.pos, st.pos + type_text(t).len()) == type_text(t),
        st.pos + type_text(t).len() == cs.len() || cs[st.pos + type_text(t).len()] == ']',
    ensures
        lex_run(cs, len, fid, st) == lex_run(
            cs,
            len,
            fid,
            LexSt {
                pos: st.pos + type_text(t).len(),
                offset: st.offset + type_text(t).len(),
                toks: st.toks + type_tokens(t, st.line as nat, st.offset as nat, st.pos as nat),
                ..st
            },
        ),
    decreases t,
{
    reveal_strlit("[");
    reveal_strlit("]");
    reveal_strlit("&");
    lemma_type_chars(t);
    let s = type_text(t);
    let p = st.pos;
    assert(cs[p] == s[0]);
    match t {
        TypeV::Array(b, _) => {
            let sb = type_text(*b);
            lemma_type_chars(*b);
            assert(s == seq!['['] + sb + seq![']']);
            let st1 = advance1(cs, push_tok(st, KindV::LBracket, st.line, st.offset, st.pos, 1));
            assert(lex_step(cs, len, fid, st) == Some(st1));
            assert(cs.subrange(p + 1, p + 1 + sb.len()) =~= sb) by {
                assert forall|i: int| 0 <= i < sb.len() implies cs.subrange(p + 1, p + 1 + sb.len())[i] == sb[i] by {
                    assert(cs[p + 1 + i] == cs.subrange(p, p + s.len())[1 + i]);
                    assert(s[1 + i] == sb[i]);
                }
            }
            assert(cs[p + 1 + sb.len()] == ']') by {
                assert(cs[p + 1 + sb.len()] == cs.subrange(p, p + s.len())[1 + sb.len() as int]);
            }
            lemma_lex_type(cs, len, fid, st1, *b);
            let st3 = LexSt {
                pos: st1.pos + sb.len(),
                offset: st1.offset + sb.len(),
                toks: st1.toks + type_tokens(*b, st1.line as nat, st1.offset as nat, st1.pos as nat),
                ..st1
            };
            let st4 = advance1(cs, push_tok(st3, KindV::RBracket, st3.line, st3.offset, st3.pos, 1));
            assert(lex_step(cs, len, fid, st3) == Some(st4));
            assert(st4.toks =~= st.toks + type_tokens(t, st.line as nat, st.offset as nat, st.pos as nat));
        },
        TypeV::Ptr(b, _) => {
            let sb = type_text(*b);
            lemma_type_chars(*b);
            assert(s == seq!['&'] + sb);
            assert(cs[p + 1] == sb[0]) by {
                assert(cs[p + 1] == cs.subrange(p, p + s.len())[1]);
            }
            let st1 = advance1(cs, push_tok(st, KindV::Ampersand, st.line, st.offset, st.pos, 1));
            assert(lex_step(cs, len, fid, st) == Some(st1));
            assert(cs.subrange(p + 1, p + 1 + sb.len()) =~= sb) by {
                assert forall|i: int| 0 <= i < sb.len() implies cs.subrange(p + 1, p + 1 + sb.len())[i] == sb[i] by {
                    assert(cs[p + 1 + i] == cs.subrange(p, p + s.len())[1 + i]);
                    assert(s[1 + i] == sb[i]);
                }
            }
            lemma_lex_type(cs, len, fid, st1, *b);
            let st3 = LexSt {
                pos: st1.pos + sb.len(),
                offset: st1.offset + sb.len(),
                toks: st1.toks + type_tokens(*b, st1.line as nat, st1.offset as nat, st1.pos as nat),
                ..st1
            };
            assert(st3.toks =~= st.toks + type_tokens(t, st.line as nat, st.offset as nat, st.pos as nat));
        },
        _ => {
            let c = s[0];
            assert(char_alphabetic(c) <==> ascii_letter(c));
            assert(s.take(0) =~= Seq::<char>::empty());
            lemma_scan_name(cs, len, st, s, p, 0);
            law_ascii_length(s);
            assert(word_kind(s) == KindV::Id(s));
            let st2 = push_tok(
                LexSt { pos: p + s.len(), offset: st.offset + s.len(), ..st },
                KindV::Id(s),
                st.line,
                st.offset,
                st.pos,
                s.len() as int,
            );
            assert(lex_step(cs, len, fid, st) == Some(st2));
            assert(st2.toks =~= st.toks + type_tokens(t, st.line as nat, st.offset as nat, st.pos as nat));
        },
    }
}

/// Parsing the tokens of a readable type gives a type with the same text, placed where
/// the tokens are, and reads exactly those tokens.
proof fn lemma_parse_type(toks: Seq<TokenV>, fid: nat, st: PSt, t: TypeV, ln: nat, o: nat, p: nat)
    requires
        plain_type(t),
        0 <= st.idx,
        st.idx + type_tokens(t, ln, o, p).len() <= toks.len(),
        toks.subrange(st.idx, st.idx + type_tokens(t, ln, o, p).len()) == type_tokens(t, ln, o, p),
        ln <= usize::MAX,
        o + type_text(t).len() <= usize::MAX,
    ensures
        p_type(toks, fid, st) matches Some((t2, s2)) && s2 == adv(st, type_tokens(t, ln, o, p).len() as int)
            && type_text(t2) == type_text(t) && type_info(t2) == (Info {
            line: ln as usize,
            offset: o as usize,
            len: type_text(t).len() as usize,
        }),
    decreases t,
{
    reveal_strlit("[");
    reveal_strlit("]");
    reveal_strlit("&");
    let tt = type_tokens(t, ln, o, p);
    assert(toks[st.idx] == tt[0]) by {
        assert(toks[st.idx] == toks.subrange(st.idx, st.idx + tt.len())[0]);
    }
    match t {
        TypeV::Array(b, _) => {
            let tb = type_tokens(*b, ln, o + 1, p + 1);
            let st1 = adv(st, 1);
            assert(toks.subrange(st1.idx, st1.idx + tb.len()) =~= tb) by {
                assert forall|i: int| 0 <= i < tb.len() implies toks.subrange(st1.idx, st1.idx + tb.len())[i] == tb[i] by {
                    assert(toks[st.idx + 1 + i] == toks.subrange(st.idx, st.idx + tt.len())[1 + i]);
                    assert(tt[1 + i] == tb[i]);
                }
            }
            lemma_parse_type(toks, fid, st1, *b, ln, o + 1, p + 1);
            assert(toks[st.idx + 1 + tb.len()] == tt[1 + tb.len() as int]) by {
                assert(toks[st.idx + 1 + tb.len()] == toks.subrange(st.idx, st.idx + tt.len())[1 + tb.len() as int]);
            }
        },
        TypeV::Ptr(b, _) => {
            let tb = type_tokens(*b, ln, o + 1, p + 1);
            let st1 = adv(st, 1);
            assert(toks.subrange(st1.idx, st1.idx + tb.len()) =~= tb) by {
                assert forall|i: int| 0 <= i < tb.len() implies toks.subrange(st1.idx, st1.idx + tb.len())[i] == tb[i] by {
                    assert(toks[st.idx + 1 + i] == toks.subrange(st.idx, st.idx + tt.len())[1 + i]);
                    assert(tt[1 + i] == tb[i]);
                }
            }
            lemma_parse_type(toks, fid, st1, *b, ln, o + 1, p + 1);
        },
        _ => {
            let n = type_text(t);
            law_type_name_round_trip(n, Info { line: ln as usize, offset: o as usize, len: n.len() as usize });
        },
    }
}

/// The text of a type, lexed from the start of a file and then parsed as a type, gives
/// back a type with the same text: lexing reports nothing and ends with one `Eof`, and
/// the parser reads every token before it. This holds for the types whose names are
/// ASCII identifiers other than keywords, `true` and `false`, with no pointer directly
/// inside a pointer, as long as std's `char::is_alphabetic` holds of exactly the ASCII
/// letters among the one-byte characters.
pub proof fn law_type_text_reads_back(t: TypeV, fid: nat, d: Seq<DiagV>)
    requires
        plain_type(t),
        letters_alphabetic(),
        type_text(t).len() < usize::MAX,
    ensures
        ({
            let cs = type_text(t);
            &&& lex_all(cs, cs.len() as int, fid, fresh_state(d)) matches Some(l)
            &&& l.diags == d
            &&& l.toks.len() > 0
            &&& l.toks.last().kind == KindV::Eof
            &&& p_type(l.toks, fid, PSt { idx: 0, diags: l.diags }) matches Some((t2, s))
            &&& type_text(t2) == cs
            &&& s == (PSt { idx: l.toks.len() - 1, diags: d })
        }),
{
    let cs = type_text(t);
    let len = cs.len() as int;
    let st0 = fresh_state(d);
    assert(cs.subrange(0, cs.len() as int) =~= cs);
    lemma_lex_type(cs, len, fid, st0, t);
    let tt = type_tokens(t, 0, 0, 0);
    let ste = LexSt { pos: len, offset: len, toks: st0.toks + tt, ..st0 };
    assert(lex_run(cs, len, fid, ste) == Some(ste));
    assert(st0.toks + tt =~= tt);
    let l = push_tok(ste, KindV::Eof, ste.line, ste.offset, ste.pos, 1);
    assert(lex_all(cs, len, fid, st0) == Some(l));
    assert(l.toks.subrange(0, tt.len() as int) =~= tt);
    lemma_parse_type(l.toks, fid, PSt { idx: 0, diags: d }, t, 0, 0, 0);
}

} // verus!
