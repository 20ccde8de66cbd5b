//! Source files: their text, their length in bytes and where their lines start.
use crate::text::{append_chars, char_utf8_width, chars_of, chars_of_string, lemma_utf8_len_prefix, string_of, utf8_len, utf8_width};
use vstd::prelude::*;

verus! {

pub type FileId = usize;

/// Text with every tab replaced by four spaces.
pub open spec fn expand_tabs(s: Seq<char>) -> Seq<char>
    decreases s.len(),
{
    if s.len() == 0 {
        s
    } else if s.last() == '\t' {
        expand_tabs(s.drop_last()) + seq![' ', ' ', ' ', ' ']
    } else {
        expand_tabs(s.drop_last()).push(s.last())
    }
}

/// Byte offsets at which the lines of `t` start: 0, then one past every newline.
pub open spec fn line_starts(t: Seq<char>) -> Seq<nat>
    decreases t.len(),
{
    if t.len() == 0 {
        seq![0nat]
    } else if t.last() == '\n' {
        line_starts(t.drop_last()).push(utf8_len(t))
    } else {
        line_starts(t.drop_last())
    }
}

/// Line `k` (counted from 0) of `t`, without its newline.
pub open spec fn line_of(t: Seq<char>, k: nat) -> Seq<char>
    decreases t.len(),
{
    if t.len() == 0 {
        t
    } else if t[0] == '\n' {
        if k == 0 {
            Seq::empty()
        } else {
            line_of(t.drop_first(), (k - 1) as nat)
        }
    } else if k == 0 {
        seq![t[0]] + line_of(t.drop_first(), 0)
    } else {
        line_of(t.drop_first(), k)
    }
}

/// Every source agrees with its text.
pub open spec fn all_wf(srcs: Seq<Source>) -> bool {
    forall|i: int| 0 <= i < srcs.len() ==> (#[trigger] srcs[i]).wf()
}

pub open spec fn usizes_as_nats(s: Seq<usize>) -> Seq<nat> {
    s.map_values(|u: usize| u as nat)
}

pub struct Source {
    pub name: String,
    pub text: String,
    /// Length of `text` in bytes.
    pub len: usize,
    /// Byte offsets at which the lines start.
    pub lines: Vec<usize>,
}

impl Source {
    /// The fields agree with the text.
    pub open spec fn wf(&self) -> bool {
        &&& usizes_as_nats(self.lines@) == line_starts(self.text@)
        &&& self.len as nat == utf8_len(self.text@)
    }

    /// A source named `name` whose text is `text` with tabs expanded to four spaces.
    pub fn new(name: &str, text: &str) -> (s: Self)
        requires
            utf8_len(expand_tabs(text@)) <= usize::MAX,
        ensures
            s.wf(),
            s.name@ == name@,
            s.text@ == expand_tabs(text@),
    {
        let input = chars_of(text);
        let mut out: Vec<char> = Vec::new();
        let mut bytes: usize = 0;
        let mut i: usize = 0;
        proof {
            lemma_expand_tabs_len(text@);
        }
        while i < input.len()
            invariant
                input@ == text@,
                i <= input.len(),
                out@ == expand_tabs(input@.take(i as int)),
                bytes as nat == utf8_len(out@),
                utf8_len(expand_tabs(text@)) <= usize::MAX,
                forall|j: int| 0 <= j <= text@.len() ==> utf8_len(expand_tabs(#[trigger] text@.take(j))) <= utf8_len(expand_tabs(text@)),
            decreases input.len() - i,
        {
            let c = input[i];
            let ghost pre = input@.take(i as int);
            assert(input@.take(i + 1).drop_last() == pre);
            assert(input@.take(i + 1).last() == c);
            assert(utf8_len(expand_tabs(text@.take(i + 1))) <= usize::MAX);
            if c == '\t' {
                let ghost o = out@;
                out.push(' ');
                out.push(' ');
                out.push(' ');
                out.push(' ');
                proof {
                    lemma_utf8_len_append(o, seq![' ', ' ', ' ', ' ']);
                    assert(out@ == o + seq![' ', ' ', ' ', ' ']);
                    reveal_with_fuel(utf8_len, 5);
                }
                bytes = bytes + 4;
            } else {
                let ghost o = out@;
                out.push(c);
                let w = char_utf8_width(c);
                proof {
                    assert(out@.drop_last() == o);
                }
                bytes = bytes + w;
            }
            i = i + 1;
        }
        assert(input@.take(input.len() as int) == input@);
        let text = string_of(&out);
        let lines = Self::compute_lines(&text);
        Source { name: string_of(&chars_of(name)), len: bytes, text, lines }
    }

    /// The byte offsets at which the lines of `text` start: 0, then one past every newline.
    fn compute_lines(text: &String) -> (lines: Vec<usize>)
        requires
            utf8_len(text@) <= usize::MAX,
        ensures
            usizes_as_nats(lines@) == line_starts(text@),
    {
        let cs = chars_of_string(text);
        let mut lines: Vec<usize> = Vec::new();
        lines.push(0);
        let mut bytes: usize = 0;
        let mut i: usize = 0;
        proof {
            lemma_utf8_len_prefix(text@, 0);
            assert(cs@.take(0) =~= Seq::<char>::empty());
            assert(usizes_as_nats(lines@) =~= seq![0nat]);
        }
        while i < cs.len()
            invariant
                cs@ == text@,
                i <= cs.len(),
                utf8_len(text@) <= usize::MAX,
                bytes as nat == utf8_len(cs@.take(i as int)),
                usizes_as_nats(lines@) == line_starts(cs@.take(i as int)),
            decreases cs.len() - i,
        {
            let c = cs[i];
            proof {
                assert(cs@.take(i + 1).drop_last() == cs@.take(i as int));
                assert(cs@.take(i + 1).last() == c);
                lemma_utf8_len_prefix(text@, i + 1);
            }
            let w = char_utf8_width(c);
            bytes = bytes + w;
            if c == '\n' {
                lines.push(bytes);
                proof {
                    assert(usizes_as_nats(lines@) == usizes_as_nats(lines@.drop_last()).push(bytes as nat));
                }
            }
            i = i + 1;
        }
        assert(cs@.take(cs.len() as int) == cs@);
        lines
    }

    /// Line `line_num` (counted from 0) of the text, without its newline.
    pub fn get_line(&self, line_num: usize) -> (r: String)
        requires
            line_num < self.lines@.len(),
        ensures
            r@ == line_of(self.text@, line_num as nat),
    {
        let t = chars_of_string(&self.text);
        let mut out: Vec<char> = Vec::new();
        let mut k: usize = line_num;
        let mut i: usize = 0;
        assert(t@.skip(0) == t@);
        assert(out@ + line_of(t@, line_num as nat) == line_of(t@, line_num as nat));
        while i < t.len()
            invariant
                t@ == self.text@,
                i <= t.len(),
                out@ + line_of(t@.skip(i as int), k as nat) == line_of(t@, line_num as nat),
                k > 0 ==> out@.len() == 0,
            decreases t.len() - i,
        {
            let c = t[i];
            let ghost rest = t@.skip(i as int);
            assert(rest.drop_first() == t@.skip(i + 1));
            if c == '\n' {
                if k == 0 {
                    assert(line_of(rest, 0) == Seq::<char>::empty());
                    assert(out@ + Seq::<char>::empty() == out@);
                    return string_of(&out);
                }
                k = k - 1;
            } else if k == 0 {
                out.push(c);
                assert(out@ + line_of(t@.skip(i + 1), 0) == out@.drop_last() + line_of(rest, 0));
            }
            i = i + 1;
        }
        assert(t@.skip(t.len() as int).len() == 0);
        assert(out@ + line_of(t@.skip(i as int), k as nat) == out@);
        string_of(&out)
    }
}

pub proof fn lemma_utf8_len_append(a: Seq<char>, b: Seq<char>)
    ensures
        utf8_len(a + b) == utf8_len(a) + utf8_len(b),
    decreases b.len(),
{
    if b.len() == 0 {
        assert(a + b == a);
    } else {
        lemma_utf8_len_append(a, b.drop_last());
        assert((a + b).drop_last() == a + b.drop_last());
    }
}

proof fn lemma_expand_tabs_len(t: Seq<char>)
    ensures
        forall|j: int| 0 <= j <= t.len() ==> utf8_len(expand_tabs(#[trigger] t.take(j))) <= utf8_len(expand_tabs(t)),
    decreases t.len(),
{
    if t.len() > 0 {
        let p = t.drop_last();
        lemma_expand_tabs_len(p);
        assert(t.take(t.len() as int) == t);
        assert forall|j: int| 0 <= j <= t.len() implies utf8_len(expand_tabs(#[trigger] t.take(j))) <= utf8_len(expand_tabs(t)) by {
            if j < t.len() {
                assert(t.take(j) == p.take(j));
                if t.last() == '\t' {
                    lemma_utf8_len_append(expand_tabs(p), seq![' ', ' ', ' ', ' ']);
                } else {
                    assert(expand_tabs(t).drop_last() == expand_tabs(p));
                }
            }
        }
    }
}

/// All the sources of one compilation; a `FileId` is an index into `sources`.
pub struct SourceMap {
    pub sources: Vec<Source>,
}

impl SourceMap {
    pub fn new() -> (m: Self)
        ensures
            m.sources@.len() == 0,
    {
        SourceMap { sources: Vec::new() }
    }

    /// Adds a source and returns its id.
    pub fn add(&mut self, name: &str, text: &str) -> (id: FileId)
        requires
            utf8_len(expand_tabs(text@)) <= usize::MAX,
            old(self).sources@.len() < usize::MAX,
        ensures
            id == old(self).sources@.len(),
            final(self).sources@.len() == old(self).sources@.len() + 1,
            final(self).sources@.take(id as int) == old(self).sources@,
            final(self).sources@[id as int].wf(),
            final(self).sources@[id as int].name@ == name@,
            final(self).sources@[id as int].text@ == expand_tabs(text@),
    {
        let s = Source::new(name, text);
        self.sources.push(s);
        let id = self.sources.len() - 1;
        assert(self.sources@.take(id as int) == old(self).sources@);
        id
    }
}

/// A source's text holds no tab once it is read in: each became four spaces.
pub proof fn law_no_tabs_left(t: Seq<char>)
    ensures
        forall|i: int| 0 <= i < expand_tabs(t).len() ==> #[trigger] expand_tabs(t)[i] != '\t',
    decreases t.len(),
{
    if t.len() > 0 {
        law_no_tabs_left(t.drop_last());
        let e = expand_tabs(t.drop_last());
        assert forall|i: int| 0 <= i < expand_tabs(t).len() implies #[trigger] expand_tabs(t)[i] != '\t' by {
            if i < e.len() {
                assert(expand_tabs(t)[i] == e[i]);
            }
        }
    }
}

/// A line taken from a text holds no newline.
pub proof fn law_line_has_no_newline(t: Seq<char>, k: nat)
    ensures
        forall|i: int| 0 <= i < line_of(t, k).len() ==> #[trigger] line_of(t, k)[i] != '\n',
    decreases t.len(),
{
    if t.len() > 0 {
        if t[0] == '\n' {
            if k > 0 {
                law_line_has_no_newline(t.drop_first(), (k - 1) as nat);
                assert(line_of(t, k) == line_of(t.drop_first(), (k - 1) as nat));
            } else {
                assert(line_of(t, k).len() == 0);
            }
        } else if k == 0 {
            law_line_has_no_newline(t.drop_first(), 0);
            let rest = line_of(t.drop_first(), 0);
            assert(line_of(t, k) == seq![t[0]] + rest);
            assert forall|i: int| 0 <= i < line_of(t, k).len() implies #[trigger] line_of(t, k)[i] != '\n' by {
                if i > 0 {
                    assert(line_of(t, k)[i] == rest[i - 1]);
                } else {
                    assert(line_of(t, k)[0] == t[0]);
                }
            }
        } else {
            law_line_has_no_newline(t.drop_first(), k);
            assert(line_of(t, k) == line_of(t.drop_first(), k));
        }
    }
}

/// The number of newlines before position `p` of `t`: the line (from 0) that `p` is on.
pub open spec fn line_at(t: Seq<char>, p: int) -> nat
    decreases p,
{
    if p <= 0 || t.len() == 0 {
        0
    } else {
        (if t[0] == '\n' { 1nat } else { 0nat }) + line_at(t.drop_first(), p - 1)
    }
}

/// The column (from 0) of position `p` of `t`: how far it is from its line's start.
pub open spec fn column_at(t: Seq<char>, p: int) -> nat
    decreases p,
{
    if p <= 0 || t.len() == 0 {
        0
    } else if t[0] == '\n' || line_at(t.drop_first(), p - 1) > 0 {
        column_at(t.drop_first(), p - 1)
    } else {
        1 + column_at(t.drop_first(), p - 1)
    }
}

/// Moving over one character: a newline starts the next line at column 0.
pub proof fn lemma_line_column_step(t: Seq<char>, p: int)
    requires
        0 <= p < t.len(),
    ensures
        line_at(t, p + 1) == line_at(t, p) + (if t[p] == '\n' { 1nat } else { 0nat }),
        column_at(t, p + 1) == (if t[p] == '\n' { 0 } else { column_at(t, p) + 1 }),
    decreases p,
{
    let rest = t.drop_first();
    if p > 0 {
        lemma_line_column_step(rest, p - 1);
        assert(rest[p - 1] == t[p]);
        assert(line_at(t, p + 1) == (if t[0] == '\n' { 1nat } else { 0nat }) + line_at(rest, p));
        assert(line_at(t, p) == (if t[0] == '\n' { 1nat } else { 0nat }) + line_at(rest, p - 1));
    } else {
        assert(line_at(rest, 0) == 0);
        assert(column_at(rest, 0) == 0);
        assert(line_at(t, 0) == 0);
        assert(column_at(t, 0) == 0);
        assert(line_at(t, 1) == (if t[0] == '\n' { 1nat } else { 0nat }) + line_at(rest, 0));
    }
}

/// The character at position `p`, when it is no newline, stands on line `line_at(t, p)`
/// at column `column_at(t, p)`.
pub proof fn lemma_line_of_at(t: Seq<char>, p: int)
    requires
        0 <= p < t.len(),
        t[p] != '\n',
    ensures
        column_at(t, p) < line_of(t, line_at(t, p)).len(),
        line_of(t, line_at(t, p))[column_at(t, p) as int] == t[p],
    decreases p,
{
    let rest = t.drop_first();
    if p == 0 {
        assert(line_of(t, 0) == seq![t[0]] + line_of(rest, 0));
    } else {
        lemma_line_of_at(rest, p - 1);
        assert(rest[p - 1] == t[p]);
        if t[0] == '\n' {
            assert(line_of(t, line_at(t, p)) == line_of(rest, line_at(rest, p - 1)));
        } else if line_at(rest, p - 1) > 0 {
            assert(line_of(t, line_at(t, p)) == line_of(rest, line_at(rest, p - 1)));
        } else {
            assert(line_of(t, 0) == seq![t[0]] + line_of(rest, 0));
        }
    }
}

/// A line of a text of one-byte characters holds one-byte characters.
pub proof fn lemma_line_of_ascii(t: Seq<char>, k: nat)
    requires
        forall|i: int| 0 <= i < t.len() ==> (#[trigger] t[i] as u32) < 0x80,
    ensures
        forall|i: int| 0 <= i < line_of(t, k).len() ==> (#[trigger] line_of(t, k)[i] as u32) < 0x80,
    decreases t.len(),
{
    if t.len() > 0 {
        let rest = t.drop_first();
        assert forall|i: int| 0 <= i < rest.len() implies (#[trigger] rest[i] as u32) < 0x80 by {
            assert(rest[i] == t[i + 1]);
        }
        assert((t[0] as u32) < 0x80);
        if t[0] == '\n' {
            if k > 0 {
                lemma_line_of_ascii(rest, (k - 1) as nat);
                assert(line_of(t, k) == line_of(rest, (k - 1) as nat));
            }
        } else if k == 0 {
            lemma_line_of_ascii(rest, 0);
            let l = line_of(t, k);
            assert(l == seq![t[0]] + line_of(rest, 0));
            assert forall|i: int| 0 <= i < l.len() implies (#[trigger] l[i] as u32) < 0x80 by {
                if i > 0 {
                    assert(l[i] == line_of(rest, 0)[i - 1]);
                }
            }
        } else {
            lemma_line_of_ascii(rest, k);
            assert(line_of(t, k) == line_of(rest, k));
        }
    }
}

/// The line of a position is one of the text's lines.
pub proof fn lemma_line_at_bound(t: Seq<char>, p: int)
    requires
        0 <= p <= t.len(),
    ensures
        line_at(t, p) < line_starts(t).len(),
        line_at(t, p) <= p,
        column_at(t, p) <= p,
{
    lemma_line_at_le(t, p);
    lemma_line_starts_count(t);
}

proof fn lemma_line_at_le(t: Seq<char>, p: int)
    requires
        0 <= p <= t.len(),
    ensures
        line_at(t, p) <= count_newlines(t),
        line_at(t, p) <= p,
        column_at(t, p) <= p,
    decreases p,
{
    if p > 0 {
        lemma_line_at_le(t.drop_first(), p - 1);
        lemma_count_newlines_first(t);
    }
}

/// The number of newlines in `t`.
pub open spec fn count_newlines(t: Seq<char>) -> nat
    decreases t.len(),
{
    if t.len() == 0 {
        0
    } else {
        count_newlines(t.drop_last()) + if t.last() == '\n' { 1nat } else { 0nat }
    }
}

proof fn lemma_count_newlines_first(t: Seq<char>)
    requires
        t.len() > 0,
    ensures
        count_newlines(t) == (if t[0] == '\n' { 1nat } else { 0nat }) + count_newlines(t.drop_first()),
    decreases t.len(),
{
    if t.len() > 1 {
        lemma_count_newlines_first(t.drop_last());
        assert(t.drop_last().drop_first() =~= t.drop_first().drop_last());
        assert(t.drop_first().last() == t.last());
        assert(t.drop_last()[0] == t[0]);
    } else {
        assert(t.drop_first().len() == 0);
        assert(t.drop_last().len() == 0);
        assert(t.last() == t[0]);
        assert(count_newlines(t.drop_last()) == 0);
        assert(count_newlines(t.drop_first()) == 0);
    }
}

proof fn lemma_line_starts_count(t: Seq<char>)
    ensures
        line_starts(t).len() == count_newlines(t) + 1,
    decreases t.len(),
{
    if t.len() > 0 {
        lemma_line_starts_count(t.drop_last());
    }
}

} // verus!
