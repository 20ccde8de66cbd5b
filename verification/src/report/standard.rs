//! The standard reporter: turns a diagnostic into the coloured lines a user reads,
//! with the source line it points at.
use crate::report::{phase_text, DiagV, Diagnostic, HelpV, Level, SpanV};
use crate::session::source::{all_wf, expand_tabs, line_of, line_starts, Source, SourceMap};
use crate::text::{append_chars, char_utf8_width, chars_of, chars_of_string, dec, push_str, repeat, repeat_char, string_of, u64_text, utf8_byte_len, utf8_len, utf8_width};
use colored::Colorize;
use vstd::prelude::*;

verus! {

/// How much the reporter shows: warnings, notes and helps from `Verbose` on,
/// the phase from `Dev` on.
#[derive(Debug, Clone, Copy, PartialEq, Eq, Structural)]
pub enum Verbose {
    Normal,
    Verbose,
    Dev,
}

impl Verbose {
    pub open spec fn rank(self) -> int {
        match self {
            Verbose::Normal => 0,
            Verbose::Verbose => 1,
            Verbose::Dev => 2,
        }
    }
}

/// A colour the reporter paints with.
#[derive(Debug, Clone, Copy, PartialEq, Eq, Structural)]
pub enum Paint {
    Red,
    Yellow,
    Blue,
}

/// The escape sequence that starts colour `c`.
pub open spec fn sgr(c: Paint) -> Seq<char> {
    match c {
        Paint::Red => "\x1B[31m"@,
        Paint::Yellow => "\x1B[33m"@,
        Paint::Blue => "\x1B[34m"@,
    }
}

/// The escape sequence that ends a colour.
pub open spec fn sgr_reset() -> Seq<char> {
    "\x1B[0m"@
}

/// `s` holds the sequence that ends a colour.
pub open spec fn has_reset(s: Seq<char>) -> bool {
    exists|i: int| 0 <= i && i + 4 <= s.len() && #[trigger] s.subrange(i, i + 4) == sgr_reset()
}

/// `r` is `s` as the terminal gets it in colour `c`: unchanged when colouring is off,
/// else wrapped in the colour's escape sequences (what happens to a text that already
/// holds an end-of-colour sequence is left open).
pub open spec fn painted(s: Seq<char>, c: Paint, r: Seq<char>) -> bool {
    r == s || r == sgr(c) + s + sgr_reset() || has_reset(s)
}

/// `colored`'s `red()` on `s`, displayed. Trusted: the text is unchanged when the
/// crate decides from the environment not to colour, else it is wrapped in `ESC[31m`
/// and `ESC[0m`; an end-of-colour sequence inside `s` gets the colour restarted
/// after it, which is not stated.
#[verifier::external_body]
fn paint_red(s: &str) -> (r: String)
    ensures
        painted(s@, Paint::Red, r@),
{
    s.red().to_string()
}

/// `colored`'s `yellow()` on `s`, displayed; as `paint_red` with `ESC[33m`.
#[verifier::external_body]
fn paint_yellow(s: &str) -> (r: String)
    ensures
        painted(s@, Paint::Yellow, r@),
{
    s.yellow().to_string()
}

/// `colored`'s `blue()` on `s`, displayed; as `paint_red` with `ESC[34m`.
#[verifier::external_body]
fn paint_blue(s: &str) -> (r: String)
    ensures
        painted(s@, Paint::Blue, r@),
{
    s.blue().to_string()
}

/// The text of a diagnostic's level.
pub open spec fn level_text(l: Level) -> Seq<char> {
    match l {
        Level::Error => "Error"@,
        Level::Warn => "Warn"@,
    }
}

pub open spec fn level_paint(l: Level) -> Paint {
    match l {
        Level::Error => Paint::Red,
        Level::Warn => Paint::Yellow,
    }
}

/// A source as plain values: its name and its text.
pub open spec fn source_v(s: Source) -> (Seq<char>, Seq<char>) {
    (s.name@, s.text@)
}

pub open spec fn sources_v(s: Seq<Source>) -> Seq<(Seq<char>, Seq<char>)> {
    s.map_values(|x: Source| source_v(x))
}

/// The position of the character at byte `b` of `s`, counting from character `k` at
/// byte `acc`; none where `b` is not the start of a character or the end.
pub open spec fn char_at_byte_from(s: Seq<char>, b: nat, k: int, acc: nat) -> Option<nat>
    decreases s.len() - k,
{
    if acc == b {
        Some(k as nat)
    } else if k < 0 || k >= s.len() || acc > b {
        None
    } else {
        char_at_byte_from(s, b, k + 1, acc + utf8_width(s[k]))
    }
}

pub open spec fn char_at_byte(s: Seq<char>, b: nat) -> Option<nat> {
    char_at_byte_from(s, b, 0, 0)
}

proof fn lemma_char_at_byte_from_ascii(s: Seq<char>, b: nat, k: int)
    requires
        forall|i: int| 0 <= i < s.len() ==> (#[trigger] s[i] as u32) < 0x80,
        0 <= k <= b <= s.len(),
    ensures
        char_at_byte_from(s, b, k, k as nat) == Some(b),
    decreases b - k,
{
    if k < b {
        assert((s[k] as u32) < 0x80);
        lemma_char_at_byte_from_ascii(s, b, k + 1);
    }
}

/// In a text of one-byte characters every byte up to its end starts a character.
pub proof fn lemma_char_at_byte_ascii(s: Seq<char>, b: nat)
    requires
        forall|i: int| 0 <= i < s.len() ==> (#[trigger] s[i] as u32) < 0x80,
        b <= s.len(),
    ensures
        char_at_byte(s, b) == Some(b),
{
    lemma_char_at_byte_from_ascii(s, b, 0);
}

/// `s` with the bytes from `off` to `off + len` replaced by `fixed`.
pub open spec fn replace_bytes(s: Seq<char>, off: nat, len: nat, fixed: Seq<char>) -> Seq<char> {
    let k1 = char_at_byte(s, off).unwrap();
    let k2 = char_at_byte(s, off + len).unwrap();
    s.take(k1 as int) + fixed + s.skip(k2 as int)
}

/// The line under a code line: spaces up to the span, then `marks`.
pub open spec fn marks_line(line: nat, offset: nat, marks: Seq<char>) -> Seq<char> {
    repeat(' ', dec(line).len()) + " | "@ + repeat(' ', offset) + marks
}

/// A code line with its number.
pub open spec fn numbered_line(line: nat, code: Seq<char>) -> Seq<char> {
    dec(line + 1) + " | "@ + code
}

/// The code line of a diagnostic and, under it, `marks` at its span.
pub open spec fn diag_block(text: Seq<char>, sp: SpanV, marks: Seq<char>) -> Seq<char> {
    numbered_line(sp.line, expand_tabs(line_of(text, sp.line))) + "\n"@ + marks_line(sp.line, sp.offset, marks)
}

/// The code line of a help with the fix put in, and `marks` under the fix.
pub open spec fn help_block(text: Seq<char>, sp: SpanV, fixed: Seq<char>, marks: Seq<char>) -> Seq<char> {
    numbered_line(sp.line, replace_bytes(line_of(text, sp.line), sp.offset, sp.len, fixed)) + "\n"@
        + marks_line(sp.line, sp.offset, marks)
}

pub open spec fn location_text(name: Seq<char>, sp: SpanV) -> Seq<char> {
    "--> "@ + name + " in "@ + dec(sp.line + 1) + ":"@ + dec(sp.offset + 1)
}

/// A span the reporter can show: its file exists, its line is in the file, and its
/// numbers leave room for one more.
pub open spec fn span_shown(srcs: Seq<(Seq<char>, Seq<char>)>, sp: SpanV) -> bool {
    &&& sp.id < srcs.len()
    &&& sp.line < line_starts(srcs[sp.id as int].1).len()
    &&& sp.line + 1 <= usize::MAX
    &&& sp.offset + 1 <= usize::MAX
}

/// A help span whose bytes are a range of whole characters of its line.
pub open spec fn help_shown(srcs: Seq<(Seq<char>, Seq<char>)>, h: HelpV) -> bool {
    &&& h.span.id < srcs.len()
    &&& h.span.line < line_starts(srcs[h.span.id as int].1).len()
    &&& h.span.line + 1 <= usize::MAX
    &&& h.span.offset + h.span.len <= usize::MAX
    &&& char_at_byte(line_of(srcs[h.span.id as int].1, h.span.line), h.span.offset) is Some
    &&& char_at_byte(line_of(srcs[h.span.id as int].1, h.span.line), h.span.offset + h.span.len) is Some
    &&& utf8_len(h.fixed) <= usize::MAX
}

/// The inputs on which the reporter shows a diagnostic without failing.
pub open spec fn renderable(v: Verbose, d: DiagV, srcs: Seq<(Seq<char>, Seq<char>)>) -> bool {
    (v.rank() < 1 && d.level == Level::Warn) || {
        &&& span_shown(srcs, d.span)
        &&& (v.rank() >= 1 ==> forall|j: int| 0 <= j < d.helps.len() ==> help_shown(srcs, #[trigger] d.helps[j]))
    }
}

/// The texts the reporter paints for a diagnostic, with their colours, in order: the
/// level, the location, the marks; from `Verbose` on, each note, then for each help
/// its message, its fix and the marks under the fix.
pub open spec fn pieces(v: Verbose, d: DiagV, srcs: Seq<(Seq<char>, Seq<char>)>) -> Seq<(Seq<char>, Paint)> {
    if v.rank() < 1 && d.level == Level::Warn {
        Seq::empty()
    } else {
        let base = seq![
            (level_text(d.level), level_paint(d.level)),
            (location_text(srcs[d.span.id as int].0, d.span), Paint::Blue),
            (repeat('^', d.span.len), Paint::Yellow),
        ];
        if v.rank() < 1 {
            base
        } else {
            base + note_pieces(d.notes) + help_pieces(d.helps)
        }
    }
}

pub open spec fn note_pieces(notes: Seq<Seq<char>>) -> Seq<(Seq<char>, Paint)> {
    notes.map_values(|n: Seq<char>| ("Note: "@ + n, Paint::Blue))
}

pub open spec fn help_pieces(helps: Seq<HelpV>) -> Seq<(Seq<char>, Paint)>
    decreases helps.len(),
{
    if helps.len() == 0 {
        Seq::empty()
    } else {
        let h = helps.last();
        help_pieces(helps.drop_last()) + seq![
            ("Help: "@ + h.message, Paint::Blue),
            (h.fixed, Paint::Blue),
            (repeat('+', utf8_len(h.fixed)), Paint::Blue),
        ]
    }
}

/// Each painted text is its piece as painting leaves it.
pub open spec fn all_painted(ps: Seq<(Seq<char>, Paint)>, pp: Seq<Seq<char>>) -> bool {
    &&& pp.len() == ps.len()
    &&& forall|i: int| 0 <= i < ps.len() ==> painted(ps[i].0, ps[i].1, #[trigger] pp[i])
}

/// The lines shown for each help, given the painted pieces from position `at` on.
pub open spec fn help_lines(helps: Seq<HelpV>, srcs: Seq<(Seq<char>, Seq<char>)>, pp: Seq<Seq<char>>, at: int) -> Seq<Seq<char>>
    decreases helps.len(),
{
    if helps.len() == 0 {
        Seq::empty()
    } else {
        let j = at + 3 * (helps.len() - 1);
        let h = helps.last();
        help_lines(helps.drop_last(), srcs, pp, at) + seq![
            pp[j],
            help_block(srcs[h.span.id as int].1, h.span, pp[j + 1], pp[j + 2]),
        ]
    }
}

/// The first lines for diagnostic `d`: the level and message, the phase in `Dev`,
/// the location, and the code line with its marks.
pub open spec fn report_head(v: Verbose, d: DiagV, srcs: Seq<(Seq<char>, Seq<char>)>, pp: Seq<Seq<char>>) -> Seq<Seq<char>> {
    let head = seq![pp[0] + ": "@ + d.message];
    let phase = if v == Verbose::Dev {
        seq!["Phase: "@ + phase_text(d.phase)]
    } else {
        Seq::empty()
    };
    head + phase + seq![pp[1], diag_block(srcs[d.span.id as int].1, d.span, pp[2])]
}

/// The lines the reporter shows for diagnostic `d`, given the painted pieces `pp`.
pub open spec fn report_lines(v: Verbose, d: DiagV, srcs: Seq<(Seq<char>, Seq<char>)>, pp: Seq<Seq<char>>) -> Seq<Seq<char>> {
    if v.rank() < 1 && d.level == Level::Warn {
        Seq::empty()
    } else if v.rank() < 1 {
        report_head(v, d, srcs, pp)
    } else {
        report_head(v, d, srcs, pp) + pp.subrange(3, 3 + d.notes.len() as int) + help_lines(d.helps, srcs, pp, 3 + d.notes.len() as int)
    }
}

/// Decimal text of `n`.
fn num_text(n: usize) -> (v: Vec<char>)
    ensures
        v@ == dec(n as nat),
{
    u64_text(n as u64)
}

/// Tabs replaced by four spaces.
fn expand_line_tabs(s: &Vec<char>) -> (r: Vec<char>)
    ensures
        r@ == expand_tabs(s@),
{
    let mut r: Vec<char> = Vec::new();
    let mut i: usize = 0;
    while i < s.len()
        invariant
            i <= s.len(),
            r@ == expand_tabs(s@.take(i as int)),
        decreases s.len() - i,
    {
        let ghost r0 = r@;
        assert(s@.take(i + 1).drop_last() =~= s@.take(i as int));
        assert(s@.take(i + 1).last() == s@[i as int]);
        if s[i] == '\t' {
            r.push(' ');
            r.push(' ');
            r.push(' ');
            r.push(' ');
            assert(r@ =~= r0 + seq![' ', ' ', ' ', ' ']);
        } else {
            r.push(s[i]);
        }
        i = i + 1;
    }
    assert(s@.take(s.len() as int) =~= s@);
    r
}

/// The position of the character at byte `b` of `s`, which is a character start.
fn char_index_at_byte(s: &Vec<char>, b: usize) -> (k: usize)
    requires
        char_at_byte(s@, b as nat) is Some,
    ensures
        k as nat == char_at_byte(s@, b as nat).unwrap(),
        k <= s.len(),
{
    let mut k: usize = 0;
    let mut acc: usize = 0;
    while acc != b
        invariant
            k <= s.len(),
            acc <= b,
            char_at_byte_from(s@, b as nat, k as int, acc as nat) == char_at_byte(s@, b as nat),
            char_at_byte(s@, b as nat) is Some,
        decreases s.len() - k,
    {
        let w = char_utf8_width(s[k]);
        proof {
            let nxt = char_at_byte_from(s@, b as nat, k + 1, acc as nat + w as nat);
            assert(nxt is Some);
            assert(acc as nat + w as nat <= b as nat);
        }
        acc = acc + w;
        k = k + 1;
    }
    k
}

/// The code line of a diagnostic with the marks under its span.
fn build_diag(src: &Source, line: usize, offset: usize, marks: &String) -> (r: String)
    requires
        line + 1 <= usize::MAX,
        line < src.lines@.len(),
    ensures
        r@ == diag_block(src.text@, SpanV { id: 0, line: line as nat, offset: offset as nat, len: 0 }, marks@),
{
    let code = chars_of_string(&src.get_line(line));
    let code = expand_line_tabs(&code);
    let mut out = num_text(line + 1);
    push_str(&mut out, " | ");
    append_chars(&mut out, &code);
    push_str(&mut out, "\n");
    let pad1 = repeat_char(' ', num_text(line).len());
    append_chars(&mut out, &pad1);
    push_str(&mut out, " | ");
    let pad2 = repeat_char(' ', offset);
    append_chars(&mut out, &pad2);
    let m = chars_of_string(marks);
    append_chars(&mut out, &m);
    string_of(&out)
}

/// The code line of a help with `fixed` put in place of its span, and the marks under it.
fn build_help(src: &Source, line: usize, offset: usize, len: usize, fixed: &String, marks: &String) -> (r: String)
    requires
        line + 1 <= usize::MAX,
        line < src.lines@.len(),
        offset + len <= usize::MAX,
        char_at_byte(line_of(src.text@, line as nat), offset as nat) is Some,
        char_at_byte(line_of(src.text@, line as nat), (offset + len) as nat) is Some,
    ensures
        r@ == help_block(src.text@, SpanV { id: 0, line: line as nat, offset: offset as nat, len: len as nat }, fixed@, marks@),
{
    let code = chars_of_string(&src.get_line(line));
    let k1 = char_index_at_byte(&code, offset);
    let k2 = char_index_at_byte(&code, offset + len);
    let mut out = num_text(line + 1);
    push_str(&mut out, " | ");
    let mut i: usize = 0;
    while i < k1
        invariant
            i <= k1,
            k1 <= code.len(),
            out@ == dec(line as nat + 1) + " | "@ + code@.take(i as int),
        decreases k1 - i,
    {
        out.push(code[i]);
        i = i + 1;
        assert(out@ =~= dec(line as nat + 1) + " | "@ + code@.take(i as int));
    }
    let f = chars_of_string(fixed);
    append_chars(&mut out, &f);
    let ghost mid = out@;
    let mut j: usize = k2;
    while j < code.len()
        invariant
            k2 <= j <= code.len(),
            out@ == mid + code@.subrange(k2 as int, j as int),
        decreases code.len() - j,
    {
        out.push(code[j]);
        j = j + 1;
        assert(out@ =~= mid + code@.subrange(k2 as int, j as int));
    }
    assert(code@.subrange(k2 as int, code.len() as int) =~= code@.skip(k2 as int));
    push_str(&mut out, "\n");
    let pad1 = repeat_char(' ', num_text(line).len());
    append_chars(&mut out, &pad1);
    push_str(&mut out, " | ");
    let pad2 = repeat_char(' ', offset);
    append_chars(&mut out, &pad2);
    let m = chars_of_string(marks);
    append_chars(&mut out, &m);
    string_of(&out)
}

pub struct StdReporter {
    pub verbose: Verbose,
}

impl StdReporter {
    pub fn new(verbose: Verbose) -> (r: Self)
        ensures
            r.verbose == verbose,
    {
        StdReporter { verbose }
    }

    /// The lines that show `diag`, coloured where the terminal takes colours: nothing
    /// for a warning below `Verbose`; the phase only in `Dev`; notes and helps from
    /// `Verbose` on.
    #[verifier::spinoff_prover]
    pub fn render(&self, diag: &Diagnostic, source_map: &SourceMap) -> (lines: Vec<String>)
        requires
            all_wf(source_map.sources@),
            renderable(self.verbose, diag@, sources_v(source_map.sources@)),
        ensures
            exists|pp: Seq<Seq<char>>| #![trigger report_lines(self.verbose, diag@, sources_v(source_map.sources@), pp)]
                all_painted(pieces(self.verbose, diag@, sources_v(source_map.sources@)), pp)
                && strings_v(lines@) == report_lines(self.verbose, diag@, sources_v(source_map.sources@), pp),
    {
        let ghost srcs = sources_v(source_map.sources@);
        let ghost d = diag@;
        let ghost v = self.verbose;
        let ghost ps = pieces(v, d, srcs);
        let mut lines: Vec<String> = Vec::new();
        if self.verbose == Verbose::Normal && diag.level == Level::Warn {
            assert(strings_v(lines@) =~= report_lines(v, d, srcs, Seq::empty()));
            assert(all_painted(ps, Seq::empty()));
            return lines;
        }
        let prefix = match diag.level {
            Level::Warn => paint_yellow("Warn"),
            Level::Error => paint_red("Error"),
        };
        let ghost mut pp: Seq<Seq<char>> = seq![prefix@];
        let mut l1 = chars_of_string(&prefix);
        push_str(&mut l1, ": ");
        let msg = chars_of_string(&diag.message);
        append_chars(&mut l1, &msg);
        lines.push(string_of(&l1));
        if self.verbose == Verbose::Dev {
            let mut l2 = chars_of("Phase: ");
            let ph = chars_of_string(&diag.phase.to_string());
            append_chars(&mut l2, &ph);
            lines.push(string_of(&l2));
        }
        let span = diag.span;
        let src = &source_map.sources[span.id];
        assert(srcs[span.id as int] == source_v(*src));
        assert(source_map.sources@[span.id as int].wf());
        let mut loc = chars_of("--> ");
        let name = chars_of_string(&src.name);
        append_chars(&mut loc, &name);
        push_str(&mut loc, " in ");
        let ln = num_text(span.line + 1);
        append_chars(&mut loc, &ln);
        push_str(&mut loc, ":");
        let off = num_text(span.offset + 1);
        append_chars(&mut loc, &off);
        let loc_s = string_of(&loc);
        let loc_p = paint_blue(loc_s.as_str());
        proof {
            pp = pp.push(loc_p@);
        }
        let marks = string_of(&repeat_char('^', span.len));
        let marks_p = paint_yellow(marks.as_str());
        proof {
            pp = pp.push(marks_p@);
        }
        let block = build_diag(src, span.line, span.offset, &marks_p);
        lines.push(loc_p);
        lines.push(block);
        let ghost base_pp = pp;
        if self.verbose == Verbose::Normal {
            assert(all_painted(ps, pp));
            assert(strings_v(lines@) =~= report_lines(v, d, srcs, pp));
            return lines;
        }
        let ghost base_lines = strings_v(lines@);
        assert(base_lines =~= report_head(v, d, srcs, base_pp));
        let mut i: usize = 0;
        while i < diag.notes.len()
            invariant
                i <= diag.notes.len(),
                d == diag@,
                pp.len() == 3 + i,
                pp.take(3) == base_pp,
                forall|k: int| 0 <= k < i ==> painted("Note: "@ + d.notes[k], Paint::Blue, #[trigger] pp[3 + k]),
                strings_v(lines@) == base_lines + pp.subrange(3, 3 + i as int),
            decreases diag.notes.len() - i,
        {
            let mut n = chars_of("Note: ");
            let nt = chars_of_string(&diag.notes[i]);
            append_chars(&mut n, &nt);
            let ns = string_of(&n);
            let np = paint_blue(ns.as_str());
            let ghost l0 = strings_v(lines@);
            let ghost npv = np@;
            let ghost pp0 = pp;
            proof {
                pp = pp.push(np@);
                assert(pp.take(3) =~= base_pp);
                assert(pp.subrange(3, 3 + i + 1) =~= pp0.subrange(3, 3 + i as int).push(npv));
            }
            lines.push(np);
            assert(strings_v(lines@) =~= l0.push(npv));
            i = i + 1;
        }
        let ghost note_pp = pp;
        let ghost note_lines = strings_v(lines@);
        let ghost nn = d.notes.len() as int;
        proof {
            assert(d.helps.take(0) =~= Seq::<HelpV>::empty());
            assert(help_lines(d.helps.take(0), srcs, pp, 3 + nn) =~= Seq::<Seq<char>>::empty());
            assert(note_lines =~= note_lines + help_lines(d.helps.take(0), srcs, pp, 3 + nn));
        }
        let mut j: usize = 0;
        while j < diag.helps.len()
            invariant
                j <= diag.helps.len(),
                d == diag@,
                v == self.verbose,
                v.rank() >= 1,
                srcs == sources_v(source_map.sources@),
                all_wf(source_map.sources@),
                renderable(v, d, srcs),
                !(v.rank() < 1 && d.level == Level::Warn),
                nn == d.notes.len(),
                pp.len() == 3 + nn + 3 * j,
                pp.take(3 + nn) == note_pp,
                forall|k: int| 0 <= k < 3 * j ==> painted(
                    #[trigger] help_pieces(d.helps.take(j as int))[k].0,
                    help_pieces(d.helps.take(j as int))[k].1,
                    pp[3 + nn + k],
                ),
                help_pieces(d.helps.take(j as int)).len() == 3 * j,
                strings_v(lines@) == note_lines + help_lines(d.helps.take(j as int), srcs, pp, 3 + nn),
            decreases diag.helps.len() - j,
        {
            let h = &diag.helps[j];
            assert(d.helps[j as int] == h@);
            assert(help_shown(srcs, d.helps[j as int]));
            assert(srcs[h.span.id as int] == source_v(source_map.sources@[h.span.id as int]));
            let mut hm = chars_of("Help: ");
            let ht = chars_of_string(&h.message);
            append_chars(&mut hm, &ht);
            let hs = string_of(&hm);
            let hp = paint_blue(hs.as_str());
            let fp = paint_blue(h.fixed.as_str());
            let fixed_chars = chars_of_string(&h.fixed);
            let flen = utf8_byte_len(&fixed_chars);
            let plus = string_of(&repeat_char('+', flen));
            let plus_p = paint_blue(plus.as_str());
            let hsrc = &source_map.sources[h.span.id];
            assert(source_map.sources@[h.span.id as int].wf());
            let hb = build_help(hsrc, h.span.line, h.span.offset, h.span.len, &fp, &plus_p);
            let ghost pp0 = pp;
            let ghost l0 = strings_v(lines@);
            let ghost hpv = hp@;
            let ghost hbv = hb@;
            proof {
                pp = pp.push(hp@).push(fp@).push(plus_p@);
                let hs0 = d.helps.take(j as int);
                let hs1 = d.helps.take(j + 1);
                assert(hs1.drop_last() =~= hs0);
                assert(hs1.last() == h@);
                lemma_help_lines_frame(hs0, srcs, pp0, pp, 3 + nn);
                assert(pp.take(3 + nn) =~= note_pp);
                assert forall|k: int| 0 <= k < 3 * (j + 1) implies painted(
                    #[trigger] help_pieces(hs1)[k].0,
                    help_pieces(hs1)[k].1,
                    pp[3 + nn + k],
                ) by {
                    if k < 3 * j {
                        assert(help_pieces(hs1)[k] == help_pieces(hs0)[k]);
                        assert(pp[3 + nn + k] == pp0[3 + nn + k]);
                    }
                }
            }
            lines.push(hp);
            lines.push(hb);
            proof {
                let hs1 = d.helps.take(j + 1);
                assert(help_lines(hs1, srcs, pp, 3 + nn) =~= help_lines(d.helps.take(j as int), srcs, pp, 3 + nn).push(hpv).push(hbv));
                assert(strings_v(lines@) =~= l0.push(hpv).push(hbv));
            }
            j = j + 1;
        }
        proof {
            assert(d.helps.take(d.helps.len() as int) =~= d.helps);
            assert(all_painted(ps, pp)) by {
                assert forall|k: int| 0 <= k < ps.len() implies painted(ps[k].0, ps[k].1, #[trigger] pp[k]) by {
                    if k < 3 {
                        assert(pp[k] == base_pp[k]);
                    } else if k < 3 + nn {
                        assert(pp[k] == note_pp[k]);
                        assert(note_pp[k] == pp[3 + (k - 3)]);
                    } else {
                        assert(ps[k] == help_pieces(d.helps)[k - 3 - nn]);
                    }
                }
            }
            assert(pp.subrange(3, 3 + nn) =~= note_pp.subrange(3, 3 + nn));
            assert(pp[0] == base_pp[0] && pp[1] == base_pp[1] && pp[2] == base_pp[2]);
            assert(report_head(v, d, srcs, pp) =~= report_head(v, d, srcs, base_pp));
            assert(strings_v(lines@) =~= report_lines(v, d, srcs, pp));
        }
        lines
    }
}

/// The lines of the helps read only their own painted pieces.
pub proof fn lemma_help_lines_frame(hs: Seq<HelpV>, srcs: Seq<(Seq<char>, Seq<char>)>, pp1: Seq<Seq<char>>, pp2: Seq<Seq<char>>, at: int)
    requires
        at >= 0,
        pp1.len() >= at + 3 * hs.len(),
        pp2.len() >= pp1.len(),
        forall|k: int| 0 <= k < pp1.len() ==> pp1[k] == pp2[k],
    ensures
        help_lines(hs, srcs, pp1, at) == help_lines(hs, srcs, pp2, at),
    decreases hs.len(),
{
    if hs.len() > 0 {
        lemma_help_lines_frame(hs.drop_last(), srcs, pp1, pp2, at);
    }
}

/// Each help gives three pieces.
pub proof fn lemma_help_pieces_len(hs: Seq<HelpV>)
    ensures
        help_pieces(hs).len() == 3 * hs.len(),
    decreases hs.len(),
{
    if hs.len() > 0 {
        lemma_help_pieces_len(hs.drop_last());
    }
}

/// The lines for each diagnostic of `ds`, one after the other, given the painted
/// pieces of each.
pub open spec fn all_report_lines(v: Verbose, ds: Seq<DiagV>, srcs: Seq<(Seq<char>, Seq<char>)>, pps: Seq<Seq<Seq<char>>>) -> Seq<Seq<char>>
    decreases ds.len(),
{
    if ds.len() == 0 || pps.len() == 0 {
        Seq::empty()
    } else {
        all_report_lines(v, ds.drop_last(), srcs, pps.drop_last()) + report_lines(v, ds.last(), srcs, pps.last())
    }
}

/// The texts of a sequence of strings.
pub open spec fn strings_v(s: Seq<String>) -> Seq<Seq<char>> {
    s.map_values(|x: String| x@)
}

proof fn lemma_help_lines_len(hs: Seq<HelpV>, srcs: Seq<(Seq<char>, Seq<char>)>, pp: Seq<Seq<char>>, at: int)
    ensures
        help_lines(hs, srcs, pp, at).len() == 2 * hs.len(),
    decreases hs.len(),
{
    if hs.len() > 0 {
        lemma_help_lines_len(hs.drop_last(), srcs, pp, at);
    }
}

/// What verbosity shows of a diagnostic: below `Verbose` a warning shows nothing;
/// otherwise the first line is the painted level and the message, followed by one
/// phase line in `Dev` only, the location and the code line with its marks; notes
/// (one line each) and helps (two lines each) only from `Verbose` on.
pub proof fn law_report_shape(v: Verbose, d: DiagV, srcs: Seq<(Seq<char>, Seq<char>)>, pp: Seq<Seq<char>>)
    requires
        all_painted(pieces(v, d, srcs), pp),
    ensures
        v.rank() < 1 && d.level == Level::Warn ==> report_lines(v, d, srcs, pp).len() == 0,
        !(v.rank() < 1 && d.level == Level::Warn) ==> {
            let lines = report_lines(v, d, srcs, pp);
            &&& lines.len() == 3 + (if v == Verbose::Dev { 1int } else { 0 }) + (if v.rank() >= 1 {
                d.notes.len() + 2 * d.helps.len()
            } else {
                0
            })
            &&& lines[0] == pp[0] + ": "@ + d.message
            &&& painted(level_text(d.level), level_paint(d.level), pp[0])
        },
{
    lemma_help_lines_len(d.helps, srcs, pp, 3 + d.notes.len() as int);
    if !(v.rank() < 1 && d.level == Level::Warn) {
        assert(pieces(v, d, srcs)[0] == (level_text(d.level), level_paint(d.level)));
        if v.rank() >= 1 {
            lemma_help_pieces_len(d.helps);
            assert(pp.len() == 3 + d.notes.len() + 3 * d.helps.len());
        }
    }
}

impl crate::report::Reporter for StdReporter {
    open spec fn verbosity(&self) -> Verbose {
        self.verbose
    }

    fn emit(&self, diag: &Diagnostic, source_map: &SourceMap) -> (lines: Vec<String>) {
        self.render(diag, source_map)
    }
}

} // verus!
