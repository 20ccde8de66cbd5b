//! Diagnostics: where a problem is, how severe it is, and how to fix it.
pub mod standard;

use crate::report::standard::{all_painted, pieces, renderable, report_lines, sources_v, strings_v, Verbose};
use crate::session::source::{all_wf, FileId, SourceMap};
use vstd::prelude::*;

verus! {

/// A reporter: the lines that show a diagnostic to the user.
pub trait Reporter {
    /// How much the reporter shows.
    spec fn verbosity(&self) -> Verbose;

    /// The lines that show `diag`, in order, with the pieces painted as the terminal
    /// allows.
    fn emit(&self, diag: &Diagnostic, source_map: &SourceMap) -> (lines: Vec<String>)
        requires
            all_wf(source_map.sources@),
            renderable(self.verbosity(), diag@, sources_v(source_map.sources@)),
        ensures
            exists|pp: Seq<Seq<char>>| #![trigger report_lines(self.verbosity(), diag@, sources_v(source_map.sources@), pp)]
                all_painted(pieces(self.verbosity(), diag@, sources_v(source_map.sources@)), pp)
                && strings_v(lines@) == report_lines(self.verbosity(), diag@, sources_v(source_map.sources@), pp),
    ;
}

/// A range of characters on one line of a source file.
#[derive(Debug, Clone, Copy, PartialEq, Eq, Structural)]
pub struct Span {
    pub id: FileId,
    pub line: usize,
    pub offset: usize,
    pub len: usize,
}

impl Span {
    pub fn new(id: FileId, line: usize, offset: usize, len: usize) -> (s: Self)
        ensures
            s == (Span { id, line, offset, len }),
    {
        Span { id, line, offset, len }
    }
}

/// A span as plain numbers.
pub struct SpanV {
    pub id: nat,
    pub line: nat,
    pub offset: nat,
    pub len: nat,
}

impl View for Span {
    type V = SpanV;

    open spec fn view(&self) -> SpanV {
        SpanV { id: self.id as nat, line: self.line as nat, offset: self.offset as nat, len: self.len as nat }
    }
}

/// A help as plain values.
pub struct HelpV {
    pub message: Seq<char>,
    pub span: SpanV,
    pub fixed: Seq<char>,
}

/// A diagnostic as plain values.
pub struct DiagV {
    pub message: Seq<char>,
    pub level: Level,
    pub span: SpanV,
    pub phase: Phase,
    pub notes: Seq<Seq<char>>,
    pub helps: Seq<HelpV>,
}

impl View for Help {
    type V = HelpV;

    open spec fn view(&self) -> HelpV {
        HelpV { message: self.message@, span: self.span@, fixed: self.fixed@ }
    }
}

impl View for Diagnostic {
    type V = DiagV;

    open spec fn view(&self) -> DiagV {
        DiagV {
            message: self.message@,
            level: self.level,
            span: self.span@,
            phase: self.phase,
            notes: self.notes@.map_values(|n: String| n@),
            helps: self.helps@.map_values(|h: Help| h@),
        }
    }
}

/// An error of `phase` at `span` with `message` and nothing more.
pub open spec fn plain_error(message: Seq<char>, span: SpanV, phase: Phase) -> DiagV {
    DiagV { message, level: Level::Error, span, phase, notes: Seq::empty(), helps: Seq::empty() }
}

/// An error of `phase` at `span` with `message` and one help.
pub open spec fn error_with_help(message: Seq<char>, span: SpanV, phase: Phase, help: HelpV) -> DiagV {
    DiagV { message, level: Level::Error, span, phase, notes: Seq::empty(), helps: seq![help] }
}

pub open spec fn span_v(id: nat, line: nat, offset: nat, len: nat) -> SpanV {
    SpanV { id, line, offset, len }
}

/// A suggested fix: the text `fixed` put at `span`.
#[derive(Debug)]
pub struct Help {
    pub message: String,
    pub span: Span,
    pub fixed: String,
}

impl Help {
    pub fn new(message: String, span: Span, fixed: String) -> (h: Self)
        ensures
            h.message == message,
            h.span == span,
            h.fixed == fixed,
    {
        Help { message, span, fixed }
    }
}

/// One reported problem.
#[derive(Debug)]
pub struct Diagnostic {
    pub message: String,
    pub level: Level,
    pub span: Span,
    pub phase: Phase,
    pub notes: Vec<String>,
    pub helps: Vec<Help>,
}

impl Diagnostic {
    pub fn new(
        message: String,
        level: Level,
        span: Span,
        phase: Phase,
        notes: Vec<String>,
        helps: Vec<Help>,
    ) -> (d: Self)
        ensures
            d.message == message,
            d.level == level,
            d.span == span,
            d.phase == phase,
            d.notes == notes,
            d.helps == helps,
    {
        Diagnostic { message, level, notes, phase, span, helps }
    }
}

#[derive(Debug, Clone, Copy, PartialEq, Eq, Structural)]
pub enum Level {
    Error,
    Warn,
}

/// The compiler stage that found a problem.
#[derive(Debug, Clone, Copy, PartialEq, Eq, Structural)]
pub enum Phase {
    Lexing,
    Parsing,
    TypeChecking,
    CodeGen,
}

/// The name of a phase as it is shown to the user.
pub open spec fn phase_text(p: Phase) -> Seq<char> {
    match p {
        Phase::Lexing => "Lexing"@,
        Phase::Parsing => "Parsing"@,
        Phase::TypeChecking => "TypeChecking"@,
        Phase::CodeGen => "CodeGen"@,
    }
}

impl Phase {
    /// The name of the phase.
    pub fn to_string(&self) -> (s: String)
        ensures
            s@ == phase_text(*self),
    {
        match self {
            Phase::Lexing => String::from_str("Lexing"),
            Phase::Parsing => String::from_str("Parsing"),
            Phase::TypeChecking => String::from_str("TypeChecking"),
            Phase::CodeGen => String::from_str("CodeGen"),
        }
    }
}

/// An error with no notes and no helps.
pub fn new_plain_error(message: String, span: Span, phase: Phase) -> (d: Diagnostic)
    ensures
        d@ == plain_error(message@, span@, phase),
{
    let d = Diagnostic::new(message, Level::Error, span, phase, Vec::new(), Vec::new());
    assert(d@.notes =~= Seq::<Seq<char>>::empty());
    assert(d@.helps =~= Seq::<HelpV>::empty());
    d
}

/// An error with no notes and one help.
pub fn new_error_with_help(message: String, span: Span, phase: Phase, help: Help) -> (d: Diagnostic)
    ensures
        d@ == error_with_help(message@, span@, phase, help@),
{
    let ghost hv = help@;
    let mut helps: Vec<Help> = Vec::new();
    helps.push(help);
    let d = Diagnostic::new(message, Level::Error, span, phase, Vec::new(), helps);
    assert(d@.notes =~= Seq::<Seq<char>>::empty());
    assert(d@.helps =~= seq![hv]);
    d
}

} // verus!
