//! The state shared by the compiler phases: sources and diagnostics.
pub mod source;

use crate::compiler::Module;
use crate::report::standard::{all_report_lines, all_painted, pieces, renderable, report_lines, sources_v, strings_v, StdReporter};
use crate::report::{DiagV, Diagnostic, Level};
use source::{all_wf, FileId, Source, SourceMap};
use vstd::prelude::*;

verus! {

/// Some diagnostic in `ds` is an error.
pub open spec fn has_error_in(ds: Seq<DiagV>) -> bool {
    exists|i: int| 0 <= i < ds.len() && #[trigger] ds[i].level == Level::Error
}

pub struct Session {
    diagnostics: Vec<Diagnostic>,
    source_map: SourceMap,
    reporter: Option<StdReporter>,
    has_error: bool,
    /// What each file offers the others, once collected.
    modules: Option<Vec<(FileId, Module)>>,
    mangle_func_count: usize,
}

impl Session {
    /// The diagnostics emitted so far, in order.
    pub closed spec fn diags(&self) -> Seq<DiagV> {
        self.diagnostics@.map_values(|d: Diagnostic| d@)
    }

    pub closed spec fn spec_sources(&self) -> Seq<Source> {
        self.source_map.sources@
    }

    pub closed spec fn mangle_count(&self) -> nat {
        self.mangle_func_count as nat
    }

    pub closed spec fn spec_reporter(&self) -> Option<StdReporter> {
        self.reporter
    }

    pub closed spec fn spec_modules(&self) -> Option<Vec<(FileId, Module)>> {
        self.modules
    }

    /// The error flag is raised exactly when an error has been emitted.
    pub closed spec fn wf(&self) -> bool {
        self.has_error == has_error_in(self.diags())
    }

    pub fn new(reporter: Option<StdReporter>) -> (s: Self)
        ensures
            s.wf(),
            s.diags().len() == 0,
            s.spec_sources().len() == 0,
            s.mangle_count() == 0,
            s.spec_reporter() == reporter,
    {
        Session {
            reporter,
            source_map: SourceMap { sources: Vec::new() },
            diagnostics: Vec::new(),
            has_error: false,
            modules: None,
            mangle_func_count: 0,
        }
    }

    /// A fresh number for a mangled function name: 0, 1, 2, ...
    pub fn new_mangle_func(&mut self) -> (m: usize)
        requires
            old(self).mangle_count() < usize::MAX,
        ensures
            m == old(self).mangle_count(),
            final(self).mangle_count() == old(self).mangle_count() + 1,
            final(self).diags() == old(self).diags(),
            final(self).spec_sources() == old(self).spec_sources(),
            final(self).spec_reporter() == old(self).spec_reporter(),
            final(self).spec_modules() == old(self).spec_modules(),
            final(self).wf() == old(self).wf(),
    {
        let mangle = self.mangle_func_count;
        self.mangle_func_count = self.mangle_func_count + 1;
        mangle
    }

    pub fn push_source(&mut self, source: Source)
        ensures
            final(self).spec_sources() == old(self).spec_sources().push(source),
            final(self).diags() == old(self).diags(),
            final(self).mangle_count() == old(self).mangle_count(),
            final(self).spec_reporter() == old(self).spec_reporter(),
            final(self).spec_modules() == old(self).spec_modules(),
            final(self).wf() == old(self).wf(),
    {
        self.source_map.sources.push(source);
    }

    pub fn sources(&self) -> (r: &Vec<Source>)
        ensures
            r@ == self.spec_sources(),
    {
        &self.source_map.sources
    }

    pub fn source_map(&self) -> (r: &SourceMap)
        ensures
            r.sources@ == self.spec_sources(),
    {
        &self.source_map
    }

    pub fn source_map_mut(&mut self) -> (r: &mut SourceMap)
        ensures
            r.sources@ == old(self).spec_sources(),
            final(self).spec_sources() == final(r).sources@,
            final(self).diags() == old(self).diags(),
            final(self).mangle_count() == old(self).mangle_count(),
            final(self).spec_reporter() == old(self).spec_reporter(),
            final(self).spec_modules() == old(self).spec_modules(),
            final(self).wf() == old(self).wf(),
    {
        &mut self.source_map
    }

    /// Whether an error has been emitted.
    pub fn has_error(&self) -> (r: bool)
        requires
            self.wf(),
        ensures
            r == has_error_in(self.diags()),
    {
        self.has_error
    }

    /// Records a diagnostic.
    pub fn emit_error(&mut self, diag: Diagnostic)
        requires
            old(self).wf(),
        ensures
            final(self).wf(),
            final(self).diags() == old(self).diags().push(diag@),
            final(self).spec_sources() == old(self).spec_sources(),
            final(self).mangle_count() == old(self).mangle_count(),
            final(self).spec_reporter() == old(self).spec_reporter(),
            final(self).spec_modules() == old(self).spec_modules(),
    {
        let ghost d = diag@;
        if diag.level == Level::Error {
            self.has_error = true;
        }
        self.diagnostics.push(diag);
        proof {
            let ds = self.diags();
            let od = old(self).diags();
            assert(ds =~= od.push(d));
            if d.level == Level::Error {
                assert(ds[ds.len() - 1].level == Level::Error);
            }
            if has_error_in(od) {
                let i = choose|i: int| 0 <= i < od.len() && #[trigger] od[i].level == Level::Error;
                assert(ds[i] == od[i]);
            }
            if has_error_in(ds) {
                let i = choose|i: int| 0 <= i < ds.len() && #[trigger] ds[i].level == Level::Error;
                if i < ds.len() - 1 {
                    assert(od[i] == ds[i]);
                }
            }
        }
    }

    /// Keeps what the files offer each other.
    pub fn load_modules(&mut self, mods: Vec<(FileId, Module)>)
        ensures
            final(self).spec_modules() == Some(mods),
            final(self).diags() == old(self).diags(),
            final(self).spec_sources() == old(self).spec_sources(),
            final(self).mangle_count() == old(self).mangle_count(),
            final(self).spec_reporter() == old(self).spec_reporter(),
            final(self).wf() == old(self).wf(),
    {
        self.modules = Some(mods);
    }

    /// The lines that show every diagnostic so far, in order, through the reporter;
    /// none without a reporter.
    pub fn show_errors(&self) -> (lines: Vec<String>)
        requires
            self.spec_reporter() is Some ==> all_wf(self.spec_sources()),
            self.spec_reporter() is Some ==> forall|i: int| 0 <= i < self.diags().len() ==> renderable(
                self.spec_reporter().unwrap().verbose,
                #[trigger] self.diags()[i],
                sources_v(self.spec_sources()),
            ),
        ensures
            self.spec_reporter() is None ==> lines@.len() == 0,
            self.spec_reporter() is Some ==> exists|pps: Seq<Seq<Seq<char>>>| #![trigger all_report_lines(self.spec_reporter().unwrap().verbose, self.diags(), sources_v(self.spec_sources()), pps)]
                pps.len() == self.diags().len()
                && (forall|i: int| 0 <= i < pps.len() ==> all_painted(
                    pieces(self.spec_reporter().unwrap().verbose, self.diags()[i], sources_v(self.spec_sources())),
                    #[trigger] pps[i],
                ))
                && strings_v(lines@) == all_report_lines(
                    self.spec_reporter().unwrap().verbose,
                    self.diags(),
                    sources_v(self.spec_sources()),
                    pps,
                ),
    {
        let mut lines: Vec<String> = Vec::new();
        match &self.reporter {
            None => lines,
            Some(rep) => {
                let ghost v = rep.verbose;
                let ghost ds = self.diags();
                let ghost srcs = sources_v(self.spec_sources());
                let ghost mut pps: Seq<Seq<Seq<char>>> = Seq::empty();
                assert(ds.take(0) =~= Seq::<DiagV>::empty());
                let mut i: usize = 0;
                while i < self.diagnostics.len()
                    invariant
                        i <= self.diagnostics.len(),
                        ds == self.diags(),
                        ds.len() == self.diagnostics@.len(),
                        srcs == sources_v(self.spec_sources()),
                        all_wf(self.spec_sources()),
                        v == rep.verbose,
                        self.reporter == Some(*rep),
                        forall|k: int| 0 <= k < ds.len() ==> renderable(v, #[trigger] ds[k], srcs),
                        pps.len() == i,
                        forall|k: int| 0 <= k < i ==> all_painted(pieces(v, ds[k], srcs), #[trigger] pps[k]),
                        strings_v(lines@) == all_report_lines(v, ds.take(i as int), srcs, pps),
                    decreases self.diagnostics.len() - i,
                {
                    assert(ds[i as int] == self.diagnostics@[i as int]@);
                    let more = rep.render(&self.diagnostics[i], &self.source_map);
                    let ghost pp = choose|pp: Seq<Seq<char>>| all_painted(pieces(v, ds[i as int], srcs), pp)
                        && strings_v(more@) == report_lines(v, ds[i as int], srcs, pp);
                    let ghost l0 = strings_v(lines@);
                    let ghost pps0 = pps;
                    let mut k: usize = 0;
                    while k < more.len()
                        invariant
                            k <= more.len(),
                            strings_v(lines@) == l0 + strings_v(more@).take(k as int),
                        decreases more.len() - k,
                    {
                        let c = more[k].clone();
                        assert(c@ == more@[k as int]@);
                        let ghost lb = strings_v(lines@);
                        lines.push(c);
                        assert(strings_v(lines@) =~= lb.push(more@[k as int]@));
                        assert(strings_v(more@).take(k + 1) =~= strings_v(more@).take(k as int).push(more@[k as int]@));
                        assert(strings_v(lines@) =~= l0 + strings_v(more@).take(k + 1));
                        k = k + 1;
                    }
                    proof {
                        pps = pps.push(pp);
                        assert(strings_v(more@).take(more.len() as int) =~= strings_v(more@));
                        assert(ds.take(i + 1).drop_last() =~= ds.take(i as int));
                        assert(pps.drop_last() =~= pps0);
                        assert forall|k: int| 0 <= k < i + 1 implies all_painted(pieces(v, ds[k], srcs), #[trigger] pps[k]) by {
                            if k < i {
                                assert(pps[k] == pps0[k]);
                            }
                        }
                    }
                    i = i + 1;
                }
                assert(ds.take(ds.len() as int) =~= ds);
                lines
            },
        }
    }
}

/// Emitting a diagnostic raises the error flag exactly when it is an error, and
/// nothing lowers it again.
pub proof fn law_error_flag(ds: Seq<DiagV>, d: DiagV)
    ensures
        has_error_in(ds.push(d)) == (has_error_in(ds) || d.level == Level::Error),
{
    let ds2 = ds.push(d);
    if d.level == Level::Error {
        assert(ds2[ds.len() as int].level == Level::Error);
    }
    if has_error_in(ds) {
        let i = choose|i: int| 0 <= i < ds.len() && #[trigger] ds[i].level == Level::Error;
        assert(ds2[i] == ds[i]);
    }
    if has_error_in(ds2) {
        let i = choose|i: int| 0 <= i < ds2.len() && #[trigger] ds2[i].level == Level::Error;
        if i < ds.len() {
            assert(ds[i] == ds2[i]);
        }
    }
}

} // verus!
