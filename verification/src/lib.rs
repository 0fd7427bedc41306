//! Interprocedural detection of lock-related deadlock patterns: a call
//! graph over monomorphized function instances, bounded enumeration of
//! lock-guard operation paths, and a detector that reports double-lock
//! and conflict-lock findings graded by possibility. The embedding
//! toolchain supplies the program model and consumes the report list.

pub mod callgraph;
pub mod detect;
pub mod model;
pub mod paths;

use vstd::prelude::*;

use crate::callgraph::CallGraph;
use crate::detect::DeadlockDetector;
use crate::detect::Possibility;
use crate::detect::Report;
use crate::detect::spec_analyze;
use crate::model::Instance;

verus! {

/// How many call inlinings the path enumeration allows, bounding work
/// on cyclic call graphs.
pub const DEFAULT_MAX_INLINE_DEPTH: usize = 4;

/// The crate allow/deny list used to skip whole compilation units
/// before analysis begins.
pub enum CrateNameList {
    /// Allow-list: when non-empty, only the named units are analyzed.
    White(Vec<String>),
    /// Deny-list: the named units are never analyzed.
    Black(Vec<String>),
}

/// Which detector to run.
pub enum DetectorKind {
    Deadlock,
}

/// The analysis options the embedding toolchain hands over.
pub struct Options {
    pub detector_kind: DetectorKind,
    pub crate_name_list: CrateNameList,
}

/// Whether some name of `names` reads exactly as `name`.
pub open spec fn spec_contains_name(names: Seq<String>, name: Seq<char>) -> bool {
    exists|k: int| 0 <= k < names.len() && (#[trigger] names[k])@ == name
}

/// Whether the unit named `crate_name` is skipped by the list: a
/// non-empty allow-list that lacks it, or a deny-list that holds it.
pub open spec fn spec_skipped(list: CrateNameList, crate_name: Seq<char>) -> bool {
    match list {
        CrateNameList::White(names) => names@.len() > 0 && !spec_contains_name(names@, crate_name),
        CrateNameList::Black(names) => spec_contains_name(names@, crate_name),
    }
}

/// Whether some name of `names` reads exactly as `crate_name`.
fn contains_name(names: &Vec<String>, crate_name: &String) -> (r: bool)
    ensures
        r == spec_contains_name(names@, crate_name@),
{
    let mut k: usize = 0;
    while k < names.len()
        invariant
            k <= names@.len(),
            forall|m: int| 0 <= m < k ==> (#[trigger] names@[m])@ != crate_name@,
        decreases names@.len() - k,
    {
        let nk = &names[k];
        if *nk == *crate_name {
            return true;
        }
        k += 1;
    }
    false
}

/// Whether the unit named `crate_name` is skipped by the list.
pub fn skipped_by_list(list: &CrateNameList, crate_name: &String) -> (r: bool)
    ensures
        r == spec_skipped(*list, crate_name@),
{
    match list {
        CrateNameList::White(names) => names.len() > 0 && !contains_name(names, crate_name),
        CrateNameList::Black(names) => contains_name(names, crate_name),
    }
}

/// Every instance index in order: the analysis roots when all
/// instances slated for code generation are entry points.
pub open spec fn spec_all_roots(n: nat) -> Seq<usize> {
    Seq::new(n, |k: int| k as usize)
}

/// Builds the root list 0, 1, ..., n-1.
fn all_roots(n: usize) -> (r: Vec<usize>)
    ensures
        r@ == spec_all_roots(n as nat),
{
    let mut r: Vec<usize> = Vec::new();
    proof {
        assert(r@ =~= spec_all_roots(0));
    }
    let mut k: usize = 0;
    while k < n
        invariant
            k <= n,
            r@ == spec_all_roots(k as nat),
        decreases n - k,
    {
        r.push(k);
        proof {
            assert(r@ =~= spec_all_roots((k + 1) as nat));
        }
        k += 1;
    }
    r
}

/// Whether `needle` occurs as a contiguous run of `hay`.
pub open spec fn spec_contains_seq(hay: Seq<char>, needle: Seq<char>) -> bool {
    exists|i: int|
        0 <= i <= hay.len() - needle.len() && #[trigger] hay.subrange(i, i + needle.len() as int)
            == needle
}

/// Whether `needle`'s characters stand in `hay` starting at `i`.
fn match_at(hay: &str, needle: &str, i: usize, nl: usize) -> (r: bool)
    requires
        nl == needle@.len(),
        i + nl <= hay@.len(),
        hay@.len() <= usize::MAX,
    ensures
        r == (hay@.subrange(i as int, i as int + nl as int) == needle@),
{
    let mut k: usize = 0;
    while k < nl
        invariant
            k <= nl,
            nl == needle@.len(),
            i + nl <= hay@.len(),
            hay@.len() <= usize::MAX,
            forall|m: int| 0 <= m < k ==> hay@[i + m] == needle@[m],
        decreases nl - k,
    {
        let hc = hay.get_char(i + k);
        let nc = needle.get_char(k);
        if hc != nc {
            proof {
                assert(hay@.subrange(i as int, i as int + nl as int)[k as int] == hay@[i + k]);
            }
            return false;
        }
        k += 1;
    }
    proof {
        assert(hay@.subrange(i as int, i as int + nl as int) =~= needle@);
    }
    true
}

/// Whether `needle` occurs as a contiguous run of `hay`.
fn contains_run(hay: &str, needle: &str) -> (r: bool)
    ensures
        r == spec_contains_seq(hay@, needle@),
{
    let hl = hay.unicode_len();
    let nl = needle.unicode_len();
    if nl > hl {
        return false;
    }
    if nl == 0 {
        proof {
            assert(hay@.subrange(0, 0 + needle@.len() as int) =~= needle@);
        }
        return true;
    }
    let mut i: usize = 0;
    while i <= hl - nl
        invariant
            hl == hay@.len(),
            nl == needle@.len(),
            0 < nl <= hl,
            i <= hl - nl + 1,
            forall|m: int|
                0 <= m < i ==> #[trigger] hay@.subrange(m, m + nl as int) != needle@,
        decreases hl - nl + 1 - i,
    {
        if match_at(hay, needle, i, nl) {
            return true;
        }
        i += 1;
    }
    false
}

/// The callbacks value the embedding toolchain drives: analysis
/// options, plus the input file name, output directory and test-run
/// flag it fills in while configuring a compilation.
pub struct LockBudCallbacks {
    pub options: Options,
    pub file_name: String,
    pub output_directory: String,
    pub test_run: bool,
}

impl LockBudCallbacks {
    /// A fresh callbacks value holding `options`, with an empty file
    /// name, an empty output directory, and the test-run flag off.
    pub fn new(options: Options) -> (r: LockBudCallbacks)
        ensures
            r.options == options,
            r.file_name@ == Seq::<char>::empty(),
            r.output_directory@ == Seq::<char>::empty(),
            r.test_run == false,
    {
        LockBudCallbacks {
            options,
            file_name: String::new(),
            output_directory: String::new(),
            test_run: false,
        }
    }

    /// Records the input file name and the output directory the
    /// toolchain chose for this compilation.
    pub fn config(&mut self, file_name: String, output_directory: String)
        ensures
            final(self).file_name == file_name,
            final(self).output_directory == output_directory,
            final(self).options == old(self).options,
            final(self).test_run == old(self).test_run,
    {
        self.file_name = file_name;
        self.output_directory = output_directory;
    }

    /// Whether this compilation unit belongs to a build script — its
    /// output directory holds a "/build/" component. Such a unit is
    /// not analyzed, though code generation still proceeds.
    pub fn is_build_script_unit(&self) -> (r: bool)
        ensures
            r == spec_contains_seq(self.output_directory@, "/build/"@),
    {
        contains_run(self.output_directory.as_str(), "/build/")
    }

    /// Whether code generation should proceed after analysis: a test
    /// run stops compilation, anything else continues so the
    /// embedding build keeps working.
    pub fn continue_compilation(&self) -> (r: bool)
        ensures
            r == !self.test_run,
    {
        !self.test_run
    }

    /// Analyzes one compilation unit. The unit is skipped — no graph
    /// is built, the detector is never invoked and no reports come
    /// back — when the crate-name list excludes `crate_name` or when
    /// the unit has no code-generation obligation. Otherwise the
    /// deadlock detector runs over the call graph of `instances` with
    /// every instance as an analysis root, and its findings come back
    /// as `Some` exactly when there are any.
    pub fn analyze_with_lockbud(
        &self,
        crate_name: &String,
        should_codegen: bool,
        instances: &Vec<Instance>,
    ) -> (r: Option<Vec<Report>>)
        ensures
            spec_skipped(self.options.crate_name_list, crate_name@) ==> r is None,
            !should_codegen ==> r is None,
            !spec_skipped(self.options.crate_name_list, crate_name@) && should_codegen ==> {
                let reports = spec_analyze(
                    instances@,
                    spec_all_roots(instances@.len()),
                    DEFAULT_MAX_INLINE_DEPTH as nat,
                );
                if reports.len() == 0 {
                    r is None
                } else {
                    r matches Some(v) && v@ == reports
                }
            },
    {
        if skipped_by_list(&self.options.crate_name_list, crate_name) {
            return None;
        }
        if !should_codegen {
            return None;
        }
        let mut callgraph = CallGraph::new();
        callgraph.analyze(instances);
        let roots = all_roots(instances.len());
        match self.options.detector_kind {
            DetectorKind::Deadlock => {
                let deadlock_detector = DeadlockDetector::new(DEFAULT_MAX_INLINE_DEPTH);
                match deadlock_detector.detect(&callgraph, instances, &roots) {
                    Ok(reports) => {
                        if reports.len() > 0 {
                            Some(reports)
                        } else {
                            None
                        }
                    },
                    Err(_) => {
                        proof {
                            let k = choose|k: int|
                                0 <= k < roots@.len() && (#[trigger] roots@[k])
                                    >= instances@.len();
                            assert(roots@[k] == k as usize);
                            assert(false);
                        }
                        None
                    },
                }
            },
        }
    }
}

/// Whether a report is of the given kind with the given grade.
pub open spec fn report_matches(r: Report, is_double: bool, poss: Possibility) -> bool {
    match r {
        Report::DoubleLock(d) => is_double && d.possibility == poss,
        Report::ConflictLock(c) => !is_double && c.possibility == poss,
    }
}

/// How many reports are of the given kind with the given grade.
pub open spec fn spec_count(reports: Seq<Report>, is_double: bool, poss: Possibility) -> int
    decreases reports.len(),
{
    if reports.len() == 0 {
        0
    } else {
        spec_count(reports.drop_last(), is_double, poss) + (if report_matches(
            reports.last(),
            is_double,
            poss,
        ) {
            1int
        } else {
            0int
        })
    }
}

/// The per-unit summary of findings: counts per (kind, possibility).
/// The textual line around these numbers is the embedding shim's
/// business.
pub struct ReportStats {
    pub unit: String,
    pub doublelock_probably: usize,
    pub doublelock_possibly: usize,
    pub conflictlock_probably: usize,
    pub conflictlock_possibly: usize,
}

/// Aggregates the counts of findings per kind and possibility for the
/// compilation unit named `crate_name`.
pub fn report_stats(crate_name: &String, reports: &Vec<Report>) -> (s: ReportStats)
    ensures
        s.unit@ == crate_name@,
        s.doublelock_probably == spec_count(reports@, true, Possibility::Probably),
        s.doublelock_possibly == spec_count(reports@, true, Possibility::Possibly),
        s.conflictlock_probably == spec_count(reports@, false, Possibility::Probably),
        s.conflictlock_possibly == spec_count(reports@, false, Possibility::Possibly),
{
    let mut doublelock_probably: usize = 0;
    let mut doublelock_possibly: usize = 0;
    let mut conflictlock_probably: usize = 0;
    let mut conflictlock_possibly: usize = 0;
    let mut i: usize = 0;
    while i < reports.len()
        invariant
            i <= reports@.len(),
            doublelock_probably <= i,
            doublelock_possibly <= i,
            conflictlock_probably <= i,
            conflictlock_possibly <= i,
            doublelock_probably == spec_count(reports@.take(i as int), true, Possibility::Probably),
            doublelock_possibly == spec_count(reports@.take(i as int), true, Possibility::Possibly),
            conflictlock_probably == spec_count(
                reports@.take(i as int),
                false,
                Possibility::Probably,
            ),
            conflictlock_possibly == spec_count(
                reports@.take(i as int),
                false,
                Possibility::Possibly,
            ),
        decreases reports@.len() - i,
    {
        proof {
            assert(reports@.take(i + 1 as int).drop_last() =~= reports@.take(i as int));
            assert(reports@.take(i + 1 as int).last() == reports@[i as int]);
        }
        match reports[i] {
            Report::DoubleLock(d) => {
                match d.possibility {
                    Possibility::Probably => {
                        doublelock_probably += 1;
                    },
                    Possibility::Possibly => {
                        doublelock_possibly += 1;
                    },
                }
            },
            Report::ConflictLock(c) => {
                match c.possibility {
                    Possibility::Probably => {
                        conflictlock_probably += 1;
                    },
                    Possibility::Possibly => {
                        conflictlock_possibly += 1;
                    },
                }
            },
        }
        i += 1;
    }
    proof {
        assert(reports@.take(reports@.len() as int) =~= reports@);
    }
    ReportStats {
        unit: crate_name.clone(),
        doublelock_probably,
        doublelock_possibly,
        conflictlock_probably,
        conflictlock_possibly,
    }
}

} // verus!
