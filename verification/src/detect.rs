//! The conflict detector: scans each lock path's held-guard stack for
//! re-acquisitions (double-lock) and compares acquisition orders
//! across path pairs for inversions (conflict-lock), grading every
//! finding Probably or Possibly by alias precision and guard kind.

use vstd::prelude::*;

use crate::callgraph::CallGraph;
use crate::callgraph::spec_edges;
use crate::model::AliasTier;
use crate::model::GuardKind;
use crate::model::Instance;
use crate::model::LockGuardOp;
use crate::model::LockId;
use crate::model::OpKind;
use crate::model::SourceLoc;
use crate::model::alias_tier;
use crate::model::non_reentrant;
use crate::model::spec_alias_tier;
use crate::model::spec_non_reentrant;
use crate::paths::AnalysisError;
use crate::paths::LockPath;
use crate::paths::lemma_paths_correspond_views;
use crate::paths::path_views;
use crate::paths::spec_collect;

verus! {

/// The confidence grade of a finding.
#[derive(Clone, Copy, Debug, PartialEq, Eq, Structural)]
pub enum Possibility {
    /// The pattern almost certainly deadlocks: exact alias identity
    /// and certainly non-reentrant guards.
    Probably,
    /// The pattern may deadlock: approximate identity, or a guard kind
    /// that some implementations tolerate.
    Possibly,
}

impl Possibility {
    /// The label this grade carries in serialized reports.
    pub fn as_str(&self) -> (r: &'static str)
        ensures
            *self == Possibility::Probably ==> r@ == "Probably"@,
            *self == Possibility::Possibly ==> r@ == "Possibly"@,
    {
        match self {
            Possibility::Probably => "Probably",
            Possibility::Possibly => "Possibly",
        }
    }
}

/// A path re-acquired a lock it already held.
#[derive(Clone, Copy, Debug, PartialEq, Eq, Structural)]
pub struct DoubleLockReport {
    pub possibility: Possibility,
    /// Where the already-held guard was acquired.
    pub first: SourceLoc,
    /// Where the same lock was acquired again before release.
    pub second: SourceLoc,
    /// The analysis root of the path that produced the finding.
    pub root: usize,
}

/// Two paths acquired the same two locks in opposite orders.
#[derive(Clone, Copy, Debug, PartialEq, Eq, Structural)]
pub struct ConflictLockReport {
    pub possibility: Possibility,
    /// The analysis root of the first path.
    pub first_root: usize,
    /// Where the first path acquired the earlier lock.
    pub first_former: SourceLoc,
    /// Where the first path acquired the later lock.
    pub first_latter: SourceLoc,
    /// The analysis root of the second path.
    pub second_root: usize,
    /// Where the second path acquired the first path's later lock.
    pub second_former: SourceLoc,
    /// Where the second path acquired the first path's earlier lock.
    pub second_latter: SourceLoc,
}

/// A finding of the conflict detector.
#[derive(Clone, Copy, Debug, PartialEq, Eq, Structural)]
pub enum Report {
    DoubleLock(DoubleLockReport),
    ConflictLock(ConflictLockReport),
}

/// The grade of a double-lock finding: Probably only for an exact
/// alias match between guards that certainly cannot be re-acquired;
/// anything approximate, or any guard kind that permits reentrancy
/// under some implementation, degrades to Possibly.
pub open spec fn spec_grade_double(tier: AliasTier, held: GuardKind, incoming: GuardKind) -> Possibility {
    if tier == AliasTier::Exact && spec_non_reentrant(held) && spec_non_reentrant(incoming) {
        Possibility::Probably
    } else {
        Possibility::Possibly
    }
}

/// Exec counterpart of `spec_grade_double`.
pub fn grade_double(tier: AliasTier, held: GuardKind, incoming: GuardKind) -> (r: Possibility)
    ensures
        r == spec_grade_double(tier, held, incoming),
{
    if tier == AliasTier::Exact && non_reentrant(held) && non_reentrant(incoming) {
        Possibility::Probably
    } else {
        Possibility::Possibly
    }
}

/// The grade of a conflict-lock finding: Probably only when both
/// orderings involve exact-tier alias classes.
pub open spec fn spec_grade_conflict(t1: AliasTier, t2: AliasTier) -> Possibility {
    if t1 == AliasTier::Exact && t2 == AliasTier::Exact {
        Possibility::Probably
    } else {
        Possibility::Possibly
    }
}

/// Exec counterpart of `spec_grade_conflict`.
pub fn grade_conflict(t1: AliasTier, t2: AliasTier) -> (r: Possibility)
    ensures
        r == spec_grade_conflict(t1, t2),
{
    if t1 == AliasTier::Exact && t2 == AliasTier::Exact {
        Possibility::Probably
    } else {
        Possibility::Possibly
    }
}

/// The held-guard stack after the operations of `ops`: acquisitions
/// push; a release pops the most recent entry (matched by position,
/// not identity) and is ignored when nothing is held.
pub open spec fn spec_stack(ops: Seq<LockGuardOp>) -> Seq<LockGuardOp>
    decreases ops.len(),
{
    if ops.len() == 0 {
        Seq::empty()
    } else {
        let pre = spec_stack(ops.drop_last());
        match ops.last().op {
            OpKind::Acquire => pre.push(ops.last()),
            OpKind::Release => if pre.len() > 0 {
                pre.drop_last()
            } else {
                pre
            },
        }
    }
}

/// The double-lock findings of acquiring `op` while `stack` is held:
/// one finding per held entry in the same alias class, scanned from
/// the bottom of the stack.
pub open spec fn spec_hits(stack: Seq<LockGuardOp>, op: LockGuardOp, root: usize) -> Seq<Report>
    decreases stack.len(),
{
    if stack.len() == 0 {
        Seq::empty()
    } else {
        let h = stack.last();
        spec_hits(stack.drop_last(), op, root) + match spec_alias_tier(h.lock, op.lock) {
            Some(tier) => seq![
                Report::DoubleLock(
                    DoubleLockReport {
                        possibility: spec_grade_double(tier, h.guard, op.guard),
                        first: h.loc,
                        second: op.loc,
                        root,
                    },
                ),
            ],
            None => Seq::empty(),
        }
    }
}

/// All double-lock findings of one path, in operation order: at each
/// acquisition, every held entry in the same alias class is reported.
pub open spec fn spec_double_for_path(ops: Seq<LockGuardOp>, root: usize) -> Seq<Report>
    decreases ops.len(),
{
    if ops.len() == 0 {
        Seq::empty()
    } else {
        spec_double_for_path(ops.drop_last(), root) + match ops.last().op {
            OpKind::Acquire => spec_hits(spec_stack(ops.drop_last()), ops.last(), root),
            OpKind::Release => Seq::empty(),
        }
    }
}

/// Whether some entry of `acqs` is an exact alias of `l`.
pub open spec fn has_exact(acqs: Seq<LockGuardOp>, l: LockId) -> bool {
    exists|k: int|
        0 <= k < acqs.len() && spec_alias_tier((#[trigger] acqs[k]).lock, l) == Some(
            AliasTier::Exact,
        )
}

/// The acquisition order of a path: its acquisitions in order, keeping
/// only the first acquisition of each exact alias class.
pub open spec fn spec_acq_order(ops: Seq<LockGuardOp>) -> Seq<LockGuardOp>
    decreases ops.len(),
{
    if ops.len() == 0 {
        Seq::empty()
    } else {
        let pre = spec_acq_order(ops.drop_last());
        let o = ops.last();
        if o.op == OpKind::Acquire && !has_exact(pre, o.lock) {
            pre.push(o)
        } else {
            pre
        }
    }
}

/// The first position of `b` at or after `from` whose lock may alias
/// `x`'s lock, together with a bound `from <= n`.
pub open spec fn spec_first_n(b: Seq<LockGuardOp>, x: LockGuardOp, from: int) -> Option<usize>
    decreases (if from < b.len() {
        b.len() - from
    } else {
        0
    }),
{
    if from >= b.len() {
        None
    } else if spec_alias_tier(x.lock, b[from].lock) is Some {
        Some(from as usize)
    } else {
        spec_first_n(b, x, from + 1)
    }
}

/// The lexicographically first pair (m, n), m at or after `m0` and
/// n > m, such that `b[m]` may alias `y`'s lock and `b[n]` may alias
/// `x`'s lock: the first inversion of the ordered pair (x, y) in `b`.
pub open spec fn spec_first_pair(b: Seq<LockGuardOp>, x: LockGuardOp, y: LockGuardOp, m0: int) -> Option<
    (usize, usize),
>
    decreases (if m0 < b.len() {
        b.len() - m0
    } else {
        0
    }),
{
    if m0 >= b.len() {
        None
    } else if spec_alias_tier(y.lock, b[m0].lock) is Some {
        match spec_first_n(b, x, m0 + 1) {
            Some(n) => Some((m0 as usize, n)),
            None => spec_first_pair(b, x, y, m0 + 1),
        }
    } else {
        spec_first_pair(b, x, y, m0 + 1)
    }
}

/// The conflict finding, if any, for the ordered acquisition pair
/// (`a[k]`, `a[l]`) of the first path against the second path's
/// acquisition order `b`: the first inversion found in `b`, graded by
/// the two alias tiers involved.
pub open spec fn spec_pair_head(
    a: Seq<LockGuardOp>,
    b: Seq<LockGuardOp>,
    ra: usize,
    rb: usize,
    k: int,
    l: int,
) -> Seq<Report> {
    let x = a[k];
    let y = a[l];
    match spec_first_pair(b, x, y, 0) {
        Some(p) => match (
            spec_alias_tier(y.lock, b[p.0 as int].lock),
            spec_alias_tier(x.lock, b[p.1 as int].lock),
        ) {
            (Some(t1), Some(t2)) => seq![
                Report::ConflictLock(
                    ConflictLockReport {
                        possibility: spec_grade_conflict(t1, t2),
                        first_root: ra,
                        first_former: x.loc,
                        first_latter: y.loc,
                        second_root: rb,
                        second_former: b[p.0 as int].loc,
                        second_latter: b[p.1 as int].loc,
                    },
                ),
            ],
            _ => Seq::empty(),
        },
        None => Seq::empty(),
    }
}

/// Clamped remaining-index measure for the pair scans.
pub open spec fn rem_of(len: int, k: int) -> int {
    if k < len {
        len - k
    } else {
        0
    }
}

/// The conflict findings between acquisition orders `a` and `b`, one
/// per ordered pair (k, l), k < l, of `a`'s entries whose order is
/// inverted somewhere in `b`, scanning pairs lexicographically from
/// (`k`, `l`).
pub open spec fn spec_conflicts_pairs(
    a: Seq<LockGuardOp>,
    b: Seq<LockGuardOp>,
    ra: usize,
    rb: usize,
    k: int,
    l: int,
) -> Seq<Report>
    decreases rem_of(a.len() as int, k), rem_of(a.len() as int, l),
{
    if k < 0 || l < k + 1 {
        Seq::empty()
    } else if k + 1 >= a.len() {
        Seq::empty()
    } else if l >= a.len() {
        spec_conflicts_pairs(a, b, ra, rb, k + 1, k + 2)
    } else {
        spec_pair_head(a, b, ra, rb, k, l) + spec_conflicts_pairs(a, b, ra, rb, k, l + 1)
    }
}

/// The conflict findings between two tagged paths: none when the two
/// are the same traversal (same root and identical operations),
/// otherwise the pairwise inversions of their acquisition orders.
pub open spec fn spec_conflicts_between(
    pa: (usize, Seq<LockGuardOp>),
    pb: (usize, Seq<LockGuardOp>),
) -> Seq<Report> {
    if pa.0 == pb.0 && pa.1 == pb.1 {
        Seq::empty()
    } else {
        spec_conflicts_pairs(spec_acq_order(pa.1), spec_acq_order(pb.1), pa.0, pb.0, 0, 1)
    }
}

/// The double-lock findings of all paths from position `i` on.
pub open spec fn spec_all_doubles(paths: Seq<(usize, Seq<LockGuardOp>)>, i: int) -> Seq<Report>
    decreases rem_of(paths.len() as int, i),
{
    if i < 0 || i >= paths.len() {
        Seq::empty()
    } else {
        spec_double_for_path(paths[i].1, paths[i].0) + spec_all_doubles(paths, i + 1)
    }
}

/// The conflict findings of all unordered path pairs, scanned
/// lexicographically from (`i`, `j`).
pub open spec fn spec_all_conflicts(paths: Seq<(usize, Seq<LockGuardOp>)>, i: int, j: int) -> Seq<
    Report,
>
    decreases rem_of(paths.len() as int, i), rem_of(paths.len() as int, j),
{
    if i < 0 || j < i + 1 {
        Seq::empty()
    } else if i + 1 >= paths.len() {
        Seq::empty()
    } else if j >= paths.len() {
        spec_all_conflicts(paths, i + 1, i + 2)
    } else {
        spec_conflicts_between(paths[i], paths[j]) + spec_all_conflicts(paths, i, j + 1)
    }
}

/// Everything the detector reports for a set of tagged lock paths:
/// all double-lock findings in path order, then all conflict-lock
/// findings in path-pair order — a function of the paths alone.
pub open spec fn spec_detect(paths: Seq<(usize, Seq<LockGuardOp>)>) -> Seq<Report> {
    spec_all_doubles(paths, 0) + spec_all_conflicts(paths, 0, 1)
}

/// The whole analysis of an instance set: build the call graph,
/// enumerate the bounded lock paths of every root, and detect.
pub open spec fn spec_analyze(instances: Seq<Instance>, roots: Seq<usize>, depth: nat) -> Seq<
    Report,
> {
    spec_detect(spec_collect(instances, spec_edges(instances), roots, depth))
}

/// The double-lock findings of one path's operations.
fn double_for_path(ops: &Vec<LockGuardOp>, root: usize) -> (r: Vec<Report>)
    ensures
        r@ == spec_double_for_path(ops@, root),
{
    let mut out: Vec<Report> = Vec::new();
    let mut stack: Vec<LockGuardOp> = Vec::new();
    let mut i: usize = 0;
    while i < ops.len()
        invariant
            i <= ops@.len(),
            stack@ == spec_stack(ops@.take(i as int)),
            out@ == spec_double_for_path(ops@.take(i as int), root),
        decreases ops@.len() - i,
    {
        let o = ops[i];
        proof {
            assert(ops@.take(i + 1 as int).drop_last() =~= ops@.take(i as int));
            assert(ops@.take(i + 1 as int).last() == ops@[i as int]);
        }
        match o.op {
            OpKind::Acquire => {
                let mut hits: Vec<Report> = Vec::new();
                let mut t: usize = 0;
                while t < stack.len()
                    invariant
                        t <= stack@.len(),
                        o == ops@[i as int],
                        hits@ == spec_hits(stack@.take(t as int), o, root),
                    decreases stack@.len() - t,
                {
                    let h = stack[t];
                    proof {
                        assert(stack@.take(t + 1 as int).drop_last() =~= stack@.take(t as int));
                        assert(stack@.take(t + 1 as int).last() == stack@[t as int]);
                    }
                    match alias_tier(h.lock, o.lock) {
                        Some(tier) => {
                            hits.push(
                                Report::DoubleLock(
                                    DoubleLockReport {
                                        possibility: grade_double(tier, h.guard, o.guard),
                                        first: h.loc,
                                        second: o.loc,
                                        root,
                                    },
                                ),
                            );
                        },
                        None => {},
                    }
                    t += 1;
                }
                proof {
                    assert(stack@.take(stack@.len() as int) =~= stack@);
                }
                out.append(&mut hits);
                proof {
                    assert(out@ =~= spec_double_for_path(ops@.take(i + 1 as int), root));
                }
                stack.push(o);
            },
            OpKind::Release => {
                if stack.len() > 0 {
                    let _ = stack.pop();
                }
                proof {
                    assert(out@ + Seq::<Report>::empty() =~= out@);
                }
            },
        }
        i += 1;
    }
    proof {
        assert(ops@.take(ops@.len() as int) =~= ops@);
    }
    out
}

/// Whether some entry of `acqs` is an exact alias of `l`.
fn has_exact_exec(acqs: &Vec<LockGuardOp>, l: LockId) -> (r: bool)
    ensures
        r == has_exact(acqs@, l),
{
    let mut k: usize = 0;
    while k < acqs.len()
        invariant
            k <= acqs@.len(),
            forall|m: int|
                0 <= m < k ==> spec_alias_tier((#[trigger] acqs@[m]).lock, l) != Some(
                    AliasTier::Exact,
                ),
        decreases acqs@.len() - k,
    {
        match alias_tier(acqs[k].lock, l) {
            Some(AliasTier::Exact) => {
                proof {
                    assert(spec_alias_tier(acqs@[k as int].lock, l) == Some(AliasTier::Exact));
                }
                return true;
            },
            _ => {},
        }
        k += 1;
    }
    false
}

/// The acquisition order of a path's operations.
fn acq_order(ops: &Vec<LockGuardOp>) -> (r: Vec<LockGuardOp>)
    ensures
        r@ == spec_acq_order(ops@),
{
    let mut r: Vec<LockGuardOp> = Vec::new();
    let mut i: usize = 0;
    while i < ops.len()
        invariant
            i <= ops@.len(),
            r@ == spec_acq_order(ops@.take(i as int)),
        decreases ops@.len() - i,
    {
        let o = ops[i];
        proof {
            assert(ops@.take(i + 1 as int).drop_last() =~= ops@.take(i as int));
            assert(ops@.take(i + 1 as int).last() == ops@[i as int]);
        }
        let is_acq = match o.op {
            OpKind::Acquire => true,
            OpKind::Release => false,
        };
        if is_acq && !has_exact_exec(&r, o.lock) {
            r.push(o);
        }
        i += 1;
    }
    proof {
        assert(ops@.take(ops@.len() as int) =~= ops@);
    }
    r
}

/// The first position of `b` at or after `from` that may alias `x`.
fn first_n_exec(b: &Vec<LockGuardOp>, x: LockGuardOp, from: usize) -> (r: Option<usize>)
    ensures
        r == spec_first_n(b@, x, from as int),
        r matches Some(n) ==> from <= n < b@.len() && spec_alias_tier(
            x.lock,
            b@[n as int].lock,
        ) is Some,
    decreases rem_of(b@.len() as int, from as int),
{
    if from >= b.len() {
        return None;
    }
    let some_alias = match alias_tier(x.lock, b[from].lock) {
        Some(_) => true,
        None => false,
    };
    if some_alias {
        Some(from)
    } else {
        first_n_exec(b, x, from + 1)
    }
}

/// The first inversion pair of (x, y) in `b`, scanning from `m0`.
fn first_pair_exec(b: &Vec<LockGuardOp>, x: LockGuardOp, y: LockGuardOp, m0: usize) -> (r: Option<
    (usize, usize),
>)
    ensures
        r == spec_first_pair(b@, x, y, m0 as int),
        r matches Some(p) ==> m0 <= p.0 < p.1 < b@.len() && spec_alias_tier(
            y.lock,
            b@[p.0 as int].lock,
        ) is Some && spec_alias_tier(x.lock, b@[p.1 as int].lock) is Some,
    decreases rem_of(b@.len() as int, m0 as int),
{
    if m0 >= b.len() {
        return None;
    }
    let some_alias = match alias_tier(y.lock, b[m0].lock) {
        Some(_) => true,
        None => false,
    };
    if some_alias {
        match first_n_exec(b, x, m0 + 1) {
            Some(n) => Some((m0, n)),
            None => first_pair_exec(b, x, y, m0 + 1),
        }
    } else {
        first_pair_exec(b, x, y, m0 + 1)
    }
}

/// The conflict findings between acquisition orders `a` and `b`,
/// scanning ordered pairs of `a` lexicographically from (`k`, `l`).
fn conflicts_pairs_exec(
    a: &Vec<LockGuardOp>,
    b: &Vec<LockGuardOp>,
    ra: usize,
    rb: usize,
    k: usize,
    l: usize,
) -> (r: Vec<Report>)
    requires
        l >= k + 1,
    ensures
        r@ == spec_conflicts_pairs(a@, b@, ra, rb, k as int, l as int),
    decreases rem_of(a@.len() as int, k as int), rem_of(a@.len() as int, l as int),
{
    if a.len() == 0 || k >= a.len() - 1 {
        return Vec::new();
    }
    if l >= a.len() {
        return conflicts_pairs_exec(a, b, ra, rb, k + 1, k + 2);
    }
    let x = a[k];
    let y = a[l];
    let mut head: Vec<Report> = Vec::new();
    match first_pair_exec(b, x, y, 0) {
        Some((m, n)) => {
            let t1 = alias_tier(y.lock, b[m].lock);
            let t2 = alias_tier(x.lock, b[n].lock);
            match (t1, t2) {
                (Some(t1v), Some(t2v)) => {
                    head.push(
                        Report::ConflictLock(
                            ConflictLockReport {
                                possibility: grade_conflict(t1v, t2v),
                                first_root: ra,
                                first_former: x.loc,
                                first_latter: y.loc,
                                second_root: rb,
                                second_former: b[m].loc,
                                second_latter: b[n].loc,
                            },
                        ),
                    );
                },
                _ => {
                    proof {
                        assert(false);
                    }
                },
            }
        },
        None => {},
    }
    proof {
        assert(head@ =~= spec_pair_head(a@, b@, ra, rb, k as int, l as int));
    }
    let mut tail = conflicts_pairs_exec(a, b, ra, rb, k, l + 1);
    let ghost headv = head@;
    let ghost tailv = tail@;
    head.append(&mut tail);
    proof {
        assert(head@ =~= headv + tailv);
    }
    head
}

/// The conflict findings between two lock paths.
fn conflicts_between(pa: &LockPath, pb: &LockPath) -> (r: Vec<Report>)
    ensures
        r@ == spec_conflicts_between((pa.root, pa.ops@), (pb.root, pb.ops@)),
{
    if pa.root == pb.root && ops_eq(&pa.ops, &pb.ops) {
        return Vec::new();
    }
    let a = acq_order(&pa.ops);
    let b = acq_order(&pb.ops);
    conflicts_pairs_exec(&a, &b, pa.root, pb.root, 0, 1)
}

/// Whether two operation vectors hold the same operations.
fn ops_eq(a: &Vec<LockGuardOp>, b: &Vec<LockGuardOp>) -> (r: bool)
    ensures
        r == (a@ == b@),
{
    if a.len() != b.len() {
        return false;
    }
    let mut i: usize = 0;
    while i < a.len()
        invariant
            a@.len() == b@.len(),
            i <= a@.len(),
            forall|m: int| 0 <= m < i ==> a@[m] == b@[m],
        decreases a@.len() - i,
    {
        if a[i] != b[i] {
            return false;
        }
        i += 1;
    }
    proof {
        assert(a@ =~= b@);
    }
    true
}

/// The conflict findings of all path pairs, scanning lexicographically
/// from (`i`, `j`).
fn all_conflicts_exec(paths: &Vec<LockPath>, i: usize, j: usize) -> (r: Vec<Report>)
    requires
        j >= i + 1,
    ensures
        r@ == spec_all_conflicts(path_views(paths@), i as int, j as int),
    decreases rem_of(paths@.len() as int, i as int), rem_of(paths@.len() as int, j as int),
{
    let ghost pv = path_views(paths@);
    if paths.len() == 0 || i >= paths.len() - 1 {
        return Vec::new();
    }
    if j >= paths.len() {
        return all_conflicts_exec(paths, i + 1, i + 2);
    }
    let mut head = conflicts_between(&paths[i], &paths[j]);
    proof {
        assert(pv[i as int] == (paths@[i as int].root, paths@[i as int].ops@));
        assert(pv[j as int] == (paths@[j as int].root, paths@[j as int].ops@));
    }
    let mut tail = all_conflicts_exec(paths, i, j + 1);
    let ghost headv = head@;
    let ghost tailv = tail@;
    head.append(&mut tail);
    proof {
        assert(head@ =~= headv + tailv);
    }
    head
}

/// Detects every double-lock and conflict-lock pattern in a set of
/// lock paths. The result is a function of the paths alone: all
/// double-lock findings in path order, then all conflict-lock
/// findings in path-pair order. Malformed paths never fail: unmatched
/// releases are ignored and unknown alias classes only degrade
/// grading.
pub fn detect(paths: &Vec<LockPath>) -> (r: Vec<Report>)
    ensures
        r@ == spec_detect(path_views(paths@)),
{
    let ghost pv = path_views(paths@);
    let mut out: Vec<Report> = Vec::new();
    proof {
        assert(out@ + spec_all_doubles(pv, 0) =~= spec_all_doubles(pv, 0));
    }
    let mut i: usize = 0;
    while i < paths.len()
        invariant
            i <= paths@.len(),
            pv == path_views(paths@),
            out@ + spec_all_doubles(pv, i as int) == spec_all_doubles(pv, 0),
        decreases paths@.len() - i,
    {
        let mut d = double_for_path(&paths[i].ops, paths[i].root);
        let ghost outv = out@;
        let ghost dv = d@;
        out.append(&mut d);
        proof {
            assert(pv[i as int] == (paths@[i as int].root, paths@[i as int].ops@));
            assert(dv == spec_double_for_path(pv[i as int].1, pv[i as int].0));
            assert(outv + dv + spec_all_doubles(pv, i + 1 as int) =~= outv + (dv
                + spec_all_doubles(pv, i + 1 as int)));
            assert(out@ + spec_all_doubles(pv, i + 1 as int) =~= spec_all_doubles(pv, 0));
        }
        i += 1;
    }
    proof {
        assert(out@ + spec_all_doubles(pv, paths@.len() as int) =~= out@);
        assert(out@ == spec_all_doubles(pv, 0));
    }
    let mut c = all_conflicts_exec(paths, 0, 1);
    let ghost outv2 = out@;
    let ghost cv = c@;
    out.append(&mut c);
    proof {
        assert(out@ =~= outv2 + cv);
    }
    out
}

/// The deadlock detector: bounds path enumeration by a maximum call
/// inlining depth and grades every finding.
pub struct DeadlockDetector {
    pub max_depth: usize,
}

impl DeadlockDetector {
    /// A detector with the given inlining depth bound.
    pub fn new(max_depth: usize) -> (d: DeadlockDetector)
        ensures
            d.max_depth == max_depth,
    {
        DeadlockDetector { max_depth }
    }

    /// Runs the whole analysis over a built call graph: enumerates the
    /// bounded lock paths of every root and detects. Fails exactly
    /// when some root is not present among the instances; otherwise
    /// the reports are the function `spec_analyze` of the instances,
    /// roots and depth bound alone.
    pub fn detect(
        &self,
        graph: &CallGraph,
        instances: &Vec<Instance>,
        roots: &Vec<usize>,
    ) -> (r: Result<Vec<Report>, AnalysisError>)
        requires
            graph.wf(instances@),
        ensures
            r is Err <==> exists|k: int|
                0 <= k < roots@.len() && (#[trigger] roots@[k]) >= instances@.len(),
            r matches Err(e) ==> e == AnalysisError::RootMissing,
            r matches Ok(reports) ==> reports@ == spec_analyze(
                instances@,
                roots@,
                self.max_depth as nat,
            ),
    {
        match graph.collect_lock_paths(instances, roots, self.max_depth) {
            Err(e) => Err(e),
            Ok(paths) => {
                let reports = detect(&paths);
                proof {
                    lemma_paths_correspond_views(
                        paths@,
                        spec_collect(instances@, graph.edges@, roots@, self.max_depth as nat),
                    );
                }
                Ok(reports)
            },
        }
    }
}

/// Determinism of the detector: its findings are a function of the
/// lock paths alone, so two detector runs over identical paths yield
/// identical report lists — same order, same grading.
pub proof fn lemma_detect_deterministic(
    paths1: Seq<LockPath>,
    paths2: Seq<LockPath>,
    r1: Seq<Report>,
    r2: Seq<Report>,
)
    requires
        path_views(paths1) == path_views(paths2),
        r1 == spec_detect(path_views(paths1)),
        r2 == spec_detect(path_views(paths2)),
    ensures
        r1 == r2,
{
}

/// Determinism end to end: the whole analysis is a function of the
/// instance set, the roots and the depth bound alone, so two runs
/// over an identical instance set yield identical report lists —
/// same order, same grading.
pub proof fn lemma_analyze_deterministic(
    instances: Seq<Instance>,
    roots: Seq<usize>,
    depth: nat,
    r1: Seq<Report>,
    r2: Seq<Report>,
)
    requires
        r1 == spec_analyze(instances, roots, depth),
        r2 == spec_analyze(instances, roots, depth),
    ensures
        r1 == r2,
{
}

/// A finding that involves a reentrant guard on either side is never
/// graded Probably, whatever the alias tier.
pub proof fn lemma_reentrant_never_probably(tier: AliasTier, held: GuardKind, incoming: GuardKind)
    requires
        held == GuardKind::Reentrant || incoming == GuardKind::Reentrant,
    ensures
        spec_grade_double(tier, held, incoming) == Possibility::Possibly,
{
}

/// Re-acquiring a reentrant guard of the same exact identity is
/// reported — never silently dropped — and graded Possibly, never
/// Probably.
pub proof fn lemma_reentrant_double_acquire_possibly(
    root: usize,
    l: LockId,
    loc1: SourceLoc,
    loc2: SourceLoc,
)
    requires
        spec_alias_tier(l, l) == Some(AliasTier::Exact),
    ensures
        ({
            let o1 = LockGuardOp {
                op: OpKind::Acquire,
                guard: GuardKind::Reentrant,
                lock: l,
                loc: loc1,
            };
            let o2 = LockGuardOp {
                op: OpKind::Acquire,
                guard: GuardKind::Reentrant,
                lock: l,
                loc: loc2,
            };
            spec_double_for_path(seq![o1, o2], root) == seq![
                Report::DoubleLock(
                    DoubleLockReport {
                        possibility: Possibility::Possibly,
                        first: loc1,
                        second: loc2,
                        root,
                    },
                ),
            ]
        }),
{
    reveal_with_fuel(spec_double_for_path, 3);
    reveal_with_fuel(spec_stack, 3);
    reveal_with_fuel(spec_hits, 2);
    let o1 = LockGuardOp { op: OpKind::Acquire, guard: GuardKind::Reentrant, lock: l, loc: loc1 };
    let o2 = LockGuardOp { op: OpKind::Acquire, guard: GuardKind::Reentrant, lock: l, loc: loc2 };
    let ops = seq![o1, o2];
    let one = seq![o1];
    assert(ops.drop_last() =~= one);
    assert(one.drop_last() =~= Seq::<LockGuardOp>::empty());
    assert(spec_double_for_path(one, root) == Seq::<Report>::empty() + spec_hits(
        spec_stack(one.drop_last()),
        o1,
        root,
    ));
    assert(spec_hits(spec_stack(one.drop_last()), o1, root) =~= Seq::<Report>::empty());
    assert(spec_stack(one) =~= Seq::<LockGuardOp>::empty().push(o1));
    assert(spec_stack(one).drop_last() =~= Seq::<LockGuardOp>::empty());
    let hit = Report::DoubleLock(
        DoubleLockReport {
            possibility: spec_grade_double(AliasTier::Exact, GuardKind::Reentrant, GuardKind::Reentrant),
        first: loc1,
        second: loc2,
        root,
        },
    );
    assert(spec_hits(spec_stack(one), o2, root) =~= Seq::<Report>::empty() + seq![hit]);
    assert(spec_double_for_path(ops, root) =~= spec_double_for_path(one, root) + spec_hits(
        spec_stack(one),
        o2,
        root,
    ));
    assert(spec_double_for_path(ops, root) =~= seq![hit]);
}

} // verus!
