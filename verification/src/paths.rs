//! Lock-state abstract interpretation: depth-bounded enumeration of
//! the call paths out of each analysis root, inlining callee guard
//! operations at every call site, so that each traversal yields the
//! ordered sequence of lock-guard operations met along it.

use vstd::prelude::*;

use crate::callgraph::CallEdge;
use crate::callgraph::CallGraph;
use crate::model::Instance;
use crate::model::LockGuardOp;
use crate::model::Stmt;

verus! {

/// The error that aborts a whole analysis: the program model was
/// inconsistent.
#[derive(Clone, Copy, Debug, PartialEq, Eq, Structural)]
pub enum AnalysisError {
    /// An analysis root is not present among the supplied instances.
    RootMissing,
}

/// The ordered sequence of lock-guard operations met while walking one
/// bounded call path from an analysis root.
#[derive(Clone, Debug)]
pub struct LockPath {
    pub root: usize,
    pub ops: Vec<LockGuardOp>,
}

/// The views of a sequence of operation vectors.
pub open spec fn views_of(v: Seq<Vec<LockGuardOp>>) -> Seq<Seq<LockGuardOp>> {
    v.map_values(|x: Vec<LockGuardOp>| x@)
}

/// The callees of the edges out of call site (`caller`, `site`), in
/// edge order.
pub open spec fn spec_edge_targets(edges: Seq<CallEdge>, caller: usize, site: usize) -> Seq<usize>
    decreases edges.len(),
{
    if edges.len() == 0 {
        Seq::empty()
    } else {
        let pre = spec_edge_targets(edges.drop_last(), caller, site);
        let e = edges.last();
        if e.caller == caller && e.site == site {
            pre.push(e.callee)
        } else {
            pre
        }
    }
}

/// How many statements of `j`'s body remain from position `s`; the
/// walker's termination measure inside one body.
pub open spec fn spec_rem(instances: Seq<Instance>, j: int, s: int) -> int {
    if 0 <= j < instances.len() && 0 <= s <= instances[j].body@.len() {
        instances[j].body@.len() - s
    } else {
        0
    }
}

/// Every path op-sequence of walking instance `j`'s body from
/// statement `s` with `depth` remaining call inlinings. A guard
/// statement stands at the head of every path; a call statement
/// branches over its resolved targets, inlining each callee's own
/// paths before the rest of the body; a call with no targets, or met
/// when the depth budget is spent, is an opaque leaf with no effect.
pub open spec fn spec_walk(
    instances: Seq<Instance>,
    edges: Seq<CallEdge>,
    j: int,
    s: int,
    depth: nat,
) -> Seq<Seq<LockGuardOp>>
    decreases depth, spec_rem(instances, j, s), 1int,
{
    if !(0 <= j < instances.len()) || !(0 <= s < instances[j].body@.len()) {
        seq![Seq::<LockGuardOp>::empty()]
    } else {
        match instances[j].body@[s] {
            Stmt::Guard { op } => prepend_all(
                op,
                spec_walk(instances, edges, j, s + 1, depth),
            ),
            _ => {
                let targets = spec_edge_targets(edges, j as usize, s as usize);
                let rest = spec_walk(instances, edges, j, s + 1, depth);
                if depth == 0 || targets.len() == 0 {
                    rest
                } else {
                    spec_inline_targets(instances, edges, targets, rest, depth)
                }
            },
        }
    }
}

/// Each path op-sequence of `paths`, with `op` put in front.
pub open spec fn prepend_all(op: LockGuardOp, paths: Seq<Seq<LockGuardOp>>) -> Seq<
    Seq<LockGuardOp>,
> {
    paths.map_values(|p: Seq<LockGuardOp>| seq![op] + p)
}

/// The paths of a call site with targets `targets` and continuation
/// paths `rest`: for each target in order, each of the callee's own
/// paths (walked with one less inlining) followed by each continuation.
pub open spec fn spec_inline_targets(
    instances: Seq<Instance>,
    edges: Seq<CallEdge>,
    targets: Seq<usize>,
    rest: Seq<Seq<LockGuardOp>>,
    depth: nat,
) -> Seq<Seq<LockGuardOp>>
    decreases depth, 0int, targets.len() as int,
{
    if targets.len() == 0 || depth == 0 {
        Seq::empty()
    } else {
        let callee = spec_walk(instances, edges, targets[0] as int, 0, (depth - 1) as nat);
        spec_cross(callee, rest) + spec_inline_targets(
            instances,
            edges,
            targets.drop_first(),
            rest,
            depth,
        )
    }
}

/// Every concatenation of a path of `pres` with a path of `posts`, in
/// lexicographic (pres, posts) order.
pub open spec fn spec_cross(pres: Seq<Seq<LockGuardOp>>, posts: Seq<Seq<LockGuardOp>>) -> Seq<
    Seq<LockGuardOp>,
>
    decreases pres.len(),
{
    if pres.len() == 0 {
        Seq::empty()
    } else {
        posts.map_values(|p: Seq<LockGuardOp>| pres[0] + p) + spec_cross(pres.drop_first(), posts)
    }
}

/// The tagged lock paths of all roots in order: each op-sequence of
/// walking a root, paired with that root.
pub open spec fn spec_collect(
    instances: Seq<Instance>,
    edges: Seq<CallEdge>,
    roots: Seq<usize>,
    depth: nat,
) -> Seq<(usize, Seq<LockGuardOp>)>
    decreases roots.len(),
{
    if roots.len() == 0 {
        Seq::empty()
    } else {
        tag_root(roots[0], spec_walk(instances, edges, roots[0] as int, 0, depth)) + spec_collect(
            instances,
            edges,
            roots.drop_first(),
            depth,
        )
    }
}

/// Each op-sequence paired with the root it was walked from.
pub open spec fn tag_root(root: usize, paths: Seq<Seq<LockGuardOp>>) -> Seq<
    (usize, Seq<LockGuardOp>),
> {
    paths.map_values(|p: Seq<LockGuardOp>| (root, p))
}

/// Whether the exec lock paths carry exactly the spec-level tagged
/// op-sequences, element by element.
pub open spec fn paths_correspond(v: Seq<LockPath>, s: Seq<(usize, Seq<LockGuardOp>)>) -> bool {
    &&& v.len() == s.len()
    &&& forall|k: int|
        0 <= k < v.len() ==> (#[trigger] v[k]).root == s[k].0 && v[k].ops@ == s[k].1
}

/// The tagged spec-level view of a list of lock paths.
pub open spec fn path_views(v: Seq<LockPath>) -> Seq<(usize, Seq<LockGuardOp>)> {
    v.map_values(|p: LockPath| (p.root, p.ops@))
}

/// Exec lock paths that correspond to spec-level tagged op-sequences
/// have exactly those as their views.
pub proof fn lemma_paths_correspond_views(v: Seq<LockPath>, s: Seq<(usize, Seq<LockGuardOp>)>)
    requires
        paths_correspond(v, s),
    ensures
        path_views(v) == s,
{
    assert(path_views(v) =~~= s);
}

/// Pushing an operation vector onto a vector list appends its view.
proof fn lemma_views_push(v: Seq<Vec<LockGuardOp>>, x: Vec<LockGuardOp>)
    ensures
        views_of(v.push(x)) == views_of(v).push(x@),
{
    assert(views_of(v.push(x)) =~= views_of(v).push(x@));
}

/// Copies an operation vector element by element.
fn copy_ops(a: &Vec<LockGuardOp>) -> (r: Vec<LockGuardOp>)
    ensures
        r@ == a@,
{
    let mut r: Vec<LockGuardOp> = Vec::new();
    let mut i: usize = 0;
    while i < a.len()
        invariant
            i <= a@.len(),
            r@ == a@.take(i as int),
        decreases a@.len() - i,
    {
        r.push(a[i]);
        proof {
            assert(a@.take(i + 1 as int) =~= a@.take(i as int).push(a@[i as int]));
        }
        i += 1;
    }
    proof {
        assert(a@.take(a@.len() as int) =~= a@);
    }
    r
}

/// Concatenates two operation vectors into a fresh one.
fn concat_ops(a: &Vec<LockGuardOp>, b: &Vec<LockGuardOp>) -> (r: Vec<LockGuardOp>)
    ensures
        r@ == a@ + b@,
{
    let mut r = copy_ops(a);
    let mut i: usize = 0;
    while i < b.len()
        invariant
            i <= b@.len(),
            r@ == a@ + b@.take(i as int),
        decreases b@.len() - i,
    {
        r.push(b[i]);
        proof {
            assert(b@.take(i + 1 as int) =~= b@.take(i as int).push(b@[i as int]));
            assert((a@ + b@.take(i as int)).push(b@[i as int]) =~= a@ + b@.take(i + 1 as int));
        }
        i += 1;
    }
    proof {
        assert(b@.take(b@.len() as int) =~= b@);
        assert(a@ + b@.take(0) =~= a@);
    }
    r
}

/// Collects the callees of the edges out of call site
/// (`caller`, `site`), in edge order.
fn edge_targets(edges: &Vec<CallEdge>, caller: usize, site: usize, bound: usize) -> (r: Vec<usize>)
    requires
        forall|k: int| 0 <= k < edges@.len() ==> (#[trigger] edges@[k]).callee < bound,
    ensures
        r@ == spec_edge_targets(edges@, caller, site),
        forall|k: int| 0 <= k < r@.len() ==> r@[k] < bound,
{
    let mut r: Vec<usize> = Vec::new();
    let mut i: usize = 0;
    while i < edges.len()
        invariant
            i <= edges@.len(),
            r@ == spec_edge_targets(edges@.take(i as int), caller, site),
            forall|k: int| 0 <= k < edges@.len() ==> (#[trigger] edges@[k]).callee < bound,
            forall|k: int| 0 <= k < r@.len() ==> r@[k] < bound,
        decreases edges@.len() - i,
    {
        let e = edges[i];
        proof {
            assert(edges@.take(i + 1 as int).drop_last() =~= edges@.take(i as int));
            assert(edges@.take(i + 1 as int).last() == edges@[i as int]);
        }
        if e.caller == caller && e.site == site {
            r.push(e.callee);
        }
        i += 1;
    }
    proof {
        assert(edges@.take(edges@.len() as int) =~= edges@);
    }
    r
}

/// Puts `op` in front of every path of `paths`.
fn prepend_exec(op: LockGuardOp, paths: &Vec<Vec<LockGuardOp>>) -> (r: Vec<Vec<LockGuardOp>>)
    ensures
        views_of(r@) == prepend_all(op, views_of(paths@)),
{
    let mut r: Vec<Vec<LockGuardOp>> = Vec::new();
    let mut k: usize = 0;
    while k < paths.len()
        invariant
            k <= paths@.len(),
            r@.len() == k,
            forall|m: int| 0 <= m < k ==> (#[trigger] r@[m])@ == seq![op] + paths@[m]@,
        decreases paths@.len() - k,
    {
        let mut q: Vec<LockGuardOp> = Vec::new();
        q.push(op);
        let q2 = concat_ops(&q, &paths[k]);
        proof {
            assert(q2@ =~= seq![op] + paths@[k as int]@);
        }
        r.push(q2);
        k += 1;
    }
    proof {
        assert(views_of(r@) =~= prepend_all(op, views_of(paths@)));
    }
    r
}

/// Concatenates each path of `pres` with each path of `posts`.
fn cross_exec(pres: &Vec<Vec<LockGuardOp>>, posts: &Vec<Vec<LockGuardOp>>) -> (r: Vec<
    Vec<LockGuardOp>,
>)
    ensures
        views_of(r@) == spec_cross(views_of(pres@), views_of(posts@)),
{
    let ghost presv = views_of(pres@);
    let ghost postsv = views_of(posts@);
    let mut r: Vec<Vec<LockGuardOp>> = Vec::new();
    proof {
        assert(presv.skip(0) =~= presv);
        assert(views_of(r@) =~= Seq::<Seq<LockGuardOp>>::empty());
        assert(views_of(r@) + spec_cross(presv.skip(0), postsv) =~= spec_cross(presv, postsv));
    }
    let mut k: usize = 0;
    while k < pres.len()
        invariant
            k <= pres@.len(),
            presv == views_of(pres@),
            postsv == views_of(posts@),
            spec_cross(presv, postsv) == views_of(r@) + spec_cross(
                presv.skip(k as int),
                postsv,
            ),
        decreases pres@.len() - k,
    {
        let ghost base = views_of(r@);
        let ghost f = |p: Seq<LockGuardOp>| presv[k as int] + p;
        let mut l: usize = 0;
        while l < posts.len()
            invariant
                l <= posts@.len(),
                k < pres@.len(),
                presv == views_of(pres@),
                postsv == views_of(posts@),
                f == (|p: Seq<LockGuardOp>| presv[k as int] + p),
                base == views_of(r@).take(base.len() as int),
                views_of(r@) == base + postsv.map_values(f).take(l as int),
            decreases posts@.len() - l,
        {
            let q = concat_ops(&pres[k], &posts[l]);
            proof {
                lemma_views_push(r@, q);
                assert(postsv.map_values(f)[l as int] == f(postsv[l as int]));
                assert(q@ == presv[k as int] + postsv[l as int]);
                assert(postsv.map_values(f).take(l + 1 as int) =~= postsv.map_values(f).take(
                    l as int,
                ).push(f(postsv[l as int])));
                assert((base + postsv.map_values(f).take(l as int)).push(q@) =~= base
                    + postsv.map_values(f).take(l + 1 as int));
            }
            r.push(q);
            proof {
                assert(base == views_of(r@).take(base.len() as int)) by {
                    assert(views_of(r@).take(base.len() as int) =~= base);
                }
            }
            l += 1;
        }
        proof {
            assert(postsv.map_values(f).take(postsv.len() as int) =~= postsv.map_values(f));
            assert(views_of(r@) == base + postsv.map_values(f));
            assert(presv.skip(k as int)[0] == presv[k as int]);
            assert(presv.skip(k as int).drop_first() =~= presv.skip(k + 1 as int));
            assert(spec_cross(presv.skip(k as int), postsv) == postsv.map_values(f) + spec_cross(
                presv.skip(k + 1 as int),
                postsv,
            ));
            assert(views_of(r@) + spec_cross(presv.skip(k + 1 as int), postsv) =~= (base
                + spec_cross(presv.skip(k as int), postsv)));
        }
        k += 1;
    }
    proof {
        assert(presv.skip(presv.len() as int) =~= Seq::<Seq<LockGuardOp>>::empty());
        assert(views_of(r@) + spec_cross(presv.skip(presv.len() as int), postsv) =~= views_of(r@));
    }
    r
}

/// Walks instance `j`'s body from statement `s` with `depth` remaining
/// call inlinings, returning every path op-sequence in order.
fn walk_from(
    instances: &Vec<Instance>,
    edges: &Vec<CallEdge>,
    j: usize,
    s: usize,
    depth: usize,
) -> (r: Vec<Vec<LockGuardOp>>)
    requires
        j < instances@.len(),
        s <= instances@[j as int].body@.len(),
        forall|k: int|
            0 <= k < edges@.len() ==> (#[trigger] edges@[k]).callee < instances@.len(),
    ensures
        views_of(r@) == spec_walk(instances@, edges@, j as int, s as int, depth as nat),
    decreases depth, spec_rem(instances@, j as int, s as int), 1int,
{
    let body_len = instances[j].body.len();
    if s >= body_len {
        let mut r: Vec<Vec<LockGuardOp>> = Vec::new();
        r.push(Vec::new());
        proof {
            assert(views_of(r@) =~= seq![Seq::<LockGuardOp>::empty()]);
        }
        return r;
    }
    match instances[j].body[s] {
        Stmt::Guard { op } => {
            let rest = walk_from(instances, edges, j, s + 1, depth);
            prepend_exec(op, &rest)
        },
        _ => {
            let targets = edge_targets(edges, j, s, instances.len());
            let rest = walk_from(instances, edges, j, s + 1, depth);
            if depth == 0 || targets.len() == 0 {
                rest
            } else {
                let r = inline_targets_exec(instances, edges, &targets, 0, &rest, depth);
                proof {
                    assert(targets@.skip(0) =~= targets@);
                }
                r
            }
        },
    }
}

/// Inlines each target of a call site in turn: the callee's own paths
/// (walked with one less inlining) crossed with the continuation
/// paths, concatenated over the targets from position `ti` on.
fn inline_targets_exec(
    instances: &Vec<Instance>,
    edges: &Vec<CallEdge>,
    targets: &Vec<usize>,
    ti: usize,
    rest: &Vec<Vec<LockGuardOp>>,
    depth: usize,
) -> (r: Vec<Vec<LockGuardOp>>)
    requires
        depth >= 1,
        ti <= targets@.len(),
        forall|k: int| 0 <= k < targets@.len() ==> (#[trigger] targets@[k]) < instances@.len(),
        forall|k: int|
            0 <= k < edges@.len() ==> (#[trigger] edges@[k]).callee < instances@.len(),
    ensures
        views_of(r@) == spec_inline_targets(
            instances@,
            edges@,
            targets@.skip(ti as int),
            views_of(rest@),
            depth as nat,
        ),
    decreases depth, 0int, targets@.len() - ti,
{
    if ti >= targets.len() {
        proof {
            assert(targets@.skip(ti as int) =~= Seq::<usize>::empty());
            assert(views_of(Seq::<Vec<LockGuardOp>>::empty()) =~= Seq::<Seq<LockGuardOp>>::empty());
        }
        return Vec::new();
    }
    let callee = walk_from(instances, edges, targets[ti], 0, depth - 1);
    let mut head = cross_exec(&callee, rest);
    let mut tail = inline_targets_exec(instances, edges, targets, ti + 1, rest, depth);
    proof {
        assert(targets@.skip(ti as int)[0] == targets@[ti as int]);
        assert(targets@.skip(ti as int).drop_first() =~= targets@.skip(ti + 1 as int));
    }
    let ghost headv = views_of(head@);
    let ghost tailv = views_of(tail@);
    head.append(&mut tail);
    proof {
        assert(views_of(head@) =~= headv + tailv);
    }
    head
}

impl CallGraph {
    /// Enumerates, for each analysis root in order, every bounded call
    /// path out of it, as the ordered lock-guard operations met along
    /// the path. Fails, producing no paths, exactly when some root is
    /// not present among the supplied instances; unresolved calls and
    /// exhausted depth merely truncate inlining.
    pub fn collect_lock_paths(
        &self,
        instances: &Vec<Instance>,
        roots: &Vec<usize>,
        max_depth: usize,
    ) -> (r: Result<Vec<LockPath>, AnalysisError>)
        requires
            self.wf(instances@),
        ensures
            r is Err <==> exists|k: int|
                0 <= k < roots@.len() && (#[trigger] roots@[k]) >= instances@.len(),
            r matches Ok(paths) ==> paths_correspond(
                paths@,
                spec_collect(instances@, self.edges@, roots@, max_depth as nat),
            ),
            r matches Err(e) ==> e == AnalysisError::RootMissing,
    {
        proof {
            assert forall|k: int| 0 <= k < self.edges@.len() implies (
            #[trigger] self.edges@[k]).callee < instances@.len() by {
                assert(crate::callgraph::edge_resolves(instances@, self.edges@[k]));
            }
        }
        let mut i: usize = 0;
        while i < roots.len()
            invariant
                i <= roots@.len(),
                forall|k: int| 0 <= k < i ==> (#[trigger] roots@[k]) < instances@.len(),
            decreases roots@.len() - i,
        {
            if roots[i] >= instances.len() {
                return Err(AnalysisError::RootMissing);
            }
            i += 1;
        }
        let out = collect_rec(instances, &self.edges, roots, 0, max_depth);
        proof {
            assert(roots@.skip(0) =~= roots@);
        }
        Ok(out)
    }
}

/// Walks the roots from position `ri` on, tagging each path with its
/// root.
fn collect_rec(
    instances: &Vec<Instance>,
    edges: &Vec<CallEdge>,
    roots: &Vec<usize>,
    ri: usize,
    max_depth: usize,
) -> (r: Vec<LockPath>)
    requires
        ri <= roots@.len(),
        forall|k: int| 0 <= k < roots@.len() ==> (#[trigger] roots@[k]) < instances@.len(),
        forall|k: int|
            0 <= k < edges@.len() ==> (#[trigger] edges@[k]).callee < instances@.len(),
    ensures
        paths_correspond(
            r@,
            spec_collect(instances@, edges@, roots@.skip(ri as int), max_depth as nat),
        ),
    decreases roots@.len() - ri,
{
    if ri >= roots.len() {
        proof {
            assert(roots@.skip(ri as int) =~= Seq::<usize>::empty());
        }
        return Vec::new();
    }
    let root = roots[ri];
    let walked = walk_from(instances, edges, root, 0, max_depth);
    let ghost walkedv = views_of(walked@);
    let mut r: Vec<LockPath> = Vec::new();
    let mut k: usize = 0;
    while k < walked.len()
        invariant
            k <= walked@.len(),
            walkedv == views_of(walked@),
            r@.len() == k,
            forall|m: int|
                0 <= m < k ==> (#[trigger] r@[m]).root == root && r@[m].ops@ == walkedv[m],
        decreases walked@.len() - k,
    {
        let ops = copy_ops(&walked[k]);
        r.push(LockPath { root, ops });
        k += 1;
    }
    let tail = collect_rec(instances, edges, roots, ri + 1, max_depth);
    let ghost tagged = tag_root(root, walkedv);
    let ghost tail_spec = spec_collect(
        instances@,
        edges@,
        roots@.skip(ri + 1 as int),
        max_depth as nat,
    );
    let mut out = r;
    let mut tail_vec = tail;
    let ghost outv = out@;
    let ghost tailv = tail_vec@;
    out.append(&mut tail_vec);
    proof {
        assert(roots@.skip(ri as int)[0] == roots@[ri as int]);
        assert(roots@.skip(ri as int).drop_first() =~= roots@.skip(ri + 1 as int));
        let full = spec_collect(instances@, edges@, roots@.skip(ri as int), max_depth as nat);
        assert(full == tagged + tail_spec);
        assert(out@ == outv + tailv);
        assert forall|m: int| 0 <= m < out@.len() implies (#[trigger] out@[m]).root == full[m].0
            && out@[m].ops@ == full[m].1 by {
            if m < outv.len() {
                assert(out@[m] == outv[m]);
                assert(full[m] == tagged[m]);
            } else {
                assert(out@[m] == tailv[m - outv.len()]);
                assert(full[m] == tail_spec[m - outv.len()]);
            }
        }
    }
    out
}

} // verus!
