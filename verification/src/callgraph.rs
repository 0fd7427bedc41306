//! Call-graph construction over the supplied instances: one directed,
//! deduplicated edge per (caller, callee, call site) triple, with
//! direct calls resolved by identity and indirect calls resolved
//! conservatively to every signature-compatible instance.

use vstd::prelude::*;

use crate::model::Instance;
use crate::model::Stmt;

verus! {

/// One deduplicated call edge: statement `site` of instance `caller`
/// may invoke instance `callee`. Instances are named by their index in
/// the supplied instance list.
#[derive(Clone, Copy, Debug, PartialEq, Eq, Structural)]
pub struct CallEdge {
    pub caller: usize,
    pub callee: usize,
    pub site: usize,
}

/// Whether instance `j` is a resolution target of statement `s` of
/// instance `i`: for a direct call, `j` carries the named definition
/// and concrete type arguments; for an indirect call, `j`'s signature
/// is compatible. A guard statement resolves to nothing. A direct call
/// whose target is absent from the instance list thus contributes no
/// edge and is treated as an opaque leaf.
pub open spec fn spec_resolves(instances: Seq<Instance>, i: int, s: int, j: int) -> bool {
    &&& 0 <= i < instances.len()
    &&& 0 <= j < instances.len()
    &&& 0 <= s < instances[i].body@.len()
    &&& match instances[i].body@[s] {
        Stmt::CallDirect { def, substs } => instances[j].def == def && instances[j].substs
            == substs,
        Stmt::CallIndirect { sig } => instances[j].sig == sig,
        Stmt::Guard { .. } => false,
    }
}

/// The edge a resolvable triple gives rise to.
pub open spec fn edge_for(i: int, s: int, j: int) -> CallEdge {
    CallEdge { caller: i as usize, callee: j as usize, site: s as usize }
}

/// Whether an edge's own triple resolves.
pub open spec fn edge_resolves(instances: Seq<Instance>, e: CallEdge) -> bool {
    spec_resolves(instances, e.caller as int, e.site as int, e.callee as int)
}

/// Edges of call site (`i`, `s`) whose callee index is below `j_end`,
/// in ascending callee order.
pub open spec fn spec_site_edges(instances: Seq<Instance>, i: int, s: int, j_end: int) -> Seq<
    CallEdge,
>
    decreases j_end,
{
    if j_end <= 0 {
        Seq::empty()
    } else {
        let pre = spec_site_edges(instances, i, s, j_end - 1);
        if spec_resolves(instances, i, s, j_end - 1) {
            pre.push(edge_for(i, s, j_end - 1))
        } else {
            pre
        }
    }
}

/// Edges of instance `i` whose call site is below `s_end`, in
/// ascending (site, callee) order.
pub open spec fn spec_body_edges(instances: Seq<Instance>, i: int, s_end: int) -> Seq<CallEdge>
    decreases s_end,
{
    if s_end <= 0 {
        Seq::empty()
    } else {
        spec_body_edges(instances, i, s_end - 1) + spec_site_edges(
            instances,
            i,
            s_end - 1,
            instances.len() as int,
        )
    }
}

/// Edges of the instances whose caller index is below `i_end`, in
/// ascending (caller, site, callee) order.
pub open spec fn spec_edges_upto(instances: Seq<Instance>, i_end: int) -> Seq<CallEdge>
    decreases i_end,
{
    if i_end <= 0 {
        Seq::empty()
    } else {
        spec_edges_upto(instances, i_end - 1) + spec_body_edges(
            instances,
            i_end - 1,
            instances[i_end - 1].body@.len() as int,
        )
    }
}

/// The full edge list of an instance set, in ascending
/// (caller, site, callee) order — a function of the instances alone.
pub open spec fn spec_edges(instances: Seq<Instance>) -> Seq<CallEdge> {
    spec_edges_upto(instances, instances.len() as int)
}

/// A triple ordered lexicographically below the loop position
/// (`i`, `s`, `j`): the part of the triple space a scan has covered.
spec fn scanned(a: int, b: int, c: int, i: int, s: int, j: int) -> bool {
    a < i || (a == i && (b < s || (b == s && c < j)))
}

/// The directed call graph: instance count plus deduplicated edges.
/// Built once from an instance set and read-only thereafter.
pub struct CallGraph {
    pub n_nodes: usize,
    pub edges: Vec<CallEdge>,
}

impl CallGraph {
    /// The graph is exactly the one `build` produces for `instances`:
    /// the edge list is the function `spec_edges` of the instances, an
    /// edge stands for every resolvable (caller, site, callee) triple
    /// and only for such triples, and edges are deduplicated.
    pub open spec fn wf(self, instances: Seq<Instance>) -> bool {
        &&& self.n_nodes == instances.len()
        &&& self.edges@ == spec_edges(instances)
        &&& forall|a: int, b: int, c: int|
            #[trigger] spec_resolves(instances, a, b, c) ==> self.edges@.contains(edge_for(a, b, c))
        &&& forall|k: int|
            0 <= k < self.edges@.len() ==> edge_resolves(instances, #[trigger] self.edges@[k])
        &&& forall|k1: int, k2: int|
            0 <= k1 < k2 < self.edges@.len() ==> self.edges@[k1] != self.edges@[k2]
    }

    /// An empty graph, to be filled by `analyze`.
    pub fn new() -> (g: CallGraph)
        ensures
            g.n_nodes == 0,
            g.edges@ == Seq::<CallEdge>::empty(),
    {
        CallGraph { n_nodes: 0, edges: Vec::new() }
    }

    /// Rebuilds this graph from the supplied instance set, as `build`
    /// does.
    pub fn analyze(&mut self, instances: &Vec<Instance>)
        ensures
            final(self).wf(instances@),
    {
        *self = CallGraph::build(instances);
    }

    /// Builds the call graph of an instance set: an edge stands for
    /// every resolvable (caller, call site, callee) triple, every edge
    /// stands for such a triple, edges are deduplicated, and the edge
    /// list is a function of the instances alone.
    pub fn build(instances: &Vec<Instance>) -> (g: CallGraph)
        ensures
            g.wf(instances@),
    {
        let n = instances.len();
        let mut edges: Vec<CallEdge> = Vec::new();
        let mut i: usize = 0;
        while i < n
            invariant
                n == instances@.len(),
                i <= n,
                edges@ == spec_edges_upto(instances@, i as int),
                forall|a: int, b: int, c: int|
                    #[trigger] spec_resolves(instances@, a, b, c) && a < i ==> edges@.contains(
                        edge_for(a, b, c),
                    ),
                forall|k: int|
                    0 <= k < edges@.len() ==> edge_resolves(instances@, #[trigger] edges@[k])
                        && edges@[k].caller < i,
                forall|k1: int, k2: int|
                    0 <= k1 < k2 < edges@.len() ==> edges@[k1] != edges@[k2],
            decreases n - i,
        {
            let body_len = instances[i].body.len();
            let mut s: usize = 0;
            proof {
                assert(edges@ =~= spec_edges_upto(instances@, i as int) + spec_body_edges(
                    instances@,
                    i as int,
                    0,
                ));
            }
            while s < body_len
                invariant
                    n == instances@.len(),
                    i < n,
                    body_len == instances@[i as int].body@.len(),
                    s <= body_len,
                    edges@ == spec_edges_upto(instances@, i as int) + spec_body_edges(
                        instances@,
                        i as int,
                        s as int,
                    ),
                    forall|a: int, b: int, c: int|
                        #[trigger] spec_resolves(instances@, a, b, c) && scanned(
                            a,
                            b,
                            c,
                            i as int,
                            s as int,
                            0,
                        ) ==> edges@.contains(edge_for(a, b, c)),
                    forall|k: int|
                        0 <= k < edges@.len() ==> edge_resolves(instances@, #[trigger] edges@[k])
                            && scanned(
                            edges@[k].caller as int,
                            edges@[k].site as int,
                            edges@[k].callee as int,
                            i as int,
                            s as int,
                            0,
                        ),
                    forall|k1: int, k2: int|
                        0 <= k1 < k2 < edges@.len() ==> edges@[k1] != edges@[k2],
                decreases body_len - s,
            {
                let mut j: usize = 0;
                proof {
                    assert(edges@ =~= spec_edges_upto(instances@, i as int) + spec_body_edges(
                        instances@,
                        i as int,
                        s as int,
                    ) + spec_site_edges(instances@, i as int, s as int, 0));
                }
                while j < n
                    invariant
                        n == instances@.len(),
                        i < n,
                        body_len == instances@[i as int].body@.len(),
                        s < body_len,
                        j <= n,
                        edges@ == spec_edges_upto(instances@, i as int) + spec_body_edges(
                            instances@,
                            i as int,
                            s as int,
                        ) + spec_site_edges(instances@, i as int, s as int, j as int),
                        forall|a: int, b: int, c: int|
                            #[trigger] spec_resolves(instances@, a, b, c) && scanned(
                                a,
                                b,
                                c,
                                i as int,
                                s as int,
                                j as int,
                            ) ==> edges@.contains(edge_for(a, b, c)),
                        forall|k: int|
                            0 <= k < edges@.len() ==> edge_resolves(
                                instances@,
                                #[trigger] edges@[k],
                            ) && scanned(
                                edges@[k].caller as int,
                                edges@[k].site as int,
                                edges@[k].callee as int,
                                i as int,
                                s as int,
                                j as int,
                            ),
                        forall|k1: int, k2: int|
                            0 <= k1 < k2 < edges@.len() ==> edges@[k1] != edges@[k2],
                    decreases n - j,
                {
                    let ghost prev = edges@;
                    let ghost site_prev = spec_site_edges(instances@, i as int, s as int, j as int);
                    let ghost head = spec_edges_upto(instances@, i as int) + spec_body_edges(
                        instances@,
                        i as int,
                        s as int,
                    );
                    let r = resolves(instances, i, s, j);
                    let e = CallEdge { caller: i, callee: j, site: s };
                    if r {
                        edges.push(e);
                        proof {
                            assert(edges@ == prev.push(e));
                            assert(prev.push(e) =~= head + site_prev.push(e));
                            assert(e == edge_for(i as int, s as int, j as int));
                        }
                    }
                    proof {
                        let ia = i as int;
                        let sa = s as int;
                        let jn = j as int + 1;
                        assert(edges@ =~= head + spec_site_edges(instances@, ia, sa, jn));
                        assert forall|a: int, b: int, c: int|
                            #[trigger] spec_resolves(instances@, a, b, c) && scanned(
                                a,
                                b,
                                c,
                                ia,
                                sa,
                                jn,
                            ) implies edges@.contains(edge_for(a, b, c)) by {
                            if scanned(a, b, c, ia, sa, j as int) {
                                assert(prev.contains(edge_for(a, b, c)));
                                if r {
                                    lemma_push_preserves_contains(prev, e, edge_for(a, b, c));
                                }
                            } else {
                                assert(a == ia && b == sa && c == j as int);
                                assert(r);
                                assert(edges@[prev.len() as int] == edge_for(a, b, c));
                            }
                        }
                        assert forall|k: int| 0 <= k < edges@.len() implies edge_resolves(
                            instances@,
                            #[trigger] edges@[k],
                        ) && scanned(
                            edges@[k].caller as int,
                            edges@[k].site as int,
                            edges@[k].callee as int,
                            ia,
                            sa,
                            jn,
                        ) by {
                            if k < prev.len() {
                                assert(edges@[k] == prev[k]);
                            } else {
                                assert(r && edges@[k] == e);
                            }
                        }
                        assert forall|k1: int, k2: int|
                            0 <= k1 < k2 < edges@.len() implies edges@[k1] != edges@[k2] by {
                            if k2 >= prev.len() {
                                assert(r && edges@[k2] == e);
                                assert(edges@[k1] == prev[k1]);
                                assert(scanned(
                                    prev[k1].caller as int,
                                    prev[k1].site as int,
                                    prev[k1].callee as int,
                                    ia,
                                    sa,
                                    j as int,
                                ));
                            }
                        }
                    }
                    j += 1;
                }
                s += 1;
                proof {
                    assert(edges@ =~= spec_edges_upto(instances@, i as int) + spec_body_edges(
                        instances@,
                        i as int,
                        s as int,
                    ));
                    assert forall|a: int, b: int, c: int|
                        #[trigger] spec_resolves(instances@, a, b, c) && scanned(
                            a,
                            b,
                            c,
                            i as int,
                            s as int,
                            0,
                        ) implies edges@.contains(edge_for(a, b, c)) by {
                        assert(c < n);
                        assert(scanned(a, b, c, i as int, (s - 1) as int, n as int));
                    }
                }
            }
            i += 1;
            proof {
                assert(edges@ =~= spec_edges_upto(instances@, i as int));
                assert forall|a: int, b: int, c: int|
                    #[trigger] spec_resolves(instances@, a, b, c) && a < i implies edges@.contains(
                    edge_for(a, b, c),
                ) by {
                    assert(b < body_len || a < i - 1);
                    assert(scanned(a, b, c, (i - 1) as int, body_len as int, 0));
                }
            }
        }
        proof {
            assert forall|a: int, b: int, c: int|
                #[trigger] spec_resolves(instances@, a, b, c) implies edges@.contains(
                edge_for(a, b, c),
            ) by {
                assert(a < n);
            }
        }
        CallGraph { n_nodes: n, edges }
    }
}

/// Pushing onto a sequence keeps every element it already contains.
proof fn lemma_push_preserves_contains(s: Seq<CallEdge>, e: CallEdge, x: CallEdge)
    requires
        s.contains(x),
    ensures
        s.push(e).contains(x),
{
    let k = choose|k: int| 0 <= k < s.len() && s[k] == x;
    assert(s.push(e)[k] == x);
}

/// Exec counterpart of `spec_resolves` for an in-bounds triple.
fn resolves(instances: &Vec<Instance>, i: usize, s: usize, j: usize) -> (r: bool)
    requires
        i < instances@.len(),
        j < instances@.len(),
        s < instances@[i as int].body@.len(),
    ensures
        r == spec_resolves(instances@, i as int, s as int, j as int),
{
    match instances[i].body[s] {
        Stmt::Guard { .. } => false,
        Stmt::CallDirect { def, substs } => instances[j].def == def && instances[j].substs
            == substs,
        Stmt::CallIndirect { sig } => instances[j].sig == sig,
    }
}

} // verus!
