//! Execution plans: transforms to run and the dependencies between them.
//!
//! A plan runs when its dependency graph has no cycle within reach of its
//! nodes; it then runs in an order where every node comes after the nodes
//! it depends on.

use vstd::prelude::*;
use crate::json::{JsonValue, canonical_json, canonical_spec, insert_sorted, pairs_view, sort_by_key, texts_of};
use crate::text::{chars_of, push_str};
use crate::entity::kind_name;
use crate::transform::{TransformError, TransformInput, TransformOutput};

verus! {

// ---------------------------------------------------------------------------
// Orders
// ---------------------------------------------------------------------------

/// Every vertex of `ord` comes after the vertices it depends on: for each
/// dependency `(a, b)` (`a` depends on `b`) with `a` listed, `b` is listed
/// before `a`.
pub open spec fn dependencies_first(ord: Seq<usize>, edges: Seq<(usize, usize)>) -> bool {
    forall|i: int, k: int|
        #![trigger ord[i], edges[k]]
        0 <= i < ord.len() && 0 <= k < edges.len() && edges[k].0 == ord[i] ==> exists|j: int|
            0 <= j < i && ord[j] == edges[k].1
}

/// Every node `0..n` is listed.
pub open spec fn covers_nodes(ord: Seq<usize>, n: nat) -> bool {
    forall|v: usize| v < n ==> #[trigger] ord.contains(v)
}

/// An order in which the plan can run: each vertex once, every node, and
/// dependencies first.
pub open spec fn execution_order(ord: Seq<usize>, n: nat, edges: Seq<(usize, usize)>) -> bool {
    &&& ord.no_duplicates()
    &&& covers_nodes(ord, n)
    &&& dependencies_first(ord, edges)
}

/// The plan can run: some order puts every dependency first. This is the
/// case exactly when no cycle of dependencies can be reached from a node.
pub open spec fn orderable(n: nat, edges: Seq<(usize, usize)>) -> bool {
    exists|ord: Seq<usize>| execution_order(ord, n, edges)
}

/// A set of vertices that holds the nodes and whatever they depend on.
pub open spec fn closed_set(s: Set<usize>, n: nat, edges: Seq<(usize, usize)>) -> bool {
    &&& forall|v: usize| v < n ==> #[trigger] s.contains(v)
    &&& forall|k: int| 0 <= k < edges.len() && #[trigger] s.contains(edges[k].0) ==> s.contains(edges[k].1)
}

/// Everything `x` depends on is listed in `ord`.
pub open spec fn ready(x: usize, ord: Seq<usize>, edges: Seq<(usize, usize)>) -> bool {
    forall|k: int| 0 <= k < edges.len() && #[trigger] edges[k].0 == x ==> ord.contains(edges[k].1)
}

proof fn lemma_push_keeps(s: Seq<usize>, x: usize, y: usize)
    requires
        s.contains(y),
    ensures
        s.push(x).contains(y),
{
    let i = choose|i: int| 0 <= i < s.len() && s[i] == y;
    assert(s.push(x)[i] == y);
}

proof fn lemma_order_is_closed(ord: Seq<usize>, n: nat, edges: Seq<(usize, usize)>)
    requires
        execution_order(ord, n, edges),
    ensures
        closed_set(ord.to_set(), n, edges),
{
    assert forall|k: int| 0 <= k < edges.len() && #[trigger] ord.to_set().contains(edges[k].0) implies ord.to_set().contains(
        edges[k].1,
    ) by {
        let i = choose|i: int| 0 <= i < ord.len() && ord[i] == edges[k].0;
        assert(ord[i] == edges[k].0);
        let j = choose|j: int| 0 <= j < i && ord[j] == edges[k].1;
        assert(ord.contains(edges[k].1));
    }
}

/// A vertex reached by the plan that is not yet listed.
pub open spec fn pending(x: usize, reach: Seq<usize>, ord: Seq<usize>) -> bool {
    reach.contains(x) && !ord.contains(x)
}

proof fn lemma_first_pending(ord2: Seq<usize>, reach: Seq<usize>, ord: Seq<usize>, p: int)
    requires
        0 <= p < ord2.len(),
        pending(ord2[p], reach, ord),
    ensures
        exists|q: int|
            0 <= q <= p && pending(ord2[q], reach, ord) && forall|j: int| 0 <= j < q ==> !pending(#[trigger] ord2[j], reach, ord),
    decreases p,
{
    if exists|j: int| 0 <= j < p && pending(ord2[j], reach, ord) {
        let j = choose|j: int| 0 <= j < p && pending(ord2[j], reach, ord);
        lemma_first_pending(ord2, reach, ord, j);
    } else {
        assert forall|j: int| 0 <= j < p implies !pending(#[trigger] ord2[j], reach, ord) by {}
    }
}

/// When a vertex reached by the plan is left out of `ord` and none of the
/// vertices left out is ready, no order can run the plan.
proof fn lemma_stuck_means_cycle(
    n: nat,
    edges: Seq<(usize, usize)>,
    reach: Seq<usize>,
    ord: Seq<usize>,
    x: usize,
)
    requires
        forall|s: Set<usize>| #[trigger] closed_set(s, n, edges) ==> forall|y: usize| reach.contains(y) ==> s.contains(y),
        forall|y: usize, k: int|
            #![trigger reach.contains(y), edges[k]]
            reach.contains(y) && 0 <= k < edges.len() && edges[k].0 == y ==> reach.contains(edges[k].1),
        forall|y: usize| pending(y, reach, ord) ==> !#[trigger] ready(y, ord, edges),
        pending(x, reach, ord),
    ensures
        !orderable(n, edges),
{
    if orderable(n, edges) {
        let ord2 = choose|o: Seq<usize>| execution_order(o, n, edges);
        lemma_order_is_closed(ord2, n, edges);
        assert(ord2.to_set().contains(x));
        let p = choose|p: int| 0 <= p < ord2.len() && ord2[p] == x;
        lemma_first_pending(ord2, reach, ord, p);
        let q = choose|q: int|
            0 <= q <= p && pending(ord2[q], reach, ord) && forall|j: int| 0 <= j < q ==> !pending(#[trigger] ord2[j], reach, ord);
        let u = ord2[q];
        assert(!ready(u, ord, edges));
        let k = choose|k: int| 0 <= k < edges.len() && #[trigger] edges[k].0 == u && !ord.contains(edges[k].1);
        assert(reach.contains(edges[k].1));
        assert(edges[k].0 == ord2[q]);
        let j = choose|j: int| 0 <= j < q && ord2[j] == edges[k].1;
        assert(pending(ord2[j], reach, ord));
        assert(false);
    }
}

// ---------------------------------------------------------------------------
// Plans
// ---------------------------------------------------------------------------

/// A node of a plan: a transform and its input.
#[derive(Debug, Clone)]
pub struct PlanNode {
    pub transform_id: String,
    pub input: TransformInput,
}

/// Result of one node of a plan.
#[derive(Debug)]
pub struct NodeResult {
    pub transform_id: String,
    pub output: Result<TransformOutput, TransformError>,
    /// Run time in milliseconds.
    pub elapsed_ms: u64,
    /// The result came from the cache.
    pub from_cache: bool,
}

/// An execution plan: nodes, and for each node the nodes it depends on.
#[derive(Debug, Clone)]
pub struct ExecutionPlan {
    nodes: Vec<PlanNode>,
    /// `(node, dependency)`: `node` waits for `dependency`, in the order the
    /// dependencies were declared.
    deps: Vec<(usize, usize)>,
}

/// The dependencies of `deps` that do not start from `node`.
pub open spec fn without_node(deps: Seq<(usize, usize)>, node: usize) -> Seq<(usize, usize)>
    decreases deps.len(),
{
    if deps.len() == 0 {
        deps
    } else if deps.last().0 == node {
        without_node(deps.drop_last(), node)
    } else {
        without_node(deps.drop_last(), node).push(deps.last())
    }
}

fn vec_contains(v: &Vec<usize>, x: usize) -> (r: bool)
    ensures
        r == v@.contains(x),
{
    let mut i: usize = 0;
    while i < v.len()
        invariant
            i <= v.len(),
            forall|k: int| 0 <= k < i ==> v@[k] != x,
        decreases v.len() - i,
    {
        if v[i] == x {
            return true;
        }
        i = i + 1;
    }
    false
}

/// The cycle message.
pub open spec fn cycle_message() -> Seq<char> {
    "cycle détecté dans le plan d'exécution"@
}

impl ExecutionPlan {
    /// Number of nodes.
    pub closed spec fn node_count(&self) -> nat {
        self.nodes@.len()
    }

    /// The dependencies, in the order they were declared.
    pub closed spec fn dependencies(&self) -> Seq<(usize, usize)> {
        self.deps@
    }

    /// The transform of node `i`.
    pub closed spec fn node_transform(&self, i: int) -> Seq<char> {
        self.nodes@[i].transform_id@
    }

    /// The input of node `i`.
    pub closed spec fn node_input(&self, i: int) -> TransformInput {
        self.nodes@[i].input
    }

    /// An empty plan.
    pub fn new() -> (r: ExecutionPlan)
        ensures
            r.node_count() == 0,
            r.dependencies().len() == 0,
    {
        ExecutionPlan { nodes: Vec::new(), deps: Vec::new() }
    }

    /// Adds a node and gives its index. A node starts with no dependency:
    /// any declared earlier for its index are dropped.
    pub fn add_node(&mut self, transform_id: String, input: TransformInput) -> (idx: usize)
        requires
            old(self).node_count() < usize::MAX,
        ensures
            idx == old(self).node_count(),
            final(self).node_count() == old(self).node_count() + 1,
            final(self).node_transform(idx as int) == transform_id@,
            final(self).node_input(idx as int) == input,
            forall|i: int| 0 <= i < idx ==> final(self).node_transform(i) == old(self).node_transform(i),
            forall|i: int| 0 <= i < idx ==> final(self).node_input(i) == old(self).node_input(i),
            final(self).dependencies() == without_node(old(self).dependencies(), idx),
    {
        let idx = self.nodes.len();
        self.nodes.push(PlanNode { transform_id, input });
        let mut kept: Vec<(usize, usize)> = Vec::new();
        let mut i: usize = 0;
        while i < self.deps.len()
            invariant
                i <= self.deps.len(),
                kept@ == without_node(self.deps@.take(i as int), idx),
            decreases self.deps.len() - i,
        {
            proof {
                assert(self.deps@.take(i + 1).drop_last() =~= self.deps@.take(i as int));
            }
            let d = self.deps[i];
            if d.0 != idx {
                kept.push(d);
            }
            i = i + 1;
        }
        assert(self.deps@.take(i as int) =~= self.deps@);
        self.deps = kept;
        idx
    }

    /// Declares that `node` depends on `dependency`, which must finish
    /// first.
    pub fn add_dependency(&mut self, node: usize, dependency: usize)
        ensures
            final(self).node_count() == old(self).node_count(),
            forall|i: int| 0 <= i < old(self).node_count() ==> final(self).node_transform(i) == old(self).node_transform(i),
            forall|i: int| 0 <= i < old(self).node_count() ==> final(self).node_input(i) == old(self).node_input(i),
            final(self).dependencies() == old(self).dependencies().push((node, dependency)),
    {
        self.deps.push((node, dependency));
    }

    /// The vertices reached from the nodes by following dependencies: the
    /// nodes first, each vertex once.
    fn reach(&self) -> (r: Vec<usize>)
        ensures
            r@.no_duplicates(),
            forall|v: usize| v < self.nodes@.len() ==> #[trigger] r@.contains(v),
            forall|y: usize, k: int|
                #![trigger r@.contains(y), self.deps@[k]]
                r@.contains(y) && 0 <= k < self.deps@.len() && self.deps@[k].0 == y ==> r@.contains(self.deps@[k].1),
            forall|s: Set<usize>| #[trigger] closed_set(s, self.nodes@.len(), self.deps@) ==> forall|y: usize| r@.contains(y) ==> s.contains(y),
    {
        let n = self.nodes.len();
        let ghost edges = self.deps@;
        let ghost cands: Seq<usize> = Seq::new(n as nat, |i: int| i as usize) + edges.map_values(|e: (usize, usize)| e.1);
        let mut r: Vec<usize> = Vec::new();
        let mut v: usize = 0;
        while v < n
            invariant
                v <= n,
                n == self.nodes@.len(),
                r@ == Seq::new(v as nat, |i: int| i as usize),
            decreases n - v,
        {
            r.push(v);
            v = v + 1;
            assert(r@ =~= Seq::new(v as nat, |i: int| i as usize));
        }
        assert forall|s: Set<usize>| #[trigger] closed_set(s, n as nat, edges) implies forall|y: usize| r@.contains(y) ==> s.contains(y) by {
            assert forall|y: usize| r@.contains(y) implies s.contains(y) by {
                let i = choose|i: int| 0 <= i < r@.len() && r@[i] == y;
            }
        }
        assert forall|y: usize| y < n implies #[trigger] r@.contains(y) by {
            assert(r@[y as int] == y);
        }
        assert forall|y: usize| r@.contains(y) implies cands.contains(y) by {
            let i = choose|i: int| 0 <= i < r@.len() && r@[i] == y;
            assert(cands[i] == y);
        }
        let mut w: usize = 0;
        while w < r.len()
            invariant
                n == self.nodes@.len(),
                edges == self.deps@,
                cands == Seq::new(n as nat, |i: int| i as usize) + edges.map_values(|e: (usize, usize)| e.1),
                w <= r.len(),
                r@.no_duplicates(),
                forall|y: usize| y < n ==> #[trigger] r@.contains(y),
                forall|y: usize| r@.contains(y) ==> cands.contains(y),
                forall|i: int, k: int|
                    #![trigger r@[i], edges[k]]
                    0 <= i < w && 0 <= k < edges.len() && edges[k].0 == r@[i] ==> r@.contains(edges[k].1),
                forall|s: Set<usize>| #[trigger] closed_set(s, n as nat, edges) ==> forall|y: usize| r@.contains(y) ==> s.contains(y),
            decreases cands.len() - w,
        {
            proof {
                r@.unique_seq_to_set();
                cands.lemma_cardinality_of_set();
                vstd::set_lib::lemma_len_subset(r@.to_set(), cands.to_set());
            }
            let x = r[w];
            let mut k: usize = 0;
            while k < self.deps.len()
                invariant
                    n == self.nodes@.len(),
                    edges == self.deps@,
                    cands == Seq::new(n as nat, |i: int| i as usize) + edges.map_values(|e: (usize, usize)| e.1),
                    w < r.len(),
                    x == r@[w as int],
                    k <= edges.len(),
                    r@.no_duplicates(),
                    forall|y: usize| y < n ==> #[trigger] r@.contains(y),
                    forall|y: usize| r@.contains(y) ==> cands.contains(y),
                    forall|i: int, k2: int|
                        #![trigger r@[i], edges[k2]]
                        0 <= i < w && 0 <= k2 < edges.len() && edges[k2].0 == r@[i] ==> r@.contains(edges[k2].1),
                    forall|k2: int| 0 <= k2 < k && #[trigger] edges[k2].0 == x ==> r@.contains(edges[k2].1),
                    forall|s: Set<usize>| #[trigger] closed_set(s, n as nat, edges) ==> forall|y: usize| r@.contains(y) ==> s.contains(y),
                decreases edges.len() - k,
            {
                let e = self.deps[k];
                if e.0 == x && !vec_contains(&r, e.1) {
                    let ghost before = r@;
                    r.push(e.1);
                    proof {
                        assert(r@ == before.push(e.1));
                        assert(cands[n + k] == e.1);
                        assert forall|y: usize| r@.contains(y) implies cands.contains(y) by {
                            if y != e.1 {
                                let i = choose|i: int| 0 <= i < r@.len() && r@[i] == y;
                                assert(before[i] == y);
                                assert(before.contains(y));
                            }
                        }
                        assert forall|a: int, b: int| 0 <= a < b < r@.len() implies r@[a] != r@[b] by {
                            if b == r@.len() - 1 {
                                assert(before.contains(r@[a]));
                            }
                        }
                        assert forall|s: Set<usize>| #[trigger] closed_set(s, n as nat, edges) implies forall|y: usize| r@.contains(y) ==> s.contains(y) by {
                            assert(before.contains(x));
                            assert(s.contains(x));
                            assert(s.contains(edges[k as int].0));
                            assert forall|y: usize| r@.contains(y) implies s.contains(y) by {
                                if y != e.1 {
                                    let i = choose|i: int| 0 <= i < r@.len() && r@[i] == y;
                                    assert(before[i] == y);
                                    assert(before.contains(y));
                                }
                            }
                        }
                        assert forall|i: int, k2: int|
                            #![trigger r@[i], edges[k2]]
                            0 <= i < w && 0 <= k2 < edges.len() && edges[k2].0 == r@[i] implies r@.contains(edges[k2].1) by {
                            assert(r@[i] == before[i]);
                            assert(before.contains(edges[k2].1));
                            lemma_push_keeps(before, e.1, edges[k2].1);
                        }
                        assert forall|y: usize| y < n implies #[trigger] r@.contains(y) by {
                            assert(before.contains(y));
                            lemma_push_keeps(before, e.1, y);
                        }
                        assert forall|k2: int| 0 <= k2 < k + 1 && #[trigger] edges[k2].0 == x implies r@.contains(edges[k2].1) by {
                            if k2 < k {
                                assert(before.contains(edges[k2].1));
                                lemma_push_keeps(before, e.1, edges[k2].1);
                            } else {
                                assert(r@[r@.len() - 1] == e.1);
                            }
                        }
                    }
                }
                k = k + 1;
            }
            proof {
                assert forall|i: int, k2: int|
                    #![trigger r@[i], edges[k2]]
                    0 <= i < w + 1 && 0 <= k2 < edges.len() && edges[k2].0 == r@[i] implies r@.contains(edges[k2].1) by {
                    if i == w {
                        assert(edges[k2].0 == x);
                    }
                }
            }
            w = w + 1;
        }
        proof {
            assert forall|y: usize, k: int|
                #![trigger r@.contains(y), self.deps@[k]]
                r@.contains(y) && 0 <= k < self.deps@.len() && self.deps@[k].0 == y implies r@.contains(self.deps@[k].1) by {
                let i = choose|i: int| 0 <= i < r@.len() && r@[i] == y;
                assert(edges[k].0 == r@[i]);
            }
        }
        r
    }

    /// Whether every dependency of `x` is listed in `ord`.
    fn is_ready(&self, x: usize, ord: &Vec<usize>) -> (r: bool)
        ensures
            r == ready(x, ord@, self.deps@),
    {
        let mut k: usize = 0;
        while k < self.deps.len()
            invariant
                k <= self.deps.len(),
                forall|k2: int| 0 <= k2 < k && #[trigger] self.deps@[k2].0 == x ==> ord@.contains(self.deps@[k2].1),
            decreases self.deps.len() - k,
        {
            let e = self.deps[k];
            if e.0 == x && !vec_contains(ord, e.1) {
                assert(self.deps@[k as int].0 == x);
                return false;
            }
            k = k + 1;
        }
        true
    }

    /// An order of every vertex reached from the nodes with dependencies
    /// first, when there is one.
    fn order_all(&self) -> (r: Option<Vec<usize>>)
        ensures
            r is Some <==> orderable(self.nodes@.len(), self.deps@),
            r matches Some(o) ==> execution_order(o@, self.nodes@.len(), self.deps@),
    {
        let ghost n = self.nodes@.len();
        let ghost edges = self.deps@;
        let reach = self.reach();
        let mut ord: Vec<usize> = Vec::new();
        loop
            invariant
                n == self.nodes@.len(),
                edges == self.deps@,
                reach@.no_duplicates(),
                forall|v: usize| v < n ==> #[trigger] reach@.contains(v),
                forall|y: usize, k: int|
                    #![trigger reach@.contains(y), edges[k]]
                    reach@.contains(y) && 0 <= k < edges.len() && edges[k].0 == y ==> reach@.contains(edges[k].1),
                forall|s: Set<usize>| #[trigger] closed_set(s, n, edges) ==> forall|y: usize| reach@.contains(y) ==> s.contains(y),
                ord@.no_duplicates(),
                forall|y: usize| ord@.contains(y) ==> reach@.contains(y),
                dependencies_first(ord@, edges),
            decreases reach@.len() - ord@.len(),
        {
            proof {
                ord@.unique_seq_to_set();
                reach@.unique_seq_to_set();
                vstd::set_lib::lemma_len_subset(ord@.to_set(), reach@.to_set());
            }
            // The first vertex reached, not yet listed, that is ready.
            let mut i: usize = 0;
            let mut found: Option<usize> = None;
            while i < reach.len() && found.is_none()
                invariant
                    i <= reach.len(),
                    edges == self.deps@,
                    found matches Some(x) ==> pending(x, reach@, ord@) && ready(x, ord@, edges),
                    found is None ==> forall|j: int| 0 <= j < i ==> !pending(#[trigger] reach@[j], reach@, ord@)
                        || !ready(reach@[j], ord@, edges),
                decreases reach.len() - i, (if found is None { 1int } else { 0int }),
            {
                let x = reach[i];
                if !vec_contains(&ord, x) && self.is_ready(x, &ord) {
                    found = Some(x);
                } else {
                    i = i + 1;
                }
            }
            match found {
                Some(x) => {
                    let ghost before = ord@;
                    ord.push(x);
                    proof {
                        assert(ord@ == before.push(x));
                        assert forall|a: int, b: int| 0 <= a < b < ord@.len() implies ord@[a] != ord@[b] by {
                            if b == ord@.len() - 1 {
                                assert(before.contains(ord@[a]));
                            }
                        }
                        assert forall|y: usize| ord@.contains(y) implies reach@.contains(y) by {
                            if y != x {
                                let i2 = choose|i2: int| 0 <= i2 < ord@.len() && ord@[i2] == y;
                                assert(before[i2] == y);
                                assert(before.contains(y));
                            }
                        }
                        ord@.unique_seq_to_set();
                        vstd::set_lib::lemma_len_subset(ord@.to_set(), reach@.to_set());
                        assert forall|i2: int, k: int|
                            #![trigger ord@[i2], edges[k]]
                            0 <= i2 < ord@.len() && 0 <= k < edges.len() && edges[k].0 == ord@[i2] implies exists|j: int|
                                0 <= j < i2 && ord@[j] == edges[k].1 by {
                            if i2 < before.len() {
                                assert(before[i2] == ord@[i2]);
                                let j = choose|j: int| 0 <= j < i2 && before[j] == edges[k].1;
                                assert(ord@[j] == edges[k].1);
                            } else {
                                assert(edges[k].0 == x);
                                assert(before.contains(edges[k].1));
                                let j = choose|j: int| 0 <= j < before.len() && before[j] == edges[k].1;
                                assert(ord@[j] == edges[k].1);
                            }
                        }
                    }
                },
                None => {
                    proof {
                        assert forall|y: usize| pending(y, reach@, ord@) implies !#[trigger] ready(y, ord@, edges) by {
                            let j = choose|j: int| 0 <= j < reach@.len() && reach@[j] == y;
                            assert(!pending(reach@[j], reach@, ord@) || !ready(reach@[j], ord@, edges));
                        }
                    }
                    // Every vertex reached is listed, or the plan has a cycle.
                    let mut j: usize = 0;
                    while j < reach.len()
                        invariant
                            j <= reach.len(),
                            n == self.nodes@.len(),
                            edges == self.deps@,
                            forall|v: usize| v < n ==> #[trigger] reach@.contains(v),
                            forall|y: usize, k: int|
                                #![trigger reach@.contains(y), edges[k]]
                                reach@.contains(y) && 0 <= k < edges.len() && edges[k].0 == y ==> reach@.contains(edges[k].1),
                            forall|s: Set<usize>| #[trigger] closed_set(s, n, edges) ==> forall|y: usize| reach@.contains(y) ==> s.contains(y),
                            forall|y: usize| pending(y, reach@, ord@) ==> !#[trigger] ready(y, ord@, edges),
                            ord@.no_duplicates(),
                            dependencies_first(ord@, edges),
                            forall|m: int| 0 <= m < j ==> ord@.contains(#[trigger] reach@[m]),
                        decreases reach.len() - j,
                    {
                        if !vec_contains(&ord, reach[j]) {
                            proof {
                                lemma_stuck_means_cycle(n, edges, reach@, ord@, reach@[j as int]);
                            }
                            return None;
                        }
                        j = j + 1;
                    }
                    proof {
                        assert forall|v: usize| v < n implies #[trigger] ord@.contains(v) by {
                            assert(reach@.contains(v));
                            let m = choose|m: int| 0 <= m < reach@.len() && reach@[m] == v;
                            assert(ord@.contains(reach@[m]));
                        }
                        assert(execution_order(ord@, n, edges));
                    }
                    return Some(ord);
                },
            }
        }
    }

    /// Checks that the plan has no cycle of dependencies within reach of
    /// its nodes.
    pub fn validate(&self) -> (r: Result<(), TransformError>)
        ensures
            r is Ok <==> orderable(self.node_count(), self.dependencies()),
            r matches Err(e) ==> e matches TransformError::Internal(m) && m@ == cycle_message(),
    {
        match self.order_all() {
            Some(_) => Ok(()),
            None => Err(TransformError::Internal(String::from_str("cycle détecté dans le plan d'exécution"))),
        }
    }

    /// The nodes in an order where each comes after the nodes it depends
    /// on; refused when the plan has a cycle.
    pub fn topological_order(&self) -> (r: Result<Vec<usize>, TransformError>)
        ensures
            r is Ok <==> orderable(self.node_count(), self.dependencies()),
            r matches Err(e) ==> e matches TransformError::Internal(m) && m@ == cycle_message(),
            r matches Ok(o) ==> {
                &&& o@.no_duplicates()
                &&& forall|i: int| 0 <= i < o@.len() ==> o@[i] < self.node_count()
                &&& covers_nodes(o@, self.node_count())
                &&& forall|i: int, k: int|
                    #![trigger o@[i], self.dependencies()[k]]
                    0 <= i < o@.len() && 0 <= k < self.dependencies().len() && self.dependencies()[k].0 == o@[i]
                        && self.dependencies()[k].1 < self.node_count() ==> exists|j: int|
                        0 <= j < i && o@[j] == self.dependencies()[k].1
            },
    {
        let all = match self.order_all() {
            Some(o) => o,
            None => {
                return Err(TransformError::Internal(String::from_str("cycle détecté dans le plan d'exécution")));
            },
        };
        let n = self.nodes.len();
        let ghost edges = self.deps@;
        let mut out: Vec<usize> = Vec::new();
        let mut i: usize = 0;
        while i < all.len()
            invariant
                i <= all.len(),
                n == self.nodes@.len(),
                edges == self.deps@,
                execution_order(all@, n as nat, edges),
                out@.no_duplicates(),
                forall|a: int| 0 <= a < out@.len() ==> out@[a] < n,
                forall|y: usize| out@.contains(y) ==> exists|m: int| 0 <= m < i && all@[m] == y,
                forall|m: int| 0 <= m < i && all@[m] < n ==> out@.contains(#[trigger] all@[m]),
                forall|a: int, k: int|
                    #![trigger out@[a], edges[k]]
                    0 <= a < out@.len() && 0 <= k < edges.len() && edges[k].0 == out@[a] && edges[k].1 < n ==> exists|j: int|
                        0 <= j < a && out@[j] == edges[k].1,
            decreases all.len() - i,
        {
            let x = all[i];
            if x < n {
                let ghost before = out@;
                out.push(x);
                proof {
                    assert(out@ == before.push(x));
                    assert(!before.contains(x)) by {
                        if before.contains(x) {
                            let m = choose|m: int| 0 <= m < i && all@[m] == x;
                            assert(all@[m] == all@[i as int]);
                        }
                    }
                    assert forall|a: int, b: int| 0 <= a < b < out@.len() implies out@[a] != out@[b] by {
                        if b == out@.len() - 1 {
                            assert(before.contains(out@[a]));
                        }
                    }
                    assert forall|y: usize| out@.contains(y) implies exists|m: int| 0 <= m < i + 1 && all@[m] == y by {
                        if y != x {
                            assert(before.contains(y));
                        }
                    }
                    assert forall|m: int| 0 <= m < i + 1 && all@[m] < n implies out@.contains(#[trigger] all@[m]) by {
                        if m < i {
                            assert(before.contains(all@[m]));
                            lemma_push_keeps(before, x, all@[m]);
                        } else {
                            assert(out@[out@.len() - 1] == x);
                        }
                    }
                    assert forall|a: int, k: int|
                        #![trigger out@[a], edges[k]]
                        0 <= a < out@.len() && 0 <= k < edges.len() && edges[k].0 == out@[a] && edges[k].1 < n implies exists|j: int|
                            0 <= j < a && out@[j] == edges[k].1 by {
                        if a < before.len() {
                            assert(before[a] == out@[a]);
                            let j = choose|j: int| 0 <= j < a && before[j] == edges[k].1;
                            assert(out@[j] == edges[k].1);
                        } else {
                            assert(edges[k].0 == all@[i as int]);
                            let m = choose|m: int| 0 <= m < i && all@[m] == edges[k].1;
                            assert(before.contains(all@[m]));
                            let j = choose|j: int| 0 <= j < before.len() && before[j] == edges[k].1;
                            assert(out@[j] == edges[k].1);
                        }
                    }
                }
            } else {
                proof {
                    assert forall|m: int| 0 <= m < i + 1 && all@[m] < n implies out@.contains(#[trigger] all@[m]) by {
                        if m == i {
                            assert(all@[m] == x);
                        }
                    }
                    assert forall|y: usize| out@.contains(y) implies exists|m: int| 0 <= m < i + 1 && all@[m] == y by {
                        let m = choose|m: int| 0 <= m < i && all@[m] == y;
                    }
                }
            }
            i = i + 1;
        }
        proof {
            assert forall|v: usize| v < n implies #[trigger] out@.contains(v) by {
                assert(all@.contains(v));
                let m = choose|m: int| 0 <= m < all@.len() && all@[m] == v;
                assert(out@.contains(all@[m]));
            }
        }
        Ok(out)
    }

    /// The transform and the input of node `i`.
    pub fn node(&self, i: usize) -> (r: Option<&PlanNode>)
        ensures
            r matches Some(p) ==> i < self.node_count() && p.transform_id@ == self.node_transform(i as int)
                && p.input == self.node_input(i as int),
            r is None <==> i >= self.node_count(),
    {
        if i < self.nodes.len() {
            Some(&self.nodes[i])
        } else {
            None
        }
    }

    /// Number of nodes.
    pub fn len(&self) -> (r: usize)
        ensures
            r == self.node_count(),
    {
        self.nodes.len()
    }
}

// ---------------------------------------------------------------------------
// Laws
// ---------------------------------------------------------------------------

/// A plan whose nodes depend on nothing can run, in any order of its nodes.
pub proof fn law_plan_without_dependencies_runs(n: nat)
    requires
        n <= usize::MAX,
    ensures
        orderable(n, Seq::<(usize, usize)>::empty()),
{
    let ord = Seq::new(n, |i: int| i as usize);
    assert forall|a: int, b: int| 0 <= a < b < ord.len() implies ord[a] != ord[b] by {}
    assert forall|v: usize| v < n implies #[trigger] ord.contains(v) by {
        assert(ord[v as int] == v);
    }
    assert(execution_order(ord, n, Seq::<(usize, usize)>::empty()));
}

/// Two nodes that depend on each other can never run.
pub proof fn law_mutual_dependency_is_a_cycle(n: nat, edges: Seq<(usize, usize)>, a: usize, b: usize)
    requires
        a < n,
        b < n,
        edges.contains((a, b)),
        edges.contains((b, a)),
    ensures
        !orderable(n, edges),
{
    if orderable(n, edges) {
        let ord = choose|o: Seq<usize>| execution_order(o, n, edges);
        let ka = choose|k: int| 0 <= k < edges.len() && edges[k] == (a, b);
        let kb = choose|k: int| 0 <= k < edges.len() && edges[k] == (b, a);
        assert(ord.contains(a));
        assert(ord.contains(b));
        let ia = choose|i: int| 0 <= i < ord.len() && ord[i] == a;
        let ib = choose|i: int| 0 <= i < ord.len() && ord[i] == b;
        assert(edges[ka].0 == ord[ia]);
        assert(edges[kb].0 == ord[ib]);
        let ja = choose|j: int| 0 <= j < ia && ord[j] == edges[ka].1;
        let jb = choose|j: int| 0 <= j < ib && ord[j] == edges[kb].1;
        assert(ord[ja] == ord[ib]);
        assert(ord[jb] == ord[ia]);
        assert(false);
    }
}

// ---------------------------------------------------------------------------
// Cache keys
// ---------------------------------------------------------------------------

/// How one parameter enters the cache key: `key=value;`, with the value's
/// JSON text, paired with its key.
pub open spec fn param_entry(key: Seq<char>, value: JsonValue) -> (Seq<char>, Seq<char>) {
    (key, key + "="@ + canonical_spec(value) + ";"@)
}

/// Each parameter rendered, in the order given.
pub open spec fn param_entries(params: Seq<(String, JsonValue)>) -> Seq<(Seq<char>, Seq<char>)>
    decreases params.len(),
{
    if params.len() == 0 {
        Seq::empty()
    } else {
        param_entries(params.drop_last()).push(param_entry(params.last().0@, params.last().1))
    }
}

/// Texts put one after the other.
pub open spec fn concat_texts(parts: Seq<Seq<char>>) -> Seq<char>
    decreases parts.len(),
{
    if parts.len() == 0 {
        Seq::empty()
    } else {
        concat_texts(parts.drop_last()) + parts.last()
    }
}

/// The text that stands for the parameters of a run in a cache key: each
/// `key=value;`, by increasing key.
pub open spec fn params_key(params: Seq<(String, JsonValue)>) -> Seq<char> {
    concat_texts(texts_of(sort_by_key(param_entries(params))))
}

/// The parameters of a run as one text, for the cache key.
pub fn hash_params(params: &Vec<(String, JsonValue)>) -> (r: String)
    ensures
        r@ == params_key(params@),
{
    let mut sorted: Vec<(Vec<char>, String)> = Vec::new();
    let mut i: usize = 0;
    while i < params.len()
        invariant
            i <= params.len(),
            pairs_view(sorted@) == sort_by_key(param_entries(params@.take(i as int))),
        decreases params.len() - i,
    {
        let key = chars_of(params[i].0.as_str());
        let mut text = params[i].0.clone();
        push_str(&mut text, "=");
        let v = canonical_json(&params[i].1);
        push_str(&mut text, v.as_str());
        push_str(&mut text, ";");
        proof {
            assert(params@.take(i + 1).drop_last() =~= params@.take(i as int));
            assert(text@ =~= param_entry(params@[i as int].0@, params@[i as int].1).1);
            let pe = param_entries(params@.take(i + 1));
            assert(pe.drop_last() =~= param_entries(params@.take(i as int)));
            assert(pe.last() == (key@, text@));
        }
        insert_sorted(&mut sorted, (key, text));
        i = i + 1;
    }
    assert(params@.take(params.len() as int) =~= params@);
    let mut r = String::new();
    let mut k: usize = 0;
    while k < sorted.len()
        invariant
            k <= sorted.len(),
            r@ == concat_texts(texts_of(pairs_view(sorted@)).take(k as int)),
        decreases sorted.len() - k,
    {
        proof {
            let t = texts_of(pairs_view(sorted@));
            assert(t.take(k + 1).drop_last() =~= t.take(k as int));
            assert(t[k as int] == sorted@[k as int].1@);
        }
        push_str(&mut r, sorted[k].1.as_str());
        k = k + 1;
    }
    assert(texts_of(pairs_view(sorted@)).take(k as int) =~= texts_of(pairs_view(sorted@)));
    r
}

/// A cached answer is still good while its age is under its lifetime.
pub fn cache_entry_live(age_ns: u64, ttl_ns: u64) -> (r: bool)
    ensures
        r == (age_ns < ttl_ns),
{
    age_ns < ttl_ns
}

/// Key of the response cache: one call of a transform.
#[derive(Debug, Clone, PartialEq, Eq, Hash)]
pub struct CacheKey {
    pub transform_id: String,
    pub entity_kind: String,
    pub canonical_value: String,
    pub params_hash: String,
}

/// The cache key of a node's call: its transform, the kind and value of its
/// entity, and its parameters.
pub fn node_cache_key(transform_id: &String, input: &TransformInput) -> (r: CacheKey)
    ensures
        r.transform_id@ == transform_id@,
        r.entity_kind@ == kind_name(input.entity.kind),
        r.canonical_value@ == input.entity.canonical_value@,
        r.params_hash@ == params_key(input.params@),
{
    CacheKey {
        transform_id: transform_id.clone(),
        entity_kind: String::from_str(input.entity.kind.name()),
        canonical_value: input.entity.canonical_value.clone(),
        params_hash: hash_params(&input.params),
    }
}

} // verus!
