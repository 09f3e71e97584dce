//! The order in which the nodes of a graph are computed: a depth-first walk
//! from the root that puts every node behind its operands.

use vstd::prelude::*;
use crate::graph::{node_ok, src_index, Graph, Inner};
use crate::pool::distinct;
use crate::tensor_id::TensorId;

verus! {

/// The identity of the node at place `v`.
pub open spec fn id_of(v: int) -> TensorId {
    TensorId { index: v as usize }
}

/// The walk from node `v`, continued after `acc`: a node that the walk has
/// seen is skipped; otherwise its operands are walked, in their order, and
/// then the node is put at the end.
pub open spec fn visit(nodes: Seq<Inner>, v: int, acc: Seq<TensorId>) -> Seq<TensorId>
    decreases v, 1int, 0int,
{
    if acc.contains(id_of(v)) {
        acc
    } else {
        visit_srcs(nodes, v, 0, acc).push(id_of(v))
    }
}

/// The walks from the operands of node `v`, from operand `k` on, continued
/// after `acc`.
pub open spec fn visit_srcs(nodes: Seq<Inner>, v: int, k: int, acc: Seq<TensorId>) -> Seq<TensorId>
    decreases v, 0int, nodes[v].op.spec_srcs().len() - k,
{
    if k < 0 || k >= nodes[v].op.spec_srcs().len() {
        acc
    } else if 0 <= src_index(nodes, v, k) < v {
        visit_srcs(nodes, v, k + 1, visit(nodes, src_index(nodes, v, k), acc))
    } else {
        visit_srcs(nodes, v, k + 1, acc)
    }
}

/// The order in which the nodes that `root` depends on are computed, `root`
/// last.
pub open spec fn execution_order(nodes: Seq<Inner>, root: TensorId) -> Seq<TensorId> {
    visit(nodes, root.index as int, Seq::empty())
}

/// Whether node `b` is node `a` or one of the nodes that `a` depends on.
pub open spec fn reaches(nodes: Seq<Inner>, a: int, b: int) -> bool
    decreases a,
{
    a == b || exists|k: int|
        0 <= k < nodes[a].op.spec_srcs().len() && 0 <= #[trigger] src_index(nodes, a, k) < a
            && reaches(nodes, src_index(nodes, a, k), b)
}

/// Whether node `s` stands in `order` before place `p`.
pub open spec fn placed_before(order: Seq<TensorId>, p: int, s: int) -> bool {
    exists|q: int| 0 <= q < p && (#[trigger] order[q]).index == s
}

/// Every operand of a node of `order` stands in `order` before the node.
pub open spec fn sources_first(nodes: Seq<Inner>, order: Seq<TensorId>) -> bool {
    forall|p: int, k: int|
        0 <= p < order.len() && 0 <= k < nodes[order[p].index as int].op.spec_srcs().len()
            ==> placed_before(order, p, #[trigger] src_index(nodes, order[p].index as int, k))
}

/// Every entry of `order` names a node.
pub open spec fn ids_valid(nodes: Seq<Inner>, order: Seq<TensorId>) -> bool {
    forall|p: int| 0 <= p < order.len() ==> (#[trigger] order[p]).index < nodes.len()
}

/// `order` is a part of a valid order of computation: its entries name
/// nodes, none of them twice, and each stands behind its operands.
pub open spec fn well_ordered(nodes: Seq<Inner>, order: Seq<TensorId>) -> bool {
    &&& ids_valid(nodes, order)
    &&& distinct(order)
    &&& sources_first(nodes, order)
}

/// Every node of the graph is what a node must be.
pub open spec fn nodes_ok(nodes: Seq<Inner>) -> bool {
    forall|i: int| 0 <= i < nodes.len() ==> #[trigger] node_ok(nodes, i)
}

/// A node depends only on nodes that stand at or before its own place.
pub proof fn lemma_reaches_below(nodes: Seq<Inner>, a: int, b: int)
    requires
        reaches(nodes, a, b),
        0 <= a,
    ensures
        0 <= b <= a,
    decreases a,
{
    if a != b {
        let k = choose|k: int|
            0 <= k < nodes[a].op.spec_srcs().len() && 0 <= #[trigger] src_index(nodes, a, k) < a
                && reaches(nodes, src_index(nodes, a, k), b);
        lemma_reaches_below(nodes, src_index(nodes, a, k), b);
    }
}

/// All that a node depends on lives on the node's device.
pub proof fn lemma_reaches_device(nodes: Seq<Inner>, a: int, b: int)
    requires
        nodes_ok(nodes),
        0 <= a < nodes.len(),
        reaches(nodes, a, b),
    ensures
        nodes[b].device == nodes[a].device,
    decreases a,
{
    if a != b {
        let k = choose|k: int|
            0 <= k < nodes[a].op.spec_srcs().len() && 0 <= #[trigger] src_index(nodes, a, k) < a
                && reaches(nodes, src_index(nodes, a, k), b);
        assert(node_ok(nodes, a));
        lemma_reaches_device(nodes, src_index(nodes, a, k), b);
    }
}

/// An order that holds a node and puts operands first holds all that the
/// node depends on.
pub proof fn lemma_closed_contains(nodes: Seq<Inner>, order: Seq<TensorId>, a: int, b: int)
    requires
        sources_first(nodes, order),
        order.contains(id_of(a)),
        0 <= a <= usize::MAX,
        reaches(nodes, a, b),
    ensures
        order.contains(id_of(b)),
    decreases a,
{
    if a != b {
        let k = choose|k: int|
            0 <= k < nodes[a].op.spec_srcs().len() && 0 <= #[trigger] src_index(nodes, a, k) < a
                && reaches(nodes, src_index(nodes, a, k), b);
        let s = src_index(nodes, a, k);
        let p = choose|p: int| 0 <= p < order.len() && order[p] == id_of(a);
        assert(placed_before(order, p, src_index(nodes, order[p].index as int, k)));
        let q = choose|q: int| 0 <= q < p && (#[trigger] order[q]).index == s;
        assert(order[q] == id_of(s));
        lemma_closed_contains(nodes, order, s, b);
    }
}

/// What the walk from one node adds to a well-ordered `acc`: the result is
/// well-ordered, starts with `acc`, holds the node, and holds beyond `acc`
/// only what the node depends on.
#[verifier::rlimit(50)]
pub proof fn lemma_visit(nodes: Seq<Inner>, v: int, acc: Seq<TensorId>)
    requires
        nodes_ok(nodes),
        0 <= v < nodes.len(),
        nodes.len() <= usize::MAX,
        well_ordered(nodes, acc),
    ensures
        well_ordered(nodes, visit(nodes, v, acc)),
        acc.len() <= visit(nodes, v, acc).len(),
        visit(nodes, v, acc).take(acc.len() as int) == acc,
        visit(nodes, v, acc).contains(id_of(v)),
        forall|t: TensorId| #[trigger]
            visit(nodes, v, acc).contains(t) ==> acc.contains(t) || reaches(
                nodes,
                v,
                t.index as int,
            ),
    decreases v, 1int, 0int,
{
    let r = visit(nodes, v, acc);
    if acc.contains(id_of(v)) {
        assert(r.take(acc.len() as int) =~= acc);
    } else {
        let r0 = visit_srcs(nodes, v, 0, acc);
        lemma_visit_srcs(nodes, v, 0, acc);
        assert(r == r0.push(id_of(v)));
        assert(r.take(acc.len() as int) =~= r0.take(acc.len() as int));
        assert(r[r0.len() as int] == id_of(v));
        assert(!r0.contains(id_of(v))) by {
            if r0.contains(id_of(v)) {
                let m = choose|m: int|
                    0 <= m < nodes[v].op.spec_srcs().len() && reaches(
                        nodes,
                        #[trigger] src_index(nodes, v, m),
                        id_of(v).index as int,
                    );
                assert(node_ok(nodes, v));
                lemma_reaches_below(nodes, src_index(nodes, v, m), v);
            }
        }
        assert(distinct(r)) by {
            assert forall|i: int, j: int| 0 <= i < j < r.len() implies r[i] != r[j] by {
                if j == r0.len() {
                    assert(r0[i] == r[i]);
                    assert(r0.contains(r[i]));
                } else {
                    assert(r0[i] != r0[j]);
                }
            }
        }
        assert(sources_first(nodes, r)) by {
            assert forall|p: int, k: int|
                0 <= p < r.len() && 0 <= k < nodes[r[p].index as int].op.spec_srcs().len() implies placed_before(
                r,
                p,
                #[trigger] src_index(nodes, r[p].index as int, k),
            ) by {
                let s = src_index(nodes, r[p].index as int, k);
                if p < r0.len() {
                    assert(r[p] == r0[p]);
                    assert(placed_before(r0, p, src_index(nodes, r0[p].index as int, k)));
                    let q = choose|q: int| 0 <= q < p && (#[trigger] r0[q]).index == s;
                    assert(r[q].index == s);
                } else {
                    assert(node_ok(nodes, v));
                    assert(0 <= src_index(nodes, v, k) < v);
                    assert(r0.contains(id_of(src_index(nodes, v, k))));
                    let q = choose|q: int|
                        0 <= q < r0.len() && r0[q] == id_of(src_index(nodes, v, k));
                    assert(r[q].index == s);
                }
            }
        }
        assert forall|t: TensorId| #[trigger] r.contains(t) implies acc.contains(t) || reaches(
            nodes,
            v,
            t.index as int,
        ) by {
            let i = choose|i: int| 0 <= i < r.len() && r[i] == t;
            if i < r0.len() {
                assert(r0[i] == t);
                assert(r0.contains(t));
                if !acc.contains(t) {
                    let m = choose|m: int|
                        0 <= m < nodes[v].op.spec_srcs().len() && reaches(
                            nodes,
                            #[trigger] src_index(nodes, v, m),
                            t.index as int,
                        );
                    assert(node_ok(nodes, v));
                    assert(0 <= src_index(nodes, v, m) < v);
                }
            }
        }
    }
}

/// What the walks from the operands of a node, from operand `k` on, add to
/// a well-ordered `acc`.
#[verifier::rlimit(50)]
pub proof fn lemma_visit_srcs(nodes: Seq<Inner>, v: int, k: int, acc: Seq<TensorId>)
    requires
        nodes_ok(nodes),
        0 <= v < nodes.len(),
        nodes.len() <= usize::MAX,
        0 <= k <= nodes[v].op.spec_srcs().len(),
        well_ordered(nodes, acc),
    ensures
        well_ordered(nodes, visit_srcs(nodes, v, k, acc)),
        acc.len() <= visit_srcs(nodes, v, k, acc).len(),
        visit_srcs(nodes, v, k, acc).take(acc.len() as int) == acc,
        forall|m: int|
            k <= m < nodes[v].op.spec_srcs().len() ==> visit_srcs(nodes, v, k, acc).contains(
                id_of(#[trigger] src_index(nodes, v, m)),
            ),
        forall|t: TensorId| #[trigger]
            visit_srcs(nodes, v, k, acc).contains(t) ==> acc.contains(t) || exists|m: int|
                0 <= m < nodes[v].op.spec_srcs().len() && reaches(
                    nodes,
                    #[trigger] src_index(nodes, v, m),
                    t.index as int,
                ),
    decreases v, 0int, nodes[v].op.spec_srcs().len() - k,
{
    let r = visit_srcs(nodes, v, k, acc);
    if k >= nodes[v].op.spec_srcs().len() {
        assert(r.take(acc.len() as int) =~= acc);
    } else {
        assert(node_ok(nodes, v));
        let s = src_index(nodes, v, k);
        assert(0 <= s < v);
        let mid = visit(nodes, s, acc);
        lemma_visit(nodes, s, acc);
        lemma_visit_srcs(nodes, v, k + 1, mid);
        assert(r == visit_srcs(nodes, v, k + 1, mid));
        assert(r.take(acc.len() as int) =~= acc) by {
            assert(r.take(mid.len() as int) == mid);
            assert(mid.take(acc.len() as int) == acc);
            assert forall|i: int| 0 <= i < acc.len() implies r[i] == acc[i] by {
                assert(r.take(mid.len() as int)[i] == r[i]);
                assert(mid.take(acc.len() as int)[i] == mid[i]);
            }
        }
        assert forall|t: TensorId| mid.contains(t) implies r.contains(t) by {
            let i = choose|i: int| 0 <= i < mid.len() && mid[i] == t;
            assert(r.take(mid.len() as int)[i] == r[i]);
        }
        assert forall|m: int| k <= m < nodes[v].op.spec_srcs().len() implies r.contains(
            id_of(#[trigger] src_index(nodes, v, m)),
        ) by {
            if m == k {
                assert(mid.contains(id_of(s)));
            }
        }
        assert forall|t: TensorId| #[trigger] r.contains(t) implies acc.contains(t) || exists|
            m: int,
        |
            0 <= m < nodes[v].op.spec_srcs().len() && reaches(
                nodes,
                #[trigger] src_index(nodes, v, m),
                t.index as int,
            ) by {
            if mid.contains(t) && !acc.contains(t) {
                assert(reaches(nodes, src_index(nodes, v, k), t.index as int));
            }
        }
    }
}

/// In the order of computation of `root`, every node that `root` depends on
/// stands exactly once, every other node not at all, every operand stands
/// before the node that it is an operand of, and `root` is the last.
pub proof fn lemma_execution_order(nodes: Seq<Inner>, root: TensorId)
    requires
        nodes_ok(nodes),
        root.index < nodes.len(),
        nodes.len() <= usize::MAX,
    ensures
        well_ordered(nodes, execution_order(nodes, root)),
        execution_order(nodes, root).len() > 0,
        execution_order(nodes, root).last() == root,
        forall|t: TensorId|
            execution_order(nodes, root).contains(t) <==> t.index < nodes.len() && reaches(
                nodes,
                root.index as int,
                t.index as int,
            ),
{
    let order = execution_order(nodes, root);
    let v = root.index as int;
    let empty = Seq::<TensorId>::empty();
    assert(well_ordered(nodes, empty));
    lemma_visit(nodes, v, empty);
    assert(!empty.contains(id_of(v)));
    assert(order == visit_srcs(nodes, v, 0, empty).push(id_of(v)));
    assert(id_of(v) == root);
    assert forall|t: TensorId| order.contains(t) <==> t.index < nodes.len() && reaches(
        nodes,
        v,
        t.index as int,
    ) by {
        if order.contains(t) {
            assert(!empty.contains(t));
            let i = choose|i: int| 0 <= i < order.len() && order[i] == t;
            assert(order[i].index < nodes.len());
        }
        if t.index < nodes.len() && reaches(nodes, v, t.index as int) {
            lemma_closed_contains(nodes, order, v, t.index as int);
            assert(id_of(t.index as int) == t);
        }
    }
}

impl Graph {
    /// Walks from node `v`: appends to `order` the nodes that `v` depends on
    /// and that `seen` does not mark, operands first, and marks them.
    fn walk(&self, v: usize, seen: &mut Vec<bool>, order: &mut Vec<TensorId>)
        requires
            nodes_ok(self.nodes()),
            v < self.nodes().len(),
            self.nodes().len() <= usize::MAX,
            old(seen)@.len() == self.nodes().len(),
            forall|i: int|
                0 <= i < self.nodes().len() ==> (old(seen)@[i] <==> old(order)@.contains(id_of(i))),
        ensures
            final(order)@ == visit(self.nodes(), v as int, old(order)@),
            final(seen)@.len() == self.nodes().len(),
            forall|i: int|
                0 <= i < self.nodes().len() ==> (final(seen)@[i] <==> final(order)@.contains(
                    id_of(i),
                )),
        decreases v,
    {
        if seen[v] {
            return;
        }
        let srcs = self.node(TensorId { index: v }).op.srcs();
        let ghost start = order@;
        let ghost nodes = self.nodes();
        let mut k: usize = 0;
        while k < srcs.len()
            invariant
                k <= srcs.len(),
                nodes == self.nodes(),
                nodes_ok(nodes),
                v < nodes.len(),
                nodes.len() <= usize::MAX,
                srcs@ == nodes[v as int].op.spec_srcs(),
                seen@.len() == nodes.len(),
                forall|i: int| 0 <= i < nodes.len() ==> (seen@[i] <==> order@.contains(id_of(i))),
                visit_srcs(nodes, v as int, 0, start) == visit_srcs(nodes, v as int, k as int, order@),
            decreases srcs.len() - k,
        {
            let s = srcs[k].index;
            proof {
                assert(node_ok(nodes, v as int));
                assert(0 <= src_index(nodes, v as int, k as int) < v);
            }
            self.walk(s, seen, order);
            k += 1;
        }
        let ghost before = order@;
        order.push(TensorId { index: v });
        seen.set(v, true);
        proof {
            assert(order@ == visit(nodes, v as int, start));
            assert forall|i: int| 0 <= i < nodes.len() implies (seen@[i] <==> order@.contains(
                id_of(i),
            )) by {
                if i == v {
                    assert(order@[before.len() as int] == id_of(i));
                } else {
                    if before.contains(id_of(i)) {
                        let j = choose|j: int| 0 <= j < before.len() && before[j] == id_of(i);
                        assert(order@[j] == id_of(i));
                    }
                    if order@.contains(id_of(i)) {
                        let j = choose|j: int| 0 <= j < order@.len() && order@[j] == id_of(i);
                        assert(j < before.len());
                        assert(before[j] == id_of(i));
                    }
                }
            }
        }
    }

    /// The order in which the nodes that `root` depends on are computed:
    /// the depth-first walk from `root`, operands first, each node once.
    pub fn execution_order(&self, root: TensorId) -> (order: Vec<TensorId>)
        requires
            self.wf(),
            self.has(root),
        ensures
            order@ == execution_order(self.nodes(), root),
    {
        let n = self.len();
        let mut seen: Vec<bool> = Vec::new();
        let mut i: usize = 0;
        while i < n
            invariant
                i <= n,
                seen@.len() == i,
                forall|j: int| 0 <= j < i ==> !seen@[j],
            decreases n - i,
        {
            seen.push(false);
            i += 1;
        }
        let mut order: Vec<TensorId> = Vec::new();
        self.walk(root.index, &mut seen, &mut order);
        order
    }
}

} // verus!
