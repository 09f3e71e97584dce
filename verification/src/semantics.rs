//! What a batch computes: that the plan of buffers lets every node find the
//! values of its operands, whatever the kernels do.
//!
//! The values themselves are computed on the device. Here they are whatever
//! a function `apply` makes of an operation and the values of its operands;
//! the memory of the device is a map from buffers to values; and running a
//! plan means that every planned node, in the order of computation, reads
//! the buffers of its operands and writes what `apply` gives to its own.

use vstd::prelude::*;
use crate::compile::{compiled_as, node_buffers, CompiledOp, Executable};
use crate::gpu_buffer::{GPUBuffer, PoolEntry};
use crate::graph::{node_ok, src_index, Graph, Inner};
use crate::lazy_op::LazyOp;
use crate::planner::{
    available_before, inplace_at, lemma_needed_earlier, lemma_operands_have_buffers,
    needed_from, plan_ctx, planned_at, planned_upto, safe_at, used_at,
};
use crate::resolve::{buffers_of, dispatched_at, work};
use crate::schedule::{execution_order, lemma_execution_order, lemma_reaches_device, placed_before};
use crate::storage::{Device, Storage};
use crate::tensor_id::TensorId;

verus! {

/// The value of node `i`: the value that it was given, for a node that
/// holds data, and otherwise what `apply` makes of the node's operation and
/// the values of its operands.
pub open spec fn value_of<V>(
    apply: spec_fn(LazyOp, Seq<V>) -> V,
    given: spec_fn(int) -> V,
    nodes: Seq<Inner>,
    i: int,
) -> V
    decreases i, 1int, 0int,
{
    if nodes[i].op is Const {
        given(i)
    } else {
        apply(
            nodes[i].op,
            operand_values(apply, given, nodes, i, nodes[i].op.spec_srcs().len() as int),
        )
    }
}

/// The values of the first `k` operands of node `i`.
pub open spec fn operand_values<V>(
    apply: spec_fn(LazyOp, Seq<V>) -> V,
    given: spec_fn(int) -> V,
    nodes: Seq<Inner>,
    i: int,
    k: int,
) -> Seq<V>
    decreases i, 0int, k,
{
    if k <= 0 {
        Seq::empty()
    } else if 0 <= src_index(nodes, i, k - 1) < i {
        operand_values(apply, given, nodes, i, k - 1).push(
            value_of(apply, given, nodes, src_index(nodes, i, k - 1)),
        )
    } else {
        operand_values(apply, given, nodes, i, k - 1).push(given(i))
    }
}

/// The place of the buffer of node `v` in the memory of the device.
pub open spec fn place_of(bufs: Seq<Option<GPUBuffer>>, v: int) -> int {
    bufs[v]->Some_0.inner.index as int
}

/// What the node at place `p` of `order` reads: the contents of the buffers
/// of its operands, in the order of the operands.
pub open spec fn inputs_at<V>(
    nodes: Seq<Inner>,
    order: Seq<TensorId>,
    bufs: Seq<Option<GPUBuffer>>,
    memory: Map<int, V>,
    p: int,
) -> Seq<V> {
    let u = order[p].index as int;
    Seq::new(nodes[u].op.spec_srcs().len(), |k: int| memory[place_of(bufs, src_index(nodes, u, k))])
}

/// The memory of the device when the planned nodes before place `p` of
/// `order` have run on the memory `start`, each reading the buffers of its
/// operands and writing to its own.
pub open spec fn run_upto<V>(
    apply: spec_fn(LazyOp, Seq<V>) -> V,
    nodes: Seq<Inner>,
    storages: Seq<Option<Storage>>,
    order: Seq<TensorId>,
    bufs: Seq<Option<GPUBuffer>>,
    start: Map<int, V>,
    p: int,
) -> Map<int, V>
    decreases p,
{
    if p <= 0 {
        start
    } else {
        let before = run_upto(apply, nodes, storages, order, bufs, start, p - 1);
        if planned_at(storages, order, p - 1) {
            before.insert(
                place_of(bufs, order[p - 1].index as int),
                apply(
                    nodes[order[p - 1].index as int].op,
                    inputs_at(nodes, order, bufs, before, p - 1),
                ),
            )
        } else {
            before
        }
    }
}

/// Whether `memory` holds, when the nodes before place `p` of `order` have
/// run, the value of every node that has its value by then and is still
/// needed, in the buffer of the node.
pub open spec fn holds_values<V>(
    apply: spec_fn(LazyOp, Seq<V>) -> V,
    given: spec_fn(int) -> V,
    nodes: Seq<Inner>,
    storages: Seq<Option<Storage>>,
    handles: Seq<usize>,
    order: Seq<TensorId>,
    bufs: Seq<Option<GPUBuffer>>,
    memory: Map<int, V>,
    p: int,
) -> bool {
    forall|v: int|
        0 <= v < nodes.len() && (#[trigger] bufs[v]) is Some && available_before(
            storages,
            order,
            p,
            v,
        ) && needed_from(nodes, storages, handles, order, p, v) ==> memory.contains_key(
            place_of(bufs, v),
        ) && memory[place_of(bufs, v)] == value_of(apply, given, nodes, v)
}

/// The values of the operands of a node are the values of the nodes that
/// are its operands.
pub proof fn lemma_operand_values<V>(
    apply: spec_fn(LazyOp, Seq<V>) -> V,
    given: spec_fn(int) -> V,
    nodes: Seq<Inner>,
    i: int,
    k: int,
)
    requires
        0 <= i < nodes.len(),
        node_ok(nodes, i),
        0 <= k <= nodes[i].op.spec_srcs().len(),
    ensures
        operand_values(apply, given, nodes, i, k) == Seq::new(
            k as nat,
            |j: int| value_of(apply, given, nodes, src_index(nodes, i, j)),
        ),
    decreases k,
{
    if k > 0 {
        lemma_operand_values(apply, given, nodes, i, k - 1);
        assert(0 <= src_index(nodes, i, k - 1) < i);
    }
    assert(operand_values(apply, given, nodes, i, k) =~= Seq::new(
        k as nat,
        |j: int| value_of(apply, given, nodes, src_index(nodes, i, j)),
    ));
}

/// The sequence of `x` and `y`.
pub open spec fn pair<V>(x: V, y: V) -> Seq<V> {
    Seq::empty().push(x).push(y)
}

/// Operands in the other order give the same value, for an operation whose
/// kernel does not depend on the order: where node `first` applies `op` to
/// the nodes `a` and `b` and node `second` applies it to `b` and `a`, and
/// `apply` gives the same for the operation on two values in either order,
/// the two nodes have one value.
pub proof fn lemma_commuted_operands<V>(
    apply: spec_fn(LazyOp, Seq<V>) -> V,
    given: spec_fn(int) -> V,
    nodes: Seq<Inner>,
    first: int,
    second: int,
)
    requires
        0 <= first < nodes.len(),
        0 <= second < nodes.len(),
        node_ok(nodes, first),
        node_ok(nodes, second),
        nodes[first].op matches LazyOp::Binary(f) && nodes[second].op matches LazyOp::Binary(s)
            && f.op == s.op && f.lhs == s.rhs && f.rhs == s.lhs,
        forall|x: V, y: V|
            apply(nodes[first].op, #[trigger] pair(x, y)) == apply(nodes[second].op, pair(y, x)),
    ensures
        value_of(apply, given, nodes, first) == value_of(apply, given, nodes, second),
{
    lemma_operand_values(apply, given, nodes, first, 2);
    lemma_operand_values(apply, given, nodes, second, 2);
    let a = value_of(apply, given, nodes, src_index(nodes, first, 0));
    let b = value_of(apply, given, nodes, src_index(nodes, first, 1));
    assert(operand_values(apply, given, nodes, first, 2) =~= pair(a, b));
    assert(operand_values(apply, given, nodes, second, 2) =~= pair(b, a));
}

/// A batch computes what it is planned for. Let the memory of the device
/// hold, before the batch, the value of every node that has storage and is
/// still needed. Then, when the planned nodes before any place `p` of the
/// order have run, the memory holds the value of every node that has its
/// value by then and is still needed: every node finds the values of its
/// operands, and after the batch every node whose value may still be asked
/// for holds it.
#[verifier::rlimit(50)]
pub proof fn lemma_batch_computes<V>(
    apply: spec_fn(LazyOp, Seq<V>) -> V,
    given: spec_fn(int) -> V,
    nodes: Seq<Inner>,
    storages: Seq<Option<Storage>>,
    handles: Seq<usize>,
    order: Seq<TensorId>,
    bufs: Seq<Option<GPUBuffer>>,
    pool: Seq<PoolEntry>,
    start: Map<int, V>,
    p: int,
)
    requires
        plan_ctx(nodes, storages, handles, order),
        planned_upto(nodes, storages, handles, order, order.len() as int, bufs, pool),
        holds_values(apply, given, nodes, storages, handles, order, bufs, start, 0),
        0 <= p <= order.len(),
    ensures
        holds_values(
            apply,
            given,
            nodes,
            storages,
            handles,
            order,
            bufs,
            run_upto(apply, nodes, storages, order, bufs, start, p),
            p,
        ),
    decreases p,
{
    if p > 0 {
        let q = p - 1;
        lemma_batch_computes(apply, given, nodes, storages, handles, order, bufs, pool, start, q);
        let before = run_upto(apply, nodes, storages, order, bufs, start, q);
        let after = run_upto(apply, nodes, storages, order, bufs, start, p);
        let u = order[q].index as int;
        assert(node_ok(nodes, u));
        if planned_at(storages, order, q) {
            assert(safe_at(nodes, storages, handles, order, bufs, q));
            let read = inputs_at(nodes, order, bufs, before, q);
            let n = nodes[u].op.spec_srcs().len() as int;
            assert(read =~= operand_values(apply, given, nodes, u, n)) by {
                lemma_operand_values(apply, given, nodes, u, n);
                assert forall|k: int| 0 <= k < n implies read[k] == value_of(
                    apply,
                    given,
                    nodes,
                    src_index(nodes, u, k),
                ) by {
                    let s = src_index(nodes, u, k);
                    lemma_operands_have_buffers(nodes, storages, handles, order, bufs, pool, q, k);
                    assert(placed_before(order, q, src_index(nodes, order[q].index as int, k)));
                    assert(used_at(nodes, storages, order, q, s));
                    assert(bufs[s] is Some);
                }
            }
            assert(!(nodes[u].op is Const)) by {
                assert(crate::graph::slot_ok(nodes, storages, u));
            }
            assert forall|v: int|
                0 <= v < nodes.len() && (#[trigger] bufs[v]) is Some && available_before(
                    storages,
                    order,
                    p,
                    v,
                ) && needed_from(nodes, storages, handles, order, p, v) implies after.contains_key(
                place_of(bufs, v),
            ) && after[place_of(bufs, v)] == value_of(apply, given, nodes, v) by {
                if v != u {
                    lemma_needed_earlier(nodes, storages, handles, order, q, v);
                    if !(storages[v] is Some) {
                        let r = choose|r: int| 0 <= r < p && (#[trigger] order[r]).index == v;
                        if r == q {
                            assert(false);
                        }
                        assert(placed_before(order, q, v));
                    }
                    if inplace_at(nodes, storages, handles, order, q) && v == src_index(
                        nodes,
                        u,
                        0,
                    ) {
                        assert(false);
                    }
                    assert(bufs[v]->Some_0.inner != bufs[u]->Some_0.inner);
                }
            }
        } else {
            assert forall|v: int|
                0 <= v < nodes.len() && (#[trigger] bufs[v]) is Some && available_before(
                    storages,
                    order,
                    p,
                    v,
                ) && needed_from(nodes, storages, handles, order, p, v) implies after.contains_key(
                place_of(bufs, v),
            ) && after[place_of(bufs, v)] == value_of(apply, given, nodes, v) by {
                lemma_needed_earlier(nodes, storages, handles, order, q, v);
                if !(storages[v] is Some) {
                    let r = choose|r: int| 0 <= r < p && (#[trigger] order[r]).index == v;
                    if r == q {
                        assert(false);
                    }
                    assert(placed_before(order, q, v));
                }
            }
        }
    }
}

/// What a dispatch reads: the contents of its first buffers, one for each
/// operand of its node.
pub open spec fn step_inputs<V>(nodes: Seq<Inner>, step: CompiledOp, memory: Map<int, V>) -> Seq<V> {
    Seq::new(
        nodes[step.node.index as int].op.spec_srcs().len(),
        |k: int| memory[step.buffers@[k].index as int],
    )
}

/// The buffer that a dispatch writes to: its first where it works in place,
/// its last otherwise.
pub open spec fn step_output(step: CompiledOp) -> int {
    if step.inplace {
        step.buffers@[0].index as int
    } else {
        step.buffers@.last().index as int
    }
}

/// The memory of the device when the first `k` dispatches of a batch have
/// run on the memory `start`, in their order.
pub open spec fn run_steps<V>(
    apply: spec_fn(LazyOp, Seq<V>) -> V,
    nodes: Seq<Inner>,
    steps: Seq<CompiledOp>,
    start: Map<int, V>,
    k: int,
) -> Map<int, V>
    decreases k,
{
    if k <= 0 {
        start
    } else {
        let before = run_steps(apply, nodes, steps, start, k - 1);
        before.insert(
            step_output(steps[k - 1]),
            apply(nodes[steps[k - 1].node.index as int].op, step_inputs(nodes, steps[k - 1], before)),
        )
    }
}

/// The list of work grows with the places: the work before a place is the
/// start of the work before a later place.
pub proof fn lemma_work_grows(
    nodes: Seq<Inner>,
    storages: Seq<Option<Storage>>,
    order: Seq<TensorId>,
    p: int,
    later: int,
)
    requires
        0 <= p <= later,
    ensures
        work(nodes, storages, order, p).len() <= work(nodes, storages, order, later).len(),
        forall|k: int|
            0 <= k < work(nodes, storages, order, p).len() ==> work(nodes, storages, order, later)[k]
                == work(nodes, storages, order, p)[k],
    decreases later - p,
{
    if p < later {
        lemma_work_grows(nodes, storages, order, p, later - 1);
    }
}

/// The dispatches of a batch run the plan: where every planned node has
/// elements, running the dispatches of the batch in their order, each on the
/// buffers that it names, is running the planned nodes in the order of
/// computation.
#[verifier::rlimit(50)]
pub proof fn lemma_steps_run_the_plan<V>(
    apply: spec_fn(LazyOp, Seq<V>) -> V,
    before: &Graph,
    after: &Graph,
    order: Seq<TensorId>,
    exec: Executable,
    start: Map<int, V>,
    p: int,
)
    requires
        plan_ctx(before.nodes(), before.storages(), before.handles(), order),
        after.resolved_from(before, order, exec),
        forall|q: int|
            0 <= q < order.len() && #[trigger] planned_at(before.storages(), order, q)
                ==> before.nodes()[order[q].index as int].view@.numel() > 0,
        0 <= p <= order.len(),
    ensures
        run_steps(
            apply,
            before.nodes(),
            exec.steps@,
            start,
            work(before.nodes(), before.storages(), order, p).len() as int,
        ) == run_upto(
            apply,
            before.nodes(),
            before.storages(),
            order,
            buffers_of(after.storages()),
            start,
            p,
        ),
    decreases p,
{
    let nodes = before.nodes();
    let storages = before.storages();
    let handles = before.handles();
    let bufs = buffers_of(after.storages());
    if p > 0 {
        let q = p - 1;
        lemma_steps_run_the_plan(apply, before, after, order, exec, start, q);
        lemma_work_grows(nodes, storages, order, p, order.len() as int);
        if planned_at(storages, order, q) {
            assert(dispatched_at(nodes, storages, order, q));
            let k = work(nodes, storages, order, q).len() as int;
            let places = work(nodes, storages, order, order.len() as int);
            assert(work(nodes, storages, order, p)[k] == q);
            assert(places[k] == q);
            let step = exec.steps@[k];
            let u = order[q].index as int;
            let inplace = inplace_at(nodes, storages, handles, order, q);
            assert(compiled_as(after.gpu(), nodes, bufs, exec.uniform@, step, u, inplace, k));
            assert(step.buffers@ == node_buffers(nodes, bufs, u, inplace));
            assert(node_ok(nodes, u));
            let memory = run_upto(apply, nodes, storages, order, bufs, start, q);
            assert(step_inputs(nodes, step, memory) =~= inputs_at(nodes, order, bufs, memory, q));
            assert(step_output(step) == place_of(bufs, u)) by {
                if inplace {
                    assert(nodes[u].op.spec_srcs().len() >= 1);
                }
            }
        }
    }
}

/// Resolving hands out a batch that computes what was asked for. Let `after`
/// be the graph that resolving `root` in `before` gave, with the batch
/// `exec`; let every node that the batch computes have elements; and let the
/// memory of the device hold, before the batch, the value of every node
/// that had storage and was still needed. Then, when the dispatches of the
/// batch have run in their order, the memory holds, in the buffer of the
/// node, the value of every node that `root` depends on and that is still
/// needed afterwards, and that of every other node that was needed and had
/// its value before.
pub proof fn lemma_resolve_computes<V>(
    apply: spec_fn(LazyOp, Seq<V>) -> V,
    given: spec_fn(int) -> V,
    before: &Graph,
    after: &Graph,
    root: TensorId,
    exec: Executable,
    start: Map<int, V>,
)
    requires
        before.wf(),
        before.nodes().len() <= usize::MAX,
        before.has(root),
        before.nodes()[root.index as int].device == Device::GPU,
        after.resolved_from(before, execution_order(before.nodes(), root), exec),
        forall|q: int|
            0 <= q < execution_order(before.nodes(), root).len() && #[trigger] planned_at(
                before.storages(),
                execution_order(before.nodes(), root),
                q,
            ) ==> before.nodes()[execution_order(before.nodes(), root)[q].index as int].view@.numel()
                > 0,
        holds_values(
            apply,
            given,
            before.nodes(),
            before.storages(),
            before.handles(),
            execution_order(before.nodes(), root),
            buffers_of(after.storages()),
            start,
            0,
        ),
    ensures
        holds_values(
            apply,
            given,
            before.nodes(),
            before.storages(),
            before.handles(),
            execution_order(before.nodes(), root),
            buffers_of(after.storages()),
            run_steps(apply, before.nodes(), exec.steps@, start, exec.steps@.len() as int),
            execution_order(before.nodes(), root).len() as int,
        ),
{
    let nodes = before.nodes();
    let order = execution_order(nodes, root);
    let n = order.len() as int;
    lemma_execution_order(nodes, root);
    assert forall|p: int| 0 <= p < order.len() implies (#[trigger] nodes[order[p].index as int]).device
        == Device::GPU by {
        assert(order.contains(order[p]));
        lemma_reaches_device(nodes, root.index as int, order[p].index as int);
    }
    assert(plan_ctx(nodes, before.storages(), before.handles(), order));
    lemma_steps_run_the_plan(apply, before, after, order, exec, start, n);
    lemma_batch_computes(
        apply,
        given,
        nodes,
        before.storages(),
        before.handles(),
        order,
        buffers_of(after.storages()),
        after.pool(),
        start,
        n,
    );
}

} // verus!
