//! The allocation planner: which buffer each node of an order of computation
//! writes its result to.
//!
//! The planner walks the order once. A node whose operation may work in
//! place takes over the buffer of its first operand where nothing needs that
//! operand afterwards; every other node takes a buffer from the pool. When a
//! node has been planned, the buffers of the operands that nothing needs any
//! more go back to the pool, so that later nodes can have them.

use vstd::prelude::*;
use crate::error::{DeviceError, OperationError, TensorError};
use crate::gpu_buffer::{
    allocated, released, rounded_size, BufferDescriptor, BufferHandle, BufferPool, BufferUsage,
    GPUBuffer, PoolEntry,
};
use crate::graph::{
    backed, buffers_ok, gpu_buf, live, node_ok, pending_use, slot_ok, src_index, uses, Graph,
    Inner,
};
use crate::schedule::{id_of, ids_valid, nodes_ok, placed_before, well_ordered};
use crate::storage::{Device, Storage};
use crate::tensor_id::TensorId;

verus! {

/// Whether the node at place `p` of `order` is yet to be computed.
pub open spec fn planned_at(storages: Seq<Option<Storage>>, order: Seq<TensorId>, p: int) -> bool {
    0 <= p < order.len() && storages[order[p].index as int] is None
}

/// Whether the node at place `q` of `order` is yet to be computed and has
/// node `v` as an operand.
pub open spec fn used_at(
    nodes: Seq<Inner>,
    storages: Seq<Option<Storage>>,
    order: Seq<TensorId>,
    q: int,
    v: int,
) -> bool {
    planned_at(storages, order, q) && uses(nodes, order[q].index as int, v)
}

/// Whether a node at place `p` of `order` or later is yet to be computed and
/// has node `v` as an operand.
pub open spec fn used_from(
    nodes: Seq<Inner>,
    storages: Seq<Option<Storage>>,
    order: Seq<TensorId>,
    p: int,
    v: int,
) -> bool {
    exists|q: int| p <= q && #[trigger] used_at(nodes, storages, order, q, v)
}

/// Whether node `j` is yet to be computed, has node `v` as an operand, and
/// is not in `order`.
pub open spec fn outside_use(
    nodes: Seq<Inner>,
    storages: Seq<Option<Storage>>,
    order: Seq<TensorId>,
    j: int,
    v: int,
) -> bool {
    pending_use(nodes, storages, j, v) && !order.contains(id_of(j))
}

/// Whether the value of node `v` may be asked for after all of `order` has
/// been computed: someone holds a handle to it, or a node outside `order`
/// that is yet to be computed has it as an operand.
pub open spec fn escapes(
    nodes: Seq<Inner>,
    storages: Seq<Option<Storage>>,
    handles: Seq<usize>,
    order: Seq<TensorId>,
    v: int,
) -> bool {
    handles[v] > 0 || exists|j: int| #[trigger] outside_use(nodes, storages, order, j, v)
}

/// Whether the value of node `v` is needed when the nodes before place `p`
/// of `order` have been computed.
pub open spec fn needed_from(
    nodes: Seq<Inner>,
    storages: Seq<Option<Storage>>,
    handles: Seq<usize>,
    order: Seq<TensorId>,
    p: int,
    v: int,
) -> bool {
    escapes(nodes, storages, handles, order, v) || used_from(nodes, storages, order, p, v)
}

/// Whether the node at place `p` of `order` writes its result over its
/// first operand: its operation allows that, the operand is no other
/// operand of the node as well, nothing needs the operand afterwards, and
/// the operand fills as many bytes as the result.
pub open spec fn inplace_at(
    nodes: Seq<Inner>,
    storages: Seq<Option<Storage>>,
    handles: Seq<usize>,
    order: Seq<TensorId>,
    p: int,
) -> bool {
    let u = order[p].index as int;
    let srcs = nodes[u].op.spec_srcs();
    &&& nodes[u].op.spec_supports_inplace()
    &&& srcs.len() >= 1
    &&& forall|k: int| 1 <= k < srcs.len() ==> #[trigger] src_index(nodes, u, k) != src_index(
        nodes,
        u,
        0,
    )
    &&& !needed_from(nodes, storages, handles, order, p + 1, src_index(nodes, u, 0))
    &&& nodes[src_index(nodes, u, 0)].view@.num_bytes() == nodes[u].view@.num_bytes()
}

/// Why the node at place `p` of `order` cannot be planned, if it cannot: its
/// operation works in place only and its first operand cannot be written
/// over, or the node needs a buffer of a size that no buffer can have.
pub open spec fn fault_at(
    nodes: Seq<Inner>,
    storages: Seq<Option<Storage>>,
    handles: Seq<usize>,
    order: Seq<TensorId>,
    p: int,
) -> Option<TensorError> {
    if !planned_at(storages, order, p) || inplace_at(nodes, storages, handles, order, p) {
        None
    } else if nodes[order[p].index as int].op.spec_requires_inplace() {
        Some(TensorError::OperationError(OperationError::InplaceRequired))
    } else if rounded_size(nodes[order[p].index as int].view@.num_bytes()) > usize::MAX {
        Some(TensorError::DeviceError(DeviceError::AllocationFailed))
    } else {
        None
    }
}

/// The fault of the first node among those before place `p` of `order` that
/// cannot be planned, if there is one.
pub open spec fn first_fault(
    nodes: Seq<Inner>,
    storages: Seq<Option<Storage>>,
    handles: Seq<usize>,
    order: Seq<TensorId>,
    p: int,
) -> Option<TensorError>
    decreases p,
{
    if p <= 0 {
        None
    } else {
        match first_fault(nodes, storages, handles, order, p - 1) {
            Some(e) => Some(e),
            None => fault_at(nodes, storages, handles, order, p - 1),
        }
    }
}

/// Whether node `v` has its value before the node at place `p` of `order`
/// is computed: it had storage from the start, or it stands before `p`.
pub open spec fn available_before(
    storages: Seq<Option<Storage>>,
    order: Seq<TensorId>,
    p: int,
    v: int,
) -> bool {
    storages[v] is Some || placed_before(order, p, v)
}

/// The node at place `p` of `order` writes to a buffer that no other node
/// has whose value is there and is still needed, but for the operand that
/// the node writes over in place.
pub open spec fn safe_at(
    nodes: Seq<Inner>,
    storages: Seq<Option<Storage>>,
    handles: Seq<usize>,
    order: Seq<TensorId>,
    bufs: Seq<Option<GPUBuffer>>,
    p: int,
) -> bool {
    forall|v: int|
        0 <= v < nodes.len() && v != order[p].index && (#[trigger] bufs[v]) is Some
            && available_before(storages, order, p, v) && needed_from(
            nodes,
            storages,
            handles,
            order,
            p,
            v,
        ) && !(inplace_at(nodes, storages, handles, order, p) && v == src_index(
            nodes,
            order[p].index as int,
            0,
        )) ==> bufs[v]->Some_0.inner != bufs[order[p].index as int]->Some_0.inner
}

/// What the planner has settled when the nodes before place `p` of `order`
/// are planned: `bufs` holds the device buffer of every node that has one
/// by then, the buffers of the nodes that are still needed are taken in
/// `pool` and differ from one another, and every node planned so far writes
/// to a buffer of its size that it may write to.
pub open spec fn planned_upto(
    nodes: Seq<Inner>,
    storages: Seq<Option<Storage>>,
    handles: Seq<usize>,
    order: Seq<TensorId>,
    p: int,
    bufs: Seq<Option<GPUBuffer>>,
    pool: Seq<PoolEntry>,
) -> bool {
    &&& bufs.len() == nodes.len()
    &&& forall|v: int|
        0 <= v < nodes.len() && storages[v] is Some ==> #[trigger] bufs[v] == gpu_buf(storages[v])
    &&& forall|v: int|
        0 <= v < nodes.len() && storages[v] is None ==> ((#[trigger] bufs[v]) is Some
            <==> placed_before(order, p, v))
    &&& forall|v: int|
        0 <= v < nodes.len() && (#[trigger] bufs[v]) is Some && needed_from(
            nodes,
            storages,
            handles,
            order,
            p,
            v,
        ) ==> backed(pool, bufs[v]->Some_0)
    &&& forall|v: int, w: int|
        0 <= v < nodes.len() && 0 <= w < nodes.len() && v != w && (#[trigger] bufs[v]) is Some && (
        #[trigger] bufs[w]) is Some && needed_from(nodes, storages, handles, order, p, v)
            && needed_from(nodes, storages, handles, order, p, w) ==> bufs[v]->Some_0.inner
            != bufs[w]->Some_0.inner
    &&& forall|q: int|
        0 <= q < p && #[trigger] planned_at(storages, order, q) ==> {
            &&& bufs[order[q].index as int] matches Some(b)
            &&& b.size == nodes[order[q].index as int].view@.num_bytes()
            &&& b.alignment == nodes[order[q].index as int].view@.dt.spec_size_of()
            &&& inplace_at(nodes, storages, handles, order, q) ==> bufs[src_index(
                nodes,
                order[q].index as int,
                0,
            )] is Some && bufs[src_index(nodes, order[q].index as int, 0)]->Some_0.inner
                == b.inner
            &&& safe_at(nodes, storages, handles, order, bufs, q)
        }
}

/// The slots of the nodes when the plan has been carried out: a node keeps
/// the storage it had, and a node without storage gets the buffer that the
/// plan has for it.
pub open spec fn planned_storages(
    storages: Seq<Option<Storage>>,
    bufs: Seq<Option<GPUBuffer>>,
) -> Seq<Option<Storage>> {
    Seq::new(
        storages.len(),
        |v: int|
            if storages[v] is Some {
                storages[v]
            } else {
                match bufs[v] {
                    Some(b) => Some(Storage::GPU(b)),
                    None => None,
                }
            },
    )
}

/// What is needed later was needed before.
pub proof fn lemma_needed_earlier(
    nodes: Seq<Inner>,
    storages: Seq<Option<Storage>>,
    handles: Seq<usize>,
    order: Seq<TensorId>,
    p: int,
    v: int,
)
    requires
        needed_from(nodes, storages, handles, order, p + 1, v),
    ensures
        needed_from(nodes, storages, handles, order, p, v),
{
    if !escapes(nodes, storages, handles, order, v) {
        let q = choose|q: int| p + 1 <= q && #[trigger] used_at(nodes, storages, order, q, v);
        assert(used_at(nodes, storages, order, q, v));
    }
}

/// What is needed at the start of the plan is live in the graph.
pub proof fn lemma_needed_is_live(
    nodes: Seq<Inner>,
    storages: Seq<Option<Storage>>,
    handles: Seq<usize>,
    order: Seq<TensorId>,
    v: int,
)
    requires
        ids_valid(nodes, order),
        needed_from(nodes, storages, handles, order, 0, v),
    ensures
        live(nodes, storages, handles, v),
{
    if handles[v] == 0 {
        if escapes(nodes, storages, handles, order, v) {
            let j = choose|j: int| #[trigger] outside_use(nodes, storages, order, j, v);
            assert(pending_use(nodes, storages, j, v));
        } else {
            let q = choose|q: int| 0 <= q && #[trigger] used_at(nodes, storages, order, q, v);
            assert(pending_use(nodes, storages, order[q].index as int, v));
        }
    }
}

/// Before anything is planned, the plan is the state of the graph.
pub proof fn lemma_plan_start(
    nodes: Seq<Inner>,
    storages: Seq<Option<Storage>>,
    handles: Seq<usize>,
    order: Seq<TensorId>,
    bufs: Seq<Option<GPUBuffer>>,
    pool: Seq<PoolEntry>,
)
    requires
        storages.len() == nodes.len(),
        ids_valid(nodes, order),
        buffers_ok(nodes, storages, handles, pool),
        bufs.len() == nodes.len(),
        forall|v: int| 0 <= v < nodes.len() ==> #[trigger] bufs[v] == gpu_buf(storages[v]),
    ensures
        planned_upto(nodes, storages, handles, order, 0, bufs, pool),
{
    assert forall|v: int| 0 <= v < nodes.len() && storages[v] is None implies ((
    #[trigger] bufs[v]) is Some <==> placed_before(order, 0, v)) by {}
    assert forall|v: int|
        0 <= v < nodes.len() && (#[trigger] bufs[v]) is Some && needed_from(
            nodes,
            storages,
            handles,
            order,
            0,
            v,
        ) implies backed(pool, bufs[v]->Some_0) by {
        lemma_needed_is_live(nodes, storages, handles, order, v);
        assert(gpu_buf(storages[v]) is Some);
    }
    assert forall|v: int, w: int|
        0 <= v < nodes.len() && 0 <= w < nodes.len() && v != w && (#[trigger] bufs[v]) is Some && (
        #[trigger] bufs[w]) is Some && needed_from(nodes, storages, handles, order, 0, v)
            && needed_from(nodes, storages, handles, order, 0, w) implies bufs[v]->Some_0.inner
        != bufs[w]->Some_0.inner by {
        lemma_needed_is_live(nodes, storages, handles, order, v);
        lemma_needed_is_live(nodes, storages, handles, order, w);
        assert(gpu_buf(storages[v]) is Some);
        assert(gpu_buf(storages[w]) is Some);
    }
}

/// What the planner relies on: the graph is what a graph must be, `order`
/// is a valid order of computation in it, and all of its nodes live on the
/// GPU.
pub open spec fn plan_ctx(
    nodes: Seq<Inner>,
    storages: Seq<Option<Storage>>,
    handles: Seq<usize>,
    order: Seq<TensorId>,
) -> bool {
    &&& storages.len() == nodes.len()
    &&& handles.len() == nodes.len()
    &&& nodes.len() <= usize::MAX
    &&& nodes_ok(nodes)
    &&& well_ordered(nodes, order)
    &&& forall|i: int| 0 <= i < nodes.len() ==> #[trigger] slot_ok(nodes, storages, i)
    &&& forall|p: int|
        0 <= p < order.len() ==> (#[trigger] nodes[order[p].index as int]).device == Device::GPU
}

/// A node stands at one place of a valid order only.
pub proof fn lemma_one_place(nodes: Seq<Inner>, order: Seq<TensorId>, p: int, q: int)
    requires
        well_ordered(nodes, order),
        0 <= p < order.len(),
        0 <= q < order.len(),
        order[p].index == order[q].index,
    ensures
        p == q,
{
    if p < q {
        assert(order[p] != order[q]);
    } else if q < p {
        assert(order[q] != order[p]);
    }
}

/// A node that is yet to be computed and is not planned has no buffer.
pub proof fn lemma_unplanned_has_none(
    nodes: Seq<Inner>,
    storages: Seq<Option<Storage>>,
    handles: Seq<usize>,
    order: Seq<TensorId>,
    p: int,
    bufs: Seq<Option<GPUBuffer>>,
    pool: Seq<PoolEntry>,
)
    requires
        plan_ctx(nodes, storages, handles, order),
        planned_upto(nodes, storages, handles, order, p, bufs, pool),
        planned_at(storages, order, p),
    ensures
        bufs[order[p].index as int] is None,
{
    let u = order[p].index as int;
    if placed_before(order, p, u) {
        let q = choose|q: int| 0 <= q < p && (#[trigger] order[q]).index == u;
        lemma_one_place(nodes, order, p, q);
    }
}

/// An operand of the node at place `p` has its buffer when the nodes before
/// `p` are planned, and the buffer has the size of the operand.
pub proof fn lemma_operand_ready(
    nodes: Seq<Inner>,
    storages: Seq<Option<Storage>>,
    handles: Seq<usize>,
    order: Seq<TensorId>,
    p: int,
    bufs: Seq<Option<GPUBuffer>>,
    pool: Seq<PoolEntry>,
    k: int,
)
    requires
        plan_ctx(nodes, storages, handles, order),
        planned_upto(nodes, storages, handles, order, p, bufs, pool),
        planned_at(storages, order, p),
        0 <= k < nodes[order[p].index as int].op.spec_srcs().len(),
    ensures
        ({
            let s = src_index(nodes, order[p].index as int, k);
            &&& 0 <= s < order[p].index
            &&& bufs[s] is Some
            &&& bufs[s]->Some_0.size == nodes[s].view@.num_bytes()
            &&& needed_from(nodes, storages, handles, order, p, s)
            &&& backed(pool, bufs[s]->Some_0)
            &&& available_before(storages, order, p, s)
        }),
{
    let u = order[p].index as int;
    let s = src_index(nodes, u, k);
    assert(node_ok(nodes, u));
    assert(placed_before(order, p, src_index(nodes, order[p].index as int, k)));
    let q = choose|q: int| 0 <= q < p && (#[trigger] order[q]).index == s;
    assert(nodes[order[q].index as int].device == Device::GPU);
    assert(slot_ok(nodes, storages, s));
    if storages[s] is Some {
        assert(bufs[s] == gpu_buf(storages[s]));
    } else {
        assert(planned_at(storages, order, q));
    }
    assert(used_at(nodes, storages, order, p, s));
}

/// A node that is not planned changes nothing.
pub proof fn lemma_plan_skip(
    nodes: Seq<Inner>,
    storages: Seq<Option<Storage>>,
    handles: Seq<usize>,
    order: Seq<TensorId>,
    p: int,
    bufs: Seq<Option<GPUBuffer>>,
    pool: Seq<PoolEntry>,
)
    requires
        plan_ctx(nodes, storages, handles, order),
        planned_upto(nodes, storages, handles, order, p, bufs, pool),
        0 <= p < order.len(),
        !planned_at(storages, order, p),
    ensures
        planned_upto(nodes, storages, handles, order, p + 1, bufs, pool),
{
    assert forall|v: int| 0 <= v < nodes.len() && storages[v] is None implies ((
    #[trigger] bufs[v]) is Some <==> placed_before(order, p + 1, v)) by {
        if placed_before(order, p + 1, v) {
            let q = choose|q: int| 0 <= q < p + 1 && (#[trigger] order[q]).index == v;
            assert(q < p);
            assert(placed_before(order, p, v));
        }
        if placed_before(order, p, v) {
            let q = choose|q: int| 0 <= q < p && (#[trigger] order[q]).index == v;
            assert(placed_before(order, p + 1, v));
        }
    }
    assert forall|v: int|
        0 <= v < nodes.len() && (#[trigger] bufs[v]) is Some && needed_from(
            nodes,
            storages,
            handles,
            order,
            p + 1,
            v,
        ) implies backed(pool, bufs[v]->Some_0) by {
        lemma_needed_earlier(nodes, storages, handles, order, p, v);
    }
    assert forall|v: int, w: int|
        0 <= v < nodes.len() && 0 <= w < nodes.len() && v != w && (#[trigger] bufs[v]) is Some && (
        #[trigger] bufs[w]) is Some && needed_from(nodes, storages, handles, order, p + 1, v)
            && needed_from(nodes, storages, handles, order, p + 1, w) implies bufs[v]->Some_0.inner
        != bufs[w]->Some_0.inner by {
        lemma_needed_earlier(nodes, storages, handles, order, p, v);
        lemma_needed_earlier(nodes, storages, handles, order, p, w);
    }
}

/// Whether the buffer `b` may be given to the node at place `p`: it has the
/// node's size and alignment, and it is the buffer of the first operand
/// where the node works in place, and a buffer that `pool` did not know as
/// taken and that `pool2` has otherwise.
pub open spec fn assigned_at(
    nodes: Seq<Inner>,
    storages: Seq<Option<Storage>>,
    handles: Seq<usize>,
    order: Seq<TensorId>,
    p: int,
    bufs: Seq<Option<GPUBuffer>>,
    pool: Seq<PoolEntry>,
    b: GPUBuffer,
    pool2: Seq<PoolEntry>,
) -> bool {
    let u = order[p].index as int;
    &&& b.size == nodes[u].view@.num_bytes()
    &&& b.alignment == nodes[u].view@.dt.spec_size_of()
    &&& if inplace_at(nodes, storages, handles, order, p) {
        &&& bufs[src_index(nodes, u, 0)] is Some
        &&& b.inner == bufs[src_index(nodes, u, 0)]->Some_0.inner
        &&& pool2 == pool
    } else {
        allocated(
            pool,
            (BufferDescriptor {
                size: rounded_size(b.size as nat) as usize,
                usage: BufferUsage::Storage,
            }),
            pool2,
            b.inner.index as int,
        ) && rounded_size(b.size as nat) <= usize::MAX
    }
}

/// Planning the node at place `p` keeps what the planner has settled, and
/// the buffers of the operands that nothing needs afterwards are no buffers
/// of nodes that are needed.
#[verifier::rlimit(50)]
pub proof fn lemma_plan_step(
    nodes: Seq<Inner>,
    storages: Seq<Option<Storage>>,
    handles: Seq<usize>,
    order: Seq<TensorId>,
    p: int,
    bufs: Seq<Option<GPUBuffer>>,
    pool: Seq<PoolEntry>,
    b: GPUBuffer,
    pool2: Seq<PoolEntry>,
)
    requires
        plan_ctx(nodes, storages, handles, order),
        planned_upto(nodes, storages, handles, order, p, bufs, pool),
        planned_at(storages, order, p),
        assigned_at(nodes, storages, handles, order, p, bufs, pool, b, pool2),
    ensures
        planned_upto(
            nodes,
            storages,
            handles,
            order,
            p + 1,
            bufs.update(order[p].index as int, Some(b)),
            pool2,
        ),
        forall|k: int, w: int|
            #![trigger src_index(nodes, order[p].index as int, k), bufs.update(order[p].index as int, Some(b))[w]]
            0 <= k < nodes[order[p].index as int].op.spec_srcs().len() && !needed_from(
                nodes,
                storages,
                handles,
                order,
                p + 1,
                src_index(nodes, order[p].index as int, k),
            ) && !(inplace_at(nodes, storages, handles, order, p) && k == 0) && 0 <= w < nodes.len()
                && bufs.update(order[p].index as int, Some(b))[w] is Some && needed_from(
                nodes,
                storages,
                handles,
                order,
                p + 1,
                w,
            ) ==> bufs.update(order[p].index as int, Some(b))[w]->Some_0.inner != bufs[src_index(
                nodes,
                order[p].index as int,
                k,
            )]->Some_0.inner,
{
    let u = order[p].index as int;
    let bufs2 = bufs.update(u, Some(b));
    let inplace = inplace_at(nodes, storages, handles, order, p);
    let s0 = src_index(nodes, u, 0);
    lemma_unplanned_has_none(nodes, storages, handles, order, p, bufs, pool);
    assert(node_ok(nodes, u));
    if inplace {
        lemma_operand_ready(nodes, storages, handles, order, p, bufs, pool, 0);
    }
    // every node needed at p with a buffer: its buffer is not the new one,
    // unless it is the operand written over
    assert forall|v: int|
        0 <= v < nodes.len() && v != u && (#[trigger] bufs[v]) is Some && needed_from(
            nodes,
            storages,
            handles,
            order,
            p,
            v,
        ) && !(inplace && v == s0) implies bufs[v]->Some_0.inner != b.inner && backed(
        pool2,
        bufs[v]->Some_0,
    ) by {
        assert(backed(pool, bufs[v]->Some_0));
    }
    assert forall|v: int| 0 <= v < nodes.len() && storages[v] is None implies ((
    #[trigger] bufs2[v]) is Some <==> placed_before(order, p + 1, v)) by {
        if v == u {
            assert(order[p].index == v);
        } else {
            if placed_before(order, p + 1, v) {
                let q = choose|q: int| 0 <= q < p + 1 && (#[trigger] order[q]).index == v;
                assert(q < p);
                assert(placed_before(order, p, v));
            }
            if placed_before(order, p, v) {
                let q = choose|q: int| 0 <= q < p && (#[trigger] order[q]).index == v;
                assert(placed_before(order, p + 1, v));
            }
            assert(bufs2[v] == bufs[v]);
        }
    }
    assert forall|v: int|
        0 <= v < nodes.len() && (#[trigger] bufs2[v]) is Some && needed_from(
            nodes,
            storages,
            handles,
            order,
            p + 1,
            v,
        ) implies backed(pool2, bufs2[v]->Some_0) by {
        if v != u {
            lemma_needed_earlier(nodes, storages, handles, order, p, v);
            assert(bufs[v] is Some);
        }
    }
    assert forall|v: int, w: int|
        0 <= v < nodes.len() && 0 <= w < nodes.len() && v != w && (#[trigger] bufs2[v]) is Some && (
        #[trigger] bufs2[w]) is Some && needed_from(nodes, storages, handles, order, p + 1, v)
            && needed_from(nodes, storages, handles, order, p + 1, w) implies bufs2[v]->Some_0.inner
        != bufs2[w]->Some_0.inner by {
        if v != u {
            lemma_needed_earlier(nodes, storages, handles, order, p, v);
            assert(bufs[v] is Some);
        }
        if w != u {
            lemma_needed_earlier(nodes, storages, handles, order, p, w);
            assert(bufs[w] is Some);
        }
    }
    assert(safe_at(nodes, storages, handles, order, bufs2, p)) by {
        assert forall|v: int|
            0 <= v < nodes.len() && v != order[p].index && (#[trigger] bufs2[v]) is Some
                && available_before(storages, order, p, v) && needed_from(
                nodes,
                storages,
                handles,
                order,
                p,
                v,
            ) && !(inplace_at(nodes, storages, handles, order, p) && v == src_index(
                nodes,
                order[p].index as int,
                0,
            )) implies bufs2[v]->Some_0.inner != bufs2[order[p].index as int]->Some_0.inner by {
            assert(bufs[v] is Some);
        }
    }
    assert forall|q: int| 0 <= q < p + 1 && #[trigger] planned_at(storages, order, q) implies {
        &&& bufs2[order[q].index as int] matches Some(bq)
        &&& bq.size == nodes[order[q].index as int].view@.num_bytes()
        &&& bq.alignment == nodes[order[q].index as int].view@.dt.spec_size_of()
        &&& inplace_at(nodes, storages, handles, order, q) ==> bufs2[src_index(
            nodes,
            order[q].index as int,
            0,
        )] is Some && bufs2[src_index(nodes, order[q].index as int, 0)]->Some_0.inner == bq.inner
        &&& safe_at(nodes, storages, handles, order, bufs2, q)
    } by {
        if q < p {
            let uq = order[q].index as int;
            if uq == u {
                lemma_one_place(nodes, order, p, q);
            }
            assert(bufs2[uq] == bufs[uq]);
            assert(node_ok(nodes, uq));
            if inplace_at(nodes, storages, handles, order, q) {
                let sq = src_index(nodes, uq, 0);
                assert(placed_before(order, q, src_index(nodes, order[q].index as int, 0)));
                let r = choose|r: int| 0 <= r < q && (#[trigger] order[r]).index == sq;
                if sq == u {
                    lemma_one_place(nodes, order, p, r);
                }
                assert(bufs2[sq] == bufs[sq]);
            }
            assert(safe_at(nodes, storages, handles, order, bufs, q));
            assert forall|v: int|
                0 <= v < nodes.len() && v != order[q].index && (#[trigger] bufs2[v]) is Some
                    && available_before(storages, order, q, v) && needed_from(
                    nodes,
                    storages,
                    handles,
                    order,
                    q,
                    v,
                ) && !(inplace_at(nodes, storages, handles, order, q) && v == src_index(
                    nodes,
                    order[q].index as int,
                    0,
                )) implies bufs2[v]->Some_0.inner != bufs2[order[q].index as int]->Some_0.inner by {
                if v == u {
                    let r = choose|r: int| 0 <= r < q && (#[trigger] order[r]).index == v;
                    lemma_one_place(nodes, order, p, r);
                }
                assert(bufs[v] is Some);
            }
        } else {
            if inplace {
                assert(s0 < u);
                assert(bufs2[s0] == bufs[s0]);
            }
        }
    }
    assert forall|k: int, w: int|
        #![trigger src_index(nodes, order[p].index as int, k), bufs.update(order[p].index as int, Some(b))[w]]
        0 <= k < nodes[u].op.spec_srcs().len() && !needed_from(
            nodes,
            storages,
            handles,
            order,
            p + 1,
            src_index(nodes, u, k),
        ) && !(inplace && k == 0) && 0 <= w < nodes.len() && bufs2[w] is Some && needed_from(
            nodes,
            storages,
            handles,
            order,
            p + 1,
            w,
        ) implies bufs2[w]->Some_0.inner != bufs[src_index(nodes, u, k)]->Some_0.inner by {
        let s = src_index(nodes, u, k);
        lemma_operand_ready(nodes, storages, handles, order, p, bufs, pool, k);
        if w == u {
            if inplace {
                assert(s != s0);
                assert(needed_from(nodes, storages, handles, order, p, s0));
            }
        } else {
            lemma_needed_earlier(nodes, storages, handles, order, p, w);
            assert(bufs[w] is Some);
        }
    }
}

/// Giving back the buffer of a node that nothing needs, and that no needed
/// node shares, keeps what the planner has settled.
pub proof fn lemma_plan_release(
    nodes: Seq<Inner>,
    storages: Seq<Option<Storage>>,
    handles: Seq<usize>,
    order: Seq<TensorId>,
    p: int,
    bufs: Seq<Option<GPUBuffer>>,
    pool: Seq<PoolEntry>,
    handle: BufferHandle,
    now: u64,
    pool2: Seq<PoolEntry>,
)
    requires
        planned_upto(nodes, storages, handles, order, p, bufs, pool),
        released(pool, handle.index as int, now, pool2),
        forall|w: int|
            0 <= w < nodes.len() && (#[trigger] bufs[w]) is Some && needed_from(
                nodes,
                storages,
                handles,
                order,
                p,
                w,
            ) ==> bufs[w]->Some_0.inner != handle,
    ensures
        planned_upto(nodes, storages, handles, order, p, bufs, pool2),
{
    assert forall|v: int|
        0 <= v < nodes.len() && (#[trigger] bufs[v]) is Some && needed_from(
            nodes,
            storages,
            handles,
            order,
            p,
            v,
        ) implies backed(pool2, bufs[v]->Some_0) by {
        assert(backed(pool, bufs[v]->Some_0));
    }
}

/// Trimming the pool keeps what the planner has settled.
pub proof fn lemma_plan_trim(
    nodes: Seq<Inner>,
    storages: Seq<Option<Storage>>,
    handles: Seq<usize>,
    order: Seq<TensorId>,
    p: int,
    bufs: Seq<Option<GPUBuffer>>,
    pool: Seq<PoolEntry>,
    cap: nat,
    pool2: Seq<PoolEntry>,
)
    requires
        planned_upto(nodes, storages, handles, order, p, bufs, pool),
        crate::gpu_buffer::trimmed(pool, cap, pool2),
    ensures
        planned_upto(nodes, storages, handles, order, p, bufs, pool2),
{
    assert forall|v: int|
        0 <= v < nodes.len() && (#[trigger] bufs[v]) is Some && needed_from(
            nodes,
            storages,
            handles,
            order,
            p,
            v,
        ) implies backed(pool2, bufs[v]->Some_0) by {
        let b = bufs[v]->Some_0;
        assert(backed(pool, b));
        assert(pool2[b.inner.index as int].desc == pool[b.inner.index as int].desc);
    }
}

/// When all of `order` is planned and the plan is carried out, the graph is
/// again what a graph must be.
#[verifier::rlimit(50)]
pub proof fn lemma_plan_end(
    nodes: Seq<Inner>,
    storages: Seq<Option<Storage>>,
    handles: Seq<usize>,
    order: Seq<TensorId>,
    bufs: Seq<Option<GPUBuffer>>,
    pool: Seq<PoolEntry>,
)
    requires
        plan_ctx(nodes, storages, handles, order),
        planned_upto(nodes, storages, handles, order, order.len() as int, bufs, pool),
    ensures
        forall|i: int|
            0 <= i < nodes.len() ==> #[trigger] slot_ok(nodes, planned_storages(storages, bufs), i),
        buffers_ok(nodes, planned_storages(storages, bufs), handles, pool),
        forall|v: int|
            0 <= v < nodes.len() ==> gpu_buf(#[trigger] planned_storages(storages, bufs)[v])
                == bufs[v],
        forall|p: int|
            0 <= p < order.len() ==> (#[trigger] planned_storages(
                storages,
                bufs,
            )[order[p].index as int]) is Some,
{
    let n = order.len() as int;
    let post = planned_storages(storages, bufs);
    assert forall|v: int| 0 <= v < nodes.len() implies gpu_buf(#[trigger] post[v]) == bufs[v] by {
        if storages[v] is Some {
            assert(bufs[v] == gpu_buf(storages[v]));
        }
    }
    assert forall|i: int| 0 <= i < nodes.len() implies #[trigger] slot_ok(nodes, post, i) by {
        assert(slot_ok(nodes, storages, i));
        if storages[i] is None && bufs[i] is Some {
            assert(placed_before(order, n, i));
            let q = choose|q: int| 0 <= q < n && (#[trigger] order[q]).index == i;
            assert(planned_at(storages, order, q));
            assert(nodes[order[q].index as int].device == Device::GPU);
        }
    }
    assert forall|p: int| 0 <= p < order.len() implies (#[trigger] post[order[p].index as int]) is Some by {
        let v = order[p].index as int;
        if storages[v] is None {
            assert(placed_before(order, n, v));
        }
    }
    assert forall|v: int| 0 <= v < nodes.len() && live(nodes, post, handles, v) implies needed_from(
        nodes,
        storages,
        handles,
        order,
        n,
        v,
    ) by {
        if handles[v] == 0 {
            let j = choose|j: int| #[trigger] pending_use(nodes, post, j, v);
            assert(storages[j] is None && bufs[j] is None);
            if order.contains(id_of(j)) {
                let q = choose|q: int| 0 <= q < order.len() && order[q] == id_of(j);
                assert(placed_before(order, n, j));
            }
            assert(outside_use(nodes, storages, order, j, v));
        }
    }
    assert forall|v: int|
        0 <= v < nodes.len() && (#[trigger] gpu_buf(post[v])) is Some && live(
            nodes,
            post,
            handles,
            v,
        ) implies backed(pool, gpu_buf(post[v])->Some_0) by {
        assert(bufs[v] is Some);
    }
    assert forall|v: int, w: int|
        0 <= v < nodes.len() && 0 <= w < nodes.len() && v != w && (#[trigger] gpu_buf(post[v])) is Some
            && (#[trigger] gpu_buf(post[w])) is Some && live(nodes, post, handles, v) && live(
            nodes,
            post,
            handles,
            w,
        ) implies gpu_buf(post[v])->Some_0.inner != gpu_buf(post[w])->Some_0.inner by {
        assert(bufs[v] is Some);
        assert(bufs[w] is Some);
    }
}

/// A fault stays the first fault however far the order goes on.
pub proof fn lemma_first_fault_stays(
    nodes: Seq<Inner>,
    storages: Seq<Option<Storage>>,
    handles: Seq<usize>,
    order: Seq<TensorId>,
    p: int,
    m: int,
)
    requires
        0 <= p <= m,
        first_fault(nodes, storages, handles, order, p) is Some,
    ensures
        first_fault(nodes, storages, handles, order, m) == first_fault(
            nodes,
            storages,
            handles,
            order,
            p,
        ),
    decreases m - p,
{
    if p < m {
        lemma_first_fault_stays(nodes, storages, handles, order, p, m - 1);
    }
}

/// The pool `after` holds the buffers of `before`, each with the descriptor
/// it had, and possibly more.
pub open spec fn pool_extends(before: Seq<PoolEntry>, after: Seq<PoolEntry>) -> bool {
    &&& before.len() <= after.len()
    &&& forall|i: int| 0 <= i < before.len() ==> (#[trigger] after[i]).desc == before[i].desc
}

/// What the planner has decided for one order of computation.
pub struct Allocation {
    /// The device buffer of every node of the graph that has one when the
    /// order has been computed, by the place of the node in the graph.
    pub bufs: Vec<Option<GPUBuffer>>,
    /// Whether the node at each place of the order writes over its first
    /// operand.
    pub inplace: Vec<bool>,
    /// The pool of buffers as it is when the order has been computed.
    pub pool: BufferPool,
}

impl Graph {
    /// What a plan for `order` is: every node of `order` that is yet to be
    /// computed has a buffer of its size, in place exactly where that is
    /// allowed; no node writes to a buffer whose value is still needed; and
    /// at the end the buffers of the nodes that are still needed are taken in
    /// the plan's pool, each by one node.
    pub open spec fn planned(&self, order: Seq<TensorId>, plan: Allocation) -> bool {
        &&& planned_upto(
            self.nodes(),
            self.storages(),
            self.handles(),
            order,
            order.len() as int,
            plan.bufs@,
            plan.pool@,
        )
        &&& plan.inplace@.len() == order.len()
        &&& forall|p: int|
            0 <= p < order.len() ==> #[trigger] plan.inplace@[p] == (planned_at(
                self.storages(),
                order,
                p,
            ) && inplace_at(self.nodes(), self.storages(), self.handles(), order, p))
        &&& pool_extends(self.pool(), plan.pool@)
        &&& plan.pool.spec_soft_cap() == self.gpu().buffers.spec_soft_cap()
        &&& (forall|p: int| 0 <= p < order.len() ==> !#[trigger] planned_at(self.storages(), order, p))
            ==> plan.pool@ == self.pool()
    }

    /// What the planner relies on.
    pub open spec fn plannable(&self, order: Seq<TensorId>) -> bool {
        &&& self.wf()
        &&& self.nodes().len() <= usize::MAX
        &&& well_ordered(self.nodes(), order)
        &&& forall|p: int|
            0 <= p < order.len() ==> (#[trigger] self.nodes()[order[p].index as int]).device
                == Device::GPU
    }

    /// What the planner relies on, put as the planner's lemmas want it.
    proof fn lemma_plannable(&self, order: Seq<TensorId>)
        requires
            self.plannable(order),
        ensures
            plan_ctx(self.nodes(), self.storages(), self.handles(), order),
    {
    }

    /// Which nodes stand in `order`.
    fn in_order(&self, order: &Vec<TensorId>) -> (mask: Vec<bool>)
        requires
            ids_valid(self.nodes(), order@),
            self.nodes().len() <= usize::MAX,
        ensures
            mask@.len() == self.nodes().len(),
            forall|j: int| 0 <= j < self.nodes().len() ==> (mask@[j] <==> order@.contains(id_of(j))),
    {
        let n = self.len();
        let mut mask: Vec<bool> = Vec::new();
        let mut i: usize = 0;
        while i < n
            invariant
                i <= n,
                mask@.len() == i,
                forall|j: int| 0 <= j < i ==> !mask@[j],
            decreases n - i,
        {
            mask.push(false);
            i += 1;
        }
        let mut q: usize = 0;
        while q < order.len()
            invariant
                q <= order@.len(),
                n == self.nodes().len(),
                ids_valid(self.nodes(), order@),
                mask@.len() == n,
                forall|j: int| 0 <= j < n ==> (mask@[j] <==> placed_before(order@, q as int, j)),
            decreases order@.len() - q,
        {
            let ghost before = mask@;
            let t = order[q];
            mask.set(t.index, true);
            proof {
                assert forall|j: int| 0 <= j < n implies (mask@[j] <==> placed_before(
                    order@,
                    q + 1,
                    j,
                )) by {
                    if placed_before(order@, q + 1, j) {
                        let r = choose|r: int| 0 <= r < q + 1 && (#[trigger] order@[r]).index == j;
                        if r < q {
                            assert(placed_before(order@, q as int, j));
                        }
                    }
                    if before[j] {
                        let r = choose|r: int| 0 <= r < q && (#[trigger] order@[r]).index == j;
                        assert(placed_before(order@, q + 1, j));
                    }
                    if j == t.index {
                        assert(order@[q as int].index == j);
                    }
                }
            }
            q += 1;
        }
        proof {
            assert forall|j: int| 0 <= j < n implies (mask@[j] <==> order@.contains(id_of(j))) by {
                if placed_before(order@, order@.len() as int, j) {
                    let r = choose|r: int|
                        0 <= r < order@.len() && (#[trigger] order@[r]).index == j;
                    assert(order@[r] == id_of(j));
                }
                if order@.contains(id_of(j)) {
                    let r = choose|r: int| 0 <= r < order@.len() && order@[r] == id_of(j);
                    assert(order@[r].index == j);
                }
            }
        }
        mask
    }

    /// Whether the value of node `v` is needed when the node at place `p` of
    /// `order` has been computed.
    fn needed_after(&self, order: &Vec<TensorId>, mask: &Vec<bool>, p: usize, v: usize) -> (b: bool)
        requires
            self.storages().len() == self.nodes().len(),
            self.handles().len() == self.nodes().len(),
            ids_valid(self.nodes(), order@),
            p < order@.len(),
            v < self.nodes().len(),
            mask@.len() == self.nodes().len(),
            forall|j: int| 0 <= j < self.nodes().len() ==> (mask@[j] <==> order@.contains(id_of(j))),
        ensures
            b == needed_from(
                self.nodes(),
                self.storages(),
                self.handles(),
                order@,
                p + 1,
                v as int,
            ),
    {
        let ghost nodes = self.nodes();
        let ghost storages = self.storages();
        let len = order.len();
        let mut q: usize = p + 1;
        while q < len
            invariant
                p + 1 <= q <= order@.len(),
                len == order@.len(),
                nodes == self.nodes(),
                storages == self.storages(),
                storages.len() == nodes.len(),
                ids_valid(nodes, order@),
                v < nodes.len(),
                forall|r: int| p + 1 <= r < q ==> !#[trigger] used_at(nodes, storages, order@, r, v as int),
            decreases order@.len() - q,
        {
            let t = order[q];
            if !self.resolved(t) && self.node_uses(t.index, v) {
                assert(used_at(nodes, storages, order@, q as int, v as int));
                return true;
            }
            q += 1;
        }
        assert(!used_from(nodes, storages, order@, p + 1, v as int));
        if self.handle_count(TensorId { index: v }) > 0 {
            return true;
        }
        let n = self.len();
        let mut j: usize = 0;
        while j < n
            invariant
                j <= n,
                n == nodes.len(),
                nodes == self.nodes(),
                storages == self.storages(),
                storages.len() == nodes.len(),
                v < nodes.len(),
                mask@.len() == n,
                forall|m: int| 0 <= m < n ==> (mask@[m] <==> order@.contains(id_of(m))),
                forall|m: int| 0 <= m < j ==> !#[trigger] outside_use(nodes, storages, order@, m, v as int),
            decreases n - j,
        {
            if !mask[j] && !self.resolved(TensorId { index: j }) && self.node_uses(j, v) {
                assert(outside_use(nodes, storages, order@, j as int, v as int));
                return true;
            }
            j += 1;
        }
        false
    }

    /// Whether the node at place `p` of `order` writes over its first
    /// operand.
    fn inplace_ok(&self, order: &Vec<TensorId>, mask: &Vec<bool>, p: usize) -> (b: bool)
        requires
            self.plannable(order@),
            p < order@.len(),
            mask@.len() == self.nodes().len(),
            forall|j: int| 0 <= j < self.nodes().len() ==> (mask@[j] <==> order@.contains(id_of(j))),
        ensures
            b == inplace_at(self.nodes(), self.storages(), self.handles(), order@, p as int),
    {
        let u = order[p];
        let node = self.node(u);
        if !node.op.supports_inplace() {
            return false;
        }
        let srcs = node.op.srcs();
        let ghost nodes = self.nodes();
        proof {
            assert(node_ok(nodes, u.index as int));
        }
        if srcs.len() < 1 {
            return false;
        }
        let s0 = srcs[0];
        assert(src_index(nodes, u.index as int, 0) == s0.index);
        let mut k: usize = 1;
        while k < srcs.len()
            invariant
                1 <= k <= srcs.len(),
                nodes == self.nodes(),
                p < order@.len(),
                u == order@[p as int],
                u.index < nodes.len(),
                srcs@ == nodes[u.index as int].op.spec_srcs(),
                s0 == srcs@[0],
                forall|m: int|
                    1 <= m < k ==> #[trigger] src_index(nodes, u.index as int, m) != src_index(
                        nodes,
                        u.index as int,
                        0,
                    ),
            decreases srcs.len() - k,
        {
            if srcs[k].index == s0.index {
                assert(src_index(nodes, u.index as int, k as int) == src_index(
                    nodes,
                    u.index as int,
                    0,
                ));
                return false;
            }
            k += 1;
        }
        if self.needed_after(order, mask, p, s0.index) {
            return false;
        }
        proof {
            assert(node_ok(nodes, s0.index as int));
        }
        self.node(s0).view.num_bytes() == node.view.num_bytes()
    }

    /// Plans the buffers of the nodes of `execution_order` that are yet to
    /// be computed. The graph and its pool stay as they are: the plan holds
    /// the pool as it will be.
    #[verifier::rlimit(50)]
    pub fn allocate_cfg(&self, execution_order: &Vec<TensorId>) -> (out: Result<
        Allocation,
        TensorError,
    >)
        requires
            self.plannable(execution_order@),
        ensures
            match out {
                Ok(plan) => first_fault(
                    self.nodes(),
                    self.storages(),
                    self.handles(),
                    execution_order@,
                    execution_order@.len() as int,
                ) is None && self.planned(execution_order@, plan),
                Err(e) => first_fault(
                    self.nodes(),
                    self.storages(),
                    self.handles(),
                    execution_order@,
                    execution_order@.len() as int,
                ) == Some(e),
            },
    {
        let order = execution_order;
        let ghost nodes = self.nodes();
        let ghost storages = self.storages();
        let ghost handles = self.handles();
        let n = self.len();
        let len = order.len();
        proof {
            self.lemma_plannable(order@);
        }
        let mask = self.in_order(order);
        let mut pool = self.device().buffers.clone();
        let mut bufs: Vec<Option<GPUBuffer>> = Vec::new();
        let mut i: usize = 0;
        while i < n
            invariant
                i <= n,
                n == nodes.len(),
                nodes == self.nodes(),
                storages == self.storages(),
                storages.len() == nodes.len(),
                bufs@.len() == i,
                forall|v: int| 0 <= v < i ==> #[trigger] bufs@[v] == gpu_buf(storages[v]),
            decreases n - i,
        {
            let slot = match self.storage(TensorId { index: i }) {
                Some(Storage::GPU(b)) => Some(*b),
                _ => None,
            };
            bufs.push(slot);
            i += 1;
        }
        proof {
            lemma_plan_start(nodes, storages, handles, order@, bufs@, pool@);
        }
        let mut flags: Vec<bool> = Vec::new();
        let mut p: usize = 0;
        while p < len
            invariant
                p <= len,
                len == order@.len(),
                order@ == execution_order@,
                n == nodes.len(),
                nodes == self.nodes(),
                storages == self.storages(),
                handles == self.handles(),
                self.plannable(order@),
                plan_ctx(nodes, storages, handles, order@),
                mask@.len() == n,
                forall|j: int| 0 <= j < n ==> (mask@[j] <==> order@.contains(id_of(j))),
                planned_upto(nodes, storages, handles, order@, p as int, bufs@, pool@),
                first_fault(nodes, storages, handles, order@, p as int) is None,
                flags@.len() == p,
                forall|q: int|
                    0 <= q < p ==> #[trigger] flags@[q] == (planned_at(storages, order@, q)
                        && inplace_at(nodes, storages, handles, order@, q)),
                pool_extends(self.pool(), pool@),
                pool.spec_soft_cap() == self.gpu().buffers.spec_soft_cap(),
                (forall|q: int| 0 <= q < p ==> !#[trigger] planned_at(storages, order@, q)) ==> pool@
                    == self.pool(),
            decreases len - p,
        {
            let u = order[p];
            if self.resolved(u) {
                proof {
                    lemma_plan_skip(nodes, storages, handles, order@, p as int, bufs@, pool@);
                    assert(fault_at(nodes, storages, handles, order@, p as int) is None);
                    assert(first_fault(nodes, storages, handles, order@, p + 1) is None);
                }
                flags.push(false);
                p += 1;
                continue;
            }
            let node = self.node(u);
            proof {
                assert(planned_at(storages, order@, p as int));
                assert(node_ok(nodes, u.index as int));
                lemma_unplanned_has_none(nodes, storages, handles, order@, p as int, bufs@, pool@);
            }
            let inplace = self.inplace_ok(order, &mask, p);
            let size = node.view.num_bytes();
            let alignment = node.view.dt.size_of();
            let srcs = node.op.srcs();
            let ghost bufs0 = bufs@;
            let ghost pool0 = pool@;
            let buffer = if inplace {
                proof {
                    lemma_operand_ready(nodes, storages, handles, order@, p as int, bufs0, pool0, 0);
                }
                let s0 = srcs[0];
                let shared = match bufs[s0.index] {
                    Some(b) => b,
                    None => vstd::pervasive::unreached(),
                };
                GPUBuffer { inner: shared.inner, alignment, size }
            } else if node.op.requires_inplace() {
                proof {
                    assert(fault_at(nodes, storages, handles, order@, p as int) == Some(
                        TensorError::OperationError(OperationError::InplaceRequired),
                    ));
                    assert(first_fault(nodes, storages, handles, order@, p + 1) == Some(
                        TensorError::OperationError(OperationError::InplaceRequired),
                    ));
                    lemma_first_fault_stays(
                        nodes,
                        storages,
                        handles,
                        order@,
                        p + 1,
                        len as int,
                    );
                }
                return Err(TensorError::OperationError(OperationError::InplaceRequired));
            } else {
                match BufferDescriptor::storage(size) {
                    None => {
                        proof {
                            assert(fault_at(nodes, storages, handles, order@, p as int) == Some(
                                TensorError::DeviceError(DeviceError::AllocationFailed),
                            ));
                            assert(first_fault(nodes, storages, handles, order@, p + 1) == Some(
                                TensorError::DeviceError(DeviceError::AllocationFailed),
                            ));
                            lemma_first_fault_stays(
                                nodes,
                                storages,
                                handles,
                                order@,
                                p + 1,
                                len as int,
                            );
                        }
                        return Err(TensorError::DeviceError(DeviceError::AllocationFailed));
                    },
                    Some(desc) => {
                        let handle = pool.allocate(desc);
                        GPUBuffer { inner: handle, alignment, size }
                    },
                }
            };
            bufs.set(u.index, Some(buffer));
            proof {
                assert(fault_at(nodes, storages, handles, order@, p as int) is None);
                assert(first_fault(nodes, storages, handles, order@, p + 1) is None);
                assert(assigned_at(
                    nodes,
                    storages,
                    handles,
                    order@,
                    p as int,
                    bufs0,
                    pool0,
                    buffer,
                    pool@,
                ));
                lemma_plan_step(
                    nodes,
                    storages,
                    handles,
                    order@,
                    p as int,
                    bufs0,
                    pool0,
                    buffer,
                    pool@,
                );
                assert(bufs@ == bufs0.update(u.index as int, Some(buffer)));
            }
            let mut k: usize = 0;
            while k < srcs.len()
                invariant
                    k <= srcs.len(),
                    p < len,
                    len == order@.len(),
                    n == nodes.len(),
                    nodes == self.nodes(),
                    storages == self.storages(),
                    handles == self.handles(),
                    self.plannable(order@),
                    plan_ctx(nodes, storages, handles, order@),
                    mask@.len() == n,
                    forall|j: int| 0 <= j < n ==> (mask@[j] <==> order@.contains(id_of(j))),
                    u == order@[p as int],
                    planned_at(storages, order@, p as int),
                    srcs@ == nodes[u.index as int].op.spec_srcs(),
                    inplace == inplace_at(nodes, storages, handles, order@, p as int),
                    bufs0.len() == n,
                    bufs@ == bufs0.update(u.index as int, Some(buffer)),
                    planned_upto(nodes, storages, handles, order@, p as int, bufs0, pool0),
                    planned_upto(nodes, storages, handles, order@, p + 1, bufs@, pool@),
                    pool_extends(self.pool(), pool@),
                    pool.spec_soft_cap() == self.gpu().buffers.spec_soft_cap(),
                    forall|k: int, w: int|
                        #![trigger src_index(nodes, order@[p as int].index as int, k), bufs0.update(order@[p as int].index as int, Some(buffer))[w]]
                        0 <= k < nodes[order@[p as int].index as int].op.spec_srcs().len()
                            && !needed_from(
                            nodes,
                            storages,
                            handles,
                            order@,
                            p + 1,
                            src_index(nodes, order@[p as int].index as int, k),
                        ) && !(inplace_at(nodes, storages, handles, order@, p as int) && k == 0)
                            && 0 <= w < nodes.len() && bufs0.update(
                            order@[p as int].index as int,
                            Some(buffer),
                        )[w] is Some && needed_from(nodes, storages, handles, order@, p + 1, w)
                            ==> bufs0.update(
                            order@[p as int].index as int,
                            Some(buffer),
                        )[w]->Some_0.inner != bufs0[src_index(
                            nodes,
                            order@[p as int].index as int,
                            k,
                        )]->Some_0.inner,
                decreases srcs.len() - k,
            {
                let s = srcs[k];
                proof {
                    lemma_operand_ready(
                        nodes,
                        storages,
                        handles,
                        order@,
                        p as int,
                        bufs0,
                        pool0,
                        k as int,
                    );
                    assert(src_index(nodes, u.index as int, k as int) == s.index);
                }
                if !(inplace && k == 0) && !self.needed_after(order, &mask, p, s.index) {
                    match bufs[s.index] {
                        Some(bs) => {
                            let taken = match pool.get(bs.inner) {
                                Some(entry) => entry.in_use,
                                None => false,
                            };
                            if taken {
                                let ghost pool1 = pool@;
                                let ghost now = pool.spec_now();
                                pool.release(bs.inner);
                                proof {
                                    assert(bufs0[s.index as int] == Some(bs));
                                    assert forall|w: int|
                                        0 <= w < nodes.len() && (#[trigger] bufs@[w]) is Some
                                            && needed_from(
                                            nodes,
                                            storages,
                                            handles,
                                            order@,
                                            p + 1,
                                            w,
                                        ) implies bufs@[w]->Some_0.inner != bs.inner by {
                                        let sk = src_index(
                                            nodes,
                                            order@[p as int].index as int,
                                            k as int,
                                        );
                                        assert(bufs0.update(
                                            order@[p as int].index as int,
                                            Some(buffer),
                                        )[w]->Some_0.inner != bufs0[sk]->Some_0.inner);
                                    }
                                    lemma_plan_release(
                                        nodes,
                                        storages,
                                        handles,
                                        order@,
                                        p + 1,
                                        bufs@,
                                        pool1,
                                        bs.inner,
                                        now,
                                        pool@,
                                    );
                                }
                            }
                        },
                        None => {},
                    }
                }
                k += 1;
            }
            flags.push(inplace);
            p += 1;
        }
        Ok(Allocation { bufs, inplace: flags, pool })
    }
}

/// Where there is no first fault, no node has a fault.
pub proof fn lemma_no_fault(
    nodes: Seq<Inner>,
    storages: Seq<Option<Storage>>,
    handles: Seq<usize>,
    order: Seq<TensorId>,
    m: int,
    p: int,
)
    requires
        0 <= p < m,
        first_fault(nodes, storages, handles, order, m) is None,
    ensures
        fault_at(nodes, storages, handles, order, p) is None,
    decreases m,
{
    if p < m - 1 {
        lemma_no_fault(nodes, storages, handles, order, m - 1, p);
    }
}

/// When all of `order` is planned, every operand of a node of `order` has a
/// buffer.
pub proof fn lemma_operands_have_buffers(
    nodes: Seq<Inner>,
    storages: Seq<Option<Storage>>,
    handles: Seq<usize>,
    order: Seq<TensorId>,
    bufs: Seq<Option<GPUBuffer>>,
    pool: Seq<PoolEntry>,
    p: int,
    k: int,
)
    requires
        plan_ctx(nodes, storages, handles, order),
        planned_upto(nodes, storages, handles, order, order.len() as int, bufs, pool),
        0 <= p < order.len(),
        0 <= k < nodes[order[p].index as int].op.spec_srcs().len(),
    ensures
        bufs[src_index(nodes, order[p].index as int, k)] is Some,
{
    let u = order[p].index as int;
    let s = src_index(nodes, u, k);
    assert(node_ok(nodes, u));
    assert(placed_before(order, p, src_index(nodes, order[p].index as int, k)));
    let q = choose|q: int| 0 <= q < p && (#[trigger] order[q]).index == s;
    assert(nodes[order[q].index as int].device == Device::GPU);
    assert(slot_ok(nodes, storages, s));
    if storages[s] is Some {
        assert(bufs[s] == gpu_buf(storages[s]));
    } else {
        assert(placed_before(order, order.len() as int, s));
    }
}

/// In a plan, the buffer of an operand is left alone until the node that
/// reads it has been computed: no node that is computed after the operand
/// has its value and before the reader writes to the operand's buffer, and
/// the reader itself writes to it only in place, over its first operand.
#[verifier::rlimit(50)]
pub proof fn lemma_operand_not_overwritten(
    nodes: Seq<Inner>,
    storages: Seq<Option<Storage>>,
    handles: Seq<usize>,
    order: Seq<TensorId>,
    bufs: Seq<Option<GPUBuffer>>,
    pool: Seq<PoolEntry>,
    p: int,
    k: int,
    q: int,
)
    requires
        plan_ctx(nodes, storages, handles, order),
        planned_upto(nodes, storages, handles, order, order.len() as int, bufs, pool),
        planned_at(storages, order, p),
        0 <= k < nodes[order[p].index as int].op.spec_srcs().len(),
        planned_at(storages, order, q),
        q <= p,
        available_before(storages, order, q, src_index(nodes, order[p].index as int, k)),
    ensures
        bufs[src_index(nodes, order[p].index as int, k)] is Some,
        bufs[order[q].index as int] is Some,
        bufs[order[q].index as int]->Some_0.inner == bufs[src_index(
            nodes,
            order[p].index as int,
            k,
        )]->Some_0.inner ==> q == p && inplace_at(nodes, storages, handles, order, p) && src_index(
            nodes,
            order[p].index as int,
            k,
        ) == src_index(nodes, order[p].index as int, 0),
{
    let u = order[p].index as int;
    let s = src_index(nodes, u, k);
    lemma_operands_have_buffers(nodes, storages, handles, order, bufs, pool, p, k);
    assert(node_ok(nodes, u));
    assert(used_at(nodes, storages, order, p, s));
    assert(needed_from(nodes, storages, handles, order, q, s));
    assert(safe_at(nodes, storages, handles, order, bufs, q));
    if s == order[q].index {
        // the operand is the node at q itself: it is not there before q
        assert(placed_before(order, p, src_index(nodes, order[p].index as int, k)));
        let r = choose|r: int| 0 <= r < p && (#[trigger] order[r]).index == s;
        lemma_one_place(nodes, order, r, q);
        assert(placed_before(order, q, s));
        let r2 = choose|r2: int| 0 <= r2 < q && (#[trigger] order[r2]).index == s;
        lemma_one_place(nodes, order, r2, q);
    }
    if q < p && inplace_at(nodes, storages, handles, order, q) && s == src_index(
        nodes,
        order[q].index as int,
        0,
    ) {
        assert(used_from(nodes, storages, order, q + 1, s));
    }
}

} // verus!
