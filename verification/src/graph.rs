//! The graph of tensors: nodes that never change, a slot for the storage of
//! each of them, and the pools of the device that computes them.
//!
//! A node is identified by its place in the graph. A node's operands stand
//! before it, so the graph has no cycle.

use vstd::prelude::*;
use crate::cpu_buffer::CPUBuffer;
use crate::gpu_buffer::{
    allocated, later, rounded_size, trimmed, BufferDescriptor, BufferHandle, BufferPool,
    BufferUsage, GPUBuffer, PoolEntry,
};
use crate::layout::{
    BindGroupLayoutDescriptor, BindGroupLayoutHandle, BindGroupLayoutPool, BindingType,
    PipelineLayoutDescriptor, PipelineLayoutHandle, PipelineLayoutPool,
};
use crate::lazy_op::LazyOp;
use crate::pipeline_pool::{
    ComputePipelineDescriptor, ComputePipelineHandle, ComputePipelinePool, KernelElement,
};
use crate::pool::{lemma_looked_up_distinct, with_key};
use crate::storage::{Device, Storage};
use crate::tensor_id::TensorId;
use crate::view::{StorageView, ViewModel};

verus! {

/// What a node is, from its creation on: its identity, the operation that
/// produces it, the device it lives on, and the view of its storage.
#[derive(Debug)]
pub struct Inner {
    pub id: TensorId,
    pub op: LazyOp,
    pub device: Device,
    pub view: StorageView,
}

/// A copy that is owed to the device, to be made before any dispatch that
/// reads the buffer `buffer`: the bytes `data` go to that buffer from the
/// host, or, where `from` names a buffer, the contents of that buffer do.
#[derive(Debug)]
pub struct Upload {
    pub buffer: BufferHandle,
    pub data: CPUBuffer,
    pub from: Option<BufferHandle>,
}

/// The resources of the device: the buffers, the layouts and the pipelines.
pub struct WgpuDevice {
    pub buffers: BufferPool,
    pub bind_group_layouts: BindGroupLayoutPool,
    pub pipeline_layouts: PipelineLayoutPool,
    pub pipelines: ComputePipelinePool,
}

impl WgpuDevice {
    /// In none of the pools do two handles stand for one descriptor, and
    /// the pool of buffers keeps no more idle buffers than its soft cap
    /// allows.
    pub open spec fn wf(&self) -> bool {
        &&& self.buffers.within_cap()
        &&& self.bind_group_layouts.wf()
        &&& self.pipeline_layouts.wf()
        &&& self.pipelines.wf()
    }

    /// A device with empty pools: no buffer, no layout and no pipeline, and
    /// no limit on the idle buffers that are kept.
    pub fn new() -> (out: WgpuDevice)
        ensures
            out.wf(),
            out.buffers@ == Seq::<PoolEntry>::empty(),
            out.buffers.spec_soft_cap() == usize::MAX,
            out.buffers.spec_now() == 0,
            out.bind_group_layouts@ == Seq::<Seq<BindingType>>::empty(),
            out.pipeline_layouts@ == Seq::<Seq<BindGroupLayoutHandle>>::empty(),
            out.pipelines@ == Seq::<(PipelineLayoutHandle, Seq<char>, KernelElement)>::empty(),
    {
        WgpuDevice {
            buffers: BufferPool::new(),
            bind_group_layouts: BindGroupLayoutPool::new(),
            pipeline_layouts: PipelineLayoutPool::new(),
            pipelines: ComputePipelinePool::new(),
        }
    }
}

/// The handles of one pipeline: the pipeline, its layout, and the layouts of
/// its storage bindings and of its parameter record.
#[derive(Clone, Copy, Debug, PartialEq, Eq, Structural)]
pub struct PipelineHandles {
    pub pipeline: ComputePipelineHandle,
    pub pipeline_layout: PipelineLayoutHandle,
    pub storage_layout: BindGroupLayoutHandle,
    pub uniform_layout: BindGroupLayoutHandle,
}

/// Whether `handles` name, in the pools of `gpu`, the pipeline that runs the
/// kernel `key` with the element width `elem` over storage bindings laid out
/// as `storage`, with the parameter record in a group of its own.
pub open spec fn pipeline_is(
    gpu: WgpuDevice,
    handles: PipelineHandles,
    storage: Seq<BindingType>,
    key: Seq<char>,
    elem: KernelElement,
) -> bool {
    &&& handles.pipeline.index < gpu.pipelines@.len()
    &&& gpu.pipelines@[handles.pipeline.index as int] == (handles.pipeline_layout, key, elem)
    &&& handles.pipeline_layout.index < gpu.pipeline_layouts@.len()
    &&& gpu.pipeline_layouts@[handles.pipeline_layout.index as int] == seq![
        handles.storage_layout,
        handles.uniform_layout,
    ]
    &&& handles.storage_layout.index < gpu.bind_group_layouts@.len()
    &&& gpu.bind_group_layouts@[handles.storage_layout.index as int] == storage
    &&& handles.uniform_layout.index < gpu.bind_group_layouts@.len()
    &&& gpu.bind_group_layouts@[handles.uniform_layout.index as int] == seq![
        BindingType::DynamicUniform,
    ]
}

/// What finding the pipeline with the handles `handles` does to the layout
/// and pipeline pools: the pools of `after` are those of `before`, asked
/// for the layout `storage` of the storage bindings, for the layout of the
/// parameter record, for the layout of a pipeline over these two, and for
/// the pipeline of the kernel `key` with the element width `elem` over that
/// layout. Nothing else is added.
pub open spec fn pools_asked(
    before: WgpuDevice,
    after: WgpuDevice,
    handles: PipelineHandles,
    storage: Seq<BindingType>,
    key: Seq<char>,
    elem: KernelElement,
) -> bool {
    &&& after.bind_group_layouts@ == with_key(
        with_key(before.bind_group_layouts@, storage),
        seq![BindingType::DynamicUniform],
    )
    &&& after.pipeline_layouts@ == with_key(
        before.pipeline_layouts@,
        seq![handles.storage_layout, handles.uniform_layout],
    )
    &&& after.pipelines@ == with_key(before.pipelines@, (handles.pipeline_layout, key, elem))
}

/// The layout and pipeline pools of `after` hold what those of `before`
/// hold, under the same handles, and possibly more.
pub open spec fn pools_extend(before: WgpuDevice, after: WgpuDevice) -> bool {
    &&& before.bind_group_layouts@.len() <= after.bind_group_layouts@.len()
    &&& forall|i: int|
        0 <= i < before.bind_group_layouts@.len() ==> #[trigger] after.bind_group_layouts@[i]
            == before.bind_group_layouts@[i]
    &&& before.pipeline_layouts@.len() <= after.pipeline_layouts@.len()
    &&& forall|i: int|
        0 <= i < before.pipeline_layouts@.len() ==> #[trigger] after.pipeline_layouts@[i]
            == before.pipeline_layouts@[i]
    &&& before.pipelines@.len() <= after.pipelines@.len()
    &&& forall|i: int|
        0 <= i < before.pipelines@.len() ==> #[trigger] after.pipelines@[i] == before.pipelines@[i]
}

/// A pipeline keeps its handles when the pools grow.
pub proof fn lemma_pipeline_stays(
    before: WgpuDevice,
    after: WgpuDevice,
    handles: PipelineHandles,
    storage: Seq<BindingType>,
    key: Seq<char>,
    elem: KernelElement,
)
    requires
        pipeline_is(before, handles, storage, key, elem),
        pools_extend(before, after),
    ensures
        pipeline_is(after, handles, storage, key, elem),
{
}

/// The place of operand `k` of node `j`.
pub open spec fn src_index(nodes: Seq<Inner>, j: int, k: int) -> int {
    nodes[j].op.spec_srcs()[k].index as int
}

/// Whether node `v` is an operand of node `j`.
pub open spec fn uses(nodes: Seq<Inner>, j: int, v: int) -> bool {
    exists|k: int| 0 <= k < nodes[j].op.spec_srcs().len() && #[trigger] src_index(nodes, j, k) == v
}

/// The views of the operands of node `i`, in the order of the operands.
pub open spec fn src_views(nodes: Seq<Inner>, i: int) -> Seq<ViewModel> {
    Seq::new(nodes[i].op.spec_srcs().len(), |k: int| nodes[src_index(nodes, i, k)].view@)
}

/// Node `i` is what a node must be: its identity is its place, its view is
/// valid, its operands stand before it and live on its device, and, unless
/// it holds given data, its view is the one that its operation infers from
/// the views of its operands.
pub open spec fn node_ok(nodes: Seq<Inner>, i: int) -> bool {
    &&& nodes[i].id.index == i
    &&& nodes[i].view@.valid()
    &&& forall|k: int|
        0 <= k < nodes[i].op.spec_srcs().len() ==> 0 <= #[trigger] src_index(nodes, i, k) < i
            && nodes[src_index(nodes, i, k)].device == nodes[i].device
    &&& !(nodes[i].op is Const) ==> nodes[i].op.spec_infer(src_views(nodes, i)) == Ok::<
        ViewModel,
        crate::error::OperationError,
    >(nodes[i].view@)
}

/// The slot of node `i` is what it must be: a node that holds given data has
/// storage, and the storage of a node is on the node's device and has the
/// size of the node's elements. A block of host memory is aligned as one
/// element is, and a device buffer to the size of one element.
pub open spec fn slot_ok(nodes: Seq<Inner>, storages: Seq<Option<Storage>>, i: int) -> bool {
    &&& nodes[i].op is Const ==> storages[i] is Some
    &&& storages[i] matches Some(st) ==> {
        &&& st.wf()
        &&& st.spec_n_bytes() == nodes[i].view@.num_bytes()
        &&& st.spec_device() == nodes[i].device
    }
    &&& storages[i] matches Some(Storage::CPU(block)) ==> block.spec_alignment()
        == nodes[i].view@.dt.spec_align_of()
    &&& gpu_buf(storages[i]) matches Some(b) ==> b.alignment == nodes[i].view@.dt.spec_size_of()
}

/// Whether node `j` is yet to be computed and has node `v` as an operand.
pub open spec fn pending_use(
    nodes: Seq<Inner>,
    storages: Seq<Option<Storage>>,
    j: int,
    v: int,
) -> bool {
    0 <= j < nodes.len() && storages[j] is None && uses(nodes, j, v)
}

/// Whether the value of node `v` may still be asked for: someone holds a
/// handle to the node, or a node that is yet to be computed has it as an
/// operand.
pub open spec fn live(
    nodes: Seq<Inner>,
    storages: Seq<Option<Storage>>,
    handles: Seq<usize>,
    v: int,
) -> bool {
    handles[v] > 0 || exists|j: int| #[trigger] pending_use(nodes, storages, j, v)
}

/// The device buffer of a slot, where it has one.
pub open spec fn gpu_buf(slot: Option<Storage>) -> Option<GPUBuffer> {
    match slot {
        Some(Storage::GPU(b)) => Some(b),
        _ => None,
    }
}

/// The buffer `b` is a taken storage buffer of the pool, of the size that
/// holds its bytes.
pub open spec fn backed(pool: Seq<PoolEntry>, b: GPUBuffer) -> bool {
    &&& b.inner.index < pool.len()
    &&& pool[b.inner.index as int].in_use
    &&& pool[b.inner.index as int].desc.size == rounded_size(b.size as nat)
    &&& pool[b.inner.index as int].desc.usage == BufferUsage::Storage
}

/// Every live node with a device buffer has that buffer to itself, and the
/// pool knows the buffer as taken.
pub open spec fn buffers_ok(
    nodes: Seq<Inner>,
    storages: Seq<Option<Storage>>,
    handles: Seq<usize>,
    pool: Seq<PoolEntry>,
) -> bool {
    &&& forall|v: int|
        0 <= v < nodes.len() && (#[trigger] gpu_buf(storages[v])) is Some && live(
            nodes,
            storages,
            handles,
            v,
        ) ==> backed(pool, gpu_buf(storages[v])->Some_0)
    &&& forall|v: int, w: int|
        0 <= v < nodes.len() && 0 <= w < nodes.len() && v != w && (#[trigger] gpu_buf(
            storages[v],
        )) is Some && (#[trigger] gpu_buf(storages[w])) is Some && live(nodes, storages, handles, v)
            && live(nodes, storages, handles, w) ==> gpu_buf(storages[v])->Some_0.inner != gpu_buf(
            storages[w],
        )->Some_0.inner
}

/// Trimming the pool keeps every live node's buffer its own and taken.
pub proof fn lemma_trim_keeps_buffers(
    nodes: Seq<Inner>,
    storages: Seq<Option<Storage>>,
    handles: Seq<usize>,
    pool: Seq<PoolEntry>,
    cap: nat,
    after: Seq<PoolEntry>,
)
    requires
        buffers_ok(nodes, storages, handles, pool),
        trimmed(pool, cap, after),
    ensures
        buffers_ok(nodes, storages, handles, after),
{
    assert forall|v: int|
        0 <= v < nodes.len() && (#[trigger] gpu_buf(storages[v])) is Some && live(
            nodes,
            storages,
            handles,
            v,
        ) implies backed(after, gpu_buf(storages[v])->Some_0) by {
        let b = gpu_buf(storages[v])->Some_0;
        assert(backed(pool, b));
        assert(after[b.inner.index as int].desc == pool[b.inner.index as int].desc);
    }
}

/// Whether node `i` is what a node must be depends on the nodes up to `i`
/// only.
pub proof fn lemma_node_ok_prefix(a: Seq<Inner>, b: Seq<Inner>, i: int)
    requires
        0 <= i < a.len(),
        i < b.len(),
        forall|j: int| 0 <= j <= i ==> a[j] == b[j],
        node_ok(a, i),
    ensures
        node_ok(b, i),
{
    assert forall|k: int| 0 <= k < b[i].op.spec_srcs().len() implies 0 <= #[trigger] src_index(
        b,
        i,
        k,
    ) < i && b[src_index(b, i, k)].device == b[i].device by {
        assert(src_index(a, i, k) == src_index(b, i, k));
    }
    assert(src_views(a, i) =~= src_views(b, i)) by {
        assert forall|k: int| 0 <= k < a[i].op.spec_srcs().len() implies src_views(a, i)[k]
            == src_views(b, i)[k] by {
            assert(0 <= src_index(a, i, k) < i);
        }
    }
}

/// A graph of tensors and the device that computes them.
pub struct Graph {
    nodes: Vec<Inner>,
    storages: Vec<Option<Storage>>,
    handles: Vec<usize>,
    gpu: WgpuDevice,
    uploads: Vec<Upload>,
}

impl Graph {
    /// The nodes, in the order of their creation.
    pub closed spec fn nodes(&self) -> Seq<Inner> {
        self.nodes@
    }

    /// The slots of the nodes: the storage of each node that has been given
    /// data or has been computed.
    pub closed spec fn storages(&self) -> Seq<Option<Storage>> {
        self.storages@
    }

    /// How many handles are held to each node.
    pub closed spec fn handles(&self) -> Seq<usize> {
        self.handles@
    }

    /// The resources of the device.
    pub closed spec fn gpu(&self) -> WgpuDevice {
        self.gpu
    }

    /// The copies from the host that are owed to the device, oldest first.
    pub closed spec fn uploads(&self) -> Seq<Upload> {
        self.uploads@
    }

    /// The buffers of the device.
    pub open spec fn pool(&self) -> Seq<PoolEntry> {
        self.gpu().buffers@
    }

    /// Whether `id` names a node of the graph.
    pub open spec fn has(&self, id: TensorId) -> bool {
        id.index < self.nodes().len()
    }

    /// Whether a handle to the node `id` is held.
    pub open spec fn held(&self, id: TensorId) -> bool {
        self.has(id) && self.handles()[id.index as int] > 0
    }

    /// Whether the node `id` has storage: it was given data, or it has been
    /// computed.
    pub open spec fn is_resolved(&self, id: TensorId) -> bool {
        self.has(id) && self.storages()[id.index as int] is Some
    }

    /// The graph is what a graph must be: every node and every slot is, and
    /// the live nodes with device buffers have them to themselves.
    pub open spec fn wf(&self) -> bool {
        &&& self.storages().len() == self.nodes().len()
        &&& self.handles().len() == self.nodes().len()
        &&& forall|i: int| 0 <= i < self.nodes().len() ==> #[trigger] node_ok(self.nodes(), i)
        &&& forall|i: int|
            0 <= i < self.nodes().len() ==> #[trigger] slot_ok(self.nodes(), self.storages(), i)
        &&& buffers_ok(self.nodes(), self.storages(), self.handles(), self.pool())
        &&& self.gpu().wf()
    }

    /// The shape of a node that an operation produces is the shape that the
    /// operation infers from the shapes of the node's operands.
    pub proof fn lemma_view_is_inferred(&self, id: TensorId)
        requires
            self.wf(),
            self.has(id),
            !(self.nodes()[id.index as int].op is Const),
        ensures
            self.nodes()[id.index as int].op.spec_infer(src_views(self.nodes(), id.index as int))
                == Ok::<ViewModel, crate::error::OperationError>(
                self.nodes()[id.index as int].view@,
            ),
    {
        assert(node_ok(self.nodes(), id.index as int));
    }

    /// The storage of a node fills as many bytes as the node has elements
    /// times the size of one.
    pub proof fn lemma_storage_size(&self, id: TensorId)
        requires
            self.wf(),
            self.is_resolved(id),
        ensures
            self.storages()[id.index as int]->Some_0.spec_n_bytes() == self.nodes()[id.index as int].view@.numel()
                * self.nodes()[id.index as int].view@.dt.spec_size_of() as nat,
    {
        assert(slot_ok(self.nodes(), self.storages(), id.index as int));
    }

    /// An empty graph on a device with empty pools: no node, no storage, no
    /// handle and no copy owed; no buffer, no layout and no pipeline, and no
    /// limit on the idle buffers that are kept.
    pub fn new() -> (out: Graph)
        ensures
            out.wf(),
            out.nodes() == Seq::<Inner>::empty(),
            out.storages() == Seq::<Option<Storage>>::empty(),
            out.handles() == Seq::<usize>::empty(),
            out.uploads() == Seq::<Upload>::empty(),
            out.pool() == Seq::<PoolEntry>::empty(),
            out.gpu().buffers.spec_soft_cap() == usize::MAX,
            out.gpu().buffers.spec_now() == 0,
            out.gpu().bind_group_layouts@ == Seq::<Seq<BindingType>>::empty(),
            out.gpu().pipeline_layouts@ == Seq::<Seq<BindGroupLayoutHandle>>::empty(),
            out.gpu().pipelines@ == Seq::<
                (PipelineLayoutHandle, Seq<char>, KernelElement),
            >::empty(),
    {
        Graph {
            nodes: Vec::new(),
            storages: Vec::new(),
            handles: Vec::new(),
            gpu: WgpuDevice::new(),
            uploads: Vec::new(),
        }
    }

    /// The number of nodes.
    pub fn len(&self) -> (n: usize)
        ensures
            n == self.nodes().len(),
    {
        self.nodes.len()
    }

    /// The node `id`.
    pub fn node(&self, id: TensorId) -> (out: &Inner)
        requires
            self.has(id),
        ensures
            *out == self.nodes()[id.index as int],
    {
        &self.nodes[id.index]
    }

    /// The storage of the node `id`, where it has any.
    pub fn storage(&self, id: TensorId) -> (out: &Option<Storage>)
        requires
            self.has(id),
            self.storages().len() == self.nodes().len(),
        ensures
            *out == self.storages()[id.index as int],
    {
        &self.storages[id.index]
    }

    /// Whether the node `id` has storage.
    pub fn resolved(&self, id: TensorId) -> (b: bool)
        requires
            self.has(id),
            self.storages().len() == self.nodes().len(),
        ensures
            b == self.is_resolved(id),
    {
        self.storages[id.index].is_some()
    }

    /// How many handles are held to the node `id`.
    pub fn handle_count(&self, id: TensorId) -> (n: usize)
        requires
            self.has(id),
            self.handles().len() == self.nodes().len(),
        ensures
            n == self.handles()[id.index as int],
    {
        self.handles[id.index]
    }

    /// The resources of the device.
    pub fn device(&self) -> (out: &WgpuDevice)
        ensures
            *out == self.gpu(),
    {
        &self.gpu
    }

    /// The copies that are owed to the device, oldest first. They are taken
    /// out of the graph: whoever takes them makes them.
    pub fn take_uploads(&mut self) -> (out: Vec<Upload>)
        ensures
            out@ == old(self).uploads(),
            final(self).uploads() == Seq::<Upload>::empty(),
            final(self).nodes() == old(self).nodes(),
            final(self).storages() == old(self).storages(),
            final(self).handles() == old(self).handles(),
            final(self).gpu() == old(self).gpu(),
            old(self).wf() ==> final(self).wf(),
    {
        let mut out: Vec<Upload> = Vec::new();
        std::mem::swap(&mut out, &mut self.uploads);
        out
    }

    /// Whether node `j` has node `v` as an operand.
    pub fn node_uses(&self, j: usize, v: usize) -> (b: bool)
        requires
            j < self.nodes().len(),
        ensures
            b == uses(self.nodes(), j as int, v as int),
    {
        let srcs = self.nodes[j].op.srcs();
        let mut k: usize = 0;
        while k < srcs.len()
            invariant
                k <= srcs.len(),
                j < self.nodes@.len(),
                srcs@ == self.nodes@[j as int].op.spec_srcs(),
                forall|m: int| 0 <= m < k ==> #[trigger] src_index(self.nodes@, j as int, m) != v,
            decreases srcs.len() - k,
        {
            if srcs[k].index == v {
                assert(src_index(self.nodes@, j as int, k as int) == v);
                return true;
            }
            k += 1;
        }
        false
    }

    /// Whether the value of the node `id` may still be asked for.
    pub fn is_live(&self, id: TensorId) -> (b: bool)
        requires
            self.has(id),
            self.storages().len() == self.nodes().len(),
            self.handles().len() == self.nodes().len(),
        ensures
            b == live(self.nodes(), self.storages(), self.handles(), id.index as int),
    {
        if self.handles[id.index] > 0 {
            return true;
        }
        let n = self.nodes.len();
        let mut j: usize = 0;
        while j < n
            invariant
                j <= n,
                n == self.nodes@.len(),
                self.storages@.len() == n,
                forall|m: int|
                    0 <= m < j ==> !#[trigger] pending_use(
                        self.nodes@,
                        self.storages@,
                        m,
                        id.index as int,
                    ),
            decreases n - j,
        {
            if self.storages[j].is_none() && self.node_uses(j, id.index) {
                assert(pending_use(self.nodes@, self.storages@, j as int, id.index as int));
                return true;
            }
            j += 1;
        }
        false
    }

    /// Adds a node and gives it one handle.
    pub(crate) fn add_node(
        &mut self,
        op: LazyOp,
        view: StorageView,
        device: Device,
        storage: Option<Storage>,
    ) -> (id: TensorId)
        requires
            old(self).storages().len() == old(self).nodes().len(),
            old(self).handles().len() == old(self).nodes().len(),
        ensures
            id.index == old(self).nodes().len(),
            final(self).nodes() == old(self).nodes().push(
                (Inner { id, op, device, view }),
            ),
            final(self).storages() == old(self).storages().push(storage),
            final(self).handles() == old(self).handles().push(1usize),
            final(self).gpu() == old(self).gpu(),
            final(self).uploads() == old(self).uploads(),
    {
        let id = TensorId { index: self.nodes.len() };
        self.nodes.push(Inner { id, op, device, view });
        self.storages.push(storage);
        self.handles.push(1);
        id
    }

    /// Takes a buffer from the device's pool.
    pub(crate) fn alloc_buffer(&mut self, desc: BufferDescriptor) -> (handle: BufferHandle)
        ensures
            allocated(old(self).pool(), desc, final(self).pool(), handle.index as int),
            old(self).gpu().buffers.within_cap() ==> final(self).gpu().buffers.within_cap(),
            final(self).gpu().buffers.spec_soft_cap() == old(self).gpu().buffers.spec_soft_cap(),
            final(self).gpu().buffers.spec_now() == old(self).gpu().buffers.spec_now(),
            final(self).nodes() == old(self).nodes(),
            final(self).storages() == old(self).storages(),
            final(self).handles() == old(self).handles(),
            final(self).uploads() == old(self).uploads(),
            final(self).gpu().bind_group_layouts == old(self).gpu().bind_group_layouts,
            final(self).gpu().pipeline_layouts == old(self).gpu().pipeline_layouts,
            final(self).gpu().pipelines == old(self).gpu().pipelines,
    {
        self.gpu.buffers.allocate(desc)
    }

    /// The pool of buffers after the buffer behind `handle` has been given
    /// back and before the pool is trimmed.
    pub open spec fn pool_without(&self, handle: BufferHandle) -> Seq<PoolEntry> {
        self.pool().update(
            handle.index as int,
            (PoolEntry {
                desc: self.pool()[handle.index as int].desc,
                in_use: false,
                resident: self.pool()[handle.index as int].resident,
                freed_at: self.gpu().buffers.spec_now(),
            }),
        )
    }

    /// Gives a buffer back to the device's pool, and trims the pool.
    pub(crate) fn release_buffer(&mut self, handle: BufferHandle)
        requires
            handle.index < old(self).pool().len(),
        ensures
            trimmed(
                old(self).pool_without(handle),
                old(self).gpu().buffers.spec_soft_cap() as nat,
                final(self).pool(),
            ),
            final(self).gpu().buffers.within_cap(),
            final(self).gpu().buffers.spec_soft_cap() == old(self).gpu().buffers.spec_soft_cap(),
            final(self).gpu().buffers.spec_now() == later(old(self).gpu().buffers.spec_now()),
            final(self).nodes() == old(self).nodes(),
            final(self).storages() == old(self).storages(),
            final(self).handles() == old(self).handles(),
            final(self).uploads() == old(self).uploads(),
            final(self).gpu().bind_group_layouts == old(self).gpu().bind_group_layouts,
            final(self).gpu().pipeline_layouts == old(self).gpu().pipeline_layouts,
            final(self).gpu().pipelines == old(self).gpu().pipelines,
    {
        self.gpu.buffers.release(handle);
        self.gpu.buffers.trim();
    }

    /// Puts another pool of buffers in the place of the device's, and trims
    /// it.
    pub(crate) fn set_pool(&mut self, pool: BufferPool)
        ensures
            trimmed(pool@, pool.spec_soft_cap() as nat, final(self).pool()),
            final(self).gpu().buffers.within_cap(),
            final(self).gpu().buffers.spec_soft_cap() == pool.spec_soft_cap(),
            final(self).gpu().buffers.spec_now() == pool.spec_now(),
            final(self).nodes() == old(self).nodes(),
            final(self).storages() == old(self).storages(),
            final(self).handles() == old(self).handles(),
            final(self).uploads() == old(self).uploads(),
            final(self).gpu().bind_group_layouts == old(self).gpu().bind_group_layouts,
            final(self).gpu().pipeline_layouts == old(self).gpu().pipeline_layouts,
            final(self).gpu().pipelines == old(self).gpu().pipelines,
    {
        self.gpu.buffers = pool;
        self.gpu.buffers.trim();
    }

    /// Sets the largest number of idle buffers that the pool of the device
    /// keeps, and lets go of the idle buffers beyond it, the ones that were
    /// given back longest ago first.
    pub fn set_buffer_soft_cap(&mut self, cap: usize)
        requires
            old(self).wf(),
        ensures
            final(self).wf(),
            final(self).gpu().buffers.spec_soft_cap() == cap,
            final(self).gpu().buffers.spec_now() == old(self).gpu().buffers.spec_now(),
            trimmed(old(self).pool(), cap as nat, final(self).pool()),
            final(self).nodes() == old(self).nodes(),
            final(self).storages() == old(self).storages(),
            final(self).handles() == old(self).handles(),
            final(self).uploads() == old(self).uploads(),
            final(self).gpu().bind_group_layouts == old(self).gpu().bind_group_layouts,
            final(self).gpu().pipeline_layouts == old(self).gpu().pipeline_layouts,
            final(self).gpu().pipelines == old(self).gpu().pipelines,
    {
        self.gpu.buffers.set_soft_cap(cap);
        proof {
            lemma_trim_keeps_buffers(
                self.nodes(),
                self.storages(),
                self.handles(),
                old(self).pool(),
                cap as nat,
                self.pool(),
            );
            assert forall|i: int| 0 <= i < self.nodes().len() implies #[trigger] node_ok(
                self.nodes(),
                i,
            ) by {
                assert(node_ok(old(self).nodes(), i));
            }
            assert forall|i: int| 0 <= i < self.nodes().len() implies #[trigger] slot_ok(
                self.nodes(),
                self.storages(),
                i,
            ) by {
                assert(slot_ok(old(self).nodes(), old(self).storages(), i));
            }
        }
    }

    /// Notes a copy that is owed to the device.
    pub(crate) fn push_upload(&mut self, upload: Upload)
        ensures
            final(self).uploads() == old(self).uploads().push(upload),
            final(self).nodes() == old(self).nodes(),
            final(self).storages() == old(self).storages(),
            final(self).handles() == old(self).handles(),
            final(self).gpu() == old(self).gpu(),
    {
        self.uploads.push(upload);
    }

    /// Fills the slot of the node `id`.
    pub(crate) fn set_storage(&mut self, id: TensorId, storage: Storage)
        requires
            old(self).has(id),
            old(self).storages().len() == old(self).nodes().len(),
        ensures
            final(self).storages() == old(self).storages().update(id.index as int, Some(storage)),
            final(self).nodes() == old(self).nodes(),
            final(self).handles() == old(self).handles(),
            final(self).uploads() == old(self).uploads(),
            final(self).gpu() == old(self).gpu(),
    {
        self.storages.set(id.index, Some(storage));
    }

    /// Sets the number of handles held to the node `id`.
    pub(crate) fn set_handles(&mut self, id: TensorId, count: usize)
        requires
            old(self).has(id),
            old(self).handles().len() == old(self).nodes().len(),
        ensures
            final(self).handles() == old(self).handles().update(id.index as int, count),
            final(self).nodes() == old(self).nodes(),
            final(self).storages() == old(self).storages(),
            final(self).uploads() == old(self).uploads(),
            final(self).gpu() == old(self).gpu(),
    {
        self.handles.set(id.index, count);
    }

    /// The handles of the pipeline that runs the kernel `kernel_key` with the
    /// element width `elem` over storage bindings laid out as `storage`.
    /// What the pools do not hold yet is added to them.
    pub(crate) fn pipeline_for(
        &mut self,
        storage: &BindGroupLayoutDescriptor,
        kernel_key: String,
        elem: KernelElement,
    ) -> (out: PipelineHandles)
        requires
            old(self).gpu().wf(),
        ensures
            final(self).gpu().wf(),
            pools_extend(old(self).gpu(), final(self).gpu()),
            pools_asked(old(self).gpu(), final(self).gpu(), out, storage@, kernel_key@, elem),
            pipeline_is(final(self).gpu(), out, storage@, kernel_key@, elem),
            final(self).gpu().buffers == old(self).gpu().buffers,
            final(self).nodes() == old(self).nodes(),
            final(self).storages() == old(self).storages(),
            final(self).handles() == old(self).handles(),
            final(self).uploads() == old(self).uploads(),
    {
        let ghost g0 = self.gpu;
        let storage_layout = BindGroupLayoutHandle {
            index: self.gpu.bind_group_layouts.get_or_create(storage),
        };
        let ghost g1 = self.gpu;
        proof {
            lemma_looked_up_distinct(
                g0.bind_group_layouts@,
                storage@,
                g1.bind_group_layouts@,
                storage_layout.index as int,
            );
        }
        let uniform = BindGroupLayoutDescriptor::uniform();
        let uniform_layout = BindGroupLayoutHandle {
            index: self.gpu.bind_group_layouts.get_or_create(&uniform),
        };
        let ghost g2 = self.gpu;
        proof {
            lemma_looked_up_distinct(
                g1.bind_group_layouts@,
                uniform@,
                g2.bind_group_layouts@,
                uniform_layout.index as int,
            );
        }
        let layout = PipelineLayoutDescriptor::new(storage_layout, uniform_layout);
        let pipeline_layout = PipelineLayoutHandle {
            index: self.gpu.pipeline_layouts.get_or_create(&layout),
        };
        let ghost g3 = self.gpu;
        proof {
            lemma_looked_up_distinct(
                g2.pipeline_layouts@,
                layout@,
                g3.pipeline_layouts@,
                pipeline_layout.index as int,
            );
        }
        let desc = ComputePipelineDescriptor::new(pipeline_layout, kernel_key, elem);
        proof {
            g3.pipelines.lemma_wf();
        }
        let pipeline = self.gpu.pipelines.get_or_create(&desc);
        proof {
            lemma_looked_up_distinct(
                g3.pipelines@,
                desc@,
                self.gpu.pipelines@,
                pipeline.index as int,
            );
        }
        PipelineHandles { pipeline, pipeline_layout, storage_layout, uniform_layout }
    }
}

} // verus!
