//! Building a graph: nodes that hold given data, and nodes that operations
//! produce from other nodes. Nothing is computed here.

use vstd::prelude::*;
use crate::binary::{Binary, BinaryOp};
use crate::conv::Conv1D;
use crate::cpu_buffer::{layout_valid, CPUBuffer};
use crate::dtype::DType;
use crate::error::OperationError;
use crate::gemm::Gemm;
use crate::gpu_buffer::{
    allocated, rounded_size, BufferDescriptor, BufferUsage, GPUBuffer, PoolEntry,
};
use crate::graph::{
    backed, buffers_ok, gpu_buf, lemma_node_ok_prefix, live, node_ok, pending_use, slot_ok,
    src_index, src_views, Graph, Inner, Upload,
};
use crate::index_write::IndexWrite;
use crate::layer_norm::LayerNorm;
use crate::lazy_op::LazyOp;
use crate::matmul::Matmul;
use crate::permute::Permute;
use crate::reshape::Reshape;
use crate::shape::Shape;
use crate::storage::{Device, Storage};
use crate::tensor_id::TensorId;
use crate::unary::{Unary, UnaryOp};
use crate::view::{StorageView, ViewModel};

verus! {

/// The view of the node that `op` would produce in a graph with the nodes
/// `nodes`, or the reason why there is no such node: the reason why the
/// operation cannot be applied to the views of its operands, or, where it
/// can, that its operands live on different devices.
pub open spec fn build_result(nodes: Seq<Inner>, op: LazyOp) -> Result<ViewModel, OperationError> {
    let srcs = op.spec_srcs();
    let views = Seq::new(srcs.len(), |k: int| nodes[srcs[k].index as int].view@);
    match op.spec_infer(views) {
        Err(e) => Err(e),
        Ok(view) => if forall|k: int|
            0 <= k < srcs.len() ==> (#[trigger] nodes[srcs[k].index as int]).device
                == nodes[srcs[0].index as int].device {
            Ok(view)
        } else {
            Err(OperationError::DeviceMismatch)
        },
    }
}

/// An element-wise operation on two nodes of one shape, one element type
/// and one device, which a kernel can be told of, can be built: the node
/// that it produces has their shape and element type. This holds of nodes
/// without elements as of any others.
pub proof fn lemma_same_shape_builds(nodes: Seq<Inner>, lhs: TensorId, rhs: TensorId, op: BinaryOp)
    requires
        nodes[lhs.index as int].view@.kernel_ready(),
        nodes[rhs.index as int].view@.kernel_ready(),
        nodes[lhs.index as int].view@.shape == nodes[rhs.index as int].view@.shape,
        nodes[lhs.index as int].view@.dt == nodes[rhs.index as int].view@.dt,
        nodes[lhs.index as int].device == nodes[rhs.index as int].device,
    ensures
        build_result(nodes, LazyOp::Binary(Binary { lhs, rhs, op })) == Ok::<
            ViewModel,
            OperationError,
        >(
            ViewModel::contiguous(
                nodes[lhs.index as int].view@.shape,
                nodes[lhs.index as int].view@.dt,
            ),
        ),
{
    crate::binary::lemma_infer_same_shape(nodes[lhs.index as int].view@, nodes[rhs.index as int].view@);
    let bop = LazyOp::Binary(Binary { lhs, rhs, op });
    let srcs = bop.spec_srcs();
    assert(srcs =~= seq![lhs, rhs]);
    assert forall|k: int| 0 <= k < srcs.len() implies (#[trigger] nodes[srcs[k].index as int]).device
        == nodes[srcs[0].index as int].device by {}
}

/// Adding a node keeps what holds of the nodes before it.
pub proof fn lemma_push_keeps_nodes(
    nodes: Seq<Inner>,
    storages: Seq<Option<Storage>>,
    node: Inner,
    slot: Option<Storage>,
)
    requires
        storages.len() == nodes.len(),
        forall|i: int| 0 <= i < nodes.len() ==> #[trigger] node_ok(nodes, i),
        forall|i: int| 0 <= i < nodes.len() ==> #[trigger] slot_ok(nodes, storages, i),
    ensures
        forall|i: int| 0 <= i < nodes.len() ==> #[trigger] node_ok(nodes.push(node), i),
        forall|i: int|
            0 <= i < nodes.len() ==> #[trigger] slot_ok(nodes.push(node), storages.push(slot), i),
{
    let grown = nodes.push(node);
    assert forall|i: int| 0 <= i < nodes.len() implies #[trigger] node_ok(grown, i) by {
        assert(node_ok(nodes, i));
        lemma_node_ok_prefix(nodes, grown, i);
    }
    assert forall|i: int| 0 <= i < nodes.len() implies #[trigger] slot_ok(
        grown,
        storages.push(slot),
        i,
    ) by {
        assert(slot_ok(nodes, storages, i));
    }
}

/// Adding a node whose operands are held keeps every live node's buffer its
/// own, where the new node's buffer, if it has one, is taken and is no live
/// node's.
pub proof fn lemma_push_keeps_buffers(
    nodes: Seq<Inner>,
    storages: Seq<Option<Storage>>,
    handles: Seq<usize>,
    pool: Seq<PoolEntry>,
    node: Inner,
    slot: Option<Storage>,
)
    requires
        storages.len() == nodes.len(),
        handles.len() == nodes.len(),
        buffers_ok(nodes, storages, handles, pool),
        forall|k: int|
            0 <= k < node.op.spec_srcs().len() ==> 0 <= (#[trigger] node.op.spec_srcs()[k]).index
                < nodes.len() && handles[node.op.spec_srcs()[k].index as int] > 0,
        gpu_buf(slot) matches Some(b) ==> {
            &&& backed(pool, b)
            &&& forall|v: int|
                0 <= v < nodes.len() && (#[trigger] gpu_buf(storages[v])) is Some && live(
                    nodes,
                    storages,
                    handles,
                    v,
                ) ==> gpu_buf(storages[v])->Some_0.inner != b.inner
        },
    ensures
        buffers_ok(nodes.push(node), storages.push(slot), handles.push(1usize), pool),
{
    let n = nodes.len() as int;
    let nodes2 = nodes.push(node);
    let storages2 = storages.push(slot);
    let handles2 = handles.push(1usize);
    assert forall|v: int| 0 <= v < n && live(nodes2, storages2, handles2, v) implies live(
        nodes,
        storages,
        handles,
        v,
    ) by {
        if handles2[v] == 0 {
            let j = choose|j: int| #[trigger] pending_use(nodes2, storages2, j, v);
            let k = choose|k: int|
                0 <= k < nodes2[j].op.spec_srcs().len() && #[trigger] src_index(nodes2, j, k) == v;
            if j < n {
                assert(src_index(nodes, j, k) == v);
                assert(pending_use(nodes, storages, j, v));
            } else {
                assert(node.op.spec_srcs()[k].index == v);
            }
        }
    }
    assert forall|v: int|
        0 <= v < nodes2.len() && (#[trigger] gpu_buf(storages2[v])) is Some && live(
            nodes2,
            storages2,
            handles2,
            v,
        ) implies backed(pool, gpu_buf(storages2[v])->Some_0) by {
        if v < n {
            assert(gpu_buf(storages[v]) is Some);
        }
    }
    assert forall|v: int, w: int|
        0 <= v < nodes2.len() && 0 <= w < nodes2.len() && v != w && (#[trigger] gpu_buf(
            storages2[v],
        )) is Some && (#[trigger] gpu_buf(storages2[w])) is Some && live(
            nodes2,
            storages2,
            handles2,
            v,
        ) && live(nodes2, storages2, handles2, w) implies gpu_buf(storages2[v])->Some_0.inner
        != gpu_buf(storages2[w])->Some_0.inner by {
        if v < n {
            assert(gpu_buf(storages[v]) is Some);
        }
        if w < n {
            assert(gpu_buf(storages[w]) is Some);
        }
    }
}

impl Graph {
    /// The graph has one node more than `before`: the node `id`, produced by
    /// `op`, with the view `view`, on `device`, with one handle. Nothing else
    /// has changed but the slot of the new node.
    pub open spec fn grown_from(
        &self,
        before: &Graph,
        id: TensorId,
        op: LazyOp,
        view: ViewModel,
        device: Device,
    ) -> bool {
        let n = before.nodes().len() as int;
        &&& id.index == n
        &&& self.nodes().len() == n + 1
        &&& self.nodes().take(n) == before.nodes()
        &&& self.nodes()[n].id == id
        &&& self.nodes()[n].op == op
        &&& self.nodes()[n].device == device
        &&& self.nodes()[n].view@ == view
        &&& self.storages().len() == n + 1
        &&& self.storages().take(n) == before.storages()
        &&& self.handles() == before.handles().push(1usize)
    }

    /// Nothing of the graph differs from `before`.
    pub open spec fn same_as(&self, before: &Graph) -> bool {
        &&& self.nodes() == before.nodes()
        &&& self.storages() == before.storages()
        &&& self.handles() == before.handles()
        &&& self.gpu() == before.gpu()
        &&& self.uploads() == before.uploads()
    }

    /// Adds the node that `op` produces, with the view `view`.
    pub(crate) fn add_op(&mut self, op: LazyOp, view: StorageView, device: Device) -> (id: TensorId)
        requires
            old(self).wf(),
            !(op is Const),
            view@.valid(),
            op.spec_srcs().len() >= 1,
            forall|k: int|
                0 <= k < op.spec_srcs().len() ==> old(self).held(#[trigger] op.spec_srcs()[k])
                    && old(self).nodes()[op.spec_srcs()[k].index as int].device == device,
            build_result(old(self).nodes(), op) == Ok::<ViewModel, OperationError>(view@),
        ensures
            final(self).wf(),
            final(self).grown_from(old(self), id, op, view@, device),
            final(self).storages()[id.index as int] is None,
            final(self).gpu() == old(self).gpu(),
            final(self).uploads() == old(self).uploads(),
    {
        let ghost nodes = self.nodes();
        let ghost storages = self.storages();
        let ghost handles = self.handles();
        let ghost n = nodes.len() as int;
        let id = self.add_node(op, view, device, None);
        proof {
            let node = self.nodes()[n];
            assert(self.nodes() == nodes.push(node));
            lemma_push_keeps_nodes(nodes, storages, node, None);
            assert forall|k: int|
                0 <= k < node.op.spec_srcs().len() implies 0 <= (#[trigger] node.op.spec_srcs()[k]).index
                < nodes.len() && handles[node.op.spec_srcs()[k].index as int] > 0 by {
                assert(old(self).held(op.spec_srcs()[k]));
            }
            lemma_push_keeps_buffers(nodes, storages, handles, old(self).pool(), node, None);
            assert(src_views(self.nodes(), n) =~= Seq::new(
                op.spec_srcs().len(),
                |k: int| nodes[op.spec_srcs()[k].index as int].view@,
            )) by {
                assert forall|k: int| 0 <= k < op.spec_srcs().len() implies src_views(
                    self.nodes(),
                    n,
                )[k] == nodes[op.spec_srcs()[k].index as int].view@ by {
                    assert(old(self).held(op.spec_srcs()[k]));
                }
            }
            assert(node_ok(self.nodes(), n)) by {
                assert forall|k: int| 0 <= k < node.op.spec_srcs().len() implies 0
                    <= #[trigger] src_index(self.nodes(), n, k) < n && self.nodes()[src_index(
                    self.nodes(),
                    n,
                    k,
                )].device == node.device by {
                    assert(old(self).held(op.spec_srcs()[k]));
                }
            }
            assert(slot_ok(self.nodes(), self.storages(), n));
            assert(self.nodes().take(n) =~= nodes);
            assert(self.storages().take(n) =~= storages);
        }
        id
    }

    /// What adding a node that holds the bytes `bytes`, of the element type
    /// `dtype` and the shape `shape`, does on `device`, `before` being the
    /// graph before and `id` the new node. On the CPU the node has a block of
    /// host memory with those bytes, and the device is untouched. On the GPU
    /// the node has a buffer from the pool, of the size of the bytes and
    /// aligned to one element, and the copy of the bytes into it is owed.
    pub open spec fn given(
        &self,
        before: &Graph,
        id: TensorId,
        bytes: Seq<u8>,
        dtype: DType,
        shape: Seq<usize>,
        device: Device,
    ) -> bool {
        &&& self.grown_from(before, id, LazyOp::Const, ViewModel::contiguous(shape, dtype), device)
        &&& self.gpu().bind_group_layouts == before.gpu().bind_group_layouts
        &&& self.gpu().pipeline_layouts == before.gpu().pipeline_layouts
        &&& self.gpu().pipelines == before.gpu().pipelines
        &&& self.gpu().buffers.spec_soft_cap() == before.gpu().buffers.spec_soft_cap()
        &&& self.gpu().buffers.spec_now() == before.gpu().buffers.spec_now()
        &&& match self.storages()[id.index as int] {
            Some(Storage::CPU(block)) => {
                &&& device == Device::CPU
                &&& block@ == bytes
                &&& block.spec_alignment() == dtype.spec_align_of()
                &&& self.gpu() == before.gpu()
                &&& self.uploads() == before.uploads()
            },
            Some(Storage::GPU(buffer)) => {
                &&& device == Device::GPU
                &&& buffer.size == bytes.len()
                &&& buffer.alignment == dtype.spec_size_of()
                &&& allocated(
                    before.pool(),
                    BufferDescriptor {
                        size: rounded_size(bytes.len()) as usize,
                        usage: BufferUsage::Storage,
                    },
                    self.pool(),
                    buffer.inner.index as int,
                )
                &&& self.uploads().len() == before.uploads().len() + 1
                &&& self.uploads().take(before.uploads().len() as int) == before.uploads()
                &&& self.uploads().last().buffer == buffer.inner
                &&& self.uploads().last().data@ == bytes
                &&& self.uploads().last().from is None
            },
            None => false,
        }
    }

    /// Adds a node that holds the elements `bytes` of a tensor with the given
    /// element type and shape. The node is resolved from the start. On the
    /// CPU the bytes are copied into a block of host memory. On the GPU a
    /// buffer is taken from the pool, and the copy of the bytes into it is
    /// noted as owed to the device.
    #[verifier::rlimit(50)]
    pub fn from_data(&mut self, bytes: &[u8], dtype: DType, shape: Shape, device: Device) -> (id:
        TensorId)
        requires
            old(self).wf(),
            shape.spec_fits(),
            bytes@.len() == shape.spec_numel() * dtype.spec_size_of(),
            layout_valid(bytes@.len() as usize, dtype.spec_align_of()),
        ensures
            final(self).wf(),
            final(self).held(id),
            final(self).is_resolved(id),
            final(self).given(old(self), id, bytes@, dtype, shape@, device),
    {
        let ghost nodes = self.nodes();
        let ghost storages = self.storages();
        let ghost handles = self.handles();
        let ghost pool = self.pool();
        let ghost uploads = self.uploads();
        let ghost n = nodes.len() as int;
        let size = bytes.len();
        let view = StorageView::contiguous(shape, dtype);
        assert(view@.shape == shape@);
        assert(view@.strides.len() == view@.shape.len());
        assert(view@.num_bytes() == bytes@.len());
        assert(view@.valid());
        let block = CPUBuffer::from_slice(bytes, dtype, &view.shape);
        let storage = match device {
            Device::CPU => Storage::CPU(block),
            Device::GPU => {
                let desc = match BufferDescriptor::storage(size) {
                    Some(desc) => desc,
                    None => {
                        proof {
                            assert(rounded_size(size as nat) <= size + 4);
                        }
                        vstd::pervasive::unreached()
                    },
                };
                let handle = self.alloc_buffer(desc);
                self.push_upload(Upload { buffer: handle, data: block, from: None });
                Storage::GPU(GPUBuffer { inner: handle, alignment: dtype.size_of(), size })
            },
        };
        let ghost slot = Some(storage);
        let ghost mid_pool = self.pool();
        proof {
            if device == Device::GPU {
                let b = gpu_buf(slot)->Some_0;
                assert forall|v: int|
                    0 <= v < nodes.len() && (#[trigger] gpu_buf(storages[v])) is Some && live(
                        nodes,
                        storages,
                        handles,
                        v,
                    ) implies backed(mid_pool, gpu_buf(storages[v])->Some_0) && gpu_buf(
                    storages[v],
                )->Some_0.inner != b.inner by {
                    assert(backed(pool, gpu_buf(storages[v])->Some_0));
                }
                assert(buffers_ok(nodes, storages, handles, mid_pool));
            }
        }
        let id = self.add_node(LazyOp::Const, view, device, Some(storage));
        proof {
            let node = self.nodes()[n];
            assert(self.nodes() == nodes.push(node));
            lemma_push_keeps_nodes(nodes, storages, node, slot);
            lemma_push_keeps_buffers(nodes, storages, handles, mid_pool, node, slot);
            assert(node.op.spec_srcs().len() == 0);
            assert(node.view@.valid());
            assert(node.id.index == n);
            assert(node_ok(self.nodes(), n));
            assert(slot_ok(self.nodes(), self.storages(), n));
            assert(self.nodes().take(n) =~= nodes);
            assert(self.storages().take(n) =~= storages);
            if device == Device::GPU {
                assert(self.uploads().take(uploads.len() as int) =~= uploads);
            }
        }
        id
    }

    /// What adding the node that `op` produces does. Where the operation can
    /// be applied, the graph has the new node `id`, not yet computed, with
    /// the view that the operation infers, on the device of its operands;
    /// otherwise the graph is as before, and the error says why.
    pub open spec fn built(
        &self,
        before: &Graph,
        op: LazyOp,
        out: Result<TensorId, OperationError>,
    ) -> bool {
        match out {
            Ok(id) => {
                &&& self.wf()
                &&& build_result(before.nodes(), op) is Ok
                &&& self.grown_from(
                    before,
                    id,
                    op,
                    build_result(before.nodes(), op)->Ok_0,
                    before.nodes()[op.spec_srcs()[0].index as int].device,
                )
                &&& self.storages()[id.index as int] is None
                &&& self.gpu() == before.gpu()
                &&& self.uploads() == before.uploads()
            },
            Err(e) => build_result(before.nodes(), op) == Err::<ViewModel, OperationError>(e)
                && self.same_as(before),
        }
    }

    /// Adds the node that the element-wise operation `op` produces from the
    /// nodes `lhs` and `rhs`.
    pub fn binary(&mut self, lhs: TensorId, rhs: TensorId, op: BinaryOp) -> (out: Result<
        TensorId,
        OperationError,
    >)
        requires
            old(self).wf(),
            old(self).held(lhs),
            old(self).held(rhs),
        ensures
            final(self).built(old(self), LazyOp::Binary(Binary { lhs, rhs, op }), out),
    {
        let ghost lazy = LazyOp::Binary(Binary { lhs, rhs, op });
        let ghost nodes = self.nodes();
        proof {
            assert(node_ok(nodes, lhs.index as int));
            assert(node_ok(nodes, rhs.index as int));
            assert(Seq::new(2, |k: int| nodes[lazy.spec_srcs()[k].index as int].view@)[0]
                == nodes[lhs.index as int].view@);
            assert(Seq::new(2, |k: int| nodes[lazy.spec_srcs()[k].index as int].view@)[1]
                == nodes[rhs.index as int].view@);
        }
        let device = self.node(lhs).device;
        match Binary::infer_output(&self.node(lhs).view, &self.node(rhs).view) {
            Err(e) => Err(e),
            Ok(view) => {
                if self.node(rhs).device != device {
                    assert(nodes[lazy.spec_srcs()[1].index as int].device
                        != nodes[lazy.spec_srcs()[0].index as int].device);
                    return Err(OperationError::DeviceMismatch);
                }
                Ok(self.add_op(LazyOp::Binary(Binary::new(lhs, rhs, op)), view, device))
            },
        }
    }

    /// Adds the node that the element-wise operation `op` produces from the
    /// node `input`.
    pub fn unary(&mut self, input: TensorId, op: UnaryOp) -> (out: Result<TensorId, OperationError>)
        requires
            old(self).wf(),
            old(self).held(input),
        ensures
            final(self).built(old(self), LazyOp::Unary(Unary { input, op }), out),
    {
        let ghost lazy = LazyOp::Unary(Unary { input, op });
        let ghost nodes = self.nodes();
        proof {
            assert(node_ok(nodes, input.index as int));
            assert(Seq::new(1, |k: int| nodes[lazy.spec_srcs()[k].index as int].view@)[0]
                == nodes[input.index as int].view@);
        }
        let device = self.node(input).device;
        let unary = Unary::new(input, op);
        match unary.infer_output(&self.node(input).view) {
            Err(e) => Err(e),
            Ok(view) => Ok(self.add_op(LazyOp::Unary(unary), view, device)),
        }
    }

    /// Adds the node that is the matrix product of the nodes `lhs` and `rhs`.
    pub fn matmul(&mut self, lhs: TensorId, rhs: TensorId) -> (out: Result<TensorId, OperationError>)
        requires
            old(self).wf(),
            old(self).held(lhs),
            old(self).held(rhs),
        ensures
            final(self).built(old(self), LazyOp::Matmul(Matmul { lhs, rhs }), out),
    {
        let ghost lazy = LazyOp::Matmul(Matmul { lhs, rhs });
        let ghost nodes = self.nodes();
        proof {
            assert(node_ok(nodes, lhs.index as int));
            assert(node_ok(nodes, rhs.index as int));
            assert(Seq::new(2, |k: int| nodes[lazy.spec_srcs()[k].index as int].view@)[0]
                == nodes[lhs.index as int].view@);
            assert(Seq::new(2, |k: int| nodes[lazy.spec_srcs()[k].index as int].view@)[1]
                == nodes[rhs.index as int].view@);
        }
        let device = self.node(lhs).device;
        match Matmul::infer_output(&self.node(lhs).view, &self.node(rhs).view) {
            Err(e) => Err(e),
            Ok(view) => {
                if self.node(rhs).device != device {
                    assert(nodes[lazy.spec_srcs()[1].index as int].device
                        != nodes[lazy.spec_srcs()[0].index as int].device);
                    return Err(OperationError::DeviceMismatch);
                }
                Ok(self.add_op(LazyOp::Matmul(Matmul::new(lhs, rhs)), view, device))
            },
        }
    }

    /// Adds the node that is the node `dst` with the node `src` written into
    /// the block that starts at `write_start`.
    pub fn index_write(&mut self, dst: TensorId, src: TensorId, write_start: Vec<usize>) -> (out:
        Result<TensorId, OperationError>)
        requires
            old(self).wf(),
            old(self).held(dst),
            old(self).held(src),
        ensures
            final(self).built(
                old(self),
                LazyOp::IndexWrite(IndexWrite { dst, src, write_start }),
                out,
            ),
    {
        let ghost lazy = LazyOp::IndexWrite(IndexWrite { dst, src, write_start });
        let ghost nodes = self.nodes();
        proof {
            assert(node_ok(nodes, dst.index as int));
            assert(node_ok(nodes, src.index as int));
            assert(Seq::new(2, |k: int| nodes[lazy.spec_srcs()[k].index as int].view@)[0]
                == nodes[dst.index as int].view@);
            assert(Seq::new(2, |k: int| nodes[lazy.spec_srcs()[k].index as int].view@)[1]
                == nodes[src.index as int].view@);
        }
        let device = self.node(dst).device;
        let op = IndexWrite { dst, src, write_start };
        match op.check_invariants(&self.node(dst).view, &self.node(src).view) {
            Err(e) => Err(e),
            Ok(_) => {
                if self.node(src).device != device {
                    assert(nodes[lazy.spec_srcs()[1].index as int].device
                        != nodes[lazy.spec_srcs()[0].index as int].device);
                    return Err(OperationError::DeviceMismatch);
                }
                let view = self.node(dst).view.clone();
                Ok(self.add_op(LazyOp::IndexWrite(op), view, device))
            },
        }
    }

    /// Adds the node that is the node `input` with its dimensions in the
    /// order `axes`.
    pub fn permute(&mut self, input: TensorId, axes: Vec<usize>) -> (out: Result<
        TensorId,
        OperationError,
    >)
        requires
            old(self).wf(),
            old(self).held(input),
        ensures
            final(self).built(old(self), LazyOp::Permute(Permute { input, axes }), out),
    {
        let ghost lazy = LazyOp::Permute(Permute { input, axes });
        let ghost nodes = self.nodes();
        proof {
            assert(node_ok(nodes, input.index as int));
            assert(Seq::new(1, |k: int| nodes[lazy.spec_srcs()[k].index as int].view@)[0]
                == nodes[input.index as int].view@);
        }
        let device = self.node(input).device;
        let op = Permute { input, axes };
        match op.infer_output(&self.node(input).view) {
            Err(e) => Err(e),
            Ok(view) => Ok(self.add_op(LazyOp::Permute(op), view, device)),
        }
    }

    /// Adds the node that is the node `input` with the shape `shape`.
    pub fn reshape(&mut self, input: TensorId, shape: Vec<usize>) -> (out: Result<
        TensorId,
        OperationError,
    >)
        requires
            old(self).wf(),
            old(self).held(input),
        ensures
            final(self).built(old(self), LazyOp::Reshape(Reshape { input, shape }), out),
    {
        let ghost lazy = LazyOp::Reshape(Reshape { input, shape });
        let ghost nodes = self.nodes();
        proof {
            assert(node_ok(nodes, input.index as int));
            assert(Seq::new(1, |k: int| nodes[lazy.spec_srcs()[k].index as int].view@)[0]
                == nodes[input.index as int].view@);
        }
        let device = self.node(input).device;
        let op = Reshape { input, shape };
        match op.infer_output(&self.node(input).view) {
            Err(e) => Err(e),
            Ok(view) => Ok(self.add_op(LazyOp::Reshape(op), view, device)),
        }
    }

    /// Whether the nodes `a`, `b` and, where it is given, `c` live on one
    /// device.
    fn on_one_device(&self, a: TensorId, b: TensorId, c: Option<TensorId>) -> (same: bool)
        requires
            self.has(a),
            self.has(b),
            c matches Some(t) ==> self.has(t),
        ensures
            same == (self.nodes()[b.index as int].device == self.nodes()[a.index as int].device && (
            c matches Some(t) ==> self.nodes()[t.index as int].device
                == self.nodes()[a.index as int].device)),
    {
        let device = self.node(a).device;
        if self.node(b).device != device {
            return false;
        }
        match c {
            Some(t) => self.node(t).device == device,
            None => true,
        }
    }

    /// Adds the node that is the matrix product of the nodes `lhs` and
    /// `rhs`, each read transposed where its flag says so, written
    /// transposed where `trans_out` says so, with `bias` added to every row.
    pub fn gemm(
        &mut self,
        lhs: TensorId,
        rhs: TensorId,
        bias: Option<TensorId>,
        trans_lhs: bool,
        trans_rhs: bool,
        trans_out: bool,
    ) -> (out: Result<TensorId, OperationError>)
        requires
            old(self).wf(),
            old(self).held(lhs),
            old(self).held(rhs),
            bias matches Some(b) ==> old(self).held(b),
        ensures
            final(self).built(
                old(self),
                LazyOp::Gemm(Gemm { lhs, rhs, bias, trans_lhs, trans_rhs, trans_out }),
                out,
            ),
    {
        let op = Gemm { lhs, rhs, bias, trans_lhs, trans_rhs, trans_out };
        let ghost lazy = LazyOp::Gemm(op);
        let ghost nodes = self.nodes();
        let ghost views = Seq::new(
            lazy.spec_srcs().len(),
            |k: int| nodes[lazy.spec_srcs()[k].index as int].view@,
        );
        proof {
            assert(node_ok(nodes, lhs.index as int));
            assert(node_ok(nodes, rhs.index as int));
            match bias {
                Some(b) => {
                    assert(views =~= seq![
                        nodes[lhs.index as int].view@,
                        nodes[rhs.index as int].view@,
                        nodes[b.index as int].view@,
                    ]);
                },
                None => {
                    assert(views =~= seq![
                        nodes[lhs.index as int].view@,
                        nodes[rhs.index as int].view@,
                    ]);
                },
            }
        }
        let device = self.node(lhs).device;
        let inferred = match bias {
            Some(b) => op.infer_output(
                &self.node(lhs).view,
                &self.node(rhs).view,
                Some(&self.node(b).view),
            ),
            None => op.infer_output(&self.node(lhs).view, &self.node(rhs).view, None),
        };
        match inferred {
            Err(e) => Err(e),
            Ok(view) => {
                if !self.on_one_device(lhs, rhs, bias) {
                    proof {
                        if nodes[rhs.index as int].device != nodes[lhs.index as int].device {
                            assert(nodes[lazy.spec_srcs()[1].index as int].device
                                != nodes[lazy.spec_srcs()[0].index as int].device);
                        } else {
                            assert(nodes[lazy.spec_srcs()[2].index as int].device
                                != nodes[lazy.spec_srcs()[0].index as int].device);
                        }
                    }
                    return Err(OperationError::DeviceMismatch);
                }
                Ok(self.add_op(LazyOp::Gemm(op), view, device))
            },
        }
    }

    /// Adds the node that is the convolution of the node `input` with the
    /// node `weight`, with one value of `bias` added for each channel.
    pub fn conv1d(
        &mut self,
        input: TensorId,
        weight: TensorId,
        bias: Option<TensorId>,
        stride: usize,
        padding: usize,
    ) -> (out: Result<TensorId, OperationError>)
        requires
            old(self).wf(),
            old(self).held(input),
            old(self).held(weight),
            bias matches Some(b) ==> old(self).held(b),
        ensures
            final(self).built(
                old(self),
                LazyOp::Conv1D(Conv1D { input, weight, bias, stride, padding }),
                out,
            ),
    {
        let op = Conv1D { input, weight, bias, stride, padding };
        let ghost lazy = LazyOp::Conv1D(op);
        let ghost nodes = self.nodes();
        let ghost views = Seq::new(
            lazy.spec_srcs().len(),
            |k: int| nodes[lazy.spec_srcs()[k].index as int].view@,
        );
        proof {
            assert(node_ok(nodes, input.index as int));
            assert(node_ok(nodes, weight.index as int));
            match bias {
                Some(b) => {
                    assert(views =~= seq![
                        nodes[input.index as int].view@,
                        nodes[weight.index as int].view@,
                        nodes[b.index as int].view@,
                    ]);
                },
                None => {
                    assert(views =~= seq![
                        nodes[input.index as int].view@,
                        nodes[weight.index as int].view@,
                    ]);
                },
            }
        }
        let device = self.node(input).device;
        let inferred = match bias {
            Some(b) => op.infer_output(
                &self.node(input).view,
                &self.node(weight).view,
                Some(&self.node(b).view),
            ),
            None => op.infer_output(&self.node(input).view, &self.node(weight).view, None),
        };
        match inferred {
            Err(e) => Err(e),
            Ok(view) => {
                if !self.on_one_device(input, weight, bias) {
                    proof {
                        if nodes[weight.index as int].device != nodes[input.index as int].device {
                            assert(nodes[lazy.spec_srcs()[1].index as int].device
                                != nodes[lazy.spec_srcs()[0].index as int].device);
                        } else {
                            assert(nodes[lazy.spec_srcs()[2].index as int].device
                                != nodes[lazy.spec_srcs()[0].index as int].device);
                        }
                    }
                    return Err(OperationError::DeviceMismatch);
                }
                Ok(self.add_op(LazyOp::Conv1D(op), view, device))
            },
        }
    }

    /// Adds the node that is the node `input` with every row normalised,
    /// scaled by the node `weight`, and with `bias` added.
    pub fn layer_norm(
        &mut self,
        input: TensorId,
        weight: TensorId,
        bias: Option<TensorId>,
        eps_bits: u32,
    ) -> (out: Result<TensorId, OperationError>)
        requires
            old(self).wf(),
            old(self).held(input),
            old(self).held(weight),
            bias matches Some(b) ==> old(self).held(b),
        ensures
            final(self).built(
                old(self),
                LazyOp::LayerNorm(LayerNorm { input, weight, bias, eps_bits }),
                out,
            ),
    {
        let op = LayerNorm { input, weight, bias, eps_bits };
        let ghost lazy = LazyOp::LayerNorm(op);
        let ghost nodes = self.nodes();
        let ghost views = Seq::new(
            lazy.spec_srcs().len(),
            |k: int| nodes[lazy.spec_srcs()[k].index as int].view@,
        );
        proof {
            assert(node_ok(nodes, input.index as int));
            assert(node_ok(nodes, weight.index as int));
            match bias {
                Some(b) => {
                    assert(views =~= seq![
                        nodes[input.index as int].view@,
                        nodes[weight.index as int].view@,
                        nodes[b.index as int].view@,
                    ]);
                },
                None => {
                    assert(views =~= seq![
                        nodes[input.index as int].view@,
                        nodes[weight.index as int].view@,
                    ]);
                },
            }
        }
        let device = self.node(input).device;
        let inferred = match bias {
            Some(b) => op.infer_output(
                &self.node(input).view,
                &self.node(weight).view,
                Some(&self.node(b).view),
            ),
            None => op.infer_output(&self.node(input).view, &self.node(weight).view, None),
        };
        match inferred {
            Err(e) => Err(e),
            Ok(view) => {
                if !self.on_one_device(input, weight, bias) {
                    proof {
                        if nodes[weight.index as int].device != nodes[input.index as int].device {
                            assert(nodes[lazy.spec_srcs()[1].index as int].device
                                != nodes[lazy.spec_srcs()[0].index as int].device);
                        } else {
                            assert(nodes[lazy.spec_srcs()[2].index as int].device
                                != nodes[lazy.spec_srcs()[0].index as int].device);
                        }
                    }
                    return Err(OperationError::DeviceMismatch);
                }
                Ok(self.add_op(LazyOp::LayerNorm(op), view, device))
            },
        }
    }

    /// Notes one more handle to the node `id`.
    pub fn retain(&mut self, id: TensorId)
        requires
            old(self).wf(),
            old(self).held(id),
            old(self).handles()[id.index as int] < usize::MAX,
        ensures
            final(self).wf(),
            final(self).nodes() == old(self).nodes(),
            final(self).storages() == old(self).storages(),
            final(self).handles() == old(self).handles().update(
                id.index as int,
                (old(self).handles()[id.index as int] + 1) as usize,
            ),
            final(self).gpu() == old(self).gpu(),
            final(self).uploads() == old(self).uploads(),
    {
        let count = self.handle_count(id);
        let ghost handles = self.handles();
        self.set_handles(id, count + 1);
        proof {
            let nodes = self.nodes();
            let storages = self.storages();
            assert forall|v: int| 0 <= v < nodes.len() && v != id.index implies (live(
                nodes,
                storages,
                self.handles(),
                v,
            ) == live(nodes, storages, handles, v)) by {}
            assert(live(nodes, storages, handles, id.index as int));
            assert forall|i: int| 0 <= i < nodes.len() implies #[trigger] node_ok(nodes, i) by {
                assert(node_ok(old(self).nodes(), i));
            }
            assert forall|i: int| 0 <= i < nodes.len() implies #[trigger] slot_ok(
                nodes,
                storages,
                i,
            ) by {
                assert(slot_ok(old(self).nodes(), old(self).storages(), i));
            }
        }
    }

    /// What giving up a handle to the node `id` of `before` does to the
    /// buffers of the device, `self` being the graph afterwards. Where the
    /// node has a device buffer and its value can no longer be asked for,
    /// the buffer is given back at the time of the pool, the time goes on,
    /// and the pool is trimmed. Otherwise the pool and its time stay as they
    /// are.
    pub open spec fn gives_back(&self, before: &Graph, id: TensorId) -> bool {
        if gpu_buf(before.storages()[id.index as int]) is Some && !live(
            self.nodes(),
            self.storages(),
            self.handles(),
            id.index as int,
        ) {
            &&& crate::gpu_buffer::trimmed(
                before.pool_without(gpu_buf(before.storages()[id.index as int])->Some_0.inner),
                before.gpu().buffers.spec_soft_cap() as nat,
                self.pool(),
            )
            &&& self.gpu().buffers.spec_now() == crate::gpu_buffer::later(
                before.gpu().buffers.spec_now(),
            )
        } else {
            &&& self.pool() == before.pool()
            &&& self.gpu().buffers.spec_now() == before.gpu().buffers.spec_now()
        }
    }

    /// Gives up one handle to the node `id`. Where the node's value can then
    /// no longer be asked for, its device buffer goes back to the pool.
    #[verifier::rlimit(50)]
    pub fn release(&mut self, id: TensorId)
        requires
            old(self).wf(),
            old(self).held(id),
        ensures
            final(self).wf(),
            final(self).nodes() == old(self).nodes(),
            final(self).storages() == old(self).storages(),
            final(self).handles() == old(self).handles().update(
                id.index as int,
                (old(self).handles()[id.index as int] - 1) as usize,
            ),
            final(self).uploads() == old(self).uploads(),
            final(self).gpu().bind_group_layouts == old(self).gpu().bind_group_layouts,
            final(self).gpu().pipeline_layouts == old(self).gpu().pipeline_layouts,
            final(self).gpu().pipelines == old(self).gpu().pipelines,
            final(self).gpu().buffers.spec_soft_cap() == old(self).gpu().buffers.spec_soft_cap(),
            final(self).gives_back(old(self), id),
    {
        let count = self.handle_count(id);
        let ghost handles = self.handles();
        let ghost nodes = self.nodes();
        let ghost storages = self.storages();
        let ghost pool = self.pool();
        self.set_handles(id, count - 1);
        proof {
            assert forall|v: int| 0 <= v < nodes.len() && v != id.index implies (live(
                nodes,
                storages,
                self.handles(),
                v,
            ) == live(nodes, storages, handles, v)) by {}
            assert(live(nodes, storages, handles, id.index as int));
            assert forall|i: int| 0 <= i < nodes.len() implies #[trigger] node_ok(nodes, i) by {
                assert(node_ok(old(self).nodes(), i));
            }
            assert forall|i: int| 0 <= i < nodes.len() implies #[trigger] slot_ok(
                nodes,
                storages,
                i,
            ) by {
                assert(slot_ok(old(self).nodes(), old(self).storages(), i));
            }
        }
        let dead = !self.is_live(id);
        if dead {
            let buffer = match self.storage(id) {
                Some(Storage::GPU(b)) => Some(*b),
                _ => None,
            };
            match buffer {
                Some(b) => {
                    assert(gpu_buf(storages[id.index as int]) == Some(b));
                    assert(backed(pool, b));
                    let ghost mid = self.pool_without(b.inner);
                    self.release_buffer(b.inner);
                    proof {
                        let pool2 = self.pool();
                        assert forall|v: int|
                            0 <= v < nodes.len() && (#[trigger] gpu_buf(storages[v])) is Some
                                && live(nodes, storages, self.handles(), v) implies backed(
                            pool2,
                            gpu_buf(storages[v])->Some_0,
                        ) by {
                            let bv = gpu_buf(storages[v])->Some_0;
                            assert(v != id.index);
                            assert(backed(pool, bv));
                            assert(bv.inner != b.inner);
                            assert(mid[bv.inner.index as int] == pool[bv.inner.index as int]);
                            assert(pool2[bv.inner.index as int].desc
                                == mid[bv.inner.index as int].desc);
                        }
                    }
                },
                None => {},
            }
        }
    }
}

} // verus!
