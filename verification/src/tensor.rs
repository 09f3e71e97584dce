//! Tensors: handles to the nodes of a graph.
//!
//! A tensor is a lazy representation of an operation. The nodes required to
//! compute its value, and its own value, are not computed until `resolve` is
//! called, and `resolve` hands out the work rather than doing it.

use vstd::prelude::*;
use crate::binary::{Binary, BinaryOp};
use crate::compile::{
    compiled_as, node_elem, node_key, node_layout, node_meta, staged, CompiledOp, Executable,
    MAX_DISPATCHES,
};
use crate::conv::Conv1D;
use crate::cpu_buffer::layout_valid;
use crate::dtype::DType;
use crate::error::{DeviceError, OperationError, TensorError};
use crate::gemm::Gemm;
use crate::gpu_buffer::GPUBuffer;
use crate::graph::{gpu_buf, node_ok, pools_asked, pools_extend, src_index, Graph};
use crate::index_write::IndexWrite;
use crate::layer_norm::LayerNorm;
use crate::lazy_op::LazyOp;
use crate::matmul::Matmul;
use crate::permute::Permute;
use crate::reshape::Reshape;
use crate::resolve::resolve_fault;
use crate::schedule::execution_order;
use crate::shape::Shape;
use crate::storage::{Device, Storage};
use crate::tensor_id::TensorId;
use crate::transfer::Readback;
use crate::unary::{Unary, UnaryOp};
use crate::uniform::{record_bytes, CpuUniform, UNIFORM_ALIGN};
use crate::view::{StorageView, ViewModel};

verus! {

/// A handle to a node of a graph. The graph counts the handles to each of
/// its nodes: a handle is made when a node is made and by `clone_handle`,
/// and it is given up by `release`.
#[derive(Debug)]
pub struct Tensor {
    id: TensorId,
}

/// What moving a tensor to a device comes to.
#[derive(Debug)]
pub enum Transfer {
    /// The tensor on the device that was asked for.
    Done(Tensor),
    /// The tensor is on the GPU and is asked for on the host: the bytes of
    /// its buffer are to be read, and the move is completed with them.
    Pending(Readback),
}

impl Tensor {
    /// The identity of the node.
    pub closed spec fn spec_id(&self) -> TensorId {
        self.id
    }

    /// The identity of the node.
    #[verifier::when_used_as_spec(spec_id)]
    pub fn id(&self) -> (out: TensorId)
        ensures
            out == self.spec_id(),
    {
        self.id
    }

    /// The view of the node's storage.
    pub fn view<'a>(&self, graph: &'a Graph) -> (out: &'a StorageView)
        requires
            graph.has(self.id()),
        ensures
            *out == graph.nodes()[self.id().index as int].view,
    {
        &graph.node(self.id).view
    }

    /// The number of dimensions.
    pub fn rank(&self, graph: &Graph) -> (n: usize)
        requires
            graph.has(self.id()),
        ensures
            n == graph.nodes()[self.id().index as int].view@.shape.len(),
    {
        graph.node(self.id).view.shape.len()
    }

    /// The element type.
    pub fn dt(&self, graph: &Graph) -> (out: DType)
        requires
            graph.has(self.id()),
        ensures
            out == graph.nodes()[self.id().index as int].view@.dt,
    {
        graph.node(self.id).view.dt
    }

    /// The shape.
    pub fn shape<'a>(&self, graph: &'a Graph) -> (out: &'a Shape)
        requires
            graph.has(self.id()),
        ensures
            out@ == graph.nodes()[self.id().index as int].view@.shape,
    {
        &graph.node(self.id).view.shape
    }

    /// The number of bytes that the elements fill: the number of elements
    /// times the size of one.
    pub fn num_bytes(&self, graph: &Graph) -> (n: usize)
        requires
            graph.wf(),
            graph.has(self.id()),
        ensures
            n == graph.nodes()[self.id().index as int].view@.numel()
                * graph.nodes()[self.id().index as int].view@.dt.spec_size_of(),
    {
        proof {
            assert(node_ok(graph.nodes(), self.id.index as int));
        }
        graph.node(self.id).view.num_bytes()
    }

    /// The device that the node lives on.
    pub fn device(&self, graph: &Graph) -> (out: Device)
        requires
            graph.has(self.id()),
        ensures
            out == graph.nodes()[self.id().index as int].device,
    {
        graph.node(self.id).device
    }

    /// The storage of the node, where it has any.
    pub fn storage<'a>(&self, graph: &'a Graph) -> (out: &'a Option<Storage>)
        requires
            graph.wf(),
            graph.has(self.id()),
        ensures
            *out == graph.storages()[self.id().index as int],
    {
        graph.storage(self.id)
    }

    /// Whether the node has storage: it was given data, or it has been
    /// resolved.
    pub fn resolved(&self, graph: &Graph) -> (b: bool)
        requires
            graph.wf(),
            graph.has(self.id()),
        ensures
            b == graph.is_resolved(self.id()),
    {
        graph.resolved(self.id)
    }

    /// The operation that produces the node.
    pub fn op<'a>(&self, graph: &'a Graph) -> (out: &'a LazyOp)
        requires
            graph.has(self.id()),
        ensures
            *out == graph.nodes()[self.id().index as int].op,
    {
        &graph.node(self.id).op
    }

    /// Another handle to the same node. A count of handles that has reached
    /// the largest machine word stays there.
    pub fn clone_handle(&self, graph: &mut Graph) -> (out: Tensor)
        requires
            old(graph).wf(),
            old(graph).held(self.id()),
        ensures
            out.id() == self.id(),
            final(graph).wf(),
            final(graph).held(out.id()),
            final(graph).nodes() == old(graph).nodes(),
            final(graph).storages() == old(graph).storages(),
            final(graph).gpu() == old(graph).gpu(),
            final(graph).uploads() == old(graph).uploads(),
            final(graph).handles() == if old(graph).handles()[self.id().index as int] < usize::MAX {
                old(graph).handles().update(
                    self.id().index as int,
                    (old(graph).handles()[self.id().index as int] + 1) as usize,
                )
            } else {
                old(graph).handles()
            },
    {
        if graph.handle_count(self.id) < usize::MAX {
            graph.retain(self.id);
        }
        Tensor { id: self.id }
    }

    /// Gives the handle up. Where the value of the node can then no longer
    /// be asked for, the node's device buffer goes back to the pool.
    pub fn release(self, graph: &mut Graph)
        requires
            old(graph).wf(),
            old(graph).held(self.id()),
        ensures
            final(graph).wf(),
            final(graph).nodes() == old(graph).nodes(),
            final(graph).storages() == old(graph).storages(),
            final(graph).uploads() == old(graph).uploads(),
            final(graph).handles() == old(graph).handles().update(
                self.id().index as int,
                (old(graph).handles()[self.id().index as int] - 1) as usize,
            ),
            final(graph).gpu().bind_group_layouts == old(graph).gpu().bind_group_layouts,
            final(graph).gpu().pipeline_layouts == old(graph).gpu().pipeline_layouts,
            final(graph).gpu().pipelines == old(graph).gpu().pipelines,
            final(graph).gpu().buffers.spec_soft_cap() == old(graph).gpu().buffers.spec_soft_cap(),
            final(graph).gives_back(old(graph), self.id()),
    {
        graph.release(self.id);
    }

    /// Creates a tensor from the bytes of its elements. The tensor is
    /// resolved from the start. If a GPU is specified, the copy of the data
    /// to the device is noted as owed.
    pub fn from_data(bytes: &[u8], dtype: DType, shape: Shape, device: Device, graph: &mut Graph) -> (out:
        Tensor)
        requires
            old(graph).wf(),
            shape.spec_fits(),
            bytes@.len() == shape.spec_numel() * dtype.spec_size_of(),
            layout_valid(bytes@.len() as usize, dtype.spec_align_of()),
        ensures
            final(graph).wf(),
            final(graph).held(out.id()),
            final(graph).is_resolved(out.id()),
            final(graph).given(old(graph), out.id(), bytes@, dtype, shape@, device),
    {
        Tensor { id: graph.from_data(bytes, dtype, shape, device) }
    }

    fn binary(&self, other: &Tensor, op: BinaryOp, graph: &mut Graph) -> (out: Result<
        Tensor,
        OperationError,
    >)
        requires
            old(graph).wf(),
            old(graph).held(self.id()),
            old(graph).held(other.id()),
        ensures
            final(graph).built(
                old(graph),
                LazyOp::Binary(Binary { lhs: self.id(), rhs: other.id(), op }),
                match out {
                    Ok(t) => Ok(t.id()),
                    Err(e) => Err(e),
                },
            ),
            out is Ok ==> final(graph).held(out->Ok_0.id()),
    {
        match graph.binary(self.id, other.id, op) {
            Ok(id) => Ok(Tensor { id }),
            Err(e) => Err(e),
        }
    }

    /// The element-wise sum of `self` and `other`, not yet computed.
    pub fn add(&self, other: &Tensor, graph: &mut Graph) -> (out: Result<Tensor, OperationError>)
        requires
            old(graph).wf(),
            old(graph).held(self.id()),
            old(graph).held(other.id()),
        ensures
            final(graph).built(
                old(graph),
                LazyOp::Binary(Binary { lhs: self.id(), rhs: other.id(), op: BinaryOp::Add }),
                match out {
                    Ok(t) => Ok(t.id()),
                    Err(e) => Err(e),
                },
            ),
            out is Ok ==> final(graph).held(out->Ok_0.id()),
    {
        self.binary(other, BinaryOp::Add, graph)
    }

    /// The element-wise difference of `self` and `other`, not yet computed.
    pub fn sub(&self, other: &Tensor, graph: &mut Graph) -> (out: Result<Tensor, OperationError>)
        requires
            old(graph).wf(),
            old(graph).held(self.id()),
            old(graph).held(other.id()),
        ensures
            final(graph).built(
                old(graph),
                LazyOp::Binary(Binary { lhs: self.id(), rhs: other.id(), op: BinaryOp::Sub }),
                match out {
                    Ok(t) => Ok(t.id()),
                    Err(e) => Err(e),
                },
            ),
            out is Ok ==> final(graph).held(out->Ok_0.id()),
    {
        self.binary(other, BinaryOp::Sub, graph)
    }

    /// The element-wise product of `self` and `other`, not yet computed.
    pub fn mul(&self, other: &Tensor, graph: &mut Graph) -> (out: Result<Tensor, OperationError>)
        requires
            old(graph).wf(),
            old(graph).held(self.id()),
            old(graph).held(other.id()),
        ensures
            final(graph).built(
                old(graph),
                LazyOp::Binary(Binary { lhs: self.id(), rhs: other.id(), op: BinaryOp::Mul }),
                match out {
                    Ok(t) => Ok(t.id()),
                    Err(e) => Err(e),
                },
            ),
            out is Ok ==> final(graph).held(out->Ok_0.id()),
    {
        self.binary(other, BinaryOp::Mul, graph)
    }

    /// The element-wise quotient of `self` and `other`, not yet computed.
    pub fn div(&self, other: &Tensor, graph: &mut Graph) -> (out: Result<Tensor, OperationError>)
        requires
            old(graph).wf(),
            old(graph).held(self.id()),
            old(graph).held(other.id()),
        ensures
            final(graph).built(
                old(graph),
                LazyOp::Binary(Binary { lhs: self.id(), rhs: other.id(), op: BinaryOp::Div }),
                match out {
                    Ok(t) => Ok(t.id()),
                    Err(e) => Err(e),
                },
            ),
            out is Ok ==> final(graph).held(out->Ok_0.id()),
    {
        self.binary(other, BinaryOp::Div, graph)
    }

    /// The matrix product of `self` and `other`, not yet computed.
    pub fn matmul(&self, other: &Tensor, graph: &mut Graph) -> (out: Result<Tensor, OperationError>)
        requires
            old(graph).wf(),
            old(graph).held(self.id()),
            old(graph).held(other.id()),
        ensures
            final(graph).built(
                old(graph),
                LazyOp::Matmul(Matmul { lhs: self.id(), rhs: other.id() }),
                match out {
                    Ok(t) => Ok(t.id()),
                    Err(e) => Err(e),
                },
            ),
            out is Ok ==> final(graph).held(out->Ok_0.id()),
    {
        match graph.matmul(self.id, other.id) {
            Ok(id) => Ok(Tensor { id }),
            Err(e) => Err(e),
        }
    }

    /// The tensor with the GELU activation applied to every element, not
    /// yet computed.
    pub fn gelu(&self, graph: &mut Graph) -> (out: Result<Tensor, OperationError>)
        requires
            old(graph).wf(),
            old(graph).held(self.id()),
        ensures
            final(graph).built(
                old(graph),
                LazyOp::Unary(Unary { input: self.id(), op: UnaryOp::Gelu }),
                match out {
                    Ok(t) => Ok(t.id()),
                    Err(e) => Err(e),
                },
            ),
            out is Ok ==> final(graph).held(out->Ok_0.id()),
    {
        match graph.unary(self.id, UnaryOp::Gelu) {
            Ok(id) => Ok(Tensor { id }),
            Err(e) => Err(e),
        }
    }

    /// The matrix product of `self` and `rhs`, not yet computed: each operand
    /// is read transposed where its flag says so, the product is written
    /// transposed where `trans_out` says so, and `bias` is added to every row.
    pub fn gemm(
        &self,
        rhs: &Tensor,
        bias: Option<&Tensor>,
        trans_lhs: bool,
        trans_rhs: bool,
        trans_out: bool,
        graph: &mut Graph,
    ) -> (out: Result<Tensor, OperationError>)
        requires
            old(graph).wf(),
            old(graph).held(self.id()),
            old(graph).held(rhs.id()),
            bias matches Some(b) ==> old(graph).held(b.id()),
        ensures
            final(graph).built(
                old(graph),
                LazyOp::Gemm(
                    Gemm {
                        lhs: self.id(),
                        rhs: rhs.id(),
                        bias: match bias {
                            Some(b) => Some(b.id()),
                            None => None,
                        },
                        trans_lhs,
                        trans_rhs,
                        trans_out,
                    },
                ),
                match out {
                    Ok(t) => Ok(t.id()),
                    Err(e) => Err(e),
                },
            ),
            out is Ok ==> final(graph).held(out->Ok_0.id()),
    {
        let bias_id = match bias {
            Some(b) => Some(b.id),
            None => None,
        };
        match graph.gemm(self.id, rhs.id, bias_id, trans_lhs, trans_rhs, trans_out) {
            Ok(id) => Ok(Tensor { id }),
            Err(e) => Err(e),
        }
    }

    /// The convolution of `self` with `weight` along the last dimension, not
    /// yet computed, with one value of `bias` added for each channel.
    pub fn conv1d(
        &self,
        weight: &Tensor,
        bias: Option<&Tensor>,
        stride: usize,
        padding: usize,
        graph: &mut Graph,
    ) -> (out: Result<Tensor, OperationError>)
        requires
            old(graph).wf(),
            old(graph).held(self.id()),
            old(graph).held(weight.id()),
            bias matches Some(b) ==> old(graph).held(b.id()),
        ensures
            final(graph).built(
                old(graph),
                LazyOp::Conv1D(
                    Conv1D {
                        input: self.id(),
                        weight: weight.id(),
                        bias: match bias {
                            Some(b) => Some(b.id()),
                            None => None,
                        },
                        stride,
                        padding,
                    },
                ),
                match out {
                    Ok(t) => Ok(t.id()),
                    Err(e) => Err(e),
                },
            ),
            out is Ok ==> final(graph).held(out->Ok_0.id()),
    {
        let bias_id = match bias {
            Some(b) => Some(b.id),
            None => None,
        };
        match graph.conv1d(self.id, weight.id, bias_id, stride, padding) {
            Ok(id) => Ok(Tensor { id }),
            Err(e) => Err(e),
        }
    }

    /// The tensor with every row normalised, scaled by `weight`, and with
    /// `bias` added, not yet computed. The small number that is added to the
    /// variance is given by the bits of its 32-bit floating-point form.
    pub fn layer_norm(
        &self,
        weight: &Tensor,
        bias: Option<&Tensor>,
        eps_bits: u32,
        graph: &mut Graph,
    ) -> (out: Result<Tensor, OperationError>)
        requires
            old(graph).wf(),
            old(graph).held(self.id()),
            old(graph).held(weight.id()),
            bias matches Some(b) ==> old(graph).held(b.id()),
        ensures
            final(graph).built(
                old(graph),
                LazyOp::LayerNorm(
                    LayerNorm {
                        input: self.id(),
                        weight: weight.id(),
                        bias: match bias {
                            Some(b) => Some(b.id()),
                            None => None,
                        },
                        eps_bits,
                    },
                ),
                match out {
                    Ok(t) => Ok(t.id()),
                    Err(e) => Err(e),
                },
            ),
            out is Ok ==> final(graph).held(out->Ok_0.id()),
    {
        let bias_id = match bias {
            Some(b) => Some(b.id),
            None => None,
        };
        match graph.layer_norm(self.id, weight.id, bias_id, eps_bits) {
            Ok(id) => Ok(Tensor { id }),
            Err(e) => Err(e),
        }
    }

    /// The tensor with the shape `shape`, not yet computed.
    pub fn reshape(&self, shape: Vec<usize>, graph: &mut Graph) -> (out: Result<
        Tensor,
        OperationError,
    >)
        requires
            old(graph).wf(),
            old(graph).held(self.id()),
        ensures
            final(graph).built(
                old(graph),
                LazyOp::Reshape(Reshape { input: self.id(), shape }),
                match out {
                    Ok(t) => Ok(t.id()),
                    Err(e) => Err(e),
                },
            ),
            out is Ok ==> final(graph).held(out->Ok_0.id()),
    {
        match graph.reshape(self.id, shape) {
            Ok(id) => Ok(Tensor { id }),
            Err(e) => Err(e),
        }
    }

    /// The softmax of the tensor along the dimension `dim`, not yet computed.
    pub fn softmax(&self, dim: usize, graph: &mut Graph) -> (out: Result<Tensor, OperationError>)
        requires
            old(graph).wf(),
            old(graph).held(self.id()),
        ensures
            final(graph).built(
                old(graph),
                LazyOp::Unary(Unary { input: self.id(), op: UnaryOp::Softmax(dim) }),
                match out {
                    Ok(t) => Ok(t.id()),
                    Err(e) => Err(e),
                },
            ),
            out is Ok ==> final(graph).held(out->Ok_0.id()),
    {
        match graph.unary(self.id, UnaryOp::Softmax(dim)) {
            Ok(id) => Ok(Tensor { id }),
            Err(e) => Err(e),
        }
    }

    /// The tensor with its dimensions in the order `axes`, not yet computed.
    pub fn permute(&self, axes: Vec<usize>, graph: &mut Graph) -> (out: Result<
        Tensor,
        OperationError,
    >)
        requires
            old(graph).wf(),
            old(graph).held(self.id()),
        ensures
            final(graph).built(
                old(graph),
                LazyOp::Permute(Permute { input: self.id(), axes }),
                match out {
                    Ok(t) => Ok(t.id()),
                    Err(e) => Err(e),
                },
            ),
            out is Ok ==> final(graph).held(out->Ok_0.id()),
    {
        match graph.permute(self.id, axes) {
            Ok(id) => Ok(Tensor { id }),
            Err(e) => Err(e),
        }
    }

    /// `self` with `src` written into the block that starts at
    /// `write_start`, not yet computed. The operation writes into the buffer
    /// of `self`: it can only be resolved when nothing else needs `self`
    /// any more. The handles `self` and `src` stay with the caller, who gives
    /// them up when they are no longer needed.
    pub fn index_write(&self, src: &Tensor, write_start: Vec<usize>, graph: &mut Graph) -> (out:
        Result<Tensor, OperationError>)
        requires
            old(graph).wf(),
            old(graph).held(self.id()),
            old(graph).held(src.id()),
        ensures
            final(graph).built(
                old(graph),
                LazyOp::IndexWrite(IndexWrite { dst: self.id(), src: src.id(), write_start }),
                match out {
                    Ok(t) => Ok(t.id()),
                    Err(e) => Err(e),
                },
            ),
            out is Ok ==> final(graph).held(out->Ok_0.id()),
    {
        match graph.index_write(self.id, src.id, write_start) {
            Ok(id) => Ok(Tensor { id }),
            Err(e) => Err(e),
        }
    }

    /// The order in which the nodes that `self` depends on are computed.
    pub fn execution_order(&self, graph: &Graph) -> (order: Vec<TensorId>)
        requires
            graph.wf(),
            graph.has(self.id()),
        ensures
            order@ == execution_order(graph.nodes(), self.id()),
    {
        graph.execution_order(self.id)
    }

    /// Compiles the node as the `k`-th dispatch of a batch; a node that
    /// holds given data compiles to nothing.
    pub fn compile(
        &self,
        graph: &mut Graph,
        inplace: bool,
        bufs: &Vec<Option<GPUBuffer>>,
        uniform: &mut CpuUniform,
        k: usize,
    ) -> (out: Option<CompiledOp>)
        requires
            old(graph).wf(),
            old(graph).has(self.id()),
            !(old(graph).nodes()[self.id().index as int].op is Const) ==> {
                &&& old(graph).nodes()[self.id().index as int].view@.numel() > 0
                &&& bufs@.len() == old(graph).nodes().len()
                &&& bufs@[self.id().index as int] is Some
                &&& forall|m: int|
                    0 <= m < old(graph).nodes()[self.id().index as int].op.spec_srcs().len()
                        ==> bufs@[src_index(old(graph).nodes(), self.id().index as int, m)] is Some
                &&& inplace ==> old(graph).nodes()[self.id().index as int].op.spec_supports_inplace()
                &&& !inplace ==> !old(graph).nodes()[self.id().index as int].op.spec_requires_inplace()
                &&& old(uniform).wf()
                &&& old(uniform).next_offset() == UNIFORM_ALIGN * k
                &&& k < MAX_DISPATCHES
            },
        ensures
            final(graph).wf(),
            final(graph).nodes() == old(graph).nodes(),
            final(graph).storages() == old(graph).storages(),
            final(graph).handles() == old(graph).handles(),
            final(graph).uploads() == old(graph).uploads(),
            final(graph).gpu().buffers == old(graph).gpu().buffers,
            pools_extend(old(graph).gpu(), final(graph).gpu()),
            match out {
                None => old(graph).nodes()[self.id().index as int].op is Const && final(uniform)@
                    == old(uniform)@ && final(uniform).next_offset() == old(uniform).next_offset()
                    && final(graph).gpu() == old(graph).gpu(),
                Some(step) => {
                    &&& !(old(graph).nodes()[self.id().index as int].op is Const)
                    &&& final(uniform).wf()
                    &&& final(uniform).next_offset() == UNIFORM_ALIGN * (k + 1)
                    &&& final(uniform)@ == staged(
                        old(uniform)@,
                        k as int,
                        record_bytes(node_meta(old(graph).nodes(), self.id().index as int)),
                    )
                    &&& final(uniform)@.take(old(uniform)@.len() as int) == old(uniform)@
                    &&& pools_asked(
                        old(graph).gpu(),
                        final(graph).gpu(),
                        step.handles,
                        node_layout(old(graph).nodes(), self.id().index as int, inplace),
                        node_key(old(graph).nodes(), self.id().index as int, inplace),
                        node_elem(old(graph).nodes(), self.id().index as int),
                    )
                    &&& compiled_as(
                        final(graph).gpu(),
                        final(graph).nodes(),
                        bufs@,
                        final(uniform)@,
                        step,
                        self.id().index as int,
                        inplace,
                        k as int,
                    )
                },
            },
    {
        if graph.node(self.id).op.is_const() {
            None
        } else {
            Some(graph.compile_node(self.id, inplace, bufs, uniform, k))
        }
    }

    /// Resolves the tensor: gives every node that it depends on its storage
    /// and hands out the batch of dispatches that computes them. Where
    /// resolving fails, the graph stays as it was.
    pub fn resolve(&self, graph: &mut Graph) -> (out: Result<Executable, TensorError>)
        requires
            old(graph).wf(),
            old(graph).has(self.id()),
        ensures
            match out {
                Ok(exec) => resolve_fault(
                    old(graph).nodes(),
                    old(graph).storages(),
                    old(graph).handles(),
                    self.id(),
                ) is None && final(graph).resolved_from(
                    old(graph),
                    execution_order(old(graph).nodes(), self.id()),
                    exec,
                ),
                Err(e) => resolve_fault(
                    old(graph).nodes(),
                    old(graph).storages(),
                    old(graph).handles(),
                    self.id(),
                ) == Some(e) && final(graph).same_as(old(graph)),
            },
    {
        graph.resolve(self.id)
    }

    /// Moves the tensor to `device`. A tensor that is on that device, or
    /// that has not been resolved, is handed back as it is, under a new
    /// handle. A host tensor that is moved to the GPU becomes a new tensor
    /// there, and the copy of its bytes is noted as owed to the device. A
    /// device tensor that is moved to the host comes to a request to read its
    /// buffer.
    pub fn to(&self, device: Device, graph: &mut Graph) -> (out: Result<Transfer, TensorError>)
        requires
            old(graph).wf(),
            old(graph).held(self.id()),
        ensures
            final(graph).wf(),
            if old(graph).nodes()[self.id().index as int].device == device || !old(
                graph,
            ).is_resolved(self.id()) {
                &&& out matches Ok(Transfer::Done(t))
                &&& t.id() == self.id()
                &&& final(graph).held(t.id())
                &&& final(graph).nodes() == old(graph).nodes()
                &&& final(graph).storages() == old(graph).storages()
                &&& final(graph).gpu() == old(graph).gpu()
                &&& final(graph).uploads() == old(graph).uploads()
                &&& final(graph).handles() == if old(graph).handles()[self.id().index as int]
                    < usize::MAX {
                    old(graph).handles().update(
                        self.id().index as int,
                        (old(graph).handles()[self.id().index as int] + 1) as usize,
                    )
                } else {
                    old(graph).handles()
                }
            } else if device == Device::GPU {
                match out {
                    Ok(Transfer::Done(t)) => final(graph).moved_to_gpu(
                        old(graph),
                        self.id(),
                        Ok(t.id()),
                    ),
                    Ok(Transfer::Pending(_)) => false,
                    Err(e) => final(graph).moved_to_gpu(old(graph), self.id(), Err(e)),
                }
            } else {
                &&& out matches Ok(Transfer::Pending(request))
                &&& final(graph).same_as(old(graph))
                &&& request.source == self.id()
                &&& Some(request.buffer) == gpu_buf(old(graph).storages()[self.id().index as int])
                &&& request.buffer.size == old(graph).nodes()[self.id().index as int].view@.num_bytes()
                &&& request.buffer.alignment == old(
                    graph,
                ).nodes()[self.id().index as int].view@.dt.spec_size_of()
            },
    {
        let here = graph.node(self.id).device;
        proof {
            assert(crate::graph::slot_ok(graph.nodes(), graph.storages(), self.id.index as int));
        }
        if here == device || !graph.resolved(self.id) {
            return Ok(Transfer::Done(self.clone_handle(graph)));
        }
        match device {
            Device::CPU => Ok(Transfer::Pending(graph.readback(self.id))),
            Device::GPU => {
                match graph.to_gpu(self.id) {
                    Ok(id) => Ok(Transfer::Done(Tensor { id })),
                    Err(e) => Err(e),
                }
            },
        }
    }

    /// Completes a move to the host with the bytes that the device gave back
    /// for `request`: the tensor on the host that holds them.
    pub fn from_readback(request: &Readback, bytes: &[u8], graph: &mut Graph) -> (out: Result<
        Tensor,
        TensorError,
    >)
        requires
            old(graph).wf(),
        ensures
            final(graph).completed(
                old(graph),
                *request,
                bytes@,
                match out {
                    Ok(t) => Ok(t.id()),
                    Err(e) => Err(e),
                },
            ),
    {
        match graph.complete_readback(request, bytes) {
            Ok(id) => Ok(Tensor { id }),
            Err(e) => Err(e),
        }
    }

    /// A tensor of its own with a copy of the data of `self`. A host tensor
    /// is copied into a block of its own; a device tensor gets a buffer of its
    /// own, and the copy from buffer to buffer is noted as owed to the device.
    /// A tensor that has not been resolved cannot be copied.
    pub fn deep_clone(&self, graph: &mut Graph) -> (out: Result<Tensor, TensorError>)
        requires
            old(graph).wf(),
            old(graph).has(self.id()),
        ensures
            match old(graph).storages()[self.id().index as int] {
                None => out == Err::<Tensor, TensorError>(TensorError::NotResolved)
                    && final(graph).same_as(old(graph)),
                Some(Storage::CPU(_)) => {
                    &&& out matches Ok(t)
                    &&& final(graph).wf()
                    &&& final(graph).held(t.id())
                    &&& final(graph).grown_from(
                        old(graph),
                        t.id(),
                        LazyOp::Const,
                        old(graph).nodes()[self.id().index as int].view@,
                        Device::CPU,
                    )
                    &&& final(graph).gpu() == old(graph).gpu()
                    &&& final(graph).uploads() == old(graph).uploads()
                    &&& final(graph).storages()[t.id().index as int] matches Some(Storage::CPU(_))
                    &&& final(graph).host_bytes(t.id()) == old(graph).host_bytes(self.id())
                },
                Some(Storage::GPU(_)) => final(graph).cloned_on_device(
                    old(graph),
                    self.id(),
                    match out {
                        Ok(t) => Ok(t.id()),
                        Err(e) => Err(e),
                    },
                ),
            },
    {
        proof {
            assert(crate::graph::slot_ok(graph.nodes(), graph.storages(), self.id.index as int));
        }
        let kind = match graph.storage(self.id) {
            None => 0u8,
            Some(Storage::GPU(_)) => 1u8,
            Some(Storage::CPU(_)) => 2u8,
        };
        if kind == 0 {
            Err(TensorError::NotResolved)
        } else if kind == 1 {
            match graph.deep_clone_device(self.id) {
                Ok(id) => Ok(Tensor { id }),
                Err(e) => Err(e),
            }
        } else {
            Ok(Tensor { id: graph.deep_clone_host(self.id) })
        }
    }
}

} // verus!
