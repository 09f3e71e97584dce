//! Moving the data of a tensor between the host and the device.
//!
//! The copies themselves are made by whoever drives the device. A move to
//! the device notes the copy as owed; a move to the host is asked for with a
//! request, and is completed with the bytes that the device gave back.

use vstd::prelude::*;
use crate::builder::{lemma_push_keeps_buffers, lemma_push_keeps_nodes};
use crate::cpu_buffer::{layout_valid, CPUBuffer, Layout};
use crate::dtype::DType;
use crate::error::{DeviceError, TensorError};
use crate::gpu_buffer::{allocated, rounded_size, BufferDescriptor, BufferUsage, GPUBuffer};
use crate::graph::{backed, buffers_ok, gpu_buf, live, node_ok, slot_ok, Graph, Upload};
use crate::lazy_op::LazyOp;
use crate::storage::{Device, Storage};
use crate::tensor_id::TensorId;
use crate::view::ViewModel;

verus! {

/// A copy from the device that is asked for: the bytes of the node `source`
/// are to be read from the buffer `buffer`.
#[derive(Clone, Copy, Debug, PartialEq, Eq, Structural)]
pub struct Readback {
    pub source: TensorId,
    pub buffer: GPUBuffer,
}

impl Graph {
    /// The bytes of the node `id`, where it has host storage.
    pub open spec fn host_bytes(&self, id: TensorId) -> Seq<u8> {
        match self.storages()[id.index as int] {
            Some(Storage::CPU(block)) => block@,
            _ => Seq::empty(),
        }
    }

    /// What moving the data of the host node `src` of `before` to the GPU
    /// does. Where it succeeds, the graph has the new node `id` on the GPU,
    /// with the view of `src` and a buffer from the pool, of the size of the
    /// bytes of `src` and aligned to one element; the copy of the bytes into
    /// the buffer is owed. It fails, and changes nothing, exactly where no
    /// buffer can have the size that is needed.
    pub open spec fn moved_to_gpu(
        &self,
        before: &Graph,
        src: TensorId,
        out: Result<TensorId, TensorError>,
    ) -> bool {
        match out {
            Ok(id) => {
                &&& rounded_size(before.host_bytes(src).len()) <= usize::MAX
                &&& self.wf()
                &&& self.held(id)
                &&& self.grown_from(
                    before,
                    id,
                    LazyOp::Const,
                    before.nodes()[src.index as int].view@,
                    Device::GPU,
                )
                &&& self.gpu().bind_group_layouts == before.gpu().bind_group_layouts
                &&& self.gpu().pipeline_layouts == before.gpu().pipeline_layouts
                &&& self.gpu().pipelines == before.gpu().pipelines
                &&& self.gpu().buffers.spec_soft_cap() == before.gpu().buffers.spec_soft_cap()
                &&& self.gpu().buffers.spec_now() == before.gpu().buffers.spec_now()
                &&& self.storages()[id.index as int] matches Some(Storage::GPU(buffer))
                &&& buffer.size == before.host_bytes(src).len()
                &&& buffer.alignment == before.nodes()[src.index as int].view@.dt.spec_size_of()
                &&& allocated(
                    before.pool(),
                    BufferDescriptor {
                        size: rounded_size(buffer.size as nat) as usize,
                        usage: BufferUsage::Storage,
                    },
                    self.pool(),
                    buffer.inner.index as int,
                )
                &&& self.uploads().len() == before.uploads().len() + 1
                &&& self.uploads().take(before.uploads().len() as int) == before.uploads()
                &&& self.uploads().last().buffer == buffer.inner
                &&& self.uploads().last().data@ == before.host_bytes(src)
                &&& self.uploads().last().from is None
            },
            Err(e) => {
                &&& self.same_as(before)
                &&& e == TensorError::DeviceError(DeviceError::AllocationFailed)
                &&& rounded_size(before.host_bytes(src).len()) > usize::MAX
            },
        }
    }

    /// Adds a node on the GPU that holds the data of the host node `src`: a
    /// buffer is taken from the pool, and the copy of the bytes of `src`
    /// into it is noted as owed to the device. Fails, and changes nothing,
    /// where no buffer can have the size that is needed.
    #[verifier::rlimit(50)]
    pub fn to_gpu(&mut self, src: TensorId) -> (out: Result<TensorId, TensorError>)
        requires
            old(self).wf(),
            old(self).has(src),
            old(self).storages()[src.index as int] matches Some(Storage::CPU(_)),
        ensures
            final(self).moved_to_gpu(old(self), src, out),
    {
        let ghost nodes = self.nodes();
        let ghost storages = self.storages();
        let ghost handles = self.handles();
        let ghost pool = self.pool();
        let ghost uploads = self.uploads();
        let ghost n = nodes.len() as int;
        proof {
            assert(node_ok(nodes, src.index as int));
            assert(slot_ok(nodes, storages, src.index as int));
        }
        let block = match self.storage(src) {
            Some(Storage::CPU(block)) => block.clone(),
            _ => vstd::pervasive::unreached(),
        };
        proof {
            block.lemma_view();
        }
        let size = block.n_bytes();
        let desc = match BufferDescriptor::storage(size) {
            Some(desc) => desc,
            None => {
                return Err(TensorError::DeviceError(DeviceError::AllocationFailed));
            },
        };
        let view = self.node(src).view.clone();
        let alignment = view.dt.size_of();
        let handle = self.alloc_buffer(desc);
        self.push_upload(Upload { buffer: handle, data: block, from: None });
        let storage = Storage::GPU(GPUBuffer { inner: handle, alignment, size });
        let ghost slot = Some(storage);
        let ghost mid_pool = self.pool();
        proof {
            let b = gpu_buf(slot)->Some_0;
            assert forall|v: int|
                0 <= v < nodes.len() && (#[trigger] gpu_buf(storages[v])) is Some && live(
                    nodes,
                    storages,
                    handles,
                    v,
                ) implies backed(mid_pool, gpu_buf(storages[v])->Some_0) && gpu_buf(
                storages[v],
            )->Some_0.inner != b.inner by {
                assert(backed(pool, gpu_buf(storages[v])->Some_0));
            }
            assert(buffers_ok(nodes, storages, handles, mid_pool));
        }
        let id = self.add_node(LazyOp::Const, view, Device::GPU, Some(storage));
        proof {
            let node = self.nodes()[n];
            assert(self.nodes() == nodes.push(node));
            lemma_push_keeps_nodes(nodes, storages, node, slot);
            lemma_push_keeps_buffers(nodes, storages, handles, mid_pool, node, slot);
            assert(node.op.spec_srcs().len() == 0);
            assert(node_ok(self.nodes(), n));
            assert(slot_ok(self.nodes(), self.storages(), n));
            assert(self.nodes().take(n) =~= nodes);
            assert(self.storages().take(n) =~= storages);
            assert(self.uploads().take(uploads.len() as int) =~= uploads);
        }
        Ok(id)
    }

    /// The request to read the bytes of the device node `src` from its
    /// buffer.
    pub fn readback(&self, src: TensorId) -> (out: Readback)
        requires
            self.wf(),
            self.has(src),
            self.storages()[src.index as int] matches Some(Storage::GPU(_)),
        ensures
            out.source == src,
            Some(out.buffer) == gpu_buf(self.storages()[src.index as int]),
            out.buffer.size == self.nodes()[src.index as int].view@.num_bytes(),
            out.buffer.alignment == self.nodes()[src.index as int].view@.dt.spec_size_of(),
    {
        proof {
            assert(slot_ok(self.nodes(), self.storages(), src.index as int));
        }
        let buffer = match self.storage(src) {
            Some(Storage::GPU(b)) => *b,
            _ => vstd::pervasive::unreached(),
        };
        Readback { source: src, buffer }
    }

    /// Whether `bytes` can be what the device gave back for `request`: the
    /// request names a node of the graph and the buffer that the node has,
    /// there are as many bytes as the node fills, and a block of host memory
    /// can hold them.
    pub open spec fn answers(&self, request: Readback, bytes: Seq<u8>) -> bool {
        &&& self.has(request.source)
        &&& gpu_buf(self.storages()[request.source.index as int]) == Some(request.buffer)
        &&& bytes.len() == request.buffer.size
        &&& layout_valid(bytes.len() as usize, request.buffer.alignment)
    }

    /// What completing the request `request` on `before` with the bytes
    /// `bytes` does. Where the bytes answer the request, the graph has the
    /// new node `id` on the CPU, with the view of the node that was read and
    /// a block of host memory that holds the bytes; the device is untouched.
    /// Otherwise completing fails and changes nothing.
    pub open spec fn completed(
        &self,
        before: &Graph,
        request: Readback,
        bytes: Seq<u8>,
        out: Result<TensorId, TensorError>,
    ) -> bool {
        match out {
            Ok(id) => {
                &&& before.answers(request, bytes)
                &&& self.wf()
                &&& self.held(id)
                &&& self.grown_from(
                    before,
                    id,
                    LazyOp::Const,
                    before.nodes()[request.source.index as int].view@,
                    Device::CPU,
                )
                &&& self.gpu() == before.gpu()
                &&& self.uploads() == before.uploads()
                &&& self.storages()[id.index as int] matches Some(Storage::CPU(_))
                &&& self.host_bytes(id) == bytes
            },
            Err(e) => {
                &&& !before.answers(request, bytes)
                &&& self.same_as(before)
                &&& e == TensorError::TransferError
            },
        }
    }

    /// Adds a node on the CPU that holds `bytes`, the bytes that the device
    /// gave back for `request`, with the view of the node that was read.
    /// Fails, and changes nothing, where `bytes` cannot be the answer to the
    /// request.
    #[verifier::rlimit(50)]
    pub fn complete_readback(&mut self, request: &Readback, bytes: &[u8]) -> (out: Result<
        TensorId,
        TensorError,
    >)
        requires
            old(self).wf(),
        ensures
            final(self).completed(old(self), *request, bytes@, out),
    {
        let ghost nodes = self.nodes();
        let ghost storages = self.storages();
        let ghost handles = self.handles();
        let ghost n = nodes.len() as int;
        let src = request.source;
        if src.index >= self.len() {
            return Err(TensorError::TransferError);
        }
        let same = match self.storage(src) {
            Some(Storage::GPU(b)) => b.inner.index == request.buffer.inner.index && b.alignment
                == request.buffer.alignment && b.size == request.buffer.size,
            _ => false,
        };
        if !same || bytes.len() != request.buffer.size {
            return Err(TensorError::TransferError);
        }
        if Layout::from_size_align(bytes.len(), request.buffer.alignment).is_none() {
            return Err(TensorError::TransferError);
        }
        proof {
            assert(node_ok(nodes, src.index as int));
            assert(slot_ok(nodes, storages, src.index as int));
        }
        let block = CPUBuffer::from_bytes(bytes, request.buffer.alignment);
        let view = self.node(src).view.clone();
        let storage = Storage::CPU(block);
        let ghost slot = Some(storage);
        let id = self.add_node(LazyOp::Const, view, Device::CPU, Some(storage));
        proof {
            let node = self.nodes()[n];
            assert(self.nodes() == nodes.push(node));
            lemma_push_keeps_nodes(nodes, storages, node, slot);
            lemma_push_keeps_buffers(nodes, storages, handles, old(self).pool(), node, slot);
            assert(node.op.spec_srcs().len() == 0);
            assert(node_ok(self.nodes(), n));
            assert(slot_ok(self.nodes(), self.storages(), n));
            assert(self.nodes().take(n) =~= nodes);
            assert(self.storages().take(n) =~= storages);
        }
        Ok(id)
    }

    /// What copying the device node `src` of `before` on the device does.
    /// Where it succeeds, the graph has the new node `id` on the GPU, with
    /// the view of `src` and a buffer of its own from the pool, of the size
    /// and the alignment of the buffer of `src`; the copy from that buffer
    /// is owed. It fails, and changes nothing, exactly where no buffer can
    /// have the size that is needed.
    pub open spec fn cloned_on_device(
        &self,
        before: &Graph,
        src: TensorId,
        out: Result<TensorId, TensorError>,
    ) -> bool {
        let source = gpu_buf(before.storages()[src.index as int])->Some_0;
        match out {
            Ok(id) => {
                &&& rounded_size(source.size as nat) <= usize::MAX
                &&& self.wf()
                &&& self.held(id)
                &&& self.grown_from(
                    before,
                    id,
                    LazyOp::Const,
                    before.nodes()[src.index as int].view@,
                    Device::GPU,
                )
                &&& self.gpu().bind_group_layouts == before.gpu().bind_group_layouts
                &&& self.gpu().pipeline_layouts == before.gpu().pipeline_layouts
                &&& self.gpu().pipelines == before.gpu().pipelines
                &&& self.gpu().buffers.spec_soft_cap() == before.gpu().buffers.spec_soft_cap()
                &&& self.gpu().buffers.spec_now() == before.gpu().buffers.spec_now()
                &&& self.storages()[id.index as int] matches Some(Storage::GPU(buffer))
                &&& buffer.size == source.size
                &&& buffer.alignment == source.alignment
                &&& allocated(
                    before.pool(),
                    BufferDescriptor {
                        size: rounded_size(buffer.size as nat) as usize,
                        usage: BufferUsage::Storage,
                    },
                    self.pool(),
                    buffer.inner.index as int,
                )
                &&& self.uploads().len() == before.uploads().len() + 1
                &&& self.uploads().take(before.uploads().len() as int) == before.uploads()
                &&& self.uploads().last().buffer == buffer.inner
                &&& self.uploads().last().data@ == Seq::<u8>::empty()
                &&& self.uploads().last().from == Some(source.inner)
            },
            Err(e) => {
                &&& self.same_as(before)
                &&& e == TensorError::DeviceError(DeviceError::AllocationFailed)
                &&& rounded_size(source.size as nat) > usize::MAX
            },
        }
    }

    /// Adds a node on the GPU that holds a copy of the data of the device
    /// node `src`, in a buffer of its own: the buffer is taken from the pool,
    /// and the copy from the buffer of `src` is noted as owed to the device.
    /// Fails, and changes nothing, where no buffer can have the size that is
    /// needed.
    #[verifier::rlimit(50)]
    pub fn deep_clone_device(&mut self, src: TensorId) -> (out: Result<TensorId, TensorError>)
        requires
            old(self).wf(),
            old(self).has(src),
            old(self).storages()[src.index as int] matches Some(Storage::GPU(_)),
        ensures
            final(self).cloned_on_device(old(self), src, out),
    {
        let ghost nodes = self.nodes();
        let ghost storages = self.storages();
        let ghost handles = self.handles();
        let ghost pool = self.pool();
        let ghost uploads = self.uploads();
        let ghost n = nodes.len() as int;
        proof {
            assert(node_ok(nodes, src.index as int));
            assert(slot_ok(nodes, storages, src.index as int));
        }
        let source = match self.storage(src) {
            Some(Storage::GPU(b)) => *b,
            _ => vstd::pervasive::unreached(),
        };
        let desc = match BufferDescriptor::storage(source.size) {
            Some(desc) => desc,
            None => {
                return Err(TensorError::DeviceError(DeviceError::AllocationFailed));
            },
        };
        proof {
            reveal_with_fuel(vstd::arithmetic::power2::is_pow2, 2);
            assert(layout_valid(0, 1));
        }
        let nothing = CPUBuffer::new(crate::cpu_buffer::RawCPUBuffer::uninitialized(0, 1));
        assert(nothing@ =~= Seq::<u8>::empty());
        let view = self.node(src).view.clone();
        let handle = self.alloc_buffer(desc);
        self.push_upload(Upload { buffer: handle, data: nothing, from: Some(source.inner) });
        let storage = Storage::GPU(
            GPUBuffer { inner: handle, alignment: source.alignment, size: source.size },
        );
        let ghost slot = Some(storage);
        let ghost mid_pool = self.pool();
        proof {
            let b = gpu_buf(slot)->Some_0;
            assert forall|v: int|
                0 <= v < nodes.len() && (#[trigger] gpu_buf(storages[v])) is Some && live(
                    nodes,
                    storages,
                    handles,
                    v,
                ) implies backed(mid_pool, gpu_buf(storages[v])->Some_0) && gpu_buf(
                storages[v],
            )->Some_0.inner != b.inner by {
                assert(backed(pool, gpu_buf(storages[v])->Some_0));
            }
            assert(buffers_ok(nodes, storages, handles, mid_pool));
        }
        let id = self.add_node(LazyOp::Const, view, Device::GPU, Some(storage));
        proof {
            let node = self.nodes()[n];
            assert(self.nodes() == nodes.push(node));
            lemma_push_keeps_nodes(nodes, storages, node, slot);
            lemma_push_keeps_buffers(nodes, storages, handles, mid_pool, node, slot);
            assert(node.op.spec_srcs().len() == 0);
            assert(node_ok(self.nodes(), n));
            assert(slot_ok(self.nodes(), self.storages(), n));
            assert(self.nodes().take(n) =~= nodes);
            assert(self.storages().take(n) =~= storages);
            assert(self.uploads().take(uploads.len() as int) =~= uploads);
        }
        Ok(id)
    }

    /// Adds a node on the CPU that holds a copy of the bytes of the host node
    /// `src`, in a block of its own.
    pub fn deep_clone_host(&mut self, src: TensorId) -> (id: TensorId)
        requires
            old(self).wf(),
            old(self).has(src),
            old(self).storages()[src.index as int] matches Some(Storage::CPU(_)),
        ensures
            final(self).wf(),
            final(self).grown_from(
                old(self),
                id,
                LazyOp::Const,
                old(self).nodes()[src.index as int].view@,
                Device::CPU,
            ),
            final(self).gpu() == old(self).gpu(),
            final(self).uploads() == old(self).uploads(),
            final(self).storages()[id.index as int] matches Some(Storage::CPU(_)),
            final(self).host_bytes(id) == old(self).host_bytes(src),
    {
        let ghost nodes = self.nodes();
        let ghost storages = self.storages();
        let ghost handles = self.handles();
        let ghost n = nodes.len() as int;
        proof {
            assert(node_ok(nodes, src.index as int));
            assert(slot_ok(nodes, storages, src.index as int));
        }
        let block = match self.storage(src) {
            Some(Storage::CPU(block)) => {
                proof {
                    block.lemma_view();
                }
                match block.deep_clone() {
                    Ok(copy) => copy,
                    Err(_) => vstd::pervasive::unreached(),
                }
            },
            _ => vstd::pervasive::unreached(),
        };
        proof {
            block.lemma_view();
        }
        let view = self.node(src).view.clone();
        let storage = Storage::CPU(block);
        let ghost slot = Some(storage);
        let id = self.add_node(LazyOp::Const, view, Device::CPU, Some(storage));
        proof {
            let node = self.nodes()[n];
            assert(self.nodes() == nodes.push(node));
            lemma_push_keeps_nodes(nodes, storages, node, slot);
            lemma_push_keeps_buffers(nodes, storages, handles, old(self).pool(), node, slot);
            assert(node.op.spec_srcs().len() == 0);
            assert(node_ok(self.nodes(), n));
            assert(slot_ok(self.nodes(), self.storages(), n));
            assert(self.nodes().take(n) =~= nodes);
            assert(self.storages().take(n) =~= storages);
        }
        id
    }
}

/// The bytes of a device node answer the request to read it. For a node
/// `src` with a device buffer, the request that `readback` makes is answered
/// by any bytes of the length that the node fills, as long as a block of host
/// memory can have that length.
pub proof fn lemma_readback_answered(graph: &Graph, src: TensorId, request: Readback, bytes: Seq<u8>)
    requires
        graph.wf(),
        graph.has(src),
        request.source == src,
        Some(request.buffer) == gpu_buf(graph.storages()[src.index as int]),
        bytes.len() == graph.nodes()[src.index as int].view@.num_bytes(),
        bytes.len() + graph.nodes()[src.index as int].view@.dt.spec_size_of() - 1 <= isize::MAX,
    ensures
        graph.answers(request, bytes),
{
    assert(slot_ok(graph.nodes(), graph.storages(), src.index as int));
    reveal_with_fuel(vstd::arithmetic::power2::is_pow2, 3);
}

/// Data that goes from the host to the device and back comes back as it
/// went. Moving the host node `src` of `before` to the GPU gave the graph
/// `moved` with the device node `on_device`, and `request` is the request to
/// read that node. Then the request asks for the very buffer that the bytes
/// of `src` are owed to. If the device gives back what that buffer was
/// given, completing the request succeeds, and the node `on_host` that it
/// adds is on the CPU, has the view of `src`, and holds the bytes of `src`.
pub proof fn lemma_round_trip(
    before: &Graph,
    src: TensorId,
    moved: &Graph,
    on_device: TensorId,
    request: Readback,
    given_back: Seq<u8>,
    back: &Graph,
    out: Result<TensorId, TensorError>,
)
    requires
        before.wf(),
        before.has(src),
        before.storages()[src.index as int] matches Some(Storage::CPU(_)),
        moved.moved_to_gpu(before, src, Ok(on_device)),
        request.source == on_device,
        Some(request.buffer) == gpu_buf(moved.storages()[on_device.index as int]),
        given_back == moved.uploads().last().data@,
        back.completed(moved, request, given_back, out),
    ensures
        request.buffer.inner == moved.uploads().last().buffer,
        out matches Ok(on_host) && back.host_bytes(on_host) == before.host_bytes(src)
            && back.nodes()[on_host.index as int].view@ == before.nodes()[src.index as int].view@
            && back.nodes()[on_host.index as int].device == Device::CPU,
{
    assert(slot_ok(before.nodes(), before.storages(), src.index as int));
    assert(node_ok(before.nodes(), src.index as int));
    let block = before.storages()[src.index as int]->Some_0->CPU_0;
    block.lemma_view();
    assert(moved.nodes()[on_device.index as int].view@ == before.nodes()[src.index as int].view@);
    lemma_readback_answered(moved, on_device, request, given_back);
}

/// Data that is given to the device at construction comes back as it went.
/// Adding the node `on_device` with the bytes `bytes` on the GPU gave the
/// graph `made`, and `request` is the request to read that node. Then the
/// request asks for the very buffer that the bytes are owed to. If the
/// device gives back what that buffer was given, completing the request
/// succeeds, and the node `on_host` that it adds is on the CPU, has the shape
/// and the element type that were given, and holds `bytes`.
pub proof fn lemma_given_comes_back(
    before: &Graph,
    bytes: Seq<u8>,
    dtype: DType,
    shape: Seq<usize>,
    made: &Graph,
    on_device: TensorId,
    request: Readback,
    given_back: Seq<u8>,
    back: &Graph,
    out: Result<TensorId, TensorError>,
)
    requires
        layout_valid(bytes.len() as usize, dtype.spec_align_of()),
        bytes.len() <= usize::MAX,
        made.wf(),
        made.given(before, on_device, bytes, dtype, shape, Device::GPU),
        request.source == on_device,
        Some(request.buffer) == gpu_buf(made.storages()[on_device.index as int]),
        given_back == made.uploads().last().data@,
        back.completed(made, request, given_back, out),
    ensures
        request.buffer.inner == made.uploads().last().buffer,
        out matches Ok(on_host) && back.host_bytes(on_host) == bytes
            && back.nodes()[on_host.index as int].view@ == ViewModel::contiguous(shape, dtype)
            && back.nodes()[on_host.index as int].device == Device::CPU,
{
    assert(slot_ok(made.nodes(), made.storages(), on_device.index as int));
    lemma_readback_answered(made, on_device, request, given_back);
}

} // verus!
