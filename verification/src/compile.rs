//! Turning one node into one dispatch: its parameter record, its pipeline,
//! its buffers and its workgroup counts.

use vstd::bytes::lemma_auto_spec_u32_to_from_le_bytes;
use vstd::prelude::*;
use crate::binary::Binary;
use crate::error::OperationError;
use crate::gpu_buffer::{BufferHandle, GPUBuffer};
use crate::graph::{
    node_ok, pipeline_is, pools_asked, pools_extend, src_index, src_views, Graph, Inner,
    PipelineHandles,
};
use crate::layout::{inplace_layout, storage_layout, BindGroupLayoutDescriptor, BindingType};
use crate::lazy_op::LazyOp;
use crate::matmul::{matmul_shape, Matmul};
use crate::permute::Permute;
use crate::pipeline_pool::KernelElement;
use crate::reshape::Reshape;
use crate::tensor_id::TensorId;
use crate::unary::Unary;
use crate::uniform::{
    laid_out, padded, record_bytes, round_up, zeros, CpuUniform, MetaField, UNIFORM_ALIGN,
};
use crate::workgroup::{lemma_div_ceil, spec_dispatch, spec_div_ceil, WorkgroupCount};

verus! {

/// The largest number of dispatches in one batch: as many as have their
/// parameter records within the reach of a dynamic offset.
pub const MAX_DISPATCHES: usize = 16777215;

/// One dispatch, ready to be encoded.
#[derive(Debug)]
pub struct CompiledOp {
    /// The node that the dispatch computes.
    pub node: TensorId,
    /// The pipeline and its layouts.
    pub handles: PipelineHandles,
    /// The buffers of the storage bindings, slot by slot.
    pub buffers: Vec<BufferHandle>,
    /// Where the parameter record stands in the uniform buffer.
    pub uniform_offset: u32,
    /// The workgroup counts.
    pub workgroup_count: WorkgroupCount,
    /// Whether the result is written over the first operand.
    pub inplace: bool,
}

/// A batch of dispatches and the bytes of their parameter records.
#[derive(Debug)]
pub struct Executable {
    pub steps: Vec<CompiledOp>,
    pub uniform: Vec<u8>,
}

/// The members of the parameter record of node `i`.
pub open spec fn node_meta(nodes: Seq<Inner>, i: int) -> Seq<MetaField> {
    let views = src_views(nodes, i);
    match nodes[i].op {
        LazyOp::Const => Seq::empty(),
        LazyOp::Binary(_) => Binary::spec_meta(views[0], views[1], nodes[i].view@),
        LazyOp::Unary(u) => u.spec_meta(nodes[i].view@),
        LazyOp::Matmul(_) => Matmul::spec_meta(views[0], views[1], nodes[i].view@),
        LazyOp::IndexWrite(w) => w.spec_meta(views[0], views[1]).spec_fields(),
        LazyOp::Permute(p) => p.spec_meta(views[0], nodes[i].view@),
        LazyOp::Gemm(g) => g.spec_meta(views[0], views[1], nodes[i].view@),
        LazyOp::Conv1D(c) => c.spec_meta(views[0], views[1], nodes[i].view@),
        LazyOp::Reshape(_) => Reshape::spec_meta(nodes[i].view@),
        LazyOp::LayerNorm(l) => l.spec_meta(nodes[i].view@),
    }
}

/// The element width of the kernel of node `i`.
pub open spec fn node_elem(nodes: Seq<Inner>, i: int) -> KernelElement {
    match nodes[i].op {
        LazyOp::IndexWrite(_) => KernelElement::Scalar,
        _ => KernelElement::spec_for_numel(nodes[i].view@.numel()),
    }
}

/// The key of the kernel of node `i`.
pub open spec fn node_key(nodes: Seq<Inner>, i: int, inplace: bool) -> Seq<char> {
    match nodes[i].op {
        LazyOp::Const => Seq::empty(),
        LazyOp::Binary(b) => b.spec_kernel_key(inplace, node_elem(nodes, i)),
        LazyOp::Unary(u) => u.spec_kernel_key(inplace, node_elem(nodes, i)),
        LazyOp::Matmul(_) => Matmul::spec_kernel_key(node_elem(nodes, i)),
        LazyOp::IndexWrite(_) => "index_write"@ + "_"@ + KernelElement::Scalar.name(),
        LazyOp::Permute(_) => Permute::spec_kernel_key(node_elem(nodes, i)),
        LazyOp::Gemm(g) => g.spec_kernel_key(node_elem(nodes, i)),
        LazyOp::Conv1D(c) => c.spec_kernel_key(node_elem(nodes, i)),
        LazyOp::Reshape(_) => Reshape::spec_kernel_key(inplace, node_elem(nodes, i)),
        LazyOp::LayerNorm(l) => l.spec_kernel_key(node_elem(nodes, i)),
    }
}

/// The layout of the storage bindings of node `i`: in place, the first
/// operand, written, and the other operands; otherwise the operands and the
/// result.
pub open spec fn node_layout(nodes: Seq<Inner>, i: int, inplace: bool) -> Seq<BindingType> {
    let sources = nodes[i].op.spec_srcs().len();
    if inplace {
        inplace_layout((sources - 1) as nat)
    } else {
        storage_layout(sources)
    }
}

/// The number of elements that the dispatch of node `i` covers: those that
/// are written.
pub open spec fn node_dispatch_numel(nodes: Seq<Inner>, i: int) -> nat {
    match nodes[i].op {
        LazyOp::IndexWrite(_) => src_views(nodes, i)[1].numel(),
        _ => nodes[i].view@.numel(),
    }
}

/// The buffers of the storage bindings of node `i`, slot by slot: those of
/// the operands, in their order, and then, unless the node works in place,
/// the buffer of the result.
pub open spec fn node_buffers(
    nodes: Seq<Inner>,
    bufs: Seq<Option<GPUBuffer>>,
    i: int,
    inplace: bool,
) -> Seq<BufferHandle> {
    let sources = Seq::new(
        nodes[i].op.spec_srcs().len(),
        |k: int| bufs[src_index(nodes, i, k)]->Some_0.inner,
    );
    if inplace {
        sources
    } else {
        sources.push(bufs[i]->Some_0.inner)
    }
}

/// The staging area that held `before` after `record` has been written as
/// the `k`-th record: what was there, zeros up to the `k`-th aligned offset,
/// and the record.
pub open spec fn staged(before: Seq<u8>, k: int, record: Seq<u8>) -> Seq<u8> {
    before + zeros((UNIFORM_ALIGN * k - before.len()) as nat) + record
}

/// Whether `record` stands in `uniform` at `offset`.
pub open spec fn record_at(uniform: Seq<u8>, offset: int, record: Seq<u8>) -> bool {
    &&& 0 <= offset
    &&& offset + record.len() <= uniform.len()
    &&& uniform.subrange(offset, offset + record.len()) == record
}

/// Whether `step` is the dispatch of node `i`, the `k`-th of its batch: it
/// names the node, its workgroups cover the elements that are written, its
/// parameter record stands in `uniform` at the `k`-th aligned offset, its
/// buffers are those of the node, and its pipeline is the one of the node's
/// kernel.
pub open spec fn compiled_as(
    gpu: crate::graph::WgpuDevice,
    nodes: Seq<Inner>,
    bufs: Seq<Option<GPUBuffer>>,
    uniform: Seq<u8>,
    step: CompiledOp,
    i: int,
    inplace: bool,
    k: int,
) -> bool {
    &&& step.node.index == i
    &&& step.inplace == inplace
    &&& step.workgroup_count.as_triple() == spec_dispatch(node_dispatch_numel(nodes, i))
    &&& step.uniform_offset == UNIFORM_ALIGN * k
    &&& record_at(uniform, step.uniform_offset as int, record_bytes(node_meta(nodes, i)))
    &&& step.buffers@ == node_buffers(nodes, bufs, i, inplace)
    &&& pipeline_is(
        gpu,
        step.handles,
        node_layout(nodes, i, inplace),
        node_key(nodes, i, inplace),
        node_elem(nodes, i),
    )
}

/// A record with at least one and at most seven members has at least 4 and
/// at most 256 bytes.
pub proof fn lemma_record_len(fields: Seq<MetaField>)
    requires
        1 <= fields.len() <= 7,
    ensures
        4 <= record_bytes(fields).len() <= UNIFORM_ALIGN,
        round_up(record_bytes(fields).len(), UNIFORM_ALIGN as nat) == UNIFORM_ALIGN,
{
    lemma_laid_out_len(fields, Seq::empty());
}

/// Laying out members adds at least 4 and at most 32 bytes for each.
pub proof fn lemma_laid_out_len(fields: Seq<MetaField>, acc: Seq<u8>)
    ensures
        acc.len() + 4 * fields.len() <= laid_out(fields, acc).len() <= acc.len() + 32
            * fields.len(),
    decreases fields.len(),
{
    if fields.len() > 0 {
        lemma_auto_spec_u32_to_from_le_bytes();
        let f = fields[0];
        let next = padded(acc, f.align()) + f.bytes();
        assert(acc.len() + 4 <= next.len() <= acc.len() + 32);
        lemma_laid_out_len(fields.skip(1), next);
    }
}

/// A dispatch for at most 2^32 elements never exceeds the limit of
/// workgroups per dimension.
pub proof fn lemma_dispatch_fits(numel: nat)
    requires
        numel <= u32::MAX,
    ensures
        spec_dispatch(numel).0 <= WorkgroupCount::MAX_WGS_PER_DIM,
        spec_dispatch(numel).1 <= WorkgroupCount::MAX_WGS_PER_DIM,
        spec_dispatch(numel).1 >= 1,
{
    lemma_div_ceil(numel, 64);
    let groups = spec_div_ceil(numel, 64);
    if groups > 65535 {
        lemma_div_ceil(groups, 65535);
    }
}

/// The parts of a dispatch that depend on the operation of the node.
pub struct Parts {
    pub fields: Vec<MetaField>,
    pub key: String,
    pub elem: KernelElement,
    pub layout: BindGroupLayoutDescriptor,
    pub count: WorkgroupCount,
}

/// The layout that was found.
fn found_layout(found: Result<BindGroupLayoutDescriptor, OperationError>) -> (out:
    BindGroupLayoutDescriptor)
    requires
        found is Ok,
    ensures
        found == Ok::<BindGroupLayoutDescriptor, OperationError>(out),
{
    match found {
        Ok(layout) => layout,
        Err(_) => vstd::pervasive::unreached(),
    }
}

/// The workgroup counts that were found.
fn found_count(found: Result<WorkgroupCount, OperationError>) -> (out: WorkgroupCount)
    requires
        found is Ok,
    ensures
        found == Ok::<WorkgroupCount, OperationError>(out),
{
    match found {
        Ok(count) => count,
        Err(_) => vstd::pervasive::unreached(),
    }
}

/// Whether node `i` can be compiled, in place or not: every node of the
/// graph is what a node must be, an operation produces node `i`, the node has
/// elements, and the operation allows the way of working that is asked for.
pub open spec fn can_compile(nodes: Seq<Inner>, i: int, inplace: bool) -> bool {
    &&& 0 <= i < nodes.len()
    &&& forall|j: int| 0 <= j < nodes.len() ==> #[trigger] node_ok(nodes, j)
    &&& !(nodes[i].op is Const)
    &&& nodes[i].view@.numel() > 0
    &&& inplace ==> nodes[i].op.spec_supports_inplace()
    &&& !inplace ==> !nodes[i].op.spec_requires_inplace()
}

/// Whether `parts` are the parts of the dispatch of node `i`.
pub open spec fn parts_of(nodes: Seq<Inner>, i: int, inplace: bool, parts: Parts) -> bool {
    &&& parts.fields@ == node_meta(nodes, i)
    &&& 1 <= parts.fields@.len() <= 7
    &&& parts.key@ == node_key(nodes, i, inplace)
    &&& parts.elem == node_elem(nodes, i)
    &&& parts.layout@ == node_layout(nodes, i, inplace)
    &&& parts.count.as_triple() == spec_dispatch(node_dispatch_numel(nodes, i))
}

impl Graph {
    /// The buffers of the storage bindings of the node `id`, slot by slot.
    fn bindings(&self, id: TensorId, inplace: bool, bufs: &Vec<Option<GPUBuffer>>) -> (out: Vec<
        BufferHandle,
    >)
        requires
            self.has(id),
            node_ok(self.nodes(), id.index as int),
            bufs@.len() == self.nodes().len(),
            bufs@[id.index as int] is Some,
            forall|m: int|
                0 <= m < self.nodes()[id.index as int].op.spec_srcs().len() ==> bufs@[src_index(
                    self.nodes(),
                    id.index as int,
                    m,
                )] is Some,
        ensures
            out@ == node_buffers(self.nodes(), bufs@, id.index as int, inplace),
    {
        let ghost nodes = self.nodes();
        let ghost i = id.index as int;
        let srcs = self.node(id).op.srcs();
        let mut out: Vec<BufferHandle> = Vec::new();
        let mut m: usize = 0;
        while m < srcs.len()
            invariant
                m <= srcs.len(),
                nodes == self.nodes(),
                i == id.index,
                i < nodes.len(),
                node_ok(nodes, i),
                srcs@ == nodes[i].op.spec_srcs(),
                bufs@.len() == nodes.len(),
                forall|j: int|
                    0 <= j < nodes[i].op.spec_srcs().len() ==> bufs@[src_index(nodes, i, j)] is Some,
                out@ == Seq::new(m as nat, |j: int| bufs@[src_index(nodes, i, j)]->Some_0.inner),
            decreases srcs.len() - m,
        {
            assert(0 <= src_index(nodes, i, m as int) < i);
            let handle = match bufs[srcs[m].index] {
                Some(b) => b.inner,
                None => vstd::pervasive::unreached(),
            };
            out.push(handle);
            m += 1;
            assert(out@ =~= Seq::new(m as nat, |j: int| bufs@[src_index(nodes, i, j)]->Some_0.inner));
        }
        if !inplace {
            let own = match bufs[id.index] {
                Some(b) => b.inner,
                None => vstd::pervasive::unreached(),
            };
            out.push(own);
        }
        out
    }

    /// The parts of the dispatch of a node that an element-wise operation on
    /// two tensors produces.
    fn parts_binary(&self, id: TensorId, inplace: bool) -> (out: Parts)
        requires
            can_compile(self.nodes(), id.index as int, inplace),
            self.nodes()[id.index as int].op is Binary,
        ensures
            parts_of(self.nodes(), id.index as int, inplace, out),
    {
        let ghost nodes = self.nodes();
        let ghost i = id.index as int;
        let ghost views = src_views(nodes, i);
        let node = self.node(id);
        proof {
            assert(node_ok(nodes, i));
        }
        match &node.op {
            LazyOp::Binary(b) => {
                proof {
                    assert(views[0] == nodes[b.lhs.index as int].view@);
                    assert(views[1] == nodes[b.rhs.index as int].view@);
                    assert(src_index(nodes, i, 0) == b.lhs.index);
                    assert(src_index(nodes, i, 1) == b.rhs.index);
                    lemma_dispatch_fits(node_dispatch_numel(nodes, i));
                }
                let lhs = &self.node(b.lhs).view;
                let rhs = &self.node(b.rhs).view;
                Parts {
                    fields: Binary::metadata(lhs, rhs, &node.view),
                    key: b.kernel_key(inplace, &node.view),
                    elem: b.kernel_element(&node.view),
                    layout: found_layout(b.storage_bind_group_layout(inplace)),
                    count: found_count(b.calculate_dispatch(&node.view)),
                }
            },
            _ => vstd::pervasive::unreached(),
        }
    }

    /// The parts of the dispatch of a node that an element-wise operation on
    /// one tensor produces.
    fn parts_unary(&self, id: TensorId, inplace: bool) -> (out: Parts)
        requires
            can_compile(self.nodes(), id.index as int, inplace),
            self.nodes()[id.index as int].op is Unary,
        ensures
            parts_of(self.nodes(), id.index as int, inplace, out),
    {
        let ghost nodes = self.nodes();
        let ghost i = id.index as int;
        let ghost views = src_views(nodes, i);
        let node = self.node(id);
        proof {
            assert(node_ok(nodes, i));
        }
        match &node.op {
            LazyOp::Unary(u) => {
                proof {
                    assert(views[0] == nodes[u.input.index as int].view@);
                    assert(src_index(nodes, i, 0) == u.input.index);
                    lemma_dispatch_fits(node_dispatch_numel(nodes, i));
                }
                Parts {
                    fields: u.metadata(&node.view),
                    key: u.kernel_key(inplace, &node.view),
                    elem: u.kernel_element(&node.view),
                    layout: found_layout(u.storage_bind_group_layout(inplace)),
                    count: found_count(u.calculate_dispatch(&node.view)),
                }
            },
            _ => vstd::pervasive::unreached(),
        }
    }

    /// The parts of the dispatch of a node that a matrix multiplication
    /// produces.
    fn parts_matmul(&self, id: TensorId, inplace: bool) -> (out: Parts)
        requires
            can_compile(self.nodes(), id.index as int, inplace),
            self.nodes()[id.index as int].op is Matmul,
        ensures
            parts_of(self.nodes(), id.index as int, inplace, out),
    {
        let ghost nodes = self.nodes();
        let ghost i = id.index as int;
        let ghost views = src_views(nodes, i);
        let node = self.node(id);
        proof {
            assert(node_ok(nodes, i));
        }
        match &node.op {
            LazyOp::Matmul(m) => {
                proof {
                    assert(views[0] == nodes[m.lhs.index as int].view@);
                    assert(views[1] == nodes[m.rhs.index as int].view@);
                    assert(src_index(nodes, i, 0) == m.lhs.index);
                    assert(src_index(nodes, i, 1) == m.rhs.index);
                    assert(matmul_shape(views[0].shape, views[1].shape) is Some);
                    lemma_dispatch_fits(node_dispatch_numel(nodes, i));
                }
                let lhs = &self.node(m.lhs).view;
                let rhs = &self.node(m.rhs).view;
                Parts {
                    fields: Matmul::metadata(lhs, rhs, &node.view),
                    key: m.kernel_key(inplace, &node.view),
                    elem: m.kernel_element(&node.view),
                    layout: found_layout(m.storage_bind_group_layout(inplace)),
                    count: found_count(m.calculate_dispatch(&node.view)),
                }
            },
            _ => vstd::pervasive::unreached(),
        }
    }

    /// The parts of the dispatch of a node that an index write produces.
    fn parts_index_write(&self, id: TensorId, inplace: bool) -> (out: Parts)
        requires
            can_compile(self.nodes(), id.index as int, inplace),
            self.nodes()[id.index as int].op is IndexWrite,
        ensures
            parts_of(self.nodes(), id.index as int, inplace, out),
    {
        let ghost nodes = self.nodes();
        let ghost i = id.index as int;
        let ghost views = src_views(nodes, i);
        let node = self.node(id);
        proof {
            assert(node_ok(nodes, i));
        }
        match &node.op {
            LazyOp::IndexWrite(w) => {
                proof {
                    assert(views[0] == nodes[w.dst.index as int].view@);
                    assert(views[1] == nodes[w.src.index as int].view@);
                    assert(src_index(nodes, i, 0) == w.dst.index);
                    assert(src_index(nodes, i, 1) == w.src.index);
                    lemma_dispatch_fits(node_dispatch_numel(nodes, i));
                }
                let dst = &self.node(w.dst).view;
                let src = &self.node(w.src).view;
                Parts {
                    fields: w.metadata(dst, src).fields(),
                    key: w.kernel_key(inplace, &node.view),
                    elem: w.kernel_element(&node.view),
                    layout: found_layout(w.storage_bind_group_layout(inplace)),
                    count: found_count(w.calculate_dispatch(src)),
                }
            },
            _ => vstd::pervasive::unreached(),
        }
    }

    /// The parts of the dispatch of a node that a permutation produces.
    fn parts_permute(&self, id: TensorId, inplace: bool) -> (out: Parts)
        requires
            can_compile(self.nodes(), id.index as int, inplace),
            self.nodes()[id.index as int].op is Permute,
        ensures
            parts_of(self.nodes(), id.index as int, inplace, out),
    {
        let ghost nodes = self.nodes();
        let ghost i = id.index as int;
        let ghost views = src_views(nodes, i);
        let node = self.node(id);
        proof {
            assert(node_ok(nodes, i));
        }
        match &node.op {
            LazyOp::Permute(p) => {
                proof {
                    assert(views[0] == nodes[p.input.index as int].view@);
                    assert(src_index(nodes, i, 0) == p.input.index);
                    lemma_dispatch_fits(node_dispatch_numel(nodes, i));
                }
                let input = &self.node(p.input).view;
                Parts {
                    fields: p.metadata(input, &node.view),
                    key: p.kernel_key(inplace, &node.view),
                    elem: p.kernel_element(&node.view),
                    layout: found_layout(p.storage_bind_group_layout(inplace)),
                    count: found_count(p.calculate_dispatch(&node.view)),
                }
            },
            _ => vstd::pervasive::unreached(),
        }
    }

    /// The parts of the dispatch of a node that a general matrix
    /// multiplication produces.
    fn parts_gemm(&self, id: TensorId, inplace: bool) -> (out: Parts)
        requires
            can_compile(self.nodes(), id.index as int, inplace),
            self.nodes()[id.index as int].op is Gemm,
        ensures
            parts_of(self.nodes(), id.index as int, inplace, out),
    {
        let ghost nodes = self.nodes();
        let ghost i = id.index as int;
        let ghost views = src_views(nodes, i);
        let node = self.node(id);
        proof {
            assert(node_ok(nodes, i));
        }
        match &node.op {
            LazyOp::Gemm(g) => {
                proof {
                    assert(views[0] == nodes[g.lhs.index as int].view@);
                    assert(views[1] == nodes[g.rhs.index as int].view@);
                    assert(src_index(nodes, i, 0) == g.lhs.index);
                    assert(src_index(nodes, i, 1) == g.rhs.index);
                    assert(g.spec_shape(views[0].shape, views[1].shape) is Some);
                    assert(crate::gemm::oriented(views[0].shape, g.trans_lhs).len() >= 2);
                    lemma_dispatch_fits(node_dispatch_numel(nodes, i));
                }
                let lhs = &self.node(g.lhs).view;
                let rhs = &self.node(g.rhs).view;
                Parts {
                    fields: g.metadata(lhs, rhs, &node.view),
                    key: g.kernel_key(inplace, &node.view),
                    elem: g.kernel_element(&node.view),
                    layout: found_layout(g.storage_bind_group_layout(inplace)),
                    count: found_count(g.calculate_dispatch(&node.view)),
                }
            },
            _ => vstd::pervasive::unreached(),
        }
    }

    /// The parts of the dispatch of a node that a convolution produces.
    fn parts_conv1d(&self, id: TensorId, inplace: bool) -> (out: Parts)
        requires
            can_compile(self.nodes(), id.index as int, inplace),
            self.nodes()[id.index as int].op is Conv1D,
        ensures
            parts_of(self.nodes(), id.index as int, inplace, out),
    {
        let ghost nodes = self.nodes();
        let ghost i = id.index as int;
        let ghost views = src_views(nodes, i);
        let node = self.node(id);
        proof {
            assert(node_ok(nodes, i));
        }
        match &node.op {
            LazyOp::Conv1D(c) => {
                proof {
                    assert(views[0] == nodes[c.input.index as int].view@);
                    assert(views[1] == nodes[c.weight.index as int].view@);
                    assert(src_index(nodes, i, 0) == c.input.index);
                    assert(src_index(nodes, i, 1) == c.weight.index);
                    assert(c.spec_shape(views[0].shape, views[1].shape) is Some);
                    lemma_dispatch_fits(node_dispatch_numel(nodes, i));
                }
                let input = &self.node(c.input).view;
                let weight = &self.node(c.weight).view;
                Parts {
                    fields: c.metadata(input, weight, &node.view),
                    key: c.kernel_key(inplace, &node.view),
                    elem: c.kernel_element(&node.view),
                    layout: found_layout(c.storage_bind_group_layout(inplace)),
                    count: found_count(c.calculate_dispatch(&node.view)),
                }
            },
            _ => vstd::pervasive::unreached(),
        }
    }

    /// The parts of the dispatch of a node that a reshaping produces.
    fn parts_reshape(&self, id: TensorId, inplace: bool) -> (out: Parts)
        requires
            can_compile(self.nodes(), id.index as int, inplace),
            self.nodes()[id.index as int].op is Reshape,
        ensures
            parts_of(self.nodes(), id.index as int, inplace, out),
    {
        let ghost nodes = self.nodes();
        let ghost i = id.index as int;
        let ghost views = src_views(nodes, i);
        let node = self.node(id);
        proof {
            assert(node_ok(nodes, i));
        }
        match &node.op {
            LazyOp::Reshape(r) => {
                proof {
                    assert(views[0] == nodes[r.input.index as int].view@);
                    assert(src_index(nodes, i, 0) == r.input.index);
                    lemma_dispatch_fits(node_dispatch_numel(nodes, i));
                }
                Parts {
                    fields: Reshape::metadata(&node.view),
                    key: r.kernel_key(inplace, &node.view),
                    elem: r.kernel_element(&node.view),
                    layout: found_layout(r.storage_bind_group_layout(inplace)),
                    count: found_count(r.calculate_dispatch(&node.view)),
                }
            },
            _ => vstd::pervasive::unreached(),
        }
    }

    /// The parts of the dispatch of a node that a layer normalisation
    /// produces.
    fn parts_layer_norm(&self, id: TensorId, inplace: bool) -> (out: Parts)
        requires
            can_compile(self.nodes(), id.index as int, inplace),
            self.nodes()[id.index as int].op is LayerNorm,
        ensures
            parts_of(self.nodes(), id.index as int, inplace, out),
    {
        let ghost nodes = self.nodes();
        let ghost i = id.index as int;
        let ghost views = src_views(nodes, i);
        let node = self.node(id);
        proof {
            assert(node_ok(nodes, i));
        }
        match &node.op {
            LazyOp::LayerNorm(l) => {
                proof {
                    assert(views[0] == nodes[l.input.index as int].view@);
                    assert(src_index(nodes, i, 0) == l.input.index);
                    lemma_dispatch_fits(node_dispatch_numel(nodes, i));
                }
                Parts {
                    fields: l.metadata(&node.view),
                    key: l.kernel_key(inplace, &node.view),
                    elem: l.kernel_element(&node.view),
                    layout: found_layout(l.storage_bind_group_layout(inplace)),
                    count: found_count(l.calculate_dispatch(&node.view)),
                }
            },
            _ => vstd::pervasive::unreached(),
        }
    }

    /// The parts of the dispatch of the node `id`.
    fn parts(&self, id: TensorId, inplace: bool) -> (out: Parts)
        requires
            can_compile(self.nodes(), id.index as int, inplace),
        ensures
            parts_of(self.nodes(), id.index as int, inplace, out),
    {
        match &self.node(id).op {
            LazyOp::Const => vstd::pervasive::unreached(),
            LazyOp::Binary(_) => self.parts_binary(id, inplace),
            LazyOp::Unary(_) => self.parts_unary(id, inplace),
            LazyOp::Matmul(_) => self.parts_matmul(id, inplace),
            LazyOp::IndexWrite(_) => self.parts_index_write(id, inplace),
            LazyOp::Permute(_) => self.parts_permute(id, inplace),
            LazyOp::Gemm(_) => self.parts_gemm(id, inplace),
            LazyOp::Conv1D(_) => self.parts_conv1d(id, inplace),
            LazyOp::Reshape(_) => self.parts_reshape(id, inplace),
            LazyOp::LayerNorm(_) => self.parts_layer_norm(id, inplace),
        }
    }

    /// Compiles the node `id` as the `k`-th dispatch of a batch: writes its
    /// parameter record to `uniform`, finds its pipeline, and names its
    /// buffers and its workgroup counts.
    #[verifier::rlimit(50)]
    pub(crate) fn compile_node(
        &mut self,
        id: TensorId,
        inplace: bool,
        bufs: &Vec<Option<GPUBuffer>>,
        uniform: &mut CpuUniform,
        k: usize,
    ) -> (step: CompiledOp)
        requires
            old(self).wf(),
            old(self).has(id),
            !(old(self).nodes()[id.index as int].op is Const),
            old(self).nodes()[id.index as int].view@.numel() > 0,
            bufs@.len() == old(self).nodes().len(),
            bufs@[id.index as int] is Some,
            forall|m: int|
                0 <= m < old(self).nodes()[id.index as int].op.spec_srcs().len() ==> bufs@[src_index(
                    old(self).nodes(),
                    id.index as int,
                    m,
                )] is Some,
            inplace ==> old(self).nodes()[id.index as int].op.spec_supports_inplace(),
            !inplace ==> !old(self).nodes()[id.index as int].op.spec_requires_inplace(),
            old(uniform).wf(),
            old(uniform).next_offset() == UNIFORM_ALIGN * k,
            k < MAX_DISPATCHES,
        ensures
            final(self).wf(),
            pools_extend(old(self).gpu(), final(self).gpu()),
            pools_asked(
                old(self).gpu(),
                final(self).gpu(),
                step.handles,
                node_layout(old(self).nodes(), id.index as int, inplace),
                node_key(old(self).nodes(), id.index as int, inplace),
                node_elem(old(self).nodes(), id.index as int),
            ),
            final(self).gpu().buffers == old(self).gpu().buffers,
            final(self).nodes() == old(self).nodes(),
            final(self).storages() == old(self).storages(),
            final(self).handles() == old(self).handles(),
            final(self).uploads() == old(self).uploads(),
            final(uniform).wf(),
            final(uniform).next_offset() == UNIFORM_ALIGN * (k + 1),
            final(uniform)@ == staged(
                old(uniform)@,
                k as int,
                record_bytes(node_meta(old(self).nodes(), id.index as int)),
            ),
            final(uniform)@.take(old(uniform)@.len() as int) == old(uniform)@,
            compiled_as(
                final(self).gpu(),
                final(self).nodes(),
                bufs@,
                final(uniform)@,
                step,
                id.index as int,
                inplace,
                k as int,
            ),
    {
        let ghost nodes = self.nodes();
        let ghost i = id.index as int;
        proof {
            assert(node_ok(nodes, i));
            assert forall|j: int| 0 <= j < nodes.len() implies #[trigger] node_ok(nodes, j) by {}
        }
        let buffers = self.bindings(id, inplace, bufs);
        let Parts { fields, key, elem, layout, count } = self.parts(id, inplace);
        proof {
            lemma_record_len(fields@);
        }
        let ghost before = uniform@;
        let at = match uniform.write(&fields) {
            Ok(at) => at,
            Err(_) => vstd::pervasive::unreached(),
        };
        proof {
            let record = record_bytes(fields@);
            let gap = zeros((at - before.len()) as nat);
            assert(uniform@ == before + gap + record);
            assert(uniform@.subrange(at as int, at + record.len()) =~= record);
            assert(uniform@.take(before.len() as int) =~= before);
        }
        let handles = self.pipeline_for(&layout, key, elem);
        proof {
            assert forall|j: int| 0 <= j < nodes.len() implies #[trigger] node_ok(
                self.nodes(),
                j,
            ) by {
                assert(node_ok(old(self).nodes(), j));
            }
            assert forall|j: int| 0 <= j < nodes.len() implies #[trigger] crate::graph::slot_ok(
                self.nodes(),
                self.storages(),
                j,
            ) by {
                assert(crate::graph::slot_ok(old(self).nodes(), old(self).storages(), j));
            }
        }
        CompiledOp {
            node: id,
            handles,
            buffers,
            uniform_offset: at as u32,
            workgroup_count: count,
            inplace,
        }
    }
}

} // verus!
