//! Compute pipelines: what describes one, and the pool that holds them.

use vstd::prelude::*;
use crate::layout::PipelineLayoutHandle;
use crate::pool::{looked_up, Descriptor, StaticResourcePool};

verus! {

/// The handle of a compute pipeline in its pool.
#[derive(Clone, Copy, Debug, PartialEq, Eq, Structural, Hash)]
pub struct ComputePipelineHandle {
    pub index: usize,
}

/// How many elements one invocation of a kernel handles.
#[derive(Debug, Clone, Copy, Hash, PartialEq, Eq, Structural)]
pub enum KernelElement {
    Vec4,
    Vec2,
    Scalar,
}

impl KernelElement {
    /// The number of elements per invocation.
    pub open spec fn width(self) -> u32 {
        match self {
            KernelElement::Vec4 => 4,
            KernelElement::Vec2 => 2,
            KernelElement::Scalar => 1,
        }
    }

    /// The name of the width, as it stands in a kernel's key.
    pub open spec fn name(self) -> Seq<char> {
        match self {
            KernelElement::Vec4 => "vec4"@,
            KernelElement::Vec2 => "vec2"@,
            KernelElement::Scalar => "scalar"@,
        }
    }

    /// The widest element that divides `numel`.
    pub open spec fn spec_for_numel(numel: nat) -> KernelElement {
        if numel % 4 == 0 {
            KernelElement::Vec4
        } else if numel % 2 == 0 {
            KernelElement::Vec2
        } else {
            KernelElement::Scalar
        }
    }

    /// The name of the width, as it stands in a kernel's key.
    pub fn as_str(&self) -> (s: &'static str)
        ensures
            s@ == self.name(),
    {
        match self {
            KernelElement::Vec4 => "vec4",
            KernelElement::Vec2 => "vec2",
            KernelElement::Scalar => "scalar",
        }
    }

    /// The widest element that divides `numel`: four where `numel` is a
    /// multiple of 4, two where it is even, one otherwise.
    pub fn for_numel(numel: usize) -> (e: KernelElement)
        ensures
            e == Self::spec_for_numel(numel as nat),
            numel as nat % e.width() as nat == 0,
    {
        if numel % 4 == 0 {
            KernelElement::Vec4
        } else if numel % 2 == 0 {
            KernelElement::Vec2
        } else {
            KernelElement::Scalar
        }
    }
}

impl From<&KernelElement> for u32 {
    fn from(item: &KernelElement) -> (out: u32) {
        match item {
            KernelElement::Vec4 => 4,
            KernelElement::Vec2 => 2,
            KernelElement::Scalar => 1,
        }
    }
}

impl vstd::std_specs::convert::FromSpecImpl<&KernelElement> for u32 {
    open spec fn obeys_from_spec() -> bool {
        true
    }

    open spec fn from_spec(item: &KernelElement) -> u32 {
        item.width()
    }
}

/// What makes a compute pipeline: the layout of its bindings, the key of its
/// kernel, and the kernel's element width.
#[derive(Debug, Hash)]
pub struct ComputePipelineDescriptor {
    pipeline_layout: PipelineLayoutHandle,
    kernel_key: String,
    elem: KernelElement,
}

impl View for ComputePipelineDescriptor {
    type V = (PipelineLayoutHandle, Seq<char>, KernelElement);

    closed spec fn view(&self) -> (PipelineLayoutHandle, Seq<char>, KernelElement) {
        (self.pipeline_layout, self.kernel_key@, self.elem)
    }
}

impl ComputePipelineDescriptor {
    /// The descriptor of the pipeline that runs the kernel `kernel_key` with
    /// element width `elem` over bindings laid out as `pipeline_layout`.
    pub fn new(pipeline_layout: PipelineLayoutHandle, kernel_key: String, elem: KernelElement) -> (out:
        Self)
        ensures
            out@ == (pipeline_layout, kernel_key@, elem),
    {
        ComputePipelineDescriptor { pipeline_layout, kernel_key, elem }
    }

    /// The layout of the pipeline's bindings.
    pub fn pipeline_layout(&self) -> (out: PipelineLayoutHandle)
        ensures
            out == self@.0,
    {
        self.pipeline_layout
    }

    /// The key of the pipeline's kernel.
    pub fn kernel_key(&self) -> (out: &str)
        ensures
            out@ == self@.1,
    {
        self.kernel_key.as_str()
    }

    /// The element width of the pipeline's kernel.
    pub fn elem(&self) -> (out: KernelElement)
        ensures
            out == self@.2,
    {
        self.elem
    }
}

impl Clone for ComputePipelineDescriptor {
    fn clone(&self) -> (out: Self)
        ensures
            out@ == self@,
    {
        ComputePipelineDescriptor {
            pipeline_layout: self.pipeline_layout,
            kernel_key: self.kernel_key.clone(),
            elem: self.elem,
        }
    }
}

impl Descriptor for ComputePipelineDescriptor {
    fn same(&self, other: &Self) -> (b: bool) {
        self.pipeline_layout.index == other.pipeline_layout.index && self.kernel_key
            == other.kernel_key && self.elem == other.elem
    }

    fn duplicate(&self) -> (out: Self) {
        self.clone()
    }
}

/// The compute pipelines of a device. The pool decides which pipelines
/// exist and under which handle; whoever drives the device builds the
/// pipeline of every descriptor that the pool holds.
pub struct ComputePipelinePool {
    inner: StaticResourcePool<ComputePipelineDescriptor>,
}

impl View for ComputePipelinePool {
    type V = Seq<(PipelineLayoutHandle, Seq<char>, KernelElement)>;

    closed spec fn view(&self) -> Seq<(PipelineLayoutHandle, Seq<char>, KernelElement)> {
        self.inner@
    }
}

impl ComputePipelinePool {
    /// No two handles of the pool stand for the same descriptor.
    pub closed spec fn wf(&self) -> bool {
        self.inner.wf()
    }

    /// The entries of a well-formed pool are distinct.
    pub proof fn lemma_wf(&self)
        ensures
            self.wf() == crate::pool::distinct(self@),
    {
    }

    /// An empty pool.
    pub fn new() -> (out: Self)
        ensures
            out.wf(),
            out@ == Seq::<(PipelineLayoutHandle, Seq<char>, KernelElement)>::empty(),
    {
        ComputePipelinePool { inner: StaticResourcePool::new() }
    }

    /// The number of pipelines in the pool.
    pub fn len(&self) -> (n: usize)
        ensures
            n == self@.len(),
    {
        self.inner.len()
    }

    /// The descriptor behind a handle.
    pub fn get(&self, handle: ComputePipelineHandle) -> (out: Option<&ComputePipelineDescriptor>)
        ensures
            match out {
                Some(d) => handle.index < self@.len() && d@ == self@[handle.index as int],
                None => handle.index >= self@.len(),
            },
    {
        self.inner.get(handle.index)
    }

    /// The handle of the pipeline that `desc` describes. A descriptor that
    /// the pool holds keeps the handle it has and the pool stays as it is; a
    /// new one is stored under the next handle.
    pub fn get_or_create(&mut self, desc: &ComputePipelineDescriptor) -> (handle:
        ComputePipelineHandle)
        requires
            old(self).wf(),
        ensures
            final(self).wf(),
            looked_up(old(self)@, desc@, final(self)@, handle.index as int),
    {
        ComputePipelineHandle { index: self.inner.get_or_create(desc) }
    }
}

} // verus!
