//! Host memory for tensors: a block of bytes with an alignment, and a shared
//! handle to such a block.

use std::sync::Arc;
use vstd::arithmetic::power2::is_pow2;
use vstd::prelude::*;
use crate::dtype::DType;
use crate::error::DeviceError;
use crate::shape::Shape;
use crate::uniform::zeros;

verus! {

/// Whether a block of `size` bytes can be aligned to `align`: the alignment
/// is a power of two, and the size, rounded up to the alignment, stays within
/// the largest size of an allocation.
pub open spec fn layout_valid(size: usize, align: usize) -> bool {
    &&& is_pow2(align as int)
    &&& size + align - 1 <= isize::MAX
}

/// The size and the alignment of a block of memory.
#[derive(Clone, Copy, Debug, PartialEq, Eq, Structural)]
pub struct Layout {
    size: usize,
    align: usize,
}

impl Layout {
    /// The size of the block in bytes.
    pub closed spec fn spec_size(&self) -> usize {
        self.size
    }

    /// The alignment of the block in bytes.
    pub closed spec fn spec_align(&self) -> usize {
        self.align
    }

    /// The layout of a block of `size` bytes aligned to `align`, or `None`
    /// where no block can have that size and alignment.
    pub fn from_size_align(size: usize, align: usize) -> (out: Option<Layout>)
        ensures
            match out {
                Some(layout) => layout_valid(size, align) && layout.spec_size() == size
                    && layout.spec_align() == align,
                None => !layout_valid(size, align),
            },
    {
        let mut m = align;
        while m > 1 && m % 2 == 0
            invariant
                is_pow2(m as int) == is_pow2(align as int),
            decreases m,
        {
            reveal(is_pow2);
            m = m / 2;
        }
        assert(is_pow2(m as int) == (m == 1)) by {
            reveal(is_pow2);
        }
        if m != 1 {
            return None;
        }
        assert(align >= 1) by {
            reveal(is_pow2);
        }
        let limit = isize::MAX as usize;
        if align - 1 > limit || size > limit - (align - 1) {
            return None;
        }
        Some(Layout { size, align })
    }

    /// The size of the block in bytes.
    #[verifier::when_used_as_spec(spec_size)]
    pub fn size(&self) -> (n: usize)
        ensures
            n == self.spec_size(),
    {
        self.size
    }

    /// The alignment of the block in bytes.
    #[verifier::when_used_as_spec(spec_align)]
    pub fn align(&self) -> (n: usize)
        ensures
            n == self.spec_align(),
    {
        self.align
    }
}

/// A block of host memory and its layout.
#[derive(Debug)]
pub struct RawCPUBuffer {
    data: Vec<u8>,
    layout: Layout,
}

impl View for RawCPUBuffer {
    type V = Seq<u8>;

    closed spec fn view(&self) -> Seq<u8> {
        self.data@
    }
}

impl RawCPUBuffer {
    /// The layout that the block was made with.
    pub closed spec fn spec_layout(&self) -> Layout {
        self.layout
    }

    /// The block has as many bytes as its layout says, and the layout is one
    /// that a block can have.
    pub open spec fn wf(&self) -> bool {
        &&& self@.len() == self.spec_layout().spec_size()
        &&& layout_valid(self.spec_layout().spec_size(), self.spec_layout().spec_align())
    }

    /// The bytes of the block and its layout.
    pub fn into_raw_parts(&self) -> (out: (&[u8], Layout))
        ensures
            out.0@ == self@,
            out.1 == self.spec_layout(),
    {
        (self.data.as_slice(), self.layout)
    }

    /// The size of the block in bytes.
    pub fn n_bytes(&self) -> (n: usize)
        ensures
            n == self.spec_layout().spec_size(),
    {
        self.layout.size()
    }

    /// The bytes of the block.
    pub fn as_bytes(&self) -> (out: &[u8])
        ensures
            out@ == self@,
    {
        self.data.as_slice()
    }

    /// The bytes of the block, to be written. What is written to them is
    /// what the block holds afterwards; their number cannot change.
    pub fn as_bytes_mut(&mut self) -> (out: &mut [u8])
        ensures
            out@ == old(self)@,
            final(self)@ == final(out)@,
            final(self).spec_layout() == old(self).spec_layout(),
    {
        self.data.as_mut_slice()
    }

    /// Overwrites the block with `bytes`.
    pub fn copy_from_slice(&mut self, bytes: &[u8])
        requires
            old(self).wf(),
            bytes@.len() == old(self)@.len(),
        ensures
            final(self).wf(),
            final(self)@ == bytes@,
            final(self).spec_layout() == old(self).spec_layout(),
    {
        let n = bytes.len();
        let mut i: usize = 0;
        while i < n
            invariant
                i <= n,
                n == bytes@.len(),
                self.data@.len() == n,
                self.layout == old(self).layout,
                forall|k: int| 0 <= k < i ==> self.data@[k] == bytes@[k],
            decreases n - i,
        {
            self.data.set(i, bytes[i]);
            i += 1;
        }
        assert(self.data@ =~= bytes@);
    }

    /// A block of `size` bytes aligned to `alignment`, filled with zeros.
    pub fn uninitialized(size: usize, alignment: usize) -> (out: Self)
        requires
            layout_valid(size, alignment),
        ensures
            out.wf(),
            out@ == zeros(size as nat),
            out.spec_layout().spec_size() == size,
            out.spec_layout().spec_align() == alignment,
    {
        let layout = Layout { size, align: alignment };
        let mut data: Vec<u8> = Vec::new();
        let mut i: usize = 0;
        while i < size
            invariant
                i <= size,
                data@ == zeros(i as nat),
            decreases size - i,
        {
            data.push(0u8);
            i += 1;
            assert(data@ =~= zeros(i as nat));
        }
        RawCPUBuffer { data, layout }
    }
}

impl Clone for RawCPUBuffer {
    /// A new block with the same layout and the same bytes.
    fn clone(&self) -> (out: Self)
        ensures
            out@ == self@,
            out.spec_layout() == self.spec_layout(),
    {
        RawCPUBuffer { data: self.data.clone(), layout: self.layout }
    }
}

/// Another handle to the block behind `inner`.
///
/// Calls `Arc::clone`, which returns a pointer to the same allocation: the
/// value behind the new handle is the value behind the old one.
#[verifier::external_body]
fn share(inner: &Arc<RawCPUBuffer>) -> (out: Arc<RawCPUBuffer>)
    ensures
        out == inner,
{
    Arc::clone(inner)
}

/// A shared handle to a block of host memory. Copies of the handle show the
/// same block.
#[derive(Debug)]
pub struct CPUBuffer {
    inner: Arc<RawCPUBuffer>,
}

impl View for CPUBuffer {
    type V = Seq<u8>;

    closed spec fn view(&self) -> Seq<u8> {
        self.inner@
    }
}

impl Clone for CPUBuffer {
    /// Another handle to the same block.
    fn clone(&self) -> (out: Self)
        ensures
            out == self,
    {
        CPUBuffer { inner: share(&self.inner) }
    }
}

impl CPUBuffer {
    /// The block behind the handle.
    pub closed spec fn spec_inner(&self) -> RawCPUBuffer {
        *self.inner
    }

    /// The block behind the handle is well-formed.
    pub open spec fn wf(&self) -> bool {
        self.spec_inner().wf()
    }

    /// The alignment of the block in bytes.
    pub open spec fn spec_alignment(&self) -> usize {
        self.spec_inner().spec_layout().spec_align()
    }

    /// The view of a handle is the view of its block.
    pub proof fn lemma_view(&self)
        ensures
            self@ == self.spec_inner()@,
    {
    }

    /// A handle to the block `inner`.
    pub fn new(inner: RawCPUBuffer) -> (out: Self)
        ensures
            out.spec_inner() == inner,
            out@ == inner@,
    {
        CPUBuffer { inner: Arc::new(inner) }
    }

    /// A block that holds the elements of a tensor of the given shape and
    /// element type, whose bytes are `bytes`, aligned as the element type
    /// asks.
    pub fn from_slice(bytes: &[u8], dtype: DType, shape: &Shape) -> (out: Self)
        requires
            bytes@.len() == shape.spec_numel() * dtype.spec_size_of(),
            layout_valid(bytes@.len() as usize, dtype.spec_align_of()),
        ensures
            out.wf(),
            out@ == bytes@,
            out.spec_alignment() == dtype.spec_align_of(),
    {
        Self::from_bytes(bytes, dtype.align_of())
    }

    /// The block behind the handle.
    pub fn inner(&self) -> (out: &RawCPUBuffer)
        ensures
            *out == self.spec_inner(),
    {
        &self.inner
    }

    /// A new block that holds a copy of `bytes`, aligned to `alignment`.
    pub fn from_bytes(bytes: &[u8], alignment: usize) -> (out: Self)
        requires
            layout_valid(bytes@.len() as usize, alignment),
        ensures
            out.wf(),
            out@ == bytes@,
            out.spec_alignment() == alignment,
            out.spec_inner().spec_layout().spec_size() == bytes@.len(),
    {
        let mut raw = RawCPUBuffer::uninitialized(bytes.len(), alignment);
        raw.copy_from_slice(bytes);
        Self::new(raw)
    }

    /// A handle to a new block with the same layout and the same bytes.
    /// Copying host memory cannot fail.
    pub fn deep_clone(&self) -> (out: Result<Self, DeviceError>)
        ensures
            out is Ok,
            out->Ok_0@ == self@,
            out->Ok_0.spec_inner().spec_layout() == self.spec_inner().spec_layout(),
    {
        Ok(Self::new(self.inner().clone()))
    }

    /// The size of the block in bytes.
    pub fn n_bytes(&self) -> (n: usize)
        ensures
            n == self.spec_inner().spec_layout().spec_size(),
    {
        self.inner().n_bytes()
    }

    /// The alignment of the block in bytes.
    pub fn alignment(&self) -> (n: usize)
        ensures
            n == self.spec_alignment(),
    {
        self.inner().layout.align()
    }

    /// The bytes of the block.
    pub fn as_bytes(&self) -> (out: &[u8])
        ensures
            out@ == self@,
    {
        self.inner().as_bytes()
    }

    /// The block as it is needed on the host: the same block.
    pub fn to_cpu(&self) -> (out: Result<CPUBuffer, DeviceError>)
        ensures
            out == Ok::<CPUBuffer, DeviceError>(*self),
    {
        Ok(self.clone())
    }
}

} // verus!
