//! The view of a tensor's storage: shape, element type and strides.

use vstd::prelude::*;
use crate::dtype::DType;
use crate::shape::{canonical_strides, dims_fit, numel_of, Shape, Strides};

verus! {

/// The mathematical content of a storage view.
pub struct ViewModel {
    pub shape: Seq<usize>,
    pub dt: DType,
    pub strides: Seq<usize>,
}

impl ViewModel {
    /// The number of elements.
    pub open spec fn numel(self) -> nat {
        numel_of(self.shape)
    }

    /// The number of bytes that the elements fill.
    pub open spec fn num_bytes(self) -> nat {
        numel_of(self.shape) * self.dt.spec_size_of() as nat
    }

    /// The products of the extents can be computed, there is one stride for
    /// each dimension, and the size in bytes fits a machine word.
    pub open spec fn valid(self) -> bool {
        &&& dims_fit(self.shape)
        &&& self.strides.len() == self.shape.len()
        &&& self.num_bytes() <= usize::MAX
    }

    /// A kernel can be told of the view: it has at most four dimensions, and
    /// its extents and its number of elements fit 32 bits.
    pub open spec fn kernel_ready(self) -> bool {
        &&& self.valid()
        &&& self.shape.len() <= 4
        &&& self.numel() <= u32::MAX
        &&& forall|i: int| 0 <= i < self.shape.len() ==> self.shape[i] <= u32::MAX
    }

    /// The view of a contiguous tensor with extents `shape` and element
    /// type `dt`.
    pub open spec fn contiguous(shape: Seq<usize>, dt: DType) -> ViewModel {
        ViewModel { shape, dt, strides: canonical_strides(shape) }
    }
}

/// How the elements of a tensor lie in its storage.
#[derive(Debug)]
pub struct StorageView {
    pub shape: Shape,
    pub dt: DType,
    pub strides: Strides,
}

impl View for StorageView {
    type V = ViewModel;

    open spec fn view(&self) -> ViewModel {
        ViewModel { shape: self.shape@, dt: self.dt, strides: self.strides@ }
    }
}

impl Clone for StorageView {
    fn clone(&self) -> (out: Self)
        ensures
            out@ == self@,
    {
        StorageView { shape: self.shape.clone(), dt: self.dt, strides: self.strides.clone() }
    }
}

impl StorageView {
    /// The view with the given shape, element type and strides.
    pub fn new(shape: Shape, dt: DType, strides: Strides) -> (out: StorageView)
        ensures
            out.shape == shape,
            out.dt == dt,
            out.strides == strides,
    {
        StorageView { shape, dt, strides }
    }

    /// The view of a contiguous tensor with the given shape and element type.
    pub fn contiguous(shape: Shape, dt: DType) -> (out: StorageView)
        requires
            shape.spec_fits(),
        ensures
            out@ == ViewModel::contiguous(shape@, dt),
    {
        let strides = Strides::from(&shape);
        StorageView { shape, dt, strides }
    }

    /// The shape of the tensor.
    pub fn shape(&self) -> (out: &Shape)
        ensures
            out@ == self@.shape,
    {
        &self.shape
    }

    /// The element type of the tensor.
    pub fn dt(&self) -> (out: DType)
        ensures
            out == self@.dt,
    {
        self.dt
    }

    /// The strides of the tensor.
    pub fn strides(&self) -> (out: &Strides)
        ensures
            out@ == self@.strides,
    {
        &self.strides
    }

    /// The number of elements.
    pub fn numel(&self) -> (n: usize)
        requires
            self@.valid(),
        ensures
            n == self@.numel(),
    {
        self.shape.numel()
    }

    /// The number of bytes that the elements fill.
    pub fn num_bytes(&self) -> (n: usize)
        requires
            self@.valid(),
        ensures
            n == self@.num_bytes(),
    {
        self.shape.numel() * self.dt.size_of()
    }

    /// Tests whether the view is valid: whether the products of its extents
    /// and its size in bytes fit a machine word, with one stride for each
    /// dimension.
    pub fn is_valid(&self) -> (b: bool)
        ensures
            b == self@.valid(),
    {
        if !self.shape.fits() || self.strides.len() != self.shape.len() {
            return false;
        }
        self.shape.numel().checked_mul(self.dt.size_of()).is_some()
    }

    /// Tests whether a kernel can be told of the view.
    pub fn is_kernel_ready(&self) -> (b: bool)
        ensures
            b == self@.kernel_ready(),
    {
        if !self.is_valid() || self.shape.len() > 4 {
            return false;
        }
        if self.shape.numel() > u32::MAX as usize {
            return false;
        }
        let n = self.shape.len();
        let mut i: usize = 0;
        while i < n
            invariant
                i <= n,
                n == self.shape@.len(),
                forall|k: int| 0 <= k < i ==> self.shape@[k] <= u32::MAX,
            decreases n - i,
        {
            if self.shape.get(i) > u32::MAX as usize {
                return false;
            }
            i += 1;
        }
        true
    }
}

} // verus!
