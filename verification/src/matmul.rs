//! Matrix multiplication, batched over the leading dimensions.

use vstd::prelude::*;
use vstd::string::StringExecFns;
use crate::binary::{broadcast, broadcast_shape};
use crate::error::OperationError;
use crate::layout::{storage_layout, BindGroupLayoutDescriptor};
use crate::meta::{lanes, spec_lanes, spec_stride_lanes, stride_lanes};
use crate::pipeline_pool::KernelElement;
use crate::shape::Shape;
use crate::tensor_id::TensorId;
use crate::uniform::MetaField;
use crate::view::{StorageView, ViewModel};
use crate::workgroup::{spec_dispatch, WorkgroupCount};

verus! {

/// The shape of the product of matrices of the shapes `a` and `b`: the last
/// two extents are those of the matrices, `[m, k]` and `[k, n]`, and give
/// `[m, n]`; the extents before them are batches and broadcast.
pub open spec fn matmul_shape(a: Seq<usize>, b: Seq<usize>) -> Option<Seq<usize>> {
    if a.len() < 2 || b.len() < 2 {
        None
    } else if a[a.len() - 1] != b[b.len() - 2] {
        None
    } else {
        match broadcast_shape(a.take(a.len() - 2), b.take(b.len() - 2)) {
            None => None,
            Some(batch) => Some(batch.push(a[a.len() - 2]).push(b[b.len() - 1])),
        }
    }
}

/// A matrix multiplication.
#[derive(Clone, Copy, Debug)]
pub struct Matmul {
    pub lhs: TensorId,
    pub rhs: TensorId,
}

impl Matmul {
    /// The product of the tensors `lhs` and `rhs`.
    pub fn new(lhs: TensorId, rhs: TensorId) -> (out: Matmul)
        ensures
            out.lhs == lhs,
            out.rhs == rhs,
    {
        Matmul { lhs, rhs }
    }

    /// The view of the product for operands with the views `lhs` and `rhs`,
    /// or the reason why there is none. The result is contiguous.
    pub open spec fn spec_infer(lhs: ViewModel, rhs: ViewModel) -> Result<ViewModel, OperationError> {
        if !lhs.kernel_ready() || !rhs.kernel_ready() {
            Err(OperationError::ShapeError)
        } else {
            match matmul_shape(lhs.shape, rhs.shape) {
                None => Err(OperationError::ShapeError),
                Some(shape) => {
                    let out = ViewModel::contiguous(shape, lhs.dt);
                    if !out.kernel_ready() {
                        Err(OperationError::ShapeError)
                    } else if lhs.dt != rhs.dt {
                        Err(OperationError::DtypeError)
                    } else {
                        Ok(out)
                    }
                },
            }
        }
    }

    /// The members of the kernel's parameter record: the shapes of the
    /// operands and of the product and the strides of the product, each
    /// padded to rank 4, and the extent that is summed over.
    pub open spec fn spec_meta(lhs: ViewModel, rhs: ViewModel, dst: ViewModel) -> Seq<MetaField> {
        seq![
            spec_lanes(lhs.shape, 1),
            spec_lanes(rhs.shape, 1),
            spec_lanes(dst.shape, 1),
            spec_stride_lanes(dst.shape),
            MetaField::Scalar(lhs.shape[lhs.shape.len() - 1] as u32),
        ]
    }

    /// The key of the kernel: its name and the element width.
    pub open spec fn spec_kernel_key(elem: KernelElement) -> Seq<char> {
        "matmul"@ + "_"@ + elem.name()
    }

    /// The operands, in the order in which they are bound.
    pub fn srcs(&self) -> (out: Vec<TensorId>)
        ensures
            out@ == seq![self.lhs, self.rhs],
    {
        let mut out: Vec<TensorId> = Vec::new();
        out.push(self.lhs);
        out.push(self.rhs);
        assert(out@ =~= seq![self.lhs, self.rhs]);
        out
    }

    /// The shape of the product of matrices of the shapes `a` and `b`.
    pub fn output_shape(a: &Shape, b: &Shape) -> (out: Option<Shape>)
        ensures
            match out {
                Some(s) => matmul_shape(a@, b@) == Some(s@),
                None => matmul_shape(a@, b@) is None,
            },
    {
        let ra = a.len();
        let rb = b.len();
        if ra < 2 || rb < 2 {
            return None;
        }
        if a.get(ra - 1) != b.get(rb - 2) {
            return None;
        }
        match broadcast(&a.take(ra - 2), &b.take(rb - 2)) {
            None => None,
            Some(batch) => {
                let mut dims = batch.to_vec();
                dims.push(a.get(ra - 2));
                dims.push(b.get(rb - 1));
                Some(Shape::new(dims))
            },
        }
    }

    /// The view of the product for operands with the views `lhs` and `rhs`.
    pub fn infer_output(lhs: &StorageView, rhs: &StorageView) -> (out: Result<
        StorageView,
        OperationError,
    >)
        ensures
            match out {
                Ok(v) => Self::spec_infer(lhs@, rhs@) == Ok::<ViewModel, OperationError>(v@),
                Err(e) => Self::spec_infer(lhs@, rhs@) == Err::<ViewModel, OperationError>(e),
            },
    {
        if !lhs.is_kernel_ready() || !rhs.is_kernel_ready() {
            return Err(OperationError::ShapeError);
        }
        match Self::output_shape(lhs.shape(), rhs.shape()) {
            None => Err(OperationError::ShapeError),
            Some(shape) => {
                if !shape.fits() {
                    return Err(OperationError::ShapeError);
                }
                let view = StorageView::contiguous(shape, lhs.dt());
                if !view.is_kernel_ready() {
                    Err(OperationError::ShapeError)
                } else if lhs.dt() != rhs.dt() {
                    Err(OperationError::DtypeError)
                } else {
                    Ok(view)
                }
            },
        }
    }

    /// Checks that the operands with the views `lhs` and `rhs` can be
    /// multiplied.
    pub fn check_invariants(lhs: &StorageView, rhs: &StorageView) -> (out: Result<
        (),
        OperationError,
    >)
        ensures
            match out {
                Ok(_) => Self::spec_infer(lhs@, rhs@) is Ok,
                Err(e) => Self::spec_infer(lhs@, rhs@) == Err::<ViewModel, OperationError>(e),
            },
    {
        match Self::infer_output(lhs, rhs) {
            Ok(_) => Ok(()),
            Err(e) => Err(e),
        }
    }

    /// The name of the kernel.
    pub fn kernel_name(&self) -> (out: String)
        ensures
            out@ == "matmul"@,
    {
        String::from_str("matmul")
    }

    /// A product is never written over one of its operands.
    pub fn supports_inplace(&self) -> (b: bool)
        ensures
            !b,
    {
        false
    }

    /// The element width of the kernel: the widest that divides the number
    /// of elements of the product.
    pub fn kernel_element(&self, dst: &StorageView) -> (e: KernelElement)
        requires
            dst@.valid(),
        ensures
            e == KernelElement::spec_for_numel(dst@.numel()),
    {
        KernelElement::for_numel(dst.numel())
    }

    /// The key of the kernel.
    pub fn kernel_key(&self, inplace: bool, dst: &StorageView) -> (out: String)
        requires
            dst@.valid(),
        ensures
            out@ == Self::spec_kernel_key(KernelElement::spec_for_numel(dst@.numel())),
    {
        let mut key = self.kernel_name();
        key.append("_");
        key.append(self.kernel_element(dst).as_str());
        key
    }

    /// The workgroup counts of the dispatch: enough for every element of the
    /// product.
    pub fn calculate_dispatch(&self, dst: &StorageView) -> (out: Result<
        WorkgroupCount,
        OperationError,
    >)
        requires
            dst@.valid(),
        ensures
            match out {
                Ok(count) => count.as_triple() == spec_dispatch(dst@.numel()),
                Err(e) => e == OperationError::DispatchTooLarge && spec_dispatch(dst@.numel()).1
                    > WorkgroupCount::MAX_WGS_PER_DIM,
            },
    {
        match WorkgroupCount::for_numel(dst.numel()) {
            Some(count) => Ok(count),
            None => Err(OperationError::DispatchTooLarge),
        }
    }

    /// The layout of the storage bindings: both operands and the product.
    /// There is no in-place variant to ask for.
    pub fn storage_bind_group_layout(&self, inplace: bool) -> (out: Result<
        BindGroupLayoutDescriptor,
        OperationError,
    >)
        requires
            !inplace,
        ensures
            out is Ok,
            out->Ok_0@ == storage_layout(2),
    {
        Ok(BindGroupLayoutDescriptor::binary())
    }

    /// The members of the kernel's parameter record.
    pub fn metadata(lhs: &StorageView, rhs: &StorageView, dst: &StorageView) -> (out: Vec<MetaField>)
        requires
            lhs@.kernel_ready(),
            rhs@.kernel_ready(),
            dst@.kernel_ready(),
            dst@.numel() > 0,
            lhs@.shape.len() >= 1,
        ensures
            out@ == Self::spec_meta(lhs@, rhs@, dst@),
    {
        let mut out: Vec<MetaField> = Vec::new();
        out.push(lanes(lhs.shape().as_slice(), 1));
        out.push(lanes(rhs.shape().as_slice(), 1));
        out.push(lanes(dst.shape().as_slice(), 1));
        out.push(stride_lanes(dst.shape()));
        out.push(MetaField::Scalar(lhs.shape().get(lhs.shape().len() - 1) as u32));
        assert(out@ =~= Self::spec_meta(lhs@, rhs@, dst@));
        out
    }
}

} // verus!
