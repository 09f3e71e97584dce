//! Giving a tensor another shape with the same number of elements.

use vstd::prelude::*;
use vstd::string::StringExecFns;
use crate::error::OperationError;
use crate::layout::{inplace_layout, storage_layout, BindGroupLayoutDescriptor};
use crate::pipeline_pool::KernelElement;
use crate::shape::Shape;
use crate::tensor_id::TensorId;
use crate::uniform::MetaField;
use crate::view::{StorageView, ViewModel};
use crate::workgroup::{spec_dispatch, WorkgroupCount};

verus! {

/// The operation that gives the elements of a tensor, in their row-major
/// order, the shape `shape`.
#[derive(Debug)]
pub struct Reshape {
    pub input: TensorId,
    pub shape: Vec<usize>,
}

impl Clone for Reshape {
    fn clone(&self) -> (out: Self)
        ensures
            out.input == self.input,
            out.shape@ == self.shape@,
    {
        Reshape { input: self.input, shape: self.shape.clone() }
    }
}

impl Reshape {
    /// The view of the result for an operand with the view `input`: the
    /// contiguous tensor of the new shape, where that shape has as many
    /// elements as the operand and a kernel can be told of both.
    pub open spec fn spec_infer(&self, input: ViewModel) -> Result<ViewModel, OperationError> {
        let out = ViewModel::contiguous(self.shape@, input.dt);
        if input.kernel_ready() && out.kernel_ready() && out.numel() == input.numel() {
            Ok(out)
        } else {
            Err(OperationError::ShapeError)
        }
    }

    /// The members of the kernel's parameter record: the number of elements.
    pub open spec fn spec_meta(dst: ViewModel) -> Seq<MetaField> {
        seq![MetaField::Scalar(dst.numel() as u32)]
    }

    /// The key of the kernel: its name, the mark of the in-place variant
    /// where it is asked for, and the element width.
    pub open spec fn spec_kernel_key(inplace: bool, elem: KernelElement) -> Seq<char> {
        if inplace {
            "reshape"@ + "_inplace_"@ + elem.name()
        } else {
            "reshape"@ + "_"@ + elem.name()
        }
    }

    /// The operand.
    pub fn srcs(&self) -> (out: Vec<TensorId>)
        ensures
            out@ == seq![self.input],
    {
        let mut out: Vec<TensorId> = Vec::new();
        out.push(self.input);
        assert(out@ =~= seq![self.input]);
        out
    }

    /// The view of the result for an operand with the view `input`.
    pub fn infer_output(&self, input: &StorageView) -> (out: Result<StorageView, OperationError>)
        ensures
            match out {
                Ok(v) => self.spec_infer(input@) == Ok::<ViewModel, OperationError>(v@),
                Err(e) => self.spec_infer(input@) == Err::<ViewModel, OperationError>(e),
            },
    {
        if !input.is_kernel_ready() {
            return Err(OperationError::ShapeError);
        }
        let shape = Shape::new(self.shape.clone());
        if !shape.fits() {
            return Err(OperationError::ShapeError);
        }
        let view = StorageView::contiguous(shape, input.dt());
        if !view.is_kernel_ready() || view.numel() != input.numel() {
            return Err(OperationError::ShapeError);
        }
        Ok(view)
    }

    /// The name of the kernel.
    pub fn kernel_name(&self) -> (out: String)
        ensures
            out@ == "reshape"@,
    {
        String::from_str("reshape")
    }

    /// The elements keep their order: the result may stand where the
    /// operand stands.
    pub fn supports_inplace(&self) -> (b: bool)
        ensures
            b,
    {
        true
    }

    /// The element width of the kernel: the widest that divides the number
    /// of elements.
    pub fn kernel_element(&self, dst: &StorageView) -> (e: KernelElement)
        requires
            dst@.valid(),
        ensures
            e == KernelElement::spec_for_numel(dst@.numel()),
    {
        KernelElement::for_numel(dst.numel())
    }

    /// The key of the kernel.
    pub fn kernel_key(&self, inplace: bool, dst: &StorageView) -> (out: String)
        requires
            dst@.valid(),
        ensures
            out@ == Self::spec_kernel_key(inplace, KernelElement::spec_for_numel(dst@.numel())),
    {
        let mut key = self.kernel_name();
        if inplace {
            key.append("_inplace_");
        } else {
            key.append("_");
        }
        key.append(self.kernel_element(dst).as_str());
        key
    }

    /// The workgroup counts of the dispatch: enough for every element.
    pub fn calculate_dispatch(&self, dst: &StorageView) -> (out: Result<
        WorkgroupCount,
        OperationError,
    >)
        requires
            dst@.valid(),
        ensures
            match out {
                Ok(count) => count.as_triple() == spec_dispatch(dst@.numel()),
                Err(e) => e == OperationError::DispatchTooLarge && spec_dispatch(dst@.numel()).1
                    > WorkgroupCount::MAX_WGS_PER_DIM,
            },
    {
        match WorkgroupCount::for_numel(dst.numel()) {
            Some(count) => Ok(count),
            None => Err(OperationError::DispatchTooLarge),
        }
    }

    /// The layout of the storage bindings: the operand and the result, or,
    /// in place, the one buffer that is both.
    pub fn storage_bind_group_layout(&self, inplace: bool) -> (out: Result<
        BindGroupLayoutDescriptor,
        OperationError,
    >)
        ensures
            out is Ok,
            out->Ok_0@ == if inplace {
                inplace_layout(0)
            } else {
                storage_layout(1)
            },
    {
        if inplace {
            Ok(BindGroupLayoutDescriptor::unary_inplace())
        } else {
            Ok(BindGroupLayoutDescriptor::unary())
        }
    }

    /// The members of the kernel's parameter record.
    pub fn metadata(dst: &StorageView) -> (out: Vec<MetaField>)
        requires
            dst@.kernel_ready(),
        ensures
            out@ == Self::spec_meta(dst@),
    {
        let mut out: Vec<MetaField> = Vec::new();
        out.push(MetaField::Scalar(dst.numel() as u32));
        assert(out@ =~= Self::spec_meta(dst@));
        out
    }
}

} // verus!
