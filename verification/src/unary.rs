//! Element-wise operations on one tensor.

use vstd::prelude::*;
use vstd::string::StringExecFns;
use crate::error::OperationError;
use crate::layout::{inplace_layout, storage_layout, BindGroupLayoutDescriptor};
use crate::meta::{lanes, spec_lanes};
use crate::pipeline_pool::KernelElement;
use crate::tensor_id::TensorId;
use crate::uniform::MetaField;
use crate::view::{StorageView, ViewModel};
use crate::workgroup::{spec_dispatch, WorkgroupCount};

verus! {

/// Which element-wise operation a `Unary` stands for.
#[derive(Clone, Copy, Debug, PartialEq, Eq, Structural, Hash)]
pub enum UnaryOp {
    /// The GELU activation of every element.
    Gelu,
    /// The softmax along the dimension that is named.
    Softmax(usize),
}

impl UnaryOp {
    /// The name of the operation's kernel.
    pub open spec fn name(self) -> Seq<char> {
        match self {
            UnaryOp::Gelu => "gelu"@,
            UnaryOp::Softmax(_) => "softmax"@,
        }
    }

    /// The name of the operation's kernel.
    pub fn kernel_name(&self) -> (s: &'static str)
        ensures
            s@ == self.name(),
    {
        match self {
            UnaryOp::Gelu => "gelu",
            UnaryOp::Softmax(_) => "softmax",
        }
    }
}

/// An element-wise operation on one tensor.
#[derive(Clone, Copy, Debug)]
pub struct Unary {
    pub input: TensorId,
    pub op: UnaryOp,
}

impl Unary {
    /// The operation `op` on the tensor `input`.
    pub fn new(input: TensorId, op: UnaryOp) -> (out: Unary)
        ensures
            out.input == input,
            out.op == op,
    {
        Unary { input, op }
    }

    /// Whether the operation can be applied to a tensor of the shape
    /// `shape`: a softmax must name one of its dimensions.
    pub open spec fn fits(self, shape: Seq<usize>) -> bool {
        match self.op {
            UnaryOp::Gelu => true,
            UnaryOp::Softmax(dim) => dim < shape.len(),
        }
    }

    /// The view of the result for an operand with the view `input`: a
    /// contiguous tensor of the same shape and element type.
    pub open spec fn spec_infer(self, input: ViewModel) -> Result<ViewModel, OperationError> {
        if !input.kernel_ready() || !self.fits(input.shape) {
            Err(OperationError::ShapeError)
        } else {
            Ok(ViewModel::contiguous(input.shape, input.dt))
        }
    }

    /// The members of the kernel's parameter record: the number of elements,
    /// and, for a softmax, before it the shape padded to rank 4 and behind it
    /// the dimension as it is counted at rank 4.
    pub open spec fn spec_meta(self, dst: ViewModel) -> Seq<MetaField> {
        match self.op {
            UnaryOp::Gelu => seq![MetaField::Scalar(dst.numel() as u32)],
            UnaryOp::Softmax(dim) => seq![
                spec_lanes(dst.shape, 1),
                MetaField::Scalar(dst.numel() as u32),
                MetaField::Scalar((dim + 4 - dst.shape.len()) as u32),
            ],
        }
    }

    /// The key of the kernel: the operation's name, the mark of the in-place
    /// variant where it is asked for, and the element width.
    pub open spec fn spec_kernel_key(self, inplace: bool, elem: KernelElement) -> Seq<char> {
        if inplace {
            self.op.name() + "_inplace_"@ + elem.name()
        } else {
            self.op.name() + "_"@ + elem.name()
        }
    }

    /// The operand.
    pub fn srcs(&self) -> (out: Vec<TensorId>)
        ensures
            out@ == seq![self.input],
    {
        let mut out: Vec<TensorId> = Vec::new();
        out.push(self.input);
        assert(out@ =~= seq![self.input]);
        out
    }

    /// Checks that the operation can be applied to an operand with the view
    /// `input`.
    pub fn check_invariants(&self, input: &StorageView) -> (out: Result<(), OperationError>)
        ensures
            match out {
                Ok(_) => self.spec_infer(input@) is Ok,
                Err(e) => self.spec_infer(input@) == Err::<ViewModel, OperationError>(e),
            },
    {
        if !input.is_kernel_ready() {
            return Err(OperationError::ShapeError);
        }
        match self.op {
            UnaryOp::Gelu => Ok(()),
            UnaryOp::Softmax(dim) => if dim < input.shape().len() {
                Ok(())
            } else {
                Err(OperationError::ShapeError)
            },
        }
    }

    /// The view of the result for an operand with the view `input`.
    pub fn infer_output(&self, input: &StorageView) -> (out: Result<StorageView, OperationError>)
        ensures
            match out {
                Ok(v) => self.spec_infer(input@) == Ok::<ViewModel, OperationError>(v@),
                Err(e) => self.spec_infer(input@) == Err::<ViewModel, OperationError>(e),
            },
    {
        match self.check_invariants(input) {
            Ok(_) => Ok(StorageView::contiguous(input.shape().clone(), input.dt())),
            Err(e) => Err(e),
        }
    }

    /// The name of the kernel.
    pub fn kernel_name(&self) -> (out: String)
        ensures
            out@ == self.op.name(),
    {
        String::from_str(self.op.kernel_name())
    }

    /// An element-wise operation may write its result over its operand.
    pub fn supports_inplace(&self) -> (b: bool)
        ensures
            b,
    {
        true
    }

    /// The element width of the kernel: the widest that divides the number
    /// of elements of the result.
    pub fn kernel_element(&self, dst: &StorageView) -> (e: KernelElement)
        requires
            dst@.valid(),
        ensures
            e == KernelElement::spec_for_numel(dst@.numel()),
    {
        KernelElement::for_numel(dst.numel())
    }

    /// The key of the kernel.
    pub fn kernel_key(&self, inplace: bool, dst: &StorageView) -> (out: String)
        requires
            dst@.valid(),
        ensures
            out@ == self.spec_kernel_key(inplace, KernelElement::spec_for_numel(dst@.numel())),
    {
        let mut key = self.kernel_name();
        if inplace {
            key.append("_inplace_");
        } else {
            key.append("_");
        }
        key.append(self.kernel_element(dst).as_str());
        key
    }

    /// The workgroup counts of the dispatch: enough for every element of the
    /// result.
    pub fn calculate_dispatch(&self, dst: &StorageView) -> (out: Result<
        WorkgroupCount,
        OperationError,
    >)
        requires
            dst@.valid(),
        ensures
            match out {
                Ok(count) => count.as_triple() == spec_dispatch(dst@.numel()),
                Err(e) => e == OperationError::DispatchTooLarge && spec_dispatch(dst@.numel()).1
                    > WorkgroupCount::MAX_WGS_PER_DIM,
            },
    {
        match WorkgroupCount::for_numel(dst.numel()) {
            Some(count) => Ok(count),
            None => Err(OperationError::DispatchTooLarge),
        }
    }

    /// The layout of the storage bindings: the operand and the result, or,
    /// in place, the one buffer that is both.
    pub fn storage_bind_group_layout(&self, inplace: bool) -> (out: Result<
        BindGroupLayoutDescriptor,
        OperationError,
    >)
        ensures
            out is Ok,
            out->Ok_0@ == if inplace {
                inplace_layout(0)
            } else {
                storage_layout(1)
            },
    {
        if inplace {
            Ok(BindGroupLayoutDescriptor::unary_inplace())
        } else {
            Ok(BindGroupLayoutDescriptor::unary())
        }
    }

    /// The members of the kernel's parameter record.
    pub fn metadata(&self, dst: &StorageView) -> (out: Vec<MetaField>)
        requires
            dst@.kernel_ready(),
            self.fits(dst@.shape),
        ensures
            out@ == self.spec_meta(dst@),
    {
        let mut out: Vec<MetaField> = Vec::new();
        match self.op {
            UnaryOp::Gelu => {
                out.push(MetaField::Scalar(dst.numel() as u32));
            },
            UnaryOp::Softmax(dim) => {
                out.push(lanes(dst.shape().as_slice(), 1));
                out.push(MetaField::Scalar(dst.numel() as u32));
                out.push(MetaField::Scalar((dim + 4 - dst.shape().len()) as u32));
            },
        }
        assert(out@ =~= self.spec_meta(dst@));
        out
    }
}

} // verus!
