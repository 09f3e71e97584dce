//! Normalisation of the rows of a tensor.

use vstd::prelude::*;
use vstd::string::StringExecFns;
use crate::error::OperationError;
use crate::layout::{storage_layout, BindGroupLayoutDescriptor};
use crate::meta::{lanes, spec_lanes};
use crate::pipeline_pool::KernelElement;
use crate::tensor_id::TensorId;
use crate::uniform::MetaField;
use crate::view::{StorageView, ViewModel};
use crate::workgroup::{spec_dispatch, WorkgroupCount};

verus! {

/// The operation that normalises every row of the tensor `input`, its last
/// dimension, to zero mean and unit variance, scales it by `weight` and adds
/// `bias`. The small number that is added to the variance is given by the
/// bits of its 32-bit floating-point form.
#[derive(Clone, Copy, Debug)]
pub struct LayerNorm {
    pub input: TensorId,
    pub weight: TensorId,
    pub bias: Option<TensorId>,
    pub eps_bits: u32,
}

impl LayerNorm {
    /// The operands, in the order in which they are bound.
    pub open spec fn spec_srcs(self) -> Seq<TensorId> {
        match self.bias {
            Some(b) => seq![self.input, self.weight, b],
            None => seq![self.input, self.weight],
        }
    }

    /// The view of the result for operands with the views `srcs`: a
    /// contiguous tensor of the shape of the input, where weight and bias
    /// have one value for every element of a row.
    pub open spec fn spec_infer(self, srcs: Seq<ViewModel>) -> Result<ViewModel, OperationError> {
        let input = srcs[0];
        let weight = srcs[1];
        if !input.kernel_ready() || !weight.kernel_ready() || input.shape.len() < 1 || weight.shape
            != seq![input.shape.last()] {
            Err(OperationError::ShapeError)
        } else if self.bias is Some && !(srcs[2].kernel_ready() && srcs[2].shape == seq![
            input.shape.last(),
        ]) {
            Err(OperationError::ShapeError)
        } else if input.dt != weight.dt || (self.bias is Some && srcs[2].dt != input.dt) {
            Err(OperationError::DtypeError)
        } else {
            Ok(ViewModel::contiguous(input.shape, input.dt))
        }
    }

    /// The members of the kernel's parameter record: the shape of the input
    /// padded to rank 4, the number of elements, the length of a row, the
    /// bits of the small number, and whether there is a bias.
    pub open spec fn spec_meta(self, dst: ViewModel) -> Seq<MetaField> {
        seq![
            spec_lanes(dst.shape, 1),
            MetaField::Scalar(dst.numel() as u32),
            MetaField::Scalar(dst.shape.last() as u32),
            MetaField::Scalar(self.eps_bits),
            MetaField::Scalar(if self.bias is Some {
                1u32
            } else {
                0u32
            }),
        ]
    }

    /// The name of the kernel.
    pub open spec fn spec_name(self) -> Seq<char> {
        if self.bias is Some {
            "layer_norm_bias"@
        } else {
            "layer_norm"@
        }
    }

    /// The key of the kernel: its name and the element width.
    pub open spec fn spec_kernel_key(self, elem: KernelElement) -> Seq<char> {
        self.spec_name() + "_"@ + elem.name()
    }

    /// The operands, in the order in which they are bound.
    pub fn srcs(&self) -> (out: Vec<TensorId>)
        ensures
            out@ == self.spec_srcs(),
    {
        let mut out: Vec<TensorId> = Vec::new();
        out.push(self.input);
        out.push(self.weight);
        match self.bias {
            Some(b) => {
                out.push(b);
                assert(out@ =~= seq![self.input, self.weight, b]);
            },
            None => {
                assert(out@ =~= seq![self.input, self.weight]);
            },
        }
        out
    }

    /// The view of the result for operands with the views `input` and
    /// `weight` and a bias with the view `bias`.
    pub fn infer_output(
        &self,
        input: &StorageView,
        weight: &StorageView,
        bias: Option<&StorageView>,
    ) -> (out: Result<StorageView, OperationError>)
        requires
            bias is Some == self.bias is Some,
        ensures
            match out {
                Ok(v) => self.spec_infer(
                    match bias {
                        Some(b) => seq![input@, weight@, b@],
                        None => seq![input@, weight@],
                    },
                ) == Ok::<ViewModel, OperationError>(v@),
                Err(e) => self.spec_infer(
                    match bias {
                        Some(b) => seq![input@, weight@, b@],
                        None => seq![input@, weight@],
                    },
                ) == Err::<ViewModel, OperationError>(e),
            },
    {
        if !input.is_kernel_ready() || !weight.is_kernel_ready() || input.shape().len() < 1 {
            return Err(OperationError::ShapeError);
        }
        let row = input.shape().get(input.shape().len() - 1);
        if weight.shape().len() != 1 || weight.shape().get(0) != row {
            assert(!(weight@.shape =~= seq![input@.shape.last()]));
            return Err(OperationError::ShapeError);
        }
        assert(weight@.shape =~= seq![input@.shape.last()]);
        match bias {
            Some(bias) => {
                if !bias.is_kernel_ready() {
                    return Err(OperationError::ShapeError);
                }
                if bias.shape().len() != 1 || bias.shape().get(0) != row {
                    assert(!(bias@.shape =~= seq![input@.shape.last()]));
                    return Err(OperationError::ShapeError);
                }
                assert(bias@.shape =~= seq![input@.shape.last()]);
                if input.dt() != weight.dt() || bias.dt() != input.dt() {
                    return Err(OperationError::DtypeError);
                }
            },
            None => {
                if input.dt() != weight.dt() {
                    return Err(OperationError::DtypeError);
                }
            },
        }
        Ok(StorageView::contiguous(input.shape().clone(), input.dt()))
    }

    /// The name of the kernel.
    pub fn kernel_name(&self) -> (out: String)
        ensures
            out@ == self.spec_name(),
    {
        if self.bias.is_some() {
            String::from_str("layer_norm_bias")
        } else {
            String::from_str("layer_norm")
        }
    }

    /// The result is never written over one of the operands.
    pub fn supports_inplace(&self) -> (b: bool)
        ensures
            !b,
    {
        false
    }

    /// The element width of the kernel: the widest that divides the number
    /// of elements of the result.
    pub fn kernel_element(&self, dst: &StorageView) -> (e: KernelElement)
        requires
            dst@.valid(),
        ensures
            e == KernelElement::spec_for_numel(dst@.numel()),
    {
        KernelElement::for_numel(dst.numel())
    }

    /// The key of the kernel.
    pub fn kernel_key(&self, inplace: bool, dst: &StorageView) -> (out: String)
        requires
            dst@.valid(),
        ensures
            out@ == self.spec_kernel_key(KernelElement::spec_for_numel(dst@.numel())),
    {
        let mut key = self.kernel_name();
        key.append("_");
        key.append(self.kernel_element(dst).as_str());
        key
    }

    /// The workgroup counts of the dispatch: enough for every element of the
    /// result.
    pub fn calculate_dispatch(&self, dst: &StorageView) -> (out: Result<
        WorkgroupCount,
        OperationError,
    >)
        requires
            dst@.valid(),
        ensures
            match out {
                Ok(count) => count.as_triple() == spec_dispatch(dst@.numel()),
                Err(e) => e == OperationError::DispatchTooLarge && spec_dispatch(dst@.numel()).1
                    > WorkgroupCount::MAX_WGS_PER_DIM,
            },
    {
        match WorkgroupCount::for_numel(dst.numel()) {
            Some(count) => Ok(count),
            None => Err(OperationError::DispatchTooLarge),
        }
    }

    /// The layout of the storage bindings: the operands and the result.
    /// There is no in-place variant to ask for.
    pub fn storage_bind_group_layout(&self, inplace: bool) -> (out: Result<
        BindGroupLayoutDescriptor,
        OperationError,
    >)
        requires
            !inplace,
        ensures
            out is Ok,
            out->Ok_0@ == storage_layout(self.spec_srcs().len()),
    {
        if self.bias.is_some() {
            Ok(BindGroupLayoutDescriptor::ternary())
        } else {
            Ok(BindGroupLayoutDescriptor::binary())
        }
    }

    /// The members of the kernel's parameter record.
    pub fn metadata(&self, dst: &StorageView) -> (out: Vec<MetaField>)
        requires
            dst@.kernel_ready(),
            dst@.shape.len() >= 1,
        ensures
            out@ == self.spec_meta(dst@),
    {
        let mut out: Vec<MetaField> = Vec::new();
        out.push(lanes(dst.shape().as_slice(), 1));
        out.push(MetaField::Scalar(dst.numel() as u32));
        out.push(MetaField::Scalar(dst.shape().get(dst.shape().len() - 1) as u32));
        out.push(MetaField::Scalar(self.eps_bits));
        out.push(
            MetaField::Scalar(
                if self.bias.is_some() {
                    1
                } else {
                    0
                },
            ),
        );
        assert(out@ =~= self.spec_meta(dst@));
        out
    }
}

} // verus!
