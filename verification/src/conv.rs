//! Convolution along one dimension.

use vstd::prelude::*;
use vstd::string::StringExecFns;
use crate::error::OperationError;
use crate::layout::{storage_layout, BindGroupLayoutDescriptor};
use crate::meta::{lanes, spec_lanes, spec_stride_lanes, stride_lanes};
use crate::pipeline_pool::KernelElement;
use crate::shape::Shape;
use crate::tensor_id::TensorId;
use crate::uniform::MetaField;
use crate::view::{StorageView, ViewModel};
use crate::workgroup::{spec_dispatch, WorkgroupCount};

verus! {

/// The number of places at which a kernel of `kernel` taps fits a signal of
/// `len` samples that is padded with `padding` samples on either side, when
/// it moves on by `stride` samples from place to place; `None` where the
/// stride is zero or the kernel is longer than the padded signal.
pub open spec fn conv_len(len: nat, kernel: nat, stride: nat, padding: nat) -> Option<nat> {
    if stride == 0 || len + 2 * padding < kernel {
        None
    } else {
        Some(((len + 2 * padding - kernel) / (stride as int) + 1) as nat)
    }
}

/// A convolution of the tensor `input`, of the shape `[batch, channels in,
/// samples]`, with the tensor `weight`, of the shape `[channels out,
/// channels in, taps]`, and a bias of one value for each channel out.
#[derive(Clone, Copy, Debug)]
pub struct Conv1D {
    pub input: TensorId,
    pub weight: TensorId,
    pub bias: Option<TensorId>,
    pub stride: usize,
    pub padding: usize,
}

impl Conv1D {
    /// The operands, in the order in which they are bound.
    pub open spec fn spec_srcs(self) -> Seq<TensorId> {
        match self.bias {
            Some(b) => seq![self.input, self.weight, b],
            None => seq![self.input, self.weight],
        }
    }

    /// The shape of the result for an input of the shape `input` and a
    /// weight of the shape `weight`: `[batch, channels out, places]`.
    pub open spec fn spec_shape(self, input: Seq<usize>, weight: Seq<usize>) -> Option<Seq<usize>> {
        if input.len() != 3 || weight.len() != 3 || input[1] != weight[1] || self.stride > u32::MAX
            || self.padding > u32::MAX {
            None
        } else {
            match conv_len(input[2] as nat, weight[2] as nat, self.stride as nat, self.padding as nat) {
                None => None,
                Some(places) => if places > usize::MAX {
                    None
                } else {
                    Some(seq![input[0], weight[0], places as usize])
                },
            }
        }
    }

    /// The view of the result for operands with the views `srcs`, or the
    /// reason why there is none.
    pub open spec fn spec_infer(self, srcs: Seq<ViewModel>) -> Result<ViewModel, OperationError> {
        let input = srcs[0];
        let weight = srcs[1];
        if !input.kernel_ready() || !weight.kernel_ready() {
            Err(OperationError::ShapeError)
        } else {
            match self.spec_shape(input.shape, weight.shape) {
                None => Err(OperationError::ShapeError),
                Some(shape) => {
                    let out = ViewModel::contiguous(shape, input.dt);
                    if !out.kernel_ready() {
                        Err(OperationError::ShapeError)
                    } else if self.bias is Some && !(srcs[2].kernel_ready() && srcs[2].shape
                        == seq![weight.shape[0]]) {
                        Err(OperationError::ShapeError)
                    } else if input.dt != weight.dt || (self.bias is Some && srcs[2].dt
                        != input.dt) {
                        Err(OperationError::DtypeError)
                    } else {
                        Ok(out)
                    }
                },
            }
        }
    }

    /// The members of the kernel's parameter record: the shapes of the
    /// input, of the weight and of the result and the strides of the result,
    /// each padded to rank 4, the stride, the padding, and whether there is a
    /// bias.
    pub open spec fn spec_meta(self, input: ViewModel, weight: ViewModel, dst: ViewModel) -> Seq<
        MetaField,
    > {
        seq![
            spec_lanes(input.shape, 1),
            spec_lanes(weight.shape, 1),
            spec_lanes(dst.shape, 1),
            spec_stride_lanes(dst.shape),
            MetaField::Scalar(self.stride as u32),
            MetaField::Scalar(self.padding as u32),
            MetaField::Scalar(if self.bias is Some {
                1u32
            } else {
                0u32
            }),
        ]
    }

    /// The name of the kernel.
    pub open spec fn spec_name(self) -> Seq<char> {
        if self.bias is Some {
            "conv1d_bias"@
        } else {
            "conv1d"@
        }
    }

    /// The key of the kernel: its name and the element width.
    pub open spec fn spec_kernel_key(self, elem: KernelElement) -> Seq<char> {
        self.spec_name() + "_"@ + elem.name()
    }

    /// The operands, in the order in which they are bound.
    pub fn srcs(&self) -> (out: Vec<TensorId>)
        ensures
            out@ == self.spec_srcs(),
    {
        let mut out: Vec<TensorId> = Vec::new();
        out.push(self.input);
        out.push(self.weight);
        match self.bias {
            Some(b) => {
                out.push(b);
                assert(out@ =~= seq![self.input, self.weight, b]);
            },
            None => {
                assert(out@ =~= seq![self.input, self.weight]);
            },
        }
        out
    }

    /// The shape of the result for an input of the shape `input` and a
    /// weight of the shape `weight`.
    pub fn output_shape(&self, input: &Shape, weight: &Shape) -> (out: Option<Shape>)
        requires
            forall|i: int| 0 <= i < input@.len() ==> input@[i] <= u32::MAX,
            forall|i: int| 0 <= i < weight@.len() ==> weight@[i] <= u32::MAX,
        ensures
            match out {
                Some(s) => self.spec_shape(input@, weight@) == Some(s@),
                None => self.spec_shape(input@, weight@) is None,
            },
    {
        if input.len() != 3 || weight.len() != 3 || input.get(1) != weight.get(1) {
            return None;
        }
        if self.stride > u32::MAX as usize || self.padding > u32::MAX as usize {
            return None;
        }
        if self.stride == 0 {
            return None;
        }
        let len = input.get(2) as u64;
        let taps = weight.get(2) as u64;
        let padded = len + 2 * (self.padding as u64);
        if padded < taps {
            return None;
        }
        let places = (padded - taps) / (self.stride as u64) + 1;
        if places > usize::MAX as u64 {
            return None;
        }
        let mut dims: Vec<usize> = Vec::new();
        dims.push(input.get(0));
        dims.push(weight.get(0));
        dims.push(places as usize);
        assert(dims@ =~= seq![input@[0], weight@[0], places as usize]);
        Some(Shape::new(dims))
    }

    /// The view of the result for operands with the views `input` and
    /// `weight` and a bias with the view `bias`.
    pub fn infer_output(
        &self,
        input: &StorageView,
        weight: &StorageView,
        bias: Option<&StorageView>,
    ) -> (out: Result<StorageView, OperationError>)
        requires
            bias is Some == self.bias is Some,
        ensures
            match out {
                Ok(v) => self.spec_infer(
                    match bias {
                        Some(b) => seq![input@, weight@, b@],
                        None => seq![input@, weight@],
                    },
                ) == Ok::<ViewModel, OperationError>(v@),
                Err(e) => self.spec_infer(
                    match bias {
                        Some(b) => seq![input@, weight@, b@],
                        None => seq![input@, weight@],
                    },
                ) == Err::<ViewModel, OperationError>(e),
            },
    {
        if !input.is_kernel_ready() || !weight.is_kernel_ready() {
            return Err(OperationError::ShapeError);
        }
        let shape = match self.output_shape(input.shape(), weight.shape()) {
            None => {
                return Err(OperationError::ShapeError);
            },
            Some(shape) => shape,
        };
        if !shape.fits() {
            return Err(OperationError::ShapeError);
        }
        let view = StorageView::contiguous(shape, input.dt());
        if !view.is_kernel_ready() {
            return Err(OperationError::ShapeError);
        }
        match bias {
            Some(bias) => {
                if !bias.is_kernel_ready() {
                    return Err(OperationError::ShapeError);
                }
                if bias.shape().len() != 1 || bias.shape().get(0) != weight.shape().get(0) {
                    assert(!(bias@.shape =~= seq![weight@.shape[0]]));
                    return Err(OperationError::ShapeError);
                }
                assert(bias@.shape =~= seq![weight@.shape[0]]);
                if input.dt() != weight.dt() || bias.dt() != input.dt() {
                    return Err(OperationError::DtypeError);
                }
            },
            None => {
                if input.dt() != weight.dt() {
                    return Err(OperationError::DtypeError);
                }
            },
        }
        Ok(view)
    }

    /// The name of the kernel.
    pub fn kernel_name(&self) -> (out: String)
        ensures
            out@ == self.spec_name(),
    {
        if self.bias.is_some() {
            String::from_str("conv1d_bias")
        } else {
            String::from_str("conv1d")
        }
    }

    /// A convolution is never written over one of its operands.
    pub fn supports_inplace(&self) -> (b: bool)
        ensures
            !b,
    {
        false
    }

    /// The element width of the kernel: the widest that divides the number
    /// of elements of the result.
    pub fn kernel_element(&self, dst: &StorageView) -> (e: KernelElement)
        requires
            dst@.valid(),
        ensures
            e == KernelElement::spec_for_numel(dst@.numel()),
    {
        KernelElement::for_numel(dst.numel())
    }

    /// The key of the kernel.
    pub fn kernel_key(&self, inplace: bool, dst: &StorageView) -> (out: String)
        requires
            dst@.valid(),
        ensures
            out@ == self.spec_kernel_key(KernelElement::spec_for_numel(dst@.numel())),
    {
        let mut key = self.kernel_name();
        key.append("_");
        key.append(self.kernel_element(dst).as_str());
        key
    }

    /// The workgroup counts of the dispatch: enough for every element of the
    /// result.
    pub fn calculate_dispatch(&self, dst: &StorageView) -> (out: Result<
        WorkgroupCount,
        OperationError,
    >)
        requires
            dst@.valid(),
        ensures
            match out {
                Ok(count) => count.as_triple() == spec_dispatch(dst@.numel()),
                Err(e) => e == OperationError::DispatchTooLarge && spec_dispatch(dst@.numel()).1
                    > WorkgroupCount::MAX_WGS_PER_DIM,
            },
    {
        match WorkgroupCount::for_numel(dst.numel()) {
            Some(count) => Ok(count),
            None => Err(OperationError::DispatchTooLarge),
        }
    }

    /// The layout of the storage bindings: the operands and the result.
    /// There is no in-place variant to ask for.
    pub fn storage_bind_group_layout(&self, inplace: bool) -> (out: Result<
        BindGroupLayoutDescriptor,
        OperationError,
    >)
        requires
            !inplace,
        ensures
            out is Ok,
            out->Ok_0@ == storage_layout(self.spec_srcs().len()),
    {
        if self.bias.is_some() {
            Ok(BindGroupLayoutDescriptor::ternary())
        } else {
            Ok(BindGroupLayoutDescriptor::binary())
        }
    }

    /// The members of the kernel's parameter record.
    pub fn metadata(&self, input: &StorageView, weight: &StorageView, dst: &StorageView) -> (out:
        Vec<MetaField>)
        requires
            input@.kernel_ready(),
            weight@.kernel_ready(),
            dst@.kernel_ready(),
            dst@.numel() > 0,
            self.stride <= u32::MAX,
            self.padding <= u32::MAX,
        ensures
            out@ == self.spec_meta(input@, weight@, dst@),
    {
        let mut out: Vec<MetaField> = Vec::new();
        out.push(lanes(input.shape().as_slice(), 1));
        out.push(lanes(weight.shape().as_slice(), 1));
        out.push(lanes(dst.shape().as_slice(), 1));
        out.push(stride_lanes(dst.shape()));
        out.push(MetaField::Scalar(self.stride as u32));
        out.push(MetaField::Scalar(self.padding as u32));
        out.push(
            MetaField::Scalar(
                if self.bias.is_some() {
                    1
                } else {
                    0
                },
            ),
        );
        assert(out@ =~= self.spec_meta(input@, weight@, dst@));
        out
    }
}

} // verus!
