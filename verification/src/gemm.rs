//! Matrix multiplication with transposed operands, a transposed result and a
//! bias.

use vstd::prelude::*;
use vstd::string::StringExecFns;
use crate::error::OperationError;
use crate::layout::{storage_layout, BindGroupLayoutDescriptor};
use crate::matmul::{matmul_shape, Matmul};
use crate::meta::{lanes, spec_lanes, spec_stride_lanes, stride_lanes};
use crate::pipeline_pool::KernelElement;
use crate::shape::Shape;
use crate::tensor_id::TensorId;
use crate::uniform::MetaField;
use crate::view::{StorageView, ViewModel};
use crate::workgroup::{spec_dispatch, WorkgroupCount};

verus! {

/// The shape `s` with its last two extents exchanged; `s` itself where it
/// has fewer than two.
pub open spec fn transposed(s: Seq<usize>) -> Seq<usize> {
    if s.len() < 2 {
        s
    } else {
        s.take(s.len() - 2).push(s[s.len() - 1]).push(s[s.len() - 2])
    }
}

/// `s`, transposed where `flag` says so.
pub open spec fn oriented(s: Seq<usize>, flag: bool) -> Seq<usize> {
    if flag {
        transposed(s)
    } else {
        s
    }
}

/// The shape `shape` with its last two extents exchanged.
pub fn transpose(shape: &Shape) -> (out: Shape)
    ensures
        out@ == transposed(shape@),
{
    let n = shape.len();
    if n < 2 {
        return shape.clone();
    }
    let mut dims = shape.take(n - 2).to_vec();
    dims.push(shape.get(n - 1));
    dims.push(shape.get(n - 2));
    Shape::new(dims)
}

/// A matrix multiplication of operands that may be read transposed, with a
/// result that may be written transposed, and with a bias that is added to
/// every row of the product.
#[derive(Clone, Copy, Debug)]
pub struct Gemm {
    pub lhs: TensorId,
    pub rhs: TensorId,
    pub bias: Option<TensorId>,
    pub trans_lhs: bool,
    pub trans_rhs: bool,
    pub trans_out: bool,
}

impl Gemm {
    /// The operands, in the order in which they are bound.
    pub open spec fn spec_srcs(self) -> Seq<TensorId> {
        match self.bias {
            Some(b) => seq![self.lhs, self.rhs, b],
            None => seq![self.lhs, self.rhs],
        }
    }

    /// The shape of the result for operands of the shapes `a` and `b`.
    pub open spec fn spec_shape(self, a: Seq<usize>, b: Seq<usize>) -> Option<Seq<usize>> {
        match matmul_shape(oriented(a, self.trans_lhs), oriented(b, self.trans_rhs)) {
            None => None,
            Some(c) => Some(oriented(c, self.trans_out)),
        }
    }

    /// Whether a bias of the shape `bias` fits a right operand of the shape
    /// `b`: it has one extent, the number of columns of the product.
    pub open spec fn bias_fits(self, b: Seq<usize>, bias: Seq<usize>) -> bool {
        bias == seq![oriented(b, self.trans_rhs).last()]
    }

    /// The view of the result for operands with the views `srcs`, or the
    /// reason why there is none.
    pub open spec fn spec_infer(self, srcs: Seq<ViewModel>) -> Result<ViewModel, OperationError> {
        let lhs = srcs[0];
        let rhs = srcs[1];
        if !lhs.kernel_ready() || !rhs.kernel_ready() {
            Err(OperationError::ShapeError)
        } else {
            match self.spec_shape(lhs.shape, rhs.shape) {
                None => Err(OperationError::ShapeError),
                Some(shape) => {
                    let out = ViewModel::contiguous(shape, lhs.dt);
                    if !out.kernel_ready() {
                        Err(OperationError::ShapeError)
                    } else if self.bias is Some && !(srcs[2].kernel_ready() && self.bias_fits(
                        rhs.shape,
                        srcs[2].shape,
                    )) {
                        Err(OperationError::ShapeError)
                    } else if lhs.dt != rhs.dt || (self.bias is Some && srcs[2].dt != lhs.dt) {
                        Err(OperationError::DtypeError)
                    } else {
                        Ok(out)
                    }
                },
            }
        }
    }

    /// The flags of the kernel as one number: 1 for a transposed left
    /// operand, 2 for a transposed right operand, 4 for a transposed result,
    /// 8 for a bias.
    pub open spec fn spec_flags(self) -> u32 {
        ((if self.trans_lhs {
            1int
        } else {
            0int
        }) + (if self.trans_rhs {
            2int
        } else {
            0int
        }) + (if self.trans_out {
            4int
        } else {
            0int
        }) + (if self.bias is Some {
            8int
        } else {
            0int
        })) as u32
    }

    /// The members of the kernel's parameter record: the shapes of the
    /// operands and of the result and the strides of the result, each padded
    /// to rank 4, the extent that is summed over, and the flags.
    pub open spec fn spec_meta(self, lhs: ViewModel, rhs: ViewModel, dst: ViewModel) -> Seq<
        MetaField,
    > {
        seq![
            spec_lanes(lhs.shape, 1),
            spec_lanes(rhs.shape, 1),
            spec_lanes(dst.shape, 1),
            spec_stride_lanes(dst.shape),
            MetaField::Scalar(oriented(lhs.shape, self.trans_lhs).last() as u32),
            MetaField::Scalar(self.spec_flags()),
        ]
    }

    /// The name of the kernel.
    pub open spec fn spec_name(self) -> Seq<char> {
        if self.bias is Some {
            "gemm_bias"@
        } else {
            "gemm"@
        }
    }

    /// The key of the kernel: its name and the element width.
    pub open spec fn spec_kernel_key(self, elem: KernelElement) -> Seq<char> {
        self.spec_name() + "_"@ + elem.name()
    }

    /// The operands, in the order in which they are bound.
    pub fn srcs(&self) -> (out: Vec<TensorId>)
        ensures
            out@ == self.spec_srcs(),
    {
        let mut out: Vec<TensorId> = Vec::new();
        out.push(self.lhs);
        out.push(self.rhs);
        match self.bias {
            Some(b) => {
                out.push(b);
                assert(out@ =~= seq![self.lhs, self.rhs, b]);
            },
            None => {
                assert(out@ =~= seq![self.lhs, self.rhs]);
            },
        }
        out
    }

    /// The view of the result for operands with the views `lhs` and `rhs`
    /// and a bias with the view `bias`.
    pub fn infer_output(&self, lhs: &StorageView, rhs: &StorageView, bias: Option<&StorageView>) -> (out:
        Result<StorageView, OperationError>)
        requires
            bias is Some == self.bias is Some,
        ensures
            match out {
                Ok(v) => self.spec_infer(
                    match bias {
                        Some(b) => seq![lhs@, rhs@, b@],
                        None => seq![lhs@, rhs@],
                    },
                ) == Ok::<ViewModel, OperationError>(v@),
                Err(e) => self.spec_infer(
                    match bias {
                        Some(b) => seq![lhs@, rhs@, b@],
                        None => seq![lhs@, rhs@],
                    },
                ) == Err::<ViewModel, OperationError>(e),
            },
    {
        if !lhs.is_kernel_ready() || !rhs.is_kernel_ready() {
            return Err(OperationError::ShapeError);
        }
        let a = if self.trans_lhs {
            transpose(lhs.shape())
        } else {
            lhs.shape().clone()
        };
        let b = if self.trans_rhs {
            transpose(rhs.shape())
        } else {
            rhs.shape().clone()
        };
        let product = match Matmul::output_shape(&a, &b) {
            None => {
                return Err(OperationError::ShapeError);
            },
            Some(c) => c,
        };
        let shape = if self.trans_out {
            transpose(&product)
        } else {
            product
        };
        if !shape.fits() {
            return Err(OperationError::ShapeError);
        }
        let view = StorageView::contiguous(shape, lhs.dt());
        if !view.is_kernel_ready() {
            return Err(OperationError::ShapeError);
        }
        match bias {
            Some(bias) => {
                if !bias.is_kernel_ready() {
                    return Err(OperationError::ShapeError);
                }
                if bias.shape().len() != 1 || bias.shape().get(0) != b.get(b.len() - 1) {
                    assert(!(bias@.shape =~= seq![oriented(rhs@.shape, self.trans_rhs).last()]));
                    return Err(OperationError::ShapeError);
                }
                assert(bias@.shape =~= seq![oriented(rhs@.shape, self.trans_rhs).last()]);
                if lhs.dt() != rhs.dt() || bias.dt() != lhs.dt() {
                    return Err(OperationError::DtypeError);
                }
            },
            None => {
                if lhs.dt() != rhs.dt() {
                    return Err(OperationError::DtypeError);
                }
            },
        }
        Ok(view)
    }

    /// The name of the kernel.
    pub fn kernel_name(&self) -> (out: String)
        ensures
            out@ == self.spec_name(),
    {
        if self.bias.is_some() {
            String::from_str("gemm_bias")
        } else {
            String::from_str("gemm")
        }
    }

    /// A product is never written over one of its operands.
    pub fn supports_inplace(&self) -> (b: bool)
        ensures
            !b,
    {
        false
    }

    /// The element width of the kernel: the widest that divides the number
    /// of elements of the result.
    pub fn kernel_element(&self, dst: &StorageView) -> (e: KernelElement)
        requires
            dst@.valid(),
        ensures
            e == KernelElement::spec_for_numel(dst@.numel()),
    {
        KernelElement::for_numel(dst.numel())
    }

    /// The key of the kernel.
    pub fn kernel_key(&self, inplace: bool, dst: &StorageView) -> (out: String)
        requires
            dst@.valid(),
        ensures
            out@ == self.spec_kernel_key(KernelElement::spec_for_numel(dst@.numel())),
    {
        let mut key = self.kernel_name();
        key.append("_");
        key.append(self.kernel_element(dst).as_str());
        key
    }

    /// The workgroup counts of the dispatch: enough for every element of the
    /// result.
    pub fn calculate_dispatch(&self, dst: &StorageView) -> (out: Result<
        WorkgroupCount,
        OperationError,
    >)
        requires
            dst@.valid(),
        ensures
            match out {
                Ok(count) => count.as_triple() == spec_dispatch(dst@.numel()),
                Err(e) => e == OperationError::DispatchTooLarge && spec_dispatch(dst@.numel()).1
                    > WorkgroupCount::MAX_WGS_PER_DIM,
            },
    {
        match WorkgroupCount::for_numel(dst.numel()) {
            Some(count) => Ok(count),
            None => Err(OperationError::DispatchTooLarge),
        }
    }

    /// The layout of the storage bindings: the operands and the result.
    /// There is no in-place variant to ask for.
    pub fn storage_bind_group_layout(&self, inplace: bool) -> (out: Result<
        BindGroupLayoutDescriptor,
        OperationError,
    >)
        requires
            !inplace,
        ensures
            out is Ok,
            out->Ok_0@ == storage_layout(self.spec_srcs().len()),
    {
        if self.bias.is_some() {
            Ok(BindGroupLayoutDescriptor::ternary())
        } else {
            Ok(BindGroupLayoutDescriptor::binary())
        }
    }

    /// The members of the kernel's parameter record.
    pub fn metadata(&self, lhs: &StorageView, rhs: &StorageView, dst: &StorageView) -> (out: Vec<
        MetaField,
    >)
        requires
            lhs@.kernel_ready(),
            rhs@.kernel_ready(),
            dst@.kernel_ready(),
            dst@.numel() > 0,
            lhs@.shape.len() >= 2,
        ensures
            out@ == self.spec_meta(lhs@, rhs@, dst@),
    {
        let n = lhs.shape().len();
        let inner = if self.trans_lhs {
            lhs.shape().get(n - 2)
        } else {
            lhs.shape().get(n - 1)
        };
        let mut flags: u32 = 0;
        if self.trans_lhs {
            flags += 1;
        }
        if self.trans_rhs {
            flags += 2;
        }
        if self.trans_out {
            flags += 4;
        }
        if self.bias.is_some() {
            flags += 8;
        }
        let mut out: Vec<MetaField> = Vec::new();
        out.push(lanes(lhs.shape().as_slice(), 1));
        out.push(lanes(rhs.shape().as_slice(), 1));
        out.push(lanes(dst.shape().as_slice(), 1));
        out.push(stride_lanes(dst.shape()));
        out.push(MetaField::Scalar(inner as u32));
        out.push(MetaField::Scalar(flags));
        assert(out@ =~= self.spec_meta(lhs@, rhs@, dst@));
        out
    }
}

} // verus!
