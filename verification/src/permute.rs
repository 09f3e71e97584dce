//! Reordering the dimensions of a tensor.

use vstd::prelude::*;
use vstd::string::StringExecFns;
use crate::error::OperationError;
use crate::layout::{storage_layout, BindGroupLayoutDescriptor};
use crate::meta::{lanes, spec_lanes, spec_stride_lanes, stride_lanes};
use crate::pipeline_pool::KernelElement;
use crate::pool::distinct;
use crate::shape::Shape;
use crate::tensor_id::TensorId;
use crate::uniform::MetaField;
use crate::view::{StorageView, ViewModel};
use crate::workgroup::{spec_dispatch, WorkgroupCount};

verus! {

/// Whether `axes` names every dimension of a tensor of its rank once.
pub open spec fn is_permutation(axes: Seq<usize>) -> bool {
    &&& forall|i: int| 0 <= i < axes.len() ==> #[trigger] axes[i] < axes.len()
    &&& distinct(axes)
}

/// The extents `dims` in the order `axes`: dimension `i` of the result is
/// dimension `axes[i]` of `dims`.
pub open spec fn permuted(dims: Seq<usize>, axes: Seq<usize>) -> Seq<usize> {
    Seq::new(axes.len(), |i: int| dims[axes[i] as int])
}

/// Whether `inverse` undoes `axes`: it leads from every dimension that
/// `axes` names back to the place where `axes` names it.
pub open spec fn inverse_of(axes: Seq<usize>, inverse: Seq<usize>) -> bool {
    &&& inverse.len() == axes.len()
    &&& forall|i: int|
        0 <= i < axes.len() ==> #[trigger] axes[i] < axes.len() && inverse[axes[i] as int] == i
}

/// The order `axes` for a tensor that is padded on the left to rank 4: the
/// padding stays where it is, and the dimensions behind it are reordered.
pub open spec fn padded_axes(axes: Seq<usize>) -> Seq<usize> {
    let pad = 4 - axes.len();
    Seq::new(
        4,
        |i: int|
            if i < pad {
                i as usize
            } else {
                (axes[i - pad] + pad) as usize
            },
    )
}

/// Reordering the dimensions by the inverse of an order and then by the
/// order gives the shape back.
pub proof fn lemma_permute_inverse(dims: Seq<usize>, axes: Seq<usize>, inverse: Seq<usize>)
    requires
        dims.len() == axes.len(),
        inverse_of(axes, inverse),
    ensures
        permuted(permuted(dims, inverse), axes) == dims,
{
    let once = permuted(dims, inverse);
    let twice = permuted(once, axes);
    assert forall|i: int| 0 <= i < dims.len() implies twice[i] == dims[i] by {
        assert(axes[i] < axes.len() && inverse[axes[i] as int] == i);
    }
    assert(twice =~= dims);
}

/// The inverse of the order `axes`, where `axes` is a permutation.
pub fn inverse(axes: &[usize]) -> (out: Option<Vec<usize>>)
    ensures
        match out {
            Some(inv) => is_permutation(axes@) && inverse_of(axes@, inv@),
            None => !is_permutation(axes@),
        },
{
    let n = axes.len();
    let mut seen: Vec<bool> = Vec::new();
    let mut inv: Vec<usize> = Vec::new();
    let mut j: usize = 0;
    while j < n
        invariant
            j <= n,
            seen@.len() == j,
            inv@.len() == j,
            forall|m: int| 0 <= m < j ==> !seen@[m],
        decreases n - j,
    {
        seen.push(false);
        inv.push(0);
        j += 1;
    }
    let mut i: usize = 0;
    while i < n
        invariant
            i <= n,
            n == axes@.len(),
            seen@.len() == n,
            inv@.len() == n,
            forall|m: int| 0 <= m < i ==> #[trigger] axes@[m] < n && inv@[axes@[m] as int] == m,
            forall|a: int, b: int| 0 <= a < b < i ==> axes@[a] != axes@[b],
            forall|a: int|
                0 <= a < n ==> (seen@[a] <==> exists|m: int| 0 <= m < i && #[trigger] axes@[m] == a),
        decreases n - i,
    {
        let a = axes[i];
        if a >= n {
            assert(!(axes@[i as int] < axes@.len()));
            return None;
        }
        if seen[a] {
            proof {
                let m = choose|m: int| 0 <= m < i && #[trigger] axes@[m] == a;
                assert(axes@[m] == axes@[i as int]);
            }
            return None;
        }
        let ghost before = seen@;
        seen.set(a, true);
        inv.set(a, i);
        proof {
            assert forall|x: int| 0 <= x < n implies (seen@[x] <==> exists|m: int|
                0 <= m < i + 1 && #[trigger] axes@[m] == x) by {
                if x == a {
                    assert(axes@[i as int] == x);
                } else {
                    if before[x] {
                        let m = choose|m: int| 0 <= m < i && #[trigger] axes@[m] == x;
                        assert(axes@[m] == x);
                    }
                    if exists|m: int| 0 <= m < i + 1 && #[trigger] axes@[m] == x {
                        let m = choose|m: int| 0 <= m < i + 1 && #[trigger] axes@[m] == x;
                        assert(m < i);
                    }
                }
            }
            assert forall|m: int| 0 <= m < i + 1 implies #[trigger] axes@[m] < n && inv@[axes@[m] as int]
                == m by {
                if m < i {
                    assert(axes@[m] != a) by {
                        if axes@[m] == a {
                            assert(before[a as int]);
                        }
                    }
                }
            }
            assert forall|x: int, y: int| 0 <= x < y < i + 1 implies axes@[x] != axes@[y] by {
                if y == i && axes@[x] == axes@[y] {
                    assert(before[a as int]);
                }
            }
        }
        i += 1;
    }
    Some(inv)
}

/// The operation that reorders the dimensions of a tensor. The result is a
/// contiguous tensor of its own.
#[derive(Debug)]
pub struct Permute {
    pub input: TensorId,
    pub axes: Vec<usize>,
}

impl Clone for Permute {
    fn clone(&self) -> (out: Self)
        ensures
            out.input == self.input,
            out.axes@ == self.axes@,
    {
        Permute { input: self.input, axes: self.axes.clone() }
    }
}

impl Permute {
    /// The operation that puts the dimensions of `input` in the order
    /// `axes`.
    pub fn new(input: TensorId, axes: Vec<usize>) -> (out: Permute)
        ensures
            out.input == input,
            out.axes == axes,
    {
        Permute { input, axes }
    }

    /// The view of the result for an operand with the view `input`: the
    /// contiguous tensor of the reordered shape, where `axes` is a
    /// permutation of the operand's dimensions and a kernel can be told of
    /// operand and result.
    pub open spec fn spec_infer(&self, input: ViewModel) -> Result<ViewModel, OperationError> {
        let out = ViewModel::contiguous(permuted(input.shape, self.axes@), input.dt);
        if input.kernel_ready() && self.axes@.len() == input.shape.len() && is_permutation(
            self.axes@,
        ) && out.kernel_ready() {
            Ok(out)
        } else {
            Err(OperationError::ShapeError)
        }
    }

    /// The members of the kernel's parameter record: the shape of the
    /// operand and the strides of the result, each padded to rank 4, the
    /// order of the dimensions for rank 4, and the number of elements.
    pub open spec fn spec_meta(&self, input: ViewModel, dst: ViewModel) -> Seq<MetaField> {
        seq![
            spec_lanes(input.shape, 1),
            spec_stride_lanes(dst.shape),
            spec_lanes(padded_axes(self.axes@), 0),
            MetaField::Scalar(dst.numel() as u32),
        ]
    }

    /// The key of the kernel: its name and the element width.
    pub open spec fn spec_kernel_key(elem: KernelElement) -> Seq<char> {
        "permute"@ + "_"@ + elem.name()
    }

    /// The operand.
    pub fn srcs(&self) -> (out: Vec<TensorId>)
        ensures
            out@ == seq![self.input],
    {
        let mut out: Vec<TensorId> = Vec::new();
        out.push(self.input);
        assert(out@ =~= seq![self.input]);
        out
    }

    /// The view of the result for an operand with the view `input`.
    pub fn infer_output(&self, input: &StorageView) -> (out: Result<StorageView, OperationError>)
        ensures
            match out {
                Ok(v) => self.spec_infer(input@) == Ok::<ViewModel, OperationError>(v@),
                Err(e) => self.spec_infer(input@) == Err::<ViewModel, OperationError>(e),
            },
    {
        if !input.is_kernel_ready() || self.axes.len() != input.shape().len() {
            return Err(OperationError::ShapeError);
        }
        if inverse(self.axes.as_slice()).is_none() {
            return Err(OperationError::ShapeError);
        }
        let n = self.axes.len();
        let mut dims: Vec<usize> = Vec::new();
        let mut i: usize = 0;
        while i < n
            invariant
                i <= n,
                n == self.axes@.len(),
                n == input@.shape.len(),
                is_permutation(self.axes@),
                dims@.len() == i,
                forall|m: int| 0 <= m < i ==> dims@[m] == input@.shape[self.axes@[m] as int],
            decreases n - i,
        {
            assert(self.axes@[i as int] < self.axes@.len());
            dims.push(input.shape().get(self.axes[i]));
            i += 1;
        }
        assert(dims@ =~= permuted(input@.shape, self.axes@));
        let shape = Shape::new(dims);
        if !shape.fits() {
            return Err(OperationError::ShapeError);
        }
        let view = StorageView::contiguous(shape, input.dt());
        if !view.is_kernel_ready() {
            return Err(OperationError::ShapeError);
        }
        Ok(view)
    }

    /// The name of the kernel.
    pub fn kernel_name(&self) -> (out: String)
        ensures
            out@ == "permute"@,
    {
        String::from_str("permute")
    }

    /// The result is never written over the operand.
    pub fn supports_inplace(&self) -> (b: bool)
        ensures
            !b,
    {
        false
    }

    /// The element width of the kernel: the widest that divides the number
    /// of elements of the result.
    pub fn kernel_element(&self, dst: &StorageView) -> (e: KernelElement)
        requires
            dst@.valid(),
        ensures
            e == KernelElement::spec_for_numel(dst@.numel()),
    {
        KernelElement::for_numel(dst.numel())
    }

    /// The key of the kernel.
    pub fn kernel_key(&self, inplace: bool, dst: &StorageView) -> (out: String)
        requires
            dst@.valid(),
        ensures
            out@ == Self::spec_kernel_key(KernelElement::spec_for_numel(dst@.numel())),
    {
        let mut key = self.kernel_name();
        key.append("_");
        key.append(self.kernel_element(dst).as_str());
        key
    }

    /// The workgroup counts of the dispatch: enough for every element of the
    /// result.
    pub fn calculate_dispatch(&self, dst: &StorageView) -> (out: Result<
        WorkgroupCount,
        OperationError,
    >)
        requires
            dst@.valid(),
        ensures
            match out {
                Ok(count) => count.as_triple() == spec_dispatch(dst@.numel()),
                Err(e) => e == OperationError::DispatchTooLarge && spec_dispatch(dst@.numel()).1
                    > WorkgroupCount::MAX_WGS_PER_DIM,
            },
    {
        match WorkgroupCount::for_numel(dst.numel()) {
            Some(count) => Ok(count),
            None => Err(OperationError::DispatchTooLarge),
        }
    }

    /// The layout of the storage bindings: the operand and the result. There
    /// is no in-place variant to ask for.
    pub fn storage_bind_group_layout(&self, inplace: bool) -> (out: Result<
        BindGroupLayoutDescriptor,
        OperationError,
    >)
        requires
            !inplace,
        ensures
            out is Ok,
            out->Ok_0@ == storage_layout(1),
    {
        Ok(BindGroupLayoutDescriptor::unary())
    }

    /// The members of the kernel's parameter record.
    pub fn metadata(&self, input: &StorageView, dst: &StorageView) -> (out: Vec<MetaField>)
        requires
            input@.kernel_ready(),
            dst@.kernel_ready(),
            dst@.numel() > 0,
            self.axes@.len() == input@.shape.len(),
            is_permutation(self.axes@),
        ensures
            out@ == self.spec_meta(input@, dst@),
    {
        let n = self.axes.len();
        let pad = 4 - n;
        let mut order: Vec<usize> = Vec::new();
        let mut i: usize = 0;
        while i < 4
            invariant
                i <= 4,
                n == self.axes@.len(),
                n <= 4,
                pad == 4 - n,
                is_permutation(self.axes@),
                order@.len() == i,
                forall|m: int| 0 <= m < i ==> #[trigger] order@[m] == padded_axes(self.axes@)[m],
            decreases 4 - i,
        {
            if i < pad {
                order.push(i);
            } else {
                assert(self.axes@[i - pad] < self.axes@.len());
                order.push(self.axes[i - pad] + pad);
            }
            i += 1;
        }
        assert(order@ =~= padded_axes(self.axes@));
        let mut out: Vec<MetaField> = Vec::new();
        out.push(lanes(input.shape().as_slice(), 1));
        out.push(stride_lanes(dst.shape()));
        out.push(lanes(order.as_slice(), 0));
        out.push(MetaField::Scalar(dst.numel() as u32));
        assert(out@ =~= self.spec_meta(input@, dst@));
        out
    }
}

} // verus!
