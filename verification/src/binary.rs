//! Element-wise operations on two tensors, with broadcasting.

use vstd::prelude::*;
use vstd::string::StringExecFns;
use crate::error::OperationError;
use crate::layout::{inplace_layout, storage_layout, BindGroupLayoutDescriptor};
use crate::meta::{lanes, spec_lanes, spec_stride_lanes, stride_lanes};
use crate::pipeline_pool::KernelElement;
use crate::shape::{left_padded, Shape};
use crate::tensor_id::TensorId;
use crate::uniform::MetaField;
use crate::view::{StorageView, ViewModel};
use crate::workgroup::{spec_dispatch, WorkgroupCount};

verus! {

/// The extent that two extents broadcast to: they are equal, or one of them
/// is 1 and gives way to the other.
pub open spec fn broadcast_dim(a: usize, b: usize) -> Option<usize> {
    if a == b {
        Some(a)
    } else if a == 1 {
        Some(b)
    } else if b == 1 {
        Some(a)
    } else {
        None
    }
}

/// The rank of the shape that two shapes broadcast to: the larger of their
/// ranks.
pub open spec fn broadcast_rank(a: Seq<usize>, b: Seq<usize>) -> nat {
    if a.len() >= b.len() {
        a.len()
    } else {
        b.len()
    }
}

/// Whether two shapes of one rank match, extent by extent.
pub open spec fn dims_match(a: Seq<usize>, b: Seq<usize>) -> bool {
    &&& a.len() == b.len()
    &&& forall|i: int| 0 <= i < a.len() ==> (#[trigger] broadcast_dim(a[i], b[i])) is Some
}

/// The extents that two matching shapes of one rank broadcast to.
pub open spec fn matched_dims(a: Seq<usize>, b: Seq<usize>) -> Seq<usize> {
    Seq::new(a.len(), |i: int| broadcast_dim(a[i], b[i])->Some_0)
}

/// The shape that two shapes broadcast to. The shorter one is padded on the
/// left with ones; then the extents are matched one by one.
pub open spec fn broadcast_shape(a: Seq<usize>, b: Seq<usize>) -> Option<Seq<usize>> {
    let n = broadcast_rank(a, b);
    let pa = left_padded(a, 1, n);
    let pb = left_padded(b, 1, n);
    if dims_match(pa, pb) {
        Some(matched_dims(pa, pb))
    } else {
        None
    }
}

/// Broadcasting does not depend on the order of the two shapes.
pub proof fn lemma_broadcast_commutes(a: Seq<usize>, b: Seq<usize>)
    ensures
        broadcast_shape(a, b) == broadcast_shape(b, a),
{
    let n = broadcast_rank(a, b);
    assert(n == broadcast_rank(b, a));
    let pa = left_padded(a, 1, n);
    let pb = left_padded(b, 1, n);
    if dims_match(pa, pb) {
        assert forall|i: int| 0 <= i < n implies (#[trigger] broadcast_dim(pb[i], pa[i])) is Some by {
            assert(broadcast_dim(pa[i], pb[i]) is Some);
        }
        assert(matched_dims(pa, pb) =~= matched_dims(pb, pa));
    } else if dims_match(pb, pa) {
        assert forall|i: int| 0 <= i < n implies (#[trigger] broadcast_dim(pa[i], pb[i])) is Some by {
            assert(broadcast_dim(pb[i], pa[i]) is Some);
        }
    }
}

/// An element-wise operation on operands of one element type infers the
/// same view whichever operand comes first.
pub proof fn lemma_infer_commutes(lhs: ViewModel, rhs: ViewModel)
    requires
        lhs.dt == rhs.dt,
    ensures
        Binary::spec_infer(lhs, rhs) == Binary::spec_infer(rhs, lhs),
{
    lemma_broadcast_commutes(lhs.shape, rhs.shape);
}

/// A shape broadcasts with itself to itself, whatever its extents are, zero
/// among them.
pub proof fn lemma_broadcast_same(a: Seq<usize>)
    ensures
        broadcast_shape(a, a) == Some(a),
{
    let p = left_padded(a, 1, a.len());
    assert(p =~= a);
    assert forall|i: int| 0 <= i < a.len() implies (#[trigger] broadcast_dim(a[i], a[i])) is Some by {}
    assert(matched_dims(a, a) =~= a);
}

/// An element-wise operation takes two operands of one shape and one
/// element type that a kernel can be told of, and its result has their shape
/// and element type. So it takes operands without elements: its result has
/// no elements then, and fills no bytes.
pub proof fn lemma_infer_same_shape(lhs: ViewModel, rhs: ViewModel)
    requires
        lhs.kernel_ready(),
        rhs.kernel_ready(),
        lhs.shape == rhs.shape,
        lhs.dt == rhs.dt,
    ensures
        Binary::spec_infer(lhs, rhs) == Ok::<ViewModel, OperationError>(
            ViewModel::contiguous(lhs.shape, lhs.dt),
        ),
        lhs.numel() == 0 ==> ViewModel::contiguous(lhs.shape, lhs.dt).numel() == 0
            && ViewModel::contiguous(lhs.shape, lhs.dt).num_bytes() == 0,
{
    lemma_broadcast_same(lhs.shape);
    let out = ViewModel::contiguous(lhs.shape, lhs.dt);
    assert(out.num_bytes() == lhs.num_bytes());
    assert(out.strides.len() == out.shape.len());
}

/// The shape that `a` and `b` broadcast to, where there is one.
pub fn broadcast(a: &Shape, b: &Shape) -> (out: Option<Shape>)
    ensures
        match out {
            Some(s) => broadcast_shape(a@, b@) == Some(s@),
            None => broadcast_shape(a@, b@) is None,
        },
{
    let n = if a.len() >= b.len() {
        a.len()
    } else {
        b.len()
    };
    let mut pa = a.clone();
    pa.left_pad_to(1, n);
    let mut pb = b.clone();
    pb.left_pad_to(1, n);
    let mut dims: Vec<usize> = Vec::new();
    let mut i: usize = 0;
    while i < n
        invariant
            i <= n,
            n == broadcast_rank(a@, b@),
            pa@ == left_padded(a@, 1, n as nat),
            pb@ == left_padded(b@, 1, n as nat),
            pa@.len() == n,
            pb@.len() == n,
            dims@.len() == i,
            forall|k: int| 0 <= k < i ==> (#[trigger] broadcast_dim(pa@[k], pb@[k])) == Some(dims@[k]),
        decreases n - i,
    {
        let x = pa.get(i);
        let y = pb.get(i);
        if x == y || y == 1 {
            dims.push(x);
        } else if x == 1 {
            dims.push(y);
        } else {
            assert(broadcast_dim(pa@[i as int], pb@[i as int]) is None);
            assert(!dims_match(pa@, pb@));
            return None;
        }
        i += 1;
    }
    assert(dims_match(pa@, pb@));
    assert(dims@ =~= matched_dims(pa@, pb@));
    Some(Shape::new(dims))
}

/// Which element-wise operation a `Binary` stands for.
#[derive(Clone, Copy, Debug, PartialEq, Eq, Structural, Hash)]
pub enum BinaryOp {
    Add,
    Sub,
    Mul,
    Div,
}

impl BinaryOp {
    /// The name of the operation's kernel.
    pub open spec fn name(self) -> Seq<char> {
        match self {
            BinaryOp::Add => "add"@,
            BinaryOp::Sub => "sub"@,
            BinaryOp::Mul => "mul"@,
            BinaryOp::Div => "div"@,
        }
    }

    /// The name of the operation's kernel.
    pub fn kernel_name(&self) -> (s: &'static str)
        ensures
            s@ == self.name(),
    {
        match self {
            BinaryOp::Add => "add",
            BinaryOp::Sub => "sub",
            BinaryOp::Mul => "mul",
            BinaryOp::Div => "div",
        }
    }
}

/// An element-wise operation on two tensors.
#[derive(Clone, Copy, Debug)]
pub struct Binary {
    pub lhs: TensorId,
    pub rhs: TensorId,
    pub op: BinaryOp,
}

impl Binary {
    /// The operation `op` on the tensors `lhs` and `rhs`.
    pub fn new(lhs: TensorId, rhs: TensorId, op: BinaryOp) -> (out: Binary)
        ensures
            out.lhs == lhs,
            out.rhs == rhs,
            out.op == op,
    {
        Binary { lhs, rhs, op }
    }

    /// The view of the result for operands with the views `lhs` and `rhs`,
    /// or the reason why there is none. The shapes must broadcast, and they
    /// and the result must be such that a kernel can be told of them; then
    /// the element types must agree. The result is contiguous.
    pub open spec fn spec_infer(lhs: ViewModel, rhs: ViewModel) -> Result<ViewModel, OperationError> {
        if !lhs.kernel_ready() || !rhs.kernel_ready() {
            Err(OperationError::ShapeError)
        } else {
            match broadcast_shape(lhs.shape, rhs.shape) {
                None => Err(OperationError::ShapeError),
                Some(shape) => {
                    let out = ViewModel::contiguous(shape, lhs.dt);
                    if !out.kernel_ready() {
                        Err(OperationError::ShapeError)
                    } else if lhs.dt != rhs.dt {
                        Err(OperationError::DtypeError)
                    } else {
                        Ok(out)
                    }
                },
            }
        }
    }

    /// The members of the kernel's parameter record: the shapes of the two
    /// operands and the strides of the result, each padded to rank 4, and the
    /// number of elements of the result.
    pub open spec fn spec_meta(lhs: ViewModel, rhs: ViewModel, dst: ViewModel) -> Seq<MetaField> {
        seq![
            spec_lanes(lhs.shape, 1),
            spec_lanes(rhs.shape, 1),
            spec_stride_lanes(dst.shape),
            MetaField::Scalar(dst.numel() as u32),
        ]
    }

    /// The key of the kernel: the operation's name, the mark of the in-place
    /// variant where it is asked for, and the element width.
    pub open spec fn spec_kernel_key(self, inplace: bool, elem: KernelElement) -> Seq<char> {
        if inplace {
            self.op.name() + "_inplace_"@ + elem.name()
        } else {
            self.op.name() + "_"@ + elem.name()
        }
    }

    /// The operands, in the order in which they are bound.
    pub fn srcs(&self) -> (out: Vec<TensorId>)
        ensures
            out@ == seq![self.lhs, self.rhs],
    {
        let mut out: Vec<TensorId> = Vec::new();
        out.push(self.lhs);
        out.push(self.rhs);
        assert(out@ =~= seq![self.lhs, self.rhs]);
        out
    }

    /// The view of the result for operands with the views `lhs` and `rhs`.
    pub fn infer_output(lhs: &StorageView, rhs: &StorageView) -> (out: Result<
        StorageView,
        OperationError,
    >)
        ensures
            match out {
                Ok(v) => Self::spec_infer(lhs@, rhs@) == Ok::<ViewModel, OperationError>(v@),
                Err(e) => Self::spec_infer(lhs@, rhs@) == Err::<ViewModel, OperationError>(e),
            },
    {
        if !lhs.is_kernel_ready() || !rhs.is_kernel_ready() {
            return Err(OperationError::ShapeError);
        }
        match broadcast(lhs.shape(), rhs.shape()) {
            None => Err(OperationError::ShapeError),
            Some(shape) => {
                if !shape.fits() {
                    return Err(OperationError::ShapeError);
                }
                let view = StorageView::contiguous(shape, lhs.dt());
                if !view.is_kernel_ready() {
                    Err(OperationError::ShapeError)
                } else if lhs.dt() != rhs.dt() {
                    Err(OperationError::DtypeError)
                } else {
                    Ok(view)
                }
            },
        }
    }

    /// Checks that the operation can be applied to operands with the views
    /// `lhs` and `rhs`.
    pub fn check_invariants(lhs: &StorageView, rhs: &StorageView) -> (out: Result<
        (),
        OperationError,
    >)
        ensures
            match out {
                Ok(_) => Self::spec_infer(lhs@, rhs@) is Ok,
                Err(e) => Self::spec_infer(lhs@, rhs@) == Err::<ViewModel, OperationError>(e),
            },
    {
        match Self::infer_output(lhs, rhs) {
            Ok(_) => Ok(()),
            Err(e) => Err(e),
        }
    }

    /// The name of the kernel.
    pub fn kernel_name(&self) -> (out: String)
        ensures
            out@ == self.op.name(),
    {
        String::from_str(self.op.kernel_name())
    }

    /// An element-wise operation may write its result over its first
    /// operand.
    pub fn supports_inplace(&self) -> (b: bool)
        ensures
            b,
    {
        true
    }

    /// The element width of the kernel: the widest that divides the number
    /// of elements of the result.
    pub fn kernel_element(&self, dst: &StorageView) -> (e: KernelElement)
        requires
            dst@.valid(),
        ensures
            e == KernelElement::spec_for_numel(dst@.numel()),
    {
        KernelElement::for_numel(dst.numel())
    }

    /// The key of the kernel.
    pub fn kernel_key(&self, inplace: bool, dst: &StorageView) -> (out: String)
        requires
            dst@.valid(),
        ensures
            out@ == self.spec_kernel_key(inplace, KernelElement::spec_for_numel(dst@.numel())),
    {
        let mut key = self.kernel_name();
        if inplace {
            key.append("_inplace_");
        } else {
            key.append("_");
        }
        key.append(self.kernel_element(dst).as_str());
        key
    }

    /// The workgroup counts of the dispatch: enough for every element of the
    /// result.
    pub fn calculate_dispatch(&self, dst: &StorageView) -> (out: Result<
        WorkgroupCount,
        OperationError,
    >)
        requires
            dst@.valid(),
        ensures
            match out {
                Ok(count) => count.as_triple() == spec_dispatch(dst@.numel()),
                Err(e) => e == OperationError::DispatchTooLarge && spec_dispatch(dst@.numel()).1
                    > WorkgroupCount::MAX_WGS_PER_DIM,
            },
    {
        match WorkgroupCount::for_numel(dst.numel()) {
            Some(count) => Ok(count),
            None => Err(OperationError::DispatchTooLarge),
        }
    }

    /// The layout of the storage bindings: both operands and the result, or,
    /// in place, the first operand as the result and the second operand.
    pub fn storage_bind_group_layout(&self, inplace: bool) -> (out: Result<
        BindGroupLayoutDescriptor,
        OperationError,
    >)
        ensures
            out is Ok,
            out->Ok_0@ == if inplace {
                inplace_layout(1)
            } else {
                storage_layout(2)
            },
    {
        if inplace {
            Ok(BindGroupLayoutDescriptor::binary_inplace())
        } else {
            Ok(BindGroupLayoutDescriptor::binary())
        }
    }

    /// The members of the kernel's parameter record.
    pub fn metadata(lhs: &StorageView, rhs: &StorageView, dst: &StorageView) -> (out: Vec<MetaField>)
        requires
            lhs@.kernel_ready(),
            rhs@.kernel_ready(),
            dst@.kernel_ready(),
            dst@.numel() > 0,
        ensures
            out@ == Self::spec_meta(lhs@, rhs@, dst@),
    {
        let mut out: Vec<MetaField> = Vec::new();
        out.push(lanes(lhs.shape().as_slice(), 1));
        out.push(lanes(rhs.shape().as_slice(), 1));
        out.push(stride_lanes(dst.shape()));
        out.push(MetaField::Scalar(dst.numel() as u32));
        assert(out@ =~= Self::spec_meta(lhs@, rhs@, dst@));
        out
    }
}

} // verus!
