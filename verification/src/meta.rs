//! The recurring members of parameter records: shapes and strides as vectors
//! of four 32-bit lanes.

use vstd::prelude::*;
use crate::shape::{
    canonical_strides, dims_fit, left_padded, lemma_left_padded_ones, lemma_numel_positive,
    numel_of, Shape, Strides,
};
use crate::uniform::{MetaField, UVec4};

verus! {

/// `vals`, padded on the left with `fill` to four entries, as a vector of
/// four lanes.
pub open spec fn spec_lanes(vals: Seq<usize>, fill: usize) -> MetaField {
    spec_uvec4(vals, fill).spec_field()
}

/// `vals`, padded on the left with `fill` to four entries, as a vector.
pub open spec fn spec_uvec4(vals: Seq<usize>, fill: usize) -> UVec4 {
    let p = left_padded(vals, fill, 4);
    UVec4 { x: p[0] as u32, y: p[1] as u32, z: p[2] as u32, w: p[3] as u32 }
}

/// The row-major strides of `dims` padded on the left with ones to rank 4.
pub open spec fn spec_stride_uvec4(dims: Seq<usize>) -> UVec4 {
    spec_uvec4(canonical_strides(left_padded(dims, 1, 4)), 0)
}

/// The row-major strides of `dims` padded on the left with ones to rank 4,
/// as a vector of four lanes.
pub open spec fn spec_stride_lanes(dims: Seq<usize>) -> MetaField {
    spec_lanes(canonical_strides(left_padded(dims, 1, 4)), 0)
}

/// Padding on the left with ones keeps the products of suffixes within a
/// machine word.
pub proof fn lemma_left_padded_fits(dims: Seq<usize>, rank: nat)
    requires
        dims_fit(dims),
    ensures
        dims_fit(left_padded(dims, 1, rank)),
{
    let p = left_padded(dims, 1, rank);
    if dims.len() < rank {
        let n = (rank - dims.len()) as int;
        assert forall|i: int| 0 <= i <= p.len() implies #[trigger] numel_of(p.skip(i))
            <= usize::MAX by {
            if i >= n {
                assert(p.skip(i) =~= dims.skip(i - n));
            } else {
                assert(p.skip(i) =~= left_padded(dims, 1, (rank - i) as nat));
                lemma_left_padded_ones(dims, (rank - i) as nat);
                assert(dims.skip(0) =~= dims);
            }
        }
    }
}

/// `vals`, padded on the left with `fill` to four entries, as a vector of
/// four lanes.
pub fn lanes(vals: &[usize], fill: usize) -> (f: MetaField)
    requires
        vals@.len() <= 4,
        fill <= u32::MAX,
        forall|i: int| 0 <= i < vals@.len() ==> vals@[i] <= u32::MAX,
    ensures
        f == spec_lanes(vals@, fill),
{
    uvec4(vals, fill).field()
}

/// `vals`, padded on the left with `fill` to four entries, as a vector.
pub fn uvec4(vals: &[usize], fill: usize) -> (v: UVec4)
    requires
        vals@.len() <= 4,
        fill <= u32::MAX,
        forall|i: int| 0 <= i < vals@.len() ==> vals@[i] <= u32::MAX,
    ensures
        v == spec_uvec4(vals@, fill),
{
    let n = vals.len();
    let f0 = fill as u32;
    let a = if n >= 4 {
        vals[n - 4] as u32
    } else {
        f0
    };
    let b = if n >= 3 {
        vals[n - 3] as u32
    } else {
        f0
    };
    let c = if n >= 2 {
        vals[n - 2] as u32
    } else {
        f0
    };
    let d = if n >= 1 {
        vals[n - 1] as u32
    } else {
        f0
    };
    UVec4 { x: a, y: b, z: c, w: d }
}

/// The row-major strides of `shape` padded on the left with ones to rank 4,
/// as a vector of four lanes.
pub fn stride_lanes(shape: &Shape) -> (f: MetaField)
    requires
        shape@.len() <= 4,
        shape.spec_fits(),
        0 < shape.spec_numel() <= u32::MAX,
    ensures
        f == spec_stride_lanes(shape@),
{
    stride_uvec4(shape).field()
}

/// The row-major strides of `shape` padded on the left with ones to rank 4.
pub fn stride_uvec4(shape: &Shape) -> (v: UVec4)
    requires
        shape@.len() <= 4,
        shape.spec_fits(),
        0 < shape.spec_numel() <= u32::MAX,
    ensures
        v == spec_stride_uvec4(shape@),
{
    let mut padded = shape.clone();
    padded.left_pad_to(1, 4);
    proof {
        lemma_left_padded_fits(shape@, 4);
        lemma_left_padded_ones(shape@, 4);
        assert forall|k: int| 0 <= k < padded@.len() implies padded@[k] > 0 by {
            if padded@[k] == 0 {
                crate::shape::lemma_numel_zero(padded@, k);
            }
        }
    }
    let strides = Strides::from(&padded);
    let steps = strides.to_vec();
    proof {
        assert forall|i: int| 0 <= i < steps@.len() implies steps@[i] <= u32::MAX by {
            lemma_numel_positive(padded@, i + 1);
        }
    }
    uvec4(steps.as_slice(), 0)
}

} // verus!
