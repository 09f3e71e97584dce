//! Workgroup counts of a compute dispatch.

use vstd::arithmetic::div_mod::{
    lemma_fundamental_div_mod, lemma_fundamental_div_mod_converse, lemma_mod_pos_bound,
};
use vstd::prelude::*;

verus! {

/// The number of invocations in one workgroup along X. Every kernel is
/// written for this size.
pub const WORKGROUP_SIZE: usize = 64;

/// The quotient `num / div`, rounded up.
pub open spec fn spec_div_ceil(num: nat, div: nat) -> nat
    recommends
        div > 0,
{
    ((num + div - 1) / (div as int)) as nat
}

/// The workgroup counts that cover `numel` elements: one workgroup for every
/// 64 elements along X, folded into Y where X alone would exceed the limit
/// per dimension.
pub open spec fn spec_dispatch(numel: nat) -> (nat, nat, nat) {
    let groups = spec_div_ceil(numel, WORKGROUP_SIZE as nat);
    if groups > WorkgroupCount::MAX_WGS_PER_DIM {
        (
            WorkgroupCount::MAX_WGS_PER_DIM as nat,
            spec_div_ceil(groups, WorkgroupCount::MAX_WGS_PER_DIM as nat),
            1,
        )
    } else {
        (groups, 1, 1)
    }
}

/// The workgroup counts of one dispatch.
#[derive(Clone, Copy, Debug, PartialEq, Eq, Structural)]
pub struct WorkgroupCount {
    pub x: u32,
    pub y: u32,
    pub z: u32,
}

impl WorkgroupCount {
    /// The largest workgroup count that a dispatch may have in one dimension.
    pub const MAX_WGS_PER_DIM: usize = 65535;

    /// The counts as a triple of naturals.
    pub open spec fn as_triple(self) -> (nat, nat, nat) {
        (self.x as nat, self.y as nat, self.z as nat)
    }

    /// The workgroup counts `(x, y, z)`.
    pub fn new(x: u32, y: u32, z: u32) -> (out: WorkgroupCount)
        ensures
            out.x == x,
            out.y == y,
            out.z == z,
    {
        WorkgroupCount { x, y, z }
    }

    /// The quotient `num / div`, rounded up.
    pub fn div_ceil(num: usize, div: usize) -> (q: usize)
        requires
            div > 0,
        ensures
            q == spec_div_ceil(num as nat, div as nat),
    {
        let q = num / div;
        let r = num % div;
        proof {
            lemma_div_ceil(num as nat, div as nat);
            assert(r != 0 ==> q < usize::MAX) by (nonlinear_arith)
                requires
                    div > 0,
                    q == num / div,
                    r == num % div,
                    num <= usize::MAX,
            ;
        }
        if r == 0 {
            q
        } else {
            q + 1
        }
    }

    /// The workgroup counts that cover `numel` elements, or `None` where even
    /// the folded count exceeds the limit per dimension.
    pub fn for_numel(numel: usize) -> (out: Option<WorkgroupCount>)
        ensures
            match out {
                Some(count) => count.as_triple() == spec_dispatch(numel as nat),
                None => spec_dispatch(numel as nat).1 > WorkgroupCount::MAX_WGS_PER_DIM,
            },
    {
        let x_groups = Self::div_ceil(numel, WORKGROUP_SIZE);
        if x_groups > Self::MAX_WGS_PER_DIM {
            let y_groups = Self::div_ceil(x_groups, Self::MAX_WGS_PER_DIM);
            if y_groups > Self::MAX_WGS_PER_DIM {
                None
            } else {
                Some(WorkgroupCount { x: Self::MAX_WGS_PER_DIM as u32, y: y_groups as u32, z: 1 })
            }
        } else {
            Some(WorkgroupCount { x: x_groups as u32, y: 1, z: 1 })
        }
    }
}

/// Rounding a quotient up adds one exactly where there is a remainder.
pub proof fn lemma_div_ceil(num: nat, div: nat)
    requires
        div > 0,
    ensures
        spec_div_ceil(num, div) == if num % div == 0 {
            num / div
        } else {
            num / div + 1
        },
        spec_div_ceil(num, div) * div >= num,
        num > 0 ==> (spec_div_ceil(num, div) - 1) * div < num,
        num == 0 ==> spec_div_ceil(num, div) == 0,
{
    let d = div as int;
    let n = num as int;
    let q = n / d;
    let r = n % d;
    lemma_fundamental_div_mod(n, d);
    lemma_mod_pos_bound(n, d);
    assert(d * q == q * d) by (nonlinear_arith);
    assert(q >= 0) by (nonlinear_arith)
        requires
            n == q * d + r,
            0 <= r < d,
            n >= 0,
    ;
    if r == 0 {
        lemma_fundamental_div_mod_converse(n + d - 1, d, q, d - 1);
        assert((q - 1) * d == q * d - d) by (nonlinear_arith);
    } else {
        assert((q + 1) * d == q * d + d) by (nonlinear_arith);
        lemma_fundamental_div_mod_converse(n + d - 1, d, q + 1, r - 1);
        assert(((q + 1) - 1) * d == q * d);
    }
}

/// The workgroups of a dispatch are enough for every element: 64 times
/// their number is at least `numel`.
pub proof fn lemma_dispatch_covers(numel: nat)
    ensures
        ({
            let (x, y, z) = spec_dispatch(numel);
            x * y * z * WORKGROUP_SIZE >= numel
        }),
        spec_dispatch(numel).2 == 1,
        numel > WORKGROUP_SIZE * WorkgroupCount::MAX_WGS_PER_DIM ==> spec_dispatch(numel).0
            == WorkgroupCount::MAX_WGS_PER_DIM,
        numel <= WORKGROUP_SIZE * WorkgroupCount::MAX_WGS_PER_DIM ==> spec_dispatch(numel).1 == 1,
        numel == 0 ==> spec_dispatch(numel).0 == 0,
{
    let groups = spec_div_ceil(numel, 64);
    lemma_div_ceil(numel, 64);
    if groups > 65535 {
        let y = spec_div_ceil(groups, 65535);
        lemma_div_ceil(groups, 65535);
        assert(65535 * y * 1 * 64 >= numel) by (nonlinear_arith)
            requires
                y * 65535 >= groups,
                groups * 64 >= numel,
        ;
    } else {
        assert(groups * 1 * 1 * 64 >= numel) by (nonlinear_arith)
            requires
                groups * 64 >= numel,
        ;
    }
}

} // verus!
