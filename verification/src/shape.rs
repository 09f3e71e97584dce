//! Shapes and strides: the geometry of a tensor.

use vstd::prelude::*;

verus! {

/// The product of the entries of `dims`; 1 for the empty sequence.
pub open spec fn numel_of(dims: Seq<usize>) -> nat
    decreases dims.len(),
{
    if dims.len() == 0 {
        1
    } else {
        dims[0] as nat * numel_of(dims.skip(1))
    }
}

/// Every product of a suffix of `dims`, the whole of it included, fits a
/// machine word.
pub open spec fn dims_fit(dims: Seq<usize>) -> bool {
    forall|i: int| 0 <= i <= dims.len() ==> #[trigger] numel_of(dims.skip(i)) <= usize::MAX
}

/// The row-major strides of `dims`: entry `i` is the product of the
/// dimensions after `i`.
pub open spec fn strides_of(dims: Seq<usize>) -> Seq<nat> {
    Seq::new(dims.len(), |i: int| numel_of(dims.skip(i + 1)))
}

/// The row-major strides of `dims` as machine words.
pub open spec fn canonical_strides(dims: Seq<usize>) -> Seq<usize> {
    Seq::new(dims.len(), |i: int| numel_of(dims.skip(i + 1)) as usize)
}

/// `dims` with copies of `fill` put in front until it has `rank` entries;
/// `dims` itself where it already has that many.
pub open spec fn left_padded(dims: Seq<usize>, fill: usize, rank: nat) -> Seq<usize> {
    if dims.len() >= rank {
        dims
    } else {
        Seq::new((rank - dims.len()) as nat, |i: int| fill) + dims
    }
}

/// A suffix of a suffix is a suffix.
pub proof fn lemma_skip_step(dims: Seq<usize>, i: int)
    requires
        0 <= i < dims.len(),
    ensures
        dims.skip(i).skip(1) == dims.skip(i + 1),
        dims.skip(i).len() > 0,
        dims.skip(i)[0] == dims[i],
        numel_of(dims.skip(i)) == dims[i] as nat * numel_of(dims.skip(i + 1)),
{
    assert(dims.skip(i).skip(1) =~= dims.skip(i + 1));
}

/// A product with a zero factor is zero.
pub proof fn lemma_numel_zero(dims: Seq<usize>, k: int)
    requires
        0 <= k < dims.len(),
        dims[k] == 0,
    ensures
        numel_of(dims) == 0,
    decreases dims.len(),
{
    if k == 0 {
        assert(0 * numel_of(dims.skip(1)) == 0) by (nonlinear_arith);
    } else {
        lemma_numel_zero(dims.skip(1), k - 1);
        assert(dims[0] as nat * 0 == 0) by (nonlinear_arith);
    }
}

/// A product without a zero factor is at least 1, and at least each of the
/// products of its suffixes.
pub proof fn lemma_numel_positive(dims: Seq<usize>, i: int)
    requires
        0 <= i <= dims.len(),
        forall|k: int| 0 <= k < dims.len() ==> dims[k] > 0,
    ensures
        1 <= numel_of(dims.skip(i)) <= numel_of(dims),
    decreases i,
{
    if i == 0 {
        assert(dims.skip(0) =~= dims);
        lemma_numel_at_least_one(dims);
    } else {
        lemma_numel_positive(dims, i - 1);
        lemma_skip_step(dims, i - 1);
        let rest = numel_of(dims.skip(i));
        let d = dims[i - 1] as nat;
        lemma_numel_at_least_one(dims.skip(i));
        assert(rest <= d * rest) by (nonlinear_arith)
            requires
                d >= 1,
        ;
    }
}

/// A product without a zero factor is at least 1.
pub proof fn lemma_numel_at_least_one(dims: Seq<usize>)
    requires
        forall|k: int| 0 <= k < dims.len() ==> dims[k] > 0,
    ensures
        numel_of(dims) >= 1,
    decreases dims.len(),
{
    if dims.len() > 0 {
        lemma_numel_at_least_one(dims.skip(1));
        let rest = numel_of(dims.skip(1));
        let d = dims[0] as nat;
        assert(d * rest >= 1) by (nonlinear_arith)
            requires
                d >= 1,
                rest >= 1,
        ;
    }
}

/// The product of a concatenation is the product of the products.
pub proof fn lemma_numel_concat(a: Seq<usize>, b: Seq<usize>)
    ensures
        numel_of(a + b) == numel_of(a) * numel_of(b),
    decreases a.len(),
{
    if a.len() == 0 {
        assert(a + b =~= b);
        assert(1 * numel_of(b) == numel_of(b)) by (nonlinear_arith);
    } else {
        assert((a + b).skip(1) =~= a.skip(1) + b);
        lemma_numel_concat(a.skip(1), b);
        let x = a[0] as nat;
        let p = numel_of(a.skip(1));
        let q = numel_of(b);
        assert(x * (p * q) == (x * p) * q) by (nonlinear_arith);
    }
}

/// A run of ones has product 1.
pub proof fn lemma_numel_ones(n: nat)
    ensures
        numel_of(Seq::new(n, |i: int| 1usize)) == 1,
    decreases n,
{
    let s = Seq::new(n, |i: int| 1usize);
    if n > 0 {
        assert(s.skip(1) =~= Seq::new((n - 1) as nat, |i: int| 1usize));
        lemma_numel_ones((n - 1) as nat);
    }
}

/// Padding on the left with ones changes no product.
pub proof fn lemma_left_padded_ones(dims: Seq<usize>, rank: nat)
    ensures
        numel_of(left_padded(dims, 1, rank)) == numel_of(dims),
{
    if dims.len() < rank {
        let n = (rank - dims.len()) as nat;
        lemma_numel_ones(n);
        lemma_numel_concat(Seq::new(n, |i: int| 1usize), dims);
        assert(1 * numel_of(dims) == numel_of(dims)) by (nonlinear_arith);
    }
}

/// The extents of a tensor, outermost first.
#[derive(Debug)]
pub struct Shape {
    dims: Vec<usize>,
}

impl View for Shape {
    type V = Seq<usize>;

    closed spec fn view(&self) -> Seq<usize> {
        self.dims@
    }
}

impl Clone for Shape {
    fn clone(&self) -> (out: Self)
        ensures
            out@ == self@,
    {
        Shape { dims: self.dims.clone() }
    }
}

impl Shape {
    /// The shape with the given extents.
    pub fn new(dims: Vec<usize>) -> (out: Shape)
        ensures
            out@ == dims@,
    {
        Shape { dims }
    }

    /// The number of elements: the product of the extents.
    pub open spec fn spec_numel(&self) -> nat {
        numel_of(self@)
    }

    /// Whether every suffix product of the extents fits a machine word, so
    /// that `numel` and the strides can be computed.
    pub open spec fn spec_fits(&self) -> bool {
        dims_fit(self@)
    }

    /// The number of dimensions.
    pub fn len(&self) -> (n: usize)
        ensures
            n == self@.len(),
    {
        self.dims.len()
    }

    /// The number of dimensions.
    pub fn rank(&self) -> (n: usize)
        ensures
            n == self@.len(),
    {
        self.dims.len()
    }

    /// The extent of dimension `i`.
    pub fn get(&self, i: usize) -> (d: usize)
        requires
            i < self@.len(),
        ensures
            d == self@[i as int],
    {
        self.dims[i]
    }

    /// The extents as a vector.
    pub fn to_vec(&self) -> (out: Vec<usize>)
        ensures
            out@ == self@,
    {
        self.dims.clone()
    }

    /// The extents as a slice.
    pub fn as_slice(&self) -> (out: &[usize])
        ensures
            out@ == self@,
    {
        self.dims.as_slice()
    }

    /// The first `n` extents.
    pub fn take(&self, n: usize) -> (out: Shape)
        requires
            n <= self@.len(),
        ensures
            out@ == self@.take(n as int),
    {
        let mut dims: Vec<usize> = Vec::new();
        let mut i: usize = 0;
        while i < n
            invariant
                i <= n,
                n <= self.dims@.len(),
                dims@ == self.dims@.take(i as int),
            decreases n - i,
        {
            dims.push(self.dims[i]);
            i += 1;
            assert(dims@ =~= self.dims@.take(i as int));
        }
        Shape { dims }
    }

    /// Whether `self` and `other` have the same extents.
    pub fn same(&self, other: &Shape) -> (b: bool)
        ensures
            b == (self@ == other@),
    {
        if self.dims.len() != other.dims.len() {
            return false;
        }
        let mut i: usize = 0;
        while i < self.dims.len()
            invariant
                i <= self.dims.len(),
                self.dims.len() == other.dims.len(),
                forall|k: int| 0 <= k < i ==> self.dims@[k] == other.dims@[k],
            decreases self.dims.len() - i,
        {
            if self.dims[i] != other.dims[i] {
                return false;
            }
            i += 1;
        }
        assert(self.dims@ =~= other.dims@);
        true
    }

    /// Tests whether every suffix product of the extents fits a machine word.
    pub fn fits(&self) -> (b: bool)
        ensures
            b == self.spec_fits(),
    {
        let n = self.dims.len();
        let mut i: usize = n;
        let mut acc: usize = 1;
        assert(self.dims@.skip(n as int) =~= Seq::<usize>::empty());
        while i > 0
            invariant
                n == self.dims.len(),
                i <= n,
                acc == numel_of(self.dims@.skip(i as int)),
                forall|k: int| i <= k <= n ==> #[trigger] numel_of(self.dims@.skip(k)) <= usize::MAX,
            decreases i,
        {
            i -= 1;
            proof {
                lemma_skip_step(self.dims@, i as int);
            }
            match acc.checked_mul(self.dims[i]) {
                Some(p) => {
                    assert(acc * self.dims@[i as int] == self.dims@[i as int] * acc)
                        by (nonlinear_arith);
                    acc = p;
                },
                None => {
                    assert(acc * self.dims@[i as int] == self.dims@[i as int] * acc)
                        by (nonlinear_arith);
                    assert(numel_of(self.dims@.skip(i as int)) > usize::MAX);
                    return false;
                },
            }
        }
        true
    }

    /// The number of elements.
    pub fn numel(&self) -> (n: usize)
        requires
            self.spec_fits(),
        ensures
            n == self.spec_numel(),
    {
        let len = self.dims.len();
        let mut i: usize = len;
        let mut acc: usize = 1;
        assert(self.dims@.skip(len as int) =~= Seq::<usize>::empty());
        while i > 0
            invariant
                len == self.dims.len(),
                i <= len,
                acc == numel_of(self.dims@.skip(i as int)),
                dims_fit(self.dims@),
            decreases i,
        {
            i -= 1;
            proof {
                lemma_skip_step(self.dims@, i as int);
                assert(numel_of(self.dims@.skip(i as int)) <= usize::MAX);
                assert(acc * self.dims@[i as int] == self.dims@[i as int] * acc)
                    by (nonlinear_arith);
            }
            acc = acc * self.dims[i];
        }
        assert(self.dims@.skip(0) =~= self.dims@);
        acc
    }

    /// Puts copies of `fill` in front of the extents until there are `rank`
    /// of them. A shape that already has `rank` or more is left as it is.
    pub fn left_pad_to(&mut self, fill: usize, rank: usize)
        ensures
            final(self)@ == left_padded(old(self)@, fill, rank as nat),
    {
        let n = self.dims.len();
        if n >= rank {
            return;
        }
        let pad = rank - n;
        let mut out: Vec<usize> = Vec::new();
        let mut i: usize = 0;
        while i < pad
            invariant
                i <= pad,
                out@ == Seq::new(i as nat, |k: int| fill),
            decreases pad - i,
        {
            out.push(fill);
            i += 1;
            assert(out@ =~= Seq::new(i as nat, |k: int| fill));
        }
        let mut j: usize = 0;
        while j < n
            invariant
                j <= n,
                n == self.dims.len(),
                self.dims@ == old(self).dims@,
                out@ == Seq::new(pad as nat, |k: int| fill) + self.dims@.take(j as int),
            decreases n - j,
        {
            out.push(self.dims[j]);
            j += 1;
            assert(out@ =~= Seq::new(pad as nat, |k: int| fill) + self.dims@.take(j as int));
        }
        assert(self.dims@.take(n as int) =~= self.dims@);
        self.dims = out;
    }
}

/// The distances, in elements, between neighbours along each dimension.
#[derive(Debug)]
pub struct Strides {
    steps: Vec<usize>,
}

impl View for Strides {
    type V = Seq<usize>;

    closed spec fn view(&self) -> Seq<usize> {
        self.steps@
    }
}

impl Clone for Strides {
    fn clone(&self) -> (out: Self)
        ensures
            out@ == self@,
    {
        Strides { steps: self.steps.clone() }
    }
}

impl Strides {
    /// The strides with the given entries.
    pub fn new(steps: Vec<usize>) -> (out: Strides)
        ensures
            out@ == steps@,
    {
        Strides { steps }
    }

    /// Whether these are the row-major strides of a contiguous tensor with
    /// extents `dims`.
    pub open spec fn canonical_for(&self, dims: Seq<usize>) -> bool {
        &&& self@.len() == dims.len()
        &&& forall|i: int| 0 <= i < dims.len() ==> self@[i] as nat == #[trigger] strides_of(dims)[i]
    }

    /// The row-major strides of a contiguous tensor of the given shape.
    pub fn from(shape: &Shape) -> (out: Strides)
        requires
            shape.spec_fits(),
        ensures
            out.canonical_for(shape@),
            out@ == canonical_strides(shape@),
    {
        let n = shape.len();
        let mut rev: Vec<usize> = Vec::new();
        let mut i: usize = n;
        let mut acc: usize = 1;
        assert(shape@.skip(n as int) =~= Seq::<usize>::empty());
        while i > 0
            invariant
                n == shape@.len(),
                i <= n,
                dims_fit(shape@),
                acc == numel_of(shape@.skip(i as int)),
                rev@.len() == n - i,
                forall|k: int| 0 <= k < rev@.len() ==> rev@[k] as nat == numel_of(
                    #[trigger] shape@.skip(n - k),
                ),
            decreases i,
        {
            rev.push(acc);
            i -= 1;
            proof {
                lemma_skip_step(shape@, i as int);
                assert(numel_of(shape@.skip(i as int)) <= usize::MAX);
                assert(acc * shape@[i as int] == shape@[i as int] * acc) by (nonlinear_arith);
            }
            acc = acc * shape.get(i);
        }
        let mut steps: Vec<usize> = Vec::new();
        let mut j: usize = 0;
        while j < n
            invariant
                j <= n,
                rev@.len() == n,
                n == shape@.len(),
                steps@.len() == j,
                forall|k: int| 0 <= k < n ==> rev@[k] as nat == numel_of(#[trigger] shape@.skip(n - k)),
                forall|k: int| 0 <= k < j ==> steps@[k] as nat == numel_of(#[trigger] shape@.skip(k + 1)),
            decreases n - j,
        {
            let v = rev[n - 1 - j];
            assert(shape@.skip(n - (n - 1 - j)) == shape@.skip(j + 1));
            steps.push(v);
            j += 1;
        }
        assert(steps@ =~= canonical_strides(shape@)) by {
            assert forall|k: int| 0 <= k < n implies steps@[k] == canonical_strides(shape@)[k] by {
                assert(numel_of(shape@.skip(k + 1)) <= usize::MAX);
            }
        }
        Strides { steps }
    }

    /// The number of entries.
    pub fn len(&self) -> (n: usize)
        ensures
            n == self@.len(),
    {
        self.steps.len()
    }

    /// The stride of dimension `i`.
    pub fn get(&self, i: usize) -> (d: usize)
        requires
            i < self@.len(),
        ensures
            d == self@[i as int],
    {
        self.steps[i]
    }

    /// The entries as a vector.
    pub fn to_vec(&self) -> (out: Vec<usize>)
        ensures
            out@ == self@,
    {
        self.steps.clone()
    }
}

} // verus!
