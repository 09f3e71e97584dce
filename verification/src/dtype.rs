//! Element types of tensors.

use vstd::prelude::*;

verus! {

/// The element type of a tensor.
#[derive(Clone, Copy, Debug, PartialEq, Eq, Structural, Hash)]
pub enum DType {
    F32,
    I32,
    U32,
    F16,
}

impl DType {
    /// The size of one element in bytes.
    pub open spec fn spec_size_of(self) -> usize {
        match self {
            DType::F32 => 4,
            DType::I32 => 4,
            DType::U32 => 4,
            DType::F16 => 2,
        }
    }

    /// The size of one element in bytes.
    #[verifier::when_used_as_spec(spec_size_of)]
    pub fn size_of(self) -> (n: usize)
        ensures
            n == self.spec_size_of(),
    {
        match self {
            DType::F32 => 4,
            DType::I32 => 4,
            DType::U32 => 4,
            DType::F16 => 2,
        }
    }

    /// The alignment of one element in bytes; every element type is aligned
    /// to its own size.
    pub open spec fn spec_align_of(self) -> usize {
        self.spec_size_of()
    }

    /// The alignment of one element in bytes.
    #[verifier::when_used_as_spec(spec_align_of)]
    pub fn align_of(self) -> (n: usize)
        ensures
            n == self.spec_align_of(),
    {
        self.size_of()
    }
}

} // verus!
