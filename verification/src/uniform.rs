//! The parameter records of kernels and the staging area they are written to.
//!
//! A record is a struct in the uniform address space of the shading language:
//! a 32-bit scalar is aligned to 4 bytes, a vector of four to 16, every member
//! stands at the next offset that its alignment allows, and the struct ends at
//! a multiple of its largest alignment. All integers are little-endian, and
//! the gaps are zero.

use vstd::bytes::{spec_u32_to_le_bytes, u32_to_le_bytes};
use vstd::prelude::*;
use crate::error::OperationError;

verus! {

/// The distance between two records in the staging area: the alignment that
/// a device asks of a dynamic offset into a uniform buffer.
pub const UNIFORM_ALIGN: usize = 256;

/// One member of a parameter record.
#[derive(Clone, Copy, Debug, PartialEq, Eq, Structural)]
pub enum MetaField {
    /// A 32-bit unsigned scalar.
    Scalar(u32),
    /// A vector of four 32-bit unsigned lanes.
    Vec4(u32, u32, u32, u32),
}

impl MetaField {
    /// The alignment of the member in bytes.
    pub open spec fn align(self) -> nat {
        match self {
            MetaField::Scalar(_) => 4,
            MetaField::Vec4(_, _, _, _) => 16,
        }
    }

    /// The bytes of the member.
    pub open spec fn bytes(self) -> Seq<u8> {
        match self {
            MetaField::Scalar(x) => spec_u32_to_le_bytes(x),
            MetaField::Vec4(a, b, c, d) => spec_u32_to_le_bytes(a) + spec_u32_to_le_bytes(b)
                + spec_u32_to_le_bytes(c) + spec_u32_to_le_bytes(d),
        }
    }
}

/// A vector of four 32-bit unsigned lanes.
#[derive(Clone, Copy, Debug, PartialEq, Eq, Structural)]
pub struct UVec4 {
    pub x: u32,
    pub y: u32,
    pub z: u32,
    pub w: u32,
}

impl UVec4 {
    /// The vector as a member of a parameter record.
    pub open spec fn spec_field(self) -> MetaField {
        MetaField::Vec4(self.x, self.y, self.z, self.w)
    }

    /// The vector as a member of a parameter record.
    #[verifier::when_used_as_spec(spec_field)]
    pub fn field(self) -> (f: MetaField)
        ensures
            f == self.spec_field(),
    {
        MetaField::Vec4(self.x, self.y, self.z, self.w)
    }
}

/// `n` zero bytes.
pub open spec fn zeros(n: nat) -> Seq<u8> {
    Seq::new(n, |i: int| 0u8)
}

/// The least multiple of `align` that is not below `n`.
pub open spec fn round_up(n: nat, align: nat) -> nat
    recommends
        align > 0,
{
    if n % align == 0 {
        n
    } else {
        (n + align - n % align) as nat
    }
}

/// `bytes` followed by zeros up to the next multiple of `align`.
pub open spec fn padded(bytes: Seq<u8>, align: nat) -> Seq<u8> {
    bytes + zeros((round_up(bytes.len(), align) - bytes.len()) as nat)
}

/// The members `fields` laid out one after the other behind `acc`.
pub open spec fn laid_out(fields: Seq<MetaField>, acc: Seq<u8>) -> Seq<u8>
    decreases fields.len(),
{
    if fields.len() == 0 {
        acc
    } else {
        laid_out(fields.skip(1), padded(acc, fields[0].align()) + fields[0].bytes())
    }
}

/// The alignment of a record: the largest alignment among its members.
pub open spec fn record_align(fields: Seq<MetaField>) -> nat {
    if exists|i: int| 0 <= i < fields.len() && fields[i] is Vec4 {
        16
    } else {
        4
    }
}

/// The bytes of the record with members `fields`.
pub open spec fn record_bytes(fields: Seq<MetaField>) -> Seq<u8> {
    padded(laid_out(fields, Seq::empty()), record_align(fields))
}

/// Appends zeros to `out` until its length is a multiple of `align`.
fn pad_to(out: &mut Vec<u8>, align: usize)
    requires
        align == 4 || align == 16,
    ensures
        final(out)@ == padded(old(out)@, align as nat),
{
    let ghost start = out@;
    let rem = out.len() % align;
    let pad = if rem == 0 {
        0
    } else {
        align - rem
    };
    let mut k: usize = 0;
    while k < pad
        invariant
            k <= pad,
            out@ == start + zeros(k as nat),
        decreases pad - k,
    {
        out.push(0u8);
        k += 1;
        assert(out@ =~= start + zeros(k as nat));
    }
}

/// Appends the little-endian bytes of `x` to `out`.
fn push_u32(out: &mut Vec<u8>, x: u32)
    ensures
        final(out)@ == old(out)@ + spec_u32_to_le_bytes(x),
{
    let mut bytes = u32_to_le_bytes(x);
    out.append(&mut bytes);
}

/// The bytes of the record with members `fields`.
pub fn pack(fields: &Vec<MetaField>) -> (out: Vec<u8>)
    ensures
        out@ == record_bytes(fields@),
{
    let mut out: Vec<u8> = Vec::new();
    let mut wide = false;
    let n = fields.len();
    let mut i: usize = 0;
    assert(fields@.skip(0) =~= fields@);
    while i < n
        invariant
            i <= n,
            n == fields@.len(),
            laid_out(fields@, Seq::empty()) == laid_out(fields@.skip(i as int), out@),
            wide <==> exists|k: int| 0 <= k < i && fields@[k] is Vec4,
        decreases n - i,
    {
        let ghost rest = fields@.skip(i as int);
        assert(rest.skip(1) =~= fields@.skip(i + 1));
        assert(rest[0] == fields@[i as int]);
        match fields[i] {
            MetaField::Scalar(x) => {
                pad_to(&mut out, 4);
                push_u32(&mut out, x);
            },
            MetaField::Vec4(a, b, c, d) => {
                pad_to(&mut out, 16);
                let ghost base = out@;
                push_u32(&mut out, a);
                push_u32(&mut out, b);
                push_u32(&mut out, c);
                push_u32(&mut out, d);
                assert(out@ =~= base + fields@[i as int].bytes());
                wide = true;
            },
        }
        i += 1;
    }
    if wide {
        pad_to(&mut out, 16);
    } else {
        pad_to(&mut out, 4);
    }
    out
}

/// The staging area for the parameter records of one batch of dispatches.
/// Each record starts at a multiple of `UNIFORM_ALIGN`, so that a dispatch
/// can reach its record through a dynamic offset.
pub struct CpuUniform {
    data: Vec<u8>,
    offset: usize,
}

impl View for CpuUniform {
    type V = Seq<u8>;

    closed spec fn view(&self) -> Seq<u8> {
        self.data@
    }
}

impl CpuUniform {
    /// Where the next record will start.
    pub closed spec fn next_offset(&self) -> nat {
        self.offset as nat
    }

    /// The next record starts at a multiple of the alignment, behind all that
    /// was written, and within the reach of a dynamic offset.
    pub open spec fn wf(&self) -> bool {
        &&& self@.len() <= self.next_offset()
        &&& self.next_offset() % (UNIFORM_ALIGN as nat) == 0
        &&& self.next_offset() <= u32::MAX
    }

    /// Whether a record of `len` bytes still has room.
    pub open spec fn has_room(&self, len: nat) -> bool {
        self.next_offset() + round_up(len, UNIFORM_ALIGN as nat) <= u32::MAX
    }

    /// An empty staging area.
    pub fn new() -> (out: CpuUniform)
        ensures
            out.wf(),
            out@ == Seq::<u8>::empty(),
            out.next_offset() == 0,
    {
        CpuUniform { data: Vec::new(), offset: 0 }
    }

    /// The start of the next record.
    pub fn offset(&self) -> (n: usize)
        ensures
            n == self.next_offset(),
    {
        self.offset
    }

    /// The bytes written so far.
    pub fn as_bytes(&self) -> (out: &[u8])
        ensures
            out@ == self@,
    {
        self.data.as_slice()
    }

    /// The bytes written so far, taken out of the staging area.
    pub fn into_bytes(self) -> (out: Vec<u8>)
        ensures
            out@ == self@,
    {
        self.data
    }

    /// Writes the record with members `fields` at the next aligned offset and
    /// returns that offset. The gap behind the record before it is filled
    /// with zeros. Fails, and writes nothing, where the record has no room.
    pub fn write(&mut self, fields: &Vec<MetaField>) -> (out: Result<u64, OperationError>)
        requires
            old(self).wf(),
        ensures
            final(self).wf(),
            match out {
                Ok(at) => {
                    &&& old(self).has_room(record_bytes(fields@).len())
                    &&& at == old(self).next_offset()
                    &&& final(self)@ == old(self)@ + zeros((at - old(self)@.len()) as nat)
                        + record_bytes(fields@)
                    &&& final(self).next_offset() == at + round_up(
                        record_bytes(fields@).len(),
                        UNIFORM_ALIGN as nat,
                    )
                },
                Err(e) => {
                    &&& !old(self).has_room(record_bytes(fields@).len())
                    &&& e == OperationError::UniformOverflow
                    &&& final(self)@ == old(self)@
                    &&& final(self).next_offset() == old(self).next_offset()
                },
            },
    {
        let mut record = pack(fields);
        let len = record.len();
        if len > 0xffff_ff00 {
            return Err(OperationError::UniformOverflow);
        }
        let rem = len % UNIFORM_ALIGN;
        let span: u64 = if rem == 0 {
            len as u64
        } else {
            (len - rem + UNIFORM_ALIGN) as u64
        };
        if self.offset as u64 + span > 0xffff_ffff {
            return Err(OperationError::UniformOverflow);
        }
        let at = self.offset;
        let ghost before = self.data@;
        while self.data.len() < at
            invariant
                self.offset == at,
                before.len() <= self.data@.len() <= at,
                self.data@ == before + zeros((self.data@.len() - before.len()) as nat),
            decreases at - self.data@.len(),
        {
            self.data.push(0u8);
            assert(self.data@ =~= before + zeros((self.data@.len() - before.len()) as nat));
        }
        self.data.append(&mut record);
        self.offset = at + span as usize;
        Ok(at as u64)
    }
}

} // verus!
