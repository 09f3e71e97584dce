//! The hyperparameters of a speech model, as they stand in a model file:
//! eleven 32-bit integers, little-endian, one after the other.

use byteorder::{ByteOrder, LittleEndian};
use vstd::bytes::{
    lemma_auto_spec_u32_to_from_le_bytes, spec_u32_from_le_bytes, spec_u32_to_le_bytes,
};
use vstd::prelude::*;
use vstd::slice::slice_subrange;

verus! {

/// The number of bytes that the hyperparameters fill in a file.
pub const HYPERPARAMETERS_LEN: usize = 44;

/// The size of the vocabulary of the multilingual models of the second
/// generation, and the smallest of any multilingual model.
pub const MULTILINGUAL_VOCAB: i32 = 51865;

/// The first token that names a language.
pub const LANGUAGES_BEGIN: u32 = 50259;

/// The four bytes of `n`, the least significant first.
pub open spec fn i32_to_le(n: i32) -> Seq<u8> {
    spec_u32_to_le_bytes(n as u32)
}

/// The integer whose four bytes are `bytes`, the least significant first.
pub open spec fn i32_from_le(bytes: Seq<u8>) -> i32 {
    spec_u32_from_le_bytes(bytes) as i32
}

/// The integer that stands at place `k` of a sequence of little-endian
/// 32-bit integers.
pub open spec fn field_at(bytes: Seq<u8>, k: int) -> i32 {
    i32_from_le(bytes.subrange(4 * k, 4 * k + 4))
}

/// Writing an integer and reading it again gives the integer.
pub proof fn lemma_i32_round_trip(n: i32)
    ensures
        i32_to_le(n).len() == 4,
        i32_from_le(i32_to_le(n)) == n,
{
    lemma_auto_spec_u32_to_from_le_bytes();
    let u = n as u32;
    assert(spec_u32_to_le_bytes(u).len() == 4);
    assert(spec_u32_from_le_bytes(spec_u32_to_le_bytes(u)) == u);
    assert(((n as u32) as i32) == n) by (bit_vector);
}

/// The integer that the first four bytes of `buf` hold, the least
/// significant byte first.
///
/// Calls `byteorder::LittleEndian::read_i32`, which reads the first four
/// bytes of the slice as a little-endian `u32`, casts it to `i32`, and panics
/// on a shorter slice.
#[verifier::external_body]
fn read_i32(buf: &[u8]) -> (out: i32)
    requires
        buf@.len() >= 4,
    ensures
        out == i32_from_le(buf@.subrange(0, 4)),
{
    LittleEndian::read_i32(buf)
}

/// The four bytes of `n`, the least significant first.
///
/// Calls `byteorder::LittleEndian::write_i32` on a buffer of four bytes, which
/// it fills with the little-endian bytes of `n` cast to `u32`.
#[verifier::external_body]
fn write_i32(n: i32) -> (out: Vec<u8>)
    ensures
        out@ == i32_to_le(n),
{
    let mut buf = vec![0u8; 4];
    LittleEndian::write_i32(&mut buf, n);
    buf
}

/// The number of values of the mel filters of a header that gives `n_mel`
/// filters of `n_fft` values each: their product, none where it is negative,
/// and `None` where it does not fit 32 bits.
pub open spec fn spec_mel_count(n_mel: i32, n_fft: i32) -> Option<usize> {
    let product = n_mel as int * n_fft as int;
    if product < i32::MIN || product > i32::MAX {
        None
    } else if product < 0 {
        Some(0usize)
    } else {
        Some(product as usize)
    }
}

/// The number of values of the mel filters of a header.
pub fn mel_count(n_mel: i32, n_fft: i32) -> (out: Option<usize>)
    ensures
        out == spec_mel_count(n_mel, n_fft),
{
    match n_mel.checked_mul(n_fft) {
        None => None,
        Some(product) => if product < 0 {
            Some(0)
        } else {
            Some(product as usize)
        },
    }
}

/// The number of tokens that follow a header that gives `n_tokens`: none
/// where the number is negative.
pub fn token_count(n_tokens: i32) -> (out: usize)
    ensures
        out == if n_tokens < 0 {
            0
        } else {
            n_tokens as int
        },
{
    if n_tokens < 0 {
        0
    } else {
        n_tokens as usize
    }
}

/// Why a header could not be read.
#[derive(Clone, Copy, Debug, PartialEq, Eq, Structural)]
pub enum HeaderError {
    /// The bytes end before the header does.
    UnexpectedEof,
}

/// The hyperparameters of a model.
#[derive(Debug, Clone, Copy, PartialEq, Eq, Structural)]
pub struct HyperParameters {
    pub n_vocab: i32,
    pub n_audio_ctx: i32,
    pub n_audio_state: i32,
    pub n_audio_head: i32,
    pub n_audio_layer: i32,
    pub n_text_ctx: i32,
    pub n_text_state: i32,
    pub n_text_head: i32,
    pub n_text_layer: i32,
    pub n_mels: i32,
    pub ftype: i32,
}

impl HyperParameters {
    /// The hyperparameters that the first 44 of `bytes` hold.
    pub open spec fn spec_read(bytes: Seq<u8>) -> HyperParameters {
        HyperParameters {
            n_vocab: field_at(bytes, 0),
            n_audio_ctx: field_at(bytes, 1),
            n_audio_state: field_at(bytes, 2),
            n_audio_head: field_at(bytes, 3),
            n_audio_layer: field_at(bytes, 4),
            n_text_ctx: field_at(bytes, 5),
            n_text_state: field_at(bytes, 6),
            n_text_head: field_at(bytes, 7),
            n_text_layer: field_at(bytes, 8),
            n_mels: field_at(bytes, 9),
            ftype: field_at(bytes, 10),
        }
    }

    /// The 44 bytes of the hyperparameters as they stand in a file.
    pub open spec fn spec_bytes(self) -> Seq<u8> {
        i32_to_le(self.n_vocab) + i32_to_le(self.n_audio_ctx) + i32_to_le(self.n_audio_state)
            + i32_to_le(self.n_audio_head) + i32_to_le(self.n_audio_layer) + i32_to_le(
            self.n_text_ctx,
        ) + i32_to_le(self.n_text_state) + i32_to_le(self.n_text_head) + i32_to_le(
            self.n_text_layer,
        ) + i32_to_le(self.n_mels) + i32_to_le(self.ftype)
    }

    /// Whether the model knows more languages than English.
    pub open spec fn spec_is_multilingual(&self) -> bool {
        self.n_vocab >= MULTILINGUAL_VOCAB
    }

    /// The token behind the last language token, for the sizes of
    /// vocabulary that have language tokens.
    pub open spec fn spec_languages_end(&self) -> Option<u32> {
        if self.n_vocab == 51865 {
            Some(50358u32)
        } else if self.n_vocab == 51866 {
            Some(50359u32)
        } else {
            None
        }
    }

    fn field(bytes: &[u8], k: usize) -> (out: i32)
        requires
            k < 11,
            bytes@.len() >= HYPERPARAMETERS_LEN,
        ensures
            out == field_at(bytes@, k as int),
    {
        let part = slice_subrange(bytes, 4 * k, 4 * k + 4);
        assert(part@.subrange(0, 4) =~= bytes@.subrange(4 * k, 4 * k + 4));
        read_i32(part)
    }

    /// Reads the hyperparameters from the start of `bytes`. Fails where there
    /// are fewer than 44 bytes.
    pub fn read(bytes: &[u8]) -> (out: Result<HyperParameters, HeaderError>)
        ensures
            match out {
                Ok(h) => bytes@.len() >= HYPERPARAMETERS_LEN && h == Self::spec_read(bytes@),
                Err(e) => bytes@.len() < HYPERPARAMETERS_LEN && e == HeaderError::UnexpectedEof,
            },
    {
        if bytes.len() < HYPERPARAMETERS_LEN {
            return Err(HeaderError::UnexpectedEof);
        }
        Ok(
            HyperParameters {
                n_vocab: Self::field(bytes, 0),
                n_audio_ctx: Self::field(bytes, 1),
                n_audio_state: Self::field(bytes, 2),
                n_audio_head: Self::field(bytes, 3),
                n_audio_layer: Self::field(bytes, 4),
                n_text_ctx: Self::field(bytes, 5),
                n_text_state: Self::field(bytes, 6),
                n_text_head: Self::field(bytes, 7),
                n_text_layer: Self::field(bytes, 8),
                n_mels: Self::field(bytes, 9),
                ftype: Self::field(bytes, 10),
            },
        )
    }

    /// Appends the hyperparameters to `out` as they stand in a file.
    pub fn write(&self, out: &mut Vec<u8>)
        ensures
            final(out)@ == old(out)@ + self.spec_bytes(),
    {
        let ghost start = out@;
        let mut a = write_i32(self.n_vocab);
        out.append(&mut a);
        let mut a = write_i32(self.n_audio_ctx);
        out.append(&mut a);
        let mut a = write_i32(self.n_audio_state);
        out.append(&mut a);
        let mut a = write_i32(self.n_audio_head);
        out.append(&mut a);
        let mut a = write_i32(self.n_audio_layer);
        out.append(&mut a);
        let mut a = write_i32(self.n_text_ctx);
        out.append(&mut a);
        let mut a = write_i32(self.n_text_state);
        out.append(&mut a);
        let mut a = write_i32(self.n_text_head);
        out.append(&mut a);
        let mut a = write_i32(self.n_text_layer);
        out.append(&mut a);
        let mut a = write_i32(self.n_mels);
        out.append(&mut a);
        let mut a = write_i32(self.ftype);
        out.append(&mut a);
        assert(out@ =~= start + self.spec_bytes());
    }

    /// The tokens that name languages: from the first of them up to, and
    /// without, the token behind the last; `None` for a size of vocabulary
    /// that has no language tokens.
    pub fn language_tokens(&self) -> (out: Option<(u32, u32)>)
        ensures
            out == match self.spec_languages_end() {
                Some(end) => Some((LANGUAGES_BEGIN, end)),
                None => None,
            },
    {
        match self.languages_end() {
            Some(end) => Some((LANGUAGES_BEGIN, end)),
            None => None,
        }
    }

    /// Whether the model knows more languages than English.
    pub fn is_multilingual(&self) -> (b: bool)
        ensures
            b == self.spec_is_multilingual(),
    {
        self.n_vocab >= MULTILINGUAL_VOCAB
    }

    /// The token behind the last language token, or `None` for a size of
    /// vocabulary that has no language tokens.
    pub fn languages_end(&self) -> (out: Option<u32>)
        ensures
            out == self.spec_languages_end(),
    {
        if self.n_vocab == 51865 {
            Some(50358)
        } else if self.n_vocab == 51866 {
            Some(50359)
        } else {
            None
        }
    }
}

/// What is written is what is read: the bytes of hyperparameters are 44, and
/// reading them gives the hyperparameters.
pub proof fn lemma_hyperparameters_round_trip(h: HyperParameters, rest: Seq<u8>)
    ensures
        h.spec_bytes().len() == HYPERPARAMETERS_LEN,
        HyperParameters::spec_read(h.spec_bytes() + rest) == h,
{
    lemma_i32_round_trip(h.n_vocab);
    lemma_i32_round_trip(h.n_audio_ctx);
    lemma_i32_round_trip(h.n_audio_state);
    lemma_i32_round_trip(h.n_audio_head);
    lemma_i32_round_trip(h.n_audio_layer);
    lemma_i32_round_trip(h.n_text_ctx);
    lemma_i32_round_trip(h.n_text_state);
    lemma_i32_round_trip(h.n_text_head);
    lemma_i32_round_trip(h.n_text_layer);
    lemma_i32_round_trip(h.n_mels);
    lemma_i32_round_trip(h.ftype);
    let all = h.spec_bytes() + rest;
    assert(all.subrange(0, 4) =~= i32_to_le(h.n_vocab));
    assert(all.subrange(4, 8) =~= i32_to_le(h.n_audio_ctx));
    assert(all.subrange(8, 12) =~= i32_to_le(h.n_audio_state));
    assert(all.subrange(12, 16) =~= i32_to_le(h.n_audio_head));
    assert(all.subrange(16, 20) =~= i32_to_le(h.n_audio_layer));
    assert(all.subrange(20, 24) =~= i32_to_le(h.n_text_ctx));
    assert(all.subrange(24, 28) =~= i32_to_le(h.n_text_state));
    assert(all.subrange(28, 32) =~= i32_to_le(h.n_text_head));
    assert(all.subrange(32, 36) =~= i32_to_le(h.n_text_layer));
    assert(all.subrange(36, 40) =~= i32_to_le(h.n_mels));
    assert(all.subrange(40, 44) =~= i32_to_le(h.ftype));
}

} // verus!
