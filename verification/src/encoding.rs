//! Classifying the text encoding of a file from its first bytes, and
//! decoding bytes under the encoding found.

use vstd::prelude::*;
use vstd::slice::slice_subrange;
use vstd::utf8::valid_utf8;

verus! {

/// The encodings that detection tells apart.
#[derive(Debug, Clone, Copy, PartialEq, Eq, Structural)]
pub enum EncodingLabel {
    Utf8,
    ShiftJis,
}

/// Number of leading bytes that detection looks at.
pub const SAMPLE_LIMIT: usize = 8192;

/// Longest input, in bytes, that is handed to the decoder: a quarter of the
/// address space, so that the decoder's buffer sizes cannot overflow.
pub const MAX_DECODE_LEN: usize = usize::MAX / 4;

/// The part of the bytes that detection looks at: the first `SAMPLE_LIMIT`
/// of them, or all where there are fewer.
pub open spec fn sample(bytes: Seq<u8>) -> Seq<u8> {
    if bytes.len() <= SAMPLE_LIMIT {
        bytes
    } else {
        bytes.take(SAMPLE_LIMIT as int)
    }
}

/// Whether the bytes begin with the UTF-8 byte-order mark `EF BB BF`.
pub open spec fn has_bom(bytes: Seq<u8>) -> bool {
    bytes.len() >= 3 && bytes[0] == 0xEF && bytes[1] == 0xBB && bytes[2] == 0xBF
}

/// Whether every byte has its high bit clear.
pub open spec fn is_seven_bit(bytes: Seq<u8>) -> bool {
    forall|i: int| 0 <= i < bytes.len() ==> bytes[i] < 0x80
}

/// The label of a byte prefix: UTF-8 where it begins with the byte-order
/// mark, where it is pure 7-bit, or where it is well-formed UTF-8; else
/// Shift-JIS.
pub open spec fn classify(prefix: Seq<u8>) -> EncodingLabel {
    if has_bom(prefix) || is_seven_bit(prefix) || valid_utf8(prefix) {
        EncodingLabel::Utf8
    } else {
        EncodingLabel::ShiftJis
    }
}

/// The label that detection gives to a file's bytes.
pub open spec fn detected(bytes: Seq<u8>) -> EncodingLabel {
    classify(sample(bytes))
}

/// The text that decoding `bytes` under `label` gives: a leading byte-order
/// mark selects the encoding it stands for and is left out, and every
/// malformed sequence becomes the replacement character.
pub uninterp spec fn decoded_text(label: EncodingLabel, bytes: Seq<u8>) -> Seq<char>;

/// `core::str::from_utf8` succeeds exactly on well-formed UTF-8.
#[verifier::external_body]
fn is_utf8(bytes: &[u8]) -> (ok: bool)
    ensures
        ok == valid_utf8(bytes@),
{
    std::str::from_utf8(bytes).is_ok()
}

/// `encoding_rs::Encoding::decode`, on `UTF_8` or `SHIFT_JIS` as the label
/// says: the text depends on the label and the bytes alone. The bound keeps
/// the decoder's buffer-size computation, which panics on overflow, in range.
#[verifier::external_body]
fn decode_bytes(label: EncodingLabel, bytes: &[u8]) -> (text: String)
    requires
        bytes@.len() <= MAX_DECODE_LEN,
    ensures
        text@ == decoded_text(label, bytes@),
{
    let encoding = match label {
        EncodingLabel::Utf8 => encoding_rs::UTF_8,
        EncodingLabel::ShiftJis => encoding_rs::SHIFT_JIS,
    };
    encoding.decode(bytes).0.into_owned()
}

fn starts_with_bom(bytes: &[u8]) -> (b: bool)
    ensures
        b == has_bom(bytes@),
{
    bytes.len() >= 3 && bytes[0] == 0xEF && bytes[1] == 0xBB && bytes[2] == 0xBF
}

fn all_seven_bit(bytes: &[u8]) -> (b: bool)
    ensures
        b == is_seven_bit(bytes@),
{
    let mut i: usize = 0;
    while i < bytes.len()
        invariant
            i <= bytes.len(),
            forall|k: int| 0 <= k < i ==> bytes@[k] < 0x80,
        decreases bytes.len() - i,
    {
        if bytes[i] >= 0x80 {
            return false;
        }
        i += 1;
    }
    true
}

/// Classifies the encoding of a file from its leading bytes. Only the first
/// `SAMPLE_LIMIT` bytes are looked at. A byte-order mark decides for UTF-8;
/// so does a sample without any high bit, and one that is well-formed UTF-8.
/// Anything else is taken for Shift-JIS.
pub fn detect_encoding(bytes: &[u8]) -> (label: EncodingLabel)
    ensures
        label == detected(bytes@),
        has_bom(bytes@) ==> label == EncodingLabel::Utf8,
        is_seven_bit(bytes@) ==> label == EncodingLabel::Utf8,
{
    let prefix = if bytes.len() <= SAMPLE_LIMIT {
        bytes
    } else {
        slice_subrange(bytes, 0, SAMPLE_LIMIT)
    };
    assert(prefix@ == sample(bytes@));
    proof {
        lemma_bom_survives_sampling(bytes@);
        lemma_seven_bit_survives_sampling(bytes@);
    }
    if starts_with_bom(prefix) {
        EncodingLabel::Utf8
    } else if all_seven_bit(prefix) {
        EncodingLabel::Utf8
    } else if is_utf8(prefix) {
        EncodingLabel::Utf8
    } else {
        EncodingLabel::ShiftJis
    }
}

/// Decodes `bytes` under `label`. Malformed sequences are replaced, never
/// rejected; only an input longer than `MAX_DECODE_LEN` is turned away.
pub fn decode(label: EncodingLabel, bytes: &[u8]) -> (text: Option<String>)
    ensures
        match text {
            Some(t) => bytes@.len() <= MAX_DECODE_LEN && t@ == decoded_text(label, bytes@),
            None => bytes@.len() > MAX_DECODE_LEN,
        },
{
    if bytes.len() <= MAX_DECODE_LEN {
        Some(decode_bytes(label, bytes))
    } else {
        None
    }
}

/// The sample begins with the byte-order mark exactly where the bytes do.
pub proof fn lemma_bom_survives_sampling(bytes: Seq<u8>)
    ensures
        has_bom(sample(bytes)) == has_bom(bytes),
{
}

/// The sample of 7-bit bytes is 7-bit.
pub proof fn lemma_seven_bit_survives_sampling(bytes: Seq<u8>)
    ensures
        is_seven_bit(bytes) ==> is_seven_bit(sample(bytes)),
{
}

/// Bytes that begin with `EF BB BF` are labelled UTF-8, whatever follows.
pub proof fn lemma_bom_is_utf8(bytes: Seq<u8>)
    requires
        has_bom(bytes),
    ensures
        detected(bytes) == EncodingLabel::Utf8,
{
    lemma_bom_survives_sampling(bytes);
}

/// Pure 7-bit bytes are labelled UTF-8; so are no bytes at all.
pub proof fn lemma_seven_bit_is_utf8(bytes: Seq<u8>)
    requires
        is_seven_bit(bytes),
    ensures
        detected(bytes) == EncodingLabel::Utf8,
{
    lemma_seven_bit_survives_sampling(bytes);
}

} // verus!
