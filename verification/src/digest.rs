//! SHA-256 digests and hexadecimal text.

use vstd::prelude::*;

verus! {

/// The number of bytes in a SHA-256 digest.
pub const DIGEST_LENGTH: usize = 32;

/// The lower-case hexadecimal digit for `d`.
pub open spec fn hex_digit(d: int) -> char
    recommends
        0 <= d < 16,
{
    if d < 10 {
        (48 + d) as char
    } else {
        (87 + d) as char
    }
}

/// `bytes` in lower-case hexadecimal: two digits a byte, the high one first.
pub open spec fn hex_text(bytes: Seq<u8>) -> Seq<char> {
    Seq::new(
        2 * bytes.len(),
        |i: int|
            if i % 2 == 0 {
                hex_digit(bytes[i / 2] as int / 16)
            } else {
                hex_digit(bytes[i / 2] as int % 16)
            },
    )
}

/// The SHA-256 digest of `data`, as `sha2::Sha256::digest` computes it.
pub uninterp spec fn sha256(data: Seq<u8>) -> Seq<u8>;

/// Calls `hex::encode`. Claimed: the text is `data` in lower-case hexadecimal.
/// The text has to fit in a `String`, which the bound on `data` sees to.
#[verifier::external_body]
pub(crate) fn hex_encode(data: &[u8]) -> (text: String)
    requires
        2 * data@.len() <= isize::MAX,
    ensures
        text@ == hex_text(data@),
{
    hex::encode(data)
}

/// Calls `sha2::Sha256::digest`. Claimed: the result depends on `data` alone,
/// and has 32 bytes. The digest counts the bits of `data` in a `u64`, so their
/// number has to fit.
#[verifier::external_body]
pub(crate) fn sha256_digest(data: &[u8]) -> (digest: Vec<u8>)
    requires
        8 * data@.len() <= u64::MAX,
    ensures
        digest@ == sha256(data@),
        digest@.len() == DIGEST_LENGTH,
{
    <sha2::Sha256 as sha2::Digest>::digest(data).to_vec()
}

/// `data` is short enough for its hexadecimal text and its digest.
pub open spec fn is_digestible(data: Seq<u8>) -> bool {
    &&& 2 * data.len() <= isize::MAX
    &&& 8 * data.len() <= u64::MAX
}

/// `text` is hexadecimal in lower case.
pub open spec fn is_hex_text(text: Seq<char>) -> bool {
    forall|i: int|
        0 <= i < text.len() ==> ('0' <= #[trigger] text[i] <= '9' || 'a' <= text[i] <= 'f')
}

/// The digits of hexadecimal text.
pub proof fn lemma_hex_text(bytes: Seq<u8>)
    ensures
        hex_text(bytes).len() == 2 * bytes.len(),
        is_hex_text(hex_text(bytes)),
{
}

/// The value of the lower-case hexadecimal digit `digit`.
pub open spec fn hex_value(digit: char) -> int {
    if digit <= '9' {
        digit as int - 48
    } else {
        digit as int - 87
    }
}

/// The bytes that the lower-case hexadecimal text `text` spells, two digits a
/// byte, the high one first.
pub open spec fn hex_bytes(text: Seq<char>) -> Seq<u8> {
    Seq::new(
        text.len() / 2,
        |i: int| (16 * hex_value(text[2 * i]) + hex_value(text[2 * i + 1])) as u8,
    )
}

/// Hexadecimal text spells the bytes it was made from.
pub proof fn lemma_hex_bytes(bytes: Seq<u8>)
    ensures
        hex_bytes(hex_text(bytes)) == bytes,
{
    let text = hex_text(bytes);
    assert(text.len() == 2 * bytes.len());
    assert forall|i: int| 0 <= i < bytes.len() implies hex_bytes(text)[i] == bytes[i] by {
        assert(text[2 * i] == hex_digit(bytes[i] as int / 16));
        assert(text[2 * i + 1] == hex_digit(bytes[i] as int % 16));
    }
    assert(hex_bytes(text) =~= bytes);
}

/// Different bytes have different hexadecimal texts.
pub proof fn lemma_hex_text_injective(a: Seq<u8>, b: Seq<u8>)
    requires
        hex_text(a) == hex_text(b),
    ensures
        a == b,
{
    lemma_hex_bytes(a);
    lemma_hex_bytes(b);
}

} // verus!
