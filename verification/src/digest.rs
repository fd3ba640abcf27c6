//! Checksums, and bytes as hexadecimal text.
use crate::text::{bytes_are_written_differently, hex_byte};
use sha2::Digest;
use vstd::prelude::*;

verus! {

/// Bytes as lower-case hexadecimal digits, two for each byte.
pub open spec fn hex_text(bytes: Seq<u8>) -> Seq<char>
    decreases bytes.len(),
{
    if bytes.len() == 0 {
        Seq::empty()
    } else {
        hex_text(bytes.drop_last()) + hex_byte(bytes.last())
    }
}

/// `hex::encode` writes each byte as two lower-case hexadecimal digits, the
/// higher half of the byte first.
#[verifier::external_body]
pub(crate) fn hex_encode(bytes: &[u8]) -> (out: String)
    ensures
        out@ == hex_text(bytes@),
{
    hex::encode(bytes)
}

/// The SHA-256 digest of bytes, as `sha2::Sha256::digest` computes it.
pub uninterp spec fn sha256(bytes: Seq<u8>) -> Seq<u8>;

/// `sha2::Sha256::digest` computes the digest of its argument, which has 32
/// bytes.
#[verifier::external_body]
pub(crate) fn sha256_digest(bytes: &[u8]) -> (out: Vec<u8>)
    ensures
        out@ == sha256(bytes@),
        out@.len() == 32,
{
    sha2::Sha256::digest(bytes).to_vec()
}

/// The CRC-32 checksum of bytes, as `crc32fast::hash` computes it.
pub uninterp spec fn crc32(bytes: Seq<u8>) -> u32;

/// `crc32fast::hash` computes the checksum of its argument.
#[verifier::external_body]
pub(crate) fn crc32_hash(bytes: &[u8]) -> (out: u32)
    ensures
        out == crc32(bytes@),
{
    crc32fast::hash(bytes)
}

/// The SHA-256 digest of bytes, in hexadecimal.
pub fn sha256_hex(bytes: &[u8]) -> (out: String)
    ensures
        out@ == hex_text(sha256(bytes@)),
{
    let digest = sha256_digest(bytes);
    hex_encode(digest.as_slice())
}

/// A number of 32 bits as eight hexadecimal digits.
pub open spec fn hex_word(n: u32) -> Seq<char> {
    hex_byte((n / 0x100_0000) as u8) + hex_byte((n / 0x1_0000 % 0x100) as u8) + hex_byte(
        (n / 0x100 % 0x100) as u8,
    ) + hex_byte((n % 0x100) as u8)
}

/// The CRC-32 checksum of a frame, as eight hexadecimal digits.
pub fn frame_crc32(data: &[u8]) -> (out: String)
    ensures
        out@ == hex_word(crc32(data@)),
{
    hex_word_text(crc32_hash(data))
}

/// `n` as eight hexadecimal digits.
pub fn hex_word_text(n: u32) -> (out: String)
    ensures
        out@ == hex_word(n),
{
    let a = crate::text::hex_byte_text((n / 0x100_0000) as u8);
    let b = crate::text::hex_byte_text((n / 0x1_0000 % 0x100) as u8);
    let c = crate::text::hex_byte_text((n / 0x100 % 0x100) as u8);
    let d = crate::text::hex_byte_text((n % 0x100) as u8);
    crate::text::cat4(a.as_str(), b.as_str(), c.as_str(), d.as_str())
}

// ── Laws ─────────────────────────────────────────────────────────────────────

/// Bytes are written in hexadecimal one after the other, in two digits each, and
/// different bytes are written differently.
pub proof fn bytes_are_written_one_after_the_other(a: Seq<u8>, b: Seq<u8>)
    ensures
        hex_text(a).len() == 2 * a.len(),
        hex_text(a + b) == hex_text(a) + hex_text(b),
        hex_text(a) == hex_text(b) <==> a == b,
    decreases a.len() + b.len(),
{
    if b.len() == 0 {
        assert(a + b =~= a);
        assert(hex_text(a) + hex_text(b) =~= hex_text(a));
    } else {
        bytes_are_written_one_after_the_other(a, b.drop_last());
        assert((a + b).drop_last() =~= a + b.drop_last());
        assert((a + b).last() == b.last());
        assert(hex_text(a + b) =~= hex_text(a) + hex_text(b));
    }
    lemma_hex_len(a);
    lemma_hex_len(b);
    if hex_text(a) == hex_text(b) && a.len() > 0 && a.len() == b.len() {
        let x = hex_text(a.drop_last());
        let y = hex_text(b.drop_last());
        lemma_hex_len(a.drop_last());
        lemma_hex_len(b.drop_last());
        assert(hex_text(a).take(x.len() as int) =~= x);
        assert(hex_text(b).take(x.len() as int) =~= y);
        assert(hex_text(a).skip(x.len() as int) =~= hex_byte(a.last()));
        assert(hex_text(b).skip(x.len() as int) =~= hex_byte(b.last()));
        bytes_are_written_one_after_the_other(a.drop_last(), b.drop_last());
        bytes_are_written_differently(a.last(), b.last());
        assert(a =~= a.drop_last().push(a.last()));
        assert(b =~= b.drop_last().push(b.last()));
    }
    if a.len() == 0 && b.len() == 0 {
        assert(a =~= b);
    }
}

proof fn lemma_hex_len(a: Seq<u8>)
    ensures
        hex_text(a).len() == 2 * a.len(),
    decreases a.len(),
{
    if a.len() > 0 {
        lemma_hex_len(a.drop_last());
    }
}

/// A number of four bytes is written in eight digits, its most significant byte
/// first.
pub proof fn words_are_written_byte_by_byte(a: u8, b: u8, c: u8, d: u8)
    ensures
        hex_word((a * 0x100_0000 + b * 0x1_0000 + c * 0x100 + d) as u32) == hex_text(
            seq![a, b, c, d],
        ),
        hex_text(seq![a, b, c, d]).len() == 8,
{
    lemma_four_bytes(a, b, c, d);
    lemma_hex_four(a, b, c, d);
    lemma_hex_len(seq![a, b, c, d]);
}

proof fn lemma_four_bytes(a: u8, b: u8, c: u8, d: u8)
    ensures
        ({
            let n = (a * 0x100_0000 + b * 0x1_0000 + c * 0x100 + d) as u32;
            &&& (n / 0x100_0000) as u8 == a
            &&& (n / 0x1_0000 % 0x100) as u8 == b
            &&& (n / 0x100 % 0x100) as u8 == c
            &&& (n % 0x100) as u8 == d
        }),
{
    let n = (a * 0x100_0000 + b * 0x1_0000 + c * 0x100 + d) as u32;
    assert(n / 0x100_0000 == a);
    assert(n / 0x1_0000 == a * 0x100 + b);
    assert(n / 0x100 == a * 0x1_0000 + b * 0x100 + c);
}

proof fn lemma_hex_four(a: u8, b: u8, c: u8, d: u8)
    ensures
        hex_text(seq![a, b, c, d]) == hex_byte(a) + hex_byte(b) + hex_byte(c) + hex_byte(d),
{
    lemma_hex_push(Seq::<u8>::empty(), a);
    lemma_hex_push(seq![a], b);
    lemma_hex_push(seq![a, b], c);
    lemma_hex_push(seq![a, b, c], d);
    assert(Seq::<u8>::empty().push(a) =~= seq![a]);
    assert(seq![a].push(b) =~= seq![a, b]);
    assert(seq![a, b].push(c) =~= seq![a, b, c]);
    assert(seq![a, b, c].push(d) =~= seq![a, b, c, d]);
    assert(Seq::<char>::empty() + hex_byte(a) =~= hex_byte(a));
}

proof fn lemma_hex_push(a: Seq<u8>, b: u8)
    ensures
        hex_text(a.push(b)) == hex_text(a) + hex_byte(b),
{
    assert(a.push(b).drop_last() =~= a);
}

} // verus!
