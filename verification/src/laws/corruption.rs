//! What the checksum detects.

use vstd::prelude::*;
use crate::laws::round_trip::{lemma_encoded_fields, lemma_encoded_len};
use crate::layout::{
    DecodeError, Entry, checksum_matches, decoded, encoded, stored_checksum, within_capacity,
};
use crate::wire::{byte_sum, le_u32_at, lemma_byte_sum_update, lemma_write_read};

verus! {

/// The stored number changes with any one of its four bytes.
proof fn lemma_field_changes(s: Seq<u8>, pos: int, i: int, v: u8)
    requires
        0 <= pos <= i < pos + 4 <= s.len(),
        v != s[i],
    ensures
        le_u32_at(s.update(i, v), pos) != le_u32_at(s, pos),
{
    lemma_write_read(s, pos);
    lemma_write_read(s.update(i, v), pos);
    assert(s.update(i, v).subrange(pos, pos + 4)[i - pos] == v);
    assert(s.subrange(pos, pos + 4)[i - pos] == s[i]);
}

/// Checksum sensitivity: where the checksum of a buffer matches, replacing any
/// one byte by another makes decoding fail with a checksum mismatch. This
/// covers every flip of a single bit. Changes to several bytes can cancel in
/// the sum and then pass unnoticed: the checksum guards against accident, not
/// against intent.
pub proof fn lemma_single_byte_corruption_detected(b: Seq<u8>, i: int, v: u8)
    requires
        checksum_matches(b),
        0 <= i < b.len(),
        v != b[i],
    ensures
        decoded(b.update(i, v)) == Err::<Seq<Entry>, DecodeError>(DecodeError::ChecksumMismatch),
{
    let corrupt = b.update(i, v);
    let covered = b.len() - 4;
    if i < covered {
        assert(corrupt.take(covered) =~= b.take(covered).update(i, v));
        lemma_byte_sum_update(b.take(covered), i, v);
        let before = byte_sum(b.take(covered)) as int;
        let after = byte_sum(corrupt.take(covered)) as int;
        assert(after == before - b[i] + v);
        assert(after % 0x1_0000_0000 != before % 0x1_0000_0000);
        assert(stored_checksum(corrupt) == stored_checksum(b));
    } else {
        assert(corrupt.take(covered) =~= b.take(covered));
        lemma_field_changes(b, covered, i, v);
    }
    assert(!checksum_matches(corrupt));
    reveal(decoded);
}

/// An encoded block with any one byte replaced by another does not decode: it
/// fails with a checksum mismatch.
pub proof fn lemma_corrupted_block_detected(entries: Seq<Entry>, i: int, v: u8)
    requires
        within_capacity(entries),
        0 <= i < encoded(entries).len(),
        v != encoded(entries)[i],
    ensures
        decoded(encoded(entries).update(i, v)) == Err::<Seq<Entry>, DecodeError>(
            DecodeError::ChecksumMismatch,
        ),
{
    lemma_encoded_len(entries);
    lemma_encoded_fields(entries);
    lemma_single_byte_corruption_detected(encoded(entries), i, v);
}

/// A flipped bit is a changed byte, so a single bit flip in a buffer whose
/// checksum matches is always detected.
pub proof fn lemma_bit_flip_detected(b: Seq<u8>, i: int, bit: u8)
    requires
        checksum_matches(b),
        0 <= i < b.len(),
        bit < 8,
    ensures
        decoded(b.update(i, b[i] ^ (1u8 << bit))) == Err::<Seq<Entry>, DecodeError>(
            DecodeError::ChecksumMismatch,
        ),
{
    let byte = b[i];
    assert(byte ^ (1u8 << bit) != byte) by (bit_vector)
        requires
            bit < 8,
    ;
    lemma_single_byte_corruption_detected(b, i, byte ^ (1u8 << bit));
}

} // verus!
