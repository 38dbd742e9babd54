//! The byte layout of a block, stated over sequences.
//!
//! ```text
//! | block size (4) | entry count (4) | entries ... | offsets ... | index offset (4) | checksum (4) |
//! ```
//!
//! An entry is `key length (4) | key | value length (4) | value`. All numbers
//! are little-endian. The checksum covers every byte before it.

use vstd::prelude::*;
use vstd::string::StringSliceAdditionalSpecFns;
use crate::wire::{checksum, le_u32_at, u32_le};

verus! {

/// Total size of a block on disk, in bytes.
pub const BLOCKSIZE: usize = 16 * 1024;

/// Bytes taken by the block size and the entry count.
pub const HEADER_SIZE: usize = 8;

/// Bytes taken by the index offset and the checksum.
pub const FOOTER_SIZE: usize = 8;

/// Bytes left for the entries and their offsets.
pub const SIZE_AVAILABLE: usize = BLOCKSIZE - HEADER_SIZE - FOOTER_SIZE;

/// One key-value pair, as the bytes of its key and the bytes of its value.
pub struct Entry {
    pub key: Seq<u8>,
    pub value: Seq<u8>,
}

/// Why a buffer could not be decoded.
#[derive(Clone, Copy, Debug, PartialEq, Eq, Structural)]
pub enum DecodeError {
    /// The stored checksum is not the checksum of the bytes before it.
    ChecksumMismatch,
    /// A field points outside its region, the counts disagree, or the entries
    /// do not fit in a block.
    StructuralCorruption,
}

/// The entry that the strings `key` and `value` stand for: the bytes of each.
pub open spec fn entry_of(key: &str, value: &str) -> Entry {
    Entry { key: key.spec_bytes(), value: value.spec_bytes() }
}

/// Bytes that an entry takes in the data section.
pub open spec fn entry_size(e: Entry) -> nat {
    4 + e.key.len() + 4 + e.value.len()
}

/// The encoding of one entry.
pub open spec fn entry_bytes(e: Entry) -> Seq<u8> {
    u32_le(e.key.len() as u32) + e.key + u32_le(e.value.len() as u32) + e.value
}

/// The data section: the encodings of all entries, in order.
pub open spec fn data_bytes(entries: Seq<Entry>) -> Seq<u8>
    decreases entries.len(),
{
    if entries.len() == 0 {
        Seq::empty()
    } else {
        data_bytes(entries.drop_last()) + entry_bytes(entries.last())
    }
}

/// Where entry `i` starts in the data section.
pub open spec fn entry_start(entries: Seq<Entry>, i: int) -> nat {
    data_bytes(entries.take(i)).len()
}

/// The index: for each entry, where it starts in the data section.
pub open spec fn entry_offsets(entries: Seq<Entry>) -> Seq<u32> {
    Seq::new(entries.len(), |i: int| entry_start(entries, i) as u32)
}

/// The index section: each offset as four little-endian bytes.
pub open spec fn index_bytes(offsets: Seq<u32>) -> Seq<u8>
    decreases offsets.len(),
{
    if offsets.len() == 0 {
        Seq::empty()
    } else {
        index_bytes(offsets.drop_last()) + u32_le(offsets.last())
    }
}

/// Bytes of the capacity budget that the entries and their offsets take.
pub open spec fn used_space(entries: Seq<Entry>) -> nat {
    data_bytes(entries).len() + 4 * entries.len()
}

/// The entries and their offsets fit in the capacity budget.
pub open spec fn within_capacity(entries: Seq<Entry>) -> bool {
    used_space(entries) <= SIZE_AVAILABLE
}

/// One more entry, with its offset slot, still fits in the capacity budget.
pub open spec fn fits(entries: Seq<Entry>, e: Entry) -> bool {
    used_space(entries) + 4 + entry_size(e) <= SIZE_AVAILABLE
}

/// The entries after an attempt to add `e`: `e` is appended if it fits, and
/// nothing changes if it does not.
pub open spec fn added(entries: Seq<Entry>, e: Entry) -> Seq<Entry> {
    if fits(entries, e) {
        entries.push(e)
    } else {
        entries
    }
}

/// The entries after an attempt to add each entry of `batch` in turn.
pub open spec fn added_all(entries: Seq<Entry>, batch: Seq<Entry>) -> Seq<Entry>
    decreases batch.len(),
{
    if batch.len() == 0 {
        entries
    } else {
        added(added_all(entries, batch.drop_last()), batch.last())
    }
}

/// The total length of the encoded block, as its header declares it.
pub open spec fn block_size_of(entries: Seq<Entry>) -> u32 {
    (HEADER_SIZE + data_bytes(entries).len() + 4 * entries.len() + FOOTER_SIZE) as u32
}

/// Where the index starts in the encoded block, as its footer declares it.
pub open spec fn index_offset_of(entries: Seq<Entry>) -> u32 {
    (HEADER_SIZE + data_bytes(entries).len()) as u32
}

/// Everything before the checksum field.
pub open spec fn encoded_body(entries: Seq<Entry>) -> Seq<u8> {
    u32_le(block_size_of(entries)) + u32_le(entries.len() as u32) + data_bytes(entries)
        + index_bytes(entry_offsets(entries)) + u32_le(index_offset_of(entries))
}

/// The encoded block.
pub open spec fn encoded(entries: Seq<Entry>) -> Seq<u8> {
    encoded_body(entries) + u32_le(checksum(encoded_body(entries)))
}

/// The block size that the header of `b` declares.
pub open spec fn stored_block_size(b: Seq<u8>) -> u32 {
    le_u32_at(b, 0)
}

/// The entry count that the header of `b` declares.
pub open spec fn stored_entry_count(b: Seq<u8>) -> u32 {
    le_u32_at(b, 4)
}

/// The index offset that the footer of `b` declares.
pub open spec fn stored_index_offset(b: Seq<u8>) -> u32 {
    le_u32_at(b, b.len() - 8)
}

/// The checksum that the footer of `b` declares.
pub open spec fn stored_checksum(b: Seq<u8>) -> u32 {
    le_u32_at(b, b.len() - 4)
}

/// Offset number `i` of the index section of `b`.
pub open spec fn stored_offset(b: Seq<u8>, i: int) -> u32 {
    le_u32_at(b, stored_index_offset(b) + 4 * i)
}

/// The data section of `b`: from the end of the header to the index.
pub open spec fn data_section(b: Seq<u8>) -> Seq<u8> {
    b.subrange(HEADER_SIZE as int, stored_index_offset(b) as int)
}

/// An entry that starts at `at` lies within the data section `d`, length
/// fields and contents.
pub open spec fn entry_fits_at(d: Seq<u8>, at: int) -> bool {
    let key_end = at + 4 + le_u32_at(d, at);
    let value_end = key_end + 4 + le_u32_at(d, key_end);
    &&& 0 <= at
    &&& at + 4 <= d.len()
    &&& key_end + 4 <= d.len()
    &&& value_end <= d.len()
}

/// The entry that starts at `at` in the data section `d`.
pub open spec fn entry_at(d: Seq<u8>, at: int) -> Entry {
    let key_end = at + 4 + le_u32_at(d, at);
    let value_end = key_end + 4 + le_u32_at(d, key_end);
    Entry { key: d.subrange(at + 4, key_end), value: d.subrange(key_end + 4, value_end) }
}

/// Every one of `offsets` points to an entry that lies within the data section
/// `d`.
pub open spec fn entries_fit(d: Seq<u8>, offsets: Seq<u32>) -> bool {
    forall|i: int| 0 <= i < offsets.len() ==> entry_fits_at(d, #[trigger] offsets[i] as int)
}

/// The entries that `offsets` point to in the data section `d`.
pub open spec fn entries_at(d: Seq<u8>, offsets: Seq<u32>) -> Seq<Entry> {
    Seq::new(offsets.len(), |i: int| entry_at(d, offsets[i] as int))
}

/// The offsets of the index section of `b`, in stored order.
pub open spec fn stored_offsets(b: Seq<u8>) -> Seq<u32> {
    Seq::new(stored_entry_count(b) as nat, |i: int| stored_offset(b, i))
}

/// The entries that `b` holds, in the order of its index.
pub open spec fn stored_entries(b: Seq<u8>) -> Seq<Entry> {
    entries_at(data_section(b), stored_offsets(b))
}

/// The stored checksum of `b` is the checksum of the bytes before it.
pub open spec fn checksum_matches(b: Seq<u8>) -> bool {
    &&& b.len() >= 4
    &&& stored_checksum(b) == checksum(b.take(b.len() - 4))
}

/// The header and the footer of `b` agree with its length: the declared block
/// size is the length, the index starts after the header and ends where the
/// footer starts, and it holds one offset for each declared entry.
pub open spec fn well_framed(b: Seq<u8>) -> bool {
    &&& b.len() >= HEADER_SIZE + FOOTER_SIZE
    &&& stored_block_size(b) == b.len()
    &&& HEADER_SIZE <= stored_index_offset(b) <= b.len() - FOOTER_SIZE
    &&& 4 * stored_entry_count(b) == b.len() - FOOTER_SIZE - stored_index_offset(b)
}

/// The regions of `b` are laid out as the header and the footer declare, every
/// entry lies within the data section, and the entries fit in a block.
pub open spec fn well_structured(b: Seq<u8>) -> bool {
    &&& well_framed(b)
    &&& entries_fit(data_section(b), stored_offsets(b))
    &&& within_capacity(stored_entries(b))
}

/// What decoding `b` gives: the entries it holds, or the reason why it holds
/// none. A buffer too short to hold a checksum is structurally corrupt; on any
/// other buffer the checksum is judged first.
#[verifier::opaque]
pub open spec fn decoded(b: Seq<u8>) -> Result<Seq<Entry>, DecodeError> {
    if b.len() < 4 {
        Err(DecodeError::StructuralCorruption)
    } else if !checksum_matches(b) {
        Err(DecodeError::ChecksumMismatch)
    } else if !well_structured(b) {
        Err(DecodeError::StructuralCorruption)
    } else {
        Ok(stored_entries(b))
    }
}

} // verus!
