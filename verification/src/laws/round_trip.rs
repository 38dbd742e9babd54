//! Encoding and decoding undo each other.

use vstd::prelude::*;
use crate::block::Block;
use crate::laws::capacity::lemma_added_all_within_capacity;
use crate::layout::{
    BLOCKSIZE, DecodeError, Entry, FOOTER_SIZE, HEADER_SIZE, added_all, block_size_of,
    checksum_matches, data_bytes, data_section, decoded, encoded, encoded_body, entries_fit,
    entry_offsets, index_bytes, index_offset_of, stored_block_size, stored_checksum,
    stored_entries, stored_entry_count, stored_index_offset, stored_offsets, well_framed,
    well_structured, within_capacity,
};
use crate::lemmas::{
    lemma_block_fields, lemma_block_parts, lemma_entries_at_encoding, lemma_index_bytes_len,
};
use crate::wire::{byte_sum, checksum, le_byte, u32_le};

verus! {

/// The length of an encoded block: header, data section, four bytes for each
/// entry, footer. A block within capacity never exceeds the block size.
pub proof fn lemma_encoded_len(entries: Seq<Entry>)
    ensures
        encoded(entries).len() == HEADER_SIZE + data_bytes(entries).len() + 4 * entries.len()
            + FOOTER_SIZE,
        within_capacity(entries) ==> encoded(entries).len() <= BLOCKSIZE,
{
    let offsets = entry_offsets(entries);
    lemma_index_bytes_len(offsets);
    assert(offsets.len() == entries.len());
    lemma_block_parts(
        u32_le(block_size_of(entries)),
        u32_le(entries.len() as u32),
        data_bytes(entries),
        index_bytes(offsets),
        u32_le(index_offset_of(entries)),
        u32_le(checksum(encoded_body(entries))),
    );
}

/// The fields of an encoded block hold what the layout says: the header holds
/// the total length and the number of entries, the footer holds where the
/// index starts and the checksum of all bytes before it, the data section
/// holds the entries' encodings, and the index holds where each starts.
pub proof fn lemma_encoded_fields(entries: Seq<Entry>)
    requires
        within_capacity(entries),
    ensures
        stored_block_size(encoded(entries)) == encoded(entries).len(),
        stored_entry_count(encoded(entries)) == entries.len(),
        stored_index_offset(encoded(entries)) == HEADER_SIZE + data_bytes(entries).len(),
        stored_checksum(encoded(entries)) == checksum(
            encoded(entries).take(encoded(entries).len() - 4),
        ),
        data_section(encoded(entries)) == data_bytes(entries),
        stored_offsets(encoded(entries)) == entry_offsets(entries),
{
    let b = encoded(entries);
    let offsets = entry_offsets(entries);
    assert(offsets.len() == entries.len());
    lemma_block_fields(
        block_size_of(entries),
        entries.len() as u32,
        data_bytes(entries),
        offsets,
        index_offset_of(entries),
        checksum(encoded_body(entries)),
    );
    assert(stored_offsets(b) =~= offsets);
}

/// Round trip: decoding an encoded block gives its entries back, each one and
/// in insertion order, and so the same data section byte for byte.
pub proof fn lemma_round_trip(entries: Seq<Entry>)
    requires
        within_capacity(entries),
    ensures
        decoded(encoded(entries)) == Ok::<Seq<Entry>, DecodeError>(entries),
{
    let b = encoded(entries);
    lemma_encoded_len(entries);
    lemma_encoded_fields(entries);
    lemma_entries_at_encoding(entries);
    assert(checksum_matches(b));
    assert(well_framed(b));
    assert(entries_fit(data_section(b), stored_offsets(b)));
    assert(stored_entries(b) == entries);
    assert(well_structured(b));
    reveal(decoded);
}

/// Round trip of what was added: whatever entries are offered to an empty
/// block, encoding those it took and decoding the bytes gives them back.
pub proof fn lemma_round_trip_of_added(batch: Seq<Entry>)
    ensures
        decoded(encoded(added_all(Seq::empty(), batch))) == Ok::<Seq<Entry>, DecodeError>(
            added_all(Seq::empty(), batch),
        ),
{
    lemma_added_all_within_capacity(batch);
    lemma_round_trip(added_all(Seq::empty(), batch));
}

/// Determinism: the encoded bytes depend on the entries alone, so two blocks
/// that hold the same entries encode to the same bytes.
pub proof fn lemma_same_entries_same_bytes(a: Block, b: Block)
    requires
        a@ == b@,
    ensures
        encoded(a@) == encoded(b@),
{
}

/// The empty block: a header that declares sixteen bytes and no entry, no
/// data, no index, and a footer that puts the index right after the header.
/// It decodes to no entries.
pub proof fn lemma_empty_block()
    ensures
        encoded(Seq::empty()) == seq![16u8, 0, 0, 0, 0, 0, 0, 0, 8, 0, 0, 0, 24, 0, 0, 0],
        decoded(encoded(Seq::empty())) == Ok::<Seq<Entry>, DecodeError>(Seq::empty()),
{
    let nothing = Seq::<Entry>::empty();
    let body = seq![16u8, 0, 0, 0, 0, 0, 0, 0, 8, 0, 0, 0];
    reveal(le_byte);
    assert(data_bytes(nothing) =~= Seq::<u8>::empty());
    assert(entry_offsets(nothing) =~= Seq::<u32>::empty());
    assert(index_bytes(entry_offsets(nothing)) =~= Seq::<u8>::empty());
    assert(encoded_body(nothing) =~= body);
    assert(byte_sum(body) == 24) by {
        reveal_with_fuel(byte_sum, 13);
    }
    assert(encoded(nothing) =~= seq![16u8, 0, 0, 0, 0, 0, 0, 0, 8, 0, 0, 0, 24, 0, 0, 0]);
    lemma_round_trip(nothing);
}

} // verus!
