//! What a block keeps true of its fields, and how each step keeps it.

use vstd::prelude::*;
use crate::layout::{
    Entry, SIZE_AVAILABLE, block_size_of, data_bytes, encoded_body, entries_at, entry_at,
    entry_bytes, entry_offsets, entry_size, fits, index_bytes, index_offset_of, used_space,
    within_capacity,
};
use crate::lemmas::{
    lemma_data_bytes_push, lemma_entries_at_encoding, lemma_entry_offsets_push,
    lemma_prefix_over_capacity,
};
use crate::wire::u32_le;

verus! {

/// `data` and `offsets` are the data section and the index of `entries`, and
/// `entries` fit in the capacity budget.
#[verifier::opaque]
pub open spec fn describes(data: Seq<u8>, offsets: Seq<u32>, entries: Seq<Entry>) -> bool {
    &&& data == data_bytes(entries)
    &&& offsets == entry_offsets(entries)
    &&& within_capacity(entries)
}

/// Nothing is described by an empty data section and an empty index.
pub proof fn lemma_describes_nothing()
    ensures
        describes(Seq::empty(), Seq::empty(), Seq::empty()),
{
    reveal(describes);
    assert(entry_offsets(Seq::<Entry>::empty()) =~= Seq::<u32>::empty());
}

/// A data section and an index that describe some entries describe no others:
/// the entries are those that the offsets point to.
pub proof fn lemma_described_entries(data: Seq<u8>, offsets: Seq<u32>, entries: Seq<Entry>)
    requires
        describes(data, offsets, entries),
    ensures
        entries_at(data, offsets) == entries,
        offsets.len() == entries.len(),
        within_capacity(entries),
        used_space(entries) == data.len() + 4 * offsets.len(),
        data.len() + 4 * offsets.len() <= SIZE_AVAILABLE,
{
    reveal(describes);
    lemma_entries_at_encoding(entries);
}

/// What describes some entries is as long as their data section and holds as
/// many offsets as there are entries.
pub proof fn lemma_described_sizes(data: Seq<u8>, offsets: Seq<u32>, entries: Seq<Entry>)
    requires
        describes(data, offsets, entries),
    ensures
        data.len() == data_bytes(entries).len(),
        offsets.len() == entries.len(),
        data.len() + 4 * offsets.len() <= SIZE_AVAILABLE,
{
    reveal(describes);
}

/// What describes some entries is their data section and their index.
pub proof fn lemma_described_parts(data: Seq<u8>, offsets: Seq<u32>, entries: Seq<Entry>)
    requires
        describes(data, offsets, entries),
    ensures
        data == data_bytes(entries),
        offsets == entry_offsets(entries),
{
    reveal(describes);
}

/// Writing an entry that fits behind the data section, and its start behind
/// the index, describes the entries with that entry appended.
pub proof fn lemma_describes_push(
    data: Seq<u8>,
    offsets: Seq<u32>,
    entries: Seq<Entry>,
    e: Entry,
)
    requires
        describes(data, offsets, entries),
        fits(entries, e),
    ensures
        describes(data + entry_bytes(e), offsets.push(data.len() as u32), entries.push(e)),
{
    reveal(describes);
    lemma_data_bytes_push(entries, e);
    lemma_entry_offsets_push(entries, e);
}

/// One step of reading entries anew: where the first `i` entries that
/// `offsets` point to are described, and entry `i` still fits in the budget
/// beside the offset slots of all, writing it describes the first `i + 1`.
pub proof fn lemma_rebuilt_step(
    section: Seq<u8>,
    offsets: Seq<u32>,
    data: Seq<u8>,
    starts: Seq<u32>,
    i: int,
)
    requires
        0 <= i < offsets.len(),
        describes(data, starts, entries_at(section, offsets).take(i)),
        data.len() + 4 * offsets.len() + entry_size(entry_at(section, offsets[i] as int))
            <= SIZE_AVAILABLE,
    ensures
        describes(
            data + entry_bytes(entry_at(section, offsets[i] as int)),
            starts.push(data.len() as u32),
            entries_at(section, offsets).take(i + 1),
        ),
        data.len() + entry_size(entry_at(section, offsets[i] as int)) + 4 * offsets.len()
            <= SIZE_AVAILABLE,
{
    let stored = entries_at(section, offsets);
    lemma_described_sizes(data, starts, stored.take(i));
    lemma_describes_push(data, starts, stored.take(i), stored[i]);
    assert(stored.take(i).push(stored[i]) =~= stored.take(i + 1));
}

/// Where the first `i` entries that `offsets` point to are described, and
/// entry `i` no longer fits in the budget beside the offset slots of all, the
/// entries are more than a block holds.
pub proof fn lemma_rebuilt_over_capacity(
    section: Seq<u8>,
    offsets: Seq<u32>,
    data: Seq<u8>,
    starts: Seq<u32>,
    i: int,
)
    requires
        0 <= i < offsets.len(),
        describes(data, starts, entries_at(section, offsets).take(i)),
        data.len() + 4 * offsets.len() + entry_size(entry_at(section, offsets[i] as int))
            > SIZE_AVAILABLE,
    ensures
        !within_capacity(entries_at(section, offsets)),
{
    let stored = entries_at(section, offsets);
    lemma_described_sizes(data, starts, stored.take(i));
    lemma_prefix_over_capacity(stored, i);
}

/// The fields of a block, written one after the other, are its encoded body.
pub proof fn lemma_encoded_body_built(
    entries: Seq<Entry>,
    data: Seq<u8>,
    offsets: Seq<u32>,
    block_size: u32,
    count: u32,
    index_offset: u32,
)
    requires
        describes(data, offsets, entries),
        count == offsets.len(),
        index_offset == 8 + data.len(),
        block_size == 8 + data.len() + 4 * offsets.len() + 8,
    ensures
        u32_le(block_size) + (u32_le(count) + data + index_bytes(offsets)) + u32_le(index_offset)
            == encoded_body(entries),
{
    reveal(describes);
    assert(offsets.len() == entries.len());
    assert(block_size == block_size_of(entries));
    assert(index_offset == index_offset_of(entries));
    assert(u32_le(block_size) + (u32_le(count) + data + index_bytes(offsets)) + u32_le(
        index_offset,
    ) =~= u32_le(block_size) + u32_le(count) + data + index_bytes(offsets) + u32_le(
        index_offset,
    ));
}

} // verus!
