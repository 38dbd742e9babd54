//! Facts about the layout that the block's functions and the laws rest on.

use vstd::prelude::*;
use crate::layout::{
    Entry, SIZE_AVAILABLE, data_bytes, data_section, entries_at, entry_at, entry_bytes,
    entry_fits_at, entry_offsets, entry_size, entry_start, index_bytes, stored_block_size,
    stored_checksum, stored_entry_count, stored_index_offset, stored_offset, within_capacity,
};
use crate::wire::{lemma_read_field, u32_le};

verus! {

/// Appending an entry appends its encoding to the data section.
pub proof fn lemma_data_bytes_push(entries: Seq<Entry>, e: Entry)
    ensures
        data_bytes(entries.push(e)) == data_bytes(entries) + entry_bytes(e),
        data_bytes(entries.push(e)).len() == data_bytes(entries).len() + entry_size(e),
{
    assert(entries.push(e).drop_last() =~= entries);
    assert(entries.push(e).last() == e);
}

/// The start of entry `i` and its encoding, within the data section: the entry
/// ends where the next one starts, and no entry reaches past the end.
pub proof fn lemma_entry_span(entries: Seq<Entry>, i: int)
    requires
        0 <= i < entries.len(),
    ensures
        entry_start(entries, i + 1) == entry_start(entries, i) + entry_size(entries[i]),
        entry_start(entries, i + 1) <= data_bytes(entries).len(),
        data_bytes(entries).subrange(
            entry_start(entries, i) as int,
            entry_start(entries, i + 1) as int,
        ) == entry_bytes(entries[i]),
    decreases entries.len(),
{
    let last = entries.len() - 1;
    let front = entries.drop_last();
    assert(entries.take(entries.len() as int) =~= entries);
    if i == last {
        assert(entries.take(i) =~= front);
        assert(data_bytes(entries) =~= data_bytes(front) + entry_bytes(entries[i]));
        assert(data_bytes(entries).subrange(
            data_bytes(front).len() as int,
            data_bytes(entries).len() as int,
        ) =~= entry_bytes(entries[i]));
    } else {
        lemma_entry_span(front, i);
        assert(front.take(i) =~= entries.take(i));
        assert(front.take(i + 1) =~= entries.take(i + 1));
        assert(front[i] == entries[i]);
        assert(data_bytes(entries) =~= data_bytes(front) + entry_bytes(entries.last()));
        let a = entry_start(entries, i) as int;
        let b = entry_start(entries, i + 1) as int;
        assert(data_bytes(entries).subrange(a, b) =~= data_bytes(front).subrange(a, b));
    }
}

/// Appending an entry appends its start to the offsets.
pub proof fn lemma_entry_offsets_push(entries: Seq<Entry>, e: Entry)
    ensures
        entry_offsets(entries.push(e)) == entry_offsets(entries).push(
            data_bytes(entries).len() as u32,
        ),
{
    let longer = entries.push(e);
    assert forall|i: int| 0 <= i < longer.len() implies #[trigger] entry_offsets(longer)[i]
        == entry_offsets(entries).push(data_bytes(entries).len() as u32)[i] by {
        if i < entries.len() {
            assert(longer.take(i) =~= entries.take(i));
        } else {
            assert(longer.take(i) =~= entries);
        }
    }
    assert(entry_offsets(longer) =~= entry_offsets(entries).push(
        data_bytes(entries).len() as u32,
    ));
}

/// Where the encoding of `e` stands at `at` in `d`, an entry fits there and it
/// is `e`.
pub proof fn lemma_entry_at_encoding(d: Seq<u8>, at: int, e: Entry)
    requires
        0 <= at,
        at + entry_size(e) <= d.len(),
        d.subrange(at, at + entry_size(e)) == entry_bytes(e),
        e.key.len() <= u32::MAX,
        e.value.len() <= u32::MAX,
    ensures
        entry_fits_at(d, at),
        entry_at(d, at) == e,
{
    let enc = entry_bytes(e);
    let klen = e.key.len() as int;
    let vlen = e.value.len() as int;
    let span = d.subrange(at, at + entry_size(e));
    assert(d.subrange(at, at + 4) =~= span.subrange(0, 4));
    assert(enc.subrange(0, 4) =~= u32_le(klen as u32));
    lemma_read_field(d, at, klen as u32);
    assert(d.subrange(at + 4 + klen, at + 8 + klen) =~= span.subrange(4 + klen, 8 + klen));
    assert(enc.subrange(4 + klen, 8 + klen) =~= u32_le(vlen as u32));
    lemma_read_field(d, at + 4 + klen, vlen as u32);
    assert(d.subrange(at + 4, at + 4 + klen) =~= span.subrange(4, 4 + klen));
    assert(enc.subrange(4, 4 + klen) =~= e.key);
    assert(d.subrange(at + 8 + klen, at + 8 + klen + vlen) =~= span.subrange(
        8 + klen,
        8 + klen + vlen,
    ));
    assert(enc.subrange(8 + klen, 8 + klen + vlen) =~= e.value);
}

/// The offsets of a data section that fits in 32 bits point to its entries:
/// reading the entries at their offsets gives them back.
pub proof fn lemma_entries_at_encoding(entries: Seq<Entry>)
    requires
        data_bytes(entries).len() <= u32::MAX,
    ensures
        entries_at(data_bytes(entries), entry_offsets(entries)) == entries,
        forall|i: int|
            0 <= i < entries.len() ==> entry_fits_at(
                data_bytes(entries),
                #[trigger] entry_offsets(entries)[i] as int,
            ),
{
    let d = data_bytes(entries);
    let offsets = entry_offsets(entries);
    assert forall|i: int| 0 <= i < entries.len() implies entry_fits_at(
        d,
        #[trigger] offsets[i] as int,
    ) && entry_at(d, offsets[i] as int) == entries[i] by {
        lemma_entry_span(entries, i);
        lemma_entry_at_encoding(d, entry_start(entries, i) as int, entries[i]);
    }
    assert(entries_at(d, offsets) =~= entries);
}

/// Where the first entries and the offset slots of all entries already take
/// more than the capacity budget, the entries do not fit in it.
pub proof fn lemma_prefix_over_capacity(entries: Seq<Entry>, i: int)
    requires
        0 <= i < entries.len(),
        data_bytes(entries.take(i)).len() + entry_size(entries[i]) + 4 * entries.len()
            > SIZE_AVAILABLE,
    ensures
        !within_capacity(entries),
{
    lemma_entry_span(entries, i);
}

/// The index section takes four bytes for each offset.
pub proof fn lemma_index_bytes_len(offsets: Seq<u32>)
    ensures
        index_bytes(offsets).len() == 4 * offsets.len(),
    decreases offsets.len(),
{
    if offsets.len() > 0 {
        lemma_index_bytes_len(offsets.drop_last());
    }
}

/// Offset `i` stands at `4 * i` in the index section.
pub proof fn lemma_index_bytes_at(offsets: Seq<u32>, i: int)
    requires
        0 <= i < offsets.len(),
    ensures
        index_bytes(offsets).len() == 4 * offsets.len(),
        index_bytes(offsets).subrange(4 * i, 4 * i + 4) == u32_le(offsets[i]),
    decreases offsets.len(),
{
    let front = offsets.drop_last();
    lemma_index_bytes_len(offsets);
    lemma_index_bytes_len(front);
    if i == offsets.len() - 1 {
        assert(index_bytes(offsets).subrange(4 * i, 4 * i + 4) =~= u32_le(offsets[i]));
    } else {
        lemma_index_bytes_at(front, i);
        assert(index_bytes(offsets).subrange(4 * i, 4 * i + 4) =~= index_bytes(front).subrange(
            4 * i,
            4 * i + 4,
        ));
    }
}

/// Where the six parts of a block stand in their concatenation.
pub proof fn lemma_block_parts(
    size_field: Seq<u8>,
    count_field: Seq<u8>,
    data: Seq<u8>,
    index: Seq<u8>,
    offset_field: Seq<u8>,
    sum_field: Seq<u8>,
)
    requires
        size_field.len() == 4,
        count_field.len() == 4,
        offset_field.len() == 4,
        sum_field.len() == 4,
    ensures
        ({
            let body = size_field + count_field + data + index + offset_field;
            let b = body + sum_field;
            let index_at = 8 + data.len() as int;
            let footer_at = index_at + index.len() as int;
            &&& b.len() == footer_at + 8
            &&& b.subrange(0, 4) == size_field
            &&& b.subrange(4, 8) == count_field
            &&& b.subrange(8, index_at) == data
            &&& b.subrange(index_at, footer_at) == index
            &&& b.subrange(footer_at, footer_at + 4) == offset_field
            &&& b.subrange(footer_at + 4, footer_at + 8) == sum_field
            &&& b.take(footer_at + 4) == body
        }),
{
    let body = size_field + count_field + data + index + offset_field;
    let b = body + sum_field;
    let index_at = 8 + data.len() as int;
    let footer_at = index_at + index.len() as int;
    assert(b.subrange(0, 4) =~= size_field);
    assert(b.subrange(4, 8) =~= count_field);
    assert(b.subrange(8, index_at) =~= data);
    assert(b.subrange(index_at, footer_at) =~= index);
    assert(b.subrange(footer_at, footer_at + 4) =~= offset_field);
    assert(b.subrange(footer_at + 4, footer_at + 8) =~= sum_field);
    assert(b.take(footer_at + 4) =~= body);
}

/// What the fields of a block read as, where its six parts are written one
/// after the other: each field reads as the number written, the data section
/// is the data, and the offsets read as written.
pub proof fn lemma_block_fields(
    size: u32,
    count: u32,
    data: Seq<u8>,
    offsets: Seq<u32>,
    index_offset: u32,
    sum: u32,
)
    requires
        index_offset == 8 + data.len(),
    ensures
        ({
            let body = u32_le(size) + u32_le(count) + data + index_bytes(offsets) + u32_le(
                index_offset,
            );
            let b = body + u32_le(sum);
            &&& b.len() == 16 + data.len() + 4 * offsets.len()
            &&& b.take(b.len() - 4) == body
            &&& stored_block_size(b) == size
            &&& stored_entry_count(b) == count
            &&& stored_index_offset(b) == index_offset
            &&& stored_checksum(b) == sum
            &&& data_section(b) == data
            &&& forall|i: int|
                0 <= i < offsets.len() ==> #[trigger] stored_offset(b, i) == offsets[i]
        }),
{
    let index = index_bytes(offsets);
    let body = u32_le(size) + u32_le(count) + data + index + u32_le(index_offset);
    let b = body + u32_le(sum);
    let at = 8 + data.len() as int;
    let len = b.len() as int;
    lemma_index_bytes_len(offsets);
    lemma_block_parts(u32_le(size), u32_le(count), data, index, u32_le(index_offset), u32_le(sum));
    lemma_read_field(b, 0, size);
    lemma_read_field(b, 4, count);
    lemma_read_field(b, len - 8, index_offset);
    lemma_read_field(b, len - 4, sum);
    assert forall|i: int| 0 <= i < offsets.len() implies #[trigger] stored_offset(b, i)
        == offsets[i] by {
        lemma_index_bytes_at(offsets, i);
        assert(b.subrange(at + 4 * i, at + 4 * i + 4) =~= b.subrange(at, at + index.len())
            .subrange(4 * i, 4 * i + 4));
        lemma_read_field(b, at + 4 * i, offsets[i]);
    }
}

/// Overwriting the first field of a buffer replaces that field and nothing
/// else.
pub proof fn lemma_first_field_replaced(first: Seq<u8>, rest: Seq<u8>, field: Seq<u8>)
    requires
        first.len() == 4,
    ensures
        (first + rest).subrange(0, 0) + field + (first + rest).subrange(
            4,
            (first + rest).len() as int,
        ) == field + rest,
{
    let whole = first + rest;
    assert(whole.subrange(0, 0) + field + whole.subrange(4, whole.len() as int) =~= field
        + rest);
}

} // verus!
