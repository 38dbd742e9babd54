//! The block: builder, encoder and decoder.

use vstd::prelude::*;
use vstd::slice::slice_subrange;
use crate::consistency::{
    describes, lemma_described_entries, lemma_described_parts, lemma_describes_nothing,
    lemma_describes_push, lemma_encoded_body_built, lemma_rebuilt_over_capacity,
    lemma_rebuilt_step,
};
use crate::laws::round_trip::lemma_round_trip;
use crate::layout::{
    BLOCKSIZE, DecodeError, Entry, FOOTER_SIZE, HEADER_SIZE, SIZE_AVAILABLE, added, data_bytes,
    decoded, encoded, entries_at, entries_fit, entry_at, entry_bytes, entry_fits_at, entry_of,
    entry_offsets, fits, index_bytes, stored_entry_count, stored_index_offset, stored_offset,
    stored_offsets, well_framed, within_capacity,
};
use crate::lemmas::{lemma_first_field_replaced, lemma_index_bytes_len};
use crate::wire::{
    checksum, checksum_of_prefix, get_u32_le, put_bytes, put_u32_le, set_u32_le, u32_le,
};

verus! {

/// A fixed-capacity page of key-value entries.
///
/// The data bytes and the offsets always describe the same sequence of
/// entries, and always fit in the capacity budget.
pub struct Block {
    data: Vec<u8>,
    offsets: Vec<u32>,
    num_of_entries: u32,
}

impl View for Block {
    type V = Seq<Entry>;

    /// The entries of the block, in insertion order.
    closed spec fn view(&self) -> Seq<Entry> {
        entries_at(self.data@, self.offsets@)
    }
}

/// Appends the encoding of the entry `(key, value)` to `data`.
fn put_entry(data: &mut Vec<u8>, key: &[u8], value: &[u8])
    requires
        key@.len() <= u32::MAX,
        value@.len() <= u32::MAX,
    ensures
        final(data)@ == old(data)@ + entry_bytes((Entry { key: key@, value: value@ })),
{
    put_u32_le(data, key.len() as u32);
    put_bytes(data, key);
    put_u32_le(data, value.len() as u32);
    put_bytes(data, value);
    assert(data@ =~= old(data)@ + entry_bytes(Entry { key: key@, value: value@ }));
}

/// The key and the value of the entry that starts at `at` in the data section
/// `section`, or nothing where no entry lies there within the section.
fn entry_in(section: &[u8], at: usize) -> (found: Option<(&[u8], &[u8])>)
    ensures
        match found {
            Some((key, value)) => {
                &&& entry_fits_at(section@, at as int)
                &&& entry_at(section@, at as int) == (Entry { key: key@, value: value@ })
                &&& key@.len() + value@.len() + 8 <= usize::MAX
            },
            None => !entry_fits_at(section@, at as int),
        },
{
    let section_len = section.len();
    if at > section_len || section_len - at < 4 {
        return None;
    }
    let key_length = get_u32_le(section, at) as usize;
    if key_length > section_len - at - 4 || section_len - at - 4 - key_length < 4 {
        return None;
    }
    let key_end = at + 4 + key_length;
    let key = slice_subrange(section, at + 4, key_end);
    let value_length = get_u32_le(section, key_end) as usize;
    if value_length > section_len - key_end - 4 {
        return None;
    }
    let value = slice_subrange(section, key_end + 4, key_end + 4 + value_length);
    Some((key, value))
}

impl Block {
    #[verifier::type_invariant]
    spec fn well_formed(&self) -> bool {
        &&& describes(self.data@, self.offsets@, self@)
        &&& self.num_of_entries == self.offsets@.len()
    }

    /// An empty block.
    pub fn new() -> (block: Block)
        ensures
            block@ == Seq::<Entry>::empty(),
    {
        let data = Vec::new();
        let offsets = Vec::new();
        proof {
            lemma_describes_nothing();
            lemma_described_entries(data@, offsets@, Seq::empty());
        }
        Block { data, offsets, num_of_entries: 0 }
    }

    /// The number of entries.
    pub fn num_of_entries(&self) -> (count: u32)
        ensures
            count == self@.len(),
            within_capacity(self@),
    {
        proof {
            use_type_invariant(self);
            lemma_described_entries(self.data@, self.offsets@, self@);
        }
        self.num_of_entries
    }

    /// The data section: the encodings of the entries, in insertion order.
    pub fn data(&self) -> (bytes: &[u8])
        ensures
            bytes@ == data_bytes(self@),
            within_capacity(self@),
    {
        proof {
            use_type_invariant(self);
            lemma_described_parts(self.data@, self.offsets@, self@);
            lemma_described_entries(self.data@, self.offsets@, self@);
        }
        self.data.as_slice()
    }

    /// The index: for each entry, where it starts in the data section.
    pub fn offsets(&self) -> (starts: &[u32])
        ensures
            starts@ == entry_offsets(self@),
            within_capacity(self@),
    {
        proof {
            use_type_invariant(self);
            lemma_described_parts(self.data@, self.offsets@, self@);
            lemma_described_entries(self.data@, self.offsets@, self@);
        }
        self.offsets.as_slice()
    }

    /// Appends the entry `(key, value)` if it fits in the capacity budget
    /// together with its offset slot, and says whether it did. A rejected
    /// entry leaves the block as it was.
    pub fn add(&mut self, key: &str, value: &str) -> (accepted: bool)
        ensures
            accepted == fits(old(self)@, entry_of(key, value)),
            final(self)@ == added(old(self)@, entry_of(key, value)),
            !accepted ==> *final(self) == *old(self),
            within_capacity(final(self)@),
    {
        let ghost entries = self@;
        let ghost entry = entry_of(key, value);
        proof {
            use_type_invariant(&*self);
            lemma_described_entries(self.data@, self.offsets@, entries);
        }
        let key_bytes = key.as_bytes();
        let value_bytes = value.as_bytes();
        if key_bytes.len() > SIZE_AVAILABLE || value_bytes.len() > SIZE_AVAILABLE {
            // larger than the whole budget; the sums below stay small
            return false;
        }
        let entry_size = 4 + key_bytes.len() + 4 + value_bytes.len();
        let size_so_far = self.data.len() + self.offsets.len() * 4;
        let size_required_for_entry = 4 + entry_size;
        if size_so_far + size_required_for_entry > SIZE_AVAILABLE {
            // the block is full
            return false;
        }
        let mut taken = Block::new();
        std::mem::swap(self, &mut taken);
        let Block { mut data, mut offsets, num_of_entries } = taken;
        let ghost taken_data = data@;
        let ghost taken_offsets = offsets@;
        let offset = data.len() as u32;
        offsets.push(offset);
        put_entry(&mut data, key_bytes, value_bytes);
        proof {
            lemma_describes_push(taken_data, taken_offsets, entries, entry);
            lemma_described_entries(data@, offsets@, entries.push(entry));
        }
        *self = Block { data, offsets, num_of_entries: num_of_entries + 1 };
        true
    }

    /// The additive checksum of `encoded_data`: the sum of its bytes,
    /// truncated to 32 bits. The block itself plays no part in it.
    pub fn calculate_checksum(&self, encoded_data: &Vec<u8>) -> (sum: u32)
        ensures
            sum == checksum(encoded_data@),
    {
        assert(encoded_data@.take(encoded_data@.len() as int) =~= encoded_data@);
        checksum_of_prefix(encoded_data.as_slice(), encoded_data.len())
    }

    /// The block as bytes: header, data section, index, footer. Decoding
    /// these bytes gives the entries of the block back.
    pub fn encode(&self) -> (bytes: Vec<u8>)
        ensures
            bytes@ == encoded(self@),
            within_capacity(self@),
            bytes@.len() <= BLOCKSIZE,
            decoded(bytes@) == Ok::<Seq<Entry>, DecodeError>(self@),
    {
        proof {
            use_type_invariant(self);
            lemma_described_entries(self.data@, self.offsets@, self@);
            lemma_index_bytes_len(self.offsets@);
        }
        let ghost data = self.data@;
        let ghost index = index_bytes(self.offsets@);
        let mut encoded_data = Vec::new();

        // the header; the block size is not known yet
        put_u32_le(&mut encoded_data, BLOCKSIZE as u32);
        put_u32_le(&mut encoded_data, self.num_of_entries);

        // the entries
        put_bytes(&mut encoded_data, self.data.as_slice());
        let index_offset = encoded_data.len() as u32;

        // the offsets
        let ghost before_index = encoded_data@;
        let mut i: usize = 0;
        while i < self.offsets.len()
            invariant
                i <= self.offsets.len(),
                encoded_data@ == before_index + index_bytes(self.offsets@.take(i as int)),
            decreases self.offsets.len() - i,
        {
            proof {
                assert(self.offsets@.take(i + 1).drop_last() =~= self.offsets@.take(i as int));
            }
            put_u32_le(&mut encoded_data, self.offsets[i]);
            i += 1;
        }
        proof {
            assert(self.offsets@.take(i as int) =~= self.offsets@);
        }
        let ghost placeholder = u32_le(BLOCKSIZE as u32);
        let ghost rest = u32_le(self.num_of_entries) + data + index;
        assert(encoded_data@ == placeholder + rest) by {
            assert(before_index + index =~= placeholder + rest);
        }

        // the block size, now that the length is known
        let block_size = encoded_data.len() as u32 + 8;
        set_u32_le(&mut encoded_data, 0, block_size);

        // the footer
        put_u32_le(&mut encoded_data, index_offset);
        proof {
            lemma_first_field_replaced(placeholder, rest, u32_le(block_size));
            lemma_encoded_body_built(
                self@,
                data,
                self.offsets@,
                block_size,
                self.num_of_entries,
                index_offset,
            );
        }
        let checksum = self.calculate_checksum(&encoded_data);
        put_u32_le(&mut encoded_data, checksum);
        proof {
            lemma_round_trip(self@);
        }
        encoded_data
    }

    /// Reads a block back from its bytes. The checksum is judged first; then
    /// the header and the footer are held against the length, the index is
    /// read, and each entry is read where its offset points. The entries are
    /// written anew into the block, one after the other, so its offsets are
    /// those of its own data section. The receiver plays no part in it.
    pub fn decode(&self, data: Vec<u8>) -> (result: Result<Block, DecodeError>)
        ensures
            match result {
                Ok(block) => decoded(data@) == Ok::<Seq<Entry>, DecodeError>(block@)
                    && within_capacity(block@),
                Err(e) => decoded(data@) == Err::<Seq<Entry>, DecodeError>(e),
            },
    {
        proof {
            reveal(decoded);
        }
        let bytes = data.as_slice();
        let len = bytes.len();
        if len < 4 {
            return Err(DecodeError::StructuralCorruption);
        }
        let calculated_checksum = checksum_of_prefix(bytes, len - 4);
        let checksum = get_u32_le(bytes, len - 4);
        if calculated_checksum != checksum {
            return Err(DecodeError::ChecksumMismatch);
        }
        let (index_offset, count) = match read_frame(bytes) {
            Some(frame) => frame,
            None => {
                return Err(DecodeError::StructuralCorruption);
            },
        };
        let offsets = read_offsets(bytes, index_offset, count);
        let section = slice_subrange(bytes, HEADER_SIZE, index_offset);
        match read_entries(section, &offsets) {
            Some(block) => Ok(block),
            None => Err(DecodeError::StructuralCorruption),
        }
    }
}

/// Where the index starts and how many entries there are, as the footer and
/// the header of `bytes` declare it; nothing where they do not agree with the
/// length of `bytes`.
fn read_frame(bytes: &[u8]) -> (frame: Option<(usize, usize)>)
    ensures
        match frame {
            Some((index_offset, count)) => {
                &&& well_framed(bytes@)
                &&& index_offset == stored_index_offset(bytes@)
                &&& count == stored_entry_count(bytes@)
            },
            None => !well_framed(bytes@),
        },
{
    let len = bytes.len();
    if len < HEADER_SIZE + FOOTER_SIZE {
        return None;
    }
    let block_size = get_u32_le(bytes, 0);
    let num_of_entries = get_u32_le(bytes, 4);
    if block_size as usize != len {
        return None;
    }
    let footer_offset = len - FOOTER_SIZE;
    let index_offset = get_u32_le(bytes, footer_offset) as usize;
    if index_offset < HEADER_SIZE || index_offset > footer_offset {
        return None;
    }
    let count = num_of_entries as usize;
    let index_size = footer_offset - index_offset;
    if index_size % 4 != 0 || index_size / 4 != count {
        return None;
    }
    Some((index_offset, count))
}

/// The offsets of the index of `bytes`, in stored order.
fn read_offsets(bytes: &[u8], index_offset: usize, count: usize) -> (offsets: Vec<u32>)
    requires
        well_framed(bytes@),
        index_offset == stored_index_offset(bytes@),
        count == stored_entry_count(bytes@),
    ensures
        offsets@ == stored_offsets(bytes@),
{
    let footer_offset = bytes.len() - FOOTER_SIZE;
    let mut offsets: Vec<u32> = Vec::new();
    let mut data_offset = index_offset;
    while data_offset < footer_offset
        invariant
            footer_offset + FOOTER_SIZE == bytes@.len(),
            index_offset == stored_index_offset(bytes@),
            data_offset == index_offset + 4 * offsets@.len(),
            footer_offset == index_offset + 4 * count,
            offsets@.len() <= count,
            forall|j: int|
                0 <= j < offsets@.len() ==> offsets@[j] == #[trigger] stored_offset(bytes@, j),
        decreases footer_offset - data_offset,
    {
        let offset = get_u32_le(bytes, data_offset);
        offsets.push(offset);
        data_offset += 4;
    }
    assert(offsets@ =~= stored_offsets(bytes@));
    offsets
}

/// The entries that `offsets` point to in the data section `section`, written
/// anew one after the other as a block; nothing where an entry does not lie
/// within the section, or where the entries do not fit in a block.
fn read_entries(section: &[u8], offsets: &Vec<u32>) -> (rebuilt: Option<Block>)
    ensures
        match rebuilt {
            Some(block) => {
                &&& block@ == entries_at(section@, offsets@)
                &&& entries_fit(section@, offsets@)
                &&& within_capacity(block@)
            },
            None => !entries_fit(section@, offsets@) || !within_capacity(
                entries_at(section@, offsets@),
            ),
        },
{
    let count = offsets.len();
    if count > SIZE_AVAILABLE / 4 {
        // the offsets alone are more than a block holds
        return None;
    }
    let mut data: Vec<u8> = Vec::new();
    let mut starts: Vec<u32> = Vec::new();
    proof {
        lemma_describes_nothing();
        assert(entries_at(section@, offsets@).take(0) =~= Seq::<Entry>::empty());
    }
    let mut i: usize = 0;
    while i < count
        invariant
            i <= count,
            count == offsets@.len(),
            4 * count <= SIZE_AVAILABLE,
            describes(data@, starts@, entries_at(section@, offsets@).take(i as int)),
            data@.len() + 4 * count <= SIZE_AVAILABLE,
            forall|j: int| 0 <= j < i ==> entry_fits_at(section@, #[trigger] offsets@[j] as int),
        decreases count - i,
    {
        let (key, value) = match entry_in(section, offsets[i] as usize) {
            Some(found) => found,
            None => {
                return None;
            },
        };
        let entry_size = key.len() + value.len() + 8;
        if entry_size > SIZE_AVAILABLE - 4 * count - data.len() {
            // more than a block holds
            proof {
                lemma_rebuilt_over_capacity(section@, offsets@, data@, starts@, i as int);
            }
            return None;
        }
        proof {
            lemma_rebuilt_step(section@, offsets@, data@, starts@, i as int);
        }
        starts.push(data.len() as u32);
        put_entry(&mut data, key, value);
        i += 1;
    }
    proof {
        assert(entries_at(section@, offsets@).take(i as int) =~= entries_at(section@, offsets@));
        lemma_described_entries(data@, starts@, entries_at(section@, offsets@));
    }
    Some(Block { data, offsets: starts, num_of_entries: count as u32 })
}

} // verus!
