use sstable_block::{Block, DecodeError, BLOCKSIZE, SIZE_AVAILABLE};

/// `count` pairs `("key_00000", "value_00000")`, `("key_00001", ...)`, ...
fn generate_key_value_pairs(count: usize) -> Vec<(String, String)> {
    let mut pairs = Vec::new();
    for i in 0..count {
        pairs.push((format!("key_{:05}", i), format!("value_{:05}", i)));
    }
    pairs
}

fn le(x: u32) -> Vec<u8> {
    vec![x as u8, (x >> 8) as u8, (x >> 16) as u8, (x >> 24) as u8]
}

fn byte_sum(bytes: &[u8]) -> u32 {
    let mut sum: u64 = 0;
    for b in bytes {
        sum += *b as u64;
    }
    (sum % (1u64 << 32)) as u32
}

/// A buffer laid out by hand: the fields as given, whatever they say, closed
/// by the checksum of all of them.
fn buffer(block_size: u32, count: u32, data: &[u8], offsets: &[u32], index_offset: u32) -> Vec<u8> {
    let mut bytes = Vec::new();
    bytes.extend(le(block_size));
    bytes.extend(le(count));
    bytes.extend_from_slice(data);
    for offset in offsets {
        bytes.extend(le(*offset));
    }
    bytes.extend(le(index_offset));
    let sum = byte_sum(&bytes);
    bytes.extend(le(sum));
    bytes
}

fn entry(key: &[u8], value: &[u8]) -> Vec<u8> {
    let mut bytes = le(key.len() as u32);
    bytes.extend_from_slice(key);
    bytes.extend(le(value.len() as u32));
    bytes.extend_from_slice(value);
    bytes
}

fn decode(bytes: Vec<u8>) -> Result<Block, DecodeError> {
    Block::new().decode(bytes)
}

fn full_block() -> Block {
    let mut block = Block::new();
    for (key, value) in generate_key_value_pairs(SIZE_AVAILABLE / 32) {
        assert!(block.add(&key, &value));
    }
    block
}

#[test]
fn check_max_entries_in_block() {
    let max_num_of_entries = SIZE_AVAILABLE / 32; //  32 bytes is the size of each entry when generated by the test rig
    let entries = generate_key_value_pairs(max_num_of_entries);
    let mut block = Block::new();
    for entry in entries {
        assert_eq!(block.add(&entry.0, &entry.1), true);
    }
    assert_eq!(block.add("key_0", "value_0"), false);
}

#[test]
fn check_encoding_decoding() {
    let num_of_entries = 500;
    let entries = generate_key_value_pairs(num_of_entries);
    let mut block = Block::new();
    for entry in entries {
        block.add(&entry.0, &entry.1);
    }
    let encoded_data = block.encode();
    let decoded_data = Block::decode(&block, encoded_data).unwrap();
    assert_eq!(block.num_of_entries(), decoded_data.num_of_entries());

    //  check that the data is the same
    for i in 0..block.data().len() {
        assert_eq!(block.data()[i], decoded_data.data()[i]);
    }
}

#[test]
fn five_hundred_entries_round_trip() {
    let mut block = Block::new();
    for (key, value) in generate_key_value_pairs(500) {
        assert!(block.add(&key, &value));
    }
    assert_eq!(block.num_of_entries(), 500);
    assert_eq!(block.data().len(), 500 * 28);
    let bytes = block.encode();
    assert_eq!(bytes.len(), 8 + 500 * 28 + 500 * 4 + 8);
    let back = decode(bytes).unwrap();
    assert_eq!(back.num_of_entries(), 500);
    assert_eq!(back.data(), block.data());
    assert_eq!(back.offsets(), block.offsets());
}

#[test]
fn constants_leave_room_for_header_and_footer() {
    assert_eq!(BLOCKSIZE, 16384);
    assert_eq!(SIZE_AVAILABLE, 16368);
}

#[test]
fn new_block_is_empty() {
    let block = Block::new();
    assert_eq!(block.num_of_entries(), 0);
    assert!(block.data().is_empty());
    assert!(block.offsets().is_empty());
}

#[test]
fn empty_block_encodes_to_header_and_footer() {
    let block = Block::new();
    let bytes = block.encode();
    assert_eq!(bytes, vec![16, 0, 0, 0, 0, 0, 0, 0, 8, 0, 0, 0, 24, 0, 0, 0]);
    let back = decode(bytes).unwrap();
    assert_eq!(back.num_of_entries(), 0);
    assert!(back.data().is_empty());
    assert!(back.offsets().is_empty());
}

#[test]
fn add_writes_length_prefixed_key_and_value() {
    let mut block = Block::new();
    assert!(block.add("a", "bc"));
    assert_eq!(block.num_of_entries(), 1);
    assert_eq!(block.data(), &[1, 0, 0, 0, 97, 2, 0, 0, 0, 98, 99][..]);
    assert_eq!(block.offsets(), &[0][..]);
    assert!(block.add("key", ""));
    assert_eq!(block.num_of_entries(), 2);
    assert_eq!(
        block.data(),
        &[1, 0, 0, 0, 97, 2, 0, 0, 0, 98, 99, 3, 0, 0, 0, 107, 101, 121, 0, 0, 0, 0][..]
    );
    assert_eq!(block.offsets(), &[0, 11][..]);
}

#[test]
fn add_takes_the_bytes_of_the_string() {
    let mut block = Block::new();
    assert!(block.add("é", "x"));
    assert_eq!(block.data(), &[2, 0, 0, 0, 195, 169, 1, 0, 0, 0, 120][..]);
}

#[test]
fn one_entry_encodes_to_the_layout() {
    let mut block = Block::new();
    assert!(block.add("a", "bc"));
    assert_eq!(
        block.encode(),
        vec![
            31, 0, 0, 0, 1, 0, 0, 0, // block size, entry count
            1, 0, 0, 0, 97, 2, 0, 0, 0, 98, 99, // the entry
            0, 0, 0, 0, // its offset
            19, 0, 0, 0, 92, 1, 0, 0, // index offset, checksum
        ]
    );
}

#[test]
fn two_entries_encode_to_the_layout() {
    let mut block = Block::new();
    assert!(block.add("key_00000", "value_00000"));
    assert!(block.add("key_00001", "value_00001"));
    let mut data = entry(b"key_00000", b"value_00000");
    data.extend(entry(b"key_00001", b"value_00001"));
    let expected = buffer(80, 2, &data, &[0, 28], 64);
    assert_eq!(expected[76..], [224, 12, 0, 0]);
    assert_eq!(block.encode(), expected);
}

#[test]
fn empty_key_and_value_are_legal() {
    let mut block = Block::new();
    assert!(block.add("", ""));
    assert_eq!(block.data(), &[0, 0, 0, 0, 0, 0, 0, 0][..]);
    let bytes = block.encode();
    assert_eq!(
        bytes,
        vec![
            28, 0, 0, 0, 1, 0, 0, 0, 0, 0, 0, 0, 0, 0, 0, 0, 0, 0, 0, 0, 16, 0, 0, 0, 45, 0, 0,
            0
        ]
    );
    let back = decode(bytes).unwrap();
    assert_eq!(back.num_of_entries(), 1);
    assert_eq!(back.data(), block.data());
}

#[test]
fn entries_of_one_size_fill_the_block_exactly() {
    // 32 bytes each with the offset slot: 511 fit, 512 do not
    let mut block = Block::new();
    let mut accepted = 0;
    for (key, value) in generate_key_value_pairs(600) {
        if block.add(&key, &value) {
            accepted += 1;
        }
    }
    assert_eq!(accepted, SIZE_AVAILABLE / 32);
    assert_eq!(accepted, 511);
    assert_eq!(block.num_of_entries(), 511);

    // 1112 bytes each with the offset slot: 14 fit, 15 do not
    let key = "k".repeat(100);
    let value = "v".repeat(1000);
    let mut block = Block::new();
    for _ in 0..14 {
        assert!(block.add(&key, &value));
    }
    assert!(!block.add(&key, &value));
    assert!(!block.add(&key, &value));
    assert_eq!(block.num_of_entries(), 14);
    assert_eq!(SIZE_AVAILABLE / (1108 + 4), 14);
}

#[test]
fn entry_that_fills_the_last_byte_is_accepted() {
    // 511 entries leave 16 bytes: four for the offset, eight for the two
    // lengths, four for key and value
    let mut block = full_block();
    assert_eq!(block.data().len() + 4 * block.offsets().len(), SIZE_AVAILABLE - 16);
    assert!(block.add("ab", "cd"));
    assert_eq!(block.data().len() + 4 * block.offsets().len(), SIZE_AVAILABLE);
    assert_eq!(block.encode().len(), BLOCKSIZE);
    assert!(!block.add("", ""));
}

#[test]
fn entry_one_byte_too_large_is_rejected() {
    let mut block = full_block();
    assert!(!block.add("ab", "cde"));
    assert!(!block.add("abc", "cd"));
    assert!(block.add("", "abcd"));
}

#[test]
fn rejected_entry_leaves_the_block_unchanged() {
    let mut block = full_block();
    let before = block.encode();
    assert!(!block.add("key_0", "value_0"));
    assert!(!block.add("key_0", "value_0"));
    assert_eq!(block.num_of_entries(), 511);
    assert_eq!(block.encode(), before);
    // a smaller entry is still taken afterwards
    assert!(block.add("k", "v"));
    assert_eq!(block.num_of_entries(), 512);
}

#[test]
fn oversized_entry_is_rejected_by_an_empty_block() {
    let mut block = Block::new();
    let value = "v".repeat(SIZE_AVAILABLE);
    assert!(!block.add("", &value));
    assert_eq!(block.num_of_entries(), 0);
    // the largest entry an empty block takes
    let value = "v".repeat(SIZE_AVAILABLE - 12);
    assert!(block.add("", &value));
    assert!(!block.add("", ""));
    assert_eq!(block.encode().len(), BLOCKSIZE);
}

#[test]
fn encoding_twice_gives_the_same_bytes() {
    let mut block = Block::new();
    for (key, value) in generate_key_value_pairs(100) {
        assert!(block.add(&key, &value));
    }
    assert_eq!(block.encode(), block.encode());
    let mut other = Block::new();
    for (key, value) in generate_key_value_pairs(100) {
        assert!(other.add(&key, &value));
    }
    assert_eq!(block.encode(), other.encode());
}

#[test]
fn offsets_are_the_starts_of_the_entries() {
    let mut block = Block::new();
    assert!(block.add("a", ""));
    assert!(block.add("bcd", "efgh"));
    assert!(block.add("", "x"));
    assert_eq!(block.offsets(), &[0, 9, 24][..]);
    assert_eq!(block.data().len(), 33);
}

#[test]
fn checksum_is_the_sum_of_the_bytes() {
    let block = Block::new();
    assert_eq!(block.calculate_checksum(&vec![]), 0);
    assert_eq!(block.calculate_checksum(&vec![1, 2, 3]), 6);
    assert_eq!(block.calculate_checksum(&vec![255, 255, 255]), 765);
}

#[test]
fn checksum_wraps_at_32_bits() {
    let block = Block::new();
    let bytes = vec![255u8; 17_000_000];
    assert_eq!(block.calculate_checksum(&bytes), 40_032_704);
}

#[test]
fn any_flipped_bit_is_a_checksum_mismatch() {
    let mut block = Block::new();
    for (key, value) in generate_key_value_pairs(3) {
        assert!(block.add(&key, &value));
    }
    let bytes = block.encode();
    for i in 0..bytes.len() {
        for bit in 0..8 {
            let mut corrupt = bytes.clone();
            corrupt[i] ^= 1 << bit;
            assert_eq!(decode(corrupt).err(), Some(DecodeError::ChecksumMismatch));
        }
    }
}

#[test]
fn changes_that_cancel_in_the_sum_pass_the_checksum() {
    // the known weakness of an additive checksum: two bytes swapped
    let mut block = Block::new();
    assert!(block.add("ab", "cd"));
    let mut bytes = block.encode();
    bytes.swap(12, 13);
    let back = decode(bytes).unwrap();
    assert_eq!(back.data(), &[2, 0, 0, 0, 98, 97, 2, 0, 0, 0, 99, 100][..]);
}

#[test]
fn buffer_too_short_for_a_checksum_is_corrupt() {
    assert_eq!(decode(vec![]).err(), Some(DecodeError::StructuralCorruption));
    assert_eq!(decode(vec![0, 0, 0]).err(), Some(DecodeError::StructuralCorruption));
}

#[test]
fn checksum_is_judged_before_the_structure() {
    // too short for header and footer, and the checksum is wrong
    assert_eq!(decode(vec![1, 0, 0, 0]).err(), Some(DecodeError::ChecksumMismatch));
    assert_eq!(
        decode(vec![1, 2, 3, 4, 5, 6, 7, 8, 0, 0, 0, 0]).err(),
        Some(DecodeError::ChecksumMismatch)
    );
    // too short for header and footer, and the checksum is right
    assert_eq!(decode(vec![0, 0, 0, 0]).err(), Some(DecodeError::StructuralCorruption));
    assert_eq!(
        decode(vec![1, 2, 3, 4, 5, 6, 7, 8, 36, 0, 0, 0]).err(),
        Some(DecodeError::StructuralCorruption)
    );
}

#[test]
fn hand_laid_buffer_decodes() {
    let data = entry(b"a", b"bc");
    let bytes = buffer(31, 1, &data, &[0], 19);
    let back = decode(bytes).unwrap();
    assert_eq!(back.num_of_entries(), 1);
    assert_eq!(back.data(), &data[..]);
    assert_eq!(back.offsets(), &[0][..]);
}

#[test]
fn wrong_block_size_is_corrupt() {
    let data = entry(b"a", b"bc");
    assert!(decode(buffer(31, 1, &data, &[0], 19)).is_ok());
    assert_eq!(
        decode(buffer(30, 1, &data, &[0], 19)).err(),
        Some(DecodeError::StructuralCorruption)
    );
    assert_eq!(
        decode(buffer(32, 1, &data, &[0], 19)).err(),
        Some(DecodeError::StructuralCorruption)
    );
    assert_eq!(
        decode(buffer(0, 1, &data, &[0], 19)).err(),
        Some(DecodeError::StructuralCorruption)
    );
}

#[test]
fn wrong_entry_count_is_corrupt() {
    let data = entry(b"a", b"bc");
    assert_eq!(
        decode(buffer(31, 0, &data, &[0], 19)).err(),
        Some(DecodeError::StructuralCorruption)
    );
    assert_eq!(
        decode(buffer(31, 2, &data, &[0], 19)).err(),
        Some(DecodeError::StructuralCorruption)
    );
}

#[test]
fn index_offset_outside_the_block_is_corrupt() {
    let data = entry(b"a", b"bc");
    // inside the header
    assert_eq!(
        decode(buffer(31, 1, &data, &[0], 7)).err(),
        Some(DecodeError::StructuralCorruption)
    );
    // inside the footer
    assert_eq!(
        decode(buffer(31, 0, &data, &[0], 24)).err(),
        Some(DecodeError::StructuralCorruption)
    );
    // past the end
    assert_eq!(
        decode(buffer(31, 1, &data, &[0], 4000)).err(),
        Some(DecodeError::StructuralCorruption)
    );
}

#[test]
fn index_that_is_no_whole_number_of_offsets_is_corrupt() {
    let data = entry(b"a", b"bc");
    // the index would start one byte early and hold five bytes
    assert_eq!(
        decode(buffer(31, 1, &data, &[0], 18)).err(),
        Some(DecodeError::StructuralCorruption)
    );
}

#[test]
fn offset_outside_the_data_section_is_corrupt() {
    let data = entry(b"a", b"bc");
    assert_eq!(
        decode(buffer(31, 1, &data, &[11], 19)).err(),
        Some(DecodeError::StructuralCorruption)
    );
    assert_eq!(
        decode(buffer(31, 1, &data, &[8], 19)).err(),
        Some(DecodeError::StructuralCorruption)
    );
    assert_eq!(
        decode(buffer(31, 1, &data, &[u32::MAX], 19)).err(),
        Some(DecodeError::StructuralCorruption)
    );
}

#[test]
fn key_length_past_the_data_section_is_corrupt() {
    let mut data = entry(b"a", b"bc");
    data[0] = 8;
    assert_eq!(
        decode(buffer(31, 1, &data, &[0], 19)).err(),
        Some(DecodeError::StructuralCorruption)
    );
    data[0] = 1;
    data[3] = 255;
    assert_eq!(
        decode(buffer(31, 1, &data, &[0], 19)).err(),
        Some(DecodeError::StructuralCorruption)
    );
}

#[test]
fn value_length_past_the_data_section_is_corrupt() {
    let mut data = entry(b"a", b"bc");
    data[5] = 3;
    assert_eq!(
        decode(buffer(31, 1, &data, &[0], 19)).err(),
        Some(DecodeError::StructuralCorruption)
    );
    // the value may not reach into the index
    data[5] = 6;
    assert_eq!(
        decode(buffer(31, 1, &data, &[0], 19)).err(),
        Some(DecodeError::StructuralCorruption)
    );
}

#[test]
fn gaps_are_dropped_and_offsets_renumbered() {
    // two bytes of filler before the first entry and three between the two
    let first = entry(b"a", b"bc");
    let second = entry(b"key", b"");
    let mut data = vec![7, 7];
    data.extend(first.clone());
    data.extend(vec![9, 9, 9]);
    data.extend(second.clone());
    assert_eq!(data.len(), 27);
    let bytes = buffer(8 + 27 + 8 + 8, 2, &data, &[2, 16], 8 + 27);
    let back = decode(bytes).unwrap();
    assert_eq!(back.num_of_entries(), 2);
    let mut dense = first;
    dense.extend(second);
    assert_eq!(back.data(), &dense[..]);
    assert_eq!(back.offsets(), &[0, 11][..]);
    // what was read encodes to a block without the gaps
    let again = decode(back.encode()).unwrap();
    assert_eq!(again.data(), back.data());
    assert_eq!(again.offsets(), back.offsets());
}

#[test]
fn entries_are_read_in_the_order_of_the_index() {
    let first = entry(b"a", b"bc");
    let second = entry(b"key", b"");
    let mut data = first.clone();
    data.extend(second.clone());
    let bytes = buffer(8 + 22 + 8 + 8, 2, &data, &[11, 0], 8 + 22);
    let back = decode(bytes).unwrap();
    let mut swapped = second;
    swapped.extend(first);
    assert_eq!(back.data(), &swapped[..]);
    assert_eq!(back.offsets(), &[0, 11][..]);
}

#[test]
fn entries_that_exceed_a_block_are_corrupt() {
    // three offsets to one entry of 8008 bytes: read anew they take 24024
    let value = vec![1u8; 8000];
    let data = entry(b"", &value);
    let size = (8 + data.len() + 12 + 8) as u32;
    let index_offset = (8 + data.len()) as u32;
    assert_eq!(
        decode(buffer(size, 3, &data, &[0, 0, 0], index_offset)).err(),
        Some(DecodeError::StructuralCorruption)
    );
    // two of them still fit
    let size = (8 + data.len() + 8 + 8) as u32;
    let back = decode(buffer(size, 2, &data, &[0, 0], index_offset)).unwrap();
    assert_eq!(back.num_of_entries(), 2);
    assert_eq!(back.data().len(), 16016);
    assert_eq!(back.offsets(), &[0, 8008][..]);
}

#[test]
fn buffer_larger_than_a_block_is_corrupt() {
    let value = vec![1u8; SIZE_AVAILABLE];
    let data = entry(b"", &value);
    let size = (8 + data.len() + 4 + 8) as u32;
    let index_offset = (8 + data.len()) as u32;
    assert_eq!(
        decode(buffer(size, 1, &data, &[0], index_offset)).err(),
        Some(DecodeError::StructuralCorruption)
    );
}

#[test]
fn full_block_round_trips() {
    let mut block = full_block();
    assert!(block.add("ab", "cd"));
    let bytes = block.encode();
    assert_eq!(bytes.len(), BLOCKSIZE);
    let back = decode(bytes.clone()).unwrap();
    assert_eq!(back.num_of_entries(), 512);
    assert_eq!(back.data(), block.data());
    assert_eq!(back.offsets(), block.offsets());
    assert_eq!(back.encode(), bytes);
}

#[test]
fn decoded_block_takes_more_entries() {
    let mut block = Block::new();
    assert!(block.add("a", "bc"));
    let mut back = decode(block.encode()).unwrap();
    assert!(back.add("key", ""));
    assert!(block.add("key", ""));
    assert_eq!(back.encode(), block.encode());
}

#[test]
fn receiver_plays_no_part_in_decoding() {
    let mut block = Block::new();
    assert!(block.add("a", "bc"));
    let bytes = block.encode();
    let by_empty = Block::new().decode(bytes.clone()).unwrap();
    let by_full = full_block().decode(bytes).unwrap();
    assert_eq!(by_empty.data(), by_full.data());
    assert_eq!(by_empty.num_of_entries(), 1);
}

#[test]
fn data_that_no_offset_points_to_is_dropped() {
    let data = entry(b"a", b"bc");
    let back = decode(buffer(8 + 11 + 8, 0, &data, &[], 8 + 11)).unwrap();
    assert_eq!(back.num_of_entries(), 0);
    assert!(back.data().is_empty());
    assert_eq!(back.encode(), vec![16, 0, 0, 0, 0, 0, 0, 0, 8, 0, 0, 0, 24, 0, 0, 0]);
}

#[test]
fn overlapping_entries_are_each_read_whole() {
    // the second offset points into the value of the first entry, where the
    // bytes happen to read as an entry of their own
    let inner = entry(b"k", b"v");
    let outer = entry(b"key", &inner);
    let size = (8 + outer.len() + 8 + 8) as u32;
    let index_offset = (8 + outer.len()) as u32;
    let back = decode(buffer(size, 2, &outer, &[0, 11], index_offset)).unwrap();
    assert_eq!(back.num_of_entries(), 2);
    let mut dense = outer.clone();
    dense.extend(inner);
    assert_eq!(back.data(), &dense[..]);
    assert_eq!(back.offsets(), &[0, 21][..]);
}

#[test]
fn decoding_never_panics_and_gives_blocks_that_encode() {
    // buffers with a right checksum and fields drawn at random around the
    // right values
    let mut state: u64 = 0x2545_f491_4f6c_dd1d;
    let mut next = move |bound: u64| -> u64 {
        state ^= state << 13;
        state ^= state >> 7;
        state ^= state << 17;
        state % bound
    };
    let mut accepted = 0;
    let mut rejected = 0;
    for _ in 0..4000 {
        let mut data = Vec::new();
        let mut offsets = Vec::new();
        for _ in 0..next(5) {
            offsets.push(data.len() as u32);
            let key = vec![b'k'; next(6) as usize];
            let value = vec![b'v'; next(9) as usize];
            data.extend(entry(&key, &value));
        }
        let mut size = (8 + data.len() + 4 * offsets.len() + 8) as u32;
        let mut count = offsets.len() as u32;
        let mut index_offset = (8 + data.len()) as u32;
        match next(8) {
            0 => size = size.wrapping_add(next(9) as u32).wrapping_sub(4),
            1 => count = count.wrapping_add(next(5) as u32).wrapping_sub(2),
            2 => index_offset = index_offset.wrapping_add(next(17) as u32).wrapping_sub(8),
            3 => {
                if !offsets.is_empty() {
                    let i = next(offsets.len() as u64) as usize;
                    offsets[i] = next(data.len() as u64 + 4) as u32;
                }
            }
            4 => {
                if !data.is_empty() {
                    let i = next(data.len() as u64) as usize;
                    data[i] = next(256) as u8;
                }
            }
            _ => {}
        }
        let bytes = buffer(size, count, &data, &offsets, index_offset);
        match decode(bytes) {
            Ok(block) => {
                accepted += 1;
                assert_eq!(block.num_of_entries() as usize, block.offsets().len());
                assert!(block.data().len() + 4 * block.offsets().len() <= SIZE_AVAILABLE);
                let again = decode(block.encode()).unwrap();
                assert_eq!(again.data(), block.data());
                assert_eq!(again.offsets(), block.offsets());
            }
            Err(e) => {
                rejected += 1;
                assert_eq!(e, DecodeError::StructuralCorruption);
            }
        }
    }
    assert!(accepted > 1000);
    assert!(rejected > 500);
}
