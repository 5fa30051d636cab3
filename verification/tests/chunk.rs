use craftrs_level::chunk::{bit_at, ChunkColumn0, ChunkColumn47, DecodeError};
use craftrs_level::containers::{ReadContainer, WriteContainer};

#[test]
fn _bit_at() {
    let bitmask = 0b1010101010101010u16;
    for i in 0u8..16 {
        let bit = bit_at(bitmask, i);
        if i % 2 == 0 && bit {
            panic!("{i}th bit should be 0!")
        }
        if i % 2 == 1 && !bit {
            panic!("bit {i} should be 1!")
        }
    }
}

#[test]
fn _from_reader() {
    // first we generate the data
    let bitmask = 0b1011001110110011u16;
    let add = 0b1001001010010010u16;
    let skylight = true;

    let mut data = Vec::<u8>::new();

    for i in 0u8..16 {
        let exists = bit_at(bitmask, i);
        let add = bit_at(add, i);
        println!("{:b}", add as u8);
        if exists {
            for i in 0u16..4096 {
                data.push(i as u8);
                data.push(((i & 0xf0) >> 8) as u8)
            }
        }
        if add {
            for i in 0u16..2048 {
                data.push(i as u8)
            }
        }
        if skylight {
            for i in 0u16..2048 {
                data.push(i as u8)
            }
        }
        for i in 0u8..=255 {
            data.push(i)
        }
    }
    let (mut chunk, _) = ChunkColumn0::from_reader(&data, 0, skylight, bitmask, add).unwrap();
    drop(data);
    chunk.insert_section(6, false);
}

/// One legacy column's worth of patterned bytes for the given configuration.
fn legacy_column_bytes(bitmask: u16, add: u16, skylight: bool) -> Vec<u8> {
    let mut data = Vec::new();
    for i in 0u8..16 {
        if bit_at(bitmask, i) {
            let mut size = 4096 + 2048 + 2048;
            if skylight {
                size += 2048;
            }
            if bit_at(add, i) {
                size += 2048;
            }
            for k in 0..size {
                data.push((k as u8).wrapping_add(i));
            }
        }
    }
    for k in 0..256u16 {
        data.push(k as u8);
    }
    data
}

#[test]
fn legacy_round_trip_with_add_and_skylight() {
    let bitmask = 0b0000000000000101u16;
    let add = 0b0000000000000100u16;
    let data = legacy_column_bytes(bitmask, add, true);
    let (col, consumed) = ChunkColumn0::from_reader(&data, 0, true, bitmask, add).unwrap();
    assert_eq!(consumed, data.len());
    assert_eq!(col.encode_raw(), data);
    assert_eq!(col.construct_bitmask(), bitmask);
    assert_eq!(col.construct_add(), add);
    assert!(col.skylight());
}

#[test]
fn legacy_round_trip_with_neither_optional_array() {
    let bitmask = 0b0000000000010001u16;
    let data = legacy_column_bytes(bitmask, 0, false);
    let (col, consumed) = ChunkColumn0::from_reader(&data, 0, false, bitmask, 0).unwrap();
    assert_eq!(consumed, data.len());
    assert_eq!(col.encode_raw(), data);
    assert_eq!(col.construct_bitmask(), bitmask);
    assert_eq!(col.construct_add(), 0);
}

/// One combined-layout column's worth of patterned bytes.
fn combined_column_bytes(bitmask: u16, skylight: bool) -> Vec<u8> {
    let mut data = Vec::new();
    for i in 0u8..16 {
        if bit_at(bitmask, i) {
            let mut size = 8192 + 2048;
            if skylight {
                size += 2048;
            }
            for k in 0..size {
                data.push((k as u8).wrapping_mul(3).wrapping_add(i));
            }
        }
    }
    for k in 0..256u16 {
        data.push(k as u8);
    }
    data
}

#[test]
fn combined_round_trip_with_skylight() {
    let bitmask = 0b0000000000001001u16;
    let data = combined_column_bytes(bitmask, true);
    let (col, consumed) = ChunkColumn47::from_reader(&data, 0, true, bitmask).unwrap();
    assert_eq!(consumed, data.len());
    assert_eq!(col.encode(), data);
    assert_eq!(col.primary_bitmap(), bitmask);
}

#[test]
fn truncated_legacy_input_is_rejected() {
    let bitmask = 0b0000000000000101u16;
    let add = 0b0000000000000100u16;
    let mut data = legacy_column_bytes(bitmask, add, true);
    data.pop();
    let r = ChunkColumn0::from_reader(&data, 0, true, bitmask, add);
    assert!(matches!(r, Err(DecodeError::UnexpectedEndOfSlice)));
}

#[test]
fn truncated_combined_input_is_rejected() {
    let bitmask = 0b0000000000001001u16;
    let mut data = combined_column_bytes(bitmask, true);
    data.pop();
    let r = ChunkColumn47::from_reader(&data, 0, true, bitmask);
    assert!(matches!(r, Err(DecodeError::UnexpectedEndOfSlice)));
}

#[test]
fn compressed_encode_is_the_zlib_stream_of_the_raw_bytes() {
    let bitmask = 0b0000000000000001u16;
    let data = legacy_column_bytes(bitmask, 0, true);
    let (col, _) = ChunkColumn0::from_reader(&data, 0, true, bitmask, 0).unwrap();
    let raw = col.encode_raw();
    let compressed = col.encode().unwrap();
    assert_ne!(compressed, raw);
    let mut decoder = flate2::read::ZlibDecoder::new(compressed.as_slice());
    let mut round = Vec::new();
    std::io::Read::read_to_end(&mut decoder, &mut round).unwrap();
    assert_eq!(round, raw);
}

#[test]
fn insert_section_and_add_show_up_in_the_masks() {
    let data = legacy_column_bytes(0, 0, true);
    let (mut col, _) = ChunkColumn0::from_reader(&data, 0, true, 0, 0).unwrap();
    assert_eq!(col.construct_bitmask(), 0);
    col.insert_section(3, false);
    col.insert_section(9, true);
    assert_eq!(col.construct_bitmask(), (1 << 3) | (1 << 9));
    assert_eq!(col.construct_add(), 1 << 9);
    col.insert_add(3);
    assert_eq!(col.construct_add(), (1 << 3) | (1 << 9));
    assert!(col.section(3).is_some());
    assert!(col.section(0).is_none());
}

#[test]
fn section_mut_edits_reach_the_encoded_bytes() {
    let bitmask = 0b0000000000000001u16;
    let data = legacy_column_bytes(bitmask, 0, false);
    let (mut col, _) = ChunkColumn0::from_reader(&data, 0, false, bitmask, 0).unwrap();
    {
        let s = col.section_mut(0).unwrap();
        s.blocks_mut().set(0, 0xEE);
        s.metadata_mut().set(0, 0x0A);
        s.light_mut().set(1, 0x0B);
    }
    let enc = col.encode_raw();
    assert_eq!(enc[0], 0xEE);
    // metadata nibble 0 is the high nibble of the byte after the block array
    assert_eq!(enc[4096] >> 4, 0x0A);
    // light nibble 1 is the low nibble of the first light byte
    assert_eq!(enc[4096 + 2048] & 0x0f, 0x0B);
    let s = col.section(0).unwrap();
    assert_eq!(s.blocks().get(0), 0xEE);
    assert_eq!(s.metadata().get(0), 0x0A);
    assert_eq!(s.light().get(1), 0x0B);
    assert!(s.skylight().is_none());
    assert!(s.add().is_none());
}

#[test]
fn combined_insert_section_is_zeroed() {
    let data = combined_column_bytes(0, true);
    let (mut col, _) = ChunkColumn47::from_reader(&data, 0, true, 0).unwrap();
    col.insert_section(5, true);
    assert_eq!(col.primary_bitmap(), 1 << 5);
    let s = col.section(5).unwrap();
    assert_eq!(s.blocks().get(0).id(), 0);
    assert_eq!(s.light().get(0), 0);
    assert!(s.skylight().is_some());
    assert!(col.section_mut(4).is_none());
}
