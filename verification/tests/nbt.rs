use craftrs_level::chunk::{ChunkColumn47, NbtLevel, NbtSection};
use craftrs_level::containers::ReadContainer;

fn section_entry(y: i8) -> NbtSection {
    let mut blocks = Vec::new();
    for j in 0..4096u16 {
        blocks.push((j as u8).wrapping_add(y as u8));
    }
    let mut data = Vec::new();
    for j in 0..2048u16 {
        data.push(j as u8);
    }
    let mut light = Vec::new();
    for j in 0..2048u16 {
        light.push((j as u8).wrapping_mul(7));
    }
    let mut sky = Vec::new();
    for j in 0..2048u16 {
        sky.push((j as u8).wrapping_mul(11));
    }
    NbtSection {
        y: Some(y),
        blocks: Some(blocks),
        data: Some(data),
        block_light: Some(light),
        sky_light: Some(sky),
    }
}

fn level(entries: Vec<NbtSection>) -> NbtLevel {
    let mut biomes = Vec::new();
    for j in 0..256u16 {
        biomes.push(j as u8);
    }
    NbtLevel { sections: Some(entries), biomes: Some(biomes) }
}

#[test]
fn from_nbt_reinterleaves_ids_and_metadata() {
    let nbt = level(vec![section_entry(2), section_entry(7)]);
    let col = ChunkColumn47::from_nbt(&nbt, true).unwrap();
    assert_eq!(col.primary_bitmap(), (1 << 2) | (1 << 7));
    let s = col.section(2).unwrap();
    // block 0: id byte 2, metadata = high nibble of data byte 0 (0)
    assert_eq!(s.blocks().get(0).id(), 2);
    assert_eq!(s.blocks().get(0).metadata(), 0);
    // block 5: id byte 7, metadata = low nibble of data byte 2 (2)
    assert_eq!(s.blocks().get(5).id(), 7);
    assert_eq!(s.blocks().get(5).metadata(), 2);
    assert_eq!(s.light().bytes()[3], 21);
    assert_eq!(s.skylight().unwrap().bytes()[1], 11);
}

#[test]
fn from_nbt_entries_supply_their_own_slots_and_later_wins() {
    let mut a = section_entry(4);
    let mut b = section_entry(4);
    a.blocks.as_mut().unwrap()[0] = 100;
    b.blocks.as_mut().unwrap()[0] = 200;
    let nbt = level(vec![a, b]);
    let col = ChunkColumn47::from_nbt(&nbt, true).unwrap();
    assert_eq!(col.primary_bitmap(), 1 << 4);
    assert_eq!(col.section(4).unwrap().blocks().get(0).id(), 200);
}

#[test]
fn from_nbt_rejects_missing_or_missized_tags() {
    // wrong Blocks length
    let mut bad = section_entry(0);
    bad.blocks.as_mut().unwrap().pop();
    assert!(ChunkColumn47::from_nbt(&level(vec![bad]), true).is_none());

    // missing Data tag
    let mut bad = section_entry(0);
    bad.data = None;
    assert!(ChunkColumn47::from_nbt(&level(vec![bad]), true).is_none());

    // wrong BlockLight length
    let mut bad = section_entry(0);
    bad.block_light.as_mut().unwrap().push(0);
    assert!(ChunkColumn47::from_nbt(&level(vec![bad]), true).is_none());

    // missing SkyLight while sky light is expected
    let mut bad = section_entry(0);
    bad.sky_light = None;
    assert!(ChunkColumn47::from_nbt(&level(vec![bad]), true).is_none());
    // ... but fine when it is not
    let mut ok = section_entry(0);
    ok.sky_light = None;
    assert!(ChunkColumn47::from_nbt(&level(vec![ok]), false).is_some());

    // slot index out of range
    let mut bad = section_entry(0);
    bad.y = Some(16);
    assert!(ChunkColumn47::from_nbt(&level(vec![bad]), true).is_none());
    let mut bad = section_entry(0);
    bad.y = Some(-1);
    assert!(ChunkColumn47::from_nbt(&level(vec![bad]), true).is_none());

    // missing sections list or missized biomes
    let no_sections = NbtLevel { sections: None, biomes: Some(vec![0; 256]) };
    assert!(ChunkColumn47::from_nbt(&no_sections, true).is_none());
    let mut bad_level = level(vec![section_entry(0)]);
    bad_level.biomes.as_mut().unwrap().pop();
    assert!(ChunkColumn47::from_nbt(&bad_level, true).is_none());
}

#[test]
fn from_nbt_column_encodes_sections_then_biomes() {
    let nbt = level(vec![section_entry(0)]);
    let col = ChunkColumn47::from_nbt(&nbt, false).unwrap();
    let enc = col.encode();
    // one section without sky light, then the biome bytes
    assert_eq!(enc.len(), 8192 + 2048 + 256);
    // block 0 little-endian: id 0, metadata 0 -> raw 0x0000
    assert_eq!(enc[0], 0);
    assert_eq!(enc[8192 + 2048], 0);
    assert_eq!(enc[8192 + 2048 + 255], 255);
}
