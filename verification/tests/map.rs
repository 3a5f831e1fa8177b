use region_map::anvil::{decode_chunk, inflate, LoadError, RegionError, RegionFile};
use region_map::map::{Chunk, ChunkSection, Region};
use region_map::nbt::{Compound, Tag};
use region_map::palette::{palette_entry, GraphicPropertyIndex, PaletteEntry, SectionError};
use std::io::Write;

fn s(text: &str) -> String {
    String::from(text)
}

fn pack(indices: &[usize], width: usize) -> Vec<i64> {
    let mut bytes = vec![0u8; indices.len() * width / 8];
    for (i, index) in indices.iter().enumerate() {
        for j in 0..width {
            if (index >> j) & 1 == 1 {
                let bit = i * width + j;
                bytes[bit / 8] |= 1 << (bit % 8);
            }
        }
    }
    bytes
        .chunks(8)
        .map(|c| i64::from_le_bytes([c[0], c[1], c[2], c[3], c[4], c[5], c[6], c[7]]))
        .collect()
}

fn index_of(blocks: &[(&str, &[(&str, usize)])]) -> GraphicPropertyIndex {
    let mut index = GraphicPropertyIndex::new();
    for (name, order) in blocks {
        let order: Vec<(String, usize)> = order.iter().map(|(k, i)| (s(k), *i)).collect();
        index.insert(s(name), &order);
    }
    index
}

fn block(name: &str, props: &[(&str, &str)]) -> Tag {
    let mut c = Compound::new();
    c.insert(s("Name"), Tag::String(s(name)));
    if !props.is_empty() {
        let mut p = Compound::new();
        for (k, v) in props {
            p.insert(s(k), Tag::String(s(v)));
        }
        c.insert(s("Properties"), Tag::Compound(p));
    }
    Tag::Compound(c)
}

fn section(y: i8, palette: Vec<Tag>, indices: &[usize]) -> Compound {
    let width = {
        let mut w = 4;
        while (1usize << w) < palette.len() {
            w += 1;
        }
        w
    };
    let mut c = Compound::new();
    c.insert(s("Y"), Tag::Byte(y));
    c.insert(s("Palette"), Tag::List(palette));
    c.insert(s("BlockStates"), Tag::LongArray(pack(indices, width)));
    c
}

fn at(x: usize, y: usize, z: usize) -> usize {
    y * 256 + z * 16 + x
}

fn simple_index() -> GraphicPropertyIndex {
    index_of(&[
        ("minecraft:air", &[]),
        ("minecraft:stone", &[]),
        ("minecraft:oak_stairs", &[("facing", 0), ("half", 1), ("shape", 2)]),
        ("minecraft:oak_fence", &[("east", 0), ("north", 1)]),
    ])
}

fn stone_section(y: i8) -> Compound {
    let mut indices = vec![0usize; 4096];
    indices[at(1, 2, 3)] = 1;
    indices[at(15, 15, 15)] = 2;
    section(
        y,
        vec![
            block("minecraft:air", &[]),
            block("minecraft:stone", &[]),
            block("minecraft:oak_stairs", &[("half", "top"), ("facing", "east"), ("waterlogged", "false")]),
        ],
        &indices,
    )
}

fn level(sections: Vec<Compound>) -> Compound {
    let mut c = Compound::new();
    c.insert(s("Sections"), Tag::List(sections.into_iter().map(Tag::Compound).collect()));
    c
}

fn write_payload(tag: &Tag, out: &mut Vec<u8>) {
    match tag {
        Tag::Byte(n) => out.push(*n as u8),
        Tag::Short(n) => out.extend_from_slice(&n.to_be_bytes()),
        Tag::Int(n) => out.extend_from_slice(&n.to_be_bytes()),
        Tag::Long(n) => out.extend_from_slice(&n.to_be_bytes()),
        Tag::Float(n) => out.extend_from_slice(&n.to_be_bytes()),
        Tag::Double(n) => out.extend_from_slice(&n.to_be_bytes()),
        Tag::ByteArray(a) => {
            out.extend_from_slice(&(a.len() as i32).to_be_bytes());
            for b in a {
                out.push(*b as u8);
            }
        }
        Tag::String(text) => {
            out.extend_from_slice(&(text.len() as u16).to_be_bytes());
            out.extend_from_slice(text.as_bytes());
        }
        Tag::List(items) => {
            out.push(if items.is_empty() { 0 } else { id_of(&items[0]) });
            out.extend_from_slice(&(items.len() as i32).to_be_bytes());
            for item in items {
                write_payload(item, out);
            }
        }
        Tag::Compound(c) => write_members(c, out),
        Tag::IntArray(a) => {
            out.extend_from_slice(&(a.len() as i32).to_be_bytes());
            for n in a {
                out.extend_from_slice(&n.to_be_bytes());
            }
        }
        Tag::LongArray(a) => {
            out.extend_from_slice(&(a.len() as i32).to_be_bytes());
            for n in a {
                out.extend_from_slice(&n.to_be_bytes());
            }
        }
    }
}

fn write_members(c: &Compound, out: &mut Vec<u8>) {
    for i in 0..c.len() {
        out.push(id_of(c.tag_at(i)));
        out.extend_from_slice(&(c.name_at(i).len() as u16).to_be_bytes());
        out.extend_from_slice(c.name_at(i).as_bytes());
        write_payload(c.tag_at(i), out);
    }
    out.push(0);
}

fn id_of(tag: &Tag) -> u8 {
    match tag {
        Tag::Byte(_) => 1,
        Tag::Short(_) => 2,
        Tag::Int(_) => 3,
        Tag::Long(_) => 4,
        Tag::Float(_) => 5,
        Tag::Double(_) => 6,
        Tag::ByteArray(_) => 7,
        Tag::String(_) => 8,
        Tag::List(_) => 9,
        Tag::Compound(_) => 10,
        Tag::IntArray(_) => 11,
        Tag::LongArray(_) => 12,
    }
}

/// The document of a chunk: an unnamed root compound with a `Level` member.
fn chunk_document(level: Compound) -> Vec<u8> {
    let mut inner = Compound::new();
    inner.insert(s("Level"), Tag::Compound(level));
    let mut root = Compound::new();
    root.insert(s(""), Tag::Compound(inner));
    let mut out = Vec::new();
    write_members(&root, &mut out);
    // the document of a file carries no terminator of its own
    out.pop();
    out
}

fn zlib(data: &[u8]) -> Vec<u8> {
    let mut e = flate2::write::ZlibEncoder::new(Vec::new(), flate2::Compression::default());
    e.write_all(data).unwrap();
    e.finish().unwrap()
}

fn gzip(data: &[u8]) -> Vec<u8> {
    let mut e = flate2::write::GzEncoder::new(Vec::new(), flate2::Compression::default());
    e.write_all(data).unwrap();
    e.finish().unwrap()
}

/// A region file with the given chunks, each a slot number, a compression
/// kind and a compressed body.
fn region_file(chunks: &[(usize, u8, Vec<u8>)]) -> Vec<u8> {
    let mut file = vec![0u8; 8192];
    for (slot, kind, body) in chunks {
        let offset = file.len() / 4096;
        let length = body.len() + 1;
        let sectors = (4 + length + 4095) / 4096;
        file[4 * slot] = (offset >> 16) as u8;
        file[4 * slot + 1] = (offset >> 8) as u8;
        file[4 * slot + 2] = offset as u8;
        file[4 * slot + 3] = sectors as u8;
        file.extend_from_slice(&(length as u32).to_be_bytes());
        file.push(*kind);
        file.extend_from_slice(body);
        while file.len() % 4096 != 0 {
            file.push(0);
        }
    }
    file
}

#[test]
fn palette_entry_joins_all_properties_in_order() {
    let index = simple_index();
    let entry = palette_entry(
        &block("minecraft:oak_stairs", &[("half", "top"), ("facing", "east"), ("waterlogged", "false")]),
        &index,
    )
    .unwrap();
    assert_eq!(entry.name, "minecraft:oak_stairs");
    assert_eq!(entry.properties, "half=top,facing=east,waterlogged=false");
    assert_eq!(entry.graphic_properties, "facing=east,half=top,");
}

#[test]
fn graphic_properties_follow_the_canonical_order() {
    // canonical ordering [facing, waterlogged]
    let index = index_of(&[("minecraft:oak_sign", &[("facing", 0), ("waterlogged", 1)])]);
    let one = palette_entry(
        &block("minecraft:oak_sign", &[("waterlogged", "true"), ("facing", "north")]),
        &index,
    )
    .unwrap();
    let other = palette_entry(
        &block("minecraft:oak_sign", &[("facing", "north"), ("waterlogged", "true")]),
        &index,
    )
    .unwrap();
    assert_eq!(one.graphic_properties, "facing=north,waterlogged=true");
    assert_eq!(other.graphic_properties, "facing=north,waterlogged=true");
    assert_eq!(one.properties, "waterlogged=true,facing=north");
    assert_eq!(other.properties, "facing=north,waterlogged=true");
}

#[test]
fn block_without_properties_has_empty_slots() {
    let index = simple_index();
    let stone = palette_entry(&block("minecraft:stone", &[]), &index).unwrap();
    assert_eq!(
        stone,
        PaletteEntry { name: s("minecraft:stone"), properties: s(""), graphic_properties: s("") }
    );
    let fence = palette_entry(&block("minecraft:oak_fence", &[]), &index).unwrap();
    assert_eq!(fence.properties, "");
    assert_eq!(fence.graphic_properties, ",");
    let stairs = palette_entry(&block("minecraft:oak_stairs", &[("shape", "straight")]), &index).unwrap();
    assert_eq!(stairs.graphic_properties, ",,shape=straight");
}

#[test]
fn unknown_block_is_a_configuration_error() {
    let index = simple_index();
    let r = palette_entry(&block("minecraft:mystery", &[]), &index);
    assert_eq!(r, Err(SectionError::UnknownBlock(s("minecraft:mystery"))));
    assert!(r.unwrap_err().is_fatal());
}

#[test]
fn slot_beyond_the_number_of_keys_is_rejected() {
    let index = index_of(&[("minecraft:odd", &[("c", 2)])]);
    let r = palette_entry(&block("minecraft:odd", &[("c", "1")]), &index);
    assert_eq!(r, Err(SectionError::BadSlot(s("minecraft:odd"))));
    assert!(r.unwrap_err().is_fatal());
    // a property that the ordering does not know is no trouble
    let fine = palette_entry(&block("minecraft:odd", &[("d", "1")]), &index).unwrap();
    assert_eq!(fine.properties, "d=1");
    assert_eq!(fine.graphic_properties, "");
}

#[test]
fn malformed_block_descriptions_are_rejected() {
    let index = simple_index();
    assert_eq!(palette_entry(&Tag::Byte(1), &index), Err(SectionError::Malformed));
    assert_eq!(palette_entry(&Tag::Compound(Compound::new()), &index), Err(SectionError::Malformed));
    let mut c = Compound::new();
    c.insert(s("Name"), Tag::Int(1));
    assert_eq!(palette_entry(&Tag::Compound(c), &index), Err(SectionError::Malformed));
    let mut c = Compound::new();
    c.insert(s("Name"), Tag::String(s("minecraft:stone")));
    c.insert(s("Properties"), Tag::Int(1));
    assert_eq!(palette_entry(&Tag::Compound(c), &index), Err(SectionError::Malformed));
    let mut p = Compound::new();
    p.insert(s("facing"), Tag::Int(1));
    let mut c = Compound::new();
    c.insert(s("Name"), Tag::String(s("minecraft:stone")));
    c.insert(s("Properties"), Tag::Compound(p));
    let r = palette_entry(&Tag::Compound(c), &index);
    assert_eq!(r, Err(SectionError::Malformed));
    assert!(!r.unwrap_err().is_fatal());
}

#[test]
fn index_insert_keeps_the_last_slot_of_a_key() {
    let mut index = GraphicPropertyIndex::new();
    assert!(!index.contains("minecraft:a"));
    index.insert(s("minecraft:a"), &vec![(s("k"), 1), (s("l"), 0), (s("k"), 0)]);
    assert!(index.contains("minecraft:a"));
    let entry = palette_entry(&block("minecraft:a", &[("k", "v")]), &index).unwrap();
    assert_eq!(entry.graphic_properties, "k=v,");
    index.insert(s("minecraft:a"), &vec![]);
    let entry = palette_entry(&block("minecraft:a", &[("k", "v")]), &index).unwrap();
    assert_eq!(entry.graphic_properties, "");
}

#[test]
fn section_is_decoded() {
    let index = simple_index();
    let (section, y) = ChunkSection::new(&stone_section(3), &index).unwrap();
    assert_eq!(y, 3);
    assert!(!section.is_empty());
    assert_eq!(section.palette().len(), 3);
    assert_eq!(section.get_index(1, 2, 3), 2 * 256 + 3 * 16 + 1);
    assert_eq!(section.get_index(15, 15, 15), 4095);
    assert_eq!(section.get_index(0, 0, 0), 0);
    assert_eq!(section.get_block(0, 0, 0), "minecraft:air");
    assert_eq!(section.get_block(1, 2, 3), "minecraft:stone");
    assert_eq!(section.get_block(3, 2, 1), "minecraft:air");
    assert_eq!(section.get_block(15, 15, 15), "minecraft:oak_stairs");
    assert_eq!(section.get_prop(15, 15, 15), "half=top,facing=east,waterlogged=false");
    assert_eq!(section.get_gprop(15, 15, 15), "facing=east,half=top,");
    assert_eq!(section.get_prop(1, 2, 3), "");
    assert_eq!(section.get_gprop(1, 2, 3), "");
}

#[test]
fn every_index_of_a_decoded_section_lies_inside_its_palette() {
    let index = simple_index();
    let (section, _) = ChunkSection::new(&stone_section(0), &index).unwrap();
    let n = section.palette().len();
    for y in 0..16 {
        for z in 0..16 {
            for x in 0..16 {
                let name = section.get_block(x, y, z);
                assert!(section.palette().iter().take(n).any(|e| e.name == name));
            }
        }
    }
}

#[test]
fn section_without_palette_is_empty() {
    let index = simple_index();
    let mut c = Compound::new();
    c.insert(s("Y"), Tag::Byte(-1));
    let (section, y) = ChunkSection::new(&c, &index).unwrap();
    assert_eq!(y, -1);
    assert!(section.is_empty());
    assert_eq!(section.palette().len(), 0);
}

#[test]
fn largest_index_must_be_the_last_palette_position() {
    let index = simple_index();
    // the palette has three entries, the indices reach only the second
    let mut indices = vec![0usize; 4096];
    indices[7] = 1;
    let short = section(
        0,
        vec![block("minecraft:air", &[]), block("minecraft:stone", &[]), block("minecraft:stone", &[])],
        &indices,
    );
    assert!(matches!(ChunkSection::new(&short, &index), Err(SectionError::PaletteMismatch)));
    // the indices reach beyond the palette
    indices[8] = 5;
    let long = section(0, vec![block("minecraft:air", &[]), block("minecraft:stone", &[])], &indices);
    assert!(matches!(ChunkSection::new(&long, &index), Err(SectionError::PaletteMismatch)));
    // an empty palette with block states
    let none = section(0, vec![], &vec![0usize; 4096]);
    assert!(matches!(ChunkSection::new(&none, &index), Err(SectionError::PaletteMismatch)));
}

#[test]
fn malformed_sections_are_rejected() {
    let index = simple_index();
    // no Y
    let mut c = Compound::new();
    c.insert(s("Palette"), Tag::List(vec![block("minecraft:air", &[])]));
    c.insert(s("BlockStates"), Tag::LongArray(vec![0; 256]));
    assert!(matches!(ChunkSection::new(&c, &index), Err(SectionError::Malformed)));
    assert!(matches!(ChunkSection::new(&Compound::new(), &index), Err(SectionError::Malformed)));
    // Y of the wrong kind
    let mut c = Compound::new();
    c.insert(s("Y"), Tag::Int(0));
    assert!(matches!(ChunkSection::new(&c, &index), Err(SectionError::Malformed)));
    // a palette that is no list
    let mut c = Compound::new();
    c.insert(s("Y"), Tag::Byte(0));
    c.insert(s("Palette"), Tag::Int(0));
    assert!(matches!(ChunkSection::new(&c, &index), Err(SectionError::Malformed)));
    // a palette without block states
    let mut c = Compound::new();
    c.insert(s("Y"), Tag::Byte(0));
    c.insert(s("Palette"), Tag::List(vec![block("minecraft:air", &[])]));
    assert!(matches!(ChunkSection::new(&c, &index), Err(SectionError::Malformed)));
    // block states that are too short
    c.insert(s("BlockStates"), Tag::LongArray(vec![0; 255]));
    assert!(matches!(ChunkSection::new(&c, &index), Err(SectionError::Malformed)));
    // block states of the wrong kind
    c.insert(s("BlockStates"), Tag::IntArray(vec![0; 256]));
    assert!(matches!(ChunkSection::new(&c, &index), Err(SectionError::Malformed)));
    // an unknown block comes before the rest
    let mut c = Compound::new();
    c.insert(s("Palette"), Tag::List(vec![block("minecraft:mystery", &[])]));
    assert_eq!(
        ChunkSection::new(&c, &index).unwrap_err(),
        SectionError::UnknownBlock(s("minecraft:mystery"))
    );
}

#[test]
fn section_with_seventeen_entries_uses_five_bits() {
    let mut blocks = vec![("minecraft:air", &[][..])];
    let names: Vec<String> = (1..17).map(|i| format!("minecraft:b{}", i)).collect();
    for name in &names {
        blocks.push((name.as_str(), &[][..]));
    }
    let index = index_of(&blocks);
    let palette: Vec<Tag> = blocks.iter().map(|(n, _)| block(n, &[])).collect();
    let indices: Vec<usize> = (0..4096).map(|i| i % 17).collect();
    let c = section(0, palette, &indices);
    assert_eq!(c.get("BlockStates").unwrap().as_i64_vec().unwrap().len(), 320);
    let (section, _) = ChunkSection::new(&c, &index).unwrap();
    assert_eq!(section.palette().len(), 17);
    for i in 0..4096usize {
        let expected = if i % 17 == 0 { s("minecraft:air") } else { format!("minecraft:b{}", i % 17) };
        assert_eq!(section.get_block(i % 16, i / 256, (i / 16) % 16), expected);
    }
}

#[test]
fn section_with_eight_entries_uses_four_bits() {
    let names: Vec<String> = (0..8).map(|i| format!("minecraft:b{}", i)).collect();
    let blocks: Vec<(&str, &[(&str, usize)])> = names.iter().map(|n| (n.as_str(), &[][..])).collect();
    let index = index_of(&blocks);
    let palette: Vec<Tag> = names.iter().map(|n| block(n, &[])).collect();
    let indices: Vec<usize> = (0..4096).map(|i| (i * 3) % 8).collect();
    let c = section(0, palette, &indices);
    assert_eq!(c.get("BlockStates").unwrap().as_i64_vec().unwrap().len(), 256);
    let (section, _) = ChunkSection::new(&c, &index).unwrap();
    for i in 0..4096usize {
        assert_eq!(
            section.get_block(i % 16, i / 256, (i / 16) % 16),
            format!("minecraft:b{}", (i * 3) % 8)
        );
    }
}

#[test]
fn chunk_places_sections_by_their_height() {
    let index = simple_index();
    let chunk = Chunk::new(&level(vec![stone_section(0), stone_section(5)]), &index).unwrap();
    assert_eq!(chunk.get_block(1, 2, 3), "minecraft:stone");
    assert_eq!(chunk.get_block(1, 5 * 16 + 2, 3), "minecraft:stone");
    assert_eq!(chunk.get_block(1, 16 + 2, 3), "minecraft:air");
    assert_eq!(chunk.get_block(15, 15, 15), "minecraft:oak_stairs");
    assert_eq!(chunk.get_prop(15, 95, 15), "half=top,facing=east,waterlogged=false");
    assert_eq!(chunk.get_gprop(15, 95, 15), "facing=east,half=top,");
    assert_eq!(chunk.get_prop(15, 255, 15), "");
    assert_eq!(chunk.get_gprop(15, 255, 15), "");
    assert_eq!(chunk.get_block(0, 255, 0), "minecraft:air");
}

#[test]
fn chunk_discards_empty_and_misplaced_sections() {
    let index = simple_index();
    let mut empty = Compound::new();
    empty.insert(s("Y"), Tag::Byte(2));
    let chunk = Chunk::new(
        &level(vec![stone_section(-1), stone_section(16), stone_section(-2), empty, stone_section(1)]),
        &index,
    )
    .unwrap();
    for section in 0..16 {
        let expected = if section == 1 { "minecraft:stone" } else { "minecraft:air" };
        assert_eq!(chunk.get_block(1, section * 16 + 2, 3), expected);
    }
}

#[test]
fn chunk_skips_sections_that_cannot_be_decoded() {
    let index = simple_index();
    let mut broken = Compound::new();
    broken.insert(s("Y"), Tag::Byte(4));
    broken.insert(s("Palette"), Tag::List(vec![block("minecraft:stone", &[])]));
    let sections = vec![Tag::Compound(broken), Tag::Int(3), Tag::Compound(stone_section(4))];
    let mut c = Compound::new();
    c.insert(s("Sections"), Tag::List(sections));
    let chunk = Chunk::new(&c, &index).unwrap();
    assert_eq!(chunk.get_block(1, 4 * 16 + 2, 3), "minecraft:stone");
}

#[test]
fn chunk_hands_on_configuration_errors() {
    let index = index_of(&[("minecraft:air", &[])]);
    let r = Chunk::new(&level(vec![stone_section(0)]), &index);
    assert_eq!(r.unwrap_err(), SectionError::UnknownBlock(s("minecraft:stone")));
}

#[test]
fn chunk_needs_a_list_of_sections() {
    let index = simple_index();
    assert_eq!(Chunk::new(&Compound::new(), &index).unwrap_err(), SectionError::Malformed);
    let mut c = Compound::new();
    c.insert(s("Sections"), Tag::Int(1));
    assert_eq!(Chunk::new(&c, &index).unwrap_err(), SectionError::Malformed);
    let mut c = Compound::new();
    c.insert(s("Sections"), Tag::List(vec![]));
    let chunk = Chunk::new(&c, &index).unwrap();
    assert_eq!(chunk.get_block(0, 0, 0), "minecraft:air");
}

#[test]
fn later_section_replaces_an_earlier_one_at_its_height() {
    let index = simple_index();
    let mut indices = vec![0usize; 4096];
    indices[0] = 1;
    let other = section(0, vec![block("minecraft:stone", &[]), block("minecraft:air", &[])], &indices);
    let chunk = Chunk::new(&level(vec![stone_section(0), other]), &index).unwrap();
    assert_eq!(chunk.get_block(0, 0, 0), "minecraft:air");
    assert_eq!(chunk.get_block(1, 2, 3), "minecraft:stone");
    assert_eq!(chunk.get_block(5, 5, 5), "minecraft:stone");
}

#[test]
fn empty_region_reports_air() {
    let region = Region::new_empty();
    assert_eq!(region.get_block(0, 0, 0), "minecraft:air");
    assert_eq!(region.get_block(511, 255, 511), "minecraft:air");
    assert_eq!(region.get_prop(100, 100, 100), "");
    assert_eq!(region.get_gprop(100, 100, 100), "");
}

#[test]
fn region_hands_out_its_chunks_and_sections() {
    let index = simple_index();
    let mut chunks: Vec<Option<Chunk>> = (0..1024).map(|_| None).collect();
    chunks[7] = Some(Chunk::new(&level(vec![stone_section(2)]), &index).unwrap());
    let region = Region::new(chunks);
    assert!(region.chunk(0).is_none());
    assert!(region.chunk(1023).is_none());
    let chunk = region.chunk(7).unwrap();
    assert!(chunk.section(0).is_none());
    assert!(chunk.section(15).is_none());
    let section = chunk.section(2).unwrap();
    assert_eq!(section.palette().len(), 3);
    assert_eq!(section.palette()[1].name, "minecraft:stone");
}

#[test]
fn region_index_counts_chunks_row_by_row() {
    let region = Region::new_empty();
    assert_eq!(region.get_index(0, 0), 0);
    assert_eq!(region.get_index(15, 15), 0);
    assert_eq!(region.get_index(16, 0), 1);
    assert_eq!(region.get_index(0, 16), 32);
    assert_eq!(region.get_index(511, 0), 31);
    assert_eq!(region.get_index(511, 511), 1023);
    assert_eq!(region.get_index(200, 300), (300 / 16) * 32 + 200 / 16);
}

#[test]
fn region_looks_blocks_up_in_their_chunk() {
    let index = simple_index();
    let mut chunks: Vec<Option<Chunk>> = (0..1024).map(|_| None).collect();
    chunks[33] = Some(Chunk::new(&level(vec![stone_section(2)]), &index).unwrap());
    let region = Region::new(chunks);
    assert_eq!(region.get_block(16 + 1, 32 + 2, 16 + 3), "minecraft:stone");
    assert_eq!(region.get_block(1, 34, 3), "minecraft:air");
    assert_eq!(region.get_block(31, 47, 31), "minecraft:oak_stairs");
    assert_eq!(region.get_prop(31, 47, 31), "half=top,facing=east,waterlogged=false");
    assert_eq!(region.get_gprop(31, 47, 31), "facing=east,half=top,");
    assert_eq!(region.get_gprop(31, 48, 31), "");
    assert_eq!(region.get_block(32, 47, 31), "minecraft:air");
}

#[test]
fn header_lists_the_slots_in_reading_order() {
    let mut bytes = vec![0u8; 4096];
    bytes[0] = 0x01;
    bytes[1] = 0x02;
    bytes[2] = 0x03;
    bytes[3] = 0x04;
    bytes[4 * 1023 + 2] = 9;
    bytes[4 * 1023 + 3] = 1;
    let header = RegionFile::new(bytes).read_header().unwrap();
    assert_eq!(header.len(), 1024);
    assert_eq!(header[0], (0x010203, 4));
    assert_eq!(header[1], (0, 0));
    assert_eq!(header[1023], (9, 1));
}

#[test]
fn short_file_has_no_header() {
    assert_eq!(RegionFile::new(vec![0; 4095]).read_header(), Err(RegionError::Truncated));
    assert_eq!(RegionFile::new(vec![]).read_header(), Err(RegionError::Truncated));
}

#[test]
fn chunk_payload_is_decompressed() {
    let data: Vec<u8> = (0..10000).map(|i| (i % 251) as u8).collect();
    let file = RegionFile::new(region_file(&[(0, 2, zlib(&data)), (5, 1, gzip(&data))]));
    let header = file.read_header().unwrap();
    assert_eq!(header[0].0, 2);
    assert_eq!(file.read_chunk(header[0].0, header[0].1), Ok(data.clone()));
    assert_eq!(file.read_chunk(header[5].0, header[5].1), Ok(data.clone()));
    assert_ne!(zlib(&data), data);
}

#[test]
fn length_field_decides_how_much_is_read() {
    // bytes behind the announced length do not belong to the payload
    let data = vec![7u8; 100];
    let mut body = zlib(&data);
    let length = body.len() + 1;
    body.extend_from_slice(&[0xde, 0xad, 0xbe, 0xef]);
    let mut file = vec![0u8; 8192];
    file.extend_from_slice(&(length as u32).to_be_bytes());
    file.push(2);
    file.extend_from_slice(&body);
    let file = RegionFile::new(file);
    assert_eq!(file.read_chunk(2, 1), Ok(data));
}

#[test]
fn unreadable_chunk_payloads_are_errors() {
    let data = vec![1u8; 50];
    let good = zlib(&data);
    // unknown compression kind
    let file = RegionFile::new(region_file(&[(0, 3, good.clone())]));
    assert_eq!(file.read_chunk(2, 1), Err(RegionError::UnknownCompression(3)));
    // garbage where a zlib stream is due
    let file = RegionFile::new(region_file(&[(0, 2, vec![1, 2, 3, 4, 5])]));
    assert_eq!(file.read_chunk(2, 1), Err(RegionError::Corrupt));
    let file = RegionFile::new(region_file(&[(0, 1, vec![1, 2, 3, 4, 5])]));
    assert_eq!(file.read_chunk(2, 1), Err(RegionError::Corrupt));
    // the wrong decoder for the stream
    let file = RegionFile::new(region_file(&[(0, 1, good.clone())]));
    assert_eq!(file.read_chunk(2, 1), Err(RegionError::Corrupt));
    // an offset beyond the file
    let file = RegionFile::new(region_file(&[(0, 2, good.clone())]));
    assert_eq!(file.read_chunk(3, 1), Err(RegionError::Truncated));
    assert_eq!(file.read_chunk(0xffffff, 1), Err(RegionError::Truncated));
    // a length that reaches beyond the file
    let mut bytes = vec![0u8; 8192];
    bytes.extend_from_slice(&[0, 0, 0, 10, 2, 1, 2, 3]);
    assert_eq!(RegionFile::new(bytes).read_chunk(2, 1), Err(RegionError::Truncated));
    // a length of zero leaves no room for the compression byte
    let mut bytes = vec![0u8; 8192];
    bytes.extend_from_slice(&[0, 0, 0, 0, 2, 1, 2, 3]);
    assert_eq!(RegionFile::new(bytes).read_chunk(2, 1), Err(RegionError::Truncated));
}

#[test]
fn inflate_tells_the_kinds_apart() {
    let data = vec![9u8; 300];
    assert_eq!(inflate(1, &gzip(&data)), Ok(data.clone()));
    assert_eq!(inflate(2, &zlib(&data)), Ok(data.clone()));
    assert_eq!(inflate(0, &zlib(&data)), Err(RegionError::UnknownCompression(0)));
    assert_eq!(inflate(2, &[]), Err(RegionError::Corrupt));
}

#[test]
fn chunk_document_is_decoded() {
    let index = simple_index();
    let chunk = decode_chunk(chunk_document(level(vec![stone_section(1)])), &index).unwrap().unwrap();
    assert_eq!(chunk.get_block(1, 18, 3), "minecraft:stone");
    // a document that is no chunk gives none
    assert!(decode_chunk(vec![1, 2, 3], &index).unwrap().is_none());
    assert!(decode_chunk(vec![], &index).unwrap().is_none());
    let mut root = Compound::new();
    root.insert(s(""), Tag::Compound(Compound::new()));
    let mut bytes = Vec::new();
    write_members(&root, &mut bytes);
    assert!(decode_chunk(bytes, &index).unwrap().is_none());
    assert!(decode_chunk(chunk_document(Compound::new()), &index).unwrap().is_none());
    // an error of the configuration is handed on
    let poor = index_of(&[("minecraft:air", &[])]);
    assert_eq!(
        decode_chunk(chunk_document(level(vec![stone_section(1)])), &poor).unwrap_err(),
        SectionError::UnknownBlock(s("minecraft:stone"))
    );
}

#[test]
fn region_is_loaded_from_a_file() {
    let index = simple_index();
    let doc = chunk_document(level(vec![stone_section(0)]));
    let other = chunk_document(level(vec![stone_section(15)]));
    let file = region_file(&[
        (0, 2, zlib(&doc)),
        (1, 1, gzip(&other)),
        (2, 2, vec![0xff, 0xff]),
        (3, 7, zlib(&doc)),
        (4, 2, zlib(&[10, 0])),
        (1023, 2, zlib(&doc)),
    ]);
    let region = Region::from_file(file, &index).unwrap();
    assert_eq!(region.get_block(1, 2, 3), "minecraft:stone");
    assert_eq!(region.get_block(16 + 1, 240 + 2, 3), "minecraft:stone");
    assert_eq!(region.get_block(16 + 1, 2, 3), "minecraft:air");
    // chunks that cannot be read are absent
    assert_eq!(region.get_block(32 + 1, 2, 3), "minecraft:air");
    assert_eq!(region.get_block(48 + 1, 2, 3), "minecraft:air");
    assert_eq!(region.get_block(64 + 1, 2, 3), "minecraft:air");
    assert_eq!(region.get_block(496 + 1, 2, 496 + 3), "minecraft:stone");
    assert_eq!(region.get_gprop(511, 15, 511), "facing=east,half=top,");
}

#[test]
fn slot_with_a_zero_offset_or_count_is_empty() {
    let index = simple_index();
    let doc = chunk_document(level(vec![stone_section(0)]));
    let mut file = region_file(&[(0, 2, zlib(&doc)), (1, 2, zlib(&doc))]);
    // slot 0 loses its sector count, slot 1 its offset
    file[3] = 0;
    file[4] = 0;
    file[5] = 0;
    file[6] = 0;
    let region = Region::from_file(file, &index).unwrap();
    assert_eq!(region.get_block(1, 2, 3), "minecraft:air");
    assert_eq!(region.get_block(17, 2, 3), "minecraft:air");
}

#[test]
fn region_file_errors_are_told_apart() {
    let index = simple_index();
    assert!(matches!(Region::from_file(vec![0; 100], &index), Err(LoadError::Truncated)));
    let poor = index_of(&[("minecraft:air", &[])]);
    let doc = chunk_document(level(vec![stone_section(0)]));
    let file = region_file(&[(7, 2, zlib(&doc))]);
    assert_eq!(
        Region::from_file(file, &poor).err(),
        Some(LoadError::Configuration(SectionError::UnknownBlock(s("minecraft:stone"))))
    );
    let empty = Region::from_file(vec![0; 8192], &index).unwrap();
    assert_eq!(empty.get_block(5, 5, 5), "minecraft:air");
}
