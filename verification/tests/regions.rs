use simple_anvil::error::AnvilError;
use simple_anvil::region::{from_be_3_bytes, Region};

/// An 8 KiB header of absent-chunk entries.
fn empty_header() -> Vec<u8> {
    vec![0u8; 8192]
}

/// Writes the sector entry for chunk `(cx, cz)`.
fn set_entry(buf: &mut Vec<u8>, cx: u32, cz: u32, offset: u32, count: u8) {
    let b = (4 * (cx % 32 + cz % 32 * 32)) as usize;
    buf[b] = (offset >> 16) as u8;
    buf[b + 1] = (offset >> 8) as u8;
    buf[b + 2] = offset as u8;
    buf[b + 3] = count;
}

/// Appends a chunk payload at sector 2 of the buffer.
fn append_payload(buf: &mut Vec<u8>, compression: u8, payload: &[u8]) {
    buf.resize(8192, 0);
    let len = (payload.len() + 1) as u32;
    buf.extend_from_slice(&len.to_be_bytes());
    buf.push(compression);
    buf.extend_from_slice(payload);
}

#[test]
fn three_byte_big_endian() {
    assert_eq!(from_be_3_bytes([0, 0, 0]), 0);
    assert_eq!(from_be_3_bytes([0, 0, 7]), 7);
    assert_eq!(from_be_3_bytes([1, 2, 3]), 0x010203);
    assert_eq!(from_be_3_bytes([0xff, 0xff, 0xff]), 0xffffff);
}

#[test]
fn header_offset_formula() {
    let r = Region::new(empty_header(), "r.0.0.mca".to_string());
    assert_eq!(r.header_offset(0, 0), 0);
    assert_eq!(r.header_offset(1, 0), 4);
    assert_eq!(r.header_offset(0, 1), 128);
    assert_eq!(r.header_offset(33, 2), 4 + 256);
}

#[test]
fn chunk_location_reads_entry() {
    let mut buf = empty_header();
    set_entry(&mut buf, 3, 1, 0x000102, 5);
    let r = Region::new(buf, "r.0.0.mca".to_string());
    assert_eq!(r.chunk_location(3, 1), Ok((0x0102, 5)));
    assert_eq!(r.chunk_location(0, 0), Ok((0, 0)));
}

#[test]
fn chunk_location_past_buffer_end() {
    let r = Region::new(vec![0u8; 16], "r.0.0.mca".to_string());
    assert_eq!(r.chunk_location(4, 0), Err(AnvilError::OutOfBounds));
}

#[test]
fn absent_entry_is_none_not_error() {
    // a sector entry of (0, 0) means "no chunk": every such lookup is
    // Ok(None)
    let r = Region::new(empty_header(), "r.0.0.mca".to_string());
    for (cx, cz) in [(0, 0), (5, 9), (31, 31), (63, 40)] {
        assert!(matches!(r.get_chunk(cx, cz), Ok(None)));
    }
    assert!(matches!(r.get_block(100, 0, 200), Ok(None)));
}

#[test]
fn raw_storage_is_none() {
    let mut buf = empty_header();
    set_entry(&mut buf, 0, 0, 2, 1);
    append_payload(&mut buf, 1, b"raw bytes");
    let r = Region::new(buf, "r.0.0.mca".to_string());
    assert!(matches!(r.get_chunk(0, 0), Ok(None)));
}

#[test]
fn unknown_compression_is_error() {
    let mut buf = empty_header();
    set_entry(&mut buf, 0, 0, 2, 1);
    append_payload(&mut buf, 3, b"whatever");
    let r = Region::new(buf, "r.0.0.mca".to_string());
    assert_eq!(r.get_chunk(0, 0).err(), Some(AnvilError::UnsupportedCompression));
}

#[test]
fn truncated_payload_is_error() {
    // the sector entry points past the end of the buffer
    let mut buf = empty_header();
    set_entry(&mut buf, 0, 0, 9, 1);
    let r = Region::new(buf, "r.0.0.mca".to_string());
    assert_eq!(r.get_chunk(0, 0).err(), Some(AnvilError::Truncated));
    // the length prefix promises more bytes than the buffer holds
    let mut buf = empty_header();
    set_entry(&mut buf, 0, 0, 2, 1);
    buf.resize(8192, 0);
    buf.extend_from_slice(&1000u32.to_be_bytes());
    buf.push(2);
    buf.extend_from_slice(&[0u8; 10]);
    let r = Region::new(buf, "r.0.0.mca".to_string());
    assert_eq!(r.get_chunk(0, 0).err(), Some(AnvilError::Truncated));
}

#[test]
fn undecodable_payload_is_decompression_error() {
    let mut buf = empty_header();
    set_entry(&mut buf, 0, 0, 2, 1);
    append_payload(&mut buf, 2, b"this is not a zlib stream");
    let r = Region::new(buf, "r.0.0.mca".to_string());
    assert_eq!(r.get_chunk(0, 0).err(), Some(AnvilError::Decompression));
}

#[test]
fn non_tag_payload_is_malformed_tag_error() {
    // a valid zlib stream whose content is not a tag document
    let mut compressed = Vec::new();
    let mut enc =
        flate2::write::ZlibEncoder::new(&mut compressed, flate2::Compression::default());
    std::io::Write::write_all(&mut enc, b"gibberish").unwrap();
    enc.finish().unwrap();
    let mut buf = empty_header();
    set_entry(&mut buf, 0, 0, 2, 1);
    append_payload(&mut buf, 2, &compressed);
    let r = Region::new(buf, "r.0.0.mca".to_string());
    assert_eq!(r.get_chunk(0, 0).err(), Some(AnvilError::MalformedTag));
}

/// Builds a zlib-compressed tag document for one fully generated chunk with
/// a single section, and serializes it with the outside tag writer.
fn real_chunk_payload() -> Vec<u8> {
    let mut air = nbt::Map::new();
    air.insert("Name".to_string(), nbt::Value::String("minecraft:air".to_string()));
    let mut stone = nbt::Map::new();
    stone.insert("Name".to_string(), nbt::Value::String("minecraft:stone".to_string()));
    let mut props = nbt::Map::new();
    props.insert("axis".to_string(), nbt::Value::String("y".to_string()));
    stone.insert("Properties".to_string(), nbt::Value::Compound(props));
    let mut biomes = nbt::Map::new();
    biomes.insert(
        "palette".to_string(),
        nbt::Value::List(vec![nbt::Value::String("minecraft:plains".to_string())]),
    );
    let mut block_states = nbt::Map::new();
    block_states.insert(
        "palette".to_string(),
        nbt::Value::List(vec![nbt::Value::Compound(air), nbt::Value::Compound(stone)]),
    );
    // voxel 1 selects entry 1 of the palette
    block_states.insert("data".to_string(), nbt::Value::LongArray(vec![1 << 4]));
    let mut section = nbt::Map::new();
    section.insert("Y".to_string(), nbt::Value::Byte(-4));
    section.insert("biomes".to_string(), nbt::Value::Compound(biomes));
    section.insert("block_states".to_string(), nbt::Value::Compound(block_states));

    let mut blob = nbt::Blob::new();
    blob.insert("Status", nbt::Value::String("full".to_string())).unwrap();
    blob.insert("LastUpdate", nbt::Value::Long(42)).unwrap();
    blob.insert("sections", nbt::Value::List(vec![nbt::Value::Compound(section)])).unwrap();
    blob.insert(
        "Heightmaps",
        nbt::Value::Compound({
            let mut hm = nbt::Map::new();
            hm.insert(
                "WORLD_SURFACE".to_string(),
                nbt::Value::LongArray(vec![321 + (100 << 9)]),
            );
            hm
        }),
    )
    .unwrap();

    let mut payload = Vec::new();
    blob.to_zlib_writer(&mut payload).unwrap();
    payload
}

#[test]
fn decodes_a_chunk_written_by_the_tag_writer() {
    let payload = real_chunk_payload();
    let mut buf = empty_header();
    set_entry(&mut buf, 7, 2, 2, 1);
    append_payload(&mut buf, 2, &payload);
    let r = Region::new(buf, "r.0.0.mca".to_string());

    let chunk = r.get_chunk(7, 2).unwrap().unwrap();
    assert_eq!(chunk.x, 7);
    assert_eq!(chunk.z, 2);
    assert_eq!(chunk.get_status().unwrap(), "full");
    assert_eq!(chunk.get_last_update().unwrap(), 42);

    let b = chunk.get_block(1, -64, 0).unwrap();
    assert_eq!(b.biome, Some("minecraft:plains".to_string()));
    assert_eq!(b.properties, Some(vec![("axis".to_string(), "y".to_string())]));
    assert_eq!(b.name(), "minecraft:stone");
    let b = chunk.get_block(0, -64, 0).unwrap();
    assert_eq!(b.id, "air");
    assert_eq!(b.coords, Some((7 * 32, -64, 2 * 32)));

    assert_eq!(chunk.get_biome(-60).unwrap(), "minecraft:plains");
    assert_eq!(chunk.get_heightmap(false).unwrap(), Some(vec![256, 35]));
    // the chunk is fully generated but carries no OCEAN_FLOOR map
    assert_eq!(chunk.get_heightmap(true).err(), Some(AnvilError::MissingTag));
}

/// Compresses raw bytes as a zlib stream.
fn deflate(raw: &[u8]) -> Vec<u8> {
    let mut compressed = Vec::new();
    let mut enc =
        flate2::write::ZlibEncoder::new(&mut compressed, flate2::Compression::default());
    std::io::Write::write_all(&mut enc, raw).unwrap();
    enc.finish().unwrap();
    compressed
}

fn region_of_document(doc: &[u8]) -> Region {
    let mut buf = empty_header();
    set_entry(&mut buf, 0, 0, 2, 1);
    append_payload(&mut buf, 2, &deflate(doc));
    Region::new(buf, "r.0.0.mca".to_string())
}

#[test]
fn negative_array_length_is_malformed_not_panic() {
    // a long-array entry whose 32-bit length field is -1: the verified scan
    // rejects it before the outside parser could overflow an allocation
    let doc: Vec<u8> = [
        &[0x0a, 0x00, 0x00][..],             // document header, empty name
        &[0x0c, 0x00, 0x00][..],             // entry: long array named ""
        &[0xff, 0xff, 0xff, 0xff][..],       // length -1
        &[0x00][..],                         // end tag
    ]
    .concat();
    let r = region_of_document(&doc);
    assert_eq!(r.get_chunk(0, 0).err(), Some(AnvilError::MalformedTag));
}

#[test]
fn oversized_array_length_is_malformed_not_panic() {
    // a list that claims two billion elements in a ten-byte buffer
    let doc: Vec<u8> = [
        &[0x0a, 0x00, 0x00][..],
        &[0x09, 0x00, 0x00][..],             // entry: list named ""
        &[0x04, 0x7f, 0xff, 0xff, 0xff][..], // of longs, length 2^31 - 1
        &[0x00][..],
    ]
    .concat();
    let r = region_of_document(&doc);
    assert_eq!(r.get_chunk(0, 0).err(), Some(AnvilError::MalformedTag));
}

#[test]
fn deep_nesting_is_malformed_not_panic() {
    // lists nested a hundred deep: past the decoder's depth bound, so the
    // outside parser's recursion is never entered
    let mut doc: Vec<u8> = vec![0x0a, 0x00, 0x00, 0x09, 0x00, 0x00];
    for _ in 0..100 {
        doc.extend_from_slice(&[0x09, 0x00, 0x00, 0x00, 0x01]);
    }
    doc.extend_from_slice(&[0x01, 0x00, 0x00, 0x00, 0x00]);
    doc.push(0x00);
    let r = region_of_document(&doc);
    assert_eq!(r.get_chunk(0, 0).err(), Some(AnvilError::MalformedTag));
}

#[test]
fn shallow_nesting_still_decodes() {
    // ten nested lists pass the scan and parse cleanly
    let mut doc: Vec<u8> = vec![0x0a, 0x00, 0x00, 0x09, 0x00, 0x00];
    for _ in 0..10 {
        doc.extend_from_slice(&[0x09, 0x00, 0x00, 0x00, 0x01]);
    }
    doc.extend_from_slice(&[0x01, 0x00, 0x00, 0x00, 0x00]);
    doc.push(0x00);
    let r = region_of_document(&doc);
    assert!(matches!(r.get_chunk(0, 0), Ok(Some(_))));
}

#[test]
fn chunk_coordinates_are_region_relative() {
    let payload = real_chunk_payload();
    let mut buf = empty_header();
    set_entry(&mut buf, 7, 2, 2, 1);
    append_payload(&mut buf, 2, &payload);
    let r = Region::new(buf, "r.0.0.mca".to_string());
    // coordinates outside the grid reach the same sector slot and come back
    // reduced mod 32
    let chunk = r.get_chunk(39, 34).unwrap().unwrap();
    assert_eq!(chunk.x, 7);
    assert_eq!(chunk.z, 2);
}
