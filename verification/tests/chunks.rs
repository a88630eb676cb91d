use simple_anvil::chunk::Chunk;
use simple_anvil::error::AnvilError;
use simple_anvil::tag::Tag;

fn s(text: &str) -> String {
    text.to_string()
}

fn palette_entry(name: &str) -> Tag {
    Tag::Compound(vec![(s("Name"), Tag::String(s(name)))])
}

fn plains_biomes() -> (String, Tag) {
    (
        s("biomes"),
        Tag::Compound(vec![(s("palette"), Tag::List(vec![Tag::String(s("minecraft:plains"))]))]),
    )
}

/// A section at altitude index `y` with a uniform plains biome and a
/// two-entry block palette whose data selects stone for voxel 1.
fn stone_section(y: i8) -> Tag {
    Tag::Compound(vec![
        (s("Y"), Tag::Byte(y)),
        plains_biomes(),
        (
            s("block_states"),
            Tag::Compound(vec![
                (
                    s("palette"),
                    Tag::List(vec![palette_entry("minecraft:air"), palette_entry("minecraft:stone")]),
                ),
                (s("data"), Tag::LongArray(vec![1 << 4])),
            ]),
        ),
    ])
}

fn chunk_with_sections(sections: Vec<Tag>) -> Chunk {
    Chunk {
        data: Tag::Compound(vec![
            (s("Status"), Tag::String(s("full"))),
            (s("LastUpdate"), Tag::Long(77)),
            (s("sections"), Tag::List(sections)),
        ]),
        x: 0,
        z: 0,
    }
}

#[test]
fn status_and_last_update() {
    let c = chunk_with_sections(vec![]);
    assert_eq!(c.get_status().unwrap(), "full");
    assert_eq!(c.get_last_update().unwrap(), 77);
}

#[test]
fn status_missing_and_wrong_tag() {
    let empty = Chunk { data: Tag::Compound(vec![]), x: 0, z: 0 };
    assert_eq!(empty.get_status(), Err(AnvilError::MissingTag));
    let bad = Chunk { data: Tag::Compound(vec![(s("Status"), Tag::Int(1))]), x: 0, z: 0 };
    assert_eq!(bad.get_status(), Err(AnvilError::WrongTag));
    let not_compound = Chunk { data: Tag::Int(0), x: 0, z: 0 };
    assert_eq!(not_compound.get_status(), Err(AnvilError::WrongTag));
}

#[test]
fn get_section_finds_unique_match() {
    let c = chunk_with_sections(vec![stone_section(-4), stone_section(0)]);
    assert!(c.get_section(0).unwrap().is_some());
    assert!(c.get_section(3).unwrap().is_none());
}

#[test]
fn get_section_rejects_out_of_range_index() {
    let c = chunk_with_sections(vec![]);
    assert_eq!(c.get_section(-5).err(), Some(AnvilError::OutOfRange));
    assert_eq!(c.get_section(20).err(), Some(AnvilError::OutOfRange));
}

#[test]
fn get_section_rejects_duplicate_index() {
    // the format guarantees unique indices: a duplicate marks corruption
    // and is not resolved in favour of the first match
    let c = chunk_with_sections(vec![stone_section(2), stone_section(2)]);
    assert_eq!(c.get_section(2).err(), Some(AnvilError::DuplicateSection));
}

#[test]
fn get_section_rejects_malformed_element() {
    let c = chunk_with_sections(vec![Tag::Compound(vec![(s("Y"), Tag::Int(0))])]);
    assert_eq!(c.get_section(0).err(), Some(AnvilError::WrongTag));
    let c = chunk_with_sections(vec![Tag::Compound(vec![])]);
    assert_eq!(c.get_section(0).err(), Some(AnvilError::MissingTag));
}

#[test]
fn get_block_decodes_palette_index() {
    // voxel (1, -64, 0) is linear index 1, whose 4-bit field selects stone
    let c = chunk_with_sections(vec![stone_section(-4)]);
    let b = c.get_block(1, -64, 0).unwrap();
    assert_eq!(b.name(), "minecraft:stone");
    let b = c.get_block(0, -64, 0).unwrap();
    assert_eq!(b.id, "air");
    assert_eq!(b.coords, Some((0, -64, 0)));
}

#[test]
fn get_block_absent_section_is_air() {
    // an absent section reads as air, with coordinates set and no
    // properties
    let c = Chunk { data: chunk_with_sections(vec![stone_section(-4)]).data, x: 2, z: 3 };
    let b = c.get_block(5, 300, 9).unwrap();
    assert_eq!(b.namespace, "minecraft");
    assert_eq!(b.id, "air");
    assert_eq!(b.coords, Some((2 * 32 + 5, 300, 3 * 32 + 9)));
    assert!(b.properties.is_none());
    assert!(b.biome.is_none());
}

#[test]
fn get_block_out_of_range_coordinates() {
    let c = chunk_with_sections(vec![]);
    assert_eq!(c.get_block(16, 0, 0).err(), Some(AnvilError::OutOfRange));
    assert_eq!(c.get_block(0, 0, -1).err(), Some(AnvilError::OutOfRange));
    assert_eq!(c.get_block(0, 320, 0).err(), Some(AnvilError::OutOfRange));
    assert_eq!(c.get_block(0, -65, 0).err(), Some(AnvilError::OutOfRange));
}

#[test]
fn get_block_uniform_section_without_data() {
    // an absent block data array means the whole section is the palette's
    // sole entry, not air
    let sec = Tag::Compound(vec![
        (s("Y"), Tag::Byte(0)),
        plains_biomes(),
        (
            s("block_states"),
            Tag::Compound(vec![(s("palette"), Tag::List(vec![palette_entry("minecraft:deepslate")]))]),
        ),
    ]);
    let c = chunk_with_sections(vec![sec]);
    let b = c.get_block(7, 7, 12).unwrap();
    assert_eq!(b.id, "deepslate");
    assert_eq!(b.biome, Some(s("minecraft:plains")));
}

#[test]
fn get_block_without_block_states_is_air_with_biome() {
    let sec = Tag::Compound(vec![(s("Y"), Tag::Byte(0)), plains_biomes()]);
    let c = chunk_with_sections(vec![sec]);
    let b = c.get_block(0, 3, 0).unwrap();
    assert_eq!(b.id, "air");
    assert_eq!(b.biome, Some(s("minecraft:plains")));
}

#[test]
fn get_block_rejects_palette_overrun() {
    // the packed field selects entry 3 of a two-entry palette: corrupt
    let sec = Tag::Compound(vec![
        (s("Y"), Tag::Byte(0)),
        plains_biomes(),
        (
            s("block_states"),
            Tag::Compound(vec![
                (
                    s("palette"),
                    Tag::List(vec![palette_entry("minecraft:air"), palette_entry("minecraft:stone")]),
                ),
                (s("data"), Tag::LongArray(vec![3])),
            ]),
        ),
    ]);
    let c = chunk_with_sections(vec![sec]);
    assert_eq!(c.get_block(0, 0, 0).err(), Some(AnvilError::OutOfRange));
}

#[test]
fn get_block_rejects_truncated_data() {
    // voxel 16 needs a second word that is not there
    let c = chunk_with_sections(vec![stone_section(0)]);
    assert_eq!(c.get_block(0, 0, 1).err(), Some(AnvilError::Truncated));
}

#[test]
fn get_block_reads_properties_in_order() {
    let entry = Tag::Compound(vec![
        (s("Name"), Tag::String(s("minecraft:oak_stairs"))),
        (
            s("Properties"),
            Tag::Compound(vec![
                (s("facing"), Tag::String(s("north"))),
                (s("half"), Tag::String(s("bottom"))),
            ]),
        ),
    ]);
    let sec = Tag::Compound(vec![
        (s("Y"), Tag::Byte(0)),
        plains_biomes(),
        (
            s("block_states"),
            Tag::Compound(vec![(s("palette"), Tag::List(vec![entry]))]),
        ),
    ]);
    let c = chunk_with_sections(vec![sec]);
    let b = c.get_block(0, 12, 0).unwrap();
    assert_eq!(b.id, "oak_stairs");
    assert_eq!(
        b.properties,
        Some(vec![(s("facing"), s("north")), (s("half"), s("bottom"))])
    );
}

#[test]
fn get_biome_uniform_palette() {
    // with an absent biome data array every cell resolves to the palette's
    // sole entry
    let c = chunk_with_sections(vec![stone_section(0)]);
    for y in [0, 3, 7, 11, 15] {
        assert_eq!(c.get_biome(y).unwrap(), "minecraft:plains");
    }
}

#[test]
fn get_biome_absent_section_is_default() {
    let c = chunk_with_sections(vec![]);
    assert_eq!(c.get_biome(0).unwrap(), "minecraft:plains");
}

#[test]
fn biome_field_spans_words_and_masks_sign() {
    // six biome entries pack 3-bit cells; cell 21 spans bits 63..65, so its
    // value combines the top bit of the first (negative) word with the low
    // bits of the second
    let names: Vec<Tag> = (0..6).map(|i| Tag::String(format!("minecraft:b{}", i))).collect();
    let sec = Tag::Compound(vec![
        (s("Y"), Tag::Byte(0)),
        (
            s("biomes"),
            Tag::Compound(vec![
                (s("palette"), Tag::List(names)),
                (s("data"), Tag::LongArray(vec![i64::MIN, 0b10, 0])),
            ]),
        ),
        (
            s("block_states"),
            Tag::Compound(vec![(s("palette"), Tag::List(vec![palette_entry("minecraft:air")]))]),
        ),
    ]);
    let c = chunk_with_sections(vec![sec]);
    // cell 21 = (ly/4)*16 + (z/4)*4 + x/4 with ly, z, x in 4..=7
    let b = c.get_block(4, 4, 4).unwrap();
    assert_eq!(b.biome, Some(s("minecraft:b5")));
    // cell 0 reads plain zero bits
    let b = c.get_block(0, 0, 0).unwrap();
    assert_eq!(b.biome, Some(s("minecraft:b0")));
}

#[test]
fn heightmap_of_known_word() {
    let c = Chunk {
        data: Tag::Compound(vec![
            (s("Status"), Tag::String(s("full"))),
            (
                s("Heightmaps"),
                Tag::Compound(vec![
                    (s("WORLD_SURFACE"), Tag::LongArray(vec![321 + (100 << 9)])),
                    (s("OCEAN_FLOOR"), Tag::LongArray(vec![90])),
                ]),
            ),
        ]),
        x: 0,
        z: 0,
    };
    assert_eq!(c.get_heightmap(false).unwrap(), Some(vec![256, 35]));
    assert_eq!(c.get_heightmap(true).unwrap(), Some(vec![25]));
}

#[test]
fn heightmap_unavailable_before_full_generation() {
    let c = Chunk {
        data: Tag::Compound(vec![(s("Status"), Tag::String(s("features")))]),
        x: 0,
        z: 0,
    };
    assert_eq!(c.get_heightmap(false).unwrap(), None);
}

#[test]
fn heightmap_missing_map_is_error() {
    let c = Chunk {
        data: Tag::Compound(vec![
            (s("Status"), Tag::String(s("full"))),
            (s("Heightmaps"), Tag::Compound(vec![])),
        ]),
        x: 0,
        z: 0,
    };
    assert_eq!(c.get_heightmap(false).err(), Some(AnvilError::MissingTag));
}
