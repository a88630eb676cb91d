use simple_anvil::block::Block;
use simple_anvil::error::AnvilError;
use simple_anvil::tag::Tag;

#[test]
fn new_with_id() {
    let b = Block::new("minecraft".to_string(), Some("stone".to_string()), None, None);
    assert_eq!(b.namespace, "minecraft");
    assert_eq!(b.id, "stone");
    assert_eq!(b.coords, None);
    assert!(b.properties.is_none());
    assert!(b.biome.is_none());
}

#[test]
fn new_without_id_duplicates_namespace() {
    // the bare-namespace convenience constructor, distinct from the strict
    // parser
    let b = Block::new("minecraft".to_string(), None, Some((1, 2, 3)), None);
    assert_eq!(b.namespace, "minecraft");
    assert_eq!(b.id, "minecraft");
    assert_eq!(b.coords, Some((1, 2, 3)));
}

#[test]
fn name_joins_namespace_and_id() {
    let b = Block::new("minecraft".to_string(), Some("stone".to_string()), None, None);
    assert_eq!(b.name(), "minecraft:stone");
}

#[test]
fn from_name_splits_on_first_colon() {
    let b = Block::from_name("minecraft:stone".to_string(), Some((4, 5, 6)), None, None).unwrap();
    assert_eq!(b.namespace, "minecraft");
    assert_eq!(b.id, "stone");
    assert_eq!(b.coords, Some((4, 5, 6)));
}

#[test]
fn from_name_keeps_later_colons_in_id() {
    let b = Block::from_name("mod:oak:stairs".to_string(), None, None, None).unwrap();
    assert_eq!(b.namespace, "mod");
    assert_eq!(b.id, "oak:stairs");
}

#[test]
fn from_name_without_colon_is_error() {
    // the strict parser rejects the name instead of duplicating it into
    // both halves
    let r = Block::from_name("minecraft".to_string(), None, None, None);
    assert!(matches!(r, Err(AnvilError::MalformedName)));
}

#[test]
fn name_round_trips_through_from_name() {
    let b = Block::new("mod".to_string(), Some("oak:stairs".to_string()), None, None);
    let again = Block::from_name(b.name(), None, None, None).unwrap();
    assert_eq!(again.namespace, "mod");
    assert_eq!(again.id, "oak:stairs");
}

fn palette_entry(name: &str) -> Tag {
    Tag::Compound(vec![("Name".to_string(), Tag::String(name.to_string()))])
}

#[test]
fn from_palette_reads_name_entry() {
    let b = Block::from_palette(&palette_entry("minecraft:dirt"), Some((0, 1, 0)), None, None)
        .unwrap();
    assert_eq!(b.namespace, "minecraft");
    assert_eq!(b.id, "dirt");
}

#[test]
fn from_palette_rejects_missing_name() {
    let entry = Tag::Compound(vec![("id".to_string(), Tag::Int(3))]);
    assert!(matches!(
        Block::from_palette(&entry, None, None, None),
        Err(AnvilError::MissingTag)
    ));
}

#[test]
fn from_palette_rejects_wrong_tag() {
    let entry = Tag::Compound(vec![("Name".to_string(), Tag::Int(3))]);
    assert!(matches!(
        Block::from_palette(&entry, None, None, None),
        Err(AnvilError::WrongTag)
    ));
    assert!(matches!(
        Block::from_palette(&Tag::Int(0), None, None, None),
        Err(AnvilError::WrongTag)
    ));
}

#[test]
fn from_palette_rejects_colonless_name() {
    assert!(matches!(
        Block::from_palette(&palette_entry("stone"), None, None, None),
        Err(AnvilError::MalformedName)
    ));
}
