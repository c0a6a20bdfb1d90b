use mc_schems::sponge::{deserialize, read_block_container};
use mc_schems::{Compound, Entry, Schematic, SchematicError, SchematicFormat, Tag};

fn compound(entries: Vec<(&str, Tag)>) -> Compound {
    Compound {
        entries: entries
            .into_iter()
            .map(|(name, value)| Entry { name: name.to_string(), value })
            .collect(),
    }
}

fn palette(names: &[(&str, i32)]) -> Tag {
    Tag::Compound(compound(
        names.iter().map(|(name, id)| (*name, Tag::Int(*id))).collect(),
    ))
}

fn missing(name: &str) -> Option<SchematicError> {
    Some(SchematicError::MissingRequiredField(name.to_string()))
}

fn mistyped(name: &str) -> Option<SchematicError> {
    Some(SchematicError::MistypedField(name.to_string()))
}

fn invalid(name: &str) -> Option<SchematicError> {
    Some(SchematicError::InvalidValue(name.to_string()))
}

/// A document of version 1 or 2: a cuboid of 2 x 2 x 2 with a block of its
/// own in every cell.
fn flat(version: i32) -> Compound {
    compound(vec![
        ("Version", Tag::Int(version)),
        ("DataVersion", Tag::Int(2730)),
        ("Width", Tag::Short(2)),
        ("Height", Tag::Short(2)),
        ("Length", Tag::Short(2)),
        (
            "Palette",
            palette(&[
                ("b0", 0),
                ("b1", 1),
                ("b2", 2),
                ("b3", 3),
                ("b4", 4),
                ("b5", 5),
                ("b6", 6),
                ("b7", 7),
            ]),
        ),
        ("BlockData", Tag::ByteArray(vec![0, 1, 2, 3, 4, 5, 6, 7])),
    ])
}

/// A document of version 3 that holds one block.
fn nested() -> Compound {
    let blocks = compound(vec![
        ("Palette", palette(&[("minecraft:dirt", 0)])),
        ("Data", Tag::ByteArray(vec![0])),
    ]);
    let schematic = compound(vec![
        ("Version", Tag::Int(3)),
        ("DataVersion", Tag::Int(3465)),
        ("Width", Tag::Short(1)),
        ("Height", Tag::Short(1)),
        ("Length", Tag::Short(1)),
        ("Offset", Tag::IntArray(vec![3, -4, 5])),
        ("Blocks", Tag::Compound(blocks)),
    ]);
    compound(vec![("Schematic", Tag::Compound(schematic))])
}

fn inner(root: &mut Compound) -> &mut Compound {
    match &mut root.entries[0].value {
        Tag::Compound(inner) => inner,
        _ => panic!("no compound"),
    }
}

fn blocks_of(root: &mut Compound) -> &mut Compound {
    let schematic = inner(root);
    let at = schematic.entries.iter().position(|entry| entry.name == "Blocks").unwrap();
    match &mut schematic.entries[at].value {
        Tag::Compound(blocks) => blocks,
        _ => panic!("no compound"),
    }
}

#[test]
fn block_data_runs_along_x_then_z_then_y() {
    let schem = deserialize(&flat(2), 2).unwrap();
    assert_eq!(schem.blocks.size(), (2, 2, 2));
    for y in 0..2 {
        for z in 0..2 {
            for x in 0..2 {
                let place = (y * 2 + z) * 2 + x;
                assert_eq!(schem.blocks.get_block_at(x, y, z), format!("b{}", place));
            }
        }
    }
    assert_eq!(schem.blocks.get_block_at(1, 0, 0), "b1");
    assert_eq!(schem.blocks.get_block_at(0, 0, 1), "b2");
    assert_eq!(schem.blocks.get_block_at(0, 1, 0), "b4");
}

#[test]
fn the_palette_is_read_in_document_order_after_air() {
    let schem = deserialize(&flat(2), 2).unwrap();
    assert_eq!(
        schem.blocks.blocks_in_palette(),
        vec!["minecraft:air", "b0", "b1", "b2", "b3", "b4", "b5", "b6", "b7"]
    );
    assert_eq!(schem.blocks.get_block_id_at(0, 0, 0), 1);
    assert_eq!(schem.blocks.get_block_id_at(1, 1, 1), 8);
}

#[test]
fn document_ids_need_not_follow_the_palette_order() {
    let mut doc = flat(2);
    doc.insert("Width".to_string(), Tag::Short(3));
    doc.insert("Height".to_string(), Tag::Short(1));
    doc.insert("Length".to_string(), Tag::Short(1));
    doc.insert(
        "Palette".to_string(),
        palette(&[("minecraft:stone", 300), ("minecraft:air", 7), ("minecraft:dirt", 0)]),
    );
    doc.insert("BlockData".to_string(), Tag::ByteArray(vec![0, -84, 2, 7]));
    let schem = deserialize(&doc, 2).unwrap();
    assert_eq!(schem.blocks.get_block_at(0, 0, 0), "minecraft:dirt");
    assert_eq!(schem.blocks.get_block_at(1, 0, 0), "minecraft:stone");
    assert_eq!(schem.blocks.get_block_at(2, 0, 0), "minecraft:air");
    assert_eq!(
        schem.blocks.blocks_in_palette(),
        vec!["minecraft:air", "minecraft:stone", "minecraft:dirt"]
    );
    assert_eq!(schem.blocks.get_block_id_at(2, 0, 0), 0);
}

#[test]
fn a_later_palette_entry_overrides_an_earlier_one_of_the_same_id() {
    let mut doc = flat(2);
    doc.insert("Width".to_string(), Tag::Short(1));
    doc.insert("Height".to_string(), Tag::Short(1));
    doc.insert("Length".to_string(), Tag::Short(1));
    doc.insert("Palette".to_string(), palette(&[("first", 4), ("second", 4)]));
    doc.insert("BlockData".to_string(), Tag::ByteArray(vec![4]));
    let schem = deserialize(&doc, 2).unwrap();
    assert_eq!(schem.blocks.get_block_at(0, 0, 0), "second");
}

#[test]
fn a_flat_document_has_the_fields_of_the_schematic() {
    let mut doc = flat(2);
    doc.insert("Offset".to_string(), Tag::IntArray(vec![10, -20, 30]));
    let schem = deserialize(&doc, 2).unwrap();
    assert_eq!(schem.data_version, Some(2730));
    assert_eq!(schem.origin, Some((10, -20, 30)));
    assert_eq!(schem.paste_offset, None);
    assert!(schem.biomes.is_none());
    assert!(schem.metadata.is_none());
    assert!(schem.block_entities.is_empty());
}

#[test]
fn metadata_that_holds_only_the_paste_offset_is_used_up() {
    let mut doc = flat(2);
    doc.insert(
        "Metadata".to_string(),
        Tag::Compound(compound(vec![
            ("WEOffsetX", Tag::Int(-3)),
            ("WEOffsetY", Tag::Int(1)),
            ("WEOffsetZ", Tag::Int(9)),
        ])),
    );
    let schem = deserialize(&doc, 2).unwrap();
    assert_eq!(schem.paste_offset, Some((-3, 1, 9)));
    assert!(schem.metadata.is_none());
    assert_eq!(schem.origin, None);
}

#[test]
fn an_absent_part_of_the_paste_offset_counts_as_zero() {
    let mut doc = flat(1);
    doc.insert(
        "Metadata".to_string(),
        Tag::Compound(compound(vec![("WEOffsetX", Tag::Int(6)), ("WEOffsetZ", Tag::Int(2))])),
    );
    let schem = deserialize(&doc, 1).unwrap();
    assert_eq!(schem.paste_offset, Some((6, 0, 2)));
    assert!(schem.metadata.is_none());
}

#[test]
fn metadata_without_the_x_offset_is_kept_whole() {
    let mut doc = flat(2);
    doc.insert(
        "Metadata".to_string(),
        Tag::Compound(compound(vec![
            ("WEOffsetY", Tag::Int(1)),
            ("Author", Tag::String("me".to_string())),
        ])),
    );
    let schem = deserialize(&doc, 2).unwrap();
    assert_eq!(schem.paste_offset, None);
    let metadata = schem.metadata.unwrap();
    assert_eq!(metadata.len(), 2);
    assert_eq!(metadata.get("WEOffsetY"), Some(&Tag::Int(1)));
    assert_eq!(metadata.get("Author"), Some(&Tag::String("me".to_string())));
}

#[test]
fn empty_metadata_counts_as_none() {
    let mut doc = flat(2);
    doc.insert("Metadata".to_string(), Tag::Compound(Compound::new()));
    assert!(deserialize(&doc, 2).unwrap().metadata.is_none());
    let mut doc = nested();
    inner(&mut doc).insert("Metadata".to_string(), Tag::Compound(Compound::new()));
    assert!(deserialize(&doc, 3).unwrap().metadata.is_none());
}

#[test]
fn a_mistyped_paste_offset_in_the_metadata_is_refused() {
    for name in ["WEOffsetX", "WEOffsetY", "WEOffsetZ"] {
        let mut metadata = compound(vec![
            ("WEOffsetX", Tag::Int(1)),
            ("WEOffsetY", Tag::Int(2)),
            ("WEOffsetZ", Tag::Int(3)),
        ]);
        metadata.insert(name.to_string(), Tag::Short(1));
        let mut doc = flat(2);
        doc.insert("Metadata".to_string(), Tag::Compound(metadata));
        assert_eq!(deserialize(&doc, 2).err(), mistyped(name));
    }
}

#[test]
fn a_nested_document_has_the_fields_of_the_schematic() {
    let mut doc = nested();
    inner(&mut doc).insert(
        "Metadata".to_string(),
        Tag::Compound(compound(vec![("WEOffsetX", Tag::Int(1))])),
    );
    let schem = deserialize(&doc, 3).unwrap();
    assert_eq!(schem.blocks.size(), (1, 1, 1));
    assert_eq!(schem.blocks.get_block_at(0, 0, 0), "minecraft:dirt");
    assert_eq!(schem.data_version, Some(3465));
    assert_eq!(schem.paste_offset, Some((3, -4, 5)));
    assert_eq!(schem.origin, None);
    assert!(schem.biomes.is_none());
    let metadata = schem.metadata.unwrap();
    assert_eq!(metadata.len(), 1);
    assert_eq!(metadata.get("WEOffsetX"), Some(&Tag::Int(1)));
}

#[test]
fn other_versions_than_1_to_3_are_unsupported() {
    for version in [0, 4, 17, u32::MAX] {
        assert_eq!(
            deserialize(&flat(2), version).err(),
            Some(SchematicError::UnsupportedFormat(SchematicFormat::Sponge(version)))
        );
    }
}

#[test]
fn required_fields_of_a_flat_document() {
    for name in ["DataVersion", "Width", "Height", "Length", "Palette", "BlockData"] {
        let mut doc = flat(2);
        doc.remove(name);
        assert_eq!(deserialize(&doc, 2).err(), missing(name));
        let mut doc = flat(2);
        doc.insert(name.to_string(), Tag::String("?".to_string()));
        assert_eq!(deserialize(&doc, 2).err(), mistyped(name));
    }
}

#[test]
fn required_fields_of_a_nested_document() {
    assert_eq!(deserialize(&flat(2), 3).err(), missing("Schematic"));
    for name in ["DataVersion", "Width", "Height", "Length", "Offset", "Blocks"] {
        let mut doc = nested();
        inner(&mut doc).remove(name);
        assert_eq!(deserialize(&doc, 3).err(), missing(name));
        let mut doc = nested();
        inner(&mut doc).insert(name.to_string(), Tag::String("?".to_string()));
        assert_eq!(deserialize(&doc, 3).err(), mistyped(name));
    }
    for name in ["Palette", "Data"] {
        let mut doc = nested();
        blocks_of(&mut doc).remove(name);
        assert_eq!(deserialize(&doc, 3).err(), missing(name));
        let mut doc = nested();
        blocks_of(&mut doc).insert(name.to_string(), Tag::Int(0));
        assert_eq!(deserialize(&doc, 3).err(), mistyped(name));
    }
}

#[test]
fn the_first_missing_field_is_reported() {
    let mut doc = flat(2);
    doc.remove("Height");
    doc.remove("Palette");
    doc.remove("DataVersion");
    assert_eq!(deserialize(&doc, 2).err(), missing("DataVersion"));
    let mut doc = flat(2);
    doc.remove("Palette");
    doc.remove("BlockData");
    doc.insert("Metadata".to_string(), Tag::Int(0));
    assert_eq!(deserialize(&doc, 2).err(), mistyped("Metadata"));
}

#[test]
fn optional_fields_of_another_kind_are_mistyped() {
    for name in ["Metadata", "Offset", "BlockEntities"] {
        let mut doc = flat(2);
        doc.insert(name.to_string(), Tag::Int(0));
        assert_eq!(deserialize(&doc, 2).err(), mistyped(name));
    }
    let mut doc = nested();
    inner(&mut doc).insert("Metadata".to_string(), Tag::Int(0));
    assert_eq!(deserialize(&doc, 3).err(), mistyped("Metadata"));
    let mut doc = nested();
    blocks_of(&mut doc).insert("BlockEntities".to_string(), Tag::Int(0));
    assert_eq!(deserialize(&doc, 3).err(), mistyped("BlockEntities"));
}

#[test]
fn an_offset_of_another_length_than_three_is_mistyped() {
    for offset in [vec![], vec![1, 2], vec![1, 2, 3, 4]] {
        let mut doc = nested();
        inner(&mut doc).insert("Offset".to_string(), Tag::IntArray(offset.clone()));
        assert_eq!(deserialize(&doc, 3).err(), mistyped("Offset"));
        let mut doc = flat(2);
        doc.insert("Offset".to_string(), Tag::IntArray(offset));
        assert_eq!(deserialize(&doc, 2).err(), mistyped("Offset"));
    }
}

#[test]
fn a_palette_entry_that_is_no_integer_is_mistyped_by_its_name() {
    let mut doc = flat(2);
    doc.insert(
        "Palette".to_string(),
        Tag::Compound(compound(vec![
            ("minecraft:stone", Tag::Int(0)),
            ("minecraft:dirt", Tag::Short(1)),
            ("minecraft:sand", Tag::String("2".to_string())),
        ])),
    );
    assert_eq!(deserialize(&doc, 2).err(), mistyped("minecraft:dirt"));
}

#[test]
fn block_data_that_ends_early_is_invalid() {
    let mut doc = flat(2);
    doc.insert("BlockData".to_string(), Tag::ByteArray(vec![0, 1, 2, 3, 4, 5, 6]));
    assert_eq!(deserialize(&doc, 2).err(), invalid("BlockData"));
    let mut doc = flat(2);
    doc.insert("BlockData".to_string(), Tag::ByteArray(vec![0, 1, 2, 3, 4, 5, 6, -128]));
    assert_eq!(deserialize(&doc, 2).err(), invalid("BlockData"));
    let mut doc = nested();
    blocks_of(&mut doc).insert("Data".to_string(), Tag::ByteArray(vec![]));
    assert_eq!(deserialize(&doc, 3).err(), invalid("Data"));
}

#[test]
fn a_document_id_that_the_palette_lacks_is_invalid() {
    let mut doc = flat(2);
    doc.insert("BlockData".to_string(), Tag::ByteArray(vec![0, 1, 2, 3, 4, 5, 6, 8]));
    assert_eq!(deserialize(&doc, 2).err(), invalid("BlockData"));
    let mut doc = nested();
    blocks_of(&mut doc).insert("Data".to_string(), Tag::ByteArray(vec![1]));
    assert_eq!(deserialize(&doc, 3).err(), invalid("Data"));
}

#[test]
fn a_block_id_of_more_than_five_bytes_is_invalid() {
    let mut doc = nested();
    blocks_of(&mut doc).insert(
        "Data".to_string(),
        Tag::ByteArray(vec![-128, -128, -128, -128, -128, 0]),
    );
    assert_eq!(deserialize(&doc, 3).err(), invalid("Data"));
}

#[test]
fn bytes_after_the_last_cell_are_ignored() {
    let mut doc = flat(2);
    doc.insert("BlockData".to_string(), Tag::ByteArray(vec![0, 1, 2, 3, 4, 5, 6, 7, 99, -1]));
    let schem = deserialize(&doc, 2).unwrap();
    assert_eq!(schem.blocks.get_block_at(1, 1, 1), "b7");
}

#[test]
fn a_negative_size_is_read_as_a_large_one() {
    let mut doc = flat(2);
    doc.insert("Width".to_string(), Tag::Short(-1));
    assert_eq!(deserialize(&doc, 2).err(), invalid("BlockData"));
    let mut doc = flat(2);
    doc.insert("Width".to_string(), Tag::Short(-1));
    doc.insert("Height".to_string(), Tag::Short(0));
    let schem = deserialize(&doc, 2).unwrap();
    assert_eq!(schem.blocks.size(), (u32::MAX, 0, 2));
}

#[test]
fn a_schematic_without_cells_is_read() {
    let mut doc = flat(2);
    doc.insert("Length".to_string(), Tag::Short(0));
    doc.insert("BlockData".to_string(), Tag::ByteArray(vec![]));
    let schem = deserialize(&doc, 2).unwrap();
    assert_eq!(schem.blocks.size(), (2, 2, 0));
    assert_eq!(schem.blocks.blocks_in_palette().len(), 9);
}

#[test]
fn a_negative_data_version_wraps() {
    let mut doc = flat(2);
    doc.insert("DataVersion".to_string(), Tag::Int(-1));
    assert_eq!(deserialize(&doc, 2).unwrap().data_version, Some(u32::MAX));
}

fn sign(text: &str) -> Tag {
    Tag::Compound(compound(vec![
        ("Id", Tag::String("minecraft:sign".to_string())),
        ("Pos", Tag::IntArray(vec![1, 0, 1])),
        ("Text1", Tag::String(text.to_string())),
        ("Color", Tag::Other(nbt::Value::Byte(4))),
    ]))
}

#[test]
fn block_entities_are_read_without_their_position_and_id() {
    let mut doc = flat(2);
    let chest = Tag::Compound(compound(vec![
        ("Pos", Tag::IntArray(vec![0, 1, 0])),
        ("Items", Tag::List(vec![])),
        ("Id", Tag::String("minecraft:chest".to_string())),
    ]));
    doc.insert("BlockEntities".to_string(), Tag::List(vec![sign("hello"), chest]));
    let schem = deserialize(&doc, 2).unwrap();
    assert_eq!(schem.block_entities.len(), 2);
    assert!(schem.block_entities.contains_key((1, 0, 1)));
    assert!(!schem.block_entities.contains_key((1, 1, 1)));
    let read = schem.block_entities.get((1, 0, 1)).unwrap();
    assert_eq!(read.id, "minecraft:sign");
    assert_eq!(read.data.len(), 2);
    assert_eq!(read.data.get("Text1"), Some(&Tag::String("hello".to_string())));
    assert_eq!(read.data.get("Color"), Some(&Tag::Other(nbt::Value::Byte(4))));
    let read = schem.block_entities.get((0, 1, 0)).unwrap();
    assert_eq!(read.id, "minecraft:chest");
    assert_eq!(read.data.len(), 1);
    assert_eq!(read.data.get("Items"), Some(&Tag::List(vec![])));
    assert_eq!(schem.block_entities.entries[0].pos, (1, 0, 1));
    assert_eq!(schem.block_entities.entries[1].pos, (0, 1, 0));
}

#[test]
fn the_last_block_entity_of_a_position_wins() {
    let mut doc = flat(2);
    doc.insert("BlockEntities".to_string(), Tag::List(vec![sign("first"), sign("last")]));
    let schem = deserialize(&doc, 2).unwrap();
    assert_eq!(schem.block_entities.len(), 1);
    let read = schem.block_entities.get((1, 0, 1)).unwrap();
    assert_eq!(read.data.get("Text1"), Some(&Tag::String("last".to_string())));
}

#[test]
fn version_1_keeps_its_block_entities_under_tile_entities() {
    let mut doc = flat(1);
    doc.insert("TileEntities".to_string(), Tag::List(vec![sign("one")]));
    doc.insert("BlockEntities".to_string(), Tag::Int(0));
    let schem = deserialize(&doc, 1).unwrap();
    assert_eq!(schem.block_entities.len(), 1);
    assert_eq!(schem.blocks.get_block_at(1, 1, 1), "b7");

    let mut doc = flat(2);
    doc.insert("TileEntities".to_string(), Tag::List(vec![sign("one")]));
    let schem = deserialize(&doc, 2).unwrap();
    assert!(schem.block_entities.is_empty());
}

#[test]
fn an_item_that_is_no_block_entity_is_mistyped_by_the_name_of_the_list() {
    let broken = vec![
        Tag::Int(0),
        Tag::Compound(compound(vec![("Id", Tag::String("a".to_string()))])),
        Tag::Compound(compound(vec![("Pos", Tag::IntArray(vec![0, 0, 0]))])),
        Tag::Compound(compound(vec![
            ("Id", Tag::String("a".to_string())),
            ("Pos", Tag::IntArray(vec![0, 0])),
        ])),
        Tag::Compound(compound(vec![
            ("Id", Tag::String("a".to_string())),
            ("Pos", Tag::IntArray(vec![0, 0, 0, 0])),
        ])),
        Tag::Compound(compound(vec![
            ("Id", Tag::Int(1)),
            ("Pos", Tag::IntArray(vec![0, 0, 0])),
        ])),
        Tag::Compound(compound(vec![
            ("Id", Tag::String("a".to_string())),
            ("Pos", Tag::ByteArray(vec![0, 0, 0])),
        ])),
    ];
    for item in broken {
        let mut doc = flat(2);
        doc.insert("BlockEntities".to_string(), Tag::List(vec![sign("fine"), item.clone()]));
        assert_eq!(deserialize(&doc, 2).err(), mistyped("BlockEntities"));
        let mut doc = flat(1);
        doc.insert("TileEntities".to_string(), Tag::List(vec![item.clone()]));
        assert_eq!(deserialize(&doc, 1).err(), mistyped("TileEntities"));
        let mut doc = nested();
        blocks_of(&mut doc).insert("BlockEntities".to_string(), Tag::List(vec![item]));
        assert_eq!(deserialize(&doc, 3).err(), mistyped("BlockEntities"));
    }
}

#[test]
fn a_block_container_is_read_for_a_given_size() {
    let container = compound(vec![
        ("Palette", palette(&[("minecraft:stone", 1), ("minecraft:air", 0)])),
        ("Data", Tag::ByteArray(vec![1, 0, 0, 1, 1, 1])),
    ]);
    let (blocks, entities) = read_block_container(3, 3, 1, 2, &container).ok().unwrap();
    assert_eq!(blocks.size(), (3, 1, 2));
    assert!(entities.is_empty());
    assert_eq!(blocks.get_block_at(0, 0, 0), "minecraft:stone");
    assert_eq!(blocks.get_block_at(1, 0, 0), "minecraft:air");
    assert_eq!(blocks.get_block_at(2, 0, 0), "minecraft:air");
    assert_eq!(blocks.get_block_at(0, 0, 1), "minecraft:stone");
    assert_eq!(blocks.get_block_at(1, 0, 1), "minecraft:stone");
    assert_eq!(blocks.get_block_at(2, 0, 1), "minecraft:stone");
    assert_eq!(blocks.blocks_in_palette(), vec!["minecraft:air", "minecraft:stone"]);
    assert_eq!(
        read_block_container(2, 3, 1, 2, &container).err(),
        missing("BlockData")
    );
}

#[test]
fn the_format_of_a_document_is_detected_from_its_root() {
    assert_eq!(mc_schems::schematic::detect_format(&flat(1)), Some(SchematicFormat::Sponge(1)));
    assert_eq!(mc_schems::schematic::detect_format(&flat(2)), Some(SchematicFormat::Sponge(2)));
    assert_eq!(mc_schems::schematic::detect_format(&nested()), Some(SchematicFormat::Sponge(3)));
    assert_eq!(mc_schems::schematic::detect_format(&flat(3)), None);
    assert_eq!(mc_schems::schematic::detect_format(&Compound::new()), None);

    let mut doc = flat(2);
    doc.insert("Regions".to_string(), Tag::Compound(Compound::new()));
    assert_eq!(
        mc_schems::schematic::detect_format(&doc),
        Some(SchematicFormat::Litematica(2))
    );

    let mut doc = flat(2);
    doc.insert("Version".to_string(), Tag::Short(2));
    assert_eq!(mc_schems::schematic::detect_format(&doc), None);

    let mut doc = nested();
    inner(&mut doc).insert("Version".to_string(), Tag::Int(2));
    assert_eq!(mc_schems::schematic::detect_format(&doc), None);

    let mut doc = nested();
    doc.insert("Version".to_string(), Tag::Int(9));
    assert_eq!(mc_schems::schematic::detect_format(&doc), Some(SchematicFormat::Sponge(3)));
}

#[test]
fn a_document_is_read_in_the_format_that_its_root_shows() {
    let schem = Schematic::from_document(&flat(2)).unwrap();
    assert_eq!(schem.blocks.size(), (2, 2, 2));
    let schem = Schematic::from_document(&flat(1)).unwrap();
    assert_eq!(schem.blocks.size(), (2, 2, 2));
    let schem = Schematic::from_document(&nested()).unwrap();
    assert_eq!(schem.paste_offset, Some((3, -4, 5)));
    assert_eq!(
        Schematic::from_document(&flat(5)).err(),
        Some(SchematicError::UnrecognizedFormat)
    );
    let mut doc = Compound::new();
    doc.insert("Version".to_string(), Tag::Int(5));
    doc.insert("Regions".to_string(), Tag::Int(0));
    assert_eq!(
        Schematic::from_document(&doc).err(),
        Some(SchematicError::UnsupportedFormat(SchematicFormat::Litematica(5)))
    );
}
