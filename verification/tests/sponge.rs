use mc_schems::{
    BlockEntities, BlockEntity, Blocks, Compound, Schematic, SchematicError, SchematicFormat, Tag,
};

fn gzip(blob: &nbt::Blob) -> Vec<u8> {
    let mut bytes = Vec::new();
    blob.to_gzip_writer(&mut bytes).unwrap();
    bytes
}

fn offsets(x: i32, y: i32, z: i32) -> nbt::Value {
    let mut metadata = nbt::Map::new();
    metadata.insert("WEOffsetX".to_string(), nbt::Value::Int(x));
    metadata.insert("WEOffsetY".to_string(), nbt::Value::Int(y));
    metadata.insert("WEOffsetZ".to_string(), nbt::Value::Int(z));
    nbt::Value::Compound(metadata)
}

fn cuboid_v2() -> nbt::Blob {
    let mut palette = nbt::Map::new();
    palette.insert("minecraft:air".to_string(), nbt::Value::Int(0));
    palette.insert("minecraft:stone".to_string(), nbt::Value::Int(1));
    let mut blob = nbt::Blob::new();
    blob.insert("Version", nbt::Value::Int(2)).unwrap();
    blob.insert("DataVersion", nbt::Value::Int(3465)).unwrap();
    blob.insert("Width", nbt::Value::Short(2)).unwrap();
    blob.insert("Height", nbt::Value::Short(2)).unwrap();
    blob.insert("Length", nbt::Value::Short(2)).unwrap();
    blob.insert("PaletteMax", nbt::Value::Int(2)).unwrap();
    blob.insert("Palette", nbt::Value::Compound(palette)).unwrap();
    blob.insert("BlockData", nbt::Value::ByteArray(vec![1, 1, 1, 1, 0, 0, 0, 1]))
        .unwrap();
    blob.insert("BlockEntities", nbt::Value::List(vec![])).unwrap();
    blob.insert("Metadata", offsets(1, 0, 1)).unwrap();
    blob.insert("Offset", nbt::Value::IntArray(vec![1, 0, 2])).unwrap();
    blob
}

#[test]
fn sponge_v2() {
    let bytes = gzip(&cuboid_v2());
    let schem = Schematic::deserialize(&bytes).unwrap();

    assert_eq!(schem.blocks.size(), (2, 2, 2));
    assert!(schem.block_entities.is_empty());
    assert!(schem.biomes.is_none());
    assert_eq!(schem.paste_offset, Some((1, 0, 1)));
    assert_eq!(schem.origin, Some((1, 0, 2)));
    assert!(schem.metadata.is_none());
}

#[test]
fn sponge_v2_blocks_stand_where_the_block_data_puts_them() {
    let schem = Schematic::deserialize(&gzip(&cuboid_v2())).unwrap();
    assert_eq!(schem.size(), (2, 2, 2));
    assert_eq!(schem.data_version, Some(3465));
    for x in 0..2 {
        for z in 0..2 {
            assert_eq!(schem.blocks.get_block_at(x, 0, z), "minecraft:stone");
        }
    }
    assert_eq!(schem.blocks.get_block_at(0, 1, 0), "minecraft:air");
    assert_eq!(schem.blocks.get_block_at(1, 1, 0), "minecraft:air");
    assert_eq!(schem.blocks.get_block_at(0, 1, 1), "minecraft:air");
    assert_eq!(schem.blocks.get_block_at(1, 1, 1), "minecraft:stone");
    assert_eq!(
        schem.blocks.blocks_in_palette(),
        vec!["minecraft:air", "minecraft:stone"]
    );
}

#[test]
fn metadata_with_more_than_the_offset_keeps_the_rest() {
    let mut blob = cuboid_v2();
    let mut metadata = nbt::Map::new();
    metadata.insert("WEOffsetX".to_string(), nbt::Value::Int(4));
    metadata.insert("Name".to_string(), nbt::Value::String("hut".to_string()));
    metadata.insert("Date".to_string(), nbt::Value::Long(1_700_000_000_000));
    blob.insert("Metadata", nbt::Value::Compound(metadata)).unwrap();
    let schem = Schematic::deserialize(&gzip(&blob)).unwrap();
    assert_eq!(schem.paste_offset, Some((4, 0, 0)));
    let metadata = schem.metadata.unwrap();
    assert_eq!(metadata.len(), 2);
    assert_eq!(metadata.get("Name"), Some(&Tag::String("hut".to_string())));
    assert_eq!(
        metadata.get("Date"),
        Some(&Tag::Other(nbt::Value::Long(1_700_000_000_000)))
    );
    assert!(!metadata.contains_key("WEOffsetX"));
}

#[test]
fn data_that_is_no_gzip_stream_is_an_nbt_error() {
    let read = Schematic::deserialize(b"this is not a schematic");
    assert!(matches!(read, Err(SchematicError::NbtError(_))));
    let read = Schematic::deserialize(&[]);
    assert!(matches!(read, Err(SchematicError::NbtError(_))));
}

#[test]
fn a_gzip_stream_that_is_cut_off_is_an_nbt_error() {
    let bytes = gzip(&cuboid_v2());
    let read = Schematic::deserialize(&bytes[..bytes.len() / 2]);
    assert!(matches!(read, Err(SchematicError::NbtError(_))));
}

#[test]
fn a_document_without_data_version_is_refused() {
    let mut blob = nbt::Blob::new();
    for (name, value) in [
        ("Version", nbt::Value::Int(2)),
        ("Width", nbt::Value::Short(1)),
        ("Height", nbt::Value::Short(1)),
        ("Length", nbt::Value::Short(1)),
    ] {
        blob.insert(name, value).unwrap();
    }
    let read = Schematic::deserialize(&gzip(&blob));
    assert_eq!(
        read.err(),
        Some(SchematicError::MissingRequiredField("DataVersion".to_string()))
    );
}

#[test]
fn a_schematic_without_data_version_is_not_written() {
    let schem = Schematic {
        blocks: Blocks::new(1, 1, 1, "minecraft:air"),
        origin: None,
        paste_offset: Some((0, 0, 0)),
        biomes: None,
        data_version: None,
        block_entities: BlockEntities::new(),
        metadata: None,
    };
    for version in [2, 3] {
        assert_eq!(
            schem.serialize(SchematicFormat::Sponge(version)).err(),
            Some(SchematicError::MissingRequiredField("DataVersion".to_string()))
        );
    }
}

#[test]
fn a_litematica_document_is_unsupported_whatever_its_version() {
    for version in [1, 2, 6, -1] {
        let mut blob = cuboid_v2();
        blob.insert("Version", nbt::Value::Int(version)).unwrap();
        blob.insert("Regions", nbt::Value::Compound(nbt::Map::new()))
            .unwrap();
        let read = Schematic::deserialize(&gzip(&blob));
        assert_eq!(
            read.err(),
            Some(SchematicError::UnsupportedFormat(SchematicFormat::Litematica(
                version as u32
            )))
        );
    }
}

#[test]
fn a_document_of_no_known_shape_is_unrecognized() {
    let mut blob = nbt::Blob::new();
    blob.insert("Blocks", nbt::Value::ByteArray(vec![0])).unwrap();
    let read = Schematic::deserialize(&gzip(&blob));
    assert_eq!(read.err(), Some(SchematicError::UnrecognizedFormat));

    let read = Schematic::deserialize(&gzip(&nbt::Blob::new()));
    assert_eq!(read.err(), Some(SchematicError::UnrecognizedFormat));

    let mut blob = cuboid_v2();
    blob.insert("Version", nbt::Value::Int(4)).unwrap();
    let read = Schematic::deserialize(&gzip(&blob));
    assert_eq!(read.err(), Some(SchematicError::UnrecognizedFormat));
}

fn house() -> Schematic {
    let mut blocks = Blocks::new(3, 2, 2, "minecraft:air");
    blocks.set_block_at(0, 0, 0, "minecraft:stone");
    blocks.set_block_at(1, 0, 0, "minecraft:oak_planks");
    blocks.set_block_at(2, 1, 1, "minecraft:chest[facing=north]");
    blocks.set_block_at(0, 1, 1, "minecraft:stone");
    let mut items = Compound::new();
    items.insert("Count".to_string(), Tag::Other(nbt::Value::Byte(3)));
    items.insert("id".to_string(), Tag::String("minecraft:apple".to_string()));
    let mut data = Compound::new();
    data.insert("Items".to_string(), Tag::List(vec![Tag::Compound(items)]));
    data.insert("Lock".to_string(), Tag::String(String::new()));
    let mut block_entities = BlockEntities::new();
    block_entities.insert(
        (2, 1, 1),
        BlockEntity { id: "minecraft:chest".to_string(), data },
    );
    let mut metadata = Compound::new();
    metadata.insert("Name".to_string(), Tag::String("house".to_string()));
    metadata.insert("Scale".to_string(), Tag::Other(nbt::Value::Double(1.5)));
    Schematic {
        blocks,
        origin: None,
        paste_offset: Some((-1, 0, 7)),
        biomes: None,
        data_version: Some(3465),
        block_entities,
        metadata: Some(metadata),
    }
}

fn same_blocks(read: &Blocks, written: &Blocks) {
    assert_eq!(read.size(), written.size());
    let (size_x, size_y, size_z) = written.size();
    for x in 0..size_x {
        for y in 0..size_y {
            for z in 0..size_z {
                assert_eq!(read.get_block_at(x, y, z), written.get_block_at(x, y, z));
            }
        }
    }
}

fn same_fields(read: &Compound, written: &Compound) {
    assert_eq!(read.len(), written.len());
    for entry in &written.entries {
        assert_eq!(read.get(&entry.name), Some(&entry.value));
    }
}

#[test]
fn a_version_3_schematic_is_read_back_from_its_bytes() {
    let written = house();
    let bytes = written.serialize(SchematicFormat::Sponge(3)).unwrap();
    let read = Schematic::deserialize(&bytes).unwrap();
    same_blocks(&read.blocks, &written.blocks);
    assert_eq!(read.blocks.blocks_in_palette(), written.blocks.blocks_in_palette());
    assert_eq!(read.data_version, Some(3465));
    assert_eq!(read.paste_offset, Some((-1, 0, 7)));
    assert_eq!(read.origin, None);
    assert!(read.biomes.is_none());
    assert_eq!(read.metadata, written.metadata);
    assert_eq!(read.block_entities, written.block_entities);
    same_fields(read.metadata.as_ref().unwrap(), written.metadata.as_ref().unwrap());
    assert_eq!(read.block_entities.len(), 1);
    let chest = read.block_entities.get((2, 1, 1)).unwrap();
    assert_eq!(chest.id, "minecraft:chest");
    same_fields(&chest.data, &written.block_entities.get((2, 1, 1)).unwrap().data);
}

#[test]
fn a_version_2_schematic_is_read_back_from_its_bytes() {
    let mut written = house();
    written.origin = Some((100, 64, -200));
    let bytes = written.serialize(SchematicFormat::Sponge(2)).unwrap();
    let read = Schematic::deserialize(&bytes).unwrap();
    same_blocks(&read.blocks, &written.blocks);
    assert_eq!(read.blocks.blocks_in_palette(), written.blocks.blocks_in_palette());
    assert_eq!(read.data_version, Some(3465));
    assert_eq!(read.paste_offset, Some((-1, 0, 7)));
    assert_eq!(read.origin, Some((100, 64, -200)));
    assert!(read.biomes.is_none());
    assert_eq!(read.metadata, written.metadata);
    assert_eq!(read.block_entities, written.block_entities);
    same_fields(read.metadata.as_ref().unwrap(), written.metadata.as_ref().unwrap());
    assert_eq!(read.block_entities.len(), 1);
    let chest = read.block_entities.get((2, 1, 1)).unwrap();
    assert_eq!(chest.id, "minecraft:chest");
    same_fields(&chest.data, &written.block_entities.get((2, 1, 1)).unwrap().data);
}

#[test]
fn a_version_2_schematic_without_metadata_is_read_back_without_metadata() {
    let mut written = house();
    written.metadata = None;
    let bytes = written.serialize(SchematicFormat::Sponge(2)).unwrap();
    let read = Schematic::deserialize(&bytes).unwrap();
    assert_eq!(read.paste_offset, Some((-1, 0, 7)));
    assert!(read.metadata.is_none());
}

#[test]
fn written_bytes_hold_the_nbt_document() {
    let bytes = house().serialize(SchematicFormat::Sponge(3)).unwrap();
    let blob = nbt::Blob::from_gzip_reader(&mut std::io::Cursor::new(bytes)).unwrap();
    let schematic = match blob.get("Schematic") {
        Some(nbt::Value::Compound(schematic)) => schematic,
        _ => panic!("no Schematic compound"),
    };
    assert_eq!(schematic.get("Version"), Some(&nbt::Value::Int(3)));
    assert_eq!(schematic.get("DataVersion"), Some(&nbt::Value::Int(3465)));
    assert_eq!(schematic.get("Width"), Some(&nbt::Value::Short(3)));
    assert_eq!(schematic.get("Height"), Some(&nbt::Value::Short(2)));
    assert_eq!(schematic.get("Length"), Some(&nbt::Value::Short(2)));
    assert_eq!(
        schematic.get("Offset"),
        Some(&nbt::Value::IntArray(vec![-1, 0, 7]))
    );
    let blocks = match schematic.get("Blocks") {
        Some(nbt::Value::Compound(blocks)) => blocks,
        _ => panic!("no Blocks compound"),
    };
    assert_eq!(
        blocks.get("Data"),
        Some(&nbt::Value::ByteArray(vec![1, 2, 0, 0, 0, 0, 0, 0, 0, 1, 0, 3]))
    );
    assert_eq!(
        blocks.get("BlockEntities").map(|list| match list {
            nbt::Value::List(items) => items.len(),
            _ => 0,
        }),
        Some(1)
    );
    match blocks.get("Palette") {
        Some(nbt::Value::Compound(palette)) => {
            assert_eq!(palette.len(), 4);
            assert_eq!(palette.get("minecraft:air"), Some(&nbt::Value::Int(0)));
            assert_eq!(palette.get("minecraft:stone"), Some(&nbt::Value::Int(1)));
            assert_eq!(palette.get("minecraft:oak_planks"), Some(&nbt::Value::Int(2)));
            assert_eq!(
                palette.get("minecraft:chest[facing=north]"),
                Some(&nbt::Value::Int(3))
            );
        }
        _ => panic!("no Palette compound"),
    }
    match schematic.get("Metadata") {
        Some(nbt::Value::Compound(metadata)) => {
            assert_eq!(
                metadata.get("Scale"),
                Some(&nbt::Value::Double(1.5))
            );
        }
        _ => panic!("no Metadata compound"),
    }
}

#[test]
fn a_heterogeneous_list_is_an_nbt_error_on_writing() {
    let mut schem = house();
    let mut metadata = Compound::new();
    metadata.insert(
        "mixed".to_string(),
        Tag::List(vec![Tag::Int(1), Tag::String("two".to_string())]),
    );
    schem.metadata = Some(metadata);
    let written = schem.serialize(SchematicFormat::Sponge(3));
    assert!(matches!(written, Err(SchematicError::NbtError(_))));
}

#[test]
fn a_document_is_read_back_from_its_bytes() {
    let mut metadata = Compound::new();
    metadata.insert("b".to_string(), Tag::Int(1));
    metadata.insert("a".to_string(), Tag::List(vec![Tag::Short(2), Tag::Short(3)]));
    metadata.insert("c".to_string(), Tag::IntArray(vec![4, 5]));
    metadata.insert("d".to_string(), Tag::ByteArray(vec![-6, 7]));
    metadata.insert("e".to_string(), Tag::Other(nbt::Value::LongArray(vec![8])));
    let mut root = Compound::new();
    root.insert("Metadata".to_string(), Tag::Compound(metadata));
    root.insert("Version".to_string(), Tag::Int(2));
    root.insert("Unknown".to_string(), Tag::Int(3));
    let bytes = mc_schems::codec::write_root(&root).unwrap();
    let read = mc_schems::codec::read_root(&bytes).unwrap();
    assert_eq!(read.len(), 2);
    assert_eq!(read.entries[0].name, "Version");
    assert_eq!(read.entries[1].name, "Metadata");
    assert_eq!(read.get("Version"), root.get("Version"));
    assert_eq!(read.get("Metadata"), root.get("Metadata"));
    assert_ne!(bytes, Vec::<u8>::new());
    assert_eq!(&bytes[..2], &[0x1f, 0x8b]);
}

/// A sequence of numbers that looks random and is the same on every run.
fn numbers(seed: u64) -> impl FnMut() -> u32 {
    let mut state = seed;
    move || {
        state = state.wrapping_mul(6364136223846793005).wrapping_add(1442695040888963407);
        (state >> 33) as u32
    }
}

#[test]
fn many_schematics_are_read_back_from_their_bytes() {
    let mut next = numbers(7);
    for round in 0..40 {
        let size = (next() % 5, next() % 5, next() % 5);
        let mut blocks = Blocks::new(size.0, size.1, size.2, "minecraft:air");
        let kinds = 1 + next() % 200;
        for x in 0..size.0 {
            for y in 0..size.1 {
                for z in 0..size.2 {
                    blocks.set_block_at(x, y, z, &format!("block{}", next() % kinds));
                }
            }
        }
        let mut block_entities = BlockEntities::new();
        for _ in 0..next() % 4 {
            let mut data = Compound::new();
            data.insert("Value".to_string(), Tag::Int(next() as i32));
            block_entities.insert(
                (next() % 3, next() % 3, next()),
                BlockEntity { id: format!("entity{}", next() % 9), data },
            );
        }
        let version = 2 + round % 2;
        let written = Schematic {
            blocks,
            origin: if version == 2 { Some((next() as i32, 0, -1)) } else { None },
            paste_offset: Some((next() as i32, next() as i32, next() as i32)),
            biomes: None,
            data_version: Some(next()),
            block_entities,
            metadata: None,
        };
        let bytes = written.serialize(SchematicFormat::Sponge(version)).unwrap();
        let read = Schematic::deserialize(&bytes).unwrap();
        same_blocks(&read.blocks, &written.blocks);
        assert_eq!(read.blocks.blocks_in_palette(), written.blocks.blocks_in_palette());
        assert_eq!(read.origin, written.origin);
        assert_eq!(read.paste_offset, written.paste_offset);
        assert_eq!(read.data_version, written.data_version);
        assert_eq!(read.block_entities, written.block_entities);
        assert_eq!(read.metadata, written.metadata);
        assert!(read.biomes.is_none());
    }
}

#[test]
fn a_large_schematic_is_read_back_from_its_bytes() {
    let mut next = numbers(11);
    let mut blocks = Blocks::new(48, 40, 48, "minecraft:air");
    for x in 0..48 {
        for y in 0..40 {
            for z in 0..48 {
                blocks.set_block_at(x, y, z, &format!("minecraft:block_{}", next() % 300));
            }
        }
    }
    let written = Schematic {
        blocks,
        origin: None,
        paste_offset: Some((0, 0, 0)),
        biomes: None,
        data_version: Some(3465),
        block_entities: BlockEntities::new(),
        metadata: None,
    };
    let bytes = written.serialize(SchematicFormat::Sponge(3)).unwrap();
    let read = Schematic::deserialize(&bytes).unwrap();
    same_blocks(&read.blocks, &written.blocks);
    assert_eq!(read.blocks.blocks_in_palette().len(), 301);
}

#[test]
fn the_same_schematic_gives_the_same_bytes() {
    for version in [2, 3] {
        let first = house().serialize(SchematicFormat::Sponge(version)).unwrap();
        let second = house().serialize(SchematicFormat::Sponge(version)).unwrap();
        assert_eq!(first, second);
        assert_eq!(&first[..4], &[0x1f, 0x8b, 0x08, 0x00]);
        assert_eq!(&first[4..8], &[0, 0, 0, 0]);
    }
    let two = house().serialize(SchematicFormat::Sponge(2)).unwrap();
    let three = house().serialize(SchematicFormat::Sponge(3)).unwrap();
    assert_ne!(two, three);
    let root = house().to_document(SchematicFormat::Sponge(3)).unwrap();
    assert_eq!(mc_schems::codec::write_root(&root).unwrap(), three);
    assert_eq!(mc_schems::sponge::serialize(&house(), 3).unwrap(), three);
}

#[test]
fn block_entities_that_are_read_stand_at_distinct_positions() {
    let bytes = house().serialize(SchematicFormat::Sponge(3)).unwrap();
    let read = Schematic::deserialize(&bytes).unwrap();
    let entries = &read.block_entities.entries;
    for (i, one) in entries.iter().enumerate() {
        for other in &entries[i + 1..] {
            assert_ne!(one.pos, other.pos);
        }
    }
}
