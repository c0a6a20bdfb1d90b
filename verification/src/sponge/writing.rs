//! Writing the Sponge schematic format as a document.

use crate::assoc::with_entry;
use crate::blocks::{lemma_last_on_wire, lemma_next_on_wire, lemma_wire_in_range};
use crate::blocks::{lemma_wire_onto, Blocks, BlocksView};
use crate::codec::write_root;
use crate::entities::{BlockEntities, BlockEntity, BlockEntityView, Placements};
use crate::error::{Failure, SchematicError, SchematicFormat};
use crate::schematic::{Schematic, SchematicView};
use crate::sponge::{data_field, data_name};
use crate::tag::{items_view, Compound, Entry, Fields, Tag, TagView};
use crate::varint::{encoded_run, write_run};
use vstd::prelude::*;

verus! {

/// The palette as a document holds it: every name with its palette id, in
/// palette order.
pub open spec fn palette_written(palette: Seq<Seq<char>>) -> Fields {
    Seq::new(palette.len(), |id: int| (palette[id], TagView::Int(id as i32)))
}

/// The palette ids of all cells in the order of the block data: x runs
/// fastest, then z, then y.
pub open spec fn wire_cells(blocks: BlocksView) -> Seq<u32> {
    Seq::new(
        blocks.volume(),
        |wire: int|
            {
                let (x, y, z) = blocks.position_on_wire(wire);
                blocks.id_at(x, y, z)
            },
    )
}

/// Bytes as a byte array holds them: signed.
pub open spec fn signed_bytes(bytes: Seq<u8>) -> Seq<i8> {
    Seq::new(bytes.len(), |i: int| bytes[i] as i8)
}

/// The three integers of an offset as an array.
pub open spec fn offset_written(offset: (i32, i32, i32)) -> TagView {
    TagView::IntArray(seq![offset.0, offset.1, offset.2])
}

/// A block entity as an item of the block entity list: its data, with its
/// type under `Id` and its position under `Pos`.
pub open spec fn entity_written(pos: (u32, u32, u32), entity: BlockEntityView) -> TagView {
    TagView::Compound(
        with_entry(
            with_entry(entity.data, "Id"@, TagView::String(entity.id)),
            "Pos"@,
            TagView::IntArray(seq![pos.0 as i32, pos.1 as i32, pos.2 as i32]),
        ),
    )
}

/// The block entities as the items of a list, in their order.
pub open spec fn entities_written(entities: Placements) -> Seq<TagView> {
    Seq::new(entities.len(), |i: int| entity_written(entities[i].0, entities[i].1))
}

/// `fields` with a block container stored in it: the palette, the block
/// data and the block entities.
pub open spec fn container_written(
    version: u32,
    blocks: BlocksView,
    entities: Placements,
    fields: Fields,
) -> Fields {
    with_entry(
        with_entry(
            with_entry(fields, "Palette"@, TagView::Compound(palette_written(blocks.palette))),
            data_name(version),
            TagView::ByteArray(signed_bytes(encoded_run(wire_cells(blocks)))),
        ),
        "BlockEntities"@,
        TagView::List(entities_written(entities)),
    )
}

/// The metadata that is written for a schematic. Before version 3 the paste
/// offset is stored in it, under `WEOffsetX`, `WEOffsetY` and `WEOffsetZ`.
pub open spec fn metadata_written(version: u32, schematic: SchematicView) -> Option<Fields> {
    match schematic.paste_offset {
        Some(offset) => if version < 3 {
            Some(
                with_entry(
                    with_entry(
                        with_entry(
                            match schematic.metadata {
                                Some(fields) => fields,
                                None => Seq::empty(),
                            },
                            "WEOffsetX"@,
                            TagView::Int(offset.0),
                        ),
                        "WEOffsetY"@,
                        TagView::Int(offset.1),
                    ),
                    "WEOffsetZ"@,
                    TagView::Int(offset.2),
                ),
            )
        } else {
            schematic.metadata
        },
        None => schematic.metadata,
    }
}

/// The fields that every version writes first: the version, the data
/// version and the size.
pub open spec fn header_written(version: u32, data_version: u32, blocks: BlocksView) -> Fields {
    with_entry(
        with_entry(
            with_entry(
                with_entry(
                    with_entry(Seq::empty(), "Version"@, TagView::Int(version as i32)),
                    "DataVersion"@,
                    TagView::Int(data_version as i32),
                ),
                "Width"@,
                TagView::Short(blocks.size_x as i16),
            ),
            "Height"@,
            TagView::Short(blocks.size_y as i16),
        ),
        "Length"@,
        TagView::Short(blocks.size_z as i16),
    )
}

/// `fields` with the metadata and the offset of a schematic stored in it.
/// The offset is the paste offset in version 3 and the origin before it.
pub open spec fn provenance_written(
    version: u32,
    schematic: SchematicView,
    fields: Fields,
) -> Fields {
    let fields = match metadata_written(version, schematic) {
        Some(metadata) => with_entry(fields, "Metadata"@, TagView::Compound(metadata)),
        None => fields,
    };
    let offset = if version == 3 {
        schematic.paste_offset
    } else {
        schematic.origin
    };
    match offset {
        Some(offset) => with_entry(fields, "Offset"@, offset_written(offset)),
        None => fields,
    }
}

/// The greatest size that a document can state.
pub open spec fn max_size() -> u32 {
    0x7fff
}

/// The document that holds a schematic in the given version of the format.
///
/// Versions 2 and 3 are written. The data version is required, and so is
/// the paste offset in version 3. No side of the schematic may be longer
/// than a short integer can tell.
pub open spec fn document_written(schematic: SchematicView, version: u32) -> Result<
    Fields,
    Failure,
> {
    if version != 2 && version != 3 {
        Err(Failure::UnsupportedFormat(SchematicFormat::Sponge(version)))
    } else if schematic.data_version is None {
        Err(Failure::MissingRequiredField("DataVersion"@))
    } else if schematic.blocks.size_x > max_size() {
        Err(Failure::InvalidValue("Width"@))
    } else if schematic.blocks.size_y > max_size() {
        Err(Failure::InvalidValue("Height"@))
    } else if schematic.blocks.size_z > max_size() {
        Err(Failure::InvalidValue("Length"@))
    } else if version == 3 && schematic.paste_offset is None {
        Err(Failure::MissingRequiredField("Offset"@))
    } else {
        let fields = provenance_written(
            version,
            schematic,
            header_written(version, schematic.data_version->Some_0, schematic.blocks),
        );
        if version == 3 {
            Ok(
                seq![
                    (
                        "Schematic"@,
                        TagView::Compound(
                            with_entry(
                                fields,
                                "Blocks"@,
                                TagView::Compound(
                                    container_written(
                                        version,
                                        schematic.blocks,
                                        schematic.block_entities,
                                        Seq::empty(),
                                    ),
                                ),
                            ),
                        ),
                    ),
                ],
            )
        } else {
            Ok(container_written(version, schematic.blocks, schematic.block_entities, fields))
        }
    }
}

/// The palette as a document holds it.
fn write_palette(blocks: &Blocks) -> (palette: Compound)
    requires
        blocks.wf(),
    ensures
        palette@ == palette_written(blocks@.palette),
{
    let names = blocks.blocks_in_palette();
    let mut entries: Vec<Entry> = Vec::new();
    let mut i: usize = 0;
    while i < names.len()
        invariant
            i <= names.len(),
            entries.len() == i,
            forall|j: int|
                0 <= j < i ==> entries[j].name@ == names[j]@ && entries[j].value@ == TagView::Int(
                    j as i32,
                ),
        decreases names.len() - i,
    {
        entries.push(
            Entry { name: names[i].to_owned(), value: Tag::Int(#[verifier::truncate] (i as i32)) },
        );
        i += 1;
    }
    let palette = Compound { entries };
    assert(palette@ =~= palette_written(blocks@.palette));
    palette
}

/// The palette ids of all cells in the order of the block data.
fn collect_cells(blocks: &Blocks) -> (cells: Vec<u32>)
    requires
        blocks.wf(),
    ensures
        cells@ == wire_cells(blocks@),
{
    let (size_x, size_y, size_z) = blocks.size();
    let ghost shape = blocks@;
    let mut cells: Vec<u32> = Vec::new();
    if size_x == 0 || size_y == 0 || size_z == 0 {
        proof {
            assert(size_x * size_y * size_z == 0) by (nonlinear_arith)
                requires
                    size_x == 0 || size_y == 0 || size_z == 0,
            ;
            assert(cells@ =~= wire_cells(shape));
        }
        return cells;
    }
    let mut x: u32 = 0;
    let mut y: u32 = 0;
    let mut z: u32 = 0;
    proof {
        blocks.lemma_wf_valid();
        lemma_wire_in_range(shape, 0, 0, 0);
        assert((0 * shape.size_z + 0) * shape.size_x + 0 == 0) by (nonlinear_arith);
    }
    while y < size_y
        invariant
            blocks.wf(),
            shape == blocks@,
            shape.valid(),
            (size_x, size_y, size_z) == (shape.size_x, shape.size_y, shape.size_z),
            cells@.len() <= shape.volume(),
            cells@.len() < shape.volume() ==> shape.position_on_wire(cells@.len() as int) == (
                x,
                y,
                z,
            ),
            cells@.len() == shape.volume() ==> y == size_y,
            cells@ == wire_cells(shape).take(cells@.len() as int),
        decreases shape.volume() - cells@.len(),
    {
        proof {
            assert(cells@.len() < shape.volume());
            lemma_wire_onto(shape, cells@.len() as int);
        }
        let ghost wire = cells@.len() as int;
        let id = blocks.get_block_id_at(x, y, z);
        proof {
            assert(cells@.push(id) =~= wire_cells(shape).take(wire + 1));
        }
        cells.push(id);
        proof {
            if wire + 1 < shape.volume() {
                lemma_next_on_wire(shape, wire);
            } else {
                lemma_last_on_wire(shape, wire);
            }
        }
        x += 1;
        if x == size_x {
            x = 0;
            z += 1;
            if z == size_z {
                z = 0;
                y += 1;
            }
        }
    }
    proof {
        if cells@.len() < shape.volume() {
            lemma_wire_onto(shape, cells@.len() as int);
        }
        assert(wire_cells(shape).take(cells@.len() as int) =~= wire_cells(shape));
    }
    cells
}

/// Bytes as a byte array holds them.
fn to_signed(bytes: &Vec<u8>) -> (data: Vec<i8>)
    ensures
        data@ == signed_bytes(bytes@),
{
    let mut data: Vec<i8> = Vec::new();
    let mut i: usize = 0;
    while i < bytes.len()
        invariant
            i <= bytes.len(),
            data.len() == i,
            forall|j: int| 0 <= j < i ==> data[j] == bytes[j] as i8,
        decreases bytes.len() - i,
    {
        data.push(#[verifier::truncate] (bytes[i] as i8));
        i += 1;
    }
    assert(data@ =~= signed_bytes(bytes@));
    data
}

/// The three integers of an offset as an array.
fn write_offset(offset: (i32, i32, i32)) -> (tag: Tag)
    ensures
        tag@ == offset_written(offset),
{
    let mut values: Vec<i32> = Vec::new();
    values.push(offset.0);
    values.push(offset.1);
    values.push(offset.2);
    assert(values@ =~= seq![offset.0, offset.1, offset.2]);
    Tag::IntArray(values)
}

/// A block entity as an item of the block entity list.
fn write_block_entity(pos: (u32, u32, u32), entity: &BlockEntity) -> (item: Tag)
    ensures
        item@ == entity_written(pos, entity@),
{
    let mut data = entity.data.clone();
    data.insert("Id".to_owned(), Tag::String(entity.id.clone()));
    let mut place: Vec<i32> = Vec::new();
    place.push(#[verifier::truncate] (pos.0 as i32));
    place.push(#[verifier::truncate] (pos.1 as i32));
    place.push(#[verifier::truncate] (pos.2 as i32));
    assert(place@ =~= seq![pos.0 as i32, pos.1 as i32, pos.2 as i32]);
    data.insert("Pos".to_owned(), Tag::IntArray(place));
    Tag::Compound(data)
}

/// Writes a block container into `nbt`: the palette, the block data and the
/// block entities.
pub fn write_block_container(
    version: u32,
    blocks: &Blocks,
    block_entities: &BlockEntities,
    nbt: &mut Compound,
)
    requires
        blocks.wf(),
    ensures
        final(nbt)@ == container_written(version, blocks@, block_entities@, old(nbt)@),
{
    nbt.insert("Palette".to_owned(), Tag::Compound(write_palette(blocks)));
    let cells = collect_cells(blocks);
    let bytes = write_run(&cells);
    nbt.insert(data_field(version).to_owned(), Tag::ByteArray(to_signed(&bytes)));
    let mut nbt_block_entities: Vec<Tag> = Vec::new();
    let mut i: usize = 0;
    while i < block_entities.entries.len()
        invariant
            i <= block_entities.entries.len(),
            nbt_block_entities.len() == i,
            forall|j: int|
                0 <= j < i ==> nbt_block_entities[j]@ == entity_written(
                    block_entities.entries[j].pos,
                    block_entities.entries[j].entity@,
                ),
        decreases block_entities.entries.len() - i,
    {
        let placed = &block_entities.entries[i];
        nbt_block_entities.push(write_block_entity(placed.pos, &placed.entity));
        i += 1;
    }
    assert(items_view(nbt_block_entities@) =~= entities_written(block_entities@));
    nbt.insert("BlockEntities".to_owned(), Tag::List(nbt_block_entities));
}

/// The metadata that is written for a schematic.
fn write_metadata(version: u32, schem: &Schematic) -> (metadata: Option<Compound>)
    ensures
        match metadata {
            Some(metadata) => metadata_written(version, schem@) == Some(metadata@),
            None => metadata_written(version, schem@) is None,
        },
{
    let mut metadata: Option<Compound> = match &schem.metadata {
        Some(fields) => Some(fields.clone()),
        None => None,
    };
    if version < 3 {
        if let Some(offset) = schem.paste_offset {
            let mut fields = match metadata {
                Some(fields) => fields,
                None => Compound::new(),
            };
            fields.insert("WEOffsetX".to_owned(), Tag::Int(offset.0));
            fields.insert("WEOffsetY".to_owned(), Tag::Int(offset.1));
            fields.insert("WEOffsetZ".to_owned(), Tag::Int(offset.2));
            metadata = Some(fields);
        }
    }
    metadata
}

/// Builds the document that holds a schematic in the given version of the
/// format.
pub fn write_document(schem: &Schematic, version: u32) -> (written: Result<
    Compound,
    SchematicError,
>)
    requires
        schem.wf(),
    ensures
        match written {
            Ok(root) => document_written(schem@, version) == Ok::<Fields, Failure>(root@),
            Err(error) => document_written(schem@, version) == Err::<Fields, Failure>(error@),
        },
{
    if version != 2 && version != 3 {
        return Err(SchematicError::UnsupportedFormat(SchematicFormat::Sponge(version)));
    }
    let data_version = match schem.data_version {
        Some(data_version) => data_version,
        None => {
            return Err(SchematicError::missing("DataVersion"));
        },
    };
    let (size_x, size_y, size_z) = schem.blocks.size();
    if size_x > 0x7fff {
        return Err(SchematicError::invalid("Width"));
    }
    if size_y > 0x7fff {
        return Err(SchematicError::invalid("Height"));
    }
    if size_z > 0x7fff {
        return Err(SchematicError::invalid("Length"));
    }
    let offset = if version == 3 {
        match schem.paste_offset {
            Some(offset) => Some(offset),
            None => {
                return Err(SchematicError::missing("Offset"));
            },
        }
    } else {
        schem.origin
    };
    let mut nbt = Compound::new();
    nbt.insert("Version".to_owned(), Tag::Int(#[verifier::truncate] (version as i32)));
    nbt.insert("DataVersion".to_owned(), Tag::Int(#[verifier::truncate] (data_version as i32)));
    nbt.insert("Width".to_owned(), Tag::Short(#[verifier::truncate] (size_x as i16)));
    nbt.insert("Height".to_owned(), Tag::Short(#[verifier::truncate] (size_y as i16)));
    nbt.insert("Length".to_owned(), Tag::Short(#[verifier::truncate] (size_z as i16)));
    if let Some(metadata) = write_metadata(version, schem) {
        nbt.insert("Metadata".to_owned(), Tag::Compound(metadata));
    }
    if let Some(offset) = offset {
        nbt.insert("Offset".to_owned(), write_offset(offset));
    }
    if version < 3 {
        write_block_container(version, &schem.blocks, &schem.block_entities, &mut nbt);
        Ok(nbt)
    } else {
        let mut container = Compound::new();
        write_block_container(version, &schem.blocks, &schem.block_entities, &mut container);
        nbt.insert("Blocks".to_owned(), Tag::Compound(container));
        let mut root = Compound::new();
        root.insert("Schematic".to_owned(), Tag::Compound(nbt));
        proof {
            crate::assoc::lemma_position(Seq::<(Seq<char>, TagView)>::empty(), "Schematic"@);
            assert(root@ =~= seq![("Schematic"@, Tag::Compound(nbt)@)]);
        }
        Ok(root)
    }
}

/// Writes a schematic as gzip-compressed NBT data, in the given version of
/// the format.
///
/// A schematic that has no document in the version gives the error that
/// [`write_document`] gives. Otherwise the result is what the `nbt` crate
/// makes of its document: the bytes, or [`SchematicError::NbtError`] where
/// the crate refuses the document.
pub fn serialize(schem: &Schematic, version: u32) -> (written: Result<Vec<u8>, SchematicError>)
    requires
        schem.wf(),
    ensures
        match written {
            Ok(data) => document_written(schem@, version) is Ok && crate::codec::written(
                document_written(schem@, version)->Ok_0,
            ) == Some(data@),
            Err(error) => match document_written(schem@, version) {
                Ok(root) => crate::codec::written(root) is None && error@ is Nbt,
                Err(failure) => error@ == failure,
            },
        },
{
    let root = match write_document(schem, version) {
        Ok(root) => root,
        Err(error) => {
            return Err(error);
        },
    };
    write_root(&root)
}

} // verus!
