//! Reading the Sponge schematic format from a document.

use crate::assoc::{distinct_keys, has_key, lemma_with_entry_distinct, lookup, with_entry};
use crate::assoc::without_key;
use crate::blocks::{lemma_index_onto, lemma_next_on_wire, lemma_wire_in_range};
use crate::blocks::{lemma_wire_onto, palette_with};
use crate::blocks::{Blocks, BlocksView};
use crate::document::{optional_compound, optional_int, optional_int_array, optional_list};
use crate::document::{read_byte_array, read_compound, read_int, read_int_array, read_short};
use crate::document::{read_optional_compound, read_optional_int, read_optional_int_array};
use crate::document::{read_optional_list, required_byte_array, required_compound};
use crate::document::{required_int, required_int_array, required_short};
use crate::entities::{BlockEntities, BlockEntity, BlockEntityView, Placements};
use crate::error::{Failure, SchematicError, SchematicFormat};
use crate::schematic::{Schematic, SchematicView};
use crate::sponge::{air, data_field, data_name, entities_field, entities_name};
use crate::tag::{items_view, Compound, Fields, Tag, TagView};
use crate::varint::{decoded_run, lemma_decoded_run_len, read_run};
use std::collections::HashMap;
use vstd::prelude::*;

verus! {

broadcast use vstd::std_specs::hash::group_hash_axioms;

/// The bytes of a byte array, read as unsigned.
pub open spec fn unsigned_bytes(data: Seq<i8>) -> Seq<u8> {
    Seq::new(data.len(), |i: int| data[i] as u8)
}

/// The index of the first palette entry at or after `from` whose value is no
/// integer, or the length of `entries` where there is none.
pub open spec fn first_non_int(entries: Fields, from: int) -> int
    decreases entries.len() - from,
{
    if from < 0 || from >= entries.len() {
        entries.len() as int
    } else if !(entries[from].1 is Int) {
        from
    } else {
        first_non_int(entries, from + 1)
    }
}

/// The palette of a block storage after the names of the first `count`
/// palette entries of a document were given a place in it, in their order.
pub open spec fn palette_read(entries: Fields, count: nat) -> Seq<Seq<char>>
    decreases count,
{
    if count == 0 {
        seq![air()]
    } else {
        palette_with(palette_read(entries, (count - 1) as nat), entries[count - 1].0)
    }
}

/// The palette id that stands for each id of the document, after the first
/// `count` palette entries were read. A later entry overrides an earlier one
/// of the same document id.
pub open spec fn wire_ids_read(entries: Fields, count: nat) -> Map<u32, u32>
    decreases count,
{
    if count == 0 {
        Map::empty()
    } else {
        wire_ids_read(entries, (count - 1) as nat).insert(
            entries[count - 1].1->Int_0 as u32,
            palette_read(entries, count).index_of(entries[count - 1].0) as u32,
        )
    }
}

/// The block storage that holds, at every position, the palette id that
/// stands for the document id found at the position's place in the block
/// data.
pub open spec fn blocks_read(
    size_x: u32,
    size_y: u32,
    size_z: u32,
    palette: Seq<Seq<char>>,
    ids: Map<u32, u32>,
    cells: Seq<u32>,
) -> BlocksView {
    let shape = BlocksView { size_x, size_y, size_z, palette, indices: Seq::empty() };
    BlocksView {
        indices: Seq::new(
            shape.volume(),
            |index: int|
                {
                    let (x, y, z) = shape.position_at(index);
                    ids[cells[shape.wire_of(x, y, z)]]
                },
        ),
        ..shape
    }
}

/// The block storage of a container: its palette and its block data.
pub open spec fn block_grid_read(
    version: u32,
    size_x: u32,
    size_y: u32,
    size_z: u32,
    fields: Fields,
) -> Result<BlocksView, Failure> {
    match required_compound(fields, "Palette"@) {
        Err(failure) => Err(failure),
        Ok(palette) => {
            let bad = first_non_int(palette, 0);
            if bad < palette.len() {
                Err(Failure::MistypedField(palette[bad].0))
            } else if palette.len() > u32::MAX {
                Err(Failure::InvalidValue("Palette"@))
            } else {
                match required_byte_array(fields, data_name(version)) {
                    Err(failure) => Err(failure),
                    Ok(data) => match decoded_run(
                        unsigned_bytes(data),
                        0,
                        (size_x * size_y * size_z) as nat,
                    ) {
                        None => Err(Failure::InvalidValue(data_name(version))),
                        Some(cells) => {
                            let ids = wire_ids_read(palette, palette.len());
                            if forall|wire: int|
                                0 <= wire < cells.len() ==> ids.contains_key(
                                    #[trigger] cells[wire],
                                ) {
                                Ok(
                                    blocks_read(
                                        size_x,
                                        size_y,
                                        size_z,
                                        palette_read(palette, palette.len()),
                                        ids,
                                        cells,
                                    ),
                                )
                            } else {
                                Err(Failure::InvalidValue(data_name(version)))
                            }
                        },
                    },
                }
            }
        },
    }
}

/// The position and the block entity that an item of the block entity list
/// holds: a compound with the position under `Pos` and the type under `Id`.
/// Its other entries are the data of the block entity.
pub open spec fn entity_read(item: TagView) -> Option<((u32, u32, u32), BlockEntityView)> {
    match item {
        TagView::Compound(fields) => match (lookup(fields, "Pos"@), lookup(fields, "Id"@)) {
            (Some(TagView::IntArray(pos)), Some(TagView::String(id))) => if pos.len() == 3 {
                Some(
                    (
                        (pos[0] as u32, pos[1] as u32, pos[2] as u32),
                        BlockEntityView {
                            id,
                            data: without_key(without_key(fields, "Pos"@), "Id"@),
                        },
                    ),
                )
            } else {
                None
            },
            _ => None,
        },
        _ => None,
    }
}

/// The block entities of the first `count` items of a list. `None` where an
/// item is no block entity.
pub open spec fn entities_read(items: Seq<TagView>, count: nat) -> Option<Placements>
    decreases count,
{
    if count == 0 {
        Some(Seq::empty())
    } else {
        match (entities_read(items, (count - 1) as nat), entity_read(items[count - 1])) {
            (Some(placed), Some((pos, entity))) => Some(with_entry(placed, pos, entity)),
            _ => None,
        }
    }
}

/// The block entities of a container.
pub open spec fn block_entities_read(version: u32, fields: Fields) -> Result<Placements, Failure> {
    match optional_list(fields, entities_name(version)) {
        Err(failure) => Err(failure),
        Ok(None) => Ok(Seq::empty()),
        Ok(Some(items)) => match entities_read(items, items.len()) {
            Some(placed) => Ok(placed),
            None => Err(Failure::MistypedField(entities_name(version))),
        },
    }
}

/// What a block container holds: the block storage and the block entities.
pub open spec fn container_read(
    version: u32,
    size_x: u32,
    size_y: u32,
    size_z: u32,
    fields: Fields,
) -> Result<(BlocksView, Placements), Failure> {
    match block_grid_read(version, size_x, size_y, size_z, fields) {
        Err(failure) => Err(failure),
        Ok(blocks) => match block_entities_read(version, fields) {
            Err(failure) => Err(failure),
            Ok(entities) => Ok((blocks, entities)),
        },
    }
}

/// The data version and the size that a document states.
pub open spec fn header_read(doc: Fields) -> Result<(u32, u32, u32, u32), Failure> {
    match required_int(doc, "DataVersion"@) {
        Err(failure) => Err(failure),
        Ok(data_version) => match required_short(doc, "Width"@) {
            Err(failure) => Err(failure),
            Ok(width) => match required_short(doc, "Height"@) {
                Err(failure) => Err(failure),
                Ok(height) => match required_short(doc, "Length"@) {
                    Err(failure) => Err(failure),
                    Ok(length) => Ok(
                        (data_version as u32, width as u32, height as u32, length as u32),
                    ),
                },
            },
        },
    }
}

/// The three integers of an offset array. An array of another length is
/// mistyped.
pub open spec fn offset_read(offset: Seq<i32>) -> Result<(i32, i32, i32), Failure> {
    if offset.len() == 3 {
        Ok((offset[0], offset[1], offset[2]))
    } else {
        Err(Failure::MistypedField("Offset"@))
    }
}

/// An integer that counts as 0 where it is absent.
pub open spec fn or_zero(value: Option<i32>) -> i32 {
    match value {
        Some(value) => value,
        None => 0,
    }
}

/// The paste offset that metadata of a version before 3 holds, and the
/// metadata without it.
///
/// Metadata that has `WEOffsetX` holds the paste offset: the three integers
/// `WEOffsetX`, `WEOffsetY` and `WEOffsetZ`, of which an absent one counts
/// as 0, leave the metadata.
pub open spec fn metadata_offset_read(metadata: Fields) -> Result<
    (Option<(i32, i32, i32)>, Fields),
    Failure,
> {
    if has_key(metadata, "WEOffsetX"@) {
        match optional_int(metadata, "WEOffsetX"@) {
            Err(failure) => Err(failure),
            Ok(x) => match optional_int(metadata, "WEOffsetY"@) {
                Err(failure) => Err(failure),
                Ok(y) => match optional_int(metadata, "WEOffsetZ"@) {
                    Err(failure) => Err(failure),
                    Ok(z) => Ok(
                        (
                            Some((or_zero(x), or_zero(y), or_zero(z))),
                            without_key(
                                without_key(without_key(metadata, "WEOffsetX"@), "WEOffsetY"@),
                                "WEOffsetZ"@,
                            ),
                        ),
                    ),
                },
            },
        }
    } else {
        Ok((None, metadata))
    }
}

/// The paste offset of a document, and the metadata without what was read
/// from it.
///
/// Version 3 requires the paste offset under `Offset` and leaves the
/// metadata as it is. Before it, the paste offset is read from the
/// metadata.
pub open spec fn paste_offset_read(version: u32, doc: Fields, metadata: Option<Fields>) -> Result<
    (Option<(i32, i32, i32)>, Option<Fields>),
    Failure,
> {
    if version == 3 {
        match required_int_array(doc, "Offset"@) {
            Err(failure) => Err(failure),
            Ok(offset) => match offset_read(offset) {
                Err(failure) => Err(failure),
                Ok(offset) => Ok((Some(offset), metadata)),
            },
        }
    } else {
        match metadata {
            Some(fields) => match metadata_offset_read(fields) {
                Err(failure) => Err(failure),
                Ok((paste_offset, rest)) => Ok((paste_offset, Some(rest))),
            },
            None => Ok((None, None)),
        }
    }
}

/// Metadata without entries counts as no metadata.
pub open spec fn normalized(metadata: Option<Fields>) -> Option<Fields> {
    match metadata {
        Some(fields) => if fields.len() == 0 {
            None
        } else {
            metadata
        },
        None => None,
    }
}

/// The origin of a document. Before version 3 it stands under `Offset`;
/// version 3 has none.
pub open spec fn origin_read(version: u32, doc: Fields) -> Result<
    Option<(i32, i32, i32)>,
    Failure,
> {
    if version < 3 {
        match optional_int_array(doc, "Offset"@) {
            Err(failure) => Err(failure),
            Ok(None) => Ok(None),
            Ok(Some(offset)) => match offset_read(offset) {
                Err(failure) => Err(failure),
                Ok(offset) => Ok(Some(offset)),
            },
        }
    } else {
        Ok(None)
    }
}

/// The paste offset, the origin and the metadata of a document.
pub open spec fn provenance_read(version: u32, doc: Fields) -> Result<
    (Option<(i32, i32, i32)>, Option<(i32, i32, i32)>, Option<Fields>),
    Failure,
> {
    match optional_compound(doc, "Metadata"@) {
        Err(failure) => Err(failure),
        Ok(metadata) => match paste_offset_read(version, doc, metadata) {
            Err(failure) => Err(failure),
            Ok((paste_offset, metadata)) => match origin_read(version, doc) {
                Err(failure) => Err(failure),
                Ok(origin) => Ok((paste_offset, origin, normalized(metadata))),
            },
        },
    }
}

/// The compound that holds the fields of a schematic: the root before
/// version 3, the compound under `Schematic` in version 3.
pub open spec fn schematic_fields(version: u32, root: Fields) -> Result<Fields, Failure> {
    if version == 3 {
        required_compound(root, "Schematic"@)
    } else {
        Ok(root)
    }
}

/// The compound that holds the block container: the document itself
/// before version 3, the compound under `Blocks` in version 3.
pub open spec fn container_fields(version: u32, doc: Fields) -> Result<Fields, Failure> {
    if version == 3 {
        required_compound(doc, "Blocks"@)
    } else {
        Ok(doc)
    }
}

/// The schematic that a document of the given version of the format holds.
pub open spec fn document_read(root: Fields, version: u32) -> Result<SchematicView, Failure> {
    if version < 1 || version > 3 {
        Err(Failure::UnsupportedFormat(SchematicFormat::Sponge(version)))
    } else {
        match schematic_fields(version, root) {
            Err(failure) => Err(failure),
            Ok(doc) => match header_read(doc) {
                Err(failure) => Err(failure),
                Ok((data_version, size_x, size_y, size_z)) => match provenance_read(
                    version,
                    doc,
                ) {
                    Err(failure) => Err(failure),
                    Ok((paste_offset, origin, metadata)) => match container_fields(version, doc) {
                        Err(failure) => Err(failure),
                        Ok(container) => match container_read(
                            version,
                            size_x,
                            size_y,
                            size_z,
                            container,
                        ) {
                            Err(failure) => Err(failure),
                            Ok((blocks, block_entities)) => Ok(
                                SchematicView {
                                    blocks,
                                    origin,
                                    paste_offset,
                                    biomes: None,
                                    data_version: Some(data_version),
                                    block_entities,
                                    metadata,
                                },
                            ),
                        },
                    },
                },
            },
        }
    }
}

/// Checks that every palette entry holds an integer and that the palette
/// ids of all entries fit in a `u32`. Returns the document id of every
/// entry.
fn palette_ids(palette: &Compound) -> (checked: Result<Vec<u32>, SchematicError>)
    ensures
        match checked {
            Ok(ids) => {
                &&& first_non_int(palette@, 0) == palette@.len()
                &&& palette@.len() <= u32::MAX
                &&& ids@.len() == palette@.len()
                &&& forall|i: int|
                    0 <= i < ids@.len() ==> ids@[i] == palette@[i].1->Int_0 as u32
            },
            Err(error) => if first_non_int(palette@, 0) < palette@.len() {
                error@ == Failure::MistypedField(palette@[first_non_int(palette@, 0)].0)
            } else {
                palette@.len() > u32::MAX && error@ == Failure::InvalidValue("Palette"@)
            },
        },
{
    let mut ids: Vec<u32> = Vec::new();
    let mut i: usize = 0;
    while i < palette.entries.len()
        invariant
            i <= palette.entries.len(),
            first_non_int(palette@, 0) == first_non_int(palette@, i as int),
            ids@.len() == i,
            forall|j: int| 0 <= j < i ==> ids@[j] == palette@[j].1->Int_0 as u32,
        decreases palette.entries.len() - i,
    {
        match &palette.entries[i].value {
            Tag::Int(value) => {
                ids.push(#[verifier::truncate] (*value as u32));
            },
            _ => {
                return Err(SchematicError::mistyped(palette.entries[i].name.as_str()));
            },
        }
        i += 1;
    }
    if palette.entries.len() > u32::MAX as usize {
        return Err(SchematicError::invalid("Palette"));
    }
    Ok(ids)
}

/// The bytes of a byte array, read as unsigned.
fn to_unsigned(data: &Vec<i8>) -> (bytes: Vec<u8>)
    ensures
        bytes@ == unsigned_bytes(data@),
{
    let mut bytes: Vec<u8> = Vec::new();
    let mut i: usize = 0;
    while i < data.len()
        invariant
            i <= data.len(),
            bytes.len() == i,
            forall|j: int| 0 <= j < i ==> bytes[j] == data[j] as u8,
        decreases data.len() - i,
    {
        bytes.push(#[verifier::truncate] (data[i] as u8));
        i += 1;
    }
    assert(bytes@ =~= unsigned_bytes(data@));
    bytes
}

/// Reads one document id for every cell of a cuboid from the block data.
fn read_cells(size_x: u32, size_y: u32, size_z: u32, data: &Vec<i8>) -> (cells: Option<Vec<u32>>)
    ensures
        match cells {
            Some(cells) => decoded_run(
                unsigned_bytes(data@),
                0,
                (size_x * size_y * size_z) as nat,
            ) == Some(cells@) && cells@.len() == size_x * size_y * size_z <= usize::MAX,
            None => decoded_run(unsigned_bytes(data@), 0, (size_x * size_y * size_z) as nat)
                is None,
        },
{
    let bytes = to_unsigned(data);
    proof {
        assert(size_x * size_y <= 0xffff_ffff * 0xffff_ffff) by (nonlinear_arith)
            requires
                size_x <= 0xffff_ffff,
                size_y <= 0xffff_ffff,
        ;
        assert(size_x * size_y * size_z <= 0xffff_ffff * 0xffff_ffff * 0xffff_ffff)
            by (nonlinear_arith)
            requires
                size_x * size_y <= 0xffff_ffff * 0xffff_ffff,
                size_z <= 0xffff_ffff,
        ;
    }
    let volume: u128 = (size_x as u128) * (size_y as u128) * (size_z as u128);
    if volume > bytes.len() as u128 {
        proof {
            if decoded_run(bytes@, 0, volume as nat) is Some {
                lemma_decoded_run_len(bytes@, 0, volume as nat);
            }
        }
        return None;
    }
    let cells = read_run(&bytes, volume as usize);
    proof {
        if cells is Some {
            lemma_decoded_run_len(bytes@, 0, volume as nat);
        }
    }
    cells
}

/// Gives the names of a document's palette a place in the palette of the
/// block storage, and returns the palette id that stands for each id of the
/// document.
fn read_palette(blocks: &mut Blocks, palette: &Compound, wires: &Vec<u32>) -> (ids: HashMap<
    u32,
    u32,
>)
    requires
        old(blocks).wf(),
        old(blocks)@.palette == seq![air()],
        palette@.len() <= u32::MAX,
        wires@.len() == palette@.len(),
        forall|i: int| 0 <= i < wires@.len() ==> wires@[i] == palette@[i].1->Int_0 as u32,
    ensures
        final(blocks).wf(),
        final(blocks)@ == (BlocksView {
            palette: palette_read(palette@, palette@.len()),
            ..old(blocks)@
        }),
        ids@ == wire_ids_read(palette@, palette@.len()),
        forall|wire: u32| ids@.contains_key(wire) ==> ids@[wire] < final(blocks)@.palette.len(),
{
    let mut ids: HashMap<u32, u32> = HashMap::new();
    let mut i: usize = 0;
    while i < palette.entries.len()
        invariant
            i <= palette.entries.len(),
            palette@.len() <= u32::MAX,
            wires@.len() == palette@.len(),
            forall|j: int| 0 <= j < wires@.len() ==> wires@[j] == palette@[j].1->Int_0 as u32,
            blocks.wf(),
            blocks@ == (BlocksView { palette: palette_read(palette@, i as nat), ..old(blocks)@ }),
            blocks@.palette.len() <= i + 1,
            ids@ == wire_ids_read(palette@, i as nat),
            forall|wire: u32| ids@.contains_key(wire) ==> ids@[wire] < blocks@.palette.len(),
        decreases palette.entries.len() - i,
    {
        let name = palette.entries[i].name.as_str();
        let id = blocks.get_block_id_for(name);
        proof {
            blocks.lemma_wf_valid();
            let names = blocks@.palette;
            assert(names[id as int] == name@);
            assert(names.contains(name@));
            assert(names.index_of(name@) == id);
        }
        ids.insert(wires[i], id);
        i += 1;
    }
    ids
}

/// Stores at every position of the block storage the palette id that stands
/// for the document id at the position's place in `cells`. Returns whether
/// every document id had a palette id to stand for it.
fn place_cells(blocks: &mut Blocks, ids: &HashMap<u32, u32>, cells: &Vec<u32>) -> (placed: bool)
    requires
        old(blocks).wf(),
        cells@.len() == old(blocks)@.volume(),
        forall|wire: u32| ids@.contains_key(wire) ==> ids@[wire] < old(blocks)@.palette.len(),
    ensures
        final(blocks).wf(),
        placed == (forall|wire: int|
            0 <= wire < cells@.len() ==> ids@.contains_key(#[trigger] cells@[wire])),
        placed ==> final(blocks)@ == blocks_read(
            old(blocks)@.size_x,
            old(blocks)@.size_y,
            old(blocks)@.size_z,
            old(blocks)@.palette,
            ids@,
            cells@,
        ),
{
    let (size_x, size_y, size_z) = blocks.size();
    let ghost shape = blocks@;
    let mut wire: usize = 0;
    let mut x: u32 = 0;
    let mut y: u32 = 0;
    let mut z: u32 = 0;
    proof {
        blocks.lemma_wf_valid();
        if cells@.len() > 0 {
            lemma_wire_onto(shape, 0);
            lemma_wire_in_range(shape, 0, 0, 0);
            assert((0 * shape.size_z + 0) * shape.size_x + 0 == 0) by (nonlinear_arith);
        }
    }
    while wire < cells.len()
        invariant
            blocks.wf(),
            shape == old(blocks)@,
            shape.valid(),
            (size_x, size_y, size_z) == (shape.size_x, shape.size_y, shape.size_z),
            blocks@.size_x == shape.size_x,
            blocks@.size_y == shape.size_y,
            blocks@.size_z == shape.size_z,
            blocks@.palette == shape.palette,
            cells@.len() == shape.volume(),
            wire <= cells@.len(),
            wire < cells@.len() ==> shape.position_on_wire(wire as int) == (x, y, z),
            forall|known: u32| ids@.contains_key(known) ==> ids@[known] < shape.palette.len(),
            forall|before: int|
                0 <= before < wire ==> ids@.contains_key(#[trigger] cells@[before]),
            forall|before: int|
                #![trigger shape.position_on_wire(before)]
                0 <= before < wire ==> blocks@.id_at(
                    shape.position_on_wire(before).0,
                    shape.position_on_wire(before).1,
                    shape.position_on_wire(before).2,
                ) == ids@[cells@[before]],
        decreases cells.len() - wire,
    {
        proof {
            lemma_wire_onto(shape, wire as int);
        }
        let id = match ids.get(&cells[wire]) {
            Some(id) => *id,
            None => {
                return false;
            },
        };
        let ghost previous = blocks@;
        blocks.set_block_id_at(x, y, z, id);
        proof {
            assert forall|before: int|
                #![trigger shape.position_on_wire(before)]
                0 <= before < wire + 1 implies blocks@.id_at(
                shape.position_on_wire(before).0,
                shape.position_on_wire(before).1,
                shape.position_on_wire(before).2,
            ) == ids@[cells@[before]] by {
                if before < wire {
                    lemma_wire_onto(shape, before);
                    let there = shape.position_on_wire(before);
                    assert(previous.in_bounds(there.0, there.1, there.2));
                    assert(there != (x, y, z));
                }
            }
            if wire + 1 < cells@.len() {
                lemma_wire_onto(shape, wire + 1);
            }
        }
        wire += 1;
        x += 1;
        if x == size_x {
            x = 0;
            z += 1;
            if z == size_z {
                z = 0;
                y += 1;
            }
        }
        proof {
            if wire < cells@.len() {
                lemma_wire_onto(shape, wire as int);
                assert(shape.position_on_wire(wire as int) == (x, y, z)) by {
                    lemma_next_on_wire(shape, wire as int - 1);
                }
            }
        }
    }
    proof {
        let wanted = blocks_read(
            shape.size_x,
            shape.size_y,
            shape.size_z,
            shape.palette,
            ids@,
            cells@,
        );
        blocks.lemma_wf_valid();
        assert forall|index: int| 0 <= index < shape.volume() implies blocks@.indices[index]
            == wanted.indices[index] by {
            lemma_index_onto(shape, index);
            let (x, y, z) = shape.position_at(index);
            lemma_wire_in_range(shape, x, y, z);
            let at = shape.wire_of(x, y, z);
            assert(shape.position_on_wire(at) == (x, y, z));
            assert(blocks@.id_at(x, y, z) == ids@[cells@[at]]);
        }
        assert(blocks@.indices =~= wanted.indices);
    }
    true
}

/// Reads the position and the block entity that an item of the block entity
/// list holds.
fn read_block_entity(item: &Tag) -> (read: Option<((u32, u32, u32), BlockEntity)>)
    ensures
        match read {
            Some((pos, entity)) => entity_read(item@) == Some((pos, entity@)),
            None => entity_read(item@) is None,
        },
{
    let fields = match item {
        Tag::Compound(fields) => fields,
        _ => {
            return None;
        },
    };
    let pos = match fields.get("Pos") {
        Some(Tag::IntArray(pos)) => pos,
        _ => {
            return None;
        },
    };
    let id = match fields.get("Id") {
        Some(Tag::String(id)) => id,
        _ => {
            return None;
        },
    };
    if pos.len() != 3 {
        return None;
    }
    let mut data = fields.clone();
    data.remove("Pos");
    data.remove("Id");
    let place = (
        #[verifier::truncate] (pos[0] as u32),
        #[verifier::truncate] (pos[1] as u32),
        #[verifier::truncate] (pos[2] as u32),
    );
    Some((place, BlockEntity { id: id.clone(), data }))
}

/// Reads the block entities of a container.
fn read_block_entities(version: u32, nbt: &Compound) -> (read: Result<
    BlockEntities,
    SchematicError,
>)
    ensures
        match read {
            Ok(entities) => block_entities_read(version, nbt@) == Ok::<Placements, Failure>(
                entities@,
            ) && distinct_keys(entities@),
            Err(error) => block_entities_read(version, nbt@) == Err::<Placements, Failure>(
                error@,
            ),
        },
{
    let mut entities = BlockEntities::new();
    let items = match read_optional_list(nbt, entities_field(version)) {
        Err(error) => {
            return Err(error);
        },
        Ok(None) => {
            return Ok(entities);
        },
        Ok(Some(items)) => items,
    };
    let mut i: usize = 0;
    while i < items.len()
        invariant
            i <= items.len(),
            optional_list(nbt@, entities_name(version)) == Ok::<Option<Seq<TagView>>, Failure>(
                Some(items_view(items@)),
            ),
            entities_read(items_view(items@), i as nat) == Some(entities@),
            distinct_keys(entities@),
        decreases items.len() - i,
    {
        match read_block_entity(&items[i]) {
            Some((pos, entity)) => {
                entities.insert(pos, entity);
            },
            None => {
                proof {
                    assert(entities_read(items_view(items@), (i + 1) as nat) is None);
                    lemma_entities_read_stays_none(items_view(items@), (i + 1) as nat);
                }
                return Err(SchematicError::mistyped(entities_field(version)));
            },
        }
        i += 1;
    }
    Ok(entities)
}

/// Once an item is no block entity, no longer list of items is read.
proof fn lemma_entities_read_stays_none(items: Seq<TagView>, count: nat)
    requires
        count <= items.len(),
        entities_read(items, count) is None,
    ensures
        entities_read(items, items.len()) is None,
    decreases items.len() - count,
{
    if count < items.len() {
        lemma_entities_read_stays_none(items, count + 1);
    }
}

/// The block entities that are read from a list stand at distinct
/// positions: of two items at one position the later one is kept.
pub proof fn lemma_entities_read_distinct(items: Seq<TagView>, count: nat)
    ensures
        match entities_read(items, count) {
            Some(placed) => distinct_keys(placed),
            None => true,
        },
    decreases count,
{
    if count > 0 {
        lemma_entities_read_distinct(items, (count - 1) as nat);
        match (entities_read(items, (count - 1) as nat), entity_read(items[count - 1])) {
            (Some(placed), Some((pos, entity))) => {
                lemma_with_entry_distinct(placed, pos, entity);
            },
            _ => {},
        }
    }
}

/// The schematic that is read from a document has its block entities at
/// distinct positions.
pub proof fn lemma_document_read_distinct(root: Fields, version: u32)
    ensures
        match document_read(root, version) {
            Ok(schematic) => distinct_keys(schematic.block_entities),
            Err(_) => true,
        },
{
    if let Ok(schematic) = document_read(root, version) {
        let doc = schematic_fields(version, root)->Ok_0;
        let container = container_fields(version, doc)->Ok_0;
        match optional_list(container, entities_name(version)) {
            Ok(Some(items)) => {
                lemma_entities_read_distinct(items, items.len());
            },
            _ => {},
        }
    }
}

/// Reads a block container: the palette, the block data and the block
/// entities that `nbt` holds, for a cuboid of the given size.
///
/// The names of the palette are added to a block storage filled with
/// `minecraft:air`, in their order. Every cell of the storage then gets the
/// palette id of the name whose document id the block data holds for it.
pub fn read_block_container(
    version: u32,
    size_x: u32,
    size_y: u32,
    size_z: u32,
    nbt: &Compound,
) -> (read: Result<(Blocks, BlockEntities), SchematicError>)
    ensures
        match read {
            Ok((blocks, entities)) => blocks.wf() && container_read(
                version,
                size_x,
                size_y,
                size_z,
                nbt@,
            ) == Ok::<(BlocksView, Placements), Failure>((blocks@, entities@)) && distinct_keys(
                entities@,
            ),
            Err(error) => container_read(version, size_x, size_y, size_z, nbt@) == Err::<
                (BlocksView, Placements),
                Failure,
            >(error@),
        },
{
    let palette = match read_compound(nbt, "Palette") {
        Ok(palette) => palette,
        Err(error) => {
            return Err(error);
        },
    };
    let wires = match palette_ids(palette) {
        Ok(wires) => wires,
        Err(error) => {
            return Err(error);
        },
    };
    let data = match read_byte_array(nbt, data_field(version)) {
        Ok(data) => data,
        Err(error) => {
            return Err(error);
        },
    };
    let cells = match read_cells(size_x, size_y, size_z, data) {
        Some(cells) => cells,
        None => {
            return Err(SchematicError::invalid(data_field(version)));
        },
    };
    let mut blocks = Blocks::new(size_x, size_y, size_z, "minecraft:air");
    let ids = read_palette(&mut blocks, palette, &wires);
    if !place_cells(&mut blocks, &ids, &cells) {
        return Err(SchematicError::invalid(data_field(version)));
    }
    let entities = match read_block_entities(version, nbt) {
        Ok(entities) => entities,
        Err(error) => {
            return Err(error);
        },
    };
    Ok((blocks, entities))
}

/// Reads the data version and the size of a document.
fn read_header(doc: &Compound) -> (read: Result<(u32, u32, u32, u32), SchematicError>)
    ensures
        match read {
            Ok(header) => header_read(doc@) == Ok::<(u32, u32, u32, u32), Failure>(header),
            Err(error) => header_read(doc@) == Err::<(u32, u32, u32, u32), Failure>(error@),
        },
{
    let data_version = match read_int(doc, "DataVersion") {
        Ok(value) => #[verifier::truncate] (value as u32),
        Err(error) => {
            return Err(error);
        },
    };
    let size_x = match read_short(doc, "Width") {
        Ok(value) => #[verifier::truncate] (value as u32),
        Err(error) => {
            return Err(error);
        },
    };
    let size_y = match read_short(doc, "Height") {
        Ok(value) => #[verifier::truncate] (value as u32),
        Err(error) => {
            return Err(error);
        },
    };
    let size_z = match read_short(doc, "Length") {
        Ok(value) => #[verifier::truncate] (value as u32),
        Err(error) => {
            return Err(error);
        },
    };
    Ok((data_version, size_x, size_y, size_z))
}

/// Reads the three integers of an offset array.
fn read_offset(offset: &Vec<i32>) -> (read: Result<(i32, i32, i32), SchematicError>)
    ensures
        match read {
            Ok(value) => offset_read(offset@) == Ok::<(i32, i32, i32), Failure>(value),
            Err(error) => offset_read(offset@) == Err::<(i32, i32, i32), Failure>(error@),
        },
{
    if offset.len() != 3 {
        return Err(SchematicError::mistyped("Offset"));
    }
    Ok((offset[0], offset[1], offset[2]))
}

/// Reads the paste offset that metadata of a version before 3 holds, and
/// takes it out of the metadata.
fn read_metadata_offset(metadata: &mut Compound) -> (read: Result<
    Option<(i32, i32, i32)>,
    SchematicError,
>)
    ensures
        match read {
            Ok(paste_offset) => metadata_offset_read(old(metadata)@) == Ok::<
                (Option<(i32, i32, i32)>, Fields),
                Failure,
            >((paste_offset, final(metadata)@)),
            Err(error) => metadata_offset_read(old(metadata)@) == Err::<
                (Option<(i32, i32, i32)>, Fields),
                Failure,
            >(error@),
        },
{
    if !metadata.contains_key("WEOffsetX") {
        return Ok(None);
    }
    let x = match read_optional_int(metadata, "WEOffsetX") {
        Ok(value) => value,
        Err(error) => {
            return Err(error);
        },
    };
    let y = match read_optional_int(metadata, "WEOffsetY") {
        Ok(value) => value,
        Err(error) => {
            return Err(error);
        },
    };
    let z = match read_optional_int(metadata, "WEOffsetZ") {
        Ok(value) => value,
        Err(error) => {
            return Err(error);
        },
    };
    metadata.remove("WEOffsetX");
    metadata.remove("WEOffsetY");
    metadata.remove("WEOffsetZ");
    Ok(Some((zero_if_absent(x), zero_if_absent(y), zero_if_absent(z))))
}

fn zero_if_absent(value: Option<i32>) -> (number: i32)
    ensures
        number == or_zero(value),
{
    match value {
        Some(value) => value,
        None => 0,
    }
}

/// Reads the paste offset, the origin and the metadata of a document.
fn read_provenance(version: u32, doc: &Compound) -> (read: Result<
    (Option<(i32, i32, i32)>, Option<(i32, i32, i32)>, Option<Compound>),
    SchematicError,
>)
    ensures
        match read {
            Ok((paste_offset, origin, metadata)) => provenance_read(version, doc@) == Ok::<
                (Option<(i32, i32, i32)>, Option<(i32, i32, i32)>, Option<Fields>),
                Failure,
            >(
                (
                    paste_offset,
                    origin,
                    match metadata {
                        Some(metadata) => Some(metadata@),
                        None => None,
                    },
                ),
            ),
            Err(error) => provenance_read(version, doc@) == Err::<
                (Option<(i32, i32, i32)>, Option<(i32, i32, i32)>, Option<Fields>),
                Failure,
            >(error@),
        },
{
    let mut metadata: Option<Compound> = match read_optional_compound(doc, "Metadata") {
        Ok(Some(metadata)) => Some(metadata.clone()),
        Ok(None) => None,
        Err(error) => {
            return Err(error);
        },
    };
    let paste_offset = if version == 3 {
        let offset = match read_int_array(doc, "Offset") {
            Ok(offset) => offset,
            Err(error) => {
                return Err(error);
            },
        };
        match read_offset(offset) {
            Ok(offset) => Some(offset),
            Err(error) => {
                return Err(error);
            },
        }
    } else {
        match metadata {
            Some(fields) => {
                let mut fields = fields;
                let read = read_metadata_offset(&mut fields);
                metadata = Some(fields);
                match read {
                    Ok(paste_offset) => paste_offset,
                    Err(error) => {
                        return Err(error);
                    },
                }
            },
            None => None,
        }
    };
    let origin = if version < 3 {
        match read_optional_int_array(doc, "Offset") {
            Ok(Some(offset)) => match read_offset(offset) {
                Ok(offset) => Some(offset),
                Err(error) => {
                    return Err(error);
                },
            },
            Ok(None) => None,
            Err(error) => {
                return Err(error);
            },
        }
    } else {
        None
    };
    let metadata = match metadata {
        Some(fields) => if fields.is_empty() {
            None
        } else {
            Some(fields)
        },
        None => None,
    };
    Ok((paste_offset, origin, metadata))
}

/// Reads a schematic from a document of the given version of the format.
///
/// Versions 1 to 3 are read; any other version is unsupported.
pub fn deserialize(nbt: &Compound, version: u32) -> (read: Result<Schematic, SchematicError>)
    ensures
        match read {
            Ok(schematic) => schematic.wf() && document_read(nbt@, version) == Ok::<
                SchematicView,
                Failure,
            >(schematic@) && distinct_keys(schematic@.block_entities),
            Err(error) => document_read(nbt@, version) == Err::<SchematicView, Failure>(error@),
        },
{
    if version < 1 || version > 3 {
        return Err(SchematicError::UnsupportedFormat(SchematicFormat::Sponge(version)));
    }
    let doc = if version == 3 {
        match read_compound(nbt, "Schematic") {
            Ok(doc) => doc,
            Err(error) => {
                return Err(error);
            },
        }
    } else {
        nbt
    };
    let (data_version, size_x, size_y, size_z) = match read_header(doc) {
        Ok(header) => header,
        Err(error) => {
            return Err(error);
        },
    };
    let (paste_offset, origin, metadata) = match read_provenance(version, doc) {
        Ok(provenance) => provenance,
        Err(error) => {
            return Err(error);
        },
    };
    let block_container = if version == 3 {
        match read_compound(doc, "Blocks") {
            Ok(container) => container,
            Err(error) => {
                return Err(error);
            },
        }
    } else {
        doc
    };
    let (blocks, block_entities) = match read_block_container(
        version,
        size_x,
        size_y,
        size_z,
        block_container,
    ) {
        Ok(container) => container,
        Err(error) => {
            return Err(error);
        },
    };
    Ok(
        Schematic {
            blocks,
            data_version: Some(data_version),
            paste_offset,
            origin,
            biomes: None,
            block_entities,
            metadata,
        },
    )
}

} // verus!
