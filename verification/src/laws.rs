//! Laws of the Sponge format: what is written is read back, metadata that
//! holds nothing but the paste offset is used up by reading it, and reading
//! goes by the names of a document, not by the order of its entries.

use crate::assoc::{distinct_keys, has_key, lookup, with_entry, without_key};
use crate::assoc::{lemma_lookup_with_entry, lemma_lookup_without_key, lemma_position};
use crate::assoc::{lemma_position_unique, lemma_without_key_entries, lemma_without_with};
use crate::blocks::{lemma_index_in_range, lemma_index_onto, lemma_wire_in_range};
use crate::codec::{document_in, written};
use crate::blocks::{lemma_wire_onto, palette_with, BlocksView};
use crate::document::{optional_compound, optional_int, required_int_array};
use crate::entities::{BlockEntityView, Placements};
use crate::error::{Failure, SchematicFormat};
use crate::schematic::{format_detected, schematic_read, schematic_written, SchematicView};
use crate::sponge::{air, block_grid_read, blocks_read, container_fields, container_read};
use crate::sponge::{container_written, data_name, document_read, document_written};
use crate::sponge::{entities_name, entities_read, entities_written, entity_read};
use crate::sponge::{entity_written, first_non_int, header_read, header_written, max_size};
use crate::sponge::{metadata_offset_read, metadata_written, normalized, offset_written};
use crate::sponge::{or_zero, origin_read, palette_read, palette_written, paste_offset_read};
use crate::sponge::{provenance_read, provenance_written, schematic_fields, signed_bytes};
use crate::sponge::{unsigned_bytes, wire_cells, wire_ids_read};
use crate::tag::{Fields, TagView};
use crate::varint::{encoded_run, lemma_run_round_trip};
use vstd::prelude::*;

verus! {

/// The names under which a block entity keeps its type and its position
/// differ.
proof fn lemma_entity_names()
    ensures
        "Id"@ != "Pos"@,
{
    reveal_strlit("Id");
    reveal_strlit("Pos");
    assert("Id"@.len() == 2);
    assert("Pos"@.len() == 3);
}

/// A position of a schematic that is written as integers is read back.
proof fn lemma_coordinate_round_trip(value: u32)
    ensures
        (value as i32) as u32 == value,
{
    assert((value as i32) as u32 == value) by (bit_vector);
}

/// A block entity whose data holds neither `Id` nor `Pos` is read back from
/// the item that it is written as.
pub proof fn lemma_entity_round_trip(pos: (u32, u32, u32), entity: BlockEntityView)
    requires
        !has_key(entity.data, "Id"@),
        !has_key(entity.data, "Pos"@),
    ensures
        entity_read(entity_written(pos, entity)) == Some((pos, entity)),
{
    lemma_entity_names();
    let with_id = with_entry(entity.data, "Id"@, TagView::String(entity.id));
    let place = TagView::IntArray(seq![pos.0 as i32, pos.1 as i32, pos.2 as i32]);
    let fields = with_entry(with_id, "Pos"@, place);
    lemma_lookup_with_entry(entity.data, "Id"@, TagView::String(entity.id), "Id"@);
    lemma_lookup_with_entry(entity.data, "Id"@, TagView::String(entity.id), "Pos"@);
    lemma_lookup_with_entry(with_id, "Pos"@, place, "Pos"@);
    lemma_lookup_with_entry(with_id, "Pos"@, place, "Id"@);
    lemma_without_with(with_id, "Pos"@, place);
    lemma_without_with(entity.data, "Id"@, TagView::String(entity.id));
    lemma_coordinate_round_trip(pos.0);
    lemma_coordinate_round_trip(pos.1);
    lemma_coordinate_round_trip(pos.2);
}

/// Block entities at distinct positions, none of whose data holds `Id` or
/// `Pos`, are read back from the list that they are written as.
pub proof fn lemma_entities_round_trip(entities: Placements, count: nat)
    requires
        count <= entities.len(),
        distinct_keys(entities),
        forall|i: int|
            0 <= i < entities.len() ==> !has_key((#[trigger] entities[i]).1.data, "Id"@)
                && !has_key(entities[i].1.data, "Pos"@),
    ensures
        entities_read(entities_written(entities), count) == Some(entities.take(count as int)),
    decreases count,
{
    if count == 0 {
        assert(entities.take(0) =~= Seq::empty());
    } else {
        let before = (count - 1) as nat;
        lemma_entities_round_trip(entities, before);
        let (pos, entity) = entities[count - 1];
        lemma_entity_round_trip(pos, entity);
        let placed = entities.take(before as int);
        assert forall|j: int| 0 <= j < placed.len() implies placed[j].0 != pos by {
            assert(entities[j].0 != entities[count - 1].0);
        }
        lemma_position_unique(placed, pos, placed.len() as int);
        assert(with_entry(placed, pos, entity) =~= entities.take(count as int));
    }
}

/// Every entry of a written palette holds an integer.
proof fn lemma_written_palette_ints(palette: Seq<Seq<char>>, from: int)
    requires
        0 <= from <= palette.len(),
    ensures
        first_non_int(palette_written(palette), from) == palette.len(),
    decreases palette.len() - from,
{
    if from < palette.len() {
        lemma_written_palette_ints(palette, from + 1);
    }
}

/// What reading a written palette makes of the palette of a fresh block
/// storage, and which palette id then stands for each written id.
///
/// The palette that is read has `minecraft:air` first and then, in their
/// order, the names that were written and are not `minecraft:air`. Every
/// written id stands for the id that its name has in the palette that is
/// read. A palette that began with `minecraft:air` is read back as it was.
pub proof fn lemma_palette_round_trip(palette: Seq<Seq<char>>, count: nat)
    requires
        palette.no_duplicates(),
        palette.len() <= u32::MAX,
        count <= palette.len(),
    ensures
        ({
            let read = palette_read(palette_written(palette), count);
            let ids = wire_ids_read(palette_written(palette), count);
            &&& read.no_duplicates()
            &&& 1 <= read.len() <= count + 1
            &&& read[0] == air()
            &&& forall|id: u32| #[trigger] ids.contains_key(id) <==> id < count
            &&& forall|id: u32|
                id < count ==> (#[trigger] ids[id]) < read.len() && read[ids[id] as int]
                    == palette[id as int]
            &&& forall|i: int|
                0 <= i < read.len() ==> (#[trigger] read[i]) == air() || exists|id: int|
                    0 <= id < count && palette[id] == read[i]
            &&& palette.len() > 0 && palette[0] == air() ==> read =~= palette.take(
                if count == 0 {
                    1
                } else {
                    count as int
                },
            ) && forall|id: u32| id < count ==> #[trigger] ids[id] == id
        }),
    decreases count,
{
    let written = palette_written(palette);
    let read = palette_read(written, count);
    let ids = wire_ids_read(written, count);
    if count == 0 {
        assert(read =~= seq![air()]);
        if palette.len() > 0 && palette[0] == air() {
            assert(read =~= palette.take(1));
        }
    } else {
        let before = (count - 1) as nat;
        lemma_palette_round_trip(palette, before);
        let read_before = palette_read(written, before);
        let ids_before = wire_ids_read(written, before);
        let name = palette[before as int];
        let wire = before as u32;
        assert(written[before as int] == (name, TagView::Int(before as int as i32)));
        assert((wire as i32) as u32 == wire) by (bit_vector);
        assert(written[before as int].1->Int_0 as u32 == wire);
        assert(read == palette_with(read_before, name));
        assert(read.contains(name)) by {
            if !read_before.contains(name) {
                assert(read[read_before.len() as int] == name);
            }
        }
        let place = read.index_of(name);
        assert(forall|i: int| 0 <= i < read_before.len() ==> read[i] == read_before[i]);
        assert(read.no_duplicates());
        assert(ids == ids_before.insert(wire, place as u32));
        assert forall|id: u32| id < count implies (#[trigger] ids[id]) < read.len() && read[ids[id]
            as int] == palette[id as int] by {
            if id < before {
                assert(ids[id] == ids_before[id]);
            }
        }
        assert forall|i: int| 0 <= i < read.len() implies (#[trigger] read[i]) == air() || exists|
            id: int,
        |
            0 <= id < count && palette[id] == read[i] by {
            if i < read_before.len() {
                if read_before[i] != air() {
                    let id = choose|id: int| 0 <= id < before && palette[id] == read_before[i];
                    assert(0 <= id < count && palette[id] == read[i]);
                }
            } else {
                assert(palette[before as int] == read[i]);
            }
        }
        if palette[0] == air() {
            if before == 0 {
                assert(read_before[0] == name);
                assert(read =~= palette.take(1));
            } else {
                assert(read_before =~= palette.take(before as int));
                assert(!read_before.contains(name)) by {
                    if read_before.contains(name) {
                        let at = choose|at: int|
                            0 <= at < read_before.len() && read_before[at] == name;
                        assert(palette[at] == palette[before as int]);
                    }
                }
                assert(read =~= palette.take(count as int));
            }
            assert(read[before as int] == name);
            assert(place == before);
            assert forall|id: u32| id < count implies #[trigger] ids[id] == id by {
                if id < before {
                    assert(ids[id] == ids_before[id]);
                }
            }
        }
    }
}

/// Bytes that are stored in a byte array are read back from it.
proof fn lemma_bytes_round_trip(bytes: Seq<u8>)
    ensures
        unsigned_bytes(signed_bytes(bytes)) == bytes,
{
    assert forall|i: int| 0 <= i < bytes.len() implies (#[trigger] bytes[i] as i8) as u8
        == bytes[i] by {
        let byte = bytes[i];
        assert((byte as i8) as u8 == byte) by (bit_vector);
    }
    assert(unsigned_bytes(signed_bytes(bytes)) =~= bytes);
}

/// The names of the fields of a block container differ.
proof fn lemma_container_names()
    ensures
        "Palette"@ != "BlockData"@,
        "Palette"@ != "Data"@,
        "Palette"@ != "BlockEntities"@,
        "BlockData"@ != "BlockEntities"@,
        "Data"@ != "BlockEntities"@,
{
    reveal_strlit("Palette");
    reveal_strlit("BlockData");
    reveal_strlit("Data");
    reveal_strlit("BlockEntities");
    assert("Palette"@.len() == 7);
    assert("BlockData"@.len() == 9);
    assert("Data"@.len() == 4);
    assert("BlockEntities"@.len() == 13);
}

/// The fields that a written block container holds.
pub proof fn lemma_container_fields(
    version: u32,
    blocks: BlocksView,
    entities: Placements,
    fields: Fields,
)
    requires
        version == 2 || version == 3,
    ensures
        ({
            let written = container_written(version, blocks, entities, fields);
            &&& lookup(written, "Palette"@) == Some(
                TagView::Compound(palette_written(blocks.palette)),
            )
            &&& lookup(written, data_name(version)) == Some(
                TagView::ByteArray(signed_bytes(encoded_run(wire_cells(blocks)))),
            )
            &&& lookup(written, entities_name(version)) == Some(
                TagView::List(entities_written(entities)),
            )
            &&& forall|name: Seq<char>|
                name != "Palette"@ && name != data_name(version) && name != "BlockEntities"@
                    ==> #[trigger] lookup(written, name) == lookup(fields, name)
        }),
{
    lemma_container_names();
    let palette = TagView::Compound(palette_written(blocks.palette));
    let data = TagView::ByteArray(signed_bytes(encoded_run(wire_cells(blocks))));
    let list = TagView::List(entities_written(entities));
    let first = with_entry(fields, "Palette"@, palette);
    let second = with_entry(first, data_name(version), data);
    let written = with_entry(second, "BlockEntities"@, list);
    assert(written == container_written(version, blocks, entities, fields));
    lemma_lookup_with_entry(fields, "Palette"@, palette, "Palette"@);
    lemma_lookup_with_entry(first, data_name(version), data, "Palette"@);
    lemma_lookup_with_entry(second, "BlockEntities"@, list, "Palette"@);
    lemma_lookup_with_entry(first, data_name(version), data, data_name(version));
    lemma_lookup_with_entry(second, "BlockEntities"@, list, data_name(version));
    lemma_lookup_with_entry(second, "BlockEntities"@, list, "BlockEntities"@);
    assert forall|name: Seq<char>|
        name != "Palette"@ && name != data_name(version) && name != "BlockEntities"@
            implies #[trigger] lookup(written, name) == lookup(fields, name) by {
        lemma_lookup_with_entry(fields, "Palette"@, palette, name);
        lemma_lookup_with_entry(first, data_name(version), data, name);
        lemma_lookup_with_entry(second, "BlockEntities"@, list, name);
    }
}

/// The block storage that is read from a written block container: it has
/// the size of the one that was written and the same block at every
/// position. Where the palette that was written began with `minecraft:air`,
/// it is the block storage that was written.
pub proof fn lemma_block_grid_round_trip(
    version: u32,
    blocks: BlocksView,
    entities: Placements,
    fields: Fields,
)
    requires
        version == 2 || version == 3,
        blocks.valid(),
        blocks.palette.len() <= u32::MAX,
    ensures
        ({
            let read = block_grid_read(
                version,
                blocks.size_x,
                blocks.size_y,
                blocks.size_z,
                container_written(version, blocks, entities, fields),
            );
            &&& read is Ok
            &&& read->Ok_0.valid()
            &&& read->Ok_0.size_x == blocks.size_x
            &&& read->Ok_0.size_y == blocks.size_y
            &&& read->Ok_0.size_z == blocks.size_z
            &&& forall|x: u32, y: u32, z: u32|
                blocks.in_bounds(x, y, z) ==> #[trigger] read->Ok_0.name_at(x, y, z)
                    == blocks.name_at(x, y, z)
            &&& blocks.palette[0] == air() ==> read->Ok_0 == blocks
        }),
{
    let written = container_written(version, blocks, entities, fields);
    let count = blocks.palette.len();
    lemma_container_fields(version, blocks, entities, fields);
    lemma_written_palette_ints(blocks.palette, 0);
    lemma_palette_round_trip(blocks.palette, count);
    let bytes = encoded_run(wire_cells(blocks));
    lemma_bytes_round_trip(bytes);
    lemma_run_round_trip(wire_cells(blocks), Seq::empty(), Seq::empty());
    assert(Seq::<u8>::empty() + bytes + Seq::<u8>::empty() =~= bytes);
    let cells = wire_cells(blocks);
    let palette = palette_read(palette_written(blocks.palette), count);
    let ids = wire_ids_read(palette_written(blocks.palette), count);
    assert forall|wire: int| 0 <= wire < cells.len() implies ids.contains_key(
        #[trigger] cells[wire],
    ) && cells[wire] < count by {
        lemma_wire_onto(blocks, wire);
        let (x, y, z) = blocks.position_on_wire(wire);
        lemma_index_in_range(blocks, x, y, z);
    }
    let read = blocks_read(blocks.size_x, blocks.size_y, blocks.size_z, palette, ids, cells);
    assert(block_grid_read(version, blocks.size_x, blocks.size_y, blocks.size_z, written) == Ok::<
        BlocksView,
        Failure,
    >(read));
    assert(read.volume() == blocks.volume());
    assert forall|index: int| 0 <= index < read.indices.len() implies read.indices[index]
        == ids[blocks.indices[index]] && blocks.indices[index] < count by {
        lemma_index_onto(blocks, index);
        let (x, y, z) = blocks.position_at(index);
        lemma_wire_in_range(blocks, x, y, z);
        assert(read.position_at(index) == blocks.position_at(index));
        assert(read.wire_of(x, y, z) == blocks.wire_of(x, y, z));
    }
    assert forall|x: u32, y: u32, z: u32| blocks.in_bounds(x, y, z) implies #[trigger] read.name_at(
        x,
        y,
        z,
    ) == blocks.name_at(x, y, z) by {
        lemma_index_in_range(blocks, x, y, z);
        assert(read.index_of(x, y, z) == blocks.index_of(x, y, z));
    }
    if blocks.palette[0] == air() {
        assert(palette =~= blocks.palette);
        assert(read.indices =~= blocks.indices);
    }
}

/// A block container that is written is read back: the block storage as
/// `lemma_block_grid_round_trip` says, and the block entities as they were,
/// where they stand at distinct positions and none of them holds `Id` or
/// `Pos` in its data.
pub proof fn lemma_container_round_trip(
    version: u32,
    blocks: BlocksView,
    entities: Placements,
    fields: Fields,
)
    requires
        version == 2 || version == 3,
        blocks.valid(),
        blocks.palette.len() <= u32::MAX,
        distinct_keys(entities),
        forall|i: int|
            0 <= i < entities.len() ==> !has_key((#[trigger] entities[i]).1.data, "Id"@)
                && !has_key(entities[i].1.data, "Pos"@),
    ensures
        ({
            let read = container_read(
                version,
                blocks.size_x,
                blocks.size_y,
                blocks.size_z,
                container_written(version, blocks, entities, fields),
            );
            &&& read is Ok
            &&& read->Ok_0.0 == block_grid_read(
                version,
                blocks.size_x,
                blocks.size_y,
                blocks.size_z,
                container_written(version, blocks, entities, fields),
            )->Ok_0
            &&& read->Ok_0.1 == entities
        }),
{
    lemma_block_grid_round_trip(version, blocks, entities, fields);
    lemma_container_fields(version, blocks, entities, fields);
    lemma_entities_round_trip(entities, entities.len());
    assert(entities.take(entities.len() as int) =~= entities);
    assert(entities_written(entities).len() == entities.len());
}

/// How long the names of the fields of a document are, and a character of
/// each by which names of one length differ.
proof fn lemma_document_names()
    ensures
        "Version"@.len() == 7 && "Version"@[0] == 'V',
        "Regions"@.len() == 7 && "Regions"@[0] == 'R',
        "DataVersion"@.len() == 11,
        "Width"@.len() == 5,
        "Height"@.len() == 6 && "Height"@[0] == 'H',
        "Length"@.len() == 6 && "Length"@[0] == 'L',
        "Metadata"@.len() == 8,
        "Offset"@.len() == 6 && "Offset"@[0] == 'O',
        "Blocks"@.len() == 6 && "Blocks"@[0] == 'B',
        "Schematic"@.len() == 9 && "Schematic"@[0] == 'S',
        "Palette"@.len() == 7 && "Palette"@[0] == 'P',
        "BlockData"@.len() == 9 && "BlockData"@[0] == 'B',
        "Data"@.len() == 4,
        "BlockEntities"@.len() == 13,
        "WEOffsetX"@.len() == 9 && "WEOffsetX"@[0] == 'W' && "WEOffsetX"@[8] == 'X',
        "WEOffsetY"@.len() == 9 && "WEOffsetY"@[0] == 'W' && "WEOffsetY"@[8] == 'Y',
        "WEOffsetZ"@.len() == 9 && "WEOffsetZ"@[0] == 'W' && "WEOffsetZ"@[8] == 'Z',
{
    reveal_strlit("Version");
    reveal_strlit("Regions");
    reveal_strlit("DataVersion");
    reveal_strlit("Width");
    reveal_strlit("Height");
    reveal_strlit("Length");
    reveal_strlit("Metadata");
    reveal_strlit("Offset");
    reveal_strlit("Blocks");
    reveal_strlit("Schematic");
    reveal_strlit("Palette");
    reveal_strlit("BlockData");
    reveal_strlit("Data");
    reveal_strlit("BlockEntities");
    reveal_strlit("WEOffsetX");
    reveal_strlit("WEOffsetY");
    reveal_strlit("WEOffsetZ");
}

/// The fields that a written header holds.
proof fn lemma_header_fields(version: u32, data_version: u32, blocks: BlocksView)
    ensures
        ({
            let written = header_written(version, data_version, blocks);
            &&& lookup(written, "Version"@) == Some(TagView::Int(version as i32))
            &&& lookup(written, "DataVersion"@) == Some(TagView::Int(data_version as i32))
            &&& lookup(written, "Width"@) == Some(TagView::Short(blocks.size_x as i16))
            &&& lookup(written, "Height"@) == Some(TagView::Short(blocks.size_y as i16))
            &&& lookup(written, "Length"@) == Some(TagView::Short(blocks.size_z as i16))
            &&& forall|name: Seq<char>|
                name != "Version"@ && name != "DataVersion"@ && name != "Width"@ && name
                    != "Height"@ && name != "Length"@ ==> #[trigger] lookup(written, name)
                    is None
        }),
{
    lemma_document_names();
    let empty = Seq::<(Seq<char>, TagView)>::empty();
    let v = TagView::Int(version as i32);
    let d = TagView::Int(data_version as i32);
    let w = TagView::Short(blocks.size_x as i16);
    let h = TagView::Short(blocks.size_y as i16);
    let l = TagView::Short(blocks.size_z as i16);
    let f1 = with_entry(empty, "Version"@, v);
    let f2 = with_entry(f1, "DataVersion"@, d);
    let f3 = with_entry(f2, "Width"@, w);
    let f4 = with_entry(f3, "Height"@, h);
    let f5 = with_entry(f4, "Length"@, l);
    assert(f5 == header_written(version, data_version, blocks));
    assert forall|name: Seq<char>| true implies #[trigger] lookup(f5, name) == if name
        == "Length"@ {
        Some(l)
    } else if name == "Height"@ {
        Some(h)
    } else if name == "Width"@ {
        Some(w)
    } else if name == "DataVersion"@ {
        Some(d)
    } else if name == "Version"@ {
        Some(v)
    } else {
        None
    } by {
        lemma_position(empty, name);
        lemma_lookup_with_entry(empty, "Version"@, v, name);
        lemma_lookup_with_entry(f1, "DataVersion"@, d, name);
        lemma_lookup_with_entry(f2, "Width"@, w, name);
        lemma_lookup_with_entry(f3, "Height"@, h, name);
        lemma_lookup_with_entry(f4, "Length"@, l, name);
    }
    assert(lookup(f5, "Version"@) == Some(v));
    assert(lookup(f5, "DataVersion"@) == Some(d));
    assert(lookup(f5, "Width"@) == Some(w));
    assert(lookup(f5, "Height"@) == Some(h));
    assert(lookup(f5, "Length"@) == Some(l));
}

/// The fields that written provenance holds.
proof fn lemma_provenance_fields(version: u32, schematic: SchematicView, fields: Fields)
    ensures
        ({
            let written = provenance_written(version, schematic, fields);
            let offset = if version == 3 {
                schematic.paste_offset
            } else {
                schematic.origin
            };
            &&& lookup(written, "Metadata"@) == match metadata_written(version, schematic) {
                Some(metadata) => Some(TagView::Compound(metadata)),
                None => lookup(fields, "Metadata"@),
            }
            &&& lookup(written, "Offset"@) == match offset {
                Some(offset) => Some(offset_written(offset)),
                None => lookup(fields, "Offset"@),
            }
            &&& forall|name: Seq<char>|
                name != "Metadata"@ && name != "Offset"@ ==> #[trigger] lookup(written, name)
                    == lookup(fields, name)
        }),
{
    lemma_document_names();
    let with_metadata = match metadata_written(version, schematic) {
        Some(metadata) => with_entry(fields, "Metadata"@, TagView::Compound(metadata)),
        None => fields,
    };
    let offset = if version == 3 {
        schematic.paste_offset
    } else {
        schematic.origin
    };
    let written = provenance_written(version, schematic, fields);
    assert forall|name: Seq<char>| true implies #[trigger] lookup(written, name) == if name
        == "Offset"@ && offset is Some {
        Some(offset_written(offset->Some_0))
    } else if name == "Metadata"@ && metadata_written(version, schematic) is Some {
        Some(TagView::Compound(metadata_written(version, schematic)->Some_0))
    } else {
        lookup(fields, name)
    } by {
        if let Some(metadata) = metadata_written(version, schematic) {
            lemma_lookup_with_entry(fields, "Metadata"@, TagView::Compound(metadata), name);
        }
        if let Some(offset) = offset {
            lemma_lookup_with_entry(with_metadata, "Offset"@, offset_written(offset), name);
        }
    }
    assert(lookup(written, "Metadata"@) == match metadata_written(version, schematic) {
        Some(metadata) => Some(TagView::Compound(metadata)),
        None => lookup(fields, "Metadata"@),
    });
    assert(lookup(written, "Offset"@) == match offset {
        Some(offset) => Some(offset_written(offset)),
        None => lookup(fields, "Offset"@),
    });
}

/// A paste offset that is stored in metadata which has none of `WEOffsetX`,
/// `WEOffsetY` and `WEOffsetZ` is read back from it, and leaves the
/// metadata as it was.
proof fn lemma_metadata_offset_round_trip(fields: Fields, offset: (i32, i32, i32))
    requires
        !has_key(fields, "WEOffsetX"@),
        !has_key(fields, "WEOffsetY"@),
        !has_key(fields, "WEOffsetZ"@),
    ensures
        metadata_offset_read(
            with_entry(
                with_entry(
                    with_entry(fields, "WEOffsetX"@, TagView::Int(offset.0)),
                    "WEOffsetY"@,
                    TagView::Int(offset.1),
                ),
                "WEOffsetZ"@,
                TagView::Int(offset.2),
            ),
        ) == Ok::<(Option<(i32, i32, i32)>, Fields), Failure>((Some(offset), fields)),
{
    lemma_document_names();
    let x = TagView::Int(offset.0);
    let y = TagView::Int(offset.1);
    let z = TagView::Int(offset.2);
    let f1 = with_entry(fields, "WEOffsetX"@, x);
    let f2 = with_entry(f1, "WEOffsetY"@, y);
    let f3 = with_entry(f2, "WEOffsetZ"@, z);
    lemma_lookup_with_entry(fields, "WEOffsetX"@, x, "WEOffsetX"@);
    lemma_lookup_with_entry(fields, "WEOffsetX"@, x, "WEOffsetY"@);
    lemma_lookup_with_entry(fields, "WEOffsetX"@, x, "WEOffsetZ"@);
    lemma_lookup_with_entry(f1, "WEOffsetY"@, y, "WEOffsetX"@);
    lemma_lookup_with_entry(f1, "WEOffsetY"@, y, "WEOffsetY"@);
    lemma_lookup_with_entry(f1, "WEOffsetY"@, y, "WEOffsetZ"@);
    lemma_lookup_with_entry(f2, "WEOffsetZ"@, z, "WEOffsetX"@);
    lemma_lookup_with_entry(f2, "WEOffsetZ"@, z, "WEOffsetY"@);
    lemma_lookup_with_entry(f2, "WEOffsetZ"@, z, "WEOffsetZ"@);
    let n = fields.len() as int;
    assert(f3 =~= fields.push(("WEOffsetX"@, x)).push(("WEOffsetY"@, y)).push(("WEOffsetZ"@, z)));
    lemma_position(fields, "WEOffsetX"@);
    lemma_position(fields, "WEOffsetY"@);
    lemma_position(fields, "WEOffsetZ"@);
    lemma_position_unique(f3, "WEOffsetX"@, n);
    let g2 = without_key(f3, "WEOffsetX"@);
    assert(g2 =~= fields.push(("WEOffsetY"@, y)).push(("WEOffsetZ"@, z)));
    lemma_position_unique(g2, "WEOffsetY"@, n);
    let g1 = without_key(g2, "WEOffsetY"@);
    assert(g1 =~= fields.push(("WEOffsetZ"@, z)));
    lemma_position_unique(g1, "WEOffsetZ"@, n);
    assert(without_key(g1, "WEOffsetZ"@) =~= fields);
}

/// Metadata normalization: metadata of a version before 3 that holds
/// `WEOffsetX` and, besides it, nothing but `WEOffsetY` and `WEOffsetZ`, all
/// of them integers, is used up when the paste offset is read from it. The
/// schematic then has these integers as its paste offset, with 0 for an
/// absent one, and no metadata.
pub proof fn lemma_metadata_normalization(version: u32, doc: Fields, metadata: Fields)
    requires
        version == 1 || version == 2,
        distinct_keys(metadata),
        has_key(metadata, "WEOffsetX"@),
        forall|i: int|
            0 <= i < metadata.len() ==> (#[trigger] metadata[i]).1 is Int && (metadata[i].0
                == "WEOffsetX"@ || metadata[i].0 == "WEOffsetY"@ || metadata[i].0
                == "WEOffsetZ"@),
    ensures
        metadata_offset_read(metadata) == Ok::<(Option<(i32, i32, i32)>, Fields), Failure>(
            (
                Some(
                    (
                        or_zero(optional_int(metadata, "WEOffsetX"@)->Ok_0),
                        or_zero(optional_int(metadata, "WEOffsetY"@)->Ok_0),
                        or_zero(optional_int(metadata, "WEOffsetZ"@)->Ok_0),
                    ),
                ),
                Seq::empty(),
            ),
        ),
        lookup(doc, "Metadata"@) == Some(TagView::Compound(metadata)) && origin_read(version, doc)
            is Ok ==> provenance_read(version, doc) == Ok::<
            (Option<(i32, i32, i32)>, Option<(i32, i32, i32)>, Option<Fields>),
            Failure,
        >((metadata_offset_read(metadata)->Ok_0.0, origin_read(version, doc)->Ok_0, None)),
{
    lemma_document_names();
    lemma_position(metadata, "WEOffsetX"@);
    lemma_position(metadata, "WEOffsetY"@);
    lemma_position(metadata, "WEOffsetZ"@);
    let without_x = without_key(metadata, "WEOffsetX"@);
    let without_y = without_key(without_x, "WEOffsetY"@);
    let without_z = without_key(without_y, "WEOffsetZ"@);
    let wanted: Fields = Seq::empty();
    lemma_lookup_without_key(metadata, "WEOffsetX"@, "WEOffsetY"@);
    lemma_lookup_without_key(metadata, "WEOffsetX"@, "WEOffsetZ"@);
    lemma_lookup_without_key(without_x, "WEOffsetY"@, "WEOffsetX"@);
    lemma_lookup_without_key(without_x, "WEOffsetY"@, "WEOffsetZ"@);
    lemma_lookup_without_key(without_y, "WEOffsetZ"@, "WEOffsetX"@);
    lemma_lookup_without_key(without_y, "WEOffsetZ"@, "WEOffsetY"@);
    lemma_without_key_entries(metadata, "WEOffsetX"@);
    lemma_without_key_entries(without_x, "WEOffsetY"@);
    lemma_without_key_entries(without_y, "WEOffsetZ"@);
    if without_z.len() > 0 {
        let left = without_z[0];
        assert(without_y.contains(left));
        let in_y = choose|i: int| 0 <= i < without_y.len() && without_y[i] == left;
        assert(without_x.contains(without_y[in_y]));
        let in_x = choose|i: int| 0 <= i < without_x.len() && without_x[i] == left;
        assert(metadata.contains(without_x[in_x]));
        let at = choose|i: int| 0 <= i < metadata.len() && metadata[i] == left;
        assert(metadata[at].0 == left.0);
        lemma_position(without_z, left.0);
        assert(has_key(without_z, left.0)) by {
            if !has_key(without_z, left.0) {
                assert(without_z[0].0 != left.0);
            }
        }
        assert(false);
    }
    assert(without_z =~= wanted);
}

/// The inputs of the round trip: a schematic that can be written in the
/// version, and whose fields the version keeps apart.
///
/// The version is 2 or 3. The schematic has a data version and, in version
/// 3, a paste offset; no side of it is longer than a document can state;
/// its palette ids fit the ids of a document. In version 2 its metadata
/// does not hold `WEOffsetX`, by which the paste offset is found, and where
/// a paste offset is stored in the metadata, none of the names under which
/// it is stored. Its block entities stand at distinct positions, and none
/// of them holds `Id` or `Pos` in its data.
pub open spec fn can_round_trip(schematic: SchematicView, version: u32) -> bool {
    &&& version == 2 || version == 3
    &&& schematic.blocks.valid()
    &&& schematic.blocks.palette.len() <= u32::MAX
    &&& schematic.blocks.size_x <= max_size()
    &&& schematic.blocks.size_y <= max_size()
    &&& schematic.blocks.size_z <= max_size()
    &&& schematic.data_version is Some
    &&& version == 3 ==> schematic.paste_offset is Some
    &&& version == 2 ==> match schematic.metadata {
        Some(fields) => !has_key(fields, "WEOffsetX"@) && (schematic.paste_offset is Some
            ==> !has_key(fields, "WEOffsetY"@) && !has_key(fields, "WEOffsetZ"@)),
        None => true,
    }
    &&& distinct_keys(schematic.block_entities)
    &&& forall|i: int|
        0 <= i < schematic.block_entities.len() ==> !has_key(
            (#[trigger] schematic.block_entities[i]).1.data,
            "Id"@,
        ) && !has_key(schematic.block_entities[i].1.data, "Pos"@)
}

/// The round trip of a schematic through a document of version 2.
proof fn lemma_round_trip_flat(schematic: SchematicView)
    requires
        can_round_trip(schematic, 2),
    ensures
        document_written(schematic, 2) is Ok,
        format_detected(document_written(schematic, 2)->Ok_0) == Some(SchematicFormat::Sponge(2)),
        round_trip_result(schematic, 2, document_read(document_written(schematic, 2)->Ok_0, 2)),
{
    lemma_document_names();
    lemma_container_names();
    let version = 2u32;
    let blocks = schematic.blocks;
    let data_version = schematic.data_version->Some_0;
    let header = header_written(version, data_version, blocks);
    let fields = provenance_written(version, schematic, header);
    let doc = container_written(version, blocks, schematic.block_entities, fields);
    assert(document_written(schematic, version) == Ok::<Fields, Failure>(doc));
    lemma_header_fields(version, data_version, blocks);
    lemma_provenance_fields(version, schematic, header);
    lemma_container_fields(version, blocks, schematic.block_entities, fields);
    lemma_container_round_trip(version, blocks, schematic.block_entities, fields);
    lemma_block_grid_round_trip(version, blocks, schematic.block_entities, fields);
    assert((data_version as i32) as u32 == data_version) by (bit_vector);
    assert(lookup(doc, "Version"@) == lookup(header, "Version"@));
    assert(lookup(doc, "Regions"@) == lookup(header, "Regions"@));
    assert(lookup(doc, "DataVersion"@) == lookup(header, "DataVersion"@));
    assert(lookup(doc, "Width"@) == lookup(header, "Width"@));
    assert(lookup(doc, "Height"@) == lookup(header, "Height"@));
    assert(lookup(doc, "Length"@) == lookup(header, "Length"@));
    assert(header_read(doc) == Ok::<(u32, u32, u32, u32), Failure>(
        (data_version, blocks.size_x, blocks.size_y, blocks.size_z),
    ));
    assert(lookup(doc, "Metadata"@) == lookup(fields, "Metadata"@));
    assert(lookup(doc, "Offset"@) == lookup(fields, "Offset"@));
    assert(lookup(header, "Metadata"@) is None);
    assert(lookup(header, "Offset"@) is None);
    let metadata = metadata_written(version, schematic);
    assert(optional_compound(doc, "Metadata"@) == Ok::<Option<Fields>, Failure>(
        metadata,
    ));
    match schematic.paste_offset {
        Some(offset) => {
            let kept = match schematic.metadata {
                Some(kept) => kept,
                None => Seq::empty(),
            };
            lemma_position(Seq::<(Seq<char>, TagView)>::empty(), "WEOffsetX"@);
            lemma_position(Seq::<(Seq<char>, TagView)>::empty(), "WEOffsetY"@);
            lemma_position(Seq::<(Seq<char>, TagView)>::empty(), "WEOffsetZ"@);
            lemma_metadata_offset_round_trip(kept, offset);
        },
        None => {},
    }
    assert(paste_offset_read(version, doc, metadata) is Ok);
    assert(paste_offset_read(version, doc, metadata)->Ok_0.0 == schematic.paste_offset);
    assert(normalized(paste_offset_read(version, doc, metadata)->Ok_0.1) == normalized(
        schematic.metadata,
    ));
    match schematic.origin {
        Some(origin) => {
            assert(offset_written(origin)->IntArray_0.len() == 3);
        },
        None => {},
    }
    assert(origin_read(version, doc) == Ok::<Option<(i32, i32, i32)>, Failure>(
        schematic.origin,
    ));
    assert(provenance_read(version, doc) == Ok::<
        (Option<(i32, i32, i32)>, Option<(i32, i32, i32)>, Option<Fields>),
        Failure,
    >((schematic.paste_offset, schematic.origin, normalized(schematic.metadata))));
}

/// The round trip of a schematic through a document of version 3.
proof fn lemma_round_trip_nested(schematic: SchematicView)
    requires
        can_round_trip(schematic, 3),
    ensures
        document_written(schematic, 3) is Ok,
        format_detected(document_written(schematic, 3)->Ok_0) == Some(SchematicFormat::Sponge(3)),
        round_trip_result(schematic, 3, document_read(document_written(schematic, 3)->Ok_0, 3)),
{
    lemma_document_names();
    lemma_container_names();
    let version = 3u32;
    let blocks = schematic.blocks;
    let data_version = schematic.data_version->Some_0;
    let header = header_written(version, data_version, blocks);
    let fields = provenance_written(version, schematic, header);
    let empty = Seq::<(Seq<char>, TagView)>::empty();
    let container = container_written(version, blocks, schematic.block_entities, empty);
    let doc = with_entry(fields, "Blocks"@, TagView::Compound(container));
    let root = seq![("Schematic"@, TagView::Compound(doc))];
    assert(document_written(schematic, version) == Ok::<Fields, Failure>(root));
    lemma_position_unique(root, "Schematic"@, 0);
    lemma_position_unique(root, "Version"@, 1);
    assert(schematic_fields(version, root) == Ok::<Fields, Failure>(doc));
    lemma_header_fields(version, data_version, blocks);
    lemma_provenance_fields(version, schematic, header);
    lemma_container_round_trip(version, blocks, schematic.block_entities, empty);
    lemma_block_grid_round_trip(version, blocks, schematic.block_entities, empty);
    assert((data_version as i32) as u32 == data_version) by (bit_vector);
    assert forall|name: Seq<char>| true implies #[trigger] lookup(doc, name) == if name
        == "Blocks"@ {
        Some(TagView::Compound(container))
    } else {
        lookup(fields, name)
    } by {
        lemma_lookup_with_entry(fields, "Blocks"@, TagView::Compound(container), name);
    }
    assert(lookup(doc, "Version"@) == lookup(header, "Version"@));
    assert(lookup(doc, "DataVersion"@) == lookup(header, "DataVersion"@));
    assert(lookup(doc, "Width"@) == lookup(header, "Width"@));
    assert(lookup(doc, "Height"@) == lookup(header, "Height"@));
    assert(lookup(doc, "Length"@) == lookup(header, "Length"@));
    assert(header_read(doc) == Ok::<(u32, u32, u32, u32), Failure>(
        (data_version, blocks.size_x, blocks.size_y, blocks.size_z),
    ));
    assert(lookup(doc, "Metadata"@) == lookup(fields, "Metadata"@));
    assert(lookup(doc, "Offset"@) == lookup(fields, "Offset"@));
    assert(lookup(header, "Metadata"@) is None);
    assert(optional_compound(doc, "Metadata"@) == Ok::<Option<Fields>, Failure>(
        schematic.metadata,
    ));
    let offset = schematic.paste_offset->Some_0;
    assert(offset_written(offset)->IntArray_0.len() == 3);
    assert(required_int_array(doc, "Offset"@) == Ok::<Seq<i32>, Failure>(
        seq![offset.0, offset.1, offset.2],
    ));
    assert(provenance_read(version, doc) == Ok::<
        (Option<(i32, i32, i32)>, Option<(i32, i32, i32)>, Option<Fields>),
        Failure,
    >((schematic.paste_offset, None, normalized(schematic.metadata))));
    assert(container_fields(version, doc) == Ok::<Fields, Failure>(container));
}

/// What the round trip gives: the schematic that is read back from the
/// document of a schematic.
///
/// It has the size of the schematic that was written and the same block at
/// every position, the same data version, paste offset, block entities and
/// metadata, where metadata without entries counts as none. It has no
/// biomes, and in version 3 no origin. Where the palette that was written
/// began with `minecraft:air`, the block storage is the one that was
/// written, palette ids and all.
pub open spec fn round_trip_result(
    schematic: SchematicView,
    version: u32,
    read: Result<SchematicView, Failure>,
) -> bool {
    &&& read is Ok
    &&& read->Ok_0.blocks.valid()
    &&& read->Ok_0.blocks.size_x == schematic.blocks.size_x
    &&& read->Ok_0.blocks.size_y == schematic.blocks.size_y
    &&& read->Ok_0.blocks.size_z == schematic.blocks.size_z
    &&& forall|x: u32, y: u32, z: u32|
        schematic.blocks.in_bounds(x, y, z) ==> #[trigger] read->Ok_0.blocks.name_at(x, y, z)
            == schematic.blocks.name_at(x, y, z)
    &&& schematic.blocks.palette[0] == air() ==> read->Ok_0.blocks == schematic.blocks
    &&& read->Ok_0.data_version == schematic.data_version
    &&& read->Ok_0.paste_offset == schematic.paste_offset
    &&& read->Ok_0.origin == if version == 3 {
        None
    } else {
        schematic.origin
    }
    &&& read->Ok_0.biomes is None
    &&& read->Ok_0.block_entities == schematic.block_entities
    &&& read->Ok_0.metadata == normalized(schematic.metadata)
}

/// Round trip: a schematic that is written as a document of version 2 or 3
/// of the Sponge format is read back from the document, which shows the
/// format and the version that it was written in.
///
/// What is read back is the schematic that was written, but for the palette
/// ids of a palette that did not begin with `minecraft:air`, the fields
/// that the version does not store and metadata without entries:
/// `round_trip_result` says so field by field. A paste offset that version
/// 2 stored in the metadata is read back as the paste offset, and the
/// metadata is read back without it.
pub proof fn lemma_round_trip(schematic: SchematicView, version: u32)
    requires
        can_round_trip(schematic, version),
    ensures
        schematic_written(schematic, SchematicFormat::Sponge(version)) is Ok,
        schematic_written(schematic, SchematicFormat::Sponge(version)) == document_written(
            schematic,
            version,
        ),
        format_detected(document_written(schematic, version)->Ok_0) == Some(
            SchematicFormat::Sponge(version),
        ),
        schematic_read(document_written(schematic, version)->Ok_0) == document_read(
            document_written(schematic, version)->Ok_0,
            version,
        ),
        round_trip_result(
            schematic,
            version,
            schematic_read(document_written(schematic, version)->Ok_0),
        ),
        schematic.blocks.palette[0] == air() && schematic.biomes is None && (version == 3
            ==> schematic.origin is None) && schematic.metadata == normalized(schematic.metadata)
            ==> schematic_read(document_written(schematic, version)->Ok_0) == Ok::<
            SchematicView,
            Failure,
        >(schematic),
{
    if version == 2 {
        lemma_round_trip_flat(schematic);
    } else {
        lemma_round_trip_nested(schematic);
    }
}

/// Whether two documents hold the same under every name.
pub open spec fn same_fields(one: Fields, other: Fields) -> bool {
    forall|name: Seq<char>| #[trigger] lookup(one, name) == lookup(other, name)
}

/// Reading is by name: two documents that hold the same under every name
/// are read as the same schematic, or refused for the same reason, whatever
/// the order of their entries is.
pub proof fn lemma_read_by_name(one: Fields, other: Fields)
    requires
        same_fields(one, other),
    ensures
        format_detected(one) == format_detected(other),
        forall|version: u32| #[trigger]
            document_read(one, version) == document_read(other, version),
        schematic_read(one) == schematic_read(other),
{
    assert(lookup(one, "Version"@) == lookup(other, "Version"@));
    assert(lookup(one, "Regions"@) == lookup(other, "Regions"@));
    assert(lookup(one, "Schematic"@) == lookup(other, "Schematic"@));
    assert(lookup(one, "DataVersion"@) == lookup(other, "DataVersion"@));
    assert(lookup(one, "Width"@) == lookup(other, "Width"@));
    assert(lookup(one, "Height"@) == lookup(other, "Height"@));
    assert(lookup(one, "Length"@) == lookup(other, "Length"@));
    assert(lookup(one, "Metadata"@) == lookup(other, "Metadata"@));
    assert(lookup(one, "Offset"@) == lookup(other, "Offset"@));
    assert(lookup(one, "Palette"@) == lookup(other, "Palette"@));
    assert(lookup(one, "BlockData"@) == lookup(other, "BlockData"@));
    assert(lookup(one, "BlockEntities"@) == lookup(other, "BlockEntities"@));
    assert(lookup(one, "TileEntities"@) == lookup(other, "TileEntities"@));
    assert(format_detected(one) == format_detected(other));
    assert forall|version: u32| #[trigger]
        document_read(one, version) == document_read(other, version) by {
        if 1 <= version <= 3 {
            if version == 3 {
                assert(schematic_fields(version, one) == schematic_fields(version, other));
            } else {
                assert(lookup(one, data_name(version)) == lookup(other, data_name(version)));
                assert(lookup(one, entities_name(version)) == lookup(
                    other,
                    entities_name(version),
                ));
                assert(header_read(one) == header_read(other));
                assert(origin_read(version, one) == origin_read(version, other));
                assert(provenance_read(version, one) == provenance_read(version, other));
                assert(container_fields(version, one) == Ok::<Fields, Failure>(one));
                assert(container_fields(version, other) == Ok::<Fields, Failure>(other));
                assert forall|size_x: u32, size_y: u32, size_z: u32| #[trigger]
                    container_read(version, size_x, size_y, size_z, one) == container_read(
                        version,
                        size_x,
                        size_y,
                        size_z,
                        other,
                    ) by {
                    assert(block_grid_read(version, size_x, size_y, size_z, one)
                        == block_grid_read(version, size_x, size_y, size_z, other));
                    assert(crate::sponge::block_entities_read(version, one)
                        == crate::sponge::block_entities_read(version, other));
                }
            }
        }
    }
}

/// Round trip through bytes, as far as it is this library's: where the
/// bytes that were written for a schematic hold, under every name, what its
/// document holds, the schematic that is read from the bytes is the one
/// that was written, as `round_trip_result` says.
///
/// That the bytes which the `nbt` crate writes for a document are read back
/// by it as that document is the condition of this law: it is neither
/// proved here nor assumed.
pub proof fn lemma_round_trip_through_bytes(schematic: SchematicView, version: u32, data: Seq<u8>)
    requires
        can_round_trip(schematic, version),
        written(document_written(schematic, version)->Ok_0) == Some(data),
        document_in(data) is Some,
        same_fields(document_in(data)->Some_0, document_written(schematic, version)->Ok_0),
    ensures
        round_trip_result(schematic, version, schematic_read(document_in(data)->Some_0)),
        schematic.blocks.palette[0] == air() && schematic.biomes is None && (version == 3
            ==> schematic.origin is None) && schematic.metadata == normalized(schematic.metadata)
            ==> schematic_read(document_in(data)->Some_0) == Ok::<SchematicView, Failure>(
            schematic,
        ),
{
    lemma_round_trip(schematic, version);
    lemma_read_by_name(document_in(data)->Some_0, document_written(schematic, version)->Ok_0);
}

/// A document of the Sponge format that states no data version is refused
/// for the missing field `DataVersion`, and so is a schematic without data
/// version that is to be written in version 2 or 3.
pub proof fn lemma_data_version_required(root: Fields, schematic: SchematicView, version: u32)
    ensures
        (version == 1 || version == 2) && !has_key(root, "DataVersion"@) ==> document_read(
            root,
            version,
        ) == Err::<SchematicView, Failure>(Failure::MissingRequiredField("DataVersion"@)),
        version == 3 && schematic_fields(3, root) is Ok && !has_key(
            schematic_fields(3, root)->Ok_0,
            "DataVersion"@,
        ) ==> document_read(root, version) == Err::<SchematicView, Failure>(
            Failure::MissingRequiredField("DataVersion"@),
        ),
        (version == 2 || version == 3) && schematic.data_version is None ==> document_written(
            schematic,
            version,
        ) == Err::<Fields, Failure>(Failure::MissingRequiredField("DataVersion"@)),
{
}

} // verus!
