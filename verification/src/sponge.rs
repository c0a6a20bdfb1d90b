//! The Sponge schematic format: read in versions 1 to 3, written in
//! versions 2 and 3.
//!
//! Versions 1 and 2 keep every field in the root of the document. Version 3
//! keeps them in a compound named `Schematic`, and the blocks in a compound
//! named `Blocks` inside it.

mod reading;
mod writing;

pub use reading::{block_entities_read, block_grid_read, blocks_read, container_fields};
pub use reading::{container_read, deserialize, document_read, entities_read, entity_read};
pub use reading::{first_non_int, header_read, metadata_offset_read, normalized, offset_read};
pub use reading::{lemma_document_read_distinct, lemma_entities_read_distinct};
pub use reading::{or_zero, origin_read, palette_read, paste_offset_read, provenance_read};
pub use reading::{read_block_container, schematic_fields, unsigned_bytes, wire_ids_read};
pub use writing::{container_written, document_written, entities_written, entity_written};
pub use writing::{header_written, max_size, metadata_written, offset_written};
pub use writing::{palette_written, provenance_written, serialize, signed_bytes, wire_cells};
pub use writing::{write_block_container, write_document};

use vstd::prelude::*;

verus! {

/// The block type that fills a block storage before a document is read into
/// it.
pub open spec fn air() -> Seq<char> {
    "minecraft:air"@
}

/// The name of the byte array that holds the block data.
pub open spec fn data_name(version: u32) -> Seq<char> {
    if version <= 2 {
        "BlockData"@
    } else {
        "Data"@
    }
}

/// The name of the list that holds the block entities.
pub open spec fn entities_name(version: u32) -> Seq<char> {
    if version == 1 {
        "TileEntities"@
    } else {
        "BlockEntities"@
    }
}

fn data_field(version: u32) -> (name: &'static str)
    ensures
        name@ == data_name(version),
{
    if version <= 2 {
        "BlockData"
    } else {
        "Data"
    }
}

fn entities_field(version: u32) -> (name: &'static str)
    ensures
        name@ == entities_name(version),
{
    if version == 1 {
        "TileEntities"
    } else {
        "BlockEntities"
    }
}

} // verus!
