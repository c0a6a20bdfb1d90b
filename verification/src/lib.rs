//! Reading, writing and converting Minecraft schematic files.
//!
//! A [`Schematic`] is a cuboid of palette-compressed blocks together with its
//! block entities and provenance fields. The Sponge schematic format is read
//! in versions 1 to 3 and written in versions 2 and 3.
//!
//! A schematic is read in two steps. The bytes are decompressed and parsed
//! into a document, a tree of [`Tag`]s, by the `flate2` and `nbt` crates;
//! the document is then read by verified code, whose contracts say exactly
//! which schematic or which error it gives. Writing takes the same steps in
//! the other direction. The module [`laws`] proves that what is written as
//! a document is read back from it.

pub mod assoc;
pub mod blocks;
pub mod codec;
pub mod document;
pub mod entities;
pub mod error;
pub mod frame;
pub mod laws;
pub mod schematic;
pub mod sponge;
pub mod tag;
pub mod varint;

pub use blocks::Blocks;
pub use entities::{BlockEntities, BlockEntity, PlacedEntity};
pub use error::{SchematicError, SchematicFormat, SchematicaFormat};
pub use schematic::Schematic;
pub use tag::{Compound, Entry, Tag};
