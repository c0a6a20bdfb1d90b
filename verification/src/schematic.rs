//! A schematic, whatever the format it was read from.

use crate::assoc::{distinct_keys, has_key, lookup};
use crate::blocks::{Blocks, BlocksView};
use crate::codec::{document_in, read_root};
use crate::entities::{BlockEntities, Placements};
use crate::error::{Failure, SchematicError, SchematicFormat};
use crate::sponge::{document_read, document_written};
use crate::tag::{Compound, Fields, Tag, TagView};
use vstd::prelude::*;

verus! {

/// A schematic file.
pub struct Schematic {
    pub blocks: Blocks,
    /// The world coordinates that the min point of the schematic had when
    /// it was created.
    pub origin: Option<(i32, i32, i32)>,
    /// The offset from the player location to the min point of the
    /// schematic when pasting.
    pub paste_offset: Option<(i32, i32, i32)>,
    /// Reserved: no format reads or writes biomes.
    pub biomes: Option<Blocks>,
    pub data_version: Option<u32>,
    pub block_entities: BlockEntities,
    /// The metadata tag of the format, without what was read into another
    /// field of the schematic.
    pub metadata: Option<Compound>,
}

/// The mathematical content of a [`Schematic`].
pub struct SchematicView {
    pub blocks: BlocksView,
    pub origin: Option<(i32, i32, i32)>,
    pub paste_offset: Option<(i32, i32, i32)>,
    pub biomes: Option<BlocksView>,
    pub data_version: Option<u32>,
    pub block_entities: Placements,
    pub metadata: Option<Fields>,
}

impl View for Schematic {
    type V = SchematicView;

    open spec fn view(&self) -> SchematicView {
        SchematicView {
            blocks: self.blocks@,
            origin: self.origin,
            paste_offset: self.paste_offset,
            biomes: match self.biomes {
                Some(biomes) => Some(biomes@),
                None => None,
            },
            data_version: self.data_version,
            block_entities: self.block_entities@,
            metadata: match self.metadata {
                Some(metadata) => Some(metadata@),
                None => None,
            },
        }
    }
}

/// The integer that a name holds, if it holds one.
pub open spec fn int_field(fields: Fields, name: Seq<char>) -> Option<i32> {
    match lookup(fields, name) {
        Some(TagView::Int(value)) => Some(value),
        _ => None,
    }
}

/// The integer `Version` of the compound `Schematic`, if the root has both.
pub open spec fn nested_version(root: Fields) -> Option<i32> {
    match lookup(root, "Schematic"@) {
        Some(TagView::Compound(schematic)) => int_field(schematic, "Version"@),
        _ => None,
    }
}

/// The format that the root of a document shows, if it shows one.
///
/// A root with an integer `Version` and a `Regions` tag is a Litematica
/// schematic, whatever the version says: the test comes first, because
/// such a root may look like a Sponge schematic of version 1 or 2
/// otherwise. Else an integer `Version` of 1 or 2 is a Sponge schematic of
/// that version. Else a compound `Schematic` with the integer `Version` 3
/// is a Sponge schematic of version 3.
pub open spec fn format_detected(root: Fields) -> Option<SchematicFormat> {
    let version = int_field(root, "Version"@);
    if version is Some && has_key(root, "Regions"@) {
        Some(SchematicFormat::Litematica(version->Some_0 as u32))
    } else if version == Some(1i32) || version == Some(2i32) {
        Some(SchematicFormat::Sponge(version->Some_0 as u32))
    } else if nested_version(root) == Some(3i32) {
        Some(SchematicFormat::Sponge(3))
    } else {
        None
    }
}

/// The schematic that a document holds: that of the format which its root
/// shows. Only the Sponge format is read.
pub open spec fn schematic_read(root: Fields) -> Result<SchematicView, Failure> {
    match format_detected(root) {
        Some(SchematicFormat::Sponge(version)) => document_read(root, version),
        Some(format) => Err(Failure::UnsupportedFormat(format)),
        None => Err(Failure::UnrecognizedFormat),
    }
}

/// The document that holds a schematic in a format. Only the Sponge format
/// is written.
pub open spec fn schematic_written(schematic: SchematicView, format: SchematicFormat) -> Result<
    Fields,
    Failure,
> {
    match format {
        SchematicFormat::Sponge(version) => document_written(schematic, version),
        _ => Err(Failure::UnsupportedFormat(format)),
    }
}

/// Format dispatch: a document whose root has an integer `Version` and a
/// `Regions` tag is refused as a Litematica schematic, whatever the version
/// is. A document whose root has no `Version`, and no compound `Schematic`
/// with the integer `Version` 3, is refused as unrecognized.
pub proof fn lemma_format_dispatch(root: Fields)
    ensures
        int_field(root, "Version"@) is Some && has_key(root, "Regions"@) ==> schematic_read(root)
            == Err::<SchematicView, Failure>(
            Failure::UnsupportedFormat(
                SchematicFormat::Litematica(int_field(root, "Version"@)->Some_0 as u32),
            ),
        ),
        !has_key(root, "Version"@) && nested_version(root) != Some(3i32) ==> schematic_read(root)
            == Err::<SchematicView, Failure>(Failure::UnrecognizedFormat),
{
}

/// Tells the format that the root of a document shows.
pub fn detect_format(root: &Compound) -> (format: Option<SchematicFormat>)
    ensures
        format == format_detected(root@),
{
    if let Some(Tag::Int(version)) = root.get("Version") {
        if root.contains_key("Regions") {
            return Some(SchematicFormat::Litematica(#[verifier::truncate] (*version as u32)));
        }
        if *version == 1 || *version == 2 {
            return Some(SchematicFormat::Sponge(#[verifier::truncate] (*version as u32)));
        }
    }
    if let Some(Tag::Compound(schem_compound)) = root.get("Schematic") {
        if let Some(Tag::Int(version)) = schem_compound.get("Version") {
            if *version == 3 {
                return Some(SchematicFormat::Sponge(3));
            }
        }
    }
    None
}

impl Schematic {
    /// Reads a schematic from a document, in the format that its root
    /// shows.
    pub fn from_document(root: &Compound) -> (read: Result<Schematic, SchematicError>)
        ensures
            match read {
                Ok(schematic) => schematic.wf() && schematic_read(root@) == Ok::<
                    SchematicView,
                    Failure,
                >(schematic@) && distinct_keys(schematic@.block_entities),
                Err(error) => schematic_read(root@) == Err::<SchematicView, Failure>(error@),
            },
    {
        match detect_format(root) {
            Some(SchematicFormat::Sponge(version)) => crate::sponge::deserialize(root, version),
            Some(format) => Err(SchematicError::UnsupportedFormat(format)),
            None => Err(SchematicError::UnrecognizedFormat),
        }
    }

    /// Builds the document that holds this schematic in a format.
    pub fn to_document(&self, format: SchematicFormat) -> (written: Result<
        Compound,
        SchematicError,
    >)
        requires
            self.wf(),
        ensures
            match written {
                Ok(root) => schematic_written(self@, format) == Ok::<Fields, Failure>(root@),
                Err(error) => schematic_written(self@, format) == Err::<Fields, Failure>(error@),
            },
    {
        match format {
            SchematicFormat::Sponge(version) => crate::sponge::write_document(self, version),
            _ => Err(SchematicError::UnsupportedFormat(format)),
        }
    }

    /// Deserialize a schematic from a raw byte slice: gzip-compressed NBT
    /// data.
    ///
    /// The format of the schematic is detected. Data that holds no
    /// document gives [`SchematicError::NbtError`]. Every other result is
    /// what [`Schematic::from_document`] gives for the document that the
    /// data holds.
    pub fn deserialize(data: &[u8]) -> (read: Result<Schematic, SchematicError>)
        ensures
            match read {
                Ok(schematic) => schematic.wf() && document_in(data@) is Some && schematic_read(
                    document_in(data@)->Some_0,
                ) == Ok::<SchematicView, Failure>(schematic@) && distinct_keys(
                    schematic@.block_entities,
                ),
                Err(error) => match document_in(data@) {
                    Some(root) => schematic_read(root) == Err::<SchematicView, Failure>(error@),
                    None => error@ is Nbt,
                },
            },
    {
        let root = match read_root(data) {
            Ok(root) => root,
            Err(error) => {
                return Err(error);
            },
        };
        Schematic::from_document(&root)
    }

    /// Serialize a schematic into raw bytes: gzip-compressed NBT data.
    ///
    /// A schematic that has no document in the format gives the error that
    /// [`Schematic::to_document`] gives. Otherwise the result is what the
    /// `nbt` crate makes of its document: the bytes, or
    /// [`SchematicError::NbtError`] where the crate refuses the document.
    pub fn serialize(&self, format: SchematicFormat) -> (written: Result<Vec<u8>, SchematicError>)
        requires
            self.wf(),
        ensures
            match written {
                Ok(data) => schematic_written(self@, format) is Ok && crate::codec::written(
                    schematic_written(self@, format)->Ok_0,
                ) == Some(data@),
                Err(error) => match schematic_written(self@, format) {
                    Ok(root) => crate::codec::written(root) is None && error@ is Nbt,
                    Err(failure) => error@ == failure,
                },
            },
    {
        match format {
            SchematicFormat::Sponge(version) => crate::sponge::serialize(self, version),
            _ => Err(SchematicError::UnsupportedFormat(format)),
        }
    }

    /// The invariant of a schematic: its block storages are well formed.
    pub open spec fn wf(&self) -> bool {
        &&& self.blocks.wf()
        &&& match self.biomes {
            Some(biomes) => biomes.wf(),
            None => true,
        }
    }

    /// The size of this schematic: x, y, z.
    pub fn size(&self) -> (size: (u32, u32, u32))
        ensures
            size == (self@.blocks.size_x, self@.blocks.size_y, self@.blocks.size_z),
    {
        self.blocks.size()
    }
}

} // verus!
