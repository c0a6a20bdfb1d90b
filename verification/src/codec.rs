//! Documents as gzip-compressed NBT data.
//!
//! The `flate2` crate decompresses the data, and the `nbt` crate parses and
//! writes it. What they find in given bytes is not proved here; it has a
//! name, and the document that is read from the bytes is stated over these
//! names. The bytes that are written for a document have a name too. The
//! `nbt` crate is built to keep the entries of a compound in their order.

use crate::error::SchematicError;
use crate::frame::{check_frame, frame_safe};
use crate::tag::{Compound, Entry, Fields, Tag, TagView};
use nbt::Value;
use std::io::Read;
use vstd::prelude::*;

verus! {

/// What decompressing gzip data gives: the bytes that are decompressed
/// before the data ends or is found to be broken.
pub uninterp spec fn gunzipped(data: Seq<u8>) -> Seq<u8>;

/// What parsing NBT data gives: the fields of its root, or `None` where the
/// data is refused.
pub uninterp spec fn parsed(raw: Seq<u8>) -> Option<Map<Seq<char>, TagView>>;

/// What a blob holds: the fields of the root of NBT data, by their names.
pub uninterp spec fn blob_fields(blob: nbt::Blob) -> Map<Seq<char>, TagView>;

/// What writing a document as gzip-compressed NBT data gives: the bytes,
/// or `None` where the `nbt` crate refuses the document.
pub uninterp spec fn written(root: Seq<(Seq<char>, TagView)>) -> Option<Seq<u8>>;

/// `root` with the field of a name as its last entry, where `fields` has
/// the name.
pub open spec fn with_field_of(
    root: Fields,
    fields: Map<Seq<char>, TagView>,
    name: Seq<char>,
) -> Fields {
    if fields.contains_key(name) {
        root.push((name, fields[name]))
    } else {
        root
    }
}

/// The fields of the root of NBT data that a schematic format may ask for,
/// as a document.
pub open spec fn root_fields(fields: Map<Seq<char>, TagView>) -> Fields {
    let root = with_field_of(Seq::empty(), fields, "Version"@);
    let root = with_field_of(root, fields, "Regions"@);
    let root = with_field_of(root, fields, "Schematic"@);
    let root = with_field_of(root, fields, "DataVersion"@);
    let root = with_field_of(root, fields, "Width"@);
    let root = with_field_of(root, fields, "Height"@);
    let root = with_field_of(root, fields, "Length"@);
    let root = with_field_of(root, fields, "Metadata"@);
    let root = with_field_of(root, fields, "Offset"@);
    let root = with_field_of(root, fields, "Palette"@);
    let root = with_field_of(root, fields, "BlockData"@);
    let root = with_field_of(root, fields, "BlockEntities"@);
    with_field_of(root, fields, "TileEntities"@)
}

/// The document that gzip-compressed NBT data holds, or `None` where the
/// data is refused: because its length fields cannot be trusted, or by the
/// parser.
pub open spec fn document_in(data: Seq<u8>) -> Option<Fields> {
    if frame_safe(gunzipped(data)) {
        match parsed(gunzipped(data)) {
            Some(fields) => Some(root_fields(fields)),
            None => None,
        }
    } else {
        None
    }
}

/// `nbt::Blob`, the root of NBT data. It is carried through as it is:
/// nothing is known of what it holds.
#[verifier::external_type_specification]
#[verifier::external_body]
pub struct ExBlob(nbt::Blob);

/// Decompresses gzip data: reads a `flate2::read::GzDecoder` of the bytes
/// to its end, and returns what was decompressed before the data ended or
/// was found to be broken. Assumed, not proved: the same data gives the
/// same bytes, which `gunzipped` names.
#[verifier::external_body]
fn gunzip(data: &[u8]) -> (raw: Vec<u8>)
    ensures
        raw@ == gunzipped(data@),
{
    let mut raw = Vec::new();
    let _ = flate2::read::GzDecoder::new(data).read_to_end(&mut raw);
    raw
}

/// Calls `nbt::Blob::from_reader` on the bytes. Assumed, not proved: the
/// same bytes are refused or give a blob of the same fields every time;
/// `parsed` names the fields. Nothing is assumed of the error.
///
/// The parser allocates an array or a list as long as its length field
/// says before it reads the items, and it panics where the length is
/// negative. So it is only called on data whose length fields are backed
/// by the data, and whose values are nested no deeper than `MAX_DEPTH`.
#[verifier::external_body]
fn read_blob(raw: &[u8]) -> (blob: Result<nbt::Blob, nbt::Error>)
    requires
        frame_safe(raw@),
    ensures
        match blob {
            Ok(blob) => parsed(raw@) == Some(blob_fields(blob)),
            Err(_) => parsed(raw@) is None,
        },
{
    nbt::Blob::from_reader(&mut std::io::Cursor::new(raw))
}

/// The error of the `nbt` crate for data that is no complete NBT value:
/// `nbt::Error::IncompleteNbtValue`. Nothing is assumed of it.
#[verifier::external_body]
fn incomplete() -> (error: nbt::Error) {
    nbt::Error::IncompleteNbtValue
}

/// Turns an `nbt::Value` into a [`Tag`], kind by kind: the value of a short,
/// an integer, a byte array, a string or an integer array is moved over, the
/// items of a list and the entries of a compound are turned into tags in
/// the order in which the crate hands them out, and a value of any other
/// kind is kept as it is. Nothing is assumed of the result.
#[verifier::external_body]
fn tag_of_value(value: &Value) -> (tag: Tag) {
    match value {
        Value::Short(v) => Tag::Short(*v),
        Value::Int(v) => Tag::Int(*v),
        Value::ByteArray(v) => Tag::ByteArray(v.clone()),
        Value::String(v) => Tag::String(v.clone()),
        Value::List(v) => Tag::List(v.iter().map(tag_of_value).collect()),
        Value::Compound(v) => Tag::Compound(Compound {
            entries: v.iter().map(|(k, x)| Entry { name: k.clone(), value: tag_of_value(x) })
                .collect(),
        }),
        Value::IntArray(v) => Tag::IntArray(v.clone()),
        other => Tag::Other(other.clone()),
    }
}

/// Turns a [`Tag`] into an `nbt::Value`, kind by kind: the reverse of
/// `tag_of_value`. Nothing is assumed of the result.
#[verifier::external_body]
fn value_of_tag(tag: &Tag) -> (value: Value) {
    match tag {
        Tag::Short(v) => Value::Short(*v),
        Tag::Int(v) => Value::Int(*v),
        Tag::ByteArray(v) => Value::ByteArray(v.clone()),
        Tag::String(v) => Value::String(v.clone()),
        Tag::List(v) => Value::List(v.iter().map(value_of_tag).collect()),
        Tag::Compound(v) => Value::Compound(
            v.entries.iter().map(|e| (e.name.clone(), value_of_tag(&e.value))).collect(),
        ),
        Tag::IntArray(v) => Value::IntArray(v.clone()),
        Tag::Other(v) => v.clone(),
    }
}

/// Calls `nbt::Blob::get` with the name and turns the value that it finds
/// into a [`Tag`]. Assumed, not proved: the blob has a field of the name
/// where a value is found, and the tag is that field.
#[verifier::external_body]
fn blob_field(blob: &nbt::Blob, name: &'static str) -> (tag: Option<Tag>)
    ensures
        match tag {
            Some(tag) => blob_fields(*blob).contains_key(name@) && blob_fields(*blob)[name@]
                == tag@,
            None => !blob_fields(*blob).contains_key(name@),
        },
{
    blob.get(name).map(tag_of_value)
}

/// Writes a document with `nbt::Blob::to_gzip_writer`: the blob is made by
/// `nbt::Blob::new` and gets every entry of the document, in order, by
/// `nbt::Blob::insert`, with the tag turned into an `nbt::Value`. Assumed,
/// not proved: the same document is refused or gives the same bytes every
/// time; `written` names the bytes. Nothing is assumed of the error.
#[verifier::external_body]
fn write_blob(root: &Compound) -> (data: Result<Vec<u8>, nbt::Error>)
    ensures
        match data {
            Ok(bytes) => written(root@) == Some(bytes@),
            Err(_) => written(root@) is None,
        },
{
    let mut blob = nbt::Blob::new();
    for entry in root.entries.iter() {
        blob.insert(entry.name.as_str(), value_of_tag(&entry.value))?;
    }
    let mut data = Vec::new();
    blob.to_gzip_writer(&mut data)?;
    Ok(data)
}

/// Stores the field of the name, where the blob has it, as the last entry
/// of `root`.
fn take_field(blob: &nbt::Blob, name: &'static str, root: &mut Compound)
    ensures
        final(root)@ == with_field_of(old(root)@, blob_fields(*blob), name@),
{
    if let Some(tag) = blob_field(blob, name) {
        root.entries.push(Entry { name: name.to_owned(), value: tag });
        assert(root@ =~= with_field_of(old(root)@, blob_fields(*blob), name@));
    }
}

/// Reads gzip-compressed NBT data: the fields of its root that a schematic
/// format may ask for.
///
/// Data whose length fields cannot be trusted is refused as incomplete
/// before it is parsed.
pub fn read_root(data: &[u8]) -> (root: Result<Compound, SchematicError>)
    ensures
        match root {
            Ok(root) => document_in(data@) == Some(root@),
            Err(error) => document_in(data@) is None && error is NbtError,
        },
{
    let raw = gunzip(data);
    if !check_frame(raw.as_slice()) {
        return Err(SchematicError::NbtError(incomplete()));
    }
    let blob = match read_blob(raw.as_slice()) {
        Ok(blob) => blob,
        Err(error) => {
            return Err(SchematicError::NbtError(error));
        },
    };
    let mut root = Compound::new();
    take_field(&blob, "Version", &mut root);
    take_field(&blob, "Regions", &mut root);
    take_field(&blob, "Schematic", &mut root);
    take_field(&blob, "DataVersion", &mut root);
    take_field(&blob, "Width", &mut root);
    take_field(&blob, "Height", &mut root);
    take_field(&blob, "Length", &mut root);
    take_field(&blob, "Metadata", &mut root);
    take_field(&blob, "Offset", &mut root);
    take_field(&blob, "Palette", &mut root);
    take_field(&blob, "BlockData", &mut root);
    take_field(&blob, "BlockEntities", &mut root);
    take_field(&blob, "TileEntities", &mut root);
    Ok(root)
}

/// Writes a document as gzip-compressed NBT data: the bytes that the `nbt`
/// crate writes for it. The crate refuses a document in which a list holds
/// values of more than one kind.
pub fn write_root(root: &Compound) -> (data: Result<Vec<u8>, SchematicError>)
    ensures
        match data {
            Ok(bytes) => written(root@) == Some(bytes@),
            Err(error) => written(root@) is None && error is NbtError,
        },
{
    match write_blob(root) {
        Ok(data) => Ok(data),
        Err(error) => Err(SchematicError::NbtError(error)),
    }
}

} // verus!
