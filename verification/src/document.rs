//! Typed access to the fields of a document.
//!
//! A required field that is absent is a missing-field error, and a field
//! that holds another kind of value than the one asked for is a
//! mistyped-field error; both carry the name of the field.

use crate::assoc::lookup;
use crate::error::{Failure, SchematicError};
use crate::tag::{Compound, Fields, Tag, TagView};
use vstd::prelude::*;

verus! {

/// The required integer of a name.
pub open spec fn required_int(fields: Fields, name: Seq<char>) -> Result<i32, Failure> {
    match lookup(fields, name) {
        Some(TagView::Int(value)) => Ok(value),
        Some(_) => Err(Failure::MistypedField(name)),
        None => Err(Failure::MissingRequiredField(name)),
    }
}

/// The required short integer of a name.
pub open spec fn required_short(fields: Fields, name: Seq<char>) -> Result<i16, Failure> {
    match lookup(fields, name) {
        Some(TagView::Short(value)) => Ok(value),
        Some(_) => Err(Failure::MistypedField(name)),
        None => Err(Failure::MissingRequiredField(name)),
    }
}

/// The required compound of a name.
pub open spec fn required_compound(fields: Fields, name: Seq<char>) -> Result<Fields, Failure> {
    match lookup(fields, name) {
        Some(TagView::Compound(inner)) => Ok(inner),
        Some(_) => Err(Failure::MistypedField(name)),
        None => Err(Failure::MissingRequiredField(name)),
    }
}

/// The required byte array of a name.
pub open spec fn required_byte_array(fields: Fields, name: Seq<char>) -> Result<Seq<i8>, Failure> {
    match lookup(fields, name) {
        Some(TagView::ByteArray(bytes)) => Ok(bytes),
        Some(_) => Err(Failure::MistypedField(name)),
        None => Err(Failure::MissingRequiredField(name)),
    }
}

/// The required integer array of a name.
pub open spec fn required_int_array(fields: Fields, name: Seq<char>) -> Result<Seq<i32>, Failure> {
    match lookup(fields, name) {
        Some(TagView::IntArray(values)) => Ok(values),
        Some(_) => Err(Failure::MistypedField(name)),
        None => Err(Failure::MissingRequiredField(name)),
    }
}

/// The integer of a name, if the name is there.
pub open spec fn optional_int(fields: Fields, name: Seq<char>) -> Result<Option<i32>, Failure> {
    match lookup(fields, name) {
        Some(TagView::Int(value)) => Ok(Some(value)),
        Some(_) => Err(Failure::MistypedField(name)),
        None => Ok(None),
    }
}

/// The compound of a name, if the name is there.
pub open spec fn optional_compound(fields: Fields, name: Seq<char>) -> Result<
    Option<Fields>,
    Failure,
> {
    match lookup(fields, name) {
        Some(TagView::Compound(inner)) => Ok(Some(inner)),
        Some(_) => Err(Failure::MistypedField(name)),
        None => Ok(None),
    }
}

/// The integer array of a name, if the name is there.
pub open spec fn optional_int_array(fields: Fields, name: Seq<char>) -> Result<
    Option<Seq<i32>>,
    Failure,
> {
    match lookup(fields, name) {
        Some(TagView::IntArray(values)) => Ok(Some(values)),
        Some(_) => Err(Failure::MistypedField(name)),
        None => Ok(None),
    }
}

/// The list of a name, if the name is there.
pub open spec fn optional_list(fields: Fields, name: Seq<char>) -> Result<
    Option<Seq<TagView>>,
    Failure,
> {
    match lookup(fields, name) {
        Some(TagView::List(items)) => Ok(Some(items)),
        Some(_) => Err(Failure::MistypedField(name)),
        None => Ok(None),
    }
}

/// Reads the required integer of a name.
pub fn read_int(compound: &Compound, name: &str) -> (read: Result<i32, SchematicError>)
    ensures
        match read {
            Ok(value) => required_int(compound@, name@) == Ok::<i32, Failure>(value),
            Err(error) => required_int(compound@, name@) == Err::<i32, Failure>(error@),
        },
{
    match compound.get(name) {
        Some(Tag::Int(value)) => Ok(*value),
        Some(_) => Err(SchematicError::mistyped(name)),
        None => Err(SchematicError::missing(name)),
    }
}

/// Reads the required short integer of a name.
pub fn read_short(compound: &Compound, name: &str) -> (read: Result<i16, SchematicError>)
    ensures
        match read {
            Ok(value) => required_short(compound@, name@) == Ok::<i16, Failure>(value),
            Err(error) => required_short(compound@, name@) == Err::<i16, Failure>(error@),
        },
{
    match compound.get(name) {
        Some(Tag::Short(value)) => Ok(*value),
        Some(_) => Err(SchematicError::mistyped(name)),
        None => Err(SchematicError::missing(name)),
    }
}

/// Reads the required compound of a name.
pub fn read_compound<'a>(compound: &'a Compound, name: &str) -> (read: Result<
    &'a Compound,
    SchematicError,
>)
    ensures
        match read {
            Ok(inner) => required_compound(compound@, name@) == Ok::<Fields, Failure>(inner@),
            Err(error) => required_compound(compound@, name@) == Err::<Fields, Failure>(error@),
        },
{
    match compound.get(name) {
        Some(Tag::Compound(inner)) => Ok(inner),
        Some(_) => Err(SchematicError::mistyped(name)),
        None => Err(SchematicError::missing(name)),
    }
}

/// Reads the required byte array of a name.
pub fn read_byte_array<'a>(compound: &'a Compound, name: &str) -> (read: Result<
    &'a Vec<i8>,
    SchematicError,
>)
    ensures
        match read {
            Ok(bytes) => required_byte_array(compound@, name@) == Ok::<Seq<i8>, Failure>(bytes@),
            Err(error) => required_byte_array(compound@, name@) == Err::<Seq<i8>, Failure>(
                error@,
            ),
        },
{
    match compound.get(name) {
        Some(Tag::ByteArray(bytes)) => Ok(bytes),
        Some(_) => Err(SchematicError::mistyped(name)),
        None => Err(SchematicError::missing(name)),
    }
}

/// Reads the required integer array of a name.
pub fn read_int_array<'a>(compound: &'a Compound, name: &str) -> (read: Result<
    &'a Vec<i32>,
    SchematicError,
>)
    ensures
        match read {
            Ok(values) => required_int_array(compound@, name@) == Ok::<Seq<i32>, Failure>(
                values@,
            ),
            Err(error) => required_int_array(compound@, name@) == Err::<Seq<i32>, Failure>(
                error@,
            ),
        },
{
    match compound.get(name) {
        Some(Tag::IntArray(values)) => Ok(values),
        Some(_) => Err(SchematicError::mistyped(name)),
        None => Err(SchematicError::missing(name)),
    }
}

/// Reads the integer of a name, if the name is there.
pub fn read_optional_int(compound: &Compound, name: &str) -> (read: Result<
    Option<i32>,
    SchematicError,
>)
    ensures
        match read {
            Ok(value) => optional_int(compound@, name@) == Ok::<Option<i32>, Failure>(value),
            Err(error) => optional_int(compound@, name@) == Err::<Option<i32>, Failure>(error@),
        },
{
    match compound.get(name) {
        Some(Tag::Int(value)) => Ok(Some(*value)),
        Some(_) => Err(SchematicError::mistyped(name)),
        None => Ok(None),
    }
}

/// Reads the compound of a name, if the name is there.
pub fn read_optional_compound<'a>(compound: &'a Compound, name: &str) -> (read: Result<
    Option<&'a Compound>,
    SchematicError,
>)
    ensures
        match read {
            Ok(Some(inner)) => optional_compound(compound@, name@) == Ok::<
                Option<Fields>,
                Failure,
            >(Some(inner@)),
            Ok(None) => optional_compound(compound@, name@) == Ok::<Option<Fields>, Failure>(
                None,
            ),
            Err(error) => optional_compound(compound@, name@) == Err::<Option<Fields>, Failure>(
                error@,
            ),
        },
{
    match compound.get(name) {
        Some(Tag::Compound(inner)) => Ok(Some(inner)),
        Some(_) => Err(SchematicError::mistyped(name)),
        None => Ok(None),
    }
}

/// Reads the integer array of a name, if the name is there.
pub fn read_optional_int_array<'a>(compound: &'a Compound, name: &str) -> (read: Result<
    Option<&'a Vec<i32>>,
    SchematicError,
>)
    ensures
        match read {
            Ok(Some(values)) => optional_int_array(compound@, name@) == Ok::<
                Option<Seq<i32>>,
                Failure,
            >(Some(values@)),
            Ok(None) => optional_int_array(compound@, name@) == Ok::<Option<Seq<i32>>, Failure>(
                None,
            ),
            Err(error) => optional_int_array(compound@, name@) == Err::<
                Option<Seq<i32>>,
                Failure,
            >(error@),
        },
{
    match compound.get(name) {
        Some(Tag::IntArray(values)) => Ok(Some(values)),
        Some(_) => Err(SchematicError::mistyped(name)),
        None => Ok(None),
    }
}

/// Reads the list of a name, if the name is there.
pub fn read_optional_list<'a>(compound: &'a Compound, name: &str) -> (read: Result<
    Option<&'a Vec<Tag>>,
    SchematicError,
>)
    ensures
        match read {
            Ok(Some(items)) => optional_list(compound@, name@) == Ok::<
                Option<Seq<TagView>>,
                Failure,
            >(Some(crate::tag::items_view(items@))),
            Ok(None) => optional_list(compound@, name@) == Ok::<Option<Seq<TagView>>, Failure>(
                None,
            ),
            Err(error) => optional_list(compound@, name@) == Err::<
                Option<Seq<TagView>>,
                Failure,
            >(error@),
        },
{
    match compound.get(name) {
        Some(Tag::List(items)) => Ok(Some(items)),
        Some(_) => Err(SchematicError::mistyped(name)),
        None => Ok(None),
    }
}

} // verus!
