//! Schematic formats and the errors of reading and writing them.

use vstd::prelude::*;
use vstd::string::StringExecFns;

verus! {

/// `nbt::Error`, the error of the `nbt` crate. It is carried through as it
/// is: nothing is known of what it holds.
#[verifier::external_type_specification]
#[verifier::external_body]
pub struct ExNbtError(nbt::Error);

/// Types of schematic formats used by Schematica.
#[derive(Debug, Clone, Copy, PartialEq, Eq, Structural)]
pub enum SchematicaFormat {
    Structure,
    Alpha,
}

/// The known schematic formats. Not all of them can be read or written.
#[derive(Debug, Clone, Copy, PartialEq, Eq, Structural)]
pub enum SchematicFormat {
    /// The Sponge schematic format, with its version.
    Sponge(u32),
    /// The Litematica schematic format, with its version.
    Litematica(u32),
    /// The Schematica schematic format.
    Schematica(SchematicaFormat),
}

/// The character of a decimal digit.
pub open spec fn digit(value: nat) -> char {
    if value == 0 {
        '0'
    } else if value == 1 {
        '1'
    } else if value == 2 {
        '2'
    } else if value == 3 {
        '3'
    } else if value == 4 {
        '4'
    } else if value == 5 {
        '5'
    } else if value == 6 {
        '6'
    } else if value == 7 {
        '7'
    } else if value == 8 {
        '8'
    } else {
        '9'
    }
}

/// A number in decimal digits, without leading zeros.
pub open spec fn decimal(value: nat) -> Seq<char>
    decreases value,
{
    if value < 10 {
        seq![digit(value)]
    } else {
        decimal(value / 10).push(digit(value % 10))
    }
}

/// The name of a format for messages: the family, and the version or kind.
pub open spec fn described(format: SchematicFormat) -> Seq<char> {
    match format {
        SchematicFormat::Sponge(version) => "Sponge version "@ + decimal(version as nat),
        SchematicFormat::Litematica(version) => "Litematica version "@ + decimal(version as nat),
        SchematicFormat::Schematica(SchematicaFormat::Alpha) => "Schematica alpha"@,
        SchematicFormat::Schematica(SchematicaFormat::Structure) => "Schematica structure"@,
    }
}

fn digit_text(value: u32) -> (text: &'static str)
    requires
        value < 10,
    ensures
        text@ == seq![digit(value as nat)],
{
    proof {
        reveal_strlit("0");
        reveal_strlit("1");
        reveal_strlit("2");
        reveal_strlit("3");
        reveal_strlit("4");
        reveal_strlit("5");
        reveal_strlit("6");
        reveal_strlit("7");
        reveal_strlit("8");
        reveal_strlit("9");
    }
    let text = if value == 0 {
        "0"
    } else if value == 1 {
        "1"
    } else if value == 2 {
        "2"
    } else if value == 3 {
        "3"
    } else if value == 4 {
        "4"
    } else if value == 5 {
        "5"
    } else if value == 6 {
        "6"
    } else if value == 7 {
        "7"
    } else if value == 8 {
        "8"
    } else {
        "9"
    };
    assert(text@ =~= seq![digit(value as nat)]);
    text
}

/// Appends a number in decimal digits.
fn append_decimal(value: u32, text: &mut String)
    ensures
        final(text)@ == old(text)@ + decimal(value as nat),
    decreases value,
{
    if value >= 10 {
        append_decimal(value / 10, text);
    }
    text.append(digit_text(value % 10));
    assert(text@ =~= old(text)@ + decimal(value as nat));
}

impl SchematicFormat {
    /// The name of the format for messages, such as `Sponge version 2`.
    pub fn describe(&self) -> (text: String)
        ensures
            text@ == described(*self),
    {
        match *self {
            SchematicFormat::Sponge(version) => {
                let mut text = String::from_str("Sponge version ");
                append_decimal(version, &mut text);
                text
            },
            SchematicFormat::Litematica(version) => {
                let mut text = String::from_str("Litematica version ");
                append_decimal(version, &mut text);
                text
            },
            SchematicFormat::Schematica(format) => match format {
                SchematicaFormat::Alpha => String::from_str("Schematica alpha"),
                SchematicaFormat::Structure => String::from_str("Schematica structure"),
            },
        }
    }
}

/// Why a schematic could not be read or written.
#[derive(Debug, PartialEq)]
pub enum SchematicError {
    /// The data has the shape of no known schematic format.
    UnrecognizedFormat,
    /// The format was recognized, but it cannot be read or written.
    UnsupportedFormat(SchematicFormat),
    /// The gzip stream or the NBT tree in it was malformed.
    NbtError(nbt::Error),
    /// A tag that the format requires is absent.
    MissingRequiredField(String),
    /// A tag is present with the wrong kind of value.
    MistypedField(String),
    /// A value cannot be represented in the field that holds it.
    InvalidValue(String),
}

/// The mathematical content of a [`SchematicError`]: field names as
/// sequences of characters.
pub enum Failure {
    UnrecognizedFormat,
    UnsupportedFormat(SchematicFormat),
    Nbt(nbt::Error),
    MissingRequiredField(Seq<char>),
    MistypedField(Seq<char>),
    InvalidValue(Seq<char>),
}

impl View for SchematicError {
    type V = Failure;

    open spec fn view(&self) -> Failure {
        match self {
            SchematicError::UnrecognizedFormat => Failure::UnrecognizedFormat,
            SchematicError::UnsupportedFormat(format) => Failure::UnsupportedFormat(*format),
            SchematicError::NbtError(error) => Failure::Nbt(*error),
            SchematicError::MissingRequiredField(name) => Failure::MissingRequiredField(name@),
            SchematicError::MistypedField(name) => Failure::MistypedField(name@),
            SchematicError::InvalidValue(name) => Failure::InvalidValue(name@),
        }
    }
}

impl From<nbt::Error> for SchematicError {
    fn from(error: nbt::Error) -> (wrapped: SchematicError) {
        SchematicError::NbtError(error)
    }
}

impl vstd::std_specs::convert::FromSpecImpl<nbt::Error> for SchematicError {
    open spec fn obeys_from_spec() -> bool {
        true
    }

    open spec fn from_spec(error: nbt::Error) -> SchematicError {
        SchematicError::NbtError(error)
    }
}

impl SchematicError {
    /// The error for a required tag that is absent.
    pub fn missing(name: &str) -> (error: SchematicError)
        ensures
            error@ == Failure::MissingRequiredField(name@),
    {
        SchematicError::MissingRequiredField(name.to_owned())
    }

    /// The error for a tag with the wrong kind of value.
    pub fn mistyped(name: &str) -> (error: SchematicError)
        ensures
            error@ == Failure::MistypedField(name@),
    {
        SchematicError::MistypedField(name.to_owned())
    }

    /// The error for a value that its field cannot hold.
    pub fn invalid(name: &str) -> (error: SchematicError)
        ensures
            error@ == Failure::InvalidValue(name@),
    {
        SchematicError::InvalidValue(name.to_owned())
    }
}

} // verus!
