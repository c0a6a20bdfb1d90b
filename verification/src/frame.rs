//! The framing of NBT data: where each value of the data ends.
//!
//! NBT data states how long an array or a list is before it spells the
//! items. A parser that allocates what a length field asks for must not be
//! handed data whose length fields ask for more than the data holds. This
//! module walks over the data as a parser does and tells whether every
//! length field that the walk meets is backed by the data that follows it.

use vstd::prelude::*;

verus! {

/// How deep the lists and compounds of NBT data may be nested.
pub const MAX_DEPTH: usize = 512;

/// How far a walk over a value came.
#[derive(Debug, Clone, Copy, PartialEq, Eq, Structural)]
pub enum Walk {
    /// The value is whole, and what follows it starts at this index.
    Next(usize),
    /// The data ends, or names a kind of value that there is none of,
    /// before the value is whole.
    Short,
    /// A length field is negative or asks for more than the data that is
    /// left, or values are nested too deep.
    Bad,
}

/// The unsigned number that the two bytes at `at` spell, the high byte
/// first.
pub open spec fn be_u16(raw: Seq<u8>, at: int) -> int {
    raw[at] * 256 + raw[at + 1]
}

/// The signed number that the four bytes at `at` spell, the high byte
/// first.
pub open spec fn be_i32(raw: Seq<u8>, at: int) -> int {
    let unsigned = ((raw[at] * 256 + raw[at + 1]) * 256 + raw[at + 2]) * 256 + raw[at + 3];
    if raw[at] >= 128 {
        unsigned - 0x1_0000_0000
    } else {
        unsigned
    }
}

/// The walk over `size` bytes at `at`.
pub open spec fn fixed(raw: Seq<u8>, at: int, size: int) -> Walk {
    if 0 <= at && 0 <= size && at + size <= raw.len() {
        Walk::Next((at + size) as usize)
    } else {
        Walk::Short
    }
}

/// The walk over a string at `at`: two bytes that tell its length, and
/// then its bytes.
pub open spec fn text(raw: Seq<u8>, at: int) -> Walk {
    if 0 <= at && at + 2 <= raw.len() {
        fixed(raw, at + 2, be_u16(raw, at))
    } else {
        Walk::Short
    }
}

/// The walk over an array at `at`: four bytes that tell the number of its
/// items, and then its items of `size` bytes each.
pub open spec fn array(raw: Seq<u8>, at: int, size: int) -> Walk {
    if 0 <= at && at + 4 <= raw.len() {
        let count = be_i32(raw, at);
        if count < 0 || count * size > raw.len() - (at + 4) {
            Walk::Bad
        } else {
            Walk::Next((at + 4 + count * size) as usize)
        }
    } else {
        Walk::Short
    }
}

/// The walk over the value of a kind at `at`, where lists and compounds may
/// be nested `depth` deep.
///
/// The kinds are those of NBT: 1 is a byte, 2 a short, 3 an integer, 4 a
/// long, 5 a float, 6 a double, 7 a byte array, 8 a string, 9 a list, 10 a
/// compound, 11 an integer array and 12 a long array. A list states the
/// kind and the number of its items and then spells the items, of which
/// each takes a byte at least.
pub open spec fn payload(raw: Seq<u8>, kind: u8, at: int, depth: nat) -> Walk
    decreases depth, 0nat, 0nat,
{
    if kind == 1 {
        fixed(raw, at, 1)
    } else if kind == 2 {
        fixed(raw, at, 2)
    } else if kind == 3 || kind == 5 {
        fixed(raw, at, 4)
    } else if kind == 4 || kind == 6 {
        fixed(raw, at, 8)
    } else if kind == 7 {
        array(raw, at, 1)
    } else if kind == 8 {
        text(raw, at)
    } else if kind == 9 {
        if 0 <= at && at + 5 <= raw.len() {
            let count = be_i32(raw, at + 1);
            if count < 0 || count > raw.len() - (at + 5) || depth == 0 {
                Walk::Bad
            } else {
                items(raw, raw[at], at + 5, count as nat, (depth - 1) as nat)
            }
        } else {
            Walk::Short
        }
    } else if kind == 10 {
        if depth == 0 {
            Walk::Bad
        } else {
            entries(raw, at, (depth - 1) as nat)
        }
    } else if kind == 11 {
        array(raw, at, 4)
    } else if kind == 12 {
        array(raw, at, 8)
    } else {
        Walk::Short
    }
}

/// The walk over `count` values of one kind, one after the other.
pub open spec fn items(raw: Seq<u8>, kind: u8, at: int, count: nat, depth: nat) -> Walk
    decreases depth, 1nat, count,
{
    if count == 0 {
        fixed(raw, at, 0)
    } else {
        match payload(raw, kind, at, depth) {
            Walk::Next(next) => items(raw, kind, next as int, (count - 1) as nat, depth),
            other => other,
        }
    }
}

/// The walk over the entries of a compound: of each its kind, its name and
/// its value, and after the last of them a byte that is 0.
pub open spec fn entries(raw: Seq<u8>, at: int, depth: nat) -> Walk
    decreases depth, 1nat, raw.len() - at,
{
    if at < 0 || at >= raw.len() {
        Walk::Short
    } else if raw[at] == 0 {
        Walk::Next((at + 1) as usize)
    } else {
        match text(raw, at + 1) {
            Walk::Next(value_at) => match payload(raw, raw[at], value_at as int, depth) {
                Walk::Next(next) => if at < next <= raw.len() {
                    entries(raw, next as int, depth)
                } else {
                    Walk::Bad
                },
                other => other,
            },
            other => other,
        }
    }
}

/// The walk over NBT data: the kind of the root, which is a compound, its
/// name and its entries.
pub open spec fn root(raw: Seq<u8>) -> Walk {
    if raw.len() == 0 || raw[0] != 10 {
        Walk::Short
    } else {
        match text(raw, 1) {
            Walk::Next(at) => payload(raw, 10, at as int, MAX_DEPTH as nat),
            other => other,
        }
    }
}

/// Whether a parser can trust the length fields of the data: the walk over
/// the data meets no length field that asks for more than the data holds,
/// and no values that are nested deeper than `MAX_DEPTH`.
pub open spec fn frame_safe(raw: Seq<u8>) -> bool {
    !(root(raw) is Bad)
}

fn read_u16(raw: &[u8], at: usize) -> (value: usize)
    requires
        at + 2 <= raw.len(),
    ensures
        value == be_u16(raw@, at as int),
{
    (raw[at] as usize) * 256 + (raw[at + 1] as usize)
}

fn read_i32(raw: &[u8], at: usize) -> (value: i64)
    requires
        at + 4 <= raw.len(),
    ensures
        value == be_i32(raw@, at as int),
        -0x8000_0000 <= value < 0x8000_0000,
{
    let unsigned: i64 = (((raw[at] as i64) * 256 + (raw[at + 1] as i64)) * 256 + (raw[at
        + 2] as i64)) * 256 + (raw[at + 3] as i64);
    if raw[at] >= 128 {
        unsigned - 0x1_0000_0000
    } else {
        unsigned
    }
}

fn walk_fixed(raw: &[u8], at: usize, size: usize) -> (walk: Walk)
    requires
        at <= raw.len(),
    ensures
        walk == fixed(raw@, at as int, size as int),
        walk matches Walk::Next(next) ==> at <= next <= raw.len(),
{
    if size <= raw.len() - at {
        Walk::Next(at + size)
    } else {
        Walk::Short
    }
}

fn walk_text(raw: &[u8], at: usize) -> (walk: Walk)
    requires
        at <= raw.len(),
    ensures
        walk == text(raw@, at as int),
        walk matches Walk::Next(next) ==> at + 2 <= next <= raw.len(),
        !(walk is Bad),
{
    if raw.len() - at < 2 {
        return Walk::Short;
    }
    let len = read_u16(raw, at);
    walk_fixed(raw, at + 2, len)
}

fn walk_array(raw: &[u8], at: usize, size: usize) -> (walk: Walk)
    requires
        at <= raw.len(),
        1 <= size <= 8,
    ensures
        walk == array(raw@, at as int, size as int),
        walk matches Walk::Next(next) ==> at + 4 <= next <= raw.len(),
{
    if raw.len() - at < 4 {
        return Walk::Short;
    }
    let count = read_i32(raw, at);
    if count < 0 {
        return Walk::Bad;
    }
    let left = raw.len() - (at + 4);
    assert(count * size <= 0x8000_0000 * 8) by (nonlinear_arith)
        requires
            0 <= count < 0x8000_0000,
            1 <= size <= 8,
    ;
    let bytes: u64 = (count as u64) * (size as u64);
    if bytes > left as u64 {
        return Walk::Bad;
    }
    Walk::Next(at + 4 + bytes as usize)
}

/// Walks over the value of a kind at `at`.
fn walk_payload(raw: &[u8], kind: u8, at: usize, depth: usize) -> (walk: Walk)
    requires
        at <= raw.len(),
    ensures
        walk == payload(raw@, kind, at as int, depth as nat),
        walk matches Walk::Next(next) ==> at <= next <= raw.len(),
    decreases depth,
{
    if kind == 1 {
        walk_fixed(raw, at, 1)
    } else if kind == 2 {
        walk_fixed(raw, at, 2)
    } else if kind == 3 || kind == 5 {
        walk_fixed(raw, at, 4)
    } else if kind == 4 || kind == 6 {
        walk_fixed(raw, at, 8)
    } else if kind == 7 {
        walk_array(raw, at, 1)
    } else if kind == 8 {
        walk_text(raw, at)
    } else if kind == 9 {
        if raw.len() - at < 5 {
            return Walk::Short;
        }
        let item_kind = raw[at];
        let count = read_i32(raw, at + 1);
        if count < 0 || count as u64 > (raw.len() - (at + 5)) as u64 || depth == 0 {
            return Walk::Bad;
        }
        let mut left: usize = count as usize;
        let mut here: usize = at + 5;
        while left > 0
            invariant
                at <= here <= raw.len(),
                depth > 0,
                payload(raw@, kind, at as int, depth as nat) == items(
                    raw@,
                    item_kind,
                    here as int,
                    left as nat,
                    (depth - 1) as nat,
                ),
            decreases left,
        {
            match walk_payload(raw, item_kind, here, depth - 1) {
                Walk::Next(next) => {
                    here = next;
                },
                Walk::Short => {
                    return Walk::Short;
                },
                Walk::Bad => {
                    return Walk::Bad;
                },
            }
            left -= 1;
        }
        Walk::Next(here)
    } else if kind == 10 {
        if depth == 0 {
            return Walk::Bad;
        }
        let mut here: usize = at;
        loop
            invariant
                at <= here <= raw.len(),
                depth > 0,
                kind == 10,
                payload(raw@, kind, at as int, depth as nat) == entries(
                    raw@,
                    here as int,
                    (depth - 1) as nat,
                ),
            decreases raw.len() - here,
        {
            if here >= raw.len() {
                return Walk::Short;
            }
            let entry_kind = raw[here];
            if entry_kind == 0 {
                return Walk::Next(here + 1);
            }
            let value_at = match walk_text(raw, here + 1) {
                Walk::Next(value_at) => value_at,
                Walk::Short => {
                    return Walk::Short;
                },
                Walk::Bad => {
                    return Walk::Bad;
                },
            };
            match walk_payload(raw, entry_kind, value_at, depth - 1) {
                Walk::Next(next) => {
                    here = next;
                },
                Walk::Short => {
                    return Walk::Short;
                },
                Walk::Bad => {
                    return Walk::Bad;
                },
            }
        }
    } else if kind == 11 {
        walk_array(raw, at, 4)
    } else if kind == 12 {
        walk_array(raw, at, 8)
    } else {
        Walk::Short
    }
}

/// Tells whether a parser can trust the length fields of the data.
pub fn check_frame(raw: &[u8]) -> (safe: bool)
    ensures
        safe == frame_safe(raw@),
{
    if raw.len() == 0 || raw[0] != 10 {
        return true;
    }
    match walk_text(raw, 1) {
        Walk::Next(at) => match walk_payload(raw, 10, at, MAX_DEPTH) {
            Walk::Bad => false,
            _ => true,
        },
        _ => true,
    }
}

} // verus!
