//! The variable-length integers of a block data array.
//!
//! A value is written as groups of seven bits, the lowest group first. Every
//! byte but the last of a value has its high bit set. A value takes at most
//! five bytes.

use vstd::prelude::*;

verus! {

/// The bytes of one value: seven bits a byte, lowest first, the high bit set
/// on every byte that another one follows.
pub open spec fn varint(value: nat) -> Seq<u8>
    decreases value,
{
    if value < 128 {
        seq![value as u8]
    } else {
        seq![(128 + value % 128) as u8] + varint(value / 128)
    }
}

/// 128 to the power of `groups`: the first value that needs one more group.
pub open spec fn radix(groups: nat) -> nat
    decreases groups,
{
    if groups == 0 {
        1
    } else {
        128 * radix((groups - 1) as nat)
    }
}

/// The groups of one value read at `at`, of which there are at most `room`:
/// the number they spell and the index after the last of them. `None` where
/// the bytes end, or `room` is used up, before a byte without the high bit.
pub open spec fn read_groups(bytes: Seq<u8>, at: int, room: nat) -> Option<(nat, int)>
    decreases room,
{
    if room == 0 || at < 0 || at >= bytes.len() {
        None
    } else if bytes[at] < 128 {
        Some((bytes[at] as nat, at + 1))
    } else {
        match read_groups(bytes, at + 1, (room - 1) as nat) {
            Some((rest, next)) => Some(((bytes[at] - 128) as nat + 128 * rest, next)),
            None => None,
        }
    }
}

/// The value read at `at` and the index after it. Of a value that takes five
/// bytes the low 32 bits are kept.
pub open spec fn decoded(bytes: Seq<u8>, at: int) -> Option<(u32, int)> {
    match read_groups(bytes, at, 5) {
        Some((value, next)) => Some(((value % 0x1_0000_0000) as u32, next)),
        None => None,
    }
}

/// The bytes of a run of values, one after the other.
pub open spec fn encoded_run(values: Seq<u32>) -> Seq<u8>
    decreases values.len(),
{
    if values.len() == 0 {
        Seq::empty()
    } else {
        varint(values[0] as nat) + encoded_run(values.drop_first())
    }
}

/// `count` values read one after the other from `at`. `None` where one of
/// them cannot be read.
pub open spec fn decoded_run(bytes: Seq<u8>, at: int, count: nat) -> Option<Seq<u32>>
    decreases count,
{
    if count == 0 {
        Some(Seq::empty())
    } else {
        match decoded(bytes, at) {
            Some((value, next)) => match decoded_run(bytes, next, (count - 1) as nat) {
                Some(rest) => Some(seq![value] + rest),
                None => None,
            },
            None => None,
        }
    }
}

/// Appends the bytes of `value` to `out`.
pub fn write_varint(value: u32, out: &mut Vec<u8>)
    ensures
        final(out)@ == old(out)@ + varint(value as nat),
{
    let mut rest: u32 = value;
    while rest >= 128
        invariant
            old(out)@ + varint(value as nat) == out@ + varint(rest as nat),
        decreases rest,
    {
        let byte: u8 = (128 + rest % 128) as u8;
        assert(out@.push(byte) + varint((rest / 128) as nat) =~= out@ + varint(rest as nat));
        out.push(byte);
        rest = rest / 128;
    }
    assert(out@.push(rest as u8) =~= out@ + varint(rest as nat));
    out.push(rest as u8);
}

/// The bytes of a run of values.
pub fn write_run(values: &Vec<u32>) -> (bytes: Vec<u8>)
    ensures
        bytes@ == encoded_run(values@),
{
    let mut bytes: Vec<u8> = Vec::new();
    let mut i: usize = 0;
    while i < values.len()
        invariant
            i <= values.len(),
            bytes@ == encoded_run(values@.take(i as int)),
        decreases values.len() - i,
    {
        proof {
            lemma_encoded_run_push(values@.take(i as int), values[i as int]);
            assert(values@.take(i as int).push(values[i as int]) =~= values@.take(i + 1));
        }
        write_varint(values[i], &mut bytes);
        i += 1;
    }
    assert(values@.take(i as int) =~= values@);
    bytes
}

/// Reads one value at `at`: the value and the index after it.
pub fn read_varint(bytes: &Vec<u8>, at: usize) -> (read: Option<(u32, usize)>)
    ensures
        match read {
            Some((value, next)) => decoded(bytes@, at as int) == Some((value, next as int)),
            None => decoded(bytes@, at as int) is None,
        },
{
    let mut sum: u64 = 0;
    let mut unit: u64 = 1;
    let mut i: usize = at;
    let mut groups: usize = 0;
    while groups < 5
        invariant
            groups <= 5,
            i == at + groups,
            unit == radix(groups as nat),
            sum < unit,
            unit <= 0x8_0000_0000,
            match read_groups(bytes@, i as int, (5 - groups) as nat) {
                Some((rest, next)) => read_groups(bytes@, at as int, 5) == Some(
                    ((sum + unit * rest) as nat, next),
                ),
                None => read_groups(bytes@, at as int, 5) is None,
            },
        decreases 5 - groups,
    {
        if i >= bytes.len() {
            return None;
        }
        let byte = bytes[i];
        proof {
            reveal_with_fuel(radix, 6);
            assert(unit <= 0x1000_0000);
            assert(unit * byte <= 0x1000_0000 * 255) by (nonlinear_arith)
                requires
                    unit <= 0x1000_0000,
                    byte <= 255,
            ;
        }
        if byte < 128 {
            let total: u64 = sum + unit * (byte as u64);
            return Some(((total % 0x1_0000_0000) as u32, i + 1));
        }
        let low: u64 = (byte - 128) as u64;
        proof {
            let tail = read_groups(bytes@, i + 1, (5 - groups - 1) as nat);
            if let Some((rest, next)) = tail {
                assert(sum + unit * (low + 128 * rest) == (sum + unit * low) + (unit * 128) * rest)
                    by (nonlinear_arith);
            }
            assert(sum + unit * low < unit * 128) by (nonlinear_arith)
                requires
                    sum < unit,
                    low < 128,
            ;
        }
        sum = sum + unit * low;
        unit = unit * 128;
        i += 1;
        groups += 1;
    }
    None
}

/// Reads `count` values one after the other from the start of `bytes`.
pub fn read_run(bytes: &Vec<u8>, count: usize) -> (values: Option<Vec<u32>>)
    ensures
        match values {
            Some(values) => decoded_run(bytes@, 0, count as nat) == Some(values@),
            None => decoded_run(bytes@, 0, count as nat) is None,
        },
{
    let mut values: Vec<u32> = Vec::new();
    let mut at: usize = 0;
    while values.len() < count
        invariant
            values.len() <= count,
            match decoded_run(bytes@, at as int, (count - values.len()) as nat) {
                Some(rest) => decoded_run(bytes@, 0, count as nat) == Some(values@ + rest),
                None => decoded_run(bytes@, 0, count as nat) is None,
            },
        decreases count - values.len(),
    {
        match read_varint(bytes, at) {
            Some((value, next)) => {
                proof {
                    let tail = decoded_run(bytes@, next as int, (count - values.len() - 1) as nat);
                    if let Some(rest) = tail {
                        assert(values@.push(value) + rest =~= values@ + (seq![value] + rest));
                    }
                }
                values.push(value);
                at = next;
            },
            None => {
                return None;
            },
        }
    }
    assert(values@ + Seq::<u32>::empty() =~= values@);
    Some(values)
}

/// The bytes of a run with one more value are the bytes of the run and then
/// the bytes of that value.
pub proof fn lemma_encoded_run_push(values: Seq<u32>, value: u32)
    ensures
        encoded_run(values.push(value)) == encoded_run(values) + varint(value as nat),
    decreases values.len(),
{
    if values.len() == 0 {
        assert(values.push(value).drop_first() =~= Seq::<u32>::empty());
        assert(encoded_run(values.push(value)) =~= varint(value as nat) + encoded_run(
            Seq::<u32>::empty(),
        ));
        assert(encoded_run(values) + varint(value as nat) =~= varint(value as nat));
    } else {
        let rest = values.drop_first();
        lemma_encoded_run_push(rest, value);
        assert(values.push(value).drop_first() =~= rest.push(value));
        assert(encoded_run(values.push(value)) =~= encoded_run(values) + varint(value as nat));
    }
}

/// More groups reach further.
pub proof fn lemma_radix_grows(fewer: nat, more: nat)
    requires
        fewer <= more,
    ensures
        1 <= radix(fewer) <= radix(more),
    decreases more,
{
    if fewer < more {
        lemma_radix_grows(fewer, (more - 1) as nat);
    } else if more > 0 {
        lemma_radix_grows((fewer - 1) as nat, (more - 1) as nat);
    }
}

/// How long the bytes of a value are: as many groups as the value needs, and
/// not one more.
pub proof fn lemma_varint_len(value: nat)
    ensures
        varint(value).len() >= 1,
        value < radix(varint(value).len()),
        varint(value).len() > 1 ==> value >= radix((varint(value).len() - 1) as nat),
        value < 0x1_0000_0000 ==> varint(value).len() <= 5,
    decreases value,
{
    reveal_with_fuel(radix, 6);
    if value >= 128 {
        lemma_varint_len(value / 128);
        let shorter = varint(value / 128).len();
        assert(varint(value).len() == shorter + 1);
        assert(radix(shorter + 1) == 128 * radix(shorter));
        if shorter > 1 {
            assert(radix(shorter) == 128 * radix((shorter - 1) as nat));
        }
        if value < 0x1_0000_0000 && shorter + 1 > 5 {
            lemma_radix_grows(5, shorter);
        }
    }
}

/// Groups that are read spell a number below the radix of their count.
pub proof fn lemma_read_groups_bound(bytes: Seq<u8>, at: int, room: nat)
    ensures
        match read_groups(bytes, at, room) {
            Some((value, next)) => at < next <= at + room && next <= bytes.len() && value < radix(
                (next - at) as nat,
            ),
            None => true,
        },
    decreases room,
{
    reveal_with_fuel(radix, 2);
    if room > 0 && 0 <= at < bytes.len() && bytes[at] >= 128 {
        lemma_read_groups_bound(bytes, at + 1, (room - 1) as nat);
        match read_groups(bytes, at + 1, (room - 1) as nat) {
            Some((rest, next)) => {
                assert(radix((next - at) as nat) == 128 * radix((next - at - 1) as nat));
            },
            None => {},
        }
    }
}

/// The bytes of a value, wherever they stand, are read as that value.
pub proof fn lemma_read_written(bytes: Seq<u8>, at: int, value: nat, room: nat)
    requires
        0 <= at,
        at + varint(value).len() <= bytes.len(),
        bytes.subrange(at, at + varint(value).len()) == varint(value),
        varint(value).len() <= room,
    ensures
        read_groups(bytes, at, room) == Some((value, at + varint(value).len())),
    decreases value,
{
    let written = varint(value);
    assert(bytes[at] == bytes.subrange(at, at + written.len())[0]);
    if value >= 128 {
        let shorter = varint(value / 128);
        assert(written.len() == shorter.len() + 1);
        assert(bytes.subrange(at + 1, at + 1 + shorter.len()) =~= written.subrange(
            1,
            written.len() as int,
        ));
        assert(written.subrange(1, written.len() as int) =~= shorter);
        lemma_read_written(bytes, at + 1, value / 128, (room - 1) as nat);
    }
}

/// A run that can be read has a byte for each of its values.
pub proof fn lemma_decoded_run_len(bytes: Seq<u8>, at: int, count: nat)
    requires
        decoded_run(bytes, at, count) is Some,
    ensures
        decoded_run(bytes, at, count)->Some_0.len() == count,
        count > 0 ==> 0 <= at && at + count <= bytes.len(),
    decreases count,
{
    if count > 0 {
        lemma_read_groups_bound(bytes, at, 5);
        let (value, next) = decoded(bytes, at).unwrap();
        lemma_decoded_run_len(bytes, next, (count - 1) as nat);
    }
}

/// A value that is written and then read is the same value, read from the
/// very bytes that were written; there are at most five of them, and no
/// reading of fewer bytes gives the value.
pub proof fn lemma_varint_round_trip(value: u32, before: Seq<u8>, after: Seq<u8>)
    ensures
        decoded(before + varint(value as nat) + after, before.len() as int) == Some(
            (value, (before.len() + varint(value as nat).len()) as int),
        ),
        1 <= varint(value as nat).len() <= 5,
        forall|bytes: Seq<u8>, at: int, next: int|
            decoded(bytes, at) == Some((value, next)) ==> next - at >= varint(value as nat).len(),
{
    let written = varint(value as nat);
    let bytes = before + written + after;
    lemma_varint_len(value as nat);
    assert(bytes.subrange(before.len() as int, (before.len() + written.len()) as int) =~= written);
    lemma_read_written(bytes, before.len() as int, value as nat, 5);
    assert forall|bytes: Seq<u8>, at: int, next: int|
        decoded(bytes, at) == Some((value, next)) implies next - at >= written.len() by {
        lemma_read_groups_bound(bytes, at, 5);
        let (spelled, end) = read_groups(bytes, at, 5).unwrap();
        assert(end == next);
        if next - at < written.len() {
            reveal_with_fuel(radix, 6);
            lemma_radix_grows((next - at) as nat, 4);
            assert(spelled == value);
            lemma_radix_grows((next - at) as nat, (written.len() - 1) as nat);
        }
    }
}

/// A run of values that is written and then read is the same run.
pub proof fn lemma_run_round_trip(values: Seq<u32>, before: Seq<u8>, after: Seq<u8>)
    ensures
        decoded_run(
            before + encoded_run(values) + after,
            before.len() as int,
            values.len(),
        ) == Some(values),
    decreases values.len(),
{
    let bytes = before + encoded_run(values) + after;
    if values.len() == 0 {
        assert(decoded_run(bytes, before.len() as int, 0) == Some(Seq::<u32>::empty()));
        assert(values =~= Seq::<u32>::empty());
    } else {
        let first = varint(values[0] as nat);
        let rest = values.drop_first();
        lemma_varint_round_trip(values[0], before, encoded_run(rest) + after);
        assert(bytes =~= before + first + (encoded_run(rest) + after));
        lemma_run_round_trip(rest, before + first, after);
        assert(bytes =~= (before + first) + encoded_run(rest) + after);
        assert(seq![values[0]] + rest =~= values);
    }
}

} // verus!
