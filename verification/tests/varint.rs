use mc_schems::varint::{read_run, read_varint, write_run, write_varint};

fn written(value: u32) -> Vec<u8> {
    let mut out = Vec::new();
    write_varint(value, &mut out);
    out
}

#[test]
fn small_values_take_one_byte() {
    assert_eq!(written(0), vec![0x00]);
    assert_eq!(written(1), vec![0x01]);
    assert_eq!(written(127), vec![0x7f]);
}

#[test]
fn larger_values_set_the_continuation_bit() {
    assert_eq!(written(128), vec![0x80, 0x01]);
    assert_eq!(written(300), vec![0xac, 0x02]);
    assert_eq!(written(16383), vec![0xff, 0x7f]);
    assert_eq!(written(16384), vec![0x80, 0x80, 0x01]);
    assert_eq!(written(2097151), vec![0xff, 0xff, 0x7f]);
    assert_eq!(written(2097152), vec![0x80, 0x80, 0x80, 0x01]);
    assert_eq!(written(268435455), vec![0xff, 0xff, 0xff, 0x7f]);
    assert_eq!(written(268435456), vec![0x80, 0x80, 0x80, 0x80, 0x01]);
    assert_eq!(written(u32::MAX), vec![0xff, 0xff, 0xff, 0xff, 0x0f]);
}

#[test]
fn write_varint_appends() {
    let mut out = vec![9, 9];
    write_varint(300, &mut out);
    assert_eq!(out, vec![9, 9, 0xac, 0x02]);
}

#[test]
fn every_written_value_is_read_back() {
    let values = [
        0,
        1,
        127,
        128,
        255,
        300,
        16383,
        16384,
        2097151,
        2097152,
        268435455,
        268435456,
        0x7fff_ffff,
        0x8000_0000,
        u32::MAX,
    ];
    for value in values {
        let bytes = written(value);
        assert!(bytes.len() <= 5);
        assert_eq!(read_varint(&bytes, 0), Some((value, bytes.len())));
    }
}

#[test]
fn read_varint_reads_at_a_position() {
    let bytes = vec![0x05, 0xac, 0x02, 0x07];
    assert_eq!(read_varint(&bytes, 0), Some((5, 1)));
    assert_eq!(read_varint(&bytes, 1), Some((300, 3)));
    assert_eq!(read_varint(&bytes, 3), Some((7, 4)));
    assert_eq!(read_varint(&bytes, 4), None);
}

#[test]
fn a_value_that_is_cut_off_is_not_read() {
    assert_eq!(read_varint(&vec![], 0), None);
    assert_eq!(read_varint(&vec![0x80], 0), None);
    assert_eq!(read_varint(&vec![0xff, 0xff], 0), None);
}

#[test]
fn a_value_of_more_than_five_bytes_is_not_read() {
    assert_eq!(read_varint(&vec![0x80, 0x80, 0x80, 0x80, 0x80, 0x01], 0), None);
    assert_eq!(read_varint(&vec![0xff, 0xff, 0xff, 0xff, 0xff], 0), None);
}

#[test]
fn the_fifth_byte_keeps_its_low_four_bits() {
    assert_eq!(
        read_varint(&vec![0x80, 0x80, 0x80, 0x80, 0x7f], 0),
        Some((0xf000_0000, 5))
    );
    assert_eq!(
        read_varint(&vec![0x81, 0x80, 0x80, 0x80, 0x10], 0),
        Some((1, 5))
    );
}

#[test]
fn superfluous_continuation_bytes_are_read_but_never_written() {
    assert_eq!(read_varint(&vec![0x81, 0x00], 0), Some((1, 2)));
    assert_eq!(written(1), vec![0x01]);
}

#[test]
fn runs_are_written_and_read_back() {
    let values = vec![0, 1, 300, 127, 128, u32::MAX, 2];
    let bytes = write_run(&values);
    assert_eq!(
        bytes,
        vec![0x00, 0x01, 0xac, 0x02, 0x7f, 0x80, 0x01, 0xff, 0xff, 0xff, 0xff, 0x0f, 0x02]
    );
    assert_eq!(read_run(&bytes, values.len()), Some(values.clone()));
    assert_eq!(read_run(&bytes, 3), Some(vec![0, 1, 300]));
    assert_eq!(read_run(&bytes, 0), Some(vec![]));
    assert_eq!(read_run(&bytes, values.len() + 1), None);
}

#[test]
fn an_empty_run_has_no_bytes() {
    assert_eq!(write_run(&vec![]), Vec::<u8>::new());
    assert_eq!(read_run(&vec![], 0), Some(vec![]));
    assert_eq!(read_run(&vec![], 1), None);
}
