use ttf_loader::error::FontError;
use ttf_loader::glyph::{count_points, read_coordinates, read_flags, Axis};

#[test]
fn flags_without_repeat_stand_for_one_point_each() {
    let buffer: Vec<u8> = vec![0x01, 0x00, 0x37, 0x21, 0xff];
    assert_eq!(read_flags(&buffer, 0, 4), Ok((vec![0x01, 0x00, 0x37, 0x21], 4)));
    assert_eq!(read_flags(&buffer, 1, 2), Ok((vec![0x00, 0x37], 3)));
}

#[test]
fn no_flag_is_read_for_no_point() {
    let buffer: Vec<u8> = vec![];
    assert_eq!(read_flags(&buffer, 0, 0), Ok((vec![], 0)));
    assert_eq!(read_flags(&buffer, 9, 0), Ok((vec![], 9)));
}

#[test]
fn repeat_count_of_r_gives_r_plus_one_points() {
    // 0x09: on-curve with the repeat bit; the count 3 stands for 4 points.
    let buffer: Vec<u8> = vec![0x09, 3, 0x00];
    assert_eq!(read_flags(&buffer, 0, 5), Ok((vec![0x09, 0x09, 0x09, 0x09, 0x00], 3)));
    assert_eq!(read_flags(&buffer, 0, 4), Ok((vec![0x09, 0x09, 0x09, 0x09], 2)));
}

#[test]
fn repeat_count_of_zero_gives_one_point() {
    let buffer: Vec<u8> = vec![0x08, 0, 0x01];
    assert_eq!(read_flags(&buffer, 0, 2), Ok((vec![0x08, 0x01], 3)));
}

#[test]
fn largest_repeat_count_gives_256_points() {
    let buffer: Vec<u8> = vec![0x29, 255, 0x01];
    let (flags, end) = read_flags(&buffer, 0, 257).unwrap();
    assert_eq!(end, 3);
    assert_eq!(flags.len(), 257);
    assert!(flags[..256].iter().all(|flag| *flag == 0x29));
    assert_eq!(flags[256], 0x01);
}

#[test]
fn run_is_cut_off_at_the_point_count() {
    let buffer: Vec<u8> = vec![0x01, 0x09, 10, 0x77];
    assert_eq!(read_flags(&buffer, 0, 3), Ok((vec![0x01, 0x09, 0x09], 3)));
}

#[test]
fn flags_past_the_end_are_an_overrun() {
    let buffer: Vec<u8> = vec![0x01, 0x01];
    assert_eq!(
        read_flags(&buffer, 0, 3),
        Err(FontError::BufferOverrun { offset: 2, width: 1, buffer_len: 2 })
    );
    let buffer: Vec<u8> = vec![0x01, 0x08];
    assert_eq!(
        read_flags(&buffer, 0, 3),
        Err(FontError::BufferOverrun { offset: 2, width: 1, buffer_len: 2 })
    );
    assert_eq!(
        read_flags(&buffer, 40, 1),
        Err(FontError::BufferOverrun { offset: 40, width: 1, buffer_len: 2 })
    );
}

#[test]
fn short_deltas_take_their_sign_from_the_flag() {
    // x: short positive 5, short negative 7, short positive 1.
    let flags: Vec<u8> = vec![0x12, 0x02, 0x12];
    let buffer: Vec<u8> = vec![5, 7, 1];
    assert_eq!(read_coordinates(&buffer, &flags, 0, Axis::X), Ok((vec![5, -2, -1], 3)));
    // y: the same with the bits of the vertical axis.
    let flags: Vec<u8> = vec![0x24, 0x04, 0x24];
    assert_eq!(read_coordinates(&buffer, &flags, 0, Axis::Y), Ok((vec![5, -2, -1], 3)));
}

#[test]
fn long_deltas_are_signed_sixteen_bit_values() {
    let flags: Vec<u8> = vec![0x00, 0x00, 0x00];
    let buffer: Vec<u8> = vec![0x01, 0x2c, 0xff, 0x9c, 0x80, 0x00];
    assert_eq!(
        read_coordinates(&buffer, &flags, 0, Axis::X),
        Ok((vec![300, 200, 200 - 32768], 6))
    );
    assert_eq!(
        read_coordinates(&buffer, &flags, 0, Axis::Y),
        Ok((vec![300, 200, 200 - 32768], 6))
    );
}

#[test]
fn same_bit_without_short_bit_repeats_the_coordinate() {
    // x: long 300, same, same, short +4, same.
    let flags: Vec<u8> = vec![0x00, 0x10, 0x10, 0x12, 0x10];
    let buffer: Vec<u8> = vec![0x01, 0x2c, 4];
    assert_eq!(
        read_coordinates(&buffer, &flags, 0, Axis::X),
        Ok((vec![300, 300, 300, 304, 304], 3))
    );
    // Nothing is read where every delta is absent.
    let flags: Vec<u8> = vec![0x10, 0x10];
    let empty: Vec<u8> = vec![];
    assert_eq!(read_coordinates(&empty, &flags, 5, Axis::X), Ok((vec![0, 0], 5)));
}

#[test]
fn each_axis_reads_its_own_bits() {
    // x short positive, y absent; then x absent, y long.
    let flags: Vec<u8> = vec![0x32, 0x10];
    let buffer: Vec<u8> = vec![9, 0xff, 0xfe];
    assert_eq!(read_coordinates(&buffer, &flags, 0, Axis::X), Ok((vec![9, 9], 1)));
    assert_eq!(read_coordinates(&buffer, &flags, 1, Axis::Y), Ok((vec![0, -2], 3)));
}

#[test]
fn deltas_past_the_end_are_an_overrun() {
    let flags: Vec<u8> = vec![0x12, 0x00, 0x12];
    let buffer: Vec<u8> = vec![5, 0x00];
    assert_eq!(
        read_coordinates(&buffer, &flags, 0, Axis::X),
        Err(FontError::BufferOverrun { offset: 1, width: 2, buffer_len: 2 })
    );
    let buffer: Vec<u8> = vec![5, 0x00, 0x01];
    assert_eq!(
        read_coordinates(&buffer, &flags, 0, Axis::X),
        Err(FontError::BufferOverrun { offset: 3, width: 1, buffer_len: 3 })
    );
}

#[test]
fn point_count_is_one_more_than_the_greatest_end() {
    assert_eq!(count_points(&vec![]), 0);
    assert_eq!(count_points(&vec![3]), 4);
    assert_eq!(count_points(&vec![3, 7, 11]), 12);
    assert_eq!(count_points(&vec![9, 2, 5]), 10);
    assert_eq!(count_points(&vec![0]), 1);
    assert_eq!(count_points(&vec![65535]), 65536);
}
