use std::collections::HashMap;
use ttf_loader::cmap::{
    decode_cmap, decode_subtable, read_records, select_subtable, wrapping_index, EncodingRecord,
};
use ttf_loader::error::FontError;

fn push_u16(buffer: &mut Vec<u8>, value: u16) {
    buffer.push((value >> 8) as u8);
    buffer.push((value & 0xff) as u8);
}

fn push_u32(buffer: &mut Vec<u8>, value: u32) {
    push_u16(buffer, (value >> 16) as u16);
    push_u16(buffer, (value & 0xffff) as u16);
}

/// A format-4 subtable with these segments `(start, end, delta, range
/// offset)` and, behind them, these glyph indices.
fn format4(segments: &[(u16, u16, i16, u16)], glyph_indices: &[u16]) -> Vec<u8> {
    let mut buffer: Vec<u8> = Vec::new();
    push_u16(&mut buffer, 4);
    push_u16(&mut buffer, (16 + 8 * segments.len() + 2 * glyph_indices.len()) as u16);
    push_u16(&mut buffer, 0);
    push_u16(&mut buffer, 2 * segments.len() as u16);
    push_u16(&mut buffer, 0);
    push_u16(&mut buffer, 0);
    push_u16(&mut buffer, 0);
    for segment in segments {
        push_u16(&mut buffer, segment.1);
    }
    push_u16(&mut buffer, 0);
    for segment in segments {
        push_u16(&mut buffer, segment.0);
    }
    for segment in segments {
        push_u16(&mut buffer, segment.2 as u16);
    }
    for segment in segments {
        push_u16(&mut buffer, segment.3);
    }
    for index in glyph_indices {
        push_u16(&mut buffer, *index);
    }
    buffer
}

/// A character map with these records `(platform, encoding)`, each
/// followed in order by its subtable.
fn cmap(subtables: &[(u16, u16, Vec<u8>)]) -> Vec<u8> {
    let mut buffer: Vec<u8> = Vec::new();
    push_u16(&mut buffer, 0);
    push_u16(&mut buffer, subtables.len() as u16);
    let mut offset = 4 + 8 * subtables.len();
    for (platform, encoding, subtable) in subtables {
        push_u16(&mut buffer, *platform);
        push_u16(&mut buffer, *encoding);
        push_u32(&mut buffer, offset as u32);
        offset += subtable.len();
    }
    for (_, _, subtable) in subtables {
        buffer.extend_from_slice(subtable);
    }
    buffer
}

fn record(platform_id: u16, platform_specific_id: u16, cmap_offset: u32) -> EncodingRecord {
    EncodingRecord { platform_id, platform_specific_id, cmap_offset }
}

fn map_of(pairs: &[(u16, u16)]) -> HashMap<u16, u16> {
    pairs.iter().copied().collect()
}

#[test]
fn windows_unicode_subtable_is_preferred() {
    assert_eq!(select_subtable(&vec![record(3, 1, 100), record(0, 3, 200)]), Some(100));
    assert_eq!(select_subtable(&vec![record(0, 3, 200), record(3, 1, 100)]), Some(100));
    assert_eq!(
        select_subtable(&vec![
            record(1, 0, 50),
            record(0, 3, 200),
            record(3, 1, 100),
            record(3, 10, 7),
        ]),
        Some(100)
    );
}

#[test]
fn unicode_subtable_is_taken_without_a_windows_one() {
    assert_eq!(select_subtable(&vec![record(0, 3, 200)]), Some(200));
    assert_eq!(
        select_subtable(&vec![record(1, 0, 50), record(0, 3, 200), record(3, 0, 9)]),
        Some(200)
    );
}

#[test]
fn no_unicode_subtable_is_none() {
    assert_eq!(select_subtable(&vec![]), None);
    assert_eq!(
        select_subtable(&vec![
            record(1, 0, 50),
            record(3, 0, 9),
            record(0, 4, 1),
            record(3, 10, 2),
        ]),
        None
    );
}

#[test]
fn last_of_several_subtables_of_one_kind_is_taken() {
    assert_eq!(select_subtable(&vec![record(3, 1, 10), record(3, 1, 20)]), Some(20));
    assert_eq!(select_subtable(&vec![record(0, 3, 10), record(0, 3, 20)]), Some(20));
    assert_eq!(select_subtable(&vec![record(3, 1, 0xffff_ffff)]), Some(0xffff_ffff));
}

#[test]
fn records_are_read_behind_the_header() {
    let buffer = cmap(&[(0, 3, vec![1, 2, 3]), (3, 1, vec![4])]);
    assert_eq!(read_records(&buffer, 0), Ok(vec![record(0, 3, 20), record(3, 1, 23)]));
    let mut shifted: Vec<u8> = vec![0x55; 5];
    shifted.extend_from_slice(&buffer);
    assert_eq!(read_records(&shifted, 5), Ok(vec![record(0, 3, 20), record(3, 1, 23)]));
}

#[test]
fn truncated_records_name_the_field_that_is_missing() {
    let mut buffer = cmap(&[(0, 3, vec![]), (3, 1, vec![])]);
    assert_eq!(buffer.len(), 20);
    buffer.truncate(19);
    assert_eq!(
        read_records(&buffer, 0),
        Err(FontError::BufferOverrun { offset: 16, width: 4, buffer_len: 19 })
    );
    buffer.truncate(15);
    assert_eq!(
        read_records(&buffer, 0),
        Err(FontError::BufferOverrun { offset: 14, width: 2, buffer_len: 15 })
    );
    buffer.truncate(12);
    assert_eq!(
        read_records(&buffer, 0),
        Err(FontError::BufferOverrun { offset: 12, width: 2, buffer_len: 12 })
    );
    buffer.truncate(3);
    assert_eq!(
        read_records(&buffer, 0),
        Err(FontError::BufferOverrun { offset: 2, width: 2, buffer_len: 3 })
    );
}

#[test]
fn one_segment_maps_its_range_and_nothing_else() {
    let buffer = format4(&[(65, 67, 0, 0)], &[]);
    let map = decode_subtable(&buffer, 0, 0).unwrap();
    assert_eq!(map.get(&65), Some(&65));
    assert_eq!(map.get(&66), Some(&66));
    assert_eq!(map.get(&67), Some(&67));
    assert_eq!(map.get(&68), None);
    assert_eq!(map.get(&64), None);
    assert_eq!(map.len(), 3);
}

#[test]
fn delta_is_added_modulo_65536() {
    let buffer = format4(
        &[(10, 12, 5, 0), (100, 101, -100, 0), (200, 201, -201, 0), (65535, 65535, 1, 0)],
        &[],
    );
    assert_eq!(
        decode_subtable(&buffer, 0, 0),
        Ok(map_of(&[
            (10, 15),
            (11, 16),
            (12, 17),
            (100, 0),
            (101, 1),
            (200, 65535),
            (201, 0),
            (65535, 0),
        ]))
    );
    assert_eq!(wrapping_index(65535, 32767), 32766);
    assert_eq!(wrapping_index(0, -32768), 32768);
    assert_eq!(wrapping_index(40000, -32768), 7232);
    assert_eq!(wrapping_index(7, 0), 7);
}

#[test]
fn range_offset_leads_to_the_glyph_index_array() {
    // One segment: its range offset of 2 leads to the first glyph index.
    let buffer = format4(&[(10, 12, 5, 2)], &[7, 0, 65535]);
    assert_eq!(decode_subtable(&buffer, 0, 0), Ok(map_of(&[(10, 12), (11, 0), (12, 4)])));
}

#[test]
fn raw_glyph_index_of_zero_stays_zero_whatever_the_delta() {
    let buffer = format4(&[(1, 3, 1234, 2)], &[0, 0, 0]);
    assert_eq!(decode_subtable(&buffer, 0, 0), Ok(map_of(&[(1, 0), (2, 0), (3, 0)])));
    let buffer = format4(&[(1, 3, -1, 2)], &[0, 1, 0]);
    assert_eq!(decode_subtable(&buffer, 0, 0), Ok(map_of(&[(1, 0), (2, 0), (3, 0)])));
}

#[test]
fn range_offset_counts_from_the_entry_of_its_segment() {
    // Two segments; the second one's entry lies two bytes behind the
    // first one's, so its offset of 2 leads to the first glyph index too.
    let buffer = format4(&[(20, 21, 0, 4), (30, 31, 1, 2)], &[100, 200]);
    assert_eq!(
        decode_subtable(&buffer, 0, 0),
        Ok(map_of(&[(20, 100), (21, 200), (30, 101), (31, 201)]))
    );
}

#[test]
fn later_segment_overrides_an_earlier_one() {
    let buffer = format4(&[(10, 12, 0, 0), (12, 13, 100, 0)], &[]);
    assert_eq!(
        decode_subtable(&buffer, 0, 0),
        Ok(map_of(&[(10, 10), (11, 11), (12, 112), (13, 113)]))
    );
}

#[test]
fn segment_that_ends_before_it_starts_maps_nothing() {
    let buffer = format4(&[(12, 10, 0, 0), (50, 49, 0, 2)], &[]);
    assert_eq!(decode_subtable(&buffer, 0, 0), Ok(HashMap::new()));
}

#[test]
fn subtable_without_segments_maps_nothing() {
    let buffer = format4(&[], &[]);
    assert_eq!(decode_subtable(&buffer, 0, 0), Ok(HashMap::new()));
    // An odd doubled count is halved and rounded down.
    let mut odd = format4(&[], &[]);
    odd[7] = 1;
    assert_eq!(decode_subtable(&odd, 0, 0), Ok(HashMap::new()));
}

#[test]
fn whole_range_of_codepoints_can_be_mapped() {
    let buffer = format4(&[(0, 65535, 3, 0)], &[]);
    let map = decode_subtable(&buffer, 0, 0).unwrap();
    assert_eq!(map.len(), 65536);
    assert_eq!(map.get(&0), Some(&3));
    assert_eq!(map.get(&65532), Some(&65535));
    assert_eq!(map.get(&65533), Some(&0));
    assert_eq!(map.get(&65535), Some(&2));
}

#[test]
fn format_twelve_is_refused() {
    let mut buffer: Vec<u8> = Vec::new();
    push_u16(&mut buffer, 12);
    buffer.extend_from_slice(&[0; 30]);
    assert_eq!(decode_subtable(&buffer, 0, 0), Err(FontError::UnsupportedCmapFormat(12)));
}

#[test]
fn other_formats_are_refused_with_their_number() {
    for format in [0u16, 2, 6, 14, 65535] {
        let mut buffer: Vec<u8> = Vec::new();
        push_u16(&mut buffer, format);
        buffer.extend_from_slice(&[0; 30]);
        assert_eq!(decode_subtable(&buffer, 0, 0), Err(FontError::UnsupportedCmapFormat(format)));
    }
}

#[test]
fn truncated_subtable_names_the_read_that_failed() {
    let whole = format4(&[(10, 12, 5, 4), (20, 20, 0, 0)], &[7, 8, 9]);
    // format 0, length 2, language 4, count 6, search fields 8..14,
    // end codes 14, padding 18, start codes 20, deltas 24,
    // range offsets 28, glyph indices 32..38
    assert_eq!(whole.len(), 38);
    let at = |len: usize| {
        let mut buffer = whole.clone();
        buffer.truncate(len);
        decode_subtable(&buffer, 0, 0)
    };
    let overrun = |offset: u64, len: u64| {
        Err(FontError::BufferOverrun { offset, width: 2, buffer_len: len })
    };
    assert_eq!(at(1), overrun(0, 1));
    assert_eq!(at(3), overrun(2, 3));
    assert_eq!(at(7), overrun(6, 7));
    assert_eq!(at(14), overrun(14, 14));
    assert_eq!(at(17), overrun(16, 17));
    assert_eq!(at(18), overrun(20, 18));
    assert_eq!(at(21), overrun(20, 21));
    assert_eq!(at(23), overrun(22, 23));
    assert_eq!(at(25), overrun(24, 25));
    assert_eq!(at(29), overrun(28, 29));
    assert_eq!(at(31), overrun(30, 31));
    assert_eq!(at(32), overrun(32, 32));
    assert_eq!(at(35), overrun(34, 35));
    assert_eq!(at(37), overrun(36, 37));
    assert_eq!(at(38), Ok(map_of(&[(10, 12), (11, 13), (12, 14), (20, 20)])));
}

#[test]
fn range_offset_past_the_end_is_an_overrun() {
    let buffer = format4(&[(10, 12, 0, 1000)], &[1, 2, 3]);
    assert_eq!(buffer.len(), 30);
    // The segment's entry stands at 22.
    assert_eq!(
        decode_subtable(&buffer, 0, 0),
        Err(FontError::BufferOverrun { offset: 1022, width: 2, buffer_len: 30 })
    );
}

#[test]
fn subtable_is_found_at_cmap_plus_offset() {
    let subtable = format4(&[(65, 67, 0, 0)], &[]);
    let mut buffer: Vec<u8> = vec![0x11; 9];
    buffer.extend_from_slice(&subtable);
    let expected = map_of(&[(65, 65), (66, 66), (67, 67)]);
    assert_eq!(decode_subtable(&buffer, 9, 0), Ok(expected.clone()));
    assert_eq!(decode_subtable(&buffer, 4, 5), Ok(expected));
    assert_eq!(
        decode_subtable(&buffer, 0xffff_ffff, 0xffff_ffff),
        Err(FontError::BufferOverrun {
            offset: 0x1_ffff_fffe,
            width: 2,
            buffer_len: buffer.len() as u64
        })
    );
}

#[test]
fn character_map_decodes_the_windows_subtable_of_two() {
    let windows = format4(&[(65, 67, 0, 0)], &[]);
    let unicode = format4(&[(65, 67, 1000, 0)], &[]);
    let expected = map_of(&[(65, 65), (66, 66), (67, 67)]);
    let buffer = cmap(&[(3, 1, windows.clone()), (0, 3, unicode.clone())]);
    assert_eq!(decode_cmap(&buffer, 0), Ok(expected.clone()));
    let buffer = cmap(&[(0, 3, unicode), (3, 1, windows)]);
    assert_eq!(decode_cmap(&buffer, 0), Ok(expected));
}

#[test]
fn character_map_falls_back_to_the_unicode_subtable() {
    let unicode = format4(&[(65, 67, 1000, 0)], &[]);
    let buffer = cmap(&[(1, 0, vec![0, 0]), (0, 3, unicode)]);
    assert_eq!(decode_cmap(&buffer, 0), Ok(map_of(&[(65, 1065), (66, 1066), (67, 1067)])));
}

#[test]
fn character_map_without_unicode_subtable_fails() {
    let buffer = cmap(&[(1, 0, format4(&[(65, 67, 0, 0)], &[])), (3, 10, vec![0, 12])]);
    assert_eq!(decode_cmap(&buffer, 0), Err(FontError::NoUnicodeCmapFound));
    let buffer = cmap(&[]);
    assert_eq!(decode_cmap(&buffer, 0), Err(FontError::NoUnicodeCmapFound));
}

#[test]
fn character_map_refuses_a_selected_subtable_of_format_twelve() {
    let mut twelve: Vec<u8> = Vec::new();
    push_u16(&mut twelve, 12);
    twelve.extend_from_slice(&[0; 14]);
    let unicode = format4(&[(65, 67, 0, 0)], &[]);
    let buffer = cmap(&[(0, 3, unicode), (3, 1, twelve)]);
    assert_eq!(decode_cmap(&buffer, 0), Err(FontError::UnsupportedCmapFormat(12)));
}

#[test]
fn character_map_fails_where_the_subtable_lies_outside() {
    let mut buffer: Vec<u8> = Vec::new();
    push_u16(&mut buffer, 0);
    push_u16(&mut buffer, 1);
    push_u16(&mut buffer, 3);
    push_u16(&mut buffer, 1);
    push_u32(&mut buffer, 0xffff_ffff);
    assert_eq!(
        decode_cmap(&buffer, 0),
        Err(FontError::BufferOverrun { offset: 0xffff_ffff, width: 2, buffer_len: 12 })
    );
    assert_eq!(
        decode_cmap(&buffer, 11),
        Err(FontError::BufferOverrun { offset: 13, width: 2, buffer_len: 12 })
    );
}
