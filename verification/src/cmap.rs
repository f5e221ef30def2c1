//! Decoding of the character map: choice of a Unicode subtable and the
//! segment mapping of format 4.

use std::collections::HashMap;
use vstd::prelude::*;
use crate::error::{
    first_error, first_of, is_overrun, lemma_first_error_overrun, lemma_first_error_stays,
    FontError, FontErrorView,
};
use crate::utils::{
    be_i16, be_u16, be_u16_array, be_u32, in_bounds, overrun, read_error, to_signed, u16_array_at,
    u16_array_error, u16_at, u32_at, whole_u16s,
};

verus! {

/// The only subtable format that is decoded.
pub const SEGMENT_MAPPING: u16 = 4;

/// One entry of the character map's list of subtables.
#[derive(Debug, Clone, Copy, PartialEq, Eq)]
pub struct EncodingRecord {
    pub platform_id: u16,
    pub platform_specific_id: u16,
    /// Where the subtable starts, counted from the start of the
    /// character map.
    pub cmap_offset: u32,
}

impl EncodingRecord {
    /// Platform 3 (Windows) with encoding 1 (Unicode BMP).
    pub open spec fn is_windows_unicode(self) -> bool {
        self.platform_id == 3 && self.platform_specific_id == 1
    }

    /// Platform 0 (Unicode) with encoding 3.
    pub open spec fn is_unicode(self) -> bool {
        self.platform_id == 0 && self.platform_specific_id == 3
    }

    /// Whether the record is of the wanted kind.
    pub open spec fn is_kind(self, windows: bool) -> bool {
        if windows {
            self.is_windows_unicode()
        } else {
            self.is_unicode()
        }
    }
}

/// The offset of the last record of the wanted kind, if there is one.
pub open spec fn last_offset(records: Seq<EncodingRecord>, windows: bool) -> Option<u32>
    decreases records.len(),
{
    if records.len() == 0 {
        None
    } else if records.last().is_kind(windows) {
        Some(records.last().cmap_offset)
    } else {
        last_offset(records.drop_last(), windows)
    }
}

/// The offset of the subtable to decode: that of a Windows Unicode BMP
/// subtable if there is one, else that of a Unicode subtable. Among
/// several of one kind the last is taken.
pub open spec fn selected(records: Seq<EncodingRecord>) -> Option<u32> {
    if last_offset(records, true) is Some {
        last_offset(records, true)
    } else {
        last_offset(records, false)
    }
}

/// Chooses the subtable to decode and returns its offset.
pub fn select_subtable(records: &Vec<EncodingRecord>) -> (offset: Option<u32>)
    ensures
        offset == selected(records@),
{
    let mut windows: Option<u32> = None;
    let mut unicode: Option<u32> = None;
    let mut i: usize = 0;
    while i < records.len()
        invariant
            i <= records.len(),
            windows == last_offset(records@.take(i as int), true),
            unicode == last_offset(records@.take(i as int), false),
        decreases records.len() - i,
    {
        proof {
            assert(records@.take(i + 1).drop_last() == records@.take(i as int));
        }
        let record = records[i];
        if record.platform_id == 3 && record.platform_specific_id == 1 {
            windows = Some(record.cmap_offset);
        } else if record.platform_id == 0 && record.platform_specific_id == 3 {
            unicode = Some(record.cmap_offset);
        }
        i = i + 1;
    }
    proof {
        assert(records@.take(records.len() as int) == records@);
    }
    if windows.is_some() {
        windows
    } else {
        unicode
    }
}

/// Where a Windows Unicode BMP subtable is listed, it is one of them that
/// is selected, whatever else is listed.
pub proof fn lemma_windows_preferred(records: Seq<EncodingRecord>)
    requires
        exists|i: int| 0 <= i < records.len() && (#[trigger] records[i]).is_windows_unicode(),
    ensures
        selected(records) is Some,
        exists|i: int|
            0 <= i < records.len() && (#[trigger] records[i]).is_windows_unicode() && selected(
                records,
            ) == Some(records[i].cmap_offset),
{
    lemma_last_offset(records, true);
}

/// A record of the wanted kind is found exactly when there is one, and
/// the offset found is that of such a record.
pub proof fn lemma_last_offset(records: Seq<EncodingRecord>, windows: bool)
    ensures
        last_offset(records, windows) is Some <==> exists|i: int|
            0 <= i < records.len() && (#[trigger] records[i]).is_kind(windows),
        last_offset(records, windows) is Some ==> exists|i: int|
            0 <= i < records.len() && (#[trigger] records[i]).is_kind(windows) && last_offset(
                records,
                windows,
            ) == Some(records[i].cmap_offset),
    decreases records.len(),
{
    if records.len() > 0 {
        let front = records.drop_last();
        lemma_last_offset(front, windows);
        if records.last().is_kind(windows) {
            assert(records[records.len() - 1].is_kind(windows));
        } else {
            if last_offset(front, windows) is Some {
                let i = choose|i: int|
                    0 <= i < front.len() && (#[trigger] front[i]).is_kind(windows) && last_offset(
                        front,
                        windows,
                    ) == Some(front[i].cmap_offset);
                assert(records[i] == front[i]);
            }
            if exists|i: int| 0 <= i < records.len() && (#[trigger] records[i]).is_kind(windows) {
                let i = choose|i: int|
                    0 <= i < records.len() && (#[trigger] records[i]).is_kind(windows);
                assert(front[i] == records[i]);
            }
        }
    }
}

/// Where record `i` of the character map at `cmap` stands.
pub open spec fn record_pos(cmap: int, i: int) -> int {
    cmap + 4 + 8 * i
}

/// Record `i` of the character map at `cmap`.
pub open spec fn spec_record(buf: Seq<u8>, cmap: int, i: int) -> EncodingRecord {
    EncodingRecord {
        platform_id: be_u16(buf, record_pos(cmap, i)),
        platform_specific_id: be_u16(buf, record_pos(cmap, i) + 2),
        cmap_offset: be_u32(buf, record_pos(cmap, i) + 4),
    }
}

/// The error of reading each record by itself, field by field.
pub open spec fn record_errors(buf: Seq<u8>, cmap: int) -> spec_fn(int) -> Option<
    FontErrorView,
> {
    |i: int|
        first_of(
            read_error(buf, record_pos(cmap, i), 2),
            first_of(
                read_error(buf, record_pos(cmap, i) + 2, 2),
                read_error(buf, record_pos(cmap, i) + 4, 4),
            ),
        )
}

/// The records of the character map at `cmap`, as many as its header
/// states.
pub open spec fn spec_records(buf: Seq<u8>, cmap: int) -> Seq<EncodingRecord> {
    Seq::new(be_u16(buf, cmap + 2) as nat, |i: int| spec_record(buf, cmap, i))
}

/// The error, if any, of reading the subtable count and then the records
/// in order.
pub open spec fn records_error(buf: Seq<u8>, cmap: int) -> Option<FontErrorView> {
    first_of(
        read_error(buf, cmap + 2, 2),
        first_error(record_errors(buf, cmap), be_u16(buf, cmap + 2) as int),
    )
}

/// Reads the list of subtables of the character map at `cmap`.
pub fn read_records(buffer: &Vec<u8>, cmap: u32) -> (r: Result<Vec<EncodingRecord>, FontError>)
    ensures
        match r {
            Ok(records) => records_error(buffer@, cmap as int) is None && records@ == spec_records(
                buffer@,
                cmap as int,
            ),
            Err(e) => records_error(buffer@, cmap as int) == Some(e@),
        },
{
    let count = match u16_at(buffer, cmap as u64 + 2) {
        Ok(count) => count as usize,
        Err(e) => {
            return Err(e);
        },
    };
    let ghost errors = record_errors(buffer@, cmap as int);
    let mut records: Vec<EncodingRecord> = Vec::new();
    while records.len() < count
        invariant
            count == be_u16(buffer@, cmap + 2),
            in_bounds(buffer@, cmap + 2, 2),
            records.len() <= count,
            errors == record_errors(buffer@, cmap as int),
            first_error(errors, records.len() as int) is None,
            records@ == Seq::new(
                records.len() as nat,
                |i: int| spec_record(buffer@, cmap as int, i),
            ),
        decreases count - records.len(),
    {
        let i = records.len();
        let pos: u64 = cmap as u64 + 4 + 8 * (i as u64);
        let platform_id = match u16_at(buffer, pos) {
            Ok(v) => v,
            Err(e) => {
                proof {
                    lemma_first_error_stays(errors, i as int, count as int);
                }
                return Err(e);
            },
        };
        let platform_specific_id = match u16_at(buffer, pos + 2) {
            Ok(v) => v,
            Err(e) => {
                proof {
                    lemma_first_error_stays(errors, i as int, count as int);
                }
                return Err(e);
            },
        };
        let cmap_offset = match u32_at(buffer, pos + 4) {
            Ok(v) => v,
            Err(e) => {
                proof {
                    lemma_first_error_stays(errors, i as int, count as int);
                }
                return Err(e);
            },
        };
        records.push(EncodingRecord { platform_id, platform_specific_id, cmap_offset });
    }
    Ok(records)
}

/// One segment of a format-4 subtable: a range of codepoints and how
/// their glyph indices are found.
#[derive(Debug, Clone, Copy, PartialEq, Eq)]
pub struct Segment {
    pub start: u16,
    pub end: u16,
    pub delta: i16,
    pub range_offset: u16,
}

impl Segment {
    /// Whether the codepoint lies in the segment's range.
    pub open spec fn covers(self, code: u16) -> bool {
        self.start <= code <= self.end
    }
}

/// The number of segments of the format-4 subtable whose fields start at
/// `fields` (behind the format number): half the doubled count it states.
pub open spec fn segment_count(buf: Seq<u8>, fields: int) -> int {
    be_u16(buf, fields + 4) as int / 2
}

/// Where the end codes start.
pub open spec fn end_codes_pos(fields: int) -> int {
    fields + 12
}

/// Where the start codes start: behind the end codes and a padding field.
pub open spec fn start_codes_pos(buf: Seq<u8>, fields: int) -> int {
    fields + 14 + 2 * segment_count(buf, fields)
}

/// Where the deltas start.
pub open spec fn deltas_pos(buf: Seq<u8>, fields: int) -> int {
    fields + 14 + 4 * segment_count(buf, fields)
}

/// Where the range offsets start.
pub open spec fn range_offsets_pos(buf: Seq<u8>, fields: int) -> int {
    fields + 14 + 6 * segment_count(buf, fields)
}

/// Segment `i` of the subtable.
pub open spec fn spec_segment(buf: Seq<u8>, fields: int, i: int) -> Segment {
    Segment {
        start: be_u16(buf, start_codes_pos(buf, fields) + 2 * i),
        end: be_u16(buf, end_codes_pos(fields) + 2 * i),
        delta: be_i16(buf, deltas_pos(buf, fields) + 2 * i),
        range_offset: be_u16(buf, range_offsets_pos(buf, fields) + 2 * i),
    }
}

/// The error, if any, of reading the subtable's length, its segment
/// count and its four arrays, in this order.
pub open spec fn layout_error(buf: Seq<u8>, fields: int) -> Option<FontErrorView> {
    let count = segment_count(buf, fields);
    first_of(
        read_error(buf, fields, 2),
        first_of(
            read_error(buf, fields + 4, 2),
            first_of(
                u16_array_error(buf, end_codes_pos(fields), count),
                first_of(
                    u16_array_error(buf, start_codes_pos(buf, fields), count),
                    first_of(
                        u16_array_error(buf, deltas_pos(buf, fields), count),
                        u16_array_error(buf, range_offsets_pos(buf, fields), count),
                    ),
                ),
            ),
        ),
    )
}

/// A sum taken modulo 65536.
pub open spec fn wrap16(value: int) -> u16 {
    (value % 0x1_0000) as u16
}

/// Where the glyph index of `code` stands for a segment with a range
/// offset: that offset behind the segment's own range-offset entry, and
/// then one entry for each codepoint from the segment's start on.
pub open spec fn glyph_index_pos(buf: Seq<u8>, fields: int, i: int, code: int) -> int {
    range_offsets_pos(buf, fields) + 2 * i + spec_segment(buf, fields, i).range_offset + 2 * (code
        - spec_segment(buf, fields, i).start)
}

/// The glyph index that segment `i` gives to `code`. Without a range
/// offset it is the codepoint plus the delta. With one, it is read from
/// the font; zero stays zero, anything else has the delta added.
pub open spec fn segment_glyph(buf: Seq<u8>, fields: int, i: int, code: u16) -> u16 {
    let segment = spec_segment(buf, fields, i);
    if segment.range_offset == 0 {
        wrap16(code + segment.delta)
    } else if be_u16(buf, glyph_index_pos(buf, fields, i, code as int)) == 0 {
        0
    } else {
        wrap16(be_u16(buf, glyph_index_pos(buf, fields, i, code as int)) + segment.delta)
    }
}

/// The error of looking up the codepoints of each segment by itself, from
/// its start to its end: that of the first glyph index that lies outside
/// the buffer.
pub open spec fn segment_errors(buf: Seq<u8>, fields: int) -> spec_fn(int) -> Option<
    FontErrorView,
> {
    |i: int|
        {
            let segment = spec_segment(buf, fields, i);
            if segment.range_offset == 0 {
                None
            } else {
                u16_array_error(
                    buf,
                    glyph_index_pos(buf, fields, i, segment.start as int),
                    segment.end - segment.start + 1,
                )
            }
        }
}

/// The last of the first `count` segments that covers `code`, if any.
pub open spec fn covering(buf: Seq<u8>, fields: int, count: int, code: u16) -> Option<int>
    decreases count,
{
    if count <= 0 {
        None
    } else if spec_segment(buf, fields, count - 1).covers(code) {
        Some(count - 1)
    } else {
        covering(buf, fields, count - 1, code)
    }
}

/// The mapping that the first `count` segments give: each codepoint that
/// a segment covers, with the glyph index that the last such segment
/// gives it.
pub open spec fn mapping(buf: Seq<u8>, fields: int, count: int) -> Map<u16, u16> {
    Map::new(
        |code: u16| covering(buf, fields, count, code) is Some,
        |code: u16| segment_glyph(buf, fields, covering(buf, fields, count, code).unwrap(), code),
    )
}

/// The mapping while segment `i` is being entered: what the segments
/// before it gave, and over it the segment's codepoints below `upto`.
pub open spec fn mapping_upto(buf: Seq<u8>, fields: int, i: int, upto: int) -> Map<u16, u16> {
    let before = mapping(buf, fields, i);
    Map::new(
        |code: u16|
            before.contains_key(code) || spec_segment(buf, fields, i).start <= code < upto,
        |code: u16|
            if spec_segment(buf, fields, i).start <= code < upto {
                segment_glyph(buf, fields, i, code)
            } else {
                before[code]
            },
    )
}

/// What the format-4 subtable whose fields start at `fields` decodes to.
pub open spec fn spec_format4(buf: Seq<u8>, fields: int) -> Result<Map<u16, u16>, FontErrorView> {
    let count = segment_count(buf, fields);
    if layout_error(buf, fields) is Some {
        Err(layout_error(buf, fields).unwrap())
    } else if first_error(segment_errors(buf, fields), count) is Some {
        Err(first_error(segment_errors(buf, fields), count).unwrap())
    } else {
        Ok(mapping(buf, fields, count))
    }
}

/// The glyph index for a sum of a 16-bit value and a delta.
pub fn wrapping_index(value: u16, delta: i16) -> (index: u16)
    ensures
        index == wrap16(value + delta),
{
    let sum: i32 = value as i32 + delta as i32;
    if sum < 0 {
        (sum + 0x1_0000) as u16
    } else if sum >= 0x1_0000 {
        (sum - 0x1_0000) as u16
    } else {
        sum as u16
    }
}

/// Enters the codepoints of segment `i` into the mapping.
fn map_segment(
    buffer: &Vec<u8>,
    map: &mut HashMap<u16, u16>,
    segment: Segment,
    entry_pos: u64,
    Ghost(fields): Ghost<int>,
    Ghost(i): Ghost<int>,
) -> (r: Result<(), FontError>)
    requires
        0 <= i,
        segment == spec_segment(buffer@, fields, i),
        entry_pos == range_offsets_pos(buffer@, fields) + 2 * i,
        entry_pos <= 0x8_0000_0000,
        old(map)@ == mapping(buffer@, fields, i),
    ensures
        match r {
            Ok(()) => segment_errors(buffer@, fields)(i) is None && final(map)@ == mapping(
                buffer@,
                fields,
                i + 1,
            ),
            Err(e) => segment_errors(buffer@, fields)(i) == Some(e@),
        },
{
    let ghost base = glyph_index_pos(buffer@, fields, i, segment.start as int);
    let mut code: u32 = segment.start as u32;
    while code <= segment.end as u32
        invariant
            segment == spec_segment(buffer@, fields, i),
            entry_pos == range_offsets_pos(buffer@, fields) + 2 * i,
            entry_pos <= 0x8_0000_0000,
            base == glyph_index_pos(buffer@, fields, i, segment.start as int),
            segment.start <= code <= segment.end + 1 || (code == segment.start && segment.start
                > segment.end),
            segment.range_offset != 0 && code > segment.start ==> in_bounds(
                buffer@,
                base,
                2 * (code - segment.start),
            ),
            map@ == mapping_upto(buffer@, fields, i, code as int),
        decreases segment.end + 1 - code,
    {
        let index = if segment.range_offset == 0 {
            wrapping_index(code as u16, segment.delta)
        } else {
            let pos: u64 = entry_pos + segment.range_offset as u64 + 2 * ((code
                - segment.start as u32) as u64);
            match u16_at(buffer, pos) {
                Ok(raw) => {
                    if raw == 0 {
                        0
                    } else {
                        wrapping_index(raw, segment.delta)
                    }
                },
                Err(e) => {
                    return Err(e);
                },
            }
        };
        map.insert(code as u16, index);
        code = code + 1;
    }
    Ok(())
}

/// Decodes the format-4 subtable whose fields start at `fields`.
fn decode_format4(buffer: &Vec<u8>, fields: u64) -> (r: Result<HashMap<u16, u16>, FontError>)
    requires
        fields <= 0x4_0000_0000,
    ensures
        match r {
            Ok(map) => spec_format4(buffer@, fields as int) == Ok::<Map<u16, u16>, FontErrorView>(
                map@,
            ),
            Err(e) => spec_format4(buffer@, fields as int) == Err::<Map<u16, u16>, FontErrorView>(
                e@,
            ),
        },
{
    match u16_at(buffer, fields) {
        Ok(_) => {},
        Err(e) => {
            return Err(e);
        },
    }
    let count = match u16_at(buffer, fields + 4) {
        Ok(doubled) => (doubled / 2) as usize,
        Err(e) => {
            return Err(e);
        },
    };
    let span: u64 = 2 * (count as u64);
    let end_codes = match u16_array_at(buffer, fields + 12, count) {
        Ok(values) => values,
        Err(e) => {
            return Err(e);
        },
    };
    let start_codes = match u16_array_at(buffer, fields + 14 + span, count) {
        Ok(values) => values,
        Err(e) => {
            return Err(e);
        },
    };
    let deltas = match u16_array_at(buffer, fields + 14 + 2 * span, count) {
        Ok(values) => values,
        Err(e) => {
            return Err(e);
        },
    };
    let entries_pos: u64 = fields + 14 + 3 * span;
    let range_offsets = match u16_array_at(buffer, entries_pos, count) {
        Ok(values) => values,
        Err(e) => {
            return Err(e);
        },
    };
    let ghost errors = segment_errors(buffer@, fields as int);
    let mut map: HashMap<u16, u16> = HashMap::new();
    let mut i: usize = 0;
    while i < count
        invariant
            fields <= 0x4_0000_0000,
            count == segment_count(buffer@, fields as int),
            count <= 0x7fff,
            i <= count,
            entries_pos == range_offsets_pos(buffer@, fields as int),
            end_codes@ == be_u16_array(buffer@, end_codes_pos(fields as int), count as int),
            start_codes@ == be_u16_array(
                buffer@,
                start_codes_pos(buffer@, fields as int),
                count as int,
            ),
            deltas@ == be_u16_array(buffer@, deltas_pos(buffer@, fields as int), count as int),
            range_offsets@ == be_u16_array(
                buffer@,
                range_offsets_pos(buffer@, fields as int),
                count as int,
            ),
            errors == segment_errors(buffer@, fields as int),
            layout_error(buffer@, fields as int) is None,
            first_error(errors, i as int) is None,
            map@ == mapping(buffer@, fields as int, i as int),
        decreases count - i,
    {
        let segment = Segment {
            start: start_codes[i],
            end: end_codes[i],
            delta: to_signed(deltas[i]),
            range_offset: range_offsets[i],
        };
        match map_segment(
            buffer,
            &mut map,
            segment,
            entries_pos + 2 * (i as u64),
            Ghost(fields as int),
            Ghost(i as int),
        ) {
            Ok(()) => {},
            Err(e) => {
                proof {
                    lemma_first_error_stays(errors, i as int, count as int);
                }
                return Err(e);
            },
        }
        i = i + 1;
    }
    Ok(map)
}

/// What the subtable that lies `subtable` bytes into the character map
/// at `cmap` decodes to. Only format 4 is decoded; any other format,
/// format 12 among them, is refused with its number.
pub open spec fn spec_subtable(buf: Seq<u8>, cmap: int, subtable: int) -> Result<
    Map<u16, u16>,
    FontErrorView,
> {
    let pos = cmap + subtable;
    if !in_bounds(buf, pos, 2) {
        Err(overrun(buf, pos, 2))
    } else if be_u16(buf, pos) == SEGMENT_MAPPING {
        spec_format4(buf, pos + 2)
    } else {
        Err(FontErrorView::UnsupportedCmapFormat(be_u16(buf, pos)))
    }
}

/// What the character map at `cmap` decodes to.
pub open spec fn spec_cmap(buf: Seq<u8>, cmap: int) -> Result<Map<u16, u16>, FontErrorView> {
    if records_error(buf, cmap) is Some {
        Err(records_error(buf, cmap).unwrap())
    } else {
        match selected(spec_records(buf, cmap)) {
            None => Err(FontErrorView::NoUnicodeCmapFound),
            Some(subtable) => spec_subtable(buf, cmap, subtable as int),
        }
    }
}

/// Decodes the subtable that lies `subtable` bytes into the character
/// map, which starts at `cmap`.
pub fn decode_subtable(buffer: &Vec<u8>, cmap: u32, subtable: u32) -> (r: Result<
    HashMap<u16, u16>,
    FontError,
>)
    ensures
        match r {
            Ok(map) => spec_subtable(buffer@, cmap as int, subtable as int) == Ok::<
                Map<u16, u16>,
                FontErrorView,
            >(map@),
            Err(e) => spec_subtable(buffer@, cmap as int, subtable as int) == Err::<
                Map<u16, u16>,
                FontErrorView,
            >(e@),
        },
{
    let pos: u64 = cmap as u64 + subtable as u64;
    let format = match u16_at(buffer, pos) {
        Ok(format) => format,
        Err(e) => {
            return Err(e);
        },
    };
    if format == SEGMENT_MAPPING {
        decode_format4(buffer, pos + 2)
    } else {
        Err(FontError::UnsupportedCmapFormat(format))
    }
}

/// Decodes the character map that starts at `cmap`.
pub fn decode_cmap(buffer: &Vec<u8>, cmap: u32) -> (r: Result<HashMap<u16, u16>, FontError>)
    ensures
        match r {
            Ok(map) => spec_cmap(buffer@, cmap as int) == Ok::<Map<u16, u16>, FontErrorView>(map@),
            Err(e) => spec_cmap(buffer@, cmap as int) == Err::<Map<u16, u16>, FontErrorView>(e@),
        },
{
    let records = match read_records(buffer, cmap) {
        Ok(records) => records,
        Err(e) => {
            return Err(e);
        },
    };
    match select_subtable(&records) {
        Some(subtable) => decode_subtable(buffer, cmap, subtable),
        None => Err(FontError::NoUnicodeCmapFound),
    }
}

/// A codepoint is covered by a segment exactly where it has an entry, and
/// its entry is that of the last segment that covers it.
pub proof fn lemma_covering(buf: Seq<u8>, fields: int, count: int, code: u16)
    ensures
        covering(buf, fields, count, code) is Some <==> exists|i: int|
            0 <= i < count && (#[trigger] spec_segment(buf, fields, i)).covers(code),
        covering(buf, fields, count, code) matches Some(i) ==> {
            &&& 0 <= i < count
            &&& spec_segment(buf, fields, i).covers(code)
            &&& forall|j: int|
                i < j < count ==> !(#[trigger] spec_segment(buf, fields, j)).covers(code)
        },
    decreases count,
{
    if count > 0 {
        lemma_covering(buf, fields, count - 1, code);
        if spec_segment(buf, fields, count - 1).covers(code) {
        } else if exists|i: int|
            0 <= i < count && (#[trigger] spec_segment(buf, fields, i)).covers(code) {
            let i = choose|i: int|
                0 <= i < count && (#[trigger] spec_segment(buf, fields, i)).covers(code);
            assert(0 <= i < count - 1);
        }
    }
}

/// In a decoded format-4 subtable, a codepoint that segment `i` covers
/// and no later segment does has the glyph index that segment `i` gives
/// it. Where the segment has no range offset, that is the codepoint plus
/// the delta, modulo 65536. Where it has one and the glyph index read
/// from the font is zero, it is zero, whatever the delta.
pub proof fn lemma_segment_mapping(buf: Seq<u8>, fields: int, i: int, code: u16)
    requires
        spec_format4(buf, fields) is Ok,
        0 <= i < segment_count(buf, fields),
        spec_segment(buf, fields, i).covers(code),
        forall|j: int|
            i < j < segment_count(buf, fields) ==> !(#[trigger] spec_segment(
                buf,
                fields,
                j,
            )).covers(code),
    ensures
        ({
            let map = spec_format4(buf, fields)->Ok_0;
            let segment = spec_segment(buf, fields, i);
            &&& map.contains_key(code)
            &&& map[code] == segment_glyph(buf, fields, i, code)
            &&& segment.range_offset == 0 ==> map[code] == wrap16(code + segment.delta)
            &&& segment.range_offset != 0 && be_u16(
                buf,
                glyph_index_pos(buf, fields, i, code as int),
            ) == 0 ==> map[code] == 0
        }),
{
    lemma_covering(buf, fields, segment_count(buf, fields), code);
}

/// In a decoded format-4 subtable, a codepoint that no segment covers
/// has no entry.
pub proof fn lemma_uncovered(buf: Seq<u8>, fields: int, code: u16)
    requires
        spec_format4(buf, fields) is Ok,
        forall|j: int|
            0 <= j < segment_count(buf, fields) ==> !(#[trigger] spec_segment(
                buf,
                fields,
                j,
            )).covers(code),
    ensures
        !spec_format4(buf, fields)->Ok_0.contains_key(code),
{
    lemma_covering(buf, fields, segment_count(buf, fields), code);
}

/// Where the character map lists a Windows Unicode BMP subtable, it is
/// one of them that is decoded, also where a Unicode subtable is listed
/// beside it.
pub proof fn lemma_cmap_prefers_windows(buf: Seq<u8>, cmap: int)
    requires
        records_error(buf, cmap) is None,
        exists|i: int|
            0 <= i < spec_records(buf, cmap).len() && (#[trigger] spec_records(
                buf,
                cmap,
            )[i]).is_windows_unicode(),
    ensures
        exists|i: int|
            0 <= i < spec_records(buf, cmap).len() && (#[trigger] spec_records(
                buf,
                cmap,
            )[i]).is_windows_unicode() && spec_cmap(buf, cmap) == spec_subtable(
                buf,
                cmap,
                spec_records(buf, cmap)[i].cmap_offset as int,
            ),
{
    lemma_windows_preferred(spec_records(buf, cmap));
}

/// The decoding of a format-4 subtable fails only on a read past the end
/// of the buffer.
pub proof fn lemma_format4_error(buf: Seq<u8>, fields: int)
    ensures
        spec_format4(buf, fields) matches Err(e) ==> is_overrun(buf, e),
{
    lemma_first_error_overrun(buf, segment_errors(buf, fields), segment_count(buf, fields));
}

/// The decoding of the character map fails on a read past the end of the
/// buffer, for want of a Unicode subtable, or on a subtable of another
/// format than 4, and in no other way.
pub proof fn lemma_cmap_error(buf: Seq<u8>, cmap: int)
    ensures
        spec_cmap(buf, cmap) matches Err(e) ==> {
            ||| is_overrun(buf, e)
            ||| e == FontErrorView::NoUnicodeCmapFound
            ||| e matches FontErrorView::UnsupportedCmapFormat(format) && format
                != SEGMENT_MAPPING
        },
{
    lemma_first_error_overrun(buf, record_errors(buf, cmap), be_u16(buf, cmap + 2) as int);
    if let Some(subtable) = selected(spec_records(buf, cmap)) {
        lemma_format4_error(buf, cmap + subtable + 2);
    }
}

} // verus!
