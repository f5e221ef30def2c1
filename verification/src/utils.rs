//! Bounds-checked big-endian readers over a byte buffer, the table
//! directory that is read with them, and the indices of the points of a
//! glyph by contour.

use vstd::prelude::*;
use crate::error::{
    first_error, first_of, is_overrun, lemma_first_error_overrun, lemma_first_error_stays,
    FontError, FontErrorView,
};
use crate::font_loader::{GlyphDescription, GlyphView, TableDirectory};

verus! {

/// Whether `width` bytes can be read at `offset`.
pub open spec fn in_bounds(buf: Seq<u8>, offset: int, width: int) -> bool {
    offset + width <= buf.len()
}

/// The error of a read of `width` bytes at `offset` that is out of bounds.
pub open spec fn overrun(buf: Seq<u8>, offset: int, width: int) -> FontErrorView {
    FontErrorView::BufferOverrun { offset, width, buffer_len: buf.len() as int }
}

/// The error, if any, of reading `width` bytes at `offset`.
pub open spec fn read_error(buf: Seq<u8>, offset: int, width: int) -> Option<FontErrorView> {
    if in_bounds(buf, offset, width) {
        None
    } else {
        Some(overrun(buf, offset, width))
    }
}

/// The big-endian unsigned 16-bit value at `offset`.
pub open spec fn be_u16(buf: Seq<u8>, offset: int) -> u16 {
    (buf[offset] as int * 256 + buf[offset + 1] as int) as u16
}

/// The signed value that 16 bits stand for in two's complement.
pub open spec fn as_signed(unsigned: u16) -> i16 {
    if unsigned >= 0x8000 {
        (unsigned - 0x1_0000) as i16
    } else {
        unsigned as i16
    }
}

/// The big-endian signed 16-bit value at `offset` (two's complement).
pub open spec fn be_i16(buf: Seq<u8>, offset: int) -> i16 {
    as_signed(be_u16(buf, offset))
}

/// The `count` consecutive big-endian `u16` values that start at `base`.
pub open spec fn be_u16_array(buf: Seq<u8>, base: int, count: int) -> Seq<u16> {
    Seq::new(count as nat, |i: int| be_u16(buf, base + 2 * i))
}

/// How many whole `u16` values lie between `base` and the end of the buffer.
pub open spec fn whole_u16s(buf: Seq<u8>, base: int) -> int {
    if buf.len() <= base {
        0
    } else {
        (buf.len() - base) / 2
    }
}

/// The error, if any, of reading `count` consecutive `u16` values from
/// `base` on, one after the other: that of the first value that does not
/// fit.
pub open spec fn u16_array_error(buf: Seq<u8>, base: int, count: int) -> Option<FontErrorView> {
    if count <= 0 || in_bounds(buf, base, 2 * count) {
        None
    } else {
        Some(overrun(buf, base + 2 * whole_u16s(buf, base), 2))
    }
}

/// The big-endian unsigned 32-bit value at `offset`.
pub open spec fn be_u32(buf: Seq<u8>, offset: int) -> u32 {
    (((buf[offset] as int * 256 + buf[offset + 1] as int) * 256 + buf[offset + 2] as int) * 256
        + buf[offset + 3] as int) as u32
}

/// Whether bit `bit` of `byte` is set, bit 0 being the least significant.
pub open spec fn spec_bit_set(byte: u8, bit: u8) -> bool {
    (byte >> bit) & 1u8 != 0u8
}

/// A read fails exactly where it would pass the end of the buffer, and
/// the error names the read.
pub proof fn lemma_read_error(buf: Seq<u8>, offset: int, width: int)
    ensures
        read_error(buf, offset, width) is Some <==> offset + width > buf.len(),
        read_error(buf, offset, width) matches Some(e) ==> is_overrun(buf, e) && e == overrun(
            buf,
            offset,
            width,
        ),
{
}

/// The reading of consecutive values fails only on a read past the end
/// of the buffer, and exactly where they do not all lie in it.
pub proof fn lemma_u16_array_error(buf: Seq<u8>, base: int, count: int)
    ensures
        u16_array_error(buf, base, count) is Some <==> count > 0 && base + 2 * count > buf.len(),
        u16_array_error(buf, base, count) matches Some(e) ==> is_overrun(buf, e),
{
}

/// Checks that `width` bytes can be read at `offset` and gives the offset
/// as an index.
pub fn locate(buffer: &Vec<u8>, offset: u64, width: u64) -> (r: Result<usize, FontError>)
    ensures
        match r {
            Ok(index) => in_bounds(buffer@, offset as int, width as int) && index == offset
                && index + width <= usize::MAX,
            Err(e) => read_error(buffer@, offset as int, width as int) == Some(e@),
        },
{
    let len = buffer.len() as u64;
    if width <= len && offset <= len - width {
        Ok(offset as usize)
    } else {
        Err(FontError::BufferOverrun { offset, width, buffer_len: len })
    }
}

/// Reads one byte at a 64-bit offset.
pub fn u8_at(buffer: &Vec<u8>, offset: u64) -> (r: Result<u8, FontError>)
    ensures
        match r {
            Ok(v) => in_bounds(buffer@, offset as int, 1) && v == buffer@[offset as int],
            Err(e) => read_error(buffer@, offset as int, 1) == Some(e@),
        },
{
    match locate(buffer, offset, 1) {
        Ok(i) => Ok(buffer[i]),
        Err(e) => Err(e),
    }
}

/// Reads a big-endian `u16` at a 64-bit offset.
pub fn u16_at(buffer: &Vec<u8>, offset: u64) -> (r: Result<u16, FontError>)
    ensures
        match r {
            Ok(v) => in_bounds(buffer@, offset as int, 2) && v == be_u16(buffer@, offset as int),
            Err(e) => read_error(buffer@, offset as int, 2) == Some(e@),
        },
{
    match locate(buffer, offset, 2) {
        Ok(i) => Ok(buffer[i] as u16 * 256 + buffer[i + 1] as u16),
        Err(e) => Err(e),
    }
}

/// Reads 16 bits as a signed value in two's complement.
pub fn to_signed(unsigned: u16) -> (v: i16)
    ensures
        v == as_signed(unsigned),
{
    if unsigned >= 0x8000 {
        (unsigned as i32 - 0x1_0000) as i16
    } else {
        unsigned as i16
    }
}

/// Reads a big-endian `i16` at a 64-bit offset.
pub fn i16_at(buffer: &Vec<u8>, offset: u64) -> (r: Result<i16, FontError>)
    ensures
        match r {
            Ok(v) => in_bounds(buffer@, offset as int, 2) && v == be_i16(buffer@, offset as int),
            Err(e) => read_error(buffer@, offset as int, 2) == Some(e@),
        },
{
    match u16_at(buffer, offset) {
        Ok(unsigned) => Ok(to_signed(unsigned)),
        Err(e) => Err(e),
    }
}

/// Reads a big-endian `u32` at a 64-bit offset.
pub fn u32_at(buffer: &Vec<u8>, offset: u64) -> (r: Result<u32, FontError>)
    ensures
        match r {
            Ok(v) => in_bounds(buffer@, offset as int, 4) && v == be_u32(buffer@, offset as int),
            Err(e) => read_error(buffer@, offset as int, 4) == Some(e@),
        },
{
    match locate(buffer, offset, 4) {
        Ok(i) => {
            let high: u32 = buffer[i] as u32 * 256 + buffer[i + 1] as u32;
            let low: u32 = buffer[i + 2] as u32 * 256 + buffer[i + 3] as u32;
            Ok(high * 65536 + low)
        },
        Err(e) => Err(e),
    }
}

/// Reads `count` consecutive big-endian `u16` values from `base` on.
pub fn u16_array_at(buffer: &Vec<u8>, base: u64, count: usize) -> (r: Result<Vec<u16>, FontError>)
    ensures
        match r {
            Ok(values) => u16_array_error(buffer@, base as int, count as int) is None && values@
                == be_u16_array(buffer@, base as int, count as int),
            Err(e) => u16_array_error(buffer@, base as int, count as int) == Some(e@),
        },
{
    let mut values: Vec<u16> = Vec::new();
    let mut pos: u64 = base;
    while values.len() < count
        invariant
            values.len() <= count,
            pos == base + 2 * values.len(),
            values.len() > 0 ==> pos <= buffer.len(),
            values@ == be_u16_array(buffer@, base as int, values.len() as int),
        decreases count - values.len(),
    {
        match u16_at(buffer, pos) {
            Ok(v) => {
                assert(pos + 2 <= buffer.len());
                values.push(v);
                pos = pos + 2;
            },
            Err(e) => {
                return Err(e);
            },
        }
    }
    Ok(values)
}

/// Reads a big-endian `u32` at `offset`, or reports the overrun.
pub fn get_u32(buffer: &Vec<u8>, offset: usize) -> (r: Result<u32, FontError>)
    ensures
        match r {
            Ok(v) => in_bounds(buffer@, offset as int, 4) && v == be_u32(buffer@, offset as int),
            Err(e) => read_error(buffer@, offset as int, 4) == Some(e@),
        },
{
    u32_at(buffer, offset as u64)
}

/// Reads a big-endian `u16` at `offset`, or reports the overrun.
pub fn get_u16(buffer: &Vec<u8>, offset: usize) -> (r: Result<u16, FontError>)
    ensures
        match r {
            Ok(v) => in_bounds(buffer@, offset as int, 2) && v == be_u16(buffer@, offset as int),
            Err(e) => read_error(buffer@, offset as int, 2) == Some(e@),
        },
{
    u16_at(buffer, offset as u64)
}

/// Reads a big-endian `i16` at `offset`, or reports the overrun.
pub fn get_i16(buffer: &Vec<u8>, offset: usize) -> (r: Result<i16, FontError>)
    ensures
        match r {
            Ok(v) => in_bounds(buffer@, offset as int, 2) && v == be_i16(buffer@, offset as int),
            Err(e) => read_error(buffer@, offset as int, 2) == Some(e@),
        },
{
    i16_at(buffer, offset as u64)
}

/// Tests one bit of a byte.
pub fn bit_set(byte: u8, bit: u8) -> (set: bool)
    requires
        bit < 8,
    ensures
        set == spec_bit_set(byte, bit),
{
    ((byte >> bit) & 1) != 0
}

/// Where the number of tables stands in the file header.
pub const NUM_TABLES_POS: u64 = 4;

/// Where the table directory starts.
pub const DIRECTORY_POS: u64 = 12;

/// How many bytes one directory entry takes.
pub const ENTRY_SIZE: u64 = 16;

/// Where entry `i` of the table directory stands.
pub open spec fn entry_pos(i: int) -> int {
    DIRECTORY_POS + ENTRY_SIZE * i
}

/// Whether `entry` is entry `i` of the table directory of the file: a
/// tag of four bytes, four bytes that are passed over, and then offset
/// and length.
pub open spec fn is_entry(buf: Seq<u8>, i: int, entry: TableDirectory) -> bool {
    &&& entry.tag@ == buf.subrange(entry_pos(i), entry_pos(i) + 4)
    &&& entry.offset == be_u32(buf, entry_pos(i) + 8)
    &&& entry.length == be_u32(buf, entry_pos(i) + 12)
}

/// The error of reading each directory entry by itself, field by field.
pub open spec fn entry_errors(buf: Seq<u8>) -> spec_fn(int) -> Option<FontErrorView> {
    |i: int|
        first_of(
            read_error(buf, entry_pos(i), 4),
            first_of(read_error(buf, entry_pos(i) + 8, 4), read_error(buf, entry_pos(i) + 12, 4)),
        )
}

/// The error, if any, of reading the number of tables and then the
/// directory entries in order.
pub open spec fn directory_error(buf: Seq<u8>) -> Option<FontErrorView> {
    first_of(
        read_error(buf, NUM_TABLES_POS as int, 2),
        first_error(entry_errors(buf), be_u16(buf, NUM_TABLES_POS as int) as int),
    )
}

/// Whether `entries` is the table directory of the file.
pub open spec fn is_directory(buf: Seq<u8>, entries: Seq<TableDirectory>) -> bool {
    &&& entries.len() == be_u16(buf, NUM_TABLES_POS as int)
    &&& forall|i: int| 0 <= i < entries.len() ==> is_entry(buf, i, #[trigger] entries[i])
}

/// The reading of the table directory fails only on a read past the end
/// of the buffer.
pub proof fn lemma_directory_error(buf: Seq<u8>)
    ensures
        directory_error(buf) matches Some(e) ==> is_overrun(buf, e),
{
    lemma_first_error_overrun(buf, entry_errors(buf), be_u16(buf, NUM_TABLES_POS as int) as int);
}

/// Reads the number of tables from the file header.
pub fn get_num_tables(buffer: &Vec<u8>) -> (r: Result<u16, FontError>)
    ensures
        match r {
            Ok(count) => in_bounds(buffer@, NUM_TABLES_POS as int, 2) && count == be_u16(
                buffer@,
                NUM_TABLES_POS as int,
            ),
            Err(e) => read_error(buffer@, NUM_TABLES_POS as int, 2) == Some(e@),
        },
{
    u16_at(buffer, NUM_TABLES_POS)
}

/// Reads the table directory.
pub fn get_table_details(buffer: &Vec<u8>) -> (r: Result<Vec<TableDirectory>, FontError>)
    ensures
        match r {
            Ok(entries) => directory_error(buffer@) is None && is_directory(buffer@, entries@),
            Err(e) => directory_error(buffer@) == Some(e@),
        },
{
    let count = match get_num_tables(buffer) {
        Ok(count) => count as usize,
        Err(e) => {
            return Err(e);
        },
    };
    let ghost errors = entry_errors(buffer@);
    let mut entries: Vec<TableDirectory> = Vec::new();
    while entries.len() < count
        invariant
            count == be_u16(buffer@, NUM_TABLES_POS as int),
            in_bounds(buffer@, NUM_TABLES_POS as int, 2),
            entries.len() <= count,
            errors == entry_errors(buffer@),
            first_error(errors, entries.len() as int) is None,
            forall|i: int| 0 <= i < entries.len() ==> is_entry(buffer@, i, #[trigger] entries@[i]),
        decreases count - entries.len(),
    {
        let i = entries.len();
        let pos: u64 = DIRECTORY_POS + ENTRY_SIZE * (i as u64);
        let at = match locate(buffer, pos, 4) {
            Ok(at) => at,
            Err(e) => {
                proof {
                    lemma_first_error_stays(errors, i as int, count as int);
                }
                return Err(e);
            },
        };
        let tag: [u8; 4] = [buffer[at], buffer[at + 1], buffer[at + 2], buffer[at + 3]];
        assert(tag@ =~= buffer@.subrange(entry_pos(i as int), entry_pos(i as int) + 4));
        let offset = match u32_at(buffer, pos + 8) {
            Ok(v) => v,
            Err(e) => {
                proof {
                    lemma_first_error_stays(errors, i as int, count as int);
                }
                return Err(e);
            },
        };
        let length = match u32_at(buffer, pos + 12) {
            Ok(v) => v,
            Err(e) => {
                proof {
                    lemma_first_error_stays(errors, i as int, count as int);
                }
                return Err(e);
            },
        };
        entries.push(TableDirectory { tag, offset, length });
    }
    Ok(entries)
}

/// The indices of the points of contour `i`, in order: from its start
/// through its end.
pub open spec fn contour_indices(glyph: GlyphView, i: int) -> Seq<u32> {
    if glyph.contour_start(i) <= glyph.end_pts[i] {
        Seq::new(
            (glyph.end_pts[i] + 1 - glyph.contour_start(i)) as nat,
            |k: int| (glyph.contour_start(i) + k) as u32,
        )
    } else {
        Seq::empty()
    }
}

/// Lists, contour by contour, the indices of the points of a glyph.
pub fn get_indices(glyph: &GlyphDescription) -> (indices: Vec<Vec<u32>>)
    requires
        glyph@.indexable(),
    ensures
        indices.len() == glyph@.end_pts.len(),
        forall|i: int| 0 <= i < indices.len() ==> (#[trigger] indices@[i])@ == contour_indices(
            glyph@,
            i,
        ),
{
    let mut indices: Vec<Vec<u32>> = Vec::new();
    let mut start: u64 = 0;
    while indices.len() < glyph.end_pts_of_contours.len()
        invariant
            glyph@.indexable(),
            indices.len() <= glyph.end_pts_of_contours.len(),
            start == glyph@.contour_start(indices.len() as int),
            start <= u32::MAX + 1,
            forall|i: int|
                0 <= i < indices.len() ==> (#[trigger] indices@[i])@ == contour_indices(glyph@, i),
        decreases glyph.end_pts_of_contours.len() - indices.len(),
    {
        let i = indices.len();
        let end: u64 = glyph.end_pts_of_contours[i] as u64;
        let mut contour: Vec<u32> = Vec::new();
        let mut k: u64 = start;
        while k <= end
            invariant
                end <= u32::MAX,
                start <= k <= end + 1 || (k == start && start > end),
                start <= end ==> contour@ == Seq::new(
                    (k - start) as nat,
                    |n: int| (start + n) as u32,
                ),
                start > end ==> contour@ == Seq::<u32>::empty(),
            decreases end + 1 - k,
        {
            contour.push(k as u32);
            k = k + 1;
        }
        assert(contour@ == contour_indices(glyph@, i as int));
        indices.push(contour);
        start = end + 1;
    }
    indices
}

} // verus!
