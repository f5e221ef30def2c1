//! Decoding of one simple glyph record: the per-point flags, with their
//! run-length encoding, and the delta-encoded coordinates.

use vstd::prelude::*;
use crate::error::{
    first_error, first_of, is_overrun, lemma_first_error_none, lemma_first_error_overrun,
    lemma_first_error_stays, FontError, FontErrorView,
};
use crate::font_loader::{GlyphDescription, GlyphView, Point};
use crate::outline::{
    alternating, lemma_normalized_contours, lemma_normalized_idempotent,
    lemma_normalized_indexable,
};
use crate::utils::{
    be_i16, be_u16, be_u16_array, be_u32, bit_set, i16_at, in_bounds, overrun, read_error,
    spec_bit_set, u16_array_at, u16_array_error, u16_at, u32_at, u8_at,
};

verus! {

/// Flag bit: the point lies on the curve.
pub const ON_CURVE: u8 = 0;

/// Flag bit: the flag is followed by a repeat count.
pub const REPEAT: u8 = 3;

/// The most points that one glyph can have.
pub const MAX_POINTS: usize = 0x1_0000;

/// One of the two coordinate streams of a glyph.
#[derive(Debug, Clone, Copy, PartialEq, Eq)]
pub enum Axis {
    X,
    Y,
}

impl Axis {
    /// The flag bit that says the delta is a single unsigned byte.
    pub open spec fn short_bit(self) -> u8 {
        match self {
            Axis::X => 1,
            Axis::Y => 2,
        }
    }

    /// The flag bit that gives a short delta its sign (set: positive) and
    /// that, for a delta that is not short, says it is zero and absent.
    pub open spec fn same_bit(self) -> u8 {
        match self {
            Axis::X => 4,
            Axis::Y => 5,
        }
    }

    /// The flag bit that says the delta is a single unsigned byte.
    pub fn short(self) -> (bit: u8)
        ensures
            bit == self.short_bit(),
            bit < 8,
    {
        match self {
            Axis::X => 1,
            Axis::Y => 2,
        }
    }

    /// The flag bit for the sign of a short delta, or for an absent one.
    pub fn same(self) -> (bit: u8)
        ensures
            bit == self.same_bit(),
            bit < 8,
    {
        match self {
            Axis::X => 4,
            Axis::Y => 5,
        }
    }
}

/// A decoded prefix of the flags, followed by what the rest of the stream
/// decodes to.
pub open spec fn flags_then(
    prefix: Seq<u8>,
    rest: Result<(Seq<u8>, int), FontErrorView>,
) -> Result<(Seq<u8>, int), FontErrorView> {
    match rest {
        Ok((flags, end)) => Ok((prefix + flags, end)),
        Err(e) => Err(e),
    }
}

/// How many points the flag at `pos` stands for, of the `count` that are
/// still to come: one, or with the repeat bit one more than the byte
/// after it, cut off at `count`.
pub open spec fn flag_run(buf: Seq<u8>, pos: int, count: int) -> int {
    if !spec_bit_set(buf[pos], REPEAT) {
        1
    } else if buf[pos + 1] + 1 <= count {
        buf[pos + 1] + 1
    } else {
        count
    }
}

/// The flags of `count` points, read from `pos` on, and where the stream
/// ends; or the error of the first byte that lies outside the buffer.
pub open spec fn spec_flags(buf: Seq<u8>, pos: int, count: int) -> Result<
    (Seq<u8>, int),
    FontErrorView,
>
    decreases count,
{
    if count <= 0 {
        Ok((Seq::empty(), pos))
    } else if !in_bounds(buf, pos, 1) {
        Err(overrun(buf, pos, 1))
    } else if !spec_bit_set(buf[pos], REPEAT) {
        flags_then(seq![buf[pos]], spec_flags(buf, pos + 1, count - 1))
    } else if !in_bounds(buf, pos + 1, 1) {
        Err(overrun(buf, pos + 1, 1))
    } else {
        let run = flag_run(buf, pos, count);
        flags_then(Seq::new(run as nat, |k: int| buf[pos]), spec_flags(buf, pos + 2, count - run))
    }
}

/// Reads the flags of `count` points from `offset` on. Returns them with
/// the offset of the byte after the last one read.
pub fn read_flags(buffer: &Vec<u8>, offset: u64, count: usize) -> (r: Result<
    (Vec<u8>, u64),
    FontError,
>)
    ensures
        match r {
            Ok((flags, end)) => spec_flags(buffer@, offset as int, count as int) == Ok::<
                (Seq<u8>, int),
                FontErrorView,
            >((flags@, end as int)),
            Err(e) => spec_flags(buffer@, offset as int, count as int) == Err::<
                (Seq<u8>, int),
                FontErrorView,
            >(e@),
        },
{
    let mut flags: Vec<u8> = Vec::new();
    let mut pos: u64 = offset;
    while flags.len() < count
        invariant
            flags.len() <= count,
            pos == offset || pos <= buffer.len(),
            spec_flags(buffer@, offset as int, count as int) == flags_then(
                flags@,
                spec_flags(buffer@, pos as int, count - flags.len()),
            ),
        decreases count - flags.len(),
    {
        let ghost before = flags@;
        let ghost left = count - flags.len();
        let flag = match u8_at(buffer, pos) {
            Ok(flag) => flag,
            Err(e) => {
                return Err(e);
            },
        };
        assert(pos + 1 <= buffer.len());
        if bit_set(flag, REPEAT) {
            let repeat = match u8_at(buffer, pos + 1) {
                Ok(repeat) => repeat,
                Err(e) => {
                    return Err(e);
                },
            };
            let remaining: usize = count - flags.len();
            let run: usize = if repeat as usize + 1 <= remaining {
                repeat as usize + 1
            } else {
                remaining
            };
            let mut k: usize = 0;
            while k < run
                invariant
                    k <= run,
                    before.len() + run <= count,
                    flags@ == before + Seq::new(k as nat, |j: int| flag),
                decreases run - k,
            {
                flags.push(flag);
                k = k + 1;
            }
            pos = pos + 2;
            proof {
                let rest = spec_flags(buffer@, pos as int, left - run);
                let run_flags = Seq::new(run as nat, |j: int| flag);
                if let Ok((tail, end)) = rest {
                    assert(before + (run_flags + tail) == (before + run_flags) + tail);
                }
            }
        } else {
            flags.push(flag);
            pos = pos + 1;
            proof {
                let rest = spec_flags(buffer@, pos as int, left - 1);
                if let Ok((tail, end)) = rest {
                    assert(before + (seq![flag] + tail) == (before + seq![flag]) + tail);
                    assert(before + seq![flag] == before.push(flag));
                }
            }
        }
    }
    Ok((flags, pos))
}

/// How many bytes the delta of a point with this flag takes.
pub open spec fn delta_width(flag: u8, axis: Axis) -> int {
    if spec_bit_set(flag, axis.short_bit()) {
        1
    } else if !spec_bit_set(flag, axis.same_bit()) {
        2
    } else {
        0
    }
}

/// Where the delta of point `i` starts, in a stream that starts at
/// `start`: behind the deltas of all points before it.
pub open spec fn delta_pos(flags: Seq<u8>, start: int, axis: Axis, i: int) -> int
    decreases i,
{
    if i <= 0 {
        start
    } else {
        delta_pos(flags, start, axis, i - 1) + delta_width(flags[i - 1], axis)
    }
}

/// The delta of a point with this flag whose bytes, if it has any, start
/// at `pos`: one unsigned byte with its sign in the flag, a signed 16-bit
/// value, or zero.
pub open spec fn delta_at(buf: Seq<u8>, flag: u8, pos: int, axis: Axis) -> int {
    if spec_bit_set(flag, axis.short_bit()) {
        if spec_bit_set(flag, axis.same_bit()) {
            buf[pos] as int
        } else {
            -(buf[pos] as int)
        }
    } else if !spec_bit_set(flag, axis.same_bit()) {
        be_i16(buf, pos) as int
    } else {
        0
    }
}

/// The delta of point `i`.
pub open spec fn delta(buf: Seq<u8>, flags: Seq<u8>, start: int, axis: Axis, i: int) -> int {
    delta_at(buf, flags[i], delta_pos(flags, start, axis, i), axis)
}

/// The coordinate of point `i`, in design units: the sum of the deltas of
/// the points up to and including it.
pub open spec fn coordinate(buf: Seq<u8>, flags: Seq<u8>, start: int, axis: Axis, i: int) -> int
    decreases i + 1,
{
    if i < 0 {
        0
    } else {
        coordinate(buf, flags, start, axis, i - 1) + delta(buf, flags, start, axis, i)
    }
}

/// The error, if any, of reading the delta of point `i`.
pub open spec fn delta_error(
    buf: Seq<u8>,
    flags: Seq<u8>,
    start: int,
    axis: Axis,
    i: int,
) -> Option<FontErrorView> {
    if delta_width(flags[i], axis) == 0 {
        None
    } else {
        read_error(buf, delta_pos(flags, start, axis, i), delta_width(flags[i], axis))
    }
}

/// The error of reading each delta by itself.
pub open spec fn delta_errors(buf: Seq<u8>, flags: Seq<u8>, start: int, axis: Axis) -> spec_fn(
    int,
) -> Option<FontErrorView> {
    |i: int| delta_error(buf, flags, start, axis, i)
}

/// The error, if any, of reading the deltas of the first `count` points
/// in order: that of the first delta that does not fit.
pub open spec fn deltas_error(
    buf: Seq<u8>,
    flags: Seq<u8>,
    start: int,
    axis: Axis,
    count: int,
) -> Option<FontErrorView> {
    first_error(delta_errors(buf, flags, start, axis), count)
}

/// The coordinates of all points along one axis, in design units.
pub open spec fn coordinates(buf: Seq<u8>, flags: Seq<u8>, start: int, axis: Axis) -> Seq<i64> {
    Seq::new(flags.len(), |i: int| coordinate(buf, flags, start, axis, i) as i64)
}

/// A coordinate is a sum of deltas of at most 16 bits each.
pub proof fn lemma_coordinate_bounds(buf: Seq<u8>, flags: Seq<u8>, start: int, axis: Axis, i: int)
    requires
        -1 <= i,
    ensures
        -0x8000 * (i + 1) <= coordinate(buf, flags, start, axis, i) <= 0x7fff * (i + 1),
    decreases i + 1,
{
    if i >= 0 {
        lemma_coordinate_bounds(buf, flags, start, axis, i - 1);
    }
}

/// Reads the coordinates of the points with these flags along one axis,
/// from `offset` on. Returns them, in design units, with the offset of
/// the byte after the last delta.
pub fn read_coordinates(buffer: &Vec<u8>, flags: &Vec<u8>, offset: u64, axis: Axis) -> (r: Result<
    (Vec<i64>, u64),
    FontError,
>)
    requires
        flags.len() <= MAX_POINTS,
    ensures
        match r {
            Ok((values, end)) => {
                &&& deltas_error(buffer@, flags@, offset as int, axis, flags.len() as int) is None
                &&& values@ == coordinates(buffer@, flags@, offset as int, axis)
                &&& end == delta_pos(flags@, offset as int, axis, flags.len() as int)
            },
            Err(e) => deltas_error(buffer@, flags@, offset as int, axis, flags.len() as int)
                == Some(e@),
        },
{
    let short = axis.short();
    let same = axis.same();
    let mut values: Vec<i64> = Vec::new();
    let mut pos: u64 = offset;
    let mut sum: i64 = 0;
    while values.len() < flags.len()
        invariant
            short == axis.short_bit(),
            same == axis.same_bit(),
            short < 8,
            same < 8,
            flags.len() <= MAX_POINTS,
            values.len() <= flags.len(),
            pos == offset || pos <= buffer.len(),
            pos == delta_pos(flags@, offset as int, axis, values.len() as int),
            sum == coordinate(buffer@, flags@, offset as int, axis, values.len() - 1),
            deltas_error(buffer@, flags@, offset as int, axis, values.len() as int) is None,
            values@ == Seq::new(
                values.len() as nat,
                |i: int| coordinate(buffer@, flags@, offset as int, axis, i) as i64,
            ),
        decreases flags.len() - values.len(),
    {
        let i = values.len();
        let flag = flags[i];
        proof {
            lemma_coordinate_bounds(buffer@, flags@, offset as int, axis, i - 1);
            lemma_coordinate_bounds(buffer@, flags@, offset as int, axis, i as int);
        }
        if bit_set(flag, short) {
            let byte = match u8_at(buffer, pos) {
                Ok(byte) => byte,
                Err(e) => {
                    proof {
                        lemma_first_error_stays(
                            delta_errors(buffer@, flags@, offset as int, axis),
                            i as int,
                            flags.len() as int,
                        );
                    }
                    return Err(e);
                },
            };
            assert(pos + 1 <= buffer.len());
            if bit_set(flag, same) {
                sum = sum + byte as i64;
            } else {
                sum = sum - byte as i64;
            }
            pos = pos + 1;
        } else if !bit_set(flag, same) {
            let value = match i16_at(buffer, pos) {
                Ok(value) => value,
                Err(e) => {
                    proof {
                        lemma_first_error_stays(
                            delta_errors(buffer@, flags@, offset as int, axis),
                            i as int,
                            flags.len() as int,
                        );
                    }
                    return Err(e);
                },
            };
            assert(pos + 2 <= buffer.len());
            sum = sum + value as i64;
            pos = pos + 2;
        }
        values.push(sum);
    }
    Ok((values, pos))
}

/// How many points a glyph with these contour ends has: one more than
/// the greatest end index, and none where there is no contour.
pub open spec fn point_count(ends: Seq<u16>) -> int
    decreases ends.len(),
{
    if ends.len() == 0 {
        0
    } else if point_count(ends.drop_last()) > ends.last() {
        point_count(ends.drop_last())
    } else {
        ends.last() + 1
    }
}

/// Every contour ends before the point count, and a glyph with a contour
/// has a point.
pub proof fn lemma_point_count(ends: Seq<u16>)
    ensures
        0 <= point_count(ends) <= MAX_POINTS,
        ends.len() > 0 ==> point_count(ends) > 0,
        forall|i: int| 0 <= i < ends.len() ==> ends[i] < point_count(ends),
    decreases ends.len(),
{
    if ends.len() > 0 {
        lemma_point_count(ends.drop_last());
        assert forall|i: int| 0 <= i < ends.len() implies ends[i] < point_count(ends) by {
            if i < ends.len() - 1 {
                assert(ends[i] == ends.drop_last()[i]);
            }
        }
    }
}

/// Counts the points of a glyph with these contour ends.
pub fn count_points(ends: &Vec<u16>) -> (count: usize)
    ensures
        count == point_count(ends@),
{
    let mut count: usize = 0;
    let mut i: usize = 0;
    while i < ends.len()
        invariant
            i <= ends.len(),
            count == point_count(ends@.take(i as int)),
            count <= MAX_POINTS,
        decreases ends.len() - i,
    {
        proof {
            assert(ends@.take(i + 1).drop_last() == ends@.take(i as int));
            lemma_point_count(ends@.take(i + 1));
        }
        if ends[i] as usize >= count {
            count = ends[i] as usize + 1;
        }
        i = i + 1;
    }
    proof {
        assert(ends@.take(ends.len() as int) == ends@);
    }
    count
}

/// The error, if any, of reading the ten bytes of a glyph header at
/// `offset`, field by field.
pub open spec fn header_error(buf: Seq<u8>, offset: int) -> Option<FontErrorView> {
    first_of(
        read_error(buf, offset, 2),
        first_of(
            read_error(buf, offset + 2, 2),
            first_of(
                read_error(buf, offset + 4, 2),
                first_of(read_error(buf, offset + 6, 2), read_error(buf, offset + 8, 2)),
            ),
        ),
    )
}

/// The glyph that a header stands for by itself: its bounding box, and
/// no outline.
pub open spec fn header_glyph(buf: Seq<u8>, offset: int) -> GlyphView {
    GlyphView {
        number_of_contours: be_i16(buf, offset),
        xmin: be_i16(buf, offset + 2),
        ymin: be_i16(buf, offset + 4),
        xmax: be_i16(buf, offset + 6),
        ymax: be_i16(buf, offset + 8),
        end_pts: Seq::empty(),
        coordinates: Seq::empty(),
    }
}

/// The contour ends of the glyph record at `offset`, as the font has them.
pub open spec fn contour_ends(buf: Seq<u8>, offset: int) -> Seq<u16> {
    be_u16_array(buf, offset + 10, be_i16(buf, offset) as int)
}

/// Where the instruction length of the glyph record at `offset` stands.
pub open spec fn instructions_pos(buf: Seq<u8>, offset: int) -> int {
    offset + 10 + 2 * be_i16(buf, offset)
}

/// Where the flags of the glyph record at `offset` start: behind the
/// instructions, which are passed over.
pub open spec fn flags_pos(buf: Seq<u8>, offset: int) -> int {
    instructions_pos(buf, offset) + 2 + be_u16(buf, instructions_pos(buf, offset))
}

/// The points of a glyph whose flags were decoded to `flags` and whose
/// horizontal deltas start at `x_pos`; the vertical ones follow them.
pub open spec fn outline_points(buf: Seq<u8>, flags: Seq<u8>, x_pos: int) -> Seq<Point> {
    let y_pos = delta_pos(flags, x_pos, Axis::X, flags.len() as int);
    Seq::new(
        flags.len(),
        |i: int|
            Point::at_units(
                coordinate(buf, flags, x_pos, Axis::X, i),
                coordinate(buf, flags, y_pos, Axis::Y, i),
                spec_bit_set(flags[i], ON_CURVE),
            ),
    )
}

/// What the outline of the simple glyph at `offset` decodes to, the
/// header having been read: contour ends, instruction length, the
/// instructions (passed over), flags, horizontal and then vertical
/// deltas. The error is that of the first read that lies outside the
/// buffer.
pub open spec fn spec_outline(buf: Seq<u8>, offset: int) -> Result<GlyphView, FontErrorView> {
    let contours = be_i16(buf, offset) as int;
    let ends = contour_ends(buf, offset);
    let length_pos = instructions_pos(buf, offset);
    if u16_array_error(buf, offset + 10, contours) is Some {
        Err(u16_array_error(buf, offset + 10, contours).unwrap())
    } else if !in_bounds(buf, length_pos, 2) {
        Err(overrun(buf, length_pos, 2))
    } else {
        match spec_flags(buf, flags_pos(buf, offset), point_count(ends)) {
            Err(e) => Err(e),
            Ok((flags, x_pos)) => {
                let y_pos = delta_pos(flags, x_pos, Axis::X, flags.len() as int);
                if deltas_error(buf, flags, x_pos, Axis::X, flags.len() as int) is Some {
                    Err(deltas_error(buf, flags, x_pos, Axis::X, flags.len() as int).unwrap())
                } else if deltas_error(buf, flags, y_pos, Axis::Y, flags.len() as int) is Some {
                    Err(deltas_error(buf, flags, y_pos, Axis::Y, flags.len() as int).unwrap())
                } else {
                    Ok(
                        GlyphView {
                            end_pts: Seq::new(ends.len(), |i: int| ends[i] as int),
                            coordinates: outline_points(buf, flags, x_pos),
                            ..header_glyph(buf, offset)
                        },
                    )
                }
            },
        }
    }
}

/// What the glyph record at `offset` decodes to. A record whose contour
/// count is zero or negative (a composite glyph) gives its bounding box
/// and no outline, and nothing behind its header is read.
pub open spec fn spec_glyph(buf: Seq<u8>, offset: int) -> Result<GlyphView, FontErrorView> {
    if header_error(buf, offset) is Some {
        Err(header_error(buf, offset).unwrap())
    } else if be_i16(buf, offset) <= 0 {
        Ok(header_glyph(buf, offset))
    } else {
        spec_outline(buf, offset)
    }
}

/// The decoding of `count` flags yields `count` flags, and ends inside
/// the buffer or where it began.
pub proof fn lemma_flags_len(buf: Seq<u8>, pos: int, count: int)
    requires
        0 <= count,
    ensures
        spec_flags(buf, pos, count) matches Ok((flags, end)) ==> flags.len() == count && pos
            <= end,
    decreases count,
{
    if count > 0 && in_bounds(buf, pos, 1) {
        if !spec_bit_set(buf[pos], REPEAT) {
            lemma_flags_len(buf, pos + 1, count - 1);
        } else if in_bounds(buf, pos + 1, 1) {
            lemma_flags_len(buf, pos + 2, count - flag_run(buf, pos, count));
        }
    }
}

/// Joins the decoded flags and coordinates into points.
fn build_points(
    flags: &Vec<u8>,
    xs: &Vec<i64>,
    ys: &Vec<i64>,
    Ghost(buf): Ghost<Seq<u8>>,
    Ghost(x_pos): Ghost<int>,
) -> (points: Vec<Point>)
    requires
        flags.len() <= MAX_POINTS,
        xs@ == coordinates(buf, flags@, x_pos, Axis::X),
        ys@ == coordinates(
            buf,
            flags@,
            delta_pos(flags@, x_pos, Axis::X, flags.len() as int),
            Axis::Y,
        ),
    ensures
        points@ == outline_points(buf, flags@, x_pos),
{
    let ghost y_pos = delta_pos(flags@, x_pos, Axis::X, flags.len() as int);
    let mut points: Vec<Point> = Vec::new();
    while points.len() < flags.len()
        invariant
            flags.len() <= MAX_POINTS,
            points.len() <= flags.len(),
            xs@ == coordinates(buf, flags@, x_pos, Axis::X),
            ys@ == coordinates(buf, flags@, y_pos, Axis::Y),
            y_pos == delta_pos(flags@, x_pos, Axis::X, flags.len() as int),
            points@ == outline_points(buf, flags@, x_pos).take(points.len() as int),
        decreases flags.len() - points.len(),
    {
        let i = points.len();
        proof {
            lemma_coordinate_bounds(buf, flags@, x_pos, Axis::X, i as int);
            lemma_coordinate_bounds(buf, flags@, y_pos, Axis::Y, i as int);
        }
        let point = Point { x: 2 * xs[i], y: 2 * ys[i], on_curve: bit_set(flags[i], ON_CURVE) };
        points.push(point);
    }
    points
}

/// Decodes the glyph record that lies `location` bytes into the glyph
/// table, which starts at `table`.
pub fn decode_glyph(buffer: &Vec<u8>, table: u32, location: u32) -> (r: Result<
    GlyphDescription,
    FontError,
>)
    ensures
        match r {
            Ok(glyph) => spec_glyph(buffer@, table + location) == Ok::<GlyphView, FontErrorView>(
                glyph@,
            ) && glyph@.wf(),
            Err(e) => spec_glyph(buffer@, table + location) == Err::<GlyphView, FontErrorView>(
                e@,
            ),
        },
{
    let offset: u64 = table as u64 + location as u64;
    let number_of_contours = match i16_at(buffer, offset) {
        Ok(v) => v,
        Err(e) => {
            return Err(e);
        },
    };
    let xmin = match i16_at(buffer, offset + 2) {
        Ok(v) => v,
        Err(e) => {
            return Err(e);
        },
    };
    let ymin = match i16_at(buffer, offset + 4) {
        Ok(v) => v,
        Err(e) => {
            return Err(e);
        },
    };
    let xmax = match i16_at(buffer, offset + 6) {
        Ok(v) => v,
        Err(e) => {
            return Err(e);
        },
    };
    let ymax = match i16_at(buffer, offset + 8) {
        Ok(v) => v,
        Err(e) => {
            return Err(e);
        },
    };
    let mut glyph = GlyphDescription {
        number_of_contours,
        xmin,
        ymin,
        xmax,
        ymax,
        end_pts_of_contours: Vec::new(),
        coordinates: Vec::new(),
    };
    if number_of_contours <= 0 {
        assert(glyph@.end_pts =~= Seq::<int>::empty());
        return Ok(glyph);
    }
    let contours = number_of_contours as usize;
    let ends = match u16_array_at(buffer, offset + 10, contours) {
        Ok(ends) => ends,
        Err(e) => {
            return Err(e);
        },
    };
    let length_pos: u64 = offset + 10 + 2 * (contours as u64);
    let instruction_length = match u16_at(buffer, length_pos) {
        Ok(v) => v,
        Err(e) => {
            return Err(e);
        },
    };
    let count = count_points(&ends);
    proof {
        lemma_point_count(ends@);
        lemma_flags_len(buffer@, flags_pos(buffer@, offset as int), count as int);
    }
    let (flags, x_pos) = match read_flags(
        buffer,
        length_pos + 2 + instruction_length as u64,
        count,
    ) {
        Ok(decoded) => decoded,
        Err(e) => {
            return Err(e);
        },
    };
    let (xs, y_pos) = match read_coordinates(buffer, &flags, x_pos, Axis::X) {
        Ok(decoded) => decoded,
        Err(e) => {
            return Err(e);
        },
    };
    let (ys, _) = match read_coordinates(buffer, &flags, y_pos, Axis::Y) {
        Ok(decoded) => decoded,
        Err(e) => {
            return Err(e);
        },
    };
    let mut end_pts: Vec<usize> = Vec::new();
    while end_pts.len() < ends.len()
        invariant
            end_pts.len() <= ends.len(),
            end_pts@ == Seq::new(end_pts.len() as nat, |i: int| ends@[i] as usize),
        decreases ends.len() - end_pts.len(),
    {
        end_pts.push(ends[end_pts.len()] as usize);
    }
    glyph.end_pts_of_contours = end_pts;
    glyph.coordinates = build_points(&flags, &xs, &ys, Ghost(buffer@), Ghost(x_pos as int));
    proof {
        let spec = spec_outline(buffer@, offset as int);
        assert(spec->Ok_0.end_pts == glyph@.end_pts);
    }
    Ok(glyph)
}

/// Where the location of glyph `i` stands in the location table at
/// `loca`: entries take four bytes in the long format and two in the
/// short one.
pub open spec fn location_pos(loca: int, long: bool, i: int) -> int {
    if long {
        loca + 4 * i
    } else {
        loca + 2 * i
    }
}

/// How far into the glyph table glyph `i` lies. The long format holds
/// the byte offset itself, the short one half of it.
pub open spec fn location(buf: Seq<u8>, loca: int, long: bool, i: int) -> u32 {
    if long {
        be_u32(buf, location_pos(loca, long, i))
    } else {
        (2 * be_u16(buf, location_pos(loca, long, i))) as u32
    }
}

/// The error of reading each location by itself.
pub open spec fn location_errors(buf: Seq<u8>, loca: int, long: bool) -> spec_fn(int) -> Option<
    FontErrorView,
> {
    |i: int|
        read_error(
            buf,
            location_pos(loca, long, i),
            if long {
                4
            } else {
                2
            },
        )
}

/// The locations of the first `count` glyphs.
pub open spec fn locations(buf: Seq<u8>, loca: int, long: bool, count: int) -> Seq<u32> {
    Seq::new(count as nat, |i: int| location(buf, loca, long, i))
}

/// Reads the locations of `count` glyphs from the location table at
/// `loca`.
pub fn read_locations(buffer: &Vec<u8>, loca: u32, long: bool, count: u16) -> (r: Result<
    Vec<u32>,
    FontError,
>)
    ensures
        match r {
            Ok(found) => first_error(location_errors(buffer@, loca as int, long), count as int)
                is None && found@ == locations(buffer@, loca as int, long, count as int),
            Err(e) => first_error(location_errors(buffer@, loca as int, long), count as int)
                == Some(e@),
        },
{
    let ghost errors = location_errors(buffer@, loca as int, long);
    let mut found: Vec<u32> = Vec::new();
    while found.len() < count as usize
        invariant
            found.len() <= count,
            errors == location_errors(buffer@, loca as int, long),
            first_error(errors, found.len() as int) is None,
            found@ == locations(buffer@, loca as int, long, found.len() as int),
        decreases count - found.len(),
    {
        let i = found.len();
        let value = if long {
            match u32_at(buffer, loca as u64 + 4 * (i as u64)) {
                Ok(value) => value,
                Err(e) => {
                    proof {
                        lemma_first_error_stays(errors, i as int, count as int);
                    }
                    return Err(e);
                },
            }
        } else {
            match u16_at(buffer, loca as u64 + 2 * (i as u64)) {
                Ok(half) => 2 * (half as u32),
                Err(e) => {
                    proof {
                        lemma_first_error_stays(errors, i as int, count as int);
                    }
                    return Err(e);
                },
            }
        };
        found.push(value);
    }
    Ok(found)
}

/// What glyph `i` decodes to, before its contours are normalized.
pub open spec fn located_glyph(buf: Seq<u8>, glyf: int, loca: int, long: bool, i: int) -> Result<
    GlyphView,
    FontErrorView,
> {
    spec_glyph(buf, glyf + location(buf, loca, long, i))
}

/// The error of decoding each glyph by itself.
pub open spec fn glyph_errors(buf: Seq<u8>, glyf: int, loca: int, long: bool) -> spec_fn(
    int,
) -> Option<FontErrorView> {
    |i: int|
        match located_glyph(buf, glyf, loca, long, i) {
            Ok(_) => None,
            Err(e) => Some(e),
        }
}

/// The first `count` glyphs of a font whose glyph table starts at
/// `glyf` and whose location table starts at `loca`, each with its
/// contours normalized. All locations are read before the first glyph is
/// decoded; the glyphs are then decoded in order.
pub open spec fn spec_glyph_table(
    buf: Seq<u8>,
    glyf: int,
    loca: int,
    long: bool,
    count: int,
) -> Result<Seq<GlyphView>, FontErrorView> {
    if first_error(location_errors(buf, loca, long), count) is Some {
        Err(first_error(location_errors(buf, loca, long), count).unwrap())
    } else if first_error(glyph_errors(buf, glyf, loca, long), count) is Some {
        Err(first_error(glyph_errors(buf, glyf, loca, long), count).unwrap())
    } else {
        Ok(
            Seq::new(
                count as nat,
                |i: int| located_glyph(buf, glyf, loca, long, i)->Ok_0.normalized(),
            ),
        )
    }
}

/// Each glyph of a loaded glyph table is well-formed, its contours
/// alternate between curve points and control points, its contour ends
/// are indices of 32 bits, and normalizing it again changes nothing.
pub proof fn lemma_loaded_glyph(
    buf: Seq<u8>,
    glyf: int,
    loca: int,
    long: bool,
    count: int,
    i: int,
)
    requires
        spec_glyph_table(buf, glyf, loca, long, count) is Ok,
        0 <= i < count,
    ensures
        ({
            let glyph = spec_glyph_table(buf, glyf, loca, long, count)->Ok_0[i];
            &&& glyph.wf()
            &&& glyph.indexable()
            &&& glyph.normalized() == glyph
            &&& forall|k: int|
                0 <= k < glyph.end_pts.len() ==> alternating(#[trigger] glyph.contour(k))
        }),
{
    lemma_first_error_none(glyph_errors(buf, glyf, loca, long), count);
    assert(glyph_errors(buf, glyf, loca, long)(i) is None);
    let decoded = located_glyph(buf, glyf, loca, long, i)->Ok_0;
    lemma_glyph_wf(buf, glyf + location(buf, loca, long, i));
    lemma_normalized_indexable(decoded);
    lemma_normalized_idempotent(decoded);
    let glyph = decoded.normalized();
    assert forall|k: int| 0 <= k < glyph.end_pts.len() implies alternating(
        #[trigger] glyph.contour(k),
    ) by {
        lemma_normalized_contours(decoded, k);
    }
    if decoded.end_pts.len() > 0 {
        lemma_normalized_contours(decoded, 0);
    }
}

/// The mathematical content of each glyph of a list.
pub open spec fn glyph_views(glyphs: Seq<GlyphDescription>) -> Seq<GlyphView> {
    glyphs.map_values(|glyph: GlyphDescription| glyph@)
}

/// Decodes and normalizes `count` glyphs.
pub fn load_glyph_table(buffer: &Vec<u8>, glyf: u32, loca: u32, long: bool, count: u16) -> (r:
    Result<Vec<GlyphDescription>, FontError>)
    ensures
        match r {
            Ok(glyphs) => {
                &&& spec_glyph_table(buffer@, glyf as int, loca as int, long, count as int) == Ok::<
                    Seq<GlyphView>,
                    FontErrorView,
                >(glyph_views(glyphs@))
                &&& forall|i: int|
                    0 <= i < glyphs.len() ==> {
                        &&& (#[trigger] glyphs@[i])@.wf()
                        &&& glyphs@[i]@.indexable()
                    }
            },
            Err(e) => spec_glyph_table(buffer@, glyf as int, loca as int, long, count as int)
                == Err::<Seq<GlyphView>, FontErrorView>(e@),
        },
{
    let found = match read_locations(buffer, loca, long, count) {
        Ok(found) => found,
        Err(e) => {
            return Err(e);
        },
    };
    let ghost errors = glyph_errors(buffer@, glyf as int, loca as int, long);
    let mut glyphs: Vec<GlyphDescription> = Vec::new();
    while glyphs.len() < found.len()
        invariant
            found@ == locations(buffer@, loca as int, long, count as int),
            first_error(location_errors(buffer@, loca as int, long), count as int) is None,
            glyphs.len() <= found.len(),
            errors == glyph_errors(buffer@, glyf as int, loca as int, long),
            first_error(errors, glyphs.len() as int) is None,
            forall|i: int|
                0 <= i < glyphs.len() ==> (#[trigger] glyphs@[i])@ == located_glyph(
                    buffer@,
                    glyf as int,
                    loca as int,
                    long,
                    i,
                )->Ok_0.normalized(),
        decreases found.len() - glyphs.len(),
    {
        let i = glyphs.len();
        let mut glyph = match decode_glyph(buffer, glyf, found[i]) {
            Ok(glyph) => glyph,
            Err(e) => {
                proof {
                    lemma_first_error_stays(errors, i as int, count as int);
                }
                return Err(e);
            },
        };
        glyph.insert_inbetween_points();
        glyphs.push(glyph);
    }
    assert(glyph_views(glyphs@) =~= spec_glyph_table(
        buffer@,
        glyf as int,
        loca as int,
        long,
        count as int,
    )->Ok_0);
    proof {
        assert forall|i: int| 0 <= i < glyphs.len() implies (#[trigger] glyphs@[i])@.wf()
            && glyphs@[i]@.indexable() by {
            lemma_loaded_glyph(buffer@, glyf as int, loca as int, long, count as int, i);
        }
    }
    Ok(glyphs)
}

/// Whether every contour ends behind the one before it.
pub open spec fn increasing(ends: Seq<u16>) -> bool {
    forall|i: int, j: int| 0 <= i < j < ends.len() ==> ends[i] < ends[j]
}

/// Where the contour ends increase, the last of them is the last point.
pub proof fn lemma_increasing_point_count(ends: Seq<u16>)
    requires
        ends.len() > 0,
        increasing(ends),
    ensures
        point_count(ends) == ends.last() + 1,
{
    lemma_point_count(ends.drop_last());
    if ends.len() > 1 {
        let front = ends.drop_last();
        assert forall|i: int| 0 <= i < front.len() implies front[i] < ends.last() by {
            assert(front[i] == ends[i]);
        }
        lemma_point_count_reached(front);
    }
}

/// The point count of a glyph with a contour is one more than one of its
/// contour ends.
pub proof fn lemma_point_count_reached(ends: Seq<u16>)
    requires
        ends.len() > 0,
    ensures
        exists|i: int| 0 <= i < ends.len() && point_count(ends) == #[trigger] ends[i] + 1,
    decreases ends.len(),
{
    let front = ends.drop_last();
    if point_count(front) > ends.last() {
        lemma_point_count_reached(front);
        let i = choose|i: int|
            0 <= i < front.len() && point_count(front) == #[trigger] front[i] + 1;
        assert(ends[i] == front[i]);
    } else {
        assert(point_count(ends) == ends[ends.len() - 1] + 1);
    }
}

/// A simple glyph whose contour ends increase in the font decodes to a
/// glyph whose contour ends increase, the last of them being its last
/// point.
pub proof fn lemma_contour_ends(buf: Seq<u8>, offset: int)
    requires
        spec_glyph(buf, offset) is Ok,
        be_i16(buf, offset) > 0,
        increasing(contour_ends(buf, offset)),
    ensures
        ({
            let glyph = spec_glyph(buf, offset)->Ok_0;
            &&& glyph.end_pts.len() == be_i16(buf, offset)
            &&& forall|i: int, j: int|
                0 <= i < j < glyph.end_pts.len() ==> glyph.end_pts[i] < glyph.end_pts[j]
            &&& glyph.end_pts.last() == glyph.coordinates.len() - 1
        }),
{
    let ends = contour_ends(buf, offset);
    lemma_point_count(ends);
    lemma_increasing_point_count(ends);
    lemma_flags_len(buf, flags_pos(buf, offset), point_count(ends));
}

/// Every simple glyph decodes to as many points as its contour ends ask
/// for, and each contour ends on one of them. No glyph has more than
/// 32767 contours or 65536 points.
pub proof fn lemma_glyph_wf(buf: Seq<u8>, offset: int)
    requires
        spec_glyph(buf, offset) is Ok,
    ensures
        spec_glyph(buf, offset)->Ok_0.wf(),
        spec_glyph(buf, offset)->Ok_0.end_pts.len() <= 0x7fff,
        spec_glyph(buf, offset)->Ok_0.coordinates.len() <= MAX_POINTS,
        be_i16(buf, offset) > 0 ==> spec_glyph(buf, offset)->Ok_0.coordinates.len() == point_count(
            contour_ends(buf, offset),
        ),
{
    if be_i16(buf, offset) > 0 {
        let ends = contour_ends(buf, offset);
        lemma_point_count(ends);
        lemma_flags_len(buf, flags_pos(buf, offset), point_count(ends));
    }
}

/// A flag with the repeat bit, followed by the count `r`, stands for
/// `r + 1` points, where that many are still to come: they all bear the
/// flag, and the flag of the point after them is read behind the count.
pub proof fn lemma_repeated_flag(buf: Seq<u8>, pos: int, count: int)
    requires
        in_bounds(buf, pos, 2),
        spec_bit_set(buf[pos], REPEAT),
        buf[pos + 1] + 1 <= count,
    ensures
        spec_flags(buf, pos, count) == flags_then(
            Seq::new((buf[pos + 1] + 1) as nat, |k: int| buf[pos]),
            spec_flags(buf, pos + 2, count - (buf[pos + 1] + 1)),
        ),
        spec_flags(buf, pos, count) matches Ok((flags, end)) ==> forall|k: int|
            0 <= k <= buf[pos + 1] ==> flags[k] == buf[pos],
{
}

/// A flag without the repeat bit stands for one point.
pub proof fn lemma_single_flag(buf: Seq<u8>, pos: int, count: int)
    requires
        in_bounds(buf, pos, 1),
        !spec_bit_set(buf[pos], REPEAT),
        0 < count,
    ensures
        spec_flags(buf, pos, count) == flags_then(
            seq![buf[pos]],
            spec_flags(buf, pos + 1, count - 1),
        ),
{
}

/// The coordinate of a point is that of the point before it plus its own
/// delta, and that of the first point is its delta: the sum starts at
/// zero with the glyph and is carried through all its points. A point
/// whose flag has the same-bit without the short-bit keeps the
/// coordinate of the point before it.
pub proof fn lemma_accumulation(buf: Seq<u8>, flags: Seq<u8>, start: int, axis: Axis, i: int)
    requires
        0 <= i < flags.len(),
    ensures
        coordinate(buf, flags, start, axis, -1) == 0,
        coordinate(buf, flags, start, axis, i) == coordinate(buf, flags, start, axis, i - 1)
            + delta(buf, flags, start, axis, i),
        !spec_bit_set(flags[i], axis.short_bit()) && spec_bit_set(flags[i], axis.same_bit())
            ==> delta(buf, flags, start, axis, i) == 0,
        -0x8000 <= delta(buf, flags, start, axis, i) <= 0x7fff,
{
}

/// The points of a decoded glyph carry the running sums of the deltas,
/// in half units, whatever contour they belong to.
pub proof fn lemma_point_accumulation(buf: Seq<u8>, flags: Seq<u8>, x_pos: int, i: int)
    requires
        flags.len() <= MAX_POINTS,
        0 < i < flags.len(),
    ensures
        ({
            let points = outline_points(buf, flags, x_pos);
            let y_pos = delta_pos(flags, x_pos, Axis::X, flags.len() as int);
            &&& points[i].x == points[i - 1].x + 2 * delta(buf, flags, x_pos, Axis::X, i)
            &&& points[i].y == points[i - 1].y + 2 * delta(buf, flags, y_pos, Axis::Y, i)
            &&& points[0].x == 2 * delta(buf, flags, x_pos, Axis::X, 0)
            &&& points[0].y == 2 * delta(buf, flags, y_pos, Axis::Y, 0)
        }),
{
    let y_pos = delta_pos(flags, x_pos, Axis::X, flags.len() as int);
    lemma_coordinate_bounds(buf, flags, x_pos, Axis::X, i);
    lemma_coordinate_bounds(buf, flags, x_pos, Axis::X, i - 1);
    lemma_coordinate_bounds(buf, flags, x_pos, Axis::X, 0);
    lemma_coordinate_bounds(buf, flags, y_pos, Axis::Y, i);
    lemma_coordinate_bounds(buf, flags, y_pos, Axis::Y, i - 1);
    lemma_coordinate_bounds(buf, flags, y_pos, Axis::Y, 0);
    lemma_accumulation(buf, flags, x_pos, Axis::X, 0);
    lemma_accumulation(buf, flags, y_pos, Axis::Y, 0);
}

/// A record whose contour count is zero or negative decodes to its
/// bounding box and no outline as soon as its ten header bytes lie in
/// the buffer, whatever follows them.
pub proof fn lemma_no_outline(buf: Seq<u8>, offset: int)
    requires
        0 <= offset,
        in_bounds(buf, offset, 10),
        be_i16(buf, offset) <= 0,
    ensures
        spec_glyph(buf, offset) == Ok::<GlyphView, FontErrorView>(header_glyph(buf, offset)),
        header_glyph(buf, offset).end_pts.len() == 0,
        header_glyph(buf, offset).coordinates.len() == 0,
{
}

/// The decoding of flags fails only on a read past the end of the buffer.
pub proof fn lemma_flags_error(buf: Seq<u8>, pos: int, count: int)
    ensures
        spec_flags(buf, pos, count) matches Err(e) ==> is_overrun(buf, e),
    decreases count,
{
    if count > 0 && in_bounds(buf, pos, 1) {
        if !spec_bit_set(buf[pos], REPEAT) {
            lemma_flags_error(buf, pos + 1, count - 1);
        } else if in_bounds(buf, pos + 1, 1) {
            lemma_flags_error(buf, pos + 2, count - flag_run(buf, pos, count));
        }
    }
}

/// The reading of deltas fails only on a read past the end of the buffer.
pub proof fn lemma_deltas_error(buf: Seq<u8>, flags: Seq<u8>, start: int, axis: Axis, count: int)
    ensures
        deltas_error(buf, flags, start, axis, count) matches Some(e) ==> is_overrun(buf, e),
{
    lemma_first_error_overrun(buf, delta_errors(buf, flags, start, axis), count);
}

/// The decoding of a glyph fails only on a read past the end of the
/// buffer.
pub proof fn lemma_glyph_error(buf: Seq<u8>, offset: int)
    ensures
        spec_glyph(buf, offset) matches Err(e) ==> is_overrun(buf, e),
{
    if header_error(buf, offset) is None && be_i16(buf, offset) > 0 {
        let ends = contour_ends(buf, offset);
        lemma_flags_error(buf, flags_pos(buf, offset), point_count(ends));
        if let Ok((flags, x_pos)) = spec_flags(buf, flags_pos(buf, offset), point_count(ends)) {
            let y_pos = delta_pos(flags, x_pos, Axis::X, flags.len() as int);
            lemma_deltas_error(buf, flags, x_pos, Axis::X, flags.len() as int);
            lemma_deltas_error(buf, flags, y_pos, Axis::Y, flags.len() as int);
        }
    }
}

/// The loading of the glyphs fails only on a read past the end of the
/// buffer.
pub proof fn lemma_glyph_table_error(buf: Seq<u8>, glyf: int, loca: int, long: bool, count: int)
    ensures
        spec_glyph_table(buf, glyf, loca, long, count) matches Err(e) ==> is_overrun(buf, e),
{
    lemma_first_error_overrun(buf, location_errors(buf, loca, long), count);
    assert forall|i: int| 0 <= i < count implies ((#[trigger] glyph_errors(
        buf,
        glyf,
        loca,
        long,
    )(i)) matches Some(e) ==> is_overrun(buf, e)) by {
        lemma_glyph_error(buf, glyf + location(buf, loca, long, i));
    }
    lemma_first_error_overrun(buf, glyph_errors(buf, glyf, loca, long), count);
}

} // verus!
