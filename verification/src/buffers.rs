//! Glyphs laid out as lists of 32-bit integers, as a shader reads them
//! from storage buffers: one record for each glyph, one for each point,
//! and one number for each contour.

use vstd::prelude::*;
use crate::font_loader::{GlyphDescription, GlyphView, Point};
use crate::glyph::glyph_views;

verus! {

/// How many numbers stand for one glyph.
pub const GLYPH_RECORD: usize = 8;

/// How many numbers stand for one point.
pub const POINT_RECORD: usize = 3;

/// The three lists that stand for some glyphs.
#[derive(Debug, PartialEq, Eq)]
pub struct GlyphData {
    /// For each glyph: its bounding box as xmin, ymin, xmax, ymax, the
    /// number of its points, the number of its contours, and where its
    /// points and its contours start in the two other lists.
    pub glyph_data: Vec<i32>,
    /// For each point: x and y in whole design units, and 1 for a point
    /// on the curve, 0 for a control point.
    pub point_data: Vec<i32>,
    /// For each contour: the index of its last point among the points of
    /// its glyph.
    pub contour_data: Vec<i32>,
}

/// The mathematical content of a [`GlyphData`].
pub struct GlyphDataView {
    pub glyph_data: Seq<i32>,
    pub point_data: Seq<i32>,
    pub contour_data: Seq<i32>,
}

impl View for GlyphData {
    type V = GlyphDataView;

    open spec fn view(&self) -> GlyphDataView {
        GlyphDataView {
            glyph_data: self.glyph_data@,
            point_data: self.point_data@,
            contour_data: self.contour_data@,
        }
    }
}

/// A coordinate in whole design units: half of the half units, rounded
/// towards zero, and kept within 32 bits.
pub open spec fn whole_units(half_units: i64) -> i32 {
    let units = if half_units >= 0 {
        half_units / 2
    } else {
        -((-half_units) / 2)
    };
    if units < i32::MIN {
        i32::MIN
    } else if units > i32::MAX {
        i32::MAX
    } else {
        units as i32
    }
}

/// The numbers that stand for a point.
pub open spec fn point_record(point: Point) -> Seq<i32> {
    seq![
        whole_units(point.x),
        whole_units(point.y),
        if point.on_curve {
            1i32
        } else {
            0i32
        },
    ]
}

/// The numbers that stand for the first `count` points.
pub open spec fn point_records(points: Seq<Point>, count: int) -> Seq<i32>
    decreases count,
{
    if count <= 0 {
        Seq::empty()
    } else {
        point_records(points, count - 1) + point_record(points[count - 1])
    }
}

/// The numbers that stand for the contour ends of a glyph.
pub open spec fn contour_records(glyph: GlyphView) -> Seq<i32> {
    Seq::new(glyph.end_pts.len(), |i: int| glyph.end_pts[i] as i32)
}

/// The numbers that stand for a glyph whose points and contours start at
/// these places in their lists.
pub open spec fn glyph_record(glyph: GlyphView, first_point: int, first_contour: int) -> Seq<i32> {
    seq![
        glyph.xmin as i32,
        glyph.ymin as i32,
        glyph.xmax as i32,
        glyph.ymax as i32,
        glyph.coordinates.len() as i32,
        glyph.end_pts.len() as i32,
        first_point as i32,
        first_contour as i32,
    ]
}

/// How many points the first `count` glyphs have.
pub open spec fn points_before(glyphs: Seq<GlyphView>, count: int) -> int
    decreases count,
{
    if count <= 0 {
        0
    } else {
        points_before(glyphs, count - 1) + glyphs[count - 1].coordinates.len()
    }
}

/// How many contours the first `count` glyphs have.
pub open spec fn contours_before(glyphs: Seq<GlyphView>, count: int) -> int
    decreases count,
{
    if count <= 0 {
        0
    } else {
        contours_before(glyphs, count - 1) + glyphs[count - 1].end_pts.len()
    }
}

/// Whether a glyph can be packed behind the `count` glyphs before it:
/// the points and the contours counted with it, and each of its contour
/// ends, are numbers of 31 bits.
pub open spec fn fits(glyphs: Seq<GlyphView>, count: int) -> bool {
    &&& points_before(glyphs, count + 1) <= i32::MAX
    &&& contours_before(glyphs, count + 1) <= i32::MAX
    &&& forall|k: int|
        0 <= k < glyphs[count].end_pts.len() ==> 0 <= #[trigger] glyphs[count].end_pts[k]
            <= i32::MAX
}

/// Whether the first `count` glyphs can be packed.
pub open spec fn packable(glyphs: Seq<GlyphView>, count: int) -> bool {
    forall|i: int| 0 <= i < count ==> fits(glyphs, i)
}

/// The lists that stand for the first `count` glyphs.
pub open spec fn packed(glyphs: Seq<GlyphView>, count: int) -> GlyphDataView
    decreases count,
{
    if count <= 0 {
        GlyphDataView {
            glyph_data: Seq::empty(),
            point_data: Seq::empty(),
            contour_data: Seq::empty(),
        }
    } else {
        let before = packed(glyphs, count - 1);
        let glyph = glyphs[count - 1];
        GlyphDataView {
            glyph_data: before.glyph_data + glyph_record(
                glyph,
                points_before(glyphs, count - 1),
                contours_before(glyphs, count - 1),
            ),
            point_data: before.point_data + point_records(
                glyph.coordinates,
                glyph.coordinates.len() as int,
            ),
            contour_data: before.contour_data + contour_records(glyph),
        }
    }
}

/// The lists for some glyphs hold eight numbers for each glyph, three for
/// each point and one for each contour.
pub proof fn lemma_packed_len(glyphs: Seq<GlyphView>, count: int)
    requires
        0 <= count <= glyphs.len(),
    ensures
        packed(glyphs, count).glyph_data.len() == GLYPH_RECORD * count,
        packed(glyphs, count).point_data.len() == POINT_RECORD * points_before(glyphs, count),
        packed(glyphs, count).contour_data.len() == contours_before(glyphs, count),
    decreases count,
{
    if count > 0 {
        lemma_packed_len(glyphs, count - 1);
        lemma_point_records_len(
            glyphs[count - 1].coordinates,
            glyphs[count - 1].coordinates.len() as int,
        );
    }
}

/// Each point takes three numbers.
pub proof fn lemma_point_records_len(points: Seq<Point>, count: int)
    requires
        0 <= count,
    ensures
        point_records(points, count).len() == POINT_RECORD * count,
    decreases count,
{
    if count > 0 {
        lemma_point_records_len(points, count - 1);
    }
}

/// Turns half units into whole units.
pub fn to_whole_units(half_units: i64) -> (units: i32)
    ensures
        units == whole_units(half_units),
{
    let units: i64 = if half_units >= 0 {
        (half_units as u64 / 2) as i64
    } else {
        let size: u128 = (-(half_units as i128)) as u128;
        -((size / 2) as i64)
    };
    if units < -0x8000_0000 {
        -0x8000_0000
    } else if units > 0x7fff_ffff {
        0x7fff_ffff
    } else {
        units as i32
    }
}

/// Packs glyphs into the three lists. It gives nothing where their
/// points or contours are too many to be counted in 31 bits.
pub fn pack_glyphs(glyphs: &Vec<GlyphDescription>) -> (r: Option<GlyphData>)
    ensures
        match r {
            Some(data) => packable(glyph_views(glyphs@), glyphs.len() as int) && data@ == packed(
                glyph_views(glyphs@),
                glyphs.len() as int,
            ),
            None => !packable(glyph_views(glyphs@), glyphs.len() as int),
        },
{
    let ghost views = glyph_views(glyphs@);
    let mut glyph_data: Vec<i32> = Vec::new();
    let mut point_data: Vec<i32> = Vec::new();
    let mut contour_data: Vec<i32> = Vec::new();
    let mut first_point: i32 = 0;
    let mut first_contour: i32 = 0;
    let mut i: usize = 0;
    while i < glyphs.len()
        invariant
            i <= glyphs.len(),
            views == glyph_views(glyphs@),
            packable(views, i as int),
            0 <= first_point,
            0 <= first_contour,
            first_point == points_before(views, i as int),
            first_contour == contours_before(views, i as int),
            glyph_data@ == packed(views, i as int).glyph_data,
            point_data@ == packed(views, i as int).point_data,
            contour_data@ == packed(views, i as int).contour_data,
        decreases glyphs.len() - i,
    {
        let glyph = &glyphs[i];
        let points = glyph.coordinates.len();
        let contours = glyph.end_pts_of_contours.len();
        if points > (0x7fff_ffff - first_point) as usize || contours > (0x7fff_ffff
            - first_contour) as usize {
            assert(!fits(views, i as int));
            return None;
        }
        let ghost glyph_before = glyph_data@;
        glyph_data.push(glyph.xmin as i32);
        glyph_data.push(glyph.ymin as i32);
        glyph_data.push(glyph.xmax as i32);
        glyph_data.push(glyph.ymax as i32);
        glyph_data.push(points as i32);
        glyph_data.push(contours as i32);
        glyph_data.push(first_point);
        glyph_data.push(first_contour);
        assert(glyph_data@ == glyph_before + glyph_record(
            glyph@,
            first_point as int,
            first_contour as int,
        ));
        let ghost points_before_glyph = point_data@;
        let mut j: usize = 0;
        while j < points
            invariant
                j <= points,
                points == glyph.coordinates.len(),
                point_data@ == points_before_glyph + point_records(
                    glyph.coordinates@,
                    j as int,
                ),
            decreases points - j,
        {
            let point = glyph.coordinates[j];
            point_data.push(to_whole_units(point.x));
            point_data.push(to_whole_units(point.y));
            point_data.push(
                if point.on_curve {
                    1
                } else {
                    0
                },
            );
            j = j + 1;
        }
        let ghost contours_before_glyph = contour_data@;
        let mut k: usize = 0;
        while k < contours
            invariant
                k <= contours,
                contours == glyph.end_pts_of_contours.len(),
                views == glyph_views(glyphs@),
                i < glyphs.len(),
                views[i as int] == glyph@,
                forall|n: int| 0 <= n < k ==> 0 <= #[trigger] glyph@.end_pts[n] <= i32::MAX,
                contour_data@ == contours_before_glyph + contour_records(glyph@).take(k as int),
            decreases contours - k,
        {
            let end = glyph.end_pts_of_contours[k];
            assert(glyph@.end_pts[k as int] == end);
            if end > 0x7fff_ffff {
                assert(!fits(views, i as int));
                return None;
            }
            contour_data.push(end as i32);
            assert(contour_records(glyph@).take(k + 1) == contour_records(glyph@).take(
                k as int,
            ).push(end as i32));
            k = k + 1;
        }
        first_point = first_point + points as i32;
        first_contour = first_contour + contours as i32;
        i = i + 1;
    }
    Some(GlyphData { glyph_data, point_data, contour_data })
}

/// Byte `k` of a number in two's complement, byte 0 being the least
/// significant.
pub open spec fn byte_of(value: i32, k: int) -> u8 {
    let bits = value as int + 0x1_0000_0000;
    if k == 0 {
        (bits % 0x100) as u8
    } else if k == 1 {
        (bits / 0x100 % 0x100) as u8
    } else if k == 2 {
        (bits / 0x1_0000 % 0x100) as u8
    } else {
        (bits / 0x100_0000 % 0x100) as u8
    }
}

/// The bytes of some numbers, each with its least significant byte first.
pub open spec fn little_endian(values: Seq<i32>) -> Seq<u8> {
    Seq::new(4 * values.len(), |i: int| byte_of(values[i / 4], i % 4))
}

/// The bytes of some numbers, each with its most significant byte first.
pub open spec fn big_endian(values: Seq<i32>) -> Seq<u8> {
    Seq::new(4 * values.len(), |i: int| byte_of(values[i / 4], 3 - i % 4))
}

/// Whether `bytes` are the bytes of the numbers as a machine holds them
/// in memory: four for each number, in one of the two byte orders.
pub open spec fn in_memory(bytes: Seq<u8>, values: Seq<i32>) -> bool {
    bytes == little_endian(values) || bytes == big_endian(values)
}

/// The bytes of a list of numbers as they lie in memory.
///
/// Calls `bytemuck::cast_slice` from `i32` to `u8`. That function hands
/// out the memory of the slice as bytes, four times as many as the slice
/// has numbers; it fails only for a target type that is wider or more
/// strictly aligned than a byte. The contract adds what Rust lays down
/// for an `i32` in memory: two's complement in the byte order of the
/// machine.
#[verifier::external_body]
fn memory_of(values: &Vec<i32>) -> (bytes: Vec<u8>)
    ensures
        in_memory(bytes@, values@),
{
    bytemuck::cast_slice::<i32, u8>(values.as_slice()).to_vec()
}

/// The three lists of a [`GlyphData`] as bytes, ready to be handed to a
/// graphics interface.
#[derive(Debug, PartialEq, Eq)]
pub struct GlyphBytes {
    pub glyph_bytes: Vec<u8>,
    pub point_bytes: Vec<u8>,
    pub contour_bytes: Vec<u8>,
}

impl GlyphData {
    /// The lists as bytes, as they lie in memory.
    pub fn to_bytes(&self) -> (bytes: GlyphBytes)
        ensures
            in_memory(bytes.glyph_bytes@, self@.glyph_data),
            in_memory(bytes.point_bytes@, self@.point_data),
            in_memory(bytes.contour_bytes@, self@.contour_data),
            bytes.glyph_bytes.len() == 4 * self.glyph_data.len(),
            bytes.point_bytes.len() == 4 * self.point_data.len(),
            bytes.contour_bytes.len() == 4 * self.contour_data.len(),
    {
        GlyphBytes {
            glyph_bytes: memory_of(&self.glyph_data),
            point_bytes: memory_of(&self.point_data),
            contour_bytes: memory_of(&self.contour_data),
        }
    }
}

} // verus!
