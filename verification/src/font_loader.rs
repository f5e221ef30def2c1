//! The font file, its table directory and the glyph outlines decoded
//! from it.

use std::collections::HashMap;
use vstd::prelude::*;
use vstd::string::StringSliceAdditionalSpecFns;
use crate::cmap::{decode_cmap, lemma_cmap_error, spec_cmap, SEGMENT_MAPPING};
use crate::error::{first_of, is_overrun, FontError, FontErrorView};
use crate::glyph::{
    decode_glyph, glyph_views, lemma_glyph_table_error, load_glyph_table, spec_glyph,
    spec_glyph_table,
};
use crate::utils::{
    be_i16, be_u16, directory_error, get_table_details, i16_at, is_directory, read_error, u16_at,
};

verus! {

/// Where the number of glyphs stands in the `maxp` table.
pub const NUM_GLYPHS_POS: u64 = 4;

/// Where the format of the location table stands in the `head` table.
pub const LOCATION_FORMAT_POS: u64 = 50;

/// Where the bounding box of the font starts in the `head` table.
pub const DIMENSIONS_POS: u64 = 36;

/// A point of a glyph outline.
///
/// Coordinates are fixed-point numbers with one fractional bit: they count
/// half font design units. A point read from the font lies on a whole
/// unit, and the midpoint of two such points is exact.
#[derive(Debug, Clone, Copy, PartialEq, Eq)]
pub struct Point {
    /// Horizontal position, in half design units.
    pub x: i64,
    /// Vertical position, in half design units.
    pub y: i64,
    /// Whether the point lies on the curve; if not, it is the control
    /// point of a quadratic curve.
    pub on_curve: bool,
}

impl Point {
    /// The point at whole design units `(x, y)`.
    pub open spec fn at_units(x: int, y: int, on_curve: bool) -> Point {
        Point { x: (2 * x) as i64, y: (2 * y) as i64, on_curve }
    }

    /// Makes the point at whole design units `(x, y)`.
    pub fn from_units(x: i32, y: i32, on_curve: bool) -> (p: Point)
        ensures
            p == Point::at_units(x as int, y as int, on_curve),
            p.x == 2 * x,
            p.y == 2 * y,
    {
        Point { x: 2 * (x as i64), y: 2 * (y as i64), on_curve }
    }
}

impl Default for Point {
    fn default() -> (p: Point)
        ensures
            p == (Point { x: 0, y: 0, on_curve: false }),
    {
        Point { x: 0, y: 0, on_curve: false }
    }
}

/// One glyph: its bounding box and its outline, as one list of points
/// and the index of the last point of each contour.
#[derive(Debug, PartialEq, Eq)]
pub struct GlyphDescription {
    /// The contour count as the font states it; negative for a composite
    /// glyph, which has no outline here.
    pub number_of_contours: i16,
    pub xmin: i16,
    pub ymin: i16,
    pub xmax: i16,
    pub ymax: i16,
    /// For each contour, the index in `coordinates` of its last point.
    pub end_pts_of_contours: Vec<usize>,
    /// The points of all contours, one contour after the other.
    pub coordinates: Vec<Point>,
}

/// The mathematical content of a [`GlyphDescription`].
pub struct GlyphView {
    pub number_of_contours: i16,
    pub xmin: i16,
    pub ymin: i16,
    pub xmax: i16,
    pub ymax: i16,
    /// For each contour, the index of its last point.
    pub end_pts: Seq<int>,
    /// The points of all contours.
    pub coordinates: Seq<Point>,
}

impl View for GlyphDescription {
    type V = GlyphView;

    open spec fn view(&self) -> GlyphView {
        GlyphView {
            number_of_contours: self.number_of_contours,
            xmin: self.xmin,
            ymin: self.ymin,
            xmax: self.xmax,
            ymax: self.ymax,
            end_pts: self.end_pts_of_contours@.map_values(|end: usize| end as int),
            coordinates: self.coordinates@,
        }
    }
}

impl GlyphView {
    /// Every contour ends on a point of the glyph.
    pub open spec fn wf(self) -> bool {
        forall|i: int|
            0 <= i < self.end_pts.len() ==> 0 <= #[trigger] self.end_pts[i]
                < self.coordinates.len()
    }

    /// Every contour ends at an index of 32 bits.
    pub open spec fn indexable(self) -> bool {
        forall|i: int| 0 <= i < self.end_pts.len() ==> #[trigger] self.end_pts[i] <= u32::MAX
    }

    /// The index of the first point of contour `i`.
    pub open spec fn contour_start(self, i: int) -> int {
        if i <= 0 {
            0
        } else {
            self.end_pts[i - 1] + 1
        }
    }

    /// The points of contour `i`: from one past the end of the contour
    /// before it through its own end. It is empty where its end lies
    /// before its start.
    pub open spec fn contour(self, i: int) -> Seq<Point> {
        if self.contour_start(i) <= self.end_pts[i] {
            self.coordinates.subrange(self.contour_start(i), self.end_pts[i] + 1)
        } else {
            Seq::empty()
        }
    }
}

impl Clone for GlyphDescription {
    fn clone(&self) -> (copy: GlyphDescription)
        ensures
            copy@ == self@,
    {
        let mut end_pts_of_contours: Vec<usize> = Vec::new();
        while end_pts_of_contours.len() < self.end_pts_of_contours.len()
            invariant
                end_pts_of_contours.len() <= self.end_pts_of_contours.len(),
                end_pts_of_contours@ == self.end_pts_of_contours@.take(
                    end_pts_of_contours.len() as int,
                ),
            decreases self.end_pts_of_contours.len() - end_pts_of_contours.len(),
        {
            end_pts_of_contours.push(self.end_pts_of_contours[end_pts_of_contours.len()]);
        }
        let mut coordinates: Vec<Point> = Vec::new();
        while coordinates.len() < self.coordinates.len()
            invariant
                coordinates.len() <= self.coordinates.len(),
                coordinates@ == self.coordinates@.take(coordinates.len() as int),
            decreases self.coordinates.len() - coordinates.len(),
        {
            coordinates.push(self.coordinates[coordinates.len()]);
        }
        assert(end_pts_of_contours@ == self.end_pts_of_contours@);
        assert(coordinates@ == self.coordinates@);
        GlyphDescription {
            number_of_contours: self.number_of_contours,
            xmin: self.xmin,
            ymin: self.ymin,
            xmax: self.xmax,
            ymax: self.ymax,
            end_pts_of_contours,
            coordinates,
        }
    }
}

impl Default for GlyphDescription {
    fn default() -> (g: GlyphDescription)
        ensures
            g.number_of_contours == 0,
            g.xmin == 0,
            g.ymin == 0,
            g.xmax == 0,
            g.ymax == 0,
            g@.end_pts == Seq::<int>::empty(),
            g@.coordinates == Seq::<Point>::empty(),
    {
        GlyphDescription {
            number_of_contours: 0,
            xmin: 0,
            ymin: 0,
            xmax: 0,
            ymax: 0,
            end_pts_of_contours: Vec::new(),
            coordinates: Vec::new(),
        }
    }
}

/// One entry of the table directory.
#[derive(Debug, Clone, Copy, PartialEq, Eq)]
pub struct TableDirectory {
    /// The four bytes that name the table.
    pub tag: [u8; 4],
    /// Where the table starts in the file.
    pub offset: u32,
    /// How many bytes it holds.
    pub length: u32,
}

/// Whether entry `i` bears the tag and no entry before it does.
pub open spec fn is_first_with_tag(entries: Seq<TableDirectory>, tag: Seq<u8>, i: int) -> bool {
    &&& 0 <= i < entries.len()
    &&& entries[i].tag@ == tag
    &&& forall|j: int| 0 <= j < i ==> (#[trigger] entries[j]).tag@ != tag
}

/// Whether some entry bears the tag.
pub open spec fn has_table(entries: Seq<TableDirectory>, tag: Seq<u8>) -> bool {
    exists|i: int| is_first_with_tag(entries, tag, i)
}

/// The first entry whose tag is made of the bytes of `tag`, or the error
/// that names the tag.
pub open spec fn find_table(entries: Seq<TableDirectory>, tag: &str) -> Result<
    TableDirectory,
    FontErrorView,
> {
    if has_table(entries, tag.spec_bytes()) {
        Ok(entries[choose|i: int| is_first_with_tag(entries, tag.spec_bytes(), i)])
    } else {
        Err(FontErrorView::TableNotFound(tag@))
    }
}

/// What the glyphs of a font decode to: their number is read from
/// `maxp`, the format of the location table from `head`, and the glyphs
/// are then decoded from `loca` and `glyf`.
pub open spec fn spec_glyphs(buf: Seq<u8>, entries: Seq<TableDirectory>) -> Result<
    Seq<GlyphView>,
    FontErrorView,
> {
    match find_table(entries, "maxp") {
        Err(e) => Err(e),
        Ok(maxp) => match read_error(buf, maxp.offset + NUM_GLYPHS_POS, 2) {
            Some(e) => Err(e),
            None => match find_table(entries, "head") {
                Err(e) => Err(e),
                Ok(head) => match read_error(buf, head.offset + LOCATION_FORMAT_POS, 2) {
                    Some(e) => Err(e),
                    None => match find_table(entries, "loca") {
                        Err(e) => Err(e),
                        Ok(loca) => match find_table(entries, "glyf") {
                            Err(e) => Err(e),
                            Ok(glyf) => spec_glyph_table(
                                buf,
                                glyf.offset as int,
                                loca.offset as int,
                                be_i16(buf, head.offset + LOCATION_FORMAT_POS) != 0,
                                be_u16(buf, maxp.offset + NUM_GLYPHS_POS) as int,
                            ),
                        },
                    },
                },
            },
        },
    }
}

/// What the character map of a font decodes to.
pub open spec fn spec_unicode_map(buf: Seq<u8>, entries: Seq<TableDirectory>) -> Result<
    Map<u16, u16>,
    FontErrorView,
> {
    match find_table(entries, "cmap") {
        Err(e) => Err(e),
        Ok(cmap) => spec_cmap(buf, cmap.offset as int),
    }
}

/// The bounding box of the font, as `(xmax, ymax, xmin, ymin)`. In the
/// `head` table the four numbers stand in the order xmin, ymin, xmax,
/// ymax; they are read in the order in which they are returned.
pub open spec fn spec_dimensions(buf: Seq<u8>, entries: Seq<TableDirectory>) -> Result<
    (i16, i16, i16, i16),
    FontErrorView,
> {
    match find_table(entries, "head") {
        Err(e) => Err(e),
        Ok(head) => {
            let pos = head.offset + DIMENSIONS_POS;
            match first_of(
                read_error(buf, pos + 4, 2),
                first_of(
                    read_error(buf, pos + 6, 2),
                    first_of(read_error(buf, pos, 2), read_error(buf, pos + 2, 2)),
                ),
            ) {
                Some(e) => Err(e),
                None => Ok(
                    (
                        be_i16(buf, pos + 4),
                        be_i16(buf, pos + 6),
                        be_i16(buf, pos),
                        be_i16(buf, pos + 2),
                    ),
                ),
            }
        },
    }
}

/// The glyphs fail to load for want of a table or on a read past the end
/// of the buffer, and in no other way.
pub proof fn lemma_glyphs_error(buf: Seq<u8>, entries: Seq<TableDirectory>)
    ensures
        spec_glyphs(buf, entries) matches Err(e) ==> is_overrun(buf, e)
            || e is TableNotFound,
{
    if let Ok(maxp) = find_table(entries, "maxp") {
        if let Ok(head) = find_table(entries, "head") {
            if let Ok(loca) = find_table(entries, "loca") {
                if let Ok(glyf) = find_table(entries, "glyf") {
                    lemma_glyph_table_error(
                        buf,
                        glyf.offset as int,
                        loca.offset as int,
                        be_i16(buf, head.offset + LOCATION_FORMAT_POS) != 0,
                        be_u16(buf, maxp.offset + NUM_GLYPHS_POS) as int,
                    );
                }
            }
        }
    }
}

/// The character map fails to load for want of its table or of a Unicode
/// subtable, on a subtable of another format than 4, or on a read past
/// the end of the buffer, and in no other way.
pub proof fn lemma_unicode_map_error(buf: Seq<u8>, entries: Seq<TableDirectory>)
    ensures
        spec_unicode_map(buf, entries) matches Err(e) ==> {
            ||| is_overrun(buf, e)
            ||| e is TableNotFound
            ||| e == FontErrorView::NoUnicodeCmapFound
            ||| e matches FontErrorView::UnsupportedCmapFormat(format) && format
                != SEGMENT_MAPPING
        },
{
    if let Ok(cmap) = find_table(entries, "cmap") {
        lemma_cmap_error(buf, cmap.offset as int);
    }
}

/// Whether the tag of the entry is made of these bytes.
fn has_tag(entry: &TableDirectory, tag: &[u8]) -> (same: bool)
    ensures
        same == (entry.tag@ == tag@),
{
    if tag.len() != 4 {
        return false;
    }
    let same = tag[0] == entry.tag[0] && tag[1] == entry.tag[1] && tag[2] == entry.tag[2] && tag[3]
        == entry.tag[3];
    assert(same == (entry.tag@ =~= tag@));
    same
}

/// A font file held in memory: its bytes, its table directory, and what
/// has been decoded from it so far.
pub struct FontFile {
    /// The bytes of the file. They are never changed.
    pub file_buffer: Vec<u8>,
    pub table_directories: Vec<TableDirectory>,
    /// The glyphs by glyph index; empty until they are decoded.
    pub glyphs: Vec<GlyphDescription>,
    /// The glyph index of each codepoint; empty until it is decoded.
    pub unicode_to_glyph_index_map: HashMap<u16, u16>,
}

impl FontFile {
    /// Takes the bytes of a font file and reads its table directory.
    pub fn new(file_buffer: Vec<u8>) -> (r: Result<FontFile, FontError>)
        ensures
            match r {
                Ok(font) => {
                    &&& directory_error(file_buffer@) is None
                    &&& font.file_buffer@ == file_buffer@
                    &&& is_directory(file_buffer@, font.table_directories@)
                    &&& font.glyphs@.len() == 0
                    &&& font.unicode_to_glyph_index_map@ == Map::<u16, u16>::empty()
                },
                Err(e) => directory_error(file_buffer@) == Some(e@),
            },
    {
        let table_directories = match get_table_details(&file_buffer) {
            Ok(entries) => entries,
            Err(e) => {
                return Err(e);
            },
        };
        Ok(
            FontFile {
                file_buffer,
                table_directories,
                glyphs: Vec::new(),
                unicode_to_glyph_index_map: HashMap::new(),
            },
        )
    }

    /// Finds the directory entry of the table with this tag.
    pub fn get_table_directory(&self, tag: &str) -> (r: Result<&TableDirectory, FontError>)
        ensures
            match r {
                Ok(entry) => find_table(self.table_directories@, tag) == Ok::<
                    TableDirectory,
                    FontErrorView,
                >(*entry),
                Err(e) => find_table(self.table_directories@, tag) == Err::<
                    TableDirectory,
                    FontErrorView,
                >(e@),
            },
    {
        let bytes = tag.as_bytes();
        let mut i: usize = 0;
        while i < self.table_directories.len()
            invariant
                i <= self.table_directories.len(),
                bytes@ == tag.spec_bytes(),
                forall|j: int|
                    0 <= j < i ==> (#[trigger] self.table_directories@[j]).tag@ != bytes@,
            decreases self.table_directories.len() - i,
        {
            if has_tag(&self.table_directories[i], bytes) {
                assert(is_first_with_tag(self.table_directories@, bytes@, i as int));
                return Ok(&self.table_directories[i]);
            }
            i = i + 1;
        }
        Err(FontError::TableNotFound(tag.to_owned()))
    }

    /// Decodes the glyph record that lies `location` bytes into the glyph
    /// table, which starts at `table`. Its contours are left as the font
    /// has them.
    pub fn get_glyph_description(&self, table: u32, location: u32) -> (r: Result<
        GlyphDescription,
        FontError,
    >)
        ensures
            match r {
                Ok(glyph) => spec_glyph(self.file_buffer@, table + location) == Ok::<
                    GlyphView,
                    FontErrorView,
                >(glyph@) && glyph@.wf(),
                Err(e) => spec_glyph(self.file_buffer@, table + location) == Err::<
                    GlyphView,
                    FontErrorView,
                >(e@),
            },
    {
        decode_glyph(&self.file_buffer, table, location)
    }

    /// Decodes all glyphs of the font and normalizes their contours. On
    /// failure nothing is changed.
    pub fn get_glyphs(&mut self) -> (r: Result<(), FontError>)
        ensures
            match r {
                Ok(()) => {
                    &&& spec_glyphs(old(self).file_buffer@, old(self).table_directories@) == Ok::<
                        Seq<GlyphView>,
                        FontErrorView,
                    >(glyph_views(final(self).glyphs@))
                    &&& forall|i: int|
                        0 <= i < final(self).glyphs.len() ==> {
                            &&& (#[trigger] final(self).glyphs@[i])@.wf()
                            &&& final(self).glyphs@[i]@.indexable()
                        }
                    &&& final(self).file_buffer == old(self).file_buffer
                    &&& final(self).table_directories == old(self).table_directories
                    &&& final(self).unicode_to_glyph_index_map
                        == old(self).unicode_to_glyph_index_map
                },
                Err(e) => {
                    &&& spec_glyphs(old(self).file_buffer@, old(self).table_directories@) == Err::<
                        Seq<GlyphView>,
                        FontErrorView,
                    >(e@)
                    &&& *final(self) == *old(self)
                },
            },
    {
        let maxp = match self.get_table_directory("maxp") {
            Ok(entry) => entry.offset,
            Err(e) => {
                return Err(e);
            },
        };
        let count = match u16_at(&self.file_buffer, maxp as u64 + NUM_GLYPHS_POS) {
            Ok(count) => count,
            Err(e) => {
                return Err(e);
            },
        };
        let head = match self.get_table_directory("head") {
            Ok(entry) => entry.offset,
            Err(e) => {
                return Err(e);
            },
        };
        let format = match i16_at(&self.file_buffer, head as u64 + LOCATION_FORMAT_POS) {
            Ok(format) => format,
            Err(e) => {
                return Err(e);
            },
        };
        let loca = match self.get_table_directory("loca") {
            Ok(entry) => entry.offset,
            Err(e) => {
                return Err(e);
            },
        };
        let glyf = match self.get_table_directory("glyf") {
            Ok(entry) => entry.offset,
            Err(e) => {
                return Err(e);
            },
        };
        match load_glyph_table(&self.file_buffer, glyf, loca, format != 0, count) {
            Ok(glyphs) => {
                self.glyphs = glyphs;
                Ok(())
            },
            Err(e) => Err(e),
        }
    }

    /// Decodes the character map of the font. On failure nothing is
    /// changed.
    pub fn get_unicode_to_glyph_index_map(&mut self) -> (r: Result<(), FontError>)
        ensures
            match r {
                Ok(()) => {
                    &&& spec_unicode_map(old(self).file_buffer@, old(self).table_directories@)
                        == Ok::<Map<u16, u16>, FontErrorView>(
                        final(self).unicode_to_glyph_index_map@,
                    )
                    &&& final(self).file_buffer == old(self).file_buffer
                    &&& final(self).table_directories == old(self).table_directories
                    &&& final(self).glyphs == old(self).glyphs
                },
                Err(e) => {
                    &&& spec_unicode_map(old(self).file_buffer@, old(self).table_directories@)
                        == Err::<Map<u16, u16>, FontErrorView>(e@)
                    &&& *final(self) == *old(self)
                },
            },
    {
        let cmap = match self.get_table_directory("cmap") {
            Ok(entry) => entry.offset,
            Err(e) => {
                return Err(e);
            },
        };
        match decode_cmap(&self.file_buffer, cmap) {
            Ok(map) => {
                self.unicode_to_glyph_index_map = map;
                Ok(())
            },
            Err(e) => Err(e),
        }
    }

    /// Reads the bounding box of the font from the `head` table, as
    /// `(xmax, ymax, xmin, ymin)`.
    pub fn get_dimensions(&self) -> (r: Result<(i16, i16, i16, i16), FontError>)
        ensures
            match r {
                Ok(dimensions) => spec_dimensions(self.file_buffer@, self.table_directories@)
                    == Ok::<(i16, i16, i16, i16), FontErrorView>(dimensions),
                Err(e) => spec_dimensions(self.file_buffer@, self.table_directories@) == Err::<
                    (i16, i16, i16, i16),
                    FontErrorView,
                >(e@),
            },
    {
        let head = match self.get_table_directory("head") {
            Ok(entry) => entry.offset,
            Err(e) => {
                return Err(e);
            },
        };
        let pos: u64 = head as u64 + DIMENSIONS_POS;
        let xmax = match i16_at(&self.file_buffer, pos + 4) {
            Ok(v) => v,
            Err(e) => {
                return Err(e);
            },
        };
        let ymax = match i16_at(&self.file_buffer, pos + 6) {
            Ok(v) => v,
            Err(e) => {
                return Err(e);
            },
        };
        let xmin = match i16_at(&self.file_buffer, pos) {
            Ok(v) => v,
            Err(e) => {
                return Err(e);
            },
        };
        let ymin = match i16_at(&self.file_buffer, pos + 2) {
            Ok(v) => v,
            Err(e) => {
                return Err(e);
            },
        };
        Ok((xmax, ymax, xmin, ymin))
    }
}

} // verus!
