//! Making contours alternate between on-curve and off-curve points.
//!
//! A TrueType contour may hold two on-curve points, or two control
//! points, in a row. Between every such pair a point is put at their
//! midpoint, with the opposite kind, so that a reader of the outline
//! meets curve points and control points in turn.

use vstd::prelude::*;
use crate::font_loader::{GlyphDescription, GlyphView, Point};

verus! {

/// The point halfway between two points, of the kind that `a` is not.
/// A coordinate that falls between two half units is rounded down.
pub open spec fn midpoint(a: Point, b: Point) -> Point {
    Point { x: ((a.x + b.x) / 2) as i64, y: ((a.y + b.y) / 2) as i64, on_curve: !a.on_curve }
}

/// The index of the point after point `j` of a contour; the contour is
/// closed, so the first point follows the last.
pub open spec fn successor(contour: Seq<Point>, j: int) -> int {
    if j + 1 == contour.len() {
        0
    } else {
        j + 1
    }
}

/// Whether point `j` and the point after it are of the same kind.
pub open spec fn needs_midpoint(contour: Seq<Point>, j: int) -> bool {
    contour[j].on_curve == contour[successor(contour, j)].on_curve
}

/// What point `j` becomes: itself, followed by the midpoint to the point
/// after it where the two are of the same kind.
pub open spec fn expanded(contour: Seq<Point>, j: int) -> Seq<Point> {
    if needs_midpoint(contour, j) {
        seq![contour[j], midpoint(contour[j], contour[successor(contour, j)])]
    } else {
        seq![contour[j]]
    }
}

/// What the first `count` points of a contour become.
pub open spec fn normalized_prefix(contour: Seq<Point>, count: int) -> Seq<Point>
    decreases count,
{
    if count <= 0 {
        Seq::empty()
    } else {
        normalized_prefix(contour, count - 1) + expanded(contour, count - 1)
    }
}

/// The contour with the midpoints put in.
pub open spec fn normalized_contour(contour: Seq<Point>) -> Seq<Point> {
    normalized_prefix(contour, contour.len() as int)
}

/// Every point of the contour and the point after it, the first after the
/// last too, are of different kinds.
pub open spec fn alternating(contour: Seq<Point>) -> bool {
    forall|j: int| 0 <= j < contour.len() ==> !needs_midpoint(contour, j)
}

impl GlyphView {
    /// The points of the first `count` contours with the midpoints put
    /// in, one contour after the other.
    pub open spec fn normalized_points(self, count: int) -> Seq<Point>
        decreases count,
    {
        if count <= 0 {
            Seq::empty()
        } else {
            self.normalized_points(count - 1) + normalized_contour(self.contour(count - 1))
        }
    }

    /// The glyph with the midpoints put into every contour. Its points
    /// are those of its contours in order, and each contour ends where
    /// the points counted so far end.
    pub open spec fn normalized(self) -> GlyphView {
        GlyphView {
            end_pts: Seq::new(
                self.end_pts.len(),
                |i: int| self.normalized_points(i + 1).len() - 1,
            ),
            coordinates: self.normalized_points(self.end_pts.len() as int),
            ..self
        }
    }
}

/// The midpoint of two points that lie on whole design units is exact.
pub proof fn lemma_midpoint_exact(a: Point, b: Point)
    requires
        a.x % 2 == 0,
        a.y % 2 == 0,
        b.x % 2 == 0,
        b.y % 2 == 0,
    ensures
        2 * midpoint(a, b).x == a.x + b.x,
        2 * midpoint(a, b).y == a.y + b.y,
{
}

/// Computes the point halfway between two points.
pub fn halfway(a: Point, b: Point) -> (m: Point)
    ensures
        m == midpoint(a, b),
{
    Point { x: half_sum(a.x, b.x), y: half_sum(a.y, b.y), on_curve: !a.on_curve }
}

/// Half the sum of two numbers, rounded down.
fn half_sum(a: i64, b: i64) -> (h: i64)
    ensures
        h == (a + b) / 2,
{
    let sum: i128 = a as i128 + b as i128;
    let shifted: u128 = (sum + 0x1_0000_0000_0000_0000) as u128;
    ((shifted / 2) as i128 - 0x8000_0000_0000_0000) as i64
}

impl GlyphDescription {
    /// Parts the points of the glyph into its contours.
    pub fn contours(&self) -> (contours: Vec<Vec<Point>>)
        requires
            self@.wf(),
        ensures
            contours.len() == self@.end_pts.len(),
            forall|i: int|
                0 <= i < contours.len() ==> (#[trigger] contours@[i])@ == self@.contour(i),
    {
        let mut contours: Vec<Vec<Point>> = Vec::new();
        while contours.len() < self.end_pts_of_contours.len()
            invariant
                self@.wf(),
                contours.len() <= self.end_pts_of_contours.len(),
                forall|i: int|
                    0 <= i < contours.len() ==> (#[trigger] contours@[i])@ == self@.contour(i),
            decreases self.end_pts_of_contours.len() - contours.len(),
        {
            let i = contours.len();
            assert(self@.end_pts[i as int] == self.end_pts_of_contours[i as int]);
            let start: usize = if i == 0 {
                0
            } else {
                assert(self@.end_pts[i - 1] == self.end_pts_of_contours[i - 1]);
                assert(self.end_pts_of_contours[i - 1] < self.coordinates.len());
                self.end_pts_of_contours[i - 1] + 1
            };
            let end: usize = self.end_pts_of_contours[i];
            let mut contour: Vec<Point> = Vec::new();
            let mut j: usize = start;
            while j <= end
                invariant
                    end < self.coordinates.len(),
                    start <= j <= end + 1 || (j == start && start > end),
                    start <= end ==> contour@ == self.coordinates@.subrange(
                        start as int,
                        j as int,
                    ),
                    start > end ==> contour@ == Seq::<Point>::empty(),
                decreases end + 1 - j,
            {
                contour.push(self.coordinates[j]);
                j = j + 1;
            }
            contours.push(contour);
        }
        contours
    }

    /// Puts a midpoint between every two neighbouring points of a
    /// contour that are of the same kind, and renumbers the contour
    /// ends.
    pub fn insert_inbetween_points(&mut self)
        requires
            old(self)@.wf(),
        ensures
            final(self)@ == old(self)@.normalized(),
            final(self)@.wf(),
            forall|i: int|
                0 <= i < final(self)@.end_pts.len() ==> alternating(
                    #[trigger] final(self)@.contour(i),
                ),
    {
        let ghost glyph = self@;
        let mut points: Vec<Point> = Vec::new();
        let mut ends: Vec<usize> = Vec::new();
        let mut i: usize = 0;
        while i < self.end_pts_of_contours.len()
            invariant
                self@ == glyph,
                glyph.wf(),
                i <= self.end_pts_of_contours.len(),
                ends.len() == i,
                points@ == glyph.normalized_points(i as int),
                i > 0 ==> points.len() > 0,
                forall|k: int|
                    0 <= k < i ==> #[trigger] ends@[k] == glyph.normalized_points(k + 1).len() - 1,
                forall|k: int| 0 <= k < i ==> #[trigger] ends@[k] < points.len(),
            decreases self.end_pts_of_contours.len() - i,
        {
            let start: usize = if i == 0 {
                0
            } else {
                assert(self.end_pts_of_contours[i - 1] < self.coordinates.len());
                self.end_pts_of_contours[i - 1] + 1
            };
            let end: usize = self.end_pts_of_contours[i];
            let ghost contour = glyph.contour(i as int);
            let ghost done = points@;
            let mut j: usize = start;
            while j <= end
                invariant
                    self@ == glyph,
                    glyph.wf(),
                    i < self.end_pts_of_contours.len(),
                    start == glyph.contour_start(i as int),
                    end == glyph.end_pts[i as int],
                    end < self.coordinates.len(),
                    contour == glyph.contour(i as int),
                    start <= j <= end + 1 || (j == start && start > end),
                    points@ == done + normalized_prefix(contour, j - start),
                    j > start ==> points.len() > 0,
                decreases end + 1 - j,
            {
                let current = self.coordinates[j];
                let next = self.coordinates[if j == end {
                    start
                } else {
                    j + 1
                }];
                points.push(current);
                if current.on_curve == next.on_curve {
                    points.push(halfway(current, next));
                }
                j = j + 1;
            }
            ends.push(points.len() - 1);
            i = i + 1;
        }
        self.coordinates = points;
        self.end_pts_of_contours = ends;
        assert(self@.end_pts =~= glyph.normalized().end_pts);
        proof {
            assert forall|i: int| 0 <= i < self@.end_pts.len() implies alternating(
                #[trigger] self@.contour(i),
            ) by {
                lemma_normalized_contours(glyph, i);
            }
        }
    }
}

/// What the first `count` points of a contour become starts with the
/// first point, has no two neighbours of one kind, and ends on a point
/// that is not of the kind of the point that comes next in the contour.
proof fn lemma_prefix_alternates(contour: Seq<Point>, count: int)
    requires
        0 < count <= contour.len(),
    ensures
        ({
            let prefix = normalized_prefix(contour, count);
            &&& count <= prefix.len() <= 2 * count
            &&& prefix[0] == contour[0]
            &&& prefix.last().on_curve != contour[successor(contour, count - 1)].on_curve
            &&& forall|q: int|
                0 <= q < prefix.len() - 1 ==> (#[trigger] prefix[q]).on_curve != prefix[q
                    + 1].on_curve
        }),
    decreases count,
{
    let prefix = normalized_prefix(contour, count);
    let step = expanded(contour, count - 1);
    if count == 1 {
        assert(normalized_prefix(contour, 0) =~= Seq::<Point>::empty());
        assert(prefix =~= step);
    } else {
        let before = normalized_prefix(contour, count - 1);
        lemma_prefix_alternates(contour, count - 1);
        assert(successor(contour, count - 2) == count - 1);
        assert forall|q: int| 0 <= q < prefix.len() - 1 implies (#[trigger] prefix[q]).on_curve
            != prefix[q + 1].on_curve by {
            if q < before.len() - 1 {
                assert(prefix[q] == before[q]);
                assert(prefix[q + 1] == before[q + 1]);
            } else if q == before.len() - 1 {
                assert(prefix[q] == before.last());
                assert(prefix[q + 1] == step[0]);
            } else {
                assert(prefix[q] == step[q - before.len()]);
                assert(prefix[q + 1] == step[q + 1 - before.len()]);
            }
        }
    }
}

/// Putting in the midpoints at most doubles the points of a contour, and
/// takes none away.
pub proof fn lemma_normalized_len(contour: Seq<Point>)
    ensures
        contour.len() <= normalized_contour(contour).len() <= 2 * contour.len(),
{
    if contour.len() > 0 {
        lemma_prefix_alternates(contour, contour.len() as int);
    }
}

/// After the midpoints are put in, every point of a contour and the
/// point after it, the first after the last too, are of different kinds.
pub proof fn lemma_normalized_alternates(contour: Seq<Point>)
    ensures
        alternating(normalized_contour(contour)),
{
    let normalized = normalized_contour(contour);
    if contour.len() > 0 {
        lemma_prefix_alternates(contour, contour.len() as int);
        assert forall|j: int| 0 <= j < normalized.len() implies !needs_midpoint(normalized, j) by {
            if j + 1 < normalized.len() {
                assert(normalized[j].on_curve != normalized[j + 1].on_curve);
            }
        }
    }
}

/// Where no point and the point after it are of one kind, the first
/// `count` points stay as they are.
proof fn lemma_prefix_unchanged(contour: Seq<Point>, count: int)
    requires
        alternating(contour),
        0 <= count <= contour.len(),
    ensures
        normalized_prefix(contour, count) == contour.take(count),
    decreases count,
{
    if count > 0 {
        lemma_prefix_unchanged(contour, count - 1);
        assert(contour.take(count) =~= contour.take(count - 1) + seq![contour[count - 1]]);
    } else {
        assert(contour.take(0) =~= Seq::<Point>::empty());
    }
}

/// A contour in which every point and the point after it are of
/// different kinds is left as it is: no point is put in.
pub proof fn lemma_alternating_unchanged(contour: Seq<Point>)
    requires
        alternating(contour),
    ensures
        normalized_contour(contour) == contour,
{
    lemma_prefix_unchanged(contour, contour.len() as int);
    assert(contour.take(contour.len() as int) =~= contour);
}

/// Putting the midpoints in a second time changes nothing.
pub proof fn lemma_contour_idempotent(contour: Seq<Point>)
    ensures
        normalized_contour(normalized_contour(contour)) == normalized_contour(contour),
{
    lemma_normalized_alternates(contour);
    lemma_alternating_unchanged(normalized_contour(contour));
}

/// The contours of a well-formed glyph, taken together, have a point
/// after normalization.
pub proof fn lemma_normalized_points_exist(glyph: GlyphView, count: int)
    requires
        glyph.wf(),
        0 < count <= glyph.end_pts.len(),
    ensures
        glyph.normalized_points(count).len() > 0,
    decreases count,
{
    if count == 1 {
        let first = glyph.contour(0);
        assert(glyph.end_pts[0] >= 0);
        assert(first.len() > 0);
        lemma_prefix_alternates(first, first.len() as int);
    } else {
        lemma_normalized_points_exist(glyph, count - 1);
    }
}

/// The normalized points of more contours start with those of fewer.
pub proof fn lemma_normalized_points_grow(glyph: GlyphView, fewer: int, more: int)
    requires
        0 <= fewer <= more,
    ensures
        glyph.normalized_points(fewer).len() <= glyph.normalized_points(more).len(),
        glyph.normalized_points(more).take(glyph.normalized_points(fewer).len() as int)
            == glyph.normalized_points(fewer),
    decreases more,
{
    if fewer < more {
        lemma_normalized_points_grow(glyph, fewer, more - 1);
        let before = glyph.normalized_points(more - 1);
        let all = glyph.normalized_points(more);
        assert(all.take(before.len() as int) =~= before);
        assert(all.take(glyph.normalized_points(fewer).len() as int) =~= before.take(
            glyph.normalized_points(fewer).len() as int,
        ));
    } else {
        assert(glyph.normalized_points(more).take(glyph.normalized_points(more).len() as int)
            =~= glyph.normalized_points(more));
    }
}

/// The normalized glyph is well-formed, and each of its contours is the
/// contour of the glyph with the midpoints put in.
pub proof fn lemma_normalized_contours(glyph: GlyphView, i: int)
    requires
        glyph.wf(),
        0 <= i < glyph.end_pts.len(),
    ensures
        glyph.normalized().wf(),
        glyph.normalized().end_pts.len() == glyph.end_pts.len(),
        glyph.normalized().contour(i) == normalized_contour(glyph.contour(i)),
        alternating(glyph.normalized().contour(i)),
{
    let count = glyph.end_pts.len() as int;
    let normalized = glyph.normalized();
    assert forall|k: int| 0 <= k < normalized.end_pts.len() implies 0
        <= #[trigger] normalized.end_pts[k] < normalized.coordinates.len() by {
        lemma_normalized_points_exist(glyph, k + 1);
        lemma_normalized_points_grow(glyph, k + 1, count);
    }
    lemma_normalized_points_grow(glyph, i, i + 1);
    lemma_normalized_points_grow(glyph, i + 1, count);
    let before = glyph.normalized_points(i);
    let through = glyph.normalized_points(i + 1);
    assert(normalized.contour_start(i) == before.len()) by {
        if i > 0 {
            lemma_normalized_points_exist(glyph, i);
        }
    }
    assert(normalized.coordinates.take(through.len() as int) == through);
    let put_in = normalized_contour(glyph.contour(i));
    assert(through == before + put_in);
    assert(normalized.contour(i).len() == put_in.len());
    assert forall|k: int| 0 <= k < put_in.len() implies #[trigger] normalized.contour(i)[k]
        == put_in[k] by {
        assert(normalized.coordinates.take(through.len() as int)[before.len() + k]
            == normalized.coordinates[before.len() + k]);
        assert(through[before.len() + k] == put_in[k]);
    }
    assert(normalized.contour(i) =~= put_in);
    lemma_normalized_alternates(glyph.contour(i));
}

/// Normalizing a prefix of the contours of a normalized glyph gives back
/// the points it has.
proof fn lemma_normalized_points_fixed(glyph: GlyphView, count: int)
    requires
        glyph.wf(),
        0 <= count <= glyph.end_pts.len(),
    ensures
        glyph.normalized().normalized_points(count) == glyph.normalized_points(count),
    decreases count,
{
    if count > 0 {
        lemma_normalized_points_fixed(glyph, count - 1);
        lemma_normalized_contours(glyph, count - 1);
        lemma_contour_idempotent(glyph.contour(count - 1));
    }
}

/// Normalizing a glyph a second time changes nothing.
pub proof fn lemma_normalized_idempotent(glyph: GlyphView)
    requires
        glyph.wf(),
    ensures
        glyph.normalized().normalized() == glyph.normalized(),
{
    let once = glyph.normalized();
    let twice = once.normalized();
    let count = glyph.end_pts.len() as int;
    lemma_normalized_points_fixed(glyph, count);
    assert(twice.end_pts =~= once.end_pts) by {
        assert forall|i: int| 0 <= i < count implies twice.end_pts[i] == once.end_pts[i] by {
            lemma_normalized_points_fixed(glyph, i + 1);
        }
    }
}

impl GlyphView {
    /// How many points the first `count` contours have, taken together.
    pub open spec fn contour_points(self, count: int) -> int
        decreases count,
    {
        if count <= 0 {
            0
        } else {
            self.contour_points(count - 1) + self.contour(count - 1).len()
        }
    }
}

/// The points of the first `count` contours of a normalized glyph are as
/// many as the normalized points of these contours.
proof fn lemma_contour_points(glyph: GlyphView, count: int)
    requires
        glyph.wf(),
        0 <= count <= glyph.end_pts.len(),
    ensures
        glyph.normalized().contour_points(count) == glyph.normalized_points(count).len(),
    decreases count,
{
    if count > 0 {
        lemma_contour_points(glyph, count - 1);
        lemma_normalized_contours(glyph, count - 1);
    }
}

/// A normalized glyph has as many points as its contours have together.
/// Its contour ends do not decrease, and the last contour ends on the
/// last point.
pub proof fn lemma_normalized_point_count(glyph: GlyphView)
    requires
        glyph.wf(),
    ensures
        ({
            let normalized = glyph.normalized();
            &&& normalized.coordinates.len() == normalized.contour_points(
                normalized.end_pts.len() as int,
            )
            &&& forall|i: int, j: int|
                0 <= i <= j < normalized.end_pts.len() ==> normalized.end_pts[i]
                    <= normalized.end_pts[j]
            &&& normalized.end_pts.len() > 0 ==> normalized.end_pts.last()
                == normalized.coordinates.len() - 1
        }),
{
    let normalized = glyph.normalized();
    lemma_contour_points(glyph, glyph.end_pts.len() as int);
    assert forall|i: int, j: int|
        0 <= i <= j < normalized.end_pts.len() implies normalized.end_pts[i]
        <= normalized.end_pts[j] by {
        lemma_normalized_points_grow(glyph, i + 1, j + 1);
    }
}

/// The normalized points of the first `count` contours are at most twice
/// as many as `count` times the points of the glyph.
pub proof fn lemma_normalized_points_bound(glyph: GlyphView, count: int)
    requires
        glyph.wf(),
        0 <= count <= glyph.end_pts.len(),
    ensures
        glyph.normalized_points(count).len() <= 2 * count * glyph.coordinates.len(),
    decreases count,
{
    if count > 0 {
        lemma_normalized_points_bound(glyph, count - 1);
        lemma_normalized_len(glyph.contour(count - 1));
        let points = glyph.coordinates.len() as int;
        assert(2 * (count - 1) * points + 2 * points == 2 * count * points)
            by (nonlinear_arith);
    }
}

/// A glyph of at most 32767 contours and 65536 points, as a font can
/// hold it, has contour ends of 32 bits after normalization.
pub proof fn lemma_normalized_indexable(glyph: GlyphView)
    requires
        glyph.wf(),
        glyph.end_pts.len() <= 0x7fff,
        glyph.coordinates.len() <= 0x1_0000,
    ensures
        glyph.normalized().indexable(),
{
    let normalized = glyph.normalized();
    let points = glyph.coordinates.len() as int;
    assert forall|i: int|
        0 <= i < normalized.end_pts.len() implies #[trigger] normalized.end_pts[i]
        <= u32::MAX by {
        lemma_normalized_points_bound(glyph, i + 1);
        assert(2 * (i + 1) * points <= 2 * 0x7fff * 0x1_0000) by (nonlinear_arith)
            requires
                0 <= i + 1 <= 0x7fff,
                0 <= points <= 0x1_0000,
        ;
    }
}

} // verus!
