//! Regions of a surface as lists of disjoint rectangles.

use crate::geometry::{max_i32, min_i32, LogicalRect};
use vstd::prelude::*;

verus! {

broadcast use vstd::seq_lib::group_seq_properties;

/// Whether a rectangle of a region adds its pixels or takes them away.
#[derive(Clone, Copy, Debug, PartialEq, Eq, Structural)]
pub enum RectangleKind {
    Add,
    Subtract,
}

/// One step in the construction of a region.
#[derive(Clone, Copy, Debug, PartialEq, Eq, Structural)]
pub struct RegionOp {
    pub kind: RectangleKind,
    pub rect: LogicalRect,
}

/// The upper left corner of the overlap of two rectangles, and its far edges.
pub open spec fn overlap_edges(a: LogicalRect, b: LogicalRect) -> (int, int, int, int) {
    (
        crate::geometry::larger(a.x as int, b.x as int),
        crate::geometry::larger(a.y as int, b.y as int),
        crate::geometry::smaller(a.right(), b.right()),
        crate::geometry::smaller(a.bottom(), b.bottom()),
    )
}

/// Two rectangles share a pixel.
pub open spec fn overlap(a: LogicalRect, b: LogicalRect) -> bool {
    let (left, top, right, bottom) = overlap_edges(a, b);
    left < right && top < bottom
}

/// The rectangle of the pixels that lie in both, if there are any.
pub open spec fn intersection(a: LogicalRect, b: LogicalRect) -> Option<LogicalRect> {
    let (left, top, right, bottom) = overlap_edges(a, b);
    if overlap(a, b) {
        Some(
            LogicalRect {
                x: left as i32,
                y: top as i32,
                width: (right - left) as i32,
                height: (bottom - top) as i32,
            },
        )
    } else {
        None
    }
}

/// One band of a cut rectangle, or nothing where the band has no pixels.
pub open spec fn band(present: bool, x: int, y: int, width: int, height: int) -> Seq<LogicalRect> {
    if present {
        seq![LogicalRect { x: x as i32, y: y as i32, width: width as i32, height: height as i32 }]
    } else {
        Seq::empty()
    }
}

/// What is left of `base` without `cut`: the full-width bands above and below the overlap, then
/// the bands to its left and right.
pub open spec fn subtraction(base: LogicalRect, cut: LogicalRect) -> Seq<LogicalRect> {
    let (left, top, right, bottom) = overlap_edges(base, cut);
    if !overlap(base, cut) {
        seq![base]
    } else {
        band(top > base.y, base.x as int, base.y as int, base.width as int, top - base.y)
            + band(
            bottom < base.bottom(),
            base.x as int,
            bottom,
            base.width as int,
            base.bottom() - bottom,
        ) + band(left > base.x, base.x as int, top, left - base.x, bottom - top) + band(
            right < base.right(),
            right,
            top,
            base.right() - right,
            bottom - top,
        )
    }
}

/// Some rectangle of the list holds the pixel.
pub open spec fn covers(rects: Seq<LogicalRect>, px: int, py: int) -> bool {
    exists|i: int| 0 <= i < rects.len() && (#[trigger] rects[i]).contains(px, py)
}

/// No pixel lies in two rectangles of the list.
pub open spec fn pairwise_disjoint(rects: Seq<LogicalRect>) -> bool {
    forall|i: int, j: int, px: int, py: int|
        0 <= i < j < rects.len() ==> !((#[trigger] rects[i].contains(px, py)) && (
        #[trigger] rects[j].contains(px, py)))
}

/// Every rectangle of the list has pixels, and its far edges can be written.
pub open spec fn all_solid(rects: Seq<LogicalRect>) -> bool {
    forall|i: int|
        0 <= i < rects.len() ==> !(#[trigger] rects[i]).is_void() && rects[i].edges_fit()
}

/// Every rectangle of the list, cut.
pub open spec fn cut_all(rects: Seq<LogicalRect>, cut: LogicalRect) -> Seq<LogicalRect>
    decreases rects.len(),
{
    if rects.len() == 0 {
        Seq::empty()
    } else {
        cut_all(rects.drop_last(), cut) + subtraction(rects.last(), cut)
    }
}

/// The list, cut by one rectangle after the other.
pub open spec fn cut_by_each(rects: Seq<LogicalRect>, cuts: Seq<LogicalRect>) -> Seq<LogicalRect>
    decreases cuts.len(),
{
    if cuts.len() == 0 {
        rects
    } else {
        cut_all(cut_by_each(rects, cuts.drop_last()), cuts.last())
    }
}

/// The rectangles of a region inside `bounds`: what an addition brings anew is appended, a
/// subtraction cuts every rectangle so far.
pub open spec fn region_rects(ops: Seq<RegionOp>, bounds: LogicalRect) -> Seq<LogicalRect>
    decreases ops.len(),
{
    if ops.len() == 0 {
        Seq::empty()
    } else {
        let before = region_rects(ops.drop_last(), bounds);
        match intersection(bounds, ops.last().rect) {
            None => before,
            Some(clipped) => match ops.last().kind {
                RectangleKind::Add => before + cut_by_each(seq![clipped], before),
                RectangleKind::Subtract => cut_all(before, clipped),
            },
        }
    }
}

/// The pixel belongs to the region: the last step that touches it adds it.
pub open spec fn region_contains(ops: Seq<RegionOp>, px: int, py: int) -> bool
    decreases ops.len(),
{
    if ops.len() == 0 {
        false
    } else if ops.last().rect.contains(px, py) {
        ops.last().kind == RectangleKind::Add
    } else {
        region_contains(ops.drop_last(), px, py)
    }
}

/// The far edges of every rectangle of the region can be written.
pub open spec fn ops_fit(ops: Seq<RegionOp>) -> bool {
    forall|i: int| 0 <= i < ops.len() ==> (#[trigger] ops[i]).rect.edges_fit()
}

/// The intersection holds exactly the pixels of both rectangles.
pub proof fn law_intersection_is_common_pixels(a: LogicalRect, b: LogicalRect, px: int, py: int)
    requires
        a.edges_fit(),
        b.edges_fit(),
    ensures
        match intersection(a, b) {
            Some(rect) => rect.contains(px, py) <==> a.contains(px, py) && b.contains(px, py),
            None => !(a.contains(px, py) && b.contains(px, py)),
        },
{
}

/// The intersection does not depend on the order of the two rectangles.
pub proof fn law_intersection_is_symmetric(a: LogicalRect, b: LogicalRect)
    ensures
        intersection(a, b) == intersection(b, a),
{
}

/// Cutting a rectangle leaves exactly the pixels outside the cut, in disjoint rectangles.
pub proof fn law_subtraction_is_difference(base: LogicalRect, cut: LogicalRect)
    requires
        base.edges_fit(),
        cut.edges_fit(),
    ensures
        forall|px: int, py: int|
            #[trigger] covers(subtraction(base, cut), px, py) <==> base.contains(px, py)
                && !cut.contains(px, py),
        pairwise_disjoint(subtraction(base, cut)),
        !base.is_void() ==> all_solid(subtraction(base, cut)),
        subtraction(base, cut).len() <= 4,
{
    let out = subtraction(base, cut);
    let (left, top, right, bottom) = overlap_edges(base, cut);
    if !overlap(base, cut) {
        assert forall|px: int, py: int| #[trigger] covers(out, px, py) <==> base.contains(px, py)
            && !cut.contains(px, py) by {
            assert(out[0] == base);
        }
    } else {
        let b0 = band(top > base.y, base.x as int, base.y as int, base.width as int, top - base.y);
        let b1 = band(
            bottom < base.bottom(),
            base.x as int,
            bottom,
            base.width as int,
            base.bottom() - bottom,
        );
        let b2 = band(left > base.x, base.x as int, top, left - base.x, bottom - top);
        let b3 = band(right < base.right(), right, top, base.right() - right, bottom - top);
        assert(out == b0 + b1 + b2 + b3);
        assert forall|px: int, py: int| #[trigger] covers(out, px, py) <==> base.contains(px, py)
            && !cut.contains(px, py) by {
            if base.contains(px, py) && !cut.contains(px, py) {
                if py < top {
                    assert(out[0].contains(px, py));
                } else if py >= bottom {
                    assert(out[b0.len() as int].contains(px, py));
                } else if px < left {
                    assert(out[(b0.len() + b1.len()) as int].contains(px, py));
                } else {
                    assert(out[(b0.len() + b1.len() + b2.len()) as int].contains(px, py));
                }
            }
        }
    }
}

proof fn lemma_covers_concat(a: Seq<LogicalRect>, b: Seq<LogicalRect>, px: int, py: int)
    ensures
        covers(a + b, px, py) <==> covers(a, px, py) || covers(b, px, py),
{
    if covers(a, px, py) {
        let i = choose|i: int| 0 <= i < a.len() && (#[trigger] a[i]).contains(px, py);
        assert((a + b)[i] == a[i]);
    }
    if covers(b, px, py) {
        let i = choose|i: int| 0 <= i < b.len() && (#[trigger] b[i]).contains(px, py);
        assert((a + b)[a.len() + i] == b[i]);
    }
    if covers(a + b, px, py) {
        let i = choose|i: int| 0 <= i < (a + b).len() && (#[trigger] (a + b)[i]).contains(px, py);
        if i < a.len() {
            assert(a[i].contains(px, py));
        } else {
            assert(b[i - a.len()].contains(px, py));
        }
    }
}

proof fn lemma_disjoint_concat(a: Seq<LogicalRect>, b: Seq<LogicalRect>)
    requires
        pairwise_disjoint(a),
        pairwise_disjoint(b),
        forall|px: int, py: int|
            !((#[trigger] covers(a, px, py)) && (#[trigger] covers(b, px, py))),
    ensures
        pairwise_disjoint(a + b),
{
    let c = a + b;
    assert forall|i: int, j: int, px: int, py: int| 0 <= i < j < c.len() implies !((
    #[trigger] c[i].contains(px, py)) && (#[trigger] c[j].contains(px, py))) by {
        if c[i].contains(px, py) && c[j].contains(px, py) {
            if j < a.len() {
                assert(a[i].contains(px, py) && a[j].contains(px, py));
            } else if i >= a.len() {
                assert(b[i - a.len()].contains(px, py) && b[j - a.len()].contains(px, py));
            } else {
                assert(a[i].contains(px, py) && b[j - a.len()].contains(px, py));
                assert(covers(a, px, py) && covers(b, px, py));
            }
        }
    }
}

/// Cutting a list of disjoint rectangles takes away exactly the pixels of the cut.
proof fn lemma_cut_all(rects: Seq<LogicalRect>, cut: LogicalRect)
    requires
        all_solid(rects),
        pairwise_disjoint(rects),
        cut.edges_fit(),
    ensures
        forall|px: int, py: int|
            #[trigger] covers(cut_all(rects, cut), px, py) <==> covers(rects, px, py)
                && !cut.contains(px, py),
        pairwise_disjoint(cut_all(rects, cut)),
        all_solid(cut_all(rects, cut)),
    decreases rects.len(),
{
    if rects.len() > 0 {
        let head = rects.drop_last();
        let last = rects.last();
        assert forall|i: int, j: int, px: int, py: int| 0 <= i < j < head.len() implies !((
        #[trigger] head[i].contains(px, py)) && (#[trigger] head[j].contains(px, py))) by {
            assert(rects[i].contains(px, py) ==> !rects[j].contains(px, py));
        }
        lemma_cut_all(head, cut);
        law_subtraction_is_difference(last, cut);
        let a = cut_all(head, cut);
        let b = subtraction(last, cut);
        assert(rects == head + seq![last]);
        assert forall|px: int, py: int|
            #[trigger] covers(rects, px, py) <==> covers(head, px, py) || last.contains(
                px,
                py,
            ) by {
            lemma_covers_concat(head, seq![last], px, py);
            assert(seq![last][0] == last);
            assert(covers(seq![last], px, py) <==> last.contains(px, py));
        }
        assert forall|px: int, py: int|
            #[trigger] covers(cut_all(rects, cut), px, py) <==> covers(rects, px, py)
                && !cut.contains(px, py) by {
            lemma_covers_concat(a, b, px, py);
            assert(covers(rects, px, py) <==> covers(head, px, py) || last.contains(px, py));
        }
        assert forall|px: int, py: int|
            !((#[trigger] covers(a, px, py)) && (#[trigger] covers(b, px, py))) by {
            if covers(a, px, py) && covers(b, px, py) {
                let i = choose|i: int| 0 <= i < head.len() && (#[trigger] head[i]).contains(px, py);
                assert(rects[i].contains(px, py) && rects[rects.len() - 1].contains(px, py));
            }
        }
        lemma_disjoint_concat(a, b);
    }
}

/// Cutting by several rectangles takes away the pixels of each.
proof fn lemma_cut_by_each(rects: Seq<LogicalRect>, cuts: Seq<LogicalRect>)
    requires
        all_solid(rects),
        pairwise_disjoint(rects),
        all_solid(cuts),
    ensures
        forall|px: int, py: int|
            #[trigger] covers(cut_by_each(rects, cuts), px, py) <==> covers(rects, px, py)
                && !covers(cuts, px, py),
        pairwise_disjoint(cut_by_each(rects, cuts)),
        all_solid(cut_by_each(rects, cuts)),
    decreases cuts.len(),
{
    if cuts.len() > 0 {
        let head = cuts.drop_last();
        let last = cuts.last();
        lemma_cut_by_each(rects, head);
        lemma_cut_all(cut_by_each(rects, head), last);
        assert(cuts == head + seq![last]);
        assert forall|px: int, py: int|
            #[trigger] covers(cuts, px, py) <==> covers(head, px, py) || last.contains(px, py) by {
            lemma_covers_concat(head, seq![last], px, py);
            assert(seq![last][0] == last);
            assert(covers(seq![last], px, py) <==> last.contains(px, py));
        }
        assert forall|px: int, py: int|
            #[trigger] covers(cut_by_each(rects, cuts), px, py) <==> covers(rects, px, py)
                && !covers(cuts, px, py) by {
            assert(covers(cut_by_each(rects, head), px, py) <==> covers(rects, px, py) && !covers(
                head,
                px,
                py,
            ));
            assert(covers(cuts, px, py) <==> covers(head, px, py) || last.contains(px, py));
        }
    }
}

/// Once nothing is left, further cuts leave nothing.
proof fn lemma_cut_nothing(cuts: Seq<LogicalRect>, done: int, rects: Seq<LogicalRect>)
    requires
        0 <= done <= cuts.len(),
        cut_by_each(rects, cuts.take(done)).len() == 0,
    ensures
        cut_by_each(rects, cuts).len() == 0,
    decreases cuts.len() - done,
{
    if done < cuts.len() {
        let next = cuts.take(done + 1);
        assert(next.drop_last() == cuts.take(done));
        assert(cut_all(cut_by_each(rects, cuts.take(done)), next.last()).len() == 0);
        lemma_cut_nothing(cuts, done + 1, rects);
    } else {
        assert(cuts.take(done) == cuts);
    }
}

/// The rectangles of a region hold exactly the pixels of the region inside the bounds, each pixel
/// once, and none of them is empty.
pub proof fn law_region_rects_are_the_region(ops: Seq<RegionOp>, bounds: LogicalRect)
    requires
        bounds.edges_fit(),
        ops_fit(ops),
    ensures
        forall|px: int, py: int|
            #[trigger] covers(region_rects(ops, bounds), px, py) <==> bounds.contains(px, py)
                && region_contains(ops, px, py),
        pairwise_disjoint(region_rects(ops, bounds)),
        all_solid(region_rects(ops, bounds)),
    decreases ops.len(),
{
    if ops.len() > 0 {
        let head = ops.drop_last();
        let op = ops.last();
        law_region_rects_are_the_region(head, bounds);
        let before = region_rects(head, bounds);
        let out = region_rects(ops, bounds);
        match intersection(bounds, op.rect) {
            None => {
                assert forall|px: int, py: int|
                    #[trigger] covers(out, px, py) <==> bounds.contains(px, py) && region_contains(
                        ops,
                        px,
                        py,
                    ) by {
                    law_intersection_is_common_pixels(bounds, op.rect, px, py);
                    assert(covers(before, px, py) <==> bounds.contains(px, py) && region_contains(
                        head,
                        px,
                        py,
                    ));
                }
            },
            Some(clipped) => {
                assert(clipped.edges_fit() && !clipped.is_void());
                match op.kind {
                    RectangleKind::Add => {
                        let fresh = seq![clipped];
                        assert(fresh[0] == clipped);
                        lemma_cut_by_each(fresh, before);
                        let added = cut_by_each(fresh, before);
                        assert forall|px: int, py: int|
                            !((#[trigger] covers(before, px, py)) && (#[trigger] covers(
                                added,
                                px,
                                py,
                            ))) by {}
                        lemma_disjoint_concat(before, added);
                        assert forall|px: int, py: int|
                            #[trigger] covers(out, px, py) <==> bounds.contains(px, py)
                                && region_contains(ops, px, py) by {
                            law_intersection_is_common_pixels(bounds, op.rect, px, py);
                            lemma_covers_concat(before, added, px, py);
                            assert(covers(fresh, px, py) <==> clipped.contains(px, py));
                            assert(covers(before, px, py) <==> bounds.contains(px, py)
                                && region_contains(head, px, py));
                        }
                    },
                    RectangleKind::Subtract => {
                        lemma_cut_all(before, clipped);
                        assert forall|px: int, py: int|
                            #[trigger] covers(out, px, py) <==> bounds.contains(px, py)
                                && region_contains(ops, px, py) by {
                            law_intersection_is_common_pixels(bounds, op.rect, px, py);
                            assert(covers(before, px, py) <==> bounds.contains(px, py)
                                && region_contains(head, px, py));
                        }
                    },
                }
            },
        }
    }
}

/// Cuts a rectangle out of another one.
pub fn subtract_logical_rect(base: LogicalRect, cut: LogicalRect) -> (out: Vec<LogicalRect>)
    requires
        base.edges_fit(),
        cut.edges_fit(),
    ensures
        out@ == subtraction(base, cut),
{
    let left: i32 = max_i32(base.x, cut.x);
    let top: i32 = max_i32(base.y, cut.y);
    let right: i32 = min_i32(base.x + base.width, cut.x + cut.width);
    let bottom: i32 = min_i32(base.y + base.height, cut.y + cut.height);

    let mut out: Vec<LogicalRect> = Vec::new();
    if right <= left || bottom <= top {
        out.push(base);
        return out;
    }
    if top > base.y {
        out.push(LogicalRect::new(base.x, base.y, base.width, top - base.y));
    }
    if bottom < base.y + base.height {
        out.push(LogicalRect::new(base.x, bottom, base.width, base.y + base.height - bottom));
    }
    if left > base.x {
        out.push(LogicalRect::new(base.x, top, left - base.x, bottom - top));
    }
    if right < base.x + base.width {
        out.push(LogicalRect::new(right, top, base.x + base.width - right, bottom - top));
    }
    out
}

/// The overlap of two rectangles, if they share a pixel.
pub fn intersect_logical_rects(a: LogicalRect, b: LogicalRect) -> (out: Option<LogicalRect>)
    requires
        a.edges_fit(),
        b.edges_fit(),
    ensures
        out == intersection(a, b),
{
    let left: i32 = max_i32(a.x, b.x);
    let top: i32 = max_i32(a.y, b.y);
    let right: i32 = min_i32(a.x + a.width, b.x + b.width);
    let bottom: i32 = min_i32(a.y + a.height, b.y + b.height);
    if right <= left || bottom <= top {
        return None;
    }
    Some(LogicalRect::new(left, top, right - left, bottom - top))
}

/// Cuts every rectangle of a list.
fn subtract_from_all(rects: &Vec<LogicalRect>, cut: LogicalRect) -> (out: Vec<LogicalRect>)
    requires
        all_solid(rects@),
        cut.edges_fit(),
    ensures
        out@ == cut_all(rects@, cut),
{
    let mut out: Vec<LogicalRect> = Vec::new();
    let mut i: usize = 0;
    while i < rects.len()
        invariant
            i <= rects.len(),
            all_solid(rects@),
            cut.edges_fit(),
            out@ == cut_all(rects@.take(i as int), cut),
        decreases rects.len() - i,
    {
        let mut parts = subtract_logical_rect(rects[i], cut);
        out.append(&mut parts);
        i += 1;
        assert(rects@.take(i as int).drop_last() == rects@.take(i - 1));
    }
    assert(rects@.take(rects.len() as int) == rects@);
    out
}

/// The part of a region inside `bounds`, as disjoint rectangles.
pub fn region_rects_within_bounds(region: &Vec<RegionOp>, bounds: LogicalRect) -> (current: Vec<
    LogicalRect,
>)
    requires
        bounds.edges_fit(),
        ops_fit(region@),
    ensures
        current@ == region_rects(region@, bounds),
        forall|px: int, py: int|
            #[trigger] covers(current@, px, py) <==> bounds.contains(px, py) && region_contains(
                region@,
                px,
                py,
            ),
        pairwise_disjoint(current@),
        all_solid(current@),
{
    let mut current: Vec<LogicalRect> = Vec::new();
    let mut n: usize = 0;
    while n < region.len()
        invariant
            n <= region.len(),
            bounds.edges_fit(),
            ops_fit(region@),
            current@ == region_rects(region@.take(n as int), bounds),
        decreases region.len() - n,
    {
        let op = region[n];
        let ghost ops = region@.take(n + 1);
        proof {
            assert(ops.drop_last() == region@.take(n as int));
            law_region_rects_are_the_region(region@.take(n as int), bounds);
        }
        n += 1;
        if let Some(clipped) = intersect_logical_rects(bounds, op.rect) {
            assert(clipped.edges_fit() && !clipped.is_void());
            match op.kind {
                RectangleKind::Add => {
                    let ghost fresh = seq![clipped];
                    let mut pending: Vec<LogicalRect> = Vec::new();
                    pending.push(clipped);
                    let mut i: usize = 0;
                    assert(pending@ == fresh);
                    while i < current.len() && pending.len() > 0
                        invariant
                            i <= current.len(),
                            all_solid(current@),
                            all_solid(fresh),
                            pairwise_disjoint(fresh),
                            pending@ == cut_by_each(fresh, current@.take(i as int)),
                        decreases current.len() - i,
                    {
                        let ghost cuts = current@.take(i + 1);
                        assert(cuts.drop_last() == current@.take(i as int));
                        proof {
                            lemma_cut_by_each(fresh, current@.take(i as int));
                        }
                        pending = subtract_from_all(&pending, current[i]);
                        i += 1;
                    }
                    proof {
                        if i < current.len() {
                            lemma_cut_nothing(current@, i as int, fresh);
                        } else {
                            assert(current@.take(i as int) == current@);
                        }
                    }
                    assert(pending@ =~= cut_by_each(fresh, current@));
                    current.append(&mut pending);
                },
                RectangleKind::Subtract => {
                    current = subtract_from_all(&current, clipped);
                },
            }
        }
    }
    assert(region@.take(region.len() as int) == region@);
    proof {
        law_region_rects_are_the_region(region@, bounds);
    }
    current
}

/// `value` is the least of the numbers that `f` gives on a non-empty list.
pub open spec fn is_least(value: int, rects: Seq<LogicalRect>, f: spec_fn(LogicalRect) -> int) -> bool {
    &&& exists|i: int| 0 <= i < rects.len() && value == f(#[trigger] rects[i])
    &&& forall|i: int| 0 <= i < rects.len() ==> value <= f(#[trigger] rects[i])
}

/// `value` is the greatest of the numbers that `f` gives on a non-empty list.
pub open spec fn is_greatest(
    value: int,
    rects: Seq<LogicalRect>,
    f: spec_fn(LogicalRect) -> int,
) -> bool {
    &&& exists|i: int| 0 <= i < rects.len() && value == f(#[trigger] rects[i])
    &&& forall|i: int| 0 <= i < rects.len() ==> value >= f(#[trigger] rects[i])
}

/// `rect` reaches from the least to the greatest edges of the list.
pub open spec fn is_bounding_box(rect: LogicalRect, rects: Seq<LogicalRect>) -> bool {
    &&& is_least(rect.x as int, rects, |r: LogicalRect| r.x as int)
    &&& is_least(rect.y as int, rects, |r: LogicalRect| r.y as int)
    &&& is_greatest(rect.right(), rects, |r: LogicalRect| r.right())
    &&& is_greatest(rect.bottom(), rects, |r: LogicalRect| r.bottom())
}

/// The distance between any two opposite edges of the list can be written.
pub open spec fn extents_fit(rects: Seq<LogicalRect>) -> bool {
    forall|i: int, j: int|
        0 <= i < rects.len() && 0 <= j < rects.len() ==> (#[trigger] rects[i]).right() - (
        #[trigger] rects[j]).x <= i32::MAX && rects[i].bottom() - rects[j].y <= i32::MAX
}

/// The smallest rectangle around a list of rectangles; none for an empty list.
pub fn bounding_box_for_rects(rects: &[LogicalRect]) -> (out: Option<LogicalRect>)
    requires
        forall|i: int| 0 <= i < rects@.len() ==> (#[trigger] rects@[i]).edges_fit(),
        extents_fit(rects@),
    ensures
        out is None <==> rects@.len() == 0,
        out matches Some(rect) ==> is_bounding_box(rect, rects@),
{
    if rects.len() == 0 {
        return None;
    }
    let first = rects[0];
    let mut left: i32 = first.x;
    let mut top: i32 = first.y;
    let mut right: i32 = first.x + first.width;
    let mut bottom: i32 = first.y + first.height;
    let mut i: usize = 1;
    assert(rects@.take(1)[0] == first);
    while i < rects.len()
        invariant
            1 <= i <= rects@.len(),
            forall|k: int| 0 <= k < rects@.len() ==> (#[trigger] rects@[k]).edges_fit(),
            is_least(left as int, rects@.take(i as int), |r: LogicalRect| r.x as int),
            is_least(top as int, rects@.take(i as int), |r: LogicalRect| r.y as int),
            is_greatest(right as int, rects@.take(i as int), |r: LogicalRect| r.right()),
            is_greatest(bottom as int, rects@.take(i as int), |r: LogicalRect| r.bottom()),
        decreases rects@.len() - i,
    {
        let rect = rects[i];
        let ghost seen = rects@.take(i as int);
        let ghost now = rects@.take(i + 1);
        assert(now == seen.push(rect));
        assert(now[i as int] == rect);
        assert forall|k: int| 0 <= k < seen.len() implies #[trigger] seen[k] == now[k] by {}
        left = min_i32(left, rect.x);
        top = min_i32(top, rect.y);
        right = max_i32(right, rect.x + rect.width);
        bottom = max_i32(bottom, rect.y + rect.height);
        i += 1;
    }
    assert(rects@.take(i as int) == rects@);
    Some(LogicalRect::new(left, top, right - left, bottom - top))
}

/// A bounding box holds every pixel of every rectangle of the list.
pub proof fn law_bounding_box_covers(rect: LogicalRect, rects: Seq<LogicalRect>, px: int, py: int)
    requires
        is_bounding_box(rect, rects),
        covers(rects, px, py),
    ensures
        rect.contains(px, py),
{
}

/// No other rectangle that reaches as far as every rectangle of the list is smaller than a
/// bounding box.
pub proof fn law_bounding_box_is_smallest(
    rect: LogicalRect,
    rects: Seq<LogicalRect>,
    other: LogicalRect,
)
    requires
        is_bounding_box(rect, rects),
        forall|i: int|
            0 <= i < rects.len() ==> other.x <= (#[trigger] rects[i]).x && other.y <= rects[i].y
                && rects[i].right() <= other.right() && rects[i].bottom() <= other.bottom(),
    ensures
        other.x <= rect.x && other.y <= rect.y && rect.right() <= other.right()
            && rect.bottom() <= other.bottom(),
{
}

/// Whether two rectangles share a pixel.
pub fn logical_rects_intersect(lhs: LogicalRect, rhs: LogicalRect) -> (hit: bool)
    requires
        lhs.edges_fit(),
        rhs.edges_fit(),
    ensures
        hit == overlap(lhs, rhs),
{
    let left: i32 = max_i32(lhs.x, rhs.x);
    let top: i32 = max_i32(lhs.y, rhs.y);
    let right: i32 = min_i32(lhs.x + lhs.width, rhs.x + rhs.width);
    let bottom: i32 = min_i32(lhs.y + lhs.height, rhs.y + rhs.height);
    right > left && bottom > top
}

/// Where a popup stands in its window: its offset, without the part of its own surface that lies
/// before its geometry, from the corner of the window's geometry.
pub fn popup_offset(window: (i32, i32), offset: (i32, i32), geometry: (i32, i32)) -> (place: (i32, i32))
    requires
        i32::MIN <= window.0 + offset.0 <= i32::MAX,
        i32::MIN <= window.1 + offset.1 <= i32::MAX,
        i32::MIN <= window.0 + offset.0 - geometry.0 <= i32::MAX,
        i32::MIN <= window.1 + offset.1 - geometry.1 <= i32::MAX,
    ensures
        place.0 == window.0 + offset.0 - geometry.0,
        place.1 == window.1 + offset.1 - geometry.1,
{
    (window.0 + offset.0 - geometry.0, window.1 + offset.1 - geometry.1)
}

/// Two rectangles overlap exactly if there is a pixel in both.
pub proof fn law_overlap_is_a_common_pixel(a: LogicalRect, b: LogicalRect)
    ensures
        overlap(a, b) <==> exists|px: int, py: int|
            a.contains(px, py) && #[trigger] b.contains(px, py),
        overlap(a, b) == overlap(b, a),
        !a.is_void() ==> overlap(a, a),
{
    let (left, top, right, bottom) = overlap_edges(a, b);
    if overlap(a, b) {
        assert(a.contains(left, top) && b.contains(left, top));
    }
}

/// A region grows by exactly the pixels of a rectangle that is added, and loses exactly those of one that is
/// taken away, whatever came before. Without steps it is empty.
pub proof fn law_region_steps(ops: Seq<RegionOp>, rect: LogicalRect, px: int, py: int)
    ensures
        !region_contains(Seq::empty(), px, py),
        region_contains(ops.push(RegionOp { kind: RectangleKind::Add, rect }), px, py)
            <==> region_contains(ops, px, py) || rect.contains(px, py),
        region_contains(ops.push(RegionOp { kind: RectangleKind::Subtract, rect }), px, py)
            <==> region_contains(ops, px, py) && !rect.contains(px, py),
{
    let added = ops.push(RegionOp { kind: RectangleKind::Add, rect });
    let taken = ops.push(RegionOp { kind: RectangleKind::Subtract, rect });
    assert(added.drop_last() =~= ops);
    assert(taken.drop_last() =~= ops);
}

} // verus!
