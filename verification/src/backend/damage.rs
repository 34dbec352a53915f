//! Damage on an output, and the marks that make past damage visible.

use crate::backend::window::intersect_logical_rects;
use crate::geometry::{LogicalRect, PhysicalRect};
use vstd::prelude::*;

verus! {

/// The parts of the rectangles on the output, as seen from its corner.
pub open spec fn rects_on_output(rects: Seq<LogicalRect>, output: LogicalRect) -> Seq<LogicalRect>
    decreases rects.len(),
{
    if rects.len() == 0 {
        Seq::empty()
    } else {
        let before = rects_on_output(rects.drop_last(), output);
        match crate::backend::window::intersection(rects.last(), output) {
            Some(common) => before.push(common.relative_to(output)),
            None => before,
        }
    }
}

/// Clips damaged rectangles to an output, in coordinates of the output. Those outside are dropped.
pub fn elements_for_output(rects: &Vec<LogicalRect>, output: LogicalRect) -> (clipped: Vec<
    LogicalRect,
>)
    requires
        output.edges_fit(),
        forall|i: int| 0 <= i < rects@.len() ==> (#[trigger] rects@[i]).edges_fit(),
    ensures
        clipped@ == rects_on_output(rects@, output),
{
    let mut clipped: Vec<LogicalRect> = Vec::new();
    let mut i: usize = 0;
    while i < rects.len()
        invariant
            i <= rects@.len(),
            output.edges_fit(),
            forall|k: int| 0 <= k < rects@.len() ==> (#[trigger] rects@[k]).edges_fit(),
            clipped@ == rects_on_output(rects@.take(i as int), output),
        decreases rects@.len() - i,
    {
        assert(rects@.take(i + 1).drop_last() == rects@.take(i as int));
        if let Some(common) = intersect_logical_rects(rects[i], output) {
            clipped.push(common.localize(output));
        }
        i += 1;
    }
    assert(rects@.take(i as int) == rects@);
    clipped
}

/// A pixel of the output is damaged exactly if one of the rectangles holds it.
pub proof fn law_damage_covers_output_pixels(
    rects: Seq<LogicalRect>,
    output: LogicalRect,
    px: int,
    py: int,
)
    requires
        output.edges_fit(),
        forall|i: int| 0 <= i < rects.len() ==> (#[trigger] rects[i]).edges_fit(),
        output.contains(px, py),
    ensures
        crate::backend::window::covers(rects_on_output(rects, output), px - output.x, py - output.y)
            <==> crate::backend::window::covers(rects, px, py),
    decreases rects.len(),
{
    let out = rects_on_output(rects, output);
    if rects.len() > 0 {
        let head = rects.drop_last();
        assert forall|i: int| 0 <= i < head.len() implies (#[trigger] head[i]).edges_fit() by {
            assert(rects[i].edges_fit());
        }
        law_damage_covers_output_pixels(head, output, px, py);
        let before = rects_on_output(head, output);
        let last = rects[rects.len() - 1];
        crate::backend::window::law_intersection_is_common_pixels(last, output, px, py);
        if crate::backend::window::covers(rects, px, py) {
            let i = choose|i: int| 0 <= i < rects.len() && (#[trigger] rects[i]).contains(px, py);
            if i < head.len() {
                assert(head[i].contains(px, py));
                let j = choose|j: int|
                    0 <= j < before.len() && (#[trigger] before[j]).contains(
                        px - output.x,
                        py - output.y,
                    );
                assert(out[j] == before[j]);
            } else {
                assert(out[out.len() - 1].contains(px - output.x, py - output.y));
            }
        }
        if crate::backend::window::covers(out, px - output.x, py - output.y) {
            let j = choose|j: int|
                0 <= j < out.len() && (#[trigger] out[j]).contains(px - output.x, py - output.y);
            if j < before.len() {
                assert(before[j].contains(px - output.x, py - output.y));
                let i = choose|i: int| 0 <= i < head.len() && (#[trigger] head[i]).contains(px, py);
                assert(rects[i].contains(px, py));
            } else {
                assert(last.contains(px, py));
            }
        }
    }
}

/// Nothing outside the output counts as damaged.
pub proof fn law_damage_stays_on_the_output(
    rects: Seq<LogicalRect>,
    output: LogicalRect,
    px: int,
    py: int,
)
    requires
        output.edges_fit(),
        forall|i: int| 0 <= i < rects.len() ==> (#[trigger] rects[i]).edges_fit(),
        crate::backend::window::covers(rects_on_output(rects, output), px, py),
    ensures
        0 <= px < output.width,
        0 <= py < output.height,
        rects_on_output(rects, output).len() <= rects.len(),
    decreases rects.len(),
{
    let out = rects_on_output(rects, output);
    if rects.len() > 0 {
        let head = rects.drop_last();
        assert forall|i: int| 0 <= i < head.len() implies (#[trigger] head[i]).edges_fit() by {
            assert(rects[i].edges_fit());
        }
        let before = rects_on_output(head, output);
        let last = rects[rects.len() - 1];
        lemma_damage_count(head, output);
        let j = choose|j: int| 0 <= j < out.len() && (#[trigger] out[j]).contains(px, py);
        if j < before.len() {
            assert(before[j].contains(px, py));
            law_damage_stays_on_the_output(head, output, px, py);
        } else {
            crate::backend::window::law_intersection_is_common_pixels(
                last,
                output,
                px + output.x,
                py + output.y,
            );
        }
    }
}

proof fn lemma_damage_count(rects: Seq<LogicalRect>, output: LogicalRect)
    ensures
        rects_on_output(rects, output).len() <= rects.len(),
    decreases rects.len(),
{
    if rects.len() > 0 {
        lemma_damage_count(rects.drop_last(), output);
    }
}

/// How wide the border of a mark is, in pixels.
pub const BLINK_BORDER_WIDTH: i32 = 1;

/// A rectangle, or nothing if it has no pixels.
pub open spec fn unless_void(rect: PhysicalRect) -> Seq<PhysicalRect> {
    if rect.is_void() {
        Seq::empty()
    } else {
        seq![rect]
    }
}

/// The border of a mark: its top and bottom rows, then its left and right columns.
pub open spec fn border_of(rect: PhysicalRect) -> Seq<PhysicalRect> {
    let w = BLINK_BORDER_WIDTH;
    unless_void(PhysicalRect { height: w, ..rect }) + unless_void(
        PhysicalRect { y: (rect.bottom() - w) as i32, height: w, ..rect },
    ) + unless_void(PhysicalRect { width: w, ..rect }) + unless_void(
        PhysicalRect { x: (rect.right() - w) as i32, width: w, ..rect },
    )
}

/// The rectangles of the border of a mark.
pub fn blink_border(rect: PhysicalRect) -> (border: Vec<PhysicalRect>)
    requires
        rect.edges_fit(),
        rect.right() > i32::MIN,
        rect.bottom() > i32::MIN,
    ensures
        border@ == border_of(rect),
{
    let mut border: Vec<PhysicalRect> = Vec::new();
    let w: i32 = BLINK_BORDER_WIDTH;
    if rect.width > 0 {
        border.push(PhysicalRect::new(rect.x, rect.y, rect.width, w));
        border.push(PhysicalRect::new(rect.x, rect.y + rect.height - w, rect.width, w));
    }
    if rect.height > 0 {
        border.push(PhysicalRect::new(rect.x, rect.y, w, rect.height));
        border.push(PhysicalRect::new(rect.x + rect.width - w, rect.y, w, rect.height));
    }
    assert(border@ =~= border_of(rect));
    border
}

/// The border of a mark with pixels is the outermost ring of its pixels.
pub proof fn law_border_is_outer_ring(rect: PhysicalRect, px: int, py: int)
    requires
        rect.edges_fit(),
        !rect.is_void(),
    ensures
        (exists|i: int|
            0 <= i < border_of(rect).len() && (#[trigger] border_of(rect)[i]).contains(px, py))
            <==> rect.contains(px, py) && (px == rect.x || px == rect.right() - 1 || py == rect.y
            || py == rect.bottom() - 1),
{
    let border = border_of(rect);
    assert(border.len() == 4);
    assert(border[0] == PhysicalRect { height: 1, ..rect });
    assert(border[1] == PhysicalRect { y: (rect.bottom() - 1) as i32, height: 1, ..rect });
    assert(border[2] == PhysicalRect { width: 1, ..rect });
    assert(border[3] == PhysicalRect { x: (rect.right() - 1) as i32, width: 1, ..rect });
    if rect.contains(px, py) {
        if py == rect.y {
            assert(border[0].contains(px, py));
        } else if py == rect.bottom() - 1 {
            assert(border[1].contains(px, py));
        } else if px == rect.x {
            assert(border[2].contains(px, py));
        } else if px == rect.right() - 1 {
            assert(border[3].contains(px, py));
        }
    }
}

} // verus!
