//! Measurements that help to find gaps between a window and its decoration.

use crate::geometry::{max_i32, min_i32, PhysicalRect};
use crate::strings::{chars_at, ends_with, push_i32, same_text, to_chars};
use vstd::prelude::*;

verus! {

/// Which edge of a rectangle is probed.
#[derive(Clone, Copy, Debug, PartialEq, Eq, Structural)]
pub enum ProbeEdge {
    Left,
    Top,
    Right,
    Bottom,
    /// One column inside the right edge.
    RightInset,
    /// One row inside the bottom edge.
    BottomInset,
}

/// A strip of pixels along an edge.
#[derive(Clone, Copy, Debug, PartialEq, Eq, Structural)]
pub struct EdgeProbe {
    pub edge: ProbeEdge,
    /// How wide the strip is, or how far it lies inside.
    pub pixels: i32,
    pub rect: PhysicalRect,
}

/// The strip of the given width along an edge, or the single row or column that far inside.
pub open spec fn probe_of(rect: PhysicalRect, edge: ProbeEdge, pixels: i32) -> EdgeProbe {
    let width = crate::geometry::smaller(rect.width as int, pixels as int) as i32;
    let height = crate::geometry::smaller(rect.height as int, pixels as int) as i32;
    EdgeProbe {
        edge,
        pixels,
        rect: match edge {
            ProbeEdge::Left => PhysicalRect { width, ..rect },
            ProbeEdge::Top => PhysicalRect { height, ..rect },
            ProbeEdge::Right => PhysicalRect {
                x: (rect.x + rect.width - width) as i32,
                width,
                ..rect
            },
            ProbeEdge::Bottom => PhysicalRect {
                y: (rect.y + rect.height - height) as i32,
                height,
                ..rect
            },
            ProbeEdge::RightInset => PhysicalRect {
                x: (rect.x + rect.width - 1 - pixels) as i32,
                width: 1,
                ..rect
            },
            ProbeEdge::BottomInset => PhysicalRect {
                y: (rect.y + rect.height - 1 - pixels) as i32,
                height: 1,
                ..rect
            },
        },
    }
}

/// The strips of one width along all four edges.
pub open spec fn edge_strips(rect: PhysicalRect, pixels: i32) -> Seq<EdgeProbe> {
    seq![
        probe_of(rect, ProbeEdge::Left, pixels),
        probe_of(rect, ProbeEdge::Top, pixels),
        probe_of(rect, ProbeEdge::Right, pixels),
        probe_of(rect, ProbeEdge::Bottom, pixels),
    ]
}

/// The column and the row that far inside, where the rectangle is larger than that.
pub open spec fn inset_lines(rect: PhysicalRect, pixels: i32) -> Seq<EdgeProbe> {
    (if rect.width > pixels {
        seq![probe_of(rect, ProbeEdge::RightInset, pixels)]
    } else {
        Seq::empty()
    }) + (if rect.height > pixels {
        seq![probe_of(rect, ProbeEdge::BottomInset, pixels)]
    } else {
        Seq::empty()
    })
}

/// All strips and lines that are probed of a rectangle.
pub open spec fn all_probes(rect: PhysicalRect) -> Seq<EdgeProbe> {
    edge_strips(rect, 1) + edge_strips(rect, 2) + edge_strips(rect, 4) + inset_lines(rect, 1)
        + inset_lines(rect, 2) + inset_lines(rect, 4) + inset_lines(rect, 8)
}

fn push_edge_strips(probes: &mut Vec<EdgeProbe>, rect: PhysicalRect, pixels: i32)
    requires
        rect.edges_fit(),
        pixels >= 1,
    ensures
        final(probes)@ == old(probes)@ + edge_strips(rect, pixels),
{
    let width: i32 = min_i32(rect.width, pixels);
    let height: i32 = min_i32(rect.height, pixels);
    probes.push(
        EdgeProbe {
            edge: ProbeEdge::Left,
            pixels,
            rect: PhysicalRect::new(rect.x, rect.y, width, rect.height),
        },
    );
    probes.push(
        EdgeProbe {
            edge: ProbeEdge::Top,
            pixels,
            rect: PhysicalRect::new(rect.x, rect.y, rect.width, height),
        },
    );
    probes.push(
        EdgeProbe {
            edge: ProbeEdge::Right,
            pixels,
            rect: PhysicalRect::new(rect.x + (rect.width - width), rect.y, width, rect.height),
        },
    );
    probes.push(
        EdgeProbe {
            edge: ProbeEdge::Bottom,
            pixels,
            rect: PhysicalRect::new(rect.x, rect.y + (rect.height - height), rect.width, height),
        },
    );
    assert(probes@ =~= old(probes)@ + edge_strips(rect, pixels));
}

fn push_inset_lines(probes: &mut Vec<EdgeProbe>, rect: PhysicalRect, pixels: i32)
    requires
        rect.edges_fit(),
        1 <= pixels <= 8,
    ensures
        final(probes)@ == old(probes)@ + inset_lines(rect, pixels),
{
    if rect.width > pixels {
        probes.push(
            EdgeProbe {
                edge: ProbeEdge::RightInset,
                pixels,
                rect: PhysicalRect::new(
                    rect.x + rect.width - 1 - pixels,
                    rect.y,
                    1,
                    rect.height,
                ),
            },
        );
    }
    if rect.height > pixels {
        probes.push(
            EdgeProbe {
                edge: ProbeEdge::BottomInset,
                pixels,
                rect: PhysicalRect::new(
                    rect.x,
                    rect.y + rect.height - 1 - pixels,
                    rect.width,
                    1,
                ),
            },
        );
    }
    assert(probes@ =~= old(probes)@ + inset_lines(rect, pixels));
}

/// The strips and lines whose pixels are read back to see whether a rectangle is drawn up to its
/// edges.
pub fn edge_probes(rect: PhysicalRect) -> (probes: Vec<EdgeProbe>)
    requires
        rect.edges_fit(),
    ensures
        probes@ == all_probes(rect),
{
    let mut probes: Vec<EdgeProbe> = Vec::new();
    push_edge_strips(&mut probes, rect, 1);
    push_edge_strips(&mut probes, rect, 2);
    push_edge_strips(&mut probes, rect, 4);
    push_inset_lines(&mut probes, rect, 1);
    push_inset_lines(&mut probes, rect, 2);
    push_inset_lines(&mut probes, rect, 4);
    push_inset_lines(&mut probes, rect, 8);
    assert(probes@ =~= all_probes(rect));
    probes
}

/// Every probe of a rectangle with pixels lies inside the rectangle.
pub proof fn law_probes_lie_inside(rect: PhysicalRect, i: int, px: int, py: int)
    requires
        rect.edges_fit(),
        !rect.is_void(),
        0 <= i < all_probes(rect).len(),
        all_probes(rect)[i].rect.contains(px, py),
    ensures
        rect.contains(px, py),
{
    let probe = all_probes(rect)[i];
    let strips = edge_strips(rect, 1) + edge_strips(rect, 2) + edge_strips(rect, 4);
    assert(strips.len() == 12);
    assert(probe == probe_of(rect, probe.edge, probe.pixels) && 1 <= probe.pixels <= 8 && (
    probe.edge == ProbeEdge::RightInset ==> rect.width > probe.pixels) && (probe.edge
        == ProbeEdge::BottomInset ==> rect.height > probe.pixels)) by {
        if i < 12 {
            assert(all_probes(rect)[i] == strips[i]);
        }
    }
}

/// The name of a probe.
pub open spec fn probe_name(probe: EdgeProbe) -> Seq<char> {
    (match probe.edge {
        ProbeEdge::Left => "left-"@,
        ProbeEdge::Top => "top-"@,
        ProbeEdge::Right => "right-"@,
        ProbeEdge::Bottom => "bottom-"@,
        ProbeEdge::RightInset => "right-inset-"@,
        ProbeEdge::BottomInset => "bottom-inset-"@,
    }) + crate::strings::decimal(probe.pixels as int) + "px"@
}

pub fn probe_label(probe: &EdgeProbe) -> (label: String)
    ensures
        label@ == probe_name(*probe),
{
    let mut label = match probe.edge {
        ProbeEdge::Left => "left-".to_owned(),
        ProbeEdge::Top => "top-".to_owned(),
        ProbeEdge::Right => "right-".to_owned(),
        ProbeEdge::Bottom => "bottom-".to_owned(),
        ProbeEdge::RightInset => "right-inset-".to_owned(),
        ProbeEdge::BottomInset => "bottom-inset-".to_owned(),
    };
    push_i32(&mut label, probe.pixels);
    label.append("px");
    label
}

/// Whether the pixels of a probe are read back.
pub fn reads_probe(rect: PhysicalRect, element_count: usize) -> (reads: bool)
    ensures
        reads == (!rect.is_void() && element_count > 0),
{
    !(rect.width <= 0 || rect.height <= 0 || element_count == 0)
}

/// How opaque the pixels of a probe are.
#[derive(Clone, Copy, Debug, PartialEq, Eq, Structural)]
pub struct AlphaStatistics {
    pub transparent: usize,
    pub opaque: usize,
    pub min_alpha: u8,
    pub max_alpha: u8,
}

/// The alpha of a pixel; each pixel has four bytes, the last of which is its alpha.
pub open spec fn alpha_at(bytes: Seq<u8>, pixel: int) -> u8 {
    bytes[4 * pixel + 3]
}

/// How many of the first `count` pixels are fully transparent.
pub open spec fn transparent_count(bytes: Seq<u8>, count: nat) -> nat
    decreases count,
{
    if count == 0 {
        0
    } else {
        transparent_count(bytes, (count - 1) as nat) + (if alpha_at(bytes, count - 1) == 0 {
            1nat
        } else {
            0nat
        })
    }
}

/// The least alpha of the first `count` pixels.
pub open spec fn least_alpha(bytes: Seq<u8>, count: nat) -> u8
    decreases count,
{
    if count == 0 {
        u8::MAX
    } else {
        let before = least_alpha(bytes, (count - 1) as nat);
        let alpha = alpha_at(bytes, count - 1);
        if alpha < before {
            alpha
        } else {
            before
        }
    }
}

/// The greatest alpha of the first `count` pixels.
pub open spec fn greatest_alpha(bytes: Seq<u8>, count: nat) -> u8
    decreases count,
{
    if count == 0 {
        0
    } else {
        let before = greatest_alpha(bytes, (count - 1) as nat);
        let alpha = alpha_at(bytes, count - 1);
        if alpha > before {
            alpha
        } else {
            before
        }
    }
}

/// Counts the transparent pixels of a probe; bytes that make up no whole pixel are left out.
pub fn alpha_statistics(bytes: &Vec<u8>) -> (statistics: AlphaStatistics)
    ensures
        statistics.transparent == transparent_count(bytes@, bytes@.len() / 4),
        statistics.transparent + statistics.opaque == bytes@.len() / 4,
        statistics.min_alpha == least_alpha(bytes@, bytes@.len() / 4),
        statistics.max_alpha == greatest_alpha(bytes@, bytes@.len() / 4),
{
    let mut transparent: usize = 0;
    let mut opaque: usize = 0;
    let mut min_alpha: u8 = u8::MAX;
    let mut max_alpha: u8 = 0;
    let pixels: usize = bytes.len() / 4;
    let mut i: usize = 0;
    while i < pixels
        invariant
            i <= pixels,
            pixels == bytes@.len() / 4,
            bytes@.len() <= usize::MAX,
            transparent + opaque == i,
            transparent == transparent_count(bytes@, i as nat),
            min_alpha == least_alpha(bytes@, i as nat),
            max_alpha == greatest_alpha(bytes@, i as nat),
        decreases pixels - i,
    {
        let alpha: u8 = bytes[4 * i + 3];
        if alpha < min_alpha {
            min_alpha = alpha;
        }
        if alpha > max_alpha {
            max_alpha = alpha;
        }
        if alpha == 0 {
            transparent += 1;
        } else {
            opaque += 1;
        }
        i += 1;
    }
    AlphaStatistics { transparent, opaque, min_alpha, max_alpha }
}

/// The rectangle around two; a size is never negative.
pub open spec fn joined(a: PhysicalRect, b: PhysicalRect) -> PhysicalRect {
    let left = crate::geometry::smaller(a.x as int, b.x as int);
    let top = crate::geometry::smaller(a.y as int, b.y as int);
    let right = crate::geometry::larger(a.right(), b.right());
    let bottom = crate::geometry::larger(a.bottom(), b.bottom());
    PhysicalRect {
        x: left as i32,
        y: top as i32,
        width: crate::geometry::larger(right - left, 0) as i32,
        height: crate::geometry::larger(bottom - top, 0) as i32,
    }
}

/// The rectangle around a non-empty list.
pub open spec fn joined_all(rects: Seq<PhysicalRect>) -> PhysicalRect
    decreases rects.len(),
{
    if rects.len() <= 1 {
        rects[0]
    } else {
        joined(joined_all(rects.drop_last()), rects.last())
    }
}

/// The rectangle around two can be measured.
pub open spec fn joinable(a: PhysicalRect, b: PhysicalRect) -> bool {
    let width = crate::geometry::larger(a.right(), b.right()) - crate::geometry::smaller(
        a.x as int,
        b.x as int,
    );
    let height = crate::geometry::larger(a.bottom(), b.bottom()) - crate::geometry::smaller(
        a.y as int,
        b.y as int,
    );
    &&& a.edges_fit()
    &&& b.edges_fit()
    &&& i32::MIN <= width <= i32::MAX
    &&& i32::MIN <= height <= i32::MAX
}

/// The list can be joined step by step.
pub open spec fn all_joinable(rects: Seq<PhysicalRect>) -> bool
    decreases rects.len(),
{
    rects.len() <= 1 || (all_joinable(rects.drop_last()) && joinable(
        joined_all(rects.drop_last()),
        rects.last(),
    ))
}

proof fn lemma_joinable_prefix(rects: Seq<PhysicalRect>, count: int)
    requires
        all_joinable(rects),
        0 <= count <= rects.len(),
    ensures
        all_joinable(rects.take(count)),
    decreases rects.len(),
{
    if count == rects.len() {
        assert(rects.take(count) == rects);
    } else if rects.len() > 1 {
        assert(rects.drop_last().take(count) == rects.take(count));
        lemma_joinable_prefix(rects.drop_last(), count);
    }
}

/// The rectangle around all elements of a scene; none for an empty scene.
pub fn scene_union(rects: &Vec<PhysicalRect>) -> (union: Option<PhysicalRect>)
    requires
        all_joinable(rects@),
    ensures
        union == (if rects@.len() == 0 {
            None
        } else {
            Some(joined_all(rects@))
        }),
{
    if rects.len() == 0 {
        return None;
    }
    let mut union = rects[0];
    let mut i: usize = 1;
    while i < rects.len()
        invariant
            1 <= i <= rects@.len(),
            all_joinable(rects@),
            union == joined_all(rects@.take(i as int)),
        decreases rects@.len() - i,
    {
        proof {
            assert(rects@.take(i + 1).drop_last() == rects@.take(i as int));
            lemma_joinable_prefix(rects@, i + 1);
        }
        let rect = rects[i];
        let left: i32 = min_i32(union.x, rect.x);
        let top: i32 = min_i32(union.y, rect.y);
        let right: i32 = max_i32(union.x + union.width, rect.x + rect.width);
        let bottom: i32 = max_i32(union.y + union.height, rect.y + rect.height);
        union = PhysicalRect::new(left, top, max_i32(right - left, 0), max_i32(bottom - top, 0));
        i += 1;
    }
    assert(rects@.take(i as int) == rects@);
    Some(union)
}

/// The differences of two rectangles: of their corners and of their sizes.
pub fn rect_delta(current: PhysicalRect, previous: PhysicalRect) -> (delta: (i32, i32, i32, i32))
    requires
        i32::MIN <= current.x - previous.x <= i32::MAX,
        i32::MIN <= current.y - previous.y <= i32::MAX,
        i32::MIN <= current.width - previous.width <= i32::MAX,
        i32::MIN <= current.height - previous.height <= i32::MAX,
    ensures
        delta == (
            (current.x - previous.x) as i32,
            (current.y - previous.y) as i32,
            (current.width - previous.width) as i32,
            (current.height - previous.height) as i32,
        ),
{
    (
        current.x - previous.x,
        current.y - previous.y,
        current.width - previous.width,
        current.height - previous.height,
    )
}

/// How far the lower of two stacked rectangles is from lining up with the upper one: at its left
/// edge, at the edge between them, and at its right edge.
pub fn sibling_gap(upper: PhysicalRect, lower: PhysicalRect) -> (gap: (i32, i32, i32))
    requires
        upper.edges_fit(),
        lower.edges_fit(),
        i32::MIN <= lower.x - upper.x <= i32::MAX,
        i32::MIN <= lower.y - upper.bottom() <= i32::MAX,
        i32::MIN <= lower.right() - upper.right() <= i32::MAX,
    ensures
        gap == (
            (lower.x - upper.x) as i32,
            (lower.y - upper.bottom()) as i32,
            (lower.right() - upper.right()) as i32,
        ),
        gap == (0i32, 0i32, 0i32) <==> lower.x == upper.x && lower.y == upper.bottom()
            && lower.width == upper.width,
{
    (
        lower.x - upper.x,
        lower.y - (upper.y + upper.height),
        (lower.x + lower.width) - (upper.x + upper.width),
    )
}

/// A drawn part of a decoration, by its key.
#[derive(Clone, Debug)]
pub struct DrawnPart {
    pub order: usize,
    pub key: String,
    pub source_kind: String,
    pub geometry: PhysicalRect,
}

/// The part is one of the fills of a titlebar.
pub open spec fn is_titlebar_fill(part: DrawnPart) -> bool {
    part.source_kind@ == "fill"@ && crate::strings::has_suffix(part.key@, ":fill"@)
        && part.geometry.width > 200
}

/// Whether the part is one of the fills of a titlebar.
pub fn titlebar_fill(part: &DrawnPart) -> (fill: bool)
    ensures
        fill == is_titlebar_fill(*part),
{
    same_text(part.source_kind.as_str(), "fill") && ends_with(part.key.as_str(), ":fill")
        && part.geometry.width > 200
}

/// The key is `base`, a slash, and more, where `base` with `:fill` is the key of the fill.
pub open spec fn stands_on_fill(key: Seq<char>, fill: DrawnPart) -> bool {
    let base_len = fill.key@.len() - ":fill"@.len();
    crate::strings::has_suffix(fill.key@, ":fill"@) && crate::strings::has_prefix(
        key,
        fill.key@.take(base_len),
    ) && base_len < key.len() && key[base_len] == '/'
}

fn is_on_fill(key: &str, fill: &DrawnPart) -> (found: bool)
    ensures
        found == stands_on_fill(key@, *fill),
{
    if !ends_with(fill.key.as_str(), ":fill") {
        return false;
    }
    let key_chars = to_chars(key);
    let fill_chars = to_chars(fill.key.as_str());
    let suffix = to_chars(":fill");
    let base_len: usize = fill_chars.len() - suffix.len();
    if base_len >= key_chars.len() || key_chars[base_len] != '/' {
        return false;
    }
    let mut base = fill_chars;
    base.truncate(base_len);
    assert(base@ =~= fill.key@.take(base_len as int));
    assert(key@.subrange(0, base_len as int) =~= key@.take(base_len as int));
    chars_at(&key_chars, &base, 0)
}

/// The fill that a part stands on: of all that fit, the last one with the longest key.
pub open spec fn is_matching_fill(key: Seq<char>, fills: Seq<DrawnPart>, index: int) -> bool {
    &&& 0 <= index < fills.len()
    &&& stands_on_fill(key, fills[index])
    &&& forall|i: int|
        0 <= i < fills.len() && stands_on_fill(key, #[trigger] fills[i]) ==> fills[i].key@.len()
            <= fills[index].key@.len()
    &&& forall|i: int|
        index < i < fills.len() && stands_on_fill(key, #[trigger] fills[i])
            ==> fills[i].key@.len() < fills[index].key@.len()
}

/// Finds the fill that a part of a titlebar stands on.
pub fn matching_fill(key: &str, fills: &Vec<DrawnPart>) -> (found: Option<usize>)
    ensures
        match found {
            Some(index) => is_matching_fill(key@, fills@, index as int),
            None => forall|i: int|
                0 <= i < fills@.len() ==> !stands_on_fill(key@, #[trigger] fills@[i]),
        },
{
    let mut found: Option<usize> = None;
    let mut length: usize = 0;
    let mut i: usize = 0;
    while i < fills.len()
        invariant
            i <= fills@.len(),
            match found {
                Some(index) => index < i && length == fills@[index as int].key@.len()
                    && is_matching_fill(key@, fills@.take(i as int), index as int),
                None => forall|k: int|
                    0 <= k < i ==> !stands_on_fill(key@, #[trigger] fills@[k]),
            },
        decreases fills@.len() - i,
    {
        let ghost seen = fills@.take(i as int);
        let ghost now = fills@.take(i + 1);
        assert forall|k: int| 0 <= k < seen.len() implies seen[k] == #[trigger] now[k] by {}
        assert forall|k: int| 0 <= k < now.len() implies fills@[k] == #[trigger] now[k] by {}
        if is_on_fill(key, &fills[i]) {
            let candidate: usize = to_chars(fills[i].key.as_str()).len();
            let better: bool = match found {
                Some(_) => candidate >= length,
                None => true,
            };
            if better {
                found = Some(i);
                length = candidate;
            }
        }
        i += 1;
    }
    assert(fills@.take(i as int) == fills@);
    found
}

/// A strip holds exactly the pixels of the rectangle that lie no farther from its edge than it is wide, and a line the pixels
/// that lie as far inside as it says.
pub proof fn law_probes_lie_along_their_edges(rect: PhysicalRect, pixels: i32, px: int, py: int)
    requires
        rect.edges_fit(),
        !rect.is_void(),
        1 <= pixels <= 8,
    ensures
        probe_of(rect, ProbeEdge::Left, pixels).rect.contains(px, py) <==> rect.contains(px, py) && px
            < rect.x + pixels,
        probe_of(rect, ProbeEdge::Top, pixels).rect.contains(px, py) <==> rect.contains(px, py) && py
            < rect.y + pixels,
        probe_of(rect, ProbeEdge::Right, pixels).rect.contains(px, py) <==> rect.contains(px, py)
            && rect.right() - pixels <= px,
        probe_of(rect, ProbeEdge::Bottom, pixels).rect.contains(px, py) <==> rect.contains(px, py)
            && rect.bottom() - pixels <= py,
        rect.width > pixels ==> (probe_of(rect, ProbeEdge::RightInset, pixels).rect.contains(px, py)
            <==> rect.contains(px, py) && px == rect.right() - 1 - pixels),
        rect.height > pixels ==> (probe_of(rect, ProbeEdge::BottomInset, pixels).rect.contains(px, py)
            <==> rect.contains(px, py) && py == rect.bottom() - 1 - pixels),
{
}

/// All four edges are probed in strips of one, two and four pixels, and lines one, two, four and eight pixels inside the
/// right and the bottom edge where the rectangle is larger than that.
pub proof fn law_all_edges_are_probed(rect: PhysicalRect, edge: ProbeEdge, pixels: i32)
    requires
        edge == ProbeEdge::Left || edge == ProbeEdge::Top || edge == ProbeEdge::Right || edge
            == ProbeEdge::Bottom,
    ensures
        pixels == 1 || pixels == 2 || pixels == 4 ==> all_probes(rect).contains(
            probe_of(rect, edge, pixels),
        ),
        (pixels == 1 || pixels == 2 || pixels == 4 || pixels == 8) && rect.width > pixels
            ==> all_probes(rect).contains(probe_of(rect, ProbeEdge::RightInset, pixels)),
        (pixels == 1 || pixels == 2 || pixels == 4 || pixels == 8) && rect.height > pixels
            ==> all_probes(rect).contains(probe_of(rect, ProbeEdge::BottomInset, pixels)),
{
    let all = all_probes(rect);
    let first: int = match edge {
        ProbeEdge::Left => 0,
        ProbeEdge::Top => 1,
        ProbeEdge::Right => 2,
        _ => 3,
    };
    assert(pixels == 1 ==> all[first] == probe_of(rect, edge, 1));
    assert(pixels == 2 ==> all[4 + first] == probe_of(rect, edge, 2));
    assert(pixels == 4 ==> all[8 + first] == probe_of(rect, edge, 4));
    let (a, b, c, d) = (
        inset_lines(rect, 1),
        inset_lines(rect, 2),
        inset_lines(rect, 4),
        inset_lines(rect, 8),
    );
    let strips = edge_strips(rect, 1) + edge_strips(rect, 2) + edge_strips(rect, 4);
    assert(strips.len() == 12);
    assert(all =~= strips + a + b + c + d);
    let start: int = if pixels == 1 {
        12
    } else if pixels == 2 {
        12 + a.len() as int
    } else if pixels == 4 {
        12 + a.len() as int + b.len() as int
    } else {
        12 + a.len() as int + b.len() as int + c.len() as int
    };
    let lines = inset_lines(rect, pixels);
    if pixels == 1 || pixels == 2 || pixels == 4 || pixels == 8 {
        assert forall|i: int| 0 <= i < lines.len() implies all[start + i] == #[trigger] lines[i] by {
        }
        if rect.width > pixels {
            assert(lines[0] == probe_of(rect, ProbeEdge::RightInset, pixels));
            assert(all[start] == lines[0]);
        }
        if rect.height > pixels {
            let at = lines.len() - 1;
            assert(lines[at] == probe_of(rect, ProbeEdge::BottomInset, pixels));
            assert(all[start + at] == lines[at]);
        }
    }
}

/// No pixel is less opaque than the least or more opaque than the greatest that is found, both are found at a pixel, and some
/// pixel is counted as transparent exactly if one is.
pub proof fn law_statistics_tell_of_the_pixels(bytes: Seq<u8>, count: nat, i: int)
    requires
        0 <= i < count,
    ensures
        least_alpha(bytes, count) <= alpha_at(bytes, i) <= greatest_alpha(bytes, count),
        exists|k: int| 0 <= k < count && #[trigger] alpha_at(bytes, k) == least_alpha(bytes, count),
        exists|k: int| 0 <= k < count && #[trigger] alpha_at(bytes, k) == greatest_alpha(bytes, count),
        alpha_at(bytes, i) == 0 ==> transparent_count(bytes, count) > 0,
        (forall|k: int| 0 <= k < count ==> #[trigger] alpha_at(bytes, k) != 0) ==> transparent_count(
            bytes,
            count,
        ) == 0,
        (forall|k: int| 0 <= k < count ==> #[trigger] alpha_at(bytes, k) == 0) ==> transparent_count(
            bytes,
            count,
        ) == count,
        alpha_at(bytes, i) == bytes[4 * i + 3],
    decreases count,
{
    let last = count - 1;
    let before = last as nat;
    if before > 0 {
        law_statistics_tell_of_the_pixels(bytes, before, if i < last {
            i
        } else {
            0
        });
        let k = choose|k: int| 0 <= k < before && #[trigger] alpha_at(bytes, k) == least_alpha(
            bytes,
            before,
        );
        let g = choose|k: int| 0 <= k < before && #[trigger] alpha_at(bytes, k) == greatest_alpha(
            bytes,
            before,
        );
        assert(alpha_at(bytes, k) == least_alpha(bytes, count) || alpha_at(bytes, last)
            == least_alpha(bytes, count));
        assert(alpha_at(bytes, g) == greatest_alpha(bytes, count) || alpha_at(bytes, last)
            == greatest_alpha(bytes, count));
    } else {
        assert(least_alpha(bytes, 0) == 255 && greatest_alpha(bytes, 0) == 0);
        assert(transparent_count(bytes, 0) == 0);
        assert(alpha_at(bytes, last) == least_alpha(bytes, count));
        assert(alpha_at(bytes, last) == greatest_alpha(bytes, count));
    }
}

/// The rectangle around two holds the pixels of both, and reaches no farther than they do.
pub proof fn law_joined_rectangle_holds_both(a: PhysicalRect, b: PhysicalRect, px: int, py: int)
    requires
        joinable(a, b),
        a.width >= 0,
        a.height >= 0,
        b.width >= 0,
        b.height >= 0,
    ensures
        a.contains(px, py) || b.contains(px, py) ==> joined(a, b).contains(px, py),
        joined(a, b).x == a.x || joined(a, b).x == b.x,
        joined(a, b).y == a.y || joined(a, b).y == b.y,
        joined(a, b).right() == a.right() || joined(a, b).right() == b.right(),
        joined(a, b).bottom() == a.bottom() || joined(a, b).bottom() == b.bottom(),
{
}

/// A part stands on the fill with the longest key of all that it stands on.
pub proof fn law_part_stands_on_the_nearest_fill(key: Seq<char>, fills: Seq<DrawnPart>, index: int, i: int)
    requires
        is_matching_fill(key, fills, index),
        0 <= i < fills.len(),
        stands_on_fill(key, fills[i]),
    ensures
        stands_on_fill(key, fills[index]),
        fills[i].key@.len() <= fills[index].key@.len(),
        fills[i].key@.len() == fills[index].key@.len() ==> i <= index,
{
}

/// The rectangle around a scene holds the pixels of every element of it.
pub proof fn law_union_holds_every_element(rects: Seq<PhysicalRect>, i: int, px: int, py: int)
    requires
        all_joinable(rects),
        0 <= i < rects.len(),
        forall|k: int|
            0 <= k < rects.len() ==> (#[trigger] rects[k]).width >= 0 && rects[k].height >= 0,
        rects[i].contains(px, py),
    ensures
        joined_all(rects).contains(px, py),
        joined_all(rects).width >= 0 && joined_all(rects).height >= 0,
    decreases rects.len(),
{
    if rects.len() > 1 {
        let head = rects.drop_last();
        assert forall|k: int| 0 <= k < head.len() implies (#[trigger] head[k]).width >= 0
            && head[k].height >= 0 by {
            assert(rects[k].width >= 0);
        }
        lemma_joined_size(head);
        assert(rects[rects.len() - 1].width >= 0);
        if i < head.len() {
            assert(head[i].contains(px, py));
            law_union_holds_every_element(head, i, px, py);
        }
        law_joined_rectangle_holds_both(joined_all(head), rects.last(), px, py);
    }
}

proof fn lemma_joined_size(rects: Seq<PhysicalRect>)
    requires
        rects.len() > 0,
        forall|k: int|
            0 <= k < rects.len() ==> (#[trigger] rects[k]).width >= 0 && rects[k].height >= 0,
        all_joinable(rects),
    ensures
        joined_all(rects).width >= 0,
        joined_all(rects).height >= 0,
{
    if rects.len() == 1 {
        assert(rects[0].width >= 0);
    }
}

/// Fills of a titlebar are the wide fills whose key says so.
pub proof fn law_titlebar_fills_are_wide(part: DrawnPart)
    ensures
        is_titlebar_fill(part) <==> part.source_kind@ == "fill"@ && part.geometry.width > 200
            && crate::strings::has_suffix(part.key@, ":fill"@),
{
}

} // verus!
