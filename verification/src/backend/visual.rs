//! Rectangles of windows after they were snapped to whole pixels.

use crate::geometry::{max_i32, saturating_sum, LogicalRect, PhysicalRect};
use vstd::prelude::*;

verus! {

/// How the far edges of a rectangle are snapped to the pixel grid.
#[derive(Clone, Copy, Debug, PartialEq, Eq, Structural)]
pub enum RectSnapMode {
    /// Every edge is snapped by itself, so that neighbours share their edges.
    SharedEdges,
    /// The corner and the size are snapped, so that the size does not depend on the place.
    OriginAndSize,
}

/// The edges of a rectangle in whole pixels from the corner of the output.
#[derive(Clone, Copy, Debug, PartialEq, Eq, Structural)]
pub struct SnappedEdges {
    pub left: i32,
    pub top: i32,
    pub right: i32,
    pub bottom: i32,
}

/// The distance from `b` to `a` can be written.
pub open spec fn differs_by_i32(a: i32, b: i32) -> bool {
    i32::MIN <= a - b <= i32::MAX
}

impl SnappedEdges {
    /// The size, and the distance from a root corner, can be written.
    pub open spec fn measures(self, root_left: i32, root_top: i32) -> bool {
        &&& differs_by_i32(self.left, root_left)
        &&& differs_by_i32(self.top, root_top)
        &&& differs_by_i32(self.right, self.left)
        &&& differs_by_i32(self.bottom, self.top)
    }

    /// The rectangle between the edges as seen from a root corner.
    pub open spec fn seen_from(self, root_left: i32, root_top: i32) -> PhysicalRect {
        PhysicalRect {
            x: (self.left - root_left) as i32,
            y: (self.top - root_top) as i32,
            width: crate::geometry::larger(self.right - self.left, 0) as i32,
            height: crate::geometry::larger(self.bottom - self.top, 0) as i32,
        }
    }
}

/// The rectangle between snapped edges, as seen from the snapped corner of the window's root.
pub fn relative_physical_rect_from_root_precise(
    edges: SnappedEdges,
    root_left: i32,
    root_top: i32,
) -> (rect: PhysicalRect)
    requires
        edges.measures(root_left, root_top),
    ensures
        rect == edges.seen_from(root_left, root_top),
{
    PhysicalRect::new(
        edges.left - root_left,
        edges.top - root_top,
        max_i32(edges.right - edges.left, 0),
        max_i32(edges.bottom - edges.top, 0),
    )
}

/// A rectangle and its root that are snapped and then moved together by whole pixels keep their
/// place to each other.
pub proof fn law_snapped_rect_moves_with_root(
    edges: SnappedEdges,
    root_left: i32,
    root_top: i32,
    moved: SnappedEdges,
    moved_left: i32,
    moved_top: i32,
    dx: int,
    dy: int,
)
    requires
        moved.left == edges.left + dx,
        moved.right == edges.right + dx,
        moved.top == edges.top + dy,
        moved.bottom == edges.bottom + dy,
        moved_left == root_left + dx,
        moved_top == root_top + dy,
    ensures
        moved.seen_from(moved_left, moved_top) == edges.seen_from(root_left, root_top),
{
}

/// Two rectangles that share an edge before they are seen from the root share it afterwards, beside
/// each other as well as on top of each other, and no size is negative.
pub proof fn law_neighbours_stay_neighbours(
    a: SnappedEdges,
    b: SnappedEdges,
    root_left: i32,
    root_top: i32,
)
    requires
        a.measures(root_left, root_top),
        b.measures(root_left, root_top),
    ensures
        a.left <= a.right && a.right == b.left ==> a.seen_from(root_left, root_top).right()
            == b.seen_from(root_left, root_top).x,
        a.top <= a.bottom && a.bottom == b.top ==> a.seen_from(root_left, root_top).bottom()
            == b.seen_from(root_left, root_top).y,
        a.seen_from(root_left, root_top).width >= 0,
        a.seen_from(root_left, root_top).height >= 0,
{
}

/// The edges of a rectangle before they are snapped, in a unit so small that each of them is a whole
/// number of it.
pub struct ExactEdges {
    pub left: int,
    pub top: int,
    pub right: int,
    pub bottom: int,
}

impl ExactEdges {
    /// The edges after each was snapped by itself.
    pub open spec fn snapped(
        self,
        snap_x: spec_fn(int) -> i32,
        snap_y: spec_fn(int) -> i32,
    ) -> SnappedEdges {
        SnappedEdges {
            left: snap_x(self.left),
            top: snap_y(self.top),
            right: snap_x(self.right),
            bottom: snap_y(self.bottom),
        }
    }
}

/// What lies further on is not snapped to an earlier pixel.
pub open spec fn keeps_order(snap: spec_fn(int) -> i32) -> bool {
    forall|a: int, b: int| a <= b ==> #[trigger] snap(a) <= #[trigger] snap(b)
}

/// However edges are snapped, as long as each is snapped by itself and none is brought past another:
/// two rectangles that share an edge before it is snapped share it as seen from the root, without a
/// gap and without a common pixel.
pub proof fn law_shared_edges_are_snapped_alike(
    a: ExactEdges,
    b: ExactEdges,
    snap_x: spec_fn(int) -> i32,
    snap_y: spec_fn(int) -> i32,
    root_left: i32,
    root_top: i32,
)
    requires
        keeps_order(snap_x),
        keeps_order(snap_y),
        a.snapped(snap_x, snap_y).measures(root_left, root_top),
        b.snapped(snap_x, snap_y).measures(root_left, root_top),
    ensures
        a.left <= a.right && a.right == b.left ==> a.snapped(snap_x, snap_y).seen_from(
            root_left,
            root_top,
        ).right() == b.snapped(snap_x, snap_y).seen_from(root_left, root_top).x,
        a.top <= a.bottom && a.bottom == b.top ==> a.snapped(snap_x, snap_y).seen_from(
            root_left,
            root_top,
        ).bottom() == b.snapped(snap_x, snap_y).seen_from(root_left, root_top).y,
{
    law_neighbours_stay_neighbours(
        a.snapped(snap_x, snap_y),
        b.snapped(snap_x, snap_y),
        root_left,
        root_top,
    );
}

/// The rectangle between edges that were snapped from the root corner. It does not depend on where
/// the window lies on the output.
pub fn relative_physical_rect_from_root_snapped_edges(edges: SnappedEdges) -> (rect: PhysicalRect)
    requires
        edges.measures(0, 0),
    ensures
        rect == edges.seen_from(0, 0),
{
    relative_physical_rect_from_root_precise(edges, 0, 0)
}

/// The snapped numbers of a rectangle inside a window.
#[derive(Clone, Copy, Debug, PartialEq, Eq, Structural)]
pub struct SnappedInWindow {
    /// The window's root corner, from the corner of the output.
    pub root_left: i32,
    pub root_top: i32,
    /// The rectangle's corner, from the corner of the output.
    pub left_on_output: i32,
    pub top_on_output: i32,
    /// The rectangle's corner, from the root corner.
    pub left_in_root: i32,
    pub top_in_root: i32,
    pub width: i32,
    pub height: i32,
}

/// The left edge is snapped on the output: the rectangle begins where the one does that it shares
/// its edges with, or there is none.
pub open spec fn anchored_left(rect: LogicalRect, shared: Option<LogicalRect>) -> bool {
    match shared {
        Some(shared) => rect.x == shared.x,
        None => true,
    }
}

/// The top edge is snapped on the output.
pub open spec fn anchored_top(rect: LogicalRect, shared: Option<LogicalRect>) -> bool {
    match shared {
        Some(shared) => rect.y == shared.y,
        None => true,
    }
}

/// A rectangle inside a window, as seen from the window's root.
pub open spec fn placed_in_root(
    rect: LogicalRect,
    shared: Option<LogicalRect>,
    snapped: SnappedInWindow,
) -> PhysicalRect {
    PhysicalRect {
        x: if anchored_left(rect, shared) {
            (snapped.left_on_output - snapped.root_left) as i32
        } else {
            snapped.left_in_root
        },
        y: if anchored_top(rect, shared) {
            (snapped.top_on_output - snapped.root_top) as i32
        } else {
            snapped.top_in_root
        },
        width: crate::geometry::larger(snapped.width as int, 0) as i32,
        height: crate::geometry::larger(snapped.height as int, 0) as i32,
    }
}

/// An edge that is shared lies on the output exactly where it was snapped there, so that the neighbour on the other side
/// meets it; an edge of its own keeps its distance from the root wherever the window lies. Without a neighbour all edges
/// are snapped on the output.
pub proof fn law_shared_edges_meet_on_the_output(
    rect: LogicalRect,
    neighbour: LogicalRect,
    snapped: SnappedInWindow,
)
    requires
        differs_by_i32(snapped.left_on_output, snapped.root_left),
        differs_by_i32(snapped.top_on_output, snapped.root_top),
    ensures
        placed_in_root(rect, None, snapped).x + snapped.root_left == snapped.left_on_output,
        placed_in_root(rect, None, snapped).y + snapped.root_top == snapped.top_on_output,
        rect.x == neighbour.x ==> placed_in_root(rect, Some(neighbour), snapped).x + snapped.root_left
            == snapped.left_on_output,
        rect.y == neighbour.y ==> placed_in_root(rect, Some(neighbour), snapped).y + snapped.root_top
            == snapped.top_on_output,
        rect.x != neighbour.x ==> placed_in_root(rect, Some(neighbour), snapped).x
            == snapped.left_in_root,
        rect.y != neighbour.y ==> placed_in_root(rect, Some(neighbour), snapped).y
            == snapped.top_in_root,
        snapped.width >= 0 ==> placed_in_root(rect, Some(neighbour), snapped).width == snapped.width,
        snapped.height >= 0 ==> placed_in_root(rect, Some(neighbour), snapped).height
            == snapped.height,
        snapped.width < 0 ==> placed_in_root(rect, Some(neighbour), snapped).width == 0,
        snapped.height < 0 ==> placed_in_root(rect, Some(neighbour), snapped).height == 0,
{
}

/// A rectangle inside a window, as seen from the window's root. An edge that it shares is snapped
/// on the output, and so is every edge where nothing is shared; the others are snapped from the
/// root.
pub fn relative_physical_rect_from_root(
    rect: LogicalRect,
    shared: Option<LogicalRect>,
    snapped: SnappedInWindow,
) -> (out: PhysicalRect)
    requires
        differs_by_i32(snapped.left_on_output, snapped.root_left),
        differs_by_i32(snapped.top_on_output, snapped.root_top),
    ensures
        out == placed_in_root(rect, shared, snapped),
{
    let (left_shared, top_shared) = match shared {
        Some(shared) => (rect.x == shared.x, rect.y == shared.y),
        None => (true, true),
    };
    let left: i32 = if left_shared {
        snapped.left_on_output - snapped.root_left
    } else {
        snapped.left_in_root
    };
    let top: i32 = if top_shared {
        snapped.top_on_output - snapped.root_top
    } else {
        snapped.top_in_root
    };
    PhysicalRect::new(left, top, max_i32(snapped.width, 0), max_i32(snapped.height, 0))
}

/// The far corner of a rectangle that is about to be transformed.
pub fn far_corner(rect: LogicalRect) -> (corner: (i32, i32))
    ensures
        corner.0 == crate::geometry::saturated(rect.right()),
        corner.1 == crate::geometry::saturated(rect.bottom()),
{
    (saturating_sum(rect.x, rect.width), saturating_sum(rect.y, rect.height))
}

/// The bounds of a transformed rectangle: its corner rounded down, its size rounded up.
#[derive(Clone, Copy, Debug, PartialEq, Eq, Structural)]
pub struct TransformedBounds {
    pub x: i32,
    pub y: i32,
    pub width: i32,
    pub height: i32,
}

impl TransformedBounds {
    /// The rectangle with these bounds; a size is never negative.
    pub open spec fn as_rect(self) -> LogicalRect {
        LogicalRect {
            x: self.x,
            y: self.y,
            width: crate::geometry::larger(self.width as int, 0) as i32,
            height: crate::geometry::larger(self.height as int, 0) as i32,
        }
    }
}

/// The rectangle that a transformed part of a window covers.
pub fn transformed_rect(bounds: TransformedBounds) -> (rect: LogicalRect)
    ensures
        rect == bounds.as_rect(),
        rect.width >= 0 && rect.height >= 0,
{
    LogicalRect::new(bounds.x, bounds.y, max_i32(bounds.width, 0), max_i32(bounds.height, 0))
}

/// The rectangle that a transformed window covers. `bounds` are those of its root.
pub fn transformed_root_rect(bounds: TransformedBounds) -> (rect: LogicalRect)
    ensures
        rect == bounds.as_rect(),
{
    transformed_rect(bounds)
}

/// As seen from the root, a rectangle between edges covers exactly the pixels between the edges.
pub proof fn law_edges_hold_their_pixels(
    edges: SnappedEdges,
    root_left: i32,
    root_top: i32,
    px: int,
    py: int,
)
    requires
        edges.measures(root_left, root_top),
    ensures
        edges.seen_from(root_left, root_top).contains(px - root_left, py - root_top) <==> edges.left
            <= px < edges.right && edges.top <= py < edges.bottom,
{
}

/// The rectangle with transformed bounds covers exactly the pixels within them.
pub proof fn law_bounds_hold_their_pixels(bounds: TransformedBounds, px: int, py: int)
    ensures
        bounds.as_rect().contains(px, py) <==> bounds.x <= px < bounds.x + bounds.width && bounds.y
            <= py < bounds.y + bounds.height,
        bounds.as_rect().width >= 0,
        bounds.as_rect().height >= 0,
        bounds.as_rect().x == bounds.x,
        bounds.as_rect().y == bounds.y,
{
}

} // verus!
