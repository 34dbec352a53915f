use shoji_wm::backend::damage::{blink_border, elements_for_output};
use shoji_wm::backend::visual::{
    far_corner, relative_physical_rect_from_root, relative_physical_rect_from_root_precise,
    relative_physical_rect_from_root_snapped_edges, transformed_rect, transformed_root_rect,
    SnappedEdges, SnappedInWindow, TransformedBounds,
};
use shoji_wm::backend::window::{
    bounding_box_for_rects, intersect_logical_rects, logical_rects_intersect, popup_offset,
    region_rects_within_bounds, subtract_logical_rect, RectangleKind, RegionOp,
};
use shoji_wm::geometry::{saturating_sum, LogicalRect, PhysicalRect};

fn rect(x: i32, y: i32, width: i32, height: i32) -> LogicalRect {
    LogicalRect::new(x, y, width, height)
}

fn pixels(rects: &[LogicalRect]) -> Vec<(i32, i32)> {
    let mut all = Vec::new();
    for rect in rects {
        for y in rect.y..rect.y + rect.height {
            for x in rect.x..rect.x + rect.width {
                all.push((x, y));
            }
        }
    }
    all.sort();
    all
}

#[test]
fn intersection_is_the_common_part() {
    let a = rect(0, 0, 10, 10);
    let b = rect(5, 7, 10, 10);
    assert_eq!(intersect_logical_rects(a, b), Some(rect(5, 7, 5, 3)));
    assert_eq!(intersect_logical_rects(b, a), intersect_logical_rects(a, b));
    assert!(logical_rects_intersect(a, b));
}

#[test]
fn touching_rects_have_no_common_part() {
    let a = rect(0, 0, 10, 10);
    assert_eq!(intersect_logical_rects(a, rect(10, 0, 5, 5)), None);
    assert!(!logical_rects_intersect(a, rect(0, 10, 5, 5)));
    assert!(!logical_rects_intersect(a, rect(2, 2, 0, 5)));
}

#[test]
fn subtraction_cuts_a_frame() {
    let base = rect(0, 0, 6, 5);
    let cut = rect(2, 1, 2, 2);
    let parts = subtract_logical_rect(base, cut);
    let expected: Vec<(i32, i32)> = pixels(&[base])
        .into_iter()
        .filter(|pixel| !pixels(&[cut]).contains(pixel))
        .collect();
    assert_eq!(pixels(&parts), expected);
}

#[test]
fn subtraction_of_a_far_rect_keeps_the_base() {
    assert_eq!(subtract_logical_rect(rect(0, 0, 4, 4), rect(9, 9, 2, 2)), vec![rect(0, 0, 4, 4)]);
    assert!(subtract_logical_rect(rect(0, 0, 4, 4), rect(-1, -1, 9, 9)).is_empty());
}

fn op(kind: RectangleKind, rect: LogicalRect) -> RegionOp {
    RegionOp { kind, rect }
}

#[test]
fn region_is_clipped_and_cut() {
    let region = vec![
        op(RectangleKind::Add, rect(-5, -5, 10, 10)),
        op(RectangleKind::Subtract, rect(1, 1, 2, 2)),
        op(RectangleKind::Add, rect(8, 8, 10, 10)),
    ];
    let bounds = rect(0, 0, 10, 10);
    let rects = region_rects_within_bounds(&region, bounds);
    let mut expected = Vec::new();
    for (x, y) in pixels(&[bounds]) {
        let first = x < 5 && y < 5;
        let hole = (1..3).contains(&x) && (1..3).contains(&y);
        let last = x >= 8 && y >= 8;
        if (first && !hole) || last {
            expected.push((x, y));
        }
    }
    assert_eq!(pixels(&rects), expected);
}

#[test]
fn bounding_box_covers_all() {
    assert_eq!(bounding_box_for_rects(&[]), None);
    assert_eq!(
        bounding_box_for_rects(&[rect(3, 4, 2, 2), rect(-1, 10, 1, 1)]),
        Some(rect(-1, 4, 6, 7))
    );
}

#[test]
fn saturating_sum_stops_at_the_ends() {
    assert_eq!(saturating_sum(i32::MAX, 1), i32::MAX);
    assert_eq!(saturating_sum(i32::MIN, -1), i32::MIN);
    assert_eq!(saturating_sum(3, -5), -2);
    assert_eq!(far_corner(rect(i32::MAX - 1, 0, 5, 7)), (i32::MAX, 7));
}

#[test]
fn rects_move_and_are_seen_from_others() {
    assert_eq!(rect(1, 2, 3, 4).translate(10, -2), rect(11, 0, 3, 4));
    assert_eq!(rect(11, 12, 3, 4).localize(rect(10, 10, 9, 9)), rect(1, 2, 3, 4));
}

#[test]
fn damage_is_seen_from_the_output() {
    let rects = vec![rect(90, 0, 20, 10), rect(0, 0, 5, 5), rect(150, 50, 10, 10)];
    assert_eq!(
        elements_for_output(&rects, rect(100, 0, 100, 100)),
        vec![rect(0, 0, 10, 10), rect(50, 50, 10, 10)]
    );
}

#[test]
fn blink_border_is_the_outer_ring() {
    let border = blink_border(PhysicalRect::new(0, 0, 5, 4));
    let mut ring = Vec::new();
    for part in &border {
        ring.extend(pixels(&[rect(part.x, part.y, part.width, part.height)]));
    }
    ring.sort();
    ring.dedup();
    let expected: Vec<(i32, i32)> = pixels(&[rect(0, 0, 5, 4)])
        .into_iter()
        .filter(|(x, y)| *x == 0 || *x == 4 || *y == 0 || *y == 3)
        .collect();
    assert_eq!(ring, expected);
}

#[test]
fn popup_stands_in_its_window() {
    assert_eq!(popup_offset((10, 20), (5, 6), (2, 3)), (13, 23));
}

/// The edges of a rectangle, snapped from the corner of the root.
fn edges_from_root(rect: LogicalRect, root: LogicalRect, scale: f64) -> SnappedEdges {
    let snap = |n: i32| (n as f32 * scale as f32).round() as i32;
    SnappedEdges {
        left: snap(rect.x - root.x),
        top: snap(rect.y - root.y),
        right: snap(rect.x + rect.width - root.x),
        bottom: snap(rect.y + rect.height - root.y),
    }
}

/// The numbers of a rectangle in a window, snapped to whole pixels.
fn snapped_in_window(
    rect: LogicalRect,
    root: LogicalRect,
    output: LogicalRect,
    scale: f64,
) -> SnappedInWindow {
    let snap = |n: i32| (n as f64 * scale).round() as i32;
    SnappedInWindow {
        root_left: snap(root.x - output.x),
        root_top: snap(root.y - output.y),
        left_on_output: snap(rect.x - output.x),
        top_on_output: snap(rect.y - output.y),
        left_in_root: snap(rect.x - root.x),
        top_in_root: snap(rect.y - root.y),
        width: snap(rect.width),
        height: snap(rect.height),
    }
}

#[test]
fn snapped_edge_relative_rect_is_translation_stable_against_output() {
    let output_geo = rect(0, 0, 4000, 2000);
    let scale = 1.6;

    let root_a = rect(100, 40, 200, 80);
    let child_a = rect(111, 40, 10, 10);
    let root_b = rect(101, 40, 200, 80);
    let child_b = rect(112, 40, 10, 10);

    let snapped_a =
        relative_physical_rect_from_root_snapped_edges(edges_from_root(child_a, root_a, scale));
    let snapped_b =
        relative_physical_rect_from_root_snapped_edges(edges_from_root(child_b, root_b, scale));
    let local_a = relative_physical_rect_from_root(
        child_a,
        None,
        snapped_in_window(child_a, root_a, output_geo, scale),
    );
    let local_b = relative_physical_rect_from_root(
        child_b,
        None,
        snapped_in_window(child_b, root_b, output_geo, scale),
    );

    assert_eq!(snapped_a, snapped_b);
    assert_ne!(local_a, local_b);
}

#[test]
fn shared_edges_are_snapped_on_the_output() {
    let snapped = SnappedInWindow {
        root_left: 160,
        root_top: 64,
        left_on_output: 178,
        top_on_output: 64,
        left_in_root: 17,
        top_in_root: 1,
        width: 16,
        height: -3,
    };
    let part = rect(111, 40, 10, 10);
    let shared = relative_physical_rect_from_root(part, Some(rect(111, 41, 1, 1)), snapped);
    assert_eq!(shared, PhysicalRect::new(18, 1, 16, 0));
    let apart = relative_physical_rect_from_root(part, Some(rect(0, 0, 1, 1)), snapped);
    assert_eq!(apart, PhysicalRect::new(17, 1, 16, 0));
}

#[test]
fn precise_rect_is_seen_from_the_root() {
    let edges = SnappedEdges { left: 20, top: 30, right: 50, bottom: 25 };
    assert_eq!(
        relative_physical_rect_from_root_precise(edges, 5, 10),
        PhysicalRect::new(15, 20, 30, 0)
    );
    let moved = SnappedEdges { left: 27, top: 33, right: 57, bottom: 28 };
    assert_eq!(
        relative_physical_rect_from_root_precise(moved, 12, 13),
        relative_physical_rect_from_root_precise(edges, 5, 10)
    );
}

#[test]
fn neighbours_share_their_edges() {
    let seen = |left, top, right, bottom| {
        let edges = SnappedEdges { left, top, right, bottom };
        relative_physical_rect_from_root_precise(edges, 5, 10)
    };
    let middle = seen(20, 30, 50, 70);
    let beside = seen(50, 30, 51, 70);
    let below = seen(20, 70, 50, 99);
    assert_eq!(middle.x + middle.width, beside.x);
    assert_eq!(middle.y + middle.height, below.y);
}

#[test]
fn transformed_rect_has_no_negative_size() {
    let bounds = TransformedBounds { x: -3, y: 4, width: 10, height: -1 };
    assert_eq!(transformed_rect(bounds), rect(-3, 4, 10, 0));
    assert_eq!(transformed_root_rect(bounds), rect(-3, 4, 10, 0));
}
