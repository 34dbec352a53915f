use shoji_wm::backend::cursor::{shown_cursor, CursorImage, CursorStatus};
use shoji_wm::backend::decoration::{
    ordered_background_elements, rounded_rect_element, shader_effect_element,
    texture_element_position, ClipSource, ElementCommits, GapSwitches, InnerSource, RoundedBuffer,
    RoundedInnerMode, ScaleSource, ShaderBuffer,
};
use shoji_wm::backend::effect::OwnedDamageRect;
use shoji_wm::backend::gap_debug::{
    alpha_statistics, edge_probes, matching_fill, probe_label, reads_probe, rect_delta,
    scene_union, sibling_gap, titlebar_fill, DrawnPart,
};
use shoji_wm::backend::scene::{
    any_damage_of, can_reuse_complete_snapshot, client_source, compose_capture_scene,
    compose_closing_scene, compose_frame, compose_layer_scene, compose_nested_window_scene,
    compose_output_scene, compose_picture_scene, compose_planned_scene, compose_window_scene,
    frame_damage, into_elements, layer_surfaces_for_output, nested_window_step,
    should_refresh_snapshot, sort_by_order, upper_layers_front_to_back, ClientSource, FrameState,
    Layer, LayerElements, NestedWindowStep, WindowElements, WindowFacts, WindowPlan,
};
use shoji_wm::backend::snapshot::{
    capture_snapshot, duplicate_snapshot, plan_snapshot, shows_on_output, LiveWindowSnapshot,
    PictureStep, SnapshotPlan, WindowPictures,
};
use shoji_wm::geometry::{LogicalRect, PhysicalRect};
use shoji_wm::keymap::IdSet;

fn rect(x: i32, y: i32, width: i32, height: i32) -> LogicalRect {
    LogicalRect::new(x, y, width, height)
}

#[test]
fn sorting_keeps_equal_orders_in_sequence() {
    let sorted = sort_by_order(vec![(2, 'a'), (1, 'b'), (2, 'c'), (0, 'd'), (1, 'e')]);
    assert_eq!(sorted, vec![(0, 'd'), (1, 'b'), (1, 'e'), (2, 'a'), (2, 'c')]);
    assert_eq!(into_elements(sorted), vec!['d', 'b', 'e', 'a', 'c']);
}

#[test]
fn window_scene_is_front_to_back() {
    let scene = compose_window_scene(WindowElements {
        popups: vec!["popup"],
        client: vec!["client"],
        effects: vec![(1, "glass", false), (0, "backdrop", true)],
        backgrounds: vec![(0, "fill"), (3, "border")],
        icons: vec![(2, "icon")],
        labels: vec![(1, "label")],
    });
    assert_eq!(
        scene,
        vec!["popup", "client", "fill", "glass", "label", "icon", "border", "backdrop"]
    );
}

fn plan(use_full_window_snapshot: bool, decoration_ready: bool) -> WindowPlan {
    WindowPlan { use_full_window_snapshot, has_snapshot_damage: false, decoration_ready }
}

fn small_window() -> WindowElements<&'static str> {
    WindowElements {
        popups: vec!["popup"],
        client: vec!["client"],
        effects: vec![(0, "backdrop", true)],
        backgrounds: vec![(0, "fill")],
        icons: Vec::new(),
        labels: Vec::new(),
    }
}

#[test]
fn window_shows_parts_or_picture() {
    let picture = || vec!["picture"];
    assert_eq!(
        compose_planned_scene(plan(true, true), small_window(), picture()),
        vec!["popup", "picture"]
    );
    assert_eq!(
        compose_planned_scene(plan(false, true), small_window(), picture()),
        vec!["popup", "client", "fill", "backdrop"]
    );
    assert_eq!(
        compose_planned_scene(plan(false, false), small_window(), picture()),
        vec!["popup", "client"]
    );
    assert_eq!(
        compose_picture_scene(plan(true, true), small_window()),
        vec!["popup", "client", "fill", "backdrop"]
    );
    assert_eq!(client_source(plan(true, true), true, true), ClientSource::Picture);
    assert_eq!(client_source(plan(false, true), true, true), ClientSource::Unclipped);
    assert_eq!(client_source(plan(false, true), true, false), ClientSource::Clipped);
    assert_eq!(client_source(plan(false, true), false, true), ClientSource::Surfaces);
}

#[test]
fn cursor_of_a_frame() {
    let mut status = CursorStatus::Surface;
    assert_eq!(shown_cursor(&mut status, false, None, "default", false), None);
    assert_eq!(status, CursorStatus::Surface);
    assert_eq!(
        shown_cursor(&mut status, true, None, "default", true),
        Some((CursorStatus::Surface, CursorImage::Surface))
    );
    assert_eq!(
        shown_cursor(&mut status, true, Some("resize"), "default", true),
        Some((CursorStatus::Named("resize"), CursorImage::Themed("resize")))
    );
    assert_eq!(status, CursorStatus::Surface);
    assert_eq!(
        shown_cursor(&mut status, false, None, "default", true),
        Some((CursorStatus::Named("default"), CursorImage::Themed("default")))
    );
    assert_eq!(status, CursorStatus::Named("default"));
    let mut hidden = CursorStatus::Hidden;
    assert_eq!(
        shown_cursor(&mut hidden, true, None, "default", true),
        Some((CursorStatus::Hidden, CursorImage::Themed("default")))
    );
}

#[test]
fn capture_scene_needs_a_decoration() {
    assert_eq!(
        compose_capture_scene(Some((vec![(1, "b"), (0, "a")], vec!["surface"])), vec!["popup"]),
        vec!["a", "b", "surface", "popup"]
    );
    assert_eq!(compose_capture_scene(None, vec!["popup"]), vec!["popup"]);
}

#[test]
fn frames_are_front_to_back() {
    assert_eq!(compose_output_scene(vec![1], vec![2], vec![3], vec![4]), vec![1, 2, 3, 4]);
    assert_eq!(compose_frame(vec![1], vec![2], vec![3], vec![4]), vec![1, 2, 3, 4]);
    assert_eq!(compose_closing_scene(vec![1], vec![2], vec![3], vec![4]), vec![1, 2, 3, 4]);
    assert_eq!(
        compose_nested_window_scene(vec![1], vec![2], vec![3], vec![4], vec![5]),
        vec![1, 2, 3, 4, 5]
    );
}

fn state() -> FrameState {
    FrameState {
        closing: IdSet::new(),
        ready_for_decoration: IdSet::new(),
        snapshot_dirty: IdSet::new(),
        transform_snapshots: IdSet::new(),
        extra_damage: Vec::new(),
        transform_snapshot_count: 0,
        had_transform_snapshot_damage: false,
    }
}

fn window(id: &str, identity_visual: bool) -> WindowFacts {
    WindowFacts {
        id: id.to_string(),
        surface_count: 1,
        identity_visual,
        visual_rect: rect(1, 2, 3, 4),
        client_rect: rect(0, 0, 10, 10),
        live_snapshot_rect: Some(rect(0, 0, 10, 10)),
    }
}

#[test]
fn settled_window_adds_no_damage() {
    let mut state = state();
    let moving = window("a", false);
    assert!(state.enter_window(&moving, &Vec::new()).is_some());
    assert_eq!(state.extra_damage, vec![rect(1, 2, 3, 4)]);
    assert!(state.enter_window(&moving, &Vec::new()).is_some());
    assert_eq!(state.extra_damage.len(), 1);
    assert_eq!(state.transform_snapshot_count, 2);
    assert!(state.enter_window(&window("a", true), &Vec::new()).is_some());
    assert_eq!(state.extra_damage.len(), 2);
    assert!(state.enter_window(&window("a", true), &Vec::new()).is_some());
    assert_eq!(state.extra_damage.len(), 2);
    assert!(!state.had_transform_snapshot_damage);
}

#[test]
fn damaged_picture_damages_the_window() {
    let mut state = state();
    state.transform_snapshots.insert("a".to_string());
    let damage = vec![OwnedDamageRect { owner: "a".to_string(), rect: rect(0, 0, 1, 1) }];
    assert!(any_damage_of(&damage, "a"));
    assert!(!any_damage_of(&damage, "b"));
    let plan = state.enter_window(&window("a", false), &damage);
    assert!(matches!(plan, Some(plan) if plan.has_snapshot_damage && plan.use_full_window_snapshot));
    assert!(state.had_transform_snapshot_damage);
    assert_eq!(state.extra_damage.len(), 1);
}

#[test]
fn decoration_shows_after_the_first_frame() {
    let mut state = state();
    let facts = window("a", true);
    let plan = match state.enter_window(&facts, &Vec::new()) {
        Some(plan) => plan,
        None => panic!("the window has contents"),
    };
    assert!(!plan.decoration_ready);
    assert!(!state.leave_window(&facts, plan));
    assert!(matches!(
        state.enter_window(&facts, &Vec::new()),
        Some(plan) if plan.decoration_ready
    ));
}

#[test]
fn closing_and_empty_windows_are_left_out() {
    let mut state = state();
    state.closing.insert("a".to_string());
    assert!(state.enter_window(&window("a", true), &Vec::new()).is_none());
    let mut empty = window("b", true);
    empty.surface_count = 0;
    assert!(state.enter_window(&empty, &Vec::new()).is_none());
    assert_eq!(nested_window_step(true, 1), NestedWindowStep::Skip);
    assert_eq!(nested_window_step(false, 0), NestedWindowStep::TryClosing);
    assert_eq!(nested_window_step(false, 2), NestedWindowStep::Draw);
}

#[test]
fn snapshot_is_taken_anew_when_out_of_date() {
    let area = rect(0, 0, 10, 10);
    assert!(should_refresh_snapshot(true, Some(area), area));
    assert!(should_refresh_snapshot(false, None, area));
    assert!(should_refresh_snapshot(false, Some(rect(0, 0, 9, 10)), area));
    assert!(!should_refresh_snapshot(false, Some(area), area));
    let mut state = state();
    state.snapshot_dirty.insert("a".to_string());
    state.snapshot_taken("a");
    assert!(!state.snapshot_dirty.contains("a"));
    assert!(can_reuse_complete_snapshot(false, Some(3), 3));
    assert!(!can_reuse_complete_snapshot(true, Some(3), 3));
    assert!(!can_reuse_complete_snapshot(false, None, 3));
}

#[test]
fn frame_begins_with_pending_damage() {
    let output = rect(0, 0, 100, 100);
    let pending = vec![rect(1, 1, 1, 1)];
    assert_eq!(frame_damage(&pending, output, false, true, &Vec::new()), pending);
    assert_eq!(
        frame_damage(&pending, output, true, true, &vec![rect(2, 2, 2, 2)]),
        vec![rect(1, 1, 1, 1), output, output]
    );
}

#[test]
fn layers_lie_above_or_below() {
    let surfaces = vec![
        (1, Layer::Background),
        (2, Layer::Top),
        (3, Layer::Bottom),
        (4, Layer::Overlay),
        (5, Layer::Top),
    ];
    assert_eq!(layer_surfaces_for_output(&surfaces), (vec![5, 4, 2], vec![3, 1]));
    assert_eq!(upper_layers_front_to_back(&surfaces), vec![4, 5, 2]);
}

#[test]
fn snapshot_keeps_its_texture_as_long_as_it_fits() {
    let area = rect(0, 0, 10, 10);
    assert_eq!(plan_snapshot(rect(0, 0, 0, 10), 16, 16, None), SnapshotPlan::Nothing);
    assert_eq!(plan_snapshot(area, 0, 16, None), SnapshotPlan::Nothing);
    assert_eq!(plan_snapshot(area, 16, 16, Some((16, 16))), SnapshotPlan::Reuse);
    assert_eq!(
        plan_snapshot(area, 16, 17, Some((16, 16))),
        SnapshotPlan::Resize { width: 16, height: 17 }
    );
    assert_eq!(plan_snapshot(area, 16, 17, None), SnapshotPlan::Create { width: 16, height: 17 });
}

fn taken<T>(texture: T, has_client_content: bool) -> LiveWindowSnapshot<T> {
    let plan = plan_snapshot(rect(0, 0, 1, 1), 4, 4, None);
    match capture_snapshot(plan, None, Some(texture), 7, rect(0, 0, 1, 1), 2, has_client_content) {
        Some(snapshot) => snapshot,
        None => panic!("there is a texture"),
    }
}

#[test]
fn snapshot_keeps_its_identity() {
    let first = taken("old", true);
    assert_eq!((first.id, first.texture), (7, "old"));
    let plan = plan_snapshot(rect(5, 5, 1, 1), 8, 4, Some((4, 4)));
    let again = capture_snapshot(plan, Some(first), Some("new"), 8, rect(5, 5, 1, 1), 3, false);
    let again = match again {
        Some(again) => again,
        None => panic!("there is a texture"),
    };
    assert_eq!((again.id, again.texture, again.z_index), (7, "new", 3));
    let copy = duplicate_snapshot(&again, "copy", 9);
    assert_eq!((copy.id, copy.texture, copy.rect), (9, "copy", rect(5, 5, 1, 1)));
    assert!(!copy.has_client_content);
    let kept = capture_snapshot(SnapshotPlan::Reuse, Some(copy), None, 1, rect(0, 0, 2, 2), 0, true);
    assert!(matches!(
        kept,
        Some(kept) if kept.id == 9 && kept.texture == "copy" && kept.rect == rect(0, 0, 2, 2)
    ));
    let nothing = plan_snapshot(rect(0, 0, 0, 1), 4, 4, Some((4, 4)));
    assert!(capture_snapshot(nothing, Some(taken("x", true)), None, 1, rect(0, 0, 0, 1), 0, true)
        .is_none());
}

#[test]
fn picture_lasts_until_change() {
    let mut pictures = WindowPictures::new();
    assert!(matches!(
        pictures.complete_picture("w", false, 5),
        PictureStep::Capture { existing: None }
    ));
    pictures.picture_taken("w", Some(taken("first", true)), 5);
    assert!(matches!(pictures.complete_picture("w", false, 5), PictureStep::ShowAgain));
    assert!(matches!(
        pictures.complete_picture("w", true, 5),
        PictureStep::Capture { existing: Some(old) } if old.texture == "first"
    ));
    assert!(matches!(
        pictures.complete_picture("w", false, 5),
        PictureStep::Capture { existing: None }
    ));
    pictures.picture_taken("w", None, 6);
    assert!(!pictures.complete.contains_key("w"));
}

#[test]
fn live_snapshots_are_kept() {
    let mut pictures = WindowPictures::new();
    assert!(pictures.take_live("w").is_none());
    pictures.live_taken("w", Some(taken("live", false)), Some(taken("copy", true)));
    assert!(!pictures.complete.contains_key("w"));
    pictures.live_taken("w", Some(taken("live", true)), Some(taken("copy", true)));
    assert!(matches!(
        pictures.complete.get("w"),
        Some(picture) if picture.snapshot.texture == "copy" && picture.scene_signature.is_none()
    ));
    assert!(matches!(pictures.take_live("w"), Some(live) if live.texture == "live"));
    pictures.live_taken("w", None, None);
    assert!(!pictures.live.contains_key("w"));
}

#[test]
fn closing_window_is_shown_where_it_lies() {
    let output = rect(0, 0, 100, 100);
    assert!(shows_on_output(rect(90, 90, 20, 20), output));
    assert!(!shows_on_output(rect(100, 0, 20, 20), output));
    assert!(shows_on_output(rect(0, 0, i32::MAX, i32::MAX), rect(i32::MAX - 2, 5, 10, 10)));
}

fn switches() -> GapSwitches {
    GapSwitches {
        disable_decoration_clip: false,
        disable_border_inner: false,
        disable_titlebar_clip: false,
        show_border_inner: false,
        show_titlebar_clip: false,
        show_border_shell: false,
        show_border_shell_only: false,
    }
}

fn part(kind: &str) -> RoundedBuffer {
    RoundedBuffer {
        rect: rect(10, 10, 100, 30),
        source_kind: kind.to_string(),
        has_border: kind == "window-border",
        shared_inner_hole: false,
        hole_rect: Some(rect(12, 9, 96, 26)),
        clip_rect: Some(rect(10, 10, 100, 30)),
        rect_is_precise: false,
        hole_is_precise: false,
        clip_is_precise: false,
    }
}

#[test]
fn border_takes_its_inner_edge_from_its_hole() {
    let plan = rounded_rect_element(
        &part("window-border"),
        rect(10, 5, 200, 200),
        rect(0, 0, 1000, 1000),
        switches(),
    );
    let plan = match plan {
        Some(plan) => plan,
        None => panic!("the part lies on the output"),
    };
    assert_eq!(plan.local_rect, rect(0, 5, 100, 30));
    assert_eq!(plan.inner, InnerSource::Hole { x: 2, y: 0, width: 96, height: 26 });
    assert_eq!(plan.inner_mode, RoundedInnerMode::Explicit);
    assert_eq!(plan.clip, ClipSource::Snapped);
    assert_eq!(plan.render_scale, ScaleSource::Hole { logical_width: 96 });
    assert!(plan.shrinks_inner);
}

#[test]
fn fill_has_no_border() {
    let root = rect(0, 0, 200, 200);
    let output = rect(0, 0, 1000, 1000);
    let plan = rounded_rect_element(&part("fill"), root, output, switches());
    assert!(matches!(
        plan,
        Some(plan) if plan.inner == InnerSource::SnappedHole
            && plan.inner_mode == RoundedInnerMode::Filled
    ));
    let mut hidden = switches();
    hidden.disable_titlebar_clip = true;
    hidden.show_titlebar_clip = true;
    let plan = rounded_rect_element(&part("fill"), root, output, hidden);
    assert!(matches!(plan, Some(plan) if plan.clip == ClipSource::Absent && plan.debug_clip_only));
    let mut shell = switches();
    shell.show_border_shell_only = true;
    assert!(rounded_rect_element(&part("fill"), root, output, shell).is_none());
    assert!(rounded_rect_element(&part("fill"), root, rect(500, 500, 9, 9), switches()).is_none());
}

#[test]
fn shader_effect_is_clipped() {
    let buffer = ShaderBuffer {
        rect: rect(10, 10, 20, 20),
        clip_rect: None,
        clip_radius: 4,
        rect_is_precise: true,
        clip_is_precise: true,
        rounded_clip_radius: Some(6),
    };
    let root = rect(10, 10, 100, 100);
    let output = rect(0, 0, 1000, 1000);
    let plan = shader_effect_element(&buffer, root, output, switches());
    assert!(matches!(
        plan,
        Some(plan) if plan.clip == ClipSource::Precise && plan.clip_radius == 6
            && plan.local_rect == rect(0, 0, 20, 20)
    ));
    let mut hidden = switches();
    hidden.disable_decoration_clip = true;
    let plan = shader_effect_element(&buffer, root, output, hidden);
    assert!(matches!(
        plan,
        Some(plan) if plan.clip == ClipSource::Absent && plan.clip_radius == 0
    ));
}

#[test]
fn textures_stand_on_their_output() {
    assert_eq!(texture_element_position(rect(110, 20, 5, 5), rect(100, 0, 50, 50)), Some((10, 20)));
    assert_eq!(texture_element_position(rect(10, 20, 5, 5), rect(100, 0, 50, 50)), None);
    assert_eq!(
        ordered_background_elements(vec![(1, 'r'), (0, 's')], vec![(0, 't')]),
        vec![(0, 's'), (0, 't'), (1, 'r')]
    );
}

#[test]
fn changed_elements_count_on() {
    let mut commits = ElementCommits::default();
    assert_eq!(commits.draw(false), 1);
    assert_eq!(commits.draw(true), 1);
    assert_eq!(commits.draw(false), 2);
}

#[test]
fn probes_lie_inside() {
    let area = PhysicalRect::new(10, 20, 100, 50);
    let probes = edge_probes(area);
    assert_eq!(probes.len(), 20);
    for probe in &probes {
        assert!(probe.rect.x >= 10 && probe.rect.x + probe.rect.width <= 110);
        assert!(probe.rect.y >= 20 && probe.rect.y + probe.rect.height <= 70);
        assert!(!probe_label(probe).is_empty());
    }
    assert!(reads_probe(area, 1));
    assert!(!reads_probe(area, 0));
    assert!(!reads_probe(PhysicalRect::new(0, 0, 0, 5), 1));
}

#[test]
fn alpha_is_counted() {
    let statistics = alpha_statistics(&vec![0, 0, 0, 0, 1, 1, 1, 255, 2, 2, 2, 128]);
    assert_eq!(statistics.transparent, 1);
    assert_eq!(statistics.opaque, 2);
    assert_eq!(statistics.min_alpha, 0);
    assert_eq!(statistics.max_alpha, 255);
}

#[test]
fn gaps_are_measured() {
    assert_eq!(scene_union(&Vec::new()), None);
    assert_eq!(
        scene_union(&vec![PhysicalRect::new(0, 0, 5, 5), PhysicalRect::new(10, -3, 2, 2)]),
        Some(PhysicalRect::new(0, -3, 12, 8))
    );
    assert_eq!(
        rect_delta(PhysicalRect::new(5, 5, 5, 5), PhysicalRect::new(1, 2, 3, 4)),
        (4, 3, 2, 1)
    );
    assert_eq!(
        sibling_gap(PhysicalRect::new(0, 0, 100, 30), PhysicalRect::new(1, 31, 100, 70)),
        (1, 1, 1)
    );
}

fn drawn(key: &str, kind: &str, width: i32) -> DrawnPart {
    DrawnPart {
        order: 0,
        key: key.to_string(),
        source_kind: kind.to_string(),
        geometry: PhysicalRect::new(0, 0, width, 30),
    }
}

#[test]
fn parts_stand_on_their_titlebar() {
    assert!(titlebar_fill(&drawn("root/bar:fill", "fill", 300)));
    assert!(!titlebar_fill(&drawn("root/bar:fill", "fill", 200)));
    assert!(!titlebar_fill(&drawn("root/bar", "fill", 300)));
    let fills = vec![
        drawn("root:fill", "fill", 300),
        drawn("root/bar:fill", "fill", 300),
        drawn("other:fill", "fill", 300),
    ];
    assert_eq!(matching_fill("root/bar/button", &fills), Some(1));
    assert_eq!(matching_fill("root/side", &fills), Some(0));
    assert_eq!(matching_fill("nowhere/x", &fills), None);
}

#[test]
fn effect_of_a_layer_lies_right_behind_it() {
    let layers = vec![
        LayerElements { surfaces: vec!["panel", "menu"], effect: vec!["blur"] },
        LayerElements { surfaces: vec!["wallpaper"], effect: Vec::new() },
    ];
    assert_eq!(compose_layer_scene(layers), vec!["panel", "menu", "blur", "wallpaper"]);
    assert!(compose_layer_scene::<u8>(Vec::new()).is_empty());
}
