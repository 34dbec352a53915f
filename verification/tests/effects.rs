use shoji_wm::backend::effect::{
    backdrop_cache_key, blur_padding, capture_geometry, capture_on_output, effect_rect_key,
    layer_stable_key, plan_capture, plan_layer_effect, plan_protocol_effect, plan_window_backdrop,
    protocol_cache_key, protocol_stable_key, BlurStage, EffectInputs, EffectScene,
    LayerContributor, LayerPosition, OwnedDamageRect, WindowContributor,
};
use shoji_wm::backend::effect_cache::{
    collect_source_damage, effect_input_texture, is_listed, layer_owners_below, lower_windows,
    protocol_background_effect_rects_for_layer, protocol_background_effect_rects_for_window,
    relevant_source_damage, source_damage_intersects_rect, window_backdrop_damage, BackdropCache, EffectTexture,
};
use shoji_wm::backend::effect_pass::{
    begin_lower_layer_effect, contributor_window_scene_rect, draw_upper_layer_effect,
    finish_lower_layer_effect, layer_contributor, lower_layer_input, BareWindow, DecoratedWindow,
    DrawnEffect, DueEffect, EffectAction, EffectPass, LayerDrawing, Rendering,
};
use shoji_wm::backend::shader_effect::{
    backdrop_shader_elements_for_window, plan_blur, read_backdrop, wrap_backdrop_shader_source,
    wrap_pixel_shader_source, CachedShaderEffect, EffectPlacement,
};
use shoji_wm::backend::surface_effect::{
    configured_background_effect_for_layer, configured_background_effects_for_window,
    effect_for_layer, layer_effect_parts, layer_part_keys, LayerEffect,
};
use shoji_wm::backend::window::{RectangleKind, RegionOp};
use shoji_wm::geometry::LogicalRect;
use shoji_wm::keymap::KeyMap;
use std::collections::hash_map::DefaultHasher;
use std::hash::{Hash, Hasher};

fn rect(x: i32, y: i32, width: i32, height: i32) -> LogicalRect {
    LogicalRect::new(x, y, width, height)
}

fn effect(uses_backdrop: bool, uses_xray: bool) -> EffectInputs {
    EffectInputs {
        uses_backdrop,
        uses_xray,
        always_invalidate: false,
        blur: Some(BlurStage { radius: 2, passes: 1 }),
        description: "blur".to_string(),
    }
}

fn scene() -> EffectScene {
    EffectScene {
        lower_layer_generation: 7,
        windows: vec![
            WindowContributor { id: "near".to_string(), rect: rect(0, 0, 50, 50) },
            WindowContributor { id: "far".to_string(), rect: rect(900, 900, 10, 10) },
        ],
        layers: vec![LayerContributor { id: 3, rect: rect(0, 0, 1000, 30) }],
    }
}

fn hash_rect(rect: LogicalRect, hasher: &mut DefaultHasher) {
    (rect.x, rect.y, rect.width, rect.height).hash(hasher);
}

#[test]
fn blur_needs_room() {
    assert_eq!(blur_padding(None), 0);
    assert_eq!(blur_padding(Some(BlurStage { radius: 2, passes: 3 })), 2 * 3 * 24 + 32);
    assert_eq!(blur_padding(Some(BlurStage { radius: 0, passes: -1 })), 56);
}

#[test]
fn capture_grows_and_stays_on_the_output() {
    let capture = capture_geometry(rect(10, 10, 20, 20), 80);
    assert_eq!(capture, rect(-70, -70, 180, 180));
    assert_eq!(capture_on_output(capture, rect(0, 0, 100, 100)), rect(0, 0, 100, 100));
    assert_eq!(capture_on_output(capture, rect(500, 500, 10, 10)), capture);
    assert_eq!(plan_capture(&effect(true, false), rect(10, 10, 20, 20), rect(0, 0, 99, 99)), rect(0, 0, 99, 99));
}

#[test]
fn backdrop_signature_is_the_hash_of_its_parts() {
    let inputs = effect(true, false);
    let effect_rect = rect(10, 10, 20, 20);
    let output = rect(0, 0, 1000, 1000);
    let plan = plan_window_backdrop("key", &inputs, &scene(), effect_rect, output, 5, (1, 2));
    let mut hasher = DefaultHasher::new();
    "key".to_string().hash(&mut hasher);
    (10, 10, 20, 20, 0, 0, 1000, 1000).hash(&mut hasher);
    (80, 5).hash(&mut hasher);
    7u64.hash(&mut hasher);
    "blur".to_string().hash(&mut hasher);
    (0, 0, 110, 110, 1, 2).hash(&mut hasher);
    "near".to_string().hash(&mut hasher);
    hash_rect(rect(0, 0, 50, 50), &mut hasher);
    3u32.hash(&mut hasher);
    hash_rect(rect(0, 0, 1000, 30), &mut hasher);
    assert_eq!(plan.signature, hasher.finish());
    assert_eq!(plan.capture_rect, rect(-70, -70, 180, 180));
    assert_eq!(plan.actual_capture_rect, rect(0, 0, 110, 110));
}

#[test]
fn effect_without_inputs_ignores_the_scene() {
    let inputs = effect(false, false);
    let effect_rect = rect(10, 10, 20, 20);
    let output = rect(0, 0, 1000, 1000);
    let full = plan_protocol_effect("key", &inputs, &scene(), effect_rect, output);
    let empty = EffectScene { lower_layer_generation: 8, windows: Vec::new(), layers: Vec::new() };
    let bare = plan_protocol_effect("key", &inputs, &empty, effect_rect, output);
    assert_eq!(full.signature, bare.signature);
    let reading = plan_protocol_effect("key", &effect(true, true), &scene(), effect_rect, output);
    assert_ne!(full.signature, reading.signature);
}

#[test]
fn lower_layer_effect_looks_at_its_generation() {
    let inputs = effect(true, true);
    let output = rect(0, 0, 1000, 1000);
    let plan = plan_layer_effect(
        "key",
        LayerPosition::Lower { index: 1 },
        &inputs,
        &scene(),
        rect(10, 10, 20, 20),
        output,
    );
    let mut hasher = DefaultHasher::new();
    "key".to_string().hash(&mut hasher);
    7u64.hash(&mut hasher);
    "blur".to_string().hash(&mut hasher);
    hash_rect(rect(10, 10, 20, 20), &mut hasher);
    hash_rect(rect(-70, -70, 180, 180), &mut hasher);
    assert_eq!(plan.signature, hasher.finish());
}

#[test]
fn keys_tell_effects_apart() {
    assert_ne!(backdrop_cache_key("k", "DP-1", true), backdrop_cache_key("k", "DP-1", false));
    assert_ne!(protocol_stable_key(1), protocol_stable_key(11));
    assert_ne!(
        protocol_cache_key(&protocol_stable_key(1), "DP-1"),
        protocol_cache_key(&protocol_stable_key(2), "DP-1")
    );
    assert_ne!(
        effect_rect_key("k", rect(1, 2, 3, 4)),
        effect_rect_key("k", rect(1, 2, 3, 5))
    );
    assert_ne!(
        layer_stable_key("DP-1", 4, LayerPosition::Top, 10, 10),
        layer_stable_key("DP-1", 4, LayerPosition::Lower { index: 0 }, 10, 10)
    );
}

fn damage(owner: &str) -> OwnedDamageRect {
    OwnedDamageRect { owner: owner.to_string(), rect: rect(0, 0, 1, 1) }
}

fn owners(damage: &[OwnedDamageRect]) -> Vec<&str> {
    damage.iter().map(|entry| entry.owner.as_str()).collect()
}

#[test]
fn only_damage_of_listed_owners_counts() {
    let listed = vec!["a".to_string(), "b".to_string()];
    assert!(is_listed(&listed, "b"));
    assert!(!is_listed(&listed, "c"));
    let found = collect_source_damage(&listed, &vec![damage("c"), damage("b"), damage("a")]);
    assert_eq!(owners(&found), vec!["b", "a"]);
}

#[test]
fn backdrop_damage_goes_by_its_owner() {
    let entries = vec![damage("layer:1"), damage("window:2"), damage("other")];
    let both = window_backdrop_damage(&entries, &effect(true, false));
    assert_eq!(owners(&both), vec!["window:2", "layer:1"]);
    let xray = window_backdrop_damage(&entries, &effect(false, true));
    assert_eq!(owners(&xray), vec!["layer:1"]);
    assert!(window_backdrop_damage(&entries, &effect(false, false)).is_empty());
}

#[test]
fn effect_sees_damage_that_it_reads() {
    let windows = vec![damage("w"), damage("v")];
    let layers = vec![damage("l")];
    let all = relevant_source_damage(
        &effect(true, false),
        &windows,
        &vec!["w".to_string()],
        &layers,
        &vec!["l".to_string()],
    );
    assert_eq!(owners(&all), vec!["w", "l"]);
}

#[test]
fn windows_below_are_lower() {
    let windows = scene().windows;
    let lower = lower_windows(&windows, 0);
    assert_eq!(lower.len(), 1);
    assert_eq!(lower[0].id, "far");
}

#[test]
fn layers_below_are_named() {
    assert_eq!(layer_owners_below(&vec![7, 40, 3], 0), vec!["40", "3"]);
    assert!(layer_owners_below(&vec![7, 40, 3], 2).is_empty());
    assert!(layer_owners_below(&vec![7, 40, 3], 9).is_empty());
}

fn op(kind: RectangleKind, rect: LogicalRect) -> RegionOp {
    RegionOp { kind, rect }
}

#[test]
fn effect_region_is_moved_to_its_surface() {
    let region = vec![op(RectangleKind::Add, rect(0, 0, 500, 10))];
    assert_eq!(
        protocol_background_effect_rects_for_window(&region, rect(100, 200, 50, 60)),
        vec![rect(100, 200, 50, 10)]
    );
    assert_eq!(
        protocol_background_effect_rects_for_layer(&region, rect(5, 6, 50, 60), 1000, 0),
        vec![rect(1005, 6, 50, 10)]
    );
}

#[test]
fn texture_of_an_effect_is_what_was_captured() {
    assert_eq!(effect_input_texture(true, true), EffectTexture::Backdrop);
    assert_eq!(effect_input_texture(false, true), EffectTexture::Xray);
    assert_eq!(effect_input_texture(false, false), EffectTexture::White);
}

#[test]
fn stored_texture_is_found_again() {
    let mut cache = BackdropCache::new();
    let inputs = effect(true, false);
    assert!(!cache.can_reuse("k", &inputs, false, 9));
    cache.store_window_texture("k".to_string(), 9);
    assert!(cache.can_reuse("k", &inputs, false, 9));
    assert!(!cache.can_reuse("k", &inputs, true, 9));
    assert!(!cache.can_reuse("k", &inputs, false, 10));
    let first = cache.commit_counter("k");
    cache.store_window_texture("k".to_string(), 10);
    assert_ne!(cache.commit_counter("k"), first);
}

#[test]
fn parts_of_a_layer_count_on_their_own() {
    let mut cache = BackdropCache::new();
    cache.store_layer_texture("k".to_string(), 1, &vec!["a".to_string()]);
    let a = cache.part_counter("k", "a");
    cache.store_layer_texture("k".to_string(), 2, &vec!["a".to_string(), "b".to_string()]);
    assert_ne!(cache.part_counter("k", "a"), a);
}

#[test]
fn window_effects_are_planned_for_each_part() {
    let rects = vec![rect(10, 10, 20, 20), rect(40, 40, 5, 5)];
    let effects = configured_background_effects_for_window(
        &rects,
        &effect(true, false),
        &scene(),
        "DP-1",
        rect(5, 5, 1000, 1000),
    );
    assert_eq!(effects.len(), 2);
    assert_eq!(effects[1].effect_rect, rect(40, 40, 5, 5));
    assert_eq!(effects[1].local_rect, rect(35, 35, 5, 5));
    assert_eq!(effects[1].stable_key, protocol_stable_key(1));
    assert_eq!(effects[1].cache_key, protocol_cache_key(&protocol_stable_key(1), "DP-1"));
}

#[test]
fn layer_effect_covers_its_region() {
    let region = vec![
        op(RectangleKind::Add, rect(0, 0, 10, 10)),
        op(RectangleKind::Add, rect(30, 30, 10, 10)),
    ];
    let output = rect(0, 0, 1000, 1000);
    let planned = configured_background_effect_for_layer(
        "DP-1",
        4,
        LayerPosition::Top,
        &region,
        rect(100, 100, 50, 50),
        &effect(true, false),
        &scene(),
        output,
    );
    let planned = match planned {
        Some(planned) => planned,
        None => panic!("the region has pixels"),
    };
    assert_eq!(planned.effect_rect, rect(100, 100, 40, 40));
    let keys = layer_part_keys(&planned);
    assert_eq!(keys.len(), planned.rects.len());
    let parts = layer_effect_parts(&BackdropCache::new(), &planned, output);
    assert_eq!(parts.len(), planned.rects.len());
    assert_eq!(parts[0].key, keys[0]);
}

#[test]
fn layer_without_region_has_no_effect() {
    let planned = configured_background_effect_for_layer(
        "DP-1",
        4,
        LayerPosition::Top,
        &Vec::new(),
        rect(100, 100, 50, 50),
        &effect(true, false),
        &scene(),
        rect(0, 0, 1000, 1000),
    );
    assert!(planned.is_none());
}

fn shader(key: &str, order: usize, texture_backed: bool) -> CachedShaderEffect {
    CachedShaderEffect {
        stable_key: key.to_string(),
        order,
        rect: rect(10, 10, 20, 20),
        shader: effect(false, true),
        texture_backed,
        clip_rect: None,
        clip_radius: 3,
    }
}

#[test]
fn only_texture_backed_effects_have_backdrops() {
    let placement = EffectPlacement {
        display_rect: rect(12, 14, 20, 20),
        source_rect: rect(10, 10, 20, 20),
        capture_origin: (0, 0),
    };
    let backdrops = backdrop_shader_elements_for_window(
        &vec![shader("plain", 0, false), shader("glass", 4, true)],
        &vec![placement, placement],
        "win",
        rect(10, 10, 100, 100),
        &scene(),
        "DP-1",
        rect(2, 3, 1000, 1000),
        true,
    );
    assert_eq!(backdrops.len(), 1);
    let backdrop = &backdrops[0];
    assert_eq!(backdrop.index, 1);
    assert_eq!(backdrop.order, 4);
    assert_eq!(backdrop.label, "window-backdrop:win:glass");
    assert_eq!(backdrop.cache_key, backdrop_cache_key("glass", "DP-1", true));
    assert!(backdrop.render_as_backdrop);
    assert_eq!(backdrop.local_rect, rect(2, 4, 20, 20));
    assert_eq!(backdrop.local_sample_rect, rect(8, 7, 20, 20));
}

#[test]
fn backdrop_is_read_from_its_capture() {
    let reading = read_backdrop(
        rect(10, 10, 20, 20),
        rect(12, 12, 20, 20),
        rect(2, 2, 0, 90),
        Some(rect(11, 11, 5, 0)),
        -4,
    );
    assert_eq!(reading.sample, rect(10, 10, 20, 20));
    assert_eq!(reading.capture_width, 1);
    assert_eq!(reading.capture_height, 90);
    assert_eq!(reading.clip, rect(1, 1, 5, 0));
    assert!(!reading.clip_enabled);
    assert_eq!(reading.clip_radius, 0);
}

#[test]
fn blur_has_at_least_one_pass() {
    let plan = plan_blur((0, 5), 0, -2);
    assert_eq!(plan.passes, 1);
    assert_eq!(plan.radius, 1);
    assert_eq!(plan.width, 1);
    assert_eq!(plan.height, 5);
}

#[test]
fn shader_sources_are_wrapped() {
    let pixel = wrap_pixel_shader_source("vec4 own() {}");
    assert!(pixel.contains("vec4 own() {}"));
    assert!(pixel.contains("void main()"));
    let backdrop = wrap_backdrop_shader_source("vec4 own() {}");
    assert!(backdrop.contains("vec4 own() {}"));
    assert!(backdrop.contains("sampler2D"));
    assert_ne!(pixel, backdrop);
}

#[test]
fn decorated_window_is_known_by_its_decoration() {
    let bare = BareWindow { surface: Some(7), place: None, bounds: rect(0, 0, 1, 1) };
    let decorated = DecoratedWindow { id: "window:1".to_string(), rect: rect(4, 5, 6, 7) };
    let added = contributor_window_scene_rect(Some(decorated), bare).unwrap();
    assert_eq!((added.id.as_str(), added.rect), ("window:1", rect(4, 5, 6, 7)));
}

#[test]
fn bare_window_is_known_by_its_surface() {
    let bare = |surface: Option<u32>, place: Option<(i32, i32)>| BareWindow {
        surface,
        place,
        bounds: rect(-2, 3, 10, 20),
    };
    let added = contributor_window_scene_rect(None, bare(Some(42), Some((100, 50)))).unwrap();
    assert_eq!((added.id.as_str(), added.rect), ("42", rect(98, 53, 10, 20)));
    let added = contributor_window_scene_rect(None, bare(None, Some((0, 0)))).unwrap();
    assert_eq!(added.id, "unknown");
    assert!(contributor_window_scene_rect(None, bare(Some(42), None)).is_none());
}

#[test]
fn layer_is_seen_from_the_corner_of_all_outputs() {
    let added = layer_contributor(9, rect(0, 10, 200, 30), (1920, 0));
    assert_eq!((added.id, added.rect), (9, rect(1920, 10, 200, 30)));
}

fn due(key: &str, uses_backdrop: bool, uses_xray: bool, signature: u64) -> DueEffect {
    DueEffect {
        cache_key: key.to_string(),
        effect: effect(uses_backdrop, uses_xray),
        signature,
        damage_hit: false,
    }
}

#[test]
fn pass_renders_what_is_stale_and_draws_the_rest_again() {
    let mut cache = BackdropCache::new();
    cache.store_window_texture("first".to_string(), 1);
    cache.store_window_texture("third".to_string(), 3);
    cache.store_window_texture("third".to_string(), 3);
    let effects = vec![
        due("first", true, false, 1),
        due("second", true, true, 2),
        due("third", false, true, 3),
        due("fourth", false, true, 4),
    ];
    let mut pass = EffectPass::new();
    assert_eq!(
        pass.advance(&effects, &cache),
        EffectAction::Render { index: 1, backdrop: true, xray: true }
    );
    pass.rendered(&effects, &mut cache, true);
    assert_eq!(
        pass.advance(&effects, &cache),
        EffectAction::Render { index: 3, backdrop: false, xray: true }
    );
    pass.rendered(&effects, &mut cache, false);
    assert_eq!(pass.advance(&effects, &cache), EffectAction::Done);
    assert_eq!(
        pass.drawn,
        vec![
            DrawnEffect { index: 0, commit_counter: 0, fresh: false },
            DrawnEffect { index: 1, commit_counter: 0, fresh: true },
            DrawnEffect { index: 2, commit_counter: 1, fresh: false },
        ]
    );
}

#[test]
fn settled_effects_are_drawn_again() {
    let mut cache = BackdropCache::new();
    let mut effects = vec![due("a", true, false, 1), due("b", false, false, 2)];
    let mut first = EffectPass::new();
    while first.advance(&effects, &cache) != EffectAction::Done {
        first.rendered(&effects, &mut cache, true);
    }
    let mut second = EffectPass::new();
    assert_eq!(second.advance(&effects, &cache), EffectAction::Done);
    assert_eq!(second.drawn.len(), 2);
    assert!(second.drawn.iter().all(|drawn| !drawn.fresh));

    effects[1].damage_hit = true;
    let mut third = EffectPass::new();
    assert_eq!(
        third.advance(&effects, &cache),
        EffectAction::Render { index: 1, backdrop: false, xray: false }
    );
    effects[0].effect.always_invalidate = true;
    let mut fourth = EffectPass::new();
    assert_eq!(
        fourth.advance(&effects, &cache),
        EffectAction::Render { index: 0, backdrop: true, xray: false }
    );
}

fn planned_layer(position: LayerPosition) -> LayerEffect {
    let region = vec![
        op(RectangleKind::Add, rect(0, 0, 20, 10)),
        op(RectangleKind::Add, rect(0, 20, 20, 10)),
    ];
    configured_background_effect_for_layer(
        "out",
        9,
        position,
        &region,
        rect(10, 10, 100, 100),
        &effect(true, false),
        &scene(),
        rect(100, 0, 1000, 1000),
    )
    .unwrap()
}

fn counters(drawing: &LayerDrawing) -> Vec<usize> {
    match drawing {
        LayerDrawing::Again { parts } | LayerDrawing::Anew { parts } => {
            parts.iter().map(|part| part.commit_counter).collect()
        }
        _ => Vec::new(),
    }
}

#[test]
fn upper_layer_keeps_its_texture() {
    let output = rect(100, 0, 1000, 1000);
    let inputs = effect(true, false);
    let planned = planned_layer(LayerPosition::Top);
    let mut cache = BackdropCache::new();
    let mut draw = |damage_hit: bool, rendering: Rendering| {
        draw_upper_layer_effect(&mut cache, &planned, &inputs, damage_hit, rendering, output)
    };
    assert!(matches!(draw(false, Rendering::NoInput), LayerDrawing::Nothing));
    assert!(matches!(draw(false, Rendering::Failed), LayerDrawing::Failed));
    let anew = draw(false, Rendering::Made);
    assert!(matches!(anew, LayerDrawing::Anew { .. }));
    assert_eq!(counters(&anew), vec![0, 0]);
    let again = draw(false, Rendering::Made);
    assert!(matches!(again, LayerDrawing::Again { .. }));
    assert_eq!(counters(&again), vec![0, 0]);
    let damaged = draw(true, Rendering::Made);
    assert!(matches!(damaged, LayerDrawing::Anew { .. }));
    assert_eq!(counters(&damaged), vec![1, 1]);
    if let LayerDrawing::Anew { parts } = damaged {
        assert_eq!(parts[0].local_rect, rect(10, 10, 20, 10));
        assert_eq!(parts[1].local_rect, rect(10, 30, 20, 10));
    }
}

#[test]
fn lower_layer_needs_layers_below() {
    let output = rect(100, 0, 1000, 1000);
    let inputs = effect(true, false);
    let plain = effect(false, false);
    let planned = planned_layer(LayerPosition::Lower { index: 0 });
    let mut cache = BackdropCache::new();
    assert!(begin_lower_layer_effect(&cache, &planned, &inputs, false, output).is_none());
    let mut finish = |inputs: &EffectInputs, below: usize, captured: bool, made: bool| {
        finish_lower_layer_effect(&mut cache, &planned, inputs, below, captured, made, output)
    };
    assert!(matches!(finish(&inputs, 0, true, true), LayerDrawing::Nothing));
    assert!(matches!(finish(&inputs, 3, false, true), LayerDrawing::Failed));
    assert!(matches!(finish(&inputs, 3, true, false), LayerDrawing::Failed));
    assert!(matches!(finish(&plain, 3, true, true), LayerDrawing::Failed));
    let anew = finish(&inputs, 3, true, true);
    assert!(matches!(anew, LayerDrawing::Anew { .. }));
    assert_eq!(counters(&anew), vec![0, 0]);
    let again = begin_lower_layer_effect(&cache, &planned, &inputs, false, output).unwrap();
    assert_eq!(again.len(), 2);
    assert!(begin_lower_layer_effect(&cache, &planned, &inputs, true, output).is_none());
}

#[test]
fn lower_layer_reads_what_its_effect_names() {
    assert_eq!(lower_layer_input(&effect(true, true)), Some(EffectTexture::Backdrop));
    assert_eq!(lower_layer_input(&effect(false, true)), Some(EffectTexture::Xray));
    assert_eq!(lower_layer_input(&effect(false, false)), None);
}

#[test]
fn layers_have_effects_of_their_own() {
    let mut configured = KeyMap::new();
    configured.insert("panel".to_string(), 1);
    assert_eq!(effect_for_layer(&configured, "panel", Some(&2)), Some(&1));
    assert_eq!(effect_for_layer(&configured, "panel", None), Some(&1));
    assert_eq!(effect_for_layer(&configured, "dock", Some(&2)), Some(&2));
    assert_eq!(effect_for_layer(&configured, "dock", None), None);
    configured.insert("dock".to_string(), 3);
    assert_eq!(effect_for_layer(&configured, "dock", Some(&2)), Some(&3));
    assert_eq!(effect_for_layer(&configured, "panel", Some(&2)), Some(&1));
}

#[test]
fn damage_is_met_where_it_shares_a_pixel() {
    let damage = |x: i32, y: i32, width: i32, height: i32| OwnedDamageRect {
        owner: "window:a".to_string(),
        rect: LogicalRect { x, y, width, height },
    };
    let rect = LogicalRect { x: 10, y: 10, width: 5, height: 5 };
    let meets = |entry: OwnedDamageRect| source_damage_intersects_rect(&vec![entry], rect);
    assert!(meets(damage(14, 14, 1, 1)));
    assert!(meets(damage(0, 0, 11, 11)));
    assert!(!meets(damage(0, 0, 10, 11)));
    assert!(!meets(damage(15, 10, 5, 5)));
    assert!(!meets(damage(12, 12, 0, 2)));
    assert!(!meets(damage(i32::MIN, i32::MIN, i32::MAX, i32::MAX)));
    assert!(meets(damage(0, 0, i32::MAX, i32::MAX)));
    assert!(!source_damage_intersects_rect(&Vec::new(), rect));
    let two = vec![damage(0, 0, 1, 1), damage(11, 11, 1, 1)];
    assert!(source_damage_intersects_rect(&two, rect));
}
