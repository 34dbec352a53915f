use shoji_wm::backend::devices::{
    check_devices, check_outputs, connected_drm_connectors, output_name, path_matches_override,
    select_tty_devices, ConnectorEntry, TtyDeviceCandidate, TtyStartError,
};
use shoji_wm::backend::scene::Layer;
use shoji_wm::backend::window::RectangleKind;
use shoji_wm::backend::{
    nested_action, redraws_after_refresh, BackendLoop, NestedAction, NestedEvent, ShojiWMBackend,
};
use shoji_wm::cli::{debug_enabled, rolled_log_name, says_off, CliArgs};
use shoji_wm::geometry::LogicalRect;
use shoji_wm::handlers::{
    accepts_dmabuf, accepts_region_request, build_region, check_grab, committed_window,
    decoration_configure, layer_owner, popup_target, preferred_scale_output, ConfigureKind,
    GrabFacts, RegionRequest, ScaleSources, SceneChanges,
};
use shoji_wm::keymap::{IdSet, KeyMap};
use shoji_wm::numbers::parse_i32;
use shoji_wm::paths::{
    is_same_place, path_components, path_extension, path_file_name, path_file_stem,
};
use shoji_wm::presentation::{released_clients, SurfaceFrameThrottlingState};
use shoji_wm::strings::{
    begins_with, contains_text, ends_with, from_chars, is_whitespace, lower_chars, push_i32,
    push_u128, push_u64, same_text, slice_to_string, split_chars, split_filled, to_chars, trim,
};
use std::path::Path;

fn rect(x: i32, y: i32, width: i32, height: i32) -> LogicalRect {
    LogicalRect::new(x, y, width, height)
}

fn changes() -> SceneChanges {
    SceneChanges {
        scene_generation: u64::MAX,
        window_scene_generation: 1,
        lower_layer_scene_generation: 2,
        upper_layer_scene_generation: 3,
        window_source_damage: Vec::new(),
        lower_layer_source_damage: Vec::new(),
        upper_layer_source_damage: Vec::new(),
        pending_decoration_damage: Vec::new(),
        snapshot_dirty: IdSet::new(),
        window_commit_times: KeyMap::new(),
    }
}

#[test]
fn commits_of_windows_are_noted() {
    let mut changes = changes();
    changes.surface_committed();
    assert_eq!(changes.scene_generation, 0);
    let damage = vec![rect(1, 1, 2, 2), rect(5, 5, 1, 1)];
    assert_eq!(changes.window_committed("w", &damage, Some(rect(0, 0, 9, 9)), 100), None);
    assert_eq!(changes.window_committed("w", &Vec::new(), None, 250), Some(100));
    assert_eq!(changes.window_scene_generation, 3);
    assert_eq!(changes.window_source_damage.len(), 2);
    assert_eq!(changes.window_source_damage[1].owner, "w");
    assert_eq!(changes.window_source_damage[1].rect, rect(5, 5, 1, 1));
    assert_eq!(changes.pending_decoration_damage, vec![rect(0, 0, 9, 9)]);
    assert!(changes.snapshot_dirty.contains("w"));
}

#[test]
fn commits_of_layers_go_below_or_above() {
    let mut changes = changes();
    changes.layer_committed(Layer::Bottom, 12, Some(rect(0, 0, 9, 9)));
    changes.layer_committed(Layer::Overlay, 13, None);
    assert_eq!(changes.lower_layer_scene_generation, 3);
    assert_eq!(changes.upper_layer_scene_generation, 4);
    assert_eq!(changes.lower_layer_source_damage[0].owner, "12");
    assert!(changes.upper_layer_source_damage.is_empty());
    assert_eq!(layer_owner(u32::MAX), "4294967295");
}

#[test]
fn damage_stays_until_it_is_drawn() {
    let mut changes = changes();
    changes.window_committed("w", &vec![rect(1, 1, 2, 2)], Some(rect(0, 0, 9, 9)), 1);
    changes.round_finished(0);
    assert_eq!(changes.window_source_damage.len(), 1);
    changes.round_finished(1);
    assert!(changes.window_source_damage.is_empty());
    assert!(changes.pending_decoration_damage.is_empty());
    assert!(changes.snapshot_dirty.contains("w"));
}

#[test]
fn commit_belongs_to_the_window_of_its_root() {
    assert_eq!(committed_window(false, &vec![4, 5, 5], 5), Some(1));
    assert_eq!(committed_window(false, &vec![4], 5), None);
    assert_eq!(committed_window(true, &vec![5], 5), None);
}

#[test]
fn negative_rects_are_ignored() {
    let bad = RegionRequest::Add { rect: rect(0, 0, 5, -1) };
    let good = RegionRequest::Add { rect: rect(0, 0, 5, 0) };
    let cut = RegionRequest::Subtract { rect: rect(1, 1, 2, 2) };
    assert!(!accepts_region_request(bad));
    assert!(!accepts_region_request(RegionRequest::Subtract { rect: rect(0, 0, -3, 4) }));
    assert!(accepts_region_request(good));
    assert!(accepts_region_request(RegionRequest::Other));
    let region = build_region(&vec![bad, good, RegionRequest::Other, cut]);
    assert_eq!(region.len(), 2);
    assert_eq!(region[0].rect, rect(0, 0, 5, 0));
    assert_eq!(region[1].kind, RectangleKind::Subtract);
}

#[test]
fn first_configure_is_always_sent() {
    assert_eq!(decoration_configure(false), ConfigureKind::Always);
    assert_eq!(decoration_configure(true), ConfigureKind::IfPending);
}

#[test]
fn grab_belongs_to_its_client() {
    let facts = GrabFacts { has_pointer: true, has_grab: true, start_client: Some(3) };
    assert!(check_grab(facts, 3));
    assert!(!check_grab(facts, 4));
    assert!(!check_grab(GrabFacts { has_grab: false, ..facts }, 3));
    assert!(!check_grab(GrabFacts { has_pointer: false, ..facts }, 3));
    assert!(!check_grab(GrabFacts { start_client: None, ..facts }, 3));
}

#[test]
fn popup_has_to_fit_on_the_output() {
    assert_eq!(popup_target(rect(0, 0, 100, 50), (10, 5), (20, 30)), rect(-30, -35, 100, 50));
}

#[test]
fn scale_comes_from_the_nearest_output() {
    let sources = ScaleSources {
        surface_output: None,
        has_other_root: true,
        root_output: Some(1),
        window_output: Some(2),
        first_output: Some(3),
    };
    assert_eq!(preferred_scale_output(sources), Some(1));
    assert_eq!(
        preferred_scale_output(ScaleSources { surface_output: Some(9), ..sources }),
        Some(9)
    );
    assert_eq!(
        preferred_scale_output(ScaleSources { has_other_root: false, ..sources }),
        Some(2)
    );
    assert_eq!(
        preferred_scale_output(ScaleSources { root_output: None, window_output: None, ..sources }),
        Some(3)
    );
}

#[test]
fn buffer_needs_one_device() {
    assert!(accepts_dmabuf(&Vec::new()));
    assert!(accepts_dmabuf(&vec![false, true]));
    assert!(!accepts_dmabuf(&vec![false, false]));
}

#[test]
fn one_callback_per_cycle() {
    let mut state = SurfaceFrameThrottlingState::default();
    assert!(!state.should_send(1, None, Some(5)));
    assert!(!state.should_send(1, Some(2), Some(5)));
    assert!(state.should_send(1, Some(1), Some(5)));
    assert!(!state.should_send(1, Some(1), Some(5)));
    assert!(state.should_send(1, Some(1), Some(6)));
    assert!(state.should_send(1, Some(1), None));
    assert!(!state.should_send(1, Some(1), Some(6)));
    assert!(state.should_send(2, Some(2), Some(6)));
}

#[test]
fn clients_go_on_once() {
    assert_eq!(
        released_clients(&vec![(3, true), (4, false), (3, true), (5, true)]),
        vec![3, 5]
    );
}

fn args(list: &[&str]) -> Vec<String> {
    list.iter().map(|arg| arg.to_string()).collect()
}

#[test]
fn arguments_choose_the_backend() {
    let plain = CliArgs::parse(&args(&[]), None, None);
    assert_eq!(plain, CliArgs { tty: false, log_off: false, no_log_rotate: false });
    assert_eq!(plain.backend(), ShojiWMBackend::WInit);
    let tty = CliArgs::parse(&args(&["x", "--tty"]), None, None);
    assert_eq!(tty.backend(), ShojiWMBackend::TTY);
    assert_eq!(tty.backend().run(), BackendLoop::Terminal);
    assert_eq!(ShojiWMBackend::WInit.run(), BackendLoop::Nested);
}

#[test]
fn logs_can_be_turned_off() {
    assert!(CliArgs::parse(&args(&["--log-off"]), None, None).log_off);
    assert!(CliArgs::parse(&args(&[]), Some("off"), None).log_off);
    assert!(CliArgs::parse(&args(&[]), Some("0"), None).log_off);
    assert!(!CliArgs::parse(&args(&[]), Some("on"), None).log_off);
    assert!(CliArgs::parse(&args(&[]), None, Some("0")).no_log_rotate);
    assert!(CliArgs::parse(&args(&["--no-log-rotate"]), None, None).no_log_rotate);
    assert!(says_off(Some("off")));
    assert!(!says_off(None));
}

#[test]
fn last_log_is_rolled() {
    let plain = CliArgs::parse(&args(&[]), None, None);
    assert!(plain.rotates_log(true));
    assert!(!plain.rotates_log(false));
    assert!(!CliArgs { no_log_rotate: true, ..plain }.rotates_log(true));
    assert!(!CliArgs { log_off: true, ..plain }.rotates_log(true));
    assert_eq!(rolled_log_name(1_700_000_000_123), "1700000000123.log");
}

#[test]
fn debug_variables_need_a_value() {
    assert!(debug_enabled(Some("1")));
    assert!(debug_enabled(Some("false")));
    assert!(!debug_enabled(Some("0")));
    assert!(!debug_enabled(Some("")));
    assert!(!debug_enabled(None));
}

#[test]
fn nested_events_lead_to_actions() {
    assert_eq!(
        nested_action(NestedEvent::Resized { width: 800, height: 600 }),
        NestedAction::ChangeMode { width: 800, height: 600, refresh: 60_000 }
    );
    assert_eq!(nested_action(NestedEvent::Input), NestedAction::ProcessInput);
    assert_eq!(nested_action(NestedEvent::Redraw), NestedAction::DrawFrame);
    assert_eq!(nested_action(NestedEvent::CloseRequested), NestedAction::ShutDown);
    assert_eq!(nested_action(NestedEvent::Other), NestedAction::Nothing);
    assert!(redraws_after_refresh(2, 3));
    assert!(!redraws_after_refresh(3, 3));
}

fn candidate(path: &str, connectors: usize, is_primary: bool) -> TtyDeviceCandidate {
    TtyDeviceCandidate {
        path: path.to_string(),
        connected_connectors: (0..connectors).map(|n| format!("c{}", n)).collect(),
        is_primary,
    }
}

fn selected(candidates: &Vec<TtyDeviceCandidate>, asked_for: Option<&str>) -> Vec<usize> {
    match select_tty_devices(candidates, asked_for) {
        Ok(selected) => selected,
        Err(error) => panic!("{:?}", error),
    }
}

#[test]
fn connected_device_is_driven() {
    let cards = vec![
        candidate("/dev/dri/card0", 2, false),
        candidate("/dev/dri/card1", 1, true),
        candidate("/dev/dri/card2", 2, false),
    ];
    assert_eq!(selected(&cards, None), vec![1]);
    let no_primary = vec![
        candidate("/dev/dri/card0", 2, false),
        candidate("/dev/dri/card1", 0, true),
        candidate("/dev/dri/card2", 2, false),
    ];
    assert_eq!(selected(&no_primary, None), vec![2]);
    let dark = vec![candidate("/dev/dri/card0", 0, false), candidate("/dev/dri/card1", 0, true)];
    assert_eq!(selected(&dark, None), vec![1]);
    let unknown = vec![candidate("/dev/dri/card0", 0, false), candidate("/dev/dri/card1", 0, false)];
    assert_eq!(selected(&unknown, None), vec![0]);
}

#[test]
fn devices_can_be_asked_for() {
    let cards = vec![
        candidate("/dev/dri/card0", 0, false),
        candidate("/dev/dri/card1", 0, false),
        candidate("/dev/dri/card2", 0, false),
    ];
    assert_eq!(selected(&cards, Some("all")), vec![0, 1, 2]);
    assert_eq!(selected(&cards, Some("card2, /dev/dri//card0,")), vec![0, 2]);
    assert!(matches!(
        select_tty_devices(&cards, Some("card9")),
        Err(TtyStartError::OverrideUnmatched { value }) if value == "card9"
    ));
    assert_eq!(selected(&Vec::new(), Some("all")), Vec::<usize>::new());
    assert!(path_matches_override("/dev/dri/card0", "card0"));
    assert!(!path_matches_override("/dev/dri/card0", "card"));
}

#[test]
fn backend_needs_devices_and_outputs() {
    assert!(check_devices(1).is_ok());
    assert!(matches!(check_devices(0), Err(TtyStartError::NoDevices)));
    assert!(check_outputs(1).is_ok());
    assert!(matches!(check_outputs(0), Err(TtyStartError::NoOutputs)));
    assert_eq!(output_name("HDMI-A", 2), "HDMI-A-2");
}

#[test]
fn connectors_of_a_card_are_found() {
    let entry = |name: &str, status: Option<&str>| ConnectorEntry {
        name: name.to_string(),
        status: status.map(str::to_string),
    };
    let entries = vec![
        entry("card0-DP-1", Some("connected\n")),
        entry("card0-DP-2", Some("disconnected\n")),
        entry("card01-DP-1", Some("connected\n")),
        entry("card0", Some("connected")),
        entry("card0-DP-3", None),
    ];
    assert_eq!(connected_drm_connectors(&entries, "card0"), vec!["card0-DP-1"]);
}

#[test]
fn paths_are_read_as_std_reads_them() {
    for text in [
        "/usr/share/icons/a.png",
        "a/b.c/..",
        "./x.tar.gz",
        "/",
        "",
        "//a//b/",
        ".hidden",
        "a/.hidden.png",
        "dir/.",
        "x.",
        "..",
        "a..b",
    ] {
        let path = Path::new(text);
        let parts: Vec<String> = path
            .components()
            .map(|part| part.as_os_str().to_string_lossy().into_owned())
            .collect();
        let ours: Vec<String> = path_components(text).iter().map(from_chars).collect();
        assert_eq!(ours, parts, "{}", text);
        assert_eq!(path_extension(text), path.extension().map(|part| part.to_string_lossy().into_owned()), "{}", text);
        assert_eq!(path_file_stem(text), path.file_stem().map(|part| part.to_string_lossy().into_owned()), "{}", text);
        assert_eq!(
            path_file_name(text).map(|name| from_chars(&name)),
            path.file_name().map(|part| part.to_string_lossy().into_owned()),
            "{}",
            text
        );
    }
    assert!(is_same_place("/a//b/./c/", "/a/b/c"));
    assert!(!is_same_place("/a/b", "a/b"));
}

#[test]
fn numbers_are_read_as_std_reads_them() {
    for text in [
        "0", "-0", "+7", "48", "-2147483648", "2147483647", "2147483648", "-2147483649", "", "+",
        "-", "1x", " 1", "--1", "99999999999999999999", "007",
    ] {
        assert_eq!(parse_i32(&to_chars(text)), text.parse::<i32>().ok(), "{}", text);
    }
}

#[test]
fn numbers_are_printed_as_std_prints_them() {
    for n in [0, 7, -7, 10, i32::MAX, i32::MIN] {
        let mut text = String::new();
        push_i32(&mut text, n);
        assert_eq!(text, n.to_string());
    }
    let mut text = "n=".to_string();
    push_u64(&mut text, u64::MAX);
    push_u128(&mut text, 10);
    assert_eq!(text, format!("n={}10", u64::MAX));
}

#[test]
fn text_is_cut_and_compared() {
    assert!(begins_with("window:1", "window:"));
    assert!(!begins_with("win", "window:"));
    assert!(ends_with("bar:fill", ":fill"));
    assert!(contains_text("/a/apps/b", "/apps/"));
    assert!(!contains_text("/a/apps", "/apps/"));
    assert!(same_text("é", "é"));
    let text = |parts: Vec<Vec<char>>| -> Vec<String> { parts.iter().map(from_chars).collect() };
    assert_eq!(text(split_chars("a,,b,", ',')), vec!["a", "", "b", ""]);
    assert_eq!(text(split_filled(" a , ,b ", ',')), vec!["a", "b"]);
    assert_eq!(from_chars(&trim(&to_chars("\u{2003} x y\n"))), "x y");
    assert_eq!(from_chars(&lower_chars(&to_chars("AbÉ"))), "abÉ");
    assert_eq!(slice_to_string(&to_chars("abcd"), 1, 3), "bc");
}

#[test]
fn whitespace_is_what_std_calls_so() {
    for code in 0..=0x10ffffu32 {
        if let Some(ch) = char::from_u32(code) {
            assert_eq!(is_whitespace(ch), ch.is_whitespace(), "{:x}", code);
        }
    }
}
