use shoji_wm::backend::tty::{
    find_requested_mode, presentation_clock, presentation_flags, processed_outputs, queue_tty_redraws,
    select_output_mode, EstimatedVBlankAction, EstimatedVBlankTimer, OutputMode,
    RenderSurfaceOutcome, SurfaceData, TtyRedrawState, MAX_NANOS,
};
use shoji_wm::config::{DisplayConfig, DisplayModePreference};

const FRAME: u128 = 16_666_667;

#[test]
fn new_output_draws_its_first_frame() {
    let mut surface = SurfaceData::connected(FRAME);
    assert_eq!(surface.redraw_state, TtyRedrawState::Queued);
    assert_eq!(surface.begin_render(), RenderSurfaceOutcome::Processed);
}

#[test]
fn queued_frame_waits_for_vblank_and_draws_again() {
    let mut surface = SurfaceData::connected(FRAME);
    assert_eq!(surface.take_frame_time(1_000), 1_000 + FRAME);
    assert_eq!(surface.frame_queued(), 1);
    assert_eq!(surface.redraw_state, TtyRedrawState::WaitingForVBlank { redraw_needed: true });
    assert_eq!(surface.begin_render(), RenderSurfaceOutcome::Skipped);
    assert_eq!(surface.skipped_while_pending_count, 1);
    assert!(surface.frame_finish(5_000));
    assert_eq!(surface.redraw_state, TtyRedrawState::Queued);
    assert_eq!(surface.frame_target(9_999), 5_000 + FRAME);
    assert_eq!(surface.last_presented_at, Some(5_000));
    assert_eq!(surface.skipped_while_pending_count, 0);
}

#[test]
fn empty_frame_is_followed_by_a_timer() {
    let mut surface = SurfaceData::connected(FRAME);
    surface.frame_empty();
    let timer = surface.arm_estimated_vblank();
    assert_eq!(timer, Some(EstimatedVBlankTimer { generation: 1, delay: FRAME }));
    assert_eq!(surface.arm_estimated_vblank(), None);
    let action = surface.estimated_vblank(EstimatedVBlankTimer { generation: 1, delay: FRAME }, 7);
    assert_eq!(
        action,
        EstimatedVBlankAction::SendFrameCallbacks { sequence: 1, callback_time: 7 + FRAME }
    );
    assert_eq!(surface.redraw_state, TtyRedrawState::Idle);
}

#[test]
fn callback_time_stops_at_the_longest_span() {
    let mut surface = SurfaceData::connected(FRAME);
    surface.frame_empty();
    let timer = EstimatedVBlankTimer { generation: 1, delay: 5 };
    surface.arm_estimated_vblank();
    let action = surface.estimated_vblank(timer, MAX_NANOS);
    assert_eq!(
        action,
        EstimatedVBlankAction::SendFrameCallbacks { sequence: 1, callback_time: MAX_NANOS }
    );
}

#[test]
fn redraw_survives_the_timer() {
    let mut surface = SurfaceData::connected(FRAME);
    surface.frame_empty();
    surface.arm_estimated_vblank();
    surface.queue_redraw();
    let action = surface.estimated_vblank(EstimatedVBlankTimer { generation: 1, delay: FRAME }, 7);
    assert_eq!(action, EstimatedVBlankAction::ScheduleRedraw);
    assert_eq!(surface.redraw_state, TtyRedrawState::Queued);
}

#[test]
fn stale_timer_changes_nothing() {
    let mut surface = SurfaceData::connected(FRAME);
    surface.frame_empty();
    surface.arm_estimated_vblank();
    surface.frame_queued();
    let before = surface;
    let action = surface.estimated_vblank(EstimatedVBlankTimer { generation: 1, delay: FRAME }, 7);
    assert_eq!(action, EstimatedVBlankAction::Ignore);
    assert_eq!(surface, before);
}

#[test]
fn timer_that_did_not_start_is_forgotten() {
    let mut surface = SurfaceData::connected(FRAME);
    surface.frame_empty();
    surface.arm_estimated_vblank();
    surface.disarm_estimated_vblank();
    assert!(!surface.frame_callback_timer_armed);
    assert!(surface.arm_estimated_vblank().is_some());
}

#[test]
fn redraws_are_asked_for_everywhere() {
    let mut idle = SurfaceData::connected(FRAME);
    idle.frame_queued();
    idle.redraw_state = TtyRedrawState::Idle;
    let mut waiting = SurfaceData::connected(FRAME);
    waiting.redraw_state = TtyRedrawState::WaitingForVBlank { redraw_needed: false };
    let mut surfaces = vec![idle, waiting];
    queue_tty_redraws(&mut surfaces);
    assert_eq!(surfaces[0].redraw_state, TtyRedrawState::Queued);
    assert_eq!(surfaces[1].redraw_state, TtyRedrawState::WaitingForVBlank { redraw_needed: true });
}

#[test]
fn counters_wrap_around() {
    let mut surface = SurfaceData::connected(FRAME);
    surface.frame_callback_sequence = u32::MAX;
    surface.frame_callback_timer_generation = u64::MAX;
    assert_eq!(surface.frame_queued(), 0);
    assert_eq!(surface.frame_callback_timer_generation, 0);
}

#[test]
fn applied_mode_draws_again() {
    let mut surface = SurfaceData::connected(FRAME);
    surface.frame_queued();
    surface.mode_applied(8_333_333);
    assert_eq!(surface.frame_duration, 8_333_333);
    assert_eq!(surface.redraw_state, TtyRedrawState::Queued);
}

#[test]
fn hardware_clock_comes_first() {
    assert_eq!(presentation_clock(Some(5), 9), 5);
    assert_eq!(presentation_clock(None, 9), 9);
    let flags = presentation_flags(true);
    assert!(flags.vsync && flags.hw_clock && flags.hw_completion);
    let flags = presentation_flags(false);
    assert!(flags.vsync && !flags.hw_clock && !flags.hw_completion);
}

#[test]
fn drawn_outputs_are_listed() {
    let names = vec!["DP-1".to_string(), "DP-2".to_string(), "DP-3".to_string()];
    let outcomes = vec![
        RenderSurfaceOutcome::Processed,
        RenderSurfaceOutcome::Skipped,
        RenderSurfaceOutcome::Processed,
    ];
    assert_eq!(processed_outputs(&names, &outcomes), vec!["DP-1".to_string(), "DP-3".to_string()]);
}

fn mode(width: u16, height: u16, refresh: i32) -> OutputMode {
    OutputMode { width, height, vrefresh: (refresh / 1000) as u32, refresh }
}

#[test]
fn largest_and_fastest_mode_is_taken() {
    let modes = vec![mode(1920, 1080, 60_000), mode(2560, 1440, 60_000), mode(2560, 1440, 144_000)];
    assert_eq!(select_output_mode(&modes, &DisplayModePreference::Auto), 2);
    assert_eq!(DisplayConfig::default().default_mode, DisplayModePreference::Auto);
}

#[test]
fn asked_size_is_taken_with_the_nearest_rate() {
    let modes = vec![mode(1920, 1080, 60_000), mode(1920, 1080, 75_000), mode(2560, 1440, 60_000)];
    let wanted =
        DisplayModePreference::Exact { width: 1920, height: 1080, refresh_mhz: Some(73_000) };
    assert_eq!(select_output_mode(&modes, &wanted), 1);
}

#[test]
fn requested_mode_has_to_be_offered() {
    let modes = vec![mode(1920, 1080, 60_000), mode(1920, 1080, 75_000)];
    assert_eq!(find_requested_mode(&modes, 1920, 1080, 75_000), Some(1));
    assert_eq!(find_requested_mode(&modes, 1920, 1080, 74_999), None);
}
