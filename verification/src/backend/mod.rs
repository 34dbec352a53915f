//! The backends that put the compositor on a screen.

pub mod async_assets;
pub mod async_buffers;
pub mod cursor;
pub mod damage;
pub mod decoration;
pub mod devices;
pub mod effect;
pub mod effect_cache;
pub mod effect_pass;
pub mod font_file;
pub mod font_names;
pub mod font_outlines;
pub mod fonts;
pub mod gap_debug;
pub mod icon;
pub mod pixels;
pub mod scene;
pub mod shader_effect;
pub mod snapshot;
pub mod surface_effect;
pub mod text;
pub mod tty;
pub mod visual;
pub mod window;

use vstd::prelude::*;

verus! {

/// The backends.
#[derive(Clone, Copy, Debug, PartialEq, Eq, Structural)]
pub enum ShojiWMBackend {
    /// A window of another compositor.
    WInit,
    /// The graphics devices of a terminal.
    TTY,
}

/// The event loop that a backend enters.
#[derive(Clone, Copy, Debug, PartialEq, Eq, Structural)]
pub enum BackendLoop {
    Nested,
    Terminal,
}

impl ShojiWMBackend {
    /// The event loop that runs the backend.
    pub open spec fn entered_loop(self) -> BackendLoop {
        match self {
            ShojiWMBackend::WInit => BackendLoop::Nested,
            ShojiWMBackend::TTY => BackendLoop::Terminal,
        }
    }

    /// The event loop that runs the backend.
    pub fn run(&self) -> (entered: BackendLoop)
        ensures
            entered == self.entered_loop(),
    {
        match self {
            ShojiWMBackend::WInit => BackendLoop::Nested,
            ShojiWMBackend::TTY => BackendLoop::Terminal,
        }
    }
}

/// An event of the window of the nested backend.
#[derive(Clone, Copy, Debug, PartialEq, Eq, Structural)]
pub enum NestedEvent {
    Resized { width: i32, height: i32 },
    Input,
    Redraw,
    CloseRequested,
    Other,
}

/// What an event of the nested backend leads to.
#[derive(Clone, Copy, Debug, PartialEq, Eq, Structural)]
pub enum NestedAction {
    /// The output gets another size, and keeps its refresh rate.
    ChangeMode { width: i32, height: i32, refresh: i32 },
    ProcessInput,
    DrawFrame,
    ShutDown,
    Nothing,
}

/// The refresh rate of the nested backend in mHz.
pub const NESTED_REFRESH: i32 = 60_000;

/// What an event of the nested backend leads to.
pub open spec fn action_of(event: NestedEvent) -> NestedAction {
    match event {
        NestedEvent::Resized { width, height } => NestedAction::ChangeMode {
            width,
            height,
            refresh: NESTED_REFRESH,
        },
        NestedEvent::Input => NestedAction::ProcessInput,
        NestedEvent::Redraw => NestedAction::DrawFrame,
        NestedEvent::CloseRequested => NestedAction::ShutDown,
        NestedEvent::Other => NestedAction::Nothing,
    }
}

/// The output takes the size of the window and refreshes 60 times a second; each of the other events leads to its
/// own action, and the compositor shuts down only if its window is closed.
pub proof fn law_nested_events_lead_to_their_actions(event: NestedEvent)
    ensures
        event matches NestedEvent::Resized { width, height } ==> action_of(event) == (
        NestedAction::ChangeMode { width, height, refresh: 60_000 }),
        action_of(event) is ChangeMode <==> event is Resized,
        action_of(event) is ProcessInput <==> event is Input,
        action_of(event) is DrawFrame <==> event is Redraw,
        action_of(event) is ShutDown <==> event is CloseRequested,
        action_of(event) is Nothing <==> event is Other,
{
}

/// Decides what an event of the nested backend leads to.
pub fn nested_action(event: NestedEvent) -> (action: NestedAction)
    ensures
        action == action_of(event),
{
    match event {
        NestedEvent::Resized { width, height } => NestedAction::ChangeMode {
            width,
            height,
            refresh: NESTED_REFRESH,
        },
        NestedEvent::Input => NestedAction::ProcessInput,
        NestedEvent::Redraw => NestedAction::DrawFrame,
        NestedEvent::CloseRequested => NestedAction::ShutDown,
        NestedEvent::Other => NestedAction::Nothing,
    }
}

/// Whether a frame is drawn after the windows were looked through: some have gone or come.
pub fn redraws_after_refresh(windows_before: usize, windows_after: usize) -> (redraws: bool)
    ensures
        redraws == (windows_before != windows_after),
{
    windows_before != windows_after
}

/// The backend of a window runs nested in another compositor, and the other one on the terminal.
pub proof fn law_backends_run_in_their_loops()
    ensures
        ShojiWMBackend::WInit.entered_loop() == BackendLoop::Nested,
        ShojiWMBackend::TTY.entered_loop() == BackendLoop::Terminal,
{
}

} // verus!
