//! When an output of the terminal backend renders, and with which mode it runs.

use crate::config::DisplayModePreference;
use vstd::prelude::*;

verus! {

/// Whether a call to render an output did any work.
#[derive(Clone, Copy, Debug, PartialEq, Eq, Structural)]
pub enum RenderSurfaceOutcome {
    Skipped,
    Processed,
}

/// Where an output stands between two frames.
#[derive(Clone, Copy, Debug, PartialEq, Eq, Structural)]
pub enum TtyRedrawState {
    /// Nothing to do.
    Idle,
    /// The next call to render draws a frame.
    Queued,
    /// A frame was handed to the hardware, which will report its vertical blank.
    WaitingForVBlank { redraw_needed: bool },
    /// The frame had no damage; a timer stands in for the vertical blank.
    WaitingForEstimatedVBlank { queued: bool, generation: u64 },
}

/// The longest time span that can be measured, in nanoseconds.
pub const MAX_NANOS: u128 = 18446744073709551615999999999;

/// The frame scheduling of one output. Times are in nanoseconds.
#[derive(Clone, Copy, Debug, PartialEq, Eq, Structural)]
pub struct SurfaceData {
    pub frame_pending: bool,
    pub skipped_while_pending_count: u32,
    pub frame_callback_timer_armed: bool,
    pub frame_callback_timer_generation: u64,
    pub frame_callback_sequence: u32,
    pub redraw_state: TtyRedrawState,
    pub frame_duration: u128,
    pub next_frame_target: Option<u128>,
    pub last_presented_at: Option<u128>,
    pub last_frame_callback_at: Option<u128>,
}

/// A timer to start in place of a vertical blank.
#[derive(Clone, Copy, Debug, PartialEq, Eq, Structural)]
pub struct EstimatedVBlankTimer {
    /// The timer answers only as long as the output still waits for this generation.
    pub generation: u64,
    pub delay: u128,
}

/// What follows when an estimated vertical blank arrives.
#[derive(Clone, Copy, Debug, PartialEq, Eq, Structural)]
pub enum EstimatedVBlankAction {
    /// The output waits for something else by now.
    Ignore,
    /// A redraw was asked for in the meantime.
    ScheduleRedraw,
    /// Clients get their frame callbacks, with this sequence number and time.
    SendFrameCallbacks { sequence: u32, callback_time: u128 },
}

/// The sum of two times, cut off at the longest time span.
pub open spec fn saturated_sum(a: u128, b: u128) -> u128 {
    if a + b > MAX_NANOS {
        MAX_NANOS
    } else {
        (a + b) as u128
    }
}

/// A counter one step on; the largest value is followed by zero.
pub open spec fn next_u32(n: u32) -> u32 {
    if n == u32::MAX {
        0
    } else {
        (n + 1) as u32
    }
}

/// A counter one step on; the largest value is followed by zero.
pub open spec fn next_u64(n: u64) -> u64 {
    if n == u64::MAX {
        0
    } else {
        (n + 1) as u64
    }
}

/// The state after a redraw was asked for.
pub open spec fn with_redraw(state: TtyRedrawState) -> TtyRedrawState {
    match state {
        TtyRedrawState::Idle => TtyRedrawState::Queued,
        TtyRedrawState::Queued => TtyRedrawState::Queued,
        TtyRedrawState::WaitingForVBlank { .. } => TtyRedrawState::WaitingForVBlank {
            redraw_needed: true,
        },
        TtyRedrawState::WaitingForEstimatedVBlank { generation, .. } => {
            TtyRedrawState::WaitingForEstimatedVBlank { queued: true, generation }
        },
    }
}

/// A redraw was asked for and has not been drawn.
pub open spec fn redraw_pending(state: TtyRedrawState) -> bool {
    match state {
        TtyRedrawState::Idle => false,
        TtyRedrawState::Queued => true,
        TtyRedrawState::WaitingForVBlank { redraw_needed } => redraw_needed,
        TtyRedrawState::WaitingForEstimatedVBlank { queued, .. } => queued,
    }
}

impl SurfaceData {
    /// An armed timer belongs to the generation that the output waits for, and no wait is for
    /// any other generation than the current one.
    pub open spec fn timer_in_step(self) -> bool {
        &&& self.frame_callback_timer_armed ==> self.redraw_state is WaitingForEstimatedVBlank
        &&& self.redraw_state matches TtyRedrawState::WaitingForEstimatedVBlank {
            generation,
            ..
        } ==> generation == self.frame_callback_timer_generation
    }

    /// The output after a redraw was asked for.
    pub open spec fn after_queue_redraw(self) -> SurfaceData {
        SurfaceData { redraw_state: with_redraw(self.redraw_state), ..self }
    }

    /// The output after a frame with damage was handed to the hardware.
    pub open spec fn after_frame_queued(self) -> SurfaceData {
        SurfaceData {
            frame_pending: true,
            skipped_while_pending_count: 0,
            frame_callback_timer_armed: false,
            frame_callback_timer_generation: next_u64(self.frame_callback_timer_generation),
            frame_callback_sequence: next_u32(self.frame_callback_sequence),
            redraw_state: TtyRedrawState::WaitingForVBlank { redraw_needed: true },
            ..self
        }
    }

    /// The output after a frame without damage.
    pub open spec fn after_frame_empty(self) -> SurfaceData {
        SurfaceData {
            frame_callback_timer_generation: next_u64(self.frame_callback_timer_generation),
            redraw_state: TtyRedrawState::WaitingForEstimatedVBlank {
                queued: false,
                generation: next_u64(self.frame_callback_timer_generation),
            },
            ..self
        }
    }

    /// The output waits for the timer of this generation.
    pub open spec fn awaits_timer(self, generation: u64) -> bool {
        self.frame_callback_timer_armed && (self.redraw_state matches
            TtyRedrawState::WaitingForEstimatedVBlank { generation: current, .. } && current
            == generation)
    }

    /// The output after the timer of a generation ran out.
    pub open spec fn after_estimated_vblank(self, generation: u64) -> SurfaceData {
        if self.awaits_timer(generation) {
            SurfaceData {
                frame_callback_timer_armed: false,
                frame_callback_sequence: next_u32(self.frame_callback_sequence),
                redraw_state: if redraw_pending(self.redraw_state) {
                    TtyRedrawState::Queued
                } else {
                    TtyRedrawState::Idle
                },
                ..self
            }
        } else {
            self
        }
    }

    /// The hardware's vertical blank leads to another frame.
    pub open spec fn redraws_after_vblank(self) -> bool {
        self.redraw_state is WaitingForVBlank && redraw_pending(self.redraw_state)
    }

    /// The output after the hardware has shown a frame.
    pub open spec fn after_frame_finish(self, presentation_clock: u128) -> SurfaceData {
        SurfaceData {
            frame_pending: false,
            skipped_while_pending_count: 0,
            redraw_state: if self.redraws_after_vblank() {
                TtyRedrawState::Queued
            } else {
                TtyRedrawState::Idle
            },
            next_frame_target: Some((presentation_clock + self.frame_duration) as u128),
            last_presented_at: Some(presentation_clock),
            ..self
        }
    }

    /// An output that was just connected.
    pub open spec fn at_first(frame_duration: u128) -> SurfaceData {
        SurfaceData {
            frame_pending: false,
            skipped_while_pending_count: 0,
            frame_callback_timer_armed: false,
            frame_callback_timer_generation: 0,
            frame_callback_sequence: 0,
            redraw_state: TtyRedrawState::Queued,
            frame_duration,
            next_frame_target: None,
            last_presented_at: None,
            last_frame_callback_at: None,
        }
    }

    /// What comes of a call to render.
    pub open spec fn outcome_of_render(self) -> RenderSurfaceOutcome {
        if self.redraw_state == TtyRedrawState::Queued {
            RenderSurfaceOutcome::Processed
        } else {
            RenderSurfaceOutcome::Skipped
        }
    }

    /// The output after a call to render that drew nothing.
    pub open spec fn after_skipped_render(self) -> SurfaceData {
        SurfaceData {
            skipped_while_pending_count: if self.frame_pending && self.skipped_while_pending_count
                < u32::MAX {
                (self.skipped_while_pending_count + 1) as u32
            } else {
                self.skipped_while_pending_count
            },
            ..self
        }
    }

    /// The time at which the next frame will be shown.
    pub open spec fn target_of(self, now: u128) -> u128 {
        match self.next_frame_target {
            Some(target) => target,
            None => (now + self.frame_duration) as u128,
        }
    }

    /// The output after the target of its next frame was taken.
    pub open spec fn after_time_taken(self, frame_time: u128) -> SurfaceData {
        SurfaceData {
            next_frame_target: None,
            last_frame_callback_at: Some(frame_time),
            ..self
        }
    }

    /// A timer can be armed: the output waits for one, and none runs.
    pub open spec fn lacks_timer(self) -> bool {
        self.redraw_state is WaitingForEstimatedVBlank && !self.frame_callback_timer_armed
    }

    /// The output with its timer armed or not.
    pub open spec fn with_timer(self, armed: bool) -> SurfaceData {
        SurfaceData { frame_callback_timer_armed: armed, ..self }
    }

    /// What follows when the timer of a generation has run out.
    pub open spec fn action_of_timer(self, timer: EstimatedVBlankTimer, frame_time: u128) -> EstimatedVBlankAction {
        if !self.awaits_timer(timer.generation) {
            EstimatedVBlankAction::Ignore
        } else if redraw_pending(self.redraw_state) {
            EstimatedVBlankAction::ScheduleRedraw
        } else {
            EstimatedVBlankAction::SendFrameCallbacks {
                sequence: next_u32(self.frame_callback_sequence),
                callback_time: saturated_sum(frame_time, timer.delay),
            }
        }
    }

    /// The output after it was given another mode.
    pub open spec fn after_mode_applied(self, frame_duration: u128) -> SurfaceData {
        SurfaceData { frame_duration, redraw_state: TtyRedrawState::Queued, ..self }
    }

    /// An output that was just connected: its first frame is queued.
    pub fn connected(frame_duration: u128) -> (surface: SurfaceData)
        ensures
            surface == SurfaceData::at_first(frame_duration),
            surface.timer_in_step(),
    {
        SurfaceData {
            frame_pending: false,
            skipped_while_pending_count: 0,
            frame_callback_timer_armed: false,
            frame_callback_timer_generation: 0,
            frame_callback_sequence: 0,
            redraw_state: TtyRedrawState::Queued,
            frame_duration,
            next_frame_target: None,
            last_presented_at: None,
            last_frame_callback_at: None,
        }
    }

    /// Asks for a redraw.
    pub fn queue_redraw(&mut self)
        ensures
            *final(self) == old(self).after_queue_redraw(),
    {
        self.redraw_state =
        match self.redraw_state {
            TtyRedrawState::Idle => TtyRedrawState::Queued,
            TtyRedrawState::Queued => TtyRedrawState::Queued,
            TtyRedrawState::WaitingForVBlank { .. } => TtyRedrawState::WaitingForVBlank {
                redraw_needed: true,
            },
            TtyRedrawState::WaitingForEstimatedVBlank { generation, .. } => {
                TtyRedrawState::WaitingForEstimatedVBlank { queued: true, generation }
            },
        };
    }

    /// Decides whether this call to render draws a frame. Only a queued output draws; another
    /// one counts the call while a frame is in flight.
    pub fn begin_render(&mut self) -> (outcome: RenderSurfaceOutcome)
        ensures
            outcome == old(self).outcome_of_render(),
            outcome == RenderSurfaceOutcome::Processed ==> *final(self) == *old(self),
            outcome == RenderSurfaceOutcome::Skipped ==> *final(self)
                == old(self).after_skipped_render(),
            old(self).timer_in_step() ==> final(self).timer_in_step(),
    {
        if self.redraw_state != TtyRedrawState::Queued {
            if self.frame_pending {
                self.skipped_while_pending_count = self.skipped_while_pending_count.saturating_add(1);
            }
            return RenderSurfaceOutcome::Skipped;
        }
        RenderSurfaceOutcome::Processed
    }

    /// The time at which the next frame will be shown: the target that the last vertical blank
    /// set, or one frame from `now`.
    pub fn frame_target(&self, now: u128) -> (target: u128)
        requires
            now + self.frame_duration <= MAX_NANOS,
        ensures
            target == self.target_of(now),
    {
        match self.next_frame_target {
            Some(target) => target,
            None => now + self.frame_duration,
        }
    }

    /// Takes the target of the frame that is about to be drawn.
    pub fn take_frame_time(&mut self, now: u128) -> (frame_time: u128)
        requires
            now + old(self).frame_duration <= MAX_NANOS,
        ensures
            frame_time == old(self).target_of(now),
            *final(self) == old(self).after_time_taken(frame_time),
            old(self).timer_in_step() ==> final(self).timer_in_step(),
    {
        let frame_time: u128 = self.frame_target(now);
        self.next_frame_target = None;
        self.last_frame_callback_at = Some(frame_time);
        frame_time
    }

    /// A frame with damage was handed to the hardware. Returns the sequence number for the frame
    /// callbacks.
    pub fn frame_queued(&mut self) -> (sequence: u32)
        ensures
            *final(self) == old(self).after_frame_queued(),
            sequence == final(self).frame_callback_sequence,
    {
        self.frame_pending = true;
        self.skipped_while_pending_count = 0;
        self.frame_callback_timer_armed = false;
        self.frame_callback_timer_generation = self.frame_callback_timer_generation.wrapping_add(1);
        self.frame_callback_sequence = self.frame_callback_sequence.wrapping_add(1);
        self.redraw_state = TtyRedrawState::WaitingForVBlank { redraw_needed: true };
        self.frame_callback_sequence
    }

    /// The frame had no damage, so no vertical blank will come of it.
    pub fn frame_empty(&mut self)
        ensures
            *final(self) == old(self).after_frame_empty(),
    {
        let generation: u64 = self.frame_callback_timer_generation.wrapping_add(1);
        self.frame_callback_timer_generation = generation;
        self.redraw_state =
        TtyRedrawState::WaitingForEstimatedVBlank { queued: false, generation };
    }

    /// Arms the timer that stands in for a vertical blank, unless one is armed or none is waited
    /// for.
    pub fn arm_estimated_vblank(&mut self) -> (timer: Option<EstimatedVBlankTimer>)
        ensures
            match (old(self).redraw_state, old(self).frame_callback_timer_armed) {
                (TtyRedrawState::WaitingForEstimatedVBlank { generation, .. }, false) => {
                    &&& timer == Some(
                        EstimatedVBlankTimer { generation, delay: old(self).frame_duration },
                    )
                    &&& *final(self) == old(self).with_timer(true)
                },
                _ => timer is None && *final(self) == *old(self),
            },
            match timer {
                Some(timer) => {
                    &&& old(self).lacks_timer()
                    &&& timer.delay == old(self).frame_duration
                    &&& *final(self) == old(self).with_timer(true)
                    &&& final(self).awaits_timer(timer.generation)
                },
                None => !old(self).lacks_timer() && *final(self) == *old(self),
            },
            old(self).timer_in_step() ==> final(self).timer_in_step(),
    {
        let generation: u64 = match self.redraw_state {
            TtyRedrawState::WaitingForEstimatedVBlank { generation, .. } => generation,
            _ => return None,
        };
        if self.frame_callback_timer_armed {
            return None;
        }
        self.frame_callback_timer_armed = true;
        Some(EstimatedVBlankTimer { generation, delay: self.frame_duration })
    }

    /// The timer could not be started.
    pub fn disarm_estimated_vblank(&mut self)
        ensures
            *final(self) == old(self).with_timer(false),
            old(self).timer_in_step() ==> final(self).timer_in_step(),
    {
        self.frame_callback_timer_armed = false;
    }

    /// The timer of a generation has run out. `frame_time` is the time of the frame that was
    /// waited for.
    pub fn estimated_vblank(&mut self, timer: EstimatedVBlankTimer, frame_time: u128) -> (action:
        EstimatedVBlankAction)
        requires
            frame_time <= MAX_NANOS,
            timer.delay <= MAX_NANOS,
        ensures
            *final(self) == old(self).after_estimated_vblank(timer.generation),
            action == old(self).action_of_timer(timer, frame_time),
            action matches EstimatedVBlankAction::SendFrameCallbacks { sequence, .. } ==> sequence
                == final(self).frame_callback_sequence,
    {
        match self.redraw_state {
            TtyRedrawState::WaitingForEstimatedVBlank { queued, generation } => {
                if !(self.frame_callback_timer_armed && generation == timer.generation) {
                    return EstimatedVBlankAction::Ignore;
                }
                self.frame_callback_timer_armed = false;
                self.frame_callback_sequence = self.frame_callback_sequence.wrapping_add(1);
                let sequence: u32 = self.frame_callback_sequence;
                if queued {
                    self.redraw_state = TtyRedrawState::Queued;
                    EstimatedVBlankAction::ScheduleRedraw
                } else {
                    self.redraw_state = TtyRedrawState::Idle;
                    let sum: u128 = frame_time + timer.delay;
                    let callback_time: u128 = if sum > MAX_NANOS {
                        MAX_NANOS
                    } else {
                        sum
                    };
                    EstimatedVBlankAction::SendFrameCallbacks { sequence, callback_time }
                }
            },
            _ => EstimatedVBlankAction::Ignore,
        }
    }

    /// The hardware has shown a frame at `presentation_clock`. Tells whether a redraw has to be
    /// scheduled.
    pub fn frame_finish(&mut self, presentation_clock: u128) -> (redraw_needed: bool)
        requires
            presentation_clock + old(self).frame_duration <= MAX_NANOS,
        ensures
            redraw_needed == old(self).redraws_after_vblank(),
            *final(self) == old(self).after_frame_finish(presentation_clock),
    {
        self.next_frame_target = Some(presentation_clock + self.frame_duration);
        self.last_presented_at = Some(presentation_clock);
        self.frame_pending = false;
        self.skipped_while_pending_count = 0;
        let redraw_needed: bool = match self.redraw_state {
            TtyRedrawState::WaitingForVBlank { redraw_needed } => redraw_needed,
            _ => false,
        };
        self.redraw_state =
        if redraw_needed {
            TtyRedrawState::Queued
        } else {
            TtyRedrawState::Idle
        };
        redraw_needed
    }

    /// The output runs with another mode from now on.
    pub fn mode_applied(&mut self, frame_duration: u128)
        ensures
            *final(self) == old(self).after_mode_applied(frame_duration),
            !old(self).frame_callback_timer_armed ==> final(self).timer_in_step(),
    {
        self.frame_duration = frame_duration;
        self.redraw_state = TtyRedrawState::Queued;
    }
}

/// The time at which a frame was shown.
pub open spec fn shown_at(hardware_monotonic: Option<u128>, now: u128) -> u128 {
    match hardware_monotonic {
        Some(time) => time,
        None => now,
    }
}

/// The time of the hardware counts wherever there is one.
pub proof fn law_hardware_time_counts(time: u128, now: u128)
    ensures
        shown_at(Some(time), now) == time,
        shown_at(None, now) == now,
{
}

/// The time at which a frame was shown: the one that the hardware took by the monotonic clock, or
/// else the present.
pub fn presentation_clock(hardware_monotonic: Option<u128>, now: u128) -> (clock: u128)
    ensures
        clock == shown_at(hardware_monotonic, now),
{
    match hardware_monotonic {
        Some(time) => time,
        None => now,
    }
}

/// What a client is told of how a frame was shown.
#[derive(Clone, Copy, Debug, PartialEq, Eq, Structural)]
pub struct PresentationFlags {
    pub vsync: bool,
    pub hw_clock: bool,
    pub hw_completion: bool,
}

/// What clients are told of a frame.
pub open spec fn flags_of(hardware_monotonic: bool) -> PresentationFlags {
    PresentationFlags {
        vsync: true,
        hw_clock: hardware_monotonic,
        hw_completion: hardware_monotonic,
    }
}

/// Every frame is shown at a vertical blank, and the time is told to be the hardware's exactly if it is.
pub proof fn law_flags_tell_the_clock(hardware_monotonic: bool)
    ensures
        flags_of(hardware_monotonic).vsync,
        flags_of(hardware_monotonic).hw_clock == hardware_monotonic,
        flags_of(hardware_monotonic).hw_completion == hardware_monotonic,
{
}

/// What clients are told of a frame: that it was shown at a vertical blank, and, where the hardware
/// took the time by the monotonic clock, that the time is the hardware's.
pub fn presentation_flags(hardware_monotonic: bool) -> (flags: PresentationFlags)
    ensures
        flags == flags_of(hardware_monotonic),
{
    PresentationFlags {
        vsync: true,
        hw_clock: hardware_monotonic,
        hw_completion: hardware_monotonic,
    }
}

/// Asks every output for a redraw.
pub fn queue_tty_redraws(surfaces: &mut Vec<SurfaceData>)
    ensures
        final(surfaces)@.len() == old(surfaces)@.len(),
        forall|i: int|
            0 <= i < old(surfaces)@.len() ==> #[trigger] final(surfaces)@[i] == old(surfaces)@[i].after_queue_redraw(),
{
    let mut i: usize = 0;
    let ghost before = surfaces@;
    while i < surfaces.len()
        invariant
            i <= surfaces@.len() == before.len(),
            forall|k: int|
                0 <= k < i ==> #[trigger] surfaces@[k] == before[k].after_queue_redraw(),
            forall|k: int| i <= k < before.len() ==> #[trigger] surfaces@[k] == before[k],
        decreases surfaces@.len() - i,
    {
        let mut surface = surfaces[i];
        surface.queue_redraw();
        surfaces.set(i, surface);
        i += 1;
    }
}

/// Asking for a redraw makes it pending, whatever the output was doing, and asking twice is asking
/// once.
pub proof fn law_asked_redraw_is_pending(surface: SurfaceData)
    ensures
        redraw_pending(surface.after_queue_redraw().redraw_state),
        surface.after_queue_redraw().after_queue_redraw() == surface.after_queue_redraw(),
{
}

/// A redraw that was asked for while the hardware shows a frame is queued at the vertical blank.
pub proof fn law_redraw_survives_vblank(surface: SurfaceData, presentation_clock: u128)
    requires
        surface.redraw_state is WaitingForVBlank,
    ensures
        surface.after_queue_redraw().redraws_after_vblank(),
        surface.after_queue_redraw().after_frame_finish(presentation_clock).redraw_state
            == TtyRedrawState::Queued,
{
}

/// A redraw that was asked for while a timer runs is queued when the timer runs out.
pub proof fn law_redraw_survives_estimated_vblank(surface: SurfaceData, generation: u64)
    requires
        surface.awaits_timer(generation),
    ensures
        surface.after_queue_redraw().awaits_timer(generation),
        surface.after_queue_redraw().after_estimated_vblank(generation).redraw_state
            == TtyRedrawState::Queued,
{
}

/// A timer that the output does not wait for changes nothing, and a timer acts at most once.
pub proof fn law_stale_timer_changes_nothing(surface: SurfaceData, generation: u64)
    ensures
        !surface.awaits_timer(generation) ==> surface.after_estimated_vblank(generation) == surface,
        !surface.after_estimated_vblank(generation).awaits_timer(generation),
{
}

/// A frame that was handed to the hardware makes every running timer stale.
pub proof fn law_queued_frame_cancels_timers(surface: SurfaceData, generation: u64)
    ensures
        !surface.after_frame_queued().awaits_timer(generation),
{
}

/// The timer stays in step with the state: through redraw requests, through frames with and
/// without damage, through timers, and through vertical blanks of frames that are waited for.
pub proof fn law_timer_stays_in_step(
    surface: SurfaceData,
    generation: u64,
    presentation_clock: u128,
)
    requires
        surface.timer_in_step(),
    ensures
        surface.after_queue_redraw().timer_in_step(),
        surface.after_frame_queued().timer_in_step(),
        surface.after_frame_empty().timer_in_step(),
        surface.after_estimated_vblank(generation).timer_in_step(),
        surface.redraw_state is WaitingForVBlank ==> surface.after_frame_finish(
            presentation_clock,
        ).timer_in_step(),
{
}

/// A queued output whose timer is in step never stalls after a frame without damage: a timer can
/// be armed, and when it runs out the wait is over.
pub proof fn law_empty_frame_does_not_stall(surface: SurfaceData)
    requires
        surface.timer_in_step(),
        surface.redraw_state == TtyRedrawState::Queued,
    ensures
        !surface.after_frame_empty().frame_callback_timer_armed,
        ({
            let waiting = surface.after_frame_empty();
            let armed = SurfaceData { frame_callback_timer_armed: true, ..waiting };
            let generation = waiting.frame_callback_timer_generation;
            armed.awaits_timer(generation) && armed.after_estimated_vblank(generation).redraw_state
                == TtyRedrawState::Idle
        }),
{
}

/// The outputs whose frames were processed in one round, by name.
pub open spec fn processed_names(names: Seq<String>, outcomes: Seq<RenderSurfaceOutcome>) -> Seq<
    Seq<char>,
>
    decreases outcomes.len(),
{
    if outcomes.len() == 0 {
        Seq::empty()
    } else {
        let head = processed_names(names, outcomes.drop_last());
        if outcomes.last() == RenderSurfaceOutcome::Processed {
            head.push(names[outcomes.len() - 1]@)
        } else {
            head
        }
    }
}

/// Collects the outputs that drew a frame. The damage that was collected for the round is spent
/// when there is one.
pub fn processed_outputs(names: &Vec<String>, outcomes: &Vec<RenderSurfaceOutcome>) -> (processed:
    Vec<String>)
    requires
        names@.len() == outcomes@.len(),
    ensures
        crate::seqs::texts(processed@) == processed_names(names@, outcomes@),
{
    let mut processed: Vec<String> = Vec::new();
    let mut i: usize = 0;
    while i < outcomes.len()
        invariant
            i <= outcomes@.len() == names@.len(),
            crate::seqs::texts(processed@) == processed_names(names@, outcomes@.take(i as int)),
        decreases outcomes@.len() - i,
    {
        assert(outcomes@.take(i + 1).drop_last() == outcomes@.take(i as int));
        if outcomes[i] == RenderSurfaceOutcome::Processed {
            let ghost before = processed@;
            processed.push(names[i].clone());
            assert(crate::seqs::texts(processed@) =~= crate::seqs::texts(before).push(names@[i as int]@));
        }
        i += 1;
    }
    assert(outcomes@.take(i as int) == outcomes@);
    processed
}

/// A mode that an output offers.
#[derive(Clone, Copy, Debug, PartialEq, Eq, Structural)]
pub struct OutputMode {
    pub width: u16,
    pub height: u16,
    /// The nominal refresh rate in Hz.
    pub vrefresh: u32,
    /// The exact refresh rate in mHz.
    pub refresh: i32,
}

impl OutputMode {
    pub open spec fn pixels(self) -> int {
        self.width * self.height
    }
}

/// `a` refreshes no faster than `b`.
pub open spec fn refresh_at_most(a: OutputMode, b: OutputMode) -> bool {
    a.vrefresh < b.vrefresh || (a.vrefresh == b.vrefresh && a.refresh <= b.refresh)
}

/// `a` has fewer pixels than `b`, or as many and refreshes no faster.
pub open spec fn mode_at_most(a: OutputMode, b: OutputMode) -> bool {
    a.pixels() < b.pixels() || (a.pixels() == b.pixels() && refresh_at_most(a, b))
}

pub open spec fn has_size(mode: OutputMode, width: u16, height: u16) -> bool {
    mode.width == width && mode.height == height
}

/// How far the exact refresh rate lies from the one that was asked for.
pub open spec fn refresh_distance(mode: OutputMode, refresh_mhz: i32) -> int {
    if mode.refresh >= refresh_mhz {
        mode.refresh - refresh_mhz
    } else {
        refresh_mhz - mode.refresh
    }
}

/// Some mode has the size.
pub open spec fn size_offered(modes: Seq<OutputMode>, width: u16, height: u16) -> bool {
    exists|i: int| 0 <= i < modes.len() && has_size(#[trigger] modes[i], width, height)
}

/// The last of the best modes.
pub open spec fn is_auto_choice(modes: Seq<OutputMode>, index: int) -> bool {
    &&& 0 <= index < modes.len()
    &&& forall|i: int| 0 <= i < modes.len() ==> mode_at_most(#[trigger] modes[i], modes[index])
    &&& forall|i: int|
        index < i < modes.len() ==> !mode_at_most(modes[index], #[trigger] modes[i])
}

/// The last of the fastest modes of the size.
pub open spec fn is_fastest_choice(
    modes: Seq<OutputMode>,
    width: u16,
    height: u16,
    index: int,
) -> bool {
    &&& 0 <= index < modes.len()
    &&& has_size(modes[index], width, height)
    &&& forall|i: int|
        0 <= i < modes.len() && has_size(#[trigger] modes[i], width, height) ==> refresh_at_most(
            modes[i],
            modes[index],
        )
    &&& forall|i: int|
        index < i < modes.len() && has_size(#[trigger] modes[i], width, height)
            ==> !refresh_at_most(modes[index], modes[i])
}

/// The first of the modes of the size whose refresh rate lies closest.
pub open spec fn is_closest_choice(
    modes: Seq<OutputMode>,
    width: u16,
    height: u16,
    refresh_mhz: i32,
    index: int,
) -> bool {
    &&& 0 <= index < modes.len()
    &&& has_size(modes[index], width, height)
    &&& forall|i: int|
        0 <= i < modes.len() && has_size(#[trigger] modes[i], width, height) ==> refresh_distance(
            modes[index],
            refresh_mhz,
        ) <= refresh_distance(modes[i], refresh_mhz)
    &&& forall|i: int|
        0 <= i < index && has_size(#[trigger] modes[i], width, height) ==> refresh_distance(
            modes[index],
            refresh_mhz,
        ) < refresh_distance(modes[i], refresh_mhz)
}

/// The mode that the preference selects.
pub open spec fn is_selected_mode(
    modes: Seq<OutputMode>,
    preference: DisplayModePreference,
    index: int,
) -> bool {
    match preference {
        DisplayModePreference::Auto => is_auto_choice(modes, index),
        DisplayModePreference::Exact { width, height, refresh_mhz } => if !size_offered(
            modes,
            width,
            height,
        ) {
            is_auto_choice(modes, index)
        } else {
            match refresh_mhz {
                Some(refresh_mhz) => is_closest_choice(modes, width, height, refresh_mhz, index),
                None => is_fastest_choice(modes, width, height, index),
            }
        },
    }
}

/// A preference never selects two different modes of a list.
pub proof fn law_selected_mode_is_unique(
    modes: Seq<OutputMode>,
    preference: DisplayModePreference,
    i: int,
    j: int,
)
    requires
        is_selected_mode(modes, preference, i),
        is_selected_mode(modes, preference, j),
    ensures
        i == j,
{
    let (a, b) = (modes[i], modes[j]);
    assert(i < j || j < i || i == j);
}

/// A size that the output offers is never passed over.
pub proof fn law_offered_size_is_selected(
    modes: Seq<OutputMode>,
    width: u16,
    height: u16,
    refresh_mhz: Option<i32>,
    index: int,
)
    requires
        size_offered(modes, width, height),
        is_selected_mode(
            modes,
            DisplayModePreference::Exact { width, height, refresh_mhz },
            index,
        ),
    ensures
        has_size(modes[index], width, height),
{
}

fn pixel_count(mode: OutputMode) -> (pixels: u32)
    ensures
        pixels == mode.pixels(),
{
    assert(mode.width * mode.height <= 65535 * 65535) by (nonlinear_arith)
        requires
            mode.width <= 65535,
            mode.height <= 65535,
    ;
    mode.width as u32 * mode.height as u32
}

fn refreshes_at_most(a: OutputMode, b: OutputMode) -> (le: bool)
    ensures
        le == refresh_at_most(a, b),
{
    a.vrefresh < b.vrefresh || (a.vrefresh == b.vrefresh && a.refresh <= b.refresh)
}

fn distance_to(mode: OutputMode, refresh_mhz: i32) -> (distance: i64)
    ensures
        distance == refresh_distance(mode, refresh_mhz),
{
    let difference: i64 = mode.refresh as i64 - refresh_mhz as i64;
    if difference >= 0 {
        difference
    } else {
        -difference
    }
}

fn select_auto_mode(modes: &Vec<OutputMode>) -> (index: usize)
    requires
        modes@.len() > 0,
    ensures
        is_auto_choice(modes@, index as int),
{
    let mut best: usize = 0;
    let mut i: usize = 1;
    while i < modes.len()
        invariant
            1 <= i <= modes@.len(),
            best < i,
            is_auto_choice(modes@.take(i as int), best as int),
        decreases modes@.len() - i,
    {
        let ghost seen = modes@.take(i as int);
        let ghost now = modes@.take(i + 1);
        assert forall|k: int| 0 <= k < seen.len() implies seen[k] == #[trigger] now[k] by {}
        assert(now[i as int] == modes@[i as int]);
        let candidate = modes[i];
        let pixels: u32 = pixel_count(candidate);
        let most: u32 = pixel_count(modes[best]);
        if most < pixels || (most == pixels && refreshes_at_most(modes[best], candidate)) {
            best = i;
        }
        i += 1;
    }
    assert(modes@.take(i as int) == modes@);
    best
}

/// The index of the mode with which an output is to run. An exact size that is not offered falls
/// back to the best mode.
pub fn select_output_mode(modes: &Vec<OutputMode>, preference: &DisplayModePreference) -> (index:
    usize)
    requires
        modes@.len() > 0,
    ensures
        is_selected_mode(modes@, *preference, index as int),
{
    match *preference {
        DisplayModePreference::Auto => select_auto_mode(modes),
        DisplayModePreference::Exact { width, height, refresh_mhz } => {
            let mut best: Option<usize> = None;
            let mut i: usize = 0;
            while i < modes.len()
                invariant
                    i <= modes@.len(),
                    match best {
                        None => !size_offered(modes@.take(i as int), width, height),
                        Some(b) => b < i && match refresh_mhz {
                            Some(mhz) => is_closest_choice(
                                modes@.take(i as int),
                                width,
                                height,
                                mhz,
                                b as int,
                            ),
                            None => is_fastest_choice(
                                modes@.take(i as int),
                                width,
                                height,
                                b as int,
                            ),
                        },
                    },
                decreases modes@.len() - i,
            {
                let ghost seen = modes@.take(i as int);
                let ghost now = modes@.take(i + 1);
                assert forall|k: int| 0 <= k < seen.len() implies seen[k] == #[trigger] now[k] by {}
                assert(now[i as int] == modes@[i as int]);
                let candidate = modes[i];
                if candidate.width == width && candidate.height == height {
                    let better: bool = match best {
                        None => true,
                        Some(b) => match refresh_mhz {
                            Some(mhz) => distance_to(candidate, mhz) < distance_to(modes[b], mhz),
                            None => refreshes_at_most(modes[b], candidate),
                        },
                    };
                    if better {
                        best = Some(i);
                    }
                }
                i += 1;
            }
            assert(modes@.take(i as int) == modes@);
            match best {
                Some(b) => {
                    assert(has_size(modes@[b as int], width, height));
                    b
                },
                None => select_auto_mode(modes),
            }
        },
    }
}

/// `index` is the first mode of the size and exact refresh rate.
pub open spec fn is_requested_mode(
    modes: Seq<OutputMode>,
    width: int,
    height: int,
    refresh: i32,
    index: int,
) -> bool {
    &&& 0 <= index < modes.len()
    &&& modes[index].width == width && modes[index].height == height && modes[index].refresh
        == refresh
    &&& forall|i: int|
        0 <= i < index ==> !((#[trigger] modes[i]).width == width && modes[i].height == height
            && modes[i].refresh == refresh)
}

/// Finds the mode of an output that has this size and refresh rate.
pub fn find_requested_mode(modes: &Vec<OutputMode>, width: i32, height: i32, refresh: i32) -> (found:
    Option<usize>)
    ensures
        match found {
            Some(index) => is_requested_mode(
                modes@,
                width as int,
                height as int,
                refresh,
                index as int,
            ),
            None => forall|i: int|
                0 <= i < modes@.len() ==> !((#[trigger] modes@[i]).width == width
                    && modes@[i].height == height && modes@[i].refresh == refresh),
        },
{
    let mut i: usize = 0;
    while i < modes.len()
        invariant
            i <= modes@.len(),
            forall|k: int|
                0 <= k < i ==> !((#[trigger] modes@[k]).width == width && modes@[k].height
                    == height && modes@[k].refresh == refresh),
        decreases modes@.len() - i,
    {
        let mode = modes[i];
        if mode.width as i32 == width && mode.height as i32 == height && mode.refresh == refresh {
            return Some(i);
        }
        i += 1;
    }
    None
}

// ---- how frames follow each other -----------------------------------------------------------------

/// An output that was just connected draws its first frame at once, and neither a frame nor a timer is under
/// way.
pub proof fn law_connected_output_draws(frame_duration: u128)
    ensures
        SurfaceData::at_first(frame_duration).redraw_state == TtyRedrawState::Queued,
        !SurfaceData::at_first(frame_duration).frame_pending,
        !SurfaceData::at_first(frame_duration).frame_callback_timer_armed,
        SurfaceData::at_first(frame_duration).frame_duration == frame_duration,
        SurfaceData::at_first(frame_duration).next_frame_target is None,
{
}

/// A redraw is pending where one was asked for and not drawn since: not of itself, and from the asking on.
pub proof fn law_redraws_are_pending_when_asked(generation: u64, needed: bool)
    ensures
        !redraw_pending(TtyRedrawState::Idle),
        redraw_pending(TtyRedrawState::Queued),
        redraw_pending(TtyRedrawState::WaitingForVBlank { redraw_needed: needed }) == needed,
        redraw_pending(
            TtyRedrawState::WaitingForEstimatedVBlank { queued: needed, generation },
        ) == needed,
{
}

/// Asking for a redraw of an idle output queues it; an output that waits goes on waiting for the same. Nothing
/// else of the output changes.
pub proof fn law_asking_keeps_waiting(surface: SurfaceData, generation: u64)
    ensures
        surface.redraw_state == TtyRedrawState::Idle ==> surface.after_queue_redraw().redraw_state
            == TtyRedrawState::Queued,
        surface.redraw_state is WaitingForVBlank
            <==> surface.after_queue_redraw().redraw_state is WaitingForVBlank,
        surface.awaits_timer(generation) <==> surface.after_queue_redraw().awaits_timer(generation),
        surface.after_queue_redraw().frame_pending == surface.frame_pending,
        surface.after_queue_redraw().frame_callback_sequence == surface.frame_callback_sequence,
        surface.after_queue_redraw().next_frame_target == surface.next_frame_target,
        surface.after_queue_redraw().frame_duration == surface.frame_duration,
{
}

/// A frame that was handed to the hardware is pending until the vertical blank. That gives the time at which it
/// was shown, sets the target of the next frame one frame later, and queues that frame.
pub proof fn law_shown_frame_is_followed_by_the_next(surface: SurfaceData, presentation_clock: u128)
    requires
        presentation_clock + surface.frame_duration <= MAX_NANOS,
    ensures
        ({
            let queued = surface.after_frame_queued();
            let shown = queued.after_frame_finish(presentation_clock);
            &&& queued.frame_pending
            &&& queued.redraw_state is WaitingForVBlank
            &&& queued.skipped_while_pending_count == 0
            &&& !shown.frame_pending
            &&& shown.skipped_while_pending_count == 0
            &&& shown.last_presented_at == Some(presentation_clock)
            &&& shown.next_frame_target matches Some(target) && target - presentation_clock
                == surface.frame_duration
            &&& shown.target_of(presentation_clock) == presentation_clock + surface.frame_duration
            &&& queued.redraws_after_vblank()
            &&& shown.redraw_state == TtyRedrawState::Queued
            &&& shown.frame_duration == surface.frame_duration
        }),
{
}

/// Clients get callbacks with a number that is one on with each frame, be it shown or not, and begins again
/// behind the largest.
pub proof fn law_callbacks_are_numbered(surface: SurfaceData, generation: u64)
    ensures
        surface.frame_callback_sequence < u32::MAX
            ==> surface.after_frame_queued().frame_callback_sequence
            == surface.frame_callback_sequence + 1,
        surface.frame_callback_sequence == u32::MAX
            ==> surface.after_frame_queued().frame_callback_sequence == 0,
        surface.awaits_timer(generation) ==> surface.after_estimated_vblank(
            generation,
        ).frame_callback_sequence == surface.after_frame_queued().frame_callback_sequence,
        surface.after_frame_empty().frame_callback_sequence == surface.frame_callback_sequence,
{
}

/// A vertical blank for which no redraw waits leaves the output idle, and one that nobody waits for too.
pub proof fn law_vblank_without_redraw_idles(surface: SurfaceData, presentation_clock: u128)
    ensures
        surface.redraws_after_vblank() <==> surface.redraw_state == (
        TtyRedrawState::WaitingForVBlank { redraw_needed: true }),
        !surface.redraws_after_vblank() ==> surface.after_frame_finish(
            presentation_clock,
        ).redraw_state == TtyRedrawState::Idle,
{
}

/// A frame without damage waits for a timer of a generation that no earlier timer has. When that timer runs out,
/// the output idles, and clients get their callbacks one frame after the time of the frame; if a redraw was asked
/// for meanwhile, it is drawn instead. Another timer is ignored.
pub proof fn law_timer_stands_in_for_a_vblank(
    surface: SurfaceData,
    timer: EstimatedVBlankTimer,
    frame_time: u128,
)
    requires
        frame_time + timer.delay <= MAX_NANOS,
        timer.generation == surface.after_frame_empty().frame_callback_timer_generation,
        !surface.frame_callback_timer_armed,
    ensures
        ({
            let empty = surface.after_frame_empty();
            let waiting = empty.with_timer(true);
            let asked = waiting.after_queue_redraw();
            &&& timer.generation != surface.frame_callback_timer_generation
            &&& empty.lacks_timer()
            &&& !waiting.lacks_timer()
            &&& waiting.awaits_timer(timer.generation)
            &&& !redraw_pending(empty.redraw_state)
            &&& empty.frame_pending == surface.frame_pending
            &&& waiting.action_of_timer(timer, frame_time) matches
                EstimatedVBlankAction::SendFrameCallbacks { sequence, callback_time }
                && callback_time - frame_time == timer.delay && sequence
                == waiting.after_estimated_vblank(timer.generation).frame_callback_sequence
            &&& waiting.after_estimated_vblank(timer.generation).redraw_state
                == TtyRedrawState::Idle
            &&& !waiting.after_estimated_vblank(timer.generation).frame_callback_timer_armed
            &&& asked.action_of_timer(timer, frame_time) == EstimatedVBlankAction::ScheduleRedraw
            &&& asked.after_estimated_vblank(timer.generation).redraw_state
                == TtyRedrawState::Queued
        }),
        !surface.awaits_timer(timer.generation) ==> surface.action_of_timer(timer, frame_time)
            == EstimatedVBlankAction::Ignore,
{
}

/// A timer is awaited only while the output waits for its generation with a timer armed.
pub proof fn law_timers_are_awaited_by_generation(surface: SurfaceData, generation: u64, other: u64)
    ensures
        surface.awaits_timer(generation) ==> surface.frame_callback_timer_armed
            && surface.redraw_state is WaitingForEstimatedVBlank,
        surface.awaits_timer(generation) && surface.awaits_timer(other) ==> generation == other,
        !surface.with_timer(false).awaits_timer(generation),
        surface.lacks_timer() ==> surface.redraw_state is WaitingForEstimatedVBlank
            && !surface.frame_callback_timer_armed,
        surface.redraw_state is WaitingForEstimatedVBlank && !surface.lacks_timer()
            ==> surface.frame_callback_timer_armed,
{
}

/// Calls to render that draw nothing are counted while a frame is pending, and only then; a frame that is shown
/// ends the count.
pub proof fn law_skipped_renders_are_counted(surface: SurfaceData)
    ensures
        surface.frame_pending && surface.skipped_while_pending_count < u32::MAX
            ==> surface.after_skipped_render().skipped_while_pending_count
            == surface.skipped_while_pending_count + 1,
        !surface.frame_pending || surface.skipped_while_pending_count == u32::MAX
            ==> surface.after_skipped_render() == surface,
        surface.after_skipped_render().redraw_state == surface.redraw_state,
        surface.after_skipped_render().frame_pending == surface.frame_pending,
{
}

/// The target that a vertical blank has set is taken once; without it the target lies one frame from now.
pub proof fn law_target_is_taken_once(surface: SurfaceData, now: u128, target: u128)
    requires
        now + surface.frame_duration <= MAX_NANOS,
    ensures
        surface.next_frame_target == Some(target) ==> surface.target_of(now) == target,
        surface.next_frame_target is None ==> surface.target_of(now) - now
            == surface.frame_duration,
        surface.after_time_taken(target).next_frame_target is None,
        surface.after_time_taken(target).last_frame_callback_at == Some(target),
        surface.after_time_taken(target).redraw_state == surface.redraw_state,
        surface.after_time_taken(target).target_of(now) - now == surface.frame_duration,
{
}

/// An output that was given another mode draws with it at once.
pub proof fn law_new_mode_is_drawn(surface: SurfaceData, frame_duration: u128)
    ensures
        surface.after_mode_applied(frame_duration).frame_duration == frame_duration,
        surface.after_mode_applied(frame_duration).redraw_state == TtyRedrawState::Queued,
        surface.after_mode_applied(frame_duration).frame_pending == surface.frame_pending,
{
}

/// Times are added, up to the longest one.
pub proof fn law_times_add_up(a: u128, b: u128)
    ensures
        a + b <= MAX_NANOS ==> saturated_sum(a, b) == a + b,
        a + b > MAX_NANOS ==> saturated_sum(a, b) == MAX_NANOS,
        MAX_NANOS == u64::MAX * 1_000_000_000 + 999_999_999,
{
}

// ---- modes ----------------------------------------------------------------------------------------

/// No mode has more pixels than the one that is selected by itself, and of those with as many pixels none
/// refreshes faster. A mode of the same size and rate that comes later goes before.
pub proof fn law_auto_mode_is_best(modes: Seq<OutputMode>, index: int, i: int)
    requires
        is_selected_mode(modes, DisplayModePreference::Auto, index),
        0 <= i < modes.len(),
    ensures
        0 <= index < modes.len(),
        modes[i].width * modes[i].height <= modes[index].width * modes[index].height,
        modes[i].width * modes[i].height == modes[index].width * modes[index].height
            ==> modes[i].vrefresh <= modes[index].vrefresh,
        modes[i].width * modes[i].height == modes[index].width * modes[index].height
            && modes[i].vrefresh == modes[index].vrefresh ==> modes[i].refresh
            <= modes[index].refresh,
        modes[i] == modes[index] ==> i <= index,
{
    assert(mode_at_most(modes[i], modes[index]));
    if i > index {
        assert(!mode_at_most(modes[index], modes[i]));
    }
}

/// Of the modes of the size that is asked for, the one is selected whose rate lies nearest to the rate that is
/// asked for, faster or slower alike; without a rate, the fastest. Where no mode has the size, the mode is
/// selected that would be by itself.
pub proof fn law_exact_mode_is_nearest(
    modes: Seq<OutputMode>,
    width: u16,
    height: u16,
    refresh_mhz: Option<i32>,
    index: int,
    i: int,
)
    requires
        is_selected_mode(
            modes,
            DisplayModePreference::Exact { width, height, refresh_mhz },
            index,
        ),
        0 <= i < modes.len(),
    ensures
        0 <= index < modes.len(),
        modes[i].width == width && modes[i].height == height ==> {
            &&& modes[index].width == width && modes[index].height == height
            &&& refresh_mhz matches Some(wanted) ==> {
                let (here, there) = (modes[index].refresh - wanted, modes[i].refresh - wanted);
                &&& -there <= here <= there || there <= here <= -there
                &&& here == there || here == -there ==> i == index || index < i
            }
            &&& refresh_mhz is None ==> modes[i].vrefresh <= modes[index].vrefresh
            &&& refresh_mhz is None && modes[i].vrefresh == modes[index].vrefresh
                ==> modes[i].refresh <= modes[index].refresh
        },
        (forall|k: int|
            0 <= k < modes.len() ==> !((#[trigger] modes[k]).width == width && modes[k].height
                == height)) ==> is_selected_mode(modes, DisplayModePreference::Auto, index),
{
    if modes[i].width == width && modes[i].height == height {
        assert(has_size(modes[i], width, height));
        assert(size_offered(modes, width, height));
    }
}

/// A mode that is asked for by its size and rate has them, and is the first that does.
pub proof fn law_requested_mode_has_its_numbers(
    modes: Seq<OutputMode>,
    width: int,
    height: int,
    refresh: i32,
    index: int,
    i: int,
)
    requires
        is_requested_mode(modes, width, height, refresh, index),
        0 <= i < modes.len(),
        modes[i].width == width,
        modes[i].height == height,
        modes[i].refresh == refresh,
    ensures
        modes[index].width == width,
        modes[index].height == height,
        modes[index].refresh == refresh,
        index <= i,
{
}

/// The outputs that drew a frame are exactly those that were processed, in their order.
pub proof fn law_processed_outputs_are_told(
    names: Seq<String>,
    outcomes: Seq<RenderSurfaceOutcome>,
    last: RenderSurfaceOutcome,
    name: Seq<char>,
)
    requires
        outcomes.len() <= names.len(),
    ensures
        processed_names(names, outcomes).contains(name) <==> exists|i: int|
            0 <= i < outcomes.len() && #[trigger] outcomes[i] == RenderSurfaceOutcome::Processed
                && names[i]@ == name,
        processed_names(names, outcomes).len() <= outcomes.len(),
    decreases outcomes.len(),
{
    let all = processed_names(names, outcomes);
    if outcomes.len() > 0 {
        let head = outcomes.drop_last();
        let before = processed_names(names, head);
        law_processed_outputs_are_told(names, head, last, name);
        let at = outcomes.len() - 1;
        if all.contains(name) {
            let k = choose|k: int| 0 <= k < all.len() && all[k] == name;
            if k < before.len() {
                assert(before[k] == name);
                let i = choose|i: int|
                    0 <= i < head.len() && #[trigger] head[i] == RenderSurfaceOutcome::Processed
                        && names[i]@ == name;
                assert(outcomes[i] == head[i]);
            } else {
                assert(outcomes[at] == RenderSurfaceOutcome::Processed);
            }
        }
        if exists|i: int|
            0 <= i < outcomes.len() && #[trigger] outcomes[i] == RenderSurfaceOutcome::Processed
                && names[i]@ == name {
            let i = choose|i: int|
                0 <= i < outcomes.len() && #[trigger] outcomes[i] == RenderSurfaceOutcome::Processed
                    && names[i]@ == name;
            if i < at {
                assert(head[i] == outcomes[i]);
                let k = choose|k: int| 0 <= k < before.len() && before[k] == name;
                assert(all[k] == name);
            } else {
                assert(all[before.len() as int] == name);
            }
        }
    } else {
        assert(!all.contains(name));
    }
}

/// Only a queued output draws: one that waits for a vertical blank or for a timer does not draw before it comes, and an idle
/// one draws once a redraw was asked for.
pub proof fn law_queued_outputs_draw(surface: SurfaceData, presentation_clock: u128)
    ensures
        surface.redraw_state is Idle || surface.redraw_state is WaitingForVBlank
            || surface.redraw_state is WaitingForEstimatedVBlank ==> surface.outcome_of_render()
            == RenderSurfaceOutcome::Skipped,
        surface.redraw_state is Idle ==> surface.after_queue_redraw().outcome_of_render()
            == RenderSurfaceOutcome::Processed,
        surface.redraw_state is Queued ==> surface.outcome_of_render()
            == RenderSurfaceOutcome::Processed,
        surface.after_frame_queued().outcome_of_render() == RenderSurfaceOutcome::Skipped,
        surface.after_frame_queued().after_frame_finish(presentation_clock).outcome_of_render()
            == RenderSurfaceOutcome::Processed,
        surface.after_frame_empty().outcome_of_render() == RenderSurfaceOutcome::Skipped,
{
}

} // verus!
