//! What key and pointer events lead to.

use crate::geometry::LogicalRect;
use crate::keymap::IdSet;
use crate::strings::same_text;
use vstd::prelude::*;

verus! {

// ---- keyboard -----------------------------------------------------------------------------------

/// The symbol of the key `q`.
pub const KEY_Q: u32 = 0x71;

/// What a key event leads to.
#[derive(Clone, Copy, Debug, PartialEq, Eq, Structural)]
pub enum KeyboardAction {
    /// The focused client gets the event.
    Forward,
    /// The compositor ends.
    Quit,
}

/// What a key event leads to.
pub open spec fn action_of_key(logo: bool, keysym: u32) -> KeyboardAction {
    if logo && keysym == KEY_Q {
        KeyboardAction::Quit
    } else {
        KeyboardAction::Forward
    }
}

/// The compositor ends on `q` with the logo key held, and on nothing else: every other key, and `q` without
/// the logo key, goes to the client.
pub proof fn law_only_logo_and_q_quits(logo: bool, keysym: u32)
    ensures
        action_of_key(true, 'q' as u32) == KeyboardAction::Quit,
        action_of_key(false, keysym) == KeyboardAction::Forward,
        keysym != 'q' as u32 ==> action_of_key(logo, keysym) == KeyboardAction::Forward,
{
}

/// Decides what a key event leads to: the logo key with `q` ends the compositor.
pub fn keyboard_action(logo: bool, keysym: u32) -> (action: KeyboardAction)
    ensures
        action == action_of_key(logo, keysym),
{
    if logo && keysym == KEY_Q {
        KeyboardAction::Quit
    } else {
        KeyboardAction::Forward
    }
}

// ---- pointer motion -----------------------------------------------------------------------------

/// The coordinates between which the pointer is kept.
#[derive(Clone, Copy, Debug, PartialEq, Eq, Structural)]
pub struct PointerLimits {
    pub min_x: i32,
    pub max_x: i32,
    pub min_y: i32,
    pub max_y: i32,
}

/// The first and last column and row of a rectangle.
pub open spec fn limits_of(bounds: LogicalRect) -> PointerLimits {
    PointerLimits {
        min_x: bounds.x,
        max_x: (bounds.right() - 1) as i32,
        min_y: bounds.y,
        max_y: (bounds.bottom() - 1) as i32,
    }
}

/// The pointer is kept exactly on the pixels of the outputs.
pub proof fn law_pointer_stays_on_the_outputs(bounds: LogicalRect, x: int, y: int)
    requires
        bounds.edges_fit(),
        !bounds.is_void(),
    ensures
        limits_of(bounds).min_x <= x <= limits_of(bounds).max_x && limits_of(bounds).min_y <= y
            <= limits_of(bounds).max_y <==> bounds.contains(x, y),
{
}

/// The first and last column and row of all outputs together. Without outputs the pointer does not
/// move.
pub fn pointer_limits(bounds: Option<LogicalRect>) -> (limits: Option<PointerLimits>)
    requires
        bounds matches Some(bounds) ==> bounds.edges_fit() && !bounds.is_void(),
    ensures
        match bounds {
            Some(bounds) => limits == Some(limits_of(bounds)),
            None => limits is None,
        },
        limits matches Some(limits) ==> limits.min_x <= limits.max_x && limits.min_y
            <= limits.max_y,
{
    match bounds {
        Some(bounds) => Some(
            PointerLimits {
                min_x: bounds.x,
                max_x: bounds.x + bounds.width - 1,
                min_y: bounds.y,
                max_y: bounds.y + bounds.height - 1,
            },
        ),
        None => None,
    }
}

// ---- decorations --------------------------------------------------------------------------------

/// The edges of a window that are dragged to resize it.
#[derive(Clone, Copy, Debug, PartialEq, Eq, Structural)]
pub struct ResizeEdges {
    pub top: bool,
    pub bottom: bool,
    pub left: bool,
    pub right: bool,
}

/// The edges that a resize grab moves, as bits.
#[derive(Clone, Copy, Debug, PartialEq, Eq, Structural)]
pub struct ResizeEdge {
    pub bits: u32,
}

pub const EDGE_TOP: u32 = 1;

pub const EDGE_BOTTOM: u32 = 2;

pub const EDGE_LEFT: u32 = 4;

pub const EDGE_RIGHT: u32 = 8;

/// The number with the bit of every edge that is dragged.
pub open spec fn edge_bits(edges: ResizeEdges) -> int {
    (if edges.top {
        EDGE_TOP as int
    } else {
        0
    }) + (if edges.bottom {
        EDGE_BOTTOM as int
    } else {
        0
    }) + (if edges.left {
        EDGE_LEFT as int
    } else {
        0
    }) + (if edges.right {
        EDGE_RIGHT as int
    } else {
        0
    })
}

/// The edges that a grab moves for the edges that are dragged.
pub fn resize_edges_to_grab(edges: ResizeEdges) -> (grab: ResizeEdge)
    ensures
        grab.bits == edge_bits(edges),
{
    let mut bits: u32 = 0;
    if edges.top {
        bits = bits + EDGE_TOP;
    }
    if edges.bottom {
        bits = bits + EDGE_BOTTOM;
    }
    if edges.left {
        bits = bits + EDGE_LEFT;
    }
    if edges.right {
        bits = bits + EDGE_RIGHT;
    }
    ResizeEdge { bits }
}

/// Different edges give different grabs.
pub proof fn law_grab_keeps_edges(a: ResizeEdges, b: ResizeEdges)
    requires
        edge_bits(a) == edge_bits(b),
    ensures
        a == b,
{
}

/// A grab has the bit of an edge exactly if that edge is dragged: 1 for the top, 2 for the bottom, 4 for the
/// left and 8 for the right edge.
pub proof fn law_grab_has_the_bits_of_its_edges(edges: ResizeEdges)
    ensures
        0 <= edge_bits(edges) < 16,
        edge_bits(edges) % 2 == 1 <==> edges.top,
        edge_bits(edges) / 2 % 2 == 1 <==> edges.bottom,
        edge_bits(edges) / 4 % 2 == 1 <==> edges.left,
        edge_bits(edges) / 8 % 2 == 1 <==> edges.right,
{
}

/// The shapes of the cursor over a decoration.
#[derive(Clone, Copy, Debug, PartialEq, Eq, Structural)]
pub enum CursorIcon {
    Default,
    NwResize,
    NeResize,
    SwResize,
    SeResize,
    WResize,
    EResize,
    NResize,
    SResize,
    EwResize,
    NsResize,
    AllResize,
}

/// The cursor over edges that can be dragged: for a corner or a single edge one that points
/// there, for other sets of edges one for the directions in which they can be dragged.
pub open spec fn edges_icon(edges: ResizeEdges) -> CursorIcon {
    match (edges.top, edges.bottom, edges.left, edges.right) {
        (true, false, true, false) => CursorIcon::NwResize,
        (true, false, false, true) => CursorIcon::NeResize,
        (false, true, true, false) => CursorIcon::SwResize,
        (false, true, false, true) => CursorIcon::SeResize,
        (false, false, true, false) => CursorIcon::WResize,
        (false, false, false, true) => CursorIcon::EResize,
        (true, false, false, false) => CursorIcon::NResize,
        (false, true, false, false) => CursorIcon::SResize,
        (_, _, left, right) => if left || right {
            CursorIcon::EwResize
        } else if edges.top || edges.bottom {
            CursorIcon::NsResize
        } else {
            CursorIcon::AllResize
        },
    }
}

/// The cursor over edges that can be dragged.
pub fn resize_edges_to_cursor_icon(edges: ResizeEdges) -> (icon: CursorIcon)
    ensures
        icon == edges_icon(edges),
{
    let ResizeEdges { top, bottom, left, right } = edges;
    if top && left && !bottom && !right {
        CursorIcon::NwResize
    } else if top && right && !bottom && !left {
        CursorIcon::NeResize
    } else if bottom && left && !top && !right {
        CursorIcon::SwResize
    } else if bottom && right && !top && !left {
        CursorIcon::SeResize
    } else if left && !right && !top && !bottom {
        CursorIcon::WResize
    } else if right && !left && !top && !bottom {
        CursorIcon::EResize
    } else if top && !bottom && !left && !right {
        CursorIcon::NResize
    } else if bottom && !top && !left && !right {
        CursorIcon::SResize
    } else if left || right {
        CursorIcon::EwResize
    } else if top || bottom {
        CursorIcon::NsResize
    } else {
        CursorIcon::AllResize
    }
}

/// The cursor points where a single edge or a corner lies: at the top only if the top edge is dragged and the
/// bottom is not, and so for each side. Edges on opposite sides get a cursor that points nowhere.
pub proof fn law_cursor_points_at_the_edges(edges: ResizeEdges)
    ensures
        ({
            let icon = edges_icon(edges);
            let north = icon == CursorIcon::NwResize || icon == CursorIcon::NResize || icon
                == CursorIcon::NeResize;
            let south = icon == CursorIcon::SwResize || icon == CursorIcon::SResize || icon
                == CursorIcon::SeResize;
            let west = icon == CursorIcon::NwResize || icon == CursorIcon::WResize || icon
                == CursorIcon::SwResize;
            let east = icon == CursorIcon::NeResize || icon == CursorIcon::EResize || icon
                == CursorIcon::SeResize;
            let opposite = edges.top && edges.bottom || edges.left && edges.right;
            &&& north == (edges.top && !opposite)
            &&& south == (edges.bottom && !opposite)
            &&& west == (edges.left && !opposite)
            &&& east == (edges.right && !opposite)
            &&& icon == CursorIcon::EwResize <==> opposite && (edges.left || edges.right)
            &&& icon == CursorIcon::NsResize <==> opposite && !edges.left && !edges.right
            &&& icon == CursorIcon::AllResize <==> !edges.top && !edges.bottom && !edges.left
                && !edges.right
        }),
{
}

/// What part of a decorated window lies under the pointer.
#[derive(Clone, Copy, Debug, PartialEq, Eq, Structural)]
pub enum DecorationHit {
    /// A button that closes the window.
    CloseAction,
    /// A button whose handler is run.
    HandlerAction,
    /// Any other button.
    OtherAction,
    Move,
    Resize(ResizeEdges),
    ClientArea,
    Outside,
}

/// The cursor that a decoration puts in place of the client's, if any.
pub open spec fn hit_icon(hit: Option<DecorationHit>) -> Option<CursorIcon> {
    match hit {
        None => None,
        Some(DecorationHit::ClientArea) => None,
        Some(DecorationHit::Resize(edges)) => Some(edges_icon(edges)),
        Some(_) => Some(CursorIcon::Default),
    }
}

/// Over the contents of a window, and beside every decoration, the cursor is the client's own. Over edges
/// that can be dragged it is the one for these edges, and over the rest of a decoration the ordinary one.
pub proof fn law_decoration_sets_the_cursor(hit: DecorationHit, edges: ResizeEdges)
    ensures
        hit_icon(None) is None,
        hit_icon(Some(DecorationHit::ClientArea)) is None,
        hit_icon(Some(DecorationHit::Resize(edges))) == Some(edges_icon(edges)),
        hit != DecorationHit::ClientArea && !(hit is Resize) ==> hit_icon(Some(hit)) == Some(
            CursorIcon::Default,
        ),
{
}

/// Chooses the cursor for what lies under the pointer. Tells whether it changed, so that a redraw
/// is needed.
pub fn update_decoration_cursor_icon(
    cursor_override: &mut Option<CursorIcon>,
    hit: Option<DecorationHit>,
) -> (redraw: bool)
    ensures
        *final(cursor_override) == hit_icon(hit),
        redraw == (*old(cursor_override) != hit_icon(hit)),
{
    let next: Option<CursorIcon> = match hit {
        None => None,
        Some(hit) => match hit {
            DecorationHit::Resize(edges) => Some(resize_edges_to_cursor_icon(edges)),
            DecorationHit::ClientArea => None,
            _ => Some(CursorIcon::Default),
        },
    };
    let same: bool = match (*cursor_override, next) {
        (Some(a), Some(b)) => a == b,
        (None, None) => true,
        _ => false,
    };
    *cursor_override = next;
    !same
}

// ---- pointer buttons ----------------------------------------------------------------------------

/// What lies under the pointer when a button is pressed.
#[derive(Clone, Copy, Debug, PartialEq, Eq, Structural)]
pub enum PressTarget {
    Decoration(DecorationHit),
    Window,
    Nothing,
}

/// One thing to do for a button event.
#[derive(Clone, Copy, Debug, PartialEq, Eq, Structural)]
pub enum ButtonStep {
    FocusWindow,
    ClearFocus,
    /// Hands the event to whatever has the pointer.
    SendButton,
    SendClose,
    InvokeHandler,
    BeginMove,
    BeginResize(ResizeEdge),
    EndFrame,
    ScheduleRedraw,
}

/// A button event changes the focus and the grabs.
pub open spec fn matters_below(pressed: bool, grabbed: bool) -> bool {
    pressed && !grabbed
}

/// Neither releasing a button nor pressing one during a grab looks at what lies under the pointer; every other
/// press does.
pub proof fn law_presses_look_below(pressed: bool, grabbed: bool)
    ensures
        matters_below(true, false),
        !matters_below(false, grabbed),
        !matters_below(pressed, true),
{
}

/// What lies under the pointer matters: the button was pressed, and no grab has the pointer.
pub fn looks_under_pointer(pressed: bool, grabbed: bool) -> (looks: bool)
    ensures
        looks == matters_below(pressed, grabbed),
{
    pressed && !grabbed
}

/// What follows a press on a decoration.
pub open spec fn decoration_steps(hit: DecorationHit) -> Seq<ButtonStep> {
    match hit {
        DecorationHit::CloseAction => seq![ButtonStep::SendButton, ButtonStep::SendClose],
        DecorationHit::HandlerAction => seq![ButtonStep::SendButton, ButtonStep::InvokeHandler],
        DecorationHit::OtherAction => seq![ButtonStep::SendButton],
        DecorationHit::Move => seq![ButtonStep::SendButton, ButtonStep::BeginMove],
        DecorationHit::Resize(edges) => seq![
            ButtonStep::SendButton,
            ButtonStep::BeginResize(ResizeEdge { bits: edge_bits(edges) as u32 }),
        ],
        DecorationHit::ClientArea => seq![ButtonStep::SendButton],
        DecorationHit::Outside => Seq::empty(),
    }
}

/// What a button event leads to. `target` is what lies under the pointer, if that matters.
pub open spec fn button_steps(target: Option<PressTarget>) -> Seq<ButtonStep> {
    match target {
        Some(PressTarget::Decoration(hit)) => seq![ButtonStep::FocusWindow] + decoration_steps(hit)
            + seq![ButtonStep::EndFrame, ButtonStep::ScheduleRedraw],
        Some(PressTarget::Window) => seq![
            ButtonStep::FocusWindow,
            ButtonStep::SendButton,
            ButtonStep::EndFrame,
        ],
        Some(PressTarget::Nothing) => seq![
            ButtonStep::ClearFocus,
            ButtonStep::SendButton,
            ButtonStep::EndFrame,
        ],
        None => seq![ButtonStep::SendButton, ButtonStep::EndFrame],
    }
}

/// Decides what a button event leads to.
pub fn plan_button_event(target: Option<PressTarget>) -> (steps: Vec<ButtonStep>)
    ensures
        steps@ == button_steps(target),
{
    let mut steps: Vec<ButtonStep> = Vec::new();
    match target {
        Some(PressTarget::Decoration(hit)) => {
            steps.push(ButtonStep::FocusWindow);
            match hit {
                DecorationHit::CloseAction => {
                    steps.push(ButtonStep::SendButton);
                    steps.push(ButtonStep::SendClose);
                },
                DecorationHit::HandlerAction => {
                    steps.push(ButtonStep::SendButton);
                    steps.push(ButtonStep::InvokeHandler);
                },
                DecorationHit::OtherAction => steps.push(ButtonStep::SendButton),
                DecorationHit::Move => {
                    steps.push(ButtonStep::SendButton);
                    steps.push(ButtonStep::BeginMove);
                },
                DecorationHit::Resize(edges) => {
                    steps.push(ButtonStep::SendButton);
                    steps.push(ButtonStep::BeginResize(resize_edges_to_grab(edges)));
                },
                DecorationHit::ClientArea => steps.push(ButtonStep::SendButton),
                DecorationHit::Outside => {},
            }
            steps.push(ButtonStep::EndFrame);
            steps.push(ButtonStep::ScheduleRedraw);
        },
        Some(PressTarget::Window) => {
            steps.push(ButtonStep::FocusWindow);
            steps.push(ButtonStep::SendButton);
            steps.push(ButtonStep::EndFrame);
        },
        Some(PressTarget::Nothing) => {
            steps.push(ButtonStep::ClearFocus);
            steps.push(ButtonStep::SendButton);
            steps.push(ButtonStep::EndFrame);
        },
        None => {
            steps.push(ButtonStep::SendButton);
            steps.push(ButtonStep::EndFrame);
        },
    }
    assert(steps@ =~= button_steps(target));
    steps
}

/// Every button event ends a pointer frame once, and is handed on at most once; only a press
/// outside a decoration's parts keeps it.
pub proof fn law_button_event_is_handed_on(target: Option<PressTarget>, i: int, j: int)
    ensures
        button_steps(target).contains(ButtonStep::EndFrame),
        !button_steps(target).contains(ButtonStep::SendButton) <==> target == Some(
            PressTarget::Decoration(DecorationHit::Outside),
        ),
        0 <= i < j < button_steps(target).len() && button_steps(target)[i] == button_steps(
            target,
        )[j] ==> button_steps(target)[i] != ButtonStep::EndFrame && button_steps(target)[i]
            != ButtonStep::SendButton,
{
    let steps = button_steps(target);
    match target {
        Some(PressTarget::Decoration(hit)) => {
            assert(steps[steps.len() - 2] == ButtonStep::EndFrame);
            assert(steps[0] == ButtonStep::FocusWindow);
            if hit != DecorationHit::Outside {
                assert(steps[1] == ButtonStep::SendButton);
            } else {
                assert(steps =~= seq![
                    ButtonStep::FocusWindow,
                    ButtonStep::EndFrame,
                    ButtonStep::ScheduleRedraw,
                ]);
            }
        },
        Some(_) => {
            assert(steps[1] == ButtonStep::SendButton);
            assert(steps[2] == ButtonStep::EndFrame);
        },
        None => {
            assert(steps[0] == ButtonStep::SendButton);
            assert(steps[1] == ButtonStep::EndFrame);
        },
    }
}

/// What a press does follows from what was hit: the handler of a button is run exactly if a button with a
/// handler was hit, a window is asked to close exactly if a button that closes it was hit, a move begins exactly
/// on a part that moves the window, and a resize exactly on edges that can be dragged, with these edges. A
/// window gets the focus exactly if it or its decoration was hit, and it is lost exactly if nothing was hit.
/// The outputs are drawn again exactly after a press on a decoration.
pub proof fn law_press_does_what_was_hit(target: Option<PressTarget>, grab: ResizeEdge)
    ensures
        button_steps(target).contains(ButtonStep::InvokeHandler) <==> target == Some(
            PressTarget::Decoration(DecorationHit::HandlerAction),
        ),
        button_steps(target).contains(ButtonStep::SendClose) <==> target == Some(
            PressTarget::Decoration(DecorationHit::CloseAction),
        ),
        button_steps(target).contains(ButtonStep::BeginMove) <==> target == Some(
            PressTarget::Decoration(DecorationHit::Move),
        ),
        button_steps(target).contains(ButtonStep::BeginResize(grab)) <==> (target matches Some(
            PressTarget::Decoration(DecorationHit::Resize(edges)),
        ) && grab.bits == edge_bits(edges)),
        button_steps(target).contains(ButtonStep::FocusWindow) <==> (target == Some(
            PressTarget::Window,
        ) || target matches Some(PressTarget::Decoration(_))),
        button_steps(target).contains(ButtonStep::ClearFocus) <==> target == Some(
            PressTarget::Nothing,
        ),
        button_steps(target).contains(ButtonStep::ScheduleRedraw) <==> target matches Some(
            PressTarget::Decoration(_),
        ),
        button_steps(target).contains(ButtonStep::EndFrame),
        button_steps(target).contains(ButtonStep::SendButton) <==> target != Some(
            PressTarget::Decoration(DecorationHit::Outside),
        ),
{
    let steps = button_steps(target);
    match target {
        Some(PressTarget::Decoration(hit)) => {
            let inner = decoration_steps(hit);
            assert(steps[0] == ButtonStep::FocusWindow);
            assert forall|i: int| 0 <= i < inner.len() implies steps[i + 1] == #[trigger] inner[i] by {
            }
            assert(steps.len() == inner.len() + 3);
            assert(steps[inner.len() as int + 1] == ButtonStep::EndFrame);
            assert(steps[inner.len() as int + 2] == ButtonStep::ScheduleRedraw);
            if hit != DecorationHit::Outside {
                assert(steps[1] == inner[0]);
            }
            if inner.len() == 2 {
                assert(steps[2] == inner[1]);
                assert(inner =~= seq![inner[0], inner[1]]);
            }
        },
        Some(_) => {
            assert(steps[0] == steps[0] && steps[1] == ButtonStep::SendButton && steps[2]
                == ButtonStep::EndFrame);
        },
        None => {
            assert(steps[0] == ButtonStep::SendButton && steps[1] == ButtonStep::EndFrame);
        },
    }
}

/// The focus changes before the event is handed on, and what a press begins begins after that; the pointer
/// frame ends behind all of it.
pub proof fn law_button_steps_have_their_order(target: Option<PressTarget>, i: int, j: int)
    requires
        0 <= i < j < button_steps(target).len(),
    ensures
        button_steps(target)[j] != ButtonStep::FocusWindow,
        button_steps(target)[j] != ButtonStep::ClearFocus,
        button_steps(target)[j] == ButtonStep::SendButton ==> button_steps(target)[i]
            == ButtonStep::FocusWindow || button_steps(target)[i] == ButtonStep::ClearFocus,
        button_steps(target)[i] == ButtonStep::EndFrame ==> button_steps(target)[j]
            == ButtonStep::ScheduleRedraw,
{
}

/// The press that starts a grab is known, and so is the window's place.
pub open spec fn is_grabbable(has_start_data: bool, has_location: bool) -> bool {
    has_start_data && has_location
}

/// Whether a grab can begin: the press that starts it is known, and so is the window's place.
pub fn can_begin_grab(has_start_data: bool, has_location: bool) -> (begins: bool)
    ensures
        begins == is_grabbable(has_start_data, has_location),
        begins ==> has_start_data,
        begins ==> has_location,
{
    has_start_data && has_location
}

// ---- scrolling ----------------------------------------------------------------------------------

/// One axis of a scroll event.
#[derive(Clone, Copy, Debug, PartialEq, Eq, Structural)]
pub struct AxisInput {
    /// The distance is not zero.
    pub moves: bool,
    /// The distance in steps of a wheel, where the device has them.
    pub discrete: Option<i32>,
    /// The device says that the distance is zero.
    pub reports_zero: bool,
}

/// What is sent for one axis of a scroll event.
#[derive(Clone, Copy, Debug, PartialEq, Eq, Structural)]
pub struct AxisPlan {
    pub send_value: bool,
    pub send_discrete: Option<i32>,
    /// The finger was lifted.
    pub send_stop: bool,
}

/// What is sent for one axis of a scroll event.
pub open spec fn axis_plan(input: AxisInput, from_finger: bool) -> AxisPlan {
    AxisPlan {
        send_value: input.moves,
        send_discrete: if input.moves {
            input.discrete
        } else {
            None
        },
        send_stop: from_finger && input.reports_zero,
    }
}

/// An axis is sent exactly if it moves, with the steps of the wheel if there are any, and without them if it
/// does not move. Only a finger that is lifted stops the scrolling, and it always does.
pub proof fn law_axis_is_sent_as_it_moves(input: AxisInput, from_finger: bool)
    ensures
        axis_plan(input, from_finger).send_value <==> input.moves,
        input.moves ==> axis_plan(input, from_finger).send_discrete == input.discrete,
        !input.moves ==> axis_plan(input, from_finger).send_discrete is None,
        axis_plan(input, from_finger).send_stop ==> from_finger && input.reports_zero,
        input.reports_zero ==> axis_plan(input, true).send_stop,
        !axis_plan(input, false).send_stop,
{
}

/// Decides what is sent for one axis of a scroll event.
pub fn plan_axis(input: AxisInput, from_finger: bool) -> (plan: AxisPlan)
    ensures
        plan == axis_plan(input, from_finger),
{
    AxisPlan {
        send_value: input.moves,
        send_discrete: if input.moves {
            input.discrete
        } else {
            None
        },
        send_stop: from_finger && input.reports_zero,
    }
}

// ---- focus --------------------------------------------------------------------------------------

/// The windows whose activation differs from what it shall be, in their order.
pub open spec fn activation_changes(active: Seq<bool>, focused: Option<int>) -> Seq<int>
    decreases active.len(),
{
    if active.len() == 0 {
        Seq::empty()
    } else {
        let last = active.len() - 1;
        let before = activation_changes(active.drop_last(), focused);
        if active[last] != (focused == Some(last)) {
            before.push(last)
        } else {
            before
        }
    }
}

/// The window has the focus.
pub open spec fn is_focused(focused: Option<usize>, i: int) -> bool {
    match focused {
        Some(f) => f == i,
        None => false,
    }
}

/// At most one window has the focus: the one that it is given to, and none without one.
pub proof fn law_one_window_has_the_focus(f: usize, i: int, j: int)
    ensures
        is_focused(Some(f), f as int),
        !is_focused(None, i),
        is_focused(Some(f), i) && is_focused(Some(f), j) ==> i == j,
{
}

/// Activates one window and no other, or none. Returns the windows that have to be told.
pub fn focus_window(active: &mut Vec<bool>, focused: Option<usize>) -> (changed: Vec<usize>)
    ensures
        final(active)@.len() == old(active)@.len(),
        forall|i: int|
            0 <= i < final(active)@.len() ==> #[trigger] final(active)@[i] == is_focused(focused, i),
        changed@.len() == activation_changes(
            old(active)@,
            match focused {
                Some(f) => Some(f as int),
                None => None,
            },
        ).len(),
        forall|k: int|
            0 <= k < changed@.len() ==> #[trigger] changed@[k] == activation_changes(
                old(active)@,
                match focused {
                    Some(f) => Some(f as int),
                    None => None,
                },
            )[k],
{
    let ghost before = active@;
    let ghost target: Option<int> = match focused {
        Some(f) => Some(f as int),
        None => None,
    };
    let mut changed: Vec<usize> = Vec::new();
    let mut i: usize = 0;
    while i < active.len()
        invariant
            i <= active@.len() == before.len(),
            target == (match focused {
                Some(f) => Some(f as int),
                None => None::<int>,
            }),
            forall|k: int|
                0 <= k < i ==> #[trigger] active@[k] == (match focused {
                    Some(f) => f == k,
                    None => false,
                }),
            forall|k: int| i <= k < before.len() ==> #[trigger] active@[k] == before[k],
            changed@.len() == activation_changes(before.take(i as int), target).len(),
            forall|k: int|
                0 <= k < changed@.len() ==> #[trigger] changed@[k] == activation_changes(
                    before.take(i as int),
                    target,
                )[k],
        decreases active@.len() - i,
    {
        assert(before.take(i + 1).drop_last() == before.take(i as int));
        let wanted: bool = match focused {
            Some(f) => f == i,
            None => false,
        };
        let current: bool = active[i];
        assert(current == before[i as int]);
        if current != wanted {
            changed.push(i);
            active.set(i, wanted);
        }
        i += 1;
    }
    assert(before.take(i as int) == before);
    changed
}

/// The windows that are told of a change of the focus are exactly those whose activation changes, each once,
/// in their order.
pub proof fn law_changed_windows_are_told(active: Seq<bool>, focused: Option<int>)
    ensures
        forall|i: int|
            0 <= i < active.len() ==> (activation_changes(active, focused).contains(i) <==> (
            #[trigger] active[i]) != (focused == Some(i))),
        forall|k: int|
            0 <= k < activation_changes(active, focused).len() ==> 0
                <= #[trigger] activation_changes(active, focused)[k] < active.len(),
        forall|j: int, k: int|
            0 <= j < k < activation_changes(active, focused).len() ==> #[trigger] activation_changes(
                active,
                focused,
            )[j] < #[trigger] activation_changes(active, focused)[k],
    decreases active.len(),
{
    let all = activation_changes(active, focused);
    if active.len() > 0 {
        let head = active.drop_last();
        let last = active.len() - 1;
        let before = activation_changes(head, focused);
        law_changed_windows_are_told(head, focused);
        assert forall|k: int| 0 <= k < before.len() implies all[k] == #[trigger] before[k] by {
        }
        assert forall|k: int| 0 <= k < all.len() implies 0 <= #[trigger] all[k] < active.len() by {
            if k < before.len() {
                assert(all[k] == before[k]);
            }
        }
        assert forall|j: int, k: int| 0 <= j < k < all.len() implies #[trigger] all[j]
            < #[trigger] all[k] by {
            assert(all[j] == before[j]);
            if k < before.len() {
                assert(all[k] == before[k]);
            }
        }
        assert forall|i: int| 0 <= i < active.len() implies (all.contains(i) <==> (
        #[trigger] active[i]) != (focused == Some(i))) by {
            if i < last {
                assert(head[i] == active[i]);
                if before.contains(i) {
                    let k = choose|k: int| 0 <= k < before.len() && before[k] == i;
                    assert(all[k] == i);
                }
                if all.contains(i) {
                    let k = choose|k: int| 0 <= k < all.len() && all[k] == i;
                    assert(k < before.len());
                    assert(before[k] == i);
                }
            } else {
                if active[last] != (focused == Some(last)) {
                    assert(all[before.len() as int] == last);
                }
                if all.contains(i) {
                    let k = choose|k: int| 0 <= k < all.len() && all[k] == i;
                    if k < before.len() {
                        assert(before[k] == i);
                    }
                }
            }
        }
    }
}

/// Focusing a window that is already the only active one changes nothing.
pub proof fn law_focus_is_idempotent(active: Seq<bool>, focused: Option<int>)
    requires
        forall|i: int| 0 <= i < active.len() ==> #[trigger] active[i] == (focused == Some(i)),
    ensures
        activation_changes(active, focused).len() == 0,
    decreases active.len(),
{
    if active.len() > 0 {
        let head = active.drop_last();
        assert forall|i: int| 0 <= i < head.len() implies #[trigger] head[i] == (focused == Some(
            i,
        )) by {
            assert(active[i] == (focused == Some(i)));
        }
        law_focus_is_idempotent(head, focused);
        assert(active[active.len() - 1] == (focused == Some(active.len() - 1)));
    }
}

// ---- actions of the runtime ---------------------------------------------------------------------

/// What the runtime asks of a window.
#[derive(Clone, Copy, Debug, PartialEq, Eq, Structural)]
pub enum WaylandWindowAction {
    Close,
    Maximize,
    Minimize,
    /// The closing animation is over.
    FinalizeClose,
}

/// A request of the runtime.
#[derive(Clone, Debug)]
pub struct RuntimeWindowAction {
    pub window_id: String,
    pub action: WaylandWindowAction,
}

/// What has to be done for a request of the runtime.
#[derive(Clone, Copy, Debug, PartialEq, Eq, Structural)]
pub enum RuntimeActionStep {
    /// The window is gone; the runtime is told, and the outputs are drawn again.
    WindowClosed,
    /// The window at this position is asked to close.
    SendClose { window: usize },
    /// The window at this position is maximized.
    Maximize { window: usize },
    Nothing,
}

/// What a request of the runtime leads to. `windows` are the ids of the windows on screen; the
/// first one with the id of the request is meant.
pub open spec fn step_of(request: RuntimeWindowAction, windows: Seq<String>) -> RuntimeActionStep {
    match (request.action, first_with_id(windows, request.window_id@)) {
        (WaylandWindowAction::FinalizeClose, _) => RuntimeActionStep::WindowClosed,
        (WaylandWindowAction::Close, Some(i)) => RuntimeActionStep::SendClose { window: i as usize },
        (WaylandWindowAction::Maximize, Some(i)) => RuntimeActionStep::Maximize {
            window: i as usize,
        },
        _ => RuntimeActionStep::Nothing,
    }
}

/// The request at `i` says that a window is gone.
pub open spec fn closes(requests: Seq<RuntimeWindowAction>, i: int, id: Seq<char>) -> bool {
    &&& 0 <= i < requests.len()
    &&& requests[i].action == WaylandWindowAction::FinalizeClose
    &&& requests[i].window_id@ == id
}

/// The windows that are gone.
pub open spec fn closed_ids(requests: Seq<RuntimeWindowAction>) -> Set<Seq<char>> {
    Set::new(|id: Seq<char>| exists|i: int| closes(requests, i, id))
}

proof fn lemma_closed_ids_step(requests: Seq<RuntimeWindowAction>, i: int)
    requires
        0 <= i < requests.len(),
    ensures
        closed_ids(requests.take(i + 1)) == (if requests[i].action
            == WaylandWindowAction::FinalizeClose {
            closed_ids(requests.take(i)).insert(requests[i].window_id@)
        } else {
            closed_ids(requests.take(i))
        }),
{
    let (a, b) = (requests.take(i + 1), requests.take(i));
    let id = requests[i].window_id@;
    assert forall|t: Seq<char>| closed_ids(a).contains(t) <==> closed_ids(b).contains(t) || (t == id
        && requests[i].action == WaylandWindowAction::FinalizeClose) by {
        if closed_ids(b).contains(t) {
            let k = choose|k: int| closes(b, k, t);
            assert(closes(a, k, t));
        }
        if t == id && requests[i].action == WaylandWindowAction::FinalizeClose {
            assert(closes(a, i, t));
        }
        if closed_ids(a).contains(t) {
            let k = choose|k: int| closes(a, k, t);
            assert(closes(a, k, t));
            if k < i {
                assert(closes(b, k, t));
            }
        }
    }
    if requests[i].action == WaylandWindowAction::FinalizeClose {
        assert(closed_ids(a) =~= closed_ids(b).insert(id));
    } else {
        assert(closed_ids(a) =~= closed_ids(b));
    }
}

/// What is remembered of windows by their ids.
pub struct WindowRecords {
    pub closing_snapshots: IdSet,
    pub live_snapshots: IdSet,
    pub complete_snapshots: IdSet,
    pub ready_for_decoration: IdSet,
    pub snapshot_dirty: IdSet,
    pub runtime_dirty: IdSet,
    /// The runtime asked to be run again after a while.
    pub scheduler_enabled: bool,
}

impl WindowRecords {
    pub open spec fn wf(&self) -> bool {
        &&& self.closing_snapshots.wf()
        &&& self.live_snapshots.wf()
        &&& self.complete_snapshots.wf()
        &&& self.ready_for_decoration.wf()
        &&& self.snapshot_dirty.wf()
        &&& self.runtime_dirty.wf()
    }

    /// Nothing is remembered of the window.
    pub open spec fn knows_nothing_of(&self, id: Seq<char>) -> bool {
        &&& !self.closing_snapshots@.contains(id)
        &&& !self.live_snapshots@.contains(id)
        &&& !self.complete_snapshots@.contains(id)
        &&& !self.ready_for_decoration@.contains(id)
        &&& !self.snapshot_dirty@.contains(id)
        &&& !self.runtime_dirty@.contains(id)
    }

    /// The records without those of one window.
    pub open spec fn forgets(&self, before: &WindowRecords, id: Seq<char>) -> bool {
        &&& self.closing_snapshots@ == before.closing_snapshots@.remove(id)
        &&& self.live_snapshots@ == before.live_snapshots@.remove(id)
        &&& self.complete_snapshots@ == before.complete_snapshots@.remove(id)
        &&& self.ready_for_decoration@ == before.ready_for_decoration@.remove(id)
        &&& self.snapshot_dirty@ == before.snapshot_dirty@.remove(id)
        &&& self.runtime_dirty@ == before.runtime_dirty@.remove(id)
        &&& self.scheduler_enabled == before.scheduler_enabled
    }

    /// Forgets a window that is gone.
    pub fn forget_window(&mut self, id: &str)
        requires
            old(self).wf(),
        ensures
            final(self).wf(),
            final(self).forgets(old(self), id@),
            final(self).knows_nothing_of(id@),
    {
        self.closing_snapshots.remove(id);
        self.live_snapshots.remove(id);
        self.complete_snapshots.remove(id);
        self.ready_for_decoration.remove(id);
        self.snapshot_dirty.remove(id);
        self.runtime_dirty.remove(id);
    }

    /// Decides what a request of the runtime leads to. `windows` are the ids of the windows on
    /// screen; the first one with the id of the request is meant.
    pub fn apply_runtime_window_action(
        &mut self,
        request: &RuntimeWindowAction,
        windows: &Vec<String>,
    ) -> (step: RuntimeActionStep)
        requires
            old(self).wf(),
        ensures
            final(self).wf(),
            step == step_of(*request, windows@),
            request.action == WaylandWindowAction::FinalizeClose ==> final(self).forgets(
                old(self),
                request.window_id@,
            ),
            request.action != WaylandWindowAction::FinalizeClose ==> *final(self) == *old(self),
    {
        match request.action {
            WaylandWindowAction::FinalizeClose => {
                self.forget_window(request.window_id.as_str());
                RuntimeActionStep::WindowClosed
            },
            WaylandWindowAction::Minimize => RuntimeActionStep::Nothing,
            WaylandWindowAction::Close => match find_window(windows, request.window_id.as_str()) {
                Some(window) => RuntimeActionStep::SendClose { window },
                None => RuntimeActionStep::Nothing,
            },
            WaylandWindowAction::Maximize => match find_window(
                windows,
                request.window_id.as_str(),
            ) {
                Some(window) => RuntimeActionStep::Maximize { window },
                None => RuntimeActionStep::Nothing,
            },
        }
    }

    /// The records without those of several windows.
    pub open spec fn forgets_all(&self, before: &WindowRecords, ids: Set<Seq<char>>) -> bool {
        &&& self.closing_snapshots@ == before.closing_snapshots@.difference(ids)
        &&& self.live_snapshots@ == before.live_snapshots@.difference(ids)
        &&& self.complete_snapshots@ == before.complete_snapshots@.difference(ids)
        &&& self.ready_for_decoration@ == before.ready_for_decoration@.difference(ids)
        &&& self.snapshot_dirty@ == before.snapshot_dirty@.difference(ids)
        &&& self.runtime_dirty@ == before.runtime_dirty@.difference(ids)
        &&& self.scheduler_enabled == before.scheduler_enabled
    }

    /// Decides what requests of the runtime lead to, one after the other.
    pub fn apply_runtime_window_actions(
        &mut self,
        requests: &Vec<RuntimeWindowAction>,
        windows: &Vec<String>,
    ) -> (steps: Vec<RuntimeActionStep>)
        requires
            old(self).wf(),
        ensures
            final(self).wf(),
            steps@.len() == requests@.len(),
            forall|i: int|
                0 <= i < requests@.len() ==> #[trigger] steps@[i] == step_of(
                    requests@[i],
                    windows@,
                ),
            final(self).forgets_all(old(self), closed_ids(requests@)),
    {
        let mut steps: Vec<RuntimeActionStep> = Vec::new();
        let mut i: usize = 0;
        proof {
            let none = closed_ids(requests@.take(0));
            assert(none =~= Set::<Seq<char>>::empty());
            assert(self.closing_snapshots@.difference(none) =~= self.closing_snapshots@);
            assert(self.live_snapshots@.difference(none) =~= self.live_snapshots@);
            assert(self.complete_snapshots@.difference(none) =~= self.complete_snapshots@);
            assert(self.ready_for_decoration@.difference(none) =~= self.ready_for_decoration@);
            assert(self.snapshot_dirty@.difference(none) =~= self.snapshot_dirty@);
            assert(self.runtime_dirty@.difference(none) =~= self.runtime_dirty@);
        }
        while i < requests.len()
            invariant
                i <= requests@.len(),
                self.wf(),
                steps@.len() == i,
                forall|k: int|
                    0 <= k < i ==> #[trigger] steps@[k] == step_of(requests@[k], windows@),
                self.forgets_all(old(self), closed_ids(requests@.take(i as int))),
            decreases requests@.len() - i,
        {
            let ghost before = *self;
            let ghost done = closed_ids(requests@.take(i as int));
            let ghost more = closed_ids(requests@.take(i + 1));
            let ghost id = requests@[i as int].window_id@;
            steps.push(self.apply_runtime_window_action(&requests[i], windows));
            proof {
                lemma_closed_ids_step(requests@, i as int);
                if requests@[i as int].action == WaylandWindowAction::FinalizeClose {
                    let start = *old(self);
                    assert(start.closing_snapshots@.difference(done).remove(id)
                        =~= start.closing_snapshots@.difference(more));
                    assert(start.live_snapshots@.difference(done).remove(id)
                        =~= start.live_snapshots@.difference(more));
                    assert(start.complete_snapshots@.difference(done).remove(id)
                        =~= start.complete_snapshots@.difference(more));
                    assert(start.ready_for_decoration@.difference(done).remove(id)
                        =~= start.ready_for_decoration@.difference(more));
                    assert(start.snapshot_dirty@.difference(done).remove(id)
                        =~= start.snapshot_dirty@.difference(more));
                    assert(start.runtime_dirty@.difference(done).remove(id)
                        =~= start.runtime_dirty@.difference(more));
                }
            }
            i += 1;
        }
        assert(requests@.take(i as int) =~= requests@);
        steps
    }

    /// These are the records after a handler of the runtime was run, if it was.
    pub open spec fn follows_handler(
        &self,
        before: &WindowRecords,
        invoked: bool,
        dirty_windows: Seq<Seq<char>>,
        next_poll_in_ms: Option<u64>,
    ) -> bool {
        &&& !invoked ==> *self == *before
        &&& invoked ==> {
            &&& self.scheduler_enabled == next_poll_in_ms is Some
            &&& self.runtime_dirty@ == before.runtime_dirty@.union(dirty_windows.to_set())
            &&& self.closing_snapshots == before.closing_snapshots
            &&& self.live_snapshots == before.live_snapshots
            &&& self.complete_snapshots == before.complete_snapshots
            &&& self.ready_for_decoration == before.ready_for_decoration
            &&& self.snapshot_dirty == before.snapshot_dirty
        }
    }

    /// Notes what a handler of the runtime asked for. Tells whether its window actions are applied
    /// and the outputs are drawn again.
    pub fn handler_invoked(
        &mut self,
        invoked: bool,
        dirty_windows: &Vec<String>,
        next_poll_in_ms: Option<u64>,
    ) -> (applies: bool)
        requires
            old(self).wf(),
        ensures
            final(self).wf(),
            applies == invoked,
            final(self).follows_handler(
                old(self),
                invoked,
                crate::seqs::texts(dirty_windows@),
                next_poll_in_ms,
            ),
    {
        if !invoked {
            return false;
        }
        self.scheduler_enabled = next_poll_in_ms.is_some();
        let ghost before = *self;
        let ghost start = self.runtime_dirty@;
        let mut i: usize = 0;
        assert(start =~= start.union(crate::seqs::texts(dirty_windows@).take(0).to_set()));
        while i < dirty_windows.len()
            invariant
                i <= dirty_windows@.len(),
                self.wf(),
                self.scheduler_enabled == before.scheduler_enabled,
                self.closing_snapshots == before.closing_snapshots,
                self.live_snapshots == before.live_snapshots,
                self.complete_snapshots == before.complete_snapshots,
                self.ready_for_decoration == before.ready_for_decoration,
                self.snapshot_dirty == before.snapshot_dirty,
                self.runtime_dirty@ == start.union(
                    crate::seqs::texts(dirty_windows@).take(i as int).to_set(),
                ),
            decreases dirty_windows@.len() - i,
        {
            let ghost texts = crate::seqs::texts(dirty_windows@);
            self.runtime_dirty.insert(dirty_windows[i].clone());
            proof {
                assert(texts.take(i + 1) =~= texts.take(i as int).push(texts[i as int]));
                assert(texts.take(i + 1).to_set() =~= texts.take(i as int).to_set().insert(
                    texts[i as int],
                )) by {
                    let a = texts.take(i + 1);
                    let b = texts.take(i as int);
                    assert forall|t: Seq<char>| a.contains(t) <==> b.contains(t) || t
                        == texts[i as int] by {
                        if b.contains(t) {
                            let k = choose|k: int| 0 <= k < b.len() && b[k] == t;
                            assert(a[k] == t);
                        }
                        if t == texts[i as int] {
                            assert(a[i as int] == t);
                        }
                        if a.contains(t) && t != texts[i as int] {
                            let k = choose|k: int| 0 <= k < a.len() && a[k] == t;
                            assert(b[k] == t);
                        }
                    }
                }
            }
            i += 1;
            assert(self.runtime_dirty@ =~= start.union(texts.take(i as int).to_set()));
        }
        assert(crate::seqs::texts(dirty_windows@).take(i as int) =~= crate::seqs::texts(
            dirty_windows@,
        ));
        true
    }
}

/// The position of the first id that is the given one.
pub open spec fn first_with_id(ids: Seq<String>, id: Seq<char>) -> Option<int>
    decreases ids.len(),
{
    if ids.len() == 0 {
        None
    } else {
        match first_with_id(ids.drop_last(), id) {
            Some(i) => Some(i),
            None => if ids.last()@ == id {
                Some(ids.len() - 1)
            } else {
                None
            },
        }
    }
}

proof fn lemma_first_with_id_stays(ids: Seq<String>, at: int, id: Seq<char>)
    requires
        0 <= at < ids.len(),
        ids[at]@ == id,
        first_with_id(ids.take(at), id) is None,
    ensures
        first_with_id(ids, id) == Some(at),
    decreases ids.len(),
{
    if at == ids.len() - 1 {
        assert(ids.drop_last() == ids.take(at));
    } else {
        assert(ids.drop_last().take(at) == ids.take(at));
        lemma_first_with_id_stays(ids.drop_last(), at, id);
    }
}

/// The position of the first window with an id.
pub fn find_window(ids: &Vec<String>, id: &str) -> (found: Option<usize>)
    ensures
        match found {
            Some(i) => first_with_id(ids@, id@) == Some(i as int),
            None => first_with_id(ids@, id@) is None,
        },
{
    let mut i: usize = 0;
    while i < ids.len()
        invariant
            i <= ids@.len(),
            first_with_id(ids@.take(i as int), id@) is None,
        decreases ids@.len() - i,
    {
        assert(ids@.take(i + 1).drop_last() == ids@.take(i as int));
        if same_text(ids[i].as_str(), id) {
            proof {
                lemma_first_with_id_stays(ids@, i as int, id@);
            }
            return Some(i);
        }
        i += 1;
    }
    assert(ids@.take(i as int) == ids@);
    None
}

/// The window that is found by an id has it, and no window before it does; without one, no window has it.
pub proof fn law_first_window_with_an_id_is_found(ids: Seq<String>, id: Seq<char>)
    ensures
        match first_with_id(ids, id) {
            Some(at) => 0 <= at < ids.len() && ids[at]@ == id && forall|i: int|
                0 <= i < at ==> (#[trigger] ids[i])@ != id,
            None => forall|i: int| 0 <= i < ids.len() ==> (#[trigger] ids[i])@ != id,
        },
    decreases ids.len(),
{
    if ids.len() > 0 {
        let head = ids.drop_last();
        law_first_window_with_an_id_is_found(head, id);
        assert forall|i: int| 0 <= i < head.len() implies #[trigger] ids[i] == head[i] by {
        }
    }
}

/// A request to close or maximize a window goes to a window with its id, if there is one, and to no other. The
/// end of a closing animation always tells that the window is gone. Everything else leads to nothing.
pub proof fn law_requests_reach_their_window(request: RuntimeWindowAction, windows: Seq<String>)
    requires
        windows.len() <= usize::MAX,
    ensures
        step_of(request, windows) is WindowClosed <==> request.action
            == WaylandWindowAction::FinalizeClose,
        step_of(request, windows) matches RuntimeActionStep::SendClose { window } ==> {
            &&& request.action == WaylandWindowAction::Close
            &&& window < windows.len()
            &&& windows[window as int]@ == request.window_id@
        },
        step_of(request, windows) matches RuntimeActionStep::Maximize { window } ==> {
            &&& request.action == WaylandWindowAction::Maximize
            &&& window < windows.len()
            &&& windows[window as int]@ == request.window_id@
        },
        step_of(request, windows) is Nothing ==> request.action == WaylandWindowAction::Minimize || (
        forall|i: int|
            0 <= i < windows.len() ==> (#[trigger] windows[i])@ != request.window_id@),
        request.action == WaylandWindowAction::Minimize ==> step_of(request, windows) is Nothing,
        request.action == WaylandWindowAction::Close ==> !(step_of(request, windows) is Maximize),
        request.action == WaylandWindowAction::Maximize ==> !(step_of(request, windows) is SendClose),
{
    law_first_window_with_an_id_is_found(windows, request.window_id@);
}

/// Forgetting one window takes its records away and leaves those of every other one.
pub proof fn law_one_window_is_forgotten(
    before: WindowRecords,
    after: WindowRecords,
    id: Seq<char>,
    other: Seq<char>,
)
    requires
        after.forgets(&before, id),
        other != id,
    ensures
        !after.closing_snapshots@.contains(id),
        !after.live_snapshots@.contains(id),
        !after.complete_snapshots@.contains(id),
        !after.ready_for_decoration@.contains(id),
        !after.snapshot_dirty@.contains(id),
        !after.runtime_dirty@.contains(id),
        after.closing_snapshots@.contains(other) == before.closing_snapshots@.contains(other),
        after.live_snapshots@.contains(other) == before.live_snapshots@.contains(other),
        after.complete_snapshots@.contains(other) == before.complete_snapshots@.contains(other),
        after.ready_for_decoration@.contains(other) == before.ready_for_decoration@.contains(other),
        after.snapshot_dirty@.contains(other) == before.snapshot_dirty@.contains(other),
        after.runtime_dirty@.contains(other) == before.runtime_dirty@.contains(other),
        after.scheduler_enabled == before.scheduler_enabled,
{
}

/// Of a window that is gone nothing is remembered, and of every other one everything is.
pub proof fn law_only_closed_windows_are_forgotten(
    before: WindowRecords,
    after: WindowRecords,
    requests: Seq<RuntimeWindowAction>,
    id: Seq<char>,
)
    requires
        after.forgets_all(&before, closed_ids(requests)),
    ensures
        (exists|i: int|
            0 <= i < requests.len() && (#[trigger] requests[i]).action
                == WaylandWindowAction::FinalizeClose && requests[i].window_id@ == id)
            ==> after.knows_nothing_of(id),
        (forall|i: int|
            0 <= i < requests.len() && (#[trigger] requests[i]).action
                == WaylandWindowAction::FinalizeClose ==> requests[i].window_id@ != id) ==> {
            &&& after.closing_snapshots@.contains(id) == before.closing_snapshots@.contains(id)
            &&& after.live_snapshots@.contains(id) == before.live_snapshots@.contains(id)
            &&& after.complete_snapshots@.contains(id) == before.complete_snapshots@.contains(id)
            &&& after.ready_for_decoration@.contains(id) == before.ready_for_decoration@.contains(id)
            &&& after.snapshot_dirty@.contains(id) == before.snapshot_dirty@.contains(id)
            &&& after.runtime_dirty@.contains(id) == before.runtime_dirty@.contains(id)
        },
        after.scheduler_enabled == before.scheduler_enabled,
{
    if exists|i: int|
        0 <= i < requests.len() && (#[trigger] requests[i]).action
            == WaylandWindowAction::FinalizeClose && requests[i].window_id@ == id {
        let i = choose|i: int|
            0 <= i < requests.len() && (#[trigger] requests[i]).action
                == WaylandWindowAction::FinalizeClose && requests[i].window_id@ == id;
        assert(closes(requests, i, id));
        assert(closed_ids(requests).contains(id));
    }
    if closed_ids(requests).contains(id) {
        let i = choose|i: int| closes(requests, i, id);
        assert(closes(requests, i, id));
        assert(requests[i].window_id@ == id);
    }
}

/// A handler that was run marks the windows that it names and no others, and is run again later exactly if it asks for that.
/// One that was not run changes nothing.
pub proof fn law_handlers_mark_their_windows(
    before: WindowRecords,
    after: WindowRecords,
    invoked: bool,
    dirty_windows: Seq<Seq<char>>,
    next_poll_in_ms: Option<u64>,
    id: Seq<char>,
)
    requires
        after.follows_handler(&before, invoked, dirty_windows, next_poll_in_ms),
    ensures
        invoked ==> (after.runtime_dirty@.contains(id) <==> before.runtime_dirty@.contains(id)
            || dirty_windows.contains(id)),
        invoked ==> (after.scheduler_enabled <==> next_poll_in_ms is Some),
        !invoked ==> after.runtime_dirty@ == before.runtime_dirty@ && after.scheduler_enabled
            == before.scheduler_enabled,
        after.live_snapshots@ == before.live_snapshots@,
        after.snapshot_dirty@ == before.snapshot_dirty@,
{
}

} // verus!
