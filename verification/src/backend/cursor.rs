//! The cursor of a frame.

use vstd::prelude::*;

verus! {

/// What a client has asked the cursor to be. `I` is a shape of the cursor theme.
#[derive(Clone, Copy, Debug, PartialEq, Eq)]
pub enum CursorStatus<I> {
    Hidden,
    Surface,
    Named(I),
}

/// Where the picture of the cursor comes from.
#[derive(Clone, Copy, Debug, PartialEq, Eq)]
pub enum CursorImage<I> {
    Surface,
    Themed(I),
}

/// The status after a look at its surface: a surface that is gone leaves the default shape.
pub open spec fn kept_status<I>(status: CursorStatus<I>, surface_alive: bool, default: I) ->
    CursorStatus<I> {
    if status is Surface && !surface_alive {
        CursorStatus::Named(default)
    } else {
        status
    }
}

/// The status that is drawn: a shape that the compositor has put in its place goes before it.
pub open spec fn effective_status<I>(
    status: CursorStatus<I>,
    cursor_override: Option<I>,
) -> CursorStatus<I> {
    match cursor_override {
        Some(icon) => CursorStatus::Named(icon),
        None => status,
    }
}

/// The picture of a status. A hidden cursor stands by with the default shape.
pub open spec fn image_of<I>(status: CursorStatus<I>, default: I) -> CursorImage<I> {
    match status {
        CursorStatus::Surface => CursorImage::Surface,
        CursorStatus::Named(icon) => CursorImage::Themed(icon),
        CursorStatus::Hidden => CursorImage::Themed(default),
    }
}

/// The cursor of a frame, as its status and its picture.
pub open spec fn frame_cursor<I>(
    status: CursorStatus<I>,
    surface_alive: bool,
    cursor_override: Option<I>,
    default: I,
    pointer_on_output: bool,
) -> Option<(CursorStatus<I>, CursorImage<I>)> {
    if pointer_on_output {
        let effective = effective_status(
            kept_status(status, surface_alive, default),
            cursor_override,
        );
        Some((effective, image_of(effective, default)))
    } else {
        None
    }
}

/// A cursor shows exactly on the output with the pointer. A shape that the compositor has put in place of the
/// client's is drawn whatever the client asked for; without one, the shape that the client asked for is drawn, or
/// its surface as long as that lives. A hidden cursor stays hidden, with the default shape at hand.
pub proof fn law_cursor_is_shown_as_asked<I>(
    status: CursorStatus<I>,
    surface_alive: bool,
    icon: I,
    other: I,
    default: I,
)
    ensures
        frame_cursor(status, surface_alive, Some(icon), default, false) is None,
        frame_cursor(status, surface_alive, None, default, false) is None,
        frame_cursor(status, surface_alive, Some(icon), default, true) == Some(
            (CursorStatus::Named(icon), CursorImage::Themed(icon)),
        ),
        frame_cursor(CursorStatus::Named(other), surface_alive, None, default, true) == Some(
            (CursorStatus::Named(other), CursorImage::Themed(other)),
        ),
        frame_cursor(CursorStatus::Surface, true, None, default, true) == Some(
            (CursorStatus::<I>::Surface, CursorImage::<I>::Surface),
        ),
        frame_cursor(CursorStatus::Surface, false, None, default, true) == Some(
            (CursorStatus::Named(default), CursorImage::Themed(default)),
        ),
        frame_cursor(CursorStatus::Hidden, surface_alive, None, default, true) == Some(
            (CursorStatus::<I>::Hidden, CursorImage::Themed(default)),
        ),
{
}

/// Only a surface that is gone changes what the client asked for.
pub proof fn law_only_dead_surfaces_are_dropped<I>(
    status: CursorStatus<I>,
    surface_alive: bool,
    default: I,
)
    ensures
        kept_status(status, true, default) == status,
        !(status is Surface) ==> kept_status(status, surface_alive, default) == status,
        status is Surface && !surface_alive ==> kept_status(status, surface_alive, default)
            == CursorStatus::Named(default),
{
}

/// Chooses the cursor of a frame, as its status and its picture. An output without the pointer has
/// none.
pub fn shown_cursor<I: Copy>(
    status: &mut CursorStatus<I>,
    surface_alive: bool,
    cursor_override: Option<I>,
    default: I,
    pointer_on_output: bool,
) -> (shown: Option<(CursorStatus<I>, CursorImage<I>)>)
    ensures
        *final(status) == (if pointer_on_output {
            kept_status(*old(status), surface_alive, default)
        } else {
            *old(status)
        }),
        shown == frame_cursor(
            *old(status),
            surface_alive,
            cursor_override,
            default,
            pointer_on_output,
        ),
{
    if !pointer_on_output {
        return None;
    }
    if let CursorStatus::Surface = *status {
        if !surface_alive {
            *status = CursorStatus::Named(default);
        }
    }
    let effective = match cursor_override {
        Some(icon) => CursorStatus::Named(icon),
        None => *status,
    };
    let image = match effective {
        CursorStatus::Surface => CursorImage::Surface,
        CursorStatus::Named(icon) => CursorImage::Themed(icon),
        CursorStatus::Hidden => CursorImage::Themed(default),
    };
    Some((effective, image))
}

/// No frame draws the surface of a cursor that is gone.
pub proof fn law_dead_surface_is_not_drawn<I>(
    status: CursorStatus<I>,
    cursor_override: Option<I>,
    default: I,
)
    ensures
        image_of(effective_status(kept_status(status, false, default), cursor_override), default)
            is Themed,
{
}

} // verus!
