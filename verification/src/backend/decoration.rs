//! How the parts of a window decoration are drawn.

use crate::backend::scene::sort_by_order;
use crate::backend::window::intersect_logical_rects;
use crate::geometry::{max_i32, LogicalRect};
use crate::strings::same_text;
use vstd::prelude::*;

verus! {

/// Switches that change how decorations are drawn, to find gaps between their parts.
#[derive(Clone, Copy, Debug, PartialEq, Eq, Structural)]
pub struct GapSwitches {
    pub disable_decoration_clip: bool,
    pub disable_border_inner: bool,
    pub disable_titlebar_clip: bool,
    pub show_border_inner: bool,
    pub show_titlebar_clip: bool,
    pub show_border_shell: bool,
    pub show_border_shell_only: bool,
}

/// The height by which a titlebar is known.
pub const TITLEBAR_HEIGHT: i32 = 30;

/// A filled or bordered part of a decoration.
#[derive(Clone, Debug)]
pub struct RoundedBuffer {
    pub rect: LogicalRect,
    /// What the part belongs to, such as `window-border` or `fill`.
    pub source_kind: String,
    /// The border has a positive width.
    pub has_border: bool,
    /// The hole is the one of a neighbour.
    pub shared_inner_hole: bool,
    pub hole_rect: Option<LogicalRect>,
    pub clip_rect: Option<LogicalRect>,
    /// The rectangle, the hole, or the clip is also known with fractions.
    pub rect_is_precise: bool,
    pub hole_is_precise: bool,
    pub clip_is_precise: bool,
}

/// Where the inner edge of a part comes from.
#[derive(Clone, Copy, Debug, PartialEq, Eq, Structural)]
pub enum InnerSource {
    Absent,
    /// The hole in whole logical pixels, as seen from the part.
    Hole { x: i32, y: i32, width: i32, height: i32 },
    /// The hole with fractions, snapped to physical pixels.
    SnappedPreciseHole,
    /// The part's own edge, moved in by the width of the border.
    BorderInset,
    /// The hole with fractions, as it is.
    PreciseHole,
    /// The hole in whole logical pixels, snapped to physical pixels.
    SnappedHole,
}

/// Where the clip of a part comes from.
#[derive(Clone, Copy, Debug, PartialEq, Eq, Structural)]
pub enum ClipSource {
    Absent,
    Precise,
    Snapped,
}

/// How the shader treats the inside of a part.
#[derive(Clone, Copy, Debug, PartialEq, Eq, Structural)]
pub enum RoundedInnerMode {
    /// All of the inside is filled.
    Filled,
    /// The inner edge is given.
    Explicit,
    /// The inner edge follows from the width of the border.
    DerivedInset,
}

/// Which scale a part is drawn with: that of its hole, or its own.
#[derive(Clone, Copy, Debug, PartialEq, Eq, Structural)]
pub enum ScaleSource {
    Hole { logical_width: i32 },
    Part { logical_width: i32 },
}

/// How a part of a decoration is drawn.
#[derive(Clone, Copy, Debug, PartialEq, Eq, Structural)]
pub struct RoundedPlan {
    /// The part as seen from the window's root.
    pub local_rect: LogicalRect,
    pub inner: InnerSource,
    /// The inner edge may be moved in for debugging.
    pub shrinks_inner: bool,
    pub inner_mode: RoundedInnerMode,
    pub clip: ClipSource,
    pub render_scale: ScaleSource,
    pub debug_inner_only: bool,
    pub debug_clip_only: bool,
    pub debug_shell_only: bool,
}

/// The part belongs to the border of a window.
pub open spec fn is_window_border(buffer: RoundedBuffer) -> bool {
    buffer.source_kind@ == "window-border"@
}

/// The part is drawn on the output.
pub open spec fn is_shown(buffer: RoundedBuffer, output: LogicalRect, switches: GapSwitches) -> bool {
    &&& !switches.show_border_shell_only || is_window_border(buffer)
    &&& crate::backend::window::overlap(buffer.rect, output)
}

/// A number, or zero if it is negative.
pub open spec fn at_least_zero(n: int) -> i32 {
    crate::geometry::larger(n, 0) as i32
}

/// Where the inner edge of a part comes from. A border with a hole of its own takes it from the
/// hole, one without from its width; every other part takes it from its hole if it has one.
pub open spec fn inner_source(buffer: RoundedBuffer) -> InnerSource {
    if buffer.has_border && !buffer.shared_inner_hole {
        match buffer.hole_rect {
            Some(hole) => InnerSource::Hole {
                x: at_least_zero(hole.x - buffer.rect.x),
                y: at_least_zero(hole.y - buffer.rect.y),
                width: at_least_zero(hole.width as int),
                height: at_least_zero(hole.height as int),
            },
            None => if buffer.hole_is_precise {
                InnerSource::SnappedPreciseHole
            } else {
                InnerSource::BorderInset
            },
        }
    } else if buffer.hole_is_precise {
        InnerSource::PreciseHole
    } else if buffer.hole_rect is Some {
        InnerSource::SnappedHole
    } else {
        InnerSource::Absent
    }
}

/// Where the clip of a part comes from.
pub open spec fn clip_source(buffer: RoundedBuffer, switches: GapSwitches) -> ClipSource {
    if (switches.disable_decoration_clip && !is_window_border(buffer)) || (
    switches.disable_titlebar_clip && buffer.rect.height == TITLEBAR_HEIGHT) {
        ClipSource::Absent
    } else if buffer.clip_is_precise {
        ClipSource::Precise
    } else if buffer.clip_rect is Some {
        ClipSource::Snapped
    } else {
        ClipSource::Absent
    }
}

/// The inner edge that is drawn, if debugging does not hide it.
pub open spec fn drawn_inner(buffer: RoundedBuffer, switches: GapSwitches) -> InnerSource {
    if switches.disable_border_inner && is_window_border(buffer) {
        InnerSource::Absent
    } else {
        inner_source(buffer)
    }
}

/// How a part of a decoration is drawn.
pub open spec fn rounded_plan(buffer: RoundedBuffer, root: LogicalRect, switches: GapSwitches) -> RoundedPlan {
    let border = is_window_border(buffer);
    let inner = drawn_inner(buffer, switches);
    RoundedPlan {
        local_rect: buffer.rect.relative_to(root),
        inner,
        shrinks_inner: border && inner != InnerSource::Absent,
        inner_mode: if !buffer.has_border {
            RoundedInnerMode::Filled
        } else if inner != InnerSource::Absent {
            RoundedInnerMode::Explicit
        } else {
            RoundedInnerMode::DerivedInset
        },
        clip: clip_source(buffer, switches),
        render_scale: match buffer.hole_rect {
            Some(hole) if border => ScaleSource::Hole {
                logical_width: crate::geometry::larger(hole.width as int, 1) as i32,
            },
            _ => ScaleSource::Part {
                logical_width: crate::geometry::larger(buffer.rect.width as int, 1) as i32,
            },
        },
        debug_inner_only: border && switches.show_border_inner,
        debug_clip_only: buffer.source_kind@ == "fill"@ && switches.show_titlebar_clip
            && buffer.rect.height == TITLEBAR_HEIGHT,
        debug_shell_only: border && switches.show_border_shell,
    }
}

/// A part of a decoration shows exactly if it shares a pixel with the output, as long as debugging does not hide it;
/// and debugging never hides the border of a window.
pub proof fn law_parts_show_on_their_output(
    buffer: RoundedBuffer,
    output: LogicalRect,
    switches: GapSwitches,
)
    ensures
        !switches.show_border_shell_only ==> (is_shown(buffer, output, switches) <==> exists|
            px: int,
            py: int,
        |
            buffer.rect.contains(px, py) && #[trigger] output.contains(px, py)),
        is_window_border(buffer) ==> (is_shown(buffer, output, switches) <==> exists|
            px: int,
            py: int,
        |
            buffer.rect.contains(px, py) && #[trigger] output.contains(px, py)),
        switches.show_border_shell_only && !is_window_border(buffer) ==> !is_shown(
            buffer,
            output,
            switches,
        ),
{
    crate::backend::window::law_overlap_is_a_common_pixel(buffer.rect, output);
}

/// The hole of a border is measured from the part: as far as it lies inside, its pixels are those of the hole, as
/// seen from the corner of the part. Fractions are kept where the part does not draw the border itself.
pub proof fn law_inner_edge_is_the_hole(buffer: RoundedBuffer, hole: LogicalRect, px: int, py: int)
    ensures
        buffer.has_border && !buffer.shared_inner_hole && buffer.hole_rect == Some(hole) && hole.x
            >= buffer.rect.x && hole.y >= buffer.rect.y && hole.width >= 0 && hole.height >= 0
            && hole.moves(-buffer.rect.x, -buffer.rect.y) ==> (inner_source(buffer) matches
            InnerSource::Hole { x, y, width, height } && (hole.contains(px, py) <==> x <= px
            - buffer.rect.x < x + width && y <= py - buffer.rect.y < y + height)),
        buffer.has_border && !buffer.shared_inner_hole && buffer.hole_rect is None
            && buffer.hole_is_precise ==> inner_source(buffer) == InnerSource::SnappedPreciseHole,
        buffer.has_border && !buffer.shared_inner_hole && buffer.hole_rect is None
            && !buffer.hole_is_precise ==> inner_source(buffer) == InnerSource::BorderInset,
        (!buffer.has_border || buffer.shared_inner_hole) && buffer.hole_is_precise ==> inner_source(
            buffer,
        ) == InnerSource::PreciseHole,
        (!buffer.has_border || buffer.shared_inner_hole) && !buffer.hole_is_precise
            && buffer.hole_rect is Some ==> inner_source(buffer) == InnerSource::SnappedHole,
        (!buffer.has_border || buffer.shared_inner_hole) && !buffer.hole_is_precise
            && buffer.hole_rect is None ==> inner_source(buffer) == InnerSource::Absent,
{
}

/// A hole never reaches out of its part to the left or above, and has no negative size.
pub proof fn law_holes_stay_inside(buffer: RoundedBuffer)
    requires
        hole_measures(buffer),
    ensures
        inner_source(buffer) matches InnerSource::Hole { x, y, width, height } ==> x >= 0 && y >= 0
            && width >= 0 && height >= 0,
{
}

/// How a part is drawn without debugging: it keeps its clip, with fractions where they are known, the scale comes from
/// the hole of a window's border and else from the part, and no debugging picture is drawn. The part is placed as seen
/// from the root of its window.
pub proof fn law_parts_are_drawn_as_they_are(
    buffer: RoundedBuffer,
    root: LogicalRect,
    switches: GapSwitches,
    px: int,
    py: int,
)
    requires
        !switches.disable_decoration_clip,
        !switches.disable_border_inner,
        !switches.disable_titlebar_clip,
        !switches.show_border_inner,
        !switches.show_titlebar_clip,
        !switches.show_border_shell,
        buffer.rect.moves(-root.x, -root.y),
    ensures
        ({
            let plan = rounded_plan(buffer, root, switches);
            &&& plan.inner == inner_source(buffer)
            &&& plan.clip == ClipSource::Precise <==> buffer.clip_is_precise
            &&& plan.clip == ClipSource::Snapped <==> !buffer.clip_is_precise
                && buffer.clip_rect is Some
            &&& plan.local_rect.contains(px - root.x, py - root.y) <==> buffer.rect.contains(px, py)
            &&& plan.render_scale is Hole <==> is_window_border(buffer) && buffer.hole_rect is Some
            &&& plan.render_scale matches ScaleSource::Hole { logical_width } ==> (
            buffer.hole_rect->0.width >= 1 ==> logical_width == buffer.hole_rect->0.width)
                && logical_width >= 1
            &&& plan.render_scale matches ScaleSource::Part { logical_width } ==> (buffer.rect.width
                >= 1 ==> logical_width == buffer.rect.width) && logical_width >= 1
            &&& !plan.debug_inner_only && !plan.debug_clip_only && !plan.debug_shell_only
            &&& plan.inner_mode == RoundedInnerMode::Filled <==> !buffer.has_border
            &&& plan.inner_mode == RoundedInnerMode::Explicit <==> buffer.has_border && plan.inner
                != InnerSource::Absent
            &&& plan.shrinks_inner <==> is_window_border(buffer) && plan.inner
                != InnerSource::Absent
        }),
{
}

/// Each switch hides or shows only what it is for: the clip of parts that are not a window's border, the clip of a
/// titlebar, the inner edge of a window's border, and the pictures of the border and of the clip of a titlebar.
pub proof fn law_switches_change_what_they_are_for(
    buffer: RoundedBuffer,
    root: LogicalRect,
    switches: GapSwitches,
)
    ensures
        ({
            let plan = rounded_plan(buffer, root, switches);
            let titlebar = buffer.rect.height == 30;
            &&& switches.disable_decoration_clip && !is_window_border(buffer) ==> plan.clip
                == ClipSource::Absent
            &&& switches.disable_titlebar_clip && titlebar ==> plan.clip == ClipSource::Absent
            &&& switches.disable_border_inner && is_window_border(buffer) ==> plan.inner
                == InnerSource::Absent
            &&& !is_window_border(buffer) ==> plan.inner == inner_source(buffer)
                && !plan.debug_inner_only && !plan.debug_shell_only
            &&& is_window_border(buffer) ==> plan.debug_inner_only == switches.show_border_inner
                && plan.debug_shell_only == switches.show_border_shell
            &&& plan.debug_clip_only ==> switches.show_titlebar_clip && titlebar
                && buffer.source_kind@ == "fill"@
            &&& switches.show_titlebar_clip && titlebar && buffer.source_kind@ == "fill"@
                ==> plan.debug_clip_only
        }),
{
}

/// The hole can be measured from the part.
pub open spec fn hole_measures(buffer: RoundedBuffer) -> bool {
    buffer.hole_rect matches Some(hole) ==> hole.moves(-buffer.rect.x, -buffer.rect.y)
}

/// How a filled or bordered part of a decoration is drawn on an output.
pub open spec fn shown_plan(
    buffer: RoundedBuffer,
    root: LogicalRect,
    output: LogicalRect,
    switches: GapSwitches,
) -> Option<RoundedPlan> {
    if is_shown(buffer, output, switches) {
        Some(rounded_plan(buffer, root, switches))
    } else {
        None
    }
}

/// A part is drawn, as it is planned, exactly if it shows.
pub proof fn law_shown_parts_are_drawn(
    buffer: RoundedBuffer,
    root: LogicalRect,
    output: LogicalRect,
    switches: GapSwitches,
)
    ensures
        is_shown(buffer, output, switches) ==> shown_plan(buffer, root, output, switches) == Some(
            rounded_plan(buffer, root, switches),
        ),
        !is_shown(buffer, output, switches) ==> shown_plan(buffer, root, output, switches) is None,
{
}

/// What is said of the border of a window holds of the parts with the source `window-border`: they alone are
/// shown where only the border is, and of the two switches that lay a border bare each lays bare what it names.
pub proof fn law_borders_are_known_by_their_source(
    buffer: RoundedBuffer,
    root: LogicalRect,
    output: LogicalRect,
    switches: GapSwitches,
)
    requires
        shown_plan(buffer, root, output, switches) is Some,
    ensures
        ({
            let plan = shown_plan(buffer, root, output, switches)->0;
            let border = buffer.source_kind@ == "window-border"@;
            &&& switches.show_border_shell_only ==> border
            &&& plan.debug_inner_only <==> border && switches.show_border_inner
            &&& plan.debug_shell_only <==> border && switches.show_border_shell
            &&& plan.render_scale is Hole <==> border && buffer.hole_rect is Some
            &&& !border ==> !plan.shrinks_inner
        }),
{
}

/// Decides how a filled or bordered part of a decoration is drawn; not at all if it lies outside
/// the output.
pub fn rounded_rect_element(
    buffer: &RoundedBuffer,
    root: LogicalRect,
    output: LogicalRect,
    switches: GapSwitches,
) -> (plan: Option<RoundedPlan>)
    requires
        buffer.rect.edges_fit(),
        output.edges_fit(),
        is_shown(*buffer, output, switches) ==> buffer.rect.moves(-root.x, -root.y),
        is_shown(*buffer, output, switches) && buffer.has_border && !buffer.shared_inner_hole
            ==> hole_measures(*buffer),
    ensures
        plan == shown_plan(*buffer, root, output, switches),
{
    let border: bool = same_text(buffer.source_kind.as_str(), "window-border");
    let fill: bool = same_text(buffer.source_kind.as_str(), "fill");
    if switches.show_border_shell_only && !border {
        return None;
    }
    if intersect_logical_rects(buffer.rect, output).is_none() {
        return None;
    }
    let titlebar: bool = buffer.rect.height == TITLEBAR_HEIGHT;
    let quantized: Option<InnerSource> = if buffer.has_border && !buffer.shared_inner_hole {
        Some(
            match buffer.hole_rect {
                Some(hole) => InnerSource::Hole {
                    x: max_i32(hole.x - buffer.rect.x, 0),
                    y: max_i32(hole.y - buffer.rect.y, 0),
                    width: max_i32(hole.width, 0),
                    height: max_i32(hole.height, 0),
                },
                None => if buffer.hole_is_precise {
                    InnerSource::SnappedPreciseHole
                } else {
                    InnerSource::BorderInset
                },
            },
        )
    } else {
        None
    };
    let clip = if (switches.disable_decoration_clip && !border) || (switches.disable_titlebar_clip
        && titlebar) {
        ClipSource::Absent
    } else if buffer.clip_is_precise {
        ClipSource::Precise
    } else if buffer.clip_rect.is_some() {
        ClipSource::Snapped
    } else {
        ClipSource::Absent
    };
    let inner = match quantized {
        Some(inner) => inner,
        None => if buffer.hole_is_precise {
            InnerSource::PreciseHole
        } else if buffer.hole_rect.is_some() {
            InnerSource::SnappedHole
        } else {
            InnerSource::Absent
        },
    };
    let inner = if switches.disable_border_inner && border {
        InnerSource::Absent
    } else {
        inner
    };
    let inner_mode = if !buffer.has_border {
        RoundedInnerMode::Filled
    } else if inner != InnerSource::Absent {
        RoundedInnerMode::Explicit
    } else {
        RoundedInnerMode::DerivedInset
    };
    let own_scale = ScaleSource::Part { logical_width: max_i32(buffer.rect.width, 1) };
    let render_scale = match buffer.hole_rect {
        Some(hole) => if border {
            ScaleSource::Hole { logical_width: max_i32(hole.width, 1) }
        } else {
            own_scale
        },
        None => own_scale,
    };
    Some(
        RoundedPlan {
            local_rect: buffer.rect.localize(root),
            inner,
            shrinks_inner: border && inner != InnerSource::Absent,
            inner_mode,
            clip,
            render_scale,
            debug_inner_only: border && switches.show_border_inner,
            debug_clip_only: fill && switches.show_titlebar_clip && titlebar,
            debug_shell_only: border && switches.show_border_shell,
        },
    )
}

/// Without debugging, a border that shares no hole with another part has an inner edge, and a part
/// without a border is filled.
pub proof fn law_border_has_inner_edge(buffer: RoundedBuffer, root: LogicalRect, switches: GapSwitches)
    requires
        !switches.disable_border_inner,
    ensures
        buffer.has_border && !buffer.shared_inner_hole ==> rounded_plan(
            buffer,
            root,
            switches,
        ).inner_mode == RoundedInnerMode::Explicit,
        !buffer.has_border ==> rounded_plan(buffer, root, switches).inner_mode
            == RoundedInnerMode::Filled,
{
}

/// A shader effect of a decoration.
#[derive(Clone, Debug)]
pub struct ShaderBuffer {
    pub rect: LogicalRect,
    pub clip_rect: Option<LogicalRect>,
    pub clip_radius: i32,
    /// The rectangle and the clip are also known with fractions.
    pub rect_is_precise: bool,
    pub clip_is_precise: bool,
    /// The radius of the clip with fractions, rounded to the nearest pixel.
    pub rounded_clip_radius: Option<i32>,
}

/// How a shader effect of a decoration is drawn.
#[derive(Clone, Copy, Debug, PartialEq, Eq, Structural)]
pub struct ShaderPlan {
    pub local_rect: LogicalRect,
    pub clip: ClipSource,
    pub clip_radius: i32,
}

/// Debugging hides the clip of a shader effect.
pub open spec fn hides_clip(buffer: ShaderBuffer, switches: GapSwitches) -> bool {
    switches.disable_decoration_clip || (switches.disable_titlebar_clip && buffer.rect.height
        == TITLEBAR_HEIGHT)
}

/// How a shader effect of a decoration is drawn.
pub open spec fn shader_plan(buffer: ShaderBuffer, root: LogicalRect, switches: GapSwitches) -> ShaderPlan {
    ShaderPlan {
        local_rect: buffer.rect.relative_to(root),
        clip: if hides_clip(buffer, switches) {
            ClipSource::Absent
        } else if buffer.clip_rect is Some {
            ClipSource::Snapped
        } else if buffer.rect_is_precise && buffer.clip_is_precise {
            ClipSource::Precise
        } else {
            ClipSource::Absent
        },
        clip_radius: if hides_clip(buffer, switches) {
            0
        } else {
            match buffer.rounded_clip_radius {
                Some(radius) => radius,
                None => buffer.clip_radius,
            }
        },
    }
}

/// A shader effect is placed as seen from the root of its window. Without debugging it keeps its clip, in whole pixels
/// where they are known and else with fractions, and the radius with fractions goes before the other; a clip that
/// debugging hides has no radius.
pub proof fn law_shader_effects_are_drawn_as_they_are(
    buffer: ShaderBuffer,
    root: LogicalRect,
    switches: GapSwitches,
    px: int,
    py: int,
)
    requires
        buffer.rect.moves(-root.x, -root.y),
    ensures
        ({
            let plan = shader_plan(buffer, root, switches);
            &&& plan.local_rect.contains(px - root.x, py - root.y) <==> buffer.rect.contains(px, py)
            &&& !switches.disable_decoration_clip && !switches.disable_titlebar_clip ==> {
                &&& buffer.clip_rect is Some ==> plan.clip == ClipSource::Snapped
                &&& buffer.clip_rect is None && buffer.rect_is_precise && buffer.clip_is_precise
                    ==> plan.clip == ClipSource::Precise
                &&& buffer.clip_rect is None && !(buffer.rect_is_precise && buffer.clip_is_precise)
                    ==> plan.clip == ClipSource::Absent
                &&& buffer.rounded_clip_radius is Some ==> plan.clip_radius
                    == buffer.rounded_clip_radius->0
                &&& buffer.rounded_clip_radius is None ==> plan.clip_radius == buffer.clip_radius
            }
            &&& switches.disable_decoration_clip || switches.disable_titlebar_clip
                && buffer.rect.height == 30 ==> plan.clip == ClipSource::Absent
                && plan.clip_radius == 0
        }),
{
}

/// How a shader effect of a decoration is drawn on an output.
pub open spec fn shown_shader_plan(
    buffer: ShaderBuffer,
    root: LogicalRect,
    output: LogicalRect,
    switches: GapSwitches,
) -> Option<ShaderPlan> {
    if !switches.show_border_shell_only && crate::backend::window::overlap(buffer.rect, output) {
        Some(shader_plan(buffer, root, switches))
    } else {
        None
    }
}

/// A shader effect is drawn, as it is planned, exactly if it shares a pixel with the output and debugging does not hide it.
pub proof fn law_shader_effects_show_on_their_output(
    buffer: ShaderBuffer,
    root: LogicalRect,
    output: LogicalRect,
    switches: GapSwitches,
)
    ensures
        shown_shader_plan(buffer, root, output, switches) is Some <==> !switches.show_border_shell_only
            && exists|px: int, py: int|
            buffer.rect.contains(px, py) && #[trigger] output.contains(px, py),
        shown_shader_plan(buffer, root, output, switches) is Some ==> shown_shader_plan(
            buffer,
            root,
            output,
            switches,
        )->0 == shader_plan(buffer, root, switches),
{
    crate::backend::window::law_overlap_is_a_common_pixel(buffer.rect, output);
}

/// Decides how a shader effect of a decoration is drawn; not at all if it lies outside the output.
pub fn shader_effect_element(
    buffer: &ShaderBuffer,
    root: LogicalRect,
    output: LogicalRect,
    switches: GapSwitches,
) -> (plan: Option<ShaderPlan>)
    requires
        buffer.rect.edges_fit(),
        output.edges_fit(),
        !switches.show_border_shell_only && crate::backend::window::overlap(buffer.rect, output)
            ==> buffer.rect.moves(-root.x, -root.y),
    ensures
        plan == shown_shader_plan(*buffer, root, output, switches),
{
    if switches.show_border_shell_only {
        return None;
    }
    if intersect_logical_rects(buffer.rect, output).is_none() {
        return None;
    }
    let hidden: bool = switches.disable_decoration_clip || (switches.disable_titlebar_clip
        && buffer.rect.height == TITLEBAR_HEIGHT);
    let clip = if hidden {
        ClipSource::Absent
    } else if buffer.clip_rect.is_some() {
        ClipSource::Snapped
    } else if buffer.rect_is_precise && buffer.clip_is_precise {
        ClipSource::Precise
    } else {
        ClipSource::Absent
    };
    let clip_radius: i32 = if hidden {
        0
    } else {
        match buffer.rounded_clip_radius {
            Some(radius) => radius,
            None => buffer.clip_radius,
        }
    };
    Some(ShaderPlan { local_rect: buffer.rect.localize(root), clip, clip_radius })
}

/// Where a label or an icon of a decoration stands on the output.
pub open spec fn place_on_output(rect: LogicalRect, output: LogicalRect) -> Option<(i32, i32)> {
    if crate::backend::window::overlap(rect, output) {
        Some(((rect.x - output.x) as i32, (rect.y - output.y) as i32))
    } else {
        None
    }
}

/// A picture stands on an output exactly if it shares a pixel with it, as far from the corner of the output as it lies
/// from there in the space of all outputs.
pub proof fn law_pictures_stand_where_they_lie(rect: LogicalRect, output: LogicalRect)
    requires
        rect.edges_fit(),
        output.edges_fit(),
    ensures
        place_on_output(rect, output) is Some <==> exists|px: int, py: int|
            rect.contains(px, py) && #[trigger] output.contains(px, py),
        place_on_output(rect, output) matches Some((x, y)) ==> output.x + x == rect.x && output.y + y
            == rect.y,
{
    crate::backend::window::law_overlap_is_a_common_pixel(rect, output);
}

/// Where a label or an icon of a decoration stands on the output; nowhere if it lies outside.
pub fn texture_element_position(rect: LogicalRect, output: LogicalRect) -> (position: Option<(i32, i32)>)
    requires
        rect.edges_fit(),
        output.edges_fit(),
    ensures
        position == place_on_output(rect, output),
{
    if intersect_logical_rects(rect, output).is_none() {
        return None;
    }
    Some((rect.x - output.x, rect.y - output.y))
}

/// The backgrounds of a decoration in drawing order: the filled and bordered parts, then the
/// shader effects that need no texture, each by its order.
pub fn ordered_background_elements<T>(rounded: Vec<(usize, T)>, shaders: Vec<(usize, T)>) -> (items:
    Vec<(usize, T)>)
    ensures
        items@ == crate::backend::scene::in_order(rounded@ + shaders@),
{
    let mut items = rounded;
    let mut shaders = shaders;
    items.append(&mut shaders);
    sort_by_order(items)
}

/// How often the drawn form of a part has changed.
#[derive(Clone, Copy, Debug, PartialEq, Eq, Structural)]
pub struct ElementCommits {
    pub commit_counter: usize,
}

impl Default for ElementCommits {
    fn default() -> (state: ElementCommits)
        ensures
            state.commit_counter == 0,
    {
        ElementCommits { commit_counter: 0 }
    }
}

impl ElementCommits {
    /// The counter after the part was drawn.
    pub open spec fn after_drawing(self, unchanged: bool) -> ElementCommits {
        ElementCommits {
            commit_counter: if unchanged {
                self.commit_counter
            } else {
                crate::backend::effect_cache::next_commit(self.commit_counter)
            },
        }
    }

    /// Notes that the part is drawn, and whether it looks as it did before. Returns the counter to
    /// draw it with.
    pub fn draw(&mut self, unchanged: bool) -> (counter: usize)
        ensures
            counter == final(self).commit_counter,
            *final(self) == old(self).after_drawing(unchanged),
    {
        if !unchanged {
            self.commit_counter = self.commit_counter.wrapping_add(1);
        }
        self.commit_counter
    }
}

/// The counter of a part tells of every change and of nothing else: it stays while the part looks as it did, and is another
/// one as soon as it does not.
pub proof fn law_counter_tells_of_changes(commits: ElementCommits)
    ensures
        commits.after_drawing(true) == commits,
        commits.after_drawing(false).commit_counter != commits.commit_counter,
        commits.commit_counter < usize::MAX ==> commits.after_drawing(false).commit_counter
            == commits.commit_counter + 1,
{
}

/// The backgrounds of a decoration are drawn by their orders, the filled parts before the effects of the same order; none
/// is lost and none is added.
pub proof fn law_backgrounds_are_drawn_by_order<T>(
    rounded: Seq<(usize, T)>,
    shaders: Seq<(usize, T)>,
    i: int,
    j: int,
)
    ensures
        ({
            let items = crate::backend::scene::in_order(rounded + shaders);
            &&& items.len() == rounded.len() + shaders.len()
            &&& 0 <= i < j < items.len() ==> items[i].0 <= items[j].0
            &&& crate::backend::scene::elements(items).to_multiset()
                == crate::backend::scene::elements(rounded + shaders).to_multiset()
        }),
{
    crate::backend::scene::law_in_order_is_stable(rounded + shaders);
    crate::backend::scene::law_sorting_keeps_all(rounded + shaders);
}

} // verus!
