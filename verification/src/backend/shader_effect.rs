//! Shader effects of decorations.

use crate::backend::effect::{
    backdrop_cache_key, plan_window_backdrop, EffectInputs, EffectPlan, EffectScene,
};
use crate::geometry::{max_i32, LogicalRect};
use vstd::prelude::*;

verus! {

/// What stands before the source of a pixel shader.
pub const PIXEL_SHADER_HEAD: &'static str = "\nprecision highp float;\n\nuniform float alpha;\nuniform vec2 size;\nuniform float render_scale;\nuniform float clip_enabled;\nuniform vec4 clip_rect;\nuniform vec4 clip_radius;\n\nvarying vec2 v_coords;\n\nfloat rounded_rect_alpha(vec2 coords, vec2 rect_size, vec4 radius) {\n    if (coords.x < 0.0 || coords.y < 0.0 || coords.x > rect_size.x || coords.y > rect_size.y) {\n        return 0.0;\n    }\n\n    vec2 center;\n    float r;\n\n    if (coords.x < radius.x && coords.y < radius.x) {\n        r = radius.x;\n        center = vec2(r, r);\n    } else if (coords.x > rect_size.x - radius.y && coords.y < radius.y) {\n        r = radius.y;\n        center = vec2(rect_size.x - r, r);\n    } else if (coords.x > rect_size.x - radius.z && coords.y > rect_size.y - radius.z) {\n        r = radius.z;\n        center = vec2(rect_size.x - r, rect_size.y - r);\n    } else if (coords.x < radius.w && coords.y > rect_size.y - radius.w) {\n        r = radius.w;\n        center = vec2(r, rect_size.y - r);\n    } else {\n        return 1.0;\n    }\n\n    float dist = distance(coords, center);\n    float half_px = 0.5 / max(render_scale, 1.0);\n    return 1.0 - smoothstep(r - half_px, r + half_px, dist);\n}\n\n";

/// What stands behind the source of a pixel shader.
pub const PIXEL_SHADER_TAIL: &'static str = "\n\nvoid main() {\n    vec2 coords = v_coords * size;\n    vec4 color = shader_main(coords, size);\n    color.a *= alpha;\n    color.rgb *= color.a;\n    if (clip_enabled > 0.5) {\n        vec2 clip_coords = coords - clip_rect.xy;\n        color *= rounded_rect_alpha(clip_coords, clip_rect.zw, clip_radius);\n    }\n    gl_FragColor = color;\n}\n";

/// What stands before the source of a shader that reads the backdrop.
pub const BACKDROP_SHADER_HEAD: &'static str = "\n//_DEFINES_\n\n#if defined(EXTERNAL)\n#extension GL_OES_EGL_image_external : require\n#endif\n\nprecision mediump float;\n\n#if defined(EXTERNAL)\nuniform samplerExternalOES tex;\n#else\nuniform sampler2D tex;\n#endif\n\nuniform float alpha;\nuniform vec2 uv_offset;\nuniform vec2 uv_scale;\nuniform vec2 rect_size;\nuniform float render_scale;\nuniform float clip_enabled;\nuniform vec4 clip_rect;\nuniform vec4 clip_radius;\n\nvarying vec2 v_coords;\n\n#if defined(DEBUG_FLAGS)\nuniform float tint;\n#endif\n\nfloat rounded_rect_alpha(vec2 coords, vec2 rect_size, vec4 radius) {\n    if (coords.x < 0.0 || coords.y < 0.0 || coords.x > rect_size.x || coords.y > rect_size.y) {\n        return 0.0;\n    }\n\n    vec2 center;\n    float r;\n\n    if (coords.x < radius.x && coords.y < radius.x) {\n        r = radius.x;\n        center = vec2(r, r);\n    } else if (coords.x > rect_size.x - radius.y && coords.y < radius.y) {\n        r = radius.y;\n        center = vec2(rect_size.x - r, r);\n    } else if (coords.x > rect_size.x - radius.z && coords.y > rect_size.y - radius.z) {\n        r = radius.z;\n        center = vec2(rect_size.x - r, rect_size.y - r);\n    } else if (coords.x < radius.w && coords.y > rect_size.y - radius.w) {\n        r = radius.w;\n        center = vec2(r, rect_size.y - r);\n    } else {\n        return 1.0;\n    }\n\n    float dist = distance(coords, center);\n    float half_px = 0.5 / max(render_scale, 1.0);\n    return 1.0 - smoothstep(r - half_px, r + half_px, dist);\n}\n\n";

/// What stands behind the source of a shader that reads the backdrop.
pub const BACKDROP_SHADER_TAIL: &'static str = "\n\nvoid main() {\n    vec2 local_uv = (v_coords - uv_offset) / max(uv_scale, vec2(0.0001));\n    vec4 color = shader_main(v_coords, rect_size);\n    color.a *= alpha;\n    color.rgb *= color.a;\n\n    if (clip_enabled > 0.5) {\n        vec2 coords = local_uv * rect_size;\n        vec2 clip_coords = coords - clip_rect.xy;\n        color *= rounded_rect_alpha(clip_coords, clip_rect.zw, clip_radius);\n    }\n\n#if defined(DEBUG_FLAGS)\n    if (tint == 1.0)\n        color = vec4(0.0, 0.2, 0.0, 0.2) + color * 0.8;\n#endif\n\n    gl_FragColor = color;\n}\n";

/// The source of an effect between what stands before and behind it.
pub open spec fn wrapped(head: Seq<char>, source: Seq<char>, tail: Seq<char>) -> Seq<char> {
    head + source + tail
}

/// A shader holds the source of its effect as it is, behind its head and before its tail, and nothing else.
pub proof fn law_shaders_hold_their_source(head: Seq<char>, source: Seq<char>, tail: Seq<char>)
    ensures
        wrapped(head, source, tail).len() == head.len() + source.len() + tail.len(),
        crate::strings::has_prefix(wrapped(head, source, tail), head),
        crate::strings::has_suffix(wrapped(head, source, tail), tail),
        crate::strings::holds_at(wrapped(head, source, tail), source, head.len() as int),
{
    let all = wrapped(head, source, tail);
    assert(all.take(head.len() as int) =~= head);
    assert(all.skip(all.len() - tail.len()) =~= tail);
    assert(all.subrange(head.len() as int, (head.len() + source.len()) as int) =~= source);
}

/// The whole pixel shader for the source of an effect.
pub fn wrap_pixel_shader_source(source: &str) -> (shader: String)
    ensures
        shader@ == wrapped(PIXEL_SHADER_HEAD@, source@, PIXEL_SHADER_TAIL@),
{
    let mut shader = PIXEL_SHADER_HEAD.to_owned();
    shader.append(source);
    shader.append(PIXEL_SHADER_TAIL);
    shader
}

/// The whole shader for the source of an effect that reads the backdrop.
pub fn wrap_backdrop_shader_source(source: &str) -> (shader: String)
    ensures
        shader@ == wrapped(BACKDROP_SHADER_HEAD@, source@, BACKDROP_SHADER_TAIL@),
{
    let mut shader = BACKDROP_SHADER_HEAD.to_owned();
    shader.append(source);
    shader.append(BACKDROP_SHADER_TAIL);
    shader
}

/// A shader effect of a decoration.
#[derive(Clone, Debug)]
pub struct CachedShaderEffect {
    pub stable_key: String,
    pub order: usize,
    pub rect: LogicalRect,
    pub shader: EffectInputs,
    /// The effect works on a captured texture.
    pub texture_backed: bool,
    pub clip_rect: Option<LogicalRect>,
    pub clip_radius: i32,
}

/// Where an effect is drawn and what it shows.
#[derive(Clone, Copy, Debug, PartialEq, Eq)]
pub struct EffectPlacement {
    /// Where the effect is drawn, in compositor space.
    pub display_rect: LogicalRect,
    /// What the effect shows, in compositor space.
    pub source_rect: LogicalRect,
    /// The corner of its capture in physical pixels.
    pub capture_origin: (i32, i32),
}

/// An effect of a decoration that works on a captured texture.
pub struct WindowBackdrop {
    /// The position of the effect among those of the decoration.
    pub index: usize,
    pub order: usize,
    pub cache_key: String,
    pub label: String,
    /// The effect is drawn behind everything else of the window.
    pub render_as_backdrop: bool,
    /// Where it is drawn, as seen from the window's root.
    pub local_rect: LogicalRect,
    /// What it shows, as seen from the corner of the output.
    pub local_sample_rect: LogicalRect,
    pub plan: EffectPlan,
}

/// The name of an element that shows an effect of a decoration.
pub open spec fn backdrop_label(window_id: Seq<char>, stable_key: Seq<char>) -> Seq<char> {
    "window-backdrop:"@ + window_id + ":"@ + stable_key
}

fn backdrop_element_label(window_id: &str, stable_key: &str) -> (label: String)
    ensures
        label@ == backdrop_label(window_id@, stable_key@),
{
    let mut label = "window-backdrop:".to_owned();
    label.append(window_id);
    label.append(":");
    label.append(stable_key);
    label
}

/// The positions of the effects among the first `count` that work on a captured texture.
pub open spec fn texture_backed(effects: Seq<CachedShaderEffect>, count: nat) -> Seq<int>
    decreases count,
{
    if count == 0 {
        Seq::empty()
    } else {
        let before = texture_backed(effects, (count - 1) as nat);
        if effects[count - 1].texture_backed {
            before.push(count - 1)
        } else {
            before
        }
    }
}

/// Exactly the effects that work on a captured texture are planned, each once and in their order.
pub proof fn law_texture_backed_effects_are_planned(effects: Seq<CachedShaderEffect>, count: nat)
    requires
        count <= effects.len(),
    ensures
        forall|i: int|
            0 <= i < count ==> (texture_backed(effects, count).contains(i) <==> (
            #[trigger] effects[i]).texture_backed),
        forall|k: int|
            0 <= k < texture_backed(effects, count).len() ==> 0 <= #[trigger] texture_backed(
                effects,
                count,
            )[k] < count,
        forall|j: int, k: int|
            0 <= j < k < texture_backed(effects, count).len() ==> #[trigger] texture_backed(
                effects,
                count,
            )[j] < #[trigger] texture_backed(effects, count)[k],
    decreases count,
{
    let all = texture_backed(effects, count);
    if count > 0 {
        let before = texture_backed(effects, (count - 1) as nat);
        law_texture_backed_effects_are_planned(effects, (count - 1) as nat);
        assert forall|k: int| 0 <= k < before.len() implies all[k] == #[trigger] before[k] by {
        }
        assert forall|k: int| 0 <= k < all.len() implies 0 <= #[trigger] all[k] < count by {
            if k < before.len() {
                assert(all[k] == before[k]);
            }
        }
        assert forall|j: int, k: int| 0 <= j < k < all.len() implies #[trigger] all[j]
            < #[trigger] all[k] by {
            assert(all[j] == before[j]);
            if k < before.len() {
                assert(all[k] == before[k]);
            }
        }
        assert forall|i: int| 0 <= i < count implies (all.contains(i) <==> (
        #[trigger] effects[i]).texture_backed) by {
            if i < count - 1 {
                if before.contains(i) {
                    let k = choose|k: int| 0 <= k < before.len() && before[k] == i;
                    assert(all[k] == i);
                }
                if all.contains(i) {
                    let k = choose|k: int| 0 <= k < all.len() && all[k] == i;
                    assert(k < before.len());
                    assert(before[k] == i);
                }
            } else {
                if effects[i].texture_backed {
                    assert(all[before.len() as int] == i);
                }
                if all.contains(i) {
                    let k = choose|k: int| 0 <= k < all.len() && all[k] == i;
                    if k < before.len() {
                        assert(before[k] == i);
                    }
                }
            }
        }
    }
}

/// The effect can be planned where it is placed.
pub open spec fn is_plannable(
    effect: CachedShaderEffect,
    placement: EffectPlacement,
    root: LogicalRect,
    output: LogicalRect,
) -> bool {
    &&& crate::backend::effect::effect_fits(effect.shader, placement.source_rect)
    &&& placement.display_rect.moves(-root.x, -root.y)
    &&& placement.source_rect.moves(-output.x, -output.y)
}

impl WindowBackdrop {
    /// This is the plan of the effect at `i`.
    pub open spec fn is_plan_of(
        &self,
        effects: Seq<CachedShaderEffect>,
        placements: Seq<EffectPlacement>,
        i: int,
        window_id: Seq<char>,
        root: LogicalRect,
        scene: EffectScene,
        output_name: Seq<char>,
        output: LogicalRect,
        visual: bool,
    ) -> bool {
        let effect = effects[i];
        let placement = placements[i];
        &&& self.index == i
        &&& self.order == effect.order
        &&& self.cache_key@ == crate::backend::effect::backdrop_key(
            effect.stable_key@,
            output_name,
            visual,
        )
        &&& self.label@ == backdrop_label(window_id, effect.stable_key@)
        &&& self.render_as_backdrop == (effect.shader.uses_backdrop || effect.shader.uses_xray)
        &&& self.local_rect == placement.display_rect.relative_to(root)
        &&& self.local_sample_rect == placement.source_rect.relative_to(output)
        &&& self.plan.capture_rect == crate::backend::effect::grown(
            placement.source_rect,
            crate::backend::effect::padding_of(effect.shader.blur),
        )
        &&& self.plan.actual_capture_rect == crate::backend::effect::clipped_capture(
            self.plan.capture_rect,
            output,
        )
        &&& self.plan.signature == crate::hashing::hash_of(
            crate::backend::effect::backdrop_signature_writes(
                effect.stable_key@,
                effect.shader,
                scene,
                placement.source_rect,
                output,
                effect.clip_radius,
                placement.capture_origin,
            ),
        )
    }
}

/// An effect that is planned is drawn where it is displayed, as seen from the root of its window, and shows what lies at
/// its source, as seen from the output. Behind everything else it is drawn exactly if it reads what lies below, and
/// what it captures holds all of what it shows.
pub proof fn law_planned_effects_show_their_source(
    planned: WindowBackdrop,
    effects: Seq<CachedShaderEffect>,
    placements: Seq<EffectPlacement>,
    i: int,
    window_id: Seq<char>,
    root: LogicalRect,
    scene: EffectScene,
    output_name: Seq<char>,
    output: LogicalRect,
    visual: bool,
    px: int,
    py: int,
)
    requires
        planned.is_plan_of(
            effects,
            placements,
            i,
            window_id,
            root,
            scene,
            output_name,
            output,
            visual,
        ),
        is_plannable(effects[i], placements[i], root, output),
    ensures
        planned.local_rect.contains(px - root.x, py - root.y)
            <==> placements[i].display_rect.contains(px, py),
        planned.local_sample_rect.contains(px - output.x, py - output.y)
            <==> placements[i].source_rect.contains(px, py),
        planned.render_as_backdrop <==> effects[i].shader.uses_backdrop || effects[i].shader.uses_xray,
        placements[i].source_rect.contains(px, py) ==> planned.plan.capture_rect.contains(px, py),
        planned.index == i,
        planned.order == effects[i].order,
{
}

/// Plans the effects of a window's decoration that work on captured textures. `visual` tells
/// whether they are drawn where the window's animation puts them.
pub fn backdrop_shader_elements_for_window(
    effects: &Vec<CachedShaderEffect>,
    placements: &Vec<EffectPlacement>,
    window_id: &str,
    root: LogicalRect,
    scene: &EffectScene,
    output_name: &str,
    output: LogicalRect,
    visual: bool,
) -> (backdrops: Vec<WindowBackdrop>)
    requires
        effects@.len() == placements@.len(),
        forall|i: int|
            0 <= i < effects@.len() && (#[trigger] effects@[i]).texture_backed ==> is_plannable(
                effects@[i],
                placements@[i],
                root,
                output,
            ),
        scene.edges_fit(),
    ensures
        backdrops@.len() == texture_backed(effects@, effects@.len()).len(),
        forall|k: int|
            0 <= k < backdrops@.len() ==> (#[trigger] backdrops@[k]).is_plan_of(
                effects@,
                placements@,
                texture_backed(effects@, effects@.len())[k],
                window_id@,
                root,
                *scene,
                output_name@,
                output,
                visual,
            ),
{
    let mut backdrops: Vec<WindowBackdrop> = Vec::new();
    let mut i: usize = 0;
    while i < effects.len()
        invariant
            i <= effects@.len() == placements@.len(),
            forall|k: int|
                0 <= k < effects@.len() && (#[trigger] effects@[k]).texture_backed
                    ==> is_plannable(effects@[k], placements@[k], root, output),
            scene.edges_fit(),
            backdrops@.len() == texture_backed(effects@, i as nat).len(),
            forall|k: int|
                0 <= k < backdrops@.len() ==> (#[trigger] backdrops@[k]).is_plan_of(
                    effects@,
                    placements@,
                    texture_backed(effects@, i as nat)[k],
                    window_id@,
                    root,
                    *scene,
                    output_name@,
                    output,
                    visual,
                ),
        decreases effects@.len() - i,
    {
        let effect = &effects[i];
        if effect.texture_backed {
            let placement = placements[i];
            let plan = plan_window_backdrop(
                effect.stable_key.as_str(),
                &effect.shader,
                scene,
                placement.source_rect,
                output,
                effect.clip_radius,
                placement.capture_origin,
            );
            backdrops.push(
                WindowBackdrop {
                    index: i,
                    order: effect.order,
                    cache_key: backdrop_cache_key(effect.stable_key.as_str(), output_name, visual),
                    label: backdrop_element_label(window_id, effect.stable_key.as_str()),
                    render_as_backdrop: effect.shader.uses_backdrop || effect.shader.uses_xray,
                    local_rect: placement.display_rect.localize(root),
                    local_sample_rect: placement.source_rect.localize(output),
                    plan,
                },
            );
        }
        i += 1;
    }
    backdrops
}

/// Which part of a captured texture an effect reads, and how it is clipped. Places are given as
/// seen from the capture and from where the effect is drawn; a shader divides by the size of the
/// capture.
#[derive(Clone, Copy, Debug, PartialEq, Eq, Structural)]
pub struct BackdropReading {
    pub sample: LogicalRect,
    pub capture_width: i32,
    pub capture_height: i32,
    /// The clip, or an empty one.
    pub clip: LogicalRect,
    pub clip_enabled: bool,
    pub clip_radius: i32,
}

/// A number that is not below another one.
pub open spec fn at_least(n: i32, low: i32) -> i32 {
    if n < low {
        low
    } else {
        n
    }
}

/// Which part of a captured texture an effect reads.
pub open spec fn reading_of(
    display: LogicalRect,
    sample: LogicalRect,
    captured: LogicalRect,
    clip: Option<LogicalRect>,
    clip_radius: i32,
) -> BackdropReading {
    BackdropReading {
        sample: sample.relative_to(captured),
        capture_width: at_least(captured.width, 1),
        capture_height: at_least(captured.height, 1),
        clip: match clip {
            Some(clip) => clip.relative_to(display),
            None => LogicalRect { x: 0, y: 0, width: 0, height: 0 },
        },
        clip_enabled: clip matches Some(clip) && clip.width > 0 && clip.height > 0,
        clip_radius: at_least(clip_radius, 0),
    }
}

/// An effect reads the pixels of its sample, as seen from the corner of the capture. It is clipped exactly by a clip
/// with pixels, as seen from where the effect is drawn. The size of the capture can be divided by, and the radius of
/// the clip is not negative.
pub proof fn law_effects_read_their_sample(
    display: LogicalRect,
    sample: LogicalRect,
    captured: LogicalRect,
    clip: Option<LogicalRect>,
    clip_radius: i32,
    px: int,
    py: int,
)
    requires
        sample.moves(-captured.x, -captured.y),
        clip matches Some(clip) ==> clip.moves(-display.x, -display.y),
    ensures
        ({
            let reading = reading_of(display, sample, captured, clip, clip_radius);
            &&& reading.sample.contains(px - captured.x, py - captured.y) <==> sample.contains(px, py)
            &&& clip is Some ==> (reading.clip.contains(px - display.x, py - display.y)
                <==> clip->0.contains(px, py))
            &&& reading.clip_enabled <==> clip is Some && !clip->0.is_void()
            &&& reading.capture_width >= 1 && reading.capture_height >= 1
            &&& captured.width >= 1 ==> reading.capture_width == captured.width
            &&& captured.height >= 1 ==> reading.capture_height == captured.height
            &&& reading.clip_radius >= 0
            &&& clip_radius >= 0 ==> reading.clip_radius == clip_radius
        }),
{
}

/// Decides which part of a captured texture an effect reads. A clip without any extent is none.
pub fn read_backdrop(
    display: LogicalRect,
    sample: LogicalRect,
    captured: LogicalRect,
    clip: Option<LogicalRect>,
    clip_radius: i32,
) -> (reading: BackdropReading)
    requires
        sample.moves(-captured.x, -captured.y),
        clip matches Some(clip) ==> clip.moves(-display.x, -display.y),
    ensures
        reading == reading_of(display, sample, captured, clip, clip_radius),
{
    let local_clip = match clip {
        Some(clip) => clip.localize(display),
        None => LogicalRect::new(0, 0, 0, 0),
    };
    BackdropReading {
        sample: sample.localize(captured),
        capture_width: max_i32(captured.width, 1),
        capture_height: max_i32(captured.height, 1),
        clip: local_clip,
        clip_enabled: local_clip.width > 0 && local_clip.height > 0,
        clip_radius: max_i32(clip_radius, 0),
    }
}

/// How a texture is blurred before an effect reads it.
#[derive(Clone, Copy, Debug, PartialEq, Eq, Structural)]
pub struct BlurPasses {
    pub passes: i32,
    pub radius: i32,
    pub width: i32,
    pub height: i32,
}

/// How a texture is blurred.
pub open spec fn blur_of(size: (i32, i32), radius: i32, passes: i32) -> BlurPasses {
    BlurPasses {
        passes: at_least(passes, 1),
        radius: at_least(radius, 1),
        width: at_least(size.0, 1),
        height: at_least(size.1, 1),
    }
}

/// A texture is blurred as asked for, in its size, but never with less than one pass, a radius of one, and one pixel.
pub proof fn law_blur_is_as_asked_for(size: (i32, i32), radius: i32, passes: i32)
    ensures
        passes >= 1 ==> blur_of(size, radius, passes).passes == passes,
        radius >= 1 ==> blur_of(size, radius, passes).radius == radius,
        size.0 >= 1 ==> blur_of(size, radius, passes).width == size.0,
        size.1 >= 1 ==> blur_of(size, radius, passes).height == size.1,
        passes < 1 ==> blur_of(size, radius, passes).passes == 1,
        radius < 1 ==> blur_of(size, radius, passes).radius == 1,
        size.0 < 1 ==> blur_of(size, radius, passes).width == 1,
        size.1 < 1 ==> blur_of(size, radius, passes).height == 1,
{
}

/// Decides how a texture is blurred. There is at least one pass, with a radius of at least one.
pub fn plan_blur(size: (i32, i32), radius: i32, passes: i32) -> (plan: BlurPasses)
    ensures
        plan == blur_of(size, radius, passes),
{
    BlurPasses {
        passes: max_i32(passes, 1),
        radius: max_i32(radius, 1),
        width: max_i32(size.0, 1),
        height: max_i32(size.1, 1),
    }
}

} // verus!
