//! Background effects: what they capture, when a captured texture can be used again, and how the
//! cached textures are counted.

use crate::backend::window::logical_rects_intersect;
use crate::geometry::{max_i32, min_i32, saturating_sum, LogicalRect};
use crate::hashing::{hash_i32, hash_text, hash_u32, hash_u64};
use crate::strings::{push_i32, push_u64};
use std::collections::hash_map::DefaultHasher;
use std::hash::Hasher;
use vstd::prelude::*;

verus! {

/// The blur of an effect.
#[derive(Clone, Copy, Debug, PartialEq, Eq, Structural)]
pub struct BlurStage {
    pub radius: i32,
    pub passes: i32,
}

/// What the compositor has to know of an effect.
#[derive(Clone, Debug)]
pub struct EffectInputs {
    /// The effect reads everything below the surface.
    pub uses_backdrop: bool,
    /// The effect reads the layers below all windows.
    pub uses_xray: bool,
    /// The effect is drawn anew in every frame.
    pub always_invalidate: bool,
    pub blur: Option<BlurStage>,
    /// The effect in words; two effects with the same words look the same.
    pub description: String,
}

/// A damaged rectangle and the surface that it comes from.
#[derive(Clone, Debug)]
pub struct OwnedDamageRect {
    pub owner: String,
    pub rect: LogicalRect,
}

/// A window below an effect.
#[derive(Clone, Debug)]
pub struct WindowContributor {
    pub id: String,
    pub rect: LogicalRect,
}

/// A layer below an effect.
#[derive(Clone, Copy, Debug, PartialEq, Eq, Structural)]
pub struct LayerContributor {
    pub id: u32,
    pub rect: LogicalRect,
}

/// What lies below an effect when its signature is taken.
#[derive(Clone, Debug)]
pub struct EffectScene {
    /// Counts the changes of the layers below all windows.
    pub lower_layer_generation: u64,
    pub windows: Vec<WindowContributor>,
    pub layers: Vec<LayerContributor>,
}

/// Pixels around an effect that a blur reads.
pub open spec fn padding_of(blur: Option<BlurStage>) -> int {
    match blur {
        Some(blur) => {
            let radius = crate::geometry::larger(blur.radius as int, 1);
            let passes = crate::geometry::larger(blur.passes as int, 1);
            radius * passes * 24 + 32
        },
        None => 0,
    }
}

/// Computes how far a blur reads beyond the effect.
pub fn blur_padding(blur: Option<BlurStage>) -> (padding: i32)
    requires
        padding_of(blur) <= i32::MAX,
    ensures
        padding == padding_of(blur),
        padding >= 0,
        blur is Some ==> padding >= 56,
{
    match blur {
        Some(blur) => {
            let radius: i32 = max_i32(blur.radius, 1);
            let passes: i32 = max_i32(blur.passes, 1);
            proof {
                assert(radius * passes >= 1) by (nonlinear_arith)
                    requires
                        radius >= 1,
                        passes >= 1,
                ;
            }
            radius * passes * 24 + 32
        },
        None => 0,
    }
}

/// The rectangle grown on every side.
pub open spec fn grown(rect: LogicalRect, padding: int) -> LogicalRect {
    LogicalRect {
        x: (rect.x - padding) as i32,
        y: (rect.y - padding) as i32,
        width: (rect.width + padding * 2) as i32,
        height: (rect.height + padding * 2) as i32,
    }
}

/// The grown rectangle can be written.
pub open spec fn grows(rect: LogicalRect, padding: int) -> bool {
    &&& 0 <= padding <= i32::MAX / 2
    &&& i32::MIN <= rect.x - padding
    &&& i32::MIN <= rect.y - padding
    &&& rect.width + padding * 2 <= i32::MAX
    &&& rect.height + padding * 2 <= i32::MAX
}

/// The rectangle that an effect captures, before it is clipped.
pub fn capture_geometry(effect_rect: LogicalRect, padding: i32) -> (capture: LogicalRect)
    requires
        grows(effect_rect, padding as int),
    ensures
        capture == grown(effect_rect, padding as int),
{
    LogicalRect::new(
        effect_rect.x - padding,
        effect_rect.y - padding,
        effect_rect.width + padding * 2,
        effect_rect.height + padding * 2,
    )
}

/// The far edges, cut off at the largest and smallest coordinates.
pub open spec fn saturated_right(rect: LogicalRect) -> int {
    crate::geometry::saturated(rect.right())
}

pub open spec fn saturated_bottom(rect: LogicalRect) -> int {
    crate::geometry::saturated(rect.bottom())
}

/// Each rectangle begins before the other one ends.
pub open spec fn interleave(a: LogicalRect, b: LogicalRect) -> bool {
    &&& a.x < saturated_right(b)
    &&& b.x < saturated_right(a)
    &&& a.y < saturated_bottom(b)
    &&& b.y < saturated_bottom(a)
}

/// The part of a capture on the output; all of it where the two lie apart.
pub open spec fn clipped_capture(capture: LogicalRect, output: LogicalRect) -> LogicalRect {
    if interleave(capture, output) {
        let left = crate::geometry::larger(capture.x as int, output.x as int);
        let top = crate::geometry::larger(capture.y as int, output.y as int);
        let right = crate::geometry::smaller(saturated_right(capture), saturated_right(output));
        let bottom = crate::geometry::smaller(saturated_bottom(capture), saturated_bottom(output));
        LogicalRect {
            x: left as i32,
            y: top as i32,
            width: (right - left) as i32,
            height: (bottom - top) as i32,
        }
    } else {
        capture
    }
}

/// Clips a capture to the output.
pub fn capture_on_output(capture: LogicalRect, output: LogicalRect) -> (clipped: LogicalRect)
    ensures
        clipped == clipped_capture(capture, output),
{
    let capture_right: i32 = saturating_sum(capture.x, capture.width);
    let capture_bottom: i32 = saturating_sum(capture.y, capture.height);
    let output_right: i32 = saturating_sum(output.x, output.width);
    let output_bottom: i32 = saturating_sum(output.y, output.height);
    if capture.x < output_right && output.x < capture_right && capture.y < output_bottom && output.y
        < capture_bottom {
        let left: i32 = max_i32(capture.x, output.x);
        let top: i32 = max_i32(capture.y, output.y);
        let right: i32 = min_i32(capture_right, output_right);
        let bottom: i32 = min_i32(capture_bottom, output_bottom);
        LogicalRect::new(left, top, right - left, bottom - top)
    } else {
        capture
    }
}

/// A capture that reaches the output is clipped to exactly the common pixels.
pub proof fn law_clipped_capture_is_common_part(
    capture: LogicalRect,
    output: LogicalRect,
    px: int,
    py: int,
)
    requires
        capture.edges_fit(),
        output.edges_fit(),
        crate::backend::window::overlap(capture, output),
    ensures
        crate::backend::window::intersection(capture, output) == Some(
            clipped_capture(capture, output),
        ),
        clipped_capture(capture, output).contains(px, py) <==> capture.contains(px, py)
            && output.contains(px, py),
{
}

/// An effect captures at least its own pixels, and a larger blur never captures less.
pub proof fn law_growing_keeps_pixels(
    rect: LogicalRect,
    padding: int,
    larger: int,
    px: int,
    py: int,
)
    requires
        grows(rect, larger),
        0 <= padding <= larger,
    ensures
        rect.contains(px, py) ==> grown(rect, padding).contains(px, py),
        grown(rect, padding).contains(px, py) ==> grown(rect, larger).contains(px, py),
{
}

// ---- keys ---------------------------------------------------------------------------------------

/// The key under which a texture of a decoration effect is kept.
pub open spec fn backdrop_key(stable_key: Seq<char>, output: Seq<char>, visual: bool) -> Seq<char> {
    stable_key + "@"@ + output + "@"@ + (if visual {
        "visual"@
    } else {
        "raw"@
    })
}

pub fn backdrop_cache_key(stable_key: &str, output: &str, visual: bool) -> (key: String)
    ensures
        key@ == backdrop_key(stable_key@, output@, visual),
{
    let mut key = stable_key.to_owned();
    key.append("@");
    key.append(output);
    key.append("@");
    if visual {
        key.append("visual");
    } else {
        key.append("raw");
    }
    key
}

/// The name of one rectangle of a protocol effect.
pub open spec fn protocol_key(index: nat) -> Seq<char> {
    "__protocol_background_effect_"@ + crate::strings::digits(index)
}

pub fn protocol_stable_key(index: usize) -> (key: String)
    ensures
        key@ == protocol_key(index as nat),
{
    let mut key = "__protocol_background_effect_".to_owned();
    push_u64(&mut key, index as u64);
    key
}

/// The key under which a texture of a protocol effect is kept.
pub open spec fn protocol_output_key(stable_key: Seq<char>, output: Seq<char>) -> Seq<char> {
    stable_key + "@"@ + output
}

pub fn protocol_cache_key(stable_key: &str, output: &str) -> (key: String)
    ensures
        key@ == protocol_output_key(stable_key@, output@),
{
    let mut key = stable_key.to_owned();
    key.append("@");
    key.append(output);
    key
}

/// Where a layer stands for its effect: above the windows, or at a position among the lower layers.
#[derive(Clone, Copy, Debug, PartialEq, Eq, Structural)]
pub enum LayerPosition {
    Top,
    Lower { index: usize },
}

/// The name of a layer's effect; it changes with the size of the effect.
pub open spec fn layer_key(
    output: Seq<char>,
    layer: u32,
    position: LayerPosition,
    width: i32,
    height: i32,
) -> Seq<char> {
    "__layer_background_effect_"@ + output + "_"@ + crate::strings::digits(layer as nat) + "_"@ + (
    match position {
        LayerPosition::Top => "top"@,
        LayerPosition::Lower { index } => crate::strings::digits(index as nat),
    }) + "_"@ + crate::strings::decimal(width as int) + "x"@ + crate::strings::decimal(
        height as int,
    )
}

pub fn layer_stable_key(
    output: &str,
    layer: u32,
    position: LayerPosition,
    width: i32,
    height: i32,
) -> (key: String)
    ensures
        key@ == layer_key(output@, layer, position, width, height),
{
    let mut key = "__layer_background_effect_".to_owned();
    key.append(output);
    key.append("_");
    push_u64(&mut key, layer as u64);
    key.append("_");
    match position {
        LayerPosition::Top => key.append("top"),
        LayerPosition::Lower { index } => push_u64(&mut key, index as u64),
    }
    key.append("_");
    push_i32(&mut key, width);
    key.append("x");
    push_i32(&mut key, height);
    key
}

/// The name of one rectangle of a layer's effect.
pub open spec fn rect_key(stable_key: Seq<char>, rect: LogicalRect) -> Seq<char> {
    stable_key + ":"@ + crate::strings::decimal(rect.x as int) + ":"@ + crate::strings::decimal(
        rect.y as int,
    ) + ":"@ + crate::strings::decimal(rect.width as int) + ":"@ + crate::strings::decimal(
        rect.height as int,
    )
}

pub fn effect_rect_key(stable_key: &str, rect: LogicalRect) -> (key: String)
    ensures
        key@ == rect_key(stable_key@, rect),
{
    let mut key = stable_key.to_owned();
    key.append(":");
    push_i32(&mut key, rect.x);
    key.append(":");
    push_i32(&mut key, rect.y);
    key.append(":");
    push_i32(&mut key, rect.width);
    key.append(":");
    push_i32(&mut key, rect.height);
    key
}

/// What follows the name in a rectangle's key, for the four numbers of the rectangle.
proof fn lemma_after_name(
    name: Seq<char>,
    sep: Seq<char>,
    x: Seq<char>,
    y: Seq<char>,
    width: Seq<char>,
    height: Seq<char>,
)
    requires
        sep.len() == 1,
    ensures
        (name + sep + x + sep + y + sep + width + sep + height).skip((name.len() + 1) as int) == x
            + sep + (y + sep + (width + sep + height)),
{
    let tail = x + sep + y + sep + width + sep + height;
    assert(name + sep + x + sep + y + sep + width + sep + height =~= (name + sep) + tail);
    assert(((name + sep) + tail).skip((name.len() + 1) as int) =~= tail);
    assert(tail =~= x + sep + (y + sep + (width + sep + height)));
}

/// Two rectangles of an effect never share a key.
pub proof fn law_rect_keys_differ(stable_key: Seq<char>, a: LogicalRect, b: LogicalRect)
    requires
        rect_key(stable_key, a) == rect_key(stable_key, b),
    ensures
        a == b,
{
    reveal_strlit(":");
    let colon = seq![':'];
    assert(":"@ =~= colon);
    let (ax, bx) = (crate::strings::decimal(a.x as int), crate::strings::decimal(b.x as int));
    let (ay, by) = (crate::strings::decimal(a.y as int), crate::strings::decimal(b.y as int));
    let (aw, bw) = (crate::strings::decimal(a.width as int), crate::strings::decimal(b.width as int));
    let (ah, bh) = (crate::strings::decimal(a.height as int), crate::strings::decimal(b.height as int));
    lemma_after_name(stable_key, colon, ax, ay, aw, ah);
    lemma_after_name(stable_key, colon, bx, by, bw, bh);
    let (a3, b3) = (aw + colon + ah, bw + colon + bh);
    let (a2, b2) = (ay + colon + a3, by + colon + b3);
    crate::strings::lemma_number_then_separator(a.x as int, b.x as int, ':', a2, b2);
    crate::strings::lemma_number_then_separator(a.y as int, b.y as int, ':', a3, b3);
    crate::strings::lemma_number_then_separator(a.width as int, b.width as int, ':', ah, bh);
    crate::strings::law_decimal_is_injective(a.height as int, b.height as int);
}

/// Two rectangles of a window's protocol effect never share a texture on an output.
pub proof fn law_protocol_keys_differ(i: nat, j: nat, output: Seq<char>)
    requires
        protocol_output_key(protocol_key(i), output) == protocol_output_key(
            protocol_key(j),
            output,
        ),
    ensures
        i == j,
{
    let name = "__protocol_background_effect_"@;
    reveal_strlit("@");
    let (a, b) = (
        protocol_output_key(protocol_key(i), output),
        protocol_output_key(protocol_key(j), output),
    );
    let suffix = "@"@ + output;
    assert(a =~= protocol_key(i) + suffix);
    assert(b =~= protocol_key(j) + suffix);
    assert(protocol_key(i).len() == protocol_key(j).len());
    assert(a.take(protocol_key(i).len() as int) =~= protocol_key(i));
    assert(b.take(protocol_key(j).len() as int) =~= protocol_key(j));
    assert(protocol_key(i).skip(name.len() as int) =~= crate::strings::decimal(i as int));
    assert(protocol_key(j).skip(name.len() as int) =~= crate::strings::decimal(j as int));
    crate::strings::law_decimal_is_injective(i as int, j as int);
}

// ---- signatures ---------------------------------------------------------------------------------

/// The four numbers of a rectangle.
pub open spec fn rect_writes(rect: LogicalRect) -> Seq<Seq<u8>> {
    seq![
        crate::hashing::i32_write(rect.x),
        crate::hashing::i32_write(rect.y),
        crate::hashing::i32_write(rect.width),
        crate::hashing::i32_write(rect.height),
    ]
}

fn hash_rect(hasher: &mut DefaultHasher, rect: LogicalRect)
    ensures
        final(hasher)@ == old(hasher)@ + rect_writes(rect),
{
    hash_i32(hasher, rect.x);
    hash_i32(hasher, rect.y);
    hash_i32(hasher, rect.width);
    hash_i32(hasher, rect.height);
    assert(hasher@ =~= old(hasher)@ + rect_writes(rect));
}

/// The windows that share a pixel with the effect, with their rectangles.
pub open spec fn window_writes(windows: Seq<WindowContributor>, effect_rect: LogicalRect) -> Seq<
    Seq<u8>,
>
    decreases windows.len(),
{
    if windows.len() == 0 {
        Seq::empty()
    } else {
        let before = window_writes(windows.drop_last(), effect_rect);
        let window = windows.last();
        if crate::backend::window::overlap(window.rect, effect_rect) {
            before + crate::hashing::text_writes(window.id@) + rect_writes(window.rect)
        } else {
            before
        }
    }
}

/// The layers that share a pixel with the effect, with their rectangles.
pub open spec fn layer_writes(layers: Seq<LayerContributor>, effect_rect: LogicalRect) -> Seq<
    Seq<u8>,
>
    decreases layers.len(),
{
    if layers.len() == 0 {
        Seq::empty()
    } else {
        let before = layer_writes(layers.drop_last(), effect_rect);
        let layer = layers.last();
        if crate::backend::window::overlap(layer.rect, effect_rect) {
            before.push(crate::hashing::u32_write(layer.id)) + rect_writes(layer.rect)
        } else {
            before
        }
    }
}

impl EffectScene {
    /// The far edges of everything below the effect can be written.
    pub open spec fn edges_fit(&self) -> bool {
        &&& forall|i: int|
            0 <= i < self.windows@.len() ==> (#[trigger] self.windows@[i]).rect.edges_fit()
        &&& forall|i: int|
            0 <= i < self.layers@.len() ==> (#[trigger] self.layers@[i]).rect.edges_fit()
    }
}

fn hash_window_scene_contributors(
    hasher: &mut DefaultHasher,
    windows: &Vec<WindowContributor>,
    effect_rect: LogicalRect,
)
    requires
        effect_rect.edges_fit(),
        forall|i: int| 0 <= i < windows@.len() ==> (#[trigger] windows@[i]).rect.edges_fit(),
    ensures
        final(hasher)@ == old(hasher)@ + window_writes(windows@, effect_rect),
{
    let ghost start = hasher@;
    let mut i: usize = 0;
    assert(start + window_writes(windows@.take(0), effect_rect) =~= start);
    while i < windows.len()
        invariant
            i <= windows@.len(),
            effect_rect.edges_fit(),
            forall|k: int| 0 <= k < windows@.len() ==> (#[trigger] windows@[k]).rect.edges_fit(),
            hasher@ == start + window_writes(windows@.take(i as int), effect_rect),
        decreases windows@.len() - i,
    {
        let ghost before = window_writes(windows@.take(i as int), effect_rect);
        let window = &windows[i];
        assert(windows@.take(i + 1).drop_last() == windows@.take(i as int));
        assert(windows@.take(i + 1).last() == windows@[i as int]);
        if logical_rects_intersect(window.rect, effect_rect) {
            hash_text(hasher, window.id.as_str());
            hash_rect(hasher, window.rect);
            assert(hasher@ =~= start + (before + crate::hashing::text_writes(window.id@)
                + rect_writes(window.rect)));
        }
        i += 1;
    }
    assert(windows@.take(i as int) == windows@);
}

fn hash_layer_scene_contributors(
    hasher: &mut DefaultHasher,
    layers: &Vec<LayerContributor>,
    effect_rect: LogicalRect,
)
    requires
        effect_rect.edges_fit(),
        forall|i: int| 0 <= i < layers@.len() ==> (#[trigger] layers@[i]).rect.edges_fit(),
    ensures
        final(hasher)@ == old(hasher)@ + layer_writes(layers@, effect_rect),
{
    let ghost start = hasher@;
    let mut i: usize = 0;
    assert(start + layer_writes(layers@.take(0), effect_rect) =~= start);
    while i < layers.len()
        invariant
            i <= layers@.len(),
            effect_rect.edges_fit(),
            forall|k: int| 0 <= k < layers@.len() ==> (#[trigger] layers@[k]).rect.edges_fit(),
            hasher@ == start + layer_writes(layers@.take(i as int), effect_rect),
        decreases layers@.len() - i,
    {
        let ghost before = layer_writes(layers@.take(i as int), effect_rect);
        let layer = layers[i];
        assert(layers@.take(i + 1).drop_last() == layers@.take(i as int));
        assert(layers@.take(i + 1).last() == layer);
        if logical_rects_intersect(layer.rect, effect_rect) {
            hash_u32(hasher, layer.id);
            hash_rect(hasher, layer.rect);
            assert(hasher@ =~= start + (before.push(crate::hashing::u32_write(layer.id))
                + rect_writes(layer.rect)));
        }
        i += 1;
    }
    assert(layers@.take(i as int) == layers@);
}

/// The generation of the lower layers, for an effect that reads what lies below.
pub open spec fn generation_writes(effect: EffectInputs, scene: EffectScene) -> Seq<Seq<u8>> {
    if effect.uses_backdrop || effect.uses_xray {
        seq![crate::hashing::u64_write(scene.lower_layer_generation)]
    } else {
        Seq::empty()
    }
}

/// The surfaces below the effect, as far as the effect reads them.
pub open spec fn contributor_writes(
    effect: EffectInputs,
    scene: EffectScene,
    effect_rect: LogicalRect,
) -> Seq<Seq<u8>> {
    (if effect.uses_backdrop {
        window_writes(scene.windows@, effect_rect)
    } else {
        Seq::empty()
    }) + (if effect.uses_backdrop || effect.uses_xray {
        layer_writes(scene.layers@, effect_rect)
    } else {
        Seq::empty()
    })
}

fn hash_generation(hasher: &mut DefaultHasher, effect: &EffectInputs, scene: &EffectScene)
    ensures
        final(hasher)@ == old(hasher)@ + generation_writes(*effect, *scene),
{
    if effect.uses_backdrop || effect.uses_xray {
        hash_u64(hasher, scene.lower_layer_generation);
    }
    assert(hasher@ =~= old(hasher)@ + generation_writes(*effect, *scene));
}

fn hash_contributors(
    hasher: &mut DefaultHasher,
    effect: &EffectInputs,
    scene: &EffectScene,
    effect_rect: LogicalRect,
)
    requires
        effect_rect.edges_fit(),
        scene.edges_fit(),
    ensures
        final(hasher)@ == old(hasher)@ + contributor_writes(*effect, *scene, effect_rect),
{
    if effect.uses_backdrop {
        hash_window_scene_contributors(hasher, &scene.windows, effect_rect);
    }
    if effect.uses_backdrop || effect.uses_xray {
        hash_layer_scene_contributors(hasher, &scene.layers, effect_rect);
    }
    assert(hasher@ =~= old(hasher)@ + contributor_writes(*effect, *scene, effect_rect));
}

/// What the signature of a decoration effect is taken of.
pub open spec fn backdrop_signature_writes(
    stable_key: Seq<char>,
    effect: EffectInputs,
    scene: EffectScene,
    effect_rect: LogicalRect,
    output: LogicalRect,
    clip_radius: i32,
    capture_origin: (i32, i32),
) -> Seq<Seq<u8>> {
    let padding = padding_of(effect.blur);
    let capture = clipped_capture(grown(effect_rect, padding), output);
    crate::hashing::text_writes(stable_key) + rect_writes(effect_rect) + rect_writes(output) + seq![
        crate::hashing::i32_write(padding as i32),
        crate::hashing::i32_write(clip_radius),
    ] + generation_writes(effect, scene) + crate::hashing::text_writes(effect.description@)
        + rect_writes(capture) + seq![
        crate::hashing::i32_write(capture_origin.0),
        crate::hashing::i32_write(capture_origin.1),
    ] + contributor_writes(effect, scene, effect_rect)
}

/// What the signature of a protocol effect of a window is taken of.
pub open spec fn protocol_signature_writes(
    stable_key: Seq<char>,
    effect: EffectInputs,
    scene: EffectScene,
    effect_rect: LogicalRect,
    output: LogicalRect,
) -> Seq<Seq<u8>> {
    let padding = padding_of(effect.blur);
    crate::hashing::text_writes(stable_key) + rect_writes(effect_rect) + rect_writes(output) + seq![
        crate::hashing::i32_write(padding as i32),
    ] + generation_writes(effect, scene) + crate::hashing::text_writes(effect.description@)
        + rect_writes(grown(effect_rect, padding)) + contributor_writes(effect, scene, effect_rect)
}

/// What the signature of the effect of a layer is taken of. A layer above the windows looks at
/// everything below it, a lower layer only at the generation of the lower layers.
pub open spec fn layer_signature_writes(
    stable_key: Seq<char>,
    position: LayerPosition,
    effect: EffectInputs,
    scene: EffectScene,
    effect_rect: LogicalRect,
) -> Seq<Seq<u8>> {
    crate::hashing::text_writes(stable_key) + (match position {
        LayerPosition::Top => generation_writes(effect, scene) + contributor_writes(
            effect,
            scene,
            effect_rect,
        ),
        LayerPosition::Lower { .. } => seq![
            crate::hashing::u64_write(scene.lower_layer_generation),
        ],
    }) + crate::hashing::text_writes(effect.description@) + rect_writes(effect_rect) + rect_writes(
        grown(effect_rect, padding_of(effect.blur)),
    )
}

/// How an effect is captured, and the signature by which a captured texture is known again.
#[derive(Clone, Copy, Debug, PartialEq, Eq, Structural)]
pub struct EffectPlan {
    /// The rectangle of the effect with what its blur reads.
    pub capture_rect: LogicalRect,
    /// The part of it that is captured.
    pub actual_capture_rect: LogicalRect,
    pub signature: u64,
}

/// The numbers of an effect's rectangles can be written.
pub open spec fn effect_fits(effect: EffectInputs, effect_rect: LogicalRect) -> bool {
    &&& effect_rect.edges_fit()
    &&& padding_of(effect.blur) <= i32::MAX
    &&& grows(effect_rect, padding_of(effect.blur))
}

/// The capture of an effect, clipped to the output.
pub fn plan_capture(effect: &EffectInputs, effect_rect: LogicalRect, output: LogicalRect) -> (actual:
    LogicalRect)
    requires
        effect_fits(*effect, effect_rect),
    ensures
        actual == clipped_capture(grown(effect_rect, padding_of(effect.blur)), output),
{
    let padding: i32 = blur_padding(effect.blur);
    capture_on_output(capture_geometry(effect_rect, padding), output)
}

/// Plans an effect of a window's decoration. `capture_origin` is the captured corner in physical
/// pixels.
pub fn plan_window_backdrop(
    stable_key: &str,
    effect: &EffectInputs,
    scene: &EffectScene,
    effect_rect: LogicalRect,
    output: LogicalRect,
    clip_radius: i32,
    capture_origin: (i32, i32),
) -> (plan: EffectPlan)
    requires
        effect_fits(*effect, effect_rect),
        scene.edges_fit(),
    ensures
        plan.capture_rect == grown(effect_rect, padding_of(effect.blur)),
        plan.actual_capture_rect == clipped_capture(plan.capture_rect, output),
        plan.signature == crate::hashing::hash_of(
            backdrop_signature_writes(
                stable_key@,
                *effect,
                *scene,
                effect_rect,
                output,
                clip_radius,
                capture_origin,
            ),
        ),
{
    let mut hasher = DefaultHasher::new();
    hash_text(&mut hasher, stable_key);
    hash_rect(&mut hasher, effect_rect);
    hash_rect(&mut hasher, output);
    let padding: i32 = blur_padding(effect.blur);
    hash_i32(&mut hasher, padding);
    hash_i32(&mut hasher, clip_radius);
    hash_generation(&mut hasher, effect, scene);
    hash_text(&mut hasher, effect.description.as_str());
    let capture_rect = capture_geometry(effect_rect, padding);
    let actual_capture_rect = capture_on_output(capture_rect, output);
    hash_rect(&mut hasher, actual_capture_rect);
    hash_i32(&mut hasher, capture_origin.0);
    hash_i32(&mut hasher, capture_origin.1);
    hash_contributors(&mut hasher, effect, scene, effect_rect);
    assert(hasher@ =~= backdrop_signature_writes(
        stable_key@,
        *effect,
        *scene,
        effect_rect,
        output,
        clip_radius,
        capture_origin,
    ));
    EffectPlan { capture_rect, actual_capture_rect, signature: hasher.finish() }
}

/// Plans one rectangle of an effect that a window asked for.
pub fn plan_protocol_effect(
    stable_key: &str,
    effect: &EffectInputs,
    scene: &EffectScene,
    effect_rect: LogicalRect,
    output: LogicalRect,
) -> (plan: EffectPlan)
    requires
        effect_fits(*effect, effect_rect),
        scene.edges_fit(),
    ensures
        plan.capture_rect == grown(effect_rect, padding_of(effect.blur)),
        plan.actual_capture_rect == clipped_capture(plan.capture_rect, output),
        plan.signature == crate::hashing::hash_of(
            protocol_signature_writes(stable_key@, *effect, *scene, effect_rect, output),
        ),
{
    let mut hasher = DefaultHasher::new();
    hash_text(&mut hasher, stable_key);
    hash_rect(&mut hasher, effect_rect);
    hash_rect(&mut hasher, output);
    let padding: i32 = blur_padding(effect.blur);
    hash_i32(&mut hasher, padding);
    hash_generation(&mut hasher, effect, scene);
    hash_text(&mut hasher, effect.description.as_str());
    let capture_rect = capture_geometry(effect_rect, padding);
    hash_rect(&mut hasher, capture_rect);
    hash_contributors(&mut hasher, effect, scene, effect_rect);
    assert(hasher@ =~= protocol_signature_writes(stable_key@, *effect, *scene, effect_rect, output));
    EffectPlan {
        capture_rect,
        actual_capture_rect: capture_on_output(capture_rect, output),
        signature: hasher.finish(),
    }
}

/// Plans the effect of a layer.
pub fn plan_layer_effect(
    stable_key: &str,
    position: LayerPosition,
    effect: &EffectInputs,
    scene: &EffectScene,
    effect_rect: LogicalRect,
    output: LogicalRect,
) -> (plan: EffectPlan)
    requires
        effect_fits(*effect, effect_rect),
        scene.edges_fit(),
    ensures
        plan.capture_rect == grown(effect_rect, padding_of(effect.blur)),
        plan.actual_capture_rect == clipped_capture(plan.capture_rect, output),
        plan.signature == crate::hashing::hash_of(
            layer_signature_writes(stable_key@, position, *effect, *scene, effect_rect),
        ),
{
    let padding: i32 = blur_padding(effect.blur);
    let capture_rect = capture_geometry(effect_rect, padding);
    let mut hasher = DefaultHasher::new();
    hash_text(&mut hasher, stable_key);
    match position {
        LayerPosition::Top => {
            hash_generation(&mut hasher, effect, scene);
            hash_contributors(&mut hasher, effect, scene, effect_rect);
        },
        LayerPosition::Lower { .. } => {
            hash_u64(&mut hasher, scene.lower_layer_generation);
        },
    }
    hash_text(&mut hasher, effect.description.as_str());
    hash_rect(&mut hasher, effect_rect);
    hash_rect(&mut hasher, capture_rect);
    assert(hasher@ =~= layer_signature_writes(stable_key@, position, *effect, *scene, effect_rect));
    EffectPlan {
        capture_rect,
        actual_capture_rect: capture_on_output(capture_rect, output),
        signature: hasher.finish(),
    }
}

// ---- what the signatures see ----------------------------------------------------------------------

/// The windows that share a pixel with an effect, by their ids and rectangles, in their order.
pub open spec fn windows_below(windows: Seq<WindowContributor>, effect_rect: LogicalRect) -> Seq<
    (Seq<char>, LogicalRect),
>
    decreases windows.len(),
{
    if windows.len() == 0 {
        Seq::empty()
    } else {
        let before = windows_below(windows.drop_last(), effect_rect);
        if exists|px: int, py: int|
            windows.last().rect.contains(px, py) && #[trigger] effect_rect.contains(px, py) {
            before.push((windows.last().id@, windows.last().rect))
        } else {
            before
        }
    }
}

/// The layers that share a pixel with an effect, by their ids and rectangles, in their order.
pub open spec fn layers_below(layers: Seq<LayerContributor>, effect_rect: LogicalRect) -> Seq<
    (u32, LogicalRect),
>
    decreases layers.len(),
{
    if layers.len() == 0 {
        Seq::empty()
    } else {
        let before = layers_below(layers.drop_last(), effect_rect);
        if exists|px: int, py: int|
            layers.last().rect.contains(px, py) && #[trigger] effect_rect.contains(px, py) {
            before.push((layers.last().id, layers.last().rect))
        } else {
            before
        }
    }
}

proof fn lemma_shared_pixel(a: LogicalRect, b: LogicalRect)
    ensures
        crate::backend::window::overlap(a, b) == (exists|px: int, py: int|
            a.contains(px, py) && #[trigger] b.contains(px, py)),
{
    let (left, top, right, bottom) = crate::backend::window::overlap_edges(a, b);
    if crate::backend::window::overlap(a, b) {
        assert(a.contains(left, top) && b.contains(left, top));
    }
}

proof fn lemma_rects_written_apart(a: LogicalRect, b: LogicalRect)
    requires
        rect_writes(a) == rect_writes(b),
    ensures
        a == b,
{
    crate::hashing::law_writes_tell_values_apart();
    let (x, y) = (rect_writes(a), rect_writes(b));
    assert(x[0] == y[0] && x[1] == y[1] && x[2] == y[2] && x[3] == y[3]);
}

proof fn lemma_window_block(before: Seq<Seq<u8>>, id: Seq<char>, rect: LogicalRect)
    ensures
        ({
            let all = before + crate::hashing::text_writes(id) + rect_writes(rect);
            &&& all.len() == before.len() + 6
            &&& all.take(before.len() as int) == before
            &&& all.subrange(before.len() as int, before.len() as int + 2) == crate::hashing::text_writes(
                id,
            )
            &&& all.skip(before.len() as int + 2) == rect_writes(rect)
            &&& all[before.len() as int + 1].len() == 1
        }),
{
    let all = before + crate::hashing::text_writes(id) + rect_writes(rect);
    assert(all.take(before.len() as int) =~= before);
    assert(all.subrange(before.len() as int, before.len() as int + 2) =~= crate::hashing::text_writes(id));
    assert(all.skip(before.len() as int + 2) =~= rect_writes(rect));
}

proof fn lemma_windows_written_apart(
    a: Seq<WindowContributor>,
    b: Seq<WindowContributor>,
    effect_rect: LogicalRect,
)
    requires
        window_writes(a, effect_rect) == window_writes(b, effect_rect),
    ensures
        windows_below(a, effect_rect) == windows_below(b, effect_rect),
    decreases a.len() + b.len(),
{
    crate::hashing::law_writes_tell_values_apart();
    if a.len() > 0 {
        lemma_shared_pixel(a.last().rect, effect_rect);
    }
    if b.len() > 0 {
        lemma_shared_pixel(b.last().rect, effect_rect);
    }
    if a.len() > 0 && !crate::backend::window::overlap(a.last().rect, effect_rect) {
        lemma_windows_written_apart(a.drop_last(), b, effect_rect);
    } else if b.len() > 0 && !crate::backend::window::overlap(b.last().rect, effect_rect) {
        lemma_windows_written_apart(a, b.drop_last(), effect_rect);
    } else {
        let (before_a, before_b) = (
            window_writes(a.drop_last(), effect_rect),
            window_writes(b.drop_last(), effect_rect),
        );
        if a.len() > 0 {
            lemma_window_block(before_a, a.last().id@, a.last().rect);
        }
        if b.len() > 0 {
            lemma_window_block(before_b, b.last().id@, b.last().rect);
        }
        if a.len() > 0 && b.len() > 0 {
            assert(before_a == before_b);
            lemma_rects_written_apart(a.last().rect, b.last().rect);
            lemma_windows_written_apart(a.drop_last(), b.drop_last(), effect_rect);
        }
    }
}

proof fn lemma_last_window_block(windows: Seq<WindowContributor>, effect_rect: LogicalRect)
    ensures
        ({
            let all = window_writes(windows, effect_rect);
            all.len() > 0 ==> all.len() >= 6 && all[all.len() - 5].len() == 1
        }),
    decreases windows.len(),
{
    if windows.len() > 0 {
        lemma_last_window_block(windows.drop_last(), effect_rect);
        if crate::backend::window::overlap(windows.last().rect, effect_rect) {
            lemma_window_block(
                window_writes(windows.drop_last(), effect_rect),
                windows.last().id@,
                windows.last().rect,
            );
        }
    }
}

proof fn lemma_layer_block(before: Seq<Seq<u8>>, id: u32, rect: LogicalRect)
    ensures
        ({
            let all = before.push(crate::hashing::u32_write(id)) + rect_writes(rect);
            &&& all.len() == before.len() + 5
            &&& all.take(before.len() as int) == before
            &&& all[before.len() as int] == crate::hashing::u32_write(id)
            &&& all.skip(before.len() as int + 1) == rect_writes(rect)
        }),
{
    let all = before.push(crate::hashing::u32_write(id)) + rect_writes(rect);
    assert(all.take(before.len() as int) =~= before);
    assert(all.skip(before.len() as int + 1) =~= rect_writes(rect));
}

/// Windows and the layers behind them are written so that both can be told.
proof fn lemma_contributors_written_apart(
    windows_a: Seq<WindowContributor>,
    layers_a: Seq<LayerContributor>,
    windows_b: Seq<WindowContributor>,
    layers_b: Seq<LayerContributor>,
    effect_rect: LogicalRect,
)
    requires
        window_writes(windows_a, effect_rect) + layer_writes(layers_a, effect_rect)
            == window_writes(windows_b, effect_rect) + layer_writes(layers_b, effect_rect),
    ensures
        windows_below(windows_a, effect_rect) == windows_below(windows_b, effect_rect),
        layers_below(layers_a, effect_rect) == layers_below(layers_b, effect_rect),
    decreases layers_a.len() + layers_b.len(),
{
    crate::hashing::law_writes_tell_values_apart();
    let (wa, wb) = (window_writes(windows_a, effect_rect), window_writes(windows_b, effect_rect));
    let (la, lb) = (layer_writes(layers_a, effect_rect), layer_writes(layers_b, effect_rect));
    if layers_a.len() > 0 {
        lemma_shared_pixel(layers_a.last().rect, effect_rect);
    }
    if layers_b.len() > 0 {
        lemma_shared_pixel(layers_b.last().rect, effect_rect);
    }
    if layers_a.len() > 0 && !crate::backend::window::overlap(layers_a.last().rect, effect_rect) {
        lemma_contributors_written_apart(
            windows_a,
            layers_a.drop_last(),
            windows_b,
            layers_b,
            effect_rect,
        );
    } else if layers_b.len() > 0 && !crate::backend::window::overlap(
        layers_b.last().rect,
        effect_rect,
    ) {
        lemma_contributors_written_apart(
            windows_a,
            layers_a,
            windows_b,
            layers_b.drop_last(),
            effect_rect,
        );
    } else {
        let all = wa + la;
        lemma_last_window_block(windows_a, effect_rect);
        lemma_last_window_block(windows_b, effect_rect);
        if layers_a.len() > 0 {
            let before = layer_writes(layers_a.drop_last(), effect_rect);
            let last = layers_a.last();
            assert(all =~= (wa + before).push(crate::hashing::u32_write(last.id)) + rect_writes(
                last.rect,
            ));
            lemma_layer_block(wa + before, last.id, last.rect);
        } else {
            assert(all =~= wa);
        }
        if layers_b.len() > 0 {
            let before = layer_writes(layers_b.drop_last(), effect_rect);
            let last = layers_b.last();
            assert(all =~= (wb + before).push(crate::hashing::u32_write(last.id)) + rect_writes(
                last.rect,
            ));
            lemma_layer_block(wb + before, last.id, last.rect);
        } else {
            assert(all =~= wb);
        }
        if layers_a.len() > 0 && layers_b.len() > 0 {
            let (a, b) = (layers_a.last(), layers_b.last());
            lemma_rects_written_apart(a.rect, b.rect);
            lemma_contributors_written_apart(
                windows_a,
                layers_a.drop_last(),
                windows_b,
                layers_b.drop_last(),
                effect_rect,
            );
        } else if layers_a.len() > 0 {
            assert(all[all.len() - 5].len() == 4);
            assert(false);
        } else if layers_b.len() > 0 {
            assert(all[all.len() - 5].len() == 4);
            assert(false);
        } else {
            lemma_windows_written_apart(windows_a, windows_b, effect_rect);
        }
    }
}

/// Two effects read the same kinds of things.
pub open spec fn reads_alike(a: EffectInputs, b: EffectInputs) -> bool {
    a.uses_backdrop == b.uses_backdrop && a.uses_xray == b.uses_xray
}

/// What an effect shows of two scenes is the same: of the windows and layers that share a pixel with it, as
/// far as it reads them, and of the changes of the layers below all windows.
pub open spec fn shows_the_same(
    effect: EffectInputs,
    a: EffectScene,
    b: EffectScene,
    effect_rect: LogicalRect,
) -> bool {
    &&& effect.uses_backdrop ==> windows_below(a.windows@, effect_rect) == windows_below(
        b.windows@,
        effect_rect,
    )
    &&& effect.uses_backdrop || effect.uses_xray ==> layers_below(a.layers@, effect_rect)
        == layers_below(b.layers@, effect_rect)
    &&& effect.uses_backdrop || effect.uses_xray ==> a.lower_layer_generation
        == b.lower_layer_generation
}

proof fn lemma_scenes_written_apart(
    ea: EffectInputs,
    a: EffectScene,
    eb: EffectInputs,
    b: EffectScene,
    effect_rect: LogicalRect,
)
    requires
        reads_alike(ea, eb),
        contributor_writes(ea, a, effect_rect) == contributor_writes(eb, b, effect_rect),
        generation_writes(ea, a) == generation_writes(eb, b),
    ensures
        shows_the_same(ea, a, b, effect_rect),
{
    crate::hashing::law_writes_tell_values_apart();
    if ea.uses_backdrop || ea.uses_xray {
        assert(generation_writes(ea, a)[0] == generation_writes(eb, b)[0]);
        let none = Seq::<WindowContributor>::empty();
        if ea.uses_backdrop {
            lemma_contributors_written_apart(
                a.windows@,
                a.layers@,
                b.windows@,
                b.layers@,
                effect_rect,
            );
        } else {
            lemma_contributors_written_apart(none, a.layers@, none, b.layers@, effect_rect);
        }
    }
}

/// What the signature of a decoration effect is taken of tells everything apart that the texture depends
/// on: as soon as a window or a layer that shares a pixel with the effect comes, goes, moves or is another
/// one, or the place, the size, the output, the blur, the corners or the words of the effect change, it
/// differs.
pub proof fn law_decoration_signature_sees_changes(
    key_a: Seq<char>,
    key_b: Seq<char>,
    ea: EffectInputs,
    eb: EffectInputs,
    a: EffectScene,
    b: EffectScene,
    rect_a: LogicalRect,
    rect_b: LogicalRect,
    output_a: LogicalRect,
    output_b: LogicalRect,
    radius_a: i32,
    radius_b: i32,
    origin_a: (i32, i32),
    origin_b: (i32, i32),
)
    requires
        reads_alike(ea, eb),
        backdrop_signature_writes(key_a, ea, a, rect_a, output_a, radius_a, origin_a)
            == backdrop_signature_writes(key_b, eb, b, rect_b, output_b, radius_b, origin_b),
    ensures
        shows_the_same(ea, a, b, rect_a),
        key_a == key_b,
        rect_a == rect_b,
        output_a == output_b,
        radius_a == radius_b,
        origin_a == origin_b,
        ea.description@ == eb.description@,
{
    crate::hashing::law_writes_tell_values_apart();
    let x = backdrop_signature_writes(key_a, ea, a, rect_a, output_a, radius_a, origin_a);
    let y = backdrop_signature_writes(key_b, eb, b, rect_b, output_b, radius_b, origin_b);
    let g = generation_writes(ea, a).len() as int;
    assert(generation_writes(eb, b).len() == g);
    assert(x.take(2) =~= crate::hashing::text_writes(key_a));
    assert(y.take(2) =~= crate::hashing::text_writes(key_b));
    assert(x.subrange(2, 6) =~= rect_writes(rect_a));
    assert(y.subrange(2, 6) =~= rect_writes(rect_b));
    assert(x.subrange(6, 10) =~= rect_writes(output_a));
    assert(y.subrange(6, 10) =~= rect_writes(output_b));
    assert(x[11] == crate::hashing::i32_write(radius_a));
    assert(y[11] == crate::hashing::i32_write(radius_b));
    assert(x.subrange(12, 12 + g) =~= generation_writes(ea, a));
    assert(y.subrange(12, 12 + g) =~= generation_writes(eb, b));
    assert(x.subrange(12 + g, 14 + g) =~= crate::hashing::text_writes(ea.description@));
    assert(y.subrange(12 + g, 14 + g) =~= crate::hashing::text_writes(eb.description@));
    assert(x[18 + g] == crate::hashing::i32_write(origin_a.0));
    assert(y[18 + g] == crate::hashing::i32_write(origin_b.0));
    assert(x[19 + g] == crate::hashing::i32_write(origin_a.1));
    assert(y[19 + g] == crate::hashing::i32_write(origin_b.1));
    lemma_rects_written_apart(rect_a, rect_b);
    lemma_rects_written_apart(output_a, output_b);
    assert(x.skip(20 + g) =~= contributor_writes(ea, a, rect_a));
    assert(y.skip(20 + g) =~= contributor_writes(eb, b, rect_a));
    lemma_scenes_written_apart(ea, a, eb, b, rect_a);
}

/// What the signature of an effect that a window asked for is taken of tells everything apart that the
/// texture depends on: as soon as a window or a layer that shares a pixel with the effect comes, goes, moves
/// or is another one, or the place, the size, the output or the words of the effect change, it differs.
pub proof fn law_protocol_signature_sees_changes(
    key_a: Seq<char>,
    key_b: Seq<char>,
    ea: EffectInputs,
    eb: EffectInputs,
    a: EffectScene,
    b: EffectScene,
    rect_a: LogicalRect,
    rect_b: LogicalRect,
    output_a: LogicalRect,
    output_b: LogicalRect,
)
    requires
        reads_alike(ea, eb),
        protocol_signature_writes(key_a, ea, a, rect_a, output_a) == protocol_signature_writes(
            key_b,
            eb,
            b,
            rect_b,
            output_b,
        ),
    ensures
        shows_the_same(ea, a, b, rect_a),
        key_a == key_b,
        rect_a == rect_b,
        output_a == output_b,
        ea.description@ == eb.description@,
        grown(rect_a, padding_of(ea.blur)) == grown(rect_b, padding_of(eb.blur)),
{
    crate::hashing::law_writes_tell_values_apart();
    let x = protocol_signature_writes(key_a, ea, a, rect_a, output_a);
    let y = protocol_signature_writes(key_b, eb, b, rect_b, output_b);
    let g = generation_writes(ea, a).len() as int;
    assert(generation_writes(eb, b).len() == g);
    assert(x.take(2) =~= crate::hashing::text_writes(key_a));
    assert(y.take(2) =~= crate::hashing::text_writes(key_b));
    assert(x.subrange(2, 6) =~= rect_writes(rect_a));
    assert(y.subrange(2, 6) =~= rect_writes(rect_b));
    assert(x.subrange(6, 10) =~= rect_writes(output_a));
    assert(y.subrange(6, 10) =~= rect_writes(output_b));
    assert(x.subrange(11, 11 + g) =~= generation_writes(ea, a));
    assert(y.subrange(11, 11 + g) =~= generation_writes(eb, b));
    assert(x.subrange(11 + g, 13 + g) =~= crate::hashing::text_writes(ea.description@));
    assert(y.subrange(11 + g, 13 + g) =~= crate::hashing::text_writes(eb.description@));
    lemma_rects_written_apart(rect_a, rect_b);
    lemma_rects_written_apart(output_a, output_b);
    let (grown_a, grown_b) = (grown(rect_a, padding_of(ea.blur)), grown(rect_b, padding_of(eb.blur)));
    assert(x.subrange(13 + g, 17 + g) =~= rect_writes(grown_a));
    assert(y.subrange(13 + g, 17 + g) =~= rect_writes(grown_b));
    lemma_rects_written_apart(grown_a, grown_b);
    assert(x.skip(17 + g) =~= contributor_writes(ea, a, rect_a));
    assert(y.skip(17 + g) =~= contributor_writes(eb, b, rect_a));
    lemma_scenes_written_apart(ea, a, eb, b, rect_a);
}

/// What the signature of the effect of a layer above the windows is taken of tells everything apart that
/// the texture depends on: as soon as a window or a layer that shares a pixel with the effect comes, goes,
/// moves or is another one, or the place, the size or the words of the effect change, it differs.
pub proof fn law_upper_layer_signature_sees_changes(
    key_a: Seq<char>,
    key_b: Seq<char>,
    ea: EffectInputs,
    eb: EffectInputs,
    a: EffectScene,
    b: EffectScene,
    rect_a: LogicalRect,
    rect_b: LogicalRect,
)
    requires
        reads_alike(ea, eb),
        layer_signature_writes(key_a, LayerPosition::Top, ea, a, rect_a) == layer_signature_writes(
            key_b,
            LayerPosition::Top,
            eb,
            b,
            rect_b,
        ),
    ensures
        shows_the_same(ea, a, b, rect_a),
        key_a == key_b,
        rect_a == rect_b,
        ea.description@ == eb.description@,
        grown(rect_a, padding_of(ea.blur)) == grown(rect_b, padding_of(eb.blur)),
{
    crate::hashing::law_writes_tell_values_apart();
    let x = layer_signature_writes(key_a, LayerPosition::Top, ea, a, rect_a);
    let y = layer_signature_writes(key_b, LayerPosition::Top, eb, b, rect_b);
    let g = generation_writes(ea, a).len() as int;
    let n = x.len() as int;
    assert(generation_writes(eb, b).len() == g);
    assert(x.take(2) =~= crate::hashing::text_writes(key_a));
    assert(y.take(2) =~= crate::hashing::text_writes(key_b));
    assert(x.subrange(2, 2 + g) =~= generation_writes(ea, a));
    assert(y.subrange(2, 2 + g) =~= generation_writes(eb, b));
    assert(x.subrange(n - 10, n - 8) =~= crate::hashing::text_writes(ea.description@));
    assert(y.subrange(n - 10, n - 8) =~= crate::hashing::text_writes(eb.description@));
    assert(x.subrange(n - 8, n - 4) =~= rect_writes(rect_a));
    assert(y.subrange(n - 8, n - 4) =~= rect_writes(rect_b));
    lemma_rects_written_apart(rect_a, rect_b);
    let (grown_a, grown_b) = (grown(rect_a, padding_of(ea.blur)), grown(rect_b, padding_of(eb.blur)));
    assert(x.skip(n - 4) =~= rect_writes(grown_a));
    assert(y.skip(n - 4) =~= rect_writes(grown_b));
    lemma_rects_written_apart(grown_a, grown_b);
    assert(x.subrange(2 + g, n - 10) =~= contributor_writes(ea, a, rect_a));
    assert(y.subrange(2 + g, n - 10) =~= contributor_writes(eb, b, rect_a));
    lemma_scenes_written_apart(ea, a, eb, b, rect_a);
}

/// The signature of the effect of a lower layer changes with the layers below all windows, and with the
/// place, the size and the words of the effect.
pub proof fn law_lower_layer_signature_sees_changes(
    key_a: Seq<char>,
    key_b: Seq<char>,
    i: usize,
    j: usize,
    ea: EffectInputs,
    eb: EffectInputs,
    a: EffectScene,
    b: EffectScene,
    rect_a: LogicalRect,
    rect_b: LogicalRect,
)
    requires
        layer_signature_writes(key_a, LayerPosition::Lower { index: i }, ea, a, rect_a)
            == layer_signature_writes(key_b, LayerPosition::Lower { index: j }, eb, b, rect_b),
    ensures
        a.lower_layer_generation == b.lower_layer_generation,
        key_a == key_b,
        rect_a == rect_b,
        ea.description@ == eb.description@,
        grown(rect_a, padding_of(ea.blur)) == grown(rect_b, padding_of(eb.blur)),
{
    crate::hashing::law_writes_tell_values_apart();
    let x = layer_signature_writes(key_a, LayerPosition::Lower { index: i }, ea, a, rect_a);
    let y = layer_signature_writes(key_b, LayerPosition::Lower { index: j }, eb, b, rect_b);
    assert(x.take(2) =~= crate::hashing::text_writes(key_a));
    assert(y.take(2) =~= crate::hashing::text_writes(key_b));
    assert(x[2] == crate::hashing::u64_write(a.lower_layer_generation));
    assert(y[2] == crate::hashing::u64_write(b.lower_layer_generation));
    assert(x.subrange(3, 5) =~= crate::hashing::text_writes(ea.description@));
    assert(y.subrange(3, 5) =~= crate::hashing::text_writes(eb.description@));
    assert(x.subrange(5, 9) =~= rect_writes(rect_a));
    assert(y.subrange(5, 9) =~= rect_writes(rect_b));
    lemma_rects_written_apart(rect_a, rect_b);
    let (grown_a, grown_b) = (grown(rect_a, padding_of(ea.blur)), grown(rect_b, padding_of(eb.blur)));
    assert(x.subrange(9, 13) =~= rect_writes(grown_a));
    assert(y.subrange(9, 13) =~= rect_writes(grown_b));
    lemma_rects_written_apart(grown_a, grown_b);
}

/// What changes elsewhere leaves a signature as it is: two scenes of which the effect shows the same give
/// the same data, for each kind of effect.
pub proof fn law_signature_ignores_what_is_not_shown(
    key: Seq<char>,
    effect: EffectInputs,
    a: EffectScene,
    b: EffectScene,
    effect_rect: LogicalRect,
    output: LogicalRect,
    clip_radius: i32,
    capture_origin: (i32, i32),
)
    requires
        shows_the_same(effect, a, b, effect_rect),
    ensures
        protocol_signature_writes(key, effect, a, effect_rect, output) == protocol_signature_writes(
            key,
            effect,
            b,
            effect_rect,
            output,
        ),
        backdrop_signature_writes(
            key,
            effect,
            a,
            effect_rect,
            output,
            clip_radius,
            capture_origin,
        ) == backdrop_signature_writes(
            key,
            effect,
            b,
            effect_rect,
            output,
            clip_radius,
            capture_origin,
        ),
        layer_signature_writes(key, LayerPosition::Top, effect, a, effect_rect)
            == layer_signature_writes(key, LayerPosition::Top, effect, b, effect_rect),
{
    lemma_windows_written(a.windows@, effect_rect);
    lemma_windows_written(b.windows@, effect_rect);
    lemma_layers_written(a.layers@, effect_rect);
    lemma_layers_written(b.layers@, effect_rect);
}

spec fn written_windows(below: Seq<(Seq<char>, LogicalRect)>) -> Seq<Seq<u8>>
    decreases below.len(),
{
    if below.len() == 0 {
        Seq::empty()
    } else {
        written_windows(below.drop_last()) + crate::hashing::text_writes(below.last().0)
            + rect_writes(below.last().1)
    }
}

spec fn written_layers(below: Seq<(u32, LogicalRect)>) -> Seq<Seq<u8>>
    decreases below.len(),
{
    if below.len() == 0 {
        Seq::empty()
    } else {
        written_layers(below.drop_last()).push(crate::hashing::u32_write(below.last().0))
            + rect_writes(below.last().1)
    }
}

proof fn lemma_windows_written(windows: Seq<WindowContributor>, effect_rect: LogicalRect)
    ensures
        window_writes(windows, effect_rect) == written_windows(windows_below(windows, effect_rect)),
    decreases windows.len(),
{
    if windows.len() > 0 {
        lemma_shared_pixel(windows.last().rect, effect_rect);
        lemma_windows_written(windows.drop_last(), effect_rect);
        let before = windows_below(windows.drop_last(), effect_rect);
        let last = (windows.last().id@, windows.last().rect);
        assert(before.push(last).drop_last() =~= before);
    }
}

proof fn lemma_layers_written(layers: Seq<LayerContributor>, effect_rect: LogicalRect)
    ensures
        layer_writes(layers, effect_rect) == written_layers(layers_below(layers, effect_rect)),
    decreases layers.len(),
{
    if layers.len() > 0 {
        lemma_shared_pixel(layers.last().rect, effect_rect);
        lemma_layers_written(layers.drop_last(), effect_rect);
        let before = layers_below(layers.drop_last(), effect_rect);
        let last = (layers.last().id, layers.last().rect);
        assert(before.push(last).drop_last() =~= before);
    }
}

/// How far a blur reads: a blur that is none counts as the smallest, each further step of the radius adds as
/// many pixels as the passes ask for, and each further pass as many as the radius asks for.
pub proof fn law_blur_reads_farther(radius: i32, passes: i32)
    requires
        1 <= radius < i32::MAX,
        1 <= passes < i32::MAX,
    ensures
        padding_of(None) == 0,
        padding_of(Some(BlurStage { radius: 1, passes: 1 })) == 56,
        padding_of(Some(BlurStage { radius: (radius + 1) as i32, passes })) == padding_of(
            Some(BlurStage { radius, passes }),
        ) + 24 * passes,
        padding_of(Some(BlurStage { radius, passes: (passes + 1) as i32 })) == padding_of(
            Some(BlurStage { radius, passes }),
        ) + 24 * radius,
        forall|low: i32|
            low < 1 ==> #[trigger] padding_of(Some(BlurStage { radius: low, passes })) == padding_of(
                Some(BlurStage { radius: 1, passes }),
            ),
        forall|low: i32|
            low < 1 ==> #[trigger] padding_of(Some(BlurStage { radius, passes: low })) == padding_of(
                Some(BlurStage { radius, passes: 1 }),
            ),
{
    assert((radius + 1) * passes == radius * passes + passes) by (nonlinear_arith);
    assert(radius * (passes + 1) == radius * passes + radius) by (nonlinear_arith);
    assert(1int * 1int * 24 + 32 == 56) by (nonlinear_arith);
    assert(padding_of(Some(BlurStage { radius: 1, passes: 1 })) == 1int * 1int * 24 + 32);
}

/// The rectangle that an effect captures reaches as far beyond the effect on each side as the blur reads,
/// and no farther.
pub proof fn law_capture_reaches_as_far_as_the_blur(
    rect: LogicalRect,
    padding: int,
    px: int,
    py: int,
)
    requires
        grows(rect, padding),
    ensures
        grown(rect, padding).contains(px, py) <==> rect.x <= px + padding && px - padding < rect.x
            + rect.width && rect.y <= py + padding && py - padding < rect.y + rect.height,
{
}

/// A capture that shares no pixel with the output is taken as a whole.
pub proof fn law_capture_off_the_output_is_whole(capture: LogicalRect, output: LogicalRect)
    requires
        capture.edges_fit(),
        output.edges_fit(),
        !capture.is_void(),
        !output.is_void(),
        !crate::backend::window::overlap(capture, output),
    ensures
        clipped_capture(capture, output) == capture,
{
}

/// The textures of a decoration effect are kept apart by the output, and by whether the window is drawn with
/// its transformation.
pub proof fn law_backdrop_keys_differ(
    stable_key: Seq<char>,
    a: Seq<char>,
    a_visual: bool,
    b: Seq<char>,
    b_visual: bool,
)
    requires
        backdrop_key(stable_key, a, a_visual) == backdrop_key(stable_key, b, b_visual),
    ensures
        a == b,
        a_visual == b_visual,
{
    reveal_strlit("@");
    reveal_strlit("visual");
    reveal_strlit("raw");
    let (x, y) = (backdrop_key(stable_key, a, a_visual), backdrop_key(stable_key, b, b_visual));
    assert(x.last() == if a_visual {
        'l'
    } else {
        'w'
    });
    assert(y.last() == if b_visual {
        'l'
    } else {
        'w'
    });
    let n = stable_key.len() as int + 1;
    assert(x.subrange(n, n + a.len()) =~= a);
    assert(y.subrange(n, n + b.len()) =~= b);
    assert(a.len() == b.len());
}

/// Textures of effects that windows asked for are kept apart by the effect and by the output.
pub proof fn law_protocol_textures_differ(stable_key: Seq<char>, other_key: Seq<char>, a: Seq<char>, b: Seq<
    char,
>)
    ensures
        protocol_output_key(stable_key, a) == protocol_output_key(stable_key, b) ==> a == b,
        protocol_output_key(stable_key, a) == protocol_output_key(other_key, a) ==> stable_key
            == other_key,
{
    reveal_strlit("@");
    let n = stable_key.len() as int + 1;
    if protocol_output_key(stable_key, a) == protocol_output_key(stable_key, b) {
        assert(protocol_output_key(stable_key, a).skip(n) =~= a);
        assert(protocol_output_key(stable_key, b).skip(n) =~= b);
    }
    if protocol_output_key(stable_key, a) == protocol_output_key(other_key, a) {
        assert(protocol_output_key(stable_key, a).take(n - 1) =~= stable_key);
        assert(protocol_output_key(stable_key, a).len() == stable_key.len() + 1 + a.len());
        assert(protocol_output_key(other_key, a).len() == other_key.len() + 1 + a.len());
        assert(stable_key.len() == other_key.len());
        assert(protocol_output_key(other_key, a).take(n - 1) =~= other_key);
    }
}

/// The effects of layers on an output have names of their own: by the number of the layer, by where it stands, and by the
/// size of the effect.
pub proof fn law_layer_keys_differ(
    output: Seq<char>,
    a: u32,
    b: u32,
    p: LayerPosition,
    q: LayerPosition,
    aw: i32,
    ah: i32,
    bw: i32,
    bh: i32,
)
    requires
        layer_key(output, a, p, aw, ah) == layer_key(output, b, q, bw, bh),
    ensures
        a == b,
        p == q,
        aw == bw,
        ah == bh,
{
    reveal_strlit("_");
    reveal_strlit("x");
    reveal_strlit("top");
    let (x, y) = (layer_key(output, a, p, aw, ah), layer_key(output, b, q, bw, bh));
    let head = "__layer_background_effect_"@ + output + "_"@;
    let dash = seq!['_'];
    let cross = seq!['x'];
    assert("_"@ =~= dash);
    assert("x"@ =~= cross);
    let (da, db) = (crate::strings::decimal(a as int), crate::strings::decimal(b as int));
    let (pa, pb) = (position_text(p), position_text(q));
    let (wa, wb) = (crate::strings::decimal(aw as int), crate::strings::decimal(bw as int));
    let (ha, hb) = (crate::strings::decimal(ah as int), crate::strings::decimal(bh as int));
    let (a3, b3) = (wa + cross + ha, wb + cross + hb);
    let (a2, b2) = (pa + dash + a3, pb + dash + b3);
    let (a1, b1) = (da + dash + a2, db + dash + b2);
    assert(x =~= head + a1);
    assert(y =~= head + b1);
    assert(x.skip(head.len() as int) =~= a1);
    assert(y.skip(head.len() as int) =~= b1);
    crate::strings::lemma_number_then_separator(a as int, b as int, '_', a2, b2);
    lemma_position_texts(p);
    lemma_position_texts(q);
    match (p, q) {
        (LayerPosition::Lower { index: i }, LayerPosition::Lower { index: j }) => {
            crate::strings::lemma_number_then_separator(i as int, j as int, '_', a3, b3);
        },
        (LayerPosition::Top, LayerPosition::Top) => {
            assert(a2.skip(4) =~= a3);
            assert(b2.skip(4) =~= b3);
        },
        _ => {
            assert(a2[0] == pa[0] && b2[0] == pb[0]);
            assert(false);
        },
    }
    crate::strings::lemma_number_then_separator(aw as int, bw as int, 'x', ha, hb);
    crate::strings::law_decimal_is_injective(ah as int, bh as int);
}

spec fn position_text(position: LayerPosition) -> Seq<char> {
    match position {
        LayerPosition::Top => "top"@,
        LayerPosition::Lower { index } => crate::strings::decimal(index as int),
    }
}

proof fn lemma_position_texts(position: LayerPosition)
    ensures
        position_text(position).len() > 0,
        position is Top <==> position_text(position)[0] == 't',
        position is Top ==> position_text(position).len() == 3,
{
    reveal_strlit("top");
    if let LayerPosition::Lower { index } = position {
        crate::strings::lemma_decimal_chars(index as int);
        assert(crate::strings::is_number_char(position_text(position)[0]));
    }
}

} // verus!
