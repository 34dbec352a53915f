//! The background effects of whole surfaces: every rectangle that is drawn, with its key and its
//! place on the output.

use crate::backend::effect::{
    effect_rect_key, layer_stable_key, plan_layer_effect, plan_protocol_effect, protocol_cache_key,
    protocol_stable_key, EffectInputs, EffectPlan, EffectScene, LayerPosition,
};
use crate::backend::effect_cache::{
    protocol_background_effect_rects_for_layer, BackdropCache,
};
use crate::backend::window::{bounding_box_for_rects, RegionOp};
use crate::geometry::LogicalRect;
use crate::keymap::KeyMap;
use vstd::prelude::*;

verus! {

/// One rectangle of a window's protocol effect.
pub struct WindowEffect {
    pub index: usize,
    pub stable_key: String,
    pub cache_key: String,
    pub effect_rect: LogicalRect,
    /// The rectangle as seen from the corner of the output.
    pub local_rect: LogicalRect,
    pub plan: EffectPlan,
}

/// The effect of a layer.
pub struct LayerEffect {
    pub stable_key: String,
    /// The rectangles that are drawn.
    pub rects: Vec<LogicalRect>,
    /// The smallest rectangle around them, which is what is captured.
    pub effect_rect: LogicalRect,
    /// The captured rectangle as seen from the corner of the output.
    pub local_rect: LogicalRect,
    pub plan: EffectPlan,
}

/// One drawn rectangle of a layer's effect.
pub struct EffectPart {
    pub key: String,
    pub local_rect: LogicalRect,
    pub commit_counter: usize,
}

/// The rectangle can be written as seen from the output's corner.
pub open spec fn localizes(rect: LogicalRect, output: LogicalRect) -> bool {
    rect.moves(-output.x, -output.y)
}

/// Every rectangle can be planned on the output.
pub open spec fn rects_plannable(
    rects: Seq<LogicalRect>,
    effect: EffectInputs,
    output: LogicalRect,
) -> bool {
    forall|i: int|
        0 <= i < rects.len() ==> crate::backend::effect::effect_fits(effect, #[trigger] rects[i])
            && localizes(rects[i], output)
}

impl WindowEffect {
    /// This is the effect of the rectangle at `i`.
    pub open spec fn is_effect_of(
        &self,
        rects: Seq<LogicalRect>,
        i: int,
        effect: EffectInputs,
        scene: EffectScene,
        output_name: Seq<char>,
        output: LogicalRect,
    ) -> bool {
        let rect = rects[i];
        let key = crate::backend::effect::protocol_key(i as nat);
        &&& self.index == i
        &&& self.stable_key@ == key
        &&& self.cache_key@ == crate::backend::effect::protocol_output_key(key, output_name)
        &&& self.effect_rect == rect
        &&& self.local_rect == rect.relative_to(output)
        &&& self.plan.capture_rect == crate::backend::effect::grown(
            rect,
            crate::backend::effect::padding_of(effect.blur),
        )
        &&& self.plan.actual_capture_rect == crate::backend::effect::clipped_capture(
            self.plan.capture_rect,
            output,
        )
        &&& self.plan.signature == crate::hashing::hash_of(
            crate::backend::effect::protocol_signature_writes(key, effect, scene, rect, output),
        )
    }
}

/// Plans the effect that a window asked for, rectangle by rectangle.
pub fn configured_background_effects_for_window(
    rects: &Vec<LogicalRect>,
    effect: &EffectInputs,
    scene: &EffectScene,
    output_name: &str,
    output: LogicalRect,
) -> (effects: Vec<WindowEffect>)
    requires
        rects_plannable(rects@, *effect, output),
        scene.edges_fit(),
    ensures
        effects@.len() == rects@.len(),
        forall|i: int|
            0 <= i < rects@.len() ==> (#[trigger] effects@[i]).is_effect_of(
                rects@,
                i,
                *effect,
                *scene,
                output_name@,
                output,
            ),
{
    let mut effects: Vec<WindowEffect> = Vec::new();
    let mut index: usize = 0;
    while index < rects.len()
        invariant
            index <= rects@.len(),
            rects_plannable(rects@, *effect, output),
            scene.edges_fit(),
            effects@.len() == index,
            forall|i: int|
                0 <= i < index ==> (#[trigger] effects@[i]).is_effect_of(
                    rects@,
                    i,
                    *effect,
                    *scene,
                    output_name@,
                    output,
                ),
        decreases rects@.len() - index,
    {
        let effect_rect = rects[index];
        let stable_key = protocol_stable_key(index);
        let cache_key = protocol_cache_key(stable_key.as_str(), output_name);
        let plan = plan_protocol_effect(stable_key.as_str(), effect, scene, effect_rect, output);
        let local_rect = effect_rect.localize(output);
        effects.push(WindowEffect { index, stable_key, cache_key, effect_rect, local_rect, plan });
        index += 1;
    }
    effects
}

/// Every rectangle of a surface's effect has pixels, and lies inside the surface.
proof fn lemma_effect_rects_inside(
    region: Seq<RegionOp>,
    width: i32,
    height: i32,
    x: i32,
    y: i32,
)
    requires
        crate::backend::window::ops_fit(region),
        x + width <= i32::MAX,
        y + height <= i32::MAX,
    ensures
        forall|i: int|
            #![trigger crate::backend::effect_cache::surface_effect_rects(
                region,
                width,
                height,
                x as int,
                y as int,
            )[i]]
            0 <= i < crate::backend::effect_cache::surface_effect_rects(
                region,
                width,
                height,
                x as int,
                y as int,
            ).len() ==> {
                let rect = crate::backend::effect_cache::surface_effect_rects(
                    region,
                    width,
                    height,
                    x as int,
                    y as int,
                )[i];
                &&& !rect.is_void()
                &&& x <= rect.x
                &&& y <= rect.y
                &&& rect.right() <= x + width
                &&& rect.bottom() <= y + height
            },
{
    let bounds = LogicalRect { x: 0, y: 0, width, height };
    let local = crate::backend::window::region_rects(region, bounds);
    let moved = crate::backend::effect_cache::surface_effect_rects(
        region,
        width,
        height,
        x as int,
        y as int,
    );
    crate::backend::window::law_region_rects_are_the_region(region, bounds);
    assert forall|i: int| 0 <= i < moved.len() implies ({
        let rect = #[trigger] moved[i];
        &&& !rect.is_void()
        &&& x <= rect.x
        &&& y <= rect.y
        &&& rect.right() <= x + width
        &&& rect.bottom() <= y + height
    }) by {
        let rect = local[i];
        let far_x = rect.right() - 1;
        let far_y = rect.bottom() - 1;
        assert(rect.contains(rect.x as int, rect.y as int));
        assert(rect.contains(far_x, far_y));
        assert(crate::backend::window::covers(local, rect.x as int, rect.y as int));
        assert(crate::backend::window::covers(local, far_x, far_y));
        assert(bounds.contains(rect.x as int, rect.y as int));
        assert(bounds.contains(far_x, far_y));
    }
}

/// The rectangles of a layer's effect, in compositor space.
pub open spec fn layer_rects(region: Seq<RegionOp>, layer: LogicalRect, output: LogicalRect) -> Seq<
    LogicalRect,
> {
    crate::backend::effect_cache::surface_effect_rects(
        region,
        layer.width,
        layer.height,
        output.x + layer.x,
        output.y + layer.y,
    )
}

impl LayerEffect {
    /// This is the effect of the layer.
    pub open spec fn is_effect_of(
        &self,
        output_name: Seq<char>,
        layer_id: u32,
        position: LayerPosition,
        region: Seq<RegionOp>,
        layer: LogicalRect,
        effect: EffectInputs,
        scene: EffectScene,
        output: LogicalRect,
    ) -> bool {
        &&& self.rects@ == layer_rects(region, layer, output)
        &&& crate::backend::window::is_bounding_box(self.effect_rect, self.rects@)
        &&& self.stable_key@ == crate::backend::effect::layer_key(
            output_name,
            layer_id,
            position,
            self.effect_rect.width,
            self.effect_rect.height,
        )
        &&& self.local_rect == self.effect_rect.relative_to(output)
        &&& self.plan.capture_rect == crate::backend::effect::grown(
            self.effect_rect,
            crate::backend::effect::padding_of(effect.blur),
        )
        &&& self.plan.actual_capture_rect == crate::backend::effect::clipped_capture(
            self.plan.capture_rect,
            output,
        )
        &&& self.plan.signature == crate::hashing::hash_of(
            crate::backend::effect::layer_signature_writes(
                self.stable_key@,
                position,
                effect,
                scene,
                self.effect_rect,
            ),
        )
    }
}

/// The effect that a layer gets: the one that is configured for it under its id, or else the one that
/// is configured for every surface, if there is one.
pub open spec fn chosen_effect<E>(
    configured: Map<Seq<char>, E>,
    layer_id: Seq<char>,
    default: Option<E>,
) -> Option<E> {
    if configured.dom().contains(layer_id) {
        Some(configured[layer_id])
    } else {
        default
    }
}

/// Picks the effect that a layer gets.
pub fn effect_for_layer<'a, E>(
    configured: &'a KeyMap<E>,
    layer_id: &str,
    default: Option<&'a E>,
) -> (effect: Option<&'a E>)
    requires
        configured.wf(),
    ensures
        match (effect, default) {
            (Some(effect), Some(default)) => chosen_effect(configured@, layer_id@, Some(*default))
                == Some(*effect),
            (Some(effect), None) => chosen_effect(configured@, layer_id@, None) == Some(*effect),
            (None, Some(default)) => false,
            (None, None) => chosen_effect(configured@, layer_id@, None) is None,
        },
{
    match configured.get(layer_id) {
        Some(effect) => Some(effect),
        None => default,
    }
}

/// What is configured for one layer changes the effect of no other.
pub proof fn law_layers_are_configured_alone<E>(
    configured: Map<Seq<char>, E>,
    layer_id: Seq<char>,
    effect: E,
    other: Seq<char>,
    default: Option<E>,
)
    ensures
        chosen_effect(configured.insert(layer_id, effect), layer_id, default) == Some(effect),
        other != layer_id ==> chosen_effect(configured.insert(layer_id, effect), other, default)
            == chosen_effect(configured, other, default),
{
}

/// Plans the effect of a layer; none if its blur region has no pixel inside the layer. `layer` is
/// the geometry of the layer on its output.
pub fn configured_background_effect_for_layer(
    output_name: &str,
    layer_id: u32,
    position: LayerPosition,
    region: &Vec<RegionOp>,
    layer: LogicalRect,
    effect: &EffectInputs,
    scene: &EffectScene,
    output: LogicalRect,
) -> (planned: Option<LayerEffect>)
    requires
        crate::backend::window::ops_fit(region@),
        layer.moves(output.x as int, output.y as int),
        layer.moved(output.x as int, output.y as int).edges_fit(),
        forall|rect: LogicalRect| #[trigger]
            crate::backend::window::is_bounding_box(rect, layer_rects(region@, layer, output))
                ==> crate::backend::effect::effect_fits(*effect, rect) && localizes(rect, output),
        scene.edges_fit(),
    ensures
        planned is None <==> layer_rects(region@, layer, output).len() == 0,
        planned matches Some(planned) ==> planned.is_effect_of(
            output_name@,
            layer_id,
            position,
            region@,
            layer,
            *effect,
            *scene,
            output,
        ),
{
    let rects = protocol_background_effect_rects_for_layer(region, layer, output.x, output.y);
    proof {
        lemma_effect_rects_inside(
            region@,
            layer.width,
            layer.height,
            (output.x + layer.x) as i32,
            (output.y + layer.y) as i32,
        );
    }
    let effect_rect = match bounding_box_for_rects(rects.as_slice()) {
        Some(effect_rect) => effect_rect,
        None => return None,
    };
    assert(crate::backend::window::is_bounding_box(
        effect_rect,
        layer_rects(region@, layer, output),
    ));
    let stable_key = layer_stable_key(
        output_name,
        layer_id,
        position,
        effect_rect.width,
        effect_rect.height,
    );
    let plan = plan_layer_effect(
        stable_key.as_str(),
        position,
        effect,
        scene,
        effect_rect,
        output,
    );
    let local_rect = effect_rect.localize(output);
    Some(LayerEffect { stable_key, rects, effect_rect, local_rect, plan })
}

/// The keys of the drawn rectangles.
pub open spec fn part_keys(stable_key: Seq<char>, rects: Seq<LogicalRect>) -> Seq<Seq<char>> {
    Seq::new(rects.len(), |i: int| crate::backend::effect::rect_key(stable_key, rects[i]))
}

/// The keys of the rectangles that a layer's effect draws.
pub fn layer_part_keys(planned: &LayerEffect) -> (keys: Vec<String>)
    ensures
        crate::seqs::texts(keys@) == part_keys(planned.stable_key@, planned.rects@),
{
    let mut keys: Vec<String> = Vec::new();
    let mut i: usize = 0;
    while i < planned.rects.len()
        invariant
            i <= planned.rects@.len(),
            keys@.len() == i,
            forall|k: int|
                0 <= k < i ==> (#[trigger] keys@[k])@ == crate::backend::effect::rect_key(
                    planned.stable_key@,
                    planned.rects@[k],
                ),
        decreases planned.rects@.len() - i,
    {
        keys.push(effect_rect_key(planned.stable_key.as_str(), planned.rects[i]));
        i += 1;
    }
    assert(crate::seqs::texts(keys@) =~= part_keys(planned.stable_key@, planned.rects@));
    keys
}

impl EffectPart {
    /// This is the drawn rectangle at `i`, which has changed as often as the cache says.
    pub open spec fn is_part_of(
        &self,
        cache: BackdropCache,
        planned: LayerEffect,
        i: int,
        output: LogicalRect,
    ) -> bool {
        let key = crate::backend::effect::rect_key(planned.stable_key@, planned.rects@[i]);
        &&& self.key@ == key
        &&& self.local_rect == planned.rects@[i].relative_to(output)
        &&& self.commit_counter == cache.counter_of_part(planned.stable_key@, key)
    }
}

/// These are the drawn rectangles of a layer's effect.
pub open spec fn are_parts(
    parts: Seq<EffectPart>,
    cache: BackdropCache,
    planned: LayerEffect,
    output: LogicalRect,
) -> bool {
    &&& parts.len() == planned.rects@.len()
    &&& forall|i: int|
        0 <= i < parts.len() ==> (#[trigger] parts[i]).is_part_of(cache, planned, i, output)
}

/// Every drawn rectangle can be written as seen from the output's corner.
pub open spec fn parts_localize(planned: LayerEffect, output: LogicalRect) -> bool {
    forall|i: int|
        0 <= i < planned.rects@.len() ==> localizes(#[trigger] planned.rects@[i], output)
}

/// What is drawn of a layer's effect, once its texture is in the cache.
pub fn layer_effect_parts(cache: &BackdropCache, planned: &LayerEffect, output: LogicalRect) -> (parts:
    Vec<EffectPart>)
    requires
        cache.wf(),
        parts_localize(*planned, output),
    ensures
        are_parts(parts@, *cache, *planned, output),
{
    let mut parts: Vec<EffectPart> = Vec::new();
    let mut i: usize = 0;
    while i < planned.rects.len()
        invariant
            i <= planned.rects@.len(),
            cache.wf(),
            parts_localize(*planned, output),
            parts@.len() == i,
            forall|k: int|
                0 <= k < i ==> (#[trigger] parts@[k]).is_part_of(*cache, *planned, k, output),
        decreases planned.rects@.len() - i,
    {
        let rect = planned.rects[i];
        let key = effect_rect_key(planned.stable_key.as_str(), rect);
        let commit_counter: usize = cache.part_counter(planned.stable_key.as_str(), key.as_str());
        let local_rect = rect.localize(output);
        parts.push(EffectPart { key, local_rect, commit_counter });
        i += 1;
    }
    parts
}

/// The effect of a rectangle that a window asked for is drawn where the rectangle lies, as seen from the output, and
/// what it captures holds all of its pixels. Different rectangles have different textures.
pub proof fn law_window_effects_lie_where_they_were_asked_for(
    a: WindowEffect,
    b: WindowEffect,
    rects: Seq<LogicalRect>,
    i: int,
    j: int,
    effect: EffectInputs,
    scene: EffectScene,
    output_name: Seq<char>,
    output: LogicalRect,
    px: int,
    py: int,
)
    requires
        rects_plannable(rects, effect, output),
        0 <= i < rects.len(),
        0 <= j < rects.len(),
        a.is_effect_of(rects, i, effect, scene, output_name, output),
        b.is_effect_of(rects, j, effect, scene, output_name, output),
    ensures
        a.effect_rect == rects[i],
        a.local_rect.contains(px - output.x, py - output.y) <==> rects[i].contains(px, py),
        rects[i].contains(px, py) ==> a.plan.capture_rect.contains(px, py),
        i != j ==> a.cache_key@ != b.cache_key@,
{
    assert(crate::backend::effect::effect_fits(effect, rects[i]));
    if a.cache_key@ == b.cache_key@ {
        crate::backend::effect::law_protocol_keys_differ(i as nat, j as nat, output_name);
    }
}

/// The effect of a layer is drawn in exactly the rectangles of its region, each where it lies as seen from the output,
/// and under a name of its own; what it captures holds all of their pixels.
pub proof fn law_layer_parts_lie_in_the_region(
    parts: Seq<EffectPart>,
    cache: BackdropCache,
    planned: LayerEffect,
    output: LogicalRect,
    i: int,
    j: int,
    px: int,
    py: int,
)
    requires
        are_parts(parts, cache, planned, output),
        parts_localize(planned, output),
        crate::backend::window::is_bounding_box(planned.effect_rect, planned.rects@),
        0 <= i < planned.rects@.len(),
        0 <= j < planned.rects@.len(),
    ensures
        parts.len() == planned.rects@.len(),
        parts[i].local_rect.contains(px - output.x, py - output.y) <==> planned.rects@[i].contains(
            px,
            py,
        ),
        planned.rects@[i].contains(px, py) ==> planned.effect_rect.contains(px, py),
        planned.rects@[i] != planned.rects@[j] ==> parts[i].key@ != parts[j].key@,
{
    assert(parts[i].is_part_of(cache, planned, i, output));
    assert(parts[j].is_part_of(cache, planned, j, output));
    assert(localizes(planned.rects@[i], output));
    if planned.rects@[i].contains(px, py) {
        assert(crate::backend::window::covers(planned.rects@, px, py));
        crate::backend::window::law_bounding_box_covers(
            planned.effect_rect,
            planned.rects@,
            px,
            py,
        );
    }
    if parts[i].key@ == parts[j].key@ {
        crate::backend::effect::law_rect_keys_differ(
            planned.stable_key@,
            planned.rects@[i],
            planned.rects@[j],
        );
    }
}

/// The effect that is planned for a layer covers exactly the pixels of the layer that lie in its region.
pub proof fn law_layer_effect_is_its_region(
    planned: LayerEffect,
    output_name: Seq<char>,
    layer_id: u32,
    position: LayerPosition,
    region: Seq<RegionOp>,
    layer: LogicalRect,
    effect: EffectInputs,
    scene: EffectScene,
    output: LogicalRect,
    px: int,
    py: int,
)
    requires
        planned.is_effect_of(
            output_name,
            layer_id,
            position,
            region,
            layer,
            effect,
            scene,
            output,
        ),
        crate::backend::window::ops_fit(region),
        layer.moves(output.x as int, output.y as int),
        layer.moved(output.x as int, output.y as int).edges_fit(),
    ensures
        crate::backend::window::covers(
            planned.rects@,
            px + output.x + layer.x,
            py + output.y + layer.y,
        ) <==> 0 <= px < layer.width && 0 <= py < layer.height
            && crate::backend::window::region_contains(region, px, py),
{
    crate::backend::effect_cache::law_surface_effect_is_region_in_surface(
        region,
        layer.width,
        layer.height,
        (output.x + layer.x) as i32,
        (output.y + layer.y) as i32,
        px,
        py,
    );
}

} // verus!
