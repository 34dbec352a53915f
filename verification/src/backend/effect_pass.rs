//! Drawing the effects of a frame, from the textures of earlier frames or from new ones.

use crate::backend::effect::{EffectInputs, LayerContributor, WindowContributor};
use crate::backend::effect_cache::{BackdropCache, EffectTexture};
use crate::backend::surface_effect::{
    layer_effect_parts, layer_part_keys, EffectPart, LayerEffect,
};
use crate::geometry::LogicalRect;
use crate::handlers::layer_owner;
use vstd::prelude::*;

verus! {

// ---- what effects show --------------------------------------------------------------------------

/// A window whose name and place its decoration knows.
pub struct DecoratedWindow {
    pub id: String,
    /// Where the decoration is drawn.
    pub rect: LogicalRect,
}

/// A window without a decoration.
pub struct BareWindow {
    /// The number of its surface, if it has one.
    pub surface: Option<u32>,
    /// Where it is mapped, if it is.
    pub place: Option<(i32, i32)>,
    /// Its pixels, as seen from its place.
    pub bounds: LogicalRect,
}

/// The name under which a window without a decoration is known.
pub open spec fn bare_name(surface: Option<u32>) -> Seq<char> {
    match surface {
        Some(surface) => crate::strings::digits(surface as nat),
        None => "unknown"@,
    }
}

/// What a window adds to the scenes behind others: its name, and the pixels that it covers.
pub open spec fn added_by(decorated: Option<DecoratedWindow>, bare: BareWindow) -> Option<
    (Seq<char>, LogicalRect),
> {
    match decorated {
        Some(window) => Some((window.id@, window.rect)),
        None => match bare.place {
            Some(place) => Some(
                (bare_name(bare.surface), bare.bounds.moved(place.0 as int, place.1 as int)),
            ),
            None => None,
        },
    }
}

/// A decorated window counts with the place of its decoration. One without counts with its own pixels at its place,
/// under the number of its surface; and not at all where it is not mapped.
pub proof fn law_windows_count_where_they_are_drawn(
    decorated: DecoratedWindow,
    bare: BareWindow,
    x: i32,
    y: i32,
    px: int,
    py: int,
)
    ensures
        added_by(Some(decorated), bare) == Some((decorated.id@, decorated.rect)),
        bare.place is None ==> added_by(None, bare) is None,
        bare.place == Some((x, y)) && bare.bounds.moves(x as int, y as int) ==> (added_by(
            None,
            bare,
        ) matches Some((name, rect)) && rect.contains(px + x, py + y) == bare.bounds.contains(px, py)
            && (bare.surface matches Some(surface) ==> name == crate::strings::digits(
            surface as nat,
        ))),
{
}

/// What a window adds to the scenes behind others. One without a decoration that is not mapped adds
/// nothing.
pub fn contributor_window_scene_rect(decorated: Option<DecoratedWindow>, bare: BareWindow) -> (added:
    Option<WindowContributor>)
    requires
        decorated is None ==> (bare.place matches Some(place) ==> bare.bounds.moves(
            place.0 as int,
            place.1 as int,
        )),
    ensures
        match added {
            Some(added) => added_by(decorated, bare) == Some((added.id@, added.rect)),
            None => added_by(decorated, bare) is None,
        },
{
    match decorated {
        Some(window) => Some(WindowContributor { id: window.id, rect: window.rect }),
        None => match bare.place {
            Some((x, y)) => {
                let id = match bare.surface {
                    Some(surface) => layer_owner(surface),
                    None => "unknown".to_owned(),
                };
                Some(WindowContributor { id, rect: bare.bounds.translate(x, y) })
            },
            None => None,
        },
    }
}

/// What a layer adds to the scenes behind others. `geometry` is its place on its output.
pub fn layer_contributor(id: u32, geometry: LogicalRect, output: (i32, i32)) -> (added:
    LayerContributor)
    requires
        geometry.moves(output.0 as int, output.1 as int),
    ensures
        added.id == id,
        added.rect == geometry.moved(output.0 as int, output.1 as int),
{
    LayerContributor { id, rect: geometry.translate(output.0, output.1) }
}

// ---- effects of a window ------------------------------------------------------------------------

/// An effect that is to be drawn in a frame.
pub struct DueEffect {
    pub cache_key: String,
    pub effect: EffectInputs,
    pub signature: u64,
    /// Something that the effect shows was damaged.
    pub damage_hit: bool,
}

/// An effect that is drawn in a frame.
#[derive(Clone, Copy, Debug, PartialEq, Eq, Structural)]
pub struct DrawnEffect {
    /// The position of the effect among those that are due.
    pub index: usize,
    /// How often its texture has changed.
    pub commit_counter: usize,
    /// Its texture was made for this frame.
    pub fresh: bool,
}

/// What is done next for the effects of a window.
#[derive(Clone, Copy, Debug, PartialEq, Eq, Structural)]
pub enum EffectAction {
    /// A texture is made for an effect, out of what lies behind the window, of the layers at the
    /// bottom, or of both.
    Render { index: usize, backdrop: bool, xray: bool },
    /// All effects have been looked at.
    Done,
}

/// The effects of a window, drawn one by one.
pub struct EffectPass {
    /// The effect that is looked at next.
    pub next: usize,
    pub drawn: Vec<DrawnEffect>,
}

/// The texture of an earlier frame shows the effect as it is.
pub open spec fn is_current(cache: BackdropCache, due: DueEffect) -> bool {
    cache.reusable(
        due.cache_key@,
        due.effect.always_invalidate,
        due.damage_hit,
        due.signature,
    )
}

/// The first effect from `from` on that needs a new texture.
pub open spec fn first_stale(cache: BackdropCache, due: Seq<DueEffect>, from: int) -> int
    decreases due.len() - from,
{
    if from >= due.len() || !is_current(cache, due[from]) {
        from
    } else {
        first_stale(cache, due, from + 1)
    }
}

/// The effects from `from` up to `to`, drawn with the textures that there are.
pub open spec fn drawn_again(cache: BackdropCache, due: Seq<DueEffect>, from: int, to: int) -> Seq<
    DrawnEffect,
> {
    Seq::new(
        (to - from) as nat,
        |k: int|
            DrawnEffect {
                index: (from + k) as usize,
                commit_counter: cache@[due[from + k].cache_key@].commit_counter,
                fresh: false,
            },
    )
}

/// What is done for the effect that is looked at next.
pub open spec fn action_at(due: Seq<DueEffect>, next: usize) -> EffectAction {
    if next < due.len() {
        let effect = due[next as int].effect;
        EffectAction::Render {
            index: next,
            backdrop: effect.uses_backdrop,
            xray: effect.uses_xray,
        }
    } else {
        EffectAction::Done
    }
}

/// A texture is made for the effect that is looked at next, out of what that effect reads, and nothing is left to
/// do only behind the last effect.
pub proof fn law_textures_are_made_of_what_is_read(due: Seq<DueEffect>, next: usize)
    ensures
        action_at(due, next) is Done <==> next >= due.len(),
        action_at(due, next) matches EffectAction::Render { index, backdrop, xray } ==> index == next
            && backdrop == due[next as int].effect.uses_backdrop && xray
            == due[next as int].effect.uses_xray,
{
}

/// The first effect that needs a new texture needs one, and every effect before it does not.
pub proof fn law_first_stale_effect(cache: BackdropCache, due: Seq<DueEffect>, from: int)
    requires
        0 <= from <= due.len(),
    ensures
        from <= first_stale(cache, due, from) <= due.len(),
        first_stale(cache, due, from) < due.len() ==> !is_current(
            cache,
            due[first_stale(cache, due, from)],
        ),
        forall|i: int|
            from <= i < first_stale(cache, due, from) ==> is_current(cache, #[trigger] due[i]),
    decreases due.len() - from,
{
    if from < due.len() && is_current(cache, due[from]) {
        law_first_stale_effect(cache, due, from + 1);
    }
}

/// An effect is current exactly if it is not drawn anew in every frame, nothing that it shows was damaged, and its
/// texture was made of the same things.
pub proof fn law_current_effects(cache: BackdropCache, due: DueEffect)
    ensures
        due.effect.always_invalidate ==> !is_current(cache, due),
        due.damage_hit ==> !is_current(cache, due),
        is_current(cache, due) ==> cache@.dom().contains(due.cache_key@)
            && cache@[due.cache_key@].signature == due.signature,
        !due.effect.always_invalidate && !due.damage_hit && cache@.dom().contains(due.cache_key@)
            && cache@[due.cache_key@].signature == due.signature ==> is_current(cache, due),
{
}

/// Effects that are drawn again are drawn one by one, each with the counter of its own texture, and none of them
/// counts as made for the frame.
pub proof fn law_effects_are_drawn_with_their_textures(
    cache: BackdropCache,
    due: Seq<DueEffect>,
    from: int,
    to: int,
    i: int,
)
    requires
        0 <= from <= i < to <= due.len(),
        due.len() <= usize::MAX,
    ensures
        drawn_again(cache, due, from, to).len() == to - from,
        drawn_again(cache, due, from, to)[i - from].index == i,
        drawn_again(cache, due, from, to)[i - from].commit_counter
            == cache@[due[i].cache_key@].commit_counter,
        !drawn_again(cache, due, from, to)[i - from].fresh,
{
}

/// The effect at a position, drawn with the texture that was made for it.
pub open spec fn drawn_anew(before: BackdropCache, due: Seq<DueEffect>, index: usize) -> DrawnEffect {
    DrawnEffect {
        index,
        commit_counter: before.next_counter(due[index as int].cache_key@),
        fresh: true,
    }
}

/// An effect with a new texture is drawn with the counter that the texture has then, which is not the one of the texture
/// before, so that the new texture shows.
pub proof fn law_new_textures_show(
    before: BackdropCache,
    after: BackdropCache,
    due: Seq<DueEffect>,
    index: usize,
)
    requires
        index < due.len(),
        keeps_window_texture(before, after, due[index as int]),
    ensures
        drawn_anew(before, due, index).index == index,
        drawn_anew(before, due, index).fresh,
        drawn_anew(before, due, index).commit_counter
            == after@[due[index as int].cache_key@].commit_counter,
        before@.dom().contains(due[index as int].cache_key@) ==> drawn_anew(
            before,
            due,
            index,
        ).commit_counter != before@[due[index as int].cache_key@].commit_counter,
{
    crate::backend::effect_cache::law_captures_are_counted(before, due[index as int].cache_key@);
}

/// The cache after a texture was made for an effect of a window.
pub open spec fn keeps_window_texture(
    before: BackdropCache,
    after: BackdropCache,
    due: DueEffect,
) -> bool {
    let key = due.cache_key@;
    &&& after@.dom() == before@.dom().insert(key)
    &&& after@[key].signature == due.signature
    &&& after@[key].commit_counter == before.next_counter(key)
    &&& after@[key].sub_elements@ == Map::<Seq<char>, usize>::empty()
    &&& forall|other: Seq<char>|
        other != key && before@.dom().contains(other) ==> #[trigger] after@[other]
            == before@[other]
}

impl EffectPass {
    /// The effects are drawn in their order, each at most once, and only those that were looked at.
    pub open spec fn wf(&self, count: nat) -> bool {
        &&& self.next <= count
        &&& forall|i: int|
            0 <= i < self.drawn@.len() ==> (#[trigger] self.drawn@[i]).index < self.next
        &&& forall|i: int, j: int|
            0 <= i < j < self.drawn@.len() ==> (#[trigger] self.drawn@[i]).index < (
            #[trigger] self.drawn@[j]).index
    }

    /// No effect has been looked at.
    pub fn new() -> (pass: EffectPass)
        ensures
            pass.wf(0),
            pass.next == 0,
            pass.drawn@ == Seq::<DrawnEffect>::empty(),
    {
        EffectPass { next: 0, drawn: Vec::new() }
    }

    /// Draws the next effects with the textures of earlier frames, up to the first one that needs a
    /// new texture.
    pub fn advance(&mut self, due: &Vec<DueEffect>, cache: &BackdropCache) -> (action: EffectAction)
        requires
            old(self).wf(due@.len()),
            cache.wf(),
        ensures
            final(self).wf(due@.len()),
            final(self).next == first_stale(*cache, due@, old(self).next as int),
            final(self).drawn@ == old(self).drawn@ + drawn_again(
                *cache,
                due@,
                old(self).next as int,
                final(self).next as int,
            ),
            action == action_at(due@, final(self).next),
    {
        let ghost from = self.next as int;
        let ghost before = self.drawn@;
        assert(before =~= before + drawn_again(*cache, due@, from, from));
        while self.next < due.len()
            invariant
                cache.wf(),
                self.wf(due@.len()),
                from == old(self).next,
                before == old(self).drawn@,
                from <= self.next,
                first_stale(*cache, due@, from) == first_stale(*cache, due@, self.next as int),
                self.drawn@ == before + drawn_again(*cache, due@, from, self.next as int),
            decreases due@.len() - self.next,
        {
            let index: usize = self.next;
            let effect = &due[index];
            let key = effect.cache_key.as_str();
            if !cache.can_reuse(key, &effect.effect, effect.damage_hit, effect.signature) {
                return EffectAction::Render {
                    index,
                    backdrop: effect.effect.uses_backdrop,
                    xray: effect.effect.uses_xray,
                };
            }
            let commit_counter: usize = cache.commit_counter(key);
            self.drawn.push(DrawnEffect { index, commit_counter, fresh: false });
            self.next = index + 1;
            assert(self.drawn@ =~= before + drawn_again(*cache, due@, from, self.next as int));
        }
        EffectAction::Done
    }

    /// Notes whether the texture that was asked for could be made. If so it is kept, and the effect
    /// is drawn with it.
    pub fn rendered(&mut self, due: &Vec<DueEffect>, cache: &mut BackdropCache, made: bool)
        requires
            old(self).wf(due@.len()),
            old(self).next < due@.len(),
            old(cache).wf(),
        ensures
            final(self).wf(due@.len()),
            final(cache).wf(),
            final(self).next == old(self).next + 1,
            made ==> keeps_window_texture(
                *old(cache),
                *final(cache),
                due@[old(self).next as int],
            ) && final(self).drawn@ == old(self).drawn@.push(
                drawn_anew(*old(cache), due@, old(self).next),
            ),
            !made ==> *final(cache) == *old(cache) && final(self).drawn@ == old(self).drawn@,
    {
        let index: usize = self.next;
        assert(index < due.len());
        let effect = &due[index];
        if made {
            cache.store_window_texture(effect.cache_key.clone(), effect.signature);
            let commit_counter: usize = cache.commit_counter(effect.cache_key.as_str());
            self.drawn.push(DrawnEffect { index, commit_counter, fresh: true });
        }
        self.next = index + 1;
    }
}

proof fn lemma_all_current(cache: BackdropCache, due: Seq<DueEffect>, from: int)
    requires
        0 <= from <= due.len(),
        forall|i: int| 0 <= i < due.len() ==> is_current(cache, #[trigger] due[i]),
    ensures
        first_stale(cache, due, from) == due.len(),
    decreases due.len() - from,
{
    if from < due.len() {
        lemma_all_current(cache, due, from + 1);
    }
}

/// Where nothing has changed no texture is made: the effects whose textures were made of what they
/// show now are all drawn again, unless they are drawn anew in every frame.
pub proof fn law_settled_effects_are_drawn_again(cache: BackdropCache, due: Seq<DueEffect>)
    requires
        forall|i: int|
            0 <= i < due.len() ==> {
                &&& cache@.dom().contains((#[trigger] due[i]).cache_key@)
                &&& cache@[due[i].cache_key@].signature == due[i].signature
                &&& !due[i].damage_hit
                &&& !due[i].effect.always_invalidate
            },
    ensures
        first_stale(cache, due, 0) == due.len(),
{
    lemma_all_current(cache, due, 0);
}

/// A texture that was just made serves the next frame: the effect is current as soon as its damage
/// is gone, unless it is drawn anew in every frame.
pub proof fn law_made_texture_is_current(
    before: BackdropCache,
    after: BackdropCache,
    due: DueEffect,
    next: DueEffect,
)
    requires
        keeps_window_texture(before, after, due),
        next.cache_key@ == due.cache_key@,
        next.signature == due.signature,
        !next.damage_hit,
    ensures
        is_current(after, next) <==> !next.effect.always_invalidate,
{
}

// ---- effects of layers --------------------------------------------------------------------------

/// How the texture of an effect came out.
#[derive(Clone, Copy, Debug, PartialEq, Eq, Structural)]
pub enum Rendering {
    /// There was nothing to make it of.
    NoInput,
    Failed,
    Made,
}

/// What is drawn of the effect of a layer.
pub enum LayerDrawing {
    Nothing,
    /// The frame cannot be drawn.
    Failed,
    /// The texture of an earlier frame.
    Again { parts: Vec<EffectPart> },
    /// The texture that was made for this frame.
    Anew { parts: Vec<EffectPart> },
}

/// The cache after a texture was made for the effect of a layer.
pub open spec fn keeps_layer_texture(
    before: BackdropCache,
    after: BackdropCache,
    planned: LayerEffect,
) -> bool {
    let key = planned.stable_key@;
    &&& after@.dom() == before@.dom().insert(key)
    &&& after@[key].signature == planned.plan.signature
    &&& after@[key].commit_counter == before.next_counter(key)
    &&& after@[key].sub_elements@ == crate::backend::effect_cache::counted_parts(
        before.part_counters(key),
        crate::backend::surface_effect::part_keys(key, planned.rects@),
        before@.dom().contains(key),
    )
    &&& forall|other: Seq<char>|
        other != key && before@.dom().contains(other) ==> #[trigger] after@[other]
            == before@[other]
}

/// The texture of an earlier frame shows the effect of a layer as it is.
pub open spec fn layer_is_current(
    cache: BackdropCache,
    planned: LayerEffect,
    effect: EffectInputs,
    damage_hit: bool,
) -> bool {
    cache.reusable(
        planned.stable_key@,
        effect.always_invalidate,
        damage_hit,
        planned.plan.signature,
    )
}

/// What comes of drawing the effect of a layer.
#[derive(Clone, Copy, Debug, PartialEq, Eq, Structural)]
pub enum LayerOutcome {
    Nothing,
    Failed,
    Again,
    Anew,
}

/// What came of drawing the effect of a layer.
pub open spec fn outcome_of(drawing: LayerDrawing) -> LayerOutcome {
    match drawing {
        LayerDrawing::Nothing => LayerOutcome::Nothing,
        LayerDrawing::Failed => LayerOutcome::Failed,
        LayerDrawing::Again { .. } => LayerOutcome::Again,
        LayerDrawing::Anew { .. } => LayerOutcome::Anew,
    }
}

/// What is drawn is drawn of the right texture: of the one that there was, which is then kept as it is, or of the
/// new one, which is then kept. Where nothing is drawn, nothing is kept.
pub open spec fn is_drawing(
    drawing: LayerDrawing,
    before: BackdropCache,
    after: BackdropCache,
    planned: LayerEffect,
    output: LogicalRect,
) -> bool {
    match drawing {
        LayerDrawing::Nothing | LayerDrawing::Failed => after == before,
        LayerDrawing::Again { parts } => after == before
            && crate::backend::surface_effect::are_parts(parts@, before, planned, output),
        LayerDrawing::Anew { parts } => keeps_layer_texture(before, after, planned)
            && crate::backend::surface_effect::are_parts(parts@, after, planned, output),
    }
}

/// What comes of drawing the effect of a layer above the windows.
pub open spec fn upper_outcome(rendering: Rendering, current: bool) -> LayerOutcome {
    match rendering {
        Rendering::NoInput => LayerOutcome::Nothing,
        Rendering::Failed => LayerOutcome::Failed,
        Rendering::Made => if current {
            LayerOutcome::Again
        } else {
            LayerOutcome::Anew
        },
    }
}

/// What comes of drawing the effect of a layer below the windows with a new texture.
pub open spec fn lower_outcome(
    below: usize,
    captured: bool,
    effect: EffectInputs,
    made: bool,
) -> LayerOutcome {
    if below == 0 {
        LayerOutcome::Nothing
    } else if !captured || !(effect.uses_backdrop || effect.uses_xray) || !made {
        LayerOutcome::Failed
    } else {
        LayerOutcome::Anew
    }
}

/// The effect of an upper layer is drawn exactly if its texture was made, with the texture of an earlier frame
/// exactly if that shows the same. The effect of a lower layer is drawn exactly if there is something below it that
/// it reads, that was captured, and of which its texture was made; without anything below it is left out.
pub proof fn law_layer_effects_are_drawn_when_made(
    rendering: Rendering,
    current: bool,
    below: usize,
    captured: bool,
    effect: EffectInputs,
    made: bool,
)
    ensures
        upper_outcome(rendering, current) == LayerOutcome::Again <==> rendering == Rendering::Made
            && current,
        upper_outcome(rendering, current) == LayerOutcome::Anew <==> rendering == Rendering::Made
            && !current,
        upper_outcome(rendering, current) == LayerOutcome::Nothing <==> rendering
            == Rendering::NoInput,
        upper_outcome(rendering, current) == LayerOutcome::Failed <==> rendering
            == Rendering::Failed,
        lower_outcome(below, captured, effect, made) == LayerOutcome::Nothing <==> below == 0,
        lower_outcome(below, captured, effect, made) == LayerOutcome::Anew <==> below > 0 && captured
            && made && lower_input(effect) is Some,
        lower_outcome(below, captured, effect, made) != LayerOutcome::Again,
{
}

/// The texture of a layer is current exactly if the effect is not drawn anew in every frame, nothing that it shows
/// was damaged, and it was made of the same things.
pub proof fn law_current_layer_textures(
    cache: BackdropCache,
    planned: LayerEffect,
    effect: EffectInputs,
    damage_hit: bool,
)
    ensures
        layer_is_current(cache, planned, effect, damage_hit) <==> !effect.always_invalidate
            && !damage_hit && cache@.dom().contains(planned.stable_key@)
            && cache@[planned.stable_key@].signature == planned.plan.signature,
{
}

/// A new texture is kept under its own key, one count on, and no other texture is lost or changed.
pub proof fn law_new_textures_leave_others(
    before: BackdropCache,
    after: BackdropCache,
    due: DueEffect,
    planned: LayerEffect,
    other: Seq<char>,
)
    ensures
        keeps_window_texture(before, after, due) && other != due.cache_key@ ==> (
        after@.dom().contains(other) <==> before@.dom().contains(other)) && (
        before@.dom().contains(other) ==> after@[other] == before@[other]),
        keeps_window_texture(before, after, due) ==> after@.dom().contains(due.cache_key@)
            && after@[due.cache_key@].commit_counter == before.next_counter(due.cache_key@)
            && after@[due.cache_key@].signature == due.signature,
        keeps_layer_texture(before, after, planned) && other != planned.stable_key@ ==> (
        after@.dom().contains(other) <==> before@.dom().contains(other)) && (
        before@.dom().contains(other) ==> after@[other] == before@[other]),
        keeps_layer_texture(before, after, planned) ==> after@.dom().contains(planned.stable_key@)
            && after@[planned.stable_key@].commit_counter == before.next_counter(
            planned.stable_key@,
        ) && after@[planned.stable_key@].signature == planned.plan.signature,
{
}

fn keep_layer_texture(cache: &mut BackdropCache, planned: &LayerEffect, output: LogicalRect) -> (parts:
    Vec<EffectPart>)
    requires
        old(cache).wf(),
        crate::backend::surface_effect::parts_localize(*planned, output),
    ensures
        final(cache).wf(),
        keeps_layer_texture(*old(cache), *final(cache), *planned),
        crate::backend::surface_effect::are_parts(parts@, *final(cache), *planned, output),
{
    let keys = layer_part_keys(planned);
    cache.store_layer_texture(planned.stable_key.clone(), planned.plan.signature, &keys);
    layer_effect_parts(cache, planned, output)
}

/// Draws the effect of a layer above the windows. Its texture is made in every frame, but where the
/// one of an earlier frame shows the same that one is drawn.
pub fn draw_upper_layer_effect(
    cache: &mut BackdropCache,
    planned: &LayerEffect,
    effect: &EffectInputs,
    damage_hit: bool,
    rendering: Rendering,
    output: LogicalRect,
) -> (drawing: LayerDrawing)
    requires
        old(cache).wf(),
        crate::backend::surface_effect::parts_localize(*planned, output),
    ensures
        final(cache).wf(),
        outcome_of(drawing) == upper_outcome(
            rendering,
            layer_is_current(*old(cache), *planned, *effect, damage_hit),
        ),
        is_drawing(drawing, *old(cache), *final(cache), *planned, output),
{
    match rendering {
        Rendering::NoInput => LayerDrawing::Nothing,
        Rendering::Failed => LayerDrawing::Failed,
        Rendering::Made => {
            let key = planned.stable_key.as_str();
            if cache.can_reuse(key, effect, damage_hit, planned.plan.signature) {
                LayerDrawing::Again { parts: layer_effect_parts(cache, planned, output) }
            } else {
                LayerDrawing::Anew { parts: keep_layer_texture(cache, planned, output) }
            }
        },
    }
}

/// What is drawn of the effect of a layer below the windows with the texture of an earlier frame;
/// nothing if it needs a new one.
pub fn begin_lower_layer_effect(
    cache: &BackdropCache,
    planned: &LayerEffect,
    effect: &EffectInputs,
    damage_hit: bool,
    output: LogicalRect,
) -> (again: Option<Vec<EffectPart>>)
    requires
        cache.wf(),
        crate::backend::surface_effect::parts_localize(*planned, output),
    ensures
        match again {
            Some(parts) => layer_is_current(*cache, *planned, *effect, damage_hit)
                && crate::backend::surface_effect::are_parts(parts@, *cache, *planned, output),
            None => !layer_is_current(*cache, *planned, *effect, damage_hit),
        },
{
    let key = planned.stable_key.as_str();
    if cache.can_reuse(key, effect, damage_hit, planned.plan.signature) {
        Some(layer_effect_parts(cache, planned, output))
    } else {
        None
    }
}

/// The texture that the effect of a layer below the windows reads.
pub open spec fn lower_input(effect: EffectInputs) -> Option<EffectTexture> {
    if effect.uses_backdrop {
        Some(EffectTexture::Backdrop)
    } else if effect.uses_xray {
        Some(EffectTexture::Xray)
    } else {
        None
    }
}

/// An effect reads what it asks for, the backdrop before the layers, and an effect that asks for neither reads
/// nothing.
pub proof fn law_lower_layers_read_what_they_ask_for(effect: EffectInputs)
    ensures
        effect.uses_backdrop <==> lower_input(effect) == Some(EffectTexture::Backdrop),
        !effect.uses_backdrop && effect.uses_xray <==> lower_input(effect) == Some(
            EffectTexture::Xray,
        ),
        !effect.uses_backdrop && !effect.uses_xray <==> lower_input(effect) is None,
{
}

/// The texture that the effect of a layer below the windows reads, once the layers below it were
/// captured. An effect that reads neither has none.
pub fn lower_layer_input(effect: &EffectInputs) -> (input: Option<EffectTexture>)
    ensures
        input == lower_input(*effect),
{
    if effect.uses_backdrop {
        Some(EffectTexture::Backdrop)
    } else if effect.uses_xray {
        Some(EffectTexture::Xray)
    } else {
        None
    }
}

/// Draws the effect of a layer below the windows with a new texture. `below` is the number of
/// elements of the layers below it, without which there is no effect; `captured` tells whether they
/// could be captured, and `made` whether the texture could be made of them.
pub fn finish_lower_layer_effect(
    cache: &mut BackdropCache,
    planned: &LayerEffect,
    effect: &EffectInputs,
    below: usize,
    captured: bool,
    made: bool,
    output: LogicalRect,
) -> (drawing: LayerDrawing)
    requires
        old(cache).wf(),
        crate::backend::surface_effect::parts_localize(*planned, output),
    ensures
        final(cache).wf(),
        outcome_of(drawing) == lower_outcome(below, captured, *effect, made),
        is_drawing(drawing, *old(cache), *final(cache), *planned, output),
{
    if below == 0 {
        return LayerDrawing::Nothing;
    }
    if !captured || lower_layer_input(effect).is_none() || !made {
        return LayerDrawing::Failed;
    }
    LayerDrawing::Anew { parts: keep_layer_texture(cache, planned, output) }
}

/// A texture that was just made for a layer serves the next frame: it is drawn again as soon as the
/// damage is gone, unless the effect is drawn anew in every frame.
pub proof fn law_made_layer_texture_is_current(
    before: BackdropCache,
    after: BackdropCache,
    planned: LayerEffect,
    effect: EffectInputs,
)
    requires
        keeps_layer_texture(before, after, planned),
    ensures
        layer_is_current(after, planned, effect, false) <==> !effect.always_invalidate,
{
}

} // verus!
