//! What the compositor remembers of commits, and how it answers requests of clients.

use crate::backend::effect::OwnedDamageRect;
use crate::backend::scene::Layer;
use crate::backend::window::{RectangleKind, RegionOp};
use crate::geometry::LogicalRect;
use crate::keymap::{IdSet, KeyMap};
use crate::strings::push_u64;
use vstd::prelude::*;

verus! {

/// What changed in the scene since it was last drawn. The generations count changes.
pub struct SceneChanges {
    pub scene_generation: u64,
    pub window_scene_generation: u64,
    pub lower_layer_scene_generation: u64,
    pub upper_layer_scene_generation: u64,
    pub window_source_damage: Vec<OwnedDamageRect>,
    pub lower_layer_source_damage: Vec<OwnedDamageRect>,
    pub upper_layer_source_damage: Vec<OwnedDamageRect>,
    pub pending_decoration_damage: Vec<LogicalRect>,
    /// Windows whose live snapshot is out of date.
    pub snapshot_dirty: IdSet,
    /// When each window last committed, in nanoseconds.
    pub window_commit_times: KeyMap<u128>,
}

/// The damaged rectangles with their owner.
pub open spec fn owned_damage(damage: Seq<OwnedDamageRect>, owner: Seq<char>, rects: Seq<LogicalRect>) -> bool {
    &&& damage.len() == rects.len()
    &&& forall|i: int|
        0 <= i < rects.len() ==> (#[trigger] damage[i]).owner@ == owner && damage[i].rect
            == rects[i]
}

/// A list is another one with damage of an owner behind it.
pub open spec fn adds_damage(
    after: Seq<OwnedDamageRect>,
    before: Seq<OwnedDamageRect>,
    owner: Seq<char>,
    rects: Seq<LogicalRect>,
) -> bool {
    &&& after.len() == before.len() + rects.len()
    &&& after.take(before.len() as int) == before
    &&& owned_damage(after.skip(before.len() as int), owner, rects)
}

/// An optional rectangle as a list.
pub open spec fn as_list(rect: Option<LogicalRect>) -> Seq<LogicalRect> {
    match rect {
        Some(rect) => seq![rect],
        None => Seq::empty(),
    }
}

fn append_damage(damage: &mut Vec<OwnedDamageRect>, owner: &str, rects: &Vec<LogicalRect>)
    ensures
        adds_damage(final(damage)@, old(damage)@, owner@, rects@),
{
    let ghost before = damage@;
    let mut i: usize = 0;
    while i < rects.len()
        invariant
            i <= rects@.len(),
            damage@.len() == before.len() + i,
            forall|k: int| 0 <= k < before.len() ==> #[trigger] damage@[k] == before[k],
            forall|k: int|
                before.len() <= k < damage@.len() ==> (#[trigger] damage@[k]).owner@ == owner@
                    && damage@[k].rect == rects@[k - before.len()],
        decreases rects@.len() - i,
    {
        damage.push(OwnedDamageRect { owner: owner.to_owned(), rect: rects[i] });
        i += 1;
    }
    assert(damage@.take(before.len() as int) =~= before);
}

impl SceneChanges {
    pub open spec fn wf(&self) -> bool {
        self.snapshot_dirty.wf() && self.window_commit_times.wf()
    }

    /// What is known after some surface has committed.
    pub open spec fn after_commit(self) -> SceneChanges {
        SceneChanges {
            scene_generation: crate::backend::tty::next_u64(self.scene_generation),
            ..self
        }
    }

    /// This is what is known after a surface of a window has committed.
    pub open spec fn follows_window_commit(
        &self,
        before: &SceneChanges,
        id: Seq<char>,
        source_damage: Seq<LogicalRect>,
        root_rect: Option<LogicalRect>,
        time: u128,
    ) -> bool {
        &&& self.scene_generation == before.scene_generation
        &&& self.window_scene_generation == crate::backend::tty::next_u64(
            before.window_scene_generation,
        )
        &&& self.lower_layer_scene_generation == before.lower_layer_scene_generation
        &&& self.upper_layer_scene_generation == before.upper_layer_scene_generation
        &&& adds_damage(
            self.window_source_damage@,
            before.window_source_damage@,
            id,
            source_damage,
        )
        &&& self.lower_layer_source_damage == before.lower_layer_source_damage
        &&& self.upper_layer_source_damage == before.upper_layer_source_damage
        &&& self.pending_decoration_damage@ == before.pending_decoration_damage@ + as_list(root_rect)
        &&& self.snapshot_dirty@ == before.snapshot_dirty@.insert(id)
        &&& self.window_commit_times@ == before.window_commit_times@.insert(id, time)
    }

    /// This is what is known after a surface of a layer has committed.
    pub open spec fn follows_layer_commit(
        &self,
        before: &SceneChanges,
        layer: Layer,
        layer_id: u32,
        rect: Option<LogicalRect>,
    ) -> bool {
        &&& self.scene_generation == before.scene_generation
        &&& self.window_scene_generation == before.window_scene_generation
        &&& self.window_source_damage == before.window_source_damage
        &&& self.pending_decoration_damage == before.pending_decoration_damage
        &&& self.snapshot_dirty == before.snapshot_dirty
        &&& self.window_commit_times == before.window_commit_times
        &&& crate::backend::scene::below_windows(layer) ==> {
            &&& self.lower_layer_scene_generation == crate::backend::tty::next_u64(
                before.lower_layer_scene_generation,
            )
            &&& adds_damage(
                self.lower_layer_source_damage@,
                before.lower_layer_source_damage@,
                crate::strings::digits(layer_id as nat),
                as_list(rect),
            )
            &&& self.upper_layer_scene_generation == before.upper_layer_scene_generation
            &&& self.upper_layer_source_damage == before.upper_layer_source_damage
        }
        &&& !crate::backend::scene::below_windows(layer) ==> {
            &&& self.upper_layer_scene_generation == crate::backend::tty::next_u64(
                before.upper_layer_scene_generation,
            )
            &&& adds_damage(
                self.upper_layer_source_damage@,
                before.upper_layer_source_damage@,
                crate::strings::digits(layer_id as nat),
                as_list(rect),
            )
            &&& self.lower_layer_scene_generation == before.lower_layer_scene_generation
            &&& self.lower_layer_source_damage == before.lower_layer_source_damage
        }
    }

    /// This is what is known after a round of drawing.
    pub open spec fn follows_round(&self, before: &SceneChanges, processed_outputs: usize) -> bool {
        &&& self.scene_generation == before.scene_generation
        &&& self.window_scene_generation == before.window_scene_generation
        &&& self.lower_layer_scene_generation == before.lower_layer_scene_generation
        &&& self.upper_layer_scene_generation == before.upper_layer_scene_generation
        &&& self.snapshot_dirty == before.snapshot_dirty
        &&& self.window_commit_times == before.window_commit_times
        &&& processed_outputs == 0 ==> *self == *before
        &&& processed_outputs > 0 ==> {
            &&& self.window_source_damage@.len() == 0
            &&& self.lower_layer_source_damage@.len() == 0
            &&& self.upper_layer_source_damage@.len() == 0
            &&& self.pending_decoration_damage@.len() == 0
        }
    }

    /// Notes that some surface has committed.
    pub fn surface_committed(&mut self)
        ensures
            *final(self) == old(self).after_commit(),
    {
        self.scene_generation = self.scene_generation.wrapping_add(1);
    }

    /// Notes that a surface of a window has committed at `time`. `source_damage` is what it
    /// damaged, `root_rect` the place of the window with its decoration, if it has one. Returns
    /// when the window committed before.
    pub fn window_committed(
        &mut self,
        id: &str,
        source_damage: &Vec<LogicalRect>,
        root_rect: Option<LogicalRect>,
        time: u128,
    ) -> (previous: Option<u128>)
        requires
            old(self).wf(),
        ensures
            final(self).wf(),
            final(self).follows_window_commit(old(self), id@, source_damage@, root_rect, time),
            match previous {
                Some(previous) => old(self).window_commit_times@.dom().contains(id@) && previous
                    == old(self).window_commit_times@[id@],
                None => !old(self).window_commit_times@.dom().contains(id@),
            },
    {
        self.window_scene_generation = self.window_scene_generation.wrapping_add(1);
        let previous = self.window_commit_times.insert(id.to_owned(), time);
        self.snapshot_dirty.insert(id.to_owned());
        append_damage(&mut self.window_source_damage, id, source_damage);
        if let Some(rect) = root_rect {
            self.pending_decoration_damage.push(rect);
        }
        assert(self.pending_decoration_damage@ =~= old(self).pending_decoration_damage@ + as_list(
            root_rect,
        ));
        previous
    }

    /// Notes that a surface of a layer has committed. `rect` is the layer's geometry, if it is
    /// mapped.
    pub fn layer_committed(&mut self, layer: Layer, layer_id: u32, rect: Option<LogicalRect>)
        requires
            old(self).wf(),
        ensures
            final(self).wf(),
            final(self).follows_layer_commit(old(self), layer, layer_id, rect),
    {
        let owner = layer_owner(layer_id);
        let mut rects: Vec<LogicalRect> = Vec::new();
        if let Some(rect) = rect {
            rects.push(rect);
        }
        assert(rects@ =~= as_list(rect));
        match layer {
            Layer::Background | Layer::Bottom => {
                self.lower_layer_scene_generation =
                self.lower_layer_scene_generation.wrapping_add(1);
                append_damage(&mut self.lower_layer_source_damage, owner.as_str(), &rects);
            },
            Layer::Top | Layer::Overlay => {
                self.upper_layer_scene_generation =
                self.upper_layer_scene_generation.wrapping_add(1);
                append_damage(&mut self.upper_layer_source_damage, owner.as_str(), &rects);
            },
        }
    }

    /// Forgets the damage after a round in which outputs were drawn. A round without any keeps it.
    pub fn round_finished(&mut self, processed_outputs: usize)
        ensures
            final(self).follows_round(old(self), processed_outputs),
    {
        if processed_outputs > 0 {
            self.pending_decoration_damage.clear();
            self.window_source_damage.clear();
            self.lower_layer_source_damage.clear();
            self.upper_layer_source_damage.clear();
        }
    }
}

/// The position of the first window with a surface.
pub open spec fn window_of(surfaces: Seq<u64>, root: u64) -> Option<int>
    decreases surfaces.len(),
{
    if surfaces.len() == 0 {
        None
    } else {
        match window_of(surfaces.drop_last(), root) {
            Some(i) => Some(i),
            None => if surfaces.last() == root {
                Some(surfaces.len() - 1)
            } else {
                None
            },
        }
    }
}

proof fn lemma_window_of_prefix(surfaces: Seq<u64>, root: u64, k: int)
    requires
        0 <= k <= surfaces.len(),
        window_of(surfaces.take(k), root) is Some,
    ensures
        window_of(surfaces, root) == window_of(surfaces.take(k), root),
    decreases surfaces.len(),
{
    if k < surfaces.len() {
        assert(surfaces.drop_last().take(k) =~= surfaces.take(k));
        lemma_window_of_prefix(surfaces.drop_last(), root, k);
    } else {
        assert(surfaces.take(k) =~= surfaces);
    }
}

/// The window that a commit changes: the one whose surface is the root of the committed one. A part
/// that waits for its parent changes none. `surfaces` are those of the windows.
pub fn committed_window(waits_for_parent: bool, surfaces: &Vec<u64>, root: u64) -> (window: Option<
    usize,
>)
    ensures
        match window {
            Some(i) => !waits_for_parent && window_of(surfaces@, root) == Some(i as int),
            None => waits_for_parent || window_of(surfaces@, root) is None,
        },
{
    if waits_for_parent {
        return None;
    }
    let mut i: usize = 0;
    assert(surfaces@.take(0) =~= Seq::empty());
    while i < surfaces.len()
        invariant
            i <= surfaces@.len(),
            !waits_for_parent,
            window_of(surfaces@.take(i as int), root) is None,
        decreases surfaces@.len() - i,
    {
        assert(surfaces@.take(i + 1).drop_last() =~= surfaces@.take(i as int));
        if surfaces[i] == root {
            proof {
                lemma_window_of_prefix(surfaces@, root, i + 1);
            }
            return Some(i);
        }
        i += 1;
    }
    assert(surfaces@.take(i as int) =~= surfaces@);
    None
}

/// The name under which the damage of a layer is kept.
pub fn layer_owner(layer_id: u32) -> (owner: String)
    ensures
        owner@ == crate::strings::digits(layer_id as nat),
{
    let mut owner = String::new();
    push_u64(&mut owner, layer_id as u64);
    assert(owner@ =~= crate::strings::digits(layer_id as nat));
    owner
}

/// A request for a region.
#[derive(Clone, Copy, Debug, PartialEq, Eq, Structural)]
pub enum RegionRequest {
    Add { rect: LogicalRect },
    Subtract { rect: LogicalRect },
    Other,
}

/// The request has a rectangle with a negative size.
pub open spec fn is_negative(request: RegionRequest) -> bool {
    match request {
        RegionRequest::Add { rect } => rect.width < 0 || rect.height < 0,
        RegionRequest::Subtract { rect } => rect.width < 0 || rect.height < 0,
        RegionRequest::Other => false,
    }
}

/// A rectangle is left out if and only if a side of it is shorter than nothing: one without any width or
/// height is handed on, and what is added is judged as what is taken away.
pub proof fn law_only_negative_sizes_are_ignored(rect: LogicalRect)
    ensures
        is_negative(RegionRequest::Add { rect }) <==> !(0 <= rect.width && 0 <= rect.height),
        is_negative(RegionRequest::Subtract { rect }) <==> is_negative(RegionRequest::Add { rect }),
        !is_negative(RegionRequest::Other),
{
}

/// Whether a request for a region is handed on. Rectangles with a negative size, which some
/// clients send, are ignored.
pub fn accepts_region_request(request: RegionRequest) -> (accepted: bool)
    ensures
        accepted == !is_negative(request),
{
    match request {
        RegionRequest::Add { rect } | RegionRequest::Subtract { rect } => {
            !(rect.width < 0 || rect.height < 0)
        },
        RegionRequest::Other => true,
    }
}

/// The region that a sequence of requests builds up.
pub open spec fn built_region(requests: Seq<RegionRequest>) -> Seq<RegionOp>
    decreases requests.len(),
{
    if requests.len() == 0 {
        Seq::empty()
    } else {
        let before = built_region(requests.drop_last());
        if is_negative(requests.last()) {
            before
        } else {
            match requests.last() {
                RegionRequest::Add { rect } => before.push(
                    RegionOp { kind: RectangleKind::Add, rect },
                ),
                RegionRequest::Subtract { rect } => before.push(
                    RegionOp { kind: RectangleKind::Subtract, rect },
                ),
                RegionRequest::Other => before,
            }
        }
    }
}

/// Builds up a region from requests.
pub fn build_region(requests: &Vec<RegionRequest>) -> (region: Vec<RegionOp>)
    ensures
        region@ == built_region(requests@),
{
    let mut region: Vec<RegionOp> = Vec::new();
    let mut i: usize = 0;
    while i < requests.len()
        invariant
            i <= requests@.len(),
            region@ == built_region(requests@.take(i as int)),
        decreases requests@.len() - i,
    {
        assert(requests@.take(i + 1).drop_last() =~= requests@.take(i as int));
        let request = requests[i];
        if accepts_region_request(request) {
            match request {
                RegionRequest::Add { rect } => region.push(
                    RegionOp { kind: RectangleKind::Add, rect },
                ),
                RegionRequest::Subtract { rect } => region.push(
                    RegionOp { kind: RectangleKind::Subtract, rect },
                ),
                RegionRequest::Other => {},
            }
        }
        i += 1;
    }
    assert(requests@.take(i as int) =~= requests@);
    region
}

/// No rectangle of a region has a negative size.
pub proof fn law_regions_hold_no_negative_size(requests: Seq<RegionRequest>, i: int)
    requires
        0 <= i < built_region(requests).len(),
    ensures
        built_region(requests)[i].rect.width >= 0,
        built_region(requests)[i].rect.height >= 0,
    decreases requests.len(),
{
    if requests.len() > 0 && i < built_region(requests.drop_last()).len() {
        law_regions_hold_no_negative_size(requests.drop_last(), i);
    }
}

/// How a client is told of its pending state.
#[derive(Clone, Copy, Debug, PartialEq, Eq, Structural)]
pub enum ConfigureKind {
    /// In any case.
    Always,
    /// Only if the state differs from what it was told before.
    IfPending,
}

/// How a client is told of its decoration mode.
pub open spec fn configure_of(initial_configure_sent: bool) -> ConfigureKind {
    if initial_configure_sent {
        ConfigureKind::IfPending
    } else {
        ConfigureKind::Always
    }
}

/// Only a client that was told something before may be left untold.
pub proof fn law_first_configure_is_sent()
    ensures
        configure_of(false) == ConfigureKind::Always,
        configure_of(true) == ConfigureKind::IfPending,
{
}

/// How a client is told of its decoration mode: a client that was never told anything is told in
/// any case.
pub fn decoration_configure(initial_configure_sent: bool) -> (kind: ConfigureKind)
    ensures
        kind == configure_of(initial_configure_sent),
{
    if initial_configure_sent {
        ConfigureKind::IfPending
    } else {
        ConfigureKind::Always
    }
}

/// What is known of the pointer grab that a client refers to.
#[derive(Clone, Copy, Debug, PartialEq, Eq, Structural)]
pub struct GrabFacts {
    pub has_pointer: bool,
    /// The grab with the serial that the client names is active.
    pub has_grab: bool,
    /// The client of the surface on which the grab began, if it began on one.
    pub start_client: Option<u64>,
}

/// A client may move or resize its window by a grab.
pub open spec fn may_grab(facts: GrabFacts, client: u64) -> bool {
    facts.has_pointer && facts.has_grab && facts.start_client == Some(client)
}

/// A grab is allowed only while it is active, and only to the client on whose surface it began; and to that client
/// it is.
pub proof fn law_grabs_belong_to_one_client(facts: GrabFacts, client: u64, other: u64)
    ensures
        may_grab(facts, client) ==> facts.has_pointer && facts.has_grab,
        may_grab(facts, client) && may_grab(facts, other) ==> client == other,
        facts.has_pointer && facts.has_grab && facts.start_client is Some ==> may_grab(
            facts,
            facts.start_client->0,
        ),
        facts.start_client is None ==> !may_grab(facts, client),
{
}

/// Whether a client may move or resize its window by a grab: the grab is active and began on a
/// surface of the same client.
pub fn check_grab(facts: GrabFacts, client: u64) -> (allowed: bool)
    ensures
        allowed == may_grab(facts, client),
{
    if !facts.has_pointer || !facts.has_grab {
        return false;
    }
    match facts.start_client {
        Some(start) => start == client,
        None => false,
    }
}

/// The area in which a popup has to fit, as seen from its parent.
pub open spec fn popup_area(output: LogicalRect, popup: (i32, i32), window: (i32, i32)) -> LogicalRect {
    output.moved(-popup.0 - window.0, -popup.1 - window.1)
}

/// A popup may cover exactly the pixels of the output: a pixel of the area is one of the output, moved by the place
/// of the window and by that of the parent in it.
pub proof fn law_popups_stay_on_the_output(
    output: LogicalRect,
    popup: (i32, i32),
    window: (i32, i32),
    px: int,
    py: int,
)
    requires
        output.moves(-popup.0 - window.0, -popup.1 - window.1),
    ensures
        popup_area(output, popup, window).contains(px, py) <==> output.contains(
            px + popup.0 + window.0,
            py + popup.1 + window.1,
        ),
{
}

/// The area in which a popup has to fit, as seen from the window that it belongs to. `popup` is
/// the place of the popup's parent in the window.
pub fn popup_target(output: LogicalRect, popup: (i32, i32), window: (i32, i32)) -> (target: LogicalRect)
    requires
        i32::MIN <= output.x - popup.0 <= i32::MAX,
        i32::MIN <= output.y - popup.1 <= i32::MAX,
        i32::MIN <= output.x - popup.0 - window.0 <= i32::MAX,
        i32::MIN <= output.y - popup.1 - window.1 <= i32::MAX,
    ensures
        target == popup_area(output, popup, window),
{
    LogicalRect::new(
        output.x - popup.0 - window.0,
        output.y - popup.1 - window.1,
        output.width,
        output.height,
    )
}

/// Where the output comes from whose scale a surface is told.
#[derive(Clone, Copy, Debug, PartialEq, Eq, Structural)]
pub struct ScaleSources {
    /// The output on which the surface is mainly shown.
    pub surface_output: Option<u64>,
    /// The surface is a part of another one, its root.
    pub has_other_root: bool,
    /// The output on which the root is mainly shown.
    pub root_output: Option<u64>,
    /// The first output on which the window of the root lies.
    pub window_output: Option<u64>,
    /// The first output of all.
    pub first_output: Option<u64>,
}

/// The first of two that is there.
pub open spec fn either(a: Option<u64>, b: Option<u64>) -> Option<u64> {
    if a is Some {
        a
    } else {
        b
    }
}

/// The output whose scale a surface is told.
pub open spec fn scale_output(sources: ScaleSources) -> Option<u64> {
    either(
        sources.surface_output,
        either(
            if sources.has_other_root {
                either(sources.root_output, sources.window_output)
            } else {
                sources.window_output
            },
            sources.first_output,
        ),
    )
}

/// The output on which a surface is shown goes before that of its root, which counts only for a part of another
/// surface; that goes before the output of the window, and that before the first of all. A surface is told the
/// scale of an output whenever there is one.
pub proof fn law_scales_have_their_rank(sources: ScaleSources)
    ensures
        sources.surface_output is Some ==> scale_output(sources) == sources.surface_output,
        sources.surface_output is None && sources.has_other_root && sources.root_output is Some
            ==> scale_output(sources) == sources.root_output,
        sources.surface_output is None && (!sources.has_other_root || sources.root_output is None)
            && sources.window_output is Some ==> scale_output(sources) == sources.window_output,
        sources.surface_output is None && (!sources.has_other_root || sources.root_output is None)
            && sources.window_output is None ==> scale_output(sources) == sources.first_output,
        sources.first_output is Some ==> scale_output(sources) is Some,
{
}

/// The output whose scale a surface is told: the one on which it is mainly shown, else that of its
/// root, else the first one of its window, else the first of all.
pub fn preferred_scale_output(sources: ScaleSources) -> (output: Option<u64>)
    ensures
        output == scale_output(sources),
{
    if sources.surface_output.is_some() {
        return sources.surface_output;
    }
    if sources.has_other_root && sources.root_output.is_some() {
        return sources.root_output;
    }
    if sources.window_output.is_some() {
        return sources.window_output;
    }
    sources.first_output
}

/// A buffer of a client can be used.
pub open spec fn is_importable(imports: Seq<bool>) -> bool {
    imports.len() == 0 || imports.contains(true)
}

/// One device that can import a buffer is enough, whatever the others say, and a buffer that every device refuses
/// cannot be used.
pub proof fn law_one_import_is_enough(imports: Seq<bool>, i: int)
    requires
        0 <= i < imports.len(),
    ensures
        imports[i] ==> is_importable(imports),
        (forall|k: int| 0 <= k < imports.len() ==> !(#[trigger] imports[k])) ==> !is_importable(
            imports,
        ),
        is_importable(Seq::empty()),
{
}

/// Whether a buffer of a client can be used: some device can import it, or there is no device that
/// could object. `imports` tells what came of trying the devices.
pub fn accepts_dmabuf(imports: &Vec<bool>) -> (accepted: bool)
    ensures
        accepted == is_importable(imports@),
{
    if imports.len() == 0 {
        return true;
    }
    let mut i: usize = 0;
    while i < imports.len()
        invariant
            i <= imports@.len(),
            forall|k: int| 0 <= k < i ==> !(#[trigger] imports@[k]),
        decreases imports@.len() - i,
    {
        if imports[i] {
            assert(imports@[i as int]);
            return true;
        }
        i += 1;
    }
    false
}

/// A commit of a window makes its snapshot out of date and no other one, notes all its damage under its name behind
/// what was known, has the place of its decoration drawn again, and is remembered with its time.
pub proof fn law_window_commits_are_noted(
    before: SceneChanges,
    after: SceneChanges,
    id: Seq<char>,
    source_damage: Seq<LogicalRect>,
    root_rect: Option<LogicalRect>,
    time: u128,
    other: Seq<char>,
    i: int,
)
    requires
        after.follows_window_commit(&before, id, source_damage, root_rect, time),
    ensures
        after.snapshot_dirty@.contains(id),
        other != id ==> after.snapshot_dirty@.contains(other) == before.snapshot_dirty@.contains(
            other,
        ),
        after.window_source_damage@.len() == before.window_source_damage@.len()
            + source_damage.len(),
        0 <= i < before.window_source_damage@.len() ==> after.window_source_damage@[i]
            == before.window_source_damage@[i],
        0 <= i < source_damage.len() ==> after.window_source_damage@[before.window_source_damage@.len()
            + i].rect == source_damage[i] && after.window_source_damage@[before.window_source_damage@.len()
            + i].owner@ == id,
        root_rect is Some ==> after.pending_decoration_damage@.contains(root_rect->0),
        root_rect is None ==> after.pending_decoration_damage@ == before.pending_decoration_damage@,
        0 <= i < before.pending_decoration_damage@.len() ==> after.pending_decoration_damage@[i]
            == before.pending_decoration_damage@[i],
        after.window_scene_generation != before.window_scene_generation,
        after.lower_layer_scene_generation == before.lower_layer_scene_generation,
        after.upper_layer_scene_generation == before.upper_layer_scene_generation,
        after.window_commit_times@.dom().contains(id) && after.window_commit_times@[id] == time,
        other != id && before.window_commit_times@.dom().contains(other)
            ==> after.window_commit_times@[other] == before.window_commit_times@[other],
{
    let known = before.window_source_damage@.len() as int;
    if 0 <= i < known {
        assert(after.window_source_damage@.take(known)[i] == after.window_source_damage@[i]);
    }
    if 0 <= i < source_damage.len() {
        assert(after.window_source_damage@.skip(known)[i] == after.window_source_damage@[known + i]);
    }
    if root_rect is Some {
        assert(after.pending_decoration_damage@[before.pending_decoration_damage@.len() as int]
            == root_rect->0);
    } else {
        assert(after.pending_decoration_damage@ =~= before.pending_decoration_damage@);
    }
}

/// A commit of a layer counts on its own side of the windows: the background and the bottom layer below, the top
/// layer and the overlay above. There its place is noted as damage under its number, behind what was known; the
/// other side, and the windows, stay as they are.
pub proof fn law_layer_commits_are_noted(
    before: SceneChanges,
    after: SceneChanges,
    layer: Layer,
    layer_id: u32,
    rect: LogicalRect,
    i: int,
)
    requires
        after.follows_layer_commit(&before, layer, layer_id, Some(rect)),
    ensures
        layer == Layer::Background || layer == Layer::Bottom ==> {
            let known = before.lower_layer_source_damage@.len() as int;
            &&& after.lower_layer_scene_generation != before.lower_layer_scene_generation
            &&& after.upper_layer_scene_generation == before.upper_layer_scene_generation
            &&& after.upper_layer_source_damage@ == before.upper_layer_source_damage@
            &&& after.lower_layer_source_damage@.len() == known + 1
            &&& after.lower_layer_source_damage@[known].rect == rect
            &&& after.lower_layer_source_damage@[known].owner@ == crate::strings::digits(
                layer_id as nat,
            )
            &&& 0 <= i < known ==> after.lower_layer_source_damage@[i]
                == before.lower_layer_source_damage@[i]
        },
        layer == Layer::Top || layer == Layer::Overlay ==> {
            let known = before.upper_layer_source_damage@.len() as int;
            &&& after.upper_layer_scene_generation != before.upper_layer_scene_generation
            &&& after.lower_layer_scene_generation == before.lower_layer_scene_generation
            &&& after.lower_layer_source_damage@ == before.lower_layer_source_damage@
            &&& after.upper_layer_source_damage@.len() == known + 1
            &&& after.upper_layer_source_damage@[known].rect == rect
            &&& after.upper_layer_source_damage@[known].owner@ == crate::strings::digits(
                layer_id as nat,
            )
            &&& 0 <= i < known ==> after.upper_layer_source_damage@[i]
                == before.upper_layer_source_damage@[i]
        },
        after.window_scene_generation == before.window_scene_generation,
        after.window_source_damage@ == before.window_source_damage@,
        after.snapshot_dirty@ == before.snapshot_dirty@,
{
    if crate::backend::scene::below_windows(layer) {
        let known = before.lower_layer_source_damage@.len() as int;
        let all = after.lower_layer_source_damage@;
        assert(all.skip(known)[0] == all[known]);
        if 0 <= i < known {
            assert(all.take(known)[i] == all[i]);
        }
    } else {
        let known = before.upper_layer_source_damage@.len() as int;
        let all = after.upper_layer_source_damage@;
        assert(all.skip(known)[0] == all[known]);
        if 0 <= i < known {
            assert(all.take(known)[i] == all[i]);
        }
    }
}

/// Damage lasts until an output was drawn, and no longer; that windows have to be looked at anew lasts on.
pub proof fn law_damage_lasts_until_drawn(
    before: SceneChanges,
    after: SceneChanges,
    processed_outputs: usize,
)
    requires
        after.follows_round(&before, processed_outputs),
    ensures
        processed_outputs == 0 ==> after.window_source_damage@ == before.window_source_damage@
            && after.lower_layer_source_damage@ == before.lower_layer_source_damage@
            && after.upper_layer_source_damage@ == before.upper_layer_source_damage@
            && after.pending_decoration_damage@ == before.pending_decoration_damage@,
        processed_outputs > 0 ==> after.window_source_damage@ == Seq::<OwnedDamageRect>::empty()
            && after.lower_layer_source_damage@ == Seq::<OwnedDamageRect>::empty()
            && after.upper_layer_source_damage@ == Seq::<OwnedDamageRect>::empty()
            && after.pending_decoration_damage@ == Seq::<LogicalRect>::empty(),
        after.snapshot_dirty@ == before.snapshot_dirty@,
        after.lower_layer_scene_generation == before.lower_layer_scene_generation,
{
    if processed_outputs > 0 {
        assert(after.window_source_damage@ =~= Seq::<OwnedDamageRect>::empty());
        assert(after.lower_layer_source_damage@ =~= Seq::<OwnedDamageRect>::empty());
        assert(after.upper_layer_source_damage@ =~= Seq::<OwnedDamageRect>::empty());
        assert(after.pending_decoration_damage@ =~= Seq::<LogicalRect>::empty());
    }
}

/// Each commit is counted, and changes nothing else.
pub proof fn law_commits_are_counted(before: SceneChanges)
    ensures
        before.after_commit().scene_generation != before.scene_generation,
        before.scene_generation < u64::MAX ==> before.after_commit().scene_generation
            == before.scene_generation + 1,
        before.after_commit().window_source_damage@ == before.window_source_damage@,
        before.after_commit().snapshot_dirty@ == before.snapshot_dirty@,
        before.after_commit().window_scene_generation == before.window_scene_generation,
        before.after_commit().lower_layer_scene_generation == before.lower_layer_scene_generation,
{
}

/// A commit changes the first window with the surface, if there is one.
pub proof fn law_commit_changes_the_first_window(surfaces: Seq<u64>, root: u64)
    ensures
        match window_of(surfaces, root) {
            Some(at) => 0 <= at < surfaces.len() && surfaces[at] == root && forall|i: int|
                0 <= i < at ==> #[trigger] surfaces[i] != root,
            None => !surfaces.contains(root),
        },
    decreases surfaces.len(),
{
    if surfaces.len() > 0 {
        let head = surfaces.drop_last();
        law_commit_changes_the_first_window(head, root);
        assert forall|i: int| 0 <= i < head.len() implies #[trigger] surfaces[i] == head[i] by {
        }
        if window_of(surfaces, root) is None && surfaces.contains(root) {
            let k = choose|k: int| 0 <= k < surfaces.len() && surfaces[k] == root;
            if k < head.len() {
                assert(head[k] == root);
            }
        }
    }
}

/// A region grows by what is added, loses what is taken away, and is left alone by rectangles of a negative size and
/// by requests of another kind.
pub proof fn law_requests_build_up_the_region(
    requests: Seq<RegionRequest>,
    rect: LogicalRect,
    px: int,
    py: int,
)
    ensures
        ({
            let region = built_region(requests);
            let added = built_region(requests.push(RegionRequest::Add { rect }));
            let taken = built_region(requests.push(RegionRequest::Subtract { rect }));
            let inside = crate::backend::window::region_contains(region, px, py);
            &&& rect.width >= 0 && rect.height >= 0 ==> (crate::backend::window::region_contains(
                added,
                px,
                py,
            ) <==> inside || rect.contains(px, py))
            &&& rect.width >= 0 && rect.height >= 0 ==> (crate::backend::window::region_contains(
                taken,
                px,
                py,
            ) <==> inside && !rect.contains(px, py))
            &&& rect.width < 0 || rect.height < 0 ==> added == region && taken == region
            &&& built_region(requests.push(RegionRequest::Other)) == region
        }),
{
    let region = built_region(requests);
    assert(requests.push(RegionRequest::Add { rect }).drop_last() =~= requests);
    assert(requests.push(RegionRequest::Subtract { rect }).drop_last() =~= requests);
    assert(requests.push(RegionRequest::Other).drop_last() =~= requests);
    crate::backend::window::law_region_steps(region, rect, px, py);
}

} // verus!
