//! What a frame shows: which windows are drawn, in which order their elements stand, and what
//! counts as damage beside them.

use crate::backend::effect::OwnedDamageRect;
use crate::geometry::LogicalRect;
use crate::keymap::IdSet;
use crate::strings::same_text;
use vstd::multiset::Multiset;
use vstd::prelude::*;

verus! {

// ---- order --------------------------------------------------------------------------------------

/// An item put into a list that is in order, behind all items of its own order.
pub open spec fn placed<T>(items: Seq<(usize, T)>, item: (usize, T)) -> Seq<(usize, T)>
    decreases items.len(),
{
    if items.len() == 0 || items.last().0 <= item.0 {
        items.push(item)
    } else {
        placed(items.drop_last(), item).push(items.last())
    }
}

/// The items by their orders; items of the same order keep their sequence.
pub open spec fn in_order<T>(items: Seq<(usize, T)>) -> Seq<(usize, T)>
    decreases items.len(),
{
    if items.len() == 0 {
        Seq::empty()
    } else {
        placed(in_order(items.drop_last()), items.last())
    }
}

/// The items without their orders.
pub open spec fn elements<T>(items: Seq<(usize, T)>) -> Seq<T> {
    Seq::new(items.len(), |i: int| items[i].1)
}

/// The list is in order.
pub open spec fn ascending<T>(items: Seq<(usize, T)>) -> bool {
    forall|i: int, j: int| 0 <= i <= j < items.len() ==> (#[trigger] items[i]).0 <= (#[trigger] items[j]).0
}

/// The items of one order, in their sequence.
pub open spec fn of_order<T>(items: Seq<(usize, T)>, order: usize) -> Seq<(usize, T)> {
    crate::seqs::kept(items, |item: (usize, T)| item.0 == order)
}

proof fn lemma_placed<T>(items: Seq<(usize, T)>, item: (usize, T))
    requires
        ascending(items),
    ensures
        ascending(placed(items, item)),
        placed(items, item).len() == items.len() + 1,
        items.len() > 0 ==> placed(items, item).last().0 == (if items.last().0 <= item.0 {
            item.0
        } else {
            items.last().0
        }),
        items.len() == 0 ==> placed(items, item) == seq![item],
    decreases items.len(),
{
    if items.len() == 0 || items.last().0 <= item.0 {
        assert forall|i: int, j: int| 0 <= i <= j < placed(items, item).len() implies (
        #[trigger] placed(items, item)[i]).0 <= (#[trigger] placed(items, item)[j]).0 by {
            if j == items.len() && i < items.len() {
                assert(items[i].0 <= items[items.len() - 1].0);
            }
        }
    } else {
        let head = items.drop_last();
        assert(ascending(head)) by {
            assert forall|i: int, j: int| 0 <= i <= j < head.len() implies (#[trigger] head[i]).0
                <= (#[trigger] head[j]).0 by {
                assert(items[i].0 <= items[j].0);
            }
        }
        lemma_placed(head, item);
        let inner = placed(head, item);
        let out = placed(items, item);
        if head.len() > 0 {
            assert(items[head.len() - 1].0 <= items[items.len() - 1].0);
        }
        assert forall|i: int, j: int| 0 <= i <= j < out.len() implies (#[trigger] out[i]).0 <= (
        #[trigger] out[j]).0 by {
            if j == inner.len() && i < inner.len() {
                assert(inner[i].0 <= inner[inner.len() - 1].0);
            } else if j < inner.len() {
                assert(inner[i].0 <= inner[j].0);
            }
        }
    }
}

proof fn lemma_of_order_push<T>(items: Seq<(usize, T)>, item: (usize, T), order: usize)
    ensures
        of_order(items.push(item), order) == (if item.0 == order {
            of_order(items, order).push(item)
        } else {
            of_order(items, order)
        }),
{
    assert(items.push(item).drop_last() =~= items);
}

proof fn lemma_placed_of_order<T>(items: Seq<(usize, T)>, item: (usize, T), order: usize)
    ensures
        of_order(placed(items, item), order) == of_order(items.push(item), order),
    decreases items.len(),
{
    if items.len() > 0 && items.last().0 > item.0 {
        let head = items.drop_last();
        let last = items.last();
        lemma_placed_of_order(head, item, order);
        assert(items =~= head.push(last));
        lemma_of_order_push(placed(head, item), last, order);
        lemma_of_order_push(head, item, order);
        lemma_of_order_push(head, last, order);
        lemma_of_order_push(items, item, order);
    }
}

/// Sorting puts the items in order, drops and adds none, and keeps items of the same order in
/// their sequence.
pub proof fn law_in_order_is_stable<T>(items: Seq<(usize, T)>)
    ensures
        ascending(in_order(items)),
        in_order(items).len() == items.len(),
        forall|order: usize| #[trigger] of_order(in_order(items), order) == of_order(items, order),
    decreases items.len(),
{
    if items.len() > 0 {
        let head = items.drop_last();
        law_in_order_is_stable(head);
        lemma_placed(in_order(head), items.last());
        assert forall|order: usize| #[trigger]
            of_order(in_order(items), order) == of_order(items, order) by {
            lemma_placed_of_order(in_order(head), items.last(), order);
            lemma_of_order_push(in_order(head), items.last(), order);
            lemma_of_order_push(head, items.last(), order);
            assert(items =~= head.push(items.last()));
            assert(of_order(in_order(head), order) == of_order(head, order));
        }
    }
}

proof fn lemma_placed_is_insert<T>(items: Seq<(usize, T)>, item: (usize, T), at: int)
    requires
        0 <= at <= items.len(),
        at > 0 ==> items[at - 1].0 <= item.0,
        forall|i: int| at <= i < items.len() ==> (#[trigger] items[i]).0 > item.0,
    ensures
        placed(items, item) == items.insert(at, item),
    decreases items.len(),
{
    if items.len() == 0 || items.last().0 <= item.0 {
        assert(at == items.len());
        assert(items.insert(at, item) =~= items.push(item));
    } else {
        let head = items.drop_last();
        lemma_placed_is_insert(head, item, at);
        assert(head.insert(at, item).push(items.last()) =~= items.insert(at, item));
    }
}

/// Sorts elements by their orders; elements of the same order keep their sequence.
pub fn sort_by_order<T>(items: Vec<(usize, T)>) -> (sorted: Vec<(usize, T)>)
    ensures
        sorted@ == in_order(items@),
{
    let ghost all = items@;
    let mut rest: Vec<(usize, T)> = items;
    let mut sorted: Vec<(usize, T)> = Vec::new();
    let ghost mut done: int = 0;
    assert(all.take(0) =~= Seq::<(usize, T)>::empty());
    assert(all.skip(0) =~= all);
    while rest.len() > 0
        invariant
            0 <= done <= all.len(),
            rest@ == all.skip(done),
            sorted@ == in_order(all.take(done)),
        decreases rest@.len(),
    {
        let item = rest.remove(0);
        let mut at: usize = sorted.len();
        while at > 0 && sorted[at - 1].0 > item.0
            invariant
                at <= sorted@.len(),
                forall|i: int| at <= i < sorted@.len() ==> (#[trigger] sorted@[i]).0 > item.0,
            decreases at,
        {
            at -= 1;
        }
        proof {
            lemma_placed_is_insert(sorted@, item, at as int);
            assert(all.take(done + 1).drop_last() == all.take(done));
            assert(all.take(done + 1).last() == all[done]);
            assert(all.skip(done)[0] == all[done]);
            done = done + 1;
        }
        sorted.insert(at, item);
        assert(rest@ =~= all.skip(done));
    }
    assert(all.take(done) =~= all);
    sorted
}

/// Takes the elements out of a list of ordered elements.
pub fn into_elements<T>(items: Vec<(usize, T)>) -> (out: Vec<T>)
    ensures
        out@ == elements(items@),
{
    let ghost all = items@;
    let mut rest: Vec<(usize, T)> = items;
    let mut out: Vec<T> = Vec::new();
    assert(all.skip(0) =~= all);
    while rest.len() > 0
        invariant
            out@.len() + rest@.len() == all.len(),
            rest@ == all.skip(out@.len() as int),
            forall|i: int| 0 <= i < out@.len() ==> #[trigger] out@[i] == all[i].1,
        decreases rest@.len(),
    {
        let ghost at = out@.len() as int;
        assert(all.skip(at)[0] == all[at]);
        let (_, element) = rest.remove(0);
        out.push(element);
        assert(rest@ =~= all.skip(at + 1));
    }
    assert(out@ =~= elements(all));
    out
}

// ---- scenes -------------------------------------------------------------------------------------

/// The elements of one window, front to back within each list.
pub struct WindowElements<T> {
    pub popups: Vec<T>,
    pub client: Vec<T>,
    /// Shader effects, each with its order and whether it is drawn behind everything else.
    pub effects: Vec<(usize, T, bool)>,
    pub backgrounds: Vec<(usize, T)>,
    pub icons: Vec<(usize, T)>,
    pub labels: Vec<(usize, T)>,
}

/// The effects that are drawn behind everything else, or those that are not.
pub open spec fn effects_of_kind<T>(effects: Seq<(usize, T, bool)>, backdrop: bool) -> Seq<(usize, T)>
    decreases effects.len(),
{
    if effects.len() == 0 {
        Seq::empty()
    } else {
        let before = effects_of_kind(effects.drop_last(), backdrop);
        let last = effects.last();
        if last.2 == backdrop {
            before.push((last.0, last.1))
        } else {
            before
        }
    }
}

/// The decoration of a window in drawing order.
pub open spec fn decoration_scene<T>(window: WindowElements<T>) -> Seq<T> {
    elements(
        in_order(
            effects_of_kind(window.effects@, false) + window.backgrounds@ + window.icons@
                + window.labels@,
        ),
    )
}

/// The scene of a window, front to back: popups, the client's surfaces, the decoration, and the
/// effects behind it.
pub open spec fn window_scene<T>(window: WindowElements<T>) -> Seq<T> {
    window.popups@ + window.client@ + decoration_scene(window) + elements(
        in_order(effects_of_kind(window.effects@, true)),
    )
}

/// Assembles the scene of a window.
pub fn compose_window_scene<T>(window: WindowElements<T>) -> (scene: Vec<T>)
    ensures
        scene@ == window_scene(window),
{
    let ghost whole = window;
    let WindowElements { popups, client, effects, backgrounds, icons, labels } = window;
    let ghost all = effects@;
    let mut rest: Vec<(usize, T, bool)> = effects;
    let mut ui: Vec<(usize, T)> = Vec::new();
    let mut backdrop: Vec<(usize, T)> = Vec::new();
    let ghost mut done: int = 0;
    assert(all.take(0) =~= Seq::<(usize, T, bool)>::empty());
    assert(all.skip(0) =~= all);
    while rest.len() > 0
        invariant
            0 <= done <= all.len(),
            rest@ == all.skip(done),
            ui@ == effects_of_kind(all.take(done), false),
            backdrop@ == effects_of_kind(all.take(done), true),
        decreases rest@.len(),
    {
        proof {
            assert(all.take(done + 1).drop_last() == all.take(done));
            assert(all.take(done + 1).last() == all[done]);
            assert(all.skip(done)[0] == all[done]);
            done = done + 1;
        }
        let (order, element, behind) = rest.remove(0);
        if behind {
            backdrop.push((order, element));
        } else {
            ui.push((order, element));
        }
        assert(rest@ =~= all.skip(done));
    }
    assert(all.take(done) =~= all);
    let mut backgrounds = backgrounds;
    let mut icons = icons;
    let mut labels = labels;
    ui.append(&mut backgrounds);
    ui.append(&mut icons);
    ui.append(&mut labels);
    let mut decoration = into_elements(sort_by_order(ui));
    let mut behind = into_elements(sort_by_order(backdrop));
    let mut scene: Vec<T> = popups;
    let mut client = client;
    scene.append(&mut client);
    scene.append(&mut decoration);
    scene.append(&mut behind);
    scene
}

/// The scene of a window as far as it is shown: the decoration waits until the window has been
/// drawn once.
pub open spec fn ready_scene<T>(plan: WindowPlan, window: WindowElements<T>) -> Seq<T> {
    if plan.decoration_ready {
        window_scene(window)
    } else {
        window.popups@ + window.client@
    }
}

/// Assembles the parts of a window of which one picture is taken.
pub fn compose_picture_scene<T>(plan: WindowPlan, window: WindowElements<T>) -> (scene: Vec<T>)
    ensures
        scene@ == ready_scene(plan, window),
{
    if plan.decoration_ready {
        compose_window_scene(window)
    } else {
        let mut scene: Vec<T> = window.popups;
        let mut client = window.client;
        scene.append(&mut client);
        scene
    }
}

/// What a frame shows of a window: one that is drawn as one picture shows that picture below its popups.
pub open spec fn planned_scene<T>(
    plan: WindowPlan,
    window: WindowElements<T>,
    picture: Seq<T>,
) -> Seq<T> {
    if plan.use_full_window_snapshot {
        window.popups@ + picture
    } else {
        ready_scene(plan, window)
    }
}

/// Assembles what a frame shows of a window. One that is drawn as one picture shows that picture,
/// which is empty where it could not be taken, below its popups.
pub fn compose_planned_scene<T>(
    plan: WindowPlan,
    window: WindowElements<T>,
    picture: Vec<T>,
) -> (scene: Vec<T>)
    ensures
        scene@ == planned_scene(plan, window, picture@),
{
    if plan.use_full_window_snapshot {
        let mut scene: Vec<T> = window.popups;
        let mut picture = picture;
        scene.append(&mut picture);
        scene
    } else {
        compose_picture_scene(plan, window)
    }
}

/// Where the elements of a client's contents come from.
#[derive(Clone, Copy, Debug, PartialEq, Eq, Structural)]
pub enum ClientSource {
    /// The picture of the whole window.
    Picture,
    /// The surfaces, clipped to the place that the decoration leaves.
    Clipped,
    /// The surfaces as they are, to look for gaps.
    Unclipped,
    /// The surfaces of a window without a clip.
    Surfaces,
}

/// Where the elements of a client's contents come from.
pub open spec fn source_of_client(plan: WindowPlan, has_clip: bool, bypass_clip: bool) -> ClientSource {
    if plan.use_full_window_snapshot {
        ClientSource::Picture
    } else if !has_clip {
        ClientSource::Surfaces
    } else if bypass_clip {
        ClientSource::Unclipped
    } else {
        ClientSource::Clipped
    }
}

/// A window that is drawn as one picture is drawn from it whatever else holds, only a window with a clip is
/// drawn with or without it, and the clip is left out only where that is asked for.
pub proof fn law_client_comes_from_one_source(plan: WindowPlan, has_clip: bool, bypass_clip: bool)
    ensures
        source_of_client(plan, has_clip, bypass_clip) == ClientSource::Picture
            <==> plan.use_full_window_snapshot,
        source_of_client(plan, has_clip, bypass_clip) == ClientSource::Clipped ==> has_clip
            && !bypass_clip,
        source_of_client(plan, has_clip, bypass_clip) == ClientSource::Unclipped ==> has_clip
            && bypass_clip,
        source_of_client(plan, has_clip, bypass_clip) == ClientSource::Surfaces ==> !has_clip,
{
}

/// Decides where the elements of a client's contents come from.
pub fn client_source(plan: WindowPlan, has_clip: bool, bypass_clip: bool) -> (source: ClientSource)
    ensures
        source == source_of_client(plan, has_clip, bypass_clip),
{
    if plan.use_full_window_snapshot {
        ClientSource::Picture
    } else if !has_clip {
        ClientSource::Surfaces
    } else if bypass_clip {
        ClientSource::Unclipped
    } else {
        ClientSource::Clipped
    }
}

/// What an effect above a window captures of it: the decoration by its orders, then the client's surfaces,
/// then the popups.
pub open spec fn capture_scene<T>(
    decoration: Option<(Seq<(usize, T)>, Seq<T>)>,
    popups: Seq<T>,
) -> Seq<T> {
    (match decoration {
        Some((ui, surfaces)) => elements(in_order(ui)) + surfaces,
        None => Seq::empty(),
    }) + popups
}

/// Assembles what an effect above a window captures of it: the decoration, then the client's
/// surfaces, then the popups. A window without decoration shows only its popups.
pub fn compose_capture_scene<T>(
    decoration: Option<(Vec<(usize, T)>, Vec<T>)>,
    popups: Vec<T>,
) -> (scene: Vec<T>)
    ensures
        scene@ == capture_scene(
            match decoration {
                Some((ui, surfaces)) => Some((ui@, surfaces@)),
                None => None,
            },
            popups@,
        ),
{
    let mut scene: Vec<T> = Vec::new();
    if let Some((ui, surfaces)) = decoration {
        scene = into_elements(sort_by_order(ui));
        let mut surfaces = surfaces;
        scene.append(&mut surfaces);
    }
    let mut popups = popups;
    scene.append(&mut popups);
    scene
}

/// Four lists of elements behind each other.
pub open spec fn lined_up<T>(a: Seq<T>, b: Seq<T>, c: Seq<T>, d: Seq<T>) -> Seq<T> {
    a + b + c + d
}

/// Elements that are lined up stand list by list, each list in its own sequence; none is lost and none is
/// added.
pub proof fn law_lists_are_lined_up<T>(a: Seq<T>, b: Seq<T>, c: Seq<T>, d: Seq<T>, i: int)
    ensures
        lined_up(a, b, c, d).len() == a.len() + b.len() + c.len() + d.len(),
        0 <= i < a.len() ==> lined_up(a, b, c, d)[i] == a[i],
        0 <= i < b.len() ==> lined_up(a, b, c, d)[a.len() + i] == b[i],
        0 <= i < c.len() ==> lined_up(a, b, c, d)[a.len() + b.len() + i] == c[i],
        0 <= i < d.len() ==> lined_up(a, b, c, d)[a.len() + b.len() + c.len() + i] == d[i],
{
}

/// Lines four lists of elements up.
fn line_up<T>(a: Vec<T>, b: Vec<T>, c: Vec<T>, d: Vec<T>) -> (all: Vec<T>)
    ensures
        all@ == lined_up(a@, b@, c@, d@),
{
    let (mut all, mut b, mut c, mut d) = (a, b, c, d);
    all.append(&mut b);
    all.append(&mut c);
    all.append(&mut d);
    all
}

/// A layer: its surfaces, and the effect behind it.
pub struct LayerElements<T> {
    pub surfaces: Vec<T>,
    pub effect: Vec<T>,
}

/// The elements of layers, front to back: of each layer its surfaces, then its effect.
pub open spec fn layer_scene<T>(layers: Seq<LayerElements<T>>) -> Seq<T>
    decreases layers.len(),
{
    if layers.len() == 0 {
        Seq::empty()
    } else {
        layer_scene(layers.drop_last()) + layers.last().surfaces@ + layers.last().effect@
    }
}

/// Assembles the scene of the layers above or below the windows.
pub fn compose_layer_scene<T>(layers: Vec<LayerElements<T>>) -> (scene: Vec<T>)
    ensures
        scene@ == layer_scene(layers@),
{
    let ghost all = layers@;
    let mut layers = layers;
    let mut scene: Vec<T> = Vec::new();
    let ghost mut left: int = all.len() as int;
    assert(all.take(left) =~= all);
    assert(layer_scene(all) + scene@ =~= layer_scene(all));
    while layers.len() > 0
        invariant
            0 <= left <= all.len(),
            layers@ == all.take(left),
            layer_scene(all.take(left)) + scene@ == layer_scene(all),
        decreases layers@.len(),
    {
        match layers.pop() {
            Some(layer) => {
                let mut head = layer.surfaces;
                let mut effect = layer.effect;
                head.append(&mut effect);
                let ghost before = scene@;
                head.append(&mut scene);
                proof {
                    let part = all.take(left);
                    assert(part.drop_last() =~= all.take(left - 1));
                    assert(part.last() == layer);
                    assert(layer_scene(part.drop_last()) + head@ =~= layer_scene(part) + before);
                    left = left - 1;
                }
                scene = head;
            },
            None => {},
        }
    }
    assert(all.take(left) =~= Seq::<LayerElements<T>>::empty());
    assert(scene@ =~= layer_scene(all));
    scene
}

/// Assembles the scene of an output, front to back: the layers above the windows, the windows,
/// the windows that are closing, and the layers below.
pub fn compose_output_scene<T>(
    upper_layers: Vec<T>,
    windows: Vec<T>,
    closing: Vec<T>,
    lower_layers: Vec<T>,
) -> (scene: Vec<T>)
    ensures
        scene@ == lined_up(upper_layers@, windows@, closing@, lower_layers@),
{
    line_up(upper_layers, windows, closing, lower_layers)
}

/// Assembles a frame, front to back: the marks of past damage, the cursor, the extra damage, and
/// the scene.
pub fn compose_frame<T>(blink: Vec<T>, cursor: Vec<T>, damage: Vec<T>, scene: Vec<T>) -> (frame: Vec<
    T,
>)
    ensures
        frame@ == lined_up(blink@, cursor@, damage@, scene@),
{
    line_up(blink, cursor, damage, scene)
}

/// Assembles the scene of a closing window, front to back.
pub fn compose_closing_scene<T>(
    icons: Vec<T>,
    labels: Vec<T>,
    backgrounds: Vec<T>,
    snapshot: Vec<T>,
) -> (scene: Vec<T>)
    ensures
        scene@ == lined_up(icons@, labels@, backgrounds@, snapshot@),
{
    line_up(icons, labels, backgrounds, snapshot)
}

/// Assembles the scene of a window of the nested backend, front to back.
pub fn compose_nested_window_scene<T>(
    popups: Vec<T>,
    icons: Vec<T>,
    labels: Vec<T>,
    backgrounds: Vec<T>,
    client: Vec<T>,
) -> (scene: Vec<T>)
    ensures
        scene@ == lined_up(popups@, icons@, labels@, backgrounds@) + client@,
{
    let mut scene = line_up(popups, icons, labels, backgrounds);
    let mut client = client;
    scene.append(&mut client);
    scene
}

// ---- windows of a frame -------------------------------------------------------------------------

/// What a frame has to know of a decorated window that is mapped.
pub struct WindowFacts {
    pub id: String,
    /// How many surfaces of the client have contents.
    pub surface_count: usize,
    /// The window is drawn where and as it is: neither moved, scaled nor faded.
    pub identity_visual: bool,
    /// Where the window is drawn.
    pub visual_rect: LogicalRect,
    pub client_rect: LogicalRect,
    /// The client area that the live snapshot shows, if there is one.
    pub live_snapshot_rect: Option<LogicalRect>,
}

/// How a window is drawn in a frame.
#[derive(Clone, Copy, Debug, PartialEq, Eq, Structural)]
pub struct WindowPlan {
    /// The window is drawn as one picture of all its parts.
    pub use_full_window_snapshot: bool,
    pub has_snapshot_damage: bool,
    /// The decoration is drawn.
    pub decoration_ready: bool,
}

/// The state that windows carry from frame to frame, and what the frame collects.
pub struct FrameState {
    /// Windows that are closing, which are drawn from their last picture.
    pub closing: IdSet,
    pub ready_for_decoration: IdSet,
    /// Windows whose live snapshot is out of date.
    pub snapshot_dirty: IdSet,
    /// Windows that were drawn as one picture in the last frame.
    pub transform_snapshots: IdSet,
    pub extra_damage: Vec<LogicalRect>,
    pub transform_snapshot_count: usize,
    pub had_transform_snapshot_damage: bool,
}

/// Some damage comes from the window.
pub open spec fn damaged_by(damage: Seq<OwnedDamageRect>, id: Seq<char>) -> bool {
    exists|i: int| 0 <= i < damage.len() && (#[trigger] damage[i]).owner@ == id
}

/// Whether some damage comes from the window.
pub fn any_damage_of(damage: &Vec<OwnedDamageRect>, id: &str) -> (found: bool)
    ensures
        found == damaged_by(damage@, id@),
{
    let mut i: usize = 0;
    while i < damage.len()
        invariant
            i <= damage@.len(),
            forall|k: int| 0 <= k < i ==> (#[trigger] damage@[k]).owner@ != id@,
        decreases damage@.len() - i,
    {
        if same_text(damage[i].owner.as_str(), id) {
            return true;
        }
        i += 1;
    }
    false
}

/// A number one step on, as far as it goes.
pub open spec fn counted(n: usize) -> usize {
    if n == usize::MAX {
        n
    } else {
        (n + 1) as usize
    }
}

/// The damage that a frame starts with: what the decorations have collected, and the whole output
/// where all of it has to be drawn or past damage is still marked.
pub open spec fn initial_damage(
    pending: Seq<LogicalRect>,
    output: LogicalRect,
    force_full_damage: bool,
    blink_visible: bool,
) -> Seq<LogicalRect> {
    pending + (if force_full_damage {
        seq![output]
    } else {
        Seq::empty()
    }) + (if blink_visible {
        seq![output]
    } else {
        Seq::empty()
    })
}

/// Collects the damage that a frame starts with.
pub fn frame_damage(
    pending: &Vec<LogicalRect>,
    output: LogicalRect,
    force_full_damage: bool,
    blink_enabled: bool,
    blink_rects: &Vec<LogicalRect>,
) -> (damage: Vec<LogicalRect>)
    ensures
        damage@ == initial_damage(
            pending@,
            output,
            force_full_damage,
            blink_enabled && blink_rects@.len() > 0,
        ),
{
    let mut damage = pending.clone();
    assert(damage@ =~= pending@);
    if force_full_damage {
        damage.push(output);
    }
    if blink_enabled && blink_rects.len() > 0 {
        damage.push(output);
    }
    assert(damage@ =~= initial_damage(
        pending@,
        output,
        force_full_damage,
        blink_enabled && blink_rects@.len() > 0,
    ));
    damage
}

impl FrameState {
    /// The sets hold every member once.
    pub open spec fn wf(&self) -> bool {
        &&& self.closing.wf()
        &&& self.ready_for_decoration.wf()
        &&& self.snapshot_dirty.wf()
        &&& self.transform_snapshots.wf()
    }

    /// The window takes part in the frame.
    pub open spec fn draws(&self, window: WindowFacts) -> bool {
        !self.closing@.contains(window.id@) && window.surface_count > 0
    }

    /// The picture of the window is out of date.
    pub open spec fn snapshot_damaged(
        &self,
        window: WindowFacts,
        source_damage: Seq<OwnedDamageRect>,
    ) -> bool {
        self.snapshot_dirty@.contains(window.id@) || damaged_by(source_damage, window.id@)
    }

    /// The window's place is damaged as a whole: it begins or ends to be drawn as one picture, or
    /// that picture is out of date.
    pub open spec fn damages_whole_window(
        &self,
        window: WindowFacts,
        source_damage: Seq<OwnedDamageRect>,
    ) -> bool {
        let full = !window.identity_visual;
        full != self.transform_snapshots@.contains(window.id@) || (full && self.snapshot_damaged(
            window,
            source_damage,
        ))
    }

    /// How the window is drawn.
    pub open spec fn plan_for(
        &self,
        window: WindowFacts,
        source_damage: Seq<OwnedDamageRect>,
    ) -> WindowPlan {
        WindowPlan {
            use_full_window_snapshot: !window.identity_visual,
            has_snapshot_damage: self.snapshot_damaged(window, source_damage),
            decoration_ready: self.ready_for_decoration@.contains(window.id@),
        }
    }

    /// This is the state after a window was planned.
    pub open spec fn follows_entering(
        &self,
        before: &FrameState,
        window: WindowFacts,
        source_damage: Seq<OwnedDamageRect>,
    ) -> bool {
        &&& self.closing == before.closing
        &&& self.ready_for_decoration == before.ready_for_decoration
        &&& self.snapshot_dirty == before.snapshot_dirty
        &&& self.transform_snapshots@ == (if window.identity_visual {
            before.transform_snapshots@.remove(window.id@)
        } else {
            before.transform_snapshots@.insert(window.id@)
        })
        &&& self.extra_damage@ == (if before.damages_whole_window(window, source_damage) {
            before.extra_damage@.push(window.visual_rect)
        } else {
            before.extra_damage@
        })
        &&& self.transform_snapshot_count == (if window.identity_visual {
            before.transform_snapshot_count
        } else {
            counted(before.transform_snapshot_count)
        })
        &&& self.had_transform_snapshot_damage == (before.had_transform_snapshot_damage || (
        !window.identity_visual && before.snapshot_damaged(window, source_damage)))
    }

    /// This is the state after a window was drawn.
    pub open spec fn follows_leaving(&self, before: &FrameState, window: WindowFacts) -> bool {
        &&& self.ready_for_decoration@ == before.ready_for_decoration@.insert(window.id@)
        &&& self.closing == before.closing
        &&& self.snapshot_dirty == before.snapshot_dirty
        &&& self.transform_snapshots == before.transform_snapshots
        &&& self.extra_damage == before.extra_damage
        &&& self.transform_snapshot_count == before.transform_snapshot_count
        &&& self.had_transform_snapshot_damage == before.had_transform_snapshot_damage
    }

    /// Decides how a window is drawn, and notes what follows for the frame. A closing window, and
    /// one without contents, is left out.
    pub fn enter_window(&mut self, window: &WindowFacts, source_damage: &Vec<OwnedDamageRect>) -> (plan:
        Option<WindowPlan>)
        requires
            old(self).wf(),
        ensures
            final(self).wf(),
            plan is Some <==> old(self).draws(*window),
            plan is None ==> *final(self) == *old(self),
            plan matches Some(plan) ==> plan == old(self).plan_for(*window, source_damage@)
                && final(self).follows_entering(old(self), *window, source_damage@),
    {
        if self.closing.contains(window.id.as_str()) || window.surface_count == 0 {
            return None;
        }
        let decoration_ready: bool = self.ready_for_decoration.contains(window.id.as_str());
        let full: bool = !window.identity_visual;
        let used_last_frame: bool = self.transform_snapshots.contains(window.id.as_str());
        if full {
            self.transform_snapshot_count = self.transform_snapshot_count.saturating_add(1);
        }
        let damaged: bool = self.snapshot_dirty.contains(window.id.as_str()) || any_damage_of(
            source_damage,
            window.id.as_str(),
        );
        if full != used_last_frame || (full && damaged) {
            if full && damaged {
                self.had_transform_snapshot_damage = true;
            }
            self.extra_damage.push(window.visual_rect);
        }
        if full {
            self.transform_snapshots.insert(window.id.clone());
        } else {
            self.transform_snapshots.remove(window.id.as_str());
        }
        Some(
            WindowPlan {
                use_full_window_snapshot: full,
                has_snapshot_damage: damaged,
                decoration_ready,
            },
        )
    }

    /// Notes that a window was drawn, after which its decoration may show, and tells whether its
    /// live snapshot has to be taken anew.
    pub fn leave_window(&mut self, window: &WindowFacts, plan: WindowPlan) -> (refresh: bool)
        requires
            old(self).wf(),
        ensures
            final(self).wf(),
            final(self).follows_leaving(old(self), *window),
            refresh == is_out_of_date(
                plan.has_snapshot_damage,
                window.live_snapshot_rect,
                window.client_rect,
            ),
    {
        self.ready_for_decoration.insert(window.id.clone());
        should_refresh_snapshot(
            plan.has_snapshot_damage,
            window.live_snapshot_rect,
            window.client_rect,
        )
    }

    /// Notes that the live snapshot of a window was taken.
    pub fn snapshot_taken(&mut self, id: &str)
        requires
            old(self).wf(),
        ensures
            final(self).wf(),
            final(self).snapshot_dirty@ == old(self).snapshot_dirty@.remove(id@),
            final(self).closing == old(self).closing,
            final(self).ready_for_decoration == old(self).ready_for_decoration,
            final(self).transform_snapshots == old(self).transform_snapshots,
            final(self).extra_damage == old(self).extra_damage,
            final(self).transform_snapshot_count == old(self).transform_snapshot_count,
            final(self).had_transform_snapshot_damage == old(self).had_transform_snapshot_damage,
    {
        self.snapshot_dirty.remove(id);
    }
}

/// A window that is drawn as in the frame before, and has not changed, damages nothing.
pub proof fn law_settled_window_adds_no_damage(
    before: FrameState,
    after: FrameState,
    window: WindowFacts,
    damage: Seq<OwnedDamageRect>,
    again: WindowFacts,
    next_damage: Seq<OwnedDamageRect>,
)
    requires
        after.follows_entering(&before, window, damage),
        again.id@ == window.id@,
        again.identity_visual == window.identity_visual,
        !after.snapshot_damaged(again, next_damage),
    ensures
        !after.damages_whole_window(again, next_damage),
{
}

/// When a window begins or ends to be moved, scaled or faded, its place is damaged as a whole.
pub proof fn law_change_of_visual_is_damage(
    before: FrameState,
    after: FrameState,
    window: WindowFacts,
    damage: Seq<OwnedDamageRect>,
    again: WindowFacts,
    next_damage: Seq<OwnedDamageRect>,
)
    requires
        after.follows_entering(&before, window, damage),
        again.id@ == window.id@,
        again.identity_visual != window.identity_visual,
    ensures
        after.damages_whole_window(again, next_damage),
{
}

/// The decoration of a window shows from the frame after the one in which it was first drawn.
pub proof fn law_decoration_shows_after_first_frame(
    before: FrameState,
    after: FrameState,
    window: WindowFacts,
    again: WindowFacts,
    damage: Seq<OwnedDamageRect>,
)
    requires
        after.follows_leaving(&before, window),
        again.id@ == window.id@,
    ensures
        after.plan_for(again, damage).decoration_ready,
{
}

/// The live snapshot of a window is out of date: it is damaged, shows another area, or there is none.
pub open spec fn is_out_of_date(
    damaged: bool,
    live_rect: Option<LogicalRect>,
    client_rect: LogicalRect,
) -> bool {
    damaged || live_rect != Some(client_rect)
}

/// A live snapshot is taken anew after damage, and where there is none, and where it shows an area of
/// another place or size. A snapshot of the area that is shown, without damage, is kept.
pub proof fn law_snapshot_is_taken_when_needed(live: LogicalRect, client_rect: LogicalRect)
    ensures
        is_out_of_date(true, Some(live), client_rect),
        is_out_of_date(false, None, client_rect),
        live.x != client_rect.x || live.y != client_rect.y || live.width != client_rect.width
            || live.height != client_rect.height ==> is_out_of_date(false, Some(live), client_rect),
        !is_out_of_date(false, Some(client_rect), client_rect),
{
}

/// Whether the live snapshot of a window has to be taken anew: it is out of date, shows another
/// area, or there is none.
pub fn should_refresh_snapshot(
    damaged: bool,
    live_rect: Option<LogicalRect>,
    client_rect: LogicalRect,
) -> (refresh: bool)
    ensures
        refresh == is_out_of_date(damaged, live_rect, client_rect),
{
    if damaged {
        return true;
    }
    match live_rect {
        Some(rect) => rect != client_rect,
        None => true,
    }
}

/// The complete picture of a window from an earlier frame shows what it would show now.
pub open spec fn shows_the_same(
    damaged: bool,
    existing_signature: Option<u64>,
    signature: u64,
) -> bool {
    !damaged && existing_signature == Some(signature)
}

/// A picture is shown again only without damage, only where there is one, and only if it was made of the
/// same elements; and then it is.
pub proof fn law_picture_is_shown_again(existing: u64, signature: u64)
    ensures
        !shows_the_same(true, Some(existing), signature),
        !shows_the_same(false, None, signature),
        shows_the_same(false, Some(existing), signature) <==> existing == signature,
{
}

/// Whether the complete picture of a window from an earlier frame can be shown again: the window
/// has no damage, and the picture was made of the same elements.
pub fn can_reuse_complete_snapshot(
    damaged: bool,
    existing_signature: Option<u64>,
    signature: u64,
) -> (reuse: bool)
    ensures
        reuse == shows_the_same(damaged, existing_signature, signature),
{
    if damaged {
        return false;
    }
    match existing_signature {
        Some(existing) => existing == signature,
        None => false,
    }
}

/// What the nested backend does with a mapped, decorated window.
#[derive(Clone, Copy, Debug, PartialEq, Eq, Structural)]
pub enum NestedWindowStep {
    /// The window is closing.
    Skip,
    /// The client has no contents left: the window is drawn unless it can be closed from its
    /// last picture.
    TryClosing,
    Draw,
}

/// What the nested backend does with a window.
pub open spec fn nested_step(closing: bool, surface_count: usize) -> NestedWindowStep {
    if closing {
        NestedWindowStep::Skip
    } else if surface_count == 0 {
        NestedWindowStep::TryClosing
    } else {
        NestedWindowStep::Draw
    }
}

/// A window is passed over exactly if it is closing, and drawn as usual exactly if it is not and its client
/// has contents.
pub proof fn law_nested_window_is_drawn(closing: bool, surface_count: usize)
    ensures
        closing <==> nested_step(closing, surface_count) == NestedWindowStep::Skip,
        !closing && surface_count > 0 <==> nested_step(closing, surface_count)
            == NestedWindowStep::Draw,
{
}

/// Decides what the nested backend does with a window.
pub fn nested_window_step(closing: bool, surface_count: usize) -> (step: NestedWindowStep)
    ensures
        step == nested_step(closing, surface_count),
{
    if closing {
        NestedWindowStep::Skip
    } else if surface_count == 0 {
        NestedWindowStep::TryClosing
    } else {
        NestedWindowStep::Draw
    }
}

// ---- layers -------------------------------------------------------------------------------------

/// The layers of an output, from the back to the front.
#[derive(Clone, Copy, Debug, PartialEq, Eq, Structural)]
pub enum Layer {
    Background,
    Bottom,
    Top,
    Overlay,
}

/// The layer lies below all windows.
pub open spec fn below_windows(layer: Layer) -> bool {
    layer == Layer::Background || layer == Layer::Bottom
}

/// The surfaces below the windows or those above, in reverse sequence.
pub open spec fn layers_of_kind(surfaces: Seq<(u32, Layer)>, below: bool) -> Seq<u32>
    decreases surfaces.len(),
{
    if surfaces.len() == 0 {
        Seq::empty()
    } else {
        let rest = layers_of_kind(surfaces.drop_first(), below);
        if below_windows(surfaces.first().1) == below {
            rest.push(surfaces.first().0)
        } else {
            rest
        }
    }
}

/// The surfaces on one layer, in reverse sequence.
pub open spec fn on_layer(surfaces: Seq<(u32, Layer)>, layer: Layer) -> Seq<u32>
    decreases surfaces.len(),
{
    if surfaces.len() == 0 {
        Seq::empty()
    } else {
        let rest = on_layer(surfaces.drop_first(), layer);
        if surfaces.first().1 == layer {
            rest.push(surfaces.first().0)
        } else {
            rest
        }
    }
}

/// Splits the layer surfaces of an output into those above and those below the windows, the last
/// one first.
pub fn layer_surfaces_for_output(surfaces: &Vec<(u32, Layer)>) -> (split: (Vec<u32>, Vec<u32>))
    ensures
        split.0@ == layers_of_kind(surfaces@, false),
        split.1@ == layers_of_kind(surfaces@, true),
{
    let mut upper: Vec<u32> = Vec::new();
    let mut lower: Vec<u32> = Vec::new();
    let mut i: usize = surfaces.len();
    assert(surfaces@.skip(i as int) =~= Seq::<(u32, Layer)>::empty());
    while i > 0
        invariant
            i <= surfaces@.len(),
            upper@ == layers_of_kind(surfaces@.skip(i as int), false),
            lower@ == layers_of_kind(surfaces@.skip(i as int), true),
        decreases i,
    {
        assert(surfaces@.skip(i - 1).drop_first() == surfaces@.skip(i as int));
        i -= 1;
        let (id, layer) = surfaces[i];
        match layer {
            Layer::Background => lower.push(id),
            Layer::Bottom => lower.push(id),
            Layer::Top => upper.push(id),
            Layer::Overlay => upper.push(id),
        }
    }
    assert(surfaces@.skip(0) =~= surfaces@);
    (upper, lower)
}

fn append_on_layer(out: &mut Vec<u32>, surfaces: &Vec<(u32, Layer)>, wanted: Layer)
    ensures
        final(out)@ == old(out)@ + on_layer(surfaces@, wanted),
{
    let ghost start = out@;
    let mut i: usize = surfaces.len();
    assert(surfaces@.skip(i as int) =~= Seq::<(u32, Layer)>::empty());
    assert(out@ =~= start + on_layer(surfaces@.skip(i as int), wanted));
    while i > 0
        invariant
            i <= surfaces@.len(),
            out@ == start + on_layer(surfaces@.skip(i as int), wanted),
        decreases i,
    {
        assert(surfaces@.skip(i - 1).drop_first() == surfaces@.skip(i as int));
        i -= 1;
        let (id, layer) = surfaces[i];
        if layer == wanted {
            out.push(id);
            assert(out@ =~= start + on_layer(surfaces@.skip(i as int), wanted));
        }
    }
    assert(surfaces@.skip(0) =~= surfaces@);
}

/// The layer surfaces above the windows, front to back: the overlays, then the top layer, the last
/// one of each first.
pub fn upper_layers_front_to_back(surfaces: &Vec<(u32, Layer)>) -> (upper: Vec<u32>)
    ensures
        upper@ == on_layer(surfaces@, Layer::Overlay) + on_layer(surfaces@, Layer::Top),
{
    let mut upper: Vec<u32> = Vec::new();
    append_on_layer(&mut upper, surfaces, Layer::Overlay);
    append_on_layer(&mut upper, surfaces, Layer::Top);
    assert(upper@ =~= on_layer(surfaces@, Layer::Overlay) + on_layer(surfaces@, Layer::Top));
    upper
}

/// The layer surfaces of an output, however they are lined up.
pub open spec fn surface_ids(surfaces: Seq<(u32, Layer)>) -> Multiset<u32>
    decreases surfaces.len(),
{
    if surfaces.len() == 0 {
        Multiset::empty()
    } else {
        surface_ids(surfaces.drop_first()).insert(surfaces.first().0)
    }
}

/// Every layer surface is drawn once: either above or below the windows. Those above are the
/// overlays and the top layer.
pub proof fn law_layers_are_split(surfaces: Seq<(u32, Layer)>)
    ensures
        layers_of_kind(surfaces, false).to_multiset().add(
            layers_of_kind(surfaces, true).to_multiset(),
        ) == surface_ids(surfaces),
        on_layer(surfaces, Layer::Overlay).to_multiset().add(
            on_layer(surfaces, Layer::Top).to_multiset(),
        ) == layers_of_kind(surfaces, false).to_multiset(),
    decreases surfaces.len(),
{
    broadcast use vstd::seq_lib::group_to_multiset_ensures;

    if surfaces.len() > 0 {
        let rest = surfaces.drop_first();
        let id = surfaces.first().0;
        law_layers_are_split(rest);
        assert(layers_of_kind(rest, false).push(id).to_multiset() == layers_of_kind(
            rest,
            false,
        ).to_multiset().insert(id));
        assert(layers_of_kind(rest, true).push(id).to_multiset() == layers_of_kind(
            rest,
            true,
        ).to_multiset().insert(id));
        assert(layers_of_kind(surfaces, false).to_multiset().add(
            layers_of_kind(surfaces, true).to_multiset(),
        ) =~= surface_ids(surfaces));
    } else {
        assert(layers_of_kind(surfaces, false).to_multiset().add(
            layers_of_kind(surfaces, true).to_multiset(),
        ) =~= surface_ids(surfaces));
    }
    assert(on_layer(surfaces, Layer::Overlay).to_multiset().add(
        on_layer(surfaces, Layer::Top).to_multiset(),
    ) =~= layers_of_kind(surfaces, false).to_multiset());
}

// ---- what the scenes hold -------------------------------------------------------------------------

proof fn lemma_placed_elements<T>(items: Seq<(usize, T)>, item: (usize, T))
    ensures
        elements(placed(items, item)).to_multiset() == elements(items).to_multiset().insert(item.1),
    decreases items.len(),
{
    broadcast use vstd::seq_lib::group_to_multiset_ensures;

    if items.len() == 0 || items.last().0 <= item.0 {
        assert(elements(items.push(item)) =~= elements(items).push(item.1));
    } else {
        let head = items.drop_last();
        lemma_placed_elements(head, item);
        assert(elements(placed(items, item)) =~= elements(placed(head, item)).push(items.last().1));
        assert(elements(items) =~= elements(head).push(items.last().1));
        assert(elements(placed(items, item)).to_multiset() =~= elements(
            items,
        ).to_multiset().insert(item.1));
    }
}

proof fn lemma_in_order_elements<T>(items: Seq<(usize, T)>)
    ensures
        elements(in_order(items)).to_multiset() == elements(items).to_multiset(),
        in_order(items).len() == items.len(),
    decreases items.len(),
{
    broadcast use vstd::seq_lib::group_to_multiset_ensures;

    law_in_order_is_stable(items);
    if items.len() > 0 {
        let head = items.drop_last();
        lemma_in_order_elements(head);
        lemma_placed_elements(in_order(head), items.last());
        assert(elements(items) =~= elements(head).push(items.last().1));
    } else {
        assert(elements(in_order(items)) =~= elements(items));
    }
}

/// The elements of effects, of which kind they may be.
pub open spec fn effect_elements<T>(effects: Seq<(usize, T, bool)>) -> Seq<T> {
    Seq::new(effects.len(), |i: int| effects[i].1)
}

/// The effects that are to be drawn behind everything else.
pub open spec fn backdrop_effects<T>(effects: Seq<(usize, T, bool)>) -> Seq<(usize, T, bool)> {
    effects.filter(|effect: (usize, T, bool)| effect.2)
}

proof fn lemma_effects_are_split<T>(effects: Seq<(usize, T, bool)>)
    ensures
        elements(effects_of_kind(effects, false)).to_multiset().add(
            elements(effects_of_kind(effects, true)).to_multiset(),
        ) == effect_elements(effects).to_multiset(),
        elements(effects_of_kind(effects, true)) == effect_elements(backdrop_effects(effects)),
        effects_of_kind(effects, false).len() + effects_of_kind(effects, true).len()
            == effects.len(),
    decreases effects.len(),
{
    broadcast use vstd::seq_lib::group_to_multiset_ensures;

    reveal(Seq::filter);
    if effects.len() > 0 {
        let head = effects.drop_last();
        let last = effects.last();
        lemma_effects_are_split(head);
        assert(effect_elements(effects) =~= effect_elements(head).push(last.1));
        let before = effects_of_kind(head, last.2);
        assert(elements(before.push((last.0, last.1))) =~= elements(before).push(last.1));
        if last.2 {
            assert(backdrop_effects(effects) == backdrop_effects(head).push(last));
            assert(effect_elements(backdrop_effects(effects)) =~= effect_elements(
                backdrop_effects(head),
            ).push(last.1));
        } else {
            assert(backdrop_effects(effects) == backdrop_effects(head));
        }
        assert(elements(effects_of_kind(effects, false)).to_multiset().add(
            elements(effects_of_kind(effects, true)).to_multiset(),
        ) =~= effect_elements(effects).to_multiset());
    } else {
        assert(elements(effects_of_kind(effects, true)) =~= effect_elements(
            backdrop_effects(effects),
        ));
        assert(elements(effects_of_kind(effects, false)).to_multiset().add(
            elements(effects_of_kind(effects, true)).to_multiset(),
        ) =~= effect_elements(effects).to_multiset());
    }
}

/// The scene of a window loses and invents nothing: its elements are those of the popups, of the client, of
/// the effects, and of the backgrounds, icons and labels. The popups come first and then the surfaces of the
/// client, both in the sequence in which they were given; the effects that are drawn behind everything else
/// come last.
pub proof fn law_window_scene_is_complete<T>(window: WindowElements<T>)
    ensures
        ({
            let scene = window_scene(window);
            let (popups, client) = (window.popups@.len() as int, window.client@.len() as int);
            let behind = backdrop_effects(window.effects@).len() as int;
            &&& scene.to_multiset() == window.popups@.to_multiset().add(
                window.client@.to_multiset(),
            ).add(effect_elements(window.effects@).to_multiset()).add(
                elements(window.backgrounds@).to_multiset(),
            ).add(elements(window.icons@).to_multiset()).add(
                elements(window.labels@).to_multiset(),
            )
            &&& scene.len() == popups + client + window.effects@.len() + window.backgrounds@.len()
                + window.icons@.len() + window.labels@.len()
            &&& forall|i: int| 0 <= i < popups ==> #[trigger] scene[i] == window.popups@[i]
            &&& forall|i: int|
                popups <= i < popups + client ==> #[trigger] scene[i] == window.client@[i - popups]
            &&& scene.skip(scene.len() - behind).to_multiset() == effect_elements(
                backdrop_effects(window.effects@),
            ).to_multiset()
        }),
{
    let ui = effects_of_kind(window.effects@, false);
    let back = effects_of_kind(window.effects@, true);
    let parts = ui + window.backgrounds@ + window.icons@ + window.labels@;
    let scene = window_scene(window);
    lemma_effects_are_split(window.effects@);
    lemma_in_order_elements(parts);
    lemma_in_order_elements(back);
    assert(elements(parts) =~= elements(ui) + elements(window.backgrounds@) + elements(
        window.icons@,
    ) + elements(window.labels@));
    vstd::seq_lib::lemma_multiset_commutative(elements(ui), elements(window.backgrounds@));
    vstd::seq_lib::lemma_multiset_commutative(
        elements(ui) + elements(window.backgrounds@),
        elements(window.icons@),
    );
    vstd::seq_lib::lemma_multiset_commutative(
        elements(ui) + elements(window.backgrounds@) + elements(window.icons@),
        elements(window.labels@),
    );
    vstd::seq_lib::lemma_multiset_commutative(window.popups@, window.client@);
    vstd::seq_lib::lemma_multiset_commutative(
        window.popups@ + window.client@,
        decoration_scene(window),
    );
    vstd::seq_lib::lemma_multiset_commutative(
        window.popups@ + window.client@ + decoration_scene(window),
        elements(in_order(back)),
    );
    assert(scene.to_multiset() =~= window.popups@.to_multiset().add(
        window.client@.to_multiset(),
    ).add(effect_elements(window.effects@).to_multiset()).add(
        elements(window.backgrounds@).to_multiset(),
    ).add(elements(window.icons@).to_multiset()).add(elements(window.labels@).to_multiset()));
    assert(elements(back).len() == effect_elements(backdrop_effects(window.effects@)).len());
    assert(scene.skip(scene.len() - elements(in_order(back)).len()) =~= elements(in_order(back)));
}

/// Whatever parts a window has, they are drawn by their orders: with more orders than one, an element of a
/// smaller order stands before one of a greater order, and elements of one order stand in their sequence,
/// those of the effects before those of the backgrounds, the icons, and the labels.
pub proof fn law_decoration_is_drawn_by_order<T>(window: WindowElements<T>) -> (sorted: Seq<(usize, T)>)
    ensures
        ({
            let (popups, client) = (window.popups@.len() as int, window.client@.len() as int);
            &&& forall|i: int, j: int|
                0 <= i < j < sorted.len() ==> (#[trigger] sorted[i]).0 <= (#[trigger] sorted[j]).0
            &&& forall|i: int|
                0 <= i < sorted.len() ==> window_scene(window)[popups + client + i]
                    == (#[trigger] sorted[i]).1
            &&& forall|order: usize| #[trigger]
                of_order(sorted, order) == of_order(effects_of_kind(window.effects@, false), order)
                    + of_order(window.backgrounds@, order) + of_order(window.icons@, order)
                    + of_order(window.labels@, order)
        }),
{
    let ui = effects_of_kind(window.effects@, false);
    let parts = ui + window.backgrounds@ + window.icons@ + window.labels@;
    let sorted = in_order(parts);
    law_in_order_is_stable(parts);
    assert forall|order: usize| #[trigger] of_order(sorted, order) == of_order(ui, order)
        + of_order(window.backgrounds@, order) + of_order(window.icons@, order) + of_order(
        window.labels@,
        order,
    ) by {
        lemma_of_order_concat(ui, window.backgrounds@, order);
        lemma_of_order_concat(ui + window.backgrounds@, window.icons@, order);
        lemma_of_order_concat(ui + window.backgrounds@ + window.icons@, window.labels@, order);
    }
    sorted
}

proof fn lemma_of_order_concat<T>(a: Seq<(usize, T)>, b: Seq<(usize, T)>, order: usize)
    ensures
        of_order(a + b, order) == of_order(a, order) + of_order(b, order),
    decreases b.len(),
{
    if b.len() == 0 {
        assert(a + b =~= a);
        assert(of_order(a, order) + of_order(b, order) =~= of_order(a, order));
    } else {
        assert((a + b).drop_last() =~= a + b.drop_last());
        lemma_of_order_concat(a, b.drop_last(), order);
        assert(of_order(a + b, order) =~= of_order(a, order) + of_order(b, order));
    }
}

/// Of each order there are the elements of that order, and no others: an element is found under its own order,
/// as often as it was given.
pub proof fn law_orders_hold_their_elements<T>(items: Seq<(usize, T)>, order: usize)
    ensures
        forall|k: int| 0 <= k < of_order(items, order).len() ==> (#[trigger] of_order(items, order)[k]).0
            == order,
        forall|item: (usize, T)| #[trigger]
            of_order(items, order).to_multiset().count(item) == (if item.0 == order {
                items.to_multiset().count(item)
            } else {
                0
            }),
    decreases items.len(),
{
    broadcast use vstd::seq_lib::group_to_multiset_ensures;

    if items.len() > 0 {
        let rest = items.drop_last();
        law_orders_hold_their_elements(rest, order);
        lemma_of_order_push(rest, items.last(), order);
        assert(rest.push(items.last()) =~= items);
    } else {
        assert(items =~= Seq::empty());
        assert(of_order(items, order) =~= Seq::empty());
    }
}

/// Sorting by orders puts smaller orders first, and loses and adds no element.
pub proof fn law_sorting_keeps_all<T>(items: Seq<(usize, T)>)
    ensures
        forall|i: int, j: int|
            0 <= i < j < in_order(items).len() ==> (#[trigger] in_order(items)[i]).0 <= (
            #[trigger] in_order(items)[j]).0,
        elements(in_order(items)).to_multiset() == elements(items).to_multiset(),
        forall|i: int| 0 <= i < items.len() ==> elements(items)[i] == (#[trigger] items[i]).1,
        elements(items).len() == items.len(),
{
    law_in_order_is_stable(items);
    lemma_in_order_elements(items);
}

/// A window that is not ready for its decoration shows its popups and its client, and nothing else. One that
/// is drawn as one picture shows its popups before the picture, and nothing else. Any other window shows its
/// whole scene.
pub proof fn law_planned_scenes<T>(
    plan: WindowPlan,
    window: WindowElements<T>,
    picture: Seq<T>,
    i: int,
)
    ensures
        ({
            let scene = planned_scene(plan, window, picture);
            let popups = window.popups@.len() as int;
            &&& 0 <= i < popups ==> scene[i] == window.popups@[i]
            &&& plan.use_full_window_snapshot ==> scene.len() == popups + picture.len() && (0 <= i
                < picture.len() ==> scene[popups + i] == picture[i])
            &&& !plan.use_full_window_snapshot ==> scene == ready_scene(plan, window) && (0 <= i
                < window.client@.len() ==> scene[popups + i] == window.client@[i])
            &&& !plan.use_full_window_snapshot && !plan.decoration_ready ==> scene.len() == popups
                + window.client@.len()
            &&& !plan.use_full_window_snapshot && plan.decoration_ready ==> scene == window_scene(
                window,
            )
        }),
{
    law_window_scene_is_complete(window);
    if 0 <= i < window.client@.len() {
        assert(window_scene(window)[window.popups@.len() + i] == window.client@[i]);
    }
    if 0 <= i < window.popups@.len() {
        assert(window_scene(window)[i] == window.popups@[i]);
    }
}

/// An effect above a window captures all that it is given of it: the decoration first, by its orders, then
/// the surfaces, and the popups last.
pub proof fn law_capture_scene_is_complete<T>(
    decoration: Option<(Seq<(usize, T)>, Seq<T>)>,
    popups: Seq<T>,
    i: int,
)
    ensures
        ({
            let scene = capture_scene(decoration, popups);
            match decoration {
                Some((ui, surfaces)) => {
                    &&& scene.len() == ui.len() + surfaces.len() + popups.len()
                    &&& scene.take(ui.len() as int).to_multiset() == elements(ui).to_multiset()
                    &&& 0 <= i < ui.len() ==> scene[i] == in_order(ui)[i].1
                    &&& 0 <= i < surfaces.len() ==> scene[ui.len() + i] == surfaces[i]
                    &&& 0 <= i < popups.len() ==> scene[ui.len() + surfaces.len() + i] == popups[i]
                },
                None => scene.len() == popups.len() && (0 <= i < popups.len() ==> scene[i]
                    == popups[i]),
            }
        }),
{
    if let Some((ui, surfaces)) = decoration {
        lemma_in_order_elements(ui);
        assert(capture_scene(decoration, popups).take(ui.len() as int) =~= elements(in_order(ui)));
    }
}

/// The scene of layers is that of each layer behind that of the layer before it, and of one layer it shows the
/// surfaces before the effect.
pub proof fn law_layer_scenes<T>(
    layer: LayerElements<T>,
    before: Seq<LayerElements<T>>,
    after: Seq<LayerElements<T>>,
)
    ensures
        layer_scene(seq![layer]) == layer.surfaces@ + layer.effect@,
        layer_scene(before + after) == layer_scene(before) + layer_scene(after),
    decreases after.len(),
{
    let one = seq![layer];
    assert(one.drop_last() =~= Seq::empty());
    assert(layer_scene(one.drop_last()) =~= Seq::empty());
    assert(layer_scene(one) =~= layer.surfaces@ + layer.effect@);
    if after.len() == 0 {
        assert(before + after =~= before);
        assert(layer_scene(before) + layer_scene(after) =~= layer_scene(before));
    } else {
        law_layer_scenes(layer, before, after.drop_last());
        assert((before + after).drop_last() =~= before + after.drop_last());
        assert(layer_scene(before + after) =~= layer_scene(before) + layer_scene(after));
    }
}

/// The layers below the windows are the background and the bottom layer. Surfaces that come later in a list
/// stand before those that come earlier, and each surface stands on one side of the windows, and on its own
/// layer.
pub proof fn law_later_surfaces_come_first(
    surface: (u32, Layer),
    earlier: Seq<(u32, Layer)>,
    later: Seq<(u32, Layer)>,
    below: bool,
    layer: Layer,
)
    ensures
        layers_of_kind(earlier + later, below) == layers_of_kind(later, below) + layers_of_kind(
            earlier,
            below,
        ),
        on_layer(earlier + later, layer) == on_layer(later, layer) + on_layer(earlier, layer),
        layers_of_kind(seq![surface], true) == (match surface.1 {
            Layer::Background | Layer::Bottom => seq![surface.0],
            Layer::Top | Layer::Overlay => Seq::empty(),
        }),
        layers_of_kind(seq![surface], false) == (match surface.1 {
            Layer::Background | Layer::Bottom => Seq::empty(),
            Layer::Top | Layer::Overlay => seq![surface.0],
        }),
        on_layer(seq![surface], surface.1) == seq![surface.0],
        layer != surface.1 ==> on_layer(seq![surface], layer) == Seq::<u32>::empty(),
    decreases earlier.len(),
{
    let one = seq![surface];
    assert(one.drop_first() =~= Seq::empty());
    assert(layers_of_kind(one.drop_first(), true) =~= Seq::empty());
    assert(layers_of_kind(one.drop_first(), false) =~= Seq::empty());
    assert(on_layer(one.drop_first(), layer) =~= Seq::empty());
    assert(on_layer(one.drop_first(), surface.1) =~= Seq::empty());
    assert(layers_of_kind(one, below_windows(surface.1)) =~= seq![surface.0]);
    assert(on_layer(one, surface.1) =~= seq![surface.0]);
    if earlier.len() == 0 {
        assert(earlier + later =~= later);
        assert(layers_of_kind(later, below) + layers_of_kind(earlier, below) =~= layers_of_kind(
            later,
            below,
        ));
        assert(on_layer(later, layer) + on_layer(earlier, layer) =~= on_layer(later, layer));
    } else {
        law_later_surfaces_come_first(surface, earlier.drop_first(), later, below, layer);
        assert((earlier + later).drop_first() =~= earlier.drop_first() + later);
        assert(layers_of_kind(earlier + later, below) =~= layers_of_kind(later, below)
            + layers_of_kind(earlier, below));
        assert(on_layer(earlier + later, layer) =~= on_layer(later, layer) + on_layer(
            earlier,
            layer,
        ));
    }
}

/// A frame starts with all damage that is pending, in its sequence, and with nothing else but the output; and
/// the whole output is damaged if that is forced, or while past damage is still marked.
pub proof fn law_frame_starts_with_pending_damage(
    pending: Seq<LogicalRect>,
    output: LogicalRect,
    force_full_damage: bool,
    blink_visible: bool,
    i: int,
)
    ensures
        ({
            let damage = initial_damage(pending, output, force_full_damage, blink_visible);
            &&& damage.len() >= pending.len()
            &&& 0 <= i < pending.len() ==> damage[i] == pending[i]
            &&& pending.len() <= i < damage.len() ==> damage[i] == output
            &&& force_full_damage || blink_visible ==> damage.contains(output)
            &&& !force_full_damage && !blink_visible ==> damage == pending
        }),
{
    let damage = initial_damage(pending, output, force_full_damage, blink_visible);
    if force_full_damage || blink_visible {
        assert(damage[pending.len() as int] == output);
    } else {
        assert(damage =~= pending);
    }
}

/// A window takes part in a frame unless it is closing or its client has no contents. It is drawn as one
/// picture exactly if it is moved, scaled or faded; its picture is damaged exactly if it is marked so or some
/// damage comes from the window; and its decoration shows exactly once the window was drawn before.
pub proof fn law_windows_are_planned(
    state: FrameState,
    window: WindowFacts,
    damage: Seq<OwnedDamageRect>,
    i: int,
)
    ensures
        state.closing@.contains(window.id@) ==> !state.draws(window),
        window.surface_count == 0 ==> !state.draws(window),
        !state.closing@.contains(window.id@) && window.surface_count > 0 ==> state.draws(window),
        state.plan_for(window, damage).use_full_window_snapshot == !window.identity_visual,
        state.plan_for(window, damage).decoration_ready == state.ready_for_decoration@.contains(
            window.id@,
        ),
        state.snapshot_dirty@.contains(window.id@) ==> state.plan_for(
            window,
            damage,
        ).has_snapshot_damage,
        0 <= i < damage.len() && damage[i].owner@ == window.id@ ==> state.plan_for(
            window,
            damage,
        ).has_snapshot_damage,
        !state.snapshot_dirty@.contains(window.id@) && (forall|k: int|
            0 <= k < damage.len() ==> (#[trigger] damage[k]).owner@ != window.id@)
            ==> !state.plan_for(window, damage).has_snapshot_damage,
{
}

/// Planning a window keeps the damage of the frame, and adds to it at most the place where the window is
/// drawn: exactly if the window begins or ends to be drawn as one picture, or is drawn so and its picture is
/// damaged. Which windows were drawn as one picture changes for this window alone.
pub proof fn law_planning_adds_damage_of_the_window(
    before: FrameState,
    after: FrameState,
    window: WindowFacts,
    damage: Seq<OwnedDamageRect>,
    other: Seq<char>,
)
    requires
        after.follows_entering(&before, window, damage),
    ensures
        after.extra_damage@ == before.extra_damage@ || after.extra_damage@
            == before.extra_damage@.push(window.visual_rect),
        window.identity_visual && before.transform_snapshots@.contains(window.id@)
            ==> after.extra_damage@ == before.extra_damage@.push(window.visual_rect),
        !window.identity_visual && !before.transform_snapshots@.contains(window.id@)
            ==> after.extra_damage@ == before.extra_damage@.push(window.visual_rect),
        !window.identity_visual && before.plan_for(window, damage).has_snapshot_damage
            ==> after.extra_damage@ == before.extra_damage@.push(window.visual_rect)
            && after.had_transform_snapshot_damage,
        window.identity_visual && !before.transform_snapshots@.contains(window.id@)
            ==> after.extra_damage@ == before.extra_damage@,
        !window.identity_visual && before.transform_snapshots@.contains(window.id@)
            && !before.plan_for(window, damage).has_snapshot_damage ==> after.extra_damage@
            == before.extra_damage@,
        before.had_transform_snapshot_damage ==> after.had_transform_snapshot_damage,
        window.identity_visual ==> after.had_transform_snapshot_damage
            == before.had_transform_snapshot_damage && after.transform_snapshot_count
            == before.transform_snapshot_count,
        after.transform_snapshots@.contains(window.id@) == !window.identity_visual,
        other != window.id@ ==> after.transform_snapshots@.contains(other)
            == before.transform_snapshots@.contains(other),
        !window.identity_visual && before.transform_snapshot_count < usize::MAX
            ==> after.transform_snapshot_count == before.transform_snapshot_count + 1,
        after.closing@ == before.closing@,
        after.snapshot_dirty@ == before.snapshot_dirty@,
        after.ready_for_decoration@ == before.ready_for_decoration@,
{
}

/// Drawing a window makes it ready for its decoration, and no other one.
pub proof fn law_drawing_readies_one_window(
    before: FrameState,
    after: FrameState,
    window: WindowFacts,
    other: Seq<char>,
)
    requires
        after.follows_leaving(&before, window),
    ensures
        after.ready_for_decoration@.contains(window.id@),
        other != window.id@ ==> after.ready_for_decoration@.contains(other)
            == before.ready_for_decoration@.contains(other),
        after.extra_damage@ == before.extra_damage@,
        after.snapshot_dirty@ == before.snapshot_dirty@,
        after.transform_snapshots@ == before.transform_snapshots@,
        after.closing@ == before.closing@,
{
}

} // verus!
