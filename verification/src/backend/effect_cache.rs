//! Captured textures of background effects, and the damage that makes them stale.

use crate::backend::effect::{EffectInputs, OwnedDamageRect, WindowContributor};
use crate::backend::window::{region_rects_within_bounds, RegionOp};
use crate::geometry::LogicalRect;
use crate::handlers::layer_owner;
use crate::keymap::KeyMap;
use crate::strings::{begins_with, same_text};
use vstd::prelude::*;

verus! {

/// The list holds the text.
pub open spec fn lists(owners: Seq<String>, owner: Seq<char>) -> bool {
    exists|i: int| 0 <= i < owners.len() && (#[trigger] owners[i])@ == owner
}

/// Whether a list holds a text.
pub fn is_listed(owners: &Vec<String>, owner: &str) -> (found: bool)
    ensures
        found == lists(owners@, owner@),
{
    let mut i: usize = 0;
    while i < owners.len()
        invariant
            i <= owners@.len(),
            forall|k: int| 0 <= k < i ==> (#[trigger] owners@[k])@ != owner@,
        decreases owners@.len() - i,
    {
        if same_text(owners[i].as_str(), owner) {
            return true;
        }
        i += 1;
    }
    false
}

/// The damage of the given owners, in its order.
pub open spec fn damage_of_owners(damage: Seq<OwnedDamageRect>, owners: Seq<String>) -> Seq<
    OwnedDamageRect,
> {
    crate::seqs::kept(damage, |entry: OwnedDamageRect| lists(owners, entry.owner@))
}

/// The damage whose owners have names of one kind, in its order.
pub open spec fn damage_of_kind(damage: Seq<OwnedDamageRect>, prefix: Seq<char>) -> Seq<
    OwnedDamageRect,
> {
    crate::seqs::kept(
        damage,
        |entry: OwnedDamageRect| crate::strings::has_prefix(entry.owner@, prefix),
    )
}

/// Picks the damage that comes from the given surfaces.
pub fn collect_source_damage(owners: &Vec<String>, source_damage: &Vec<OwnedDamageRect>) -> (found:
    Vec<OwnedDamageRect>)
    ensures
        found@ == damage_of_owners(source_damage@, owners@),
{
    let mut found: Vec<OwnedDamageRect> = Vec::new();
    let mut i: usize = 0;
    let ghost keep = |entry: OwnedDamageRect| lists(owners@, entry.owner@);
    while i < source_damage.len()
        invariant
            i <= source_damage@.len(),
            keep == (|entry: OwnedDamageRect| lists(owners@, entry.owner@)),
            found@ == crate::seqs::kept(source_damage@.take(i as int), keep),
        decreases source_damage@.len() - i,
    {
        let entry = &source_damage[i];
        proof {
            crate::seqs::lemma_kept_step(source_damage@, keep, i as int);
        }
        if is_listed(owners, entry.owner.as_str()) {
            found.push(OwnedDamageRect { owner: entry.owner.clone(), rect: entry.rect });
        }
        i += 1;
    }
    assert(source_damage@.take(i as int) == source_damage@);
    found
}

fn append_damage_of_kind(out: &mut Vec<OwnedDamageRect>, damage: &Vec<OwnedDamageRect>, prefix: &str)
    ensures
        final(out)@ == old(out)@ + damage_of_kind(damage@, prefix@),
{
    let ghost start = out@;
    let ghost keep = |entry: OwnedDamageRect| crate::strings::has_prefix(entry.owner@, prefix@);
    let mut i: usize = 0;
    assert(start + crate::seqs::kept(damage@.take(0), keep) =~= start);
    while i < damage.len()
        invariant
            i <= damage@.len(),
            keep == (|entry: OwnedDamageRect|
                crate::strings::has_prefix(entry.owner@, prefix@)),
            out@ == start + crate::seqs::kept(damage@.take(i as int), keep),
        decreases damage@.len() - i,
    {
        let entry = &damage[i];
        proof {
            crate::seqs::lemma_kept_step(damage@, keep, i as int);
        }
        if begins_with(entry.owner.as_str(), prefix) {
            out.push(OwnedDamageRect { owner: entry.owner.clone(), rect: entry.rect });
            assert(out@ =~= start + crate::seqs::kept(damage@.take(i + 1), keep));
        }
        i += 1;
    }
    assert(damage@.take(i as int) == damage@);
}

/// The damage that an effect of a decoration reacts to: that of windows if it reads the whole
/// backdrop, then that of layers if it reads anything.
pub open spec fn backdrop_damage(relevant: Seq<OwnedDamageRect>, effect: EffectInputs) -> Seq<
    OwnedDamageRect,
> {
    (if effect.uses_backdrop {
        damage_of_kind(relevant, "window:"@)
    } else {
        Seq::empty()
    }) + (if effect.uses_backdrop || effect.uses_xray {
        damage_of_kind(relevant, "layer:"@)
    } else {
        Seq::empty()
    })
}

/// Picks the damage that an effect of a decoration reacts to.
pub fn window_backdrop_damage(relevant: &Vec<OwnedDamageRect>, effect: &EffectInputs) -> (entries:
    Vec<OwnedDamageRect>)
    ensures
        entries@ == backdrop_damage(relevant@, *effect),
{
    let mut entries: Vec<OwnedDamageRect> = Vec::new();
    if effect.uses_backdrop {
        append_damage_of_kind(&mut entries, relevant, "window:");
    }
    if effect.uses_backdrop || effect.uses_xray {
        append_damage_of_kind(&mut entries, relevant, "layer:");
    }
    assert(entries@ =~= backdrop_damage(relevant@, *effect));
    entries
}

/// Some of the damage shares a pixel with the rectangle.
pub open spec fn damage_meets(entries: Seq<OwnedDamageRect>, rect: LogicalRect) -> bool {
    exists|i: int|
        0 <= i < entries.len() && crate::backend::window::overlap(
            (#[trigger] entries[i]).rect,
            rect,
        )
}

/// Whether some of the damage shares a pixel with the rectangle.
pub fn source_damage_intersects_rect(entries: &Vec<OwnedDamageRect>, rect: LogicalRect) -> (hit: bool)
    ensures
        hit == damage_meets(entries@, rect),
{
    let left: i64 = rect.x as i64;
    let top: i64 = rect.y as i64;
    let right: i64 = left + rect.width as i64;
    let bottom: i64 = top + rect.height as i64;
    let mut i: usize = 0;
    while i < entries.len()
        invariant
            i <= entries@.len(),
            left == rect.x,
            top == rect.y,
            right == rect.right(),
            bottom == rect.bottom(),
            forall|k: int|
                0 <= k < i ==> !crate::backend::window::overlap(
                    (#[trigger] entries@[k]).rect,
                    rect,
                ),
        decreases entries@.len() - i,
    {
        let damage: LogicalRect = entries[i].rect;
        let x: i64 = damage.x as i64;
        let y: i64 = damage.y as i64;
        let x_end: i64 = x + damage.width as i64;
        let y_end: i64 = y + damage.height as i64;
        if x < x_end && left < right && x < right && left < x_end && y < y_end && top < bottom && y
            < bottom && top < y_end {
            assert(crate::backend::window::overlap(entries@[i as int].rect, rect));
            return true;
        }
        i += 1;
    }
    false
}

/// The damage that an effect reacts to, of the windows and layers below it.
pub open spec fn effect_damage(
    effect: EffectInputs,
    window_damage: Seq<OwnedDamageRect>,
    window_owners: Seq<String>,
    layer_damage: Seq<OwnedDamageRect>,
    layer_owners: Seq<String>,
) -> Seq<OwnedDamageRect> {
    (if effect.uses_backdrop {
        damage_of_owners(window_damage, window_owners)
    } else {
        Seq::empty()
    }) + (if effect.uses_backdrop || effect.uses_xray {
        damage_of_owners(layer_damage, layer_owners)
    } else {
        Seq::empty()
    })
}

/// Picks the damage that an effect reacts to.
pub fn relevant_source_damage(
    effect: &EffectInputs,
    window_damage: &Vec<OwnedDamageRect>,
    window_owners: &Vec<String>,
    layer_damage: &Vec<OwnedDamageRect>,
    layer_owners: &Vec<String>,
) -> (entries: Vec<OwnedDamageRect>)
    ensures
        entries@ == effect_damage(
            *effect,
            window_damage@,
            window_owners@,
            layer_damage@,
            layer_owners@,
        ),
{
    let mut entries: Vec<OwnedDamageRect> = Vec::new();
    if effect.uses_backdrop {
        let mut windows = collect_source_damage(window_owners, window_damage);
        entries.append(&mut windows);
    }
    if effect.uses_backdrop || effect.uses_xray {
        let mut layers = collect_source_damage(layer_owners, layer_damage);
        entries.append(&mut layers);
    }
    assert(entries@ =~= effect_damage(
        *effect,
        window_damage@,
        window_owners@,
        layer_damage@,
        layer_owners@,
    ));
    entries
}

/// No damage reaches an effect from a surface that is not below it, or that it does not read.
pub proof fn law_unrelated_damage_is_ignored(
    effect: EffectInputs,
    window_damage: Seq<OwnedDamageRect>,
    window_owners: Seq<String>,
    layer_damage: Seq<OwnedDamageRect>,
    layer_owners: Seq<String>,
    i: int,
)
    requires
        0 <= i < effect_damage(
            effect,
            window_damage,
            window_owners,
            layer_damage,
            layer_owners,
        ).len(),
    ensures
        ({
            let owner = effect_damage(
                effect,
                window_damage,
                window_owners,
                layer_damage,
                layer_owners,
            )[i].owner@;
            (effect.uses_backdrop && lists(window_owners, owner)) || ((effect.uses_backdrop
                || effect.uses_xray) && lists(layer_owners, owner))
        }),
{
    crate::seqs::lemma_kept_items(
        window_damage,
        |entry: OwnedDamageRect| lists(window_owners, entry.owner@),
    );
    crate::seqs::lemma_kept_items(
        layer_damage,
        |entry: OwnedDamageRect| lists(layer_owners, entry.owner@),
    );
}

/// All damage that comes from a surface below an effect, of a kind that the effect reads, reaches the effect, and
/// nothing that it does not read does.
pub proof fn law_damage_below_reaches_the_effect(
    effect: EffectInputs,
    window_damage: Seq<OwnedDamageRect>,
    window_owners: Seq<String>,
    layer_damage: Seq<OwnedDamageRect>,
    layer_owners: Seq<String>,
    i: int,
    k: int,
)
    requires
        0 <= k,
    ensures
        ({
            let found = effect_damage(
                effect,
                window_damage,
                window_owners,
                layer_damage,
                layer_owners,
            );
            &&& effect.uses_backdrop && 0 <= i < window_damage.len() && k < window_owners.len()
                && window_owners[k]@ == window_damage[i].owner@ ==> found.contains(window_damage[i])
            &&& (effect.uses_backdrop || effect.uses_xray) && 0 <= i < layer_damage.len() && k
                < layer_owners.len() && layer_owners[k]@ == layer_damage[i].owner@
                ==> found.contains(layer_damage[i])
            &&& !effect.uses_backdrop && !effect.uses_xray ==> found.len() == 0
        }),
{
    let of_windows = |entry: OwnedDamageRect| lists(window_owners, entry.owner@);
    let of_layers = |entry: OwnedDamageRect| lists(layer_owners, entry.owner@);
    crate::seqs::lemma_kept_items(window_damage, of_windows);
    crate::seqs::lemma_kept_items(layer_damage, of_layers);
    let windows = crate::seqs::kept(window_damage, of_windows);
    let layers = crate::seqs::kept(layer_damage, of_layers);
    let found = effect_damage(effect, window_damage, window_owners, layer_damage, layer_owners);
    if effect.uses_backdrop && 0 <= i < window_damage.len() && k < window_owners.len()
        && window_owners[k]@ == window_damage[i].owner@ {
        assert(of_windows(window_damage[i]));
        let j = choose|j: int| 0 <= j < windows.len() && windows[j] == window_damage[i];
        assert(found[j] == window_damage[i]);
    }
    if (effect.uses_backdrop || effect.uses_xray) && 0 <= i < layer_damage.len() && k
        < layer_owners.len() && layer_owners[k]@ == layer_damage[i].owner@ {
        assert(of_layers(layer_damage[i]));
        let j = choose|j: int| 0 <= j < layers.len() && layers[j] == layer_damage[i];
        let before = if effect.uses_backdrop {
            windows.len() as int
        } else {
            0
        };
        assert(found[before + j] == layer_damage[i]);
    }
}

/// An effect of a decoration reacts to exactly the damage of windows, if it reads the whole backdrop, and of
/// layers, if it reads anything: an entry counts by how its owner is named.
pub proof fn law_decoration_reacts_to_what_it_reads(
    relevant: Seq<OwnedDamageRect>,
    effect: EffectInputs,
    i: int,
)
    ensures
        ({
            let found = backdrop_damage(relevant, effect);
            &&& 0 <= i < relevant.len() && effect.uses_backdrop && crate::strings::has_prefix(
                relevant[i].owner@,
                "window:"@,
            ) ==> found.contains(relevant[i])
            &&& 0 <= i < relevant.len() && (effect.uses_backdrop || effect.uses_xray)
                && crate::strings::has_prefix(relevant[i].owner@, "layer:"@) ==> found.contains(
                relevant[i],
            )
            &&& 0 <= i < found.len() ==> relevant.contains(found[i]) && (effect.uses_backdrop
                && crate::strings::has_prefix(found[i].owner@, "window:"@) || (effect.uses_backdrop
                || effect.uses_xray) && crate::strings::has_prefix(found[i].owner@, "layer:"@))
        }),
{
    let of_windows = |entry: OwnedDamageRect|
        crate::strings::has_prefix(entry.owner@, "window:"@);
    let of_layers = |entry: OwnedDamageRect| crate::strings::has_prefix(entry.owner@, "layer:"@);
    crate::seqs::lemma_kept_items(relevant, of_windows);
    crate::seqs::lemma_kept_items(relevant, of_layers);
    let windows = crate::seqs::kept(relevant, of_windows);
    let layers = crate::seqs::kept(relevant, of_layers);
    let found = backdrop_damage(relevant, effect);
    let before = if effect.uses_backdrop {
        windows.len() as int
    } else {
        0
    };
    if 0 <= i < relevant.len() && effect.uses_backdrop && of_windows(relevant[i]) {
        let j = choose|j: int| 0 <= j < windows.len() && windows[j] == relevant[i];
        assert(found[j] == relevant[i]);
    }
    if 0 <= i < relevant.len() && (effect.uses_backdrop || effect.uses_xray) && of_layers(
        relevant[i],
    ) {
        let j = choose|j: int| 0 <= j < layers.len() && layers[j] == relevant[i];
        assert(found[before + j] == relevant[i]);
    }
    if 0 <= i < found.len() {
        if i < before {
            assert(found[i] == windows[i]);
        } else {
            assert(found[i] == layers[i - before]);
        }
    }
}

/// Damage meets a rectangle exactly if one of its entries shares a pixel with it.
pub proof fn law_damage_meets_in_a_pixel(entries: Seq<OwnedDamageRect>, rect: LogicalRect)
    ensures
        damage_meets(entries, rect) <==> exists|i: int, px: int, py: int|
            0 <= i < entries.len() && (#[trigger] entries[i]).rect.contains(px, py)
                && #[trigger] rect.contains(px, py),
{
    if damage_meets(entries, rect) {
        let i = choose|i: int|
            0 <= i < entries.len() && crate::backend::window::overlap(
                (#[trigger] entries[i]).rect,
                rect,
            );
        let (left, top, right, bottom) = crate::backend::window::overlap_edges(
            entries[i].rect,
            rect,
        );
        assert(entries[i].rect.contains(left, top) && rect.contains(left, top));
    }
}

/// The names of the damage of the layers below the one at `index`, in a list from top to bottom.
pub open spec fn owners_below(layers: Seq<u32>, index: int) -> Seq<Seq<char>> {
    if index < layers.len() {
        Seq::new(
            (layers.len() - index - 1) as nat,
            |i: int| crate::strings::digits(layers[index + 1 + i] as nat),
        )
    } else {
        Seq::empty()
    }
}

/// Lists the names of the damage of the layers below the one at `index`.
pub fn layer_owners_below(layers: &Vec<u32>, index: usize) -> (owners: Vec<String>)
    ensures
        crate::seqs::texts(owners@) == owners_below(layers@, index as int),
{
    let mut owners: Vec<String> = Vec::new();
    if index >= layers.len() {
        assert(crate::seqs::texts(owners@) =~= owners_below(layers@, index as int));
        return owners;
    }
    let mut i: usize = index + 1;
    while i < layers.len()
        invariant
            index < i <= layers@.len(),
            owners@.len() == i - index - 1,
            forall|k: int|
                0 <= k < owners@.len() ==> (#[trigger] owners@[k])@ == crate::strings::digits(
                    layers@[index + 1 + k] as nat,
                ),
        decreases layers@.len() - i,
    {
        owners.push(layer_owner(layers[i]));
        i += 1;
    }
    assert(crate::seqs::texts(owners@) =~= owners_below(layers@, index as int));
    owners
}

/// The windows below the one at `index`, in a list from top to bottom.
pub open spec fn windows_after(windows: Seq<WindowContributor>, index: int) -> Seq<
    WindowContributor,
> {
    if index < windows.len() {
        windows.skip(index + 1)
    } else {
        Seq::empty()
    }
}

/// Below a window lie all windows that come after it in the list, in their order; neither itself nor any above.
pub proof fn law_windows_below_come_after(windows: Seq<WindowContributor>, index: int, i: int)
    requires
        0 <= index < windows.len(),
    ensures
        windows_after(windows, index).len() == windows.len() - index - 1,
        0 <= i < windows.len() - index - 1 ==> windows_after(windows, index)[i] == windows[index + 1
            + i],
{
}

/// Below a layer lie all layers that come after it in the list, in their order; neither itself nor any above.
pub proof fn law_layers_below_come_after(layers: Seq<u32>, index: int, i: int)
    requires
        0 <= index < layers.len(),
    ensures
        owners_below(layers, index).len() == layers.len() - index - 1,
        0 <= i < layers.len() - index - 1 ==> owners_below(layers, index)[i]
            == crate::strings::digits(layers[index + 1 + i] as nat),
{
}

/// The windows below the one at `index`, in a list from top to bottom.
pub fn lower_windows(windows: &Vec<WindowContributor>, index: usize) -> (lower: Vec<
    WindowContributor,
>)
    ensures
        lower@ == windows_after(windows@, index as int),
{
    let mut lower: Vec<WindowContributor> = Vec::new();
    if index >= windows.len() {
        return lower;
    }
    let mut i: usize = index + 1;
    while i < windows.len()
        invariant
            index < i <= windows@.len(),
            lower@ == windows@.subrange(index + 1, i as int),
        decreases windows@.len() - i,
    {
        lower.push(WindowContributor { id: windows[i].id.clone(), rect: windows[i].rect });
        i += 1;
        assert(windows@.subrange(index + 1, i as int) == windows@.subrange(
            index + 1,
            i - 1,
        ).push(windows@[i - 1]));
    }
    assert(windows@.subrange(index + 1, i as int) == windows@.skip(index + 1));
    lower
}

/// The rectangles of a region inside a surface of the given size, moved to where it stands.
pub open spec fn surface_effect_rects(
    region: Seq<RegionOp>,
    width: i32,
    height: i32,
    x: int,
    y: int,
) -> Seq<LogicalRect> {
    let local = crate::backend::window::region_rects(
        region,
        LogicalRect { x: 0, y: 0, width, height },
    );
    Seq::new(local.len(), |i: int| local[i].moved(x, y))
}

fn moved_region_rects(region: &Vec<RegionOp>, width: i32, height: i32, x: i32, y: i32) -> (rects:
    Vec<LogicalRect>)
    requires
        crate::backend::window::ops_fit(region@),
        x + width <= i32::MAX,
        y + height <= i32::MAX,
    ensures
        rects@ == surface_effect_rects(region@, width, height, x as int, y as int),
{
    let bounds = LogicalRect::new(0, 0, width, height);
    let local = region_rects_within_bounds(region, bounds);
    let mut rects: Vec<LogicalRect> = Vec::new();
    let mut i: usize = 0;
    while i < local.len()
        invariant
            i <= local@.len(),
            bounds == (LogicalRect { x: 0, y: 0, width, height }),
            x + width <= i32::MAX,
            y + height <= i32::MAX,
            crate::backend::window::all_solid(local@),
            forall|px: int, py: int|
                #[trigger] crate::backend::window::covers(local@, px, py) ==> bounds.contains(
                    px,
                    py,
                ),
            local@ == crate::backend::window::region_rects(region@, bounds),
            rects@.len() == i,
            forall|k: int| 0 <= k < i ==> rects@[k] == (#[trigger] local@[k]).moved(
                x as int,
                y as int,
            ),
        decreases local@.len() - i,
    {
        let rect = local[i];
        proof {
            let far_x = rect.right() - 1;
            let far_y = rect.bottom() - 1;
            assert(local@[i as int].contains(rect.x as int, rect.y as int));
            assert(local@[i as int].contains(far_x, far_y));
            assert(crate::backend::window::covers(local@, rect.x as int, rect.y as int));
            assert(crate::backend::window::covers(local@, far_x, far_y));
            assert(bounds.contains(rect.x as int, rect.y as int));
        }
        rects.push(rect.translate(x, y));
        i += 1;
    }
    assert(rects@ =~= surface_effect_rects(region@, width, height, x as int, y as int));
    rects
}

/// Where a window's blur region lies: the region inside the client area, in compositor space.
pub fn protocol_background_effect_rects_for_window(
    region: &Vec<RegionOp>,
    client_rect: LogicalRect,
) -> (rects: Vec<LogicalRect>)
    requires
        crate::backend::window::ops_fit(region@),
        client_rect.edges_fit(),
    ensures
        rects@ == surface_effect_rects(
            region@,
            client_rect.width,
            client_rect.height,
            client_rect.x as int,
            client_rect.y as int,
        ),
{
    moved_region_rects(
        region,
        client_rect.width,
        client_rect.height,
        client_rect.x,
        client_rect.y,
    )
}

/// Where a layer's blur region lies. `layer` is the layer's geometry on an output whose corner is
/// at `output_x` and `output_y`.
pub fn protocol_background_effect_rects_for_layer(
    region: &Vec<RegionOp>,
    layer: LogicalRect,
    output_x: i32,
    output_y: i32,
) -> (rects: Vec<LogicalRect>)
    requires
        crate::backend::window::ops_fit(region@),
        layer.moves(output_x as int, output_y as int),
        layer.moved(output_x as int, output_y as int).edges_fit(),
    ensures
        rects@ == surface_effect_rects(
            region@,
            layer.width,
            layer.height,
            output_x + layer.x,
            output_y + layer.y,
        ),
{
    moved_region_rects(
        region,
        layer.width,
        layer.height,
        output_x + layer.x,
        output_y + layer.y,
    )
}

/// The effect of a surface covers exactly the pixels of its region that lie inside the surface.
pub proof fn law_surface_effect_is_region_in_surface(
    region: Seq<RegionOp>,
    width: i32,
    height: i32,
    x: i32,
    y: i32,
    px: int,
    py: int,
)
    requires
        crate::backend::window::ops_fit(region),
        x + width <= i32::MAX,
        y + height <= i32::MAX,
    ensures
        crate::backend::window::covers(
            surface_effect_rects(region, width, height, x as int, y as int),
            px + x,
            py + y,
        ) <==> 0 <= px < width && 0 <= py < height && crate::backend::window::region_contains(
            region,
            px,
            py,
        ),
{
    let bounds = LogicalRect { x: 0, y: 0, width, height };
    let local = crate::backend::window::region_rects(region, bounds);
    let moved = surface_effect_rects(region, width, height, x as int, y as int);
    crate::backend::window::law_region_rects_are_the_region(region, bounds);
    assert forall|i: int| 0 <= i < local.len() implies (#[trigger] moved[i]).contains(
        px + x,
        py + y,
    ) <==> local[i].contains(px, py) by {
        let rect = local[i];
        let far_x = rect.right() - 1;
        let far_y = rect.bottom() - 1;
        assert(rect.contains(rect.x as int, rect.y as int));
        assert(rect.contains(far_x, far_y));
        assert(crate::backend::window::covers(local, rect.x as int, rect.y as int));
        assert(crate::backend::window::covers(local, far_x, far_y));
        assert(bounds.contains(rect.x as int, rect.y as int));
        assert(bounds.contains(far_x, far_y));
    }
    if crate::backend::window::covers(local, px, py) {
        let i = choose|i: int| 0 <= i < local.len() && (#[trigger] local[i]).contains(px, py);
        assert(moved[i].contains(px + x, py + y));
    }
}

/// Which texture an effect reads.
#[derive(Clone, Copy, Debug, PartialEq, Eq, Structural)]
pub enum EffectTexture {
    Backdrop,
    Xray,
    White,
}

/// The texture that an effect reads.
pub open spec fn input_of(backdrop_captured: bool, xray_captured: bool) -> EffectTexture {
    if backdrop_captured {
        EffectTexture::Backdrop
    } else if xray_captured {
        EffectTexture::Xray
    } else {
        EffectTexture::White
    }
}

/// An effect reads the backdrop wherever that was captured, the layers only without it, and plain white only
/// where nothing was captured.
pub proof fn law_backdrop_goes_before_layers(backdrop_captured: bool, xray_captured: bool)
    ensures
        input_of(backdrop_captured, xray_captured) == EffectTexture::Backdrop <==> backdrop_captured,
        input_of(backdrop_captured, xray_captured) == EffectTexture::White <==> !backdrop_captured
            && !xray_captured,
        input_of(false, true) == EffectTexture::Xray,
{
}

/// The texture that an effect reads: what was captured of the backdrop, else of the layers below,
/// else plain white.
pub fn effect_input_texture(backdrop_captured: bool, xray_captured: bool) -> (texture: EffectTexture)
    ensures
        texture == input_of(backdrop_captured, xray_captured),
{
    if backdrop_captured {
        EffectTexture::Backdrop
    } else if xray_captured {
        EffectTexture::Xray
    } else {
        EffectTexture::White
    }
}

/// A counter one step on; the largest value is followed by zero.
pub open spec fn next_commit(n: usize) -> usize {
    if n == usize::MAX {
        0
    } else {
        (n + 1) as usize
    }
}

/// A captured texture: what it was captured of, and how often it changed.
pub struct CachedBackdropTexture {
    pub signature: u64,
    pub commit_counter: usize,
    /// How often the parts that are drawn of it changed.
    pub sub_elements: KeyMap<usize>,
}

/// The captured textures by their keys.
pub struct BackdropCache {
    textures: KeyMap<CachedBackdropTexture>,
}

/// The counters of the drawn parts after a new capture. A part that was never drawn starts at
/// zero; the others count on if there was a texture before.
pub open spec fn counted_parts(
    counters: Map<Seq<char>, usize>,
    parts: Seq<Seq<char>>,
    had_existing: bool,
) -> Map<Seq<char>, usize>
    decreases parts.len(),
{
    if parts.len() == 0 {
        counters
    } else {
        let before = counted_parts(counters, parts.drop_last(), had_existing);
        let part = parts.last();
        let count = if before.dom().contains(part) {
            before[part]
        } else {
            0
        };
        before.insert(
            part,
            if had_existing {
                next_commit(count)
            } else {
                count
            },
        )
    }
}

impl View for BackdropCache {
    type V = Map<Seq<char>, CachedBackdropTexture>;

    closed spec fn view(&self) -> Map<Seq<char>, CachedBackdropTexture> {
        self.textures@
    }
}

impl BackdropCache {
    /// Every key occurs once, here and in every texture.
    pub closed spec fn wf(&self) -> bool {
        &&& self.textures.wf()
        &&& forall|key: Seq<char>| #[trigger]
            self.textures@.dom().contains(key) ==> self.textures@[key].sub_elements.wf()
    }

    /// The commit counter of the next capture under a key.
    pub open spec fn next_counter(&self, key: Seq<char>) -> usize {
        if self@.dom().contains(key) {
            next_commit(self@[key].commit_counter)
        } else {
            0
        }
    }

    /// The counters of the drawn parts under a key.
    pub open spec fn part_counters(&self, key: Seq<char>) -> Map<Seq<char>, usize> {
        if self@.dom().contains(key) {
            self@[key].sub_elements@
        } else {
            Map::empty()
        }
    }

    /// How often the texture under a key has changed.
    pub open spec fn counter_of(&self, key: Seq<char>) -> usize {
        if self@.dom().contains(key) {
            self@[key].commit_counter
        } else {
            0
        }
    }

    /// How often a drawn part of the texture under a key has changed.
    pub open spec fn counter_of_part(&self, key: Seq<char>, part: Seq<char>) -> usize {
        if self.part_counters(key).dom().contains(part) {
            self.part_counters(key)[part]
        } else {
            0
        }
    }

    /// The texture under the key can be drawn again: the effect is not drawn anew in every frame,
    /// nothing that it reads was damaged, and it was captured of the same things.
    pub open spec fn reusable(
        &self,
        key: Seq<char>,
        always_invalidate: bool,
        damage_hit: bool,
        signature: u64,
    ) -> bool {
        !always_invalidate && !damage_hit && self@.dom().contains(key) && self@[key].signature
            == signature
    }

    /// A cache without textures.
    pub fn new() -> (cache: BackdropCache)
        ensures
            cache.wf(),
            cache@ == Map::<Seq<char>, CachedBackdropTexture>::empty(),
    {
        BackdropCache { textures: KeyMap::new() }
    }

    /// Whether the texture under a key can be drawn again.
    pub fn can_reuse(
        &self,
        key: &str,
        effect: &EffectInputs,
        damage_hit: bool,
        signature: u64,
    ) -> (reuse: bool)
        requires
            self.wf(),
        ensures
            reuse == self.reusable(key@, effect.always_invalidate, damage_hit, signature),
    {
        if effect.always_invalidate || damage_hit {
            return false;
        }
        match self.textures.get(key) {
            Some(existing) => existing.signature == signature,
            None => false,
        }
    }

    /// How often the texture under a key has changed.
    pub fn commit_counter(&self, key: &str) -> (counter: usize)
        requires
            self.wf(),
        ensures
            counter == self.counter_of(key@),
    {
        match self.textures.get(key) {
            Some(existing) => existing.commit_counter,
            None => 0,
        }
    }

    /// How often a drawn part of the texture under a key has changed.
    pub fn part_counter(&self, key: &str, part: &str) -> (counter: usize)
        requires
            self.wf(),
        ensures
            counter == self.counter_of_part(key@, part@),
    {
        match self.textures.get(key) {
            Some(existing) => match existing.sub_elements.get(part) {
                Some(counter) => *counter,
                None => 0,
            },
            None => 0,
        }
    }

    /// Notes a new capture for an effect of a window.
    pub fn store_window_texture(&mut self, key: String, signature: u64)
        requires
            old(self).wf(),
        ensures
            final(self).wf(),
            final(self)@.dom() == old(self)@.dom().insert(key@),
            final(self)@[key@].signature == signature,
            final(self)@[key@].commit_counter == old(self).next_counter(key@),
            final(self)@[key@].sub_elements@ == Map::<Seq<char>, usize>::empty(),
            forall|other: Seq<char>|
                other != key@ && old(self)@.dom().contains(other) ==> #[trigger] final(self)@[other] == old(self)@[other],
    {
        let commit_counter: usize = match self.textures.get(key.as_str()) {
            Some(existing) => existing.commit_counter.wrapping_add(1),
            None => 0,
        };
        let texture = CachedBackdropTexture {
            signature,
            commit_counter,
            sub_elements: KeyMap::new(),
        };
        self.textures.insert(key, texture);
    }

    /// Notes a new capture for an effect of a layer, of which the given parts are drawn.
    pub fn store_layer_texture(&mut self, key: String, signature: u64, parts: &Vec<String>)
        requires
            old(self).wf(),
        ensures
            final(self).wf(),
            final(self)@.dom() == old(self)@.dom().insert(key@),
            final(self)@[key@].signature == signature,
            final(self)@[key@].commit_counter == old(self).next_counter(key@),
            final(self)@[key@].sub_elements@ == counted_parts(
                old(self).part_counters(key@),
                crate::seqs::texts(parts@),
                old(self)@.dom().contains(key@),
            ),
            forall|other: Seq<char>|
                other != key@ && old(self)@.dom().contains(other) ==> #[trigger] final(self)@[other] == old(self)@[other],
    {
        let ghost before = *self;
        let existing = self.textures.remove(key.as_str());
        let had_existing: bool = existing.is_some();
        let mut commit_counter: usize = 0;
        let mut sub_elements: KeyMap<usize> = KeyMap::new();
        if let Some(texture) = existing {
            commit_counter = texture.commit_counter.wrapping_add(1);
            sub_elements = texture.sub_elements;
        }
        let ghost counters = before.part_counters(key@);
        assert(sub_elements@ == counters);
        let ghost names = crate::seqs::texts(parts@);
        let mut i: usize = 0;
        assert(names.take(0) =~= Seq::<Seq<char>>::empty());
        while i < parts.len()
            invariant
                i <= parts@.len(),
                names == crate::seqs::texts(parts@),
                sub_elements.wf(),
                sub_elements@ == counted_parts(counters, names.take(i as int), had_existing),
            decreases parts@.len() - i,
        {
            assert(names.take(i + 1).drop_last() == names.take(i as int));
            assert(names.take(i + 1).last() == parts@[i as int]@);
            let count: usize = match sub_elements.get(parts[i].as_str()) {
                Some(count) => *count,
                None => 0,
            };
            let next: usize = if had_existing {
                count.wrapping_add(1)
            } else {
                count
            };
            sub_elements.insert(parts[i].clone(), next);
            i += 1;
        }
        assert(names.take(i as int) == names);
        self.textures.insert(key, CachedBackdropTexture { signature, commit_counter, sub_elements });
        assert(self@.dom() =~= before@.dom().insert(key@));
    }
}

/// A texture that was just stored can be drawn again as long as nothing changes, and not once its
/// signature changes.
pub proof fn law_stored_texture_is_found_again(
    cache: BackdropCache,
    key: Seq<char>,
    signature: u64,
    other: u64,
)
    requires
        cache@.dom().contains(key),
        cache@[key].signature == signature,
    ensures
        cache.reusable(key, false, false, signature),
        other != signature ==> !cache.reusable(key, false, false, other),
        !cache.reusable(key, true, false, signature),
        !cache.reusable(key, false, true, signature),
{
}

/// A new capture always shows: its counter differs from the one before.
pub proof fn law_capture_changes_counter(cache: BackdropCache, key: Seq<char>)
    requires
        cache@.dom().contains(key),
    ensures
        cache.next_counter(key) != cache@[key].commit_counter,
{
}

/// A part that is drawn once keeps in step with its texture: where there was a texture before,
/// every drawn part counts one on, and where there was none it starts at zero.
pub proof fn law_drawn_part_counts_on(
    counters: Map<Seq<char>, usize>,
    parts: Seq<Seq<char>>,
    had_existing: bool,
    at: int,
)
    requires
        0 <= at < parts.len(),
        forall|i: int, j: int|
            0 <= i < j < parts.len() ==> (#[trigger] parts[i]) != (#[trigger] parts[j]),
    ensures
        ({
            let part = parts[at];
            let start = if counters.dom().contains(part) {
                counters[part]
            } else {
                0
            };
            counted_parts(counters, parts, had_existing).dom().contains(part) && counted_parts(
                counters,
                parts,
                had_existing,
            )[part] == (if had_existing {
                next_commit(start)
            } else {
                start
            })
        }),
    decreases parts.len(),
{
    let head = parts.drop_last();
    assert forall|i: int, j: int| 0 <= i < j < head.len() implies (#[trigger] head[i]) != (
    #[trigger] head[j]) by {
        assert(parts[i] != parts[j]);
    }
    if at < head.len() {
        law_drawn_part_counts_on(counters, head, had_existing, at);
        assert(parts[at] != parts[parts.len() - 1]);
    } else {
        lemma_undrawn_part_stays(counters, head, had_existing, parts[at]);
    }
}

/// A part that is not drawn keeps its counter.
proof fn lemma_undrawn_part_stays(
    counters: Map<Seq<char>, usize>,
    parts: Seq<Seq<char>>,
    had_existing: bool,
    part: Seq<char>,
)
    requires
        forall|i: int| 0 <= i < parts.len() ==> (#[trigger] parts[i]) != part,
    ensures
        counted_parts(counters, parts, had_existing).dom().contains(part)
            == counters.dom().contains(part),
        counters.dom().contains(part) ==> counted_parts(counters, parts, had_existing)[part]
            == counters[part],
    decreases parts.len(),
{
    if parts.len() > 0 {
        let head = parts.drop_last();
        assert forall|i: int| 0 <= i < head.len() implies (#[trigger] head[i]) != part by {
            assert(parts[i] != part);
        }
        lemma_undrawn_part_stays(counters, head, had_existing, part);
        assert(parts[parts.len() - 1] != part);
    }
}

/// A texture that is not there cannot be drawn again, and one that is there can only under its own key.
pub proof fn law_missing_texture_is_not_reused(
    cache: BackdropCache,
    key: Seq<char>,
    always_invalidate: bool,
    damage_hit: bool,
    signature: u64,
)
    ensures
        !cache@.dom().contains(key) ==> !cache.reusable(
            key,
            always_invalidate,
            damage_hit,
            signature,
        ),
        cache.reusable(key, always_invalidate, damage_hit, signature) <==> (!always_invalidate
            && !damage_hit && cache@.dom().contains(key) && cache@[key].signature == signature),
{
}

/// The first capture under a key has the counter 0, and each later one counts one on.
pub proof fn law_captures_are_counted(cache: BackdropCache, key: Seq<char>)
    ensures
        !cache@.dom().contains(key) ==> cache.next_counter(key) == 0,
        cache@.dom().contains(key) && cache@[key].commit_counter < usize::MAX ==> cache.next_counter(
            key,
        ) == cache@[key].commit_counter + 1,
{
}

/// A part that is not drawn keeps its counter, and gets none if it had none.
pub proof fn law_undrawn_part_keeps_its_counter(
    counters: Map<Seq<char>, usize>,
    parts: Seq<Seq<char>>,
    had_existing: bool,
    part: Seq<char>,
)
    requires
        !parts.contains(part),
    ensures
        counted_parts(counters, parts, had_existing).dom().contains(part)
            == counters.dom().contains(part),
        counters.dom().contains(part) ==> counted_parts(counters, parts, had_existing)[part]
            == counters[part],
{
    lemma_undrawn_part_stays(counters, parts, had_existing, part);
}

/// A texture that is not there, and a part that was never drawn, has the counter 0, and any other one the counter that it was
/// kept with.
pub proof fn law_counters_are_those_that_were_kept(
    cache: BackdropCache,
    key: Seq<char>,
    part: Seq<char>,
)
    ensures
        !cache@.dom().contains(key) ==> cache.counter_of(key) == 0 && cache.counter_of_part(key, part)
            == 0,
        cache@.dom().contains(key) ==> cache.counter_of(key) == cache@[key].commit_counter,
        cache@.dom().contains(key) && cache@[key].sub_elements@.dom().contains(part)
            ==> cache.counter_of_part(key, part) == cache@[key].sub_elements@[part],
        cache@.dom().contains(key) && !cache@[key].sub_elements@.dom().contains(part)
            ==> cache.counter_of_part(key, part) == 0,
{
}

} // verus!
