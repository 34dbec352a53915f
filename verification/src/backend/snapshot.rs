//! Snapshots of windows.

use crate::backend::scene::can_reuse_complete_snapshot;
use crate::geometry::{saturating_sum, LogicalRect};
use crate::keymap::KeyMap;
use vstd::prelude::*;

verus! {

/// A picture of a window. `T` is the texture that holds it.
pub struct LiveWindowSnapshot<T> {
    pub id: u64,
    pub texture: T,
    pub rect: LogicalRect,
    pub z_index: usize,
    pub has_client_content: bool,
}

/// What is done to take a snapshot.
#[derive(Clone, Copy, Debug, PartialEq, Eq, Structural)]
pub enum SnapshotPlan {
    /// There is nothing to take.
    Nothing,
    /// The texture of the earlier snapshot is drawn over.
    Reuse,
    /// The earlier snapshot gets a new texture, and keeps its identity.
    Resize { width: i32, height: i32 },
    /// A new snapshot is made.
    Create { width: i32, height: i32 },
}

/// How a snapshot of a place is taken.
pub open spec fn planned_snapshot(
    rect: LogicalRect,
    width: i32,
    height: i32,
    existing: Option<(i32, i32)>,
) -> SnapshotPlan {
    if rect.width <= 0 || rect.height <= 0 || width <= 0 || height <= 0 {
        SnapshotPlan::Nothing
    } else {
        match existing {
            Some(size) => if size.0 == width && size.1 == height {
                SnapshotPlan::Reuse
            } else {
                SnapshotPlan::Resize { width, height }
            },
            None => SnapshotPlan::Create { width, height },
        }
    }
}

/// A snapshot is taken exactly if there are pixels to take. It is drawn over an earlier texture exactly if that has
/// the same size; a new texture has the size that is wanted, and a new snapshot is made only where there was none.
pub proof fn law_snapshots_have_the_size_of_their_place(
    rect: LogicalRect,
    width: i32,
    height: i32,
    existing: Option<(i32, i32)>,
)
    ensures
        planned_snapshot(rect, width, height, existing) is Nothing <==> rect.is_void() || width <= 0
            || height <= 0,
        planned_snapshot(rect, width, height, existing) is Reuse ==> existing == Some(
            (width, height),
        ),
        planned_snapshot(rect, width, height, existing) is Create ==> existing is None,
        planned_snapshot(rect, width, height, existing) is Resize ==> existing is Some && existing
            != Some((width, height)),
        planned_snapshot(rect, width, height, existing) matches SnapshotPlan::Create {
            width: w,
            height: h,
        } ==> w == width && h == height,
        planned_snapshot(rect, width, height, existing) matches SnapshotPlan::Resize {
            width: w,
            height: h,
        } ==> w == width && h == height,
{
}

/// Decides how a snapshot of a place is taken. `width` and `height` are its size in pixels,
/// `existing` the size of the texture of the earlier snapshot, if there is one.
pub fn plan_snapshot(rect: LogicalRect, width: i32, height: i32, existing: Option<(i32, i32)>) -> (plan:
    SnapshotPlan)
    ensures
        plan == planned_snapshot(rect, width, height, existing),
{
    if rect.width <= 0 || rect.height <= 0 || width <= 0 || height <= 0 {
        return SnapshotPlan::Nothing;
    }
    match existing {
        Some(size) => if size.0 == width && size.1 == height {
            SnapshotPlan::Reuse
        } else {
            SnapshotPlan::Resize { width, height }
        },
        None => SnapshotPlan::Create { width, height },
    }
}

/// The snapshot after it was taken as planned.
pub open spec fn taken_snapshot<T>(
    plan: SnapshotPlan,
    existing: Option<LiveWindowSnapshot<T>>,
    texture: Option<T>,
    fresh_id: u64,
    rect: LogicalRect,
    z_index: usize,
    has_client_content: bool,
) -> Option<LiveWindowSnapshot<T>> {
    let taken = match plan {
        SnapshotPlan::Nothing => false,
        SnapshotPlan::Reuse => existing is Some,
        SnapshotPlan::Resize { .. } => existing is Some && texture is Some,
        SnapshotPlan::Create { .. } => texture is Some,
    };
    if taken {
        Some(
            LiveWindowSnapshot {
                id: if plan is Create {
                    fresh_id
                } else {
                    existing->0.id
                },
                texture: if plan is Reuse {
                    existing->0.texture
                } else {
                    texture->0
                },
                rect,
                z_index,
                has_client_content,
            },
        )
    } else {
        None
    }
}

/// A snapshot that is taken over an earlier one keeps its identity, and so its element; a new one gets a new
/// identity. Drawing over keeps the texture, and otherwise the new texture is taken. In any case the snapshot shows
/// the place that it was taken of, and is taken unless the texture that it needs is missing.
pub proof fn law_snapshots_keep_their_identity<T>(
    plan: SnapshotPlan,
    existing: Option<LiveWindowSnapshot<T>>,
    texture: Option<T>,
    fresh_id: u64,
    rect: LogicalRect,
    z_index: usize,
    has_client_content: bool,
)
    ensures
        ({
            let taken = taken_snapshot(
                plan,
                existing,
                texture,
                fresh_id,
                rect,
                z_index,
                has_client_content,
            );
            &&& plan is Nothing ==> taken is None
            &&& plan is Reuse && existing is Some ==> taken is Some && taken->0.id == existing->0.id
                && taken->0.texture == existing->0.texture
            &&& plan is Resize && existing is Some && texture is Some ==> taken is Some
                && taken->0.id == existing->0.id && taken->0.texture == texture->0
            &&& plan is Create && texture is Some ==> taken is Some && taken->0.id == fresh_id
                && taken->0.texture == texture->0
            &&& plan is Create && texture is None ==> taken is None
            &&& plan is Resize && texture is None ==> taken is None
            &&& (plan is Reuse || plan is Resize) && existing is None ==> taken is None
            &&& taken is Some ==> taken->0.rect == rect && taken->0.z_index == z_index
                && taken->0.has_client_content == has_client_content
        }),
{
}

/// The snapshot after it was taken as planned. An earlier one keeps its identity; `fresh_id` is the
/// identity of a new one, `texture` the new texture where the plan asks for one and it was made.
pub fn capture_snapshot<T>(
    plan: SnapshotPlan,
    existing: Option<LiveWindowSnapshot<T>>,
    texture: Option<T>,
    fresh_id: u64,
    rect: LogicalRect,
    z_index: usize,
    has_client_content: bool,
) -> (snapshot: Option<LiveWindowSnapshot<T>>)
    ensures
        snapshot == taken_snapshot(
            plan,
            existing,
            texture,
            fresh_id,
            rect,
            z_index,
            has_client_content,
        ),
{
    match plan {
        SnapshotPlan::Nothing => None,
        SnapshotPlan::Reuse => match existing {
            Some(existing) => Some(
                LiveWindowSnapshot {
                    id: existing.id,
                    texture: existing.texture,
                    rect,
                    z_index,
                    has_client_content,
                },
            ),
            None => None,
        },
        SnapshotPlan::Resize { .. } => match (existing, texture) {
            (Some(existing), Some(texture)) => Some(
                LiveWindowSnapshot { id: existing.id, texture, rect, z_index, has_client_content },
            ),
            _ => None,
        },
        SnapshotPlan::Create { .. } => match texture {
            Some(texture) => Some(
                LiveWindowSnapshot { id: fresh_id, texture, rect, z_index, has_client_content },
            ),
            None => None,
        },
    }
}

/// A copy of a snapshot with a texture and an identity of its own.
pub fn duplicate_snapshot<T>(source: &LiveWindowSnapshot<T>, texture: T, fresh_id: u64) -> (copy:
    LiveWindowSnapshot<T>)
    ensures
        copy.id == fresh_id,
        copy.texture == texture,
        copy.rect == source.rect,
        copy.z_index == source.z_index,
        copy.has_client_content == source.has_client_content,
{
    LiveWindowSnapshot {
        id: fresh_id,
        texture,
        rect: source.rect,
        z_index: source.z_index,
        has_client_content: source.has_client_content,
    }
}

/// A transformed window lies on an output in part. Edges that cannot be written are cut to the
/// range of places.
pub open spec fn is_shown(rect: LogicalRect, output: LogicalRect) -> bool {
    &&& rect.x < crate::geometry::saturated(output.right())
    &&& output.x < crate::geometry::saturated(rect.right())
    &&& rect.y < crate::geometry::saturated(output.bottom())
    &&& output.y < crate::geometry::saturated(rect.bottom())
}

/// Whether the snapshot of a closing window is drawn on an output.
pub fn shows_on_output(rect: LogicalRect, output: LogicalRect) -> (shown: bool)
    ensures
        shown == is_shown(rect, output),
{
    rect.x < saturating_sum(output.x, output.width) && output.x < saturating_sum(
        rect.x,
        rect.width,
    ) && rect.y < saturating_sum(output.y, output.height) && output.y < saturating_sum(
        rect.y,
        rect.height,
    )
}

/// A snapshot is drawn wherever it shares a pixel with the output.
pub proof fn law_shared_pixel_is_shown(rect: LogicalRect, output: LogicalRect, x: int, y: int)
    requires
        rect.contains(x, y),
        output.contains(x, y),
        i32::MIN <= x < i32::MAX,
        i32::MIN <= y < i32::MAX,
    ensures
        is_shown(rect, output),
{
}

// ---- pictures of windows ------------------------------------------------------------------------

/// A picture of a window with all its parts, and the elements that it was made of.
pub struct WindowPicture<T> {
    pub snapshot: LiveWindowSnapshot<T>,
    /// Stands for the elements; a copy of a live snapshot has none.
    pub scene_signature: Option<u64>,
}

/// The pictures of the windows, by the windows' names.
pub struct WindowPictures<T> {
    /// The clients' contents.
    pub live: KeyMap<LiveWindowSnapshot<T>>,
    /// The windows with all their parts.
    pub complete: KeyMap<WindowPicture<T>>,
}

/// How the complete picture of a window comes about in a frame.
pub enum PictureStep<T> {
    /// The picture of an earlier frame is shown again.
    ShowAgain,
    /// A picture is taken, over the one of an earlier frame where there is one.
    Capture { existing: Option<LiveWindowSnapshot<T>> },
}

/// The picture of an earlier frame shows the window as it is: the window has no damage, and the
/// picture was made of the same elements.
pub open spec fn shows_again<T>(
    complete: Map<Seq<char>, WindowPicture<T>>,
    id: Seq<char>,
    damaged: bool,
    signature: u64,
) -> bool {
    !damaged && complete.contains_key(id) && complete[id].scene_signature == Some(signature)
}

/// How the complete picture of a window comes about in a frame.
pub open spec fn picture_step<T>(
    complete: Map<Seq<char>, WindowPicture<T>>,
    id: Seq<char>,
    damaged: bool,
    signature: u64,
) -> PictureStep<T> {
    if shows_again(complete, id, damaged, signature) {
        PictureStep::ShowAgain
    } else {
        PictureStep::Capture {
            existing: if complete.contains_key(id) {
                Some(complete[id].snapshot)
            } else {
                None
            },
        }
    }
}

/// A picture is shown again exactly if the window has no damage and there is a picture of the same elements. Otherwise one is
/// taken, over the earlier one where there is one.
pub proof fn law_pictures_are_taken_over_earlier_ones<T>(
    complete: Map<Seq<char>, WindowPicture<T>>,
    id: Seq<char>,
    damaged: bool,
    signature: u64,
)
    ensures
        picture_step(complete, id, damaged, signature) is ShowAgain <==> !damaged
            && complete.contains_key(id) && complete[id].scene_signature == Some(signature),
        picture_step(complete, id, damaged, signature) matches PictureStep::Capture { existing } ==> (
        existing is Some <==> complete.contains_key(id)) && (complete.contains_key(id) ==> existing
            == Some(complete[id].snapshot)),
{
}

/// The live snapshots after one was taken, if it could be.
pub open spec fn live_after<T>(
    live: Map<Seq<char>, LiveWindowSnapshot<T>>,
    id: Seq<char>,
    captured: Option<LiveWindowSnapshot<T>>,
) -> Map<Seq<char>, LiveWindowSnapshot<T>> {
    match captured {
        Some(snapshot) => live.insert(id, snapshot),
        None => live,
    }
}

/// The complete pictures after a live snapshot was taken.
pub open spec fn complete_after_live<T>(
    complete: Map<Seq<char>, WindowPicture<T>>,
    id: Seq<char>,
    captured: Option<LiveWindowSnapshot<T>>,
    copy: Option<LiveWindowSnapshot<T>>,
) -> Map<Seq<char>, WindowPicture<T>> {
    match (captured, copy) {
        (Some(snapshot), Some(copy)) => if snapshot.has_client_content {
            complete.insert(id, WindowPicture { snapshot: copy, scene_signature: None })
        } else {
            complete
        },
        _ => complete,
    }
}

/// The complete pictures after one was taken, if it could be.
pub open spec fn complete_after<T>(
    complete: Map<Seq<char>, WindowPicture<T>>,
    id: Seq<char>,
    captured: Option<LiveWindowSnapshot<T>>,
    signature: u64,
) -> Map<Seq<char>, WindowPicture<T>> {
    match captured {
        Some(snapshot) => complete.insert(
            id,
            WindowPicture { snapshot, scene_signature: Some(signature) },
        ),
        None => complete,
    }
}

/// A snapshot that was taken is there under the name of its window, and no other window loses or changes its own. A
/// copy of it becomes the complete picture exactly if the snapshot shows the client; such a picture is never taken for
/// one of the whole window. Without a snapshot everything stays as it is.
pub proof fn law_taken_pictures_are_kept<T>(
    live: Map<Seq<char>, LiveWindowSnapshot<T>>,
    complete: Map<Seq<char>, WindowPicture<T>>,
    id: Seq<char>,
    captured: LiveWindowSnapshot<T>,
    copy: LiveWindowSnapshot<T>,
    signature: u64,
    other: Seq<char>,
)
    ensures
        live_after(live, id, Some(captured)).contains_key(id) && live_after(
            live,
            id,
            Some(captured),
        )[id] == captured,
        live_after(live, id, None) == live,
        complete_after(complete, id, Some(captured), signature).contains_key(id)
            && complete_after(complete, id, Some(captured), signature)[id].snapshot == captured,
        shows_again(complete_after(complete, id, Some(captured), signature), id, false, signature),
        complete_after(complete, id, None, signature) == complete,
        captured.has_client_content ==> complete_after_live(
            complete,
            id,
            Some(captured),
            Some(copy),
        ).contains_key(id) && complete_after_live(
            complete,
            id,
            Some(captured),
            Some(copy),
        )[id].snapshot == copy && !shows_again(
            complete_after_live(complete, id, Some(captured), Some(copy)),
            id,
            false,
            signature,
        ),
        !captured.has_client_content ==> complete_after_live(
            complete,
            id,
            Some(captured),
            Some(copy),
        ) == complete,
        complete_after_live(complete, id, Some(captured), None) == complete,
        complete_after_live(complete, id, None, Some(copy)) == complete,
        other != id && live.contains_key(other) ==> live_after(live, id, Some(captured))[other]
            == live[other],
        other != id && complete.contains_key(other) ==> complete_after(
            complete,
            id,
            Some(captured),
            signature,
        )[other] == complete[other] && complete_after_live(
            complete,
            id,
            Some(captured),
            Some(copy),
        )[other] == complete[other],
{
}

impl<T> WindowPictures<T> {
    /// Every window has one picture of each kind.
    pub open spec fn wf(&self) -> bool {
        &&& self.live.wf()
        &&& self.complete.wf()
    }

    /// No pictures.
    pub fn new() -> (pictures: WindowPictures<T>)
        ensures
            pictures.wf(),
            pictures.live@ == Map::<Seq<char>, LiveWindowSnapshot<T>>::empty(),
            pictures.complete@ == Map::<Seq<char>, WindowPicture<T>>::empty(),
    {
        WindowPictures { live: KeyMap::new(), complete: KeyMap::new() }
    }

    /// Takes the live snapshot of a window out, to be drawn over.
    pub fn take_live(&mut self, id: &str) -> (existing: Option<LiveWindowSnapshot<T>>)
        requires
            old(self).wf(),
        ensures
            final(self).wf(),
            final(self).live@ == old(self).live@.remove(id@),
            final(self).complete == old(self).complete,
            existing == (if old(self).live@.contains_key(id@) {
                Some(old(self).live@[id@])
            } else {
                None
            }),
    {
        self.live.remove(id)
    }

    /// Notes the live snapshot that was taken, if it could be. Where it shows the client, its copy
    /// becomes the complete picture.
    pub fn live_taken(
        &mut self,
        id: &str,
        captured: Option<LiveWindowSnapshot<T>>,
        copy: Option<LiveWindowSnapshot<T>>,
    )
        requires
            old(self).wf(),
        ensures
            final(self).wf(),
            final(self).live@ == live_after(old(self).live@, id@, captured),
            final(self).complete@ == complete_after_live(old(self).complete@, id@, captured, copy),
    {
        if let Some(snapshot) = captured {
            let shows_client: bool = snapshot.has_client_content;
            self.live.insert(id.to_string(), snapshot);
            if shows_client {
                if let Some(copy) = copy {
                    self.complete.insert(
                        id.to_string(),
                        WindowPicture { snapshot: copy, scene_signature: None },
                    );
                }
            }
        }
    }

    /// Decides how the complete picture of a window comes about in a frame. One that cannot be
    /// shown again is taken out.
    pub fn complete_picture(&mut self, id: &str, damaged: bool, signature: u64) -> (step:
        PictureStep<T>)
        requires
            old(self).wf(),
        ensures
            final(self).wf(),
            final(self).live == old(self).live,
            step == picture_step(old(self).complete@, id@, damaged, signature),
            final(self).complete@ == (if step is ShowAgain {
                old(self).complete@
            } else {
                old(self).complete@.remove(id@)
            }),
    {
        let existing_signature: Option<u64> = match self.complete.get(id) {
            Some(picture) => picture.scene_signature,
            None => None,
        };
        if can_reuse_complete_snapshot(damaged, existing_signature, signature) {
            return PictureStep::ShowAgain;
        }
        let existing = match self.complete.remove(id) {
            Some(picture) => Some(picture.snapshot),
            None => None,
        };
        PictureStep::Capture { existing }
    }

    /// Notes the complete picture that was taken, if it could be.
    pub fn picture_taken(
        &mut self,
        id: &str,
        captured: Option<LiveWindowSnapshot<T>>,
        signature: u64,
    )
        requires
            old(self).wf(),
        ensures
            final(self).wf(),
            final(self).live == old(self).live,
            final(self).complete@ == complete_after(old(self).complete@, id@, captured, signature),
    {
        if let Some(snapshot) = captured {
            self.complete.insert(
                id.to_string(),
                WindowPicture { snapshot, scene_signature: Some(signature) },
            );
        }
    }
}

/// The picture that a frame took is shown again as long as the window has no damage and is made of
/// the same elements, and no longer.
pub proof fn law_picture_lasts_until_change<T>(
    complete: Map<Seq<char>, WindowPicture<T>>,
    id: Seq<char>,
    snapshot: LiveWindowSnapshot<T>,
    taken_of: u64,
    damaged: bool,
    signature: u64,
)
    ensures
        shows_again(
            complete.insert(id, WindowPicture { snapshot, scene_signature: Some(taken_of) }),
            id,
            damaged,
            signature,
        ) <==> !damaged && signature == taken_of,
{
}

/// A snapshot with pixels is drawn on an output only if it shares a pixel with it.
pub proof fn law_nothing_is_shown_elsewhere(rect: LogicalRect, output: LogicalRect)
    requires
        is_shown(rect, output),
        rect.edges_fit(),
        output.edges_fit(),
        !rect.is_void(),
        !output.is_void(),
    ensures
        exists|x: int, y: int| rect.contains(x, y) && #[trigger] output.contains(x, y),
{
    let x = crate::geometry::larger(rect.x as int, output.x as int);
    let y = crate::geometry::larger(rect.y as int, output.y as int);
    assert(rect.contains(x, y) && output.contains(x, y));
}

} // verus!
