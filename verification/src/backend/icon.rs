//! Icons of windows: where they come from, and which file is taken.

use crate::backend::async_buffers::{AsyncBuffers, BufferRequest};
use crate::backend::pixels::{can_scale, rgba_to_argb8888, scale_rgba, Picture};
use crate::geometry::{max_i32, LogicalRect};
use crate::hashing::{hash_i32, hash_text, hash_u64};
use crate::keymap::KeyMap;
use crate::numbers::{parse_i32, read_long};
use crate::paths::{path_components, path_extension, path_file_stem};
use crate::strings::{
    contains_text, ends_with, from_chars, lower_chars, push_i32, push_u64, same_text,
    slice_to_string, split_chars, to_chars,
};
use std::collections::hash_map::DefaultHasher;
use std::hash::Hasher;
use std::io::Cursor;
use vstd::prelude::*;

verus! {

/// The icon that a window brings along.
#[derive(Clone, Debug)]
pub struct WindowIconSnapshot {
    pub name: Option<String>,
    /// A PNG file.
    pub bytes: Option<Vec<u8>>,
}

/// An icon that is to be drawn.
#[derive(Clone, Debug)]
pub struct IconSpec {
    pub rect: LogicalRect,
    pub icon: Option<WindowIconSnapshot>,
    pub app_id: Option<String>,
}

/// The bytes of a drawn icon.
#[derive(Clone, Debug)]
pub struct RenderedIconPixels {
    pub width: i32,
    pub height: i32,
    pub pixels: Vec<u8>,
}

/// A drawn icon of a decoration.
#[derive(Clone, Debug)]
pub struct CachedDecorationIcon<B> {
    pub rect: LogicalRect,
    pub buffer: B,
}

/// The text, where there is one.
pub open spec fn text_of(text: Option<String>) -> Option<Seq<char>> {
    match text {
        Some(text) => Some(text@),
        None => None,
    }
}

/// The bytes, where there are some.
pub open spec fn bytes_of(bytes: Option<Vec<u8>>) -> Option<Seq<u8>> {
    match bytes {
        Some(bytes) => Some(bytes@),
        None => None,
    }
}

/// What a text that may be missing feeds to a hasher.
pub open spec fn text_option_writes(text: Option<Seq<char>>) -> Seq<Seq<u8>> {
    match text {
        Some(text) => seq![crate::hashing::u64_write(1)] + crate::hashing::text_writes(text),
        None => seq![crate::hashing::u64_write(0)],
    }
}

/// What an icon's bytes feed to a hasher: whether they are there, how many they are, and then
/// once more how many they are, and the bytes.
pub open spec fn bytes_option_writes(bytes: Option<Seq<u8>>) -> Seq<Seq<u8>> {
    match bytes {
        Some(bytes) => seq![
            crate::hashing::u64_write(1),
            crate::hashing::u64_write(bytes.len() as u64),
            crate::hashing::u64_write(bytes.len() as u64),
            bytes,
        ],
        None => seq![crate::hashing::u64_write(0)],
    }
}

/// What the icon of a window feeds to a hasher.
pub open spec fn icon_writes(icon: Option<WindowIconSnapshot>) -> Seq<Seq<u8>> {
    match icon {
        Some(icon) => text_option_writes(text_of(icon.name)) + bytes_option_writes(
            bytes_of(icon.bytes),
        ),
        None => Seq::empty(),
    }
}

/// What an icon that is to be drawn feeds to a hasher. The place of the icon does not count.
pub open spec fn icon_spec_writes(spec: IconSpec) -> Seq<Seq<u8>> {
    seq![
        crate::hashing::i32_write(spec.rect.width),
        crate::hashing::i32_write(spec.rect.height),
    ] + text_option_writes(text_of(spec.app_id)) + icon_writes(spec.icon)
}

fn hash_text_option(hasher: &mut DefaultHasher, text: &Option<String>)
    ensures
        final(hasher)@ == old(hasher)@ + text_option_writes(text_of(*text)),
{
    match text {
        Some(text) => {
            hash_u64(hasher, 1);
            hash_text(hasher, text.as_str());
        },
        None => {
            hash_u64(hasher, 0);
        },
    }
    assert(hasher@ =~= old(hasher)@ + text_option_writes(text_of(*text)));
}

fn hash_bytes_option(hasher: &mut DefaultHasher, bytes: &Option<Vec<u8>>)
    ensures
        final(hasher)@ == old(hasher)@ + bytes_option_writes(bytes_of(*bytes)),
{
    match bytes {
        Some(bytes) => {
            let count: u64 = bytes.len() as u64;
            hash_u64(hasher, 1);
            hash_u64(hasher, count);
            hash_u64(hasher, count);
            hasher.write(bytes.as_slice());
        },
        None => {
            hash_u64(hasher, 0);
        },
    }
    assert(hasher@ =~= old(hasher)@ + bytes_option_writes(bytes_of(*bytes)));
}

/// The number under which a drawn icon is kept.
pub fn hash_icon_spec(spec: &IconSpec) -> (hash: u64)
    ensures
        hash == crate::hashing::hash_of(icon_spec_writes(*spec)),
{
    let mut hasher = DefaultHasher::new();
    hash_i32(&mut hasher, spec.rect.width);
    hash_i32(&mut hasher, spec.rect.height);
    hash_text_option(&mut hasher, &spec.app_id);
    let ghost before = hasher@;
    match &spec.icon {
        Some(icon) => {
            hash_text_option(&mut hasher, &icon.name);
            hash_bytes_option(&mut hasher, &icon.bytes);
        },
        None => {},
    }
    assert(hasher@ =~= before + icon_writes(spec.icon));
    assert(hasher@ =~= icon_spec_writes(*spec));
    hasher.finish()
}

/// An icon is kept under the same number wherever it is drawn: only its size, its name, its bytes and
/// its application count.
pub proof fn law_hash_ignores_place(spec: IconSpec, moved: IconSpec)
    requires
        moved.rect.width == spec.rect.width,
        moved.rect.height == spec.rect.height,
        text_of(moved.app_id) == text_of(spec.app_id),
        moved.icon is Some <==> spec.icon is Some,
        spec.icon is Some ==> text_of(moved.icon->0.name) == text_of(spec.icon->0.name) && bytes_of(
            moved.icon->0.bytes,
        ) == bytes_of(spec.icon->0.bytes),
    ensures
        icon_spec_writes(moved) == icon_spec_writes(spec),
{
}

/// The name of the source of an icon: the name of the icon, or how many bytes the window brings
/// along, or the application.
pub open spec fn source_key(spec: IconSpec) -> Option<Seq<char>> {
    match spec.icon {
        Some(icon) if icon.name is Some => Some("name:"@ + icon.name->0@),
        Some(icon) if icon.bytes is Some => Some(
            "bytes:"@ + crate::strings::digits(icon.bytes->0@.len()),
        ),
        _ => match spec.app_id {
            Some(app_id) => Some("app:"@ + app_id@),
            None => None,
        },
    }
}

/// The name of the source of an icon, if it has one.
pub fn icon_source_key(spec: &IconSpec) -> (key: Option<String>)
    ensures
        text_of(key) == source_key(*spec),
{
    if let Some(icon) = &spec.icon {
        if let Some(name) = &icon.name {
            let mut key = "name:".to_owned();
            key.append(name.as_str());
            return Some(key);
        }
        if let Some(bytes) = &icon.bytes {
            let mut key = "bytes:".to_owned();
            push_u64(&mut key, bytes.len() as u64);
            return Some(key);
        }
    }
    match &spec.app_id {
        Some(app_id) => {
            let mut key = "app:".to_owned();
            key.append(app_id.as_str());
            Some(key)
        },
        None => None,
    }
}

/// The list with a name behind it, unless the name is empty or there already.
pub open spec fn with_name(names: Seq<Seq<char>>, name: Seq<char>) -> Seq<Seq<char>> {
    if name.len() == 0 || names.contains(name) {
        names
    } else {
        names.push(name)
    }
}

/// The names under which the icon of an application is looked for: its identifier, what stands
/// behind the last dot of it, and the identifier without `.desktop` at its end.
pub open spec fn with_app_names(names: Seq<Seq<char>>, app_id: Seq<char>) -> Seq<Seq<char>> {
    let plain = with_name(
        with_name(names, app_id),
        crate::strings::segments(app_id, '.').last(),
    );
    if crate::strings::has_suffix(app_id, ".desktop"@) {
        with_name(plain, app_id.take(app_id.len() - ".desktop"@.len()))
    } else {
        plain
    }
}

/// The names under which an icon is looked for, the icon's own name before those of the
/// application.
pub open spec fn candidate_names(spec: IconSpec) -> Seq<Seq<char>> {
    let own = match spec.icon {
        Some(icon) => match icon.name {
            Some(name) => with_name(Seq::empty(), name@),
            None => Seq::empty(),
        },
        None => Seq::empty(),
    };
    match spec.app_id {
        Some(app_id) => with_app_names(own, app_id@),
        None => own,
    }
}

fn push_unique_name(names: &mut Vec<String>, name: &str)
    ensures
        crate::seqs::texts(final(names)@) == with_name(crate::seqs::texts(old(names)@), name@),
{
    let ghost before = crate::seqs::texts(names@);
    if name.is_empty() {
        return;
    }
    let mut i: usize = 0;
    while i < names.len()
        invariant
            i <= names@.len(),
            names@ == old(names)@,
            before == crate::seqs::texts(names@),
            forall|k: int| 0 <= k < i ==> #[trigger] before[k] != name@,
        decreases names@.len() - i,
    {
        assert(before[i as int] == names@[i as int]@);
        if same_text(names[i].as_str(), name) {
            return;
        }
        i += 1;
    }
    assert(!before.contains(name@));
    names.push(name.to_owned());
    assert(crate::seqs::texts(names@) =~= before.push(name@));
}

/// The names under which an icon is looked for.
pub fn icon_candidate_names(spec: &IconSpec) -> (names: Vec<String>)
    ensures
        crate::seqs::texts(names@) == candidate_names(*spec),
{
    let mut names: Vec<String> = Vec::new();
    assert(crate::seqs::texts(names@) =~= Seq::<Seq<char>>::empty());
    if let Some(icon) = &spec.icon {
        if let Some(name) = &icon.name {
            push_unique_name(&mut names, name.as_str());
        }
    }
    if let Some(app_id) = &spec.app_id {
        push_unique_name(&mut names, app_id.as_str());
        let parts = split_chars(app_id.as_str(), '.');
        proof {
            crate::strings::lemma_segments_not_empty(app_id@, '.');
        }
        let count: usize = parts.len();
        assert(crate::strings::segments(app_id@, '.').last() == parts@[count - 1]@);
        let last = from_chars(&parts[count - 1]);
        push_unique_name(&mut names, last.as_str());
        if ends_with(app_id.as_str(), ".desktop") {
            proof {
                reveal_strlit(".desktop");
            }
            let chars = to_chars(app_id.as_str());
            let end: usize = chars.len();
            assert(chars@.subrange(0, end - 8) =~= app_id@.take(app_id@.len() - 8));
            let stripped = slice_to_string(&chars, 0, end - 8);
            push_unique_name(&mut names, stripped.as_str());
        }
    }
    names
}

/// All names of a list are different, and none is empty.
pub open spec fn names_differ(names: Seq<Seq<char>>) -> bool {
    &&& forall|i: int| 0 <= i < names.len() ==> (#[trigger] names[i]).len() > 0
    &&& forall|i: int, j: int|
        0 <= i < j < names.len() ==> #[trigger] names[i] != #[trigger] names[j]
}

proof fn lemma_with_name(names: Seq<Seq<char>>, name: Seq<char>)
    requires
        names_differ(names),
    ensures
        names_differ(with_name(names, name)),
        with_name(names, name).len() >= names.len(),
        with_name(names, name).take(names.len() as int) == names,
{
    let out = with_name(names, name);
    assert(out.take(names.len() as int) =~= names);
    if name.len() > 0 && !names.contains(name) {
        assert forall|i: int, j: int| 0 <= i < j < out.len() implies #[trigger] out[i]
            != #[trigger] out[j] by {
            if j == names.len() {
                assert(names.contains(names[i]));
            } else {
                assert(names[i] != names[j]);
            }
        }
    }
}

/// No name is looked for twice, and the icon's own name is looked for before all others.
pub proof fn law_candidate_names(spec: IconSpec)
    ensures
        names_differ(candidate_names(spec)),
        spec.icon is Some && spec.icon->0.name is Some && spec.icon->0.name->0@.len() > 0
            ==> candidate_names(spec).len() > 0 && candidate_names(spec)[0]
            == spec.icon->0.name->0@,
{
    let none = Seq::<Seq<char>>::empty();
    let own = match spec.icon {
        Some(icon) => match icon.name {
            Some(name) => with_name(none, name@),
            None => none,
        },
        None => none,
    };
    assert(names_differ(none));
    if spec.icon is Some && spec.icon->0.name is Some {
        lemma_with_name(none, spec.icon->0.name->0@);
    }
    if let Some(app_id) = spec.app_id {
        let last = crate::strings::segments(app_id@, '.').last();
        lemma_with_name(own, app_id@);
        let a = with_name(own, app_id@);
        lemma_with_name(a, last);
        let b = with_name(a, last);
        let stripped = app_id@.take(app_id@.len() - ".desktop"@.len());
        lemma_with_name(b, stripped);
        let c = with_name(b, stripped);
        if own.len() > 0 {
            assert(a.take(own.len() as int)[0] == a[0]);
            assert(b.take(a.len() as int)[0] == b[0]);
            assert(c.take(b.len() as int)[0] == c[0]);
        }
    }
}

/// The position of the first such character, or the length of the text.
pub open spec fn first_at(text: Seq<char>, ch: char) -> int
    decreases text.len(),
{
    if text.len() == 0 || text[0] == ch {
        0
    } else {
        1 + first_at(text.skip(1), ch)
    }
}

fn find_first(chars: &Vec<char>, ch: char) -> (at: usize)
    ensures
        at == first_at(chars@, ch),
        at <= chars@.len(),
{
    let mut at: usize = 0;
    assert(chars@.skip(0) =~= chars@);
    while at < chars.len() && chars[at] != ch
        invariant
            at <= chars@.len(),
            first_at(chars@, ch) == at + first_at(chars@.skip(at as int), ch),
        decreases chars@.len() - at,
    {
        assert(chars@.skip(at as int).skip(1) =~= chars@.skip(at + 1));
        at += 1;
    }
    at
}

/// The size that a part of a path names: two equal numbers with an `x` between them.
pub open spec fn square_size(part: Seq<char>) -> Option<i32> {
    let at = first_at(part, 'x');
    if at < part.len() {
        let width = crate::numbers::parsed_i32(part.take(at));
        let height = crate::numbers::parsed_i32(part.skip(at + 1));
        if width is Some && width == height {
            width
        } else {
            None
        }
    } else {
        None
    }
}

fn find_square_size(part: &Vec<char>) -> (size: Option<i32>)
    ensures
        size == square_size(part@),
{
    let at: usize = find_first(part, 'x');
    let end: usize = part.len();
    if at == end {
        return None;
    }
    let width_text = slice_to_string(part, 0, at);
    let height_text = slice_to_string(part, at + 1, end);
    assert(part@.subrange(0, at as int) =~= part@.take(at as int));
    assert(part@.subrange(at + 1, end as int) =~= part@.skip(at + 1));
    let width: Option<i32> = parse_i32(&to_chars(width_text.as_str()));
    let height: Option<i32> = parse_i32(&to_chars(height_text.as_str()));
    match (width, height) {
        (Some(width), Some(height)) => if width == height {
            Some(width)
        } else {
            None
        },
        _ => None,
    }
}

/// The size that the first part names which names one.
pub open spec fn first_size(parts: Seq<Seq<char>>) -> Option<i32>
    decreases parts.len(),
{
    if parts.len() == 0 {
        None
    } else if square_size(parts[0]) is Some {
        square_size(parts[0])
    } else {
        first_size(parts.skip(1))
    }
}

/// The size of an icon, as the directories on its path name it.
pub fn guess_icon_size_from_path(path: &str) -> (size: Option<i32>)
    ensures
        size == first_size(crate::paths::components(path@)),
{
    let parts = path_components(path);
    let ghost texts = crate::paths::components(path@);
    assert(texts.skip(0) =~= texts);
    let mut i: usize = 0;
    while i < parts.len()
        invariant
            i <= parts@.len() == texts.len(),
            crate::strings::char_lists(parts@) == texts,
            texts == crate::paths::components(path@),
            first_size(texts) == first_size(texts.skip(i as int)),
        decreases parts@.len() - i,
    {
        assert(texts[i as int] == parts@[i as int]@);
        let size: Option<i32> = find_square_size(&parts[i]);
        if size.is_some() {
            return size;
        }
        assert(texts.skip(i as int).skip(1) =~= texts.skip(i + 1));
        i += 1;
    }
    None
}

/// How badly a file suits as an icon of a size. Files that name no size count as far off. Icons of
/// applications come before other pictures, and PNG files before others.
pub open spec fn icon_score(path: Seq<char>, target: i32) -> int {
    let size_penalty = match first_size(crate::paths::components(path)) {
        Some(size) => if size >= target {
            size - target
        } else {
            target - size
        },
        None => 512,
    };
    let extension_penalty: int = if crate::paths::extension(path) is Some
        && crate::strings::lowered(crate::paths::extension(path)->0) == "png"@ {
        0
    } else {
        10
    };
    let place_penalty: int = if crate::strings::holds(path, "/apps/"@) {
        0
    } else if crate::strings::holds(path, "/pixmaps/"@) {
        25
    } else {
        50
    };
    size_penalty + place_penalty + extension_penalty
}

/// How badly a file suits as an icon of a size, if it has an extension.
fn score_icon(path: &str, target: i32) -> (score: Option<i64>)
    ensures
        match score {
            Some(score) => crate::paths::extension(path@) is Some && score == icon_score(
                path@,
                target,
            ),
            None => crate::paths::extension(path@) is None,
        },
{
    let extension = path_extension(path);
    match extension {
        Some(extension) => {
            let size_penalty: i64 = match guess_icon_size_from_path(path) {
                Some(size) => if size >= target {
                    size as i64 - target as i64
                } else {
                    target as i64 - size as i64
                },
                None => 512,
            };
            let lower = from_chars(&lower_chars(&to_chars(extension.as_str())));
            let extension_penalty: i64 = if same_text(lower.as_str(), "png") {
                0
            } else {
                10
            };
            let place_penalty: i64 = if contains_text(path, "/apps/") {
                0
            } else if contains_text(path, "/pixmaps/") {
                25
            } else {
                50
            };
            Some(size_penalty + place_penalty + extension_penalty)
        },
        None => None,
    }
}

/// The file that suits best, the first of several that suit equally well. Files without an
/// extension are passed over.
pub open spec fn best_icon(paths: Seq<Seq<char>>, target: i32) -> Option<Seq<char>>
    decreases paths.len(),
{
    if paths.len() == 0 {
        None
    } else {
        let before = best_icon(paths.drop_last(), target);
        let path = paths.last();
        if crate::paths::extension(path) is None {
            before
        } else if before is Some && icon_score(before->0, target) <= icon_score(path, target) {
            before
        } else {
            Some(path)
        }
    }
}

/// The best file so far.
struct BestIcon {
    path: String,
    score: i64,
}

spec fn is_best(best: Option<BestIcon>, paths: Seq<Seq<char>>, target: i32) -> bool {
    match best {
        Some(best) => best_icon(paths, target) == Some(best.path@) && best.score == icon_score(
            best.path@,
            target,
        ),
        None => best_icon(paths, target) is None,
    }
}

fn consider_icon_path(
    path: &str,
    target: i32,
    best: &mut Option<BestIcon>,
    Ghost(paths): Ghost<Seq<Seq<char>>>,
)
    requires
        is_best(*old(best), paths, target),
    ensures
        is_best(*final(best), paths.push(path@), target),
{
    assert(paths.push(path@).drop_last() =~= paths);
    match score_icon(path, target) {
        Some(score) => {
            let keep: bool = match &*best {
                Some(current) => current.score <= score,
                None => false,
            };
            if !keep {
                *best = Some(BestIcon { path: path.to_owned(), score });
            }
        },
        None => {},
    }
}

/// The files that are known under names, in the order of the names.
pub open spec fn known_paths(
    index: Map<Seq<char>, Vec<String>>,
    names: Seq<Seq<char>>,
) -> Seq<Seq<char>>
    decreases names.len(),
{
    if names.len() == 0 {
        Seq::empty()
    } else {
        let before = known_paths(index, names.drop_last());
        if index.dom().contains(names.last()) {
            before + crate::seqs::texts(index[names.last()]@)
        } else {
            before
        }
    }
}

/// The greater one of two numbers.
pub open spec fn icon_target(width: i32, height: i32) -> i32 {
    if width >= height {
        width
    } else {
        height
    }
}

/// Finds the file that suits best as an icon.
pub fn find_icon_path_in_index(
    index: &KeyMap<Vec<String>>,
    names: &Vec<String>,
    width: i32,
    height: i32,
) -> (path: Option<String>)
    requires
        index.wf(),
    ensures
        text_of(path) == best_icon(
            known_paths(index@, crate::seqs::texts(names@)),
            icon_target(width, height),
        ),
{
    let ghost name_texts = crate::seqs::texts(names@);
    let target: i32 = max_i32(width, height);
    let mut best: Option<BestIcon> = None;
    let mut i: usize = 0;
    assert(name_texts.take(0) =~= Seq::empty());
    while i < names.len()
        invariant
            i <= names@.len(),
            index.wf(),
            name_texts == crate::seqs::texts(names@),
            is_best(best, known_paths(index@, name_texts.take(i as int)), target),
        decreases names@.len() - i,
    {
        let ghost before = known_paths(index@, name_texts.take(i as int));
        assert(name_texts.take(i + 1).drop_last() =~= name_texts.take(i as int));
        assert(name_texts.take(i + 1).last() == names@[i as int]@);
        if let Some(paths) = index.get(names[i].as_str()) {
            let ghost path_texts = crate::seqs::texts(paths@);
            let mut j: usize = 0;
            assert(before + path_texts.take(0) =~= before);
            while j < paths.len()
                invariant
                    j <= paths@.len(),
                    path_texts == crate::seqs::texts(paths@),
                    is_best(best, before + path_texts.take(j as int), target),
                decreases paths@.len() - j,
            {
                consider_icon_path(
                    paths[j].as_str(),
                    target,
                    &mut best,
                    Ghost(before + path_texts.take(j as int)),
                );
                assert((before + path_texts.take(j as int)).push(paths@[j as int]@) =~= before
                    + path_texts.take(j + 1));
                j += 1;
            }
            assert(path_texts.take(j as int) =~= path_texts);
        }
        i += 1;
    }
    assert(name_texts.take(i as int) =~= name_texts);
    match best {
        Some(best) => Some(best.path),
        None => None,
    }
}

/// The file that is found is one of those that are known, has an extension, and none of the others
/// suits better.
pub proof fn law_best_icon_is_best(paths: Seq<Seq<char>>, target: i32)
    ensures
        best_icon(paths, target) matches Some(best) ==> {
            &&& paths.contains(best)
            &&& crate::paths::extension(best) is Some
            &&& forall|i: int|
                0 <= i < paths.len() && crate::paths::extension(#[trigger] paths[i]) is Some
                    ==> icon_score(best, target) <= icon_score(paths[i], target)
        },
        best_icon(paths, target) is None ==> forall|i: int|
            0 <= i < paths.len() ==> crate::paths::extension(#[trigger] paths[i]) is None,
    decreases paths.len(),
{
    if paths.len() > 0 {
        let head = paths.drop_last();
        law_best_icon_is_best(head, target);
        let best = best_icon(paths, target);
        let before = best_icon(head, target);
        assert forall|i: int| 0 <= i < head.len() implies #[trigger] paths[i] == head[i] by {
        }
        if before is Some {
            let k = choose|k: int| 0 <= k < head.len() && head[k] == before->0;
            assert(paths[k] == before->0);
        }
        assert(paths[paths.len() - 1] == paths.last());
        if best is Some {
            assert forall|i: int|
                0 <= i < paths.len() && crate::paths::extension(
                    #[trigger] paths[i],
                ) is Some implies icon_score(best->0, target) <= icon_score(paths[i], target) by {
                if i < head.len() {
                    assert(paths[i] == head[i]);
                }
            }
        } else {
            assert forall|i: int| 0 <= i < paths.len() implies crate::paths::extension(
                #[trigger] paths[i],
            ) is None by {
                if i < head.len() {
                    assert(paths[i] == head[i]);
                }
            }
        }
    }
}

/// The file is a picture that can serve as an icon.
pub open spec fn is_icon_file(path: Seq<char>) -> bool {
    &&& crate::paths::extension(path) is Some
    &&& crate::strings::lowered(crate::paths::extension(path)->0) == "png"@
        || crate::strings::lowered(crate::paths::extension(path)->0) == "svg"@
}

/// The name under which a file is known as an icon, if it can serve as one.
pub fn icon_name(path: &str) -> (name: Option<String>)
    ensures
        match name {
            Some(name) => is_icon_file(path@) && crate::paths::file_stem(path@) == Some(name@),
            None => !is_icon_file(path@),
        },
{
    let extension = path_extension(path);
    match extension {
        Some(extension) => {
            let lower = from_chars(&lower_chars(&to_chars(extension.as_str())));
            if same_text(lower.as_str(), "png") || same_text(lower.as_str(), "svg") {
                path_file_stem(path)
            } else {
                None
            }
        },
        None => None,
    }
}

/// The files that are known under a name.
pub open spec fn known_under(index: Map<Seq<char>, Vec<String>>, name: Seq<char>) -> Seq<Seq<char>> {
    if index.dom().contains(name) {
        crate::seqs::texts(index[name]@)
    } else {
        Seq::empty()
    }
}

/// This is the index of icons after a file was taken in, if it can serve as one.
pub open spec fn takes_in(
    before: Map<Seq<char>, Vec<String>>,
    after: Map<Seq<char>, Vec<String>>,
    path: Seq<char>,
) -> bool {
    &&& !is_icon_file(path) ==> after == before
    &&& is_icon_file(path) ==> {
        let name = crate::paths::file_stem(path)->0;
        &&& after.dom() == before.dom().insert(name)
        &&& known_under(after, name) == known_under(before, name).push(path)
        &&& forall|other: Seq<char>|
            other != name && before.dom().contains(other) ==> #[trigger] after[other]
                == before[other]
    }
}

/// A picture that was taken into the index is found under its name, behind those that were there, and nothing else changes;
/// what is no picture is not taken in.
pub proof fn law_indexed_icons_are_found(
    before: Map<Seq<char>, Vec<String>>,
    after: Map<Seq<char>, Vec<String>>,
    path: Seq<char>,
    other: Seq<char>,
    i: int,
)
    requires
        takes_in(before, after, path),
    ensures
        is_icon_file(path) && crate::paths::file_stem(path) is Some ==> known_paths(
            after,
            seq![crate::paths::file_stem(path)->0],
        ).contains(path),
        is_icon_file(path) && 0 <= i < known_under(before, crate::paths::file_stem(path)->0).len()
            ==> known_under(after, crate::paths::file_stem(path)->0)[i] == known_under(
            before,
            crate::paths::file_stem(path)->0,
        )[i],
        !is_icon_file(path) || crate::paths::file_stem(path)->0 != other ==> known_under(after, other)
            == known_under(before, other),
{
    if is_icon_file(path) {
        let name = crate::paths::file_stem(path)->0;
        let names = seq![name];
        let known = known_under(after, name);
        assert(known[known.len() - 1] == path);
        assert(names.drop_last() =~= Seq::empty());
        assert(known_paths(after, names.drop_last()) =~= Seq::empty());
        assert(known_paths(after, names) =~= known);
        assert(known_paths(after, names)[known.len() - 1] == path);
        if other != name {
            assert(after.dom().contains(other) == before.dom().contains(other));
            if before.dom().contains(other) {
                assert(after[other] == before[other]);
            }
        }
    }
}

/// Takes a file into the index of icons, if it can serve as one.
pub fn index_icon(index: &mut KeyMap<Vec<String>>, path: &str)
    requires
        old(index).wf(),
    ensures
        final(index).wf(),
        takes_in(old(index)@, final(index)@, path@),
{
    if let Some(name) = icon_name(path) {
        let ghost before = known_under(index@, name@);
        let mut paths = match index.remove(name.as_str()) {
            Some(paths) => paths,
            None => Vec::new(),
        };
        assert(crate::seqs::texts(paths@) =~= before);
        paths.push(path.to_owned());
        assert(crate::seqs::texts(paths@) =~= before.push(path@));
        let ghost key = name@;
        let gone = index.insert(name, paths);
        assert(index@.dom() =~= old(index)@.dom().insert(key));
    }
}

/// A path below a directory.
pub open spec fn joined(dir: Seq<char>, part: Seq<char>) -> Seq<char> {
    if dir.len() == 0 || dir.last() == '/' {
        dir + part
    } else {
        dir + seq!['/'] + part
    }
}

fn join_path(dir: &str, part: &str) -> (path: String)
    ensures
        path@ == joined(dir@, part@),
{
    let chars = to_chars(dir);
    let count: usize = chars.len();
    let mut path = dir.to_owned();
    if count > 0 && chars[count - 1] != '/' {
        path.push('/');
        assert(path@ =~= dir@ + seq!['/']);
    }
    path.append(part);
    path
}

/// The directories below data directories in which icons lie.
pub open spec fn data_roots(dirs: Seq<Seq<char>>) -> Seq<Seq<char>>
    decreases dirs.len(),
{
    if dirs.len() == 0 {
        Seq::empty()
    } else {
        data_roots(dirs.drop_last()).push(joined(dirs.last(), "icons"@)).push(
            joined(dirs.last(), "pixmaps"@),
        )
    }
}

/// The directories in which icons are looked for: those of the user, then those below the data
/// directories.
pub open spec fn all_roots(home: Option<Seq<char>>, data_dirs: Option<Seq<char>>) -> Seq<Seq<char>> {
    let own = match home {
        Some(home) => seq![joined(home, ".local/share/icons"@), joined(home, ".icons"@)],
        None => Seq::empty(),
    };
    let dirs = match data_dirs {
        Some(value) => crate::strings::segments(value, ':'),
        None => seq!["/usr/local/share"@, "/usr/share"@],
    };
    own + data_roots(dirs)
}

fn push_data_roots(roots: &mut Vec<String>, dir: &str, Ghost(dirs): Ghost<Seq<Seq<char>>>)
    ensures
        crate::seqs::texts(final(roots)@) == crate::seqs::texts(old(roots)@).push(
            joined(dir@, "icons"@),
        ).push(joined(dir@, "pixmaps"@)),
        data_roots(dirs.push(dir@)) == data_roots(dirs).push(joined(dir@, "icons"@)).push(
            joined(dir@, "pixmaps"@),
        ),
{
    assert(dirs.push(dir@).drop_last() =~= dirs);
    let ghost before = crate::seqs::texts(roots@);
    roots.push(join_path(dir, "icons"));
    assert(crate::seqs::texts(roots@) =~= before.push(joined(dir@, "icons"@)));
    let ghost half = crate::seqs::texts(roots@);
    roots.push(join_path(dir, "pixmaps"));
    assert(crate::seqs::texts(roots@) =~= half.push(joined(dir@, "pixmaps"@)));
}

/// The directories in which icons are looked for. `data_dirs` is a list with colons between its
/// parts.
pub fn icon_roots(home: Option<&str>, data_dirs: Option<&str>) -> (roots: Vec<String>)
    ensures
        crate::seqs::texts(roots@) == all_roots(
            match home {
                Some(home) => Some(home@),
                None => None,
            },
            match data_dirs {
                Some(dirs) => Some(dirs@),
                None => None,
            },
        ),
{
    let mut roots: Vec<String> = Vec::new();
    if let Some(home) = home {
        roots.push(join_path(home, ".local/share/icons"));
        roots.push(join_path(home, ".icons"));
    }
    let ghost own = match home {
        Some(home) => seq![joined(home@, ".local/share/icons"@), joined(home@, ".icons"@)],
        None => Seq::empty(),
    };
    assert(crate::seqs::texts(roots@) =~= own);
    match data_dirs {
        Some(value) => {
            let dirs = split_chars(value, ':');
            let ghost texts = crate::strings::segments(value@, ':');
            let mut i: usize = 0;
            assert(own + data_roots(texts.take(0)) =~= own);
            while i < dirs.len()
                invariant
                    i <= dirs@.len() == texts.len(),
                    crate::strings::char_lists(dirs@) == texts,
                    crate::seqs::texts(roots@) == own + data_roots(texts.take(i as int)),
                decreases dirs@.len() - i,
            {
                assert(texts[i as int] == dirs@[i as int]@);
                let dir = from_chars(&dirs[i]);
                push_data_roots(&mut roots, dir.as_str(), Ghost(texts.take(i as int)));
                assert(texts.take(i as int).push(dir@) =~= texts.take(i + 1));
                assert(crate::seqs::texts(roots@) =~= own + data_roots(texts.take(i + 1)));
                i += 1;
            }
            assert(texts.take(i as int) =~= texts);
        },
        None => {
            let ghost none = Seq::<Seq<char>>::empty();
            assert(data_roots(none) =~= Seq::empty());
            push_data_roots(&mut roots, "/usr/local/share", Ghost(none));
            push_data_roots(&mut roots, "/usr/share", Ghost(none.push("/usr/local/share"@)));
            assert(none.push("/usr/local/share"@).push("/usr/share"@) =~= seq![
                "/usr/local/share"@,
                "/usr/share"@,
            ]);
            assert(crate::seqs::texts(roots@) =~= own + data_roots(
                seq!["/usr/local/share"@, "/usr/share"@],
            ));
        },
    }
    roots
}

/// The header of a PNG file claims more pixels than fit in memory.
pub open spec fn is_vast(bytes: Seq<u8>) -> bool {
    bytes.len() >= 24 && 8 * (crate::numbers::long_at(bytes, 16)
        * crate::numbers::long_at(bytes, 20)) > isize::MAX
}

/// Whether the header of a PNG file claims more pixels than fit in memory.
pub fn claims_too_much(bytes: &Vec<u8>) -> (vast: bool)
    ensures
        vast == is_vast(bytes@),
{
    if bytes.len() < 24 {
        return false;
    }
    let width: u128 = read_long(bytes, 16) as u128;
    let height: u128 = read_long(bytes, 20) as u128;
    assert(0 <= width * height <= 0xffff_ffff * 0xffff_ffff) by (nonlinear_arith)
        requires
            0 <= width <= 0xffff_ffff,
            0 <= height <= 0xffff_ffff,
    ;
    8 * (width * height) > isize::MAX as u128
}

/// The picture that the `png` crate reads from a file, as width, height, the number of its color
/// type, and the bytes of the first frame.
pub uninterp spec fn png_picture(bytes: Seq<u8>) -> Option<(u32, u32, u8, Seq<u8>)>;

/// Reads a PNG file with `png::Decoder::new`, `Decoder::read_info` and `Reader::next_frame`. The
/// claim is that what they give depends on the bytes alone. Files whose header claims more pixels
/// than fit in memory are left out: the buffer for them could not be made.
#[verifier::external_body]
fn read_png(bytes: &Vec<u8>) -> (picture: Option<Picture>)
    requires
        !is_vast(bytes@),
    ensures
        match picture {
            Some(picture) => png_picture(bytes@) == Some(picture@),
            None => png_picture(bytes@) is None,
        },
{
    let mut reader = png::Decoder::new(Cursor::new(bytes.as_slice())).read_info().ok()?;
    let mut data = vec![0; reader.output_buffer_size()];
    let info = reader.next_frame(&mut data).ok()?;
    data.truncate(info.buffer_size());
    Some(Picture { width: info.width, height: info.height, color: info.color_type as u8, data })
}

/// The picture in a PNG file, if it can be read.
pub open spec fn decoded_png(bytes: Seq<u8>) -> Option<(u32, u32, u8, Seq<u8>)> {
    if is_vast(bytes) {
        None
    } else {
        png_picture(bytes)
    }
}

/// Reads a PNG file.
pub fn decode_png(bytes: &Vec<u8>) -> (picture: Option<Picture>)
    ensures
        match picture {
            Some(picture) => decoded_png(bytes@) == Some(picture@),
            None => decoded_png(bytes@) is None,
        },
{
    if claims_too_much(bytes) {
        None
    } else {
        read_png(bytes)
    }
}

/// The side of a picture as a signed number, which wraps around.
pub open spec fn side(n: u32) -> int {
    if n <= i32::MAX {
        n as int
    } else {
        n - 0x1_0000_0000
    }
}

fn signed_side(n: u32) -> (out: i32)
    ensures
        out == side(n),
{
    if n <= 0x7fff_ffff {
        n as i32
    } else {
        (n as i64 - 0x1_0000_0000) as i32
    }
}

/// A picture can be drawn as an icon of a size: it has no palette, or all its pixels that the icon
/// shows are there.
pub open spec fn is_drawable(
    picture: (u32, u32, u8, Seq<u8>),
    target_width: i32,
    target_height: i32,
) -> bool {
    match crate::backend::pixels::as_rgba(picture.2, picture.3) {
        Some(rgba) => crate::backend::pixels::is_scalable(
            rgba.len() as int,
            side(picture.0),
            side(picture.1),
            target_width as int,
            target_height as int,
        ),
        None => true,
    }
}

/// The bytes of a picture that is drawn as an icon of a size.
pub open spec fn drawn(
    picture: (u32, u32, u8, Seq<u8>),
    target_width: i32,
    target_height: i32,
) -> Option<Seq<u8>> {
    match crate::backend::pixels::as_rgba(picture.2, picture.3) {
        Some(rgba) => Some(
            crate::backend::pixels::scaled(
                rgba,
                side(picture.0),
                side(picture.1),
                target_width as int,
                target_height as int,
            ),
        ),
        None => None,
    }
}

/// Draws a picture as an icon of a size. Pictures with a palette are not drawn.
pub fn scale_picture(picture: &Picture, target_width: i32, target_height: i32) -> (rgba: Option<
    Vec<u8>,
>)
    requires
        target_width > 0,
        target_height > 0,
        is_drawable(picture@, target_width, target_height),
    ensures
        bytes_of(rgba) == drawn(picture@, target_width, target_height),
{
    match picture.to_rgba() {
        Some(rgba) => Some(
            scale_rgba(
                &rgba,
                signed_side(picture.width),
                signed_side(picture.height),
                target_width,
                target_height,
            ),
        ),
        None => None,
    }
}

/// A side keeps its lower bits: it is the signed number that differs from it by nothing or by two to the power of
/// thirty-two.
pub proof fn law_sides_wrap_around(n: u32)
    ensures
        i32::MIN <= side(n) <= i32::MAX,
        side(n) == n || side(n) + 4294967296 == n,
{
}

/// A picture with a palette, whose pixels are not looked at, can be drawn at any size. Whether another one can
/// depends on how many pixels it has and on its sides, and not on its colors.
pub proof fn law_colors_do_not_hinder_drawing(
    picture: (u32, u32, u8, Seq<u8>),
    other: (u32, u32, u8, Seq<u8>),
    target_width: i32,
    target_height: i32,
)
    requires
        picture.0 == other.0,
        picture.1 == other.1,
    ensures
        crate::backend::pixels::as_rgba(picture.2, picture.3) is None ==> is_drawable(
            picture,
            target_width,
            target_height,
        ),
        (crate::backend::pixels::as_rgba(picture.2, picture.3) is Some
            && crate::backend::pixels::as_rgba(other.2, other.3) is Some
            && crate::backend::pixels::as_rgba(picture.2, picture.3)->0.len()
            == crate::backend::pixels::as_rgba(other.2, other.3)->0.len()) ==> is_drawable(
            picture,
            target_width,
            target_height,
        ) == is_drawable(other, target_width, target_height),
{
}

/// Whether a picture can be drawn as an icon of a size.
pub fn can_draw(picture: &Picture, target_width: i32, target_height: i32) -> (drawable: bool)
    ensures
        drawable == is_drawable(picture@, target_width, target_height),
{
    match picture.to_rgba() {
        Some(rgba) => can_scale(
            rgba.len(),
            signed_side(picture.width),
            signed_side(picture.height),
            target_width,
            target_height,
        ),
        None => true,
    }
}

/// The bytes of a PNG file that is drawn as an icon of a size.
pub open spec fn drawn_png(bytes: Seq<u8>, target_width: i32, target_height: i32) -> Option<
    Seq<u8>,
> {
    match decoded_png(bytes) {
        Some(picture) => drawn(picture, target_width, target_height),
        None => None,
    }
}

/// Reads a PNG file and draws it as an icon of a size.
pub fn decode_png_and_scale(bytes: &Vec<u8>, target_width: i32, target_height: i32) -> (rgba:
    Option<Vec<u8>>)
    requires
        target_width > 0,
        target_height > 0,
        decoded_png(bytes@) matches Some(picture) ==> is_drawable(
            picture,
            target_width,
            target_height,
        ),
    ensures
        bytes_of(rgba) == drawn_png(bytes@, target_width, target_height),
{
    match decode_png(bytes) {
        Some(picture) => scale_picture(&picture, target_width, target_height),
        None => None,
    }
}

/// The outcome of drawing a PNG file of which nothing is known.
pub enum DrawnIcon {
    Drawn(Vec<u8>),
    /// The file is no picture that can be read, or has a palette.
    NoPicture,
    /// Pixels that the icon shows are missing in the picture.
    Incomplete,
}

/// Reads a PNG file of which nothing is known, and draws it as an icon of a size where that is
/// possible.
pub fn draw_png(bytes: &Vec<u8>, target_width: i32, target_height: i32) -> (drawn_icon: DrawnIcon)
    requires
        target_width > 0,
        target_height > 0,
    ensures
        match drawn_icon {
            DrawnIcon::Drawn(rgba) => drawn_png(bytes@, target_width, target_height) == Some(rgba@),
            DrawnIcon::NoPicture => drawn_png(bytes@, target_width, target_height) is None,
            DrawnIcon::Incomplete => decoded_png(bytes@) is Some && !is_drawable(
                decoded_png(bytes@)->0,
                target_width,
                target_height,
            ),
        },
        decoded_png(bytes@) is Some && !is_drawable(
            decoded_png(bytes@)->0,
            target_width,
            target_height,
        ) ==> drawn_icon is Incomplete,
{
    if let Some(picture) = decode_png(bytes) {
        if !can_draw(&picture, target_width, target_height) {
            return DrawnIcon::Incomplete;
        }
    }
    match decode_png_and_scale(bytes, target_width, target_height) {
        Some(rgba) => DrawnIcon::Drawn(rgba),
        None => DrawnIcon::NoPicture,
    }
}

/// Where the pixels of an icon come from.
pub enum IconSource {
    /// There is no icon to draw.
    Nothing,
    /// The PNG file that the window brings along.
    Bytes(Vec<u8>),
    /// A file that is looked for under names.
    Names(Vec<String>),
}

/// This is where the pixels of an icon come from.
pub open spec fn is_source_of(source: IconSource, spec: IconSpec) -> bool {
    match source {
        IconSource::Nothing => spec.rect.width <= 0 || spec.rect.height <= 0 || source_key(spec)
            is None,
        IconSource::Bytes(bytes) => {
            &&& spec.rect.width > 0 && spec.rect.height > 0
            &&& spec.icon is Some && bytes_of(spec.icon->0.bytes) == Some(bytes@)
        },
        IconSource::Names(names) => {
            &&& spec.rect.width > 0 && spec.rect.height > 0
            &&& source_key(spec) is Some
            &&& spec.icon is None || spec.icon->0.bytes is None
            &&& crate::seqs::texts(names@) == candidate_names(spec)
        },
    }
}

/// An icon is drawn exactly if it has a place with pixels and a source at all. The bytes that a window brings along are
/// drawn as they are, even where the icon has a name; without them a file is looked for under the names of the icon and of
/// its application.
pub proof fn law_icons_come_from_their_source(spec: IconSpec, source: IconSource, name: Seq<char>)
    requires
        is_source_of(source, spec),
    ensures
        spec.rect.is_void() ==> source is Nothing,
        !spec.rect.is_void() && spec.icon is Some && spec.icon->0.bytes is Some ==> (source matches
            IconSource::Bytes(bytes) && bytes@ == spec.icon->0.bytes->0@),
        !spec.rect.is_void() && (spec.icon is None || spec.icon->0.bytes is None)
            && spec.app_id is Some ==> source is Names,
        !spec.rect.is_void() && spec.icon is Some && spec.icon->0.bytes is None
            && spec.icon->0.name is Some ==> source is Names,
        spec.icon is None && spec.app_id is None ==> source is Nothing,
        source matches IconSource::Names(names) ==> crate::seqs::texts(names@) == candidate_names(spec),
{
}

/// Decides where the pixels of an icon come from.
pub fn icon_source(spec: &IconSpec) -> (source: IconSource)
    ensures
        is_source_of(source, *spec),
{
    if spec.rect.width <= 0 || spec.rect.height <= 0 {
        return IconSource::Nothing;
    }
    if icon_source_key(spec).is_none() {
        return IconSource::Nothing;
    }
    if let Some(icon) = &spec.icon {
        if let Some(bytes) = &icon.bytes {
            return IconSource::Bytes(bytes.clone());
        }
    }
    IconSource::Names(icon_candidate_names(spec))
}

/// How a file is read.
#[derive(Clone, Copy, Debug, PartialEq, Eq, Structural)]
pub enum IconDecoder {
    Png,
    Svg,
}

/// How a file is read.
pub open spec fn decoder_of(path: Seq<char>) -> IconDecoder {
    if crate::paths::extension(path) is Some && crate::strings::lowered(
        crate::paths::extension(path)->0,
    ) == "svg"@ {
        IconDecoder::Svg
    } else {
        IconDecoder::Png
    }
}

/// Every file that serves as an icon is read as what it is named, and what has no extension is read as PNG.
pub proof fn law_files_are_read_as_they_are_named(path: Seq<char>)
    ensures
        crate::paths::extension(path) is None ==> decoder_of(path) == IconDecoder::Png
            && !is_icon_file(path),
        is_icon_file(path) && !is_png(path) ==> decoder_of(path) == IconDecoder::Svg,
        is_png(path) ==> decoder_of(path) == IconDecoder::Png && is_icon_file(path),
        decoder_of(path) == IconDecoder::Svg ==> is_icon_file(path),
{
    reveal_strlit("png");
    reveal_strlit("svg");
    assert("png"@[0] == 'p' && "svg"@[0] == 's');
}

/// Decides how a file is read: only what is named as SVG is read so.
pub fn icon_decoder(path: &str) -> (decoder: IconDecoder)
    ensures
        decoder == decoder_of(path@),
{
    match path_extension(path) {
        Some(extension) => {
            let lower = from_chars(&lower_chars(&to_chars(extension.as_str())));
            if same_text(lower.as_str(), "svg") {
                IconDecoder::Svg
            } else {
                IconDecoder::Png
            }
        },
        None => IconDecoder::Png,
    }
}

/// These are the pixels of an icon whose picture was read.
pub open spec fn is_rendered(
    rendered: Option<RenderedIconPixels>,
    spec: IconSpec,
    rgba: Option<Seq<u8>>,
) -> bool {
    match rendered {
        Some(rendered) => {
            &&& rendered.width == spec.rect.width
            &&& rendered.height == spec.rect.height
            &&& rgba is Some
            &&& rendered.pixels@ == crate::backend::pixels::argb8888(rgba->0)
        },
        None => rgba is None,
    }
}

/// A drawn icon has the size that was asked for and the pixels of its picture, each with its opacity and with its colors in
/// the order of the device; there is one exactly if there is a picture.
pub proof fn law_icons_show_their_picture(
    rendered: Option<RenderedIconPixels>,
    spec: IconSpec,
    rgba: Seq<u8>,
    k: int,
)
    requires
        is_rendered(rendered, spec, Some(rgba)),
        0 <= k < rgba.len() / 4,
    ensures
        rendered is Some,
        rendered->0.width == spec.rect.width,
        rendered->0.height == spec.rect.height,
        rendered->0.pixels@[4 * k + 3] == rgba[4 * k + 3],
        rgba[4 * k + 3] == 255 ==> rendered->0.pixels@[4 * k] == rgba[4 * k + 2]
            && rendered->0.pixels@[4 * k + 1] == rgba[4 * k + 1] && rendered->0.pixels@[4 * k + 2]
            == rgba[4 * k],
{
    crate::backend::pixels::law_argb_has_its_channels_in_order(rgba, k);
}

/// The pixels of an icon whose picture was read, or nothing where it could not be.
pub fn render_icon_pixels(spec: &IconSpec, rgba: Option<Vec<u8>>) -> (rendered: Option<
    RenderedIconPixels,
>)
    ensures
        is_rendered(rendered, *spec, bytes_of(rgba)),
{
    match rgba {
        Some(rgba) => Some(
            RenderedIconPixels {
                width: spec.rect.width,
                height: spec.rect.height,
                pixels: rgba_to_argb8888(&rgba),
            },
        ),
        None => None,
    }
}

/// The names with a null character between them.
pub open spec fn joined_names(names: Seq<Seq<char>>) -> Seq<char>
    decreases names.len(),
{
    if names.len() == 0 {
        Seq::empty()
    } else if names.len() == 1 {
        names[0]
    } else {
        joined_names(names.drop_last()).push('\u{0}') + names.last()
    }
}

/// What a search for an icon is kept under: the names, and the size.
pub open spec fn path_key(names: Seq<Seq<char>>, target: i32) -> Seq<char> {
    joined_names(names).push('\u{0}') + crate::strings::decimal(target as int)
}

fn search_key(names: &Vec<String>, target: i32) -> (key: String)
    ensures
        key@ == path_key(crate::seqs::texts(names@), target),
{
    let ghost texts = crate::seqs::texts(names@);
    let mut key = String::new();
    let mut i: usize = 0;
    assert(texts.take(0) =~= Seq::empty());
    while i < names.len()
        invariant
            i <= names@.len(),
            texts == crate::seqs::texts(names@),
            key@ == joined_names(texts.take(i as int)),
        decreases names@.len() - i,
    {
        assert(texts.take(i + 1).drop_last() =~= texts.take(i as int));
        assert(texts.take(i + 1).last() == names@[i as int]@);
        if i > 0 {
            key.push('\u{0}');
        }
        key.append(names[i].as_str());
        if i == 0 {
            assert(key@ =~= texts.take(1)[0]);
        }
        i += 1;
    }
    assert(texts.take(i as int) =~= texts);
    key.push('\u{0}');
    push_i32(&mut key, target);
    key
}

/// Searches for icons of different sizes are kept apart, whatever the names.
pub proof fn law_path_keys_differ(a: Seq<Seq<char>>, a_target: i32, b: Seq<Seq<char>>, b_target: i32)
    requires
        path_key(a, a_target) == path_key(b, b_target),
    ensures
        a_target == b_target,
        joined_names(a) == joined_names(b),
{
    let (da, db) = (crate::strings::decimal(a_target as int), crate::strings::decimal(b_target as int));
    let (ja, jb) = (joined_names(a), joined_names(b));
    let (ka, kb) = (path_key(a, a_target), path_key(b, b_target));
    crate::strings::lemma_decimal_chars(a_target as int);
    crate::strings::lemma_decimal_chars(b_target as int);
    assert(ka == ja.push('\u{0}') + da);
    assert(kb == jb.push('\u{0}') + db);
    assert(ka.len() == ja.len() + 1 + da.len());
    assert(kb.len() == jb.len() + 1 + db.len());
    assert(ka[ja.len() as int] == '\u{0}');
    assert(kb[jb.len() as int] == '\u{0}');
    if ja.len() < jb.len() {
        let at = jb.len() - ja.len() - 1;
        assert(ka[jb.len() as int] == da[at]);
        assert(false);
    }
    if jb.len() < ja.len() {
        let at = ja.len() - jb.len() - 1;
        assert(kb[ja.len() as int] == db[at]);
        assert(false);
    }
    assert(ja =~= ka.take(ja.len() as int));
    assert(jb =~= kb.take(jb.len() as int));
    assert(da =~= ka.skip(ja.len() as int + 1));
    assert(db =~= kb.skip(jb.len() as int + 1));
    crate::strings::law_decimal_is_injective(a_target as int, b_target as int);
}

/// The outcome of a search for an icon.
pub enum IconPath {
    Resolved(Option<String>),
    /// The directories were not read yet.
    IndexMissing,
}

/// This is what a search for an icon gives, and what is remembered of searches before and after it.
pub open spec fn is_search(
    before: Map<Seq<char>, Option<String>>,
    after: Map<Seq<char>, Option<String>>,
    index: Option<Map<Seq<char>, Vec<String>>>,
    names: Seq<Seq<char>>,
    target: i32,
    path: IconPath,
) -> bool {
    let key = path_key(names, target);
    if before.dom().contains(key) {
        &&& path matches IconPath::Resolved(found) && text_of(found) == text_of(before[key])
        &&& after == before
    } else {
        match index {
            Some(index) => {
                &&& path matches IconPath::Resolved(found) && text_of(found) == best_icon(
                    known_paths(index, names),
                    target,
                )
                &&& after.dom() == before.dom().insert(key)
                &&& text_of(after[key]) == best_icon(known_paths(index, names), target)
                &&& forall|other: Seq<char>|
                    before.dom().contains(other) ==> #[trigger] after[other] == before[other]
            },
            None => path is IndexMissing && after == before,
        }
    }
}

/// A search that is made again gives what it gave, without a look at the index; the first time it gives the file that suits
/// best of those that are known. Without an index it is told that there is none, and made again later.
pub proof fn law_searches_are_remembered(
    before: Map<Seq<char>, Option<String>>,
    after: Map<Seq<char>, Option<String>>,
    last: Map<Seq<char>, Option<String>>,
    index: Option<Map<Seq<char>, Vec<String>>>,
    other_index: Option<Map<Seq<char>, Vec<String>>>,
    names: Seq<Seq<char>>,
    target: i32,
    first: IconPath,
    again: IconPath,
)
    requires
        is_search(before, after, index, names, target, first),
        is_search(after, last, other_index, names, target, again),
    ensures
        first matches IconPath::Resolved(found) ==> (again matches IconPath::Resolved(same) && text_of(
            same,
        ) == text_of(found)) && last == after,
        index is None && !before.dom().contains(path_key(names, target)) ==> first is IndexMissing
            && after == before,
        index is Some && !before.dom().contains(path_key(names, target)) ==> (first matches
            IconPath::Resolved(found) && text_of(found) == best_icon(
            known_paths(index->0, names),
            target,
        )),
{
}

/// What is remembered of icons from one drawing to the next.
pub struct IconRasterizer<B> {
    path_cache: KeyMap<Option<String>>,
    icon_index: Option<KeyMap<Vec<String>>>,
    buffers: AsyncBuffers<B>,
}

impl<B> IconRasterizer<B> {
    pub closed spec fn wf(&self) -> bool {
        &&& self.path_cache.wf()
        &&& self.icon_index matches Some(index) ==> index.wf()
    }

    /// The searches that were made, with the file that each has found.
    pub closed spec fn searches(&self) -> Map<Seq<char>, Option<String>> {
        self.path_cache@
    }

    /// The icons by their names, once the directories were read.
    pub closed spec fn index(&self) -> Option<Map<Seq<char>, Vec<String>>> {
        match self.icon_index {
            Some(index) => Some(index@),
            None => None,
        }
    }

    /// The drawn icons.
    pub closed spec fn buffers(&self) -> crate::backend::async_buffers::BufferState<B> {
        self.buffers@
    }

    /// Nothing is remembered yet.
    pub fn new(has_worker: bool) -> (rasterizer: IconRasterizer<B>)
        ensures
            rasterizer.wf(),
            rasterizer.searches() == Map::<Seq<char>, Option<String>>::empty(),
            rasterizer.index() is None,
            rasterizer.buffers() == (crate::backend::async_buffers::BufferState::<B> {
                ready: Map::empty(),
                in_flight: Set::empty(),
                has_worker,
            }),
    {
        IconRasterizer {
            path_cache: KeyMap::new(),
            icon_index: None,
            buffers: AsyncBuffers::new(has_worker),
        }
    }

    /// Takes over the index of icons after the directories were read.
    pub fn set_icon_index(&mut self, index: KeyMap<Vec<String>>)
        requires
            old(self).wf(),
            index.wf(),
        ensures
            final(self).wf(),
            final(self).index() == Some(index@),
            final(self).searches() == old(self).searches(),
            final(self).buffers() == old(self).buffers(),
    {
        self.icon_index = Some(index);
    }

    /// Finds the file that suits best as an icon. A search that was made before gives what it
    /// gave then.
    pub fn find_icon_path_cached(&mut self, names: &Vec<String>, width: i32, height: i32) -> (path:
        IconPath)
        requires
            old(self).wf(),
        ensures
            final(self).wf(),
            final(self).index() == old(self).index(),
            final(self).buffers() == old(self).buffers(),
            is_search(
                old(self).searches(),
                final(self).searches(),
                old(self).index(),
                crate::seqs::texts(names@),
                icon_target(width, height),
                path,
            ),
    {
        let target: i32 = max_i32(width, height);
        let key = search_key(names, target);
        if let Some(cached) = self.path_cache.get(key.as_str()) {
            return IconPath::Resolved(copy_text(cached));
        }
        let found = match &self.icon_index {
            Some(index) => find_icon_path_in_index(index, names, width, height),
            None => return IconPath::IndexMissing,
        };
        let kept = copy_text(&found);
        let ghost key_text = key@;
        let gone = self.path_cache.insert(key, kept);
        assert(self.searches().dom() =~= old(self).searches().dom().insert(key_text));
        IconPath::Resolved(found)
    }

    /// Decides what becomes of a request for an icon.
    pub fn render_icon(&mut self, spec: &IconSpec, now: u128) -> (answer: BufferRequest)
        requires
            old(self).wf(),
        ensures
            final(self).wf(),
            final(self).index() == old(self).index(),
            final(self).searches() == old(self).searches(),
            answer == old(self).buffers().answer(
                crate::hashing::hash_of(icon_spec_writes(*spec)),
                now,
            ),
            final(self).buffers() == old(self).buffers().requested(
                crate::hashing::hash_of(icon_spec_writes(*spec)),
                now,
            ),
    {
        let key: u64 = hash_icon_spec(spec);
        self.buffers.request(key, now)
    }

    /// The drawn icon of a number.
    pub fn buffer(&self, spec_hash: u64) -> (buffer: Option<&B>)
        requires
            self.wf(),
        ensures
            match buffer {
                Some(buffer) => self.buffers().ready.dom().contains(spec_hash) && *buffer
                    == self.buffers().ready[spec_hash].0,
                None => !self.buffers().ready.dom().contains(spec_hash),
            },
    {
        self.buffers.get(spec_hash)
    }

    /// Takes an icon that the worker has drawn.
    pub fn handle_async_ready(&mut self, spec_hash: u64, buffer: B, now: u128)
        requires
            old(self).wf(),
        ensures
            final(self).wf(),
            final(self).index() == old(self).index(),
            final(self).searches() == old(self).searches(),
            final(self).buffers() == old(self).buffers().delivered(spec_hash, buffer, now),
    {
        self.buffers.handle_async_ready(spec_hash, buffer, now);
    }

    /// Takes note that the worker found no icon.
    pub fn handle_async_miss(&mut self, spec_hash: u64)
        requires
            old(self).wf(),
        ensures
            final(self).wf(),
            final(self).index() == old(self).index(),
            final(self).searches() == old(self).searches(),
            final(self).buffers() == old(self).buffers().missed(spec_hash),
    {
        self.buffers.handle_async_miss(spec_hash);
    }
}

fn copy_text(text: &Option<String>) -> (copy: Option<String>)
    ensures
        text_of(copy) == text_of(*text),
{
    match text {
        Some(text) => Some(text.clone()),
        None => None,
    }
}

// ---- what is found --------------------------------------------------------------------------------

/// How far apart two sizes are.
pub open spec fn distance(a: i32, b: i32) -> int {
    if a < b {
        b - a
    } else {
        a - b
    }
}

/// The file is named as PNG.
pub open spec fn is_png(path: Seq<char>) -> bool {
    crate::paths::extension(path) matches Some(extension) && crate::strings::lowered(extension)
        == "png"@
}

/// Two files are of one kind: both or neither are named as PNG, and they lie in the same kind of directory.
pub open spec fn of_one_kind(a: Seq<char>, b: Seq<char>) -> bool {
    &&& is_png(a) == is_png(b)
    &&& crate::strings::holds(a, "/apps/"@) == crate::strings::holds(b, "/apps/"@)
    &&& crate::strings::holds(a, "/pixmaps/"@) == crate::strings::holds(b, "/pixmaps/"@)
}

/// The size that a path names.
pub open spec fn named_size(path: Seq<char>) -> Option<i32> {
    first_size(crate::paths::components(path))
}

/// Of files of one kind the one with the nearer size is taken, be it smaller or greater: the file that is found
/// has no rival of its kind whose size lies nearer to the size that is wanted.
pub proof fn law_nearest_size_is_found(
    paths: Seq<Seq<char>>,
    target: i32,
    best: Seq<char>,
    rival: int,
    best_size: i32,
    rival_size: i32,
)
    requires
        best_icon(paths, target) == Some(best),
        0 <= rival < paths.len(),
        crate::paths::extension(paths[rival]) is Some,
        of_one_kind(best, paths[rival]),
        named_size(best) == Some(best_size),
        named_size(paths[rival]) == Some(rival_size),
    ensures
        distance(best_size, target) <= distance(rival_size, target),
        rival_size == target ==> best_size == target,
{
    law_best_icon_is_best(paths, target);
    assert(icon_score(best, target) <= icon_score(paths[rival], target));
}

/// Where files lie and what they are weighs against their sizes: a picture among others counts as much as one
/// that is 25 pixels farther off than an icon of an application, a file elsewhere as much as one that is 50
/// pixels farther off, a file that is not named as PNG as much as one that is 10 pixels farther off, and a file
/// without a size as much as one that is 512 pixels off.
pub proof fn law_kinds_weigh_against_sizes(a: Seq<char>, b: Seq<char>, target: i32, x: i32, y: i32)
    requires
        named_size(a) == Some(x),
        named_size(b) == Some(y) || named_size(b) is None,
    ensures
        ({
            let apps = |path: Seq<char>| crate::strings::holds(path, "/apps/"@);
            let pixmaps = |path: Seq<char>| crate::strings::holds(path, "/pixmaps/"@);
            let nearer = icon_score(a, target) <= icon_score(b, target);
            let sized = named_size(b) == Some(y);
            &&& sized && of_one_kind(a, b) ==> (nearer <==> distance(x, target) <= distance(y, target))
            &&& sized && is_png(a) == is_png(b) && apps(a) && !apps(b) && pixmaps(b) ==> (nearer
                <==> distance(x, target) <= distance(y, target) + 25)
            &&& sized && is_png(a) == is_png(b) && apps(a) && !apps(b) && !pixmaps(b) ==> (nearer
                <==> distance(x, target) <= distance(y, target) + 50)
            &&& sized && is_png(a) == is_png(b) && !apps(a) && pixmaps(a) && !apps(b) && !pixmaps(b)
                ==> (nearer <==> distance(x, target) <= distance(y, target) + 25)
            &&& sized && apps(a) == apps(b) && pixmaps(a) == pixmaps(b) && is_png(a) && !is_png(b)
                ==> (nearer <==> distance(x, target) <= distance(y, target) + 10)
            &&& named_size(b) is None && of_one_kind(a, b) ==> (nearer <==> distance(x, target)
                <= 512)
        }),
{
}

/// Of several files that suit equally well the first one is found.
pub proof fn law_first_of_equals_is_found(paths: Seq<Seq<char>>, target: i32) -> (at: int)
    requires
        best_icon(paths, target) is Some,
    ensures
        0 <= at < paths.len(),
        best_icon(paths, target) == Some(paths[at]),
        forall|i: int|
            0 <= i < at && crate::paths::extension(#[trigger] paths[i]) is Some ==> icon_score(
                paths[i],
                target,
            ) > icon_score(paths[at], target),
    decreases paths.len(),
{
    let head = paths.drop_last();
    let before = best_icon(head, target);
    if before is Some && best_icon(paths, target) == before && (crate::paths::extension(
        paths.last(),
    ) is None || icon_score(before->0, target) <= icon_score(paths.last(), target)) {
        let at = law_first_of_equals_is_found(head, target);
        assert(paths[at] == head[at]);
        assert forall|i: int|
            0 <= i < at && crate::paths::extension(#[trigger] paths[i]) is Some implies icon_score(
            paths[i],
            target,
        ) > icon_score(paths[at], target) by {
            assert(head[i] == paths[i]);
        }
        at
    } else {
        law_best_icon_is_best(head, target);
        let at = paths.len() - 1;
        assert forall|i: int|
            0 <= i < at && crate::paths::extension(#[trigger] paths[i]) is Some implies icon_score(
            paths[i],
            target,
        ) > icon_score(paths[at], target) by {
            assert(head[i] == paths[i]);
        }
        at
    }
}

/// A search looks at exactly the files that are known under one of the names.
pub proof fn law_all_known_files_are_looked_at(
    index: Map<Seq<char>, Vec<String>>,
    names: Seq<Seq<char>>,
    path: Seq<char>,
)
    ensures
        known_paths(index, names).contains(path) <==> exists|i: int, j: int|
            0 <= i < names.len() && index.dom().contains(#[trigger] names[i]) && 0 <= j
                < index[names[i]]@.len() && (#[trigger] index[names[i]]@[j])@ == path,
    decreases names.len(),
{
    let all = known_paths(index, names);
    if names.len() > 0 {
        let head = names.drop_last();
        let last = names.last();
        let before = known_paths(index, head);
        law_all_known_files_are_looked_at(index, head, path);
        let here = crate::seqs::texts(index[last]@);
        if all.contains(path) {
            let k = choose|k: int| 0 <= k < all.len() && all[k] == path;
            if k < before.len() {
                assert(before[k] == path);
                assert(before.contains(path));
                let (i, j) = choose|i: int, j: int|
                    0 <= i < head.len() && index.dom().contains(#[trigger] head[i]) && 0 <= j
                        < index[head[i]]@.len() && (#[trigger] index[head[i]]@[j])@ == path;
                assert(names[i] == head[i]);
                assert(index[names[i]]@[j]@ == path);
            } else {
                let j = k - before.len();
                assert(here[j] == path);
                let i = names.len() - 1;
                assert(names[i] == last);
                assert(index[names[i]]@[j]@ == path);
            }
        }
        if exists|i: int, j: int|
            0 <= i < names.len() && index.dom().contains(#[trigger] names[i]) && 0 <= j
                < index[names[i]]@.len() && (#[trigger] index[names[i]]@[j])@ == path {
            let (i, j) = choose|i: int, j: int|
                0 <= i < names.len() && index.dom().contains(#[trigger] names[i]) && 0 <= j
                    < index[names[i]]@.len() && (#[trigger] index[names[i]]@[j])@ == path;
            if i < head.len() {
                assert(head[i] == names[i]);
                assert(index[head[i]]@[j]@ == path);
                assert(before.contains(path));
                let k = choose|k: int| 0 <= k < before.len() && before[k] == path;
                assert(all[k] == path);
            } else {
                assert(here[j] == path);
                assert(all[before.len() + j] == path);
            }
        }
    } else {
        assert(!all.contains(path));
    }
}

/// A directory that is named after a size, as in `48x48`, gives that size, and one with two different numbers
/// gives none.
pub proof fn law_sizes_are_read(width: i32, height: i32)
    ensures
        square_size(
            crate::strings::decimal(width as int) + "x"@ + crate::strings::decimal(height as int),
        ) == (if width == height {
            Some(width)
        } else {
            None
        }),
{
    let (w, h) = (crate::strings::decimal(width as int), crate::strings::decimal(height as int));
    reveal_strlit("x");
    let part = w + "x"@ + h;
    crate::strings::lemma_decimal_chars(width as int);
    assert(part =~= w + (seq!['x'] + h));
    lemma_first_behind(w, seq!['x'] + h, 'x');
    assert(part.take(w.len() as int) =~= w);
    assert(part.skip(w.len() as int + 1) =~= h);
    crate::numbers::law_printed_number_reads_back(width);
    crate::numbers::law_printed_number_reads_back(height);
}

proof fn lemma_first_behind(head: Seq<char>, tail: Seq<char>, ch: char)
    requires
        forall|i: int| 0 <= i < head.len() ==> #[trigger] head[i] != ch,
        tail.len() > 0,
        tail[0] == ch,
    ensures
        first_at(head + tail, ch) == head.len(),
    decreases head.len(),
{
    if head.len() == 0 {
        assert(head + tail =~= tail);
    } else {
        assert((head + tail)[0] == head[0]);
        assert((head + tail).skip(1) =~= head.skip(1) + tail);
        assert forall|i: int| 0 <= i < head.skip(1).len() implies #[trigger] head.skip(1)[i]
            != ch by {
            assert(head[i + 1] != ch);
        }
        lemma_first_behind(head.skip(1), tail, ch);
    }
}

/// A path names the size of the first of its directories that names one.
pub proof fn law_first_directory_with_a_size_counts(parts: Seq<Seq<char>>)
    ensures
        match first_size(parts) {
            Some(size) => exists|k: int|
                0 <= k < parts.len() && square_size(#[trigger] parts[k]) == Some(size) && forall|
                    i: int,
                |
                    0 <= i < k ==> square_size(#[trigger] parts[i]) is None,
            None => forall|i: int| 0 <= i < parts.len() ==> square_size(#[trigger] parts[i]) is None,
        },
    decreases parts.len(),
{
    if parts.len() > 0 {
        let rest = parts.skip(1);
        law_first_directory_with_a_size_counts(rest);
        assert forall|i: int| 1 <= i < parts.len() implies #[trigger] parts[i] == rest[i - 1] by {
        }
        if square_size(parts[0]) is None {
            if let Some(size) = first_size(rest) {
                let k = choose|k: int|
                    0 <= k < rest.len() && square_size(#[trigger] rest[k]) == Some(size) && forall|
                        i: int,
                    |
                        0 <= i < k ==> square_size(#[trigger] rest[i]) is None;
                assert(square_size(parts[k + 1]) == Some(size));
                assert forall|i: int| 0 <= i < k + 1 implies square_size(
                    #[trigger] parts[i],
                ) is None by {
                    if i > 0 {
                        assert(square_size(rest[i - 1]) is None);
                    }
                }
            }
        } else {
            assert(square_size(parts[0]) == first_size(parts));
        }
    }
}

/// An icon is looked for under its own name, the identifier of its application, what stands behind the last dot
/// of that, and what stands before `.desktop` in it; and under no other name.
pub proof fn law_icons_are_looked_for_under_these_names(spec: IconSpec, name: Seq<char>)
    ensures
        candidate_names(spec).contains(name) <==> name.len() > 0 && ((spec.icon matches Some(icon)
            && icon.name matches Some(own) && own@ == name) || (spec.app_id matches Some(app_id) && (
        app_id@ == name || crate::strings::segments(app_id@, '.').last() == name || app_id@ == name
            + ".desktop"@))),
{
    let none = Seq::<Seq<char>>::empty();
    let own = match spec.icon {
        Some(icon) => match icon.name {
            Some(name) => with_name(none, name@),
            None => none,
        },
        None => none,
    };
    assert(!none.contains(name));
    if spec.icon is Some && spec.icon->0.name is Some {
        lemma_with_name_holds(none, spec.icon->0.name->0@, name);
    }
    if let Some(app_id) = spec.app_id {
        let last = crate::strings::segments(app_id@, '.').last();
        lemma_with_name_holds(own, app_id@, name);
        let a = with_name(own, app_id@);
        lemma_with_name_holds(a, last, name);
        let b = with_name(a, last);
        let desktop = ".desktop"@;
        if crate::strings::has_suffix(app_id@, desktop) {
            let stripped = app_id@.take(app_id@.len() - desktop.len());
            lemma_with_name_holds(b, stripped, name);
            assert(app_id@ =~= stripped + desktop);
            if app_id@ == name + desktop {
                assert(name =~= stripped);
            }
        } else if app_id@ == name + desktop {
            assert(app_id@.skip(app_id@.len() - desktop.len()) =~= desktop);
        }
    }
}

proof fn lemma_with_name_holds(names: Seq<Seq<char>>, added: Seq<char>, name: Seq<char>)
    ensures
        with_name(names, added).contains(name) <==> names.contains(name) || (name == added
            && name.len() > 0),
{
    let out = with_name(names, added);
    if added.len() > 0 && !names.contains(added) {
        assert(out[names.len() as int] == added);
        if names.contains(name) {
            let k = choose|k: int| 0 <= k < names.len() && names[k] == name;
            assert(out[k] == name);
        }
        if out.contains(name) {
            let k = choose|k: int| 0 <= k < out.len() && out[k] == name;
            if k < names.len() {
                assert(names[k] == name);
            }
        }
    }
}

/// The name of an icon goes before its bytes, and its bytes before its application.
pub proof fn law_sources_have_their_rank(spec: IconSpec)
    ensures
        spec.icon is Some && spec.icon->0.name is Some ==> source_key(spec) == Some(
            "name:"@ + spec.icon->0.name->0@,
        ),
        spec.icon is Some && spec.icon->0.name is None && spec.icon->0.bytes is Some
            ==> source_key(spec) == Some(
            "bytes:"@ + crate::strings::digits(spec.icon->0.bytes->0@.len()),
        ),
        (spec.icon is None || spec.icon->0.name is None && spec.icon->0.bytes is None)
            && spec.app_id is Some ==> source_key(spec) == Some("app:"@ + spec.app_id->0@),
        source_key(spec) is None <==> (spec.icon is None || spec.icon->0.name is None
            && spec.icon->0.bytes is None) && spec.app_id is None,
{
}

/// Icons are kept apart by everything that they are drawn from: two icons that feed the same to a hasher have
/// the same size, the same application, the same name and the same bytes.
pub proof fn law_icons_are_kept_apart(a: IconSpec, b: IconSpec)
    requires
        icon_spec_writes(a) == icon_spec_writes(b),
        a.icon is Some && a.icon->0.bytes is Some ==> a.icon->0.bytes->0@.len() <= u64::MAX,
    ensures
        a.rect.width == b.rect.width,
        a.rect.height == b.rect.height,
        text_of(a.app_id) == text_of(b.app_id),
        a.icon is Some <==> b.icon is Some,
        a.icon is Some ==> text_of(a.icon->0.name) == text_of(b.icon->0.name) && bytes_of(
            a.icon->0.bytes,
        ) == bytes_of(b.icon->0.bytes),
{
    crate::hashing::law_writes_tell_values_apart();
    let (x, y) = (icon_spec_writes(a), icon_spec_writes(b));
    assert(x[0] == crate::hashing::i32_write(a.rect.width));
    assert(y[0] == crate::hashing::i32_write(b.rect.width));
    assert(x[1] == crate::hashing::i32_write(a.rect.height));
    assert(y[1] == crate::hashing::i32_write(b.rect.height));
    let (app_a, app_b) = (
        text_option_writes(text_of(a.app_id)),
        text_option_writes(text_of(b.app_id)),
    );
    assert(x.skip(2) =~= app_a + icon_writes(a.icon));
    assert(y.skip(2) =~= app_b + icon_writes(b.icon));
    lemma_texts_told_apart(
        text_of(a.app_id),
        icon_writes(a.icon),
        text_of(b.app_id),
        icon_writes(b.icon),
    );
    if a.icon is Some && b.icon is Some {
        lemma_texts_told_apart(
            text_of(a.icon->0.name),
            bytes_option_writes(bytes_of(a.icon->0.bytes)),
            text_of(b.icon->0.name),
            bytes_option_writes(bytes_of(b.icon->0.bytes)),
        );
        let (u, v) = (
            bytes_option_writes(bytes_of(a.icon->0.bytes)),
            bytes_option_writes(bytes_of(b.icon->0.bytes)),
        );
        assert(u == v);
        if a.icon->0.bytes is Some && b.icon->0.bytes is Some {
            assert(u[3] == v[3]);
        }
        if a.icon->0.bytes is Some != b.icon->0.bytes is Some {
            assert(u.len() != v.len());
        }
    }
}

proof fn lemma_texts_told_apart(
    a: Option<Seq<char>>,
    behind_a: Seq<Seq<u8>>,
    b: Option<Seq<char>>,
    behind_b: Seq<Seq<u8>>,
)
    requires
        text_option_writes(a) + behind_a == text_option_writes(b) + behind_b,
    ensures
        a == b,
        behind_a == behind_b,
{
    crate::hashing::law_writes_tell_values_apart();
    let (x, y) = (text_option_writes(a) + behind_a, text_option_writes(b) + behind_b);
    assert(x[0] == crate::hashing::u64_write(
        if a is Some {
            1
        } else {
            0
        },
    ));
    assert(y[0] == crate::hashing::u64_write(
        if b is Some {
            1
        } else {
            0
        },
    ));
    assert(a is Some == b is Some);
    if a is Some {
        assert(x.subrange(1, 3) =~= crate::hashing::text_writes(a->0));
        assert(y.subrange(1, 3) =~= crate::hashing::text_writes(b->0));
        assert(x.skip(3) =~= behind_a);
        assert(y.skip(3) =~= behind_b);
    } else {
        assert(x.skip(1) =~= behind_a);
        assert(y.skip(1) =~= behind_b);
    }
}

/// An icon is looked for in the size of its longer side.
pub proof fn law_longer_side_counts(width: i32, height: i32)
    ensures
        icon_target(width, height) >= width,
        icon_target(width, height) >= height,
        icon_target(width, height) == width || icon_target(width, height) == height,
{
}

/// A path below a directory is the directory, one slash, and what stands below it.
pub proof fn law_paths_are_joined_by_one_slash(dir: Seq<char>, part: Seq<char>)
    requires
        dir.len() > 0,
        dir.last() != '/',
    ensures
        joined(dir, part) == dir + seq!['/'] + part,
        joined(dir + seq!['/'], part) == dir + seq!['/'] + part,
{
}

/// Icons are looked for below every data directory, in its icons and its pixmaps, and below the home directory
/// before that; nowhere else.
pub proof fn law_roots_lie_below_the_directories(
    home: Option<Seq<char>>,
    data_dirs: Seq<char>,
    i: int,
)
    requires
        0 <= i < crate::strings::segments(data_dirs, ':').len(),
    ensures
        ({
            let roots = all_roots(home, Some(data_dirs));
            let dirs = crate::strings::segments(data_dirs, ':');
            let own = if home is Some {
                2int
            } else {
                0
            };
            &&& roots.len() == own + 2 * dirs.len()
            &&& home is Some ==> roots[0] == joined(home->0, ".local/share/icons"@) && roots[1]
                == joined(home->0, ".icons"@)
            &&& roots[own + 2 * i] == joined(dirs[i], "icons"@)
            &&& roots[own + 2 * i + 1] == joined(dirs[i], "pixmaps"@)
        }),
{
    lemma_data_roots(crate::strings::segments(data_dirs, ':'), i);
}

proof fn lemma_data_roots(dirs: Seq<Seq<char>>, i: int)
    requires
        0 <= i < dirs.len(),
    ensures
        data_roots(dirs).len() == 2 * dirs.len(),
        data_roots(dirs)[2 * i] == joined(dirs[i], "icons"@),
        data_roots(dirs)[2 * i + 1] == joined(dirs[i], "pixmaps"@),
    decreases dirs.len(),
{
    let head = dirs.drop_last();
    if head.len() > 0 {
        lemma_data_roots(head, 0);
        if i < head.len() {
            lemma_data_roots(head, i);
        }
    } else {
        assert(data_roots(head) =~= Seq::empty());
    }
}

/// Names that are joined for a search can be told apart: names without a null character give one text only.
pub proof fn law_joined_names_differ(a: Seq<Seq<char>>, b: Seq<Seq<char>>)
    requires
        joined_names(a) == joined_names(b),
        a.len() == b.len(),
        forall|i: int, k: int|
            0 <= i < a.len() && 0 <= k < a[i].len() ==> #[trigger] a[i][k] != '\u{0}',
        forall|i: int, k: int|
            0 <= i < b.len() && 0 <= k < b[i].len() ==> #[trigger] b[i][k] != '\u{0}',
    ensures
        a == b,
    decreases a.len(),
{
    if a.len() == 0 {
        assert(a =~= b);
    } else if a.len() == 1 {
        assert(a =~= b);
    } else {
        let (x, y) = (joined_names(a.drop_last()), joined_names(b.drop_last()));
        let (last_a, last_b) = (a.last(), b.last());
        let (all_a, all_b) = (x.push('\u{0}') + last_a, y.push('\u{0}') + last_b);
        assert(joined_names(a) == all_a && joined_names(b) == all_b);
        assert(all_a.len() == x.len() + 1 + last_a.len());
        assert(all_b.len() == y.len() + 1 + last_b.len());
        assert(all_a[x.len() as int] == '\u{0}');
        assert(all_b[y.len() as int] == '\u{0}');
        if x.len() < y.len() {
            let k = y.len() - x.len() - 1;
            assert(all_a[y.len() as int] == last_a[k]);
            assert(a[a.len() - 1][k] != '\u{0}');
        }
        if y.len() < x.len() {
            let k = x.len() - y.len() - 1;
            assert(all_b[x.len() as int] == last_b[k]);
            assert(b[b.len() - 1][k] != '\u{0}');
        }
        assert(x =~= all_a.take(x.len() as int));
        assert(y =~= all_b.take(y.len() as int));
        assert(last_a =~= all_a.skip(x.len() as int + 1));
        assert(last_b =~= all_b.skip(y.len() as int + 1));
        let (head_a, head_b) = (a.drop_last(), b.drop_last());
        assert forall|i: int, k: int|
            0 <= i < head_a.len() && 0 <= k < head_a[i].len() implies #[trigger] head_a[i][k]
            != '\u{0}' by {
            assert(a[i][k] != '\u{0}');
        }
        assert forall|i: int, k: int|
            0 <= i < head_b.len() && 0 <= k < head_b[i].len() implies #[trigger] head_b[i][k]
            != '\u{0}' by {
            assert(b[i][k] != '\u{0}');
        }
        law_joined_names_differ(head_a, head_b);
        assert(a =~= head_a.push(last_a));
        assert(b =~= head_b.push(last_b));
    }
}

/// A picture that claims more bytes than fit in memory is not read, and every other one is read as `png` reads it.
pub proof fn law_vast_pictures_are_not_read(bytes: Seq<u8>)
    ensures
        bytes.len() < 24 ==> decoded_png(bytes) == png_picture(bytes),
        bytes.len() >= 24 && 8 * (crate::numbers::long_at(bytes, 16) * crate::numbers::long_at(
            bytes,
            20,
        )) <= isize::MAX ==> decoded_png(bytes) == png_picture(bytes),
        bytes.len() >= 24 && 8 * (crate::numbers::long_at(bytes, 16) * crate::numbers::long_at(
            bytes,
            20,
        )) > isize::MAX ==> decoded_png(bytes) is None,
{
}

/// An icon of another size than its picture has as many pixels as its size asks for; one of the same size is the picture as
/// it is. A picture with a palette, and a file that is no picture, is not drawn.
pub proof fn law_drawn_icons_have_their_size(bytes: Seq<u8>, width: i32, height: i32)
    requires
        width > 0,
        height > 0,
    ensures
        decoded_png(bytes) is None ==> drawn_png(bytes, width, height) is None,
        decoded_png(bytes) matches Some(picture) ==> {
            let rgba = crate::backend::pixels::as_rgba(picture.2, picture.3);
            &&& rgba is None <==> drawn_png(bytes, width, height) is None
            &&& rgba is Some && picture.0 == width && picture.1 == height ==> drawn_png(
                bytes,
                width,
                height,
            ) == rgba
            &&& rgba is Some && !(picture.0 == width && picture.1 == height) ==> drawn_png(
                bytes,
                width,
                height,
            )->0.len() == 4 * (width * height)
        },
        forall|n: u32| n <= i32::MAX ==> #[trigger] side(n) == n,
{
    if let Some(picture) = decoded_png(bytes) {
        assert(0 < width * height) by (nonlinear_arith)
            requires
                width > 0,
                height > 0,
        ;
        assert(side(picture.0) == width <==> picture.0 == width);
        assert(side(picture.1) == height <==> picture.1 == height);
    }
}

} // verus!
