//! Paths of files as text.

use crate::strings::{from_chars, same_chars, slice_to_string, split_chars, to_chars};
use vstd::prelude::*;

verus! {

/// The part of a path between slashes counts as a component.
pub open spec fn is_component(segment: Seq<char>) -> bool {
    segment.len() > 0 && segment != seq!['.']
}

/// The segments that count as components, in their order.
pub open spec fn component_segments(segments: Seq<Seq<char>>) -> Seq<Seq<char>> {
    crate::seqs::kept(segments, |segment: Seq<char>| is_component(segment))
}

/// What a path begins with: `/` for an absolute path, `.` where that is its first segment, else
/// nothing.
pub open spec fn path_start(path: Seq<char>) -> Seq<Seq<char>> {
    if path.len() > 0 && path[0] == '/' {
        seq![seq!['/']]
    } else if crate::strings::segments(path, '/')[0] == seq!['.'] {
        seq![seq!['.']]
    } else {
        Seq::empty()
    }
}

/// The components of a path. Repeated slashes, a slash at the end, and `.` behind the beginning do
/// not count.
pub open spec fn components(path: Seq<char>) -> Seq<Seq<char>> {
    path_start(path) + component_segments(crate::strings::segments(path, '/'))
}

/// The components of a path.
pub fn path_components(path: &str) -> (parts: Vec<Vec<char>>)
    ensures
        crate::strings::char_lists(parts@) == components(path@),
{
    let chars = to_chars(path);
    let segments = split_chars(path, '/');
    let ghost texts = crate::strings::segments(path@, '/');
    let ghost keep = |segment: Seq<char>| is_component(segment);
    let ghost start = path_start(path@);
    proof {
        crate::strings::lemma_segments_not_empty(path@, '/');
    }
    let mut dot: Vec<char> = Vec::new();
    dot.push('.');
    assert(dot@ =~= seq!['.']);
    let mut parts: Vec<Vec<char>> = Vec::new();
    assert(texts[0] == segments@[0]@);
    if chars.len() > 0 && chars[0] == '/' {
        let mut root: Vec<char> = Vec::new();
        root.push('/');
        assert(root@ =~= seq!['/']);
        parts.push(root);
    } else if same_chars(&segments[0], &dot) {
        let mut here: Vec<char> = Vec::new();
        here.push('.');
        assert(here@ =~= seq!['.']);
        parts.push(here);
    }
    assert(crate::strings::char_lists(parts@) =~= start);
    assert(start + crate::seqs::kept(texts.take(0), keep) =~= start);
    let mut i: usize = 0;
    while i < segments.len()
        invariant
            i <= segments@.len() == texts.len(),
            dot@ == seq!['.'],
            keep == (|segment: Seq<char>| is_component(segment)),
            crate::strings::char_lists(segments@) == texts,
            crate::strings::char_lists(parts@) == start + crate::seqs::kept(
                texts.take(i as int),
                keep,
            ),
        decreases segments@.len() - i,
    {
        proof {
            crate::seqs::lemma_kept_step(texts, keep, i as int);
        }
        assert(texts[i as int] == segments@[i as int]@);
        let ghost earlier = parts@;
        if segments[i].len() > 0 && !same_chars(&segments[i], &dot) {
            let text = from_chars(&segments[i]);
            parts.push(to_chars(text.as_str()));
            assert(crate::strings::char_lists(parts@) =~= crate::strings::char_lists(
                earlier,
            ).push(texts[i as int]));
            assert(crate::strings::char_lists(parts@) =~= start + crate::seqs::kept(
                texts.take(i + 1),
                keep,
            ));
        }
        i += 1;
    }
    assert(texts.take(i as int) =~= texts);
    parts
}

/// Two paths name the same place, as far as their text tells.
pub open spec fn same_place(a: Seq<char>, b: Seq<char>) -> bool {
    components(a) == components(b)
}

/// Whether two paths name the same place, as far as their text tells.
pub fn is_same_place(a: &str, b: &str) -> (same: bool)
    ensures
        same == same_place(a@, b@),
{
    let a_parts = path_components(a);
    let b_parts = path_components(b);
    let ghost a_texts = components(a@);
    let ghost b_texts = components(b@);
    if a_parts.len() != b_parts.len() {
        assert(a_texts.len() != b_texts.len());
        return false;
    }
    let mut i: usize = 0;
    while i < a_parts.len()
        invariant
            i <= a_parts@.len() == b_parts@.len(),
            a_texts == components(a@),
            b_texts == components(b@),
            crate::strings::char_lists(a_parts@) == a_texts,
            crate::strings::char_lists(b_parts@) == b_texts,
            forall|k: int| 0 <= k < i ==> #[trigger] a_texts[k] == b_texts[k],
        decreases a_parts@.len() - i,
    {
        assert(a_texts[i as int] == a_parts@[i as int]@);
        assert(b_texts[i as int] == b_parts@[i as int]@);
        if !same_chars(&a_parts[i], &b_parts[i]) {
            return false;
        }
        i += 1;
    }
    assert(a_texts =~= b_texts);
    true
}

/// The component names a file or directory.
pub open spec fn is_name(component: Seq<char>) -> bool {
    component != seq!['/'] && component != seq!['.'] && component != seq!['.', '.']
}

/// The last component of a path, if it names a file or directory.
pub open spec fn file_name(path: Seq<char>) -> Option<Seq<char>> {
    let parts = components(path);
    if parts.len() > 0 && is_name(parts.last()) {
        Some(parts.last())
    } else {
        None
    }
}

/// The last component of a path, if it names a file or directory.
pub fn path_file_name(path: &str) -> (name: Option<Vec<char>>)
    ensures
        match name {
            Some(name) => file_name(path@) == Some(name@),
            None => file_name(path@) is None,
        },
{
    let mut parts = path_components(path);
    let ghost texts = components(path@);
    if parts.len() == 0 {
        assert(texts.len() == 0);
        return None;
    }
    assert(texts.last() == parts@.last()@);
    let last = parts.pop();
    match last {
        Some(last) => {
            let dots: bool = last.len() == 2 && last[0] == '.' && last[1] == '.';
            let single: bool = last.len() == 1 && (last[0] == '/' || last[0] == '.');
            assert(dots <==> last@ =~= seq!['.', '.']);
            assert(single <==> (last@ =~= seq!['/'] || last@ =~= seq!['.']));
            if dots || single {
                None
            } else {
                Some(last)
            }
        },
        None => None,
    }
}

/// The position of the last dot of a name.
pub open spec fn last_dot(name: Seq<char>) -> Option<int>
    decreases name.len(),
{
    if name.len() == 0 {
        None
    } else if name.last() == '.' {
        Some(name.len() - 1)
    } else {
        last_dot(name.drop_last())
    }
}

proof fn lemma_last_dot(name: Seq<char>)
    ensures
        last_dot(name) matches Some(i) ==> 0 <= i < name.len(),
    decreases name.len(),
{
    if name.len() > 0 && name.last() != '.' {
        lemma_last_dot(name.drop_last());
    }
}

/// What stands behind the last dot of a file's name, unless that dot begins the name.
pub open spec fn extension(path: Seq<char>) -> Option<Seq<char>> {
    match file_name(path) {
        Some(name) => match last_dot(name) {
            Some(i) if i > 0 => Some(name.skip(i + 1)),
            _ => None,
        },
        None => None,
    }
}

/// A file's name without its extension.
pub open spec fn file_stem(path: Seq<char>) -> Option<Seq<char>> {
    match file_name(path) {
        Some(name) => match last_dot(name) {
            Some(i) if i > 0 => Some(name.take(i)),
            _ => Some(name),
        },
        None => None,
    }
}

fn find_last_dot(name: &Vec<char>) -> (at: Option<usize>)
    ensures
        match at {
            Some(i) => last_dot(name@) == Some(i as int) && i < name@.len(),
            None => last_dot(name@) is None,
        },
{
    let mut i: usize = name.len();
    assert(name@.take(i as int) =~= name@);
    while i > 0
        invariant
            i <= name@.len(),
            last_dot(name@) == last_dot(name@.take(i as int)),
        decreases i,
    {
        if name[i - 1] == '.' {
            return Some(i - 1);
        }
        assert(name@.take(i as int).drop_last() =~= name@.take(i - 1));
        i -= 1;
    }
    None
}

/// What stands behind the last dot of a file's name, unless that dot begins the name.
pub fn path_extension(path: &str) -> (found: Option<String>)
    ensures
        match found {
            Some(text) => extension(path@) == Some(text@),
            None => extension(path@) is None,
        },
{
    match path_file_name(path) {
        Some(name) => match find_last_dot(&name) {
            Some(i) => if i > 0 {
                assert(name@.subrange(i + 1, name@.len() as int) =~= name@.skip(i + 1));
                let end: usize = name.len();
                Some(slice_to_string(&name, i + 1, end))
            } else {
                None
            },
            None => None,
        },
        None => None,
    }
}

/// A file's name without its extension.
pub fn path_file_stem(path: &str) -> (found: Option<String>)
    ensures
        match found {
            Some(text) => file_stem(path@) == Some(text@),
            None => file_stem(path@) is None,
        },
{
    match path_file_name(path) {
        Some(name) => match find_last_dot(&name) {
            Some(i) => if i > 0 {
                assert(name@.subrange(0, i as int) =~= name@.take(i as int));
                Some(slice_to_string(&name, 0, i))
            } else {
                Some(from_chars(&name))
            },
            None => Some(from_chars(&name)),
        },
        None => None,
    }
}

/// The stem and the extension of a file's name make up the name again.
pub proof fn law_stem_and_extension_make_up_name(path: Seq<char>)
    requires
        extension(path) is Some,
    ensures
        file_name(path) == Some(file_stem(path)->0 + seq!['.'] + extension(path)->0),
{
    let name = file_name(path)->0;
    lemma_last_dot(name);
    let i = last_dot(name)->0;
    lemma_dot_at(name);
    assert(name =~= name.take(i) + seq!['.'] + name.skip(i + 1));
}

proof fn lemma_dot_at(name: Seq<char>)
    ensures
        last_dot(name) matches Some(i) ==> 0 <= i < name.len() && name[i] == '.',
    decreases name.len(),
{
    if name.len() > 0 && name.last() != '.' {
        lemma_dot_at(name.drop_last());
    }
}

/// The extension of a name is what stands behind its last dot: it holds no dot, and nothing has an extension whose
/// only dot begins it.
pub proof fn law_extension_stands_behind_the_last_dot(path: Seq<char>, i: int)
    ensures
        extension(path) is Some && 0 <= i < extension(path)->0.len() ==> extension(path)->0[i]
            != '.',
        extension(path) is Some ==> file_stem(path) is Some && file_stem(path)->0.len() > 0,
        extension(path) is None && file_name(path) is Some ==> file_stem(path) == file_name(path),
        file_name(path) is None <==> file_stem(path) is None,
        file_name(path) is Some && extension(path) is None && 0 < i < file_name(path)->0.len()
            ==> file_name(path)->0[i] != '.',
{
    if let Some(name) = file_name(path) {
        lemma_dot_at(name);
        lemma_no_later_dot(name);
        if let Some(at) = last_dot(name) {
            if at > 0 && 0 <= i < extension(path)->0.len() {
                assert(name[at + 1 + i] == extension(path)->0[i]);
            }
        }
    }
}

proof fn lemma_no_later_dot(name: Seq<char>)
    ensures
        match last_dot(name) {
            Some(at) => forall|i: int| at < i < name.len() ==> #[trigger] name[i] != '.',
            None => forall|i: int| 0 <= i < name.len() ==> #[trigger] name[i] != '.',
        },
    decreases name.len(),
{
    lemma_dot_at(name);
    if name.len() > 0 && name.last() != '.' {
        lemma_no_later_dot(name.drop_last());
        assert forall|i: int| 0 <= i < name.len() - 1 implies #[trigger] name[i]
            == name.drop_last()[i] by {
        }
    }
}

/// The components of a path are what stands between its slashes, but for nothing and for a single dot, in its
/// order.
pub proof fn law_components_stand_between_slashes(path: Seq<char>, part: Seq<char>)
    requires
        part != seq!['/'],
        part != seq!['.'],
    ensures
        components(path).contains(part) <==> crate::strings::segments(path, '/').contains(part)
            && part.len() > 0,
{
    let keep = |segment: Seq<char>| is_component(segment);
    let segments = crate::strings::segments(path, '/');
    let kept = component_segments(segments);
    let start = path_start(path);
    crate::seqs::lemma_kept_items(segments, keep);
    if components(path).contains(part) {
        let k = choose|k: int| 0 <= k < components(path).len() && components(path)[k] == part;
        assert(k >= start.len());
        assert(kept[k - start.len()] == part);
    }
    if segments.contains(part) && part.len() > 0 {
        let i = choose|i: int| 0 <= i < segments.len() && segments[i] == part;
        assert(keep(segments[i]));
        let k = choose|k: int| 0 <= k < kept.len() && kept[k] == part;
        assert(components(path)[start.len() + k] == part);
    }
}

/// The name of a file is the last component of its path, and `..`, `.` and `/` are no names.
pub proof fn law_file_names(path: Seq<char>)
    ensures
        match file_name(path) {
            Some(name) => components(path).len() > 0 && components(path).last() == name && name
                != seq!['/'] && name != seq!['.'] && name != seq!['.', '.'],
            None => components(path).len() > 0 ==> components(path).last() == seq!['/']
                || components(path).last() == seq!['.'] || components(path).last() == seq!['.', '.'],
        },
{
}

/// An absolute path begins with the root, and no other path does; slashes that repeat, or that end a path, do not count.
pub proof fn law_absolute_paths_begin_at_the_root(path: Seq<char>)
    ensures
        path.len() > 0 && path[0] == '/' ==> components(path).len() > 0 && components(path)[0]
            == seq!['/'],
        path.len() > 0 && path[0] != '/' ==> !components(path).contains(seq!['/']),
        same_place(path, path),
{
    let slash = seq!['/'];
    if path.len() > 0 && path[0] != '/' && components(path).contains(slash) {
        let segments = crate::strings::segments(path, '/');
        let keep = |segment: Seq<char>| is_component(segment);
        let k = choose|k: int| 0 <= k < components(path).len() && components(path)[k] == slash;
        let start = path_start(path);
        crate::seqs::lemma_kept_items(segments, keep);
        crate::strings::law_split_text_can_be_joined(path, '/');
        if k < start.len() {
            assert(start[k] == seq!['.']);
            assert(slash[0] == '/' && seq!['.'][0] == '.');
        } else {
            let kept = component_segments(segments);
            assert(kept[k - start.len()] == slash);
            let i = choose|i: int| 0 <= i < segments.len() && segments[i] == slash;
            assert(segments[i][0] == '/');
        }
    }
}

/// A path that ends in a slash, and one without it, name the same place; so do paths in which a slash is doubled at the end.
pub proof fn law_slashes_at_the_end_do_not_count(path: Seq<char>)
    requires
        path.len() > 0,
    ensures
        same_place(path, path.push('/')),
{
    let longer = path.push('/');
    let none = Seq::<char>::empty();
    let keep = |segment: Seq<char>| is_component(segment);
    crate::strings::law_separators_separate(path, '/', none);
    assert(longer + none =~= longer);
    let segments = crate::strings::segments(path, '/');
    let more = crate::strings::segments(longer, '/');
    assert(more == segments.push(none));
    crate::strings::lemma_segments_not_empty(path, '/');
    assert(more.drop_last() =~= segments);
    assert(!keep(none));
    assert(more.last() == none);
    assert(component_segments(more) == component_segments(segments));
    assert(more[0] == segments[0]);
    assert(path_start(longer) == path_start(path));
}

} // verus!
