//! Key bindings that are configured while the compositor runs.

use crate::strings::{from_chars, lower_chars, same_chars, split_filled, to_chars};
use vstd::multiset::Multiset;
use crate::ordered_map::OrderedMap;
use vstd::prelude::*;

verus! {

/// When a key binding takes effect.
#[derive(Clone, Copy, Debug, PartialEq, Eq, Structural)]
pub enum RuntimeKeyBindingPhase {
    Press,
    Release,
}

impl Default for RuntimeKeyBindingPhase {
    fn default() -> (phase: RuntimeKeyBindingPhase)
        ensures
            phase == RuntimeKeyBindingPhase::Press,
    {
        RuntimeKeyBindingPhase::Press
    }
}

/// A key binding as it is written in the configuration.
#[derive(Clone, Debug)]
pub struct RuntimeKeyBindingEntry {
    pub id: String,
    /// Modifiers and one key, separated by `+`.
    pub shortcut: String,
    pub on: RuntimeKeyBindingPhase,
}

/// A change of the configured key bindings.
#[derive(Clone, Debug)]
pub struct RuntimeKeyBindingConfigUpdate {
    pub entries: Vec<RuntimeKeyBindingEntry>,
}

/// The modifiers that are held down.
#[derive(Clone, Copy, Debug, PartialEq, Eq, Structural)]
pub struct Modifiers {
    pub ctrl: bool,
    pub alt: bool,
    pub shift: bool,
    pub logo: bool,
}

/// A key with the modifiers that have to be held.
#[derive(Clone, Copy, Debug, PartialEq, Eq, Structural)]
pub struct RuntimeKeyShortcut {
    pub ctrl: bool,
    pub alt: bool,
    pub shift: bool,
    pub logo: bool,
    pub keysym: u32,
}

impl RuntimeKeyShortcut {
    /// The keys that are held are exactly those of the shortcut.
    pub open spec fn is_held(self, modifiers: Modifiers, keysym: Option<u32>) -> bool {
        &&& modifiers == (Modifiers {
            ctrl: self.ctrl,
            alt: self.alt,
            shift: self.shift,
            logo: self.logo,
        })
        &&& keysym == Some(self.keysym)
    }

    /// Whether the keys that are held are exactly those of the shortcut. `keysym` is the symbol of
    /// the key without modifiers, if it has one.
    pub fn matches(&self, modifiers: &Modifiers, keysym: Option<u32>) -> (held: bool)
        ensures
            held == self.is_held(*modifiers, keysym),
    {
        match keysym {
            None => false,
            Some(keysym) => self.ctrl == modifiers.ctrl && self.alt == modifiers.alt && self.shift
                == modifiers.shift && self.logo == modifiers.logo && self.keysym == keysym,
        }
    }
}

/// A key binding that is ready to be matched.
#[derive(Clone, Debug)]
pub struct CompiledRuntimeKeyBinding {
    pub id: String,
    pub phase: RuntimeKeyBindingPhase,
    pub shortcut: RuntimeKeyShortcut,
}

impl CompiledRuntimeKeyBinding {
    /// The key event triggers the binding: it comes in the phase of the binding, and its shortcut is
    /// held.
    pub open spec fn is_triggered(
        &self,
        phase: RuntimeKeyBindingPhase,
        modifiers: Modifiers,
        keysym: Option<u32>,
    ) -> bool {
        self.phase == phase && self.shortcut.is_held(modifiers, keysym)
    }

    /// Whether a key event triggers the binding.
    pub fn matches(
        &self,
        phase: RuntimeKeyBindingPhase,
        modifiers: &Modifiers,
        keysym: Option<u32>,
    ) -> (triggered: bool)
        ensures
            triggered == self.is_triggered(phase, *modifiers, keysym),
            triggered ==> self.phase == phase,
            triggered ==> self.shortcut.is_held(*modifiers, keysym),
    {
        self.phase == phase && self.shortcut.matches(modifiers, keysym)
    }
}

/// Each modifier counts on its own: a shortcut is held exactly if every modifier that it asks for is down,
/// every other one is up, and the key is the one of the shortcut.
pub proof fn law_every_modifier_counts(
    shortcut: RuntimeKeyShortcut,
    modifiers: Modifiers,
    keysym: Option<u32>,
)
    ensures
        shortcut.is_held(modifiers, keysym) ==> modifiers.ctrl == shortcut.ctrl,
        shortcut.is_held(modifiers, keysym) ==> modifiers.alt == shortcut.alt,
        shortcut.is_held(modifiers, keysym) ==> modifiers.shift == shortcut.shift,
        shortcut.is_held(modifiers, keysym) ==> modifiers.logo == shortcut.logo,
        shortcut.is_held(modifiers, keysym) ==> keysym == Some(shortcut.keysym),
        modifiers.ctrl == shortcut.ctrl && modifiers.alt == shortcut.alt && modifiers.shift
            == shortcut.shift && modifiers.logo == shortcut.logo && keysym == Some(shortcut.keysym)
            ==> shortcut.is_held(modifiers, keysym),
{
}

/// A shortcut that is held is no longer held once one of the modifiers changes, whichever it is, nor
/// without its key.
pub proof fn law_no_other_modifiers_hold(
    shortcut: RuntimeKeyShortcut,
    held: Modifiers,
    keysym: Option<u32>,
    other: Modifiers,
)
    requires
        shortcut.is_held(held, keysym),
        other.ctrl != held.ctrl || other.alt != held.alt || other.shift != held.shift || other.logo
            != held.logo,
    ensures
        !shortcut.is_held(other, keysym),
        !shortcut.is_held(held, None),
{
}

/// Two shortcuts that are held by the same keys are the same.
pub proof fn law_held_shortcut_is_unique(
    a: RuntimeKeyShortcut,
    b: RuntimeKeyShortcut,
    modifiers: Modifiers,
    keysym: Option<u32>,
)
    requires
        a.is_held(modifiers, keysym),
        b.is_held(modifiers, keysym),
    ensures
        a == b,
{
}

/// Why a shortcut is not valid.
#[derive(Debug)]
pub enum RuntimeKeyBindingParseError {
    EmptyShortcut,
    MissingKey(String),
    UnknownModifier { shortcut: String, modifier: String },
    DuplicateModifier { shortcut: String, modifier: String },
    MultipleKeys { shortcut: String },
    UnknownKey { shortcut: String, key: String },
}

// ---- parts of a shortcut ------------------------------------------------------------------------

/// The parts of a shortcut.
pub open spec fn shortcut_parts(shortcut: Seq<char>) -> Seq<Seq<char>> {
    crate::strings::filled_parts(shortcut, '+')
}

// ---- modifiers ----------------------------------------------------------------------------------

/// The modifiers that a shortcut can name.
#[derive(Clone, Copy, Debug, PartialEq, Eq, Structural)]
pub enum Modifier {
    Ctrl,
    Alt,
    Shift,
    Logo,
}

/// The modifier that a part names, in upper or lower case.
pub open spec fn named_modifier(part: Seq<char>) -> Option<Modifier> {
    let name = crate::strings::lowered(part);
    if name == "ctrl"@ || name == "control"@ {
        Some(Modifier::Ctrl)
    } else if name == "alt"@ || name == "mod1"@ {
        Some(Modifier::Alt)
    } else if name == "shift"@ {
        Some(Modifier::Shift)
    } else if name == "super"@ || name == "logo"@ || name == "meta"@ || name == "win"@ || name
        == "mod4"@ {
        Some(Modifier::Logo)
    } else {
        None
    }
}

fn is_named(name: &Vec<char>, wanted: &str) -> (same: bool)
    ensures
        same == (name@ == wanted@),
{
    let wanted = to_chars(wanted);
    same_chars(name, &wanted)
}

/// The modifier that a part of a shortcut names.
pub fn modifier_slot(part: &Vec<char>) -> (modifier: Option<Modifier>)
    ensures
        modifier == named_modifier(part@),
{
    let name = lower_chars(part);
    if is_named(&name, "ctrl") || is_named(&name, "control") {
        Some(Modifier::Ctrl)
    } else if is_named(&name, "alt") || is_named(&name, "mod1") {
        Some(Modifier::Alt)
    } else if is_named(&name, "shift") {
        Some(Modifier::Shift)
    } else if is_named(&name, "super") || is_named(&name, "logo") || is_named(&name, "meta")
        || is_named(&name, "win") || is_named(&name, "mod4") {
        Some(Modifier::Logo)
    } else {
        None
    }
}

// ---- shortcuts ----------------------------------------------------------------------------------

/// The name under which a key is looked up: a single character in lower case, a longer name as it
/// is.
pub open spec fn lookup_name(part: Seq<char>) -> Seq<char> {
    if part.len() == 1 {
        crate::strings::lowered(part)
    } else {
        part
    }
}

/// The first of the first `count` parts that names no modifier.
pub open spec fn first_key(parts: Seq<Seq<char>>, count: int) -> Option<int>
    decreases count,
{
    if count <= 0 {
        None
    } else {
        match first_key(parts, count - 1) {
            Some(i) => Some(i),
            None => if named_modifier(parts[count - 1]) is None {
                Some(count - 1)
            } else {
                None
            },
        }
    }
}

/// One of the first `count` parts names the modifier.
pub open spec fn names_modifier(parts: Seq<Seq<char>>, count: int, modifier: Modifier) -> bool {
    exists|i: int| 0 <= i < count && named_modifier(#[trigger] parts[i]) == Some(modifier)
}

/// The part at `i` makes the shortcut invalid: it names a modifier again, it is a second key, or
/// it is a key that does not exist.
pub open spec fn offends(parts: Seq<Seq<char>>, i: int, key_exists: bool) -> bool {
    match named_modifier(parts[i]) {
        Some(modifier) => names_modifier(parts, i, modifier),
        None => first_key(parts, i) is Some || !key_exists,
    }
}

/// The first of the first `count` parts that makes the shortcut invalid.
pub open spec fn first_offence(parts: Seq<Seq<char>>, count: int, key_exists: bool) -> Option<int>
    decreases count,
{
    if count <= 0 {
        None
    } else {
        match first_offence(parts, count - 1, key_exists) {
            Some(i) => Some(i),
            None => if offends(parts, count - 1, key_exists) {
                Some(count - 1)
            } else {
                None
            },
        }
    }
}

/// The error that a part causes.
pub open spec fn is_offence_error(
    error: RuntimeKeyBindingParseError,
    shortcut: Seq<char>,
    parts: Seq<Seq<char>>,
    i: int,
) -> bool {
    if named_modifier(parts[i]) is Some {
        error matches RuntimeKeyBindingParseError::DuplicateModifier { shortcut: s, modifier }
            && s@ == shortcut && modifier@ == parts[i]
    } else if first_key(parts, i) is Some {
        error matches RuntimeKeyBindingParseError::MultipleKeys { shortcut: s } && s@ == shortcut
    } else {
        error matches RuntimeKeyBindingParseError::UnknownKey { shortcut: s, key } && s@ == shortcut
            && key@ == parts[i]
    }
}

/// What parsing a shortcut gives, where `keysym` is what its first key was looked up as. Without
/// any part the shortcut is empty; otherwise the first part that makes it invalid decides; and
/// without a key the key is missing.
pub open spec fn is_parsed_shortcut(
    result: Result<RuntimeKeyShortcut, RuntimeKeyBindingParseError>,
    shortcut: Seq<char>,
    keysym: Option<u32>,
) -> bool {
    let parts = shortcut_parts(shortcut);
    let count = parts.len() as int;
    if count == 0 {
        result matches Err(error) && error is EmptyShortcut
    } else {
        match first_offence(parts, count, keysym is Some) {
            Some(i) => result matches Err(error) && is_offence_error(error, shortcut, parts, i),
            None => match (first_key(parts, count), keysym) {
                (Some(_), Some(keysym)) => result == Ok::<
                    RuntimeKeyShortcut,
                    RuntimeKeyBindingParseError,
                >(
                    RuntimeKeyShortcut {
                        ctrl: names_modifier(parts, count, Modifier::Ctrl),
                        alt: names_modifier(parts, count, Modifier::Alt),
                        shift: names_modifier(parts, count, Modifier::Shift),
                        logo: names_modifier(parts, count, Modifier::Logo),
                        keysym,
                    },
                ),
                _ => result matches Err(error) && error matches
                    RuntimeKeyBindingParseError::MissingKey(s) && s@ == shortcut,
            },
        }
    }
}

proof fn lemma_first_key_named(parts: Seq<Seq<char>>, count: int)
    requires
        0 <= count <= parts.len(),
    ensures
        match first_key(parts, count) {
            Some(i) => 0 <= i < count && named_modifier(parts[i]) is None && first_key(parts, i)
                is None,
            None => forall|i: int|
                0 <= i < count ==> named_modifier(#[trigger] parts[i]) is Some,
        },
    decreases count,
{
    if count > 0 {
        lemma_first_key_named(parts, count - 1);
    }
}

/// An offence stays the first one when more parts are looked at.
proof fn lemma_first_offence_stays(parts: Seq<Seq<char>>, at: int, count: int, key_exists: bool)
    requires
        0 <= at < count,
        first_offence(parts, at, key_exists) is None,
        offends(parts, at, key_exists),
    ensures
        first_offence(parts, count, key_exists) == Some(at),
    decreases count,
{
    if count > at + 1 {
        lemma_first_offence_stays(parts, at, count - 1, key_exists);
    }
}

proof fn lemma_names_modifier_step(parts: Seq<Seq<char>>, count: int, modifier: Modifier)
    requires
        0 <= count < parts.len(),
    ensures
        names_modifier(parts, count + 1, modifier) == (names_modifier(parts, count, modifier)
            || named_modifier(parts[count]) == Some(modifier)),
{
    if names_modifier(parts, count, modifier) {
        let i = choose|i: int|
            0 <= i < count && named_modifier(#[trigger] parts[i]) == Some(modifier);
        assert(named_modifier(parts[i]) == Some(modifier));
    }
}

/// The name under which the key of a shortcut is looked up, if the shortcut has one.
pub open spec fn key_name(shortcut: Seq<char>) -> Option<Seq<char>> {
    let parts = shortcut_parts(shortcut);
    match first_key(parts, parts.len() as int) {
        Some(i) => Some(lookup_name(parts[i])),
        None => None,
    }
}

/// The name of the key of a shortcut, as it is looked up; none if the shortcut has no key.
pub fn shortcut_key_name(shortcut: &str) -> (name: Option<String>)
    ensures
        match name {
            Some(name) => key_name(shortcut@) == Some(name@),
            None => key_name(shortcut@) is None,
        },
{
    let parts = split_filled(shortcut, '+');
    let ghost texts = shortcut_parts(shortcut@);
    let mut i: usize = 0;
    while i < parts.len()
        invariant
            i <= parts@.len(),
            texts == shortcut_parts(shortcut@),
            crate::strings::char_lists(parts@) == texts,
            first_key(texts, i as int) is None,
        decreases parts@.len() - i,
    {
        assert(parts@[i as int]@ == texts[i as int]);
        if modifier_slot(&parts[i]).is_none() {
            let part = &parts[i];
            proof {
                lemma_first_key_stays(texts, i as int, texts.len() as int);
            }
            if part.len() == 1 {
                let lowered = lower_chars(part);
                return Some(from_chars(&lowered));
            }
            return Some(from_chars(part));
        }
        i += 1;
    }
    None
}

/// A key stays the first one when more parts are looked at.
proof fn lemma_first_key_stays(parts: Seq<Seq<char>>, at: int, count: int)
    requires
        0 <= at < count,
        first_key(parts, at) is None,
        named_modifier(parts[at]) is None,
    ensures
        first_key(parts, count) == Some(at),
    decreases count,
{
    if count > at + 1 {
        lemma_first_key_stays(parts, at, count - 1);
    }
}

/// The number that stands for no key.
pub const NO_SYMBOL: u32 = 0;

/// The symbol of a key that was looked up.
pub open spec fn symbol_of(raw: u32) -> Option<u32> {
    if raw == NO_SYMBOL {
        None
    } else {
        Some(raw)
    }
}

/// The number zero stands for no key, and every other number for the key with that symbol.
pub proof fn law_symbols_stand_for_keys(raw: u32)
    ensures
        symbol_of(0) is None,
        raw != 0 ==> symbol_of(raw) == Some(raw),
{
}

/// The symbol of a key that was looked up by its name, unless no key has that name.
pub fn known_keysym(raw: u32) -> (keysym: Option<u32>)
    ensures
        keysym == symbol_of(raw),
{
    if raw == NO_SYMBOL {
        None
    } else {
        Some(raw)
    }
}

/// Parses a shortcut. `keysym` is what the name of its key was looked up as, if that key exists.
pub fn parse_runtime_key_shortcut(shortcut: &str, keysym: Option<u32>) -> (result: Result<
    RuntimeKeyShortcut,
    RuntimeKeyBindingParseError,
>)
    ensures
        is_parsed_shortcut(result, shortcut@, keysym),
{
    let parts = split_filled(shortcut, '+');
    let ghost texts = shortcut_parts(shortcut@);
    assert(parts@.len() == texts.len());
    if parts.len() == 0 {
        return Err(RuntimeKeyBindingParseError::EmptyShortcut);
    }
    let mut ctrl: bool = false;
    let mut alt: bool = false;
    let mut shift: bool = false;
    let mut logo: bool = false;
    let mut has_key: bool = false;
    let mut i: usize = 0;
    while i < parts.len()
        invariant
            i <= parts@.len(),
            texts == shortcut_parts(shortcut@),
            crate::strings::char_lists(parts@) == texts,
            parts@.len() == texts.len() > 0,
            first_offence(texts, i as int, keysym is Some) is None,
            has_key == (first_key(texts, i as int) is Some),
            has_key ==> keysym is Some,
            ctrl == names_modifier(texts, i as int, Modifier::Ctrl),
            alt == names_modifier(texts, i as int, Modifier::Alt),
            shift == names_modifier(texts, i as int, Modifier::Shift),
            logo == names_modifier(texts, i as int, Modifier::Logo),
        decreases parts@.len() - i,
    {
        let part = &parts[i];
        assert(part@ == texts[i as int]);
        proof {
            lemma_names_modifier_step(texts, i as int, Modifier::Ctrl);
            lemma_names_modifier_step(texts, i as int, Modifier::Alt);
            lemma_names_modifier_step(texts, i as int, Modifier::Shift);
            lemma_names_modifier_step(texts, i as int, Modifier::Logo);
            if offends(texts, i as int, keysym is Some) {
                lemma_first_offence_stays(
                    texts,
                    i as int,
                    texts.len() as int,
                    keysym is Some,
                );
            }
        }
        match modifier_slot(part) {
            Some(modifier) => {
                let held: bool = match modifier {
                    Modifier::Ctrl => ctrl,
                    Modifier::Alt => alt,
                    Modifier::Shift => shift,
                    Modifier::Logo => logo,
                };
                if held {
                    return Err(
                        RuntimeKeyBindingParseError::DuplicateModifier {
                            shortcut: shortcut.to_owned(),
                            modifier: from_chars(part),
                        },
                    );
                }
                match modifier {
                    Modifier::Ctrl => ctrl = true,
                    Modifier::Alt => alt = true,
                    Modifier::Shift => shift = true,
                    Modifier::Logo => logo = true,
                }
            },
            None => {
                if has_key {
                    return Err(
                        RuntimeKeyBindingParseError::MultipleKeys {
                            shortcut: shortcut.to_owned(),
                        },
                    );
                }
                if keysym.is_none() {
                    return Err(
                        RuntimeKeyBindingParseError::UnknownKey {
                            shortcut: shortcut.to_owned(),
                            key: from_chars(part),
                        },
                    );
                }
                has_key = true;
            },
        }
        i += 1;
    }
    if has_key {
        if let Some(keysym) = keysym {
            return Ok(RuntimeKeyShortcut { ctrl, alt, shift, logo, keysym });
        }
    }
    Err(RuntimeKeyBindingParseError::MissingKey(shortcut.to_owned()))
}

/// One of the first `count` parts names a modifier that an earlier one names.
pub open spec fn modifier_repeats(parts: Seq<Seq<char>>, count: int) -> bool {
    exists|i: int, j: int|
        0 <= i < j < count && named_modifier(#[trigger] parts[i]) is Some && named_modifier(
            parts[i],
        ) == named_modifier(#[trigger] parts[j])
}

/// Two of the first `count` parts name no modifier.
pub open spec fn has_two_keys(parts: Seq<Seq<char>>, count: int) -> bool {
    exists|i: int, j: int|
        0 <= i < j < count && named_modifier(#[trigger] parts[i]) is None && named_modifier(
            #[trigger] parts[j],
        ) is None
}

proof fn lemma_no_offence(parts: Seq<Seq<char>>, count: int, key_exists: bool)
    requires
        0 <= count <= parts.len(),
    ensures
        first_offence(parts, count, key_exists) is None <==> (!modifier_repeats(parts, count)
            && !has_two_keys(parts, count) && (first_key(parts, count) is Some ==> key_exists)),
    decreases count,
{
    if count > 0 {
        let last = count - 1;
        lemma_no_offence(parts, last, key_exists);
        lemma_first_key_named(parts, last);
        lemma_first_key_named(parts, count);
        if modifier_repeats(parts, last) {
            let (i, j) = choose|i: int, j: int|
                0 <= i < j < last && named_modifier(#[trigger] parts[i]) is Some && named_modifier(
                    parts[i],
                ) == named_modifier(#[trigger] parts[j]);
            assert(named_modifier(parts[i]) == named_modifier(parts[j]));
            assert(modifier_repeats(parts, count));
        }
        if has_two_keys(parts, last) {
            let (i, j) = choose|i: int, j: int|
                0 <= i < j < last && named_modifier(#[trigger] parts[i]) is None && named_modifier(
                    #[trigger] parts[j],
                ) is None;
            assert(named_modifier(parts[i]) is None && named_modifier(parts[j]) is None);
            assert(has_two_keys(parts, count));
        }
        match named_modifier(parts[last]) {
            Some(modifier) => {
                if names_modifier(parts, last, modifier) {
                    let i = choose|i: int|
                        0 <= i < last && named_modifier(#[trigger] parts[i]) == Some(modifier);
                    assert(named_modifier(parts[i]) == named_modifier(parts[last]));
                    assert(modifier_repeats(parts, count));
                }
            },
            None => {
                if let Some(i) = first_key(parts, last) {
                    assert(named_modifier(parts[i]) is None && named_modifier(parts[last]) is None);
                    assert(has_two_keys(parts, count));
                }
            },
        }
    }
}

/// A shortcut is valid exactly if it has one key, which exists, and names no modifier twice.
pub proof fn law_valid_shortcut_has_one_key(
    shortcut: Seq<char>,
    keysym: Option<u32>,
    result: Result<RuntimeKeyShortcut, RuntimeKeyBindingParseError>,
)
    requires
        is_parsed_shortcut(result, shortcut, keysym),
    ensures
        ({
            let parts = shortcut_parts(shortcut);
            let count = parts.len() as int;
            result is Ok <==> first_key(parts, count) is Some && !has_two_keys(parts, count)
                && !modifier_repeats(parts, count) && keysym is Some
        }),
{
    let parts = shortcut_parts(shortcut);
    lemma_no_offence(parts, parts.len() as int, keysym is Some);
}

/// One of the parts of a shortcut is spelled like the name, in upper or lower case.
pub open spec fn spells(shortcut: Seq<char>, name: Seq<char>) -> bool {
    exists|i: int|
        0 <= i < shortcut_parts(shortcut).len() && crate::strings::lowered(
            #[trigger] shortcut_parts(shortcut)[i],
        ) == name
}

/// The modifiers are those that the parts of a shortcut spell, and no others.
pub open spec fn are_spelled(modifiers: Modifiers, shortcut: Seq<char>) -> bool {
    &&& modifiers.ctrl == (spells(shortcut, "ctrl"@) || spells(shortcut, "control"@))
    &&& modifiers.alt == (spells(shortcut, "alt"@) || spells(shortcut, "mod1"@))
    &&& modifiers.shift == spells(shortcut, "shift"@)
    &&& modifiers.logo == (spells(shortcut, "super"@) || spells(shortcut, "logo"@) || spells(
        shortcut,
        "meta"@,
    ) || spells(shortcut, "win"@) || spells(shortcut, "mod4"@))
}

/// The names of the modifiers are different texts.
proof fn lemma_names_differ()
    ensures
        "ctrl"@ != "alt"@ && "ctrl"@ != "mod1"@ && "ctrl"@ != "shift"@ && "ctrl"@ != "super"@
            && "ctrl"@ != "logo"@ && "ctrl"@ != "meta"@ && "ctrl"@ != "win"@ && "ctrl"@ != "mod4"@,
        "control"@ != "alt"@ && "control"@ != "mod1"@ && "control"@ != "shift"@ && "control"@
            != "super"@ && "control"@ != "logo"@ && "control"@ != "meta"@ && "control"@ != "win"@
            && "control"@ != "mod4"@,
        "alt"@ != "shift"@ && "alt"@ != "super"@ && "alt"@ != "logo"@ && "alt"@ != "meta"@ && "alt"@
            != "win"@ && "alt"@ != "mod4"@,
        "mod1"@ != "shift"@ && "mod1"@ != "super"@ && "mod1"@ != "logo"@ && "mod1"@ != "meta"@
            && "mod1"@ != "win"@ && "mod1"@ != "mod4"@,
        "shift"@ != "super"@ && "shift"@ != "logo"@ && "shift"@ != "meta"@ && "shift"@ != "win"@
            && "shift"@ != "mod4"@,
{
    reveal_strlit("ctrl");
    reveal_strlit("control");
    reveal_strlit("alt");
    reveal_strlit("mod1");
    reveal_strlit("shift");
    reveal_strlit("super");
    reveal_strlit("logo");
    reveal_strlit("meta");
    reveal_strlit("win");
    reveal_strlit("mod4");
    assert("ctrl"@[0] == 'c' && "ctrl"@.len() == 4);
    assert("control"@[0] == 'c' && "control"@.len() == 7);
    assert("alt"@[0] == 'a' && "alt"@.len() == 3);
    assert("mod1"@[0] == 'm' && "mod1"@[3] == '1' && "mod1"@.len() == 4);
    assert("mod4"@[0] == 'm' && "mod4"@[3] == '4' && "mod4"@.len() == 4);
    assert("shift"@[0] == 's' && "shift"@[1] == 'h' && "shift"@.len() == 5);
    assert("super"@[0] == 's' && "super"@[1] == 'u' && "super"@.len() == 5);
    assert("logo"@[0] == 'l' && "logo"@.len() == 4);
    assert("meta"@[0] == 'm' && "meta"@[3] == 'a' && "meta"@.len() == 4);
    assert("win"@[0] == 'w' && "win"@.len() == 3);
}

proof fn lemma_named_is_spelled(shortcut: Seq<char>, modifier: Modifier)
    ensures
        names_modifier(shortcut_parts(shortcut), shortcut_parts(shortcut).len() as int, modifier)
            == (match modifier {
            Modifier::Ctrl => spells(shortcut, "ctrl"@) || spells(shortcut, "control"@),
            Modifier::Alt => spells(shortcut, "alt"@) || spells(shortcut, "mod1"@),
            Modifier::Shift => spells(shortcut, "shift"@),
            Modifier::Logo => spells(shortcut, "super"@) || spells(shortcut, "logo"@) || spells(
                shortcut,
                "meta"@,
            ) || spells(shortcut, "win"@) || spells(shortcut, "mod4"@),
        }),
{
    let parts = shortcut_parts(shortcut);
    lemma_names_differ();
    if names_modifier(parts, parts.len() as int, modifier) {
        let i = choose|i: int|
            0 <= i < parts.len() && named_modifier(#[trigger] parts[i]) == Some(modifier);
        let name = crate::strings::lowered(parts[i]);
        assert(spells(shortcut, name));
    }
    if spells(shortcut, "ctrl"@) {
        let i = choose|i: int|
            0 <= i < parts.len() && crate::strings::lowered(#[trigger] parts[i]) == "ctrl"@;
        assert(named_modifier(parts[i]) == Some(Modifier::Ctrl));
    }
    if spells(shortcut, "control"@) {
        let i = choose|i: int|
            0 <= i < parts.len() && crate::strings::lowered(#[trigger] parts[i]) == "control"@;
        assert(named_modifier(parts[i]) == Some(Modifier::Ctrl));
    }
    if spells(shortcut, "alt"@) {
        let i = choose|i: int|
            0 <= i < parts.len() && crate::strings::lowered(#[trigger] parts[i]) == "alt"@;
        assert(named_modifier(parts[i]) == Some(Modifier::Alt));
    }
    if spells(shortcut, "mod1"@) {
        let i = choose|i: int|
            0 <= i < parts.len() && crate::strings::lowered(#[trigger] parts[i]) == "mod1"@;
        assert(named_modifier(parts[i]) == Some(Modifier::Alt));
    }
    if spells(shortcut, "shift"@) {
        let i = choose|i: int|
            0 <= i < parts.len() && crate::strings::lowered(#[trigger] parts[i]) == "shift"@;
        assert(named_modifier(parts[i]) == Some(Modifier::Shift));
    }
    if spells(shortcut, "super"@) {
        let i = choose|i: int|
            0 <= i < parts.len() && crate::strings::lowered(#[trigger] parts[i]) == "super"@;
        assert(named_modifier(parts[i]) == Some(Modifier::Logo));
    }
    if spells(shortcut, "logo"@) {
        let i = choose|i: int|
            0 <= i < parts.len() && crate::strings::lowered(#[trigger] parts[i]) == "logo"@;
        assert(named_modifier(parts[i]) == Some(Modifier::Logo));
    }
    if spells(shortcut, "meta"@) {
        let i = choose|i: int|
            0 <= i < parts.len() && crate::strings::lowered(#[trigger] parts[i]) == "meta"@;
        assert(named_modifier(parts[i]) == Some(Modifier::Logo));
    }
    if spells(shortcut, "win"@) {
        let i = choose|i: int|
            0 <= i < parts.len() && crate::strings::lowered(#[trigger] parts[i]) == "win"@;
        assert(named_modifier(parts[i]) == Some(Modifier::Logo));
    }
    if spells(shortcut, "mod4"@) {
        let i = choose|i: int|
            0 <= i < parts.len() && crate::strings::lowered(#[trigger] parts[i]) == "mod4"@;
        assert(named_modifier(parts[i]) == Some(Modifier::Logo));
    }
}

/// A shortcut that is read from a text is held by precisely the modifiers that the parts of the text
/// spell, together with the key that was looked up for it.
pub proof fn law_shortcut_is_held_as_it_is_spelled(
    shortcut: Seq<char>,
    keysym: Option<u32>,
    read: RuntimeKeyShortcut,
    modifiers: Modifiers,
    pressed: Option<u32>,
)
    requires
        is_parsed_shortcut(Ok(read), shortcut, keysym),
    ensures
        read.is_held(modifiers, pressed) <==> are_spelled(modifiers, shortcut) && pressed == keysym,
        keysym is Some,
{
    lemma_named_is_spelled(shortcut, Modifier::Ctrl);
    lemma_named_is_spelled(shortcut, Modifier::Alt);
    lemma_named_is_spelled(shortcut, Modifier::Shift);
    lemma_named_is_spelled(shortcut, Modifier::Logo);
}

/// A binding is triggered by an event exactly if the event comes in the phase that the configuration
/// asks for, the modifiers that are down are those that its shortcut spells, and the key is the one that
/// was looked up for it. It keeps its id.
pub proof fn law_binding_is_triggered_as_it_is_written(
    entry: RuntimeKeyBindingEntry,
    keysym: Option<u32>,
    binding: CompiledRuntimeKeyBinding,
    phase: RuntimeKeyBindingPhase,
    modifiers: Modifiers,
    pressed: Option<u32>,
)
    requires
        entry.compiles_to(keysym, Ok(binding)),
    ensures
        binding.is_triggered(phase, modifiers, pressed) <==> phase == entry.on && are_spelled(
            modifiers,
            entry.shortcut@,
        ) && pressed == keysym,
        binding.id@ == entry.id@,
{
    law_shortcut_is_held_as_it_is_spelled(
        entry.shortcut@,
        keysym,
        binding.shortcut,
        modifiers,
        pressed,
    );
}

/// What an error says of a shortcut is so: an empty one has no part, a missing key is one that no part
/// names, a modifier that is named again is named before by another part, and a second key or an unknown
/// key is a part that names no modifier.
pub proof fn law_errors_tell_what_is_wrong(
    shortcut: Seq<char>,
    keysym: Option<u32>,
    error: RuntimeKeyBindingParseError,
)
    requires
        is_parsed_shortcut(Err(error), shortcut, keysym),
    ensures
        ({
            let parts = shortcut_parts(shortcut);
            match error {
                RuntimeKeyBindingParseError::EmptyShortcut => parts.len() == 0,
                RuntimeKeyBindingParseError::MissingKey(text) => {
                    &&& text@ == shortcut
                    &&& parts.len() > 0
                    &&& forall|i: int|
                        0 <= i < parts.len() ==> named_modifier(#[trigger] parts[i]) is Some
                },
                RuntimeKeyBindingParseError::DuplicateModifier { shortcut: text, modifier } => {
                    &&& text@ == shortcut
                    &&& exists|i: int, j: int|
                        0 <= i < j < parts.len() && #[trigger] parts[j] == modifier@
                            && named_modifier(#[trigger] parts[i]) is Some && named_modifier(
                            parts[i],
                        ) == named_modifier(parts[j])
                },
                RuntimeKeyBindingParseError::MultipleKeys { shortcut: text } => text@ == shortcut
                    && has_two_keys(parts, parts.len() as int),
                RuntimeKeyBindingParseError::UnknownKey { shortcut: text, key } => {
                    &&& text@ == shortcut
                    &&& keysym is None
                    &&& exists|i: int|
                        0 <= i < parts.len() && #[trigger] parts[i] == key@ && named_modifier(
                            parts[i],
                        ) is None
                },
                RuntimeKeyBindingParseError::UnknownModifier { .. } => false,
            }
        }),
{
    let parts = shortcut_parts(shortcut);
    let count = parts.len() as int;
    lemma_first_key_named(parts, count);
    lemma_no_offence(parts, count, keysym is Some);
    if count > 0 {
        if let Some(i) = first_offence(parts, count, keysym is Some) {
            lemma_first_offence_offends(parts, count, keysym is Some);
            lemma_first_key_named(parts, i);
            match named_modifier(parts[i]) {
                Some(modifier) => {
                    let j = choose|j: int|
                        0 <= j < i && named_modifier(#[trigger] parts[j]) == Some(modifier);
                    assert(named_modifier(parts[j]) == named_modifier(parts[i]));
                },
                None => {
                    if let Some(j) = first_key(parts, i) {
                        assert(named_modifier(parts[j]) is None && named_modifier(parts[i]) is None);
                    }
                },
            }
        }
    }
}

proof fn lemma_first_offence_offends(parts: Seq<Seq<char>>, count: int, key_exists: bool)
    ensures
        first_offence(parts, count, key_exists) matches Some(i) ==> 0 <= i < count && offends(
            parts,
            i,
            key_exists,
        ),
    decreases count,
{
    if count > 0 {
        lemma_first_offence_offends(parts, count - 1, key_exists);
    }
}

/// The key of a shortcut is looked up under the name that stands in it: one of its parts that names no
/// modifier, a single character in lower case.
pub proof fn law_key_is_looked_up_as_it_is_spelled(shortcut: Seq<char>)
    ensures
        ({
            let parts = shortcut_parts(shortcut);
            match key_name(shortcut) {
                Some(name) => exists|i: int|
                    0 <= i < parts.len() && named_modifier(#[trigger] parts[i]) is None && name
                        == (if parts[i].len() == 1 {
                        crate::strings::lowered(parts[i])
                    } else {
                        parts[i]
                    }),
                None => forall|i: int|
                    0 <= i < parts.len() ==> named_modifier(#[trigger] parts[i]) is Some,
            }
        }),
{
    lemma_first_key_named(shortcut_parts(shortcut), shortcut_parts(shortcut).len() as int);
}

/// Whether a shortcut is valid, and what a valid one means, is settled by its text and its key.
pub proof fn law_shortcut_is_read_in_one_way(
    shortcut: Seq<char>,
    keysym: Option<u32>,
    a: Result<RuntimeKeyShortcut, RuntimeKeyBindingParseError>,
    b: Result<RuntimeKeyShortcut, RuntimeKeyBindingParseError>,
)
    requires
        is_parsed_shortcut(a, shortcut, keysym),
        is_parsed_shortcut(b, shortcut, keysym),
    ensures
        a is Ok <==> b is Ok,
        a is Ok ==> a == b,
{
}

// ---- shortcuts that read alike ------------------------------------------------------------------

/// What a part of a shortcut stands for: a modifier, however it is written, or a key.
pub enum PartMeaning {
    Modifier(Modifier),
    Key(Seq<char>),
}

/// What a part of a shortcut stands for.
pub open spec fn meaning(part: Seq<char>) -> PartMeaning {
    match named_modifier(part) {
        Some(modifier) => PartMeaning::Modifier(modifier),
        None => PartMeaning::Key(lookup_name(part)),
    }
}

/// What the parts of a shortcut stand for, one by one.
pub open spec fn part_meanings(parts: Seq<Seq<char>>) -> Seq<PartMeaning> {
    Seq::new(parts.len(), |i: int| meaning(parts[i]))
}

/// What the parts of a shortcut stand for, in no order.
pub open spec fn meanings(shortcut: Seq<char>) -> Multiset<PartMeaning> {
    part_meanings(shortcut_parts(shortcut)).to_multiset()
}

/// A shortcut that is read from the one text is read from the other one as well, and its key is
/// looked up under the same name.
pub open spec fn reads_alike(shortcut: Seq<char>, other: Seq<char>) -> bool {
    forall|keysym: Option<u32>, read: RuntimeKeyShortcut| #[trigger]
        is_parsed_shortcut(Ok(read), shortcut, keysym) ==> is_parsed_shortcut(
            Ok(read),
            other,
            keysym,
        ) && key_name(other) == key_name(shortcut)
}

/// No two parts of a valid shortcut stand for the same.
proof fn lemma_valid_parts_differ(parts: Seq<Seq<char>>)
    requires
        !has_two_keys(parts, parts.len() as int),
        !modifier_repeats(parts, parts.len() as int),
    ensures
        part_meanings(parts).no_duplicates(),
{
    let list = part_meanings(parts);
    assert forall|i: int, j: int| 0 <= i < j < list.len() implies list[i] != list[j] by {
        if list[i] == list[j] {
            assert(named_modifier(parts[i]) == named_modifier(parts[j]));
            if named_modifier(parts[i]) is Some {
                assert(modifier_repeats(parts, parts.len() as int));
            } else {
                assert(has_two_keys(parts, parts.len() as int));
            }
        }
    }
}

/// Where parts stand for the same in another order, each of the one is found among the other.
proof fn lemma_meaning_found(parts: Seq<Seq<char>>, other: Seq<Seq<char>>, i: int) -> (j: int)
    requires
        part_meanings(parts).to_multiset() == part_meanings(other).to_multiset(),
        0 <= i < parts.len(),
    ensures
        0 <= j < other.len(),
        meaning(other[j]) == meaning(parts[i]),
{
    let a = part_meanings(parts);
    let b = part_meanings(other);
    a.to_multiset_ensures();
    b.to_multiset_ensures();
    assert(a[i] == meaning(parts[i]));
    assert(a.contains(a[i]));
    assert(b.to_multiset().count(a[i]) > 0);
    choose|j: int| 0 <= j < b.len() && b[j] == a[i]
}

proof fn lemma_same_modifiers(parts: Seq<Seq<char>>, other: Seq<Seq<char>>, modifier: Modifier)
    requires
        part_meanings(parts).to_multiset() == part_meanings(other).to_multiset(),
        names_modifier(parts, parts.len() as int, modifier),
    ensures
        names_modifier(other, other.len() as int, modifier),
{
    let i = choose|i: int|
        0 <= i < parts.len() && named_modifier(#[trigger] parts[i]) == Some(modifier);
    let j = lemma_meaning_found(parts, other, i);
    assert(named_modifier(other[j]) == Some(modifier));
}

/// Parts that stand for the same as those of a valid shortcut make up a valid shortcut with the
/// same key.
proof fn lemma_same_key(parts: Seq<Seq<char>>, other: Seq<Seq<char>>)
    requires
        part_meanings(parts).to_multiset() == part_meanings(other).to_multiset(),
        first_key(parts, parts.len() as int) is Some,
        !has_two_keys(parts, parts.len() as int),
        !modifier_repeats(parts, parts.len() as int),
    ensures
        !has_two_keys(other, other.len() as int),
        !modifier_repeats(other, other.len() as int),
        first_key(other, other.len() as int) is Some,
        lookup_name(other[first_key(other, other.len() as int)->0]) == lookup_name(
            parts[first_key(parts, parts.len() as int)->0],
        ),
{
    let a = part_meanings(parts);
    let b = part_meanings(other);
    let count = other.len() as int;
    lemma_valid_parts_differ(parts);
    a.lemma_multiset_has_no_duplicates();
    b.lemma_multiset_has_no_duplicates_conv();
    lemma_first_key_named(parts, parts.len() as int);
    lemma_first_key_named(other, count);
    let key = first_key(parts, parts.len() as int)->0;
    let found = lemma_meaning_found(parts, other, key);
    assert(named_modifier(other[found]) is None);
    assert forall|j: int| 0 <= j < count && named_modifier(#[trigger] other[j]) is None implies
        meaning(other[j]) == meaning(parts[key]) by {
        let i = lemma_meaning_found(other, parts, j);
        assert(named_modifier(parts[i]) is None && named_modifier(parts[key]) is None);
        if i != key {
            assert(has_two_keys(parts, parts.len() as int));
        }
    }
    if modifier_repeats(other, count) {
        let (i, j) = choose|i: int, j: int|
            0 <= i < j < count && named_modifier(#[trigger] other[i]) is Some && named_modifier(
                other[i],
            ) == named_modifier(#[trigger] other[j]);
        assert(b[i] == b[j]);
    }
    if has_two_keys(other, count) {
        let (i, j) = choose|i: int, j: int|
            0 <= i < j < count && named_modifier(#[trigger] other[i]) is None && named_modifier(
                #[trigger] other[j],
            ) is None;
        assert(b[i] == b[j]);
    }
}

/// Two texts whose parts stand for the same modifiers and the same key read alike.
pub proof fn law_same_parts_read_alike(shortcut: Seq<char>, other: Seq<char>)
    requires
        meanings(shortcut) == meanings(other),
    ensures
        reads_alike(shortcut, other),
{
    let parts = shortcut_parts(shortcut);
    let count = parts.len() as int;
    let others = shortcut_parts(other);
    assert forall|keysym: Option<u32>, read: RuntimeKeyShortcut| #[trigger]
        is_parsed_shortcut(Ok(read), shortcut, keysym) implies is_parsed_shortcut(
        Ok(read),
        other,
        keysym,
    ) && key_name(other) == key_name(shortcut) by {
        law_valid_shortcut_has_one_key(shortcut, keysym, Ok(read));
        lemma_same_key(parts, others);
        lemma_first_key_named(others, others.len() as int);
        lemma_no_offence(others, others.len() as int, keysym is Some);
        assert forall|modifier: Modifier| #[trigger]
            names_modifier(others, others.len() as int, modifier) == names_modifier(
                parts,
                count,
                modifier,
            ) by {
            if names_modifier(parts, count, modifier) {
                lemma_same_modifiers(parts, others, modifier);
            }
            if names_modifier(others, others.len() as int, modifier) {
                lemma_same_modifiers(others, parts, modifier);
            }
        }
    }
}

/// What the filled ones of some texts stand for.
spec fn spoken(texts: Seq<Seq<char>>) -> Seq<PartMeaning> {
    part_meanings(crate::strings::filled(texts))
}

proof fn lemma_spoken_concat(a: Seq<Seq<char>>, b: Seq<Seq<char>>)
    ensures
        spoken(a + b) == spoken(a) + spoken(b),
{
    crate::strings::lemma_filled_concat(a, b);
    assert(spoken(a + b) =~= spoken(a) + spoken(b));
}

proof fn lemma_spoken_around(texts: Seq<Seq<char>>, at: int)
    requires
        0 <= at < texts.len(),
    ensures
        spoken(texts) == spoken(texts.take(at)) + spoken(seq![texts[at]]) + spoken(
            texts.skip(at + 1),
        ),
        spoken(texts.remove(at)) == spoken(texts.take(at)) + spoken(texts.skip(at + 1)),
{
    let head = texts.take(at);
    let text = seq![texts[at]];
    let tail = texts.skip(at + 1);
    assert(texts =~= head + text + tail);
    assert(texts.remove(at) =~= head + tail);
    lemma_spoken_concat(head + text, tail);
    lemma_spoken_concat(head, text);
    lemma_spoken_concat(head, tail);
}

proof fn lemma_spoken_shuffled(texts: Seq<Seq<char>>, shuffled: Seq<Seq<char>>)
    requires
        texts.to_multiset() == shuffled.to_multiset(),
    ensures
        spoken(texts).to_multiset() == spoken(shuffled).to_multiset(),
    decreases texts.len(),
{
    texts.to_multiset_ensures();
    shuffled.to_multiset_ensures();
    if texts.len() == 0 {
        assert(shuffled =~= texts);
    } else {
        let last = texts.len() - 1;
        let text = texts[last];
        assert(texts.contains(text));
        assert(shuffled.to_multiset().count(text) > 0);
        let at = choose|at: int| 0 <= at < shuffled.len() && shuffled[at] == text;
        lemma_spoken_shuffled(texts.remove(last), shuffled.remove(at));
        lemma_spoken_around(texts, last);
        lemma_spoken_around(shuffled, at);
        let one = spoken(seq![text]);
        let (a, b) = (spoken(texts.take(last)), spoken(texts.skip(last + 1)));
        let (c, d) = (spoken(shuffled.take(at)), spoken(shuffled.skip(at + 1)));
        vstd::seq_lib::lemma_multiset_commutative(a + one, b);
        vstd::seq_lib::lemma_multiset_commutative(a, one);
        vstd::seq_lib::lemma_multiset_commutative(a, b);
        vstd::seq_lib::lemma_multiset_commutative(c + one, d);
        vstd::seq_lib::lemma_multiset_commutative(c, one);
        vstd::seq_lib::lemma_multiset_commutative(c, d);
        assert(spoken(texts).to_multiset() =~= (a + b).to_multiset().add(one.to_multiset()));
        assert(spoken(shuffled).to_multiset() =~= (c + d).to_multiset().add(one.to_multiset()));
    }
}

/// The order of the parts between the `+` signs does not matter.
pub proof fn law_order_of_parts_is_free(shortcut: Seq<char>, other: Seq<char>)
    requires
        crate::strings::segments(other, '+').to_multiset() == crate::strings::segments(
            shortcut,
            '+',
        ).to_multiset(),
    ensures
        reads_alike(shortcut, other),
{
    lemma_spoken_shuffled(
        crate::strings::segments(shortcut, '+'),
        crate::strings::segments(other, '+'),
    );
    law_same_parts_read_alike(shortcut, other);
}

/// White space around a part does not matter: what is read with it is read without it, and the other
/// way round.
pub proof fn law_blanks_around_parts_are_free(
    shortcut: Seq<char>,
    padded: Seq<char>,
    at: int,
    before: Seq<char>,
    after: Seq<char>,
)
    requires
        0 <= at < crate::strings::segments(shortcut, '+').len(),
        crate::strings::is_blank(before),
        crate::strings::is_blank(after),
        crate::strings::segments(padded, '+') == crate::strings::segments(shortcut, '+').update(
            at,
            before + crate::strings::segments(shortcut, '+')[at] + after,
        ),
    ensures
        reads_alike(shortcut, padded),
        reads_alike(padded, shortcut),
{
    let texts = crate::strings::segments(shortcut, '+');
    let others = crate::strings::segments(padded, '+');
    crate::strings::lemma_trimmed_padded(before, texts[at], after);
    lemma_spoken_rewritten(texts, at, others[at]);
    law_same_parts_read_alike(shortcut, padded);
    law_same_parts_read_alike(padded, shortcut);
}

/// Rewriting one text in a way that leaves its meaning leaves what all of them stand for.
proof fn lemma_spoken_rewritten(texts: Seq<Seq<char>>, at: int, text: Seq<char>)
    requires
        0 <= at < texts.len(),
        crate::strings::trimmed(text).len() == crate::strings::trimmed(texts[at]).len(),
        meaning(crate::strings::trimmed(text)) == meaning(crate::strings::trimmed(texts[at])),
    ensures
        spoken(texts.update(at, text)) == spoken(texts),
{
    let rewritten = texts.update(at, text);
    lemma_spoken_around(texts, at);
    lemma_spoken_around(rewritten, at);
    assert(rewritten.take(at) =~= texts.take(at));
    assert(rewritten.skip(at + 1) =~= texts.skip(at + 1));
    lemma_spoken_one(text);
    lemma_spoken_one(texts[at]);
}

proof fn lemma_spoken_one(text: Seq<char>)
    ensures
        spoken(seq![text]) == (if crate::strings::trimmed(text).len() == 0 {
            Seq::empty()
        } else {
            seq![meaning(crate::strings::trimmed(text))]
        }),
{
    let one = seq![text];
    assert(one.drop_last() =~= Seq::empty());
    assert(crate::strings::filled(one.drop_last()) =~= Seq::empty());
    if crate::strings::trimmed(text).len() == 0 {
        assert(spoken(one) =~= Seq::empty());
    } else {
        assert(crate::strings::filled(one) =~= seq![crate::strings::trimmed(text)]);
        assert(spoken(one) =~= seq![meaning(crate::strings::trimmed(text))]);
    }
}

/// A part of white space alone does not matter, wherever it stands.
pub proof fn law_blank_parts_are_free(
    shortcut: Seq<char>,
    longer: Seq<char>,
    at: int,
    blank: Seq<char>,
)
    requires
        0 <= at <= crate::strings::segments(shortcut, '+').len(),
        crate::strings::is_blank(blank),
        crate::strings::segments(longer, '+') == crate::strings::segments(shortcut, '+').insert(
            at,
            blank,
        ),
    ensures
        reads_alike(shortcut, longer),
        reads_alike(longer, shortcut),
{
    let texts = crate::strings::segments(shortcut, '+');
    let others = crate::strings::segments(longer, '+');
    crate::strings::lemma_trimmed_blank(blank);
    lemma_spoken_around(others, at);
    lemma_spoken_one(blank);
    assert(others.remove(at) =~= texts);
    assert(spoken(others) =~= spoken(texts));
    law_same_parts_read_alike(shortcut, longer);
    law_same_parts_read_alike(longer, shortcut);
}

/// The case of the letters of a modifier does not matter.
pub proof fn law_case_of_modifiers_is_free(
    shortcut: Seq<char>,
    other: Seq<char>,
    at: int,
    respelled: Seq<char>,
)
    requires
        0 <= at < crate::strings::segments(shortcut, '+').len(),
        named_modifier(
            crate::strings::trimmed(crate::strings::segments(shortcut, '+')[at]),
        ) is Some,
        crate::strings::lowered(respelled) == crate::strings::lowered(
            crate::strings::segments(shortcut, '+')[at],
        ),
        crate::strings::segments(other, '+') == crate::strings::segments(shortcut, '+').update(
            at,
            respelled,
        ),
    ensures
        reads_alike(shortcut, other),
        reads_alike(other, shortcut),
{
    let texts = crate::strings::segments(shortcut, '+');
    crate::strings::lemma_lowered_trimmed(respelled);
    crate::strings::lemma_lowered_trimmed(texts[at]);
    let a = crate::strings::trimmed(respelled);
    let b = crate::strings::trimmed(texts[at]);
    assert(crate::strings::lowered(a).len() == a.len());
    assert(crate::strings::lowered(b).len() == b.len());
    lemma_spoken_rewritten(texts, at, respelled);
    law_same_parts_read_alike(shortcut, other);
    law_same_parts_read_alike(other, shortcut);
}

/// No part of a shortcut is empty.
pub proof fn law_parts_are_filled(shortcut: Seq<char>, i: int)
    requires
        0 <= i < shortcut_parts(shortcut).len(),
    ensures
        shortcut_parts(shortcut)[i].len() > 0,
{
    crate::strings::lemma_filled(crate::strings::segments(shortcut, '+'), i);
}

impl RuntimeKeyBindingEntry {
    /// What compiling the binding gives, where `keysym` is what its key was looked up as.
    pub open spec fn compiles_to(
        &self,
        keysym: Option<u32>,
        result: Result<CompiledRuntimeKeyBinding, RuntimeKeyBindingParseError>,
    ) -> bool {
        match result {
            Ok(binding) => binding.id@ == self.id@ && binding.phase == self.on
                && is_parsed_shortcut(Ok(binding.shortcut), self.shortcut@, keysym),
            Err(error) => is_parsed_shortcut(Err(error), self.shortcut@, keysym),
        }
    }

    /// The shortcut of the binding is valid.
    pub open spec fn is_valid(&self, keysym: Option<u32>) -> bool {
        let parts = shortcut_parts(self.shortcut@);
        let count = parts.len() as int;
        first_key(parts, count) is Some && !has_two_keys(parts, count) && !modifier_repeats(
            parts,
            count,
        ) && keysym is Some
    }

    /// Makes the binding ready to be matched. `keysym` is what the name of its key was looked up
    /// as, if that key exists.
    pub fn compile(&self, keysym: Option<u32>) -> (result: Result<
        CompiledRuntimeKeyBinding,
        RuntimeKeyBindingParseError,
    >)
        ensures
            self.compiles_to(keysym, result),
            result is Ok <==> self.is_valid(keysym),
    {
        let parsed = parse_runtime_key_shortcut(self.shortcut.as_str(), keysym);
        proof {
            law_valid_shortcut_has_one_key(self.shortcut@, keysym, parsed);
        }
        match parsed {
            Ok(shortcut) => Ok(
                CompiledRuntimeKeyBinding { id: self.id.clone(), phase: self.on, shortcut },
            ),
            Err(error) => Err(error),
        }
    }
}

/// The positions of the valid bindings.
pub open spec fn valid_positions(entries: Seq<RuntimeKeyBindingEntry>, keysyms: Seq<Option<u32>>) -> Seq<
    int,
>
    decreases entries.len(),
{
    if entries.len() == 0 {
        Seq::empty()
    } else {
        let last = entries.len() - 1;
        let before = valid_positions(entries.drop_last(), keysyms);
        if entries[last].is_valid(keysyms[last]) {
            before.push(last)
        } else {
            before
        }
    }
}

/// Makes the valid bindings ready to be matched, in the order of their keys in the map; the others are
/// left out. The symbols are what the keys of the bindings were looked up as.
pub fn compile_runtime_key_bindings(
    entries: &OrderedMap<RuntimeKeyBindingEntry>,
    keysyms: &Vec<Option<u32>>,
) -> (bindings: Vec<CompiledRuntimeKeyBinding>)
    requires
        entries.wf(),
        entries.values().len() == keysyms@.len(),
    ensures
        bindings@.len() == valid_positions(entries.values(), keysyms@).len(),
        forall|k: int|
            0 <= k < bindings@.len() ==> ({
                let at = valid_positions(entries.values(), keysyms@)[k];
                entries.values()[at].compiles_to(keysyms@[at], Ok(#[trigger] bindings@[k]))
            }),
{
    let mut bindings: Vec<CompiledRuntimeKeyBinding> = Vec::new();
    let ghost values = entries.values();
    let count: usize = entries.len();
    let mut i: usize = 0;
    while i < count
        invariant
            i <= count == keysyms@.len() == values.len(),
            values == entries.values(),
            bindings@.len() == valid_positions(values.take(i as int), keysyms@).len(),
            forall|k: int|
                0 <= k < bindings@.len() ==> ({
                    let at = valid_positions(values.take(i as int), keysyms@)[k];
                    values[at].compiles_to(keysyms@[at], Ok(#[trigger] bindings@[k]))
                }),
        decreases count - i,
    {
        let ghost before = valid_positions(values.take(i as int), keysyms@);
        let ghost now = valid_positions(values.take(i + 1), keysyms@);
        assert(values.take(i + 1).drop_last() == values.take(i as int));
        let ghost earlier = bindings@;
        match entries.value(i).compile(keysyms[i]) {
            Ok(binding) => {
                bindings.push(binding);
                assert(now == before.push(i as int));
            },
            Err(_) => {
                assert(now == before);
            },
        }
        i += 1;
    }
    assert(values.take(i as int) == values);
    bindings
}

proof fn lemma_valid_positions(entries: Seq<RuntimeKeyBindingEntry>, keysyms: Seq<Option<u32>>)
    ensures
        forall|k: int|
            0 <= k < valid_positions(entries, keysyms).len() ==> 0 <= #[trigger] valid_positions(
                entries,
                keysyms,
            )[k] < entries.len(),
        forall|j: int, k: int|
            0 <= j < k < valid_positions(entries, keysyms).len() ==> #[trigger] valid_positions(
                entries,
                keysyms,
            )[j] < #[trigger] valid_positions(entries, keysyms)[k],
    decreases entries.len(),
{
    if entries.len() > 0 {
        lemma_valid_positions(entries.drop_last(), keysyms);
        let before = valid_positions(entries.drop_last(), keysyms);
        let all = valid_positions(entries, keysyms);
        assert forall|k: int| 0 <= k < before.len() implies all[k] == #[trigger] before[k] by {
        }
        assert forall|k: int| 0 <= k < all.len() implies 0 <= #[trigger] all[k] < entries.len() by {
            if k < before.len() {
                assert(all[k] == before[k]);
            }
        }
        assert forall|j: int, k: int| 0 <= j < k < all.len() implies #[trigger] all[j]
            < #[trigger] all[k] by {
            assert(all[j] == before[j]);
            if k < before.len() {
                assert(all[k] == before[k]);
            }
        }
    }
}

/// The valid bindings stand in the order of their keys in the map, so that no key gives two of them.
pub proof fn law_bindings_stand_in_order(
    entries: OrderedMap<RuntimeKeyBindingEntry>,
    keysyms: Seq<Option<u32>>,
    j: int,
    k: int,
)
    requires
        entries.wf(),
        0 <= j < k < valid_positions(entries.values(), keysyms).len(),
    ensures
        crate::ordered_map::is_before(
            entries.entries()[valid_positions(entries.values(), keysyms)[j]].key@,
            entries.entries()[valid_positions(entries.values(), keysyms)[k]].key@,
        ),
{
    lemma_valid_positions(entries.values(), keysyms);
}

impl RuntimeKeyBindingParseError {
    /// The error in words.
    pub open spec fn words(&self) -> Seq<char> {
        match self {
            RuntimeKeyBindingParseError::EmptyShortcut => "shortcut must not be empty"@,
            RuntimeKeyBindingParseError::MissingKey(shortcut) => "shortcut `"@ + shortcut@
                + "` must include exactly one non-modifier key"@,
            RuntimeKeyBindingParseError::UnknownModifier { shortcut, modifier } => "shortcut `"@
                + shortcut@ + "` contains unknown modifier `"@ + modifier@ + "`"@,
            RuntimeKeyBindingParseError::DuplicateModifier { shortcut, modifier } => "shortcut `"@
                + shortcut@ + "` contains duplicate modifier `"@ + modifier@ + "`"@,
            RuntimeKeyBindingParseError::MultipleKeys { shortcut } => "shortcut `"@ + shortcut@
                + "` contains multiple non-modifier keys"@,
            RuntimeKeyBindingParseError::UnknownKey { shortcut, key } => "shortcut `"@ + shortcut@
                + "` contains unknown key `"@ + key@ + "`"@,
        }
    }

    /// The error in words.
    pub fn message(&self) -> (text: String)
        ensures
            text@ == self.words(),
    {
        if let RuntimeKeyBindingParseError::EmptyShortcut = self {
            return "shortcut must not be empty".to_owned();
        }
        let mut text = "shortcut `".to_owned();
        match self {
            RuntimeKeyBindingParseError::EmptyShortcut => {},
            RuntimeKeyBindingParseError::MissingKey(shortcut) => {
                text.append(shortcut.as_str());
                text.append("` must include exactly one non-modifier key");
            },
            RuntimeKeyBindingParseError::UnknownModifier { shortcut, modifier } => {
                text.append(shortcut.as_str());
                text.append("` contains unknown modifier `");
                text.append(modifier.as_str());
                text.append("`");
            },
            RuntimeKeyBindingParseError::DuplicateModifier { shortcut, modifier } => {
                text.append(shortcut.as_str());
                text.append("` contains duplicate modifier `");
                text.append(modifier.as_str());
                text.append("`");
            },
            RuntimeKeyBindingParseError::MultipleKeys { shortcut } => {
                text.append(shortcut.as_str());
                text.append("` contains multiple non-modifier keys");
            },
            RuntimeKeyBindingParseError::UnknownKey { shortcut, key } => {
                text.append(shortcut.as_str());
                text.append("` contains unknown key `");
                text.append(key.as_str());
                text.append("`");
            },
        }
        text
    }
}

/// The parts of a shortcut are what stands between its plus signs, without the white space around it: a part behind another
/// plus sign is one more part, and the only part of a text without one.
pub proof fn law_plus_signs_separate_parts(shortcut: Seq<char>, part: Seq<char>)
    requires
        forall|i: int| 0 <= i < part.len() ==> #[trigger] part[i] != '+',
        part.len() > 0,
        crate::strings::trimmed(part) == part,
    ensures
        shortcut_parts(shortcut + seq!['+'] + part) == shortcut_parts(shortcut).push(part),
        shortcut_parts(part) == seq![part],
{
    crate::strings::law_separators_separate(shortcut, '+', part);
    assert(shortcut + seq!['+'] + part =~= shortcut.push('+') + part);
    let before = crate::strings::segments(shortcut, '+');
    crate::strings::law_filled_texts(before, seq![part], part);
    assert(before.push(part) =~= before + seq![part]);
    assert(shortcut_parts(shortcut + seq!['+'] + part) =~= shortcut_parts(shortcut).push(part));
}

/// The bindings that are kept are exactly the valid ones: those with one key, which exists, and no modifier twice.
pub proof fn law_valid_bindings_are_kept(
    entries: Seq<RuntimeKeyBindingEntry>,
    keysyms: Seq<Option<u32>>,
    i: int,
)
    requires
        0 <= i < entries.len(),
        entries.len() <= keysyms.len(),
    ensures
        valid_positions(entries, keysyms).contains(i) <==> {
            let parts = shortcut_parts(entries[i].shortcut@);
            &&& keysyms[i] is Some
            &&& first_key(parts, parts.len() as int) is Some
            &&& !has_two_keys(parts, parts.len() as int)
            &&& !modifier_repeats(parts, parts.len() as int)
        },
    decreases entries.len(),
{
    let head = entries.drop_last();
    let before = valid_positions(head, keysyms);
    let all = valid_positions(entries, keysyms);
    let last = entries.len() - 1;
    lemma_valid_positions(head, keysyms);
    if i < last {
        law_valid_bindings_are_kept(head, keysyms, i);
        assert(head[i] == entries[i]);
        if before.contains(i) {
            let k = choose|k: int| 0 <= k < before.len() && before[k] == i;
            assert(all[k] == i);
        }
        if all.contains(i) {
            let k = choose|k: int| 0 <= k < all.len() && all[k] == i;
            assert(k < before.len());
            assert(before[k] == i);
        }
    } else {
        if entries[last].is_valid(keysyms[last]) {
            assert(all[before.len() as int] == last);
        }
        if all.contains(i) {
            let k = choose|k: int| 0 <= k < all.len() && all[k] == i;
            if k < before.len() {
                assert(before[k] == i);
            }
        }
    }
}

/// The key of a shortcut is one part that names no modifier, and there is one exactly if some part names none.
pub proof fn law_first_key_is_the_first_part_without_a_modifier(parts: Seq<Seq<char>>)
    ensures
        match first_key(parts, parts.len() as int) {
            Some(at) => 0 <= at < parts.len() && named_modifier(parts[at]) is None && forall|i: int|
                0 <= i < at ==> named_modifier(#[trigger] parts[i]) is Some,
            None => forall|i: int|
                0 <= i < parts.len() ==> named_modifier(#[trigger] parts[i]) is Some,
        },
{
    let count = parts.len() as int;
    lemma_first_key_named(parts, count);
    if let Some(at) = first_key(parts, count) {
        lemma_first_key_named(parts, at);
    }
}

/// Each name of a modifier, in any case of its letters, names that modifier, and nothing else names one.
pub proof fn law_modifiers_have_their_names(part: Seq<char>)
    ensures
        ({
            let name = crate::strings::lowered(part);
            &&& named_modifier(part) == Some(Modifier::Ctrl) <==> name == "ctrl"@ || name
                == "control"@
            &&& named_modifier(part) == Some(Modifier::Alt) <==> name == "alt"@ || name == "mod1"@
            &&& named_modifier(part) == Some(Modifier::Shift) <==> name == "shift"@
            &&& named_modifier(part) == Some(Modifier::Logo) <==> name == "super"@ || name == "logo"@
                || name == "meta"@ || name == "win"@ || name == "mod4"@
        }),
{
    lemma_names_differ();
}

/// What an error says in words holds the shortcut that it is about, and the part of it that is wrong.
pub proof fn law_messages_name_what_is_wrong(error: RuntimeKeyBindingParseError)
    ensures
        match error {
            RuntimeKeyBindingParseError::EmptyShortcut => error.words()
                == "shortcut must not be empty"@,
            RuntimeKeyBindingParseError::MissingKey(shortcut) => crate::strings::holds(
                error.words(),
                shortcut@,
            ),
            RuntimeKeyBindingParseError::UnknownModifier { shortcut, modifier } =>
                crate::strings::holds(error.words(), shortcut@) && crate::strings::holds(
                error.words(),
                modifier@,
            ),
            RuntimeKeyBindingParseError::DuplicateModifier { shortcut, modifier } =>
                crate::strings::holds(error.words(), shortcut@) && crate::strings::holds(
                error.words(),
                modifier@,
            ),
            RuntimeKeyBindingParseError::MultipleKeys { shortcut } => crate::strings::holds(
                error.words(),
                shortcut@,
            ),
            RuntimeKeyBindingParseError::UnknownKey { shortcut, key } => crate::strings::holds(
                error.words(),
                shortcut@,
            ) && crate::strings::holds(error.words(), key@),
        },
{
    let start = "shortcut `"@;
    match error {
        RuntimeKeyBindingParseError::EmptyShortcut => {},
        RuntimeKeyBindingParseError::MissingKey(shortcut) => {
            crate::strings::law_parts_of_a_text(
                start,
                shortcut@,
                "` must include exactly one non-modifier key"@,
            );
        },
        RuntimeKeyBindingParseError::UnknownModifier { shortcut, modifier } => {
            lemma_two_parts(
                start,
                shortcut@,
                "` contains unknown modifier `"@,
                modifier@,
                "`"@,
            );
        },
        RuntimeKeyBindingParseError::DuplicateModifier { shortcut, modifier } => {
            lemma_two_parts(
                start,
                shortcut@,
                "` contains duplicate modifier `"@,
                modifier@,
                "`"@,
            );
        },
        RuntimeKeyBindingParseError::MultipleKeys { shortcut } => {
            crate::strings::law_parts_of_a_text(
                start,
                shortcut@,
                "` contains multiple non-modifier keys"@,
            );
        },
        RuntimeKeyBindingParseError::UnknownKey { shortcut, key } => {
            lemma_two_parts(start, shortcut@, "` contains unknown key `"@, key@, "`"@);
        },
    }
}

proof fn lemma_two_parts(
    a: Seq<char>,
    first: Seq<char>,
    b: Seq<char>,
    second: Seq<char>,
    c: Seq<char>,
)
    ensures
        crate::strings::holds(a + first + b + second + c, first),
        crate::strings::holds(a + first + b + second + c, second),
{
    let whole = a + first + b + second + c;
    crate::strings::law_parts_of_a_text(a, first, b + second + c);
    crate::strings::law_parts_of_a_text(a + first + b, second, c);
    assert(whole =~= a + first + (b + second + c));
}

} // verus!
