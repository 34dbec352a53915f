//! Which graphics devices the terminal backend drives.

use crate::paths::{is_same_place, path_file_name};
use crate::strings::{
    chars_at, from_chars, push_u64, same_chars, same_text, split_filled, to_chars, trim,
};
use vstd::prelude::*;

verus! {

/// A graphics device that could be driven.
#[derive(Clone, Debug)]
pub struct TtyDeviceCandidate {
    pub path: String,
    /// The connectors of the device to which a display is connected.
    pub connected_connectors: Vec<String>,
    pub is_primary: bool,
}

/// Why the terminal backend cannot start.
#[derive(Debug)]
pub enum TtyStartError {
    NoDevices,
    /// The devices that were asked for do not exist.
    OverrideUnmatched { value: String },
    NoOutputs,
}

/// A path is meant by a value: the value is that path, or the name of its file.
pub open spec fn is_meant_by(path: Seq<char>, value: Seq<char>) -> bool {
    crate::paths::same_place(path, value) || crate::paths::file_name(path) == Some(value)
}

/// Whether a path is meant by a value.
pub fn path_matches_override(path: &str, override_value: &str) -> (meant: bool)
    ensures
        meant == is_meant_by(path@, override_value@),
{
    if is_same_place(path, override_value) {
        return true;
    }
    match path_file_name(path) {
        Some(name) => {
            let value = to_chars(override_value);
            same_chars(&name, &value)
        },
        None => false,
    }
}

/// Some value of the list means the path.
pub open spec fn is_meant_by_some(path: Seq<char>, values: Seq<Seq<char>>) -> bool {
    exists|i: int| 0 <= i < values.len() && is_meant_by(path, #[trigger] values[i])
}

/// The positions of the first `count` devices that some value means.
pub open spec fn meant_devices(
    candidates: Seq<TtyDeviceCandidate>,
    values: Seq<Seq<char>>,
    count: nat,
) -> Seq<usize>
    decreases count,
{
    if count == 0 {
        Seq::empty()
    } else {
        let before = meant_devices(candidates, values, (count - 1) as nat);
        if is_meant_by_some(candidates[count - 1].path@, values) {
            before.push((count - 1) as usize)
        } else {
            before
        }
    }
}

pub open spec fn is_connected(candidate: TtyDeviceCandidate) -> bool {
    candidate.connected_connectors@.len() > 0
}

/// The first device with displays that is the primary one.
pub open spec fn is_primary_connected(candidates: Seq<TtyDeviceCandidate>, index: int) -> bool {
    &&& 0 <= index < candidates.len()
    &&& is_connected(candidates[index]) && candidates[index].is_primary
    &&& forall|i: int|
        0 <= i < index ==> !(is_connected(#[trigger] candidates[i]) && candidates[i].is_primary)
}

/// The last of the devices with the most displays.
pub open spec fn is_most_connected(candidates: Seq<TtyDeviceCandidate>, index: int) -> bool {
    &&& 0 <= index < candidates.len()
    &&& is_connected(candidates[index])
    &&& forall|i: int|
        0 <= i < candidates.len() ==> (#[trigger] candidates[i]).connected_connectors@.len()
            <= candidates[index].connected_connectors@.len()
    &&& forall|i: int|
        index < i < candidates.len() ==> (#[trigger] candidates[i]).connected_connectors@.len()
            < candidates[index].connected_connectors@.len()
}

pub open spec fn has_primary_connected(candidates: Seq<TtyDeviceCandidate>) -> bool {
    exists|i: int|
        0 <= i < candidates.len() && is_connected(#[trigger] candidates[i])
            && candidates[i].is_primary
}

pub open spec fn has_connected(candidates: Seq<TtyDeviceCandidate>) -> bool {
    exists|i: int| 0 <= i < candidates.len() && is_connected(#[trigger] candidates[i])
}

pub open spec fn has_primary(candidates: Seq<TtyDeviceCandidate>) -> bool {
    exists|i: int| 0 <= i < candidates.len() && (#[trigger] candidates[i]).is_primary
}

/// The device that is driven when none is asked for: the primary one if displays are connected to
/// it; else the one with the most displays; and without any display the primary one, or the first.
pub open spec fn is_default_device(candidates: Seq<TtyDeviceCandidate>, index: int) -> bool {
    if has_primary_connected(candidates) {
        is_primary_connected(candidates, index)
    } else if has_connected(candidates) {
        is_most_connected(candidates, index)
    } else if has_primary(candidates) {
        &&& 0 <= index < candidates.len()
        &&& candidates[index].is_primary
        &&& forall|i: int| 0 <= i < index ==> !(#[trigger] candidates[i]).is_primary
    } else {
        index == 0
    }
}

/// There is only one device that is driven when none is asked for.
pub proof fn law_default_device_is_unique(candidates: Seq<TtyDeviceCandidate>, i: int, j: int)
    requires
        is_default_device(candidates, i),
        is_default_device(candidates, j),
    ensures
        i == j,
{
    if has_primary_connected(candidates) || has_connected(candidates) || has_primary(candidates) {
        let (a, b) = (candidates[i], candidates[j]);
        assert(i < j || j < i || i == j);
    }
}

fn select_default_device(candidates: &Vec<TtyDeviceCandidate>) -> (index: usize)
    requires
        candidates@.len() > 0,
    ensures
        is_default_device(candidates@, index as int),
        index < candidates@.len(),
{
    let mut primary_connected: Option<usize> = None;
    let mut most: Option<usize> = None;
    let mut primary: Option<usize> = None;
    let mut i: usize = 0;
    while i < candidates.len()
        invariant
            i <= candidates@.len(),
            match primary_connected {
                Some(p) => p < i && is_primary_connected(candidates@, p as int),
                None => forall|k: int|
                    0 <= k < i ==> !(is_connected(#[trigger] candidates@[k])
                        && candidates@[k].is_primary),
            },
            match most {
                Some(m) => m < i && is_most_connected(candidates@.take(i as int), m as int),
                None => forall|k: int| 0 <= k < i ==> !is_connected(#[trigger] candidates@[k]),
            },
            match primary {
                Some(p) => p < i && candidates@[p as int].is_primary && forall|k: int|
                    0 <= k < p ==> !(#[trigger] candidates@[k]).is_primary,
                None => forall|k: int| 0 <= k < i ==> !(#[trigger] candidates@[k]).is_primary,
            },
        decreases candidates@.len() - i,
    {
        let ghost seen = candidates@.take(i as int);
        let ghost now = candidates@.take(i + 1);
        assert forall|k: int| 0 <= k < seen.len() implies seen[k] == #[trigger] now[k] by {}
        assert forall|k: int| 0 <= k < now.len() implies candidates@[k] == #[trigger] now[k] by {}
        let candidate = &candidates[i];
        let count: usize = candidate.connected_connectors.len();
        if count > 0 {
            if candidate.is_primary && primary_connected.is_none() {
                primary_connected = Some(i);
            }
            let better: bool = match most {
                Some(m) => candidates[m].connected_connectors.len() <= count,
                None => true,
            };
            if better {
                most = Some(i);
            }
        }
        if candidate.is_primary && primary.is_none() {
            primary = Some(i);
        }
        i += 1;
    }
    assert(candidates@.take(i as int) =~= candidates@);
    match primary_connected {
        Some(p) => {
            assert(has_primary_connected(candidates@));
            p
        },
        None => match most {
            Some(m) => {
                assert(has_connected(candidates@));
                m
            },
            None => match primary {
                Some(p) => {
                    assert(has_primary(candidates@));
                    p
                },
                None => 0,
            },
        },
    }
}

/// What selecting devices gives. `asked_for` is the value by which the user asks for devices:
/// `all`, or paths and names separated by commas.
pub open spec fn is_device_selection(
    candidates: Seq<TtyDeviceCandidate>,
    asked_for: Option<Seq<char>>,
    result: Result<Vec<usize>, TtyStartError>,
) -> bool {
    match asked_for {
        Some(value) => if value == "all"@ {
            result matches Ok(selected) && selected@ == Seq::new(
                candidates.len(),
                |i: int| i as usize,
            )
        } else {
            let meant = meant_devices(
                candidates,
                crate::strings::filled_parts(value, ','),
                candidates.len(),
            );
            if meant.len() == 0 {
                result matches Err(error) && error matches TtyStartError::OverrideUnmatched {
                    value: v,
                } && v@ == value
            } else {
                result matches Ok(selected) && selected@ == meant
            }
        },
        None => result matches Ok(selected) && selected@.len() == 1 && is_default_device(
            candidates,
            selected@[0] as int,
        ),
    }
}

fn is_meant_by_any(path: &str, values: &Vec<Vec<char>>) -> (meant: bool)
    ensures
        meant == is_meant_by_some(path@, crate::strings::char_lists(values@)),
{
    let ghost texts = crate::strings::char_lists(values@);
    let mut i: usize = 0;
    while i < values.len()
        invariant
            i <= values@.len(),
            texts == crate::strings::char_lists(values@),
            forall|k: int| 0 <= k < i ==> !is_meant_by(path@, #[trigger] texts[k]),
        decreases values@.len() - i,
    {
        let value = from_chars(&values[i]);
        assert(texts[i as int] == value@);
        if path_matches_override(path, value.as_str()) {
            return true;
        }
        i += 1;
    }
    false
}

/// Selects the devices that are driven, by their positions. `asked_for` is the value by which the
/// user asks for devices, if there is one.
pub fn select_tty_devices(candidates: &Vec<TtyDeviceCandidate>, asked_for: Option<&str>) -> (result:
    Result<Vec<usize>, TtyStartError>)
    requires
        asked_for is None ==> candidates@.len() > 0,
    ensures
        is_device_selection(
            candidates@,
            match asked_for {
                Some(value) => Some(value@),
                None => None,
            },
            result,
        ),
{
    let value = match asked_for {
        Some(value) => value,
        None => {
            let mut selected: Vec<usize> = Vec::new();
            selected.push(select_default_device(candidates));
            return Ok(selected);
        },
    };
    let mut selected: Vec<usize> = Vec::new();
    let mut i: usize = 0;
    if same_text(value, "all") {
        while i < candidates.len()
            invariant
                i <= candidates@.len(),
                selected@ == Seq::new(i as nat, |k: int| k as usize),
            decreases candidates@.len() - i,
        {
            selected.push(i);
            i += 1;
            assert(selected@ =~= Seq::new(i as nat, |k: int| k as usize));
        }
        return Ok(selected);
    }
    let values = split_filled(value, ',');
    let ghost texts = crate::strings::filled_parts(value@, ',');
    while i < candidates.len()
        invariant
            i <= candidates@.len(),
            crate::strings::char_lists(values@) == texts,
            selected@ == meant_devices(candidates@, texts, i as nat),
        decreases candidates@.len() - i,
    {
        if is_meant_by_any(candidates[i].path.as_str(), &values) {
            selected.push(i);
        }
        i += 1;
    }
    if selected.len() == 0 {
        return Err(TtyStartError::OverrideUnmatched { value: value.to_owned() });
    }
    Ok(selected)
}

/// The name belongs to a connector of the card: the card's name, a dash, and more.
pub open spec fn is_connector_of(name: Seq<char>, card: Seq<char>) -> bool {
    crate::strings::has_prefix(name, card) && card.len() < name.len() && name[card.len() as int]
        == '-'
}

/// A connector with what its status file says, if that can be read.
#[derive(Clone, Debug)]
pub struct ConnectorEntry {
    pub name: String,
    pub status: Option<String>,
}

/// A display is connected to this connector of the card.
pub open spec fn is_connected_to(entry: ConnectorEntry, card: Seq<char>) -> bool {
    is_connector_of(entry.name@, card) && (entry.status matches Some(status)
        && crate::strings::trimmed(status@) == "connected"@)
}

/// The names of the connectors of a card to which displays are connected.
pub open spec fn connected_names(entries: Seq<ConnectorEntry>, card: Seq<char>) -> Seq<Seq<char>>
    decreases entries.len(),
{
    if entries.len() == 0 {
        Seq::empty()
    } else {
        let before = connected_names(entries.drop_last(), card);
        if is_connected_to(entries.last(), card) {
            before.push(entries.last().name@)
        } else {
            before
        }
    }
}

/// The connectors of a card to which displays are connected.
pub fn connected_drm_connectors(entries: &Vec<ConnectorEntry>, card_name: &str) -> (names: Vec<
    String,
>)
    ensures
        crate::seqs::texts(names@) == connected_names(entries@, card_name@),
{
    let card = to_chars(card_name);
    let connected = to_chars("connected");
    let mut names: Vec<String> = Vec::new();
    let mut i: usize = 0;
    assert(crate::seqs::texts(names@) =~= connected_names(entries@.take(0), card_name@));
    while i < entries.len()
        invariant
            i <= entries@.len(),
            card@ == card_name@,
            connected@ == "connected"@,
            crate::seqs::texts(names@) == connected_names(entries@.take(i as int), card_name@),
        decreases entries@.len() - i,
    {
        assert(entries@.take(i + 1).drop_last() =~= entries@.take(i as int));
        let entry = &entries[i];
        let name = to_chars(entry.name.as_str());
        assert(card@.len() <= name@.len() ==> name@.subrange(0, card@.len() as int) =~= name@.take(
            card@.len() as int,
        ));
        let of_card: bool = chars_at(&name, &card, 0) && card.len() < name.len()
            && name[card.len()] == '-';
        let on: bool = match &entry.status {
            Some(status) => {
                let chars = to_chars(status.as_str());
                let status = trim(&chars);
                same_chars(&status, &connected)
            },
            None => false,
        };
        let ghost earlier = names@;
        if of_card && on {
            names.push(entry.name.clone());
            assert(crate::seqs::texts(names@) =~= crate::seqs::texts(earlier).push(entry.name@));
        }
        i += 1;
    }
    assert(entries@.take(i as int) =~= entries@);
    names
}

/// Whether the terminal backend can start with what was found.
pub fn check_devices(device_count: usize) -> (result: Result<(), TtyStartError>)
    ensures
        result is Ok <==> device_count > 0,
        result matches Err(error) ==> error is NoDevices,
{
    if device_count == 0 {
        Err(TtyStartError::NoDevices)
    } else {
        Ok(())
    }
}

/// Whether the terminal backend can go on with the outputs of its devices.
pub fn check_outputs(output_count: usize) -> (result: Result<(), TtyStartError>)
    ensures
        result is Ok <==> output_count > 0,
        result matches Err(error) ==> error is NoOutputs,
{
    if output_count == 0 {
        Err(TtyStartError::NoOutputs)
    } else {
        Ok(())
    }
}

/// The name of an output.
pub open spec fn name_of_output(interface: Seq<char>, interface_id: u32) -> Seq<char> {
    interface + "-"@ + crate::strings::digits(interface_id as nat)
}

/// Outputs have different names: at connectors of one kind by their numbers, and with one number by the kinds of their
/// connectors.
pub proof fn law_output_names_differ(interface: Seq<char>, other: Seq<char>, a: u32, b: u32)
    ensures
        name_of_output(interface, a) == name_of_output(interface, b) ==> a == b,
        name_of_output(interface, a) == name_of_output(other, a) ==> interface == other,
        crate::strings::has_prefix(name_of_output(interface, a), interface),
        name_of_output(interface, a).len() > interface.len()
            && name_of_output(interface, a)[interface.len() as int] == '-',
{
    reveal_strlit("-");
    let n = interface.len() as int;
    let (x, y, z) = (
        name_of_output(interface, a),
        name_of_output(interface, b),
        name_of_output(other, a),
    );
    assert(x.take(n) =~= interface);
    if x == y {
        assert(x.skip(n + 1) =~= crate::strings::decimal(a as int));
        assert(y.skip(n + 1) =~= crate::strings::decimal(b as int));
        crate::strings::law_decimal_is_injective(a as int, b as int);
    }
    if x == z {
        let digits = crate::strings::digits(a as nat);
        assert(x.len() == interface.len() + 1 + digits.len());
        assert(z.len() == other.len() + 1 + digits.len());
        assert(z.take(n) =~= other);
    }
}

/// The name of an output: the kind of its connector and the connector's number.
pub fn output_name(interface: &str, interface_id: u32) -> (name: String)
    ensures
        name@ == name_of_output(interface@, interface_id),
{
    let mut name = interface.to_owned();
    name.append("-");
    push_u64(&mut name, interface_id as u64);
    name
}

// ---- which devices are driven ---------------------------------------------------------------------

/// Without a wish, the device that is driven is a primary one with a display if there is one, and the first of these;
/// else one to which no fewer displays are connected than to any other; and without any display a primary one if there
/// is one.
pub proof fn law_default_device_has_displays(candidates: Seq<TtyDeviceCandidate>, index: int, i: int)
    requires
        is_default_device(candidates, index),
        0 <= i < candidates.len(),
    ensures
        0 <= index < candidates.len(),
        candidates[i].is_primary && candidates[i].connected_connectors@.len() > 0
            ==> candidates[index].is_primary && candidates[index].connected_connectors@.len() > 0
            && index <= i,
        candidates[i].connected_connectors@.len() > 0
            ==> candidates[index].connected_connectors@.len() > 0,
        !(candidates[index].is_primary && candidates[index].connected_connectors@.len() > 0)
            && candidates[i].connected_connectors@.len() > 0
            ==> candidates[i].connected_connectors@.len()
            <= candidates[index].connected_connectors@.len(),
        candidates[i].is_primary && candidates[index].connected_connectors@.len() == 0
            ==> candidates[index].is_primary,
{
    if candidates[i].is_primary {
        assert(has_primary(candidates));
    }
    if is_connected(candidates[i]) {
        assert(has_connected(candidates));
        if candidates[i].is_primary {
            assert(has_primary_connected(candidates));
        }
    }
}

/// Devices that are asked for are driven, and no others: a device is driven exactly if one of the values between the
/// commas is its path or the name of its file. With `all` every device is driven. Where no device is meant, nothing is.
pub proof fn law_asked_for_devices_are_driven(
    candidates: Seq<TtyDeviceCandidate>,
    value: Seq<char>,
    result: Result<Vec<usize>, TtyStartError>,
    i: int,
)
    requires
        is_device_selection(candidates, Some(value), result),
        0 <= i < candidates.len(),
        candidates.len() <= usize::MAX,
    ensures
        value == "all"@ ==> result is Ok && result->Ok_0@.contains(i as usize),
        value != "all"@ && result is Ok ==> (result->Ok_0@.contains(i as usize) <==> exists|k: int|
            0 <= k < crate::strings::filled_parts(value, ',').len() && is_meant_by(
                candidates[i].path@,
                #[trigger] crate::strings::filled_parts(value, ',')[k],
            )),
        result is Err ==> !is_meant_by_some(
            candidates[i].path@,
            crate::strings::filled_parts(value, ','),
        ) && value != "all"@,
{
    let asked = crate::strings::filled_parts(value, ',');
    if value == "all"@ {
        assert(result->Ok_0@[i] == i as usize);
    } else {
        lemma_meant_devices(candidates, asked, candidates.len(), i);
    }
}

proof fn lemma_meant_devices(
    candidates: Seq<TtyDeviceCandidate>,
    values: Seq<Seq<char>>,
    count: nat,
    i: int,
)
    requires
        count <= candidates.len() <= usize::MAX,
        0 <= i < candidates.len(),
    ensures
        meant_devices(candidates, values, count).contains(i as usize) <==> i < count
            && is_meant_by_some(candidates[i].path@, values),
        forall|k: int|
            0 <= k < meant_devices(candidates, values, count).len() ==> #[trigger] meant_devices(
                candidates,
                values,
                count,
            )[k] < count,
        forall|j: int, k: int|
            0 <= j < k < meant_devices(candidates, values, count).len()
                ==> #[trigger] meant_devices(candidates, values, count)[j]
                < #[trigger] meant_devices(candidates, values, count)[k],
    decreases count,
{
    let all = meant_devices(candidates, values, count);
    if count > 0 {
        let before = meant_devices(candidates, values, (count - 1) as nat);
        lemma_meant_devices(candidates, values, (count - 1) as nat, i);
        assert forall|k: int| 0 <= k < before.len() implies all[k] == #[trigger] before[k] by {
        }
        assert forall|k: int| 0 <= k < all.len() implies #[trigger] all[k] < count by {
            if k < before.len() {
                assert(all[k] == before[k]);
            }
        }
        assert forall|j: int, k: int| 0 <= j < k < all.len() implies #[trigger] all[j]
            < #[trigger] all[k] by {
            assert(all[j] == before[j]);
            if k < before.len() {
                assert(all[k] == before[k]);
            }
        }
        if before.contains(i as usize) {
            let k = choose|k: int| 0 <= k < before.len() && before[k] == i as usize;
            assert(all[k] == i as usize);
        }
        if all.contains(i as usize) {
            let k = choose|k: int| 0 <= k < all.len() && all[k] == i as usize;
            if k < before.len() {
                assert(before[k] == i as usize);
            }
        }
        if i == count - 1 && is_meant_by_some(candidates[i].path@, values) {
            assert(all[before.len() as int] == i as usize);
        }
    } else {
        assert(!all.contains(i as usize));
    }
}

/// The devices that are driven are listed in their order, each once.
pub proof fn law_driven_devices_are_listed_once(
    candidates: Seq<TtyDeviceCandidate>,
    value: Option<Seq<char>>,
    result: Result<Vec<usize>, TtyStartError>,
    j: int,
    k: int,
)
    requires
        is_device_selection(candidates, value, result),
        result is Ok,
        0 < candidates.len() <= usize::MAX,
        0 <= j < k < result->Ok_0@.len(),
    ensures
        result->Ok_0@[j] < result->Ok_0@[k] < candidates.len(),
        value is Some,
{
    if let Some(text) = value {
        lemma_meant_devices(
            candidates,
            crate::strings::filled_parts(text, ','),
            candidates.len(),
            0,
        );
    }
}

/// A device is meant by its path, however that is written, and by the name of its file.
pub proof fn law_devices_are_meant_by_path_or_name(path: Seq<char>, value: Seq<char>)
    ensures
        is_meant_by(path, path),
        crate::paths::file_name(path) == Some(value) ==> is_meant_by(path, value),
        is_meant_by(path, value) ==> crate::paths::components(path) == crate::paths::components(value)
            || crate::paths::file_name(path) == Some(value),
{
}

/// Displays are counted for exactly the connectors of a card whose status says, but for white space, that they are
/// connected; a connector of a card has its name behind that of the card and a dash.
pub proof fn law_connected_connectors_are_named(
    entries: Seq<ConnectorEntry>,
    card: Seq<char>,
    name: Seq<char>,
)
    ensures
        connected_names(entries, card).contains(name) <==> exists|i: int|
            0 <= i < entries.len() && (#[trigger] entries[i]).name@ == name
                && crate::strings::has_prefix(name, card + seq!['-']) && (entries[i].status matches Some(
                status,
            ) && crate::strings::trimmed(status@) == "connected"@),
    decreases entries.len(),
{
    let all = connected_names(entries, card);
    if entries.len() > 0 {
        let head = entries.drop_last();
        let last = entries.last();
        let before = connected_names(head, card);
        law_connected_connectors_are_named(head, card, name);
        lemma_connector_prefix(last.name@, card);
        let at = entries.len() - 1;
        if all.contains(name) {
            let k = choose|k: int| 0 <= k < all.len() && all[k] == name;
            if k < before.len() {
                assert(before[k] == name);
                let i = choose|i: int|
                    0 <= i < head.len() && (#[trigger] head[i]).name@ == name
                        && crate::strings::has_prefix(name, card + seq!['-']) && (
                    head[i].status matches Some(status) && crate::strings::trimmed(status@)
                        == "connected"@);
                assert(entries[i] == head[i]);
            } else {
                assert(entries[at].name@ == name);
            }
        }
        if exists|i: int|
            0 <= i < entries.len() && (#[trigger] entries[i]).name@ == name
                && crate::strings::has_prefix(name, card + seq!['-']) && (entries[i].status matches Some(
                status,
            ) && crate::strings::trimmed(status@) == "connected"@) {
            let i = choose|i: int|
                0 <= i < entries.len() && (#[trigger] entries[i]).name@ == name
                    && crate::strings::has_prefix(name, card + seq!['-']) && (
                entries[i].status matches Some(status) && crate::strings::trimmed(status@)
                    == "connected"@);
            if i < at {
                assert(head[i] == entries[i]);
                let k = choose|k: int| 0 <= k < before.len() && before[k] == name;
                assert(all[k] == name);
            } else {
                assert(all[before.len() as int] == name);
            }
        }
    } else {
        assert(!all.contains(name));
    }
}

proof fn lemma_connector_prefix(name: Seq<char>, card: Seq<char>)
    ensures
        is_connector_of(name, card) <==> crate::strings::has_prefix(name, card + seq!['-']),
{
    let wanted = card + seq!['-'];
    if is_connector_of(name, card) {
        assert(name.take(wanted.len() as int) =~= wanted);
    }
    if crate::strings::has_prefix(name, wanted) {
        let head = name.take(wanted.len() as int);
        assert(head[card.len() as int] == '-');
        assert(name.take(card.len() as int) =~= head.take(card.len() as int));
        assert(wanted.take(card.len() as int) =~= card);
    }
}

} // verus!
