//! Which font draws which character.

use crate::backend::font_file::{can_read_file, has_second_compact_only, hide_tables};
use crate::backend::scene::sort_by_order;
use crate::paths::path_extension;
use crate::strings::{contains_text, from_chars, lower_chars, same_text, to_chars};
use fontdb::Source;
use std::collections::HashMap;
use vstd::prelude::*;

verus! {

broadcast use vstd::std_specs::hash::group_hash_axioms;

/// The fonts that are installed, as `fontdb` keeps them.
#[verifier::external_type_specification]
#[verifier::external_body]
pub struct ExDatabase(fontdb::Database);

/// The key of a face in the database.
#[verifier::external_type_specification]
#[verifier::external_body]
pub struct ExFaceId(fontdb::ID);

/// A font that was loaded, as `fontdue` keeps it.
#[verifier::external_type_specification]
#[verifier::external_body]
pub struct ExFont(fontdue::Font);

/// One face of a font. `style` is 0 for upright, 1 for italic and 2 for oblique letters; `stretch`
/// goes from 1 for the narrowest to 9 for the widest letters, with 5 in the middle. `source` is the
/// file that it comes from, if it comes from one.
pub struct FaceInfo {
    pub id: fontdb::ID,
    pub families: Vec<String>,
    pub style: u8,
    pub stretch: u16,
    pub monospaced: bool,
    pub weight: u16,
    pub source: Option<String>,
}

/// One face of a font in contracts.
pub struct Face {
    pub id: fontdb::ID,
    pub families: Seq<Seq<char>>,
    pub style: u8,
    pub stretch: u16,
    pub monospaced: bool,
    pub weight: u16,
    pub source: Option<Seq<char>>,
}

impl View for FaceInfo {
    type V = Face;

    open spec fn view(&self) -> Face {
        Face {
            id: self.id,
            families: crate::seqs::texts(self.families@),
            style: self.style,
            stretch: self.stretch,
            monospaced: self.monospaced,
            weight: self.weight,
            source: match self.source {
                Some(source) => Some(source@),
                None => None,
            },
        }
    }
}

/// The faces of a list.
pub open spec fn faces_of(faces: Seq<FaceInfo>) -> Seq<Face> {
    Seq::new(faces.len(), |i: int| faces[i]@)
}

/// The faces in a database, in the order in which it hands them out.
pub uninterp spec fn database_faces(database: fontdb::Database) -> Seq<Face>;

/// The faces of a database, as `fontdb::Database::faces` hands them out. The claim is that a
/// database hands out the same faces in the same order for as long as it is not changed.
#[verifier::external_body]
fn faces(database: &fontdb::Database) -> (found: Vec<FaceInfo>)
    ensures
        faces_of(found@) == database_faces(*database),
{
    database.faces().map(|face| FaceInfo {
        id: face.id,
        families: face.families.iter().map(|family| family.0.clone()).collect(),
        style: face.style as u8,
        stretch: face.stretch.to_number(),
        monospaced: face.monospaced,
        weight: face.weight.0,
        source: match &face.source {
            Source::Binary(_) => None,
            Source::File(path) => Some(path.to_string_lossy().into_owned()),
            Source::SharedFile(path, _) => Some(path.to_string_lossy().into_owned()),
        },
    }).collect()
}

/// The name of the family that a database takes for letters without serifs.
pub uninterp spec fn sans_family(database: fontdb::Database) -> Seq<char>;

/// The name of the family for letters without serifs, as `fontdb::Database::family_name` gives it.
#[verifier::external_body]
fn sans_serif_family(database: &fontdb::Database) -> (name: String)
    ensures
        name@ == sans_family(*database),
{
    database.family_name(&fontdb::Family::SansSerif).to_owned()
}

/// A family that is asked for.
pub enum FontFamily {
    Name(String),
    SansSerif,
    Serif,
    Monospace,
}

/// A family that is asked for, in contracts.
pub enum FamilyName {
    Name(Seq<char>),
    SansSerif,
    Serif,
    Monospace,
}

impl View for FontFamily {
    type V = FamilyName;

    open spec fn view(&self) -> FamilyName {
        match *self {
            FontFamily::Name(name) => FamilyName::Name(name@),
            FontFamily::SansSerif => FamilyName::SansSerif,
            FontFamily::Serif => FamilyName::Serif,
            FontFamily::Monospace => FamilyName::Monospace,
        }
    }
}

/// The families of a list.
pub open spec fn families_of(families: Seq<FontFamily>) -> Seq<FamilyName> {
    Seq::new(families.len(), |i: int| families[i]@)
}

/// The face that a database finds for families and a weight.
pub uninterp spec fn queried_face(
    database: fontdb::Database,
    families: Seq<FamilyName>,
    weight: u16,
) -> Option<fontdb::ID>;

/// The face that `fontdb::Database::query` finds for upright letters of ordinary width. The claim is
/// that it depends on the database, the families and the weight alone. How the database picks among
/// the faces of a family is left unsaid.
#[verifier::external_body]
fn query_face(database: &fontdb::Database, families: &Vec<FontFamily>, weight: u16) -> (face: Option<
    fontdb::ID,
>)
    ensures
        face == queried_face(*database, families_of(families@), weight),
{
    let families: Vec<fontdb::Family> = families.iter().map(|family| match family {
        FontFamily::Name(name) => fontdb::Family::Name(name.as_str()),
        FontFamily::SansSerif => fontdb::Family::SansSerif,
        FontFamily::Serif => fontdb::Family::Serif,
        FontFamily::Monospace => fontdb::Family::Monospace,
    }).collect();
    database.query(&fontdb::Query {
        families: &families,
        weight: fontdb::Weight(weight),
        ..fontdb::Query::default()
    })
}

/// Whether two keys are the same, as `==` of `fontdb::ID` tells.
#[verifier::external_body]
fn same_face(a: fontdb::ID, b: fontdb::ID) -> (same: bool)
    ensures
        same == (a == b),
{
    a == b
}

/// The characters that a font can draw.
pub uninterp spec fn font_chars(font: fontdue::Font) -> Set<char>;

/// Whether a font can draw a character, as `fontdue::Font::has_glyph` tells. The claim is that a font
/// always gives the same answer for the same character.
#[verifier::external_body]
fn has_glyph(font: &fontdue::Font, ch: char) -> (found: bool)
    ensures
        found == font_chars(*font).contains(ch),
{
    font.has_glyph(ch)
}

/// The characters that the font of a face can draw, if the bytes of its file are a font.
pub uninterp spec fn file_font_chars(bytes: Seq<u8>, collection_index: u32) -> Option<Set<char>>;

/// Reads the font of a face with `fontdue::Font::from_bytes`, with every other setting as it is by
/// default. The claim is that the bytes and the number of the face settle whether there is a font and
/// which characters it can draw. Files are left out at which the reader, or `ttf-parser` below it, would
/// stop, debug assertions and checks for overflow included: files that claim more faces, characters or
/// outlines than a number of 32 bits can tell the end of, that list as many tables as a number of 16
/// bits can tell, whose depth of a line cannot change its sign, or whose full name breaks off within a
/// character. So are files with a table that is neither needed for the outlines of the characters nor
/// hidden: such tables are taken apart too, and may be unsound in many more ways. One part of an
/// outline may stand for others many times over: how long that takes, how much memory, and what comes
/// of more hints in one outline than a number of 32 bits can tell, is left unsaid.
#[verifier::external_body]
fn read_font(bytes: Vec<u8>, collection_index: u32) -> (font: Option<fontdue::Font>)
    requires
        crate::backend::font_file::is_readable_file(bytes@, collection_index),
    ensures
        match font {
            Some(font) => file_font_chars(bytes@, collection_index) == Some(font_chars(font)),
            None => file_font_chars(bytes@, collection_index) is None,
        },
{
    let settings = fontdue::FontSettings { collection_index, ..fontdue::FontSettings::default() };
    fontdue::Font::from_bytes(bytes, settings).ok()
}

// ---- scores -------------------------------------------------------------------------------------

/// Collections of fonts are taken only where nothing else suits.
pub open spec fn source_penalty(source: Option<Seq<char>>) -> int {
    match source {
        Some(path) => match crate::paths::extension(path) {
            Some(extension) => if crate::strings::lowered(extension) == "ttc"@
                || crate::strings::lowered(extension) == "otc"@ {
                180
            } else {
                0
            },
            None => 0,
        },
        None => 0,
    }
}

/// What speaks against a face whatever it is wanted for: slanted letters, unusual width, a
/// collection of fonts, and the distance to the weight that is wanted.
pub open spec fn plain_penalty(face: Face, weight: u16) -> int {
    (if face.style == 0 {
        0int
    } else {
        100
    }) + (if face.stretch == 5 {
        0int
    } else {
        25
    }) + source_penalty(face.source) + (if face.weight >= weight {
        face.weight - weight
    } else {
        weight - face.weight
    })
}

/// Some name of the face is the given one, apart from the case of its letters.
pub open spec fn is_named(face: Face, name: Seq<char>) -> bool {
    exists|i: int|
        0 <= i < face.families.len() && crate::strings::lowered(#[trigger] face.families[i])
            == crate::strings::lowered(name)
}

/// Some name of the face is one of the given ones, apart from the case of its letters.
pub open spec fn is_requested(face: Face, names: Seq<Seq<char>>) -> bool {
    exists|i: int| 0 <= i < names.len() && is_named(face, #[trigger] names[i])
}

/// Some name of the face holds the text, apart from the case of its letters.
pub open spec fn name_holds(face: Face, part: Seq<char>) -> bool {
    exists|i: int|
        0 <= i < face.families.len() && crate::strings::holds(
            crate::strings::lowered(#[trigger] face.families[i]),
            part,
        )
}

/// How badly a face suits families that are asked for.
pub open spec fn matching_score(face: Face, families: Option<Seq<Seq<char>>>, weight: u16) -> int {
    (match families {
        Some(names) => if is_requested(face, names) {
            0int
        } else {
            1_000
        },
        None => if face.monospaced {
            50
        } else {
            0
        },
    }) + plain_penalty(face, weight)
}

/// How badly a face suits text for which no family is asked for.
pub open spec fn default_score(face: Face, sans: Seq<char>, weight: u16) -> int {
    (if is_named(face, sans) {
        0int
    } else if name_holds(face, "sans"@) {
        25
    } else if name_holds(face, "serif"@) {
        140
    } else {
        80
    }) + (if face.monospaced {
        120int
    } else {
        0
    }) + (if name_holds(face, "emoji"@) {
        600int
    } else {
        0
    }) + (if name_holds(face, "cjk"@) {
        220int
    } else {
        0
    }) + plain_penalty(face, weight)
}

/// How badly a face suits a character that none of the chosen fonts can draw.
pub open spec fn fallback_score(
    face: Face,
    families: Option<Seq<Seq<char>>>,
    emoji: bool,
    weight: u16,
) -> int {
    (if families is Some && is_requested(face, families->0) {
        0int
    } else if name_holds(face, "sans"@) {
        25
    } else if name_holds(face, "serif"@) {
        140
    } else {
        80
    }) + (if emoji {
        if name_holds(face, "emoji"@) {
            0int
        } else {
            400
        }
    } else if name_holds(face, "emoji"@) {
        500
    } else {
        0
    }) + (if face.monospaced {
        120int
    } else {
        0
    }) + (if name_holds(face, "cjk"@) {
        120int
    } else {
        0
    }) + plain_penalty(face, weight)
}

fn lowercase(text: &str) -> (lower: String)
    ensures
        lower@ == crate::strings::lowered(text@),
{
    from_chars(&lower_chars(&to_chars(text)))
}

/// What speaks against the file that a face comes from.
pub fn face_source_penalty(source: &Option<String>) -> (penalty: i32)
    ensures
        penalty == source_penalty(
            match *source {
                Some(source) => Some(source@),
                None => None,
            },
        ),
        0 <= penalty <= 180,
{
    match source {
        Some(path) => match path_extension(path.as_str()) {
            Some(extension) => {
                let lower = lowercase(extension.as_str());
                if same_text(lower.as_str(), "ttc") || same_text(lower.as_str(), "otc") {
                    180
                } else {
                    0
                }
            },
            None => 0,
        },
        None => 0,
    }
}

fn find_plain_penalty(face: &FaceInfo, weight: u16) -> (penalty: i32)
    ensures
        penalty == plain_penalty(face@, weight),
        0 <= penalty <= 70_000,
{
    let style: i32 = if face.style == 0 {
        0
    } else {
        100
    };
    let stretch: i32 = if face.stretch == 5 {
        0
    } else {
        25
    };
    let distance: i32 = if face.weight >= weight {
        face.weight as i32 - weight as i32
    } else {
        weight as i32 - face.weight as i32
    };
    style + stretch + face_source_penalty(&face.source) + distance
}

/// A face goes by each of its names and by no other, in whatever case they are written.
pub proof fn law_faces_go_by_their_names(face: Face, more: Face, added: Seq<char>, name: Seq<char>)
    requires
        more.families == face.families.push(added),
    ensures
        face.families.len() == 0 ==> !is_named(face, name),
        is_named(more, name) <==> is_named(face, name) || crate::strings::lowered(added)
            == crate::strings::lowered(name),
        is_named(more, added),
{
    let n = face.families.len() as int;
    assert(more.families[n] == added);
    if is_named(face, name) {
        let i = choose|i: int|
            0 <= i < face.families.len() && crate::strings::lowered(#[trigger] face.families[i])
                == crate::strings::lowered(name);
        assert(more.families[i] == face.families[i]);
    }
    if is_named(more, name) {
        let i = choose|i: int|
            0 <= i < more.families.len() && crate::strings::lowered(#[trigger] more.families[i])
                == crate::strings::lowered(name);
        if i < n {
            assert(face.families[i] == more.families[i]);
        }
    }
}

fn has_name(face: &FaceInfo, name: &str) -> (found: bool)
    ensures
        found == is_named(face@, name@),
{
    let lower = lowercase(name);
    let mut i: usize = 0;
    while i < face.families.len()
        invariant
            i <= face.families@.len(),
            lower@ == crate::strings::lowered(name@),
            forall|k: int|
                0 <= k < i ==> crate::strings::lowered(#[trigger] face@.families[k]) != lower@,
        decreases face.families@.len() - i,
    {
        assert(face@.families[i as int] == face.families@[i as int]@);
        let own = lowercase(face.families[i].as_str());
        if same_text(own.as_str(), lower.as_str()) {
            return true;
        }
        i += 1;
    }
    false
}

fn has_requested_name(face: &FaceInfo, names: &Vec<String>) -> (found: bool)
    ensures
        found == is_requested(face@, crate::seqs::texts(names@)),
{
    let ghost texts = crate::seqs::texts(names@);
    let mut i: usize = 0;
    while i < names.len()
        invariant
            i <= names@.len(),
            texts == crate::seqs::texts(names@),
            forall|k: int| 0 <= k < i ==> !is_named(face@, #[trigger] texts[k]),
        decreases names@.len() - i,
    {
        assert(texts[i as int] == names@[i as int]@);
        if has_name(face, names[i].as_str()) {
            return true;
        }
        i += 1;
    }
    false
}

fn has_name_with(face: &FaceInfo, part: &str) -> (found: bool)
    ensures
        found == name_holds(face@, part@),
{
    let mut i: usize = 0;
    while i < face.families.len()
        invariant
            i <= face.families@.len(),
            forall|k: int|
                0 <= k < i ==> !crate::strings::holds(
                    crate::strings::lowered(#[trigger] face@.families[k]),
                    part@,
                ),
        decreases face.families@.len() - i,
    {
        assert(face@.families[i as int] == face.families@[i as int]@);
        let own = lowercase(face.families[i].as_str());
        if contains_text(own.as_str(), part) {
            return true;
        }
        i += 1;
    }
    false
}

/// The names, where some are given.
pub open spec fn names_of(names: Option<&Vec<String>>) -> Option<Seq<Seq<char>>> {
    match names {
        Some(names) => Some(crate::seqs::texts(names@)),
        None => None,
    }
}

fn score_match(face: &FaceInfo, families: Option<&Vec<String>>, weight: u16) -> (score: i32)
    ensures
        score == matching_score(face@, names_of(families), weight),
        0 <= score <= 80_000,
{
    let family: i32 = match families {
        Some(names) => if has_requested_name(face, names) {
            0
        } else {
            1_000
        },
        None => if face.monospaced {
            50
        } else {
            0
        },
    };
    family + find_plain_penalty(face, weight)
}

fn score_default(face: &FaceInfo, sans: &str, weight: u16) -> (score: i32)
    ensures
        score == default_score(face@, sans@, weight),
        0 <= score <= 80_000,
{
    let family: i32 = if has_name(face, sans) {
        0
    } else if has_name_with(face, "sans") {
        25
    } else if has_name_with(face, "serif") {
        140
    } else {
        80
    };
    let mono: i32 = if face.monospaced {
        120
    } else {
        0
    };
    let emoji: i32 = if has_name_with(face, "emoji") {
        600
    } else {
        0
    };
    let cjk: i32 = if has_name_with(face, "cjk") {
        220
    } else {
        0
    };
    family + mono + emoji + cjk + find_plain_penalty(face, weight)
}

fn score_fallback(face: &FaceInfo, families: Option<&Vec<String>>, emoji: bool, weight: u16) -> (score:
    i32)
    ensures
        score == fallback_score(face@, names_of(families), emoji, weight),
        0 <= score <= 80_000,
{
    let requested: bool = match families {
        Some(names) => has_requested_name(face, names),
        None => false,
    };
    let family: i32 = if requested {
        0
    } else if has_name_with(face, "sans") {
        25
    } else if has_name_with(face, "serif") {
        140
    } else {
        80
    };
    let named_emoji: bool = has_name_with(face, "emoji");
    let picture: i32 = if emoji {
        if named_emoji {
            0
        } else {
            400
        }
    } else if named_emoji {
        500
    } else {
        0
    };
    let mono: i32 = if face.monospaced {
        120
    } else {
        0
    };
    let cjk: i32 = if has_name_with(face, "cjk") {
        120
    } else {
        0
    };
    family + picture + mono + cjk + find_plain_penalty(face, weight)
}

/// The position of the lowest score, the first of several.
pub open spec fn lowest(scores: Seq<int>) -> Option<int>
    decreases scores.len(),
{
    if scores.len() == 0 {
        None
    } else {
        match lowest(scores.drop_last()) {
            Some(i) if scores[i] <= scores.last() => Some(i),
            _ => Some(scores.len() - 1),
        }
    }
}

proof fn lemma_lowest_in_range(scores: Seq<int>)
    ensures
        lowest(scores) matches Some(i) ==> 0 <= i < scores.len(),
        lowest(scores) is None ==> scores.len() == 0,
    decreases scores.len(),
{
    if scores.len() > 0 {
        lemma_lowest_in_range(scores.drop_last());
    }
}

/// No score is below the lowest one, and those before it are above it.
pub proof fn law_lowest_is_lowest(scores: Seq<int>)
    ensures
        lowest(scores) matches Some(i) ==> {
            &&& 0 <= i < scores.len()
            &&& forall|k: int| 0 <= k < scores.len() ==> scores[i] <= #[trigger] scores[k]
            &&& forall|k: int| 0 <= k < i ==> scores[i] < #[trigger] scores[k]
        },
        lowest(scores) is None <==> scores.len() == 0,
    decreases scores.len(),
{
    if scores.len() > 0 {
        let head = scores.drop_last();
        law_lowest_is_lowest(head);
        assert forall|k: int| 0 <= k < head.len() implies #[trigger] scores[k] == head[k] by {
        }
    }
}

/// The key of the face with the lowest score, the first of several.
pub open spec fn lowest_face(faces: Seq<Face>, scores: Seq<int>) -> Option<fontdb::ID> {
    match lowest(scores) {
        Some(i) => Some(faces[i].id),
        None => None,
    }
}

/// The scores of all faces for families that are asked for.
pub open spec fn matching_scores(
    faces: Seq<Face>,
    families: Option<Seq<Seq<char>>>,
    weight: u16,
) -> Seq<int> {
    Seq::new(faces.len(), |i: int| matching_score(faces[i], families, weight))
}

/// The scores of all faces for text for which no family is asked for.
pub open spec fn default_scores(faces: Seq<Face>, sans: Seq<char>, weight: u16) -> Seq<int> {
    Seq::new(faces.len(), |i: int| default_score(faces[i], sans, weight))
}

/// The best face so far.
#[derive(Clone, Copy)]
struct BestFace {
    at: usize,
    score: i32,
}

spec fn is_lowest(best: Option<BestFace>, scores: Seq<int>) -> bool {
    match best {
        Some(best) => lowest(scores) == Some(best.at as int) && best.at < scores.len()
            && scores[best.at as int] == best.score,
        None => lowest(scores) is None,
    }
}

fn consider_face(best: Option<BestFace>, at: usize, score: i32, Ghost(scores): Ghost<Seq<int>>) -> (next:
    Option<BestFace>)
    requires
        at < scores.len(),
        scores[at as int] == score,
        is_lowest(best, scores.take(at as int)),
    ensures
        is_lowest(next, scores.take(at + 1)),
{
    assert(scores.take(at + 1).drop_last() =~= scores.take(at as int));
    proof {
        lemma_lowest_in_range(scores.take(at as int));
    }
    match best {
        Some(current) => if current.score <= score {
            best
        } else {
            Some(BestFace { at, score })
        },
        None => Some(BestFace { at, score }),
    }
}

/// Picks the face that suits best for families that are asked for.
pub fn pick_matching_face(faces: &Vec<FaceInfo>, families: Option<&Vec<String>>, weight: u16) -> (face:
    Option<fontdb::ID>)
    ensures
        face == lowest_face(
            faces_of(faces@),
            matching_scores(faces_of(faces@), names_of(families), weight),
        ),
{
    let ghost scores = matching_scores(faces_of(faces@), names_of(families), weight);
    let mut best: Option<BestFace> = None;
    let mut i: usize = 0;
    assert(scores.take(0) =~= Seq::empty());
    while i < faces.len()
        invariant
            i <= faces@.len() == scores.len(),
            scores == matching_scores(faces_of(faces@), names_of(families), weight),
            is_lowest(best, scores.take(i as int)),
        decreases faces@.len() - i,
    {
        let score: i32 = score_match(&faces[i], families, weight);
        assert(scores[i as int] == score);
        best = consider_face(best, i, score, Ghost(scores));
        i += 1;
    }
    assert(scores.take(i as int) =~= scores);
    match best {
        Some(best) => Some(faces[best.at].id),
        None => None,
    }
}

/// Picks the face that suits best for text for which no family is asked for.
pub fn pick_default_face(faces: &Vec<FaceInfo>, sans: &str, weight: u16) -> (face: Option<fontdb::ID>)
    ensures
        face == lowest_face(faces_of(faces@), default_scores(faces_of(faces@), sans@, weight)),
{
    let ghost scores = default_scores(faces_of(faces@), sans@, weight);
    let mut best: Option<BestFace> = None;
    let mut i: usize = 0;
    assert(scores.take(0) =~= Seq::empty());
    while i < faces.len()
        invariant
            i <= faces@.len() == scores.len(),
            scores == default_scores(faces_of(faces@), sans@, weight),
            is_lowest(best, scores.take(i as int)),
        decreases faces@.len() - i,
    {
        let score: i32 = score_default(&faces[i], sans, weight);
        assert(scores[i as int] == score);
        best = consider_face(best, i, score, Ghost(scores));
        i += 1;
    }
    assert(scores.take(i as int) =~= scores);
    match best {
        Some(best) => Some(faces[best.at].id),
        None => None,
    }
}

// ---- the chain of fonts of a text ---------------------------------------------------------------

/// The list with a face behind it, unless there is none or it is there already.
pub open spec fn with_face(faces: Seq<fontdb::ID>, face: Option<fontdb::ID>) -> Seq<fontdb::ID> {
    match face {
        Some(face) => if faces.contains(face) {
            faces
        } else {
            faces.push(face)
        },
        None => faces,
    }
}

fn holds_face(faces: &Vec<fontdb::ID>, face: fontdb::ID) -> (found: bool)
    ensures
        found == faces@.contains(face),
{
    let mut i: usize = 0;
    while i < faces.len()
        invariant
            i <= faces@.len(),
            forall|k: int| 0 <= k < i ==> #[trigger] faces@[k] != face,
        decreases faces@.len() - i,
    {
        if same_face(faces[i], face) {
            return true;
        }
        i += 1;
    }
    false
}

fn push_unique_face(faces: &mut Vec<fontdb::ID>, face: Option<fontdb::ID>)
    ensures
        final(faces)@ == with_face(old(faces)@, face),
{
    if let Some(face) = face {
        if !holds_face(faces, face) {
            faces.push(face);
        }
    }
}

/// The faces in which a text is drawn: the one that the database finds, the one that suits the
/// families best, and the one that suits any text best. Each is taken once.
pub open spec fn chain_faces(
    queried: Option<fontdb::ID>,
    matching: Option<fontdb::ID>,
    default: Option<fontdb::ID>,
) -> Seq<fontdb::ID> {
    with_face(with_face(with_face(Seq::empty(), queried), matching), default)
}

/// The faces in which a text is drawn.
pub fn unique_faces(
    queried: Option<fontdb::ID>,
    matching: Option<fontdb::ID>,
    default: Option<fontdb::ID>,
) -> (faces: Vec<fontdb::ID>)
    ensures
        faces@ == chain_faces(queried, matching, default),
{
    let mut faces: Vec<fontdb::ID> = Vec::new();
    push_unique_face(&mut faces, queried);
    push_unique_face(&mut faces, matching);
    push_unique_face(&mut faces, default);
    faces
}

/// The families that are asked for: the named ones, and then those for any text.
pub open spec fn asked_families(names: Seq<Seq<char>>) -> Seq<FamilyName> {
    Seq::new(names.len(), |i: int| FamilyName::Name(names[i])) + seq![
        FamilyName::SansSerif,
        FamilyName::Serif,
        FamilyName::Monospace,
    ]
}

/// The families that are asked for.
pub fn query_families(names: &Vec<String>) -> (families: Vec<FontFamily>)
    ensures
        families_of(families@) == asked_families(crate::seqs::texts(names@)),
{
    let ghost texts = crate::seqs::texts(names@);
    let mut families: Vec<FontFamily> = Vec::new();
    let mut i: usize = 0;
    while i < names.len()
        invariant
            i <= names@.len(),
            texts == crate::seqs::texts(names@),
            families@.len() == i,
            forall|k: int|
                0 <= k < i ==> (#[trigger] families@[k])@ == FamilyName::Name(texts[k]),
        decreases names@.len() - i,
    {
        families.push(FontFamily::Name(names[i].clone()));
        i += 1;
    }
    families.push(FontFamily::SansSerif);
    families.push(FontFamily::Serif);
    families.push(FontFamily::Monospace);
    assert(families_of(families@) =~= asked_families(texts));
    families
}

/// The faces in which a text is drawn. Without families that are asked for, only the face for any
/// text is taken.
pub open spec fn font_chain(
    database: fontdb::Database,
    families: Option<Seq<Seq<char>>>,
    weight: u16,
) -> Seq<fontdb::ID> {
    let faces = database_faces(database);
    let default = lowest_face(faces, default_scores(faces, sans_family(database), weight));
    match families {
        Some(names) => chain_faces(
            queried_face(database, asked_families(names), weight),
            lowest_face(faces, matching_scores(faces, families, weight)),
            default,
        ),
        None => chain_faces(None, None, default),
    }
}

/// Finds the faces in which a text is drawn.
pub fn resolve_font_chain(database: &fontdb::Database, families: Option<&Vec<String>>, weight: u16) -> (chain:
    Vec<fontdb::ID>)
    ensures
        chain@ == font_chain(*database, names_of(families), weight),
{
    let all = faces(database);
    let sans = sans_serif_family(database);
    let default = pick_default_face(&all, sans.as_str(), weight);
    match families {
        Some(names) => {
            let queried = query_face(database, &query_families(names), weight);
            let matching = pick_matching_face(&all, families, weight);
            unique_faces(queried, matching, default)
        },
        None => unique_faces(None, None, default),
    }
}

/// No face is taken twice.
pub proof fn law_chain_has_no_repeats(
    queried: Option<fontdb::ID>,
    matching: Option<fontdb::ID>,
    default: Option<fontdb::ID>,
    i: int,
    j: int,
)
    requires
        0 <= i < j < chain_faces(queried, matching, default).len(),
    ensures
        chain_faces(queried, matching, default)[i] != chain_faces(queried, matching, default)[j],
{
    let a = with_face(Seq::empty(), queried);
    let b = with_face(a, matching);
    let c = with_face(b, default);
    assert(a.len() <= 1);
    assert(b.len() <= 2);
    if b.len() == 2 {
        assert(a.contains(a[0]));
    }
    if c.len() > b.len() {
        assert forall|k: int| 0 <= k < b.len() implies #[trigger] c[k] == b[k] && b.contains(b[k]) by {
        }
    }
}

// ---- characters that the chain cannot draw ------------------------------------------------------

/// The character is a picture rather than a letter.
pub open spec fn is_emoji(ch: char) -> bool {
    ('\u{2600}' <= ch && ch <= '\u{27bf}') || ('\u{1f000}' <= ch && ch <= '\u{1faff}') || (
    '\u{1fc00}' <= ch && ch <= '\u{1fffd}')
}

/// Whether the character is a picture rather than a letter.
pub fn looks_like_emoji(ch: char) -> (emoji: bool)
    ensures
        emoji == is_emoji(ch),
{
    ('\u{2600}' <= ch && ch <= '\u{27bf}') || ('\u{1f000}' <= ch && ch <= '\u{1faff}') || (
    '\u{1fc00}' <= ch && ch <= '\u{1fffd}')
}

/// All faces with their scores for a character, in the order of the database.
pub open spec fn scored_faces(
    faces: Seq<Face>,
    families: Option<Seq<Seq<char>>>,
    emoji: bool,
    weight: u16,
) -> Seq<(usize, fontdb::ID)> {
    Seq::new(
        faces.len(),
        |i: int| (fallback_score(faces[i], families, emoji, weight) as usize, faces[i].id),
    )
}

/// The faces that are tried for a character, those that suit best before the others.
pub open spec fn fallback_order(
    faces: Seq<Face>,
    families: Option<Seq<Seq<char>>>,
    emoji: bool,
    weight: u16,
) -> Seq<fontdb::ID> {
    crate::backend::scene::elements(
        crate::backend::scene::in_order(scored_faces(faces, families, emoji, weight)),
    )
}

/// Brings faces into the order in which they are tried for a character.
pub fn rank_fallback_faces(
    faces: &Vec<FaceInfo>,
    families: Option<&Vec<String>>,
    ch: char,
    weight: u16,
) -> (order: Vec<fontdb::ID>)
    ensures
        order@ == fallback_order(faces_of(faces@), names_of(families), is_emoji(ch), weight),
{
    let emoji: bool = looks_like_emoji(ch);
    let ghost scored = scored_faces(faces_of(faces@), names_of(families), emoji, weight);
    let mut candidates: Vec<(usize, fontdb::ID)> = Vec::new();
    let mut i: usize = 0;
    while i < faces.len()
        invariant
            i <= faces@.len() == scored.len(),
            scored == scored_faces(faces_of(faces@), names_of(families), emoji, weight),
            candidates@.len() == i,
            forall|k: int| 0 <= k < i ==> #[trigger] candidates@[k] == scored[k],
        decreases faces@.len() - i,
    {
        let score: i32 = score_fallback(&faces[i], families, emoji, weight);
        candidates.push((score as usize, faces[i].id));
        i += 1;
    }
    assert(candidates@ =~= scored);
    let sorted = sort_by_order(candidates);
    let mut order: Vec<fontdb::ID> = Vec::new();
    let mut j: usize = 0;
    while j < sorted.len()
        invariant
            j <= sorted@.len(),
            order@.len() == j,
            forall|k: int| 0 <= k < j ==> #[trigger] order@[k] == sorted@[k].1,
        decreases sorted@.len() - j,
    {
        order.push(sorted[j].1);
        j += 1;
    }
    assert(order@ =~= crate::backend::scene::elements(sorted@));
    order
}

/// Brings the faces of a database into the order in which they are tried for a character.
pub fn fallback_faces(
    database: &fontdb::Database,
    families: Option<&Vec<String>>,
    ch: char,
    weight: u16,
) -> (order: Vec<fontdb::ID>)
    ensures
        order@ == fallback_order(
            database_faces(*database),
            names_of(families),
            is_emoji(ch),
            weight,
        ),
{
    let all = faces(database);
    rank_fallback_faces(&all, families, ch, weight)
}

/// A font that was loaded for a face.
pub struct LoadedFont {
    pub id: fontdb::ID,
    pub font: fontdue::Font,
}

/// The font of a face can be read from the bytes of its file, once the tables are hidden that are not
/// needed for the outlines of the characters.
pub open spec fn is_readable_face(bytes: Seq<u8>, collection_index: u32) -> bool {
    &&& !crate::backend::font_file::is_second_compact(bytes, collection_index)
    &&& crate::backend::font_file::is_readable_file(
        crate::backend::font_file::shown(bytes, collection_index),
        collection_index,
    )
}

/// The characters that a face can draw whose file has these bytes. A file is no font that could not be
/// read, that claims more than can be counted, whose full name breaks off within a character, or that
/// has outlines in the second compact format alone: those are programs that are run without a look at
/// whether each step has the numbers that it takes.
pub open spec fn readable_chars(bytes: Option<Seq<u8>>, collection_index: u32) -> Option<Set<char>> {
    match bytes {
        Some(bytes) => if is_readable_face(bytes, collection_index) {
            file_font_chars(
                crate::backend::font_file::shown(bytes, collection_index),
                collection_index,
            )
        } else {
            None
        },
        None => None,
    }
}

/// Loads the font of a face from the bytes of its file. `collection_index` is the number of the face
/// in the file. The tables that are not needed for the outlines of the characters are hidden: what
/// they hold does not change how a character is drawn, and need not be sound.
pub fn load_face(id: fontdb::ID, bytes: Vec<u8>, collection_index: u32) -> (loaded: Option<LoadedFont>)
    ensures
        match loaded {
            Some(loaded) => loaded.id == id && readable_chars(Some(bytes@), collection_index)
                == Some(font_chars(loaded.font)),
            None => readable_chars(Some(bytes@), collection_index) is None,
        },
{
    let mut bytes = bytes;
    if has_second_compact_only(&bytes, collection_index) {
        return None;
    }
    hide_tables(&mut bytes, collection_index);
    if !can_read_file(&bytes, collection_index) {
        return None;
    }
    match read_font(bytes, collection_index) {
        Some(font) => Some(LoadedFont { id, font }),
        None => None,
    }
}

/// Whether the font of a face is still to be loaded.
pub fn needs_font(fonts: &Vec<LoadedFont>, id: fontdb::ID) -> (needed: bool)
    ensures
        needed == (loaded_chars(fonts@, id) is None),
{
    can_draw(fonts, id, ' ').is_none()
}

/// These are the fonts before and after the font of a face was to be loaded from the bytes of its file, and whether it is
/// loaded then.
pub open spec fn is_loading(
    before: Seq<LoadedFont>,
    after: Seq<LoadedFont>,
    id: fontdb::ID,
    file: Option<Seq<u8>>,
    collection_index: u32,
    loaded: bool,
) -> bool {
    if loaded_chars(before, id) is Some {
        loaded && after == before
    } else {
        match readable_chars(file, collection_index) {
            Some(chars) => {
                &&& loaded
                &&& after.len() == before.len() + 1
                &&& after.drop_last() == before
                &&& after.last().id == id
                &&& font_chars(after.last().font) == chars
            },
            None => !loaded && after == before,
        }
    }
}

/// A font that is loaded stays as it is, and every other font too. A font that was not loaded is loaded exactly if its file can
/// be read and is a font, and then draws exactly what that font can draw.
pub proof fn law_fonts_are_loaded_from_their_files(
    before: Seq<LoadedFont>,
    after: Seq<LoadedFont>,
    id: fontdb::ID,
    file: Option<Seq<u8>>,
    collection_index: u32,
    loaded: bool,
    other: fontdb::ID,
)
    requires
        is_loading(before, after, id, file, collection_index, loaded),
    ensures
        loaded <==> loaded_chars(after, id) is Some,
        loaded_chars(before, id) is Some ==> loaded_chars(after, id) == loaded_chars(before, id),
        loaded_chars(before, id) is None ==> loaded_chars(after, id) == readable_chars(
            file,
            collection_index,
        ),
        other != id ==> loaded_chars(after, other) == loaded_chars(before, other),
        file is None && loaded_chars(before, id) is None ==> !loaded,
{
    if loaded_chars(before, id) is None && readable_chars(file, collection_index) is Some {
        assert(after =~= before.push(after.last()));
        law_loaded_face_draws_its_file(before, after.last(), file->0, collection_index, other);
    }
}

/// Loads the font of a face from the bytes of its file, unless it is loaded, and tells whether it is
/// loaded then. `bytes` are missing where the file could not be read. A font that could not be loaded is
/// tried again the next time.
pub fn load_cached_font(
    fonts: &mut Vec<LoadedFont>,
    id: fontdb::ID,
    bytes: Option<Vec<u8>>,
    collection_index: u32,
) -> (loaded: bool)
    ensures
        is_loading(
            old(fonts)@,
            final(fonts)@,
            id,
            match bytes {
                Some(bytes) => Some(bytes@),
                None => None,
            },
            collection_index,
            loaded,
        ),
{
    if !needs_font(fonts, id) {
        return true;
    }
    let found = match bytes {
        Some(bytes) => load_face(id, bytes, collection_index),
        None => None,
    };
    match found {
        Some(font) => {
            fonts.push(font);
            assert(fonts@.drop_last() =~= old(fonts)@);
            true
        },
        None => false,
    }
}

/// A face whose font is loaded from a file draws exactly the characters that the font in the file
/// can draw, and what the other faces draw stays as it is.
pub proof fn law_loaded_face_draws_its_file(
    fonts: Seq<LoadedFont>,
    loaded: LoadedFont,
    bytes: Seq<u8>,
    collection_index: u32,
    other: fontdb::ID,
)
    requires
        loaded_chars(fonts, loaded.id) is None,
        readable_chars(Some(bytes), collection_index) == Some(font_chars(loaded.font)),
    ensures
        loaded_chars(fonts.push(loaded), loaded.id) == readable_chars(
            Some(bytes),
            collection_index,
        ),
        other != loaded.id ==> loaded_chars(fonts.push(loaded), other) == loaded_chars(
            fonts,
            other,
        ),
    decreases fonts.len(),
{
    if fonts.len() == 0 {
        assert(loaded_chars(fonts.push(loaded).skip(1), other) is None);
    } else {
        assert(fonts.push(loaded).skip(1) =~= fonts.skip(1).push(loaded));
        law_loaded_face_draws_its_file(fonts.skip(1), loaded, bytes, collection_index, other);
    }
}

/// The characters that the font of a face can draw, if it was loaded.
pub open spec fn loaded_chars(fonts: Seq<LoadedFont>, id: fontdb::ID) -> Option<Set<char>>
    decreases fonts.len(),
{
    if fonts.len() == 0 {
        None
    } else if fonts[0].id == id {
        Some(font_chars(fonts[0].font))
    } else {
        loaded_chars(fonts.skip(1), id)
    }
}

/// Whether the font of a face can draw a character, if it was loaded.
pub fn can_draw(fonts: &Vec<LoadedFont>, id: fontdb::ID, ch: char) -> (can: Option<bool>)
    ensures
        match can {
            Some(can) => loaded_chars(fonts@, id) is Some && can == loaded_chars(
                fonts@,
                id,
            )->0.contains(ch),
            None => loaded_chars(fonts@, id) is None,
        },
{
    let mut i: usize = 0;
    assert(fonts@.skip(0) =~= fonts@);
    while i < fonts.len()
        invariant
            i <= fonts@.len(),
            loaded_chars(fonts@, id) == loaded_chars(fonts@.skip(i as int), id),
        decreases fonts@.len() - i,
    {
        if same_face(fonts[i].id, id) {
            return Some(has_glyph(&fonts[i].font, ch));
        }
        assert(fonts@.skip(i as int).skip(1) =~= fonts@.skip(i + 1));
        i += 1;
    }
    None
}

/// What is done next to find a face for a character.
pub enum FallbackStep {
    /// The font of the face is loaded.
    Load(fontdb::ID),
    /// The face draws the character.
    Use(fontdb::ID),
    /// No face can draw it.
    NoFace,
}

/// What is done next to find a face for a character: the first face is taken whose font can draw
/// it. Fonts that could not be loaded in this search are passed over.
pub open spec fn next_step(
    order: Seq<fontdb::ID>,
    fonts: Seq<LoadedFont>,
    failed: Seq<fontdb::ID>,
    ch: char,
) -> FallbackStep
    decreases order.len(),
{
    if order.len() == 0 {
        FallbackStep::NoFace
    } else {
        match loaded_chars(fonts, order[0]) {
            Some(chars) => if chars.contains(ch) {
                FallbackStep::Use(order[0])
            } else {
                next_step(order.skip(1), fonts, failed, ch)
            },
            None => if failed.contains(order[0]) {
                next_step(order.skip(1), fonts, failed, ch)
            } else {
                FallbackStep::Load(order[0])
            },
        }
    }
}

/// Decides what is done next to find a face for a character. `failed` are the faces whose fonts
/// could not be loaded in this search.
pub fn pick_fallback_face_for_char(
    order: &Vec<fontdb::ID>,
    fonts: &Vec<LoadedFont>,
    failed: &Vec<fontdb::ID>,
    ch: char,
) -> (step: FallbackStep)
    ensures
        step == next_step(order@, fonts@, failed@, ch),
{
    let mut i: usize = 0;
    assert(order@.skip(0) =~= order@);
    while i < order.len()
        invariant
            i <= order@.len(),
            next_step(order@, fonts@, failed@, ch) == next_step(
                order@.skip(i as int),
                fonts@,
                failed@,
                ch,
            ),
        decreases order@.len() - i,
    {
        let face = order[i];
        assert(order@.skip(i as int).skip(1) =~= order@.skip(i + 1));
        match can_draw(fonts, face, ch) {
            Some(can) => if can {
                return FallbackStep::Use(face);
            },
            None => if !holds_face(failed, face) {
                return FallbackStep::Load(face);
            },
        }
        i += 1;
    }
    FallbackStep::NoFace
}

/// The face that is taken can draw the character, and no face before it can.
pub proof fn law_first_able_face_is_used(
    order: Seq<fontdb::ID>,
    fonts: Seq<LoadedFont>,
    failed: Seq<fontdb::ID>,
    ch: char,
)
    ensures
        next_step(order, fonts, failed, ch) matches FallbackStep::Use(face) ==> exists|k: int|
            {
                &&& 0 <= k < order.len()
                &&& #[trigger] order[k] == face
                &&& loaded_chars(fonts, face) matches Some(chars) && chars.contains(ch)
                &&& forall|j: int|
                    0 <= j < k ==> match loaded_chars(fonts, #[trigger] order[j]) {
                        Some(chars) => !chars.contains(ch),
                        None => failed.contains(order[j]),
                    }
            },
        next_step(order, fonts, failed, ch) is NoFace ==> forall|j: int|
            0 <= j < order.len() ==> match loaded_chars(fonts, #[trigger] order[j]) {
                Some(chars) => !chars.contains(ch),
                None => failed.contains(order[j]),
            },
    decreases order.len(),
{
    if order.len() > 0 {
        let rest = order.skip(1);
        law_first_able_face_is_used(rest, fonts, failed, ch);
        assert forall|j: int| 1 <= j < order.len() implies #[trigger] order[j] == rest[j - 1] by {
        }
        let step = next_step(order, fonts, failed, ch);
        let here = loaded_chars(fonts, order[0]);
        let passed = match here {
            Some(chars) => !chars.contains(ch),
            None => failed.contains(order[0]),
        };
        if passed {
            if let FallbackStep::Use(face) = step {
                let k = choose|k: int|
                    {
                        &&& 0 <= k < rest.len()
                        &&& #[trigger] rest[k] == face
                        &&& loaded_chars(fonts, face) matches Some(chars) && chars.contains(ch)
                        &&& forall|j: int|
                            0 <= j < k ==> match loaded_chars(fonts, #[trigger] rest[j]) {
                                Some(chars) => !chars.contains(ch),
                                None => failed.contains(rest[j]),
                            }
                    };
                assert(order[k + 1] == face);
                assert forall|j: int| 0 <= j < k + 1 implies match loaded_chars(
                    fonts,
                    #[trigger] order[j],
                ) {
                    Some(chars) => !chars.contains(ch),
                    None => failed.contains(order[j]),
                } by {
                    if j > 0 {
                        assert(order[j] == rest[j - 1]);
                    }
                }
            }
        } else {
            assert(order[0] == order[0]);
        }
    }
}

proof fn lemma_step_load(
    order: Seq<fontdb::ID>,
    fonts: Seq<LoadedFont>,
    failed: Seq<fontdb::ID>,
    ch: char,
)
    ensures
        next_step(order, fonts, failed, ch) matches FallbackStep::Load(face) ==> loaded_chars(
            fonts,
            face,
        ) is None && !failed.contains(face),
    decreases order.len(),
{
    if order.len() > 0 {
        lemma_step_load(order.skip(1), fonts, failed, ch);
    }
}

/// A new search tries a face again whose font could not be loaded before, once it comes to it.
pub proof fn law_new_search_tries_again(
    order: Seq<fontdb::ID>,
    fonts: Seq<LoadedFont>,
    ch: char,
    k: int,
)
    requires
        0 <= k < order.len(),
        loaded_chars(fonts, order[k]) is None,
        forall|j: int|
            0 <= j < k ==> (loaded_chars(fonts, #[trigger] order[j]) matches Some(chars)
                && !chars.contains(ch)),
    ensures
        next_step(order, fonts, Seq::empty(), ch) == FallbackStep::Load(order[k]),
    decreases order.len(),
{
    if k > 0 {
        assert(loaded_chars(fonts, order[0]) is Some);
        assert forall|j: int| 0 <= j < k - 1 implies (loaded_chars(
            fonts,
            #[trigger] order.skip(1)[j],
        ) matches Some(chars) && !chars.contains(ch)) by {
            assert(order.skip(1)[j] == order[j + 1]);
        }
        law_new_search_tries_again(order.skip(1), fonts, ch, k - 1);
    }
}

/// A search asks for a font only if it was neither loaded nor tried in vain in it: every answer brings
/// the search closer to its end.
pub proof fn law_font_is_loaded_once(
    order: Seq<fontdb::ID>,
    fonts: Seq<LoadedFont>,
    failed: Seq<fontdb::ID>,
    ch: char,
    face: fontdb::ID,
)
    requires
        loaded_chars(fonts, face) is Some || failed.contains(face),
    ensures
        next_step(order, fonts, failed, ch) != FallbackStep::Load(face),
{
    lemma_step_load(order, fonts, failed, ch);
}

// ---- which font of the chain draws which character ----------------------------------------------

/// The fonts in which a text is drawn, and what was found out of its characters.
pub struct FontChain {
    ids: Vec<fontdb::ID>,
    cache: HashMap<u32, usize>,
}

/// The first face of a chain whose font can draw a character.
pub open spec fn first_able(
    ids: Seq<fontdb::ID>,
    fonts: Seq<LoadedFont>,
    ch: char,
) -> Option<int>
    decreases ids.len(),
{
    if ids.len() == 0 {
        None
    } else {
        match first_able(ids.drop_last(), fonts, ch) {
            Some(i) => Some(i),
            None => match loaded_chars(fonts, ids.last()) {
                Some(chars) => if chars.contains(ch) {
                    Some(ids.len() - 1)
                } else {
                    None
                },
                None => None,
            },
        }
    }
}

/// The place of a face in a chain.
pub open spec fn place_of(ids: Seq<fontdb::ID>, face: fontdb::ID) -> Option<int>
    decreases ids.len(),
{
    if ids.len() == 0 {
        None
    } else {
        match place_of(ids.drop_last(), face) {
            Some(i) => Some(i),
            None => if ids.last() == face {
                Some(ids.len() - 1)
            } else {
                None
            },
        }
    }
}

proof fn lemma_first_able_in_range(ids: Seq<fontdb::ID>, fonts: Seq<LoadedFont>, ch: char)
    ensures
        first_able(ids, fonts, ch) matches Some(i) ==> 0 <= i < ids.len(),
    decreases ids.len(),
{
    if ids.len() > 0 {
        lemma_first_able_in_range(ids.drop_last(), fonts, ch);
    }
}

proof fn lemma_first_able_prefix(ids: Seq<fontdb::ID>, fonts: Seq<LoadedFont>, ch: char, k: int)
    requires
        0 <= k <= ids.len(),
        first_able(ids.take(k), fonts, ch) is Some,
    ensures
        first_able(ids, fonts, ch) == first_able(ids.take(k), fonts, ch),
    decreases ids.len(),
{
    if k < ids.len() {
        assert(ids.drop_last().take(k) =~= ids.take(k));
        lemma_first_able_prefix(ids.drop_last(), fonts, ch, k);
    } else {
        assert(ids.take(k) =~= ids);
    }
}

proof fn lemma_place_prefix(ids: Seq<fontdb::ID>, face: fontdb::ID, k: int)
    requires
        0 <= k <= ids.len(),
        place_of(ids.take(k), face) is Some,
    ensures
        place_of(ids, face) == place_of(ids.take(k), face),
    decreases ids.len(),
{
    if k < ids.len() {
        assert(ids.drop_last().take(k) =~= ids.take(k));
        lemma_place_prefix(ids.drop_last(), face, k);
    } else {
        assert(ids.take(k) =~= ids);
    }
}

/// This is what looking up the font of a character gives, and what is known of characters before and after it.
pub open spec fn looks_up(
    faces: Seq<fontdb::ID>,
    before: Map<u32, usize>,
    after: Map<u32, usize>,
    fonts: Seq<LoadedFont>,
    ch: char,
    index: Option<usize>,
) -> bool {
    let code = ch as u32;
    if before.dom().contains(code) {
        &&& index == Some(before[code])
        &&& after == before
    } else {
        match first_able(faces, fonts, ch) {
            Some(i) => {
                &&& index == Some(i as usize)
                &&& i < faces.len()
                &&& after == before.insert(code, i as usize)
            },
            None => index is None && after == before,
        }
    }
}

/// This is the place of the face that was found for a character, and the faces of the chain before and after it.
pub open spec fn settles(
    before: Seq<fontdb::ID>,
    after: Seq<fontdb::ID>,
    face: Option<fontdb::ID>,
    index: usize,
) -> bool {
    match face {
        Some(face) => match place_of(before, face) {
            Some(i) => index == i && after == before,
            None => index == before.len() && after == before.push(face),
        },
        None => index == 0 && after == before,
    }
}

/// What was found out of a character is not looked for again: a second look gives the same font. A font that a look finds
/// can draw the character, and is the first of the chain that can; and what is known of other characters stays.
pub proof fn law_characters_keep_their_font(
    faces: Seq<fontdb::ID>,
    before: Map<u32, usize>,
    after: Map<u32, usize>,
    last: Map<u32, usize>,
    fonts: Seq<LoadedFont>,
    more_fonts: Seq<LoadedFont>,
    ch: char,
    first: Option<usize>,
    again: Option<usize>,
    other: u32,
)
    requires
        looks_up(faces, before, after, fonts, ch, first),
        looks_up(faces, after, last, more_fonts, ch, again),
        faces.len() <= usize::MAX,
    ensures
        first is Some ==> again == first && last == after,
        !before.dom().contains(ch as u32) && first is Some ==> first->0 < faces.len() && (loaded_chars(
            fonts,
            faces[first->0 as int],
        ) matches Some(chars) && chars.contains(ch)),
        !before.dom().contains(ch as u32) && first is None ==> forall|i: int|
            0 <= i < faces.len() ==> !(loaded_chars(fonts, #[trigger] faces[i]) matches Some(chars)
                && chars.contains(ch)),
        other != ch as u32 && before.dom().contains(other) ==> after.dom().contains(other)
            && after[other] == before[other],
{
    law_first_able_font_of_the_chain(faces, fonts, ch);
}

/// The place that is settled for a character is the place of the face that was found for it; a face that was not in the chain
/// comes behind the others, which keep their places. Without a face the first font of the chain stands in.
pub proof fn law_found_faces_join_the_chain(
    before: Seq<fontdb::ID>,
    after: Seq<fontdb::ID>,
    face: Option<fontdb::ID>,
    index: usize,
    i: int,
)
    requires
        settles(before, after, face, index),
        before.len() > 0,
    ensures
        index < after.len(),
        face is Some ==> after[index as int] == face->0,
        face is None ==> index == 0 && after == before,
        face is Some && before.contains(face->0) ==> after == before,
        0 <= i < before.len() ==> after[i] == before[i],
        after.len() <= before.len() + 1,
{
    if face is Some {
        law_faces_are_found_in_the_chain(before, face->0);
    }
}

impl FontChain {
    /// The faces of the chain.
    pub closed spec fn faces(&self) -> Seq<fontdb::ID> {
        self.ids@
    }

    /// The fonts that were found for characters, by their places in the chain.
    pub closed spec fn found(&self) -> Map<u32, usize> {
        self.cache@
    }

    /// The chain has a font, and every character that was looked at has one of them.
    pub open spec fn wf(&self) -> bool {
        &&& self.faces().len() > 0
        &&& forall|code: u32| #[trigger]
            self.found().dom().contains(code) ==> self.found()[code] < self.faces().len()
    }

    /// A chain of the faces whose fonts were loaded. There is none without such a face.
    pub fn new(faces: &Vec<fontdb::ID>, fonts: &Vec<LoadedFont>) -> (chain: Option<FontChain>)
        ensures
            match chain {
                Some(chain) => {
                    &&& chain.wf()
                    &&& chain.found() == Map::<u32, usize>::empty()
                    &&& chain.faces() == crate::seqs::kept(
                        faces@,
                        |face: fontdb::ID| loaded_chars(fonts@, face) is Some,
                    )
                },
                None => crate::seqs::kept(
                    faces@,
                    |face: fontdb::ID| loaded_chars(fonts@, face) is Some,
                ).len() == 0,
            },
    {
        let ghost keep = |face: fontdb::ID| loaded_chars(fonts@, face) is Some;
        let mut ids: Vec<fontdb::ID> = Vec::new();
        let mut i: usize = 0;
        assert(faces@.take(0) =~= Seq::empty());
        while i < faces.len()
            invariant
                i <= faces@.len(),
                keep == (|face: fontdb::ID| loaded_chars(fonts@, face) is Some),
                ids@ == crate::seqs::kept(faces@.take(i as int), keep),
            decreases faces@.len() - i,
        {
            proof {
                crate::seqs::lemma_kept_step(faces@, keep, i as int);
            }
            if can_draw(fonts, faces[i], ' ').is_some() {
                ids.push(faces[i]);
            }
            i += 1;
        }
        assert(faces@.take(i as int) =~= faces@);
        if ids.len() == 0 {
            None
        } else {
            let chain = FontChain { ids, cache: HashMap::new() };
            assert(chain.found() =~= Map::<u32, usize>::empty());
            Some(chain)
        }
    }

    /// The place of the font that draws a character, if it is known or a font of the chain can.
    pub fn known_index(&mut self, fonts: &Vec<LoadedFont>, ch: char) -> (index: Option<usize>)
        requires
            old(self).wf(),
        ensures
            final(self).wf(),
            final(self).faces() == old(self).faces(),
            looks_up(
                old(self).faces(),
                old(self).found(),
                final(self).found(),
                fonts@,
                ch,
                index,
            ),
    {
        let code: u32 = ch as u32;
        if let Some(index) = self.cache.get(&code) {
            return Some(*index);
        }
        let mut i: usize = 0;
        assert(self.ids@.take(0) =~= Seq::empty());
        while i < self.ids.len()
            invariant
                i <= self.ids@.len(),
                *self == *old(self),
                self.wf(),
                code == ch as u32,
                !self.found().dom().contains(code),
                first_able(self.ids@.take(i as int), fonts@, ch) is None,
            decreases self.ids@.len() - i,
        {
            assert(self.ids@.take(i + 1).drop_last() =~= self.ids@.take(i as int));
            match can_draw(fonts, self.ids[i], ch) {
                Some(can) => if can {
                    proof {
                        lemma_first_able_prefix(self.ids@, fonts@, ch, i + 1);
                    }
                    let gone = self.cache.insert(code, i);
                    return Some(i);
                },
                None => {},
            }
            i += 1;
        }
        assert(self.ids@.take(i as int) =~= self.ids@);
        None
    }

    /// Notes the face that was found for a character which the chain could not draw. A new face is
    /// taken into the chain. Without a face, the first font stands in.
    pub fn settle(&mut self, ch: char, face: Option<fontdb::ID>) -> (index: usize)
        requires
            old(self).wf(),
        ensures
            final(self).wf(),
            final(self).found() == old(self).found().insert(ch as u32, index),
            settles(old(self).faces(), final(self).faces(), face, index),
    {
        let code: u32 = ch as u32;
        let index: usize = match face {
            Some(face) => {
                let mut place: Option<usize> = None;
                let mut i: usize = 0;
                assert(self.ids@.take(0) =~= Seq::empty());
                while i < self.ids.len() && place.is_none()
                    invariant
                        i <= self.ids@.len(),
                        *self == *old(self),
                        match place {
                            Some(at) => at < self.ids@.len() && place_of(self.ids@, face) == Some(
                                at as int,
                            ),
                            None => place_of(self.ids@.take(i as int), face) is None,
                        },
                    decreases
                            self.ids@.len() - i + (if place is None {
                                1int
                            } else {
                                0int
                            }),
                {
                    assert(self.ids@.take(i + 1).drop_last() =~= self.ids@.take(i as int));
                    if same_face(self.ids[i], face) {
                        proof {
                            lemma_place_prefix(self.ids@, face, i + 1);
                        }
                        place = Some(i);
                    } else {
                        i += 1;
                    }
                }
                match place {
                    Some(at) => at,
                    None => {
                        assert(self.ids@.take(i as int) =~= self.ids@);
                        let at: usize = self.ids.len();
                        self.ids.push(face);
                        at
                    },
                }
            },
            None => 0,
        };
        let gone = self.cache.insert(code, index);
        assert forall|c: u32| #[trigger] self.found().dom().contains(c) implies self.found()[c]
            < self.faces().len() by {
            if c != code {
                assert(old(self).found().dom().contains(c));
            }
        }
        index
    }

    /// The faces of the chain.
    pub fn ids(&self) -> (ids: &Vec<fontdb::ID>)
        ensures
            ids@ == self.faces(),
    {
        &self.ids
    }
}

/// A part of a text that one font draws, from one character up to another.
#[derive(Clone, Copy, Debug, PartialEq, Eq, Structural)]
pub struct TextRun {
    pub start: usize,
    pub end: usize,
    pub font_index: usize,
}

/// The parts of a text whose characters have these fonts. Neighbours with the same font are one
/// part.
pub open spec fn runs_of(indices: Seq<usize>) -> Seq<TextRun>
    decreases indices.len(),
{
    if indices.len() == 0 {
        Seq::empty()
    } else {
        let before = runs_of(indices.drop_last());
        let at = (indices.len() - 1) as usize;
        if before.len() > 0 && before.last().font_index == indices.last() {
            before.drop_last().push(TextRun { end: (at + 1) as usize, ..before.last() })
        } else {
            before.push(TextRun { start: at, end: (at + 1) as usize, font_index: indices.last() })
        }
    }
}

/// Divides a text into the parts that one font draws.
pub fn text_runs(indices: &Vec<usize>) -> (runs: Vec<TextRun>)
    ensures
        runs@ == runs_of(indices@),
{
    let mut runs: Vec<TextRun> = Vec::new();
    let count: usize = indices.len();
    let mut i: usize = 0;
    assert(indices@.take(0) =~= Seq::empty());
    while i < count
        invariant
            count == indices@.len(),
            i <= count,
            runs@ == runs_of(indices@.take(i as int)),
        decreases count - i,
    {
        assert(indices@.take(i + 1).drop_last() =~= indices@.take(i as int));
        let last: usize = runs.len();
        if last > 0 && runs[last - 1].font_index == indices[i] {
            let run = runs[last - 1];
            runs.set(last - 1, TextRun { end: i + 1, ..run });
            assert(runs@ =~= runs_of(indices@.take(i as int)).drop_last().push(
                TextRun { end: (i + 1) as usize, ..run },
            ));
        } else {
            runs.push(TextRun { start: i, end: i + 1, font_index: indices[i] });
        }
        i += 1;
    }
    assert(indices@.take(i as int) =~= indices@);
    runs
}

/// The parts make up the whole text in its order, every character lies in a part with its font, and
/// neighbouring parts have different fonts.
pub proof fn law_runs_make_up_text(indices: Seq<usize>)
    requires
        indices.len() <= usize::MAX,
    ensures
        indices.len() > 0 ==> runs_of(indices).len() > 0 && runs_of(indices)[0].start == 0
            && runs_of(indices).last().end == indices.len(),
        forall|r: int|
            0 <= r < runs_of(indices).len() ==> (#[trigger] runs_of(indices)[r]).start
                < runs_of(indices)[r].end <= indices.len(),
        forall|r: int|
            0 < r < runs_of(indices).len() ==> (#[trigger] runs_of(indices)[r]).start == runs_of(
                indices,
            )[r - 1].end && runs_of(indices)[r].font_index != runs_of(indices)[r - 1].font_index,
        forall|r: int, k: int|
            0 <= r < runs_of(indices).len() && (#[trigger] runs_of(indices)[r]).start <= k
                < runs_of(indices)[r].end ==> #[trigger] indices[k] == runs_of(
                indices,
            )[r].font_index,
    decreases indices.len(),
{
    if indices.len() > 0 {
        let head = indices.drop_last();
        law_runs_make_up_text(head);
        let before = runs_of(head);
        let runs = runs_of(indices);
        assert forall|k: int| 0 <= k < head.len() implies #[trigger] indices[k] == head[k] by {
        }
        if before.len() > 0 && before.last().font_index == indices.last() {
            assert forall|r: int| 0 <= r < before.len() - 1 implies #[trigger] runs[r] == before[r] by {
            }
            assert forall|r: int, k: int|
                0 <= r < runs.len() && (#[trigger] runs[r]).start <= k
                    < runs[r].end implies #[trigger] indices[k] == runs[r].font_index by {
                if r == runs.len() - 1 && k < head.len() {
                    assert(before[r].start <= k < before[r].end);
                    assert(head[k] == before[r].font_index);
                } else if r < runs.len() - 1 {
                    assert(head[k] == before[r].font_index);
                }
            }
        } else {
            assert forall|r: int| 0 <= r < before.len() implies #[trigger] runs[r] == before[r] by {
            }
            assert forall|r: int, k: int|
                0 <= r < runs.len() && (#[trigger] runs[r]).start <= k
                    < runs[r].end implies #[trigger] indices[k] == runs[r].font_index by {
                if r < before.len() {
                    assert(head[k] == before[r].font_index);
                }
            }
        }
    }
}

// ---- what speaks for a face -----------------------------------------------------------------------

/// How far two weights lie apart.
pub open spec fn weight_distance(a: u16, b: u16) -> int {
    if a < b {
        b - a
    } else {
        a - b
    }
}

/// Of faces that are alike otherwise, the one suits better whose weight lies nearer to the weight that is wanted, heavier
/// or lighter alike, by the difference; whatever the face is wanted for.
pub proof fn law_nearer_weight_suits_better(
    face: Face,
    x: u16,
    y: u16,
    families: Option<Seq<Seq<char>>>,
    sans: Seq<char>,
    emoji: bool,
    weight: u16,
)
    ensures
        ({
            let (a, b) = (Face { weight: x, ..face }, Face { weight: y, ..face });
            let apart = weight_distance(x, weight) - weight_distance(y, weight);
            &&& matching_score(a, families, weight) - matching_score(b, families, weight) == apart
            &&& default_score(a, sans, weight) - default_score(b, sans, weight) == apart
            &&& fallback_score(a, families, emoji, weight) - fallback_score(
                b,
                families,
                emoji,
                weight,
            ) == apart
        }),
{
    lemma_names_stay(face, Face { weight: x, ..face }, families, sans);
    lemma_names_stay(face, Face { weight: y, ..face }, families, sans);
}

/// Names alone decide what a face is called.
proof fn lemma_names_stay(a: Face, b: Face, families: Option<Seq<Seq<char>>>, sans: Seq<char>)
    requires
        a.families == b.families,
    ensures
        is_named(a, sans) == is_named(b, sans),
        families is Some ==> is_requested(a, families->0) == is_requested(b, families->0),
        name_holds(a, "sans"@) == name_holds(b, "sans"@),
        name_holds(a, "serif"@) == name_holds(b, "serif"@),
        name_holds(a, "emoji"@) == name_holds(b, "emoji"@),
        name_holds(a, "cjk"@) == name_holds(b, "cjk"@),
{
    if families is Some {
        let names = families->0;
        if is_requested(a, names) {
            let i = choose|i: int| 0 <= i < names.len() && is_named(a, #[trigger] names[i]);
            assert(is_named(b, names[i]));
        }
        if is_requested(b, names) {
            let i = choose|i: int| 0 <= i < names.len() && is_named(b, #[trigger] names[i]);
            assert(is_named(a, names[i]));
        }
    }
}

/// Slanted letters count against a face by 100, an unusual width by 25, and a collection of fonts by 180, whatever the
/// face is wanted for.
pub proof fn law_plain_faces_suit_better(
    face: Face,
    style: u8,
    stretch: u16,
    families: Option<Seq<Seq<char>>>,
    sans: Seq<char>,
    emoji: bool,
    weight: u16,
)
    requires
        style != 0,
        stretch != 5,
    ensures
        ({
            let (upright, slanted) = (Face { style: 0, ..face }, Face { style, ..face });
            &&& matching_score(slanted, families, weight) == matching_score(upright, families, weight)
                + 100
            &&& default_score(slanted, sans, weight) == default_score(upright, sans, weight) + 100
            &&& fallback_score(slanted, families, emoji, weight) == fallback_score(
                upright,
                families,
                emoji,
                weight,
            ) + 100
        }),
        ({
            let (usual, unusual) = (Face { stretch: 5, ..face }, Face { stretch, ..face });
            &&& matching_score(unusual, families, weight) == matching_score(usual, families, weight)
                + 25
            &&& default_score(unusual, sans, weight) == default_score(usual, sans, weight) + 25
            &&& fallback_score(unusual, families, emoji, weight) == fallback_score(
                usual,
                families,
                emoji,
                weight,
            ) + 25
        }),
        ({
            let (single, whole) = (Face { source: None, ..face }, face);
            let more = source_penalty(face.source);
            &&& matching_score(whole, families, weight) == matching_score(single, families, weight)
                + more
            &&& default_score(whole, sans, weight) == default_score(single, sans, weight) + more
            &&& fallback_score(whole, families, emoji, weight) == fallback_score(
                single,
                families,
                emoji,
                weight,
            ) + more
        }),
{
    lemma_names_stay(face, Face { style: 0, ..face }, families, sans);
    lemma_names_stay(face, Face { style, ..face }, families, sans);
    lemma_names_stay(face, Face { stretch: 5, ..face }, families, sans);
    lemma_names_stay(face, Face { stretch, ..face }, families, sans);
    lemma_names_stay(face, Face { source: None, ..face }, families, sans);
}

/// A collection of fonts is known by the extension of its file, in upper or lower case, and counts 180; any other file, and
/// a face that comes from no file, counts nothing.
pub proof fn law_collections_are_known_by_their_files(path: Seq<char>)
    ensures
        source_penalty(None) == 0,
        crate::paths::extension(path) is None ==> source_penalty(Some(path)) == 0,
        crate::paths::extension(path) matches Some(extension) ==> {
            let lower = crate::strings::lowered(extension);
            &&& lower == "ttc"@ ==> source_penalty(Some(path)) == 180
            &&& lower == "otc"@ ==> source_penalty(Some(path)) == 180
            &&& lower != "ttc"@ && lower != "otc"@ ==> source_penalty(Some(path)) == 0
        },
{
}

/// A family that is asked for outweighs everything but the greatest differences of weight: a face of another family is 1000
/// behind. Letters of one width count against a face that was not asked for: 50 where no family is asked for, and 120 for
/// any text and for characters that the chosen fonts lack.
pub proof fn law_asked_families_suit_best(
    face: Face,
    asked: Seq<Seq<char>>,
    other: Seq<Seq<char>>,
    names: Seq<Seq<char>>,
    families: Option<Seq<Seq<char>>>,
    sans: Seq<char>,
    emoji: bool,
    weight: u16,
)
    requires
        is_requested(Face { families: asked, ..face }, names),
        !is_requested(Face { families: other, ..face }, names),
    ensures
        matching_score(Face { families: other, ..face }, Some(names), weight) == matching_score(
            Face { families: asked, ..face },
            Some(names),
            weight,
        ) + 1_000,
        ({
            let (wide, even) = (
                Face { monospaced: false, ..face },
                Face { monospaced: true, ..face },
            );
            &&& matching_score(even, None, weight) == matching_score(wide, None, weight) + 50
            &&& matching_score(even, Some(names), weight) == matching_score(wide, Some(names), weight)
            &&& default_score(even, sans, weight) == default_score(wide, sans, weight) + 120
            &&& fallback_score(even, families, emoji, weight) == fallback_score(
                wide,
                families,
                emoji,
                weight,
            ) + 120
        }),
{
    lemma_names_stay(face, Face { monospaced: false, ..face }, families, sans);
    lemma_names_stay(face, Face { monospaced: true, ..face }, families, sans);
    lemma_names_stay(face, Face { monospaced: false, ..face }, Some(names), sans);
    lemma_names_stay(face, Face { monospaced: true, ..face }, Some(names), sans);
}

/// For any text the family that the database takes for letters without serifs suits best, then one that is named so, then
/// one that is not named at all, and then one that is named after serifs. Pictures, and letters of the far east, come far
/// behind.
pub proof fn law_any_text_takes_plain_families(a: Face, b: Face, sans: Seq<char>, weight: u16)
    requires
        plain_penalty(a, weight) == plain_penalty(b, weight),
        a.monospaced == b.monospaced,
    ensures
        ({
            let ahead = default_score(b, sans, weight) - default_score(a, sans, weight);
            let same_script = name_holds(a, "emoji"@) == name_holds(b, "emoji"@) && name_holds(
                a,
                "cjk"@,
            ) == name_holds(b, "cjk"@);
            let sans_like = |face: Face| !is_named(face, sans) && name_holds(face, "sans"@);
            let serif_like = |face: Face|
                !is_named(face, sans) && !name_holds(face, "sans"@) && name_holds(face, "serif"@);
            let unnamed = |face: Face|
                !is_named(face, sans) && !name_holds(face, "sans"@) && !name_holds(face, "serif"@);
            &&& same_script && is_named(a, sans) && sans_like(b) ==> ahead == 25
            &&& same_script && is_named(a, sans) && unnamed(b) ==> ahead == 80
            &&& same_script && is_named(a, sans) && serif_like(b) ==> ahead == 140
            &&& same_script && sans_like(a) && unnamed(b) ==> ahead == 55
            &&& same_script && unnamed(a) && serif_like(b) ==> ahead == 60
            &&& is_named(a, sans) && is_named(b, sans) && name_holds(a, "cjk"@) == name_holds(b, "cjk"@)
                && !name_holds(a, "emoji"@) && name_holds(b, "emoji"@) ==> ahead == 600
            &&& is_named(a, sans) && is_named(b, sans) && name_holds(a, "emoji"@) == name_holds(
                b,
                "emoji"@,
            ) && !name_holds(a, "cjk"@) && name_holds(b, "cjk"@) ==> ahead == 220
        }),
{
}

/// For a character that the chosen fonts lack, a family that was asked for suits best, then one without serifs, then one
/// that is not named, and then one with serifs. For a picture a font of pictures suits better, by 400; for a letter it suits
/// worse, by 500. Letters of the far east come behind by 120.
pub proof fn law_pictures_take_fonts_of_pictures(
    a: Face,
    b: Face,
    families: Option<Seq<Seq<char>>>,
    weight: u16,
)
    requires
        plain_penalty(a, weight) == plain_penalty(b, weight),
        a.monospaced == b.monospaced,
    ensures
        ({
            let asked = |face: Face| families is Some && is_requested(face, families->0);
            let ahead = |emoji: bool|
                fallback_score(b, families, emoji, weight) - fallback_score(a, families, emoji, weight);
            let same_script = name_holds(a, "emoji"@) == name_holds(b, "emoji"@) && name_holds(
                a,
                "cjk"@,
            ) == name_holds(b, "cjk"@);
            let sans_like = |face: Face| !asked(face) && name_holds(face, "sans"@);
            let serif_like = |face: Face|
                !asked(face) && !name_holds(face, "sans"@) && name_holds(face, "serif"@);
            let unnamed = |face: Face|
                !asked(face) && !name_holds(face, "sans"@) && !name_holds(face, "serif"@);
            &&& same_script && asked(a) && sans_like(b) ==> ahead(true) == 25 && ahead(false) == 25
            &&& same_script && asked(a) && unnamed(b) ==> ahead(true) == 80 && ahead(false) == 80
            &&& same_script && asked(a) && serif_like(b) ==> ahead(true) == 140 && ahead(false) == 140
            &&& asked(a) && asked(b) && name_holds(a, "cjk"@) == name_holds(b, "cjk"@) && name_holds(
                a,
                "emoji"@,
            ) && !name_holds(b, "emoji"@) ==> ahead(true) == 400 && ahead(false) == -500
            &&& asked(a) && asked(b) && name_holds(a, "emoji"@) == name_holds(b, "emoji"@)
                && !name_holds(a, "cjk"@) && name_holds(b, "cjk"@) ==> ahead(true) == 120 && ahead(
                false,
            ) == 120
        }),
{
}

/// The face that is picked by scores is one of the faces, and no face has a lower score; there is one whenever there are
/// faces.
pub proof fn law_picked_face_has_the_lowest_score(faces: Seq<Face>, scores: Seq<int>)
    requires
        faces.len() == scores.len(),
    ensures
        lowest_face(faces, scores) is None <==> faces.len() == 0,
        lowest_face(faces, scores) matches Some(id) ==> exists|i: int|
            0 <= i < faces.len() && (#[trigger] faces[i]).id == id && forall|k: int|
                0 <= k < scores.len() ==> scores[i] <= #[trigger] scores[k],
{
    law_lowest_is_lowest(scores);
    if let Some(i) = lowest(scores) {
        assert(faces[i].id == lowest_face(faces, scores)->0);
    }
}

/// Every face gets the score that it has by itself.
pub proof fn law_faces_are_scored_one_by_one(
    faces: Seq<Face>,
    families: Option<Seq<Seq<char>>>,
    sans: Seq<char>,
    weight: u16,
    i: int,
)
    requires
        0 <= i < faces.len(),
    ensures
        matching_scores(faces, families, weight).len() == faces.len(),
        matching_scores(faces, families, weight)[i] == matching_score(faces[i], families, weight),
        default_scores(faces, sans, weight).len() == faces.len(),
        default_scores(faces, sans, weight)[i] == default_score(faces[i], sans, weight),
{
}

/// A text is drawn in the face that the database finds, before the one that suits the families best, before the one that
/// suits any text; in these and in no others.
pub proof fn law_chain_is_in_order(
    queried: Option<fontdb::ID>,
    matching: Option<fontdb::ID>,
    default: Option<fontdb::ID>,
    face: fontdb::ID,
)
    ensures
        chain_faces(queried, matching, default).contains(face) <==> queried == Some(face) || matching
            == Some(face) || default == Some(face),
        queried is Some ==> chain_faces(queried, matching, default)[0] == queried->0,
        queried is None && matching is Some ==> chain_faces(queried, matching, default)[0]
            == matching->0,
        queried is Some && matching is Some && queried != matching ==> chain_faces(
            queried,
            matching,
            default,
        )[1] == matching->0,
        chain_faces(queried, matching, default).len() <= 3,
{
    let none = Seq::<fontdb::ID>::empty();
    let a = with_face(none, queried);
    let b = with_face(a, matching);
    let c = with_face(b, default);
    assert(!none.contains(face));
    lemma_with_face_holds(none, queried, face);
    lemma_with_face_holds(a, matching, face);
    lemma_with_face_holds(b, default, face);
    if queried is Some {
        assert(a =~= seq![queried->0]);
        assert(b[0] == queried->0 && c[0] == queried->0);
        if matching is Some && queried != matching {
            assert(!a.contains(matching->0));
            assert(b[1] == matching->0 && c[1] == matching->0);
        }
    } else if matching is Some {
        assert(!a.contains(matching->0));
        assert(b[0] == matching->0 && c[0] == matching->0);
    }
}

proof fn lemma_with_face_holds(faces: Seq<fontdb::ID>, added: Option<fontdb::ID>, face: fontdb::ID)
    ensures
        with_face(faces, added).contains(face) <==> faces.contains(face) || added == Some(face),
        with_face(faces, added).len() >= faces.len(),
        forall|i: int|
            0 <= i < faces.len() ==> #[trigger] with_face(faces, added)[i] == faces[i],
{
    let out = with_face(faces, added);
    if added is Some && !faces.contains(added->0) {
        assert(out[faces.len() as int] == added->0);
        if faces.contains(face) {
            let k = choose|k: int| 0 <= k < faces.len() && faces[k] == face;
            assert(out[k] == face);
        }
        if out.contains(face) {
            let k = choose|k: int| 0 <= k < out.len() && out[k] == face;
            if k < faces.len() {
                assert(faces[k] == face);
            }
        }
    }
}

/// Without families that are asked for, only the face that suits any text best is taken; with them that face comes last,
/// and the one that the database finds for them comes first.
pub proof fn law_font_chain_follows_the_families(
    database: fontdb::Database,
    names: Seq<Seq<char>>,
    weight: u16,
)
    ensures
        ({
            let faces = database_faces(database);
            let default = lowest_face(faces, default_scores(faces, sans_family(database), weight));
            &&& default is Some ==> font_chain(database, None, weight) == seq![default->0]
            &&& default is None ==> font_chain(database, None, weight) == Seq::<fontdb::ID>::empty()
            &&& default is Some ==> font_chain(database, Some(names), weight).contains(default->0)
            &&& queried_face(database, asked_families(names), weight) is Some ==> font_chain(
                database,
                Some(names),
                weight,
            )[0] == queried_face(database, asked_families(names), weight)->0
        }),
{
    let faces = database_faces(database);
    let default = lowest_face(faces, default_scores(faces, sans_family(database), weight));
    let queried = queried_face(database, asked_families(names), weight);
    let matching = lowest_face(faces, matching_scores(faces, Some(names), weight));
    if default is Some {
        law_chain_is_in_order(queried, matching, default, default->0);
        assert(font_chain(database, None, weight) =~= seq![default->0]);
    } else {
        assert(font_chain(database, None, weight) =~= Seq::<fontdb::ID>::empty());
    }
    if queried is Some {
        law_chain_is_in_order(queried, matching, default, queried->0);
    }
}

/// The families that are asked for go in their order before those for any text.
pub proof fn law_named_families_come_first(names: Seq<Seq<char>>, i: int)
    ensures
        asked_families(names).len() == names.len() + 3,
        0 <= i < names.len() ==> asked_families(names)[i] == FamilyName::Name(names[i]),
        asked_families(names)[names.len() as int] == FamilyName::SansSerif,
        asked_families(names)[names.len() as int + 1] == FamilyName::Serif,
        asked_families(names)[names.len() as int + 2] == FamilyName::Monospace,
{
}

/// The faces that are tried for a character are all faces, those that suit better before those that suit worse.
pub proof fn law_better_faces_are_tried_first(
    faces: Seq<Face>,
    families: Option<Seq<Seq<char>>>,
    emoji: bool,
    weight: u16,
) -> (sorted: Seq<(usize, fontdb::ID)>)
    ensures
        fallback_order(faces, families, emoji, weight).len() == faces.len(),
        sorted.len() == faces.len(),
        forall|i: int|
            0 <= i < sorted.len() ==> fallback_order(faces, families, emoji, weight)[i] == (
            #[trigger] sorted[i]).1,
        forall|i: int, j: int|
            0 <= i < j < sorted.len() ==> (#[trigger] sorted[i]).0 <= (#[trigger] sorted[j]).0,
        fallback_order(faces, families, emoji, weight).to_multiset() == Seq::new(
            faces.len(),
            |i: int| faces[i].id,
        ).to_multiset(),
        forall|i: int|
            0 <= i < faces.len() ==> (#[trigger] scored_faces(faces, families, emoji, weight)[i]).1
                == faces[i].id && scored_faces(faces, families, emoji, weight)[i].0
                == fallback_score(faces[i], families, emoji, weight),
{
    let scored = scored_faces(faces, families, emoji, weight);
    let sorted = crate::backend::scene::in_order(scored);
    crate::backend::scene::law_in_order_is_stable(scored);
    crate::backend::scene::law_sorting_keeps_all(scored);
    assert(crate::backend::scene::elements(scored) =~= Seq::new(
        faces.len(),
        |i: int| faces[i].id,
    ));
    assert forall|i: int| 0 <= i < faces.len() implies (#[trigger] scored[i]).1 == faces[i].id
        && scored[i].0 == fallback_score(faces[i], families, emoji, weight) by {
        assert(0 <= fallback_score(faces[i], families, emoji, weight) <= 80_000) by {
            assert(0 <= source_penalty(faces[i].source) <= 180);
        }
    }
    sorted
}

/// The first font of a chain that can draw a character can draw it, and no font before it can.
pub proof fn law_first_able_font_of_the_chain(
    ids: Seq<fontdb::ID>,
    fonts: Seq<LoadedFont>,
    ch: char,
)
    ensures
        match first_able(ids, fonts, ch) {
            Some(at) => 0 <= at < ids.len() && (loaded_chars(fonts, ids[at]) matches Some(chars)
                && chars.contains(ch)) && forall|i: int|
                0 <= i < at ==> !(loaded_chars(fonts, #[trigger] ids[i]) matches Some(chars)
                    && chars.contains(ch)),
            None => forall|i: int|
                0 <= i < ids.len() ==> !(loaded_chars(fonts, #[trigger] ids[i]) matches Some(chars)
                    && chars.contains(ch)),
        },
    decreases ids.len(),
{
    if ids.len() > 0 {
        let head = ids.drop_last();
        law_first_able_font_of_the_chain(head, fonts, ch);
        assert forall|i: int| 0 <= i < head.len() implies #[trigger] ids[i] == head[i] by {
        }
    }
}

/// A face is found in a chain where it first stands, if it stands there.
pub proof fn law_faces_are_found_in_the_chain(ids: Seq<fontdb::ID>, face: fontdb::ID)
    ensures
        match place_of(ids, face) {
            Some(at) => 0 <= at < ids.len() && ids[at] == face && forall|i: int|
                0 <= i < at ==> #[trigger] ids[i] != face,
            None => !ids.contains(face),
        },
    decreases ids.len(),
{
    if ids.len() > 0 {
        let head = ids.drop_last();
        law_faces_are_found_in_the_chain(head, face);
        assert forall|i: int| 0 <= i < head.len() implies #[trigger] ids[i] == head[i] by {
        }
        if place_of(ids, face) is None && ids.contains(face) {
            let k = choose|k: int| 0 <= k < ids.len() && ids[k] == face;
            if k < head.len() {
                assert(head[k] == face);
            }
        }
    }
}

/// Pictures are the characters from 2600 to 27BF, from 1F000 to 1FAFF and from 1FC00 to 1FFFD, and no others: no letter,
/// digit or sign of ASCII is one.
pub proof fn law_pictures_are_known_by_their_number(ch: char)
    ensures
        is_emoji(ch) <==> 0x2600 <= ch as u32 <= 0x27bf || 0x1_f000 <= ch as u32 <= 0x1_faff || 0x1_fc00
            <= ch as u32 <= 0x1_fffd,
        ch < '\u{80}' ==> !is_emoji(ch),
{
}

} // verus!
