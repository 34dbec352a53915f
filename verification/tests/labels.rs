use fontdb::{Database, FaceInfo, Language, Source, Stretch, Style, Weight, ID};
use shoji_wm::backend::font_file::{
    can_read_file, find_table, has_countable_faces, has_second_compact_only, hide_tables,
};
use shoji_wm::backend::font_names::has_whole_names;
use shoji_wm::backend::font_outlines::has_counted_outlines;
use shoji_wm::backend::fonts::{
    can_draw, face_source_penalty, fallback_faces, load_cached_font, load_face,
    looks_like_emoji, needs_font, pick_fallback_face_for_char,
    query_families, resolve_font_chain, text_runs, unique_faces, FallbackStep, FontChain,
    FontFamily, LoadedFont, TextRun,
};
use shoji_wm::backend::text::{
    blank_label, draw_glyph, parse_font_weight, rendered_label, Color, FontWeight, GlyphBitmap,
    LabelLayout, LabelSpec, TextAlignment,
};
use shoji_wm::geometry::LogicalRect;
use std::path::PathBuf;

struct Described<'a> {
    family: &'a str,
    path: &'a str,
    weight: u16,
    style: Style,
    stretch: Stretch,
    monospaced: bool,
}

fn plain<'a>(family: &'a str) -> Described<'a> {
    Described {
        family,
        path: "/fonts/a.ttf",
        weight: 400,
        style: Style::Normal,
        stretch: Stretch::Normal,
        monospaced: false,
    }
}

fn add_face(database: &mut Database, face: Described) -> ID {
    database.push_face_info(FaceInfo {
        id: ID::dummy(),
        source: Source::File(PathBuf::from(face.path)),
        index: 0,
        families: vec![(face.family.to_string(), Language::English_UnitedStates)],
        post_script_name: String::new(),
        style: face.style,
        weight: Weight(face.weight),
        stretch: face.stretch,
        monospaced: face.monospaced,
    })
}

fn families(names: &[&str]) -> Vec<String> {
    names.iter().map(|name| name.to_string()).collect()
}

#[test]
fn any_text_takes_a_plain_sans_face() {
    let mut database = Database::new();
    add_face(&mut database, plain("Some Serif"));
    add_face(&mut database, Described { style: Style::Italic, ..plain("Some Sans") });
    let sans = add_face(&mut database, plain("Some Sans"));
    add_face(&mut database, Described { monospaced: true, ..plain("Some Sans Mono") });
    add_face(&mut database, plain("Noto Emoji"));
    assert_eq!(resolve_font_chain(&database, None, 400), vec![sans]);
}

#[test]
fn sans_family_of_the_database_comes_first() {
    let mut database = Database::new();
    add_face(&mut database, plain("Other Sans"));
    let own = add_face(&mut database, plain("House Face"));
    database.set_sans_serif_family("house face");
    assert_eq!(resolve_font_chain(&database, None, 400), vec![own]);
}

#[test]
fn asked_family_comes_before_the_default() {
    let mut database = Database::new();
    let sans = add_face(&mut database, plain("Some Sans"));
    let asked = add_face(&mut database, plain("Fancy"));
    let names = families(&["Fancy"]);
    assert_eq!(resolve_font_chain(&database, Some(&names), 400), vec![asked, sans]);
    let lower = families(&["fancy"]);
    assert_eq!(resolve_font_chain(&database, Some(&lower), 400), vec![asked, sans]);
}

#[test]
fn weight_of_a_family_is_matched() {
    let mut database = Database::new();
    add_face(&mut database, plain("Some Sans"));
    let light = add_face(&mut database, Described { weight: 300, ..plain("Fancy") });
    let bold = add_face(&mut database, Described { weight: 700, ..plain("Fancy") });
    let names = families(&["Fancy"]);
    assert_eq!(resolve_font_chain(&database, Some(&names), 700)[0], bold);
    assert_eq!(resolve_font_chain(&database, Some(&names), 300), vec![light]);
}

#[test]
fn empty_database_has_no_chain() {
    let database = Database::new();
    assert!(resolve_font_chain(&database, None, 400).is_empty());
    assert!(resolve_font_chain(&database, Some(&families(&["x"])), 400).is_empty());
}

#[test]
fn collections_come_last() {
    assert_eq!(face_source_penalty(&Some("/f/a.TTC".to_string())), 180);
    assert_eq!(face_source_penalty(&Some("/f/a.otc".to_string())), 180);
    assert_eq!(face_source_penalty(&Some("/f/a.ttf".to_string())), 0);
    assert_eq!(face_source_penalty(&None), 0);
    let mut database = Database::new();
    add_face(&mut database, Described { path: "/f/a.ttc", ..plain("A Sans") });
    let single = add_face(&mut database, plain("B Sans"));
    assert_eq!(resolve_font_chain(&database, None, 400), vec![single]);
}

#[test]
fn unusual_width_counts_against_a_face() {
    let mut database = Database::new();
    add_face(&mut database, Described { stretch: Stretch::Condensed, ..plain("A Sans") });
    let usual = add_face(&mut database, plain("B Sans"));
    assert_eq!(resolve_font_chain(&database, None, 400), vec![usual]);
}

#[test]
fn faces_are_tried_by_their_scores() {
    let mut database = Database::new();
    let emoji = add_face(&mut database, plain("Noto Emoji"));
    let sans = add_face(&mut database, plain("Some Sans"));
    let cjk = add_face(&mut database, plain("Noto Sans CJK"));
    let serif = add_face(&mut database, plain("Some Serif"));
    assert_eq!(fallback_faces(&database, None, 'x', 400), vec![sans, serif, cjk, emoji]);
    assert_eq!(fallback_faces(&database, None, '\u{1f600}', 400), vec![emoji, sans, serif, cjk]);
    let asked = families(&["some serif"]);
    assert_eq!(fallback_faces(&database, Some(&asked), 'x', 400)[0], serif);
}

#[test]
fn pictures_are_told_from_letters() {
    assert!(looks_like_emoji('\u{2600}'));
    assert!(looks_like_emoji('\u{27bf}'));
    assert!(!looks_like_emoji('\u{27c0}'));
    assert!(looks_like_emoji('\u{1f600}'));
    assert!(looks_like_emoji('\u{1fffd}'));
    assert!(!looks_like_emoji('\u{1fb00}'));
    assert!(!looks_like_emoji('a'));
}

#[test]
fn asked_families_end_with_those_for_any_text() {
    let asked = query_families(&families(&["A"]));
    assert_eq!(asked.len(), 4);
    assert!(matches!(&asked[0], FontFamily::Name(name) if name == "A"));
    assert!(matches!(asked[1], FontFamily::SansSerif));
    assert!(matches!(asked[2], FontFamily::Serif));
    assert!(matches!(asked[3], FontFamily::Monospace));
}

#[test]
fn no_face_is_taken_twice() {
    let mut database = Database::new();
    let a = add_face(&mut database, plain("A"));
    let b = add_face(&mut database, plain("B"));
    assert_eq!(unique_faces(Some(a), Some(b), Some(a)), vec![a, b]);
    assert_eq!(unique_faces(None, None, Some(b)), vec![b]);
    assert!(unique_faces(None, None, None).is_empty());
}

fn be16(n: u16, out: &mut Vec<u8>) {
    out.extend_from_slice(&n.to_be_bytes());
}

fn be32(n: u32, out: &mut Vec<u8>) {
    out.extend_from_slice(&n.to_be_bytes());
}

/// The smallest font that draws one character, with an empty picture and further tables. `start` is
/// where the font begins in its file.
fn font_bytes(ch: u16, further: Vec<(&[u8; 4], Vec<u8>)>, start: u32) -> Vec<u8> {
    let mut cmap = Vec::new();
    be16(0, &mut cmap);
    be16(1, &mut cmap);
    be16(0, &mut cmap);
    be16(3, &mut cmap);
    be32(12, &mut cmap);
    be16(6, &mut cmap);
    be16(12, &mut cmap);
    be16(0, &mut cmap);
    be16(ch, &mut cmap);
    be16(1, &mut cmap);
    be16(1, &mut cmap);

    let mut head = Vec::new();
    be32(0x0001_0000, &mut head);
    be32(0, &mut head);
    be32(0, &mut head);
    be32(0x5f0f_3cf5, &mut head);
    be16(0, &mut head);
    be16(1000, &mut head);
    head.extend_from_slice(&[0; 16]);
    head.extend_from_slice(&[0; 8]);
    head.extend_from_slice(&[0; 10]);

    let mut hhea = Vec::new();
    be32(0x0001_0000, &mut hhea);
    hhea.extend_from_slice(&[0; 30]);
    be16(0, &mut hhea);

    let mut maxp = Vec::new();
    be32(0x0000_5000, &mut maxp);
    be16(2, &mut maxp);

    let mut tables: Vec<(&[u8; 4], Vec<u8>)> =
        vec![(b"cmap", cmap), (b"head", head), (b"hhea", hhea), (b"maxp", maxp)];
    tables.extend(further);
    let mut font = Vec::new();
    be32(0x0001_0000, &mut font);
    be16(tables.len() as u16, &mut font);
    font.extend_from_slice(&[0; 6]);
    let mut offset: u32 = start + 12 + 16 * tables.len() as u32;
    for (tag, table) in &tables {
        font.extend_from_slice(*tag);
        be32(0, &mut font);
        be32(offset, &mut font);
        be32(table.len() as u32, &mut font);
        offset += table.len() as u32;
    }
    for (_, table) in &tables {
        font.extend_from_slice(table);
    }
    font
}

fn font_with(ch: u16) -> fontdue::Font {
    match fontdue::Font::from_bytes(font_bytes(ch, Vec::new(), 0), fontdue::FontSettings::default())
    {
        Ok(font) => font,
        Err(error) => panic!("{}", error),
    }
}

/// A name as its platform, its encoding, its number, and the units of its text.
struct Name {
    platform: u16,
    encoding: u16,
    number: u16,
    units: Vec<u16>,
    /// Bytes that are missing at the end of the text.
    missing: u16,
}

fn full_name(units: Vec<u16>) -> Name {
    Name { platform: 3, encoding: 1, number: 4, units, missing: 0 }
}

fn name_table(names: Vec<Name>, languages: Option<u16>) -> Vec<u8> {
    let mut table = Vec::new();
    be16(if languages.is_some() { 1 } else { 0 }, &mut table);
    be16(names.len() as u16, &mut table);
    let marks = languages.map_or(0, |count| 2 + 4 * count);
    be16(6 + marks + 12 * names.len() as u16, &mut table);
    if let Some(count) = languages {
        be16(count, &mut table);
        table.extend_from_slice(&vec![0xff; 4 * count as usize]);
    }
    let mut offset: u16 = 0;
    let mut texts = Vec::new();
    for name in &names {
        be16(name.platform, &mut table);
        be16(name.encoding, &mut table);
        be16(0, &mut table);
        be16(name.number, &mut table);
        be16(2 * name.units.len() as u16 - name.missing, &mut table);
        be16(offset, &mut table);
        offset += 2 * name.units.len() as u16;
        for unit in &name.units {
            be16(*unit, &mut texts);
        }
    }
    table.extend_from_slice(&texts);
    table
}

fn named(names: Vec<Name>) -> Vec<u8> {
    font_bytes(0x41, vec![(b"name", name_table(names, None))], 0)
}

fn a_face() -> ID {
    let mut database = Database::new();
    add_face(&mut database, plain("A"))
}

/// The name of the font that is loaded from the bytes.
fn loaded_name(bytes: Vec<u8>) -> Option<String> {
    assert!(has_whole_names(&bytes, 0));
    match load_face(a_face(), bytes, 0) {
        Some(loaded) => loaded.font.name().map(|name| name.to_string()),
        None => panic!("the bytes are a font"),
    }
}

fn is_refused(bytes: Vec<u8>) -> bool {
    !has_whole_names(&bytes, 0) && load_face(a_face(), bytes, 0).is_none()
}

#[test]
fn face_is_loaded_from_its_bytes() {
    let id = a_face();
    let bytes = font_bytes(0x41, Vec::new(), 0);
    let loaded = match load_face(id, bytes.clone(), 0) {
        Some(loaded) => loaded,
        None => panic!("the bytes are a font"),
    };
    assert_eq!(loaded.id, id);
    let fonts = vec![loaded];
    assert_eq!(can_draw(&fonts, id, 'A'), Some(true));
    assert_eq!(can_draw(&fonts, id, 'B'), Some(false));
    assert!(load_face(id, bytes.clone(), 1).is_none());
    assert!(load_face(id, bytes[..40].to_vec(), 0).is_none());
    assert!(load_face(id, Vec::new(), 0).is_none());
    assert!(load_face(id, vec![1, 2, 3, 4, 5, 6, 7, 8], 0).is_none());
}

#[test]
fn fonts_are_loaded_once() {
    let mut database = Database::new();
    let a = add_face(&mut database, plain("A"));
    let mut fonts = Vec::new();
    assert!(needs_font(&fonts, a));
    assert!(load_cached_font(&mut fonts, a, Some(font_bytes(0x41, Vec::new(), 0)), 0));
    assert_eq!(can_draw(&fonts, a, 'A'), Some(true));
    assert!(!needs_font(&fonts, a));
    assert!(load_cached_font(&mut fonts, a, Some(font_bytes(0x42, Vec::new(), 0)), 0));
    assert!(load_cached_font(&mut fonts, a, None, 0));
    assert_eq!(fonts.len(), 1);
    assert_eq!(can_draw(&fonts, a, 'A'), Some(true));
    assert_eq!(can_draw(&fonts, a, 'B'), Some(false));
}

#[test]
fn failed_fonts_are_tried_again() {
    let id = a_face();
    let mut fonts = Vec::new();
    assert!(!load_cached_font(&mut fonts, id, None, 0));
    assert!(!load_cached_font(&mut fonts, id, Some(vec![0; 100]), 0));
    assert!(fonts.is_empty());
    assert!(needs_font(&fonts, id));
    // One search passes over the face, and the next tries it again.
    let order = vec![id];
    let failed = vec![id];
    assert!(matches!(
        pick_fallback_face_for_char(&order, &fonts, &failed, 'B'),
        FallbackStep::NoFace
    ));
    assert!(matches!(
        pick_fallback_face_for_char(&order, &fonts, &Vec::new(), 'B'),
        FallbackStep::Load(face) if face == id
    ));
    assert!(load_cached_font(&mut fonts, id, Some(font_bytes(0x42, Vec::new(), 0)), 0));
    assert_eq!(can_draw(&fonts, id, 'B'), Some(true));
}

/// Whether a font is read from the bytes with further tables.
fn loads_with(further: Vec<(&[u8; 4], Vec<u8>)>) -> bool {
    load_face(a_face(), font_bytes(0x41, further, 0), 0).is_some()
}

/// A table from characters to glyphs with one list of a kind, which claims a length at a place.
fn claiming_list(kind: u16, place: usize, count: u32) -> Vec<u8> {
    let mut table = vec![0, 0, 0, 1, 0, 0, 0, 3, 0, 0, 0, 12];
    be16(kind, &mut table);
    table.resize(12 + place, 0);
    be32(count, &mut table);
    table
}

#[test]
fn characters_beyond_number_are_refused() {
    let loads = |kind: u16, place: usize, count: u32| {
        loads_with(vec![(b"cmap", claiming_list(kind, place, count))])
    };
    assert!(loads(10, 16, 0x7fff_fff5));
    assert!(!loads(10, 16, 0x7fff_fff6));
    for kind in [12, 13] {
        assert!(loads(kind, 12, 357_913_939));
        assert!(!loads(kind, 12, 357_913_940));
        assert!(!loads(kind, 12, u32::MAX));
    }
    assert!(loads(14, 6, 390_451_571));
    assert!(!loads(14, 6, 390_451_572));
    assert!(loads(6, 12, u32::MAX));
    // The last table decides, and every list of it counts.
    assert!(loads_with(vec![
        (b"cmap", claiming_list(12, 12, u32::MAX)),
        (b"cmap", claiming_list(12, 12, 0)),
    ]));
    let mut two = vec![0, 0, 0, 2, 0, 0, 0, 3, 0, 0, 0, 0, 0, 0, 0, 3, 0, 0, 0, 20];
    two.extend_from_slice(&claiming_list(12, 12, u32::MAX)[12..]);
    assert!(!loads_with(vec![(b"cmap", two)]));
}

#[test]
fn depth_without_counterpart_is_refused() {
    let measures = |depth: u16| {
        let mut table = vec![0; 76];
        be16(depth, &mut table);
        table.extend_from_slice(&[0; 18]);
        vec![(b"OS/2", table)]
    };
    assert!(loads_with(measures(0x7fff)));
    assert!(loads_with(measures(0x8001)));
    assert!(!loads_with(measures(0x8000)));
    assert!(loads_with(vec![(b"OS/2", vec![0x80; 77])]));
}

#[test]
fn tables_that_are_not_needed_are_hidden() {
    // Pictures beyond number do not keep the font from being read.
    let mut pictures = vec![0, 1, 0, 0];
    be32(u32::MAX, &mut pictures);
    assert!(loads_with(vec![(b"sbix", pictures.clone())]));
    let mut bytes = font_bytes(0x41, vec![(b"sbix", pictures), (b"kern", vec![7])], 0);
    let before = bytes.clone();
    assert!(!can_read_file(&bytes, 0));
    hide_tables(&mut bytes, 0);
    assert!(can_read_file(&bytes, 0));
    let changed: Vec<usize> = (0..bytes.len()).filter(|p| bytes[*p] != before[*p]).collect();
    assert_eq!(changed, vec![12 + 4 * 16 + 3]);
    assert_eq!(bytes[changed[0]], 0xff);
    let kern = 0x6b65_726e;
    assert_eq!(find_table(&bytes, 0, kern), Some((bytes.len() - 1, bytes.len())));
    assert_eq!(find_table(&bytes, 0, 0x7362_6978), None);
    assert_eq!(find_table(&before, 0, 0x7362_6978), Some((bytes.len() - 9, bytes.len() - 1)));
    // Nothing is hidden where there is no face.
    let mut other = before.clone();
    hide_tables(&mut other, 1);
    assert_eq!(other, before);
}

#[test]
fn tables_beyond_number_are_refused() {
    let many = |count: usize| vec![(b"none", Vec::new()); count];
    assert!(loads_with(many(65_530)));
    assert!(!loads_with(many(65_531)));
}

#[test]
fn outlines_of_the_second_format_alone_are_refused() {
    assert!(!loads_with(vec![(b"CFF2", Vec::new())]));
    assert!(loads_with(vec![(b"CFF2", Vec::new()), (b"glyf", Vec::new())]));
    assert!(loads_with(vec![(b"CFF ", Vec::new()), (b"CFF2", Vec::new())]));
    assert!(!has_second_compact_only(&font_bytes(0x41, Vec::new(), 0), 0));
}

/// A list of compact outlines with one object, whose last offset is told in four bytes.
fn claiming_object(last: u32, object: &[u8]) -> Vec<u8> {
    let mut list = vec![0, 1, 4, 0, 0, 0, 1];
    be32(last, &mut list);
    list.extend_from_slice(object);
    list
}

/// Compact outlines with one dictionary, and what stands behind the lists.
fn compact(dictionary: &[u8], behind: &[u8]) -> Vec<u8> {
    let mut table = vec![1, 0, 4, 4, 0, 0, 0, 1, 1, 1];
    table.push(1 + dictionary.len() as u8);
    table.extend_from_slice(dictionary);
    table.extend_from_slice(&[0, 0, 0, 0]);
    table.extend_from_slice(behind);
    table
}

#[test]
fn outlines_beyond_number_are_refused() {
    let loads = |table: Vec<u8>| {
        let bytes = font_bytes(0x41, vec![(b"CFF ", table.clone())], 0);
        let counted = has_counted_outlines(&bytes, 0);
        assert_eq!(loads_with(vec![(b"CFF ", table)]), counted);
        counted
    };
    // The list of names stands behind the header.
    let named = |last: u32| {
        let mut table = vec![1, 0, 4, 4];
        table.extend_from_slice(&claiming_object(last, b""));
        table
    };
    assert!(loads(named(u32::MAX - 16)));
    assert!(!loads(named(u32::MAX - 15)));
    assert!(!loads(named(u32::MAX)));
    let mut other_format = named(u32::MAX);
    other_format[0] = 2;
    assert!(loads(other_format));
    let mut long_header = vec![1, 0, 6, 4, 0, 0];
    long_header.extend_from_slice(&claiming_object(u32::MAX, b""));
    assert!(!loads(long_header));
    // The glyphs stand where the dictionary says: 139 is 0.
    let huge = claiming_object(u32::MAX, b"");
    assert!(loads(compact(&[139 + 17, 17], &claiming_object(2, b"\x0e"))));
    assert!(!loads(compact(&[139 + 17, 17], &huge)));
    assert!(!loads(compact(&[28, 0, 19, 17], &huge)));
    assert!(!loads(compact(&[29, 0, 0, 0, 21, 17], &huge)));
    assert!(loads(compact(&[28, 0, 20, 17], &huge)));
    // Two numbers, and a negative one, point at nothing, and a fraction is not read.
    assert!(loads(compact(&[139, 139 + 18, 17], &huge)));
    assert!(loads(compact(&[138, 17], &huge)));
    assert!(!loads(compact(&[30, 0x1a, 0x5f, 17], b"")));
    assert!(loads(compact(&[30, 0x1a, 0x5f, 16], b"")));
    // Private dictionaries point at subroutines, as seen from themselves.
    let private = |list: &[u8]| {
        let mut behind = vec![139 + 2, 19];
        behind.extend_from_slice(list);
        compact(&[139 + 2, 139 + 18, 18], &behind)
    };
    assert!(loads(private(&claiming_object(2, b"\x0b"))));
    assert!(!loads(private(&huge)));
    // So do the dictionaries of a list.
    let listed = |list: &[u8]| {
        let mut behind = vec![0, 1, 1, 1, 4, 139 + 2, 139 + 26, 18, 139 + 2, 19];
        behind.extend_from_slice(list);
        compact(&[139 + 18, 12, 36], &behind)
    };
    assert!(loads(listed(&claiming_object(2, b"\x0b"))));
    assert!(!loads(listed(&huge)));
    // The texts and the shared subroutines stand behind the dictionary.
    let mut texts = compact(&[], b"");
    let end = texts.len();
    texts.truncate(end - 4);
    let mut shared = texts.clone();
    texts.extend_from_slice(&huge);
    assert!(!loads(texts));
    shared.extend_from_slice(&[0, 0]);
    shared.extend_from_slice(&huge);
    assert!(!loads(shared));
}

#[test]
fn whole_names_are_read() {
    assert_eq!(loaded_name(font_bytes(0x41, Vec::new(), 0)), None);
    assert_eq!(loaded_name(named(Vec::new())), None);
    assert_eq!(loaded_name(named(vec![full_name(vec![0x41, 0x62])])), Some("Ab".to_string()));
    assert_eq!(loaded_name(named(vec![full_name(Vec::new())])), Some(String::new()));
    let paired = vec![0xd83d, 0xde00, 0x41];
    assert_eq!(loaded_name(named(vec![full_name(paired)])), Some("\u{1f600}A".to_string()));
    // The second half is not looked at any closer.
    assert_eq!(
        loaded_name(named(vec![full_name(vec![0xd800, 0xe000])])),
        Some("\u{10400}".to_string())
    );
}

#[test]
fn broken_names_are_refused() {
    let broken = |units: Vec<u16>| is_refused(named(vec![full_name(units)]));
    assert!(broken(vec![0x41, 0xd83d]));
    assert!(broken(vec![0xde00, 0xd83d]));
    assert!(broken(vec![0xd83d, 0x41]));
    assert!(broken(vec![0xd83d, 0xd83d, 0xde00]));
    let odd = Name { missing: 1, ..full_name(vec![0x41, 0x42]) };
    assert!(is_refused(named(vec![odd])));
    let unicode = Name { platform: 0, encoding: 9, ..full_name(vec![0xdc00]) };
    assert!(is_refused(named(vec![unicode])));
    let symbol = Name { encoding: 0, ..full_name(vec![0xdc00]) };
    assert!(is_refused(named(vec![symbol])));
}

#[test]
fn only_the_first_full_name_counts() {
    let good = || full_name(vec![0x41]);
    let bad = || full_name(vec![0xdc00]);
    assert_eq!(loaded_name(named(vec![good(), bad()])), Some("A".to_string()));
    assert!(is_refused(named(vec![bad(), good()])));
    let family = Name { number: 1, ..bad() };
    assert_eq!(loaded_name(named(vec![family, good()])), Some("A".to_string()));
    let old = Name { platform: 1, encoding: 0, ..bad() };
    assert_eq!(loaded_name(named(vec![old, good()])), Some("A".to_string()));
    let wide = Name { encoding: 10, ..bad() };
    assert_eq!(loaded_name(named(vec![wide])), None);
    // Nothing is read behind a record that cannot be read.
    let unknown = Name { platform: 5, ..full_name(Vec::new()) };
    assert_eq!(loaded_name(named(vec![unknown, bad()])), None);
    let mut cut = name_table(vec![good(), bad()], None);
    cut.truncate(6 + 24 + 1);
    assert_eq!(loaded_name(font_bytes(0x41, vec![(b"name", cut)], 0)), None);
}

#[test]
fn name_tables_are_found_as_they_are_read() {
    let good = || name_table(vec![full_name(vec![0x41])], None);
    let bad = || name_table(vec![full_name(vec![0xdc00])], None);
    // The last table with names decides.
    assert_eq!(
        loaded_name(font_bytes(0x41, vec![(b"name", bad()), (b"name", good())], 0)),
        Some("A".to_string())
    );
    assert!(is_refused(font_bytes(0x41, vec![(b"name", good()), (b"name", bad())], 0)));
    // Marks of languages may stand before the records.
    let marked = |units| name_table(vec![full_name(units)], Some(3));
    assert_eq!(
        loaded_name(font_bytes(0x41, vec![(b"name", marked(vec![0x42]))], 0)),
        Some("B".to_string())
    );
    assert!(is_refused(font_bytes(0x41, vec![(b"name", marked(vec![0xd800]))], 0)));
    // A table that cannot be read holds no names.
    let mut later = bad();
    later[1] = 2;
    assert_eq!(loaded_name(font_bytes(0x41, vec![(b"name", later)], 0)), None);
    let mut short = bad();
    short.truncate(10);
    assert_eq!(loaded_name(font_bytes(0x41, vec![(b"name", short)], 0)), None);
}

#[test]
fn faces_beyond_number_are_refused() {
    let claiming = |faces: u32| {
        let mut file = Vec::new();
        be32(0x7474_6366, &mut file);
        be32(0x0001_0000, &mut file);
        be32(faces, &mut file);
        file
    };
    assert!(!has_countable_faces(&claiming(u32::MAX)));
    assert!(!has_countable_faces(&claiming(0x3fff_fffd)));
    assert!(has_countable_faces(&claiming(0x3fff_fffc)));
    assert!(has_countable_faces(&font_bytes(0x41, Vec::new(), 0)));
    for faces in [0, 1, 0x3fff_fffc, 0x3fff_fffd, u32::MAX] {
        assert!(load_face(a_face(), claiming(faces), 0).is_none(), "{}", faces);
    }
}

#[test]
fn faces_of_a_collection_are_told_apart() {
    let mut file = Vec::new();
    be32(0x7474_6366, &mut file);
    be32(0x0001_0000, &mut file);
    be32(2, &mut file);
    let first = font_bytes(0x41, vec![(b"name", name_table(vec![full_name(vec![0x61])], None))], 20);
    let second_start = 20 + first.len() as u32;
    be32(20, &mut file);
    be32(second_start, &mut file);
    file.extend_from_slice(&first);
    let broken = name_table(vec![full_name(vec![0xdc00])], None);
    file.extend_from_slice(&font_bytes(0x42, vec![(b"name", broken)], second_start));

    let id = a_face();
    assert!(has_whole_names(&file, 0));
    let loaded = load_face(id, file.clone(), 0);
    assert!(matches!(loaded, Some(loaded) if loaded.font.has_glyph('A')));
    assert!(!has_whole_names(&file, 1));
    assert!(load_face(id, file.clone(), 1).is_none());
    assert!(has_whole_names(&file, 2));
    assert!(load_face(id, file.clone(), 2).is_none());

    let mut whole = file.clone();
    let end = whole.len();
    whole[end - 2] = 0;
    assert!(has_whole_names(&whole, 1));
    let loaded = load_face(id, whole, 1);
    assert!(matches!(loaded, Some(loaded) if loaded.font.has_glyph('B')));
}

#[test]
fn fonts_tell_what_they_can_draw() {
    let mut database = Database::new();
    let a = add_face(&mut database, plain("A"));
    let b = add_face(&mut database, plain("B"));
    let fonts = vec![LoadedFont { id: a, font: font_with(0x41) }];
    assert_eq!(can_draw(&fonts, a, 'A'), Some(true));
    assert_eq!(can_draw(&fonts, a, 'B'), Some(false));
    assert_eq!(can_draw(&fonts, b, 'A'), None);
}

#[test]
fn fallback_takes_the_first_face_that_can() {
    let mut database = Database::new();
    let a = add_face(&mut database, plain("A"));
    let b = add_face(&mut database, plain("B"));
    let c = add_face(&mut database, plain("C"));
    let order = vec![a, b, c];
    let mut fonts = Vec::new();
    let mut failed = Vec::new();
    assert!(matches!(
        pick_fallback_face_for_char(&order, &fonts, &failed, 'C'),
        FallbackStep::Load(face) if face == a
    ));
    fonts.push(LoadedFont { id: a, font: font_with(0x41) });
    assert!(matches!(
        pick_fallback_face_for_char(&order, &fonts, &failed, 'C'),
        FallbackStep::Load(face) if face == b
    ));
    failed.push(b);
    assert!(matches!(
        pick_fallback_face_for_char(&order, &fonts, &failed, 'C'),
        FallbackStep::Load(face) if face == c
    ));
    fonts.push(LoadedFont { id: c, font: font_with(0x43) });
    assert!(matches!(
        pick_fallback_face_for_char(&order, &fonts, &failed, 'C'),
        FallbackStep::Use(face) if face == c
    ));
    assert!(matches!(
        pick_fallback_face_for_char(&order, &fonts, &failed, 'Z'),
        FallbackStep::NoFace
    ));
}

#[test]
fn chain_remembers_its_characters() {
    let mut database = Database::new();
    let a = add_face(&mut database, plain("A"));
    let b = add_face(&mut database, plain("B"));
    let missing = add_face(&mut database, plain("C"));
    let fonts = vec![
        LoadedFont { id: a, font: font_with(0x41) },
        LoadedFont { id: b, font: font_with(0x42) },
    ];
    assert!(FontChain::new(&vec![missing], &fonts).is_none());
    let mut chain = match FontChain::new(&vec![missing, a], &fonts) {
        Some(chain) => chain,
        None => panic!("one font was loaded"),
    };
    assert_eq!(chain.ids(), &vec![a]);
    assert_eq!(chain.known_index(&fonts, 'A'), Some(0));
    assert_eq!(chain.known_index(&fonts, 'B'), None);
    assert_eq!(chain.settle('B', Some(b)), 1);
    assert_eq!(chain.ids(), &vec![a, b]);
    assert_eq!(chain.known_index(&fonts, 'B'), Some(1));
    assert_eq!(chain.settle('Q', Some(a)), 0);
    assert_eq!(chain.settle('Z', None), 0);
    assert_eq!(chain.known_index(&fonts, 'Z'), Some(0));
}

#[test]
fn neighbours_with_one_font_are_one_run() {
    assert!(text_runs(&Vec::new()).is_empty());
    assert_eq!(
        text_runs(&vec![0, 0, 1, 0, 0, 0]),
        vec![
            TextRun { start: 0, end: 2, font_index: 0 },
            TextRun { start: 2, end: 3, font_index: 1 },
            TextRun { start: 3, end: 6, font_index: 0 },
        ]
    );
}

#[test]
fn weights_have_names_and_numbers() {
    let text = |name: &str| Some(FontWeight::Text(name.to_string()));
    assert_eq!(parse_font_weight(&None), 400);
    assert_eq!(parse_font_weight(&text("normal")), 400);
    assert_eq!(parse_font_weight(&text("medium")), 500);
    assert_eq!(parse_font_weight(&text("semibold")), 600);
    assert_eq!(parse_font_weight(&text("bold")), 700);
    assert_eq!(parse_font_weight(&text("Bold")), 400);
    assert_eq!(parse_font_weight(&Some(FontWeight::Number(Some(650)))), 650);
    assert_eq!(parse_font_weight(&Some(FontWeight::Number(Some(65_536 + 7)))), 7);
    assert_eq!(parse_font_weight(&Some(FontWeight::Number(None))), 400);
    assert_eq!(parse_font_weight(&Some(FontWeight::Other)), 400);
}

fn label(text: &str, align: Option<&str>, line_height: Option<i32>) -> LabelSpec {
    LabelSpec {
        rect: LogicalRect::new(0, 0, 3, 2),
        text: text.to_string(),
        color: Color { r: 255, g: 128, b: 0, a: 255 },
        font_size: 12,
        font_weight: None,
        font_family: None,
        text_align: align.map(str::to_string),
        line_height,
    }
}

#[test]
fn label_is_laid_out() {
    assert_eq!(
        label("x", Some("center"), None).layout(),
        Some(LabelLayout {
            weight: 400,
            font_size: 12,
            line_height: 16,
            alignment: TextAlignment::Center,
        })
    );
    let mut small = label("x", Some("end"), Some(9));
    small.font_size = -3;
    assert_eq!(
        small.layout(),
        Some(LabelLayout {
            weight: 400,
            font_size: 1,
            line_height: 9,
            alignment: TextAlignment::End,
        })
    );
    assert!(matches!(
        label("x", Some("justify"), None).layout(),
        Some(layout) if layout.alignment == TextAlignment::Start
    ));
}

#[test]
fn label_without_text_or_room_is_not_drawn() {
    assert_eq!(label("", None, None).layout(), None);
    let mut flat = label("x", None, None);
    flat.rect.width = 0;
    assert_eq!(flat.layout(), None);
}

#[test]
fn coverage_is_rounded_as_in_single_precision() {
    for coverage in 0..=255u8 {
        for alpha in 0..=255u8 {
            let mut pixels = blank_label(1, 1);
            let glyph = GlyphBitmap { x: 0, y: 0, width: 1, height: 1, coverage: vec![coverage] };
            draw_glyph(&mut pixels, 1, 1, &glyph, Color { r: 255, g: 255, b: 255, a: alpha });
            let expected = ((coverage as f32 / 255.0) * alpha as f32).round() as u8;
            assert_eq!(pixels[3], expected);
            assert_eq!(pixels[0], expected);
        }
    }
}

#[test]
fn glyph_is_drawn_where_it_stands() {
    let color = Color { r: 255, g: 128, b: 0, a: 255 };
    let mut pixels = blank_label(3, 2);
    let glyph =
        GlyphBitmap { x: 1, y: 1, width: 2, height: 2, coverage: vec![255, 0, 255, 255] };
    draw_glyph(&mut pixels, 3, 2, &glyph, color);
    let mut expected = vec![0u8; 24];
    expected[16..20].copy_from_slice(&[0, 128, 255, 255]);
    assert_eq!(pixels, expected);
}

#[test]
fn glyph_is_cut_at_the_edges() {
    let color = Color { r: 255, g: 255, b: 255, a: 255 };
    let mut pixels = blank_label(2, 2);
    let glyph = GlyphBitmap {
        x: -1,
        y: -1,
        width: 2,
        height: 2,
        coverage: vec![255, 255, 255, 100],
    };
    draw_glyph(&mut pixels, 2, 2, &glyph, color);
    assert_eq!(&pixels[0..4], &[100, 100, 100, 100]);
    assert!(pixels[4..].iter().all(|byte| *byte == 0));
}

#[test]
fn opacity_does_not_sink() {
    let color = Color { r: 255, g: 255, b: 255, a: 255 };
    let mut pixels = blank_label(1, 1);
    let full = GlyphBitmap { x: 0, y: 0, width: 1, height: 1, coverage: vec![200] };
    let faint = GlyphBitmap { x: 0, y: 0, width: 1, height: 1, coverage: vec![10] };
    draw_glyph(&mut pixels, 1, 1, &full, color);
    draw_glyph(&mut pixels, 1, 1, &faint, color);
    assert_eq!(pixels, vec![10, 10, 10, 200]);
    let done = rendered_label(&label("x", None, None), pixels);
    assert_eq!((done.width, done.height, done.pixels.len()), (3, 2, 4));
}
