use shoji_wm::backend::async_assets::{icon_result, text_result, AsyncAssetResult};
use shoji_wm::backend::async_buffers::{AsyncBuffers, BufferRequest, BUFFER_TTL};
use shoji_wm::backend::icon::{
    can_draw, claims_too_much, decode_png, draw_png, find_icon_path_in_index,
    guess_icon_size_from_path, hash_icon_spec, icon_candidate_names, icon_decoder, icon_name,
    icon_roots, icon_source, icon_source_key, index_icon, render_icon_pixels, DrawnIcon,
    IconDecoder, IconPath, IconRasterizer, IconSource, IconSpec, WindowIconSnapshot,
};
use shoji_wm::backend::pixels::{
    can_scale, find_sample, premultiply, rgba_to_argb8888, scale_rgba, to_single,
};
use shoji_wm::backend::text::RenderedLabelPixels;
use shoji_wm::geometry::LogicalRect;
use shoji_wm::keymap::KeyMap;
use std::collections::hash_map::DefaultHasher;
use std::hash::{Hash, Hasher};

fn spec(name: Option<&str>, bytes: Option<Vec<u8>>, app_id: Option<&str>) -> IconSpec {
    IconSpec {
        rect: LogicalRect::new(3, 4, 16, 16),
        icon: if name.is_some() || bytes.is_some() {
            Some(WindowIconSnapshot { name: name.map(str::to_string), bytes })
        } else {
            None
        },
        app_id: app_id.map(str::to_string),
    }
}

fn std_hash(spec: &IconSpec) -> u64 {
    let mut hasher = DefaultHasher::new();
    spec.rect.width.hash(&mut hasher);
    spec.rect.height.hash(&mut hasher);
    spec.app_id.hash(&mut hasher);
    if let Some(icon) = &spec.icon {
        icon.name.hash(&mut hasher);
        icon.bytes.as_ref().map(|bytes| bytes.len()).hash(&mut hasher);
        if let Some(bytes) = &icon.bytes {
            bytes.hash(&mut hasher);
        }
    }
    hasher.finish()
}

#[test]
fn hash_goes_over_size_and_source() {
    for spec in [
        spec(None, None, None),
        spec(None, None, Some("org.example.App")),
        spec(Some("folder"), None, Some("x")),
        spec(None, Some(vec![1, 2, 3]), None),
        spec(Some("folder"), Some(Vec::new()), Some("x")),
    ] {
        assert_eq!(hash_icon_spec(&spec), std_hash(&spec));
    }
}

#[test]
fn hash_ignores_the_place() {
    let here = spec(Some("folder"), None, None);
    let mut there = here.clone();
    there.rect = LogicalRect::new(90, 80, 16, 16);
    assert_eq!(hash_icon_spec(&here), hash_icon_spec(&there));
    there.rect = LogicalRect::new(90, 80, 17, 16);
    assert_ne!(hash_icon_spec(&here), hash_icon_spec(&there));
}

#[test]
fn source_is_named() {
    assert_eq!(icon_source_key(&spec(Some("a"), Some(vec![1]), Some("b"))), Some("name:a".to_string()));
    assert_eq!(icon_source_key(&spec(None, Some(vec![0; 120]), Some("b"))), Some("bytes:120".to_string()));
    assert_eq!(icon_source_key(&spec(None, None, Some("b"))), Some("app:b".to_string()));
    assert_eq!(icon_source_key(&spec(None, None, None)), None);
}

#[test]
fn candidates_come_from_name_and_application() {
    assert_eq!(
        icon_candidate_names(&spec(Some("own"), None, Some("org.example.Editor"))),
        vec!["own", "org.example.Editor", "Editor"]
    );
    assert_eq!(
        icon_candidate_names(&spec(None, None, Some("tool.desktop"))),
        vec!["tool.desktop", "desktop", "tool"]
    );
    assert_eq!(icon_candidate_names(&spec(Some("kitty"), None, Some("kitty"))), vec!["kitty"]);
    assert!(icon_candidate_names(&spec(Some(""), None, Some(""))).is_empty());
}

#[test]
fn size_is_read_from_the_path() {
    assert_eq!(guess_icon_size_from_path("/usr/share/icons/hicolor/48x48/apps/a.png"), Some(48));
    assert_eq!(guess_icon_size_from_path("/i/48x32/+16x16/a.png"), Some(16));
    assert_eq!(guess_icon_size_from_path("/i/scalable/apps/a.svg"), None);
    assert_eq!(guess_icon_size_from_path("/i/16x16x16/a.png"), None);
    assert_eq!(guess_icon_size_from_path("/i/99999999999x99999999999/a.png"), None);
}

fn index(paths: &[&str]) -> KeyMap<Vec<String>> {
    let mut index = KeyMap::new();
    for path in paths {
        index_icon(&mut index, path);
    }
    index
}

fn names(list: &[&str]) -> Vec<String> {
    list.iter().map(|name| name.to_string()).collect()
}

#[test]
fn best_icon_has_the_nearest_size() {
    let index = index(&[
        "/i/hicolor/16x16/apps/a.png",
        "/i/hicolor/48x48/apps/a.png",
        "/i/hicolor/scalable/apps/a.svg",
        "/i/hicolor/48x48/apps/b.png",
        "/i/hicolor/48x48/apps/readme.txt",
    ]);
    assert_eq!(
        find_icon_path_in_index(&index, &names(&["a"]), 40, 44),
        Some("/i/hicolor/48x48/apps/a.png".to_string())
    );
    assert_eq!(find_icon_path_in_index(&index, &names(&["readme"]), 40, 44), None);
}

#[test]
fn place_and_kind_break_ties() {
    let index = index(&[
        "/s/32x32/places/a.png",
        "/s/32x32/pixmaps/a.png",
        "/s/32x32/apps/a.svg",
        "/s/32x32/apps/a.PNG",
        "/t/32x32/apps/a.png",
    ]);
    assert_eq!(
        find_icon_path_in_index(&index, &names(&["a"]), 32, 32),
        Some("/s/32x32/apps/a.PNG".to_string())
    );
}

#[test]
fn only_pictures_are_icons() {
    assert_eq!(icon_name("/i/a.b.png"), Some("a.b".to_string()));
    assert_eq!(icon_name("/i/a.SVG"), Some("a".to_string()));
    assert_eq!(icon_name("/i/a.xpm"), None);
    assert_eq!(icon_name("/i/.png"), None);
    assert_eq!(icon_name("/i/png"), None);
}

#[test]
fn svg_is_read_as_svg() {
    assert_eq!(icon_decoder("/i/a.Svg"), IconDecoder::Svg);
    assert_eq!(icon_decoder("/i/a.png"), IconDecoder::Png);
    assert_eq!(icon_decoder("/i/a"), IconDecoder::Png);
}

#[test]
fn icons_are_looked_for_in_data_directories() {
    assert_eq!(
        icon_roots(Some("/home/me"), None),
        vec![
            "/home/me/.local/share/icons",
            "/home/me/.icons",
            "/usr/local/share/icons",
            "/usr/local/share/pixmaps",
            "/usr/share/icons",
            "/usr/share/pixmaps",
        ]
    );
    assert_eq!(
        icon_roots(None, Some("/a/::b")),
        vec!["/a/icons", "/a/pixmaps", "icons", "pixmaps", "b/icons", "b/pixmaps"]
    );
}

fn png(width: u32, height: u32, color: png::ColorType, depth: png::BitDepth, data: &[u8]) -> Vec<u8> {
    let mut bytes = Vec::new();
    let mut encoder = png::Encoder::new(&mut bytes, width, height);
    encoder.set_color(color);
    encoder.set_depth(depth);
    if color == png::ColorType::Indexed {
        encoder.set_palette(vec![1, 2, 3, 4, 5, 6]);
    }
    match encoder.write_header() {
        Ok(mut writer) => assert!(writer.write_image_data(data).is_ok()),
        Err(error) => panic!("{}", error),
    }
    bytes
}

fn drawn(bytes: &Vec<u8>, width: i32, height: i32) -> Option<Vec<u8>> {
    match draw_png(bytes, width, height) {
        DrawnIcon::Drawn(rgba) => Some(rgba),
        DrawnIcon::NoPicture => None,
        DrawnIcon::Incomplete => panic!("pixels are missing"),
    }
}

#[test]
fn png_is_read_and_drawn() {
    let rgba = png(1, 2, png::ColorType::Rgba, png::BitDepth::Eight, &[1, 2, 3, 4, 5, 6, 7, 8]);
    assert_eq!(drawn(&rgba, 1, 2), Some(vec![1, 2, 3, 4, 5, 6, 7, 8]));
    let rgb = png(2, 1, png::ColorType::Rgb, png::BitDepth::Eight, &[1, 2, 3, 4, 5, 6]);
    assert_eq!(drawn(&rgb, 2, 1), Some(vec![1, 2, 3, 255, 4, 5, 6, 255]));
    let gray = png(2, 1, png::ColorType::Grayscale, png::BitDepth::Eight, &[7, 9]);
    assert_eq!(drawn(&gray, 2, 1), Some(vec![7, 7, 7, 255, 9, 9, 9, 255]));
    let alpha = png(1, 1, png::ColorType::GrayscaleAlpha, png::BitDepth::Eight, &[7, 9]);
    assert_eq!(drawn(&alpha, 1, 1), Some(vec![7, 7, 7, 9]));
}

#[test]
fn png_is_brought_to_size() {
    let rgba = png(1, 2, png::ColorType::Rgba, png::BitDepth::Eight, &[1, 2, 3, 4, 5, 6, 7, 8]);
    assert_eq!(
        drawn(&rgba, 2, 2),
        Some(vec![1, 2, 3, 4, 1, 2, 3, 4, 5, 6, 7, 8, 5, 6, 7, 8])
    );
    assert_eq!(drawn(&rgba, 1, 1), Some(vec![1, 2, 3, 4]));
}

#[test]
fn palette_and_garbage_are_no_pictures() {
    let indexed = png(2, 1, png::ColorType::Indexed, png::BitDepth::Eight, &[0, 1]);
    assert_eq!(drawn(&indexed, 2, 1), None);
    assert_eq!(drawn(&vec![1, 2, 3], 2, 1), None);
    assert!(decode_png(&Vec::new()).is_none());
}

#[test]
fn packed_picture_lacks_pixels() {
    let packed = png(16, 1, png::ColorType::Grayscale, png::BitDepth::One, &[0xaa, 0x55]);
    assert!(matches!(draw_png(&packed, 8, 1), DrawnIcon::Incomplete));
    let picture = match decode_png(&packed) {
        Some(picture) => picture,
        None => panic!("the file is a picture"),
    };
    assert_eq!(picture.width, 16);
    assert_eq!(picture.data, vec![0xaa, 0x55]);
    assert!(!can_draw(&picture, 8, 1));
    assert!(can_draw(&picture, 16, 1));
}

#[test]
fn vast_header_is_not_read() {
    let mut bytes = png(1, 1, png::ColorType::Grayscale, png::BitDepth::Eight, &[7]);
    assert!(!claims_too_much(&bytes));
    for byte in bytes.iter_mut().take(24).skip(16) {
        *byte = 0xff;
    }
    assert!(claims_too_much(&bytes));
    assert!(decode_png(&bytes).is_none());
}

#[test]
fn samples_are_those_of_single_precision() {
    for target in [1, 2, 3, 7, 16, 24, 31, 48, 100, 333, 1000] {
        for source in [1, 2, 5, 16, 22, 48, 96, 255, 256, 1024, 4097] {
            for x in 0..target {
                let float = ((x as f32 / target as f32) * source as f32).floor() as i32;
                assert_eq!(find_sample(x, target, source), float.clamp(0, source - 1));
            }
        }
    }
    for (x, target, source) in [
        (i32::MAX - 1, i32::MAX, i32::MAX),
        (16_777_217, 16_777_219, 33_554_433),
        (1, i32::MAX, 2),
        (123_456_789, 987_654_321, 55_555_555),
    ] {
        let float = ((x as f32 / target as f32) * source as f32).floor() as i32;
        assert_eq!(find_sample(x, target, source), float.clamp(0, source - 1));
    }
}

#[test]
fn whole_numbers_round_as_floats() {
    for n in [0u128, 1, 16_777_215, 16_777_216, 16_777_217, 16_777_219, 33_554_435, 2_147_483_647] {
        assert_eq!(to_single(n), (n as f32) as u128);
    }
}

#[test]
fn scaling_repeats_pixels() {
    let picture: Vec<u8> = (0..8).collect();
    assert_eq!(
        scale_rgba(&picture, 2, 1, 4, 1),
        vec![0, 1, 2, 3, 0, 1, 2, 3, 4, 5, 6, 7, 4, 5, 6, 7]
    );
    assert_eq!(scale_rgba(&picture, 2, 1, 2, 1), picture);
    assert!(can_scale(8, 2, 1, 4, 1));
    assert!(!can_scale(7, 2, 1, 4, 1));
    assert!(!can_scale(8, 0, 1, 4, 1));
}

#[test]
fn colors_are_multiplied_by_opacity() {
    assert_eq!(premultiply(200, 255), 200);
    assert_eq!(premultiply(200, 0), 0);
    assert_eq!(premultiply(200, 128), 100);
    assert_eq!(
        rgba_to_argb8888(&vec![255, 100, 50, 128, 9, 9, 9]),
        vec![25, 50, 128, 128]
    );
}

#[test]
fn source_of_an_icon_is_decided() {
    assert!(matches!(icon_source(&spec(None, None, None)), IconSource::Nothing));
    let mut flat = spec(Some("a"), None, None);
    flat.rect.height = 0;
    assert!(matches!(icon_source(&flat), IconSource::Nothing));
    assert!(matches!(
        icon_source(&spec(Some("a"), Some(vec![1]), None)),
        IconSource::Bytes(bytes) if bytes == vec![1]
    ));
    assert!(matches!(
        icon_source(&spec(None, None, Some("b"))),
        IconSource::Names(list) if list == vec!["b"]
    ));
}

#[test]
fn pixels_of_an_icon_are_rendered() {
    let icon = spec(Some("a"), None, None);
    assert!(render_icon_pixels(&icon, None).is_none());
    let rendered = match render_icon_pixels(&icon, Some(vec![1, 2, 3, 255])) {
        Some(rendered) => rendered,
        None => panic!("the picture was read"),
    };
    assert_eq!(rendered.pixels, vec![3, 2, 1, 255]);
    assert_eq!((rendered.width, rendered.height), (16, 16));
}

#[test]
fn search_is_made_once() {
    let mut rasterizer: IconRasterizer<u32> = IconRasterizer::new(false);
    let wanted = names(&["a"]);
    assert!(matches!(rasterizer.find_icon_path_cached(&wanted, 16, 16), IconPath::IndexMissing));
    rasterizer.set_icon_index(index(&["/i/16x16/apps/a.png"]));
    assert!(matches!(
        rasterizer.find_icon_path_cached(&wanted, 16, 16),
        IconPath::Resolved(Some(path)) if path == "/i/16x16/apps/a.png"
    ));
    rasterizer.set_icon_index(KeyMap::new());
    assert!(matches!(
        rasterizer.find_icon_path_cached(&wanted, 16, 16),
        IconPath::Resolved(Some(_))
    ));
    assert!(matches!(rasterizer.find_icon_path_cached(&wanted, 17, 16), IconPath::Resolved(None)));
}

#[test]
fn worker_gets_one_job() {
    let mut rasterizer: IconRasterizer<u32> = IconRasterizer::new(true);
    let icon = spec(Some("a"), None, None);
    let hash = hash_icon_spec(&icon);
    assert_eq!(rasterizer.render_icon(&icon, 0), BufferRequest::Enqueue);
    assert_eq!(rasterizer.render_icon(&icon, 1), BufferRequest::Pending);
    rasterizer.handle_async_ready(hash, 42, 2);
    assert_eq!(rasterizer.render_icon(&icon, 3), BufferRequest::Ready);
    assert_eq!(rasterizer.buffer(hash), Some(&42));
    assert_eq!(rasterizer.render_icon(&icon, 3 + BUFFER_TTL), BufferRequest::Ready);
    assert_eq!(rasterizer.render_icon(&icon, 4 + 2 * BUFFER_TTL), BufferRequest::Enqueue);
    rasterizer.handle_async_miss(hash);
    assert_eq!(rasterizer.render_icon(&icon, 4 + 2 * BUFFER_TTL), BufferRequest::Enqueue);
    assert_eq!(rasterizer.buffer(hash), None);
}

#[test]
fn without_worker_icons_are_drawn_at_once() {
    let mut buffers: AsyncBuffers<u32> = AsyncBuffers::new(false);
    assert_eq!(buffers.request(1, 0), BufferRequest::DrawNow);
    buffers.handle_async_ready(1, 7, 10);
    buffers.handle_async_ready(2, 8, 10 + BUFFER_TTL);
    assert_eq!(buffers.get(1), Some(&7));
    buffers.prune_async_buffers(11 + BUFFER_TTL);
    assert_eq!(buffers.get(1), None);
    assert_eq!(buffers.get(2), Some(&8));
    assert_eq!(buffers.request(2, 0), BufferRequest::Ready);
}

#[test]
fn results_tell_what_came_of_a_job() {
    let icon = spec(Some("a"), None, None);
    let rendered = render_icon_pixels(&icon, Some(vec![1, 2, 3, 255]));
    assert!(matches!(
        icon_result(9, rendered),
        AsyncAssetResult::IconReady { spec_hash: 9, width: 16, height: 16, pixels }
            if pixels == vec![3, 2, 1, 255]
    ));
    assert!(matches!(icon_result(9, None), AsyncAssetResult::IconMissing { spec_hash: 9 }));
    let label = RenderedLabelPixels { width: 1, height: 2, pixels: vec![5] };
    assert!(matches!(
        text_result(8, Some(label)),
        AsyncAssetResult::TextReady { spec_hash: 8, width: 1, height: 2, .. }
    ));
    assert!(matches!(text_result(8, None), AsyncAssetResult::TextMissing { spec_hash: 8 }));
}
