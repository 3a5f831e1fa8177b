use region_map::blockstates::{block_slots, load_graphic_props, variant_order, PropsError};
use region_map::json::{parse_json, Json};
use region_map::loader::{
    get_model, get_texture, model_texture, stem_of, variant_model, TextureLoader,
};
use region_map::nbt::{Compound, Tag};
use region_map::palette::palette_entry;
use region_map::resources::{crop_texture, load_image, DecodedImage, ResourcePack};
use region_map::text::{join_with_commas, make_key_value, split};
use region_map::texture::{
    clamp, image_avg, is_transparent, make_record, taint_image, Rgb, Rgba, Texture, Tint,
};

fn s(text: &str) -> String {
    String::from(text)
}

fn png(width: u32, height: u32, pixel: impl Fn(u32, u32) -> [u8; 4]) -> Vec<u8> {
    let img = image::RgbaImage::from_fn(width, height, |x, y| image::Rgba(pixel(x, y)));
    let mut out = std::io::Cursor::new(Vec::new());
    img.write_to(&mut out, image::ImageFormat::Png).unwrap();
    out.into_inner()
}

fn rgb_png(width: u32, height: u32) -> Vec<u8> {
    let img = image::RgbImage::from_fn(width, height, |x, y| image::Rgb([x as u8, y as u8, 7]));
    let mut out = std::io::Cursor::new(Vec::new());
    img.write_to(&mut out, image::ImageFormat::Png).unwrap();
    out.into_inner()
}

fn texture(pixel: impl Fn(usize, usize) -> Rgba) -> Texture {
    let mut pixels = Vec::new();
    for y in 0..16 {
        for x in 0..16 {
            pixels.push(pixel(x, y));
        }
    }
    Texture::from_pixels(pixels).unwrap()
}

fn pack() -> ResourcePack {
    let mut pack = ResourcePack::new();
    pack.add_blockstate(
        s("stone"),
        s(r#"{"variants": {"": [{"model": "block/stone"}, {"model": "block/stone_mirrored"}]}}"#),
    );
    pack.add_blockstate(
        s("oak_log"),
        s(r#"{"variants": {"axis=y": {"model": "block/oak_log"}, "axis=x": {"model": "block/oak_log_horizontal", "x": 90}}}"#),
    );
    pack.add_blockstate(s("grass"), s(r#"{"variants": {"": {"model": "block/grass"}}}"#));
    pack.add_blockstate(s("glass"), s(r#"{"variants": {"": {"model": "block/glass"}}}"#));
    pack.add_blockstate(s("broken"), s(r#"{"variants": "#));
    pack.add_blockstate(s("lost"), s(r#"{"variants": {"": {"model": "block/lost"}}}"#));
    pack.add_blockstate(s("plain"), s(r#"{"variants": {"": {"model": "block/plain"}}}"#));
    pack.add_blockstate(s("small"), s(r#"{"variants": {"": {"model": "block/small"}}}"#));
    pack.add_blockstate(s("multipart"), s(r#"{"multipart": []}"#));
    pack.add_model(s("block/stone"), s(r#"{"parent": "block/cube_all", "textures": {"all": "block/stone"}}"#));
    pack.add_model(
        s("block/oak_log"),
        s(r#"{"textures": {"particle": "block/oak_log", "all": "block/oak_log_side", "top": "block/oak_log_top"}}"#),
    );
    pack.add_model(s("block/grass"), s(r#"{"textures": {"particle": "block/grass"}}"#));
    pack.add_model(s("block/glass"), s(r#"{"textures": {"all": "block/glass"}}"#));
    pack.add_model(s("block/lost"), s(r#"{"textures": {"all": "block/nowhere"}}"#));
    pack.add_model(s("block/plain"), s(r#"{"textures": {"all": "block/plain"}}"#));
    pack.add_model(s("block/small"), s(r#"{"textures": {"all": "block/small"}}"#));
    pack.add_texture(s("block/stone"), png(16, 16, |x, y| [x as u8 * 10, y as u8 * 10, 100, 255]));
    pack.add_texture(
        s("block/oak_log_top"),
        png(16, 48, |x, y| [x as u8, (y % 16) as u8, if y < 16 { 1 } else { 2 }, 255]),
    );
    pack.add_texture(s("block/grass"), png(16, 16, |_, _| [100, 100, 100, 255]));
    pack.add_texture(
        s("block/glass"),
        png(16, 16, |x, _| if x == 0 { [200, 220, 240, 255] } else { [9, 9, 9, 0] }),
    );
    pack.add_texture(s("block/plain"), rgb_png(16, 16));
    pack.add_texture(s("block/small"), png(8, 16, |_, _| [1, 2, 3, 255]));
    pack
}

fn loader() -> TextureLoader {
    TextureLoader::new(vec![(s("minecraft:grass"), Tint { r: -60, g: 200, b: -200 })], pack())
}

#[test]
fn clamp_limits_to_the_range() {
    assert_eq!(clamp(300, 0, 255), 255);
    assert_eq!(clamp(-5, 0, 255), 0);
    assert_eq!(clamp(17, 0, 255), 17);
    assert_eq!(clamp(0, 0, 255), 0);
    assert_eq!(clamp(255, 0, 255), 255);
    assert_eq!(clamp(i16::MIN, -3, 3), -3);
    assert_eq!(clamp(i16::MAX, -3, 3), 3);
}

#[test]
fn taint_adds_to_colour_and_keeps_alpha() {
    let mut img = texture(|x, y| Rgba { r: 10, g: 250, b: (x + 16 * y) as u8, a: (255 - x) as u8 });
    taint_image(&mut img, Tint { r: -20, g: 10, b: 5 });
    assert_eq!(img.get_pixel(0, 0), Rgba { r: 0, g: 255, b: 5, a: 255 });
    assert_eq!(img.get_pixel(3, 2), Rgba { r: 0, g: 255, b: 40, a: 252 });
    assert_eq!(img.get_pixel(15, 15), Rgba { r: 0, g: 255, b: 255, a: 240 });
    let mut img = texture(|_, _| Rgba { r: 0, g: 128, b: 255, a: 0 });
    taint_image(&mut img, Tint { r: i16::MAX, g: i16::MIN, b: 0 });
    assert_eq!(img.get_pixel(7, 7), Rgba { r: 255, g: 0, b: 255, a: 0 });
}

#[test]
fn average_is_the_mean_of_the_visible_pixels() {
    // three pixels count, the fourth has no alpha
    let img = texture(|x, y| match (x, y) {
        (0, 0) => Rgba { r: 10, g: 0, b: 255, a: 255 },
        (1, 0) => Rgba { r: 20, g: 1, b: 255, a: 1 },
        (2, 0) => Rgba { r: 31, g: 1, b: 254, a: 128 },
        _ => Rgba { r: 200, g: 200, b: 200, a: 0 },
    });
    assert_eq!(image_avg(&img), Rgb { r: 20, g: 0, b: 254 });
    let uniform = texture(|_, _| Rgba { r: 255, g: 7, b: 0, a: 255 });
    assert_eq!(image_avg(&uniform), Rgb { r: 255, g: 7, b: 0 });
    let single = texture(|x, y| Rgba { r: 9, g: 8, b: 7, a: if x == 5 && y == 5 { 3 } else { 0 } });
    assert_eq!(image_avg(&single), Rgb { r: 9, g: 8, b: 7 });
}

#[test]
fn average_of_an_invisible_texture_is_black() {
    let img = texture(|_, _| Rgba { r: 200, g: 100, b: 50, a: 0 });
    assert_eq!(image_avg(&img), Rgb { r: 0, g: 0, b: 0 });
}

#[test]
fn transparency_needs_one_pixel_that_is_not_opaque() {
    assert!(!is_transparent(&texture(|_, _| Rgba { r: 0, g: 0, b: 0, a: 255 })));
    assert!(is_transparent(&texture(|x, y| Rgba {
        r: 0,
        g: 0,
        b: 0,
        a: if x == 15 && y == 15 { 254 } else { 255 }
    })));
    assert!(is_transparent(&texture(|_, _| Rgba { r: 0, g: 0, b: 0, a: 0 })));
}

#[test]
fn texture_needs_256_pixels() {
    assert!(Texture::from_pixels(vec![]).is_none());
    assert!(Texture::from_pixels(vec![Rgba { r: 0, g: 0, b: 0, a: 0 }; 255]).is_none());
    assert!(Texture::from_pixels(vec![Rgba { r: 0, g: 0, b: 0, a: 0 }; 257]).is_none());
    let t = Texture::from_pixels(vec![Rgba { r: 1, g: 2, b: 3, a: 4 }; 256]).unwrap();
    assert_eq!(t.get_pixel(15, 15), Rgba { r: 1, g: 2, b: 3, a: 4 });
}

#[test]
fn record_is_derived_after_the_tint() {
    let img = texture(|_, _| Rgba { r: 100, g: 100, b: 100, a: 200 });
    let record = make_record(img, Some(Tint { r: 1, g: -1, b: 200 }));
    assert!(record.transparent);
    assert_eq!(record.average_color, Rgb { r: 101, g: 99, b: 255 });
    assert_eq!(record.image.get_pixel(4, 4), Rgba { r: 101, g: 99, b: 255, a: 200 });
    let img = texture(|_, _| Rgba { r: 1, g: 2, b: 3, a: 255 });
    let record = make_record(img, None);
    assert!(!record.transparent);
    assert_eq!(record.average_color, Rgb { r: 1, g: 2, b: 3 });
}

#[test]
fn json_is_parsed_into_a_tree() {
    let doc = parse_json(r#"{"b": [1, "x", null, true, {"c": "d"}], "a": "text", "n": 1.5}"#).unwrap();
    assert_eq!(doc.get("a").unwrap().as_str(), Some("text"));
    assert_eq!(doc.get("a").unwrap().get("a"), None);
    assert_eq!(doc.get("n"), Some(&Json::Number));
    assert_eq!(doc.get("missing"), None);
    let items = doc.get("b").unwrap().as_array().unwrap();
    assert_eq!(items.len(), 5);
    assert_eq!(items[0], Json::Number);
    assert_eq!(items[1], Json::String(s("x")));
    assert_eq!(items[2], Json::Null);
    assert_eq!(items[3], Json::Bool(true));
    assert_eq!(items[4].get("c").unwrap().as_str(), Some("d"));
    assert!(items[4].as_array().is_none());
    assert_eq!(items[0].as_str(), None);
    assert_eq!(doc.as_object().unwrap().len(), 3);
    assert!(doc.get("a").unwrap().as_object().is_none());
    assert_ne!(doc, Json::Null);
}

#[test]
fn text_that_is_no_json_gives_nothing() {
    assert!(parse_json("").is_none());
    assert!(parse_json("{").is_none());
    assert!(parse_json(r#"{"a": }"#).is_none());
    assert!(parse_json("[1, 2,]").is_none());
    assert_eq!(parse_json("[]"), Some(Json::Array(vec![])));
    assert_eq!(parse_json(" \"a\" "), Some(Json::String(s("a"))));
}

#[test]
fn variant_model_takes_the_first_of_several() {
    let doc = parse_json(
        r#"{"variants": {"": [{"model": "a"}, {"model": "b"}], "x=1": {"model": "c"}, "e": [], "n": {"model": 1}, "o": {}, "t": "text"}}"#,
    )
    .unwrap();
    assert_eq!(variant_model(&doc, ""), Some(s("a")));
    assert_eq!(variant_model(&doc, "x=1"), Some(s("c")));
    assert_eq!(variant_model(&doc, "x=2"), None);
    assert_eq!(variant_model(&doc, "e"), None);
    assert_eq!(variant_model(&doc, "n"), None);
    assert_eq!(variant_model(&doc, "o"), None);
    assert_eq!(variant_model(&doc, "t"), None);
    assert_eq!(variant_model(&parse_json(r#"{"multipart": []}"#).unwrap(), ""), None);
    assert_eq!(variant_model(&parse_json(r#"[]"#).unwrap(), ""), None);
    assert_eq!(variant_model(&parse_json(r#"{"variants": []}"#).unwrap(), ""), None);
}

#[test]
fn model_texture_prefers_top_then_all_then_particle() {
    let all = parse_json(r#"{"textures": {"particle": "p", "all": "a", "top": "t", "side": "s"}}"#).unwrap();
    assert_eq!(model_texture(&all), Some(s("t")));
    let two = parse_json(r#"{"textures": {"particle": "p", "all": "a"}}"#).unwrap();
    assert_eq!(model_texture(&two), Some(s("a")));
    let one = parse_json(r#"{"textures": {"particle": "p", "side": "s"}}"#).unwrap();
    assert_eq!(model_texture(&one), Some(s("p")));
    let none = parse_json(r#"{"textures": {"side": "s"}}"#).unwrap();
    assert_eq!(model_texture(&none), None);
    assert_eq!(model_texture(&parse_json(r#"{"parent": "x"}"#).unwrap()), None);
    // the first that is present decides, also where it is no text
    let odd = parse_json(r#"{"textures": {"top": 1, "all": "a"}}"#).unwrap();
    assert_eq!(model_texture(&odd), None);
}

#[test]
fn stem_is_the_name_without_its_namespace() {
    assert_eq!(stem_of("minecraft:stone"), Some("stone"));
    assert_eq!(stem_of("minecraft:"), Some(""));
    assert_eq!(stem_of("minecraft:grüner_block"), Some("grüner_block"));
    assert_eq!(stem_of("minecraft"), None);
    assert_eq!(stem_of("othermod__:stone"), None);
    assert_eq!(stem_of("stone"), None);
    assert_eq!(stem_of(""), None);
}

#[test]
fn model_and_texture_names_are_read_from_the_pack() {
    let pack = pack();
    assert_eq!(get_model(&pack, "minecraft:stone", ""), Some(s("block/stone")));
    assert_eq!(get_model(&pack, "minecraft:oak_log", "axis=y"), Some(s("block/oak_log")));
    assert_eq!(get_model(&pack, "minecraft:oak_log", "axis=x"), Some(s("block/oak_log_horizontal")));
    assert_eq!(get_model(&pack, "minecraft:oak_log", "axis=z"), None);
    assert_eq!(get_model(&pack, "minecraft:unknown", ""), None);
    assert_eq!(get_model(&pack, "minecraft:broken", ""), None);
    assert_eq!(get_model(&pack, "minecraft:multipart", ""), None);
    assert_eq!(get_model(&pack, "stone", ""), None);
    assert_eq!(get_texture(&pack, "block/stone"), Some(s("block/stone")));
    assert_eq!(get_texture(&pack, "block/oak_log"), Some(s("block/oak_log_top")));
    assert_eq!(get_texture(&pack, "block/grass"), Some(s("block/grass")));
    assert_eq!(get_texture(&pack, "block/none"), None);
    assert_eq!(pack.blockstate("nothing"), None);
    assert_eq!(pack.model("nothing"), None);
    assert_eq!(pack.texture("nothing"), None);
    assert!(pack.blockstate("stone").unwrap().contains("variants"));
}

#[test]
fn later_file_of_a_name_replaces_the_earlier_one() {
    let mut pack = ResourcePack::new();
    pack.add_model(s("m"), s(r#"{"textures": {"all": "one"}}"#));
    pack.add_model(s("m"), s(r#"{"textures": {"all": "two"}}"#));
    assert_eq!(get_texture(&pack, "m"), Some(s("two")));
    pack.add_texture(s("t"), vec![1]);
    pack.add_texture(s("t"), vec![2, 3]);
    assert_eq!(pack.texture("t"), Some(&vec![2u8, 3]));
}

#[test]
fn image_is_cropped_to_its_first_16_by_16_pixels() {
    let file = png(32, 48, |x, y| [x as u8, y as u8, 3, 200]);
    let t = load_image(&file).unwrap();
    assert_eq!(t.get_pixel(0, 0), Rgba { r: 0, g: 0, b: 3, a: 200 });
    assert_eq!(t.get_pixel(15, 0), Rgba { r: 15, g: 0, b: 3, a: 200 });
    assert_eq!(t.get_pixel(0, 15), Rgba { r: 0, g: 15, b: 3, a: 200 });
    assert_eq!(t.get_pixel(7, 9), Rgba { r: 7, g: 9, b: 3, a: 200 });
}

#[test]
fn unusable_images_give_no_texture() {
    assert!(load_image(&[]).is_none());
    assert!(load_image(&[1, 2, 3, 4]).is_none());
    assert!(load_image(&rgb_png(16, 16)).is_none());
    assert!(load_image(&png(15, 16, |_, _| [0, 0, 0, 255])).is_none());
    assert!(load_image(&png(16, 15, |_, _| [0, 0, 0, 255])).is_none());
    assert!(load_image(&png(16, 16, |_, _| [0, 0, 0, 255])).is_some());
    let mut cut = png(16, 16, |_, _| [0, 0, 0, 255]);
    cut.truncate(40);
    assert!(load_image(&cut).is_none());
}

#[test]
fn crop_checks_what_it_is_given() {
    let good = DecodedImage { width: 16, height: 16, channels: 4, rgba: vec![5; 1024] };
    assert_eq!(crop_texture(&good).unwrap().get_pixel(3, 3), Rgba { r: 5, g: 5, b: 5, a: 5 });
    let short = DecodedImage { width: 16, height: 16, channels: 4, rgba: vec![5; 1023] };
    assert!(crop_texture(&short).is_none());
    let three = DecodedImage { width: 16, height: 16, channels: 3, rgba: vec![5; 1024] };
    assert!(crop_texture(&three).is_none());
    let huge = DecodedImage { width: u32::MAX, height: u32::MAX, channels: 4, rgba: vec![5; 1024] };
    assert!(crop_texture(&huge).is_none());
    let wide = DecodedImage {
        width: 17,
        height: 16,
        channels: 4,
        rgba: (0..17 * 16 * 4).map(|i| (i / 4) as u8).collect(),
    };
    let t = crop_texture(&wide).unwrap();
    assert_eq!(t.get_pixel(0, 1).r, 17);
    assert_eq!(t.get_pixel(15, 1).r, 32);
}

#[test]
fn load_resolves_a_key_once() {
    let mut loader = loader();
    assert_eq!(loader.index("minecraft:stone", ""), None);
    assert_eq!(loader.load("minecraft:stone", ""), Some(0));
    assert_eq!(loader.index("minecraft:stone", ""), Some(0));
    assert_eq!(loader.load("minecraft:stone", ""), Some(0));
    assert_eq!(loader.load("minecraft:oak_log", "axis=y"), Some(1));
    assert_eq!(loader.load("minecraft:stone", ""), Some(0));
    assert_eq!(loader.load("minecraft:oak_log", "axis=y"), Some(1));
    assert_eq!(loader.load("minecraft:glass", ""), Some(2));
    let stone = loader.get_texture(0);
    assert!(!stone.transparent);
    assert_eq!(stone.image.get_pixel(3, 5), Rgba { r: 30, g: 50, b: 100, a: 255 });
    assert_eq!(stone.average_color, Rgb { r: 75, g: 75, b: 100 });
    // the first frame of the animated texture
    let log = loader.get_texture(1);
    assert_eq!(log.image.get_pixel(2, 15), Rgba { r: 2, g: 15, b: 1, a: 255 });
    let glass = loader.get_texture(2);
    assert!(glass.transparent);
    assert_eq!(glass.average_color, Rgb { r: 200, g: 220, b: 240 });
}

#[test]
fn keys_that_cannot_be_resolved_are_remembered() {
    let mut loader = loader();
    // a variant that the blockstate does not list
    assert_eq!(loader.load("minecraft:oak_log", "axis=q"), None);
    assert_eq!(loader.index("minecraft:oak_log", "axis=q"), None);
    assert_eq!(loader.load("minecraft:oak_log", "axis=q"), None);
    // no blockstate, a broken one, one without variants
    assert_eq!(loader.load("minecraft:air", ""), None);
    assert_eq!(loader.load("minecraft:broken", ""), None);
    assert_eq!(loader.load("minecraft:multipart", ""), None);
    // no model, no texture, a texture of three channels, a small one
    assert_eq!(loader.load("minecraft:oak_log", "axis=x"), None);
    assert_eq!(loader.load("minecraft:lost", ""), None);
    assert_eq!(loader.load("minecraft:plain", ""), None);
    assert_eq!(loader.load("minecraft:small", ""), None);
    assert_eq!(loader.load("stone", ""), None);
    // none of them took up a handle
    assert_eq!(loader.load("minecraft:stone", ""), Some(0));
    assert_eq!(loader.load("minecraft:oak_log", "axis=y"), Some(1));
}

#[test]
fn tinted_block_is_painted() {
    let mut loader = loader();
    let h = loader.load("minecraft:grass", "").unwrap();
    let record = loader.get_texture(h);
    assert_eq!(record.image.get_pixel(0, 0), Rgba { r: 40, g: 255, b: 0, a: 255 });
    assert_eq!(record.average_color, Rgb { r: 40, g: 255, b: 0 });
    assert!(!record.transparent);
}

#[test]
fn last_tint_of_a_block_stands() {
    let mut loader = TextureLoader::new(
        vec![
            (s("minecraft:grass"), Tint { r: 1, g: 1, b: 1 }),
            (s("minecraft:stone"), Tint { r: 0, g: 0, b: -100 }),
            (s("minecraft:grass"), Tint { r: 5, g: 6, b: 7 }),
        ],
        pack(),
    );
    let h = loader.load("minecraft:grass", "").unwrap();
    assert_eq!(loader.get_texture(h).average_color, Rgb { r: 105, g: 106, b: 107 });
    let h = loader.load("minecraft:stone", "").unwrap();
    assert_eq!(loader.get_texture(h).image.get_pixel(0, 0), Rgba { r: 0, g: 0, b: 0, a: 255 });
}

#[test]
fn keys_differ_in_name_or_in_properties() {
    let mut loader = loader();
    assert_eq!(loader.load("minecraft:oak_log", "axis=y"), Some(0));
    assert_eq!(loader.load("minecraft:oak_log", ""), None);
    assert_eq!(loader.load("minecraft:stone", "axis=y"), None);
    assert_eq!(loader.load("minecraft:stone", ""), Some(1));
    assert_eq!(loader.index("minecraft:oak_log", "axis=y"), Some(0));
    assert_eq!(loader.index("minecraft:stone", ""), Some(1));
    assert_eq!(loader.index("minecraft:stone", "axis=y"), None);
    assert_eq!(loader.index("minecraft:", "stone"), None);
}

#[test]
fn split_keeps_empty_pieces() {
    assert_eq!(split("a,b,c", ','), vec![s("a"), s("b"), s("c")]);
    assert_eq!(split("", ','), vec![s("")]);
    assert_eq!(split(",", ','), vec![s(""), s("")]);
    assert_eq!(split("a,,b,", ','), vec![s("a"), s(""), s("b"), s("")]);
    assert_eq!(split("key=value=more", '='), vec![s("key"), s("value"), s("more")]);
    assert_eq!(split("größe=1", '='), vec![s("größe"), s("1")]);
    assert_eq!(split("abc", '='), vec![s("abc")]);
}

#[test]
fn texts_are_joined() {
    assert_eq!(make_key_value("facing", "north"), "facing=north");
    assert_eq!(make_key_value("", ""), "=");
    assert_eq!(join_with_commas(&vec![]), "");
    assert_eq!(join_with_commas(&vec![s("a")]), "a");
    assert_eq!(join_with_commas(&vec![s("a"), s(""), s("c")]), "a,,c");
    assert_eq!(join_with_commas(&vec![s(""), s("")]), ",");
}

#[test]
fn variant_key_records_each_key_at_its_position() {
    let mut order = vec![(s("old"), 9)];
    variant_order("facing=north,half=top,shape=straight", &mut order);
    assert_eq!(order, vec![(s("old"), 9), (s("facing"), 0), (s("half"), 1), (s("shape"), 2)]);
    let mut order = Vec::new();
    variant_order("", &mut order);
    assert_eq!(order, vec![]);
    variant_order(",,c=1,=2,d", &mut order);
    assert_eq!(order, vec![(s("c"), 2), (s("d"), 4)]);
}

#[test]
fn blockstate_records_the_keys_of_its_variants() {
    let doc = Json::Object(vec![(
        s("variants"),
        Json::Object(vec![
            (s("facing=east,half=top"), Json::Null),
            (s(""), Json::Null),
            (s("half=bottom"), Json::Null),
        ]),
    )]);
    assert_eq!(
        block_slots(&doc),
        Some(vec![(s("facing"), 0), (s("half"), 1), (s("half"), 0)])
    );
    assert_eq!(block_slots(&Json::Object(vec![])), Some(vec![]));
    assert_eq!(block_slots(&Json::Null), Some(vec![]));
    assert_eq!(block_slots(&Json::Object(vec![(s("variants"), Json::Array(vec![]))])), None);
    assert_eq!(block_slots(&Json::Object(vec![(s("variants"), Json::Number)])), None);
}

#[test]
fn graphic_props_are_built_from_the_blockstates() {
    let files = vec![
        (s("stone"), s(r#"{"variants": {"": {"model": "block/stone"}}}"#)),
        (
            s("oak_stairs"),
            s(r#"{"variants": {"facing=east,half=bottom": {"model": "a"}, "facing=west,half=top": {"model": "b"}}}"#),
        ),
        (s("oak_fence"), s(r#"{"multipart": []}"#)),
    ];
    let index = load_graphic_props(&files).unwrap();
    assert!(index.contains("minecraft:stone"));
    assert!(index.contains("minecraft:oak_stairs"));
    assert!(index.contains("minecraft:oak_fence"));
    assert!(!index.contains("oak_fence"));
    assert!(!index.contains("minecraft:air"));
    let mut props = Compound::new();
    props.insert(s("waterlogged"), Tag::String(s("false")));
    props.insert(s("half"), Tag::String(s("top")));
    props.insert(s("facing"), Tag::String(s("west")));
    let mut block = Compound::new();
    block.insert(s("Name"), Tag::String(s("minecraft:oak_stairs")));
    block.insert(s("Properties"), Tag::Compound(props));
    let entry = palette_entry(&Tag::Compound(block), &index).unwrap();
    assert_eq!(entry.graphic_properties, "facing=west,half=top");
    assert_eq!(entry.properties, "waterlogged=false,half=top,facing=west");
    let empty = load_graphic_props(&vec![]).unwrap();
    assert!(!empty.contains("minecraft:stone"));
}

#[test]
fn broken_blockstates_give_no_index() {
    let good = (s("stone"), s(r#"{"variants": {"": {"model": "block/stone"}}}"#));
    let files = vec![good.clone(), (s("bad"), s("{")), (s("worse"), s(r#"{"variants": 1}"#))];
    assert_eq!(load_graphic_props(&files).err(), Some(PropsError::InvalidJson(1)));
    let files = vec![good.clone(), (s("worse"), s(r#"{"variants": [1]}"#)), (s("bad"), s("{"))];
    assert_eq!(load_graphic_props(&files).err(), Some(PropsError::InvalidVariants(1)));
    let files = vec![(s("bad"), s("")), good];
    assert_eq!(load_graphic_props(&files).err(), Some(PropsError::InvalidJson(0)));
}

#[test]
fn index_of_the_blockstates_serves_the_cache_key() {
    // the graphic properties of a palette entry are a variant key of the block
    let state = r#"{"variants": {"axis=x": {"model": "block/oak_log_horizontal"}, "axis=y": {"model": "block/oak_log"}}}"#;
    let index = load_graphic_props(&vec![(s("oak_log"), s(state))]).unwrap();
    let mut props = Compound::new();
    props.insert(s("axis"), Tag::String(s("y")));
    let mut block = Compound::new();
    block.insert(s("Name"), Tag::String(s("minecraft:oak_log")));
    block.insert(s("Properties"), Tag::Compound(props));
    let entry = palette_entry(&Tag::Compound(block), &index).unwrap();
    let mut loader = loader();
    assert_eq!(loader.load(&entry.name, &entry.graphic_properties), Some(0));
}

#[test]
fn resolve_stores_nothing() {
    let loader = loader();
    let record = loader.resolve("minecraft:stone", "").unwrap();
    assert_eq!(record.average_color, Rgb { r: 75, g: 75, b: 100 });
    assert!(!record.transparent);
    assert_eq!(record.image.get_pixel(15, 15), Rgba { r: 150, g: 150, b: 100, a: 255 });
    assert!(loader.resolve("minecraft:oak_log", "axis=q").is_none());
    assert_eq!(loader.cached("minecraft:stone", ""), None);
    assert_eq!(loader.cached("minecraft:oak_log", "axis=q"), None);
    assert_eq!(loader.index("minecraft:stone", ""), None);
}
