use deltatune::atlas::FontAtlas;
use deltatune::descriptor::{load_bitmap_font, lookup, parse_kv, put_pair, same_chars, KeyValue};
use deltatune::font::{BitmapFont, Glyph};
use deltatune::number::{parse_i16, parse_u16, parse_u32};
use deltatune::text::chars_of;

const DESCRIPTOR: &str = "info face=\"Test\" size=32 bold=0\n\
common lineHeight=40 base=30 scaleW=64 scaleH=32 pages=1\n\
page id=0 file=\"font.png\"\n\
chars count=3\n\
char id=65 x=0 y=0 width=4 height=6 xoffset=1 yoffset=2 xadvance=5 page=0\n\
char id=66   x=4 y=0 width=3 height=6 xoffset=0 yoffset=-1 xadvance=\"7\" page=0\n\
char id=32 x=0 y=0 width=0 height=0 xoffset=0 yoffset=0 xadvance=3 page=0\n";

fn pairs_of(line: &str) -> Vec<(String, String)> {
    parse_kv(&chars_of(line))
        .iter()
        .map(|kv| (kv.key.iter().collect(), kv.value.iter().collect()))
        .collect()
}

fn pair(key: &str, value: &str) -> (String, String) {
    (key.to_string(), value.to_string())
}

#[test]
fn descriptor_gives_metrics_and_glyphs() {
    let font = load_bitmap_font(DESCRIPTOR);
    assert_eq!(font.line_height, 40);
    assert_eq!(font.texture_width, 64);
    assert_eq!(font.texture_height, 32);
    assert_eq!(font.glyphs.len(), 3);
    assert_eq!(
        font.glyphs[&65],
        Glyph { x: 0, y: 0, width: 4, height: 6, x_offset: 1, y_offset: 2, x_advance: 5 }
    );
    assert_eq!(
        font.glyphs[&66],
        Glyph { x: 4, y: 0, width: 3, height: 6, x_offset: 0, y_offset: -1, x_advance: 7 }
    );
    assert_eq!(font.space_advance, 3000);
}

#[test]
fn empty_descriptor_gives_the_defaults() {
    let font = load_bitmap_font("");
    assert_eq!(font.line_height, 48);
    assert_eq!(font.texture_width, 512);
    assert_eq!(font.texture_height, 512);
    assert!(font.glyphs.is_empty());
    assert_eq!(font.space_advance, 12000);
}

#[test]
fn fallback_advance_is_a_quarter_of_the_line_height_without_a_space_glyph() {
    let font = load_bitmap_font("common lineHeight=50\nchar id=65 xadvance=9\n");
    assert_eq!(font.line_height, 50);
    assert_eq!(font.space_advance, 12500);
}

#[test]
fn fallback_advance_is_that_of_the_space_glyph() {
    let font = load_bitmap_font("char id=32 xadvance=11\ncommon lineHeight=50\n");
    assert_eq!(font.space_advance, 11000);
    let negative = load_bitmap_font("char id=32 xadvance=-2\n");
    assert_eq!(negative.space_advance, -2000);
}

#[test]
fn malformed_header_values_keep_what_was_there() {
    let font = load_bitmap_font(
        "common lineHeight=20 scaleW=100 scaleH=200\ncommon lineHeight=abc scaleW=12.5 scaleH=\n",
    );
    assert_eq!(font.line_height, 20);
    assert_eq!(font.texture_width, 100);
    assert_eq!(font.texture_height, 200);
    let fresh = load_bitmap_font("common lineHeight=-3 scaleW=1e3\n");
    assert_eq!(fresh.line_height, 48);
    assert_eq!(fresh.texture_width, 512);
    assert_eq!(fresh.texture_height, 512);
}

#[test]
fn header_keys_that_are_missing_keep_what_was_there() {
    let font = load_bitmap_font("common lineHeight=20\ncommon scaleW=7\n");
    assert_eq!(font.line_height, 20);
    assert_eq!(font.texture_width, 7);
    assert_eq!(font.texture_height, 512);
}

#[test]
fn missing_and_malformed_glyph_fields_are_zero() {
    let font = load_bitmap_font("char id=70 x=3 width=oops height=70000 yoffset=-40000\n");
    assert_eq!(
        font.glyphs[&70],
        Glyph { x: 3, y: 0, width: 0, height: 0, x_offset: 0, y_offset: 0, x_advance: 0 }
    );
    let anonymous = load_bitmap_font("char x=3 xadvance=4\n");
    assert_eq!(
        anonymous.glyphs[&0],
        Glyph { x: 3, y: 0, width: 0, height: 0, x_offset: 0, y_offset: 0, x_advance: 4 }
    );
}

#[test]
fn later_glyph_with_the_same_id_wins() {
    let font = load_bitmap_font("char id=65 xadvance=5\nchar id=65 xadvance=9 width=2\n");
    assert_eq!(font.glyphs.len(), 1);
    assert_eq!(font.glyphs[&65].x_advance, 9);
    assert_eq!(font.glyphs[&65].width, 2);
}

#[test]
fn later_field_with_the_same_key_wins() {
    let font = load_bitmap_font("char id=65 xadvance=5 xadvance=6 id=66\n");
    assert_eq!(font.glyphs.len(), 1);
    assert_eq!(font.glyphs[&66].x_advance, 6);
}

#[test]
fn only_lines_that_start_with_the_tag_and_a_space_count() {
    let font = load_bitmap_font(
        " common lineHeight=20\ncommon\tlineHeight=21\ncommons lineHeight=22\nchars id=5\n\
         character id=6\nchar\tid=7\nCHAR id=8\n",
    );
    assert_eq!(font.line_height, 48);
    assert!(font.glyphs.is_empty());
}

#[test]
fn carriage_returns_and_missing_final_line_feed_do_not_matter() {
    let font = load_bitmap_font("common lineHeight=20\r\nchar id=65 xadvance=5\r\nchar id=66 xadvance=6");
    assert_eq!(font.line_height, 20);
    assert_eq!(font.glyphs.len(), 2);
    assert_eq!(font.glyphs[&65].x_advance, 5);
    assert_eq!(font.glyphs[&66].x_advance, 6);
}

#[test]
fn fields_may_be_separated_by_any_whitespace() {
    let font = load_bitmap_font("char \t id=65\u{a0}xadvance=5   width=2\t\n");
    assert_eq!(font.glyphs[&65].x_advance, 5);
    assert_eq!(font.glyphs[&65].width, 2);
}

#[test]
fn fallback_font_has_no_glyphs() {
    let font = BitmapFont::fallback();
    assert_eq!(font.line_height, 32);
    assert_eq!(font.texture_width, 256);
    assert_eq!(font.texture_height, 256);
    assert!(font.glyphs.is_empty());
    assert_eq!(font.space_advance, 8000);
}

#[test]
fn texture_size_is_recorded() {
    let mut font = BitmapFont::fallback();
    font.set_texture_size(10, 20);
    assert_eq!(font.texture_width, 10);
    assert_eq!(font.texture_height, 20);
    assert_eq!(font.line_height, 32);
}

#[test]
fn glyph_lookup_and_advance() {
    let font = load_bitmap_font(DESCRIPTOR);
    assert_eq!(font.glyph('A').map(|g| g.x_advance), Some(5));
    assert_eq!(font.glyph('z'), None);
    assert_eq!(font.advance('A', 2_000_000), 10_000_000);
    assert_eq!(font.advance('z', 2_000_000), 6_000_000);
    let bare = load_bitmap_font("common lineHeight=50\n");
    // A quarter of 50 pixels at scale 0.001001: 12.5 * 1001 = 12512.5, rounded down.
    assert_eq!(bare.advance('z', 1_001), 12_512);
    let negative = load_bitmap_font("char id=32 xadvance=-2\n");
    assert_eq!(negative.advance('z', 1_500_000), -3_000_000);
}

#[test]
fn key_value_parsing_skips_the_tag_and_what_has_no_equals_sign() {
    assert_eq!(
        pairs_of("char id=65 stray x=\"3\"  face=\"\"a\"\" eq=a=b ="),
        vec![pair("id", "65"), pair("x", "3"), pair("face", "a"), pair("eq", "a=b"), pair("", "")]
    );
    assert_eq!(pairs_of("id=65"), Vec::<(String, String)>::new());
    assert_eq!(pairs_of("   "), Vec::<(String, String)>::new());
    assert_eq!(pairs_of(""), Vec::<(String, String)>::new());
    assert_eq!(pairs_of("tag=1 k=\"v"), vec![pair("k", "v")]);
    assert_eq!(pairs_of("tag k=\"\"\""), vec![pair("k", "")]);
}

#[test]
fn lookup_finds_the_value_of_a_key() {
    let pairs = parse_kv(&chars_of("tag a=1 b=2 a=3"));
    assert_eq!(pairs.len(), 2);
    assert_eq!(lookup(&pairs, "a"), Some(&chars_of("3")));
    assert_eq!(lookup(&pairs, "b"), Some(&chars_of("2")));
    assert_eq!(lookup(&pairs, "c"), None);
    assert_eq!(lookup(&pairs, ""), None);
    assert_eq!(lookup(&pairs, "tag"), None);
}

#[test]
fn unsigned_numbers_parse_like_the_standard_library() {
    for text in ["0", "7", "+7", "0042", "65535", "65536", "4294967295", "4294967296",
        "99999999999999999999999", "000000000000000000000000001", "", "+", "-", "-0", "-7", "1 ",
        " 1", "1.5", "1e3", "0x10", "٣", "++1", "+-1", "1_000"]
    {
        assert_eq!(parse_u32(&chars_of(text)), text.parse::<u32>().ok(), "{:?}", text);
        assert_eq!(parse_u16(&chars_of(text)), text.parse::<u16>().ok(), "{:?}", text);
    }
}

#[test]
fn signed_numbers_parse_like_the_standard_library() {
    for text in ["0", "-0", "+0", "7", "+7", "-7", "32767", "32768", "-32768", "-32769",
        "-000032768", "99999999999", "-99999999999", "", "+", "-", "--1", "-+1", "1-", "- 1",
        "1.0", "-1.0", "nan", "inf"]
    {
        assert_eq!(parse_i16(&chars_of(text)), text.parse::<i16>().ok(), "{:?}", text);
    }
}

#[test]
fn atlas_of_matching_size_is_taken_and_recorded() {
    let mut font = BitmapFont::fallback();
    let pixels: Vec<u8> = (0u8..24).collect();
    let atlas = FontAtlas::load(pixels, 3, 2, &mut font);
    assert_eq!(atlas.width(), 3);
    assert_eq!(atlas.height(), 2);
    assert_eq!(atlas.pixel(0, 0), (0, 1, 2, 3));
    assert_eq!(atlas.pixel(2, 0), (8, 9, 10, 11));
    assert_eq!(atlas.pixel(1, 1), (16, 17, 18, 19));
    assert_eq!(font.texture_width, 3);
    assert_eq!(font.texture_height, 2);
}

#[test]
fn atlas_of_wrong_size_falls_back_to_one_transparent_pixel() {
    let mut font = BitmapFont::fallback();
    let atlas = FontAtlas::load(vec![255; 23], 3, 2, &mut font);
    assert_eq!(atlas.width(), 1);
    assert_eq!(atlas.height(), 1);
    assert_eq!(atlas.pixel(0, 0), (0, 0, 0, 0));
    assert_eq!(font.texture_width, 256);
    assert_eq!(font.texture_height, 256);
    let huge = FontAtlas::load(Vec::new(), u32::MAX, u32::MAX, &mut font);
    assert_eq!(huge.width(), 1);
    assert_eq!(font.texture_width, 256);
}

#[test]
fn empty_atlas_is_one_transparent_pixel() {
    let atlas = FontAtlas::empty();
    assert_eq!(atlas.width(), 1);
    assert_eq!(atlas.height(), 1);
    assert_eq!(atlas.pixel(0, 0), (0, 0, 0, 0));
}

#[test]
fn atlas_without_pixels_is_accepted_at_size_zero() {
    let mut font = BitmapFont::fallback();
    let atlas = FontAtlas::load(Vec::new(), 0, 5, &mut font);
    assert_eq!(atlas.width(), 0);
    assert_eq!(atlas.height(), 5);
    assert_eq!(font.texture_width, 0);
    assert_eq!(font.texture_height, 5);
}

/// The fields of a line found with the string functions of the standard library.
fn expected_pairs(line: &str) -> Vec<(String, String)> {
    let mut out = Vec::new();
    for token in line.split_whitespace().skip(1) {
        if let Some((key, value)) = token.split_once('=') {
            out.push((key.to_string(), value.trim_matches('"').to_string()));
        }
    }
    out
}

/// The fields of a line put into a map of the standard library.
fn expected_map(line: &str) -> std::collections::HashMap<String, String> {
    expected_pairs(line).into_iter().collect()
}

/// A line of pieces picked by a small linear congruential generator.
fn descriptor_line(seed: &mut u64, count: usize) -> String {
    const PIECES: [&str; 16] = [
        "char", "common", "id", "x", "=", "\"", " ", "  ", "\t", "\r", "\u{a0}", "12", "-3", "a",
        "=\"7\"", "xadvance=5",
    ];
    let mut out = String::new();
    for _ in 0..count {
        *seed = seed.wrapping_mul(6364136223846793005).wrapping_add(1442695040888963407);
        out.push_str(PIECES[((*seed >> 33) % PIECES.len() as u64) as usize]);
    }
    out
}

/// A line of whole fields with few keys, so that keys come up again.
fn field_line(seed: &mut u64, count: usize) -> String {
    const FIELDS: [&str; 10] = [
        "id=1", "id=2", "x=\"3\"", "x=", "y", "=5", "id=\"\"", "face=a=b", "x=7", "=",
    ];
    const GAPS: [&str; 4] = [" ", "  ", "\t", " \r"];
    let mut out = String::from("char");
    for _ in 0..count {
        *seed = seed.wrapping_mul(6364136223846793005).wrapping_add(1442695040888963407);
        out.push_str(GAPS[((*seed >> 40) % GAPS.len() as u64) as usize]);
        out.push_str(FIELDS[((*seed >> 33) % FIELDS.len() as u64) as usize]);
    }
    out
}

#[test]
fn key_value_parsing_agrees_with_a_map_of_the_standard_library() {
    let mut seed: u64 = 11;
    let mut repeated: usize = 0;
    for round in 0..4000usize {
        let line = if round % 2 == 0 {
            descriptor_line(&mut seed, round % 12)
        } else {
            field_line(&mut seed, round % 9)
        };
        let pairs = pairs_of(&line);
        let expected = expected_map(&line);
        if expected.len() < expected_pairs(&line).len() {
            repeated += 1;
        }
        // As many pairs as the map has keys: no key stands twice.
        assert_eq!(pairs.len(), expected.len(), "{:?}", line);
        let map: std::collections::HashMap<String, String> = pairs.iter().cloned().collect();
        assert_eq!(map, expected, "{:?}", line);
        // The keys stand in the order in which the line first names them.
        let mut first: Vec<String> = Vec::new();
        for (key, _) in expected_pairs(&line) {
            if !first.contains(&key) {
                first.push(key);
            }
        }
        let keys: Vec<String> = pairs.iter().map(|(key, _)| key.clone()).collect();
        assert_eq!(keys, first, "{:?}", line);
    }
    assert!(repeated > 100);
}

#[test]
fn repeated_key_stands_once_with_its_last_value() {
    assert_eq!(
        pairs_of("char id=65 face=\"Arial\" junk  x=1 id=66"),
        vec![pair("id", "66"), pair("face", "Arial"), pair("x", "1")]
    );
    assert_eq!(pairs_of("tag a=1 a=2 a=3"), vec![pair("a", "3")]);
    assert_eq!(pairs_of("tag a=1 b=2 a=\"\" b=\"x\""), vec![pair("a", ""), pair("b", "x")]);
    assert_eq!(pairs_of("tag =1 =2"), vec![pair("", "2")]);
    assert_eq!(pairs_of("a=1 a=2"), vec![pair("a", "2")]);
}

#[test]
fn put_pair_replaces_or_appends() {
    let mut pairs = parse_kv(&chars_of("tag a=1 b=2"));
    put_pair(&mut pairs, KeyValue { key: chars_of("b"), value: chars_of("9") });
    put_pair(&mut pairs, KeyValue { key: chars_of("c"), value: chars_of("3") });
    put_pair(&mut pairs, KeyValue { key: chars_of("a"), value: chars_of("") });
    let got: Vec<(String, String)> =
        pairs.iter().map(|kv| (kv.key.iter().collect(), kv.value.iter().collect())).collect();
    assert_eq!(got, vec![pair("a", ""), pair("b", "9"), pair("c", "3")]);
    assert!(same_chars(&chars_of("ab"), &chars_of("ab")));
    assert!(!same_chars(&chars_of("ab"), &chars_of("aB")));
    assert!(!same_chars(&chars_of("ab"), &chars_of("abc")));
    assert!(same_chars(&chars_of(""), &chars_of("")));
}

#[test]
fn values_that_are_no_whole_numbers_are_discarded() {
    // A fraction or an exponent makes a value malformed; nothing is rounded.
    let font = load_bitmap_font("common lineHeight=20.5 scaleW=1e3 scaleH=64.0\n");
    assert_eq!(font.line_height, 48);
    assert_eq!(font.texture_width, 512);
    assert_eq!(font.texture_height, 512);
    let kept = load_bitmap_font("common lineHeight=20\ncommon lineHeight=20.5\n");
    assert_eq!(kept.line_height, 20);
    let glyph = load_bitmap_font(
        "char id=65 x=1.5 y=2e0 width=3. height=.5 xoffset=-0.5 yoffset=+1.0 xadvance=7.9\n",
    );
    assert_eq!(
        glyph.glyphs[&65],
        Glyph { x: 0, y: 0, width: 0, height: 0, x_offset: 0, y_offset: 0, x_advance: 0 }
    );
    let id = load_bitmap_font("char id=65.0 xadvance=5\n");
    assert_eq!(id.glyphs.len(), 1);
    assert_eq!(id.glyphs[&0].x_advance, 5);
    for text in ["20.5", "1e3", "64.0", "3.", ".5", "-0.5", "+1.0", "1E2", "0x10", "inf", "NaN"] {
        assert_eq!(parse_u16(&chars_of(text)), None, "{:?}", text);
        assert_eq!(parse_i16(&chars_of(text)), None, "{:?}", text);
        assert_eq!(parse_u32(&chars_of(text)), None, "{:?}", text);
    }
}

#[test]
fn values_beyond_the_range_of_a_metric_are_discarded() {
    let font = load_bitmap_font(
        "common lineHeight=65536 scaleW=4294967296 scaleH=4294967295\n\
         char id=4294967296 x=65536 y=65535 xoffset=32768 yoffset=-32769 xadvance=-32768\n",
    );
    assert_eq!(font.line_height, 48);
    assert_eq!(font.texture_width, 512);
    assert_eq!(font.texture_height, 4294967295);
    assert_eq!(
        font.glyphs[&0],
        Glyph { x: 0, y: 65535, width: 0, height: 0, x_offset: 0, y_offset: 0, x_advance: -32768 }
    );
}

/// The font read line by line with the string functions of the standard library.
fn expected_font(content: &str) -> (u16, u32, u32, Vec<(u32, Glyph)>) {
    let mut line_height: u16 = 48;
    let mut width: u32 = 512;
    let mut height: u32 = 512;
    let mut glyphs: Vec<(u32, Glyph)> = Vec::new();
    for line in content.lines() {
        let pairs = expected_pairs(line);
        let get = |key: &str| pairs.iter().rev().find(|(k, _)| k == key).map(|(_, v)| v.as_str());
        if line.starts_with("common ") {
            line_height = get("lineHeight").and_then(|v| v.parse().ok()).unwrap_or(line_height);
            width = get("scaleW").and_then(|v| v.parse().ok()).unwrap_or(width);
            height = get("scaleH").and_then(|v| v.parse().ok()).unwrap_or(height);
        } else if line.starts_with("char ") {
            let id: u32 = get("id").and_then(|v| v.parse().ok()).unwrap_or(0);
            let glyph = Glyph {
                x: get("x").and_then(|v| v.parse().ok()).unwrap_or(0),
                y: get("y").and_then(|v| v.parse().ok()).unwrap_or(0),
                width: get("width").and_then(|v| v.parse().ok()).unwrap_or(0),
                height: get("height").and_then(|v| v.parse().ok()).unwrap_or(0),
                x_offset: get("xoffset").and_then(|v| v.parse().ok()).unwrap_or(0),
                y_offset: get("yoffset").and_then(|v| v.parse().ok()).unwrap_or(0),
                x_advance: get("xadvance").and_then(|v| v.parse().ok()).unwrap_or(0),
            };
            glyphs.retain(|(other, _)| *other != id);
            glyphs.push((id, glyph));
        }
    }
    glyphs.sort_by_key(|(id, _)| *id);
    (line_height, width, height, glyphs)
}

#[test]
fn descriptor_reading_agrees_with_the_standard_string_functions() {
    let mut seed: u64 = 13;
    for round in 0..600usize {
        let mut content = String::new();
        for row in 0..(round % 7) {
            let tag = ["char ", "common ", "chars ", "", " char "][(round + row) % 5];
            content.push_str(tag);
            content.push_str(&descriptor_line(&mut seed, (round + row) % 9));
            content.push_str(["\n", "\r\n", "\n\n"][(round + row) % 3]);
        }
        content.push_str(&descriptor_line(&mut seed, round % 4));
        let font = load_bitmap_font(&content);
        let mut glyphs: Vec<(u32, Glyph)> = font.glyphs.iter().map(|(id, g)| (*id, *g)).collect();
        glyphs.sort_by_key(|(id, _)| *id);
        let expected = expected_font(&content);
        assert_eq!(
            (font.line_height, font.texture_width, font.texture_height, glyphs),
            expected,
            "{:?}",
            content
        );
    }
}
