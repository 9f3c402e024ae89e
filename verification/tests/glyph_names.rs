use agl::decode::map_code_points_to_string;
use agl::decode::map_glyph_to_string_per_segment;
use agl::decode::parse_unicode;
use agl::dict::DictError;
use agl::dict::GlyphDictionary;
use agl::resolve::map_agl;
use agl::resolve::map_glyph_to_code_points;
use agl::resolve::map_uni;
use agl::resolve::step1;
use agl::resolve::step2;
use agl::resolve::step3;

fn small_dict() -> GlyphDictionary {
    GlyphDictionary::from_text("# comment line\nLcommaaccent;013B\n").unwrap()
}

fn strings(items: &[&str]) -> Vec<String> {
    items.iter().map(|s| String::from(*s)).collect()
}

#[test]
fn test_step1() {
    assert_eq!(step1(".notdef"), "");
    assert_eq!(step1("test"), "test");
}

#[test]
fn test_step2() {
    assert_eq!(
        step2("Lcommaaccent_uni20AC0308_u1040C"),
        strings(&["Lcommaaccent", "uni20AC0308", "u1040C"])
    );
}

#[test]
fn test_step3() {
    let dict = small_dict();

    assert_eq!(step3(&dict, "Lcommaaccent"), strings(&["013B"]));
    assert_eq!(step3(&dict, "uni20AC0308"), strings(&["20AC", "0308"]));
    assert_eq!(step3(&dict, "u1040C"), strings(&["1040C"]));
    assert_eq!(step3(&dict, "uniD801DC0C"), strings(&["D801", "DC0C"]));
    assert_eq!(step3(&dict, "foo"), strings(&[]));
    assert_eq!(step3(&dict, ".notdef"), strings(&[]));

    assert_eq!(step3(&dict, "uni013B"), step3(&dict, "u013B"));
}

#[test]
fn test_map() {
    let dict = small_dict();

    assert_eq!(
        map_glyph_to_code_points(&dict, "Lcommaaccent_uni20AC0308_u1040C.alternate"),
        strings(&["013B", "20AC", "0308", "1040C"])
    );

    assert_eq!(map_glyph_to_code_points(&dict, "foo"), strings(&[]));
    assert_eq!(map_glyph_to_code_points(&dict, ".notdef"), strings(&[]));
}

#[test]
fn segments_rejoin_to_truncated_name() {
    for name in ["Lcommaaccent_uni20AC0308_u1040C.alternate", ".notdef", "a__b_", "x.y.z", ""] {
        let truncated = step1(name);
        let segments = step2(truncated);
        assert_eq!(segments.join("_"), truncated);
    }
}

#[test]
fn resolve_is_total_on_odd_inputs() {
    let dict = small_dict();

    assert_eq!(map_glyph_to_code_points(&dict, ""), strings(&[]));
    // a bare "uni" prefix has a zero-length remainder, so it falls through
    // to the single-code-point form, which strips one leading "u"
    assert_eq!(map_glyph_to_code_points(&dict, "uni"), strings(&["ni"]));
    // a remainder that is not a multiple of four falls through as well
    assert_eq!(map_glyph_to_code_points(&dict, "uniABC"), strings(&["niABC"]));
    assert_eq!(map_glyph_to_code_points(&dict, "___"), strings(&[]));
    assert_eq!(map_glyph_to_code_points(&dict, "..."), strings(&[]));
}

#[test]
fn dictionary_wins_over_numeric_form() {
    // "u1040C" is shaped like the single-code-point form, but the dictionary
    // maps it to 0041, and the dictionary takes precedence
    let dict = GlyphDictionary::from_text("Lcommaaccent;013B\nu1040C;0041\n").unwrap();
    assert_eq!(step3(&dict, "u1040C"), strings(&["0041"]));

    let without_entry = small_dict();
    assert_eq!(step3(&without_entry, "u1040C"), strings(&["1040C"]));
}

#[test]
fn resolving_twice_gives_identical_sequences() {
    let dict = small_dict();
    let first = map_glyph_to_code_points(&dict, "Lcommaaccent_uni20AC0308.alt");
    let second = map_glyph_to_code_points(&dict, "Lcommaaccent_uni20AC0308.alt");
    assert_eq!(first, second);
}

#[test]
fn notdef_segments_to_one_empty_segment() {
    assert_eq!(step2(step1(".notdef")), strings(&[""]));
}

#[test]
fn map_agl_hits_and_misses() {
    let dict = small_dict();
    assert_eq!(map_agl(&dict, "Lcommaaccent"), Some(String::from("013B")));
    assert_eq!(map_agl(&dict, "Lcommaaccent.alt"), None);
    assert_eq!(map_agl(&dict, "foo"), None);
}

#[test]
fn map_uni_forms() {
    assert_eq!(map_uni("uni20AC0308"), Some(strings(&["20AC", "0308"])));
    assert_eq!(map_uni("uni20AC"), Some(strings(&["20AC"])));
    assert_eq!(map_uni("u10FFFF"), Some(strings(&["10FFFF"])));
    assert_eq!(map_uni("u"), Some(strings(&[""])));
    assert_eq!(map_uni("foo"), None);
    assert_eq!(map_uni(""), None);
}

#[test]
fn parse_unicode_accepts_scalar_values() {
    assert_eq!(parse_unicode("0041"), Some('A'));
    assert_eq!(parse_unicode("20ac"), Some('\u{20AC}'));
    assert_eq!(parse_unicode("1040C"), Some('\u{1040C}'));
    assert_eq!(parse_unicode("10FFFF"), Some('\u{10FFFF}'));
}

#[test]
fn parse_unicode_rejects_non_scalar_values() {
    assert_eq!(parse_unicode(""), None);
    assert_eq!(parse_unicode("xyz"), None);
    assert_eq!(parse_unicode("00 41"), None);
    // the surrogate range D800..=DFFF
    assert_eq!(parse_unicode("D800"), None);
    assert_eq!(parse_unicode("DFFF"), None);
    // beyond the last code point
    assert_eq!(parse_unicode("110000"), None);
    assert_eq!(parse_unicode("FFFFFFFFFF"), None);
}

#[test]
fn decode_concatenates_characters() {
    let dict = small_dict();
    let points = map_glyph_to_code_points(&dict, "Lcommaaccent_uni20AC0308_u1040C.alternate");
    assert_eq!(
        map_code_points_to_string(&points),
        Some(String::from("\u{013B}\u{20AC}\u{0308}\u{1040C}"))
    );
    assert_eq!(map_code_points_to_string(&strings(&[])), Some(String::new()));
}

#[test]
fn decode_fails_atomically_on_surrogates() {
    // "uniD801DC0C" resolves to two raw chunks, but both are surrogate
    // values, so the decode of the whole sequence fails
    let points = map_uni("uniD801DC0C").unwrap();
    assert_eq!(points, strings(&["D801", "DC0C"]));
    assert_eq!(map_code_points_to_string(&points), None);
    // one bad code point discards the characters decoded so far
    assert_eq!(map_code_points_to_string(&strings(&["0041", "D801"])), None);
    assert_eq!(map_code_points_to_string(&strings(&["0041", ""])), None);
}

#[test]
fn per_segment_decode_keeps_partial_text() {
    let dict = small_dict();
    // the middle segment resolves to a lone surrogate and does not decode;
    // under the per-segment policy it contributes the empty string while the
    // other segments still decode
    assert_eq!(
        map_glyph_to_string_per_segment(&dict, "Lcommaaccent_uniD801_u1040C.alt"),
        String::from("\u{013B}\u{1040C}")
    );
    // under the atomic policy the same name yields no text at all
    let points = map_glyph_to_code_points(&dict, "Lcommaaccent_uniD801_u1040C.alt");
    assert_eq!(map_code_points_to_string(&points), None);

    assert_eq!(map_glyph_to_string_per_segment(&dict, "uniD801DC0C"), String::new());
    assert_eq!(map_glyph_to_string_per_segment(&dict, ".notdef"), String::new());
    assert_eq!(
        map_glyph_to_string_per_segment(&dict, "Lcommaaccent_uni20AC0308_u1040C.alternate"),
        String::from("\u{013B}\u{20AC}\u{0308}\u{1040C}")
    );
}

#[test]
fn dictionary_rejects_malformed_lines() {
    assert!(matches!(GlyphDictionary::from_text("nosemicolon"), Err(DictError::MalformedLine)));
    assert!(matches!(GlyphDictionary::from_text("a;b;c"), Err(DictError::MalformedLine)));
    assert!(matches!(GlyphDictionary::from_text(";0041"), Err(DictError::MalformedLine)));
    assert!(matches!(GlyphDictionary::from_text("a;41"), Err(DictError::MalformedLine)));
    assert!(matches!(GlyphDictionary::from_text("a;004g"), Err(DictError::MalformedLine)));
    assert!(matches!(GlyphDictionary::from_text("a;004a"), Err(DictError::MalformedLine)));
}

#[test]
fn dictionary_rejects_duplicate_names() {
    assert!(matches!(
        GlyphDictionary::from_text("a;0041\nb;0042\na;0043\n"),
        Err(DictError::DuplicateName)
    ));
}

#[test]
fn dictionary_skips_comments_and_blank_lines() {
    let dict = GlyphDictionary::from_text("# header\n\na;0041\n# trailing\n\n").unwrap();
    assert_eq!(dict.lookup("a"), Some(String::from("0041")));
    assert_eq!(dict.lookup("b"), None);
    assert_eq!(dict.lookup("# header"), None);
    assert_eq!(dict.lookup(""), None);
}

#[test]
fn empty_dictionary_text_is_accepted() {
    let dict = GlyphDictionary::from_text("").unwrap();
    assert_eq!(dict.lookup("a"), None);
}
