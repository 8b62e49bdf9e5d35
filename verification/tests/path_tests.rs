use asset_optimizer::path::AssetPath;
use asset_optimizer::text::{
    char_to_digit, chars_of, decimal_string, digit_to_char, join_texts, parse_number, push_text,
    same_ignoring_ascii_case, string_of, to_ascii_lower,
};

fn path_of(parts: &[&str]) -> AssetPath {
    AssetPath::new(parts.iter().map(|p| p.to_string()).collect())
}

#[test]
fn text_joins_components_with_slashes() {
    assert_eq!(path_of(&["a", "b", "c.mp4"]).to_text(), "a/b/c.mp4");
    assert_eq!(path_of(&["only"]).to_text(), "only");
    assert_eq!(path_of(&[]).to_text(), "");
}

#[test]
fn text_adds_no_slash_after_a_root() {
    assert_eq!(path_of(&["/", "usr", "share"]).to_text(), "/usr/share");
    assert_eq!(path_of(&["/"]).to_text(), "/");
}

#[test]
fn file_name_is_the_last_component() {
    assert_eq!(path_of(&["a", "b.png"]).file_name(), Some("b.png".to_string()));
    assert_eq!(path_of(&[]).file_name(), None);
}

#[test]
fn strip_prefix_goes_by_components() {
    let p = path_of(&["in", "a", "b.png"]);
    assert_eq!(p.strip_prefix(&path_of(&["in"])), Some(path_of(&["a", "b.png"])));
    assert_eq!(p.strip_prefix(&path_of(&[])), Some(p.clone()));
    assert_eq!(p.strip_prefix(&p), Some(path_of(&[])));
    assert_eq!(p.strip_prefix(&path_of(&["i"])), None);
    assert_eq!(p.strip_prefix(&path_of(&["in", "a", "b.png", "c"])), None);
    assert_eq!(p.strip_prefix(&path_of(&["a"])), None);
}

#[test]
fn starts_with_goes_by_components() {
    let p = path_of(&["in", "a"]);
    assert!(p.starts_with(&path_of(&["in"])));
    assert!(p.starts_with(&path_of(&[])));
    assert!(!p.starts_with(&path_of(&["in", "b"])));
    assert!(!path_of(&["input"]).starts_with(&path_of(&["in"])));
}

#[test]
fn join_slice_and_duplicate() {
    let p = path_of(&["a", "b"]);
    assert_eq!(p.join(&path_of(&["c", "d"])), path_of(&["a", "b", "c", "d"]));
    assert_eq!(p.join(&path_of(&[])), p);
    assert_eq!(path_of(&[]).join(&p), p);
    assert_eq!(p.duplicate(), p);
    assert_eq!(p.len(), 2);
    assert_eq!(path_of(&["a", "b", "c"]).slice(1, 3), path_of(&["b", "c"]));
    assert_eq!(path_of(&["a", "b", "c"]).slice(2, 2), path_of(&[]));
}

#[test]
fn strings_and_characters_convert_both_ways() {
    let chars = chars_of("h\u{e9}llo");
    assert_eq!(chars, vec!['h', '\u{e9}', 'l', 'l', 'o']);
    assert_eq!(string_of(&chars), "h\u{e9}llo");
    assert_eq!(string_of(&Vec::new()), "");
    assert_eq!(string_of(&vec!['a', 'b', 'c']), "abc");
}

#[test]
fn ascii_lower_folds_capitals_only() {
    assert_eq!(to_ascii_lower('A'), 'a');
    assert_eq!(to_ascii_lower('Z'), 'z');
    assert_eq!(to_ascii_lower('m'), 'm');
    assert_eq!(to_ascii_lower('4'), '4');
    assert_eq!(to_ascii_lower('@'), '@');
    assert_eq!(to_ascii_lower('['), '[');
    assert_eq!(to_ascii_lower('\u{c9}'), '\u{c9}');
}

#[test]
fn texts_compare_without_regard_to_ascii_case() {
    assert!(same_ignoring_ascii_case("MP4", "mp4"));
    assert!(same_ignoring_ascii_case("mP4", "Mp4"));
    assert!(same_ignoring_ascii_case("", ""));
    assert!(!same_ignoring_ascii_case("mp4", "mp3"));
    assert!(!same_ignoring_ascii_case("mp4", "mp"));
    assert!(!same_ignoring_ascii_case("mp", "mp4"));
    assert!(!same_ignoring_ascii_case("\u{c9}", "\u{e9}"));
    assert!(same_ignoring_ascii_case("\u{e9}X", "\u{e9}x"));
}

#[test]
fn directory_is_the_path_without_its_last_component() {
    assert_eq!(path_of(&["a", "b", "c.png"]).directory(), path_of(&["a", "b"]));
    assert_eq!(path_of(&["c.png"]).directory(), path_of(&[]));
    assert_eq!(path_of(&[]).directory(), path_of(&[]));
}

#[test]
fn texts_are_joined_end_to_end() {
    assert_eq!(join_texts("ab", "cd"), "abcd");
    assert_eq!(join_texts("", "cd"), "cd");
    assert_eq!(join_texts("ab", ""), "ab");
}

#[test]
fn text_is_written_at_the_end() {
    let mut out = vec!['a'];
    push_text(&mut out, "bc");
    push_text(&mut out, "");
    assert_eq!(out, vec!['a', 'b', 'c']);
}

#[test]
fn decimal_numbers_are_written_without_padding() {
    assert_eq!(decimal_string(0), "0");
    assert_eq!(decimal_string(7), "7");
    assert_eq!(decimal_string(10), "10");
    assert_eq!(decimal_string(255), "255");
    assert_eq!(decimal_string(1_000_000), "1000000");
    assert_eq!(decimal_string(u128::MAX), u128::MAX.to_string());
    for n in 0..=1000u128 {
        assert_eq!(decimal_string(n), n.to_string());
    }
}

#[test]
fn digits_convert_both_ways() {
    for d in 0u8..10 {
        let c = digit_to_char(d);
        assert_eq!(c, (b'0' + d) as char);
        assert_eq!(char_to_digit(c), Some(d));
    }
    assert_eq!(char_to_digit('a'), None);
    assert_eq!(char_to_digit('-'), None);
    assert_eq!(char_to_digit('\u{663}'), None);
}

#[test]
fn numbers_are_read_in_decimal() {
    assert_eq!(parse_number("0", 255), Some(0));
    assert_eq!(parse_number("30", 255), Some(30));
    assert_eq!(parse_number("255", 255), Some(255));
    assert_eq!(parse_number("+85", 255), Some(85));
    assert_eq!(parse_number("007", 255), Some(7));
    assert_eq!(parse_number("18446744073709551615", u64::MAX), Some(u64::MAX));
    assert_eq!(
        parse_number("000000000000000000000000000000000000001", 255),
        Some(1)
    );
}

#[test]
fn what_is_no_number_is_refused() {
    assert_eq!(parse_number("", 255), None);
    assert_eq!(parse_number("+", 255), None);
    assert_eq!(parse_number("-", 255), None);
    assert_eq!(parse_number("-1", 255), None);
    assert_eq!(parse_number("-0", 255), None);
    assert_eq!(parse_number("++1", 255), None);
    assert_eq!(parse_number("1+", 255), None);
    assert_eq!(parse_number(" 1", 255), None);
    assert_eq!(parse_number("1 ", 255), None);
    assert_eq!(parse_number("1.5", 255), None);
    assert_eq!(parse_number("0x10", 255), None);
    assert_eq!(parse_number("12a", 255), None);
    assert_eq!(parse_number("\u{661}", 255), None);
}

#[test]
fn numbers_out_of_range_are_refused() {
    assert_eq!(parse_number("256", 255), None);
    assert_eq!(parse_number("1000", 255), None);
    assert_eq!(parse_number("18446744073709551616", u64::MAX), None);
    assert_eq!(parse_number("99999999999999999999999999999", u64::MAX), None);
    assert_eq!(parse_number("1", 0), None);
    assert_eq!(parse_number("0", 0), Some(0));
}

#[test]
fn reading_agrees_with_the_standard_parser() {
    let samples = [
        "", "0", "1", "9", "10", "99", "100", "254", "255", "256", "300", "+0", "+255", "+256",
        "-5", "00", "0255", "2 5", "a", "25a", "+-1", "4294967295", "4294967296",
    ];
    for s in samples {
        assert_eq!(parse_number(s, 255), s.parse::<u8>().ok().map(u64::from), "{s}");
        assert_eq!(
            parse_number(s, u32::MAX as u64),
            s.parse::<u32>().ok().map(u64::from),
            "{s}"
        );
    }
}
