use annotation::hex::format_hex_color;
use annotation::hex::hex_entry_splits_char;
use annotation::hex::is_white_space_char;
use annotation::hex::parse_hex_color;

fn parse(s: &str) -> Option<(u8, u8, u8)> {
    assert!(!hex_entry_splits_char(s));
    parse_hex_color(s)
}

#[test]
fn parses_plain_entry() {
    assert_eq!(parse("#FF8000"), Some((255, 128, 0)));
    assert_eq!(parse("1a2b3c"), Some((0x1a, 0x2b, 0x3c)));
    assert_eq!(parse("#aBcDeF"), Some((0xab, 0xcd, 0xef)));
}

#[test]
fn ignores_space_around_and_repeated_marks() {
    assert_eq!(parse("  #00ff00\n"), Some((0, 255, 0)));
    assert_eq!(parse("\t##123456 "), Some((0x12, 0x34, 0x56)));
    assert_eq!(parse("\u{3000}#000000\u{a0}"), Some((0, 0, 0)));
}

#[test]
fn space_after_the_mark_is_not_trimmed() {
    assert_eq!(parse("# ff0000"), None);
}

#[test]
fn rejects_wrong_lengths() {
    assert_eq!(parse(""), None);
    assert_eq!(parse("#"), None);
    assert_eq!(parse("#fff"), None);
    assert_eq!(parse("#1234567"), None);
    assert_eq!(parse("#12345"), None);
}

#[test]
fn rejects_non_digits() {
    assert_eq!(parse("#12345g"), None);
    assert_eq!(parse("#-12345"), None);
    assert_eq!(parse("#12 456"), None);
    assert_eq!(parse("#++1234"), None);
}

#[test]
fn a_plus_sign_starts_a_pair() {
    assert_eq!(parse("#+f+0+a"), Some((15, 0, 10)));
    assert_eq!(parse("+11234"), Some((1, 0x12, 0x34)));
}

#[test]
fn finds_entries_that_split_a_character() {
    assert!(hex_entry_splits_char("aé123"));
    assert!(hex_entry_splits_char(" #ffaé1 "));
    assert!(!hex_entry_splits_char("zzaé1"));
    assert!(!hex_entry_splits_char("é1234"));
    assert!(!hex_entry_splits_char("#ff0000"));
    assert_eq!(parse("zzaé1"), None);
    assert_eq!(parse("é1234"), None);
    assert_eq!(parse("ééé"), None);
}

#[test]
fn formats_in_upper_case() {
    assert_eq!(format_hex_color(255, 0, 16), "#FF0010");
    assert_eq!(format_hex_color(0, 0, 0), "#000000");
    assert_eq!(format_hex_color(0xab, 0xcd, 0xef), "#ABCDEF");
}

#[test]
fn formatted_colour_reads_back() {
    for (r, g, b) in [(0u8, 0u8, 0u8), (255, 255, 255), (1, 2, 3), (0x9a, 0x0f, 0xf0)] {
        let text = format_hex_color(r, g, b);
        assert_eq!(parse(&text), Some((r, g, b)));
    }
}

#[test]
fn white_space_is_the_unicode_property() {
    for c in [' ', '\t', '\n', '\r', '\u{b}', '\u{c}', '\u{85}', '\u{a0}', '\u{2003}', '\u{3000}'] {
        assert!(is_white_space_char(c));
    }
    for c in ['#', 'a', '0', '\u{200b}', '\u{180e}'] {
        assert!(!is_white_space_char(c));
    }
}
