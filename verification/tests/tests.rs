use cute_strings::color::AsciiColor;
use cute_strings::engine::CuteString;
use cute_strings::pattern::CuteStringError;

const SINGLE_LINE_MSG: &str =
    "Lorem ipsum dolor sit amet, consectetur adipiscing elit. Nullam nec purus.";

const MULTI_LINE_MSG: &str =
    "Lorem ipsum dolor sit amet, consectetur adipiscing elit.\nNullam nec purus.\n123 456 789.";

const ESCAPE_SEQUENCE_RESET: &str = "\u{1b}[0m\n";

#[test]
fn initialize_works() {
    let printer = CuteString::new();
    assert_eq!(printer.render(), "");
}

#[test]
fn set_string_without_color() {
    let mut printer = CuteString::new();
    printer.set_string(SINGLE_LINE_MSG.to_string());
    assert_eq!(
        printer.render(),
        SINGLE_LINE_MSG.to_string() + ESCAPE_SEQUENCE_RESET
    );
}

#[test]
fn set_string_with_one_color() {
    let mut printer = CuteString::new();
    printer.set_string(SINGLE_LINE_MSG.to_string());
    printer.set_default_color(AsciiColor::Red);
    assert_eq!(
        printer.render(),
        "\u{1b}[31m".to_string() + SINGLE_LINE_MSG + ESCAPE_SEQUENCE_RESET
    );
}

#[test]
fn set_string_with_overlapping_colors() {
    let mut printer = CuteString::new();
    printer.set_string(SINGLE_LINE_MSG.to_string());
    printer.set_default_color(AsciiColor::Red);
    printer.color_range(0, 20, AsciiColor::Blue);
    printer.color_range(10, 30, AsciiColor::Green);

    // The most recently added covering range wins on overlap: [0, 10) is
    // covered only by the blue range, [10, 30) by the green one added
    // later, and from 30 on the default applies.
    assert_eq!(
        printer.render(),
        "\u{1b}[31m\u{1b}[34mLorem ipsu\u{1b}[32mm dolor sit amet, co\u{1b}[31mnsectetur adipiscing elit. Nullam nec purus.\u{1b}[0m\n"
    );
}

#[test]
fn set_regex_coloring() {
    let mut printer = CuteString::new();
    printer.set_string(SINGLE_LINE_MSG.to_string());
    printer.color_regex(r"\w{5}", AsciiColor::Red).unwrap();

    assert_eq!(
        printer.render(),
        "\u{1b}[31mLorem\u{1b}[0m \u{1b}[31mipsum\u{1b}[0m \u{1b}[31mdolor\u{1b}[0m sit amet, \u{1b}[31mconsectetu\u{1b}[0mr \u{1b}[31madipiscing\u{1b}[0m elit. \u{1b}[31mNulla\u{1b}[0mm nec \u{1b}[31mpurus\u{1b}[0m.\u{1b}[0m\n"
    );
}

#[test]
fn set_regex_underline() {
    let mut printer = CuteString::new();
    printer.set_string(SINGLE_LINE_MSG.to_string());
    printer
        .underline_regex(r"[a-zA-Z]{2,}", AsciiColor::Purple, '^')
        .unwrap();

    assert_eq!(
        printer.render(),
        "Lorem ipsum dolor sit amet, consectetur adipiscing elit. Nullam nec purus.\u{1b}[0m\n\u{1b}[35m^^^^^\u{1b}[0m \u{1b}[35m^^^^^\u{1b}[0m \u{1b}[35m^^^^^\u{1b}[0m \u{1b}[35m^^^\u{1b}[0m \u{1b}[35m^^^^\u{1b}[0m  \u{1b}[35m^^^^^^^^^^^\u{1b}[0m \u{1b}[35m^^^^^^^^^^\u{1b}[0m \u{1b}[35m^^^^\u{1b}[0m  \u{1b}[35m^^^^^^\u{1b}[0m \u{1b}[35m^^^\u{1b}[0m \u{1b}[35m^^^^^\u{1b}[0m \u{1b}[0m\n"
    );
}

#[test]
fn set_regex_underline_multiline() {
    let mut printer = CuteString::new();
    printer.set_string(MULTI_LINE_MSG.to_string());
    printer
        .underline_regex(r"[a-zA-Z]{2,}", AsciiColor::Purple, '^')
        .unwrap();

    assert_eq!(
        printer.render(),
        "Lorem ipsum dolor sit amet, consectetur adipiscing elit.\u{1b}[0m\n\u{1b}[35m^^^^^\u{1b}[0m \u{1b}[35m^^^^^\u{1b}[0m \u{1b}[35m^^^^^\u{1b}[0m \u{1b}[35m^^^\u{1b}[0m \u{1b}[35m^^^^\u{1b}[0m  \u{1b}[35m^^^^^^^^^^^\u{1b}[0m \u{1b}[35m^^^^^^^^^^\u{1b}[0m \u{1b}[35m^^^^\u{1b}[0m \u{1b}[0m\nNullam nec purus.\u{1b}[0m\n\u{1b}[35m^^^^^^\u{1b}[0m \u{1b}[35m^^^\u{1b}[0m \u{1b}[35m^^^^^\u{1b}[0m \u{1b}[0m\n123 456 789.\u{1b}[0m\n"
    );
}

#[test]
fn color_char() {
    let mut printer = CuteString::new();
    printer.set_string(SINGLE_LINE_MSG.to_string());
    printer.color_char('a', AsciiColor::Red);
    assert_eq!(printer.render(), "Lorem ipsum dolor sit \u{1b}[31ma\u{1b}[0mmet, consectetur \u{1b}[31ma\u{1b}[0mdipiscing elit. Null\u{1b}[31ma\u{1b}[0mm nec purus.\u{1b}[0m\n");
}

#[test]
fn color_digits() {
    let mut printer = CuteString::new();
    printer.set_string(MULTI_LINE_MSG.to_string());
    printer.color_digits();
    assert_eq!(printer.render(), "Lorem ipsum dolor sit amet, consectetur adipiscing elit.\u{1b}[0m\nNullam nec purus.\u{1b}[0m\n\u{1b}[31m1\u{1b}[33m2\u{1b}[32m3\u{1b}[0m \u{1b}[34m4\u{1b}[35m5\u{1b}[36m6\u{1b}[0m \u{1b}[38;5;208m7\u{1b}[38;5;205m8\u{1b}[38;5;51m9\u{1b}[0m.\u{1b}[0m\n");
}

#[test]
fn color_line() {
    let mut printer = CuteString::new();
    printer.set_string(MULTI_LINE_MSG.to_string());
    printer.color_line(1, AsciiColor::Red);
    assert_eq!(printer.render(), "\u{1b}[31mLorem ipsum dolor sit amet, consectetur adipiscing elit.\u{1b}[0m\nNullam nec purus.\u{1b}[0m\n123 456 789.\u{1b}[0m\n");
}

#[test]
fn render_unset_text_with_decorations() {
    let mut printer = CuteString::new();
    printer.set_default_color(AsciiColor::Blue);
    printer.color_range(0, 5, AsciiColor::Red);
    printer.underline_with(0, 5, AsciiColor::Green, '^');
    assert_eq!(printer.render(), "");
}

#[test]
fn render_empty_text() {
    let mut printer = CuteString::new();
    printer.set_string(String::new());
    assert_eq!(printer.render(), "");
}

#[test]
fn render_text_ending_with_terminator() {
    let mut printer = CuteString::new();
    printer.set_string("a\n".to_string());
    assert_eq!(printer.render(), "a\u{1b}[0m\n");
}

#[test]
fn render_twice_is_identical() {
    let mut printer = CuteString::new();
    printer.set_string(MULTI_LINE_MSG.to_string());
    printer.set_default_color(AsciiColor::Red);
    printer.color_digits();
    printer.underline_with(0, 5, AsciiColor::Purple, '~');
    let first = printer.render();
    let second = printer.render();
    assert_eq!(first, second);
}

#[test]
fn reset_colors_keeps_underlines() {
    let mut printer = CuteString::new();
    printer.set_string("abc".to_string());
    printer.set_default_color(AsciiColor::Red);
    printer.color_range(0, 3, AsciiColor::Blue);
    printer.underline_with(1, 2, AsciiColor::Red, '^');
    printer.reset_colors();
    assert_eq!(
        printer.render(),
        "abc\u{1b}[0m\n \u{1b}[31m^\u{1b}[0m \u{1b}[0m\n"
    );
}

#[test]
fn underline_overlap_first_added_wins() {
    let mut printer = CuteString::new();
    printer.set_string("abc".to_string());
    printer.underline_with(0, 3, AsciiColor::Red, '^');
    printer.underline_with(1, 2, AsciiColor::Blue, '-');
    assert_eq!(
        printer.render(),
        "abc\u{1b}[0m\n\u{1b}[31m^^^\u{1b}[0m\n"
    );
}

#[test]
fn underline_space_glyph_row_is_emitted() {
    let mut printer = CuteString::new();
    printer.set_string("abc".to_string());
    printer.underline_with(0, 3, AsciiColor::Red, ' ');
    assert_eq!(
        printer.render(),
        "abc\u{1b}[0m\n\u{1b}[31m   \u{1b}[0m\n"
    );
}

#[test]
fn color_last_line_without_terminator() {
    let mut printer = CuteString::new();
    printer.set_string(MULTI_LINE_MSG.to_string());
    printer.color_line(3, AsciiColor::Blue);
    assert_eq!(printer.render(), "Lorem ipsum dolor sit amet, consectetur adipiscing elit.\u{1b}[0m\nNullam nec purus.\u{1b}[0m\n\u{1b}[34m123 456 789.\u{1b}[0m\n");
}

#[test]
fn malformed_ranges_are_inert() {
    let mut printer = CuteString::new();
    printer.set_string("abc".to_string());
    printer.color_range(5, 2, AsciiColor::Red);
    printer.color_range(100, 200, AsciiColor::Green);
    printer.underline_with(7, 3, AsciiColor::Blue, '^');
    assert_eq!(printer.render(), "abc\u{1b}[0m\n");
}

#[test]
fn out_of_range_line_is_ignored() {
    let mut printer = CuteString::new();
    printer.set_string("a\nb".to_string());
    printer.color_line(0, AsciiColor::Red);
    printer.color_line(5, AsciiColor::Red);
    assert_eq!(printer.render(), "a\u{1b}[0m\nb\u{1b}[0m\n");
}

#[test]
fn color_digit_zero_is_white() {
    let mut printer = CuteString::new();
    printer.set_string("0".to_string());
    printer.color_digits();
    assert_eq!(printer.render(), "\u{1b}[37m0\u{1b}[0m\n");
}

#[test]
fn color_char_multibyte_offsets() {
    let mut printer = CuteString::new();
    printer.set_string("héllo\nwörld".to_string());
    printer.color_char('ö', AsciiColor::Red);
    assert_eq!(
        printer.render(),
        "héllo\u{1b}[0m\nw\u{1b}[31mö\u{1b}[0mrld\u{1b}[0m\n"
    );
}

#[test]
fn invalid_pattern_is_an_error() {
    let mut printer = CuteString::new();
    printer.set_string("abc".to_string());
    let before = printer.render();
    let colored = printer.color_regex("(", AsciiColor::Red);
    assert!(matches!(colored, Err(CuteStringError::RegexError(_))));
    let underlined = printer.underline_regex("(", AsciiColor::Red, '^');
    assert!(matches!(underlined, Err(CuteStringError::RegexError(_))));
    assert_eq!(printer.render(), before);
}

#[test]
fn get_string_round_trip() {
    let mut printer = CuteString::new();
    assert!(printer.get_string().is_none());
    printer.set_string("abc".to_string());
    assert_eq!(printer.get_string(), Some("abc".to_string()));
}

#[test]
fn from_str_sets_text() {
    let printer = CuteString::from("abc");
    assert_eq!(printer.render(), "abc\u{1b}[0m\n");
    let printer = CuteString::from("xy".to_string());
    assert_eq!(printer.render(), "xy\u{1b}[0m\n");
}
