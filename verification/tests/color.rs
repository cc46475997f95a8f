use lib::{parse_color, Color};

fn rgb(r: u8, g: u8, b: u8) -> Color {
    Color::Rgb { r, g, b }
}

#[test]
fn from_u16_maps_one_to_sixteen() {
    let expected = [
        Color::Black,
        Color::Red,
        Color::Green,
        Color::Yellow,
        Color::Blue,
        Color::Magenta,
        Color::Cyan,
        Color::White,
        Color::BrightBlack,
        Color::BrightRed,
        Color::BrightGreen,
        Color::BrightYellow,
        Color::BrightBlue,
        Color::BrightMagenta,
        Color::BrightCyan,
        Color::BrightWhite,
    ];
    for (i, c) in expected.iter().enumerate() {
        assert_eq!(Color::from_u16(i as u16 + 1), *c);
    }
}

#[test]
fn from_u16_other_numbers_are_unset() {
    assert_eq!(Color::from_u16(0), Color::Unset);
    assert_eq!(Color::from_u16(17), Color::Unset);
    assert_eq!(Color::from_u16(255), Color::Unset);
    assert_eq!(Color::from_u16(u16::MAX), Color::Unset);
}

#[test]
fn from_hex_long_form() {
    assert_eq!(Color::from_hex("#ff8800"), Some(rgb(255, 136, 0)));
    assert_eq!(Color::from_hex("ff8800"), Some(rgb(255, 136, 0)));
    assert_eq!(Color::from_hex("#000000"), Some(rgb(0, 0, 0)));
    assert_eq!(Color::from_hex("#FFFFFF"), Some(rgb(255, 255, 255)));
    assert_eq!(Color::from_hex("#1a2B3c"), Some(rgb(0x1a, 0x2b, 0x3c)));
}

#[test]
fn from_hex_short_form_doubles_digits() {
    assert_eq!(Color::from_hex("#abc"), Some(rgb(0xaa, 0xbb, 0xcc)));
    assert_eq!(Color::from_hex("abc"), Color::from_hex("aabbcc"));
    assert_eq!(Color::from_hex("#f80"), Some(rgb(255, 136, 0)));
}

#[test]
fn from_hex_eight_digits_skip_the_first_pair() {
    assert_eq!(Color::from_hex("#12345678"), Some(rgb(0x34, 0x56, 0x78)));
    assert_eq!(Color::from_hex("ffffffff"), Some(rgb(255, 255, 255)));
    assert_eq!(Color::from_hex("#abcd"), Some(rgb(0xbb, 0xcc, 0xdd)));
    assert_eq!(Color::from_hex("abcd"), Color::from_hex("aabbccdd"));
}

#[test]
fn from_hex_ignores_case() {
    assert_eq!(Color::from_hex("#ABCDEF"), Color::from_hex("#abcdef"));
    assert_eq!(Color::from_hex("#AbC"), Some(rgb(0xaa, 0xbb, 0xcc)));
}

#[test]
fn from_hex_accepts_a_plus_sign_where_the_number_parser_does() {
    assert_eq!(Color::from_hex("+abcde"), Some(rgb(0x0a, 0xbc, 0xde)));
    assert_eq!(Color::from_hex("#+abcde"), Some(rgb(0x0a, 0xbc, 0xde)));
    assert_eq!(Color::from_hex("+1234567"), Some(rgb(0x23, 0x45, 0x67)));
    assert_eq!(Color::from_hex("+ab"), None);
    assert_eq!(Color::from_hex("+abc"), None);
}

#[test]
fn from_hex_rejects_bad_input() {
    assert_eq!(Color::from_hex(""), None);
    assert_eq!(Color::from_hex("#"), None);
    assert_eq!(Color::from_hex("#ab"), None);
    assert_eq!(Color::from_hex("#abcde"), None);
    assert_eq!(Color::from_hex("#1234567"), None);
    assert_eq!(Color::from_hex("#123456789"), None);
    assert_eq!(Color::from_hex("##abc"), None);
    assert_eq!(Color::from_hex("#ggg"), None);
    assert_eq!(Color::from_hex("-abcde"), None);
    assert_eq!(Color::from_hex("12 456"), None);
    assert_eq!(Color::from_hex("\u{e9}ab"), None);
    assert_eq!(Color::from_hex("#\u{e9}abcd"), None);
    assert_eq!(Color::from_hex("\u{ff10}12"), None);
}

#[test]
fn from_name_named_colours() {
    assert_eq!(Color::from_name("none"), Some(Color::Unset));
    assert_eq!(Color::from_name("black"), Some(Color::Black));
    assert_eq!(Color::from_name("red"), Some(Color::Red));
    assert_eq!(Color::from_name("green"), Some(Color::Green));
    assert_eq!(Color::from_name("yellow"), Some(Color::Yellow));
    assert_eq!(Color::from_name("blue"), Some(Color::Blue));
    assert_eq!(Color::from_name("magenta"), Some(Color::Magenta));
    assert_eq!(Color::from_name("cyan"), Some(Color::Cyan));
    assert_eq!(Color::from_name("white"), Some(Color::White));
    assert_eq!(Color::from_name("brightblack"), Some(Color::BrightBlack));
    assert_eq!(Color::from_name("gray"), Some(Color::BrightBlack));
    assert_eq!(Color::from_name("grey"), Some(Color::BrightBlack));
    assert_eq!(Color::from_name("brightred"), Some(Color::BrightRed));
    assert_eq!(Color::from_name("brightgreen"), Some(Color::BrightGreen));
    assert_eq!(Color::from_name("brightyellow"), Some(Color::BrightYellow));
    assert_eq!(Color::from_name("brightblue"), Some(Color::BrightBlue));
    assert_eq!(Color::from_name("brightmagenta"), Some(Color::BrightMagenta));
    assert_eq!(Color::from_name("brightcyan"), Some(Color::BrightCyan));
    assert_eq!(Color::from_name("brightwhite"), Some(Color::BrightWhite));
}

#[test]
fn from_name_rgb_names() {
    assert_eq!(Color::from_name("orange"), Some(rgb(255, 165, 0)));
    assert_eq!(Color::from_name("purple"), Some(rgb(128, 0, 128)));
    assert_eq!(Color::from_name("pink"), Some(rgb(255, 105, 180)));
    assert_eq!(Color::from_name("brown"), Some(rgb(165, 42, 42)));
    assert_eq!(Color::from_name("olive"), Some(rgb(128, 128, 0)));
    assert_eq!(Color::from_name("teal"), Some(rgb(0, 128, 128)));
    assert_eq!(Color::from_name("navy"), Some(rgb(0, 0, 128)));
    assert_eq!(Color::from_name("maroon"), Some(rgb(128, 0, 0)));
    assert_eq!(Color::from_name("silver"), Some(rgb(192, 192, 192)));
    assert_eq!(Color::from_name("gold"), Some(rgb(255, 215, 0)));
}

#[test]
fn from_name_ignores_ascii_case_only() {
    assert_eq!(Color::from_name("RED"), Some(Color::Red));
    assert_eq!(Color::from_name("Orange"), Some(rgb(255, 165, 0)));
    assert_eq!(Color::from_name("BrightWhite"), Some(Color::BrightWhite));
    assert_eq!(Color::from_name("GrEy"), Some(Color::BrightBlack));
    assert_eq!(Color::from_name("NONE"), Some(Color::Unset));
}

#[test]
fn from_name_rejects_others() {
    assert_eq!(Color::from_name(""), None);
    assert_eq!(Color::from_name(" red"), None);
    assert_eq!(Color::from_name("red "), None);
    assert_eq!(Color::from_name("bright red"), None);
    assert_eq!(Color::from_name("reds"), None);
    assert_eq!(Color::from_name("#ff0000"), None);
    assert_eq!(Color::from_name("r\u{e9}d"), None);
}

#[test]
fn parse_color_reads_names_and_hex() {
    assert_eq!(parse_color("red").unwrap(), Color::Red);
    assert_eq!(parse_color("Orange").unwrap(), rgb(255, 165, 0));
    assert_eq!(parse_color("#ff8800").unwrap(), rgb(255, 136, 0));
    assert_eq!(parse_color("abc").unwrap(), rgb(0xaa, 0xbb, 0xcc));
    assert_eq!(parse_color("none").unwrap(), Color::Unset);
}

#[test]
fn parse_color_trims_whitespace() {
    assert_eq!(parse_color("  red\t").unwrap(), Color::Red);
    assert_eq!(parse_color("\n#ff8800 ").unwrap(), rgb(255, 136, 0));
    assert_eq!(parse_color("\u{3000}blue\u{a0}").unwrap(), Color::Blue);
    assert_eq!(parse_color("\u{2003} gold \u{2028}").unwrap(), rgb(255, 215, 0));
}

#[test]
fn parse_color_error_quotes_input() {
    let e = parse_color("nope").unwrap_err();
    assert_eq!(e.0, "invalid color name: nope");
    let e = parse_color(" bright red ").unwrap_err();
    assert_eq!(e.0, "invalid color name:  bright red ");
    let e = parse_color("").unwrap_err();
    assert_eq!(e.0, "invalid color name: ");
    let e = parse_color("   ").unwrap_err();
    assert_eq!(e.0, "invalid color name:    ");
}

#[test]
fn names_and_hex_agree_where_both_apply() {
    assert_eq!(parse_color("orange").unwrap(), Color::from_hex("#ffa500").unwrap());
    assert_eq!(parse_color("gold").unwrap(), Color::from_hex("ffd700").unwrap());
    assert_eq!(parse_color("teal").unwrap(), Color::from_hex("#008080").unwrap());
}
