use lib::{Color, Style};

fn prefix(style: Style) -> String {
    let mut out = String::new();
    style.write_ansi_prefix(&mut out);
    out
}

#[test]
fn new_style_is_empty() {
    let s = Style::new();
    assert!(s.is_empty());
    assert!(!s.is_bold());
    assert!(!s.is_italic());
    assert!(!s.is_underline());
    assert!(!s.is_dim());
    assert_eq!(s.fg_color(), Color::Unset);
    assert_eq!(s.bg_color(), Color::Unset);
}

#[test]
fn default_is_new() {
    assert_eq!(Style::default(), Style::new());
}

#[test]
fn each_flag_sets_only_itself() {
    let b = Style::new().bold();
    assert!(b.is_bold() && !b.is_italic() && !b.is_underline() && !b.is_dim());
    let i = Style::new().italic();
    assert!(!i.is_bold() && i.is_italic() && !i.is_underline() && !i.is_dim());
    let u = Style::new().underline();
    assert!(!u.is_bold() && !u.is_italic() && u.is_underline() && !u.is_dim());
    let d = Style::new().dim();
    assert!(!d.is_bold() && !d.is_italic() && !d.is_underline() && d.is_dim());
    assert!(!b.is_empty() && !i.is_empty() && !u.is_empty() && !d.is_empty());
}

#[test]
fn flags_are_idempotent_and_commute() {
    assert_eq!(Style::new().bold().bold(), Style::new().bold());
    assert_eq!(Style::new().dim().dim(), Style::new().dim());
    assert_eq!(Style::new().bold().italic(), Style::new().italic().bold());
    assert_eq!(
        Style::new().underline().dim().bold(),
        Style::new().bold().dim().underline()
    );
}

#[test]
fn colours_are_set_and_replaced() {
    let s = Style::new().fg(Color::Red).bg(Color::Ansi256(17));
    assert_eq!(s.fg_color(), Color::Red);
    assert_eq!(s.bg_color(), Color::Ansi256(17));
    assert!(!s.is_empty());
    let t = s.fg(Color::Rgb { r: 1, g: 2, b: 3 });
    assert_eq!(t.fg_color(), Color::Rgb { r: 1, g: 2, b: 3 });
    assert_eq!(t.bg_color(), Color::Ansi256(17));
    let cleared = Style::new().fg(Color::Blue).fg(Color::Unset);
    assert!(cleared.is_empty());
}

#[test]
fn merge_unions_flags_and_overrides_set_colours() {
    let a = Style::new().bold().fg(Color::Red).bg(Color::Green);
    let b = Style::new().italic().fg(Color::Blue);
    let m = a.merge(b);
    assert!(m.is_bold() && m.is_italic() && !m.is_underline() && !m.is_dim());
    assert_eq!(m.fg_color(), Color::Blue);
    assert_eq!(m.bg_color(), Color::Green);
    let n = b.merge(a);
    assert_eq!(n.fg_color(), Color::Red);
    assert_eq!(n.bg_color(), Color::Green);
}

#[test]
fn merge_with_empty_is_identity() {
    let a = Style::new().underline().fg(Color::Cyan).bg(Color::Rgb { r: 9, g: 8, b: 7 });
    assert_eq!(a.merge(Style::new()), a);
    assert_eq!(Style::new().merge(a), a);
}

#[test]
fn merge_is_associative_and_idempotent() {
    let a = Style::new().bold().fg(Color::Red);
    let b = Style::new().dim().bg(Color::White);
    let c = Style::new().italic().fg(Color::Ansi256(3));
    assert_eq!(a.merge(b).merge(c), a.merge(b.merge(c)));
    assert_eq!(a.merge(a), a);
}

#[test]
fn setters_are_merges() {
    let a = Style::new().italic().fg(Color::Magenta);
    assert_eq!(a.bold(), a.merge(Style::new().bold()));
    assert_eq!(a.dim(), a.merge(Style::new().dim()));
    assert_eq!(a.bg(Color::Yellow), a.merge(Style::new().bg(Color::Yellow)));
    assert_eq!(a.fg(Color::Black), a.merge(Style::new().fg(Color::Black)));
}

#[test]
fn empty_style_writes_nothing() {
    assert_eq!(prefix(Style::new()), "");
}

#[test]
fn prefix_of_each_flag() {
    assert_eq!(prefix(Style::new().bold()), "\u{1b}[1m");
    assert_eq!(prefix(Style::new().italic()), "\u{1b}[3m");
    assert_eq!(prefix(Style::new().underline()), "\u{1b}[4m");
    assert_eq!(prefix(Style::new().dim()), "\u{1b}[2m");
}

#[test]
fn prefix_orders_flags_then_fg_then_bg() {
    let s = Style::new().bg(Color::Red).dim().fg(Color::Green).underline().italic().bold();
    assert_eq!(prefix(s), "\u{1b}[1;3;4;2;32;41m");
}

#[test]
fn prefix_of_named_colours() {
    assert_eq!(prefix(Style::new().fg(Color::Black)), "\u{1b}[30m");
    assert_eq!(prefix(Style::new().fg(Color::Red)), "\u{1b}[31m");
    assert_eq!(prefix(Style::new().fg(Color::Blue)), "\u{1b}[34m");
    assert_eq!(prefix(Style::new().fg(Color::White)), "\u{1b}[37m");
    assert_eq!(prefix(Style::new().fg(Color::BrightBlack)), "\u{1b}[90m");
    assert_eq!(prefix(Style::new().fg(Color::BrightWhite)), "\u{1b}[97m");
    assert_eq!(prefix(Style::new().bg(Color::Black)), "\u{1b}[40m");
    assert_eq!(prefix(Style::new().bg(Color::Magenta)), "\u{1b}[45m");
    assert_eq!(prefix(Style::new().bg(Color::BrightBlack)), "\u{1b}[100m");
    assert_eq!(prefix(Style::new().bg(Color::BrightCyan)), "\u{1b}[106m");
    assert_eq!(prefix(Style::new().bg(Color::BrightWhite)), "\u{1b}[107m");
}

#[test]
fn prefix_of_palette_and_rgb_colours() {
    assert_eq!(prefix(Style::new().fg(Color::Ansi256(0))), "\u{1b}[38;5;0m");
    assert_eq!(prefix(Style::new().fg(Color::Ansi256(200))), "\u{1b}[38;5;200m");
    assert_eq!(prefix(Style::new().bg(Color::Ansi256(255))), "\u{1b}[48;5;255m");
    assert_eq!(
        prefix(Style::new().fg(Color::Rgb { r: 255, g: 136, b: 0 })),
        "\u{1b}[38;2;255;136;0m"
    );
    assert_eq!(
        prefix(Style::new().bg(Color::Rgb { r: 0, g: 10, b: 99 })),
        "\u{1b}[48;2;0;10;99m"
    );
    assert_eq!(
        prefix(
            Style::new()
                .bold()
                .fg(Color::Rgb { r: 1, g: 22, b: 133 })
                .bg(Color::Ansi256(7))
        ),
        "\u{1b}[1;38;2;1;22;133;48;5;7m"
    );
}

#[test]
fn prefix_appends_to_existing_text() {
    let mut out = String::from("ab");
    Style::new().italic().write_ansi_prefix(&mut out);
    assert_eq!(out, "ab\u{1b}[3m");
}

#[test]
fn prefix_shape_of_non_empty_styles() {
    let styles = [
        Style::new().dim(),
        Style::new().fg(Color::Yellow),
        Style::new().bg(Color::Rgb { r: 4, g: 5, b: 6 }),
        Style::new().bold().underline().bg(Color::BrightGreen),
    ];
    for s in styles {
        let p = prefix(s);
        assert!(p.starts_with("\u{1b}["));
        assert!(p.ends_with('m'));
        assert!(p.len() >= 4);
    }
}

#[test]
fn numbered_colours_have_their_codes() {
    let expected = [
        (1u16, "30"),
        (2, "31"),
        (3, "32"),
        (4, "33"),
        (5, "34"),
        (6, "35"),
        (7, "36"),
        (8, "37"),
        (9, "90"),
        (10, "91"),
        (11, "92"),
        (12, "93"),
        (13, "94"),
        (14, "95"),
        (15, "96"),
        (16, "97"),
    ];
    for (v, code) in expected {
        let c = Color::from_u16(v);
        assert_ne!(c, Color::Unset);
        assert_eq!(prefix(Style::new().fg(c)), format!("\u{1b}[{}m", code));
    }
}
