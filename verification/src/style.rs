//! Text styles: four attribute flags and two colours, how styles merge,
//! and the ANSI SGR escape sequence that selects a style.
use vstd::prelude::*;
use crate::color::{color_of_u16, Color};
use crate::text::{decimal, digit_char, push_char, push_decimal};

verus! {

const BOLD: u16 = 0x1;

const ITALIC: u16 = 0x2;

const UNDERLINE: u16 = 0x4;

const DIM: u16 = 0x8;

/// A text style: bold, italic, underline and dim flags, a foreground and a
/// background colour.
#[derive(Clone, Copy, Debug, PartialEq, Eq, Structural)]
pub struct Style {
    attrs: u16,
    fg: Color,
    bg: Color,
}

/// What a style is: its four flags and its two colours.
pub struct StyleModel {
    pub bold: bool,
    pub italic: bool,
    pub underline: bool,
    pub dim: bool,
    pub fg: Color,
    pub bg: Color,
}

impl StyleModel {
    /// The style with no flag and no colour.
    pub open spec fn empty() -> StyleModel {
        StyleModel {
            bold: false,
            italic: false,
            underline: false,
            dim: false,
            fg: Color::Unset,
            bg: Color::Unset,
        }
    }

    /// Whether no flag and no colour is set.
    pub open spec fn is_empty(self) -> bool {
        self == StyleModel::empty()
    }

    /// The style with the flag, or the colour, set.
    pub open spec fn with_bold(self) -> StyleModel {
        StyleModel { bold: true, ..self }
    }

    pub open spec fn with_italic(self) -> StyleModel {
        StyleModel { italic: true, ..self }
    }

    pub open spec fn with_underline(self) -> StyleModel {
        StyleModel { underline: true, ..self }
    }

    pub open spec fn with_dim(self) -> StyleModel {
        StyleModel { dim: true, ..self }
    }

    pub open spec fn with_fg(self, c: Color) -> StyleModel {
        StyleModel { fg: c, ..self }
    }

    pub open spec fn with_bg(self, c: Color) -> StyleModel {
        StyleModel { bg: c, ..self }
    }

    /// `other` laid over `self`: each flag is set where either sets it, and
    /// each colour of `other` replaces that of `self` unless it is `Unset`.
    pub open spec fn merge(self, other: StyleModel) -> StyleModel {
        StyleModel {
            bold: self.bold || other.bold,
            italic: self.italic || other.italic,
            underline: self.underline || other.underline,
            dim: self.dim || other.dim,
            fg: if other.fg != Color::Unset {
                other.fg
            } else {
                self.fg
            },
            bg: if other.bg != Color::Unset {
                other.bg
            } else {
                self.bg
            },
        }
    }
}

/// The SGR code of a named colour as a foreground (30 to 37, 90 to 97);
/// none for `Unset`, palette and RGB colours.
pub open spec fn named_color_code(c: Color) -> Option<nat> {
    match c {
        Color::Black => Some(30),
        Color::Red => Some(31),
        Color::Green => Some(32),
        Color::Yellow => Some(33),
        Color::Blue => Some(34),
        Color::Magenta => Some(35),
        Color::Cyan => Some(36),
        Color::White => Some(37),
        Color::BrightBlack => Some(90),
        Color::BrightRed => Some(91),
        Color::BrightGreen => Some(92),
        Color::BrightYellow => Some(93),
        Color::BrightBlue => Some(94),
        Color::BrightMagenta => Some(95),
        Color::BrightCyan => Some(96),
        Color::BrightWhite => Some(97),
        _ => None,
    }
}

/// The SGR parameters that select colour `c` as the foreground, or as the
/// background: nothing for `Unset`; the named colour's code (plus ten for a
/// background); `38;5;i` / `48;5;i` for a palette index; `38;2;r;g;b` /
/// `48;2;r;g;b` for RGB.
#[verifier::opaque]
pub open spec fn color_params(c: Color, background: bool) -> Seq<Seq<char>> {
    let extended: nat = if background {
        48
    } else {
        38
    };
    match c {
        Color::Unset => seq![],
        Color::Ansi256(i) => seq![decimal(extended) + seq![';', '5', ';'] + decimal(i as nat)],
        Color::Rgb { r, g, b } => seq![
            decimal(extended) + seq![';', '2', ';'] + decimal(r as nat) + seq![';'] + decimal(
                g as nat,
            ) + seq![';'] + decimal(b as nat),
        ],
        _ => seq![
            decimal(
                named_color_code(c).unwrap() + if background {
                    10nat
                } else {
                    0nat
                },
            ),
        ],
    }
}

/// The SGR parameters of the flags, in the order bold (`1`), italic (`3`),
/// underline (`4`), dim (`2`).
pub open spec fn flag_params(m: StyleModel) -> Seq<Seq<char>> {
    (if m.bold {
        seq![seq!['1']]
    } else {
        seq![]
    }) + (if m.italic {
        seq![seq!['3']]
    } else {
        seq![]
    }) + (if m.underline {
        seq![seq!['4']]
    } else {
        seq![]
    }) + (if m.dim {
        seq![seq!['2']]
    } else {
        seq![]
    })
}

/// All SGR parameters of a style: flags, then foreground, then background.
pub open spec fn sgr_params(m: StyleModel) -> Seq<Seq<char>> {
    flag_params(m) + color_params(m.fg, false) + color_params(m.bg, true)
}

/// The parameters joined by `;`.
pub open spec fn join_params(ps: Seq<Seq<char>>) -> Seq<char>
    decreases ps.len(),
{
    if ps.len() == 0 {
        seq![]
    } else if ps.len() == 1 {
        ps[0]
    } else {
        join_params(ps.drop_last()) + seq![';'] + ps.last()
    }
}

/// The escape sequence that selects a style: nothing for the empty style,
/// else `ESC [`, the parameters joined by `;`, and `m`.
pub open spec fn ansi_prefix(m: StyleModel) -> Seq<char> {
    if m.is_empty() {
        seq![]
    } else {
        seq!['\u{1b}', '['] + join_params(sgr_params(m)) + seq!['m']
    }
}

/// What goes before the next parameter: nothing before the first, `;`
/// before any other.
pub open spec fn separator(first: bool) -> Seq<char> {
    if first {
        seq![]
    } else {
        seq![';']
    }
}

proof fn lemma_join_push(ps: Seq<Seq<char>>, p: Seq<char>)
    ensures
        join_params(ps.push(p)) == join_params(ps) + separator(ps.len() == 0) + p,
{
    assert(ps.push(p).drop_last() =~= ps);
    if ps.len() == 0 {
        assert(join_params(ps) + separator(true) + p =~= p);
    }
}

proof fn lemma_join_extend(ps: Seq<Seq<char>>, more: Seq<Seq<char>>)
    requires
        more.len() <= 1,
    ensures
        join_params(ps + more) == join_params(ps) + if more.len() == 1 {
            separator(ps.len() == 0) + more[0]
        } else {
            Seq::<char>::empty()
        },
{
    if more.len() == 1 {
        assert(ps + more =~= ps.push(more[0]));
        lemma_join_push(ps, more[0]);
    } else {
        assert(ps + more =~= ps);
        assert(join_params(ps) + Seq::<char>::empty() =~= join_params(ps));
    }
}

proof fn lemma_or_flag(a: u16)
    by (bit_vector)
    requires
        a < 16,
    ensures
        a | BOLD < 16,
        (a | BOLD) & BOLD != 0,
        (a | BOLD) & ITALIC == a & ITALIC,
        (a | BOLD) & UNDERLINE == a & UNDERLINE,
        (a | BOLD) & DIM == a & DIM,
        a | ITALIC < 16,
        (a | ITALIC) & ITALIC != 0,
        (a | ITALIC) & BOLD == a & BOLD,
        (a | ITALIC) & UNDERLINE == a & UNDERLINE,
        (a | ITALIC) & DIM == a & DIM,
        a | UNDERLINE < 16,
        (a | UNDERLINE) & UNDERLINE != 0,
        (a | UNDERLINE) & BOLD == a & BOLD,
        (a | UNDERLINE) & ITALIC == a & ITALIC,
        (a | UNDERLINE) & DIM == a & DIM,
        a | DIM < 16,
        (a | DIM) & DIM != 0,
        (a | DIM) & BOLD == a & BOLD,
        (a | DIM) & ITALIC == a & ITALIC,
        (a | DIM) & UNDERLINE == a & UNDERLINE,
{
}

proof fn lemma_or_attrs(a: u16, b: u16)
    by (bit_vector)
    requires
        a < 16,
        b < 16,
    ensures
        a | b < 16,
        ((a | b) & BOLD != 0) == ((a & BOLD != 0) || (b & BOLD != 0)),
        ((a | b) & ITALIC != 0) == ((a & ITALIC != 0) || (b & ITALIC != 0)),
        ((a | b) & UNDERLINE != 0) == ((a & UNDERLINE != 0) || (b & UNDERLINE != 0)),
        ((a | b) & DIM != 0) == ((a & DIM != 0) || (b & DIM != 0)),
{
}

proof fn lemma_attrs_zero(a: u16)
    by (bit_vector)
    requires
        a < 16,
    ensures
        (a == 0) == (a & BOLD == 0 && a & ITALIC == 0 && a & UNDERLINE == 0 && a & DIM == 0),
{
}

/// A style is empty exactly when no flag is set and both colours are
/// `Unset`.
pub proof fn lemma_empty_means_nothing_set(m: StyleModel)
    ensures
        m.is_empty() == (!m.bold && !m.italic && !m.underline && !m.dim && m.fg == Color::Unset
            && m.bg == Color::Unset),
{
}

/// Merging with the empty style, on either side, changes nothing.
pub proof fn lemma_merge_identity(m: StyleModel)
    ensures
        m.merge(StyleModel::empty()) == m,
        StyleModel::empty().merge(m) == m,
{
}

/// Merging is associative: laying `b` then `c` over `a` is laying
/// `b`-with-`c`-over-it over `a`.
pub proof fn lemma_merge_associative(a: StyleModel, b: StyleModel, c: StyleModel)
    ensures
        a.merge(b).merge(c) == a.merge(b.merge(c)),
{
}

/// Merging a style with itself gives the same style.
pub proof fn lemma_merge_idempotent(m: StyleModel)
    ensures
        m.merge(m) == m,
{
}

/// Setting a flag twice is setting it once, and flags can be set in any
/// order.
pub proof fn lemma_flags_idempotent_and_commute(m: StyleModel)
    ensures
        m.with_bold().with_bold() == m.with_bold(),
        m.with_italic().with_italic() == m.with_italic(),
        m.with_underline().with_underline() == m.with_underline(),
        m.with_dim().with_dim() == m.with_dim(),
        m.with_bold().with_italic() == m.with_italic().with_bold(),
        m.with_bold().with_underline() == m.with_underline().with_bold(),
        m.with_bold().with_dim() == m.with_dim().with_bold(),
        m.with_italic().with_underline() == m.with_underline().with_italic(),
        m.with_italic().with_dim() == m.with_dim().with_italic(),
        m.with_underline().with_dim() == m.with_dim().with_underline(),
{
}

/// Setting a flag or a colour is merging with the empty style that has just
/// that flag or colour (a colour other than `Unset`).
pub proof fn lemma_setters_are_merges(m: StyleModel, c: Color)
    ensures
        m.with_bold() == m.merge(StyleModel::empty().with_bold()),
        m.with_italic() == m.merge(StyleModel::empty().with_italic()),
        m.with_underline() == m.merge(StyleModel::empty().with_underline()),
        m.with_dim() == m.merge(StyleModel::empty().with_dim()),
        c != Color::Unset ==> m.with_fg(c) == m.merge(StyleModel::empty().with_fg(c)),
        c != Color::Unset ==> m.with_bg(c) == m.merge(StyleModel::empty().with_bg(c)),
{
}

/// The empty style selects nothing; any other style has at least one SGR
/// parameter, and its escape sequence starts with `ESC [` and ends with `m`.
pub proof fn lemma_ansi_prefix_shape(m: StyleModel)
    ensures
        m.is_empty() ==> ansi_prefix(m) == Seq::<char>::empty(),
        !m.is_empty() ==> {
            &&& sgr_params(m).len() > 0
            &&& ansi_prefix(m).len() >= 3
            &&& ansi_prefix(m)[0] == '\u{1b}'
            &&& ansi_prefix(m)[1] == '['
            &&& ansi_prefix(m).last() == 'm'
        },
{
    reveal(color_params);
    if !m.is_empty() {
        let f = flag_params(m);
        let fg = color_params(m.fg, false);
        let bg = color_params(m.bg, true);
        if !(m.bold || m.italic || m.underline || m.dim) {
            assert(f.len() == 0);
            if m.fg == Color::Unset {
                assert(m.bg != Color::Unset);
                assert(bg.len() == 1);
            } else {
                assert(fg.len() == 1);
            }
        } else {
            assert(f.len() > 0);
        }
        assert(sgr_params(m).len() > 0);
    }
}

/// The numbers `1` to `16` give the sixteen named colours, whose SGR
/// foreground codes are `30` to `37` for the first eight and `90` to `97`
/// for the bright ones; every other number gives `Unset`.
pub proof fn lemma_numbered_colors(v: u16)
    ensures
        (color_of_u16(v) != Color::Unset) == (1 <= v <= 16),
        named_color_code(color_of_u16(v)) == if 1 <= v <= 8 {
            Some((v + 29) as nat)
        } else if 9 <= v <= 16 {
            Some((v + 81) as nat)
        } else {
            None
        },
{
}

/// Setting one flag or one colour changes that field alone, whatever the
/// value set (`Unset` included).
pub proof fn lemma_setters_change_one_field(m: StyleModel, c: Color)
    ensures
        m.with_fg(c).fg == c && m.with_fg(c).bg == m.bg && m.with_fg(c).bold == m.bold
            && m.with_fg(c).italic == m.italic && m.with_fg(c).underline == m.underline
            && m.with_fg(c).dim == m.dim,
        m.with_bg(c).bg == c && m.with_bg(c).fg == m.fg && m.with_bg(c).bold == m.bold
            && m.with_bg(c).italic == m.italic && m.with_bg(c).underline == m.underline
            && m.with_bg(c).dim == m.dim,
        m.with_bold().bold && m.with_bold().italic == m.italic && m.with_bold().underline
            == m.underline && m.with_bold().dim == m.dim && m.with_bold().fg == m.fg
            && m.with_bold().bg == m.bg,
        m.with_italic().italic && m.with_italic().bold == m.bold && m.with_italic().underline
            == m.underline && m.with_italic().dim == m.dim && m.with_italic().fg == m.fg
            && m.with_italic().bg == m.bg,
        m.with_underline().underline && m.with_underline().bold == m.bold
            && m.with_underline().italic == m.italic && m.with_underline().dim == m.dim
            && m.with_underline().fg == m.fg && m.with_underline().bg == m.bg,
        m.with_dim().dim && m.with_dim().bold == m.bold && m.with_dim().italic == m.italic
            && m.with_dim().underline == m.underline && m.with_dim().fg == m.fg
            && m.with_dim().bg == m.bg,
{
}

/// The escape sequence of a style whose only parameter is `p`.
proof fn lemma_prefix_of_one_param(m: StyleModel, p: Seq<char>)
    requires
        !m.is_empty(),
        sgr_params(m) == seq![p],
    ensures
        ansi_prefix(m) == seq!['\u{1b}', '['] + p + seq!['m'],
{
}

proof fn lemma_prefix_of_named(c: Color)
    requires
        named_color_code(c) is Some,
    ensures
        ansi_prefix(StyleModel::empty().with_fg(c)) == seq!['\u{1b}', '['] + decimal(
            named_color_code(c).unwrap(),
        ) + seq!['m'],
        ansi_prefix(StyleModel::empty().with_bg(c)) == seq!['\u{1b}', '['] + decimal(
            named_color_code(c).unwrap() + 10,
        ) + seq!['m'],
{
    reveal(color_params);
    let f = StyleModel::empty().with_fg(c);
    let b = StyleModel::empty().with_bg(c);
    assert(sgr_params(f) =~= seq![decimal(named_color_code(c).unwrap())]);
    assert(sgr_params(b) =~= seq![decimal(named_color_code(c).unwrap() + 10)]);
    lemma_prefix_of_one_param(f, decimal(named_color_code(c).unwrap()));
    lemma_prefix_of_one_param(b, decimal(named_color_code(c).unwrap() + 10));
}

proof fn lemma_two_digits(n: nat)
    requires
        10 <= n < 100,
    ensures
        decimal(n) == seq![digit_char(n / 10), digit_char(n % 10)],
{
    assert(decimal(n / 10) == seq![digit_char(n / 10)]);
    assert(decimal(n) =~= seq![digit_char(n / 10), digit_char(n % 10)]);
}

proof fn lemma_three_digits(n: nat)
    requires
        100 <= n < 110,
    ensures
        decimal(n) == seq!['1', '0', digit_char(n % 10)],
{
    lemma_two_digits(n / 10);
    assert(decimal(n) =~= seq!['1', '0', digit_char(n % 10)]);
}

/// Palette colours are written `38;5;i` as a foreground and `48;5;i` as a
/// background, and RGB colours `38;2;r;g;b` and `48;2;r;g;b`, with the
/// numbers in decimal.
pub proof fn lemma_palette_and_rgb_sequences(i: u8, r: u8, g: u8, b: u8)
    ensures
        ansi_prefix(StyleModel::empty().with_fg(Color::Ansi256(i))) == seq![
            '\u{1b}', '[', '3', '8', ';', '5', ';',
        ] + decimal(i as nat) + seq!['m'],
        ansi_prefix(StyleModel::empty().with_bg(Color::Ansi256(i))) == seq![
            '\u{1b}', '[', '4', '8', ';', '5', ';',
        ] + decimal(i as nat) + seq!['m'],
        ansi_prefix(StyleModel::empty().with_fg(Color::Rgb { r, g, b })) == seq![
            '\u{1b}', '[', '3', '8', ';', '2', ';',
        ] + decimal(r as nat) + seq![';'] + decimal(g as nat) + seq![';'] + decimal(b as nat)
            + seq!['m'],
        ansi_prefix(StyleModel::empty().with_bg(Color::Rgb { r, g, b })) == seq![
            '\u{1b}', '[', '4', '8', ';', '2', ';',
        ] + decimal(r as nat) + seq![';'] + decimal(g as nat) + seq![';'] + decimal(b as nat)
            + seq!['m'],
{
    reveal(color_params);
    lemma_two_digits(38);
    lemma_two_digits(48);
    let e = StyleModel::empty();
    let p1 = decimal(38) + seq![';', '5', ';'] + decimal(i as nat);
    let p2 = decimal(48) + seq![';', '5', ';'] + decimal(i as nat);
    let p3 = decimal(38) + seq![';', '2', ';'] + decimal(r as nat) + seq![';'] + decimal(g as nat)
        + seq![';'] + decimal(b as nat);
    let p4 = decimal(48) + seq![';', '2', ';'] + decimal(r as nat) + seq![';'] + decimal(g as nat)
        + seq![';'] + decimal(b as nat);
    assert(sgr_params(e.with_fg(Color::Ansi256(i))) =~= seq![p1]);
    assert(sgr_params(e.with_bg(Color::Ansi256(i))) =~= seq![p2]);
    assert(sgr_params(e.with_fg(Color::Rgb { r, g, b })) =~= seq![p3]);
    assert(sgr_params(e.with_bg(Color::Rgb { r, g, b })) =~= seq![p4]);
    lemma_prefix_of_one_param(e.with_fg(Color::Ansi256(i)), p1);
    lemma_prefix_of_one_param(e.with_bg(Color::Ansi256(i)), p2);
    lemma_prefix_of_one_param(e.with_fg(Color::Rgb { r, g, b }), p3);
    lemma_prefix_of_one_param(e.with_bg(Color::Rgb { r, g, b }), p4);
    assert(ansi_prefix(e.with_fg(Color::Ansi256(i))) =~= seq![
        '\u{1b}', '[', '3', '8', ';', '5', ';',
    ] + decimal(i as nat) + seq!['m']);
    assert(ansi_prefix(e.with_bg(Color::Ansi256(i))) =~= seq![
        '\u{1b}', '[', '4', '8', ';', '5', ';',
    ] + decimal(i as nat) + seq!['m']);
    assert(ansi_prefix(e.with_fg(Color::Rgb { r, g, b })) =~= seq![
        '\u{1b}', '[', '3', '8', ';', '2', ';',
    ] + decimal(r as nat) + seq![';'] + decimal(g as nat) + seq![';'] + decimal(b as nat)
        + seq!['m']);
    assert(ansi_prefix(e.with_bg(Color::Rgb { r, g, b })) =~= seq![
        '\u{1b}', '[', '4', '8', ';', '2', ';',
    ] + decimal(r as nat) + seq![';'] + decimal(g as nat) + seq![';'] + decimal(b as nat)
        + seq!['m']);
}

/// Each flag alone is written as its code: bold `1`, italic `3`, underline
/// `4`, dim `2`.
pub proof fn lemma_flag_sequences()
    ensures
        ansi_prefix(StyleModel::empty().with_bold()) == seq!['\u{1b}', '[', '1', 'm'],
        ansi_prefix(StyleModel::empty().with_italic()) == seq!['\u{1b}', '[', '3', 'm'],
        ansi_prefix(StyleModel::empty().with_underline()) == seq!['\u{1b}', '[', '4', 'm'],
        ansi_prefix(StyleModel::empty().with_dim()) == seq!['\u{1b}', '[', '2', 'm'],
{
    reveal(color_params);
    let e = StyleModel::empty();
    assert(sgr_params(e.with_bold()) =~= seq![seq!['1']]);
    assert(sgr_params(e.with_italic()) =~= seq![seq!['3']]);
    assert(sgr_params(e.with_underline()) =~= seq![seq!['4']]);
    assert(sgr_params(e.with_dim()) =~= seq![seq!['2']]);
    lemma_prefix_of_one_param(e.with_bold(), seq!['1']);
    lemma_prefix_of_one_param(e.with_italic(), seq!['3']);
    lemma_prefix_of_one_param(e.with_underline(), seq!['4']);
    lemma_prefix_of_one_param(e.with_dim(), seq!['2']);
    assert(ansi_prefix(e.with_bold()) =~= seq!['\u{1b}', '[', '1', 'm']);
    assert(ansi_prefix(e.with_italic()) =~= seq!['\u{1b}', '[', '3', 'm']);
    assert(ansi_prefix(e.with_underline()) =~= seq!['\u{1b}', '[', '4', 'm']);
    assert(ansi_prefix(e.with_dim()) =~= seq!['\u{1b}', '[', '2', 'm']);
}

/// Parameters are separated by `;` and come in the order flags,
/// foreground, background: a dim style with palette colours `i` on `j` is
/// written `ESC [ 2 ; 38;5;i ; 48;5;j m`, and all four flags `ESC [ 1;3;4;2 m`.
pub proof fn lemma_parameter_order(i: u8, j: u8)
    ensures
        ansi_prefix(
            StyleModel::empty().with_fg(Color::Ansi256(i)).with_bg(Color::Ansi256(j)).with_dim(),
        ) == seq!['\u{1b}', '[', '2', ';', '3', '8', ';', '5', ';'] + decimal(i as nat) + seq![
            ';', '4', '8', ';', '5', ';',
        ] + decimal(j as nat) + seq!['m'],
        ansi_prefix(StyleModel::empty().with_bold().with_italic().with_underline().with_dim())
            == seq!['\u{1b}', '[', '1', ';', '3', ';', '4', ';', '2', 'm'],
{
    reveal(color_params);
    lemma_two_digits(38);
    lemma_two_digits(48);
    let m = StyleModel::empty().with_fg(Color::Ansi256(i)).with_bg(Color::Ansi256(j)).with_dim();
    let a = seq!['2'];
    let b = decimal(38) + seq![';', '5', ';'] + decimal(i as nat);
    let c = decimal(48) + seq![';', '5', ';'] + decimal(j as nat);
    assert(sgr_params(m) =~= seq![a, b, c]);
    lemma_join_push(seq![a], b);
    lemma_join_push(seq![a, b], c);
    assert(seq![a].push(b) =~= seq![a, b]);
    assert(seq![a, b].push(c) =~= seq![a, b, c]);
    assert(join_params(seq![a]) == a);
    assert(ansi_prefix(m) =~= seq!['\u{1b}', '[', '2', ';', '3', '8', ';', '5', ';'] + decimal(
        i as nat,
    ) + seq![';', '4', '8', ';', '5', ';'] + decimal(j as nat) + seq!['m']);
    let n = StyleModel::empty().with_bold().with_italic().with_underline().with_dim();
    let f1 = seq!['1'];
    let f3 = seq!['3'];
    let f4 = seq!['4'];
    let f2 = seq!['2'];
    assert(sgr_params(n) =~= seq![f1, f3, f4, f2]);
    lemma_join_push(seq![f1], f3);
    lemma_join_push(seq![f1, f3], f4);
    lemma_join_push(seq![f1, f3, f4], f2);
    assert(seq![f1].push(f3) =~= seq![f1, f3]);
    assert(seq![f1, f3].push(f4) =~= seq![f1, f3, f4]);
    assert(seq![f1, f3, f4].push(f2) =~= seq![f1, f3, f4, f2]);
    assert(join_params(seq![f1]) == f1);
    assert(ansi_prefix(n) =~= seq!['\u{1b}', '[', '1', ';', '3', ';', '4', ';', '2', 'm']);
}

proof fn lemma_named_prefix_two_digits(c: Color, background: bool, d1: nat, d2: nat)
    requires
        named_color_code(c) is Some,
        d1 < 10,
        d2 < 10,
        named_color_code(c).unwrap() + (if background {
            10nat
        } else {
            0nat
        }) == d1 * 10 + d2,
        d1 > 0,
    ensures
        ansi_prefix(
            if background {
                StyleModel::empty().with_bg(c)
            } else {
                StyleModel::empty().with_fg(c)
            },
        ) == seq!['\u{1b}', '[', digit_char(d1), digit_char(d2), 'm'],
{
    lemma_prefix_of_named(c);
    lemma_two_digits(d1 * 10 + d2);
    assert((d1 * 10 + d2) / 10 == d1);
    assert((d1 * 10 + d2) % 10 == d2);
    assert(seq!['\u{1b}', '['] + seq![digit_char(d1), digit_char(d2)] + seq!['m'] =~= seq![
        '\u{1b}', '[', digit_char(d1), digit_char(d2), 'm'
    ]);
}

proof fn lemma_named_prefix_three_digits(c: Color, d3: nat)
    requires
        named_color_code(c) is Some,
        d3 < 10,
        named_color_code(c).unwrap() + 10 == 100 + d3,
    ensures
        ansi_prefix(StyleModel::empty().with_bg(c)) == seq![
            '\u{1b}', '[', '1', '0', digit_char(d3), 'm'
        ],
{
    lemma_prefix_of_named(c);
    lemma_three_digits(100 + d3);
    assert(seq!['\u{1b}', '['] + seq!['1', '0', digit_char(d3)] + seq!['m'] =~= seq![
        '\u{1b}', '[', '1', '0', digit_char(d3), 'm'
    ]);
}

/// The escape sequence of a style whose only setting is a plain named
/// foreground colour: SGR codes 30-37.
pub proof fn lemma_plain_fg_sequences()
    ensures
        ansi_prefix(StyleModel::empty().with_fg(Color::Black)) == seq!['\u{1b}', '[', '3', '0', 'm'],
        ansi_prefix(StyleModel::empty().with_fg(Color::Red)) == seq!['\u{1b}', '[', '3', '1', 'm'],
        ansi_prefix(StyleModel::empty().with_fg(Color::Green)) == seq!['\u{1b}', '[', '3', '2', 'm'],
        ansi_prefix(StyleModel::empty().with_fg(Color::Yellow)) == seq!['\u{1b}', '[', '3', '3', 'm'],
        ansi_prefix(StyleModel::empty().with_fg(Color::Blue)) == seq!['\u{1b}', '[', '3', '4', 'm'],
        ansi_prefix(StyleModel::empty().with_fg(Color::Magenta)) == seq!['\u{1b}', '[', '3', '5', 'm'],
        ansi_prefix(StyleModel::empty().with_fg(Color::Cyan)) == seq!['\u{1b}', '[', '3', '6', 'm'],
        ansi_prefix(StyleModel::empty().with_fg(Color::White)) == seq!['\u{1b}', '[', '3', '7', 'm'],
{
    assert(ansi_prefix(StyleModel::empty().with_fg(Color::Black)) == seq!['\u{1b}', '[', '3', '0', 'm']) by {
        lemma_named_prefix_two_digits(Color::Black, false, 3, 0);
    }
    assert(ansi_prefix(StyleModel::empty().with_fg(Color::Red)) == seq!['\u{1b}', '[', '3', '1', 'm']) by {
        lemma_named_prefix_two_digits(Color::Red, false, 3, 1);
    }
    assert(ansi_prefix(StyleModel::empty().with_fg(Color::Green)) == seq!['\u{1b}', '[', '3', '2', 'm']) by {
        lemma_named_prefix_two_digits(Color::Green, false, 3, 2);
    }
    assert(ansi_prefix(StyleModel::empty().with_fg(Color::Yellow)) == seq!['\u{1b}', '[', '3', '3', 'm']) by {
        lemma_named_prefix_two_digits(Color::Yellow, false, 3, 3);
    }
    assert(ansi_prefix(StyleModel::empty().with_fg(Color::Blue)) == seq!['\u{1b}', '[', '3', '4', 'm']) by {
        lemma_named_prefix_two_digits(Color::Blue, false, 3, 4);
    }
    assert(ansi_prefix(StyleModel::empty().with_fg(Color::Magenta)) == seq!['\u{1b}', '[', '3', '5', 'm']) by {
        lemma_named_prefix_two_digits(Color::Magenta, false, 3, 5);
    }
    assert(ansi_prefix(StyleModel::empty().with_fg(Color::Cyan)) == seq!['\u{1b}', '[', '3', '6', 'm']) by {
        lemma_named_prefix_two_digits(Color::Cyan, false, 3, 6);
    }
    assert(ansi_prefix(StyleModel::empty().with_fg(Color::White)) == seq!['\u{1b}', '[', '3', '7', 'm']) by {
        lemma_named_prefix_two_digits(Color::White, false, 3, 7);
    }
}

/// The escape sequence of a style whose only setting is a bright named
/// foreground colour: SGR codes 90-97.
pub proof fn lemma_bright_fg_sequences()
    ensures
        ansi_prefix(StyleModel::empty().with_fg(Color::BrightBlack)) == seq!['\u{1b}', '[', '9', '0', 'm'],
        ansi_prefix(StyleModel::empty().with_fg(Color::BrightRed)) == seq!['\u{1b}', '[', '9', '1', 'm'],
        ansi_prefix(StyleModel::empty().with_fg(Color::BrightGreen)) == seq!['\u{1b}', '[', '9', '2', 'm'],
        ansi_prefix(StyleModel::empty().with_fg(Color::BrightYellow)) == seq!['\u{1b}', '[', '9', '3', 'm'],
        ansi_prefix(StyleModel::empty().with_fg(Color::BrightBlue)) == seq!['\u{1b}', '[', '9', '4', 'm'],
        ansi_prefix(StyleModel::empty().with_fg(Color::BrightMagenta)) == seq!['\u{1b}', '[', '9', '5', 'm'],
        ansi_prefix(StyleModel::empty().with_fg(Color::BrightCyan)) == seq!['\u{1b}', '[', '9', '6', 'm'],
        ansi_prefix(StyleModel::empty().with_fg(Color::BrightWhite)) == seq!['\u{1b}', '[', '9', '7', 'm'],
{
    assert(ansi_prefix(StyleModel::empty().with_fg(Color::BrightBlack)) == seq!['\u{1b}', '[', '9', '0', 'm']) by {
        lemma_named_prefix_two_digits(Color::BrightBlack, false, 9, 0);
    }
    assert(ansi_prefix(StyleModel::empty().with_fg(Color::BrightRed)) == seq!['\u{1b}', '[', '9', '1', 'm']) by {
        lemma_named_prefix_two_digits(Color::BrightRed, false, 9, 1);
    }
    assert(ansi_prefix(StyleModel::empty().with_fg(Color::BrightGreen)) == seq!['\u{1b}', '[', '9', '2', 'm']) by {
        lemma_named_prefix_two_digits(Color::BrightGreen, false, 9, 2);
    }
    assert(ansi_prefix(StyleModel::empty().with_fg(Color::BrightYellow)) == seq!['\u{1b}', '[', '9', '3', 'm']) by {
        lemma_named_prefix_two_digits(Color::BrightYellow, false, 9, 3);
    }
    assert(ansi_prefix(StyleModel::empty().with_fg(Color::BrightBlue)) == seq!['\u{1b}', '[', '9', '4', 'm']) by {
        lemma_named_prefix_two_digits(Color::BrightBlue, false, 9, 4);
    }
    assert(ansi_prefix(StyleModel::empty().with_fg(Color::BrightMagenta)) == seq!['\u{1b}', '[', '9', '5', 'm']) by {
        lemma_named_prefix_two_digits(Color::BrightMagenta, false, 9, 5);
    }
    assert(ansi_prefix(StyleModel::empty().with_fg(Color::BrightCyan)) == seq!['\u{1b}', '[', '9', '6', 'm']) by {
        lemma_named_prefix_two_digits(Color::BrightCyan, false, 9, 6);
    }
    assert(ansi_prefix(StyleModel::empty().with_fg(Color::BrightWhite)) == seq!['\u{1b}', '[', '9', '7', 'm']) by {
        lemma_named_prefix_two_digits(Color::BrightWhite, false, 9, 7);
    }
}

/// The escape sequence of a style whose only setting is a plain named
/// background colour: SGR codes 40-47.
pub proof fn lemma_plain_bg_sequences()
    ensures
        ansi_prefix(StyleModel::empty().with_bg(Color::Black)) == seq!['\u{1b}', '[', '4', '0', 'm'],
        ansi_prefix(StyleModel::empty().with_bg(Color::Red)) == seq!['\u{1b}', '[', '4', '1', 'm'],
        ansi_prefix(StyleModel::empty().with_bg(Color::Green)) == seq!['\u{1b}', '[', '4', '2', 'm'],
        ansi_prefix(StyleModel::empty().with_bg(Color::Yellow)) == seq!['\u{1b}', '[', '4', '3', 'm'],
        ansi_prefix(StyleModel::empty().with_bg(Color::Blue)) == seq!['\u{1b}', '[', '4', '4', 'm'],
        ansi_prefix(StyleModel::empty().with_bg(Color::Magenta)) == seq!['\u{1b}', '[', '4', '5', 'm'],
        ansi_prefix(StyleModel::empty().with_bg(Color::Cyan)) == seq!['\u{1b}', '[', '4', '6', 'm'],
        ansi_prefix(StyleModel::empty().with_bg(Color::White)) == seq!['\u{1b}', '[', '4', '7', 'm'],
{
    assert(ansi_prefix(StyleModel::empty().with_bg(Color::Black)) == seq!['\u{1b}', '[', '4', '0', 'm']) by {
        lemma_named_prefix_two_digits(Color::Black, true, 4, 0);
    }
    assert(ansi_prefix(StyleModel::empty().with_bg(Color::Red)) == seq!['\u{1b}', '[', '4', '1', 'm']) by {
        lemma_named_prefix_two_digits(Color::Red, true, 4, 1);
    }
    assert(ansi_prefix(StyleModel::empty().with_bg(Color::Green)) == seq!['\u{1b}', '[', '4', '2', 'm']) by {
        lemma_named_prefix_two_digits(Color::Green, true, 4, 2);
    }
    assert(ansi_prefix(StyleModel::empty().with_bg(Color::Yellow)) == seq!['\u{1b}', '[', '4', '3', 'm']) by {
        lemma_named_prefix_two_digits(Color::Yellow, true, 4, 3);
    }
    assert(ansi_prefix(StyleModel::empty().with_bg(Color::Blue)) == seq!['\u{1b}', '[', '4', '4', 'm']) by {
        lemma_named_prefix_two_digits(Color::Blue, true, 4, 4);
    }
    assert(ansi_prefix(StyleModel::empty().with_bg(Color::Magenta)) == seq!['\u{1b}', '[', '4', '5', 'm']) by {
        lemma_named_prefix_two_digits(Color::Magenta, true, 4, 5);
    }
    assert(ansi_prefix(StyleModel::empty().with_bg(Color::Cyan)) == seq!['\u{1b}', '[', '4', '6', 'm']) by {
        lemma_named_prefix_two_digits(Color::Cyan, true, 4, 6);
    }
    assert(ansi_prefix(StyleModel::empty().with_bg(Color::White)) == seq!['\u{1b}', '[', '4', '7', 'm']) by {
        lemma_named_prefix_two_digits(Color::White, true, 4, 7);
    }
}

/// The escape sequence of a style whose only setting is a bright named
/// background colour: SGR codes 100-107.
pub proof fn lemma_bright_bg_sequences()
    ensures
        ansi_prefix(StyleModel::empty().with_bg(Color::BrightBlack)) == seq!['\u{1b}', '[', '1', '0', '0', 'm'],
        ansi_prefix(StyleModel::empty().with_bg(Color::BrightRed)) == seq!['\u{1b}', '[', '1', '0', '1', 'm'],
        ansi_prefix(StyleModel::empty().with_bg(Color::BrightGreen)) == seq!['\u{1b}', '[', '1', '0', '2', 'm'],
        ansi_prefix(StyleModel::empty().with_bg(Color::BrightYellow)) == seq!['\u{1b}', '[', '1', '0', '3', 'm'],
        ansi_prefix(StyleModel::empty().with_bg(Color::BrightBlue)) == seq!['\u{1b}', '[', '1', '0', '4', 'm'],
        ansi_prefix(StyleModel::empty().with_bg(Color::BrightMagenta)) == seq!['\u{1b}', '[', '1', '0', '5', 'm'],
        ansi_prefix(StyleModel::empty().with_bg(Color::BrightCyan)) == seq!['\u{1b}', '[', '1', '0', '6', 'm'],
        ansi_prefix(StyleModel::empty().with_bg(Color::BrightWhite)) == seq!['\u{1b}', '[', '1', '0', '7', 'm'],
{
    assert(ansi_prefix(StyleModel::empty().with_bg(Color::BrightBlack)) == seq!['\u{1b}', '[', '1', '0', '0', 'm']) by {
        lemma_named_prefix_three_digits(Color::BrightBlack, 0);
    }
    assert(ansi_prefix(StyleModel::empty().with_bg(Color::BrightRed)) == seq!['\u{1b}', '[', '1', '0', '1', 'm']) by {
        lemma_named_prefix_three_digits(Color::BrightRed, 1);
    }
    assert(ansi_prefix(StyleModel::empty().with_bg(Color::BrightGreen)) == seq!['\u{1b}', '[', '1', '0', '2', 'm']) by {
        lemma_named_prefix_three_digits(Color::BrightGreen, 2);
    }
    assert(ansi_prefix(StyleModel::empty().with_bg(Color::BrightYellow)) == seq!['\u{1b}', '[', '1', '0', '3', 'm']) by {
        lemma_named_prefix_three_digits(Color::BrightYellow, 3);
    }
    assert(ansi_prefix(StyleModel::empty().with_bg(Color::BrightBlue)) == seq!['\u{1b}', '[', '1', '0', '4', 'm']) by {
        lemma_named_prefix_three_digits(Color::BrightBlue, 4);
    }
    assert(ansi_prefix(StyleModel::empty().with_bg(Color::BrightMagenta)) == seq!['\u{1b}', '[', '1', '0', '5', 'm']) by {
        lemma_named_prefix_three_digits(Color::BrightMagenta, 5);
    }
    assert(ansi_prefix(StyleModel::empty().with_bg(Color::BrightCyan)) == seq!['\u{1b}', '[', '1', '0', '6', 'm']) by {
        lemma_named_prefix_three_digits(Color::BrightCyan, 6);
    }
    assert(ansi_prefix(StyleModel::empty().with_bg(Color::BrightWhite)) == seq!['\u{1b}', '[', '1', '0', '7', 'm']) by {
        lemma_named_prefix_three_digits(Color::BrightWhite, 7);
    }
}

impl Style {
    /// Only the four flag bits are ever set.
    #[verifier::type_invariant]
    spec fn only_known_flags(self) -> bool {
        self.attrs < 16
    }

    /// The flags and colours of this style.
    pub closed spec fn model(self) -> StyleModel {
        StyleModel {
            bold: self.attrs & BOLD != 0,
            italic: self.attrs & ITALIC != 0,
            underline: self.attrs & UNDERLINE != 0,
            dim: self.attrs & DIM != 0,
            fg: self.fg,
            bg: self.bg,
        }
    }
}

impl View for Style {
    type V = StyleModel;

    open spec fn view(&self) -> StyleModel {
        self.model()
    }
}

impl Default for Style {
    fn default() -> (s: Self)
        ensures
            s@ == StyleModel::empty(),
    {
        Self::new()
    }
}

impl Style {
    /// The empty style: no flag, no colour.
    pub fn new() -> (s: Style)
        ensures
            s@ == StyleModel::empty(),
    {
        proof {
            lemma_attrs_zero(0);
        }
        Style { attrs: 0, fg: Color::Unset, bg: Color::Unset }
    }

    /// This style, bold.
    pub fn bold(self) -> (s: Style)
        ensures
            s@ == self@.with_bold(),
    {
        proof {
            use_type_invariant(&self);
            lemma_or_flag(self.attrs);
        }
        Style { attrs: self.attrs | BOLD, ..self }
    }

    /// This style, italic.
    pub fn italic(self) -> (s: Style)
        ensures
            s@ == self@.with_italic(),
    {
        proof {
            use_type_invariant(&self);
            lemma_or_flag(self.attrs);
        }
        Style { attrs: self.attrs | ITALIC, ..self }
    }

    /// This style, underlined.
    pub fn underline(self) -> (s: Style)
        ensures
            s@ == self@.with_underline(),
    {
        proof {
            use_type_invariant(&self);
            lemma_or_flag(self.attrs);
        }
        Style { attrs: self.attrs | UNDERLINE, ..self }
    }

    /// This style, dim.
    pub fn dim(self) -> (s: Style)
        ensures
            s@ == self@.with_dim(),
    {
        proof {
            use_type_invariant(&self);
            lemma_or_flag(self.attrs);
        }
        Style { attrs: self.attrs | DIM, ..self }
    }

    /// This style with foreground `color`.
    pub fn fg(self, color: Color) -> (s: Style)
        ensures
            s@ == self@.with_fg(color),
    {
        proof {
            use_type_invariant(&self);
        }
        Style { fg: color, ..self }
    }

    /// This style with background `color`.
    pub fn bg(self, color: Color) -> (s: Style)
        ensures
            s@ == self@.with_bg(color),
    {
        proof {
            use_type_invariant(&self);
        }
        Style { bg: color, ..self }
    }

    pub fn is_bold(self) -> (r: bool)
        ensures
            r == self@.bold,
    {
        self.attrs & BOLD != 0
    }

    pub fn is_italic(self) -> (r: bool)
        ensures
            r == self@.italic,
    {
        self.attrs & ITALIC != 0
    }

    pub fn is_underline(self) -> (r: bool)
        ensures
            r == self@.underline,
    {
        self.attrs & UNDERLINE != 0
    }

    pub fn is_dim(self) -> (r: bool)
        ensures
            r == self@.dim,
    {
        self.attrs & DIM != 0
    }

    pub fn fg_color(self) -> (c: Color)
        ensures
            c == self@.fg,
    {
        self.fg
    }

    pub fn bg_color(self) -> (c: Color)
        ensures
            c == self@.bg,
    {
        self.bg
    }

    /// `other` laid over this style: the flags of both, and each colour of
    /// `other` that is not `Unset` in place of this style's.
    pub fn merge(self, other: Style) -> (s: Style)
        ensures
            s@ == self@.merge(other@),
    {
        proof {
            use_type_invariant(&self);
            use_type_invariant(&other);
            lemma_or_attrs(self.attrs, other.attrs);
        }
        let fg = if other.fg != Color::Unset {
            other.fg
        } else {
            self.fg
        };
        let bg = if other.bg != Color::Unset {
            other.bg
        } else {
            self.bg
        };
        Style { attrs: self.attrs | other.attrs, fg, bg }
    }

    /// Whether this style has no flag and no colour.
    pub fn is_empty(self) -> (r: bool)
        ensures
            r == self@.is_empty(),
    {
        proof {
            use_type_invariant(&self);
            lemma_attrs_zero(self.attrs);
        }
        self.attrs == 0 && self.fg == Color::Unset && self.bg == Color::Unset
    }
    /// Appends to `f` the escape sequence that selects this style: nothing
    /// for the empty style, else `ESC [`, the SGR parameters of the flags
    /// (bold `1`, italic `3`, underline `4`, dim `2`), of the foreground and
    /// of the background, joined by `;`, and `m`.
    pub fn write_ansi_prefix(&self, f: &mut String)
        ensures
            final(f)@ == old(f)@ + ansi_prefix(self@),
    {
        if self.is_empty() {
            assert(f@ =~= old(f)@ + ansi_prefix(self@));
            return;
        }
        push_char(f, '\u{1b}');
        push_char(f, '[');
        self.write_sgr_params(f);
        push_char(f, 'm');
        assert(ansi_prefix(self@) == seq!['\u{1b}', '['] + join_params(sgr_params(self@)) + seq![
            'm',
        ]);
        assert(f@ =~= old(f)@ + ansi_prefix(self@));
    }

    /// Appends to `f` the SGR parameters of this style, joined by `;`.
    fn write_sgr_params(&self, f: &mut String)
        ensures
            final(f)@ == old(f)@ + join_params(sgr_params(self@)),
    {
        let ghost fp = flag_params(self@);
        let ghost fgp = color_params(self@.fg, false);
        let ghost bgp = color_params(self@.bg, true);
        let mut first = self.write_flags(f);
        Self::write_color_code(f, &mut first, self.fg_color(), false);
        proof {
            lemma_join_extend(fp, fgp);
        }
        assert(f@ =~= old(f)@ + join_params(fp + fgp));
        assert(first == ((fp + fgp).len() == 0));
        Self::write_color_code(f, &mut first, self.bg_color(), true);
        proof {
            lemma_join_extend(fp + fgp, bgp);
        }
        assert(f@ =~= old(f)@ + join_params(fp + fgp + bgp));
    }

    /// Appends to `f` the SGR parameters of the flags, joined by `;`;
    /// returns whether there was none.
    fn write_flags(&self, f: &mut String) -> (first: bool)
        ensures
            final(f)@ == old(f)@ + join_params(flag_params(self@)),
            first == (flag_params(self@).len() == 0),
    {
        let ghost start = f@;
        let ghost mut ps: Seq<Seq<char>> = seq![];
        let mut first = true;
        assert(f@ =~= start + join_params(ps));
        if self.is_bold() {
            Self::write_color_code_value(f, &mut first, 1);
            proof {
                assert(decimal(1) =~= seq!['1']);
                lemma_join_push(ps, seq!['1']);
                ps = ps.push(seq!['1']);
            }
        }
        assert(f@ == start + join_params(ps) && first == (ps.len() == 0));
        let ghost ps_bold = ps;
        if self.is_italic() {
            Self::write_color_code_value(f, &mut first, 3);
            proof {
                assert(decimal(3) =~= seq!['3']);
                lemma_join_push(ps, seq!['3']);
                ps = ps.push(seq!['3']);
            }
        }
        assert(f@ == start + join_params(ps) && first == (ps.len() == 0));
        let ghost ps_italic = ps;
        if self.is_underline() {
            Self::write_color_code_value(f, &mut first, 4);
            proof {
                assert(decimal(4) =~= seq!['4']);
                lemma_join_push(ps, seq!['4']);
                ps = ps.push(seq!['4']);
            }
        }
        assert(f@ == start + join_params(ps) && first == (ps.len() == 0));
        let ghost ps_underline = ps;
        if self.is_dim() {
            Self::write_color_code_value(f, &mut first, 2);
            proof {
                assert(decimal(2) =~= seq!['2']);
                lemma_join_push(ps, seq!['2']);
                ps = ps.push(seq!['2']);
            }
        }
        assert(f@ == start + join_params(ps) && first == (ps.len() == 0));
        proof {
            let m = self@;
            assert(ps_bold =~= if m.bold {
                seq![seq!['1']]
            } else {
                seq![]
            });
            assert(ps_italic =~= ps_bold + if m.italic {
                seq![seq!['3']]
            } else {
                seq![]
            });
            assert(ps_underline =~= ps_italic + if m.underline {
                seq![seq!['4']]
            } else {
                seq![]
            });
            assert(ps =~= ps_underline + if m.dim {
                seq![seq!['2']]
            } else {
                seq![]
            });
            assert(ps =~= flag_params(m));
        }
        assert(f@ =~= old(f)@ + join_params(flag_params(self@)));
        first
    }

    /// Appends to `f` the SGR parameters that select `color` as the
    /// foreground, or as the background.
    fn write_color_code(f: &mut String, first: &mut bool, color: Color, is_background: bool)
        ensures
            color_params(color, is_background).len() <= 1,
            color_params(color, is_background).len() == 0 ==> final(f)@ == old(f)@
                && *final(first) == *old(first),
            color_params(color, is_background).len() == 1 ==> final(f)@ == old(f)@
                + separator(*old(first)) + color_params(color, is_background)[0]
                && !*final(first),
    {
        reveal(color_params);
        match color {
            Color::Unset => {},
            Color::Black => Self::write_color_code_value(f, first, if is_background { 40 } else { 30 }),
            Color::Red => Self::write_color_code_value(f, first, if is_background { 41 } else { 31 }),
            Color::Green => Self::write_color_code_value(f, first, if is_background { 42 } else { 32 }),
            Color::Yellow => Self::write_color_code_value(f, first, if is_background { 43 } else { 33 }),
            Color::Blue => Self::write_color_code_value(f, first, if is_background { 44 } else { 34 }),
            Color::Magenta => Self::write_color_code_value(f, first, if is_background { 45 } else { 35 }),
            Color::Cyan => Self::write_color_code_value(f, first, if is_background { 46 } else { 36 }),
            Color::White => Self::write_color_code_value(f, first, if is_background { 47 } else { 37 }),
            Color::BrightBlack => Self::write_color_code_value(f, first, if is_background { 100 } else { 90 }),
            Color::BrightRed => Self::write_color_code_value(f, first, if is_background { 101 } else { 91 }),
            Color::BrightGreen => Self::write_color_code_value(f, first, if is_background { 102 } else { 92 }),
            Color::BrightYellow => Self::write_color_code_value(f, first, if is_background { 103 } else { 93 }),
            Color::BrightBlue => Self::write_color_code_value(f, first, if is_background { 104 } else { 94 }),
            Color::BrightMagenta => Self::write_color_code_value(f, first, if is_background { 105 } else { 95 }),
            Color::BrightCyan => Self::write_color_code_value(f, first, if is_background { 106 } else { 96 }),
            Color::BrightWhite => Self::write_color_code_value(f, first, if is_background { 107 } else { 97 }),
            Color::Ansi256(index) => {
                if !*first {
                    push_char(f, ';');
                }
                push_decimal(f, if is_background { 48 } else { 38 });
                push_char(f, ';');
                push_char(f, '5');
                push_char(f, ';');
                push_decimal(f, index as u32);
                *first = false;
                assert(f@ =~= old(f)@ + separator(*old(first)) + color_params(color, is_background)[0]);
            },
            Color::Rgb { r, g, b } => {
                if !*first {
                    push_char(f, ';');
                }
                push_decimal(f, if is_background { 48 } else { 38 });
                push_char(f, ';');
                push_char(f, '2');
                push_char(f, ';');
                push_decimal(f, r as u32);
                push_char(f, ';');
                push_decimal(f, g as u32);
                push_char(f, ';');
                push_decimal(f, b as u32);
                *first = false;
                assert(f@ =~= old(f)@ + separator(*old(first)) + color_params(color, is_background)[0]);
            },
        }
    }

    /// Appends to `f` the SGR parameter `code`, after a `;` unless it is the
    /// first.
    fn write_color_code_value(f: &mut String, first: &mut bool, code: u16)
        ensures
            final(f)@ == old(f)@ + separator(*old(first)) + decimal(code as nat),
            !*final(first),
    {
        if !*first {
            push_char(f, ';');
        }
        push_decimal(f, code as u32);
        *first = false;
        assert(f@ =~= old(f)@ + separator(*old(first)) + decimal(code as nat));
    }
}

} // verus!
