//! Colours, and the parsers that read them from numbers, names and hex
//! strings.
use vstd::prelude::*;
use vstd::string::*;
use crate::text::{
    ascii_lower, ascii_lower_seq, lemma_ascii_lower_idempotent, lemma_trim_drops_end_whitespace, lemma_trim_idempotent,
    is_unicode_whitespace, to_ascii_lower, trim, trim_str,
};

verus! {

/// A terminal colour: `Unset` (no colour), one of the sixteen named ANSI colours, an
/// index into the 256-colour palette, or a 24-bit RGB colour.
#[derive(Clone, Copy, Debug, PartialEq, Eq, Structural)]
pub enum Color {
    Unset,
    Black,
    Red,
    Green,
    Yellow,
    Blue,
    Magenta,
    Cyan,
    White,
    BrightBlack,
    BrightRed,
    BrightGreen,
    BrightYellow,
    BrightBlue,
    BrightMagenta,
    BrightCyan,
    BrightWhite,
    Ansi256(u8),
    Rgb { r: u8, g: u8, b: u8 },
}

/// The colour numbered `v` in the order of the named colours (`1` is black,
/// `16` is bright white); every other number is `Unset`.
pub open spec fn color_of_u16(v: u16) -> Color {
    if v == 1 {
        Color::Black
    } else if v == 2 {
        Color::Red
    } else if v == 3 {
        Color::Green
    } else if v == 4 {
        Color::Yellow
    } else if v == 5 {
        Color::Blue
    } else if v == 6 {
        Color::Magenta
    } else if v == 7 {
        Color::Cyan
    } else if v == 8 {
        Color::White
    } else if v == 9 {
        Color::BrightBlack
    } else if v == 10 {
        Color::BrightRed
    } else if v == 11 {
        Color::BrightGreen
    } else if v == 12 {
        Color::BrightYellow
    } else if v == 13 {
        Color::BrightBlue
    } else if v == 14 {
        Color::BrightMagenta
    } else if v == 15 {
        Color::BrightCyan
    } else if v == 16 {
        Color::BrightWhite
    } else {
        Color::Unset
    }
}

/// The value of a hex digit (either case), or none for any other character.
pub open spec fn hex_digit_value(c: char) -> Option<nat> {
    if '0' <= c && c <= '9' {
        Some((c as nat - 48) as nat)
    } else if 'a' <= c && c <= 'f' {
        Some((c as nat - 87) as nat)
    } else if 'A' <= c && c <= 'F' {
        Some((c as nat - 55) as nat)
    } else {
        None
    }
}

/// Every character of `d` is a hex digit.
pub open spec fn all_hex(d: Seq<char>) -> bool {
    forall|i: int| 0 <= i < d.len() ==> (#[trigger] hex_digit_value(d[i])) is Some
}

/// The number that the hex digits `d` spell, most significant first.
pub open spec fn hex_value(d: Seq<char>) -> nat
    decreases d.len(),
{
    if d.len() == 0 {
        0
    } else {
        hex_value(d.drop_last()) * 16 + hex_digit_value(d.last()).unwrap_or(0)
    }
}

/// What `u32::from_str_radix(s, 16)` returns: one optional leading `+`,
/// then at least one hex digit and nothing else, with a value that fits in
/// a `u32`.
pub open spec fn parse_hex_u32(s: Seq<char>) -> Option<u32> {
    let digits = if s.len() > 0 && s[0] == '+' {
        s.drop_first()
    } else {
        s
    };
    if digits.len() > 0 && all_hex(digits) && hex_value(digits) <= u32::MAX {
        Some(hex_value(digits) as u32)
    } else {
        None
    }
}

/// `s` without one leading `#`.
pub open spec fn strip_hash(s: Seq<char>) -> Seq<char> {
    if s.len() > 0 && s[0] == '#' {
        s.drop_first()
    } else {
        s
    }
}

/// Every character of `v` written twice in a row (`abc` gives `aabbcc`).
pub open spec fn doubled(v: Seq<char>) -> Seq<char> {
    Seq::new(2 * v.len(), |i: int| v[i / 2])
}

/// The hex digits that a colour of three or four characters (short form,
/// each written twice) or of six or eight characters (long form) stands
/// for; none for any other length.
///
/// Lengths count characters. The parser being modelled counts bytes, but a
/// character outside ASCII is never a hex digit, so both readings reject
/// the same strings.
pub open spec fn hex_digits(v: Seq<char>) -> Option<Seq<char>> {
    if v.len() == 3 || v.len() == 4 {
        Some(doubled(v))
    } else if v.len() == 6 || v.len() == 8 {
        Some(v)
    } else {
        None
    }
}

/// The RGB colour that a number stands for: bits 16..24 red, 8..16 green,
/// 0..8 blue; higher bits are ignored.
pub open spec fn rgb_of(v: u32) -> Color {
    Color::Rgb { r: ((v >> 16) & 0xff) as u8, g: ((v >> 8) & 0xff) as u8, b: (v & 0xff) as u8 }
}

/// The colour that `s` writes as hex, with an optional leading `#`.
pub open spec fn color_of_hex(s: Seq<char>) -> Option<Color> {
    match hex_digits(strip_hash(s)) {
        Some(h) => match parse_hex_u32(h) {
            Some(v) => Some(rgb_of(v)),
            None => None,
        },
        None => None,
    }
}

/// The colour that the name `s` stands for, ignoring ASCII case.
pub open spec fn color_of_name(s: Seq<char>) -> Option<Color> {
    let n = ascii_lower_seq(s);
    if n == "none"@ {
        Some(Color::Unset)
    } else if n == "black"@ {
        Some(Color::Black)
    } else if n == "red"@ {
        Some(Color::Red)
    } else if n == "green"@ {
        Some(Color::Green)
    } else if n == "yellow"@ {
        Some(Color::Yellow)
    } else if n == "blue"@ {
        Some(Color::Blue)
    } else if n == "magenta"@ {
        Some(Color::Magenta)
    } else if n == "cyan"@ {
        Some(Color::Cyan)
    } else if n == "white"@ {
        Some(Color::White)
    } else if n == "brightblack"@ || n == "gray"@ || n == "grey"@ {
        Some(Color::BrightBlack)
    } else if n == "brightred"@ {
        Some(Color::BrightRed)
    } else if n == "brightgreen"@ {
        Some(Color::BrightGreen)
    } else if n == "brightyellow"@ {
        Some(Color::BrightYellow)
    } else if n == "brightblue"@ {
        Some(Color::BrightBlue)
    } else if n == "brightmagenta"@ {
        Some(Color::BrightMagenta)
    } else if n == "brightcyan"@ {
        Some(Color::BrightCyan)
    } else if n == "brightwhite"@ {
        Some(Color::BrightWhite)
    } else if n == "orange"@ {
        Some(Color::Rgb { r: 255, g: 165, b: 0 })
    } else if n == "purple"@ {
        Some(Color::Rgb { r: 128, g: 0, b: 128 })
    } else if n == "pink"@ {
        Some(Color::Rgb { r: 255, g: 105, b: 180 })
    } else if n == "brown"@ {
        Some(Color::Rgb { r: 165, g: 42, b: 42 })
    } else if n == "olive"@ {
        Some(Color::Rgb { r: 128, g: 128, b: 0 })
    } else if n == "teal"@ {
        Some(Color::Rgb { r: 0, g: 128, b: 128 })
    } else if n == "navy"@ {
        Some(Color::Rgb { r: 0, g: 0, b: 128 })
    } else if n == "maroon"@ {
        Some(Color::Rgb { r: 128, g: 0, b: 0 })
    } else if n == "silver"@ {
        Some(Color::Rgb { r: 192, g: 192, b: 192 })
    } else if n == "gold"@ {
        Some(Color::Rgb { r: 255, g: 215, b: 0 })
    } else {
        None
    }
}

/// The colour that `s` stands for once trimmed of surrounding whitespace:
/// a name first, else a hex colour.
pub open spec fn color_of_text(s: Seq<char>) -> Option<Color> {
    match color_of_name(trim(s)) {
        Some(c) => Some(c),
        None => color_of_hex(trim(s)),
    }
}

/// The message of the error for a string that names no colour.
pub open spec fn invalid_color_message(s: Seq<char>) -> Seq<char> {
    "invalid color name: "@ + s
}

/// The error of a colour parse, with its message.
#[derive(Debug)]
pub struct ParseError(pub String);

/// The hex value of a prefix of the digits is at most the value of all of
/// them.
proof fn lemma_hex_value_prefix(d: Seq<char>, k: int)
    requires
        0 <= k <= d.len(),
    ensures
        hex_value(d.subrange(0, k)) <= hex_value(d),
    decreases d.len(),
{
    if k < d.len() {
        assert(d.drop_last().subrange(0, k) =~= d.subrange(0, k));
        lemma_hex_value_prefix(d.drop_last(), k);
    } else {
        assert(d.subrange(0, k) =~= d);
    }
}

/// The value of a hex digit, or none for any other character.
fn hex_digit(c: char) -> (r: Option<u32>)
    ensures
        r matches Some(v) ==> hex_digit_value(c) == Some(v as nat) && v < 16,
        r is None ==> hex_digit_value(c) is None,
{
    if '0' <= c && c <= '9' {
        Some((c as u32) - 48)
    } else if 'a' <= c && c <= 'f' {
        Some((c as u32) - 87)
    } else if 'A' <= c && c <= 'F' {
        Some((c as u32) - 55)
    } else {
        None
    }
}

/// Reads `h` as a hex number, with the rules of `u32::from_str_radix`.
fn parse_hex(h: &Vec<char>) -> (r: Option<u32>)
    ensures
        r == parse_hex_u32(h@),
{
    let n = h.len();
    let start: usize = if n > 0 && h[0] == '+' {
        1
    } else {
        0
    };
    let ghost digits = if n > 0 && h@[0] == '+' {
        h@.drop_first()
    } else {
        h@
    };
    assert(digits =~= h@.subrange(start as int, n as int));
    assert(parse_hex_u32(h@) == if digits.len() > 0 && all_hex(digits) && hex_value(digits)
        <= u32::MAX {
        Some(hex_value(digits) as u32)
    } else {
        None::<u32>
    });
    if start == n {
        return None;
    }
    let mut acc: u64 = 0;
    let mut i: usize = start;
    assert(digits.subrange(0, 0) =~= Seq::<char>::empty());
    while i < n
        invariant
            start <= i <= n,
            n == h@.len(),
            digits =~= h@.subrange(start as int, n as int),
            parse_hex_u32(h@) == if digits.len() > 0 && all_hex(digits) && hex_value(digits)
                <= u32::MAX {
                Some(hex_value(digits) as u32)
            } else {
                None::<u32>
            },
            acc == hex_value(digits.subrange(0, i - start)),
            acc <= u32::MAX,
            forall|k: int| 0 <= k < i - start ==> (#[trigger] hex_digit_value(digits[k])) is Some,
        decreases n - i,
    {
        let d = hex_digit(h[i]);
        match d {
            Some(v) => {
                let ghost pre = digits.subrange(0, i - start);
                let ghost next = digits.subrange(0, i + 1 - start);
                assert(next.drop_last() =~= pre);
                assert(next.last() == h@[i as int]);
                acc = acc * 16 + (v as u64);
                if acc > 0xffff_ffff {
                    proof {
                        if all_hex(digits) {
                            lemma_hex_value_prefix(digits, i + 1 - start);
                        }
                    }
                    return None;
                }
            },
            None => {
                assert(hex_digit_value(digits[i - start]) is None);
                return None;
            },
        }
        i = i + 1;
    }
    assert(digits.subrange(0, n - start) =~= digits);
    Some(acc as u32)
}

/// Whether the ASCII lower-casing of `s` is `name`.
fn lower_eq(s: &Vec<char>, name: &str) -> (r: bool)
    requires
        s@ == ascii_lower_seq(s@),
    ensures
        r == (s@ == name@),
{
    let n = name.unicode_len();
    if s.len() != n {
        return false;
    }
    let mut i: usize = 0;
    while i < n
        invariant
            n == name@.len(),
            n == s@.len(),
            i <= n,
            forall|k: int| 0 <= k < i ==> s@[k] == name@[k],
        decreases n - i,
    {
        if s[i] != name.get_char(i) {
            return false;
        }
        i = i + 1;
    }
    assert(s@ =~= name@);
    true
}

/// The ASCII lower-casing of `s`, as characters.
fn lower_chars(s: &str) -> (r: Vec<char>)
    ensures
        r@ == ascii_lower_seq(s@),
{
    let n = s.unicode_len();
    let mut out: Vec<char> = Vec::new();
    let mut i: usize = 0;
    while i < n
        invariant
            n == s@.len(),
            i <= n,
            out@ =~= ascii_lower_seq(s@.subrange(0, i as int)),
        decreases n - i,
    {
        out.push(to_ascii_lower(s.get_char(i)));
        i = i + 1;
        assert(out@ =~= ascii_lower_seq(s@.subrange(0, i as int)));
    }
    assert(s@.subrange(0, n as int) =~= s@);
    out
}

impl Color {
    /// The colour numbered `v`: `1` to `16` are the named colours from black
    /// to bright white, in declaration order; every other number gives
    /// `Color::Unset`.
    pub fn from_u16(v: u16) -> (c: Color)
        ensures
            c == color_of_u16(v),
    {
        match v {
            1 => Color::Black,
            2 => Color::Red,
            3 => Color::Green,
            4 => Color::Yellow,
            5 => Color::Blue,
            6 => Color::Magenta,
            7 => Color::Cyan,
            8 => Color::White,
            9 => Color::BrightBlack,
            10 => Color::BrightRed,
            11 => Color::BrightGreen,
            12 => Color::BrightYellow,
            13 => Color::BrightBlue,
            14 => Color::BrightMagenta,
            15 => Color::BrightCyan,
            16 => Color::BrightWhite,
            _ => Color::Unset,
        }
    }

    /// Reads a hex colour: an optional `#`, then three, four, six or eight
    /// hex digits (`#abc` means `#aabbcc`). The digits form a number whose
    /// bits 16..24, 8..16 and 0..8 are red, green and blue.
    pub fn from_hex(s: &str) -> (c: Option<Color>)
        ensures
            c == color_of_hex(s@),
    {
        let n = s.unicode_len();
        let start: usize = if n > 0 && s.get_char(0) == '#' {
            1
        } else {
            0
        };
        let ghost v = strip_hash(s@);
        assert(v =~= s@.subrange(start as int, n as int));
        let len = n - start;
        let mut hex: Vec<char> = Vec::new();
        if len == 3 || len == 4 {
            let mut i: usize = start;
            while i < n
                invariant
                    start <= i <= n,
                    n == s@.len(),
                    v =~= s@.subrange(start as int, n as int),
                    hex@ =~= Seq::new((2 * (i - start)) as nat, |k: int| v[k / 2]),
                decreases n - i,
            {
                let c = s.get_char(i);
                hex.push(c);
                hex.push(c);
                i = i + 1;
                assert(hex@ =~= Seq::new((2 * (i - start)) as nat, |k: int| v[k / 2]));
            }
            assert(hex@ =~= doubled(v));
        } else if len == 6 || len == 8 {
            let mut i: usize = start;
            while i < n
                invariant
                    start <= i <= n,
                    n == s@.len(),
                    v =~= s@.subrange(start as int, n as int),
                    hex@ =~= v.subrange(0, i - start),
                decreases n - i,
            {
                hex.push(s.get_char(i));
                i = i + 1;
            }
            assert(hex@ =~= v);
        } else {
            return None;
        }
        match parse_hex(&hex) {
            Some(value) => Some(
                Color::Rgb {
                    r: ((value >> 16) & 0xff) as u8,
                    g: ((value >> 8) & 0xff) as u8,
                    b: (value & 0xff) as u8,
                },
            ),
            None => None,
        }
    }

    /// The colour named `s`, ignoring ASCII case: the sixteen named colours
    /// (`gray` and `grey` also name bright black), `none`, and a few RGB
    /// colours by name (orange, purple, pink, brown, olive, teal, navy,
    /// maroon, silver, gold).
    pub fn from_name(s: &str) -> (c: Option<Color>)
        ensures
            c == color_of_name(s@),
    {
        let n = lower_chars(s);
        proof {
            assert(ascii_lower_seq(n@) =~= n@);
        }
        if lower_eq(&n, "none") {
            Some(Color::Unset)
        } else if lower_eq(&n, "black") {
            Some(Color::Black)
        } else if lower_eq(&n, "red") {
            Some(Color::Red)
        } else if lower_eq(&n, "green") {
            Some(Color::Green)
        } else if lower_eq(&n, "yellow") {
            Some(Color::Yellow)
        } else if lower_eq(&n, "blue") {
            Some(Color::Blue)
        } else if lower_eq(&n, "magenta") {
            Some(Color::Magenta)
        } else if lower_eq(&n, "cyan") {
            Some(Color::Cyan)
        } else if lower_eq(&n, "white") {
            Some(Color::White)
        } else if lower_eq(&n, "brightblack") || lower_eq(&n, "gray") || lower_eq(&n, "grey") {
            Some(Color::BrightBlack)
        } else if lower_eq(&n, "brightred") {
            Some(Color::BrightRed)
        } else if lower_eq(&n, "brightgreen") {
            Some(Color::BrightGreen)
        } else if lower_eq(&n, "brightyellow") {
            Some(Color::BrightYellow)
        } else if lower_eq(&n, "brightblue") {
            Some(Color::BrightBlue)
        } else if lower_eq(&n, "brightmagenta") {
            Some(Color::BrightMagenta)
        } else if lower_eq(&n, "brightcyan") {
            Some(Color::BrightCyan)
        } else if lower_eq(&n, "brightwhite") {
            Some(Color::BrightWhite)
        } else if lower_eq(&n, "orange") {
            Some(Color::Rgb { r: 255, g: 165, b: 0 })
        } else if lower_eq(&n, "purple") {
            Some(Color::Rgb { r: 128, g: 0, b: 128 })
        } else if lower_eq(&n, "pink") {
            Some(Color::Rgb { r: 255, g: 105, b: 180 })
        } else if lower_eq(&n, "brown") {
            Some(Color::Rgb { r: 165, g: 42, b: 42 })
        } else if lower_eq(&n, "olive") {
            Some(Color::Rgb { r: 128, g: 128, b: 0 })
        } else if lower_eq(&n, "teal") {
            Some(Color::Rgb { r: 0, g: 128, b: 128 })
        } else if lower_eq(&n, "navy") {
            Some(Color::Rgb { r: 0, g: 0, b: 128 })
        } else if lower_eq(&n, "maroon") {
            Some(Color::Rgb { r: 128, g: 0, b: 0 })
        } else if lower_eq(&n, "silver") {
            Some(Color::Rgb { r: 192, g: 192, b: 192 })
        } else if lower_eq(&n, "gold") {
            Some(Color::Rgb { r: 255, g: 215, b: 0 })
        } else {
            None
        }
    }
}

/// Reads a colour from text: surrounding whitespace is ignored, then a
/// colour name is tried first and a hex colour second. Text that is
/// neither gives an error whose message quotes the text as it was given.
pub fn parse_color(s: &str) -> (r: Result<Color, ParseError>)
    ensures
        r matches Ok(c) ==> color_of_text(s@) == Some(c),
        r matches Err(e) ==> color_of_text(s@) is None && e.0@ == invalid_color_message(s@),
{
    let trimmed = trim_str(s);
    if let Some(color) = Color::from_name(trimmed) {
        return Ok(color);
    }
    if let Some(color) = Color::from_hex(trimmed) {
        return Ok(color);
    }
    let mut message = String::from_str("invalid color name: ");
    message.append(s);
    Err(ParseError(message))
}

/// The value of the two hex digits of `d` at `i` and `i + 1`.
pub open spec fn hex_pair(d: Seq<char>, i: int) -> nat {
    hex_digit_value(d[i]).unwrap_or(0) * 16 + hex_digit_value(d[i + 1]).unwrap_or(0)
}

proof fn lemma_hex_value_step(d: Seq<char>, k: int)
    requires
        0 <= k < d.len(),
    ensures
        hex_value(d.subrange(0, k + 1)) == hex_value(d.subrange(0, k)) * 16
            + hex_digit_value(d[k]).unwrap_or(0),
{
    assert(d.subrange(0, k + 1).drop_last() =~= d.subrange(0, k));
}

proof fn lemma_hex_value_prefixes(d: Seq<char>, n: int)
    requires
        0 <= n <= d.len(),
    ensures
        n >= 2 ==> hex_value(d.subrange(0, 2)) == hex_pair(d, 0),
        n >= 4 ==> hex_value(d.subrange(0, 4)) == hex_pair(d, 0) * 256 + hex_pair(d, 2),
        n >= 6 ==> hex_value(d.subrange(0, 6)) == (hex_pair(d, 0) * 256 + hex_pair(d, 2)) * 256
            + hex_pair(d, 4),
        n >= 8 ==> hex_value(d.subrange(0, 8)) == ((hex_pair(d, 0) * 256 + hex_pair(d, 2))
            * 256 + hex_pair(d, 4)) * 256 + hex_pair(d, 6),
{
    assert(d.subrange(0, 0) =~= Seq::<char>::empty());
    if n >= 2 {
        lemma_hex_value_step(d, 0);
        lemma_hex_value_step(d, 1);
    }
    if n >= 4 {
        lemma_hex_value_step(d, 2);
        lemma_hex_value_step(d, 3);
    }
    if n >= 6 {
        lemma_hex_value_step(d, 4);
        lemma_hex_value_step(d, 5);
    }
    if n >= 8 {
        lemma_hex_value_step(d, 6);
        lemma_hex_value_step(d, 7);
    }
}

proof fn lemma_rgb_bytes(v: u32, a: u32, r: u32, g: u32, b: u32)
    by (bit_vector)
    requires
        a < 256,
        r < 256,
        g < 256,
        b < 256,
        v == ((a * 256 + r) * 256 + g) * 256 + b,
    ensures
        (v >> 16) & 0xff == r,
        (v >> 8) & 0xff == g,
        v & 0xff == b,
{
}

/// Six hex digits are red, green and blue, two digits each.
pub proof fn lemma_hex_six_digits(v: Seq<char>)
    requires
        v.len() == 6,
        all_hex(v),
    ensures
        color_of_hex(v) == Some(
            Color::Rgb { r: hex_pair(v, 0) as u8, g: hex_pair(v, 2) as u8, b: hex_pair(v, 4) as u8 },
        ),
{
    assert(hex_digit_value(v[0]) is Some);
    assert(strip_hash(v) == v);
    lemma_hex_value_prefixes(v, 6);
    assert(v.subrange(0, 6) =~= v);
    let r = hex_pair(v, 0);
    let g = hex_pair(v, 2);
    let b = hex_pair(v, 4);
    assert(hex_digit_value(v[1]) is Some && hex_digit_value(v[2]) is Some && hex_digit_value(
        v[3],
    ) is Some && hex_digit_value(v[4]) is Some && hex_digit_value(v[5]) is Some);
    assert(r < 256 && g < 256 && b < 256);
    lemma_rgb_bytes(hex_value(v) as u32, 0, r as u32, g as u32, b as u32);
}

/// Of eight hex digits, the first two are ignored and the other six are
/// red, green and blue, two digits each.
pub proof fn lemma_hex_eight_digits(v: Seq<char>)
    requires
        v.len() == 8,
        all_hex(v),
    ensures
        color_of_hex(v) == Some(
            Color::Rgb { r: hex_pair(v, 2) as u8, g: hex_pair(v, 4) as u8, b: hex_pair(v, 6) as u8 },
        ),
{
    assert(hex_digit_value(v[0]) is Some);
    assert(strip_hash(v) == v);
    lemma_hex_value_prefixes(v, 8);
    assert(v.subrange(0, 8) =~= v);
    let a = hex_pair(v, 0);
    let r = hex_pair(v, 2);
    let g = hex_pair(v, 4);
    let b = hex_pair(v, 6);
    assert(hex_digit_value(v[1]) is Some && hex_digit_value(v[2]) is Some && hex_digit_value(
        v[3],
    ) is Some && hex_digit_value(v[4]) is Some && hex_digit_value(v[5]) is Some
        && hex_digit_value(v[6]) is Some && hex_digit_value(v[7]) is Some);
    assert(a < 256 && r < 256 && g < 256 && b < 256);
    lemma_rgb_bytes(hex_value(v) as u32, a as u32, r as u32, g as u32, b as u32);
}

/// A leading `#` is optional.
pub proof fn lemma_hex_hash_optional(v: Seq<char>)
    requires
        v.len() == 0 || v[0] != '#',
    ensures
        color_of_hex(seq!['#'] + v) == color_of_hex(v),
{
    assert((seq!['#'] + v).drop_first() =~= v);
}

/// The short form writes each digit once for two: `abc` is `aabbcc`, and
/// `abcd` is `aabbccdd`.
pub proof fn lemma_hex_short_form(v: Seq<char>)
    requires
        v.len() == 3 || v.len() == 4,
        v[0] != '#',
    ensures
        color_of_hex(v) == color_of_hex(doubled(v)),
{
    assert(doubled(v)[0] == v[0]);
}

/// A hex colour is always an RGB colour.
pub proof fn lemma_hex_is_rgb(s: Seq<char>)
    ensures
        color_of_hex(s) matches Some(c) ==> c is Rgb,
{
}

proof fn lemma_hex_digit_lower(c: char)
    ensures
        hex_digit_value(ascii_lower(c)) == hex_digit_value(c),
{
}

proof fn lemma_hex_value_lower(d: Seq<char>)
    ensures
        hex_value(ascii_lower_seq(d)) == hex_value(d),
        all_hex(ascii_lower_seq(d)) == all_hex(d),
    decreases d.len(),
{
    let l = ascii_lower_seq(d);
    assert forall|i: int| 0 <= i < d.len() implies hex_digit_value(l[i]) == hex_digit_value(
        d[i],
    ) by {
        lemma_hex_digit_lower(d[i]);
    }
    if all_hex(d) {
        assert forall|i: int| 0 <= i < l.len() implies (#[trigger] hex_digit_value(l[i])) is Some by {
            assert(hex_digit_value(d[i]) is Some);
        }
    }
    if all_hex(l) {
        assert forall|i: int| 0 <= i < d.len() implies (#[trigger] hex_digit_value(d[i])) is Some by {
            assert(hex_digit_value(l[i]) is Some);
        }
    }
    if d.len() > 0 {
        assert(l.drop_last() =~= ascii_lower_seq(d.drop_last()));
        lemma_hex_value_lower(d.drop_last());
    }
}

/// Hex digits are read in either case.
pub proof fn lemma_hex_case_insensitive(s: Seq<char>)
    ensures
        color_of_hex(ascii_lower_seq(s)) == color_of_hex(s),
{
    let l = ascii_lower_seq(s);
    let v = strip_hash(s);
    assert(strip_hash(l) =~= ascii_lower_seq(v));
    let lv = ascii_lower_seq(v);
    if v.len() == 3 || v.len() == 4 {
        assert(doubled(lv) =~= ascii_lower_seq(doubled(v)));
    }
    if hex_digits(v) is Some {
        let h = hex_digits(v).unwrap();
        let lh = ascii_lower_seq(h);
        assert(hex_digits(lv) == Some(lh));
        let d = if h.len() > 0 && h[0] == '+' {
            h.drop_first()
        } else {
            h
        };
        let ld = if lh.len() > 0 && lh[0] == '+' {
            lh.drop_first()
        } else {
            lh
        };
        assert(ld =~= ascii_lower_seq(d));
        lemma_hex_value_lower(d);
    }
}

/// Colour names are read in any ASCII case.
pub proof fn lemma_name_case_insensitive(s: Seq<char>)
    ensures
        color_of_name(ascii_lower_seq(s)) == color_of_name(s),
{
    lemma_ascii_lower_idempotent(s);
}

/// Surrounding whitespace does not change what a text names.
pub proof fn lemma_text_ignores_surrounding_whitespace(s: Seq<char>)
    ensures
        color_of_text(trim(s)) == color_of_text(s),
{
    lemma_trim_idempotent(s);
}

/// The hex digits are `0`-`9`, `a`-`f` and `A`-`F`, with their usual
/// values, and no other character is one.
pub proof fn lemma_hex_digit_table(c: char)
    ensures
        hex_digit_value('0') == Some(0nat) && hex_digit_value('1') == Some(1nat)
            && hex_digit_value('2') == Some(2nat) && hex_digit_value('3') == Some(3nat)
            && hex_digit_value('4') == Some(4nat) && hex_digit_value('5') == Some(5nat)
            && hex_digit_value('6') == Some(6nat) && hex_digit_value('7') == Some(7nat)
            && hex_digit_value('8') == Some(8nat) && hex_digit_value('9') == Some(9nat),
        hex_digit_value('a') == Some(10nat) && hex_digit_value('b') == Some(11nat)
            && hex_digit_value('c') == Some(12nat) && hex_digit_value('d') == Some(13nat)
            && hex_digit_value('e') == Some(14nat) && hex_digit_value('f') == Some(15nat),
        hex_digit_value('A') == Some(10nat) && hex_digit_value('B') == Some(11nat)
            && hex_digit_value('C') == Some(12nat) && hex_digit_value('D') == Some(13nat)
            && hex_digit_value('E') == Some(14nat) && hex_digit_value('F') == Some(15nat),
        (hex_digit_value(c) is Some) == (('0' <= c && c <= '9') || ('a' <= c && c <= 'f') || (
        'A' <= c && c <= 'F')),
{
}

/// Number parsing takes one optional leading `+` before the digits: a
/// `+` adds nothing, a lone `+`, an empty text, a second `+` and a `-` are
/// refused, and digits within range give their value.
pub proof fn lemma_hex_number_sign(d: Seq<char>)
    ensures
        parse_hex_u32(Seq::<char>::empty()) is None,
        parse_hex_u32(seq!['+']) is None,
        parse_hex_u32(seq!['-'] + d) is None,
        parse_hex_u32(seq!['+', '+'] + d) is None,
        parse_hex_u32(seq!['+', '-'] + d) is None,
        d.len() == 0 || d[0] != '+' ==> parse_hex_u32(seq!['+'] + d) == parse_hex_u32(d),
        d.len() > 0 && all_hex(d) && hex_value(d) <= u32::MAX ==> parse_hex_u32(d) == Some(
            hex_value(d) as u32,
        ),
        d.len() > 0 && d[0] != '+' && !all_hex(d) ==> parse_hex_u32(d) is None,
{
    assert((seq!['+'] + d).drop_first() =~= d);
    assert((seq!['+', '+'] + d).drop_first() =~= seq!['+'] + d);
    assert((seq!['+', '-'] + d).drop_first() =~= seq!['-'] + d);
    assert(hex_digit_value((seq!['-'] + d)[0]) is None);
    assert(hex_digit_value((seq!['+'] + d)[0]) is None);
    assert(hex_digit_value((seq!['-'] + d)[0]) is None);
    assert(seq!['+'].drop_first() =~= Seq::<char>::empty());
}

/// Only one `#` may lead: after a second one no colour is read.
pub proof fn lemma_hex_one_hash_only(v: Seq<char>)
    ensures
        color_of_hex(seq!['#', '#'] + v) is None,
{
    let w = seq!['#', '#'] + v;
    let u = w.drop_first();
    assert(u[0] == '#');
    if hex_digits(u) is Some {
        let h = hex_digits(u).unwrap();
        assert(h[0] == '#');
        assert(hex_digit_value(h[0]) is None);
    }
}

/// A hex colour is read only from three, four, six or eight characters
/// after the optional `#`.
pub proof fn lemma_hex_lengths(s: Seq<char>)
    ensures
        color_of_hex(s) is Some ==> {
            let v = if s.len() > 0 && s[0] == '#' {
                s.drop_first()
            } else {
                s
            };
            v.len() == 3 || v.len() == 4 || v.len() == 6 || v.len() == 8
        },
{
}

/// A short-form colour stands for each of its characters written twice.
pub proof fn lemma_doubled_repeats(v: Seq<char>)
    ensures
        doubled(v).len() == 2 * v.len(),
        forall|i: int|
            0 <= i < v.len() ==> doubled(v)[2 * i] == v[i] && doubled(v)[2 * i + 1] == v[i],
{
}

/// Whitespace added at either end of a colour text does not change what
/// it reads as.
pub proof fn lemma_text_ignores_added_whitespace(s: Seq<char>, c: char)
    requires
        is_unicode_whitespace(c),
    ensures
        color_of_text(s.push(c)) == color_of_text(s),
        color_of_text(seq![c] + s) == color_of_text(s),
{
    lemma_trim_drops_end_whitespace(s, c);
}

/// The error message is the words `invalid color name: ` followed by the
/// text as given.
pub proof fn lemma_invalid_color_message(s: Seq<char>)
    ensures
        invalid_color_message(s) == seq![
            'i', 'n', 'v', 'a', 'l', 'i', 'd', ' ', 'c', 'o', 'l', 'o', 'r', ' ', 'n', 'a', 'm', 'e', ':', ' ',
        ] + s,
{
    reveal_strlit("invalid color name: ");
    assert("invalid color name: "@ =~= seq![
        'i', 'n', 'v', 'a', 'l', 'i', 'd', ' ', 'c', 'o', 'l', 'o', 'r', ' ', 'n', 'a', 'm', 'e', ':', ' ',
    ]);
}


/// The names of the eight plain colours, and `none`, with what they stand for,
/// written letter by letter.
pub proof fn lemma_plain_color_names()
    ensures
        color_of_name(seq!['n', 'o', 'n', 'e']) == Some(Color::Unset),
        color_of_name(seq!['b', 'l', 'a', 'c', 'k']) == Some(Color::Black),
        color_of_name(seq!['r', 'e', 'd']) == Some(Color::Red),
        color_of_name(seq!['g', 'r', 'e', 'e', 'n']) == Some(Color::Green),
        color_of_name(seq!['y', 'e', 'l', 'l', 'o', 'w']) == Some(Color::Yellow),
        color_of_name(seq!['b', 'l', 'u', 'e']) == Some(Color::Blue),
        color_of_name(seq!['m', 'a', 'g', 'e', 'n', 't', 'a']) == Some(Color::Magenta),
        color_of_name(seq!['c', 'y', 'a', 'n']) == Some(Color::Cyan),
        color_of_name(seq!['w', 'h', 'i', 't', 'e']) == Some(Color::White),
        color_of_name(seq!['b', 'r', 'i', 'g', 'h', 't', 'b', 'l', 'a', 'c', 'k']) == Some(Color::BrightBlack),
{
    reveal_strlit("none");
    reveal_strlit("black");
    reveal_strlit("red");
    reveal_strlit("green");
    reveal_strlit("yellow");
    reveal_strlit("blue");
    reveal_strlit("magenta");
    reveal_strlit("cyan");
    reveal_strlit("white");
    reveal_strlit("brightblack");
    reveal_strlit("gray");
    reveal_strlit("grey");
    reveal_strlit("brightred");
    reveal_strlit("brightgreen");
    reveal_strlit("brightyellow");
    reveal_strlit("brightblue");
    reveal_strlit("brightmagenta");
    reveal_strlit("brightcyan");
    reveal_strlit("brightwhite");
    reveal_strlit("orange");
    reveal_strlit("purple");
    reveal_strlit("pink");
    reveal_strlit("brown");
    reveal_strlit("olive");
    reveal_strlit("teal");
    reveal_strlit("navy");
    reveal_strlit("maroon");
    reveal_strlit("silver");
    reveal_strlit("gold");
    assert(ascii_lower_seq(seq!['n', 'o', 'n', 'e']) =~= seq!['n', 'o', 'n', 'e']);
    assert("none"@ =~= seq!['n', 'o', 'n', 'e']);
    assert(ascii_lower_seq(seq!['b', 'l', 'a', 'c', 'k']) =~= seq!['b', 'l', 'a', 'c', 'k']);
    assert("black"@ =~= seq!['b', 'l', 'a', 'c', 'k']);
    assert(ascii_lower_seq(seq!['r', 'e', 'd']) =~= seq!['r', 'e', 'd']);
    assert("red"@ =~= seq!['r', 'e', 'd']);
    assert(ascii_lower_seq(seq!['g', 'r', 'e', 'e', 'n']) =~= seq!['g', 'r', 'e', 'e', 'n']);
    assert("green"@ =~= seq!['g', 'r', 'e', 'e', 'n']);
    assert(ascii_lower_seq(seq!['y', 'e', 'l', 'l', 'o', 'w']) =~= seq!['y', 'e', 'l', 'l', 'o', 'w']);
    assert("yellow"@ =~= seq!['y', 'e', 'l', 'l', 'o', 'w']);
    assert(ascii_lower_seq(seq!['b', 'l', 'u', 'e']) =~= seq!['b', 'l', 'u', 'e']);
    assert("blue"@ =~= seq!['b', 'l', 'u', 'e']);
    assert(ascii_lower_seq(seq!['m', 'a', 'g', 'e', 'n', 't', 'a']) =~= seq!['m', 'a', 'g', 'e', 'n', 't', 'a']);
    assert("magenta"@ =~= seq!['m', 'a', 'g', 'e', 'n', 't', 'a']);
    assert(ascii_lower_seq(seq!['c', 'y', 'a', 'n']) =~= seq!['c', 'y', 'a', 'n']);
    assert("cyan"@ =~= seq!['c', 'y', 'a', 'n']);
    assert(ascii_lower_seq(seq!['w', 'h', 'i', 't', 'e']) =~= seq!['w', 'h', 'i', 't', 'e']);
    assert("white"@ =~= seq!['w', 'h', 'i', 't', 'e']);
    assert(ascii_lower_seq(seq!['b', 'r', 'i', 'g', 'h', 't', 'b', 'l', 'a', 'c', 'k']) =~= seq!['b', 'r', 'i', 'g', 'h', 't', 'b', 'l', 'a', 'c', 'k']);
    assert("brightblack"@ =~= seq!['b', 'r', 'i', 'g', 'h', 't', 'b', 'l', 'a', 'c', 'k']);
}

/// The names of the bright colours, `gray` and `grey`, with what they stand
/// for, written letter by letter.
pub proof fn lemma_bright_color_names()
    ensures
        color_of_name(seq!['g', 'r', 'a', 'y']) == Some(Color::BrightBlack),
        color_of_name(seq!['g', 'r', 'e', 'y']) == Some(Color::BrightBlack),
        color_of_name(seq!['b', 'r', 'i', 'g', 'h', 't', 'r', 'e', 'd']) == Some(Color::BrightRed),
        color_of_name(seq!['b', 'r', 'i', 'g', 'h', 't', 'g', 'r', 'e', 'e', 'n']) == Some(Color::BrightGreen),
        color_of_name(seq!['b', 'r', 'i', 'g', 'h', 't', 'y', 'e', 'l', 'l', 'o', 'w']) == Some(Color::BrightYellow),
        color_of_name(seq!['b', 'r', 'i', 'g', 'h', 't', 'b', 'l', 'u', 'e']) == Some(Color::BrightBlue),
        color_of_name(seq!['b', 'r', 'i', 'g', 'h', 't', 'm', 'a', 'g', 'e', 'n', 't', 'a']) == Some(Color::BrightMagenta),
        color_of_name(seq!['b', 'r', 'i', 'g', 'h', 't', 'c', 'y', 'a', 'n']) == Some(Color::BrightCyan),
        color_of_name(seq!['b', 'r', 'i', 'g', 'h', 't', 'w', 'h', 'i', 't', 'e']) == Some(Color::BrightWhite),
{
    reveal_strlit("none");
    reveal_strlit("black");
    reveal_strlit("red");
    reveal_strlit("green");
    reveal_strlit("yellow");
    reveal_strlit("blue");
    reveal_strlit("magenta");
    reveal_strlit("cyan");
    reveal_strlit("white");
    reveal_strlit("brightblack");
    reveal_strlit("gray");
    reveal_strlit("grey");
    reveal_strlit("brightred");
    reveal_strlit("brightgreen");
    reveal_strlit("brightyellow");
    reveal_strlit("brightblue");
    reveal_strlit("brightmagenta");
    reveal_strlit("brightcyan");
    reveal_strlit("brightwhite");
    reveal_strlit("orange");
    reveal_strlit("purple");
    reveal_strlit("pink");
    reveal_strlit("brown");
    reveal_strlit("olive");
    reveal_strlit("teal");
    reveal_strlit("navy");
    reveal_strlit("maroon");
    reveal_strlit("silver");
    reveal_strlit("gold");
    assert(ascii_lower_seq(seq!['g', 'r', 'a', 'y']) =~= seq!['g', 'r', 'a', 'y']);
    assert("gray"@ =~= seq!['g', 'r', 'a', 'y']);
    assert(ascii_lower_seq(seq!['g', 'r', 'e', 'y']) =~= seq!['g', 'r', 'e', 'y']);
    assert("grey"@ =~= seq!['g', 'r', 'e', 'y']);
    assert(ascii_lower_seq(seq!['b', 'r', 'i', 'g', 'h', 't', 'r', 'e', 'd']) =~= seq!['b', 'r', 'i', 'g', 'h', 't', 'r', 'e', 'd']);
    assert("brightred"@ =~= seq!['b', 'r', 'i', 'g', 'h', 't', 'r', 'e', 'd']);
    assert(ascii_lower_seq(seq!['b', 'r', 'i', 'g', 'h', 't', 'g', 'r', 'e', 'e', 'n']) =~= seq!['b', 'r', 'i', 'g', 'h', 't', 'g', 'r', 'e', 'e', 'n']);
    assert("brightgreen"@ =~= seq!['b', 'r', 'i', 'g', 'h', 't', 'g', 'r', 'e', 'e', 'n']);
    assert(ascii_lower_seq(seq!['b', 'r', 'i', 'g', 'h', 't', 'y', 'e', 'l', 'l', 'o', 'w']) =~= seq!['b', 'r', 'i', 'g', 'h', 't', 'y', 'e', 'l', 'l', 'o', 'w']);
    assert("brightyellow"@ =~= seq!['b', 'r', 'i', 'g', 'h', 't', 'y', 'e', 'l', 'l', 'o', 'w']);
    assert(ascii_lower_seq(seq!['b', 'r', 'i', 'g', 'h', 't', 'b', 'l', 'u', 'e']) =~= seq!['b', 'r', 'i', 'g', 'h', 't', 'b', 'l', 'u', 'e']);
    assert("brightblue"@ =~= seq!['b', 'r', 'i', 'g', 'h', 't', 'b', 'l', 'u', 'e']);
    assert(ascii_lower_seq(seq!['b', 'r', 'i', 'g', 'h', 't', 'm', 'a', 'g', 'e', 'n', 't', 'a']) =~= seq!['b', 'r', 'i', 'g', 'h', 't', 'm', 'a', 'g', 'e', 'n', 't', 'a']);
    assert("brightmagenta"@ =~= seq!['b', 'r', 'i', 'g', 'h', 't', 'm', 'a', 'g', 'e', 'n', 't', 'a']);
    assert(ascii_lower_seq(seq!['b', 'r', 'i', 'g', 'h', 't', 'c', 'y', 'a', 'n']) =~= seq!['b', 'r', 'i', 'g', 'h', 't', 'c', 'y', 'a', 'n']);
    assert("brightcyan"@ =~= seq!['b', 'r', 'i', 'g', 'h', 't', 'c', 'y', 'a', 'n']);
    assert(ascii_lower_seq(seq!['b', 'r', 'i', 'g', 'h', 't', 'w', 'h', 'i', 't', 'e']) =~= seq!['b', 'r', 'i', 'g', 'h', 't', 'w', 'h', 'i', 't', 'e']);
    assert("brightwhite"@ =~= seq!['b', 'r', 'i', 'g', 'h', 't', 'w', 'h', 'i', 't', 'e']);
}

/// The names of the RGB colours, with what they stand for, written letter
/// by letter.
pub proof fn lemma_rgb_color_names()
    ensures
        color_of_name(seq!['o', 'r', 'a', 'n', 'g', 'e']) == Some(Color::Rgb { r: 255, g: 165, b: 0 }),
        color_of_name(seq!['p', 'u', 'r', 'p', 'l', 'e']) == Some(Color::Rgb { r: 128, g: 0, b: 128 }),
        color_of_name(seq!['p', 'i', 'n', 'k']) == Some(Color::Rgb { r: 255, g: 105, b: 180 }),
        color_of_name(seq!['b', 'r', 'o', 'w', 'n']) == Some(Color::Rgb { r: 165, g: 42, b: 42 }),
        color_of_name(seq!['o', 'l', 'i', 'v', 'e']) == Some(Color::Rgb { r: 128, g: 128, b: 0 }),
        color_of_name(seq!['t', 'e', 'a', 'l']) == Some(Color::Rgb { r: 0, g: 128, b: 128 }),
        color_of_name(seq!['n', 'a', 'v', 'y']) == Some(Color::Rgb { r: 0, g: 0, b: 128 }),
        color_of_name(seq!['m', 'a', 'r', 'o', 'o', 'n']) == Some(Color::Rgb { r: 128, g: 0, b: 0 }),
        color_of_name(seq!['s', 'i', 'l', 'v', 'e', 'r']) == Some(Color::Rgb { r: 192, g: 192, b: 192 }),
        color_of_name(seq!['g', 'o', 'l', 'd']) == Some(Color::Rgb { r: 255, g: 215, b: 0 }),
{
    reveal_strlit("none");
    reveal_strlit("black");
    reveal_strlit("red");
    reveal_strlit("green");
    reveal_strlit("yellow");
    reveal_strlit("blue");
    reveal_strlit("magenta");
    reveal_strlit("cyan");
    reveal_strlit("white");
    reveal_strlit("brightblack");
    reveal_strlit("gray");
    reveal_strlit("grey");
    reveal_strlit("brightred");
    reveal_strlit("brightgreen");
    reveal_strlit("brightyellow");
    reveal_strlit("brightblue");
    reveal_strlit("brightmagenta");
    reveal_strlit("brightcyan");
    reveal_strlit("brightwhite");
    reveal_strlit("orange");
    reveal_strlit("purple");
    reveal_strlit("pink");
    reveal_strlit("brown");
    reveal_strlit("olive");
    reveal_strlit("teal");
    reveal_strlit("navy");
    reveal_strlit("maroon");
    reveal_strlit("silver");
    reveal_strlit("gold");
    assert(ascii_lower_seq(seq!['o', 'r', 'a', 'n', 'g', 'e']) =~= seq!['o', 'r', 'a', 'n', 'g', 'e']);
    assert("orange"@ =~= seq!['o', 'r', 'a', 'n', 'g', 'e']);
    assert(ascii_lower_seq(seq!['p', 'u', 'r', 'p', 'l', 'e']) =~= seq!['p', 'u', 'r', 'p', 'l', 'e']);
    assert("purple"@ =~= seq!['p', 'u', 'r', 'p', 'l', 'e']);
    assert(ascii_lower_seq(seq!['p', 'i', 'n', 'k']) =~= seq!['p', 'i', 'n', 'k']);
    assert("pink"@ =~= seq!['p', 'i', 'n', 'k']);
    assert(ascii_lower_seq(seq!['b', 'r', 'o', 'w', 'n']) =~= seq!['b', 'r', 'o', 'w', 'n']);
    assert("brown"@ =~= seq!['b', 'r', 'o', 'w', 'n']);
    assert(ascii_lower_seq(seq!['o', 'l', 'i', 'v', 'e']) =~= seq!['o', 'l', 'i', 'v', 'e']);
    assert("olive"@ =~= seq!['o', 'l', 'i', 'v', 'e']);
    assert(ascii_lower_seq(seq!['t', 'e', 'a', 'l']) =~= seq!['t', 'e', 'a', 'l']);
    assert("teal"@ =~= seq!['t', 'e', 'a', 'l']);
    assert(ascii_lower_seq(seq!['n', 'a', 'v', 'y']) =~= seq!['n', 'a', 'v', 'y']);
    assert("navy"@ =~= seq!['n', 'a', 'v', 'y']);
    assert(ascii_lower_seq(seq!['m', 'a', 'r', 'o', 'o', 'n']) =~= seq!['m', 'a', 'r', 'o', 'o', 'n']);
    assert("maroon"@ =~= seq!['m', 'a', 'r', 'o', 'o', 'n']);
    assert(ascii_lower_seq(seq!['s', 'i', 'l', 'v', 'e', 'r']) =~= seq!['s', 'i', 'l', 'v', 'e', 'r']);
    assert("silver"@ =~= seq!['s', 'i', 'l', 'v', 'e', 'r']);
    assert(ascii_lower_seq(seq!['g', 'o', 'l', 'd']) =~= seq!['g', 'o', 'l', 'd']);
    assert("gold"@ =~= seq!['g', 'o', 'l', 'd']);
}

} // verus!
