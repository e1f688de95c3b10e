//! Terminal styles and the parsing of comma-separated style token lists.
use vstd::prelude::*;
use owo_colors::AnsiColors;
use crate::text::{chars_of, spells};

verus! {

#[verifier::external_type_specification]
pub struct ExAnsiColors(owo_colors::AnsiColors);

/// A foreground color: one of the sixteen ANSI colors, or a 24-bit literal.
#[derive(Clone, Copy, PartialEq, Eq, Debug)]
pub enum Color {
    Ansi(AnsiColors),
    Rgb(u8, u8, u8),
}

/// A pre-composed style: an optional foreground color and independent effect toggles.
#[derive(Clone, Copy, PartialEq, Eq, Debug)]
pub struct Style {
    pub fg: Option<Color>,
    pub bold: bool,
    pub dimmed: bool,
    pub italic: bool,
    pub underline: bool,
    pub blink: bool,
    pub hidden: bool,
    pub strikethrough: bool,
}

/// Why a configuration was refused; each variant keeps the offending input.
#[derive(Clone, PartialEq, Eq, Debug)]
pub enum ConfigError {
    InvalidRegex(String),
    InvalidStyle(String),
    InvalidHex(String),
    MalformedAssignment(String),
}

/// The mathematical form of a `ConfigError`.
pub enum Fault {
    InvalidRegex(Seq<char>),
    InvalidStyle(Seq<char>),
    InvalidHex(Seq<char>),
    MalformedAssignment(Seq<char>),
}

impl View for ConfigError {
    type V = Fault;

    open spec fn view(&self) -> Fault {
        match self {
            ConfigError::InvalidRegex(s) => Fault::InvalidRegex(s@),
            ConfigError::InvalidStyle(s) => Fault::InvalidStyle(s@),
            ConfigError::InvalidHex(s) => Fault::InvalidHex(s@),
            ConfigError::MalformedAssignment(s) => Fault::MalformedAssignment(s@),
        }
    }
}

pub open spec fn plain_style() -> Style {
    Style {
        fg: None,
        bold: false,
        dimmed: false,
        italic: false,
        underline: false,
        blink: false,
        hidden: false,
        strikethrough: false,
    }
}

impl Style {
    /// The style that applies no formatting.
    pub fn new() -> (r: Style)
        ensures
            r == plain_style(),
    {
        Style {
            fg: None,
            bold: false,
            dimmed: false,
            italic: false,
            underline: false,
            blink: false,
            hidden: false,
            strikethrough: false,
        }
    }

    pub open spec fn is_plain(self) -> bool {
        self == plain_style()
    }

    pub open spec fn spec_with_fg(self, c: Color) -> Style {
        Style { fg: Some(c), ..self }
    }

    /// This style with its foreground color replaced by `c`.
    pub fn with_fg(self, c: Color) -> (r: Style)
        ensures
            r == self.spec_with_fg(c),
    {
        Style { fg: Some(c), ..self }
    }
}

/// The palette used for groups without a configured style, indexed cyclically
/// by capture group position.
pub open spec fn palette_color(k: int) -> AnsiColors {
    if k == 0 {
        AnsiColors::Red
    } else if k == 1 {
        AnsiColors::Green
    } else if k == 2 {
        AnsiColors::Yellow
    } else if k == 3 {
        AnsiColors::Blue
    } else if k == 4 {
        AnsiColors::Magenta
    } else if k == 5 {
        AnsiColors::Cyan
    } else {
        AnsiColors::White
    }
}

pub const PALETTE_SIZE: usize = 7;

pub open spec fn spec_default_style(index: int) -> Style {
    plain_style().spec_with_fg(Color::Ansi(palette_color(index % PALETTE_SIZE as int)))
}

/// The default style of the capture group at position `index`.
pub fn default_style(index: usize) -> (r: Style)
    ensures
        r == spec_default_style(index as int),
{
    let k = index % PALETTE_SIZE;
    let c = if k == 0 {
        AnsiColors::Red
    } else if k == 1 {
        AnsiColors::Green
    } else if k == 2 {
        AnsiColors::Yellow
    } else if k == 3 {
        AnsiColors::Blue
    } else if k == 4 {
        AnsiColors::Magenta
    } else if k == 5 {
        AnsiColors::Cyan
    } else {
        AnsiColors::White
    };
    Style::new().with_fg(Color::Ansi(c))
}


/// The style `st` with the named token `t` applied, or `None` when `t` names
/// no color or effect.
pub open spec fn named_token(st: Style, t: Seq<char>) -> Option<Style> {
    if t == "black"@ {
        Some(st.spec_with_fg(Color::Ansi(AnsiColors::Black)))
    } else if t == "red"@ {
        Some(st.spec_with_fg(Color::Ansi(AnsiColors::Red)))
    } else if t == "green"@ {
        Some(st.spec_with_fg(Color::Ansi(AnsiColors::Green)))
    } else if t == "yellow"@ {
        Some(st.spec_with_fg(Color::Ansi(AnsiColors::Yellow)))
    } else if t == "blue"@ {
        Some(st.spec_with_fg(Color::Ansi(AnsiColors::Blue)))
    } else if t == "magenta"@ {
        Some(st.spec_with_fg(Color::Ansi(AnsiColors::Magenta)))
    } else if t == "cyan"@ {
        Some(st.spec_with_fg(Color::Ansi(AnsiColors::Cyan)))
    } else if t == "white"@ {
        Some(st.spec_with_fg(Color::Ansi(AnsiColors::White)))
    } else if t == "bright_black"@ {
        Some(st.spec_with_fg(Color::Ansi(AnsiColors::BrightBlack)))
    } else if t == "bright_red"@ {
        Some(st.spec_with_fg(Color::Ansi(AnsiColors::BrightRed)))
    } else if t == "bright_green"@ {
        Some(st.spec_with_fg(Color::Ansi(AnsiColors::BrightGreen)))
    } else if t == "bright_yellow"@ {
        Some(st.spec_with_fg(Color::Ansi(AnsiColors::BrightYellow)))
    } else if t == "bright_blue"@ {
        Some(st.spec_with_fg(Color::Ansi(AnsiColors::BrightBlue)))
    } else if t == "bright_magenta"@ {
        Some(st.spec_with_fg(Color::Ansi(AnsiColors::BrightMagenta)))
    } else if t == "bright_cyan"@ {
        Some(st.spec_with_fg(Color::Ansi(AnsiColors::BrightCyan)))
    } else if t == "bright_white"@ {
        Some(st.spec_with_fg(Color::Ansi(AnsiColors::BrightWhite)))
    } else if t == "bold"@ || t == "bolded"@ {
        Some(Style { bold: true, ..st })
    } else if t == "dimmed"@ || t == "dim"@ {
        Some(Style { dimmed: true, ..st })
    } else if t == "italic"@ || t == "italics"@ {
        Some(Style { italic: true, ..st })
    } else if t == "underline"@ || t == "underlined"@ {
        Some(Style { underline: true, ..st })
    } else if t == "blink"@ || t == "blinking"@ {
        Some(Style { blink: true, ..st })
    } else if t == "hidden"@ {
        Some(Style { hidden: true, ..st })
    } else if t == "strikethrough"@ || t == "struckthrough"@ || t == "strike"@ {
        Some(Style { strikethrough: true, ..st })
    } else {
        None
    }
}

fn apply_named(st: Style, chars: &Vec<char>, a: usize, b: usize) -> (r: Option<Style>)
    requires
        a <= b <= chars@.len(),
    ensures
        r == named_token(st, chars@.subrange(a as int, b as int)),
{
    if spells(chars, a, b, "black") {
        Some(st.with_fg(Color::Ansi(AnsiColors::Black)))
    } else if spells(chars, a, b, "red") {
        Some(st.with_fg(Color::Ansi(AnsiColors::Red)))
    } else if spells(chars, a, b, "green") {
        Some(st.with_fg(Color::Ansi(AnsiColors::Green)))
    } else if spells(chars, a, b, "yellow") {
        Some(st.with_fg(Color::Ansi(AnsiColors::Yellow)))
    } else if spells(chars, a, b, "blue") {
        Some(st.with_fg(Color::Ansi(AnsiColors::Blue)))
    } else if spells(chars, a, b, "magenta") {
        Some(st.with_fg(Color::Ansi(AnsiColors::Magenta)))
    } else if spells(chars, a, b, "cyan") {
        Some(st.with_fg(Color::Ansi(AnsiColors::Cyan)))
    } else if spells(chars, a, b, "white") {
        Some(st.with_fg(Color::Ansi(AnsiColors::White)))
    } else if spells(chars, a, b, "bright_black") {
        Some(st.with_fg(Color::Ansi(AnsiColors::BrightBlack)))
    } else if spells(chars, a, b, "bright_red") {
        Some(st.with_fg(Color::Ansi(AnsiColors::BrightRed)))
    } else if spells(chars, a, b, "bright_green") {
        Some(st.with_fg(Color::Ansi(AnsiColors::BrightGreen)))
    } else if spells(chars, a, b, "bright_yellow") {
        Some(st.with_fg(Color::Ansi(AnsiColors::BrightYellow)))
    } else if spells(chars, a, b, "bright_blue") {
        Some(st.with_fg(Color::Ansi(AnsiColors::BrightBlue)))
    } else if spells(chars, a, b, "bright_magenta") {
        Some(st.with_fg(Color::Ansi(AnsiColors::BrightMagenta)))
    } else if spells(chars, a, b, "bright_cyan") {
        Some(st.with_fg(Color::Ansi(AnsiColors::BrightCyan)))
    } else if spells(chars, a, b, "bright_white") {
        Some(st.with_fg(Color::Ansi(AnsiColors::BrightWhite)))
    } else if spells(chars, a, b, "bold") || spells(chars, a, b, "bolded") {
        Some(Style { bold: true, ..st })
    } else if spells(chars, a, b, "dimmed") || spells(chars, a, b, "dim") {
        Some(Style { dimmed: true, ..st })
    } else if spells(chars, a, b, "italic") || spells(chars, a, b, "italics") {
        Some(Style { italic: true, ..st })
    } else if spells(chars, a, b, "underline") || spells(chars, a, b, "underlined") {
        Some(Style { underline: true, ..st })
    } else if spells(chars, a, b, "blink") || spells(chars, a, b, "blinking") {
        Some(Style { blink: true, ..st })
    } else if spells(chars, a, b, "hidden") {
        Some(Style { hidden: true, ..st })
    } else if spells(chars, a, b, "strikethrough") || spells(chars, a, b, "struckthrough") || spells(chars, a, b, "strike") {
        Some(Style { strikethrough: true, ..st })
    } else {
        None
    }
}

pub open spec fn is_hex_digit(c: char) -> bool {
    ('0' <= c && c <= '9') || ('a' <= c && c <= 'f') || ('A' <= c && c <= 'F')
}

pub open spec fn hex_value(c: char) -> int {
    if '0' <= c && c <= '9' {
        c as int - '0' as int
    } else if 'a' <= c && c <= 'f' {
        c as int - 'a' as int + 10
    } else {
        c as int - 'A' as int + 10
    }
}

/// A `#RRGGBB` literal: a hash followed by exactly six hexadecimal digits.
pub open spec fn is_hex_literal(t: Seq<char>) -> bool {
    &&& t.len() == 7
    &&& t[0] == '#'
    &&& forall|i: int| 1 <= i < 7 ==> is_hex_digit(#[trigger] t[i])
}

/// The byte spelled by the two hexadecimal digits at `t[i]` and `t[i + 1]`.
pub open spec fn hex_byte(t: Seq<char>, i: int) -> u8 {
    (hex_value(t[i]) * 16 + hex_value(t[i + 1])) as u8
}

/// The style `st` with token `t` of the list `whole` applied.
pub open spec fn apply_token(st: Style, t: Seq<char>, whole: Seq<char>) -> Result<Style, Fault> {
    if t.len() > 0 && t[0] == '#' {
        if is_hex_literal(t) {
            Ok(st.spec_with_fg(Color::Rgb(hex_byte(t, 1), hex_byte(t, 3), hex_byte(t, 5))))
        } else {
            Err(Fault::InvalidHex(whole))
        }
    } else {
        match named_token(st, t) {
            Some(s) => Ok(s),
            None => Err(Fault::InvalidStyle(whole)),
        }
    }
}

/// The pieces of `s` between occurrences of `sep`; there is always at least one.
pub open spec fn split_on(s: Seq<char>, sep: char) -> Seq<Seq<char>>
    decreases s.len(),
{
    if s.len() == 0 {
        seq![Seq::empty()]
    } else if s.last() == sep {
        split_on(s.drop_last(), sep).push(Seq::empty())
    } else {
        let r = split_on(s.drop_last(), sep);
        r.update(r.len() - 1, r.last().push(s.last()))
    }
}

/// The tokens of `whole` applied from left to right to the plain style; the
/// first token that fails decides the error.
pub open spec fn tokens_style(toks: Seq<Seq<char>>, whole: Seq<char>) -> Result<Style, Fault>
    decreases toks.len(),
{
    if toks.len() == 0 {
        Ok(plain_style())
    } else {
        match tokens_style(toks.drop_last(), whole) {
            Ok(st) => apply_token(st, toks.last(), whole),
            Err(e) => Err(e),
        }
    }
}

/// What a comma-separated list of style tokens denotes.
pub open spec fn spec_parse_style(s: Seq<char>) -> Result<Style, Fault> {
    tokens_style(split_on(s, ','), s)
}

pub open spec fn view_result<T>(r: Result<T, ConfigError>) -> Result<T, Fault> {
    match r {
        Ok(v) => Ok(v),
        Err(e) => Err(e@),
    }
}

fn hex_digit(c: char) -> (r: bool)
    ensures
        r == is_hex_digit(c),
{
    ('0' <= c && c <= '9') || ('a' <= c && c <= 'f') || ('A' <= c && c <= 'F')
}

fn hex_digit_value(c: char) -> (r: u8)
    requires
        is_hex_digit(c),
    ensures
        r as int == hex_value(c),
        r < 16,
{
    if '0' <= c && c <= '9' {
        (c as u32 - '0' as u32) as u8
    } else if 'a' <= c && c <= 'f' {
        (c as u32 - 'a' as u32 + 10) as u8
    } else {
        (c as u32 - 'A' as u32 + 10) as u8
    }
}

fn hex_pair(chars: &Vec<char>, i: usize) -> (r: u8)
    requires
        i + 1 < chars@.len(),
        is_hex_digit(chars@[i as int]),
        is_hex_digit(chars@[i + 1]),
    ensures
        r == hex_byte(chars@, i as int),
{
    assert(chars@.len() == chars.len());
    let hi = hex_digit_value(chars[i]);
    let lo = hex_digit_value(chars[i + 1]);
    assert(hi * 16 <= 240) by (nonlinear_arith)
        requires
            hi < 16,
    ;
    hi * 16 + lo
}

fn apply_token_at(st: Style, chars: &Vec<char>, a: usize, b: usize, whole: &str) -> (r: Result<
    Style,
    ConfigError,
>)
    requires
        a <= b <= chars@.len(),
    ensures
        view_result(r) == apply_token(st, chars@.subrange(a as int, b as int), whole@),
{
    let ghost t = chars@.subrange(a as int, b as int);
    if b > a && chars[a] == '#' {
        if b - a != 7 {
            return Err(ConfigError::InvalidHex(whole.to_owned()));
        }
        let mut k: usize = a + 1;
        while k < b
            invariant
                b - a == 7,
                a < k <= b,
                b <= chars@.len(),
                t == chars@.subrange(a as int, b as int),
                t[0] == '#',
                forall|j: int| 1 <= j < k - a ==> is_hex_digit(#[trigger] t[j]),
            decreases b - k,
        {
            if !hex_digit(chars[k]) {
                assert(t[(k - a) as int] == chars@[k as int]);
                assert(!is_hex_digit(t[(k - a) as int]));
                return Err(ConfigError::InvalidHex(whole.to_owned()));
            }
            k = k + 1;
        }
        assert(is_hex_digit(t[1]) && is_hex_digit(t[2]) && is_hex_digit(t[3]));
        assert(is_hex_digit(t[4]) && is_hex_digit(t[5]) && is_hex_digit(t[6]));
        let red = hex_pair(chars, a + 1);
        let green = hex_pair(chars, a + 3);
        let blue = hex_pair(chars, a + 5);
        assert(hex_byte(t, 1) == hex_byte(chars@, a + 1));
        assert(hex_byte(t, 3) == hex_byte(chars@, a + 3));
        assert(hex_byte(t, 5) == hex_byte(chars@, a + 5));
        Ok(st.with_fg(Color::Rgb(red, green, blue)))
    } else {
        match apply_named(st, chars, a, b) {
            Some(s) => Ok(s),
            None => Err(ConfigError::InvalidStyle(whole.to_owned())),
        }
    }
}

/// Parses a comma-separated list of style tokens into one composite style.
/// Tokens apply from left to right: a later color replaces an earlier one,
/// effects accumulate.
pub fn parse_style(s: &str) -> (r: Result<Style, ConfigError>)
    ensures
        view_result(r) == spec_parse_style(s@),
{
    let chars = chars_of(s);
    let n = chars.len();
    let mut acc: Result<Style, ConfigError> = Ok(Style::new());
    let mut start: usize = 0;
    let mut i: usize = 0;
    let ghost mut done: Seq<Seq<char>> = Seq::empty();
    assert(s@.take(0) =~= Seq::<char>::empty());
    assert(done.push(chars@.subrange(0, 0)) =~= seq![Seq::<char>::empty()]);
    while i < n
        invariant
            n == chars@.len(),
            chars@ == s@,
            start <= i <= n,
            split_on(s@.take(i as int), ',') == done.push(chars@.subrange(start as int, i as int)),
            view_result(acc) == tokens_style(done, s@),
        decreases n - i,
    {
        assert(s@.take(i + 1).drop_last() =~= s@.take(i as int));
        if chars[i] == ',' {
            let ghost t = chars@.subrange(start as int, i as int);
            acc = match acc {
                Ok(st) => apply_token_at(st, &chars, start, i, s),
                Err(e) => Err(e),
            };
            proof {
                assert(done.push(t).drop_last() =~= done);
                done = done.push(t);
                assert(chars@.subrange(i + 1, i + 1) =~= Seq::<char>::empty());
            }
            start = i + 1;
        } else {
            proof {
                let r = split_on(s@.take(i as int), ',');
                assert(chars@.subrange(start as int, i + 1) =~= chars@.subrange(
                    start as int,
                    i as int,
                ).push(chars@[i as int]));
                assert(r.update(r.len() - 1, r.last().push(chars@[i as int])) =~= done.push(
                    chars@.subrange(start as int, i + 1),
                ));
            }
        }
        i = i + 1;
    }
    assert(s@.take(n as int) =~= s@);
    let ghost t = chars@.subrange(start as int, n as int);
    let r = match acc {
        Ok(st) => apply_token_at(st, &chars, start, n, s),
        Err(e) => Err(e),
    };
    assert(done.push(t).drop_last() =~= done);
    r
}

} // verus!
