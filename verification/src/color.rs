//! Colors, and the rules that give each entry of a series its color.

use crate::error::ChartError;
use crate::gamma::{
    gamma_compressed, gamma_compression, invert_gamma_compression, lemma_gamma_round_trip,
    linear_light,
};
use crate::text::push_char;
use vstd::prelude::*;

verus! {

/// The lower-case hexadecimal digit that writes `n`, for `0 <= n < 16`.
pub open spec fn hex_digit_char(n: int) -> char {
    if n < 10 {
        (n + 48) as char
    } else {
        (n + 87) as char
    }
}

/// The value of a hexadecimal digit of either case, `None` for any other
/// character.
pub open spec fn hex_digit_value(c: char) -> Option<int> {
    if '0' <= c <= '9' {
        Some(c as int - 48)
    } else if 'a' <= c <= 'f' {
        Some(c as int - 87)
    } else if 'A' <= c <= 'F' {
        Some(c as int - 55)
    } else {
        None
    }
}

/// The two lower-case hexadecimal digits of a byte, high digit first.
pub open spec fn hex_byte_text(b: u8) -> Seq<char> {
    seq![hex_digit_char(b as int / 16), hex_digit_char(b as int % 16)]
}

/// The text `#rrggbb` of three channels.
pub open spec fn rgb_hex_text(r: u8, g: u8, b: u8) -> Seq<char> {
    seq!['#'] + hex_byte_text(r) + hex_byte_text(g) + hex_byte_text(b)
}

/// Whether a text has the shape `#rrggbb`: seven characters, a hash sign
/// followed by six hexadecimal digits of either case.
pub open spec fn is_hex_color_text(s: Seq<char>) -> bool {
    &&& s.len() == 7
    &&& s[0] == '#'
    &&& forall|i: int| 1 <= i < 7 ==> (#[trigger] hex_digit_value(s[i])) is Some
}

/// The channel `k` (0 red, 1 green, 2 blue) that a text of the shape
/// `#rrggbb` denotes.
pub open spec fn hex_text_channel(s: Seq<char>, k: int) -> int {
    16 * hex_digit_value(s[1 + 2 * k]).unwrap() + hex_digit_value(s[2 + 2 * k]).unwrap()
}

/// A color, written either as a `#rrggbb` text or as three channels.
#[derive(Debug, Clone, Copy)]
pub enum Color<'a> {
    Hex(&'a str),
    RGB(u8, u8, u8),
}

impl<'a> Color<'a> {
    /// Whether the color denotes three channels: always for `RGB`, and
    /// for `Hex` exactly when the text has the shape `#rrggbb`.
    pub open spec fn is_valid(&self) -> bool {
        match *self {
            Color::Hex(s) => is_hex_color_text(s@),
            Color::RGB(_, _, _) => true,
        }
    }

    /// The three channels of a valid color.
    pub open spec fn channels(&self) -> (u8, u8, u8) {
        match *self {
            Color::Hex(s) => (
                hex_text_channel(s@, 0) as u8,
                hex_text_channel(s@, 1) as u8,
                hex_text_channel(s@, 2) as u8,
            ),
            Color::RGB(r, g, b) => (r, g, b),
        }
    }

    /// The text of the color: a `Hex` text as it stands, channels as
    /// lower-case `#rrggbb`.
    pub open spec fn hex_text(&self) -> Seq<char> {
        match *self {
            Color::Hex(s) => s@,
            Color::RGB(r, g, b) => rgb_hex_text(r, g, b),
        }
    }

    /// Tells whether the color denotes three channels.
    pub fn check_valid(&self) -> (ok: bool)
        ensures
            ok == self.is_valid(),
    {
        match *self {
            Color::Hex(s) => check_hex_color_text(s),
            Color::RGB(_, _, _) => true,
        }
    }

    /// The three channels of a valid color.
    pub fn to_rgb(&self) -> (rgb: (u8, u8, u8))
        requires
            self.is_valid(),
        ensures
            rgb == self.channels(),
    {
        match *self {
            Color::Hex(s) => {
                let r = parse_hex_byte(s, 1);
                let g = parse_hex_byte(s, 3);
                let b = parse_hex_byte(s, 5);
                (r, g, b)
            },
            Color::RGB(r, g, b) => (r, g, b),
        }
    }

    /// The three channels of the color, or `InvalidConfiguration` for a
    /// `Hex` text that is not of the shape `#rrggbb`.
    pub fn try_rgb(&self) -> (res: Result<(u8, u8, u8), ChartError>)
        ensures
            self.is_valid() ==> res == Ok::<(u8, u8, u8), ChartError>(self.channels()),
            !self.is_valid() ==> res == Err::<(u8, u8, u8), ChartError>(
                ChartError::InvalidConfiguration,
            ),
    {
        if self.check_valid() {
            Ok(self.to_rgb())
        } else {
            Err(ChartError::InvalidConfiguration)
        }
    }

    /// The text of the color.
    pub fn to_hex(&self) -> (s: String)
        ensures
            s@ == self.hex_text(),
    {
        match *self {
            Color::Hex(h) => h.to_owned(),
            Color::RGB(r, g, b) => {
                let mut s = String::new();
                push_char(&mut s, '#');
                push_hex_byte(&mut s, r);
                push_hex_byte(&mut s, g);
                push_hex_byte(&mut s, b);
                s
            },
        }
    }
}

impl<'a> From<Color<'a>> for String {
    /// The text of the color.
    fn from(color: Color<'a>) -> (s: String)
        ensures
            s@ == color.hex_text(),
    {
        color.to_hex()
    }
}

impl<'a> vstd::std_specs::convert::FromSpecImpl<Color<'a>> for String {
    /// A `String` is known in contracts by its view alone, so the
    /// conversion is stated by the `ensures` of `from`.
    open spec fn obeys_from_spec() -> bool {
        false
    }

    open spec fn from_spec(color: Color<'a>) -> String {
        arbitrary()
    }
}

/// The lower-case hexadecimal digit of a value below sixteen.
fn hex_digit(n: u8) -> (c: char)
    requires
        n < 16,
    ensures
        c == hex_digit_char(n as int),
{
    if n < 10 {
        (n + 48) as char
    } else {
        (n + 87) as char
    }
}

/// The value of a hexadecimal digit of either case.
fn parse_hex_digit(c: char) -> (v: Option<u8>)
    ensures
        v is Some <==> hex_digit_value(c) is Some,
        v is Some ==> v.unwrap() == hex_digit_value(c).unwrap(),
        v is Some ==> v.unwrap() < 16,
{
    let code: u32 = c as u32;
    if '0' <= c && c <= '9' {
        Some((code - 48) as u8)
    } else if 'a' <= c && c <= 'f' {
        Some((code - 87) as u8)
    } else if 'A' <= c && c <= 'F' {
        Some((code - 55) as u8)
    } else {
        None
    }
}

/// Tells whether a text has the shape `#rrggbb`.
fn check_hex_color_text(s: &str) -> (ok: bool)
    ensures
        ok == is_hex_color_text(s@),
{
    if s.unicode_len() != 7 {
        return false;
    }
    if s.get_char(0) != '#' {
        return false;
    }
    let mut i: usize = 1;
    while i < 7
        invariant
            1 <= i <= 7,
            s@.len() == 7,
            s@[0] == '#',
            forall|j: int| 1 <= j < i ==> (#[trigger] hex_digit_value(s@[j])) is Some,
        decreases 7 - i,
    {
        if parse_hex_digit(s.get_char(i)).is_none() {
            assert(hex_digit_value(s@[i as int]) is None);
            return false;
        }
        i += 1;
    }
    true
}

/// Reads the byte written by the two digits at `at` and `at + 1`.
fn parse_hex_byte(s: &str, at: usize) -> (b: u8)
    requires
        is_hex_color_text(s@),
        at == 1 || at == 3 || at == 5,
    ensures
        b == hex_text_channel(s@, (at as int - 1) / 2),
{
    let hi = parse_hex_digit(s.get_char(at));
    let lo = parse_hex_digit(s.get_char(at + 1));
    assert(hex_digit_value(s@[at as int]) is Some);
    assert(hex_digit_value(s@[at as int + 1]) is Some);
    16 * hi.unwrap() + lo.unwrap()
}

/// Appends the two lower-case hexadecimal digits of a byte.
fn push_hex_byte(s: &mut String, b: u8)
    ensures
        final(s)@ == old(s)@ + hex_byte_text(b),
{
    push_char(s, hex_digit(b / 16));
    push_char(s, hex_digit(b % 16));
    assert(s@ =~= old(s)@ + hex_byte_text(b));
}

/// Writing three channels as `#rrggbb` and reading the text back gives the
/// same three channels.
pub proof fn lemma_hex_round_trip(r: u8, g: u8, b: u8)
    ensures
        is_hex_color_text(rgb_hex_text(r, g, b)),
        hex_text_channel(rgb_hex_text(r, g, b), 0) == r,
        hex_text_channel(rgb_hex_text(r, g, b), 1) == g,
        hex_text_channel(rgb_hex_text(r, g, b), 2) == b,
{
    let t = rgb_hex_text(r, g, b);
    lemma_hex_digit_round_trip(r as int / 16);
    lemma_hex_digit_round_trip(r as int % 16);
    lemma_hex_digit_round_trip(g as int / 16);
    lemma_hex_digit_round_trip(g as int % 16);
    lemma_hex_digit_round_trip(b as int / 16);
    lemma_hex_digit_round_trip(b as int % 16);
    assert(t[1] == hex_digit_char(r as int / 16));
    assert(t[2] == hex_digit_char(r as int % 16));
    assert(t[3] == hex_digit_char(g as int / 16));
    assert(t[4] == hex_digit_char(g as int % 16));
    assert(t[5] == hex_digit_char(b as int / 16));
    assert(t[6] == hex_digit_char(b as int % 16));
}

/// A lower-case hexadecimal digit reads back as the value it writes.
proof fn lemma_hex_digit_round_trip(n: int)
    requires
        0 <= n < 16,
    ensures
        hex_digit_value(hex_digit_char(n)) == Some(n),
{
}

/// A rule that gives each position of a series its color.
pub trait ChartColor {
    /// Whether the rule can be asked for a color.
    spec fn valid(&self) -> bool;

    /// Whether the data of the rule are sound, which `is_configured`
    /// tests. For the rules of this library that hold data only, this is
    /// `valid`.
    spec fn configured(&self) -> bool;

    /// Tells whether the data of the rule are sound.
    fn is_configured(&self) -> (ok: bool)
        ensures
            ok == self.configured(),
    ;

    /// Whether `c` is a color that the rule may give to position `i` of
    /// `total`.
    spec fn yields(&self, i: usize, total: usize, c: Color<'_>) -> bool;

    /// The color of position `i` in a series of `total` entries.
    fn color_for_index(&self, i: usize, total: usize) -> (c: Color<'_>)
        requires
            self.valid(),
        ensures
            self.yields(i, total, c),
    ;
}

/// Takes the colors of a list in turn, starting over when the list ends.
pub struct Palette<'a>(pub Vec<Color<'a>>);

impl<'a> Palette<'a> {
    /// The color at position `i`: the entry `i mod len` of the list.
    pub open spec fn color_at(&self, i: int) -> Color<'a> {
        self.0@[i % (self.0@.len() as int)]
    }

    /// The color of position `i`, or `InvalidConfiguration` for an empty
    /// list.
    pub fn checked_color_for_index(&self, i: usize, total: usize) -> (res: Result<
        Color<'a>,
        ChartError,
    >)
        ensures
            self.0@.len() > 0 ==> res == Ok::<Color<'a>, ChartError>(self.color_at(i as int)),
            self.0@.len() == 0 ==> res == Err::<Color<'a>, ChartError>(
                ChartError::InvalidConfiguration,
            ),
    {
        if self.0.len() == 0 {
            Err(ChartError::InvalidConfiguration)
        } else {
            Ok(self.0[i % self.0.len()])
        }
    }

    /// A palette gives position `i + len` the color of position `i`.
    pub proof fn lemma_periodic(&self, i: int)
        requires
            self.0@.len() > 0,
            0 <= i,
        ensures
            self.color_at(i + self.0@.len()) == self.color_at(i),
    {
        let n = self.0@.len() as int;
        assert((i + n) % n == i % n) by (nonlinear_arith)
            requires
                n > 0,
                i >= 0,
        ;
    }
}

impl ChartColor for Palette<'_> {
    /// The list is not empty.
    open spec fn valid(&self) -> bool {
        self.0@.len() > 0
    }

    open spec fn configured(&self) -> bool {
        self.valid()
    }

    fn is_configured(&self) -> (ok: bool) {
        self.0.len() > 0
    }

    open spec fn yields(&self, i: usize, total: usize, c: Color<'_>) -> bool {
        c == self.color_at(i as int)
    }

    fn color_for_index(&self, i: usize, total: usize) -> (c: Color<'_>) {
        self.0[i % self.0.len()]
    }
}

/// Asks a function of the caller's for each color.
pub struct CalculatedColor<'a, F> where F: Fn(usize, usize) -> Color<'a> {
    pub func: F,
}

impl<'a, F> ChartColor for CalculatedColor<'a, F> where F: Fn(usize, usize) -> Color<'a> {
    /// The function accepts every position and count.
    open spec fn valid(&self) -> bool {
        forall|i: usize, total: usize| call_requires(self.func, (i, total))
    }

    /// The rule holds no data: nothing can be tested.
    open spec fn configured(&self) -> bool {
        true
    }

    fn is_configured(&self) -> (ok: bool) {
        true
    }

    /// The color is one that the function may return for the position.
    open spec fn yields(&self, i: usize, total: usize, c: Color<'_>) -> bool {
        call_ensures(self.func, (i, total), c)
    }

    fn color_for_index(&self, i: usize, total: usize) -> (c: Color<'_>) {
        (self.func)(i, total)
    }
}

/// The point `i / steps` of the way from `from` to `to`, rounded towards
/// `from`. For `i` above `steps` it lies beyond `to`.
pub open spec fn interpolated(from: int, to: int, i: int, steps: int) -> int {
    if to >= from {
        from + (to - from) * i / steps
    } else {
        from - (from - to) * i / steps
    }
}

/// The nearest channel value to `level`: `level` itself from 0 to 255, 0
/// below and 255 above.
pub open spec fn saturated_channel(level: int) -> u8 {
    if level < 0 {
        0
    } else if level > 255 {
        255
    } else {
        level as u8
    }
}

/// Channel `i` of `total` on the way from `from` to `to`, interpolated in
/// linear light. A series of one entry, or none, has the channel `from`.
pub open spec fn gradient_channel(from: u8, to: u8, i: int, total: int) -> u8 {
    if total <= 1 {
        from
    } else {
        gamma_compressed(interpolated(linear_light(from), linear_light(to), i, total - 1))
    }
}

/// Channel `i` of `total` on the way from `from` to `to`, interpolated on
/// the encoded values. A series of one entry, or none, has the channel
/// `from`.
pub open spec fn linear_gradient_channel(from: u8, to: u8, i: int, total: int) -> u8 {
    if total <= 1 {
        from
    } else {
        saturated_channel(interpolated(from as int, to as int, i, total - 1))
    }
}

/// Passes from one color to another over the length of a series.
pub struct Gradient<'a> {
    pub from: Color<'a>,
    pub to: Color<'a>,
}

impl<'a> Gradient<'a> {
    /// The color of position `i` of `total`, with each channel
    /// interpolated in linear light.
    pub open spec fn color_at(&self, i: int, total: int) -> Color<'a> {
        let from = self.from.channels();
        let to = self.to.channels();
        Color::RGB(
            gradient_channel(from.0, to.0, i, total),
            gradient_channel(from.1, to.1, i, total),
            gradient_channel(from.2, to.2, i, total),
        )
    }

    /// The color of position `i` of `total`, with each channel
    /// interpolated on its encoded value.
    pub open spec fn linear_color_at(&self, i: int, total: int) -> Color<'a> {
        let from = self.from.channels();
        let to = self.to.channels();
        Color::RGB(
            linear_gradient_channel(from.0, to.0, i, total),
            linear_gradient_channel(from.1, to.1, i, total),
            linear_gradient_channel(from.2, to.2, i, total),
        )
    }

    /// The color of position `i`, or `InvalidConfiguration` where one of
    /// the two ends is no `#rrggbb` text.
    pub fn checked_color_for_index(&self, i: usize, total: usize) -> (res: Result<
        Color<'a>,
        ChartError,
    >)
        ensures
            self.valid() ==> res == Ok::<Color<'a>, ChartError>(
                self.color_at(i as int, total as int),
            ),
            !self.valid() ==> res == Err::<Color<'a>, ChartError>(
                ChartError::InvalidConfiguration,
            ),
    {
        if self.is_configured() {
            let from = self.from.to_rgb();
            let to = self.to.to_rgb();
            Ok(
                Color::RGB(
                    blend_channel(from.0, to.0, i, total),
                    blend_channel(from.1, to.1, i, total),
                    blend_channel(from.2, to.2, i, total),
                ),
            )
        } else {
            Err(ChartError::InvalidConfiguration)
        }
    }

    /// The color of position `i` by interpolation on the encoded values,
    /// without gamma correction.
    pub fn linear_color_for_index(&self, i: usize, total: usize) -> (c: Color<'a>)
        requires
            self.valid(),
        ensures
            c == self.linear_color_at(i as int, total as int),
    {
        let from = self.from.to_rgb();
        let to = self.to.to_rgb();
        Color::RGB(
            blend_channel_linear(from.0, to.0, i, total),
            blend_channel_linear(from.1, to.1, i, total),
            blend_channel_linear(from.2, to.2, i, total),
        )
    }

    /// A gradient starts at its first color, and over two entries or more
    /// it ends at its second, whichever way it interpolates.
    pub proof fn lemma_endpoints(&self, total: int)
        ensures
            self.color_at(0, total).channels() == self.from.channels(),
            total >= 2 ==> self.color_at(total - 1, total).channels() == self.to.channels(),
            self.linear_color_at(0, total).channels() == self.from.channels(),
            total >= 2 ==> self.linear_color_at(total - 1, total).channels()
                == self.to.channels(),
    {
        let from = self.from.channels();
        let to = self.to.channels();
        lemma_gradient_channel_endpoints(from.0, to.0, total);
        lemma_gradient_channel_endpoints(from.1, to.1, total);
        lemma_gradient_channel_endpoints(from.2, to.2, total);
    }
}

impl ChartColor for Gradient<'_> {
    /// Both ends denote three channels.
    open spec fn valid(&self) -> bool {
        self.from.is_valid() && self.to.is_valid()
    }

    open spec fn configured(&self) -> bool {
        self.valid()
    }

    fn is_configured(&self) -> (ok: bool) {
        self.from.check_valid() && self.to.check_valid()
    }

    open spec fn yields(&self, i: usize, total: usize, c: Color<'_>) -> bool {
        c == self.color_at(i as int, total as int)
    }

    /// Interpolates in linear light, so that the steps look even.
    fn color_for_index(&self, i: usize, total: usize) -> (c: Color<'_>) {
        let from = self.from.to_rgb();
        let to = self.to.to_rgb();
        Color::RGB(
            blend_channel(from.0, to.0, i, total),
            blend_channel(from.1, to.1, i, total),
            blend_channel(from.2, to.2, i, total),
        )
    }
}

/// Interpolation at its two ends: step 0 is `from`, the last step is `to`.
proof fn lemma_interpolated_ends(from: int, to: int, steps: int)
    requires
        steps > 0,
    ensures
        interpolated(from, to, 0, steps) == from,
        interpolated(from, to, steps, steps) == to,
{
    let d = if to >= from {
        to - from
    } else {
        from - to
    };
    assert(d * 0 / steps == 0 && d * steps / steps == d) by (nonlinear_arith)
        requires
            steps > 0,
    ;
}

/// One channel of a gradient at the two ends of a series.
proof fn lemma_gradient_channel_endpoints(from: u8, to: u8, total: int)
    ensures
        gradient_channel(from, to, 0, total) == from,
        total >= 2 ==> gradient_channel(from, to, total - 1, total) == to,
        linear_gradient_channel(from, to, 0, total) == from,
        total >= 2 ==> linear_gradient_channel(from, to, total - 1, total) == to,
{
    lemma_gamma_round_trip(from);
    lemma_gamma_round_trip(to);
    if total >= 2 {
        lemma_interpolated_ends(linear_light(from), linear_light(to), total - 1);
        lemma_interpolated_ends(from as int, to as int, total - 1);
    }
}

/// Interpolates between two levels below `2^32`.
fn interpolate(from: u32, to: u32, i: usize, steps: usize) -> (level: i128)
    requires
        steps > 0,
    ensures
        level == interpolated(from as int, to as int, i as int, steps as int),
{
    if to >= from {
        let span: u128 = (to - from) as u128;
        assert(span * i <= 0x1_0000_0000 * 0x1_0000_0000_0000_0000) by (nonlinear_arith)
            requires
                span <= 0x1_0000_0000,
                i <= 0x1_0000_0000_0000_0000,
        ;
        let moved: u128 = span * (i as u128) / (steps as u128);
        from as i128 + moved as i128
    } else {
        let span: u128 = (from - to) as u128;
        assert(span * i <= 0x1_0000_0000 * 0x1_0000_0000_0000_0000) by (nonlinear_arith)
            requires
                span <= 0x1_0000_0000,
                i <= 0x1_0000_0000_0000_0000,
        ;
        let moved: u128 = span * (i as u128) / (steps as u128);
        from as i128 - moved as i128
    }
}

/// One channel of a gradient, interpolated in linear light.
fn blend_channel(from: u8, to: u8, i: usize, total: usize) -> (channel: u8)
    ensures
        channel == gradient_channel(from, to, i as int, total as int),
{
    if total <= 1 {
        from
    } else {
        let light = interpolate(
            invert_gamma_compression(from),
            invert_gamma_compression(to),
            i,
            total - 1,
        );
        gamma_compression(light)
    }
}

/// One channel of a gradient, interpolated on the encoded values.
fn blend_channel_linear(from: u8, to: u8, i: usize, total: usize) -> (channel: u8)
    ensures
        channel == linear_gradient_channel(from, to, i as int, total as int),
{
    if total <= 1 {
        from
    } else {
        let level = interpolate(from as u32, to as u32, i, total - 1);
        if level < 0 {
            0
        } else if level > 255 {
            255
        } else {
            level as u8
        }
    }
}

/// The twelve colors of the default palette, in order.
pub open spec fn catppuccin_palette() -> Seq<Color<'static>> {
    seq![
        Color::Hex("#dc8a78"),
        Color::Hex("#8839ef"),
        Color::Hex("#fe640b"),
        Color::Hex("#40a02b"),
        Color::Hex("#04a5e5"),
        Color::Hex("#ea76cb"),
        Color::Hex("#1e66f5"),
        Color::Hex("#d20f39"),
        Color::Hex("#df8e1d"),
        Color::Hex("#209fb5"),
        Color::Hex("#7287fd"),
        Color::Hex("#e64553"),
    ]
}

/// The colors of the default palette: twelve accents of the Catppuccin
/// Latte flavour.
pub fn catppuccin_colors() -> (colors: Vec<Color<'static>>)
    ensures
        colors@ == catppuccin_palette(),
{
    let mut colors: Vec<Color<'static>> = Vec::new();
    colors.push(Color::Hex("#dc8a78"));  // rosewater
    colors.push(Color::Hex("#8839ef"));  // mauve
    colors.push(Color::Hex("#fe640b"));  // peach
    colors.push(Color::Hex("#40a02b"));  // green
    colors.push(Color::Hex("#04a5e5"));  // sky
    colors.push(Color::Hex("#ea76cb"));  // pink
    colors.push(Color::Hex("#1e66f5"));  // blue
    colors.push(Color::Hex("#d20f39"));  // red
    colors.push(Color::Hex("#df8e1d"));  // yellow
    colors.push(Color::Hex("#209fb5"));  // sapphire
    colors.push(Color::Hex("#7287fd"));  // lavender
    colors.push(Color::Hex("#e64553"));  // maroon
    assert(colors@ =~= catppuccin_palette());
    colors
}

/// Every color of the default palette is a `#rrggbb` text.
pub proof fn lemma_catppuccin_valid()
    ensures
        catppuccin_palette().len() == 12,
        forall|i: int| 0 <= i < 12 ==> (#[trigger] catppuccin_palette()[i]).is_valid(),
{
    reveal_strlit("#dc8a78");
    reveal_strlit("#8839ef");
    reveal_strlit("#fe640b");
    reveal_strlit("#40a02b");
    reveal_strlit("#04a5e5");
    reveal_strlit("#ea76cb");
    reveal_strlit("#1e66f5");
    reveal_strlit("#d20f39");
    reveal_strlit("#df8e1d");
    reveal_strlit("#209fb5");
    reveal_strlit("#7287fd");
    reveal_strlit("#e64553");
}

} // verus!
