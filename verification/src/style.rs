//! Colors and text attributes, and the parameter lists that select them on a
//! terminal.

use crate::text::push_char;
use vstd::prelude::*;

verus! {

/// A foreground or background color.
#[derive(Clone, Copy, Debug, PartialEq, Eq, Hash, Structural)]
pub enum Color {
    Black,
    Red,
    Green,
    Yellow,
    Blue,
    Magenta,
    Cyan,
    White,
    BrightBlack,
    BrightRed,
    BrightGreen,
    BrightYellow,
    BrightBlue,
    BrightMagenta,
    BrightCyan,
    BrightWhite,
    Xterm256(u8),
    TrueColor { r: u8, g: u8, b: u8 },
}

/// The attributes of a style, each on or off.
#[derive(Clone, Copy, Debug, PartialEq, Eq, Hash, Structural)]
pub struct StyleFlags {
    pub bold: bool,
    pub dim: bool,
    pub italic: bool,
    pub underlined: bool,
    pub blink: bool,
    pub reverse: bool,
}

/// How a run of text is drawn.
#[derive(Clone, Copy, Debug, PartialEq, Eq, Hash, Structural)]
pub struct Style {
    pub fg: Option<Color>,
    pub bg: Option<Color>,
    pub flags: StyleFlags,
}

impl StyleFlags {
    /// No attribute.
    pub open spec fn none() -> StyleFlags {
        StyleFlags {
            bold: false,
            dim: false,
            italic: false,
            underlined: false,
            blink: false,
            reverse: false,
        }
    }

    /// No attribute.
    pub fn empty() -> (r: StyleFlags)
        ensures
            r == StyleFlags::none(),
    {
        StyleFlags {
            bold: false,
            dim: false,
            italic: false,
            underlined: false,
            blink: false,
            reverse: false,
        }
    }

    /// Whether no attribute is on.
    pub fn is_empty(&self) -> (r: bool)
        ensures
            r == (*self == StyleFlags::none()),
    {
        !self.bold && !self.dim && !self.italic && !self.underlined && !self.blink
            && !self.reverse
    }
}

impl Style {
    /// The plain style: the terminal's own colors and no attribute.
    pub open spec fn plain() -> Style {
        Style { fg: None, bg: None, flags: StyleFlags::none() }
    }

    /// The plain style: the terminal's own colors and no attribute.
    pub fn reset() -> (r: Style)
        ensures
            r == Style::plain(),
    {
        Style { fg: None, bg: None, flags: StyleFlags::empty() }
    }

    /// The style with `bold` switched on or off.
    pub open spec fn with_bold(self, on: bool) -> Style {
        Style { flags: StyleFlags { bold: on, ..self.flags }, ..self }
    }

    /// The style with `dim` switched on or off.
    pub open spec fn with_dim(self, on: bool) -> Style {
        Style { flags: StyleFlags { dim: on, ..self.flags }, ..self }
    }

    /// The style with `italic` switched on or off.
    pub open spec fn with_italic(self, on: bool) -> Style {
        Style { flags: StyleFlags { italic: on, ..self.flags }, ..self }
    }

    /// The style with `underlined` switched on or off.
    pub open spec fn with_underlined(self, on: bool) -> Style {
        Style { flags: StyleFlags { underlined: on, ..self.flags }, ..self }
    }

    /// The style with `blink` switched on or off.
    pub open spec fn with_blink(self, on: bool) -> Style {
        Style { flags: StyleFlags { blink: on, ..self.flags }, ..self }
    }

    /// The style with `reverse` switched on or off.
    pub open spec fn with_reverse(self, on: bool) -> Style {
        Style { flags: StyleFlags { reverse: on, ..self.flags }, ..self }
    }
}

impl Default for Style {
    fn default() -> (r: Style)
        ensures
            r == Style::plain(),
    {
        Style::reset()
    }
}

/// The decimal digits of `n`, most significant first.
pub open spec fn decimal(n: nat) -> Seq<char>
    decreases n,
{
    if n < 10 {
        seq![digit(n)]
    } else {
        decimal(n / 10).push(digit(n % 10))
    }
}

/// The character of a single decimal digit.
pub open spec fn digit(d: nat) -> char {
    if d == 0 {
        '0'
    } else if d == 1 {
        '1'
    } else if d == 2 {
        '2'
    } else if d == 3 {
        '3'
    } else if d == 4 {
        '4'
    } else if d == 5 {
        '5'
    } else if d == 6 {
        '6'
    } else if d == 7 {
        '7'
    } else if d == 8 {
        '8'
    } else {
        '9'
    }
}

fn push_digit(out: &mut String, d: u16)
    requires
        d < 10,
    ensures
        final(out)@ == old(out)@.push(digit(d as nat)),
{
    proof {
        reveal_strlit("0");
        reveal_strlit("1");
        reveal_strlit("2");
        reveal_strlit("3");
        reveal_strlit("4");
        reveal_strlit("5");
        reveal_strlit("6");
        reveal_strlit("7");
        reveal_strlit("8");
        reveal_strlit("9");
    }
    let s: &str = if d == 0 {
        "0"
    } else if d == 1 {
        "1"
    } else if d == 2 {
        "2"
    } else if d == 3 {
        "3"
    } else if d == 4 {
        "4"
    } else if d == 5 {
        "5"
    } else if d == 6 {
        "6"
    } else if d == 7 {
        "7"
    } else if d == 8 {
        "8"
    } else {
        "9"
    };
    assert(s@ =~= seq![digit(d as nat)]);
    out.append(s);
    assert(out@ =~= old(out)@.push(digit(d as nat)));
}

/// Appends `n` in decimal to `out`.
pub fn push_decimal(out: &mut String, n: u16)
    ensures
        final(out)@ == old(out)@ + decimal(n as nat),
    decreases n,
{
    if n < 10 {
        push_digit(out, n);
        assert(out@ =~= old(out)@ + decimal(n as nat));
    } else {
        push_decimal(out, n / 10);
        push_digit(out, n % 10);
        assert(out@ =~= old(out)@ + decimal(n as nat));
    }
}

/// `parts` one after the other, with `sep` between two of them.
pub open spec fn join(parts: Seq<Seq<char>>, sep: char) -> Seq<char>
    decreases parts.len(),
{
    if parts.len() == 0 {
        seq![]
    } else if parts.len() == 1 {
        parts[0]
    } else {
        join(parts.drop_last(), sep).push(sep) + parts.last()
    }
}

/// `part` in a sequence of its own where `on` holds, else no part.
pub open spec fn part_if(on: bool, part: Seq<char>) -> Seq<Seq<char>> {
    if on {
        seq![part]
    } else {
        seq![]
    }
}

impl Color {
    /// The place of the color among the eight colors of its kind, for the
    /// sixteen colors that have a name.
    pub open spec fn index(self) -> nat {
        match self {
            Color::Black | Color::BrightBlack => 0,
            Color::Red | Color::BrightRed => 1,
            Color::Green | Color::BrightGreen => 2,
            Color::Yellow | Color::BrightYellow => 3,
            Color::Blue | Color::BrightBlue => 4,
            Color::Magenta | Color::BrightMagenta => 5,
            Color::Cyan | Color::BrightCyan => 6,
            _ => 7,
        }
    }

    /// Whether the color is one of the eight bright colors.
    pub open spec fn is_bright(self) -> bool {
        match self {
            Color::BrightBlack
            | Color::BrightRed
            | Color::BrightGreen
            | Color::BrightYellow
            | Color::BrightBlue
            | Color::BrightMagenta
            | Color::BrightCyan
            | Color::BrightWhite => true,
            _ => false,
        }
    }

    /// The parameters that select the color, counted from `base`: 30 for
    /// the foreground, 40 for the background. A color with a name is `base`
    /// and its index, 60 more if it is bright. A color of the palette of 256
    /// is `base` and 8, then 5 and its number. Any other is `base` and 8,
    /// then 2 and its red, green and blue.
    pub open spec fn codes(self, base: nat) -> Seq<char> {
        match self {
            Color::Xterm256(n) => decimal(base + 8) + seq![';', '5', ';'] + decimal(n as nat),
            Color::TrueColor { r, g, b } => decimal(base + 8) + seq![';', '2', ';'] + decimal(
                r as nat,
            ) + seq![';'] + decimal(g as nat) + seq![';'] + decimal(b as nat),
            _ => if self.is_bright() {
                decimal(base + 60 + self.index())
            } else {
                decimal(base + self.index())
            },
        }
    }

    fn write_codes(self, out: &mut String, base: u16)
        requires
            base <= 40,
        ensures
            final(out)@ == old(out)@ + self.codes(base as nat),
    {
        match self {
            Color::Xterm256(n) => {
                push_decimal(out, base + 8);
                proof {
                    reveal_strlit(";5;");
                }
                out.append(";5;");
                push_decimal(out, n as u16);
                assert(out@ =~= old(out)@ + self.codes(base as nat));
            },
            Color::TrueColor { r, g, b } => {
                proof {
                    reveal_strlit(";2;");
                    reveal_strlit(";");
                }
                push_decimal(out, base + 8);
                out.append(";2;");
                push_decimal(out, r as u16);
                out.append(";");
                push_decimal(out, g as u16);
                out.append(";");
                push_decimal(out, b as u16);
                assert(out@ =~= old(out)@ + self.codes(base as nat));
            },
            _ => {
                let index: u16 = match self {
                    Color::Black | Color::BrightBlack => 0,
                    Color::Red | Color::BrightRed => 1,
                    Color::Green | Color::BrightGreen => 2,
                    Color::Yellow | Color::BrightYellow => 3,
                    Color::Blue | Color::BrightBlue => 4,
                    Color::Magenta | Color::BrightMagenta => 5,
                    Color::Cyan | Color::BrightCyan => 6,
                    _ => 7,
                };
                let bright = match self {
                    Color::BrightBlack
                    | Color::BrightRed
                    | Color::BrightGreen
                    | Color::BrightYellow
                    | Color::BrightBlue
                    | Color::BrightMagenta
                    | Color::BrightCyan
                    | Color::BrightWhite => true,
                    _ => false,
                };
                if bright {
                    push_decimal(out, base + 60 + index);
                } else {
                    push_decimal(out, base + index);
                }
            },
        }
    }

    /// Appends the parameters that select the color as foreground.
    pub fn write_fg(self, out: &mut String)
        ensures
            final(out)@ == old(out)@ + self.codes(30),
    {
        self.write_codes(out, 30)
    }

    /// Appends the parameters that select the color as background.
    pub fn write_bg(self, out: &mut String)
        ensures
            final(out)@ == old(out)@ + self.codes(40),
    {
        self.write_codes(out, 40)
    }
}

/// The parameters that select `color`, counted from `base`, as one part;
/// no part where there is no color.
pub open spec fn color_part(color: Option<Color>, base: nat) -> Seq<Seq<char>> {
    match color {
        Some(c) => seq![c.codes(base)],
        None => seq![],
    }
}

impl Style {
    /// The parameters of the style, one by one: its attributes in the order
    /// bold, dim, italic, underlined, blink, reverse, as 1 to 6, then the
    /// foreground and the background.
    pub open spec fn parts(self) -> Seq<Seq<char>> {
        part_if(self.flags.bold, seq!['1']) + part_if(self.flags.dim, seq!['2']) + part_if(
            self.flags.italic,
            seq!['3'],
        ) + part_if(self.flags.underlined, seq!['4']) + part_if(self.flags.blink, seq!['5'])
            + part_if(self.flags.reverse, seq!['6']) + color_part(self.fg, 30) + color_part(
            self.bg,
            40,
        )
    }

    /// The parameters that select the style on a terminal, with `;` between
    /// them; empty for the plain style.
    pub open spec fn codes(self) -> Seq<char> {
        join(self.parts(), ';')
    }

    /// The parameters that select the style on a terminal.
    pub fn to_codes(&self) -> (r: String)
        ensures
            r@ == self.codes(),
    {
        let mut out = String::new();
        let mut started = false;
        let ghost p0 = Seq::<Seq<char>>::empty();
        assert(out@ =~= join(p0, ';'));
        put_flag(&mut out, &mut started, self.flags.bold, '1', Ghost(p0));
        let ghost p1 = p0 + part_if(self.flags.bold, seq!['1']);
        put_flag(&mut out, &mut started, self.flags.dim, '2', Ghost(p1));
        let ghost p2 = p1 + part_if(self.flags.dim, seq!['2']);
        put_flag(&mut out, &mut started, self.flags.italic, '3', Ghost(p2));
        let ghost p3 = p2 + part_if(self.flags.italic, seq!['3']);
        put_flag(&mut out, &mut started, self.flags.underlined, '4', Ghost(p3));
        let ghost p4 = p3 + part_if(self.flags.underlined, seq!['4']);
        put_flag(&mut out, &mut started, self.flags.blink, '5', Ghost(p4));
        let ghost p5 = p4 + part_if(self.flags.blink, seq!['5']);
        put_flag(&mut out, &mut started, self.flags.reverse, '6', Ghost(p5));
        let ghost p6 = p5 + part_if(self.flags.reverse, seq!['6']);
        put_color(&mut out, &mut started, self.fg, 30, Ghost(p6));
        let ghost p7 = p6 + color_part(self.fg, 30);
        put_color(&mut out, &mut started, self.bg, 40, Ghost(p7));
        out
    }
}

proof fn lemma_join_push(parts: Seq<Seq<char>>, part: Seq<char>)
    ensures
        join(parts.push(part), ';') == if parts.len() == 0 {
            part
        } else {
            join(parts, ';').push(';') + part
        },
        parts + seq![part] == parts.push(part),
        parts + Seq::<Seq<char>>::empty() == parts,
{
    let all = parts.push(part);
    assert(all.drop_last() =~= parts);
    assert(all.last() == part);
    assert(parts + seq![part] =~= all);
    assert(parts + Seq::<Seq<char>>::empty() =~= parts);
}

fn put_part(out: &mut String, started: &mut bool, part: &str, Ghost(parts): Ghost<Seq<Seq<char>>>)
    requires
        old(out)@ == join(parts, ';'),
        *old(started) == (parts.len() > 0),
    ensures
        final(out)@ == join(parts + seq![part@], ';'),
        *final(started),
{
    if *started {
        proof {
            reveal_strlit(";");
        }
        out.append(";");
    }
    *started = true;
    out.append(part);
    proof {
        lemma_join_push(parts, part@);
        if parts.len() == 0 {
            assert(out@ =~= part@);
        } else {
            assert(out@ =~= join(parts, ';').push(';') + part@);
        }
    }
}

fn put_flag(
    out: &mut String,
    started: &mut bool,
    on: bool,
    code: char,
    Ghost(parts): Ghost<Seq<Seq<char>>>,
)
    requires
        old(out)@ == join(parts, ';'),
        *old(started) == (parts.len() > 0),
    ensures
        final(out)@ == join(parts + part_if(on, seq![code]), ';'),
        *final(started) == ((parts + part_if(on, seq![code])).len() > 0),
{
    if on {
        let mut part = String::new();
        push_char(&mut part, code);
        assert(part@ =~= seq![code]);
        put_part(out, started, part.as_str(), Ghost(parts));
    } else {
        proof {
            lemma_join_push(parts, seq![code]);
        }
    }
}

fn put_color(
    out: &mut String,
    started: &mut bool,
    color: Option<Color>,
    base: u16,
    Ghost(parts): Ghost<Seq<Seq<char>>>,
)
    requires
        base <= 40,
        old(out)@ == join(parts, ';'),
        *old(started) == (parts.len() > 0),
    ensures
        final(out)@ == join(parts + color_part(color, base as nat), ';'),
        *final(started) == ((parts + color_part(color, base as nat)).len() > 0),
{
    match color {
        Some(c) => {
            let mut part = String::new();
            c.write_codes(&mut part, base);
            assert(part@ =~= c.codes(base as nat));
            put_part(out, started, part.as_str(), Ghost(parts));
        },
        None => {
            proof {
                lemma_join_push(parts, seq![]);
            }
        },
    }
}

} // verus!
