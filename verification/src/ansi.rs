use vstd::prelude::*;

use crate::text::dec_chars;

verus! {

/// The base terminal colors, in escape-code order.
#[derive(Copy, Clone, PartialEq, Eq, Structural, Debug)]
pub enum Color {
    Reset,
    Black,
    Red,
    Green,
    Yellow,
    Blue,
    Magenta,
    Cyan,
    White,
}

impl Color {
    /// The foreground escape code of the color (0 for the reset color).
    pub open spec fn base_code(self) -> int {
        match self {
            Color::Reset => 0,
            Color::Black => 30,
            Color::Red => 31,
            Color::Green => 32,
            Color::Yellow => 33,
            Color::Blue => 34,
            Color::Magenta => 35,
            Color::Cyan => 36,
            Color::White => 37,
        }
    }

    fn code(self) -> (r: u8)
        ensures
            r as int == self.base_code(),
    {
        match self {
            Color::Reset => 0,
            Color::Black => 30,
            Color::Red => 31,
            Color::Green => 32,
            Color::Yellow => 33,
            Color::Blue => 34,
            Color::Magenta => 35,
            Color::Cyan => 36,
            Color::White => 37,
        }
    }

    /// The code shifted into one of the four ANSI color ranges; the reset
    /// color always maps to code 0.
    pub open spec fn shifted_code(self, offset: int) -> int {
        if self == Color::Reset {
            0
        } else {
            self.base_code() + offset
        }
    }

    pub fn fg(self) -> (r: ColorCode)
        ensures
            r.code_spec() == self.shifted_code(0),
    {
        ColorCode(self.code())
    }

    pub fn bg(self) -> (r: ColorCode)
        ensures
            r.code_spec() == self.shifted_code(10),
    {
        if self == Color::Reset {
            ColorCode(0)
        } else {
            ColorCode(self.code() + 10)
        }
    }

    pub fn fg_bright(self) -> (r: ColorCode)
        ensures
            r.code_spec() == self.shifted_code(60),
    {
        if self == Color::Reset {
            ColorCode(0)
        } else {
            ColorCode(self.code() + 60)
        }
    }

    pub fn bg_bright(self) -> (r: ColorCode)
        ensures
            r.code_spec() == self.shifted_code(70),
    {
        if self == Color::Reset {
            ColorCode(0)
        } else {
            ColorCode(self.code() + 70)
        }
    }
}

/// A resolved numeric escape code.
pub struct ColorCode(u8);

impl ColorCode {
    pub closed spec fn code_spec(&self) -> int {
        self.0 as int
    }
}

/// One fragment of an escape sequence, as text.
pub struct StyleElem(String);

impl StyleElem {
    pub closed spec fn chars(&self) -> Seq<char> {
        self.0@
    }

    /// The bold-off fragment.
    pub fn bold() -> (r: Self)
        ensures
            r.chars() == "22"@,
    {
        StyleElem("22".to_owned())
    }

    /// The fragment of a numeric color code, in decimal.
    pub fn from_code(cc: ColorCode) -> (r: Self)
        ensures
            r.chars() == dec_chars(cc.code_spec() as nat),
    {
        StyleElem(crate::text::usize_to_string(cc.0 as usize))
    }
}

/// An accumulating escape-sequence prefix: the introducer followed by
/// semicolon-separated fragments, still missing its closing letter.
#[derive(Clone)]
pub struct Style(String, bool);

impl Style {
    /// The characters accumulated so far.
    pub closed spec fn chars(&self) -> Seq<char> {
        self.0@
    }

    /// No fragment has been appended yet.
    pub closed spec fn fresh(&self) -> bool {
        self.1
    }

    /// A bare escape introducer.
    pub fn new() -> (r: Self)
        ensures
            r.chars() == "\x1b["@,
            r.fresh(),
    {
        Style("\x1b[".to_owned(), true)
    }

    fn add(self, effect: &str) -> (r: Self)
        ensures
            r.chars() == if self.fresh() {
                self.chars() + effect@
            } else {
                self.chars() + ";"@ + effect@
            },
            !r.fresh(),
    {
        let Style(mut s, first) = self;
        if first {
            s.append(effect);
        } else {
            s.append(";");
            s.append(effect);
        }
        Style(s, false)
    }

    /// The style extended by one fragment.
    pub fn with(self, style_elem: StyleElem) -> (r: Self)
        ensures
            r.chars() == if self.fresh() {
                self.chars() + style_elem.chars()
            } else {
                self.chars() + ";"@ + style_elem.chars()
            },
            !r.fresh(),
    {
        let StyleElem(e) = style_elem;
        self.add(e.as_str())
    }

    /// A style holding just one fragment.
    pub fn from_elem(style_elem: StyleElem) -> (r: Self)
        ensures
            r.chars() == "\x1b["@ + style_elem.chars(),
            !r.fresh(),
    {
        Style::new().with(style_elem)
    }

    /// Two styles chained: the first sequence is closed and the second
    /// follows it.
    pub fn combine(&self, other: &Self) -> (r: Self)
        ensures
            r.chars() == self.chars() + "m"@ + other.chars(),
            r.fresh() == other.fresh(),
    {
        let mut s = self.0.clone();
        s.append("m");
        s.append(other.0.as_str());
        Style(s, other.1)
    }

    /// `thing` wrapped in this style and a closing reset sequence.
    pub fn fmt(&self, thing: &str) -> (r: String)
        ensures
            r@ == self.chars() + "m"@ + thing@ + "\x1b["@ + "0m"@,
    {
        let mut s = self.0.clone();
        s.append("m");
        s.append(thing);
        s.append("\x1b[");
        s.append("0m");
        s
    }
}

/// The styling of a rendered board: checkerboard backgrounds, piece styles,
/// and the arrow marker style.
pub struct BoardStyle {
    pub checker_light: Style,
    pub checker_dark: Style,
    pub amazon_light: Style,
    pub amazon_dark: Style,
    pub arrow: Style,
}

impl Default for BoardStyle {
    /// Bright-white and white checkering, bright-black and bold black
    /// pieces, and bold black arrows.
    fn default() -> (r: Self)
        ensures
            r.checker_light.chars() == "\x1b["@ + dec_chars(107),
            r.checker_dark.chars() == "\x1b["@ + dec_chars(47),
            r.amazon_light.chars() == "\x1b["@ + dec_chars(90),
            r.amazon_dark.chars() == "\x1b["@ + dec_chars(30) + ";"@ + "22"@,
            r.arrow.chars() == "\x1b["@ + dec_chars(30) + ";"@ + "22"@,
    {
        BoardStyle {
            checker_light: Style::from_elem(StyleElem::from_code(Color::White.bg_bright())),
            checker_dark: Style::from_elem(StyleElem::from_code(Color::White.bg())),
            amazon_light: Style::from_elem(StyleElem::from_code(Color::Black.fg_bright())),
            amazon_dark: Style::from_elem(StyleElem::from_code(Color::Black.fg())).with(
                StyleElem::bold(),
            ),
            arrow: Style::from_elem(StyleElem::from_code(Color::Black.fg())).with(
                StyleElem::bold(),
            ),
        }
    }
}

} // verus!
