use vstd::prelude::*;

use crate::text::{all_ascii, ascii_lower, chars_eq, chars_of, spec_to_lowercase, to_lowercase};

verus! {

/// How a view of the raster is turned into text.
#[derive(Clone, Copy, Debug)]
pub enum ExportFormat {
    /// Braille characters only, no colors.
    Plain,
    /// Braille characters with ANSI color escape sequences.
    Color,
    /// A self-contained HTML fragment with inline color styles.
    Html,
}

/// The eight ANSI colors, plus the terminal's default color.
#[derive(Copy, Clone, Debug, PartialEq, Eq, Structural)]
pub enum Color {
    Default,
    Black,
    Red,
    Green,
    Yellow,
    Blue,
    Magenta,
    Cyan,
    White,
}

/// The color a lowercase name stands for: "default" and "white" both name the default color;
/// "black", "red", "green", "yellow", "blue", "magenta" and "cyan" name those colors; any other
/// name none.
pub open spec fn color_named(name: Seq<char>) -> Option<Color> {
    if name == "default"@ || name == "white"@ {
        Some(Color::Default)
    } else if name == "black"@ {
        Some(Color::Black)
    } else if name == "red"@ {
        Some(Color::Red)
    } else if name == "green"@ {
        Some(Color::Green)
    } else if name == "yellow"@ {
        Some(Color::Yellow)
    } else if name == "blue"@ {
        Some(Color::Blue)
    } else if name == "magenta"@ {
        Some(Color::Magenta)
    } else if name == "cyan"@ {
        Some(Color::Cyan)
    } else {
        None
    }
}

impl Color {
    /// The color that `s` names, ignoring case (see [`color_named`]).
    pub fn from_string(s: &str) -> (r: Option<Color>)
        ensures
            r == color_named(spec_to_lowercase(s@)),
            all_ascii(s@) ==> r == color_named(s@.map_values(|c: char| ascii_lower(c))),
    {
        let lower = to_lowercase(s);
        Self::from_lowercase_name(lower.as_str())
    }

    /// The color that the lowercase name `name` stands for (see [`color_named`]).
    pub fn from_lowercase_name(name: &str) -> (r: Option<Color>)
        ensures
            r == color_named(name@),
    {
        let n = chars_of(name);
        if chars_eq(&n, "default") || chars_eq(&n, "white") {
            Some(Color::Default)
        } else if chars_eq(&n, "black") {
            Some(Color::Black)
        } else if chars_eq(&n, "red") {
            Some(Color::Red)
        } else if chars_eq(&n, "green") {
            Some(Color::Green)
        } else if chars_eq(&n, "yellow") {
            Some(Color::Yellow)
        } else if chars_eq(&n, "blue") {
            Some(Color::Blue)
        } else if chars_eq(&n, "magenta") {
            Some(Color::Magenta)
        } else if chars_eq(&n, "cyan") {
            Some(Color::Cyan)
        } else {
            None
        }
    }
}

/// The English name of each color (the default color is named "default").
pub open spec fn english_name(c: Color) -> Seq<char> {
    match c {
        Color::Default => "default"@,
        Color::Black => "black"@,
        Color::Red => "red"@,
        Color::Green => "green"@,
        Color::Yellow => "yellow"@,
        Color::Blue => "blue"@,
        Color::Magenta => "magenta"@,
        Color::Cyan => "cyan"@,
        Color::White => "white"@,
    }
}

/// Every color is found by its English name, except that "white" gives the default color
/// (the terminal's own foreground); and a name gives a color other than the default only when
/// it is that color's English name.
pub proof fn lemma_colors_found_by_name(c: Color, name: Seq<char>)
    ensures
        c != Color::White ==> color_named(english_name(c)) == Some(c),
        color_named("white"@) == Some(Color::Default),
        color_named(name) matches Some(k) ==> (k != Color::Default ==> name == english_name(k)),
{
    reveal_strlit("default");
    reveal_strlit("white");
    reveal_strlit("black");
    reveal_strlit("red");
    reveal_strlit("green");
    reveal_strlit("yellow");
    reveal_strlit("blue");
    reveal_strlit("magenta");
    reveal_strlit("cyan");
    assert("default"@.len() == 7 && "default"@[0] == 'd');
    assert("white"@.len() == 5 && "white"@[0] == 'w');
    assert("black"@.len() == 5 && "black"@[0] == 'b');
    assert("red"@.len() == 3 && "red"@[0] == 'r');
    assert("green"@.len() == 5 && "green"@[0] == 'g');
    assert("yellow"@.len() == 6 && "yellow"@[0] == 'y');
    assert("blue"@.len() == 4 && "blue"@[0] == 'b');
    assert("magenta"@.len() == 7 && "magenta"@[0] == 'm');
    assert("cyan"@.len() == 4 && "cyan"@[0] == 'c');
}

} // verus!
