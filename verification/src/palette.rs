use vstd::prelude::*;

use crate::color::Color;
use crate::layout::{ansi_code, html_style};

verus! {

// The eight terminal colors are the corners of the RGB cube: each of red, green and blue is
// either off or fully on. The terminal escape sequences and the HTML styles both follow from
// that.

/// Which of red, green and blue a color has fully on (the default color has none).
pub open spec fn rgb(c: Color) -> (bool, bool, bool) {
    match c {
        Color::Default => (false, false, false),
        Color::Black => (false, false, false),
        Color::Red => (true, false, false),
        Color::Green => (false, true, false),
        Color::Yellow => (true, true, false),
        Color::Blue => (false, false, true),
        Color::Magenta => (true, false, true),
        Color::Cyan => (false, true, true),
        Color::White => (true, true, true),
    }
}

/// 1 for a component that is on, 0 for one that is off.
pub open spec fn bit(b: bool) -> int {
    if b { 1 } else { 0 }
}

/// The ANSI color number of a color (0 to 7): red counts 1, green 2 and blue 4.
pub open spec fn ansi_number(c: Color) -> int {
    let (r, g, b) = rgb(c);
    bit(r) + 2 * bit(g) + 4 * bit(b)
}

/// The decimal digit for `n` from 0 to 9.
pub open spec fn digit(n: int) -> char {
    if n == 0 { '0' }
    else if n == 1 { '1' }
    else if n == 2 { '2' }
    else if n == 3 { '3' }
    else if n == 4 { '4' }
    else if n == 5 { '5' }
    else if n == 6 { '6' }
    else if n == 7 { '7' }
    else if n == 8 { '8' }
    else { '9' }
}

/// The two hexadecimal digits of a component that is fully on or off.
pub open spec fn channel_hex(b: bool) -> Seq<char> {
    if b { seq!['f', 'f'] } else { seq!['0', '0'] }
}

/// The escape sequence that switches the terminal to a color is the SGR foreground sequence
/// `ESC [ 3n m` with `n` the color's ANSI number, or `ESC [ 39 m` for the default color; so
/// different colors get different sequences.
pub proof fn lemma_ansi_codes_are_sgr_foreground(c: Color, d: Color)
    ensures
        c != Color::Default ==> ansi_code(c) == seq!['\x1b', '[', '3', digit(ansi_number(c)), 'm'],
        ansi_code(Color::Default) == seq!['\x1b', '[', '3', '9', 'm'],
        c != d ==> ansi_code(c) != ansi_code(d),
{
    reveal_strlit("\x1b[39m");
    reveal_strlit("\x1b[30m");
    reveal_strlit("\x1b[31m");
    reveal_strlit("\x1b[32m");
    reveal_strlit("\x1b[33m");
    reveal_strlit("\x1b[34m");
    reveal_strlit("\x1b[35m");
    reveal_strlit("\x1b[36m");
    reveal_strlit("\x1b[37m");
    assert(ansi_code(c) =~= seq!['\x1b', '[', '3', if c == Color::Default { '9' } else { digit(ansi_number(c)) }, 'm']);
    assert(ansi_code(d) =~= seq!['\x1b', '[', '3', if d == Color::Default { '9' } else { digit(ansi_number(d)) }, 'm']);
    if c != d {
        assert(ansi_code(c)[3] != ansi_code(d)[3]);
    }
}

/// The inline style of a color other than the default is `color: #rrggbb`, each component
/// `ff` when it is on and `00` when it is off; so different colors get different styles.
pub proof fn lemma_html_styles_are_rgb(c: Color, d: Color)
    ensures
        c != Color::Default ==> html_style(c) == "color: #"@ + channel_hex(rgb(c).0) + channel_hex(rgb(c).1)
            + channel_hex(rgb(c).2),
        c != Color::Default && d != Color::Default && c != d ==> html_style(c) != html_style(d),
{
    reveal_strlit("color: #");
    reveal_strlit("color: #000000");
    reveal_strlit("color: #ff0000");
    reveal_strlit("color: #00ff00");
    reveal_strlit("color: #ffff00");
    reveal_strlit("color: #0000ff");
    reveal_strlit("color: #ff00ff");
    reveal_strlit("color: #00ffff");
    reveal_strlit("color: #ffffff");
    if c != Color::Default {
        assert(html_style(c) =~= "color: #"@ + channel_hex(rgb(c).0) + channel_hex(rgb(c).1) + channel_hex(rgb(c).2));
    }
    if c != Color::Default && d != Color::Default && c != d {
        assert(html_style(c) =~= "color: #"@ + channel_hex(rgb(c).0) + channel_hex(rgb(c).1) + channel_hex(rgb(c).2));
        assert(html_style(d) =~= "color: #"@ + channel_hex(rgb(d).0) + channel_hex(rgb(d).1) + channel_hex(rgb(d).2));
        assert(rgb(c) != rgb(d));
        if rgb(c).0 != rgb(d).0 {
            assert(html_style(c)[8] != html_style(d)[8]);
        } else if rgb(c).1 != rgb(d).1 {
            assert(html_style(c)[10] != html_style(d)[10]);
        } else {
            assert(html_style(c)[12] != html_style(d)[12]);
        }
    }
}

} // verus!
