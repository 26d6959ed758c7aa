use vstd::prelude::*;

use crate::braille::braille_char;
use crate::color::Color;

verus! {

// How a raster of dots is laid out as rows of terminal characters: each character shows the
// dots of four raster rows and two raster columns.

/// Number of character columns for a raster `width` dots wide.
pub open spec fn cell_columns(width: int) -> int {
    (width + 1) / 2
}

/// Number of character rows for a raster with `rows` rows of dots.
pub open spec fn cell_rows(rows: int) -> int {
    (rows + 3) / 4
}

/// Whether character column `bx` takes the odd last dot of a row of `n` dots: the last
/// character column does, when the row has an odd number of dots.
pub open spec fn takes_odd_dot(n: int, cols: int, bx: int) -> bool {
    cols > 0 && n % 2 == 1 && bx == cols - 1
}

/// The dot in column `col` (0 or 1) of character column `bx`, taken from one row of dots.
/// Dots come in pairs from the left; a row with an odd number of dots gives its last dot to
/// the left column of the last character column, replacing what the pairs put there.
pub open spec fn cell_dot(row: Seq<bool>, cols: int, bx: int, col: int) -> bool {
    let n = row.len() as int;
    if takes_odd_dot(n, cols, bx) && col == 0 {
        row[n - 1]
    } else if bx < n / 2 {
        row[2 * bx + col]
    } else {
        false
    }
}

/// The dots of the character at character row `k` and column `bx` (4 rows of 2 dots); raster
/// rows beyond the last give no dots.
pub open spec fn cell_dots(pixels: Seq<Seq<bool>>, cols: int, k: int, bx: int) -> Seq<Seq<bool>> {
    Seq::new(
        4,
        |sub: int|
            Seq::new(
                2,
                |col: int|
                    if 4 * k + sub < pixels.len() {
                        cell_dot(pixels[4 * k + sub], cols, bx, col)
                    } else {
                        false
                    },
            ),
    )
}

/// The Braille character at character row `k` and column `bx`.
pub open spec fn cell_char(pixels: Seq<Seq<bool>>, cols: int, k: int, bx: int) -> char {
    braille_char(cell_dots(pixels, cols, k, bx))
}

/// The pair of dots (with their colors) of one raster row that character column `bx` shows.
pub open spec fn pair_candidates(prow: Seq<bool>, crow: Seq<Color>, bx: int) -> Seq<(bool, Color)> {
    if bx < prow.len() / 2 {
        seq![(prow[2 * bx], crow[2 * bx]), (prow[2 * bx + 1], crow[2 * bx + 1])]
    } else {
        Seq::empty()
    }
}

/// The odd last dot (with its color) of one raster row, if character column `bx` takes it.
pub open spec fn odd_candidates(prow: Seq<bool>, crow: Seq<Color>, cols: int, bx: int) -> Seq<(bool, Color)> {
    let n = prow.len() as int;
    if takes_odd_dot(n, cols, bx) {
        seq![(prow[n - 1], crow[n - 1])]
    } else {
        Seq::empty()
    }
}

/// The dots (with their colors) of one raster row that character column `bx` shows, in the
/// order they are examined: the pair first, then the odd last dot.
pub open spec fn row_candidates(prow: Seq<bool>, crow: Seq<Color>, cols: int, bx: int) -> Seq<(bool, Color)> {
    pair_candidates(prow, crow, bx) + odd_candidates(prow, crow, cols, bx)
}

/// The pair of dots of one raster row at character column `bx` (off past the pairs).
pub open spec fn pair_dots(prow: Seq<bool>, bx: int) -> Seq<bool> {
    if bx < prow.len() / 2 {
        seq![prow[2 * bx], prow[2 * bx + 1]]
    } else {
        seq![false, false]
    }
}

/// The dots (with colors) that the character at row `k`, column `bx` shows, from its first
/// `subs` raster rows, top to bottom.
pub open spec fn cell_candidates(
    pixels: Seq<Seq<bool>>,
    colors: Seq<Seq<Color>>,
    cols: int,
    k: int,
    bx: int,
    subs: int,
) -> Seq<(bool, Color)>
    decreases subs,
{
    if subs <= 0 {
        Seq::empty()
    } else {
        let r = 4 * k + subs - 1;
        cell_candidates(pixels, colors, cols, k, bx, subs - 1) + if r < pixels.len() {
            row_candidates(pixels[r], colors[r], cols, bx)
        } else {
            Seq::empty()
        }
    }
}

/// The color of the first set dot that has a color other than the default, or the default.
pub open spec fn first_color(c: Seq<(bool, Color)>) -> Color
    decreases c.len(),
{
    if c.len() == 0 {
        Color::Default
    } else if c[0].0 && c[0].1 != Color::Default {
        c[0].1
    } else {
        first_color(c.drop_first())
    }
}

/// The color of the character at character row `k` and column `bx`: that of its first set,
/// non-default-colored dot, row by row from the top.
pub open spec fn cell_color(pixels: Seq<Seq<bool>>, colors: Seq<Seq<Color>>, cols: int, k: int, bx: int) -> Color {
    first_color(cell_candidates(pixels, colors, cols, k, bx, 4))
}

/// The characters of character row `k`, each with its color.
pub open spec fn cells(pixels: Seq<Seq<bool>>, colors: Seq<Seq<Color>>, cols: int, k: int) -> Seq<(char, Color)> {
    Seq::new(cols as nat, |bx: int| (cell_char(pixels, cols, k, bx), cell_color(pixels, colors, cols, k, bx)))
}

/// The characters of character row `k`, without colors.
pub open spec fn plain_row(pixels: Seq<Seq<bool>>, cols: int, k: int) -> Seq<char> {
    Seq::new(cols as nat, |bx: int| cell_char(pixels, cols, k, bx))
}

/// All character rows, without colors.
pub open spec fn plain_rows(pixels: Seq<Seq<bool>>, width: int) -> Seq<Seq<char>> {
    Seq::new(cell_rows(pixels.len() as int) as nat, |k: int| plain_row(pixels, cell_columns(width), k))
}

/// ANSI escape sequence that switches the foreground to `c`.
pub open spec fn ansi_code(c: Color) -> Seq<char> {
    match c {
        Color::Default => "\x1b[39m"@,
        Color::Black => "\x1b[30m"@,
        Color::Red => "\x1b[31m"@,
        Color::Green => "\x1b[32m"@,
        Color::Yellow => "\x1b[33m"@,
        Color::Blue => "\x1b[34m"@,
        Color::Magenta => "\x1b[35m"@,
        Color::Cyan => "\x1b[36m"@,
        Color::White => "\x1b[37m"@,
    }
}

/// Text of a run of colored characters when the terminal's current color is `cur`: before each
/// character whose color differs from the current one, the escape sequence for its color.
/// Also gives the current color after the run.
pub open spec fn ansi_run(cells: Seq<(char, Color)>, cur: Color) -> (Seq<char>, Color)
    decreases cells.len(),
{
    if cells.len() == 0 {
        (Seq::empty(), cur)
    } else {
        let (t, c) = ansi_run(cells.drop_last(), cur);
        let (ch, col) = cells.last();
        (t + (if col != c { ansi_code(col) } else { Seq::empty() }) + seq![ch], col)
    }
}

/// The first `n` character rows as colored text, the color carrying over from row to row
/// (starting from the default), and the color current after them.
pub open spec fn ansi_rows(pixels: Seq<Seq<bool>>, colors: Seq<Seq<Color>>, width: int, n: int) -> (Seq<Seq<char>>, Color)
    decreases n,
{
    if n <= 0 {
        (Seq::empty(), Color::Default)
    } else {
        let (rows, cur) = ansi_rows(pixels, colors, width, n - 1);
        let (t, c) = ansi_run(cells(pixels, colors, cell_columns(width), n - 1), cur);
        (rows.push(t), c)
    }
}

/// Inline CSS for a color in HTML output.
pub open spec fn html_style(c: Color) -> Seq<char> {
    match c {
        Color::Black => "color: #000000"@,
        Color::Red => "color: #ff0000"@,
        Color::Green => "color: #00ff00"@,
        Color::Yellow => "color: #ffff00"@,
        Color::Blue => "color: #0000ff"@,
        Color::Magenta => "color: #ff00ff"@,
        Color::Cyan => "color: #00ffff"@,
        Color::White => "color: #ffffff"@,
        Color::Default => ""@,
    }
}

/// `ch` with the HTML special characters `&`, `<` and `>` escaped.
pub open spec fn html_escape(ch: char) -> Seq<char> {
    if ch == '&' {
        "&amp;"@
    } else if ch == '<' {
        "&lt;"@
    } else if ch == '>' {
        "&gt;"@
    } else {
        seq![ch]
    }
}

/// The opening tag of a span in color `c`.
pub open spec fn span_open(c: Color) -> Seq<char> {
    "<span style=\""@ + html_style(c) + "\">"@
}

/// HTML text of a run of colored characters, starting with no span open and current color
/// `cur`: at each change of color, the open span (if any) is closed, and a span is opened for
/// any color other than the default. Gives the text, the color after the run, and whether a
/// span is left open.
pub open spec fn html_run(cells: Seq<(char, Color)>, cur: Color) -> (Seq<char>, Color, bool)
    decreases cells.len(),
{
    if cells.len() == 0 {
        (Seq::empty(), cur, false)
    } else {
        let (t, c, open) = html_run(cells.drop_last(), cur);
        let (ch, col) = cells.last();
        if col != c {
            let t1 = if open { t + "</span>"@ } else { t };
            let t2 = if col != Color::Default { t1 + span_open(col) } else { t1 };
            (t2 + html_escape(ch), col, col != Color::Default)
        } else {
            (t + html_escape(ch), c, open)
        }
    }
}

/// The first `n` character rows as HTML, each row closing the span it leaves open, the color
/// carrying over from row to row (starting from the default), and the color after them.
/// The color carried over is the one of the previous row's last cell although that row's span
/// was closed, as the viewer does it: a row that starts in that same color opens no span, so
/// its leading cells of that color are written uncolored until the color changes.
pub open spec fn html_rows(pixels: Seq<Seq<bool>>, colors: Seq<Seq<Color>>, width: int, n: int) -> (Seq<Seq<char>>, Color)
    decreases n,
{
    if n <= 0 {
        (Seq::empty(), Color::Default)
    } else {
        let (rows, cur) = html_rows(pixels, colors, width, n - 1);
        let (t, c, open) = html_run(cells(pixels, colors, cell_columns(width), n - 1), cur);
        (rows.push(if open { t + "</span>"@ } else { t }), c)
    }
}

/// The colored rows as exported: when the colors end on a non-default color, the last row
/// gets the escape sequence back to the default appended.
pub open spec fn ansi_export_rows(pixels: Seq<Seq<bool>>, colors: Seq<Seq<Color>>, width: int) -> Seq<Seq<char>> {
    let (rows, cur) = ansi_rows(pixels, colors, width, cell_rows(pixels.len() as int));
    if cur != Color::Default && rows.len() > 0 {
        rows.update(rows.len() - 1, rows.last() + ansi_code(Color::Default))
    } else {
        rows
    }
}

/// The rows, each followed by a carriage return and a line feed.
pub open spec fn frame_lines(rows: Seq<Seq<char>>) -> Seq<char>
    decreases rows.len(),
{
    if rows.len() == 0 {
        Seq::empty()
    } else {
        frame_lines(rows.drop_last()) + rows.last() + "\r\n"@
    }
}

/// A full terminal frame: cursor home, every colored row on its own line, and the color reset
/// to the default at the end when it was changed.
pub open spec fn frame_text(pixels: Seq<Seq<bool>>, colors: Seq<Seq<Color>>, width: int) -> Seq<char> {
    let (rows, cur) = ansi_rows(pixels, colors, width, cell_rows(pixels.len() as int));
    "\x1b[H"@ + frame_lines(rows) + if cur != Color::Default { ansi_code(Color::Default) } else { Seq::empty() }
}

/// Opening tag of the HTML export.
pub open spec fn html_prefix() -> Seq<char> {
    "<pre style=\"font-family: monospace; line-height: 1; background-color: #000000; color: #ffffff; padding: 10px; margin: 0; white-space: pre; overflow-x: auto;\">"@
}

/// Closing tag of the HTML export.
pub open spec fn html_suffix() -> Seq<char> {
    "</pre>"@
}

/// The dots of the character at row `k`, column `bx`, from its first `subs` raster rows only
/// (the rest off).
pub open spec fn partial_dots(pixels: Seq<Seq<bool>>, cols: int, k: int, bx: int, subs: int) -> Seq<Seq<bool>> {
    Seq::new(
        4,
        |sub: int|
            Seq::new(
                2,
                |col: int|
                    if sub < subs && 4 * k + sub < pixels.len() {
                        cell_dot(pixels[4 * k + sub], cols, bx, col)
                    } else {
                        false
                    },
            ),
    )
}

/// The first non-default color of a concatenation is that of the first part, if it has one,
/// and that of the second part otherwise.
pub proof fn lemma_first_color_concat(a: Seq<(bool, Color)>, b: Seq<(bool, Color)>)
    ensures
        first_color(a + b) == if first_color(a) != Color::Default { first_color(a) } else { first_color(b) },
    decreases a.len(),
{
    if a.len() > 0 {
        assert((a + b).drop_first() =~= a.drop_first() + b);
        lemma_first_color_concat(a.drop_first(), b);
    } else {
        assert(a + b =~= b);
    }
}

/// Character rows past the raster's last row add no candidates.
pub proof fn lemma_candidates_past_end(
    pixels: Seq<Seq<bool>>,
    colors: Seq<Seq<Color>>,
    cols: int,
    k: int,
    bx: int,
    s: int,
    t: int,
)
    requires
        4 * k + s >= pixels.len(),
        0 <= s <= t,
    ensures
        cell_candidates(pixels, colors, cols, k, bx, t) == cell_candidates(pixels, colors, cols, k, bx, s),
    decreases t - s,
{
    if t > s {
        lemma_candidates_past_end(pixels, colors, cols, k, bx, s, t - 1);
        assert(cell_candidates(pixels, colors, cols, k, bx, t) =~= cell_candidates(pixels, colors, cols, k, bx, t - 1));
    }
}

/// In a raster whose row is as long as the raster is wide, the dot at column `x` of row `y`
/// is shown by the character at character row `y / 4` and column `x / 2`, in its row `y % 4`
/// and column `x % 2`.
pub proof fn lemma_dot_shows_in_its_cell(pixels: Seq<Seq<bool>>, width: int, x: int, y: int)
    requires
        0 <= y < pixels.len(),
        0 <= x < width,
        pixels[y].len() == width,
    ensures
        cell_dots(pixels, cell_columns(width), y / 4, x / 2)[y % 4][x % 2] == pixels[y][x],
{
    assert(4 * (y / 4) + y % 4 == y);
    assert(2 * (x / 2) + x % 2 == x);
}

} // verus!
