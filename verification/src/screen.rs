use vstd::prelude::*;

use crate::braille::{blank_dots, braille_char, BraillePixel, Point2D};
use crate::color::{Color, ExportFormat};
use crate::layout::{
    ansi_code, ansi_export_rows, ansi_rows, ansi_run, cell_candidates, cell_color, cell_columns,
    cell_dot, cell_dots, cell_rows, cells, first_color, frame_lines, frame_text, html_escape,
    html_prefix, html_rows, html_run, html_style, html_suffix, lemma_candidates_past_end,
    lemma_first_color_concat, odd_candidates, pair_candidates, pair_dots, partial_dots, plain_row,
    plain_rows, row_candidates, span_open, takes_odd_dot,
};
use crate::raster::{
    abs, in_bounds, lemma_line_step, max, lemma_painted_none, lemma_painted_step, lemma_sign_mul,
    line_points, line_trace, painted, step_toward, walk_state,
};
use crate::text::{push_chars, push_str_chars, string_from_chars};
use crate::trim::trimmed;

verus! {

broadcast use BraillePixel::lemma_dots_shape;

/// Terminal size used when the terminal cannot report its own.
pub const DEFAULT_TERMINAL_WIDTH: u16 = 80;
pub const DEFAULT_TERMINAL_HEIGHT: u16 = 24;

/// A raster of dots, each with a color, that is shown two dots wide and four dots tall per
/// terminal character.
pub struct Screen {
    pub width: u16,
    pub height: u16,
    content: Vec<Vec<bool>>,
    colors: Vec<Vec<Color>>,
    cached_terminal_size: Option<(u16, u16)>,
}

/// The rows of a grid of `Vec`s, as sequences.
pub open spec fn rows_of<T>(v: Seq<Vec<T>>) -> Seq<Seq<T>> {
    Seq::new(v.len(), |i: int| v[i]@)
}

/// A grid of dots and a grid of colors of the same shape: `height` rows, each at least
/// `width` long, with matching row lengths.
pub open spec fn grid_shape(dots: Seq<Seq<bool>>, colors: Seq<Seq<Color>>, width: int, height: int) -> bool {
    &&& dots.len() == height
    &&& colors.len() == height
    &&& forall|r: int| 0 <= r < height ==> #[trigger] dots[r].len() == colors[r].len()
    &&& forall|r: int| 0 <= r < height ==> #[trigger] dots[r].len() >= width
}

/// The terminal size that fitting uses: the measured one, or 80 by 24 when none was measured.
pub open spec fn resolved_size(measured: Option<(u16, u16)>) -> (u16, u16) {
    match measured {
        Some(s) => s,
        None => (DEFAULT_TERMINAL_WIDTH, DEFAULT_TERMINAL_HEIGHT),
    }
}

/// Whether a raster for a terminal of this size (two dots per column, four per row, one row
/// kept for the status line) fits in `u16` dimensions.
pub open spec fn terminal_size_fits(size: (u16, u16)) -> bool {
    &&& size.0 * 2 <= u16::MAX
    &&& size.1 >= 1
    &&& (size.1 - 1) * 4 <= u16::MAX
}

/// The grid after resizing from `old` (drawn `old_width` wide) to `width` by `height`:
/// missing rows are appended `width` long, extra rows dropped; then every row is extended
/// by `width - old_width` cells, or cut to `width` when the raster does not get wider.
/// Rows appended while the raster also gets wider are extended a second time, so they end
/// up `width - old_width` cells longer than the other rows. This uneven shape is kept as the
/// viewer has it: the export and render then read each row by its own length (see
/// [`crate::layout::cell_dot`]), which can place a row's odd last dot over a dot that the
/// pairs put in the same cell.
pub open spec fn resized<T>(old: Seq<Seq<T>>, old_width: int, width: int, height: int, fill: T) -> Seq<Seq<T>> {
    let rows = if height > old.len() {
        old + Seq::new((height - old.len()) as nat, |i: int| Seq::new(width as nat, |j: int| fill))
    } else {
        old.take(height)
    };
    if width > old_width {
        Seq::new(rows.len(), |r: int| rows[r] + Seq::new((width - old_width) as nat, |j: int| fill))
    } else {
        Seq::new(rows.len(), |r: int| rows[r].take(width))
    }
}

/// The abstract state of a [`Screen`]: its size, its dots and their colors, by row then
/// column, and the terminal size it was last fitted to.
pub struct ScreenView {
    pub width: int,
    pub height: int,
    pub pixels: Seq<Seq<bool>>,
    pub colors: Seq<Seq<Color>>,
    pub fitted: Option<(u16, u16)>,
}

impl ScreenView {
    /// The dots and colors have the shape that the width and height give.
    pub open spec fn wf(&self) -> bool {
        grid_shape(self.pixels, self.colors, self.width, self.height)
    }
}

/// Resizing keeps every dot and color that stays on the raster, and gives the raster the new
/// shape; the added cells are off and in the default color.
pub proof fn lemma_resize_keeps_overlap(v: ScreenView, width: int, height: int)
    requires
        v.wf(),
        0 <= width,
        0 <= height,
    ensures
        grid_shape(
            resized(v.pixels, v.width, width, height, false),
            resized(v.colors, v.width, width, height, Color::Default),
            width,
            height,
        ),
        forall|r: int, c: int|
            0 <= r < height && r < v.height && 0 <= c < width && c < v.width ==> {
                &&& #[trigger] resized(v.pixels, v.width, width, height, false)[r][c] == v.pixels[r][c]
                &&& resized(v.colors, v.width, width, height, Color::Default)[r][c] == v.colors[r][c]
            },
        forall|r: int, c: int|
            0 <= r < height && 0 <= c < width && (r >= v.height || c >= v.pixels[r].len()) ==> {
                &&& !#[trigger] resized(v.pixels, v.width, width, height, false)[r][c]
                &&& resized(v.colors, v.width, width, height, Color::Default)[r][c] == Color::Default
            },
{
    let p = resized(v.pixels, v.width, width, height, false);
    let q = resized(v.colors, v.width, width, height, Color::Default);
    assert forall|r: int| 0 <= r < height implies #[trigger] p[r].len() == q[r].len() && p[r].len() >= width by {
        if r < v.height {
            assert(v.pixels[r].len() == v.colors[r].len());
        }
    }
    let rows_p = if height > v.pixels.len() {
        v.pixels + Seq::new((height - v.pixels.len()) as nat, |i: int| Seq::new(width as nat, |j: int| false))
    } else {
        v.pixels.take(height)
    };
    let rows_q = if height > v.colors.len() {
        v.colors + Seq::new((height - v.colors.len()) as nat, |i: int| Seq::new(width as nat, |j: int| Color::Default))
    } else {
        v.colors.take(height)
    };
    assert forall|r: int, c: int| 0 <= r < height && 0 <= c < width && (r >= v.height || c >= v.pixels[r].len()) implies {
        &&& !#[trigger] p[r][c]
        &&& q[r][c] == Color::Default
    } by {
        if r < v.height {
            assert(v.pixels[r].len() == v.colors[r].len());
            assert(rows_p[r] == v.pixels[r]);
            assert(rows_q[r] == v.colors[r]);
        } else {
            assert(rows_p[r] == Seq::new(width as nat, |j: int| false));
            assert(rows_q[r] == Seq::new(width as nat, |j: int| Color::Default));
        }
    }
    assert forall|r: int, c: int| 0 <= r < height && r < v.height && 0 <= c < width && c < v.width implies {
        &&& #[trigger] p[r][c] == v.pixels[r][c]
        &&& q[r][c] == v.colors[r][c]
    } by {
        assert(v.pixels[r].len() == v.colors[r].len());
        assert(rows_p[r] == v.pixels[r]);
        assert(rows_q[r] == v.colors[r]);
    }
}

impl View for Screen {
    type V = ScreenView;

    closed spec fn view(&self) -> ScreenView {
        ScreenView {
            width: self.width as int,
            height: self.height as int,
            pixels: rows_of(self.content@),
            colors: rows_of(self.colors@),
            fitted: self.cached_terminal_size,
        }
    }
}

/// Appends `n` copies of `fill` to `row`.
fn extend_row<T: Copy>(row: &mut Vec<T>, n: usize, fill: T)
    ensures
        final(row)@ == old(row)@ + Seq::new(n as nat, |j: int| fill),
{
    for i in 0..n
        invariant
            row@ == old(row)@ + Seq::new(i as nat, |j: int| fill),
    {
        row.push(fill);
        assert(row@ =~= old(row)@ + Seq::new((i + 1) as nat, |j: int| fill));
    }
}

/// The two dots that character column `bx` takes from one raster row.
pub open spec fn row_dots(prow: Seq<bool>, cols: int, bx: int) -> Seq<bool> {
    seq![cell_dot(prow, cols, bx, 0), cell_dot(prow, cols, bx, 1)]
}

/// The text of a raster in an export format.
pub open spec fn export_text(v: ScreenView, format: ExportFormat) -> Seq<char> {
    match format {
        ExportFormat::Plain => trimmed(plain_rows(v.pixels, v.width), 2),
        ExportFormat::Color => trimmed(ansi_export_rows(v.pixels, v.colors, v.width), 2),
        ExportFormat::Html => html_prefix() + trimmed(html_rows(v.pixels, v.colors, v.width, cell_rows(v.pixels.len() as int)).0, 2)
            + html_suffix(),
    }
}

/// The characters that a row of cells shows, each with its color.
pub open spec fn shown(cells: Seq<BraillePixel>, colors: Seq<Color>) -> Seq<(char, Color)> {
    Seq::new(cells.len(), |i: int| (braille_char(cells[i].dots()), colors[i]))
}

/// The escape sequence that switches the terminal foreground to `c`.
fn ansi_code_str(c: Color) -> (r: &'static str)
    ensures
        r@ == ansi_code(c),
{
    match c {
        Color::Default => "\x1b[39m",
        Color::Black => "\x1b[30m",
        Color::Red => "\x1b[31m",
        Color::Green => "\x1b[32m",
        Color::Yellow => "\x1b[33m",
        Color::Blue => "\x1b[34m",
        Color::Magenta => "\x1b[35m",
        Color::Cyan => "\x1b[36m",
        Color::White => "\x1b[37m",
    }
}

/// Inline CSS for color `c`.
fn html_style_str(c: Color) -> (r: &'static str)
    ensures
        r@ == html_style(c),
{
    match c {
        Color::Black => "color: #000000",
        Color::Red => "color: #ff0000",
        Color::Green => "color: #00ff00",
        Color::Yellow => "color: #ffff00",
        Color::Blue => "color: #0000ff",
        Color::Magenta => "color: #ff00ff",
        Color::Cyan => "color: #00ffff",
        Color::White => "color: #ffffff",
        Color::Default => "",
    }
}

/// Appends `ch` with the HTML special characters escaped.
fn push_html_escaped(out: &mut Vec<char>, ch: char)
    ensures
        final(out)@ == old(out)@ + html_escape(ch),
{
    if ch == '&' {
        push_str_chars(out, "&amp;");
    } else if ch == '<' {
        push_str_chars(out, "&lt;");
    } else if ch == '>' {
        push_str_chars(out, "&gt;");
    } else {
        out.push(ch);
        assert(old(out)@.push(ch) =~= old(out)@ + seq![ch]);
    }
}

/// A row of cells as colored text, starting from the current color `cur`; also gives the color
/// current after it.
fn ansi_row(cells: &Vec<BraillePixel>, colors: &Vec<Color>, cur: Color) -> (r: (Vec<char>, Color))
    requires
        cells@.len() == colors@.len(),
    ensures
        (r.0@, r.1) == ansi_run(shown(cells@, colors@), cur),
{
    let ghost sh = shown(cells@, colors@);
    let mut out: Vec<char> = Vec::new();
    let mut current = cur;
    for i in 0..cells.len()
        invariant
            cells@.len() == colors@.len(),
            sh == shown(cells@, colors@),
            (out@, current) == ansi_run(sh.take(i as int), cur),
    {
        assert(sh.take(i + 1).drop_last() =~= sh.take(i as int));
        let col = colors[i];
        if col != current {
            push_str_chars(&mut out, ansi_code_str(col));
            current = col;
        }
        let ch = cells[i].to_char();
        out.push(ch);
        assert(sh.take(i + 1).last() == (ch, col));
    }
    assert(sh.take(cells@.len() as int) =~= sh);
    (out, current)
}

/// A row of cells as HTML, starting from the current color `cur` with no span open; a span
/// left open is closed at the end. Also gives the color current after it.
fn html_row(cells: &Vec<BraillePixel>, colors: &Vec<Color>, cur: Color) -> (r: (Vec<char>, Color))
    requires
        cells@.len() == colors@.len(),
    ensures
        ({
            let (t, c, open) = html_run(shown(cells@, colors@), cur);
            &&& r.0@ == if open { t + "</span>"@ } else { t }
            &&& r.1 == c
        }),
{
    let ghost sh = shown(cells@, colors@);
    let mut out: Vec<char> = Vec::new();
    let mut current = cur;
    let mut open = false;
    for i in 0..cells.len()
        invariant
            cells@.len() == colors@.len(),
            sh == shown(cells@, colors@),
            (out@, current, open) == html_run(sh.take(i as int), cur),
    {
        assert(sh.take(i + 1).drop_last() =~= sh.take(i as int));
        let col = colors[i];
        let ch = cells[i].to_char();
        assert(sh.take(i + 1).last() == (ch, col));
        if col != current {
            if open {
                push_str_chars(&mut out, "</span>");
                open = false;
            }
            if col != Color::Default {
                let ghost before = out@;
                push_str_chars(&mut out, "<span style=\"");
                push_str_chars(&mut out, html_style_str(col));
                push_str_chars(&mut out, "\">");
                assert(out@ =~= before + span_open(col));
                open = true;
            }
            current = col;
        }
        push_html_escaped(&mut out, ch);
    }
    assert(sh.take(cells@.len() as int) =~= sh);
    if open {
        push_str_chars(&mut out, "</span>");
    }
    (out, current)
}

/// The dots of a character after one raster row has been put into its row `sub`: the pair
/// (when the row has one for this column), then the odd last dot over the left one.
pub open spec fn merged_dots(d: Seq<Seq<bool>>, prow: Seq<bool>, cols: int, bx: int, sub: int) -> Seq<Seq<bool>> {
    let n = prow.len() as int;
    let d1 = if bx < n / 2 { d.update(sub, pair_dots(prow, bx)) } else { d };
    if takes_odd_dot(n, cols, bx) {
        d1.update(sub, d1[sub].update(0, prow[n - 1]))
    } else {
        d1
    }
}

/// The first non-default color among two candidates.
proof fn lemma_first_color_two(x: (bool, Color), y: (bool, Color))
    ensures
        first_color(seq![x, y]) == if x.0 && x.1 != Color::Default {
            x.1
        } else if y.0 && y.1 != Color::Default {
            y.1
        } else {
            Color::Default
        },
{
    reveal_with_fuel(first_color, 3);
    let p = seq![x, y];
    assert(p[0] == x);
    assert(p.drop_first() =~= seq![y]);
    assert(p.drop_first()[0] == y);
    assert(p.drop_first().drop_first() =~= Seq::<(bool, Color)>::empty());
}

/// The first non-default color of one candidate.
proof fn lemma_first_color_one(x: (bool, Color))
    ensures
        first_color(seq![x]) == if x.0 && x.1 != Color::Default { x.1 } else { Color::Default },
{
    reveal_with_fuel(first_color, 2);
    assert(seq![x][0] == x);
    assert(seq![x].drop_first() =~= Seq::<(bool, Color)>::empty());
}

/// Puts the dots of one raster row into row `sub` of each character, and gives each character
/// still in the default color the color of the row's first set dot it shows that has another.
fn merge_row(
    cells: &mut Vec<BraillePixel>,
    colors: &mut Vec<Color>,
    prow: &Vec<bool>,
    crow: &Vec<Color>,
    sub: usize,
    cols: usize,
)
    requires
        sub < 4,
        old(cells)@.len() == cols,
        old(colors)@.len() == cols,
        prow@.len() == crow@.len(),
    ensures
        final(cells)@.len() == cols,
        final(colors)@.len() == cols,
        forall|j: int|
            0 <= j < cols ==> #[trigger] final(cells)@[j].dots() == merged_dots(
                old(cells)@[j].dots(),
                prow@,
                cols as int,
                j,
                sub as int,
            ),
        forall|j: int|
            0 <= j < cols ==> #[trigger] final(colors)@[j] == if old(colors)@[j] != Color::Default {
                old(colors)@[j]
            } else {
                first_color(row_candidates(prow@, crow@, cols as int, j))
            },
{
    let n = prow.len();
    let full = n / 2;
    let mut bx: usize = 0;
    while bx < full && bx < cols
        invariant
            sub < 4,
            n == prow@.len(),
            n == crow@.len(),
            full == n / 2,
            bx <= cols,
            bx <= full,
            cells@.len() == cols,
            colors@.len() == cols,
            forall|j: int|
                0 <= j < bx ==> #[trigger] cells@[j].dots() == old(cells)@[j].dots().update(
                    sub as int,
                    pair_dots(prow@, j),
                ),
            forall|j: int| bx <= j < cols ==> #[trigger] cells@[j] == old(cells)@[j],
            forall|j: int|
                0 <= j < bx ==> #[trigger] colors@[j] == if old(colors)@[j] != Color::Default {
                    old(colors)@[j]
                } else {
                    first_color(pair_candidates(prow@, crow@, j))
                },
            forall|j: int| bx <= j < cols ==> #[trigger] colors@[j] == old(colors)@[j],
        decreases cols - bx,
    {
        let a = prow[2 * bx];
        let b = prow[2 * bx + 1];
        let ca = crow[2 * bx];
        let cb = crow[2 * bx + 1];
        let mut p = cells[bx];
        p.set_dot(sub, 0, a);
        p.set_dot(sub, 1, b);
        assert(p.dots() =~~= old(cells)@[bx as int].dots().update(sub as int, pair_dots(prow@, bx as int)));
        cells.set(bx, p);
        proof {
            lemma_first_color_two((a, ca), (b, cb));
            assert(pair_candidates(prow@, crow@, bx as int) == seq![(a, ca), (b, cb)]);
        }
        if colors[bx] == Color::Default {
            if a && ca != Color::Default {
                colors.set(bx, ca);
            } else if b && cb != Color::Default {
                colors.set(bx, cb);
            }
        }
        bx = bx + 1;
    }
    let ghost mid_cells = cells@;
    let ghost mid_colors = colors@;
    if cols > 0 && n % 2 == 1 {
        let last = prow[n - 1];
        let clast = crow[n - 1];
        let mut p = cells[cols - 1];
        p.set_dot(sub, 0, last);
        cells.set(cols - 1, p);
        if colors[cols - 1] == Color::Default && last && clast != Color::Default {
            colors.set(cols - 1, clast);
        }
    }
    proof {
        assert forall|j: int| 0 <= j < cols implies #[trigger] cells@[j].dots() == merged_dots(
            old(cells)@[j].dots(),
            prow@,
            cols as int,
            j,
            sub as int,
        ) by {
            let d = old(cells)@[j].dots();
            let d1 = if j < (n / 2) as int { d.update(sub as int, pair_dots(prow@, j)) } else { d };
            assert(bx == full || bx == cols);
            if j >= bx {
                assert(mid_cells[j] == old(cells)@[j]);
            }
            assert(mid_cells[j].dots() == d1);
            if takes_odd_dot(n as int, cols as int, j) {
                assert(j == cols - 1);
            } else {
                assert(cells@[j] == mid_cells[j]);
            }
        }
        assert forall|j: int| 0 <= j < cols implies #[trigger] colors@[j] == if old(colors)@[j] != Color::Default {
            old(colors)@[j]
        } else {
            first_color(row_candidates(prow@, crow@, cols as int, j))
        } by {
            let pair = pair_candidates(prow@, crow@, j);
            let odd = odd_candidates(prow@, crow@, cols as int, j);
            lemma_first_color_concat(pair, odd);
            if j >= bx {
                assert(pair =~= Seq::<(bool, Color)>::empty());
                assert(first_color(pair) == Color::Default);
            }
            if takes_odd_dot(n as int, cols as int, j) {
                lemma_first_color_one((prow@[n - 1], crow@[n - 1]));
            } else {
                assert(odd =~= Seq::<(bool, Color)>::empty());
            }
        }
    }
}

impl Screen {
    /// An empty raster (0 by 0), not yet fitted to any terminal.
    pub fn new() -> (s: Screen)
        ensures
            s@.wf(),
            s@.width == 0,
            s@.height == 0,
            s@.pixels == Seq::<Seq<bool>>::empty(),
            s@.colors == Seq::<Seq<Color>>::empty(),
            s@.fitted is None,
    {
        let s = Screen {
            content: Vec::new(),
            colors: Vec::new(),
            width: 0,
            height: 0,
            cached_terminal_size: None,
        };
        assert(s@.pixels =~= Seq::<Seq<bool>>::empty());
        assert(s@.colors =~= Seq::<Seq<Color>>::empty());
        s
    }

    /// Sets the dot at `point` to `val` when it lies on the raster; does nothing otherwise.
    pub fn write(&mut self, val: bool, point: &Point2D)
        requires
            old(self)@.wf(),
        ensures
            final(self)@.wf(),
            final(self)@.width == old(self)@.width,
            final(self)@.height == old(self)@.height,
            final(self)@.colors == old(self)@.colors,
            final(self)@.fitted == old(self)@.fitted,
            final(self)@.pixels == if in_bounds(
                point.x as int,
                point.y as int,
                old(self)@.width,
                old(self)@.height,
            ) {
                old(self)@.pixels.update(
                    point.y as int,
                    old(self)@.pixels[point.y as int].update(point.x as int, val),
                )
            } else {
                old(self)@.pixels
            },
    {
        let x_in_bounds = 0 <= point.x && point.x < self.width as i32;
        let y_in_bounds = 0 <= point.y && point.y < self.height as i32;
        if x_in_bounds && y_in_bounds {
            let y = point.y as usize;
            let x = point.x as usize;
            assert(self@.pixels[y as int].len() >= self.width);
            self.content[y][x] = val;
            assert(self@.pixels =~= old(self)@.pixels.update(
                y as int,
                old(self)@.pixels[y as int].update(x as int, val),
            ));
        }
    }

    /// Sets the dot at `point` to `val` and its color to `color` when it lies on the raster;
    /// does nothing otherwise.
    pub fn write_colored(&mut self, val: bool, point: &Point2D, color: Color)
        requires
            old(self)@.wf(),
        ensures
            final(self)@.wf(),
            final(self)@.width == old(self)@.width,
            final(self)@.height == old(self)@.height,
            final(self)@.fitted == old(self)@.fitted,
            in_bounds(point.x as int, point.y as int, old(self)@.width, old(self)@.height) ==> {
                &&& final(self)@.pixels == old(self)@.pixels.update(
                    point.y as int,
                    old(self)@.pixels[point.y as int].update(point.x as int, val),
                )
                &&& final(self)@.colors == old(self)@.colors.update(
                    point.y as int,
                    old(self)@.colors[point.y as int].update(point.x as int, color),
                )
            },
            !in_bounds(point.x as int, point.y as int, old(self)@.width, old(self)@.height)
                ==> {
                &&& final(self)@.pixels == old(self)@.pixels
                &&& final(self)@.colors == old(self)@.colors
            },
    {
        let x_in_bounds = 0 <= point.x && point.x < self.width as i32;
        let y_in_bounds = 0 <= point.y && point.y < self.height as i32;
        if x_in_bounds && y_in_bounds {
            let y = point.y as usize;
            let x = point.x as usize;
            assert(self@.pixels[y as int].len() >= self.width);
            assert(self@.colors[y as int].len() >= self.width);
            self.content[y][x] = val;
            self.colors[y][x] = color;
            assert(self@.pixels =~= old(self)@.pixels.update(
                y as int,
                old(self)@.pixels[y as int].update(x as int, val),
            ));
            assert(self@.colors =~= old(self)@.colors.update(
                y as int,
                old(self)@.colors[y as int].update(x as int, color),
            ));
        }
    }

    /// Turns every dot off and every color back to the default, keeping the shape.
    pub fn clear(&mut self)
        requires
            old(self)@.wf(),
        ensures
            final(self)@.wf(),
            final(self)@.width == old(self)@.width,
            final(self)@.height == old(self)@.height,
            final(self)@.fitted == old(self)@.fitted,
            final(self)@.pixels.len() == old(self)@.pixels.len(),
            forall|r: int|
                0 <= r < old(self)@.pixels.len() ==> #[trigger] final(self)@.pixels[r] == Seq::new(
                    old(self)@.pixels[r].len(),
                    |c: int| false,
                ),
            forall|r: int|
                0 <= r < old(self)@.pixels.len() ==> #[trigger] final(self)@.colors[r] == Seq::new(
                    old(self)@.colors[r].len(),
                    |c: int| Color::Default,
                ),
    {
        let n = self.content.len();
        for r in 0..n
            invariant
                n == old(self).content@.len(),
                n == old(self).colors@.len(),
                self.width == old(self).width,
                self.height == old(self).height,
                self.cached_terminal_size == old(self).cached_terminal_size,
                self.content@.len() == n,
                self.colors@.len() == n,
                forall|i: int|
                    r <= i < n ==> #[trigger] self.content@[i] == old(self).content@[i],
                forall|i: int|
                    r <= i < n ==> #[trigger] self.colors@[i] == old(self).colors@[i],
                forall|i: int|
                    0 <= i < r ==> #[trigger] self.content@[i]@ == Seq::new(
                        old(self).content@[i]@.len(),
                        |c: int| false,
                    ),
                forall|i: int|
                    0 <= i < r ==> #[trigger] self.colors@[i]@ == Seq::new(
                        old(self).colors@[i]@.len(),
                        |c: int| Color::Default,
                    ),
        {
            let len = self.content[r].len();
            let clen = self.colors[r].len();
            let row: Vec<bool> = vec![false; len];
            let crow: Vec<Color> = vec![Color::Default; clen];
            assert(row@ =~= Seq::new(len as nat, |c: int| false));
            assert(crow@ =~= Seq::new(clen as nat, |c: int| Color::Default));
            self.content.set(r, row);
            self.colors.set(r, crow);
        }
        assert forall|i: int| 0 <= i < n implies #[trigger] self@.pixels[i].len() == self@.colors[i].len()
            && self@.pixels[i].len() >= self.width by {
            assert(old(self)@.pixels[i].len() == old(self)@.colors[i].len());
            assert(old(self)@.pixels[i].len() >= self.width);
        }
    }

    /// Draws a straight line of set dots from `start` towards `end` by the integer line walk
    /// (the error-term algorithm of Bresenham, stepping diagonally where both coordinates move).
    /// The start is drawn and every position the walk passes before it reaches `end`; `end`
    /// itself is not drawn unless it is the start. Dots off the raster are skipped; colors
    /// are left as they are.
    pub fn line(&mut self, start: &Point2D, end: &Point2D)
        requires
            old(self)@.wf(),
        ensures
            final(self)@.wf(),
            final(self)@.width == old(self)@.width,
            final(self)@.height == old(self)@.height,
            final(self)@.colors == old(self)@.colors,
            final(self)@.fitted == old(self)@.fitted,
            painted(
                old(self)@.pixels,
                final(self)@.pixels,
                old(self)@.width,
                old(self)@.height,
                line_points(start.x as int, start.y as int, end.x as int, end.y as int),
            ),
    {
        let ghost x0 = start.x as int;
        let ghost y0 = start.y as int;
        let ghost gdx = abs(end.x - start.x);
        let ghost gdy = abs(end.y - start.y);
        let ghost sx = step_toward(x0, end.x as int);
        let ghost sy = step_toward(y0, end.y as int);
        let ghost w = old(self)@.width;
        let ghost h = old(self)@.height;

        let delta_x: i64 = if start.x < end.x {
            end.x as i64 - start.x as i64
        } else {
            start.x as i64 - end.x as i64
        };
        let step_x: i32 = if start.x < end.x { 1 } else { -1 };
        let dy_wide: i64 = if start.y < end.y {
            end.y as i64 - start.y as i64
        } else {
            start.y as i64 - end.y as i64
        };
        let delta_y: i64 = -dy_wide;
        let step_y: i32 = if start.y < end.y { 1 } else { -1 };
        let mut err: i64 = delta_x + delta_y;

        let mut x: i32 = start.x;
        let mut y: i32 = start.y;

        self.write(true, &Point2D::new(x, y));
        proof {
            lemma_painted_none(old(self)@.pixels, w, h);
            lemma_painted_step(old(self)@.pixels, old(self)@.pixels, self@.pixels, w, h, Seq::empty(), x0, y0);
            assert(Seq::<(int, int)>::empty().push((x0, y0)) =~= seq![(x0, y0)]);
        }
        let ghost mut written: Seq<(int, int)> = seq![(x0, y0)];
        let ghost mut u: int = 0;
        let ghost mut v: int = 0;
        let ghost mut fuel: nat = (gdx + gdy) as nat;
        assert(gdx * (0 + 1) - gdy * (0 + 1) == gdx - gdy) by (nonlinear_arith);
        assert(sx * 0 == 0 && sy * 0 == 0) by (nonlinear_arith);
        assert(sx * gdx == end.x - start.x && sy * gdy == end.y - start.y) by (nonlinear_arith)
            requires
                sx == step_toward(x0, end.x as int),
                sy == step_toward(y0, end.y as int),
                gdx == abs(end.x - start.x),
                gdy == abs(end.y - start.y),
                x0 == start.x,
                y0 == start.y,
        ;

        while x != end.x || y != end.y
            invariant
                self@.wf(),
                self@.width == w,
                self@.height == h,
                w == old(self)@.width,
                h == old(self)@.height,
                old(self)@.wf(),
                self@.colors == old(self)@.colors,
                self@.fitted == old(self)@.fitted,
                sx == 1 || sx == -1,
                sy == 1 || sy == -1,
                step_x == sx,
                step_y == sy,
                delta_x == gdx,
                delta_y == -gdy,
                gdx <= u32::MAX,
                gdy <= u32::MAX,
                end.x == x0 + sx * gdx,
                end.y == y0 + sy * gdy,
                walk_state(x0, y0, x as int, y as int, err as int, gdx, gdy, sx, sy, u, v),
                (gdx - u) + (gdy - v) <= fuel,
                line_points(start.x as int, start.y as int, end.x as int, end.y as int) == written
                    + line_trace(x as int, y as int, err as int, end.x as int, end.y as int, gdx, -gdy, sx, sy, fuel),
                painted(old(self)@.pixels, self@.pixels, w, h, written),
            decreases (gdx - u) + (gdy - v),
        {
            let ghost before = self@.pixels;
            let ghost px = x as int;
            let ghost py = y as int;
            self.write(true, &Point2D::new(x, y));
            proof {
                lemma_painted_step(old(self)@.pixels, before, self@.pixels, w, h, written, px, py);
                lemma_sign_mul(sx, u);
                lemma_sign_mul(sy, v);
                lemma_sign_mul(sx, u + 1);
                lemma_sign_mul(sy, v + 1);
                lemma_sign_mul(sx, gdx);
                lemma_sign_mul(sy, gdy);
                lemma_line_step(x0, y0, px, py, err as int, gdx, gdy, sx, sy, u, v);
                assert(2 * err >= -gdy ==> u + 1 <= gdx);
                assert(2 * err <= gdx ==> v + 1 <= gdy);
                assert(2 * err >= -gdy ==> i32::MIN <= x + sx <= i32::MAX);
                assert(2 * err <= gdx ==> i32::MIN <= y + sy <= i32::MAX);
            }
            let curr_err = err;
            let xs = curr_err * 2 >= delta_y;
            let ys = curr_err * 2 <= delta_x;
            if xs {
                err = err + delta_y;
                x = x + step_x;
            }
            if ys {
                err = err + delta_x;
                y = y + step_y;
            }
            proof {
                let ghost tr = line_trace(px, py, curr_err as int, end.x as int, end.y as int, gdx, -gdy, sx, sy, fuel);
                assert(tr == seq![(px, py)] + line_trace(x as int, y as int, err as int, end.x as int, end.y as int, gdx, -gdy, sx, sy, (fuel - 1) as nat));
                assert(written + tr =~= written.push((px, py)) + line_trace(x as int, y as int, err as int, end.x as int, end.y as int, gdx, -gdy, sx, sy, (fuel - 1) as nat));
                written = written.push((px, py));
                if xs {
                    u = u + 1;
                }
                if ys {
                    v = v + 1;
                }
                fuel = (fuel - 1) as nat;
            }
        }
        proof {
            assert(line_trace(x as int, y as int, err as int, end.x as int, end.y as int, gdx, -gdy, sx, sy, fuel) =~= Seq::empty());
            assert(written + Seq::<(int, int)>::empty() =~= written);
        }
    }

    /// Changes the raster to `width` by `height`. Nothing changes when the size is already
    /// that. Otherwise, rows are appended (each `width` cells long, all off and in the default
    /// color) or dropped to reach `height`; then, when the raster gets wider, every row is
    /// extended by the number of added columns, and otherwise cut to `width` cells.
    pub fn resize(&mut self, width: u16, height: u16)
        requires
            old(self)@.wf(),
        ensures
            final(self)@.wf(),
            final(self)@.width == width,
            final(self)@.height == height,
            final(self)@.fitted == old(self)@.fitted,
            width == old(self)@.width && height == old(self)@.height ==> {
                &&& final(self)@.pixels == old(self)@.pixels
                &&& final(self)@.colors == old(self)@.colors
            },
            !(width == old(self)@.width && height == old(self)@.height) ==> {
                &&& final(self)@.pixels == resized(old(self)@.pixels, old(self)@.width, width as int, height as int, false)
                &&& final(self)@.colors == resized(old(self)@.colors, old(self)@.width, width as int, height as int, Color::Default)
            },
    {
        if width == self.width && height == self.height {
            return;
        }
        let ghost p0 = old(self)@.pixels;
        let ghost c0 = old(self)@.colors;
        let ghost rows_p = if height > old(self)@.height {
            p0 + Seq::new((height - p0.len()) as nat, |i: int| Seq::new(width as nat, |j: int| false))
        } else {
            p0.take(height as int)
        };
        let ghost rows_c = if height > old(self)@.height {
            c0 + Seq::new((height - c0.len()) as nat, |i: int| Seq::new(width as nat, |j: int| Color::Default))
        } else {
            c0.take(height as int)
        };
        if height > self.height {
            let add = height - self.height;
            let mut i: u16 = 0;
            while i < add
                invariant
                    add == height - old(self).height,
                    self.height == old(self).height,
                    self.width == old(self).width,
                    self.cached_terminal_size == old(self).cached_terminal_size,
                    i <= add,
                    self@.pixels =~= p0 + Seq::new(i as nat, |k: int| Seq::new(width as nat, |j: int| false)),
                    self@.colors =~= c0 + Seq::new(i as nat, |k: int| Seq::new(width as nat, |j: int| Color::Default)),
                decreases add - i,
            {
                let row: Vec<bool> = vec![false; width as usize];
                let crow: Vec<Color> = vec![Color::Default; width as usize];
                assert(row@ =~= Seq::new(width as nat, |j: int| false));
                assert(crow@ =~= Seq::new(width as nat, |j: int| Color::Default));
                let ghost prev_p = self@.pixels;
                let ghost prev_c = self@.colors;
                self.content.push(row);
                self.colors.push(crow);
                assert(self@.pixels =~= prev_p.push(row@));
                assert(self@.colors =~= prev_c.push(crow@));
                i = i + 1;
            }
        } else {
            self.content.truncate(height as usize);
            self.colors.truncate(height as usize);
            assert(self@.pixels =~= p0.take(height as int));
            assert(self@.colors =~= c0.take(height as int));
        }
        assert(self@.pixels =~= rows_p);
        assert(self@.colors =~= rows_c);
        self.height = height;
        let n = self.content.len();
        let ghost min_w = if old(self)@.width < width { old(self)@.width } else { width as int };
        assert forall|i: int| 0 <= i < n implies #[trigger] rows_p[i].len() == rows_c[i].len()
            && rows_p[i].len() >= min_w && rows_c[i].len() >= min_w by {
            if i < p0.len() {
                assert(rows_p[i] == p0[i]);
                assert(rows_c[i] == c0[i]);
            }
        }
        if width > self.width {
            let add = (width - self.width) as usize;
            for r in 0..n
                invariant
                    n == rows_p.len(),
                    n == rows_c.len(),
                    self.height == height,
                    self.width == old(self).width,
                    self.cached_terminal_size == old(self).cached_terminal_size,
                    forall|i: int| 0 <= i < n ==> #[trigger] rows_p[i].len() == rows_c[i].len(),
                    forall|i: int| 0 <= i < n ==> #[trigger] rows_p[i].len() >= min_w,
                    self.content@.len() == n,
                    self.colors@.len() == n,
                    add == width - old(self)@.width,
                    forall|i: int| r <= i < n ==> #[trigger] self.content@[i]@ == rows_p[i],
                    forall|i: int| r <= i < n ==> #[trigger] self.colors@[i]@ == rows_c[i],
                    forall|i: int|
                        0 <= i < r ==> #[trigger] self.content@[i]@ == rows_p[i] + Seq::new(
                            add as nat,
                            |j: int| false,
                        ),
                    forall|i: int|
                        0 <= i < r ==> #[trigger] self.colors@[i]@ == rows_c[i] + Seq::new(
                            add as nat,
                            |j: int| Color::Default,
                        ),
            {
                extend_row(&mut self.content[r], add, false);
                extend_row(&mut self.colors[r], add, Color::Default);
            }
        } else {
            assert forall|i: int| 0 <= i < n implies #[trigger] rows_c[i].len() >= width by {
                assert(rows_p[i].len() == rows_c[i].len() && rows_p[i].len() >= min_w);
            }
            for r in 0..n
                invariant
                    n == rows_p.len(),
                    n == rows_c.len(),
                    self.height == height,
                    self.width == old(self).width,
                    self.cached_terminal_size == old(self).cached_terminal_size,
                    forall|i: int| 0 <= i < n ==> #[trigger] rows_p[i].len() == rows_c[i].len(),
                    forall|i: int| 0 <= i < n ==> #[trigger] rows_p[i].len() >= min_w,
                    self.content@.len() == n,
                    self.colors@.len() == n,
                    forall|i: int| 0 <= i < n ==> #[trigger] rows_p[i].len() >= width,
                    forall|i: int| 0 <= i < n ==> #[trigger] rows_c[i].len() >= width,
                    forall|i: int| r <= i < n ==> #[trigger] self.content@[i]@ == rows_p[i],
                    forall|i: int| r <= i < n ==> #[trigger] self.colors@[i]@ == rows_c[i],
                    forall|i: int| 0 <= i < r ==> #[trigger] self.content@[i]@ == rows_p[i].take(width as int),
                    forall|i: int| 0 <= i < r ==> #[trigger] self.colors@[i]@ == rows_c[i].take(width as int),
            {
                self.content[r].truncate(width as usize);
                self.colors[r].truncate(width as usize);
            }
        }
        self.width = width;
        proof {
            assert forall|i: int| 0 <= i < n implies #[trigger] self@.pixels[i].len() == self@.colors[i].len()
                && self@.pixels[i].len() >= width by {
                assert(rows_p[i].len() == rows_c[i].len());
            }
            assert(self@.pixels =~= resized(p0, old(self)@.width, width as int, height as int, false));
            assert(self@.colors =~= resized(c0, old(self)@.width, width as int, height as int, Color::Default));
        }
    }

    /// Fits the raster to a terminal of the `measured` size (80 by 24 when none could be
    /// measured): two dots per column and four per row, keeping the last row for the status
    /// line. Nothing changes when the raster was last fitted to that same size.
    pub fn fit_to_terminal(&mut self, measured: Option<(u16, u16)>)
        requires
            old(self)@.wf(),
            old(self)@.fitted != Some(resolved_size(measured)) ==> terminal_size_fits(resolved_size(measured)),
        ensures
            final(self)@.wf(),
            old(self)@.fitted == Some(resolved_size(measured)) ==> final(self)@ == old(self)@,
            old(self)@.fitted != Some(resolved_size(measured)) ==> {
                let (tw, th) = resolved_size(measured);
                let w = (tw * 2) as int;
                let h = ((th - 1) * 4) as int;
                &&& final(self)@.fitted == Some(resolved_size(measured))
                &&& final(self)@.width == w
                &&& final(self)@.height == h
                &&& w == old(self)@.width && h == old(self)@.height ==> {
                    &&& final(self)@.pixels == old(self)@.pixels
                    &&& final(self)@.colors == old(self)@.colors
                }
                &&& !(w == old(self)@.width && h == old(self)@.height) ==> {
                    &&& final(self)@.pixels == resized(old(self)@.pixels, old(self)@.width, w, h, false)
                    &&& final(self)@.colors == resized(old(self)@.colors, old(self)@.width, w, h, Color::Default)
                }
            },
    {
        let (terminal_width, terminal_height) = match measured {
            Some(size) => size,
            None => (DEFAULT_TERMINAL_WIDTH, DEFAULT_TERMINAL_HEIGHT),
        };
        let unchanged = match self.cached_terminal_size {
            Some((w, h)) => w == terminal_width && h == terminal_height,
            None => false,
        };
        if unchanged {
            return;
        }
        self.cached_terminal_size = Some((terminal_width, terminal_height));
        self.resize(terminal_width * 2, (terminal_height - 1) * 4);
    }

    /// The characters of character row `k`: the dots of each and its color (that of its first
    /// set dot with a color other than the default, row by row from the top).
    fn cell_row(&self, k: usize) -> (r: (Vec<BraillePixel>, Vec<Color>))
        requires
            self@.wf(),
            k < cell_rows(self@.height),
        ensures
            r.0@.len() == cell_columns(self@.width),
            r.1@.len() == cell_columns(self@.width),
            forall|bx: int|
                0 <= bx < cell_columns(self@.width) ==> #[trigger] r.0@[bx].dots() == cell_dots(
                    self@.pixels,
                    cell_columns(self@.width),
                    k as int,
                    bx,
                ),
            forall|bx: int|
                0 <= bx < cell_columns(self@.width) ==> #[trigger] r.1@[bx] == cell_color(
                    self@.pixels,
                    self@.colors,
                    cell_columns(self@.width),
                    k as int,
                    bx,
                ),
    {
        let ghost px = self@.pixels;
        let ghost pc = self@.colors;
        let cols: usize = (self.width as usize + 1) / 2;
        let ghost gcols = cols as int;
        let mut cells: Vec<BraillePixel> = Vec::new();
        let mut colors: Vec<Color> = Vec::new();
        for i in 0..cols
            invariant
                cells@.len() == i,
                colors@.len() == i,
                forall|bx: int| 0 <= bx < i ==> #[trigger] cells@[bx].dots() == blank_dots(),
                forall|bx: int| 0 <= bx < i ==> #[trigger] colors@[bx] == Color::Default,
        {
            cells.push(BraillePixel::new());
            colors.push(Color::Default);
        }
        assert forall|bx: int| 0 <= bx < cols implies #[trigger] cells@[bx].dots() == partial_dots(px, gcols, k as int, bx, 0) by {
            assert(partial_dots(px, gcols, k as int, bx, 0) =~~= blank_dots());
        }
        let height = self.content.len();
        let mut sub: usize = 0;
        while sub < 4
            invariant
                self@.wf(),
                px == self@.pixels,
                pc == self@.colors,
                height == px.len(),
                gcols == cols,
                cols == cell_columns(self@.width),
                k < cell_rows(self@.height),
                sub <= 4,
                cells@.len() == cols,
                colors@.len() == cols,
                forall|bx: int|
                    0 <= bx < cols ==> #[trigger] cells@[bx].dots() == partial_dots(px, gcols, k as int, bx, sub as int),
                forall|bx: int|
                    0 <= bx < cols ==> #[trigger] colors@[bx] == first_color(cell_candidates(px, pc, gcols, k as int, bx, sub as int)),
            decreases 4 - sub,
        {
            let r = 4 * k + sub;
            if r >= height {
                // No raster row here or below: the remaining rows give no dots.
                assert forall|bx: int| 0 <= bx < cols implies #[trigger] cells@[bx].dots() == partial_dots(px, gcols, k as int, bx, 4) by {
                    assert(partial_dots(px, gcols, k as int, bx, sub as int) =~~= partial_dots(px, gcols, k as int, bx, 4));
                }
                assert forall|bx: int| 0 <= bx < cols implies #[trigger] colors@[bx] == first_color(cell_candidates(px, pc, gcols, k as int, bx, 4)) by {
                    lemma_candidates_past_end(px, pc, gcols, k as int, bx, sub as int, 4);
                }
                sub = 4;
            } else {
                let ghost before_cells = cells@;
                assert(px[r as int] == self.content@[r as int]@);
                assert(pc[r as int] == self.colors@[r as int]@);
                assert(px[r as int].len() == pc[r as int].len());
                merge_row(&mut cells, &mut colors, &self.content[r], &self.colors[r], sub, cols);
                proof {
                    assert forall|j: int| 0 <= j < cols implies #[trigger] colors@[j] == first_color(cell_candidates(px, pc, gcols, k as int, j, sub + 1)) by {
                        let cands = cell_candidates(px, pc, gcols, k as int, j, sub as int);
                        assert(cell_candidates(px, pc, gcols, k as int, j, sub + 1) == cands + row_candidates(px[r as int], pc[r as int], gcols, j));
                        lemma_first_color_concat(cands, row_candidates(px[r as int], pc[r as int], gcols, j));
                    }
                    assert forall|j: int| 0 <= j < cols implies #[trigger] cells@[j].dots() == partial_dots(px, gcols, k as int, j, sub + 1) by {
                        assert(before_cells[j].dots() == partial_dots(px, gcols, k as int, j, sub as int));
                        assert(cells@[j].dots() == merged_dots(before_cells[j].dots(), px[r as int], gcols, j, sub as int));
                        assert(cells@[j].dots() =~~= partial_dots(px, gcols, k as int, j, sub + 1));
                    }
                }
                sub = sub + 1;
            }
        }
        proof {
            assert(sub == 4);
            assert forall|bx: int| 0 <= bx < cols implies #[trigger] cells@[bx].dots() == cell_dots(px, gcols, k as int, bx) by {
                assert(cells@[bx].dots() == partial_dots(px, gcols, k as int, bx, 4));
                assert(partial_dots(px, gcols, k as int, bx, 4) =~~= cell_dots(px, gcols, k as int, bx));
            }
            assert forall|bx: int| 0 <= bx < cols implies #[trigger] colors@[bx] == cell_color(px, pc, gcols, k as int, bx) by {
                assert(colors@[bx] == first_color(cell_candidates(px, pc, gcols, k as int, bx, 4)));
            }
        }
        (cells, colors)
    }

    /// The raster as plain text: Braille characters only, trimmed to the content with a margin
    /// of two characters on every side, one line per character row.
    fn export_plain(&self) -> (r: String)
        requires
            self@.wf(),
        ensures
            r@ == trimmed(plain_rows(self@.pixels, self@.width), 2),
    {
        let ghost px = self@.pixels;
        let nrows = (self.content.len() + 3) / 4;
        let mut rows_output: Vec<Vec<char>> = Vec::new();
        for k in 0..nrows
            invariant
                self@.wf(),
                px == self@.pixels,
                nrows == cell_rows(px.len() as int),
                rows_of(rows_output@) =~= plain_rows(px, self@.width).take(k as int),
        {
            let (cells, _colors) = self.cell_row(k);
            let mut row: Vec<char> = Vec::new();
            for bx in 0..cells.len()
                invariant
                    cells@.len() == cell_columns(self@.width),
                    forall|j: int|
                        0 <= j < cell_columns(self@.width) ==> #[trigger] cells@[j].dots() == cell_dots(
                            px,
                            cell_columns(self@.width),
                            k as int,
                            j,
                        ),
                    row@ =~= plain_row(px, cell_columns(self@.width), k as int).take(bx as int),
            {
                let ch = cells[bx].to_char();
                row.push(ch);
            }
            assert(row@ =~= plain_row(px, cell_columns(self@.width), k as int));
            assert(plain_rows(px, self@.width)[k as int] == row@);
            let ghost prev = rows_output@;
            rows_output.push(row);
            assert(rows_of(rows_output@) =~= rows_of(prev).push(row@));
            assert(plain_rows(px, self@.width).take(k + 1) =~= plain_rows(px, self@.width).take(k as int).push(row@));
        }
        assert(plain_rows(px, self@.width).take(nrows as int) =~= plain_rows(px, self@.width));
        let text = self.trim_output_with_margin(rows_output, 2);
        string_from_chars(&text)
    }

    /// The character row `k` as it is shown: each character with its color.
    proof fn lemma_shown_row(&self, k: int, row: Seq<BraillePixel>, colors: Seq<Color>)
        requires
            row.len() == cell_columns(self@.width),
            colors.len() == cell_columns(self@.width),
            forall|bx: int|
                0 <= bx < cell_columns(self@.width) ==> #[trigger] row[bx].dots() == cell_dots(
                    self@.pixels,
                    cell_columns(self@.width),
                    k,
                    bx,
                ),
            forall|bx: int|
                0 <= bx < cell_columns(self@.width) ==> #[trigger] colors[bx] == cell_color(
                    self@.pixels,
                    self@.colors,
                    cell_columns(self@.width),
                    k,
                    bx,
                ),
        ensures
            shown(row, colors) == cells(self@.pixels, self@.colors, cell_columns(self@.width), k),
    {
        assert(shown(row, colors) =~= cells(self@.pixels, self@.colors, cell_columns(self@.width), k));
    }

    /// All character rows as colored text, the color carrying over from row to row, and the
    /// color current after the last row.
    fn ansi_text_rows(&self) -> (r: (Vec<Vec<char>>, Color))
        requires
            self@.wf(),
        ensures
            (rows_of(r.0@), r.1) == ansi_rows(self@.pixels, self@.colors, self@.width, cell_rows(self@.pixels.len() as int)),
    {
        let ghost px = self@.pixels;
        let ghost pc = self@.colors;
        let nrows = (self.content.len() + 3) / 4;
        let mut rows_output: Vec<Vec<char>> = Vec::new();
        let mut current_color = Color::Default;
        for k in 0..nrows
            invariant
                self@.wf(),
                px == self@.pixels,
                pc == self@.colors,
                nrows == cell_rows(px.len() as int),
                (rows_of(rows_output@), current_color) == ansi_rows(px, pc, self@.width, k as int),
        {
            let (cells, colors) = self.cell_row(k);
            proof {
                self.lemma_shown_row(k as int, cells@, colors@);
            }
            let (row, next) = ansi_row(&cells, &colors, current_color);
            let ghost prev = rows_output@;
            rows_output.push(row);
            assert(rows_of(rows_output@) =~= rows_of(prev).push(row@));
            current_color = next;
        }
        (rows_output, current_color)
    }

    /// All character rows as HTML, the color carrying over from row to row.
    fn html_text_rows(&self) -> (r: Vec<Vec<char>>)
        requires
            self@.wf(),
        ensures
            rows_of(r@) == html_rows(self@.pixels, self@.colors, self@.width, cell_rows(self@.pixels.len() as int)).0,
    {
        let ghost px = self@.pixels;
        let ghost pc = self@.colors;
        let nrows = (self.content.len() + 3) / 4;
        let mut rows_output: Vec<Vec<char>> = Vec::new();
        let mut current_color = Color::Default;
        for k in 0..nrows
            invariant
                self@.wf(),
                px == self@.pixels,
                pc == self@.colors,
                nrows == cell_rows(px.len() as int),
                (rows_of(rows_output@), current_color) == html_rows(px, pc, self@.width, k as int),
        {
            let (cells, colors) = self.cell_row(k);
            proof {
                self.lemma_shown_row(k as int, cells@, colors@);
            }
            let (row, next) = html_row(&cells, &colors, current_color);
            let ghost prev = rows_output@;
            rows_output.push(row);
            assert(rows_of(rows_output@) =~= rows_of(prev).push(row@));
            current_color = next;
        }
        rows_output
    }

    /// The raster as text with ANSI color escape sequences, trimmed to the content with a
    /// margin of two characters on every side, one line per character row.
    fn export_color(&self) -> (r: String)
        requires
            self@.wf(),
        ensures
            r@ == trimmed(ansi_export_rows(self@.pixels, self@.colors, self@.width), 2),
    {
        let (mut rows_output, current_color) = self.ansi_text_rows();
        let ghost before = rows_of(rows_output@);
        if current_color != Color::Default {
            let n = rows_output.len();
            if n > 0 {
                let mut last_row = rows_output[n - 1].clone();
                assert(last_row@ == rows_output@[n - 1]@);
                push_str_chars(&mut last_row, "\x1b[39m");
                rows_output.set(n - 1, last_row);
                assert(rows_of(rows_output@) =~= before.update(n - 1, before.last() + ansi_code(Color::Default)));
            }
        }
        let text = self.trim_output_with_margin(rows_output, 2);
        string_from_chars(&text)
    }

    /// The raster as a self-contained HTML fragment: a `pre` element holding the Braille
    /// characters, colored with inline-styled spans, trimmed to the content with a margin of
    /// two characters on every side.
    fn export_html(&self) -> (r: String)
        requires
            self@.wf(),
        ensures
            r@ == html_prefix() + trimmed(html_rows(self@.pixels, self@.colors, self@.width, cell_rows(self@.pixels.len() as int)).0, 2)
                + html_suffix(),
    {
        let rows_output = self.html_text_rows();
        let trimmed_content = self.trim_output_with_margin(rows_output, 2);
        let mut out: Vec<char> = Vec::new();
        push_str_chars(
            &mut out,
            "<pre style=\"font-family: monospace; line-height: 1; background-color: #000000; color: #ffffff; padding: 10px; margin: 0; white-space: pre; overflow-x: auto;\">",
        );
        push_chars(&mut out, &trimmed_content);
        push_str_chars(&mut out, "</pre>");
        string_from_chars(&out)
    }

    /// The raster as text in the given format (see the export of each format).
    pub fn export_to_string(&self, format: ExportFormat) -> (r: String)
        requires
            self@.wf(),
        ensures
            r@ == export_text(self@, format),
    {
        match format {
            ExportFormat::Plain => self.export_plain(),
            ExportFormat::Color => self.export_color(),
            ExportFormat::Html => self.export_html(),
        }
    }

    /// The terminal frame that shows the raster: cursor home, every character row with color
    /// escape sequences on its own line, and the color reset at the end when it was changed.
    pub fn render(&self) -> (r: String)
        requires
            self@.wf(),
        ensures
            r@ == frame_text(self@.pixels, self@.colors, self@.width),
    {
        let (rows, current_color) = self.ansi_text_rows();
        let ghost rs = rows_of(rows@);
        let mut output: Vec<char> = Vec::new();
        push_str_chars(&mut output, "\x1b[H");
        let ghost head = output@;
        for k in 0..rows.len()
            invariant
                rs == rows_of(rows@),
                head == "\x1b[H"@,
                output@ == head + frame_lines(rs.take(k as int)),
        {
            push_chars(&mut output, &rows[k]);
            push_str_chars(&mut output, "\r\n");
            assert(rs.take(k + 1).drop_last() =~= rs.take(k as int));
        }
        assert(rs.take(rows@.len() as int) =~= rs);
        if current_color != Color::Default {
            push_str_chars(&mut output, "\x1b[39m");
        }
        string_from_chars(&output)
    }
}

} // verus!
