use vstd::prelude::*;

use crate::braille::{braille_char, dots_value};
use crate::color::{Color, ExportFormat};
use crate::layout::{
    ansi_code, ansi_export_rows, ansi_rows, ansi_run, cell_candidates, cell_color, cell_columns, cell_dots,
    cell_rows, cells, first_color, html_escape, html_prefix, html_rows, html_run, html_suffix,
    plain_row, plain_rows, row_candidates,
};
use crate::screen::{export_text, ScreenView};
use crate::trim::{
    cut, cut_lines, first_content_row, first_mark, has_content, in_escape_after, last_content_row,
    left_bound, right_bound, sat_sub, trimmed, visible,
};

verus! {

// Properties of the text exports that hold for every raster.

/// Every dot of the raster is off.
pub open spec fn all_dots_off(v: ScreenView) -> bool {
    forall|r: int, c: int| 0 <= r < v.pixels.len() && 0 <= c < v.pixels[r].len() ==> !#[trigger] v.pixels[r][c]
}

/// Every dot of the raster has the default color.
pub open spec fn all_default_colors(v: ScreenView) -> bool {
    forall|r: int, c: int| 0 <= r < v.colors.len() && 0 <= c < v.colors[r].len() ==> #[trigger] v.colors[r][c]
        == Color::Default
}

/// A Braille character is never the escape character, a newline, `&`, `<` or `>`, and its
/// code is the blank pattern's plus the value of its dots.
pub proof fn lemma_braille_char_plain(d: Seq<Seq<bool>>)
    ensures
        braille_char(d) != '\x1b',
        braille_char(d) != '&',
        braille_char(d) != '<',
        braille_char(d) != '>',
        braille_char(d) != '\n',
        braille_char(d) as u32 == 0x2800 + dots_value(d),
{
    assert(dots_value(d) <= 255);
}

/// Text without escape characters is all on screen.
pub proof fn lemma_visible_plain(s: Seq<char>)
    requires
        forall|i: int| 0 <= i < s.len() ==> #[trigger] s[i] != '\x1b',
    ensures
        visible(s) == s,
        !in_escape_after(s),
    decreases s.len(),
{
    if s.len() > 0 {
        lemma_visible_plain(s.drop_last());
        assert(s.drop_last().push(s.last()) =~= s);
    }
}

/// Text of blank characters has no mark.
pub proof fn lemma_blank_no_mark(s: Seq<char>)
    requires
        forall|i: int| 0 <= i < s.len() ==> #[trigger] s[i] == '\u{2800}',
    ensures
        first_mark(s) is None,
    decreases s.len(),
{
    if s.len() > 0 {
        lemma_blank_no_mark(s.drop_last());
    }
}

/// Without any row with content, trimming gives nothing.
pub proof fn lemma_no_content_rows(rows: Seq<Seq<char>>, n: int)
    requires
        0 <= n <= rows.len(),
        forall|i: int| 0 <= i < rows.len() ==> !has_content(#[trigger] rows[i]),
    ensures
        first_content_row(rows, n) is None,
        last_content_row(rows, n) is None,
    decreases n,
{
    if n > 0 {
        lemma_no_content_rows(rows, n - 1);
    }
}

/// Rows without content trim to nothing.
pub proof fn lemma_trim_blank_rows(rows: Seq<Seq<char>>, margin: int)
    requires
        forall|i: int| 0 <= i < rows.len() ==> !has_content(#[trigger] rows[i]),
    ensures
        trimmed(rows, margin) == Seq::<char>::empty(),
{
    lemma_no_content_rows(rows, rows.len() as int);
}

/// When no candidate has a non-default color, the first color is the default.
pub proof fn lemma_first_color_default(c: Seq<(bool, Color)>)
    requires
        forall|i: int| 0 <= i < c.len() ==> !(#[trigger] c[i]).0 || c[i].1 == Color::Default,
    ensures
        first_color(c) == Color::Default,
    decreases c.len(),
{
    if c.len() > 0 {
        assert forall|i: int| 0 <= i < c.drop_first().len() implies !(#[trigger] c.drop_first()[i]).0
            || c.drop_first()[i].1 == Color::Default by {
            assert(c.drop_first()[i] == c[i + 1]);
        }
        lemma_first_color_default(c.drop_first());
    }
}

/// The candidates of a character come from dots of the raster: with every dot off none is
/// set, and with every color the default all have the default color.
pub proof fn lemma_candidates_from_raster(v: ScreenView, cols: int, k: int, bx: int, subs: int)
    requires
        v.wf(),
        0 <= k,
        0 <= bx,
    ensures
        forall|i: int|
            0 <= i < cell_candidates(v.pixels, v.colors, cols, k, bx, subs).len() ==> {
                &&& all_dots_off(v) ==> !(#[trigger] cell_candidates(v.pixels, v.colors, cols, k, bx, subs)[i]).0
                &&& all_default_colors(v) ==> cell_candidates(v.pixels, v.colors, cols, k, bx, subs)[i].1
                    == Color::Default
            },
    decreases subs,
{
    if subs > 0 {
        lemma_candidates_from_raster(v, cols, k, bx, subs - 1);
        let prev = cell_candidates(v.pixels, v.colors, cols, k, bx, subs - 1);
        let all = cell_candidates(v.pixels, v.colors, cols, k, bx, subs);
        let r = 4 * k + subs - 1;
        assert forall|i: int| 0 <= i < all.len() implies {
            &&& all_dots_off(v) ==> !(#[trigger] all[i]).0
            &&& all_default_colors(v) ==> all[i].1 == Color::Default
        } by {
            if i < prev.len() {
                assert(all[i] == prev[i]);
            } else {
                assert(0 <= r < v.pixels.len());
                let rc = row_candidates(v.pixels[r], v.colors[r], cols, bx);
                assert(all[i] == rc[i - prev.len()]);
                let n = v.pixels[r].len() as int;
                assert(v.pixels[r].len() == v.colors[r].len());
                let c = if bx < n / 2 && i - prev.len() < 2 { 2 * bx + (i - prev.len()) } else { n - 1 };
                assert(0 <= c < n);
                assert(all[i] == (v.pixels[r][c], v.colors[r][c]));
                assert(all_dots_off(v) ==> !v.pixels[r][c]);
                assert(all_default_colors(v) ==> v.colors[r][c] == Color::Default);
            }
        }
    }
}

/// Without colored dots, every character has the default color.
pub proof fn lemma_cell_color_default(v: ScreenView, cols: int, k: int, bx: int)
    requires
        v.wf(),
        0 <= k,
        0 <= bx,
        all_dots_off(v) || all_default_colors(v),
    ensures
        cell_color(v.pixels, v.colors, cols, k, bx) == Color::Default,
{
    let c = cell_candidates(v.pixels, v.colors, cols, k, bx, 4);
    lemma_candidates_from_raster(v, cols, k, bx, 4);
    assert forall|i: int| 0 <= i < c.len() implies !(#[trigger] c[i]).0 || c[i].1 == Color::Default by {
    }
    lemma_first_color_default(c);
}

/// The colored text of a run of characters all in the current color is just the characters.
pub proof fn lemma_ansi_run_uncolored(cs: Seq<(char, Color)>, cur: Color)
    requires
        forall|i: int| 0 <= i < cs.len() ==> (#[trigger] cs[i]).1 == cur,
    ensures
        ansi_run(cs, cur) == (Seq::new(cs.len(), |i: int| cs[i].0), cur),
    decreases cs.len(),
{
    if cs.len() > 0 {
        lemma_ansi_run_uncolored(cs.drop_last(), cur);
        assert(Seq::new(cs.drop_last().len(), |i: int| cs.drop_last()[i].0).push(cs.last().0) =~= Seq::new(
            cs.len(),
            |i: int| cs[i].0,
        ));
    } else {
        assert(Seq::new(cs.len(), |i: int| cs[i].0) =~= Seq::<char>::empty());
    }
}

/// The HTML text of a run of characters all in the current color, none of them special to
/// HTML, is just the characters, with no span.
pub proof fn lemma_html_run_uncolored(cs: Seq<(char, Color)>, cur: Color)
    requires
        forall|i: int| 0 <= i < cs.len() ==> (#[trigger] cs[i]).1 == cur,
        forall|i: int| 0 <= i < cs.len() ==> html_escape((#[trigger] cs[i]).0) == seq![cs[i].0],
    ensures
        html_run(cs, cur) == (Seq::new(cs.len(), |i: int| cs[i].0), cur, false),
    decreases cs.len(),
{
    if cs.len() > 0 {
        lemma_html_run_uncolored(cs.drop_last(), cur);
        assert(html_escape(cs.last().0) == seq![cs.last().0]);
        assert(Seq::new(cs.drop_last().len(), |i: int| cs.drop_last()[i].0) + seq![cs.last().0] =~= Seq::new(
            cs.len(),
            |i: int| cs[i].0,
        ));
    } else {
        assert(Seq::new(cs.len(), |i: int| cs[i].0) =~= Seq::<char>::empty());
    }
}

/// Without colored dots, the colored rows and the HTML rows are the plain rows, and the color
/// stays the default.
pub proof fn lemma_uncolored_rows(v: ScreenView, n: int)
    requires
        v.wf(),
        all_dots_off(v) || all_default_colors(v),
        0 <= n <= cell_rows(v.pixels.len() as int),
    ensures
        ansi_rows(v.pixels, v.colors, v.width, n) == (plain_rows(v.pixels, v.width).take(n), Color::Default),
        html_rows(v.pixels, v.colors, v.width, n) == (plain_rows(v.pixels, v.width).take(n), Color::Default),
    decreases n,
{
    if n > 0 {
        lemma_uncolored_rows(v, n - 1);
        let cols = cell_columns(v.width);
        let cs = cells(v.pixels, v.colors, cols, n - 1);
        assert forall|i: int| 0 <= i < cs.len() implies (#[trigger] cs[i]).1 == Color::Default by {
            lemma_cell_color_default(v, cols, n - 1, i);
        }
        assert forall|i: int| 0 <= i < cs.len() implies html_escape((#[trigger] cs[i]).0) == seq![cs[i].0] by {
            lemma_braille_char_plain(cell_dots(v.pixels, cols, n - 1, i));
        }
        lemma_ansi_run_uncolored(cs, Color::Default);
        lemma_html_run_uncolored(cs, Color::Default);
        assert(Seq::new(cs.len(), |i: int| cs[i].0) =~= plain_row(v.pixels, cols, n - 1));
        assert(plain_rows(v.pixels, v.width).take(n) =~= plain_rows(v.pixels, v.width).take(n - 1).push(
            plain_row(v.pixels, cols, n - 1),
        ));
    }
}

/// With no colored dot (in particular, with no dot set), the colored export is the plain
/// export, and the HTML export is the plain export wrapped in the `pre` element.
pub proof fn lemma_uncolored_exports_match_plain(v: ScreenView)
    requires
        v.wf(),
        all_dots_off(v) || all_default_colors(v),
    ensures
        export_text(v, ExportFormat::Color) == export_text(v, ExportFormat::Plain),
        export_text(v, ExportFormat::Html) == html_prefix() + export_text(v, ExportFormat::Plain) + html_suffix(),
{
    let n = cell_rows(v.pixels.len() as int);
    lemma_uncolored_rows(v, n);
    assert(plain_rows(v.pixels, v.width).take(n) =~= plain_rows(v.pixels, v.width));
    assert(ansi_export_rows(v.pixels, v.colors, v.width) == plain_rows(v.pixels, v.width));
}

/// A raster with every dot off exports to nothing in plain text and with colors, and to an
/// empty `pre` element in HTML.
pub proof fn lemma_blank_raster_exports_nothing(v: ScreenView)
    requires
        v.wf(),
        all_dots_off(v),
    ensures
        export_text(v, ExportFormat::Plain) == Seq::<char>::empty(),
        export_text(v, ExportFormat::Color) == Seq::<char>::empty(),
        export_text(v, ExportFormat::Html) == html_prefix() + html_suffix(),
{
    let rows = plain_rows(v.pixels, v.width);
    let cols = cell_columns(v.width);
    assert forall|k: int| 0 <= k < rows.len() implies !has_content(#[trigger] rows[k]) by {
        let row = rows[k];
        assert forall|bx: int| 0 <= bx < row.len() implies #[trigger] row[bx] == '\u{2800}' by {
            let d = cell_dots(v.pixels, cols, k, bx);
            assert(!d[0][0] && !d[1][0] && !d[2][0] && !d[3][0] && !d[0][1] && !d[1][1] && !d[2][1] && !d[3][1]);
            assert(dots_value(d) == 0);
            lemma_braille_char_plain(d);
        }
        assert forall|i: int| 0 <= i < row.len() implies #[trigger] row[i] != '\x1b' by {
            assert(row[i] == '\u{2800}');
        }
        lemma_visible_plain(row);
        lemma_blank_no_mark(row);
    }
    lemma_trim_blank_rows(rows, 2);
    lemma_uncolored_exports_match_plain(v);
    assert(html_prefix() + Seq::<char>::empty() + html_suffix() =~= html_prefix() + html_suffix());
}

/// Every character that cutting keeps is a character of the text.
pub proof fn lemma_cut_keeps_chars(s: Seq<char>, start: int, end: int)
    ensures
        forall|i: int| 0 <= i < cut(s, start, end).len() ==> s.contains(#[trigger] cut(s, start, end)[i]),
    decreases s.len(),
{
    if s.len() > 0 {
        let p = s.drop_last();
        lemma_cut_keeps_chars(p, start, end);
        let c = cut(s, start, end);
        let cp = cut(p, start, end);
        assert forall|i: int| 0 <= i < c.len() implies s.contains(#[trigger] c[i]) by {
            if i < cp.len() {
                assert(c[i] == cp[i]);
                let j = choose|j: int| 0 <= j < p.len() && p[j] == cp[i];
                assert(s[j] == p[j]);
            } else {
                assert(c[i] == s.last());
                assert(s[s.len() - 1] == s.last());
            }
        }
    }
}

/// Every character of the cut lines is a newline or a character of one of the rows.
pub proof fn lemma_cut_lines_chars(rows: Seq<Seq<char>>, from: int, to: int, start: int, end: int)
    requires
        0 <= from,
        to <= rows.len(),
    ensures
        forall|i: int|
            0 <= i < cut_lines(rows, from, to, start, end).len() ==> #[trigger] cut_lines(rows, from, to, start, end)[i]
                == '\n' || exists|r: int| 0 <= r < rows.len() && rows[r].contains(cut_lines(rows, from, to, start, end)[i]),
    decreases to - from,
{
    if to > from {
        lemma_cut_lines_chars(rows, from, to - 1, start, end);
        lemma_cut_keeps_chars(rows[to - 1], start, end);
        let prev = cut_lines(rows, from, to - 1, start, end);
        let c = cut(rows[to - 1], start, end);
        let all = cut_lines(rows, from, to, start, end);
        assert forall|i: int| 0 <= i < all.len() implies #[trigger] all[i] == '\n' || exists|r: int|
            0 <= r < rows.len() && rows[r].contains(all[i]) by {
            if i < prev.len() {
                assert(all[i] == prev[i]);
            } else if i < prev.len() + c.len() {
                assert(all[i] == c[i - prev.len()]);
                assert(rows[to - 1].contains(all[i]));
            } else {
                assert(all[i] == '\n');
            }
        }
    }
}

/// The plain export holds no escape character: only Braille characters and line breaks.
pub proof fn lemma_plain_export_has_no_escapes(v: ScreenView)
    requires
        v.wf(),
    ensures
        forall|i: int| 0 <= i < export_text(v, ExportFormat::Plain).len() ==> #[trigger] export_text(
            v,
            ExportFormat::Plain,
        )[i] != '\x1b',
{
    let rows = plain_rows(v.pixels, v.width);
    let t = export_text(v, ExportFormat::Plain);
    let n = rows.len() as int;
    if t.len() > 0 {
        let top = first_content_row(rows, n).unwrap();
        let bottom = last_content_row(rows, n).unwrap();
        crate::trim::lemma_content_row_bounds(rows, n);
        let left = crate::trim::left_bound(rows, top, bottom + 1).unwrap();
        let right = crate::trim::right_bound(rows, top, bottom + 1).unwrap();
        let final_bottom = if bottom + 2 < n - 1 { bottom + 2 } else { n - 1 };
        lemma_cut_lines_chars(rows, crate::trim::sat_sub(top, 2), final_bottom + 1, crate::trim::sat_sub(left, 2), right + 2);
        assert forall|i: int| 0 <= i < t.len() implies #[trigger] t[i] != '\x1b' by {
            if t[i] != '\n' {
                let r = choose|r: int| 0 <= r < rows.len() && rows[r].contains(t[i]);
                let j = choose|j: int| 0 <= j < rows[r].len() && rows[r][j] == t[i];
                lemma_braille_char_plain(cell_dots(v.pixels, cell_columns(v.width), r, j));
            }
        }
    }
}

/// Reading `b` after text that is not inside an escape sequence: the on-screen characters are
/// those of both parts, and whether an escape sequence is left open depends on `b` alone.
pub proof fn lemma_visible_concat(a: Seq<char>, b: Seq<char>)
    requires
        !in_escape_after(a),
    ensures
        visible(a + b) == visible(a) + visible(b),
        in_escape_after(a + b) == in_escape_after(b),
    decreases b.len(),
{
    if b.len() == 0 {
        assert(a + b =~= a);
        assert(visible(a) + Seq::<char>::empty() =~= visible(a));
    } else {
        lemma_visible_concat(a, b.drop_last());
        assert((a + b).drop_last() =~= a + b.drop_last());
        assert((a + b).last() == b.last());
        let vp = visible(b.drop_last());
        assert((visible(a) + vp).push(b.last()) =~= visible(a) + vp.push(b.last()));
    }
}

/// The prefixes of an escape sequence (the escape character, then characters other than `m`)
/// show nothing and leave the sequence open.
proof fn lemma_escape_prefix(s: Seq<char>, k: int)
    requires
        1 <= k < s.len(),
        s[0] == '\x1b',
        forall|i: int| 0 < i < k ==> #[trigger] s[i] != 'm',
    ensures
        visible(s.take(k)) == Seq::<char>::empty(),
        in_escape_after(s.take(k)),
    decreases k,
{
    if k == 1 {
        assert(s.take(1).drop_last() =~= Seq::<char>::empty());
        assert(s.take(1).last() == s[0]);
        assert(visible(s.take(1)) == visible(s.take(1).drop_last()));
        assert(visible(Seq::<char>::empty()) == Seq::<char>::empty());
    } else {
        lemma_escape_prefix(s, k - 1);
        assert(s.take(k).drop_last() =~= s.take(k - 1));
        assert(s.take(k).last() == s[k - 1]);
        assert(visible(s.take(k)) == visible(s.take(k).drop_last()));
    }
}

/// An escape sequence (the escape character, characters other than `m`, then `m`) shows
/// nothing and closes itself.
proof fn lemma_escape_sequence(s: Seq<char>)
    requires
        s.len() >= 2,
        s[0] == '\x1b',
        s.last() == 'm',
        forall|i: int| 0 < i < s.len() - 1 ==> #[trigger] s[i] != 'm',
    ensures
        visible(s) == Seq::<char>::empty(),
        !in_escape_after(s),
{
    lemma_escape_prefix(s, s.len() - 1);
    assert(s.drop_last() =~= s.take(s.len() - 1));
}

/// The escape sequence of a color shows nothing and closes itself.
proof fn lemma_ansi_code_invisible(c: Color)
    ensures
        visible(ansi_code(c)) == Seq::<char>::empty(),
        !in_escape_after(ansi_code(c)),
{
    reveal_strlit("\x1b[39m");
    reveal_strlit("\x1b[30m");
    reveal_strlit("\x1b[31m");
    reveal_strlit("\x1b[32m");
    reveal_strlit("\x1b[33m");
    reveal_strlit("\x1b[34m");
    reveal_strlit("\x1b[35m");
    reveal_strlit("\x1b[36m");
    reveal_strlit("\x1b[37m");
    let s = ansi_code(c);
    assert(s.len() == 5);
    assert(forall|i: int| 0 < i < 4 ==> #[trigger] s[i] != 'm');
    lemma_escape_sequence(s);
}

/// The colored text of a run of characters, none of them the escape character, shows exactly
/// those characters and leaves no escape sequence open.
proof fn lemma_ansi_run_visible(cs: Seq<(char, Color)>, cur: Color)
    requires
        forall|i: int| 0 <= i < cs.len() ==> (#[trigger] cs[i]).0 != '\x1b',
    ensures
        visible(ansi_run(cs, cur).0) == Seq::new(cs.len(), |i: int| cs[i].0),
        !in_escape_after(ansi_run(cs, cur).0),
    decreases cs.len(),
{
    if cs.len() == 0 {
        assert(visible(Seq::<char>::empty()) =~= Seq::new(0, |i: int| cs[i].0));
    } else {
        let init = cs.drop_last();
        assert forall|i: int| 0 <= i < init.len() implies (#[trigger] init[i]).0 != '\x1b' by {
            assert(init[i] == cs[i]);
        }
        lemma_ansi_run_visible(init, cur);
        let (t, c) = ansi_run(init, cur);
        let (ch, col) = cs.last();
        let code = if col != c { ansi_code(col) } else { Seq::<char>::empty() };
        lemma_ansi_code_invisible(col);
        lemma_visible_concat(t, code);
        lemma_visible_plain(seq![ch]);
        lemma_visible_concat(t + code, seq![ch]);
        assert(visible(t) + Seq::<char>::empty() =~= visible(t));
        assert(Seq::new(init.len(), |i: int| init[i].0) + seq![ch] =~= Seq::new(cs.len(), |i: int| cs[i].0));
    }
}

/// Each of the first `n` colored rows shows exactly the plain row and leaves no escape
/// sequence open.
proof fn lemma_ansi_rows_visible(v: ScreenView, n: int)
    requires
        0 <= n <= cell_rows(v.pixels.len() as int),
    ensures
        ansi_rows(v.pixels, v.colors, v.width, n).0.len() == n,
        forall|k: int| 0 <= k < n ==> visible(#[trigger] ansi_rows(v.pixels, v.colors, v.width, n).0[k]) == plain_rows(
            v.pixels,
            v.width,
        )[k],
        forall|k: int| 0 <= k < n ==> !in_escape_after(#[trigger] ansi_rows(v.pixels, v.colors, v.width, n).0[k]),
    decreases n,
{
    if n > 0 {
        lemma_ansi_rows_visible(v, n - 1);
        let cols = cell_columns(v.width);
        let cs = cells(v.pixels, v.colors, cols, n - 1);
        assert forall|i: int| 0 <= i < cs.len() implies (#[trigger] cs[i]).0 != '\x1b' by {
            lemma_braille_char_plain(cell_dots(v.pixels, cols, n - 1, i));
        }
        let (rows, cur) = ansi_rows(v.pixels, v.colors, v.width, n - 1);
        lemma_ansi_run_visible(cs, cur);
        assert(Seq::new(cs.len(), |i: int| cs[i].0) =~= plain_row(v.pixels, cols, n - 1));
        let all = ansi_rows(v.pixels, v.colors, v.width, n).0;
        assert forall|k: int| 0 <= k < n implies visible(#[trigger] all[k]) == plain_rows(v.pixels, v.width)[k]
            && !in_escape_after(all[k]) by {
            if k < n - 1 {
                assert(all[k] == rows[k]);
            }
        }
    }
}

/// The colored rows as exported show exactly the plain rows, and none leaves an escape
/// sequence open.
proof fn lemma_ansi_export_rows_visible(v: ScreenView)
    ensures
        ansi_export_rows(v.pixels, v.colors, v.width).len() == plain_rows(v.pixels, v.width).len(),
        forall|k: int| 0 <= k < plain_rows(v.pixels, v.width).len() ==> visible(
            #[trigger] ansi_export_rows(v.pixels, v.colors, v.width)[k],
        ) == plain_rows(v.pixels, v.width)[k],
        forall|k: int| 0 <= k < plain_rows(v.pixels, v.width).len() ==> !in_escape_after(
            #[trigger] ansi_export_rows(v.pixels, v.colors, v.width)[k],
        ),
{
    let n = cell_rows(v.pixels.len() as int);
    lemma_ansi_rows_visible(v, n);
    let (rows, cur) = ansi_rows(v.pixels, v.colors, v.width, n);
    if cur != Color::Default && rows.len() > 0 {
        let last = rows.last();
        lemma_ansi_code_invisible(Color::Default);
        lemma_visible_concat(last, ansi_code(Color::Default));
        assert(visible(last) + Seq::<char>::empty() =~= visible(last));
        let ex = ansi_export_rows(v.pixels, v.colors, v.width);
        assert forall|k: int| 0 <= k < n implies visible(#[trigger] ex[k]) == plain_rows(v.pixels, v.width)[k]
            && !in_escape_after(ex[k]) by {
            if k < n - 1 {
                assert(ex[k] == rows[k]);
            }
        }
    }
}

/// The on-screen characters of text hold no escape character.
proof fn lemma_visible_has_no_escape(s: Seq<char>)
    ensures
        forall|i: int| 0 <= i < visible(s).len() ==> #[trigger] visible(s)[i] != '\x1b',
    decreases s.len(),
{
    if s.len() > 0 {
        let p = s.drop_last();
        lemma_visible_has_no_escape(p);
        if !(s.last() == '\x1b' || in_escape_after(p)) {
            assert(visible(s) == visible(p).push(s.last()));
            assert forall|i: int| 0 <= i < visible(s).len() implies #[trigger] visible(s)[i] != '\x1b' by {
                if i < visible(p).len() {
                    assert(visible(s)[i] == visible(p)[i]);
                }
            }
        }
    }
}

/// Cutting keeps the on-screen characters that cutting the on-screen text keeps, and leaves
/// an escape sequence open exactly when the text does.
proof fn lemma_cut_visible(s: Seq<char>, start: int, end: int)
    ensures
        visible(cut(s, start, end)) == cut(visible(s), start, end),
        in_escape_after(cut(s, start, end)) == in_escape_after(s),
    decreases s.len(),
{
    if s.len() > 0 {
        let p = s.drop_last();
        let ch = s.last();
        lemma_cut_visible(p, start, end);
        lemma_visible_has_no_escape(p);
        lemma_visible_plain(visible(p));
        let vp = visible(p);
        let cp = cut(p, start, end);
        assert(cp.push(ch).drop_last() =~= cp);
        assert(cp.push(ch).last() == ch);
        if ch == '\x1b' || in_escape_after(p) {
            assert(visible(s) == vp);
            assert(cut(s, start, end) == cp.push(ch));
            assert(visible(cp.push(ch)) == visible(cp));
        } else {
            assert(visible(s) == vp.push(ch));
            assert(vp.push(ch).drop_last() =~= vp);
            assert(vp.push(ch).last() == ch);
            assert(!in_escape_after(vp));
            assert(visible(vp) == vp);
            let pos = vp.len() as int;
            let cv = cut(vp, start, end);
            assert(cut(vp.push(ch), start, end) == if start <= pos && pos <= end { cv.push(ch) } else { cv });
            if start <= pos && pos <= end {
                assert(cut(s, start, end) == cp.push(ch));
                assert(visible(cp.push(ch)) == visible(cp).push(ch));
            } else {
                assert(cut(s, start, end) == cp);
            }
        }
    }
}

/// On-screen characters that agree row by row give the same rows with content.
proof fn lemma_content_rows_agree(r: Seq<Seq<char>>, p: Seq<Seq<char>>, n: int)
    requires
        r.len() == p.len(),
        0 <= n <= r.len(),
        forall|k: int| 0 <= k < r.len() ==> visible(#[trigger] r[k]) == visible(p[k]),
    ensures
        first_content_row(r, n) == first_content_row(p, n),
        last_content_row(r, n) == last_content_row(p, n),
    decreases n,
{
    if n > 0 {
        lemma_content_rows_agree(r, p, n - 1);
        assert(visible(r[n - 1]) == visible(p[n - 1]));
    }
}

/// On-screen characters that agree row by row give the same content columns.
proof fn lemma_bounds_agree(r: Seq<Seq<char>>, p: Seq<Seq<char>>, lo: int, hi: int)
    requires
        r.len() == p.len(),
        0 <= lo,
        hi <= r.len(),
        forall|k: int| 0 <= k < r.len() ==> visible(#[trigger] r[k]) == visible(p[k]),
    ensures
        left_bound(r, lo, hi) == left_bound(p, lo, hi),
        right_bound(r, lo, hi) == right_bound(p, lo, hi),
    decreases hi - lo,
{
    if hi > lo {
        lemma_bounds_agree(r, p, lo, hi - 1);
        assert(visible(r[hi - 1]) == visible(p[hi - 1]));
    }
}

/// Cut lines of rows that show the escape-free rows `p` show the cut lines of `p`, and leave
/// no escape sequence open.
proof fn lemma_cut_lines_visible(r: Seq<Seq<char>>, p: Seq<Seq<char>>, from: int, to: int, start: int, end: int)
    requires
        r.len() == p.len(),
        0 <= from,
        to <= r.len(),
        forall|k: int| 0 <= k < r.len() ==> visible(#[trigger] r[k]) == p[k],
        forall|k: int| 0 <= k < r.len() ==> !in_escape_after(#[trigger] r[k]),
    ensures
        visible(cut_lines(r, from, to, start, end)) == cut_lines(p, from, to, start, end),
        !in_escape_after(cut_lines(r, from, to, start, end)),
    decreases to - from,
{
    if to > from {
        lemma_cut_lines_visible(r, p, from, to - 1, start, end);
        let prev = cut_lines(r, from, to - 1, start, end);
        let row = r[to - 1];
        let c = cut(row, start, end);
        lemma_cut_visible(row, start, end);
        lemma_visible_concat(prev, c);
        lemma_visible_plain(seq!['\n']);
        lemma_visible_concat(prev + c, seq!['\n']);
    }
}

/// Rows that show the escape-free rows `p`, row by row, and leave no escape sequence open
/// trim to text that shows the trimmed `p`.
proof fn lemma_trimmed_visible(r: Seq<Seq<char>>, p: Seq<Seq<char>>, margin: int)
    requires
        r.len() == p.len(),
        margin >= 0,
        forall|k: int| 0 <= k < r.len() ==> visible(#[trigger] r[k]) == p[k],
        forall|k: int| 0 <= k < r.len() ==> !in_escape_after(#[trigger] r[k]),
        forall|k: int| 0 <= k < p.len() ==> visible(#[trigger] p[k]) == p[k],
    ensures
        visible(trimmed(r, margin)) == trimmed(p, margin),
{
    let n = r.len() as int;
    assert forall|k: int| 0 <= k < r.len() implies visible(#[trigger] r[k]) == visible(p[k]) by {
        assert(visible(p[k]) == p[k]);
    }
    lemma_content_rows_agree(r, p, n);
    crate::trim::lemma_content_row_bounds(r, n);
    match (first_content_row(r, n), last_content_row(r, n)) {
        (Some(top), Some(bottom)) => {
            lemma_bounds_agree(r, p, top, bottom + 1);
            match (left_bound(r, top, bottom + 1), right_bound(r, top, bottom + 1)) {
                (Some(left), Some(right)) => {
                    let final_bottom = if bottom + margin < n - 1 { bottom + margin } else { n - 1 };
                    lemma_cut_lines_visible(r, p, sat_sub(top, margin), final_bottom + 1, sat_sub(left, margin), right + margin);
                },
                _ => {},
            }
        },
        _ => {},
    }
}

/// The colored export, with its escape sequences removed, is the plain export.
pub proof fn lemma_color_export_shows_plain(v: ScreenView)
    requires
        v.wf(),
    ensures
        visible(export_text(v, ExportFormat::Color)) == export_text(v, ExportFormat::Plain),
{
    let r = ansi_export_rows(v.pixels, v.colors, v.width);
    let p = plain_rows(v.pixels, v.width);
    lemma_ansi_export_rows_visible(v);
    assert forall|k: int| 0 <= k < p.len() implies visible(#[trigger] p[k]) == p[k] by {
        let cols = cell_columns(v.width);
        assert forall|i: int| 0 <= i < p[k].len() implies #[trigger] p[k][i] != '\x1b' by {
            lemma_braille_char_plain(cell_dots(v.pixels, cols, k, i));
        }
        lemma_visible_plain(p[k]);
    }
    lemma_trimmed_visible(r, p, 2);
}

} // verus!
