use vstd::prelude::*;

use crate::screen::{rows_of, Screen};
use crate::text::push_chars;

verus! {

// Trimming rows of text to their content, where ANSI escape sequences (an escape character
// up to and including the next `m`) take no room on screen.

/// Whether, after reading `s`, an escape sequence has been started and not yet ended.
pub open spec fn in_escape_after(s: Seq<char>) -> bool
    decreases s.len(),
{
    if s.len() == 0 {
        false
    } else {
        let before = in_escape_after(s.drop_last());
        let ch = s.last();
        if ch == '\x1b' {
            true
        } else if before {
            ch != 'm'
        } else {
            false
        }
    }
}

/// Whether the character at `i` of `s` belongs to an escape sequence.
pub open spec fn escape_at(s: Seq<char>, i: int) -> bool {
    s[i] == '\x1b' || in_escape_after(s.take(i))
}

/// The characters of `s` that are not part of an escape sequence.
pub open spec fn visible(s: Seq<char>) -> Seq<char>
    decreases s.len(),
{
    if s.len() == 0 {
        Seq::empty()
    } else {
        let p = s.drop_last();
        if s.last() == '\x1b' || in_escape_after(p) {
            visible(p)
        } else {
            visible(p).push(s.last())
        }
    }
}

/// A character that shows nothing: a space or the Braille pattern with no dots.
pub open spec fn is_blank(c: char) -> bool {
    c == ' ' || c == '\u{2800}'
}

/// Position of the first character of `v` that is not blank.
pub open spec fn first_mark(v: Seq<char>) -> Option<int>
    decreases v.len(),
{
    if v.len() == 0 {
        None
    } else {
        match first_mark(v.drop_last()) {
            Some(i) => Some(i),
            None => if !is_blank(v.last()) {
                Some(v.len() - 1)
            } else {
                None
            },
        }
    }
}

/// Position of the last character of `v` that is not blank.
pub open spec fn last_mark(v: Seq<char>) -> Option<int>
    decreases v.len(),
{
    if v.len() == 0 {
        None
    } else if !is_blank(v.last()) {
        Some(v.len() - 1)
    } else {
        last_mark(v.drop_last())
    }
}

/// Whether the row shows something other than blanks.
pub open spec fn has_content(row: Seq<char>) -> bool {
    first_mark(visible(row)) is Some
}

/// Index of the first of the first `n` rows that has content.
pub open spec fn first_content_row(rows: Seq<Seq<char>>, n: int) -> Option<int>
    decreases n,
{
    if n <= 0 {
        None
    } else {
        match first_content_row(rows, n - 1) {
            Some(i) => Some(i),
            None => if has_content(rows[n - 1]) {
                Some(n - 1)
            } else {
                None
            },
        }
    }
}

/// Index of the last of the first `n` rows that has content.
pub open spec fn last_content_row(rows: Seq<Seq<char>>, n: int) -> Option<int>
    decreases n,
{
    if n <= 0 {
        None
    } else if has_content(rows[n - 1]) {
        Some(n - 1)
    } else {
        last_content_row(rows, n - 1)
    }
}

/// The smaller of two optional positions, absent ones ignored.
pub open spec fn min_opt(a: Option<int>, b: Option<int>) -> Option<int> {
    match (a, b) {
        (Some(x), Some(y)) => Some(if y < x { y } else { x }),
        (Some(x), None) => Some(x),
        (None, _) => b,
    }
}

/// The larger of two optional positions, absent ones ignored.
pub open spec fn max_opt(a: Option<int>, b: Option<int>) -> Option<int> {
    match (a, b) {
        (Some(x), Some(y)) => Some(if y > x { y } else { x }),
        (Some(x), None) => Some(x),
        (None, _) => b,
    }
}

/// The leftmost on-screen position of content among rows `lo .. hi`.
pub open spec fn left_bound(rows: Seq<Seq<char>>, lo: int, hi: int) -> Option<int>
    decreases hi - lo,
{
    if hi <= lo {
        None
    } else {
        min_opt(left_bound(rows, lo, hi - 1), first_mark(visible(rows[hi - 1])))
    }
}

/// The rightmost on-screen position of content among rows `lo .. hi`.
pub open spec fn right_bound(rows: Seq<Seq<char>>, lo: int, hi: int) -> Option<int>
    decreases hi - lo,
{
    if hi <= lo {
        None
    } else {
        max_opt(right_bound(rows, lo, hi - 1), last_mark(visible(rows[hi - 1])))
    }
}

/// `s` keeping every escape sequence and only the on-screen characters at positions
/// `start ..= end`.
pub open spec fn cut(s: Seq<char>, start: int, end: int) -> Seq<char>
    decreases s.len(),
{
    if s.len() == 0 {
        Seq::empty()
    } else {
        let p = s.drop_last();
        let ch = s.last();
        if ch == '\x1b' || in_escape_after(p) {
            cut(p, start, end).push(ch)
        } else {
            let pos = visible(p).len() as int;
            if start <= pos && pos <= end {
                cut(p, start, end).push(ch)
            } else {
                cut(p, start, end)
            }
        }
    }
}

/// Rows `from .. to`, each cut to on-screen positions `start ..= end` and ended by a newline.
pub open spec fn cut_lines(rows: Seq<Seq<char>>, from: int, to: int, start: int, end: int) -> Seq<char>
    decreases to - from,
{
    if to <= from {
        Seq::empty()
    } else {
        cut_lines(rows, from, to - 1, start, end) + cut(rows[to - 1], start, end) + seq!['\n']
    }
}

/// `a - b`, or 0 when `b` exceeds `a`.
pub open spec fn sat_sub(a: int, b: int) -> int {
    if a >= b { a - b } else { 0 }
}

/// The rows trimmed to the box around their content, widened by `margin` on every side
/// (within the rows that exist, and not left of the first position), one line per row; empty
/// when no row has content.
pub open spec fn trimmed(rows: Seq<Seq<char>>, margin: int) -> Seq<char> {
    let n = rows.len() as int;
    match (first_content_row(rows, n), last_content_row(rows, n)) {
        (Some(top), Some(bottom)) => match (
            left_bound(rows, top, bottom + 1),
            right_bound(rows, top, bottom + 1),
        ) {
            (Some(left), Some(right)) => {
                let final_bottom = if bottom + margin < n - 1 { bottom + margin } else { n - 1 };
                cut_lines(rows, sat_sub(top, margin), final_bottom + 1, sat_sub(left, margin), right + margin)
            },
            _ => Seq::empty(),
        },
        _ => Seq::empty(),
    }
}

/// Facts about the prefix of `s` of length `i + 1` in terms of the prefix of length `i`.
pub proof fn lemma_take_step(s: Seq<char>, i: int)
    requires
        0 <= i < s.len(),
    ensures
        s.take(i + 1).drop_last() == s.take(i),
        s.take(i + 1).last() == s[i],
        s.take(i + 1).len() == i + 1,
{
    assert(s.take(i + 1).drop_last() =~= s.take(i));
}

/// Pushing a character onto a sequence and dropping it again gives the sequence back.
pub proof fn lemma_marks_push(v: Seq<char>, c: char)
    ensures
        v.push(c).drop_last() == v,
        v.push(c).last() == c,
{
    assert(v.push(c).drop_last() =~= v);
}

/// Content in a prefix is content in the whole row.
pub proof fn lemma_content_extends(s: Seq<char>, i: int)
    requires
        0 <= i <= s.len(),
        first_mark(visible(s.take(i))) is Some,
    ensures
        first_mark(visible(s)) is Some,
    decreases s.len() - i,
{
    if i == s.len() {
        assert(s.take(i) =~= s);
    } else {
        lemma_take_step(s, i);
        let v = visible(s.take(i));
        lemma_marks_push(v, s[i]);
        lemma_content_extends(s, i + 1);
    }
}

/// The first and last rows with content exist together, and in order.
pub proof fn lemma_content_row_bounds(rows: Seq<Seq<char>>, n: int)
    ensures
        (first_content_row(rows, n) is Some) == (last_content_row(rows, n) is Some),
        first_content_row(rows, n) matches Some(t) ==> last_content_row(rows, n) matches Some(b)
            && 0 <= t <= b < n,
    decreases n,
{
    if n > 0 {
        lemma_content_row_bounds(rows, n - 1);
    }
}

/// A row has a first mark exactly when it has a last one.
pub proof fn lemma_marks_agree(v: Seq<char>)
    ensures
        (first_mark(v) is Some) == (last_mark(v) is Some),
    decreases v.len(),
{
    if v.len() > 0 {
        lemma_marks_agree(v.drop_last());
    }
}

/// There are no more on-screen characters than characters.
pub proof fn lemma_visible_len(s: Seq<char>)
    ensures
        visible(s).len() <= s.len(),
    decreases s.len(),
{
    if s.len() > 0 {
        lemma_visible_len(s.drop_last());
    }
}

/// Cutting at any end position at or past the last position gives the same text.
pub proof fn lemma_cut_end_past(s: Seq<char>, start: int, e1: int, e2: int)
    requires
        e1 + 1 >= s.len(),
        e2 + 1 >= s.len(),
    ensures
        cut(s, start, e1) == cut(s, start, e2),
    decreases s.len(),
{
    if s.len() > 0 {
        let p = s.drop_last();
        lemma_visible_len(p);
        lemma_cut_end_past(p, start, e1, e2);
    }
}

impl Screen {
    /// Whether the row shows anything other than blanks once escape sequences are skipped.
    pub(crate) fn row_has_content(&self, row: &Vec<char>) -> (r: bool)
        ensures
            r == has_content(row@),
    {
        let n = row.len();
        let mut i: usize = 0;
        while i < n
            invariant
                n == row@.len(),
                i <= n,
                i < n ==> !in_escape_after(row@.take(i as int)),
                first_mark(visible(row@.take(i as int))) is None,
            decreases n - i,
        {
            let ch = row[i];
            proof {
                lemma_take_step(row@, i as int);
            }
            i = i + 1;
            if ch == '\x1b' {
                assert(visible(row@.take(i as int)) == visible(row@.take(i - 1)));
                let ghost i0 = i;
                while i < n
                    invariant_except_break
                        in_escape_after(row@.take(i as int)),
                    invariant
                        n == row@.len(),
                        i0 <= i <= n,
                        first_mark(visible(row@.take(i as int))) is None,
                    ensures
                        i0 <= i <= n,
                        first_mark(visible(row@.take(i as int))) is None,
                        i < n ==> !in_escape_after(row@.take(i as int)),
                    decreases n - i,
                {
                    let c = row[i];
                    proof {
                        lemma_take_step(row@, i as int);
                    }
                    i = i + 1;
                    assert(visible(row@.take(i as int)) == visible(row@.take(i - 1)));
                    if c == 'm' {
                        break;
                    }
                }
            } else {
                let ghost p = row@.take(i - 1);
                proof {
                    lemma_marks_push(visible(p), ch);
                }
                assert(visible(row@.take(i as int)) == visible(p).push(ch));
                if ch != ' ' && ch != '\u{2800}' {
                    proof {
                        lemma_content_extends(row@, i as int);
                    }
                    return true;
                }
            }
        }
        assert(row@.take(n as int) =~= row@);
        false
    }

    /// The on-screen characters of the row (escape sequences skipped).
    fn visible_chars(row: &Vec<char>) -> (r: Vec<char>)
        ensures
            r@ == visible(row@),
    {
        let n = row.len();
        let mut out: Vec<char> = Vec::new();
        let mut i: usize = 0;
        while i < n
            invariant
                n == row@.len(),
                i <= n,
                i < n ==> !in_escape_after(row@.take(i as int)),
                out@ == visible(row@.take(i as int)),
            decreases n - i,
        {
            let ch = row[i];
            proof {
                lemma_take_step(row@, i as int);
            }
            i = i + 1;
            if ch == '\x1b' {
                let ghost i0 = i;
                while i < n
                    invariant_except_break
                        in_escape_after(row@.take(i as int)),
                    invariant
                        n == row@.len(),
                        i0 <= i <= n,
                        out@ == visible(row@.take(i as int)),
                    ensures
                        i0 <= i <= n,
                        out@ == visible(row@.take(i as int)),
                        i < n ==> !in_escape_after(row@.take(i as int)),
                    decreases n - i,
                {
                    let c = row[i];
                    proof {
                        lemma_take_step(row@, i as int);
                    }
                    i = i + 1;
                    if c == 'm' {
                        break;
                    }
                }
            } else {
                out.push(ch);
            }
        }
        assert(row@.take(n as int) =~= row@);
        out
    }

    /// Positions (among on-screen characters) of the first and last characters of the row
    /// that are not blank.
    pub(crate) fn find_row_content_bounds(&self, row: &Vec<char>) -> (r: (Option<usize>, Option<usize>))
        ensures
            r.0 matches Some(x) ==> first_mark(visible(row@)) == Some(x as int),
            r.0 is None ==> first_mark(visible(row@)) is None,
            r.1 matches Some(x) ==> last_mark(visible(row@)) == Some(x as int),
            r.1 is None ==> last_mark(visible(row@)) is None,
    {
        let chars = Self::visible_chars(row);
        let mut left: Option<usize> = None;
        let mut right: Option<usize> = None;
        for pos in 0..chars.len()
            invariant
                chars@ == visible(row@),
                left matches Some(x) ==> first_mark(chars@.take(pos as int)) == Some(x as int),
                left is None ==> first_mark(chars@.take(pos as int)) is None,
                right matches Some(x) ==> last_mark(chars@.take(pos as int)) == Some(x as int),
                right is None ==> last_mark(chars@.take(pos as int)) is None,
        {
            let ch = chars[pos];
            proof {
                lemma_take_step(chars@, pos as int);
            }
            if ch != ' ' && ch != '\u{2800}' {
                if left.is_none() {
                    left = Some(pos);
                }
                right = Some(pos);
            }
        }
        assert(chars@.take(chars@.len() as int) =~= chars@);
        (left, right)
    }

    /// The text with every escape sequence kept and only the on-screen characters at
    /// positions `start ..= end`.
    pub(crate) fn substring_with_ansi(&self, text: &Vec<char>, start: usize, end: usize) -> (r: Vec<char>)
        ensures
            r@ == cut(text@, start as int, end as int),
    {
        let mut result: Vec<char> = Vec::new();
        let mut pos: usize = 0;
        let mut in_ansi = false;
        let n = text.len();
        for i in 0..n
            invariant
                n == text@.len(),
                in_ansi == in_escape_after(text@.take(i as int)),
                pos == visible(text@.take(i as int)).len(),
                pos <= i,
                result@ == cut(text@.take(i as int), start as int, end as int),
        {
            let ch = text[i];
            proof {
                lemma_take_step(text@, i as int);
            }
            if ch == '\x1b' {
                in_ansi = true;
                result.push(ch);
            } else if in_ansi {
                result.push(ch);
                if ch == 'm' {
                    in_ansi = false;
                }
            } else {
                if pos >= start && pos <= end {
                    result.push(ch);
                }
                pos = pos + 1;
            }
        }
        assert(text@.take(n as int) =~= text@);
        result
    }

    /// The rows trimmed to the box around their content, widened by `margin` on every side,
    /// one line per row (see [`trimmed`]).
    pub(crate) fn trim_output_with_margin(&self, rows: Vec<Vec<char>>, margin: usize) -> (r: Vec<char>)
        ensures
            r@ == trimmed(rows_of(rows@), margin as int),
    {
        let ghost rs = rows_of(rows@);
        let n = rows.len();
        if n == 0 {
            return Vec::new();
        }
        let mut top_bound: Option<usize> = None;
        let mut bottom_bound: Option<usize> = None;
        for row_idx in 0..n
            invariant
                n == rows@.len(),
                rs == rows_of(rows@),
                top_bound matches Some(t) ==> first_content_row(rs, row_idx as int) == Some(t as int),
                top_bound is None ==> first_content_row(rs, row_idx as int) is None,
                bottom_bound matches Some(b) ==> last_content_row(rs, row_idx as int) == Some(b as int),
                bottom_bound is None ==> last_content_row(rs, row_idx as int) is None,
        {
            if self.row_has_content(&rows[row_idx]) {
                if top_bound.is_none() {
                    top_bound = Some(row_idx);
                }
                bottom_bound = Some(row_idx);
            }
        }
        let (top, bottom) = match (top_bound, bottom_bound) {
            (Some(t), Some(b)) => (t, b),
            _ => {
                return Vec::new();
            },
        };
        proof {
            lemma_content_row_bounds(rs, n as int);
        }
        let mut left_bound: Option<usize> = None;
        let mut right_bound: Option<usize> = None;
        for i in top..bottom + 1
            invariant
                n == rows@.len(),
                rs == rows_of(rows@),
                top <= bottom < n,
                left_bound matches Some(l) ==> crate::trim::left_bound(rs, top as int, i as int) == Some(l as int),
                left_bound is None ==> crate::trim::left_bound(rs, top as int, i as int) is None,
                right_bound matches Some(r) ==> crate::trim::right_bound(rs, top as int, i as int) == Some(r as int),
                right_bound is None ==> crate::trim::right_bound(rs, top as int, i as int) is None,
        {
            let (left, right) = self.find_row_content_bounds(&rows[i]);
            proof {
                lemma_marks_agree(visible(rs[i as int]));
            }
            if let (Some(l), Some(r)) = (left, right) {
                left_bound = Some(
                    match left_bound {
                        Some(current) => if l < current {
                            l
                        } else {
                            current
                        },
                        None => l,
                    },
                );
                right_bound = Some(
                    match right_bound {
                        Some(current) => if r > current {
                            r
                        } else {
                            current
                        },
                        None => r,
                    },
                );
            }
        }
        let (left, right) = match (left_bound, right_bound) {
            (Some(l), Some(r)) => (l, r),
            _ => {
                return Vec::new();
            },
        };
        let final_top = top.saturating_sub(margin);
        let final_bottom = if n - 1 - bottom > margin {
            bottom + margin
        } else {
            n - 1
        };
        let final_left = left.saturating_sub(margin);
        let final_right = if right <= usize::MAX - margin {
            right + margin
        } else {
            usize::MAX
        };
        let ghost spec_right = right + margin;
        let mut result: Vec<char> = Vec::new();
        for i in final_top..final_bottom + 1
            invariant
                n == rows@.len(),
                rs == rows_of(rows@),
                final_bottom < n,
                final_right == spec_right || (final_right == usize::MAX && spec_right > usize::MAX),
                result@ == cut_lines(rs, final_top as int, i as int, final_left as int, spec_right),
        {
            let t = self.substring_with_ansi(&rows[i], final_left, final_right);
            proof {
                if final_right != spec_right {
                    lemma_cut_end_past(rs[i as int], final_left as int, final_right as int, spec_right);
                }
            }
            push_chars(&mut result, &t);
            result.push('\n');
        }
        result
    }
}

} // verus!
