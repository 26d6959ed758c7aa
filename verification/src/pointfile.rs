use vstd::prelude::*;

use crate::color::{color_named, Color};
use crate::text::{
    chars_eq, chars_of, lemma_lines_concat, lemma_lines_one_line, lemma_trim_end_drops_space,
    lemma_trim_strip_cr, lemma_words_after_letter, lemma_words_trim, lines, spec_is_whitespace,
    spec_to_lowercase, split_lines, split_words, strip_cr, string_from_chars, trim, trim_chars,
    trim_end, trim_start, words,
};

verus! {

// The point file format, one entry per line:
//   p x y z [color]            a point (an unknown color name gives the default color)
//   pc x y z color             a colored point (the color name must be known)
//   l x1 y1 z1 x2 y2 z2        a line segment
//   lc x1 y1 z1 x2 y2 z2 color a colored line segment (the color name must be known)
//   x y z                      a point, in the older format
// Lines that are empty or start with `#` (after surrounding whitespace) are ignored. The
// coordinates are kept as text here; the viewer turns them into numbers.

/// The shape that a line of the file describes.
#[derive(Clone, Copy, Debug, PartialEq, Eq, Structural)]
pub enum ShapeKind {
    /// A point: three coordinates.
    Point,
    /// A line segment: six coordinates, start then end.
    Segment,
}

/// The color of an entry: a known color, or the unknown name given where a known one is
/// required.
pub enum EntryColor {
    Known(Color),
    Unknown(String),
}

/// An entry of the file.
pub struct PointEntry {
    /// Number of the line it came from, counting from 1.
    pub line_number: usize,
    pub kind: ShapeKind,
    /// The coordinate fields, as written in the file.
    pub coordinates: Vec<String>,
    pub color: EntryColor,
}

/// Which form a malformed line failed to follow.
#[derive(Clone, Copy, Debug, PartialEq, Eq, Structural)]
pub enum FormatErrorKind {
    /// `p` without 3 or 4 fields after it.
    Point,
    /// `pc` without exactly 4 fields after it.
    ColoredPoint,
    /// `l` without exactly 6 fields after it.
    Segment,
    /// `lc` without exactly 7 fields after it.
    ColoredSegment,
    /// Any other line that is not exactly 3 fields.
    Unrecognized,
}

/// A malformed line: which form it failed, its number (from 1) and its text without
/// surrounding whitespace.
pub struct FormatError {
    pub kind: FormatErrorKind,
    pub line_number: usize,
    pub line: String,
}

/// What one line of the file holds.
pub enum LineOutcome {
    /// Nothing: the line is empty or a comment.
    Skip,
    Entry(PointEntry),
    Error(FormatError),
}

/// The color of an entry, as a known color or the text of an unknown name.
pub open spec fn entry_color_view(c: EntryColor) -> Result<Color, Seq<char>> {
    match c {
        EntryColor::Known(k) => Ok(k),
        EntryColor::Unknown(t) => Err(t@),
    }
}

/// The texts of a sequence of strings.
pub open spec fn texts(v: Seq<String>) -> Seq<Seq<char>> {
    v.map_values(|s: String| s@)
}

/// The abstract content of an entry.
pub struct EntryView {
    pub line_number: int,
    pub kind: ShapeKind,
    pub coordinates: Seq<Seq<char>>,
    pub color: Result<Color, Seq<char>>,
}

/// The abstract content of a malformed line.
pub struct ErrorView {
    pub kind: FormatErrorKind,
    pub line_number: int,
    pub line: Seq<char>,
}

/// What a line of the file is, abstractly.
pub enum LineView {
    Skip,
    Entry(ShapeKind, Seq<Seq<char>>, Result<Color, Seq<char>>),
    Error(FormatErrorKind),
}

impl PointEntry {
    pub open spec fn view_of(&self) -> EntryView {
        EntryView {
            line_number: self.line_number as int,
            kind: self.kind,
            coordinates: texts(self.coordinates@),
            color: entry_color_view(self.color),
        }
    }
}

impl FormatError {
    pub open spec fn view_of(&self) -> ErrorView {
        ErrorView { kind: self.kind, line_number: self.line_number as int, line: self.line@ }
    }
}

/// The color that a name gives where any name is accepted: the named color, or the default.
pub open spec fn lenient_color(name: Seq<char>) -> Result<Color, Seq<char>> {
    match color_named(spec_to_lowercase(name)) {
        Some(c) => Ok(c),
        None => Ok(Color::Default),
    }
}

/// The color that a name gives where a known name is required: the named color, or the
/// unknown name.
pub open spec fn strict_color(name: Seq<char>) -> Result<Color, Seq<char>> {
    match color_named(spec_to_lowercase(name)) {
        Some(c) => Ok(c),
        None => Err(name),
    }
}

/// What the whitespace-separated fields of a non-comment line describe.
pub open spec fn fields_view(parts: Seq<Seq<char>>) -> LineView {
    let head = parts[0];
    if head == "p"@ {
        if parts.len() < 4 || parts.len() > 5 {
            LineView::Error(FormatErrorKind::Point)
        } else {
            LineView::Entry(
                ShapeKind::Point,
                parts.subrange(1, 4),
                if parts.len() == 5 { lenient_color(parts[4]) } else { Ok(Color::Default) },
            )
        }
    } else if head == "pc"@ {
        if parts.len() != 5 {
            LineView::Error(FormatErrorKind::ColoredPoint)
        } else {
            LineView::Entry(ShapeKind::Point, parts.subrange(1, 4), strict_color(parts[4]))
        }
    } else if head == "l"@ {
        if parts.len() != 7 {
            LineView::Error(FormatErrorKind::Segment)
        } else {
            LineView::Entry(ShapeKind::Segment, parts.subrange(1, 7), Ok(Color::Default))
        }
    } else if head == "lc"@ {
        if parts.len() != 8 {
            LineView::Error(FormatErrorKind::ColoredSegment)
        } else {
            LineView::Entry(ShapeKind::Segment, parts.subrange(1, 7), strict_color(parts[7]))
        }
    } else if parts.len() != 3 {
        LineView::Error(FormatErrorKind::Unrecognized)
    } else {
        LineView::Entry(ShapeKind::Point, parts, Ok(Color::Default))
    }
}

/// What a line of the file describes: nothing when it is empty or a comment (after removing
/// surrounding whitespace), else what its fields describe.
pub open spec fn line_view(line: Seq<char>) -> LineView {
    let t = trim(line);
    if t.len() == 0 || t[0] == '#' {
        LineView::Skip
    } else if words(t).len() == 0 {
        LineView::Skip
    } else {
        fields_view(words(t))
    }
}

/// Whether `outcome` is what line `line` (numbered `number`) holds.
pub open spec fn outcome_is(outcome: LineOutcome, line: Seq<char>, number: int) -> bool {
    match line_view(line) {
        LineView::Skip => outcome is Skip,
        LineView::Entry(kind, coordinates, color) => outcome matches LineOutcome::Entry(e) && e.view_of()
            == (EntryView { line_number: number, kind, coordinates, color }),
        LineView::Error(kind) => outcome matches LineOutcome::Error(err) && err.view_of() == (ErrorView {
            kind,
            line_number: number,
            line: trim(line),
        }),
    }
}

/// The entries of the first `n` lines, and the first malformed line among them (entries stop
/// at it).
pub open spec fn scan_view(ls: Seq<Seq<char>>, n: int) -> (Seq<EntryView>, Option<ErrorView>)
    decreases n,
{
    if n <= 0 {
        (Seq::empty(), None)
    } else {
        let (entries, err) = scan_view(ls, n - 1);
        if err is Some {
            (entries, err)
        } else {
            match line_view(ls[n - 1]) {
                LineView::Skip => (entries, None),
                LineView::Entry(kind, coordinates, color) => (
                    entries.push(EntryView { line_number: n, kind, coordinates, color }),
                    None,
                ),
                LineView::Error(kind) => (
                    entries,
                    Some(ErrorView { kind, line_number: n, line: trim(ls[n - 1]) }),
                ),
            }
        }
    }
}

/// The older `x y z` form describes the same point as `p x y z`, for any first field that is
/// not one of the keywords.
pub proof fn lemma_plain_triple_is_point(x: Seq<char>, y: Seq<char>, z: Seq<char>)
    requires
        x != "p"@,
        x != "pc"@,
        x != "l"@,
        x != "lc"@,
    ensures
        fields_view(seq![x, y, z]) == fields_view(seq!["p"@, x, y, z]),
        fields_view(seq![x, y, z]) == LineView::Entry(ShapeKind::Point, seq![x, y, z], Ok(Color::Default)),
{
    reveal_strlit("p");
    reveal_strlit("pc");
    reveal_strlit("l");
    reveal_strlit("lc");
    assert("pc"@ != "p"@) by { assert("pc"@.len() != "p"@.len()); }
    assert("l"@ != "p"@) by { assert("l"@[0] != "p"@[0]); }
    assert("l"@ != "pc"@) by { assert("l"@.len() != "pc"@.len()); }
    assert("lc"@ != "p"@) by { assert("lc"@.len() != "p"@.len()); }
    assert("lc"@ != "pc"@) by { assert("lc"@[0] != "pc"@[0]); }
    assert("lc"@ != "l"@) by { assert("lc"@.len() != "l"@.len()); }
    assert(seq!["p"@, x, y, z].subrange(1, 4) =~= seq![x, y, z]);
}

/// Once a malformed line is met, later lines change nothing.
pub proof fn lemma_scan_stops(ls: Seq<Seq<char>>, n: int, m: int)
    requires
        0 <= n <= m,
        scan_view(ls, n).1 is Some,
    ensures
        scan_view(ls, m) == scan_view(ls, n),
    decreases m - n,
{
    if m > n {
        lemma_scan_stops(ls, n, m - 1);
    }
}

/// The strings made of the given character sequences.
fn strings_of(v: &Vec<Vec<char>>, from: usize, to: usize) -> (r: Vec<String>)
    requires
        from <= to <= v@.len(),
    ensures
        r@.len() == to - from,
        forall|i: int| 0 <= i < to - from ==> #[trigger] r@[i]@ == v@[from + i]@,
{
    let mut out: Vec<String> = Vec::new();
    for i in from..to
        invariant
            from <= to <= v@.len(),
            out@.len() == i - from,
            forall|j: int| 0 <= j < i - from ==> #[trigger] out@[j]@ == v@[from + j]@,
    {
        out.push(string_from_chars(&v[i]));
    }
    out
}

/// The color for a name where a known name is required.
fn strict_entry_color(name: &Vec<char>) -> (r: EntryColor)
    ensures
        entry_color_view(r) == strict_color(name@),
{
    let text = string_from_chars(name);
    match Color::from_string(text.as_str()) {
        Some(c) => EntryColor::Known(c),
        None => EntryColor::Unknown(text),
    }
}

/// An entry from the given fields.
fn make_entry(
    line_number: usize,
    kind: ShapeKind,
    parts: &Vec<Vec<char>>,
    from: usize,
    to: usize,
    color: EntryColor,
) -> (r: LineOutcome)
    requires
        from <= to <= parts@.len(),
    ensures
        r matches LineOutcome::Entry(e) && e.line_number == line_number && e.kind == kind && e.color == color
            && texts(e.coordinates@) == Seq::new((to - from) as nat, |i: int| parts@[from + i]@),
{
    let coordinates = strings_of(parts, from, to);
    assert(texts(coordinates@) =~= Seq::new((to - from) as nat, |i: int| parts@[from + i]@));
    LineOutcome::Entry(PointEntry { line_number, kind, coordinates, color })
}

/// What line `line` of the file (numbered `line_number`) holds (see [`line_view`]).
pub fn classify_line(line: &Vec<char>, line_number: usize) -> (r: LineOutcome)
    ensures
        outcome_is(r, line@, line_number as int),
{
    let t = trim_chars(line);
    if t.len() == 0 || t[0] == '#' {
        return LineOutcome::Skip;
    }
    let parts = split_words(&t);
    let ghost ps = words(t@);
    assert(Seq::new(parts@.len(), |i: int| parts@[i]@) =~= ps);
    if parts.len() == 0 {
        return LineOutcome::Skip;
    }
    let n = parts.len();
    let error = |kind: FormatErrorKind| -> (e: LineOutcome)
        ensures
            e matches LineOutcome::Error(err) && err.view_of() == (ErrorView {
                kind,
                line_number: line_number as int,
                line: t@,
            }),
        { LineOutcome::Error(FormatError { kind, line_number, line: string_from_chars(&t) }) };
    let r = if chars_eq(&parts[0], "p") {
        if n < 4 || n > 5 {
            error(FormatErrorKind::Point)
        } else {
            let color = if n == 5 {
                let name = string_from_chars(&parts[4]);
                match Color::from_string(name.as_str()) {
                    Some(c) => c,
                    None => Color::Default,
                }
            } else {
                Color::Default
            };
            assert(ps.subrange(1, 4) =~= Seq::new(3, |i: int| parts@[1 + i]@));
            make_entry(line_number, ShapeKind::Point, &parts, 1, 4, EntryColor::Known(color))
        }
    } else if chars_eq(&parts[0], "pc") {
        if n != 5 {
            error(FormatErrorKind::ColoredPoint)
        } else {
            let color = strict_entry_color(&parts[4]);
            assert(ps.subrange(1, 4) =~= Seq::new(3, |i: int| parts@[1 + i]@));
            make_entry(line_number, ShapeKind::Point, &parts, 1, 4, color)
        }
    } else if chars_eq(&parts[0], "l") {
        if n != 7 {
            error(FormatErrorKind::Segment)
        } else {
            assert(ps.subrange(1, 7) =~= Seq::new(6, |i: int| parts@[1 + i]@));
            make_entry(line_number, ShapeKind::Segment, &parts, 1, 7, EntryColor::Known(Color::Default))
        }
    } else if chars_eq(&parts[0], "lc") {
        if n != 8 {
            error(FormatErrorKind::ColoredSegment)
        } else {
            let color = strict_entry_color(&parts[7]);
            assert(ps.subrange(1, 7) =~= Seq::new(6, |i: int| parts@[1 + i]@));
            make_entry(line_number, ShapeKind::Segment, &parts, 1, 7, color)
        }
    } else if n != 3 {
        error(FormatErrorKind::Unrecognized)
    } else {
        assert(ps =~= Seq::new(3, |i: int| parts@[0 + i]@));
        make_entry(line_number, ShapeKind::Point, &parts, 0, 3, EntryColor::Known(Color::Default))
    };
    r
}

/// The entries of a point file's text, in order, up to its first malformed line, and that
/// line if there is one (see [`scan_view`]).
pub fn scan_point_file(content: &str) -> (r: (Vec<PointEntry>, Option<FormatError>))
    ensures
        ({
            let (entries, err) = scan_view(lines(content@), lines(content@).len() as int);
            &&& r.0@.len() == entries.len()
            &&& forall|i: int| 0 <= i < entries.len() ==> #[trigger] r.0@[i].view_of() == entries[i]
            &&& match r.1 {
                Some(e) => err == Some(e.view_of()),
                None => err is None,
            }
        }),
{
    let text = chars_of(content);
    let all_lines = split_lines(&text);
    let ghost ls = lines(content@);
    let mut entries: Vec<PointEntry> = Vec::new();
    for i in 0..all_lines.len()
        invariant
            text@ == content@,
            ls == lines(text@),
            all_lines@.len() == ls.len(),
            forall|k: int| 0 <= k < all_lines@.len() ==> #[trigger] all_lines@[k]@ == ls[k],
            scan_view(ls, i as int).1 is None,
            entries@.len() == scan_view(ls, i as int).0.len(),
            forall|k: int| 0 <= k < entries@.len() ==> #[trigger] entries@[k].view_of() == scan_view(ls, i as int).0[k],
    {
        let outcome = classify_line(&all_lines[i], i + 1);
        assert(all_lines@[i as int]@ == ls[i as int]);
        match outcome {
            LineOutcome::Skip => {},
            LineOutcome::Entry(e) => {
                entries.push(e);
            },
            LineOutcome::Error(err) => {
                proof {
                    lemma_scan_stops(ls, i + 1, ls.len() as int);
                }
                return (entries, Some(err));
            },
        }
    }
    (entries, None)
}

/// What scanning a whole sequence of lines gives.
pub open spec fn scan_all(ls: Seq<Seq<char>>) -> (Seq<EntryView>, Option<ErrorView>) {
    scan_view(ls, ls.len() as int)
}

/// An entry moved `k` lines further down.
pub open spec fn shift_entry(e: EntryView, k: int) -> EntryView {
    EntryView { line_number: e.line_number + k, kind: e.kind, coordinates: e.coordinates, color: e.color }
}

/// A malformed line moved `k` lines further down.
pub open spec fn shift_error(e: Option<ErrorView>, k: int) -> Option<ErrorView> {
    match e {
        Some(v) => Some(ErrorView { kind: v.kind, line_number: v.line_number + k, line: v.line }),
        None => None,
    }
}

/// What scanning lines gives when they follow `k` lines whose scan gave `first`, and scanning
/// them alone gives `second`: the first result when it ended at a malformed line, else its
/// entries followed by those of `second`, renumbered from line `k + 1` on.
pub open spec fn joined_scan(
    first: (Seq<EntryView>, Option<ErrorView>),
    second: (Seq<EntryView>, Option<ErrorView>),
    k: int,
) -> (Seq<EntryView>, Option<ErrorView>) {
    if first.1 is Some {
        first
    } else {
        (first.0 + second.0.map_values(|e: EntryView| shift_entry(e, k)), shift_error(second.1, k))
    }
}

/// A scan result without line numbers: each entry's shape, coordinates and color, and the
/// form and text of the malformed line, if any.
pub open spec fn unnumbered(r: (Seq<EntryView>, Option<ErrorView>)) -> (
    Seq<(ShapeKind, Seq<Seq<char>>, Result<Color, Seq<char>>)>,
    Option<(FormatErrorKind, Seq<char>)>,
) {
    (
        r.0.map_values(|e: EntryView| (e.kind, e.coordinates, e.color)),
        match r.1 {
            Some(v) => Some((v.kind, v.line)),
            None => None,
        },
    )
}

/// Scanning the first `n` lines looks at those lines only.
proof fn lemma_scan_prefix(ls1: Seq<Seq<char>>, ls2: Seq<Seq<char>>, n: int)
    requires
        0 <= n <= ls1.len(),
    ensures
        scan_view(ls1 + ls2, n) == scan_view(ls1, n),
    decreases n,
{
    if n > 0 {
        lemma_scan_prefix(ls1, ls2, n - 1);
        assert((ls1 + ls2)[n - 1] == ls1[n - 1]);
    }
}

/// Scanning lines that follow other lines, up to the `j`-th of them.
proof fn lemma_scan_concat_upto(ls1: Seq<Seq<char>>, ls2: Seq<Seq<char>>, j: int)
    requires
        0 <= j <= ls2.len(),
    ensures
        scan_view(ls1 + ls2, ls1.len() + j) == joined_scan(scan_all(ls1), scan_view(ls2, j), ls1.len() as int),
    decreases j,
{
    let k = ls1.len() as int;
    if j == 0 {
        lemma_scan_prefix(ls1, ls2, k);
        let r1 = scan_all(ls1);
        assert(r1.0 + Seq::<EntryView>::empty().map_values(|e: EntryView| shift_entry(e, k)) =~= r1.0);
    } else {
        lemma_scan_concat_upto(ls1, ls2, j - 1);
        assert((ls1 + ls2)[k + j - 1] == ls2[j - 1]);
        let r1 = scan_all(ls1);
        let (e2, err2) = scan_view(ls2, j - 1);
        if r1.1 is None && err2 is None {
            match line_view(ls2[j - 1]) {
                LineView::Entry(kind, coordinates, color) => {
                    let ev = EntryView { line_number: j, kind, coordinates, color };
                    assert(e2.push(ev).map_values(|e: EntryView| shift_entry(e, k)) =~= e2.map_values(
                        |e: EntryView| shift_entry(e, k),
                    ).push(shift_entry(ev, k)));
                    assert((r1.0 + e2.map_values(|e: EntryView| shift_entry(e, k))).push(shift_entry(ev, k)) =~= r1.0
                        + e2.map_values(|e: EntryView| shift_entry(e, k)).push(shift_entry(ev, k)));
                },
                _ => {},
            }
        }
    }
}

/// Scanning two sequences of lines one after the other: the entries of the first, then
/// those of the second, renumbered to follow the first, with scanning stopping at the first
/// malformed line of either.
pub proof fn lemma_scan_concat(ls1: Seq<Seq<char>>, ls2: Seq<Seq<char>>)
    ensures
        scan_all(ls1 + ls2) == joined_scan(scan_all(ls1), scan_all(ls2), ls1.len() as int),
{
    lemma_scan_concat_upto(ls1, ls2, ls2.len() as int);
}

/// A point file made of two texts, the first empty or ending with a line ending, reads as the
/// first text's entries followed by the second's (renumbered to follow the first), stopping
/// at the first malformed line.
pub proof fn lemma_joined_files(c1: Seq<char>, c2: Seq<char>)
    requires
        c1.len() == 0 || c1.last() == '\n',
    ensures
        scan_all(lines(c1 + c2)) == joined_scan(scan_all(lines(c1)), scan_all(lines(c2)), lines(c1).len() as int),
{
    lemma_lines_concat(c1, c2);
    lemma_scan_concat(lines(c1), lines(c2));
}

/// Inserting into a point file a whole line that is empty, blank or a comment (it starts with
/// `#` once surrounding whitespace is removed) changes neither the entries read nor the
/// malformed line found, but for their line numbers.
pub proof fn lemma_skipped_line_changes_nothing(c1: Seq<char>, s: Seq<char>, c2: Seq<char>)
    requires
        c1.len() == 0 || c1.last() == '\n',
        forall|i: int| 0 <= i < s.len() ==> s[i] != '\n',
        trim(s).len() == 0 || trim(s)[0] == '#',
    ensures
        unnumbered(scan_all(lines(c1 + s.push('\n') + c2))) == unnumbered(scan_all(lines(c1 + c2))),
{
    let l = strip_cr(s);
    lemma_trim_strip_cr(s);
    assert(line_view(l) == LineView::Skip);
    lemma_lines_one_line(s);
    assert(c1 + s.push('\n') + c2 =~= c1 + (s.push('\n') + c2));
    lemma_lines_concat(c1, s.push('\n') + c2);
    lemma_lines_concat(s.push('\n'), c2);
    let ls1 = lines(c1);
    let ls2 = lines(c2);
    lemma_scan_concat(seq![l], ls2);
    lemma_scan_concat(ls1, seq![l] + ls2);
    lemma_joined_files(c1, c2);
    let r2 = scan_all(ls2);
    let inner = joined_scan(scan_all(seq![l]), r2, 1);
    assert(seq![l][0] == l);
    assert(scan_view(seq![l], 0) == (Seq::<EntryView>::empty(), None::<ErrorView>));
    assert(scan_all(seq![l]) == (Seq::<EntryView>::empty(), None::<ErrorView>));
    assert(inner.0 =~= r2.0.map_values(|e: EntryView| shift_entry(e, 1)));
    let k = ls1.len() as int;
    let r1 = scan_all(ls1);
    if r1.1 is None {
        let a = joined_scan(r1, inner, k);
        let b = joined_scan(r1, r2, k);
        assert(unnumbered(a).0 =~= unnumbered(b).0);
        assert(unnumbered(a).1 == unnumbered(b).1);
    }
}

/// A line written in the older `x y z` form reads as the same point as that line with `p `
/// written before it, for any line whose first field is not one of the keywords and that is
/// not a comment.
pub proof fn lemma_legacy_line_is_point(t: Seq<char>)
    requires
        words(t).len() == 3,
        words(t)[0] != "p"@,
        words(t)[0] != "pc"@,
        words(t)[0] != "l"@,
        words(t)[0] != "lc"@,
        trim(t)[0] != '#',
    ensures
        line_view(seq!['p', ' '] + t) == line_view(t),
        line_view(t) == LineView::Entry(ShapeKind::Point, words(t), Ok(Color::Default)),
{
    let u = seq!['p', ' '] + t;
    assert(!spec_is_whitespace('p'));
    lemma_words_trim(t);
    lemma_words_trim(u);
    lemma_words_after_letter('p', t);
    reveal_strlit("p");
    assert(seq!['p'] == "p"@);
    let w = words(t);
    assert(w =~= seq![w[0], w[1], w[2]]);
    assert(seq![seq!['p']] + w =~= seq!["p"@, w[0], w[1], w[2]]);
    lemma_plain_triple_is_point(w[0], w[1], w[2]);
    // `u` starts with a character that is not whitespace, which trimming keeps.
    assert(u[0] == 'p');
    assert(trim_start(u) == u);
    lemma_trim_end_drops_space(u);
    assert(trim_end(u).len() >= 1);
    assert(trim(u)[0] == 'p');
    assert(trim(t).len() > 0);
}

/// Whether a field is one of the keywords that start a line of the file.
pub open spec fn is_keyword(f: Seq<char>) -> bool {
    f == "p"@ || f == "pc"@ || f == "l"@ || f == "lc"@
}

/// Each form of line gives its coordinates as the fields right after its keyword (the first
/// three for a point, the first six for a segment, every field of an older `x y z` line), and
/// its color from the field after them: any name for `p` (an unknown one giving the default),
/// a known name for `pc` and `lc`, the default for `l` and for the older form.
pub proof fn lemma_fields_give_coordinates(
    x: Seq<char>,
    y: Seq<char>,
    z: Seq<char>,
    x2: Seq<char>,
    y2: Seq<char>,
    z2: Seq<char>,
    c: Seq<char>,
)
    ensures
        fields_view(seq!["p"@, x, y, z]) == LineView::Entry(ShapeKind::Point, seq![x, y, z], Ok(Color::Default)),
        fields_view(seq!["p"@, x, y, z, c]) == LineView::Entry(ShapeKind::Point, seq![x, y, z], lenient_color(c)),
        fields_view(seq!["pc"@, x, y, z, c]) == LineView::Entry(ShapeKind::Point, seq![x, y, z], strict_color(c)),
        fields_view(seq!["l"@, x, y, z, x2, y2, z2]) == LineView::Entry(
            ShapeKind::Segment,
            seq![x, y, z, x2, y2, z2],
            Ok(Color::Default),
        ),
        fields_view(seq!["lc"@, x, y, z, x2, y2, z2, c]) == LineView::Entry(
            ShapeKind::Segment,
            seq![x, y, z, x2, y2, z2],
            strict_color(c),
        ),
        !is_keyword(x) ==> fields_view(seq![x, y, z]) == LineView::Entry(ShapeKind::Point, seq![x, y, z], Ok(Color::Default)),
{
    reveal_strlit("p");
    reveal_strlit("pc");
    reveal_strlit("l");
    reveal_strlit("lc");
    assert("pc"@ != "p"@) by { assert("pc"@.len() != "p"@.len()); }
    assert("l"@ != "p"@) by { assert("l"@[0] != "p"@[0]); }
    assert("l"@ != "pc"@) by { assert("l"@.len() != "pc"@.len()); }
    assert("lc"@ != "p"@) by { assert("lc"@.len() != "p"@.len()); }
    assert("lc"@ != "pc"@) by { assert("lc"@[0] != "pc"@[0]); }
    assert("lc"@ != "l"@) by { assert("lc"@.len() != "l"@.len()); }
    assert(seq!["p"@, x, y, z].subrange(1, 4) =~= seq![x, y, z]);
    assert(seq!["p"@, x, y, z, c].subrange(1, 4) =~= seq![x, y, z]);
    assert(seq!["pc"@, x, y, z, c].subrange(1, 4) =~= seq![x, y, z]);
    assert(seq!["l"@, x, y, z, x2, y2, z2].subrange(1, 7) =~= seq![x, y, z, x2, y2, z2]);
    assert(seq!["lc"@, x, y, z, x2, y2, z2, c].subrange(1, 7) =~= seq![x, y, z, x2, y2, z2]);
}

/// A strict color name is the named color when the name is known, and is reported back
/// unchanged when it is not; a lenient one gives the default color in that case.
pub proof fn lemma_entry_colors(name: Seq<char>)
    ensures
        color_named(spec_to_lowercase(name)) matches Some(k) ==> strict_color(name) == Ok::<Color, Seq<char>>(k)
            && lenient_color(name) == Ok::<Color, Seq<char>>(k),
        color_named(spec_to_lowercase(name)) is None ==> strict_color(name) == Err::<Color, Seq<char>>(name)
            && lenient_color(name) == Ok::<Color, Seq<char>>(Color::Default),
{
}

} // verus!
