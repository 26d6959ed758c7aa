use vstd::prelude::*;

verus! {

/// A position on the dot raster (`x` is the column, `y` the row).
#[derive(Copy, Clone, Debug, PartialEq, Eq, Structural)]
pub struct Point2D {
    pub x: i32,
    pub y: i32,
}

impl Point2D {
    pub fn new(x: i32, y: i32) -> (p: Point2D)
        ensures
            p.x == x,
            p.y == y,
    {
        Point2D { x, y }
    }
}

/// Code point of the Braille pattern with no dots raised.
pub const BRAILLE_BLANK: u32 = 0x2800;

/// The value of one raised dot, by row (0..4) and column (0..2), in the Unicode Braille
/// pattern block: the left column counts 1, 2, 4, 64 from the top and the right column
/// 8, 16, 32, 128.
pub open spec fn dot_weight(row: int, col: int) -> nat {
    if col == 0 {
        if row == 0 { 1 } else if row == 1 { 2 } else if row == 2 { 4 } else { 64 }
    } else {
        if row == 0 { 8 } else if row == 1 { 16 } else if row == 2 { 32 } else { 128 }
    }
}

/// Sum of the weights of the raised dots of `dots` (4 rows of 2 dots).
pub open spec fn dots_value(dots: Seq<Seq<bool>>) -> nat {
    (if dots[0][0] { dot_weight(0, 0) } else { 0 }) + (if dots[1][0] { dot_weight(1, 0) } else { 0 })
        + (if dots[2][0] { dot_weight(2, 0) } else { 0 }) + (if dots[3][0] { dot_weight(3, 0) } else { 0 })
        + (if dots[0][1] { dot_weight(0, 1) } else { 0 }) + (if dots[1][1] { dot_weight(1, 1) } else { 0 })
        + (if dots[2][1] { dot_weight(2, 1) } else { 0 }) + (if dots[3][1] { dot_weight(3, 1) } else { 0 })
}

/// The Braille pattern character for the given dots.
pub open spec fn braille_char(dots: Seq<Seq<bool>>) -> char {
    (BRAILLE_BLANK + dots_value(dots)) as char
}

/// The 4-by-2 dots of all-false.
pub open spec fn blank_dots() -> Seq<Seq<bool>> {
    Seq::new(4, |r: int| Seq::new(2, |c: int| false))
}

/// One terminal character cell of the raster: 4 rows of 2 dots.
#[derive(Clone, Copy)]
pub struct BraillePixel {
    data: [[bool; 2]; 4],
}

impl BraillePixel {
    /// The dots, by row then column.
    pub closed spec fn dots(&self) -> Seq<Seq<bool>> {
        Seq::new(4, |r: int| Seq::new(2, |c: int| self.data@[r]@[c]))
    }

    /// The dots always form 4 rows of 2.
    pub broadcast proof fn lemma_dots_shape(&self)
        ensures
            #[trigger] self.dots().len() == 4,
            forall|r: int| 0 <= r < 4 ==> #[trigger] self.dots()[r].len() == 2,
    {
    }

    pub fn new() -> (p: BraillePixel)
        ensures
            p.dots() == blank_dots(),
    {
        let p = BraillePixel { data: [[false; 2]; 4] };
        assert(p.dots() =~~= blank_dots());
        p
    }

    /// The dot at `row` (0..4) and `col` (0..2).
    pub fn dot(&self, row: usize, col: usize) -> (b: bool)
        requires
            row < 4,
            col < 2,
        ensures
            b == self.dots()[row as int][col as int],
    {
        self.data[row][col]
    }

    /// Sets the dot at `row` (0..4) and `col` (0..2).
    pub fn set_dot(&mut self, row: usize, col: usize, val: bool)
        requires
            row < 4,
            col < 2,
        ensures
            final(self).dots() == old(self).dots().update(
                row as int,
                old(self).dots()[row as int].update(col as int, val),
            ),
    {
        self.data[row][col] = val;
        assert(self.dots() =~~= old(self).dots().update(
            row as int,
            old(self).dots()[row as int].update(col as int, val),
        ));
    }

    /// The Unicode Braille pattern character showing these dots.
    pub fn to_char(&self) -> (c: char)
        ensures
            c == braille_char(self.dots()),
            c as u32 == BRAILLE_BLANK + dots_value(self.dots()),
    {
        let mut unicode: u32 = 0;
        if self.data[0][0] {
            unicode = unicode + 1;
        }
        if self.data[1][0] {
            unicode = unicode + 2;
        }
        if self.data[2][0] {
            unicode = unicode + 4;
        }
        if self.data[0][1] {
            unicode = unicode + 8;
        }
        if self.data[1][1] {
            unicode = unicode + 16;
        }
        if self.data[2][1] {
            unicode = unicode + 32;
        }
        if self.data[3][0] {
            unicode = unicode + 64;
        }
        if self.data[3][1] {
            unicode = unicode + 128;
        }
        unicode = unicode + BRAILLE_BLANK;
        assert(unicode == BRAILLE_BLANK + dots_value(self.dots()));
        match char_from_u32(unicode) {
            Some(c) => c,
            None => {
                assert(false);
                ' '
            },
        }
    }
}

/// Whether `v` is a Unicode scalar value, i.e. a valid `char`.
pub open spec fn is_scalar_value(v: u32) -> bool {
    v <= 0xD7FF || (0xE000 <= v && v <= 0x10FFFF)
}

/// `char::from_u32`: `Some` of the character with code `v` when `v` is a Unicode scalar value,
/// `None` otherwise (as its documentation states).
#[verifier::external_body]
fn char_from_u32(v: u32) -> (r: Option<char>)
    ensures
        r is Some <==> is_scalar_value(v),
        r matches Some(c) ==> c as u32 == v && c == v as char,
{
    char::from_u32(v)
}

/// Different dot patterns (4 rows of 2) show as different characters, all in the Braille
/// pattern block U+2800 to U+28FF.
pub proof fn lemma_braille_char_identifies_dots(d1: Seq<Seq<bool>>, d2: Seq<Seq<bool>>)
    requires
        d1.len() == 4,
        d2.len() == 4,
        forall|r: int| 0 <= r < 4 ==> #[trigger] d1[r].len() == 2,
        forall|r: int| 0 <= r < 4 ==> #[trigger] d2[r].len() == 2,
        braille_char(d1) == braille_char(d2),
    ensures
        d1 == d2,
        0x2800 <= braille_char(d1) as u32 <= 0x28FF,
{
    assert(dots_value(d1) <= 255);
    assert(dots_value(d2) <= 255);
    assert((BRAILLE_BLANK + dots_value(d1)) as char as u32 == BRAILLE_BLANK + dots_value(d1));
    assert((BRAILLE_BLANK + dots_value(d2)) as char as u32 == BRAILLE_BLANK + dots_value(d2));
    assert(dots_value(d1) == dots_value(d2));
    assert(d1[3][1] == d2[3][1]);
    assert(d1[3][0] == d2[3][0]);
    assert(d1[2][1] == d2[2][1]);
    assert(d1[1][1] == d2[1][1]);
    assert(d1[0][1] == d2[0][1]);
    assert(d1[2][0] == d2[2][0]);
    assert(d1[1][0] == d2[1][0]);
    assert(d1[0][0] == d2[0][0]);
    assert forall|r: int| 0 <= r < 4 implies #[trigger] d1[r] == d2[r] by {
        assert(d1[r] =~= d2[r]);
    }
    assert(d1 =~= d2);
}

/// `2` to the power `n`.
pub open spec fn two_to(n: nat) -> nat
    decreases n,
{
    if n == 0 { 1 } else { 2 * two_to((n - 1) as nat) }
}

/// The number (1 to 8) that Unicode gives the dot at `row` (0..4) and `col` (0..2) of a
/// Braille cell: 1, 2, 3 down the left column and 4, 5, 6 down the right one over the first
/// three rows; 7 and 8 on the bottom row, left then right.
pub open spec fn unicode_dot_number(row: int, col: int) -> nat {
    if row < 3 { (row + 1 + 3 * col) as nat } else { (7 + col) as nat }
}

/// Each raised dot adds `2` to the power of its Unicode dot number less one to the code of
/// the Braille character.
pub proof fn lemma_dot_weight_is_unicode_bit(row: int, col: int)
    requires
        0 <= row < 4,
        0 <= col < 2,
    ensures
        dot_weight(row, col) == two_to((unicode_dot_number(row, col) - 1) as nat),
{
    reveal_with_fuel(two_to, 8);
}

} // verus!
