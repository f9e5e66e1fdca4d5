use font8x8::UnicodeFonts;
use vstd::prelude::*;

verus! {

/// The 8x8 bitmap of a character of the basic set: eight rows, top first, one
/// byte each, bit 0 the leftmost pixel.
pub uninterp spec fn basic_glyph(c: char) -> Seq<u8>;

/// Relies on font8x8's `BASIC_FONTS.get`: its table holds exactly the
/// characters U+0000..U+007F, and the bitmap it returns depends on the
/// character alone.
#[verifier::external_body]
fn basic_font_glyph(c: char) -> (r: Option<[u8; 8]>)
    ensures
        r is Some <==> (c as u32) < 128,
        r is Some ==> r->0@ == basic_glyph(c),
{
    font8x8::BASIC_FONTS.get(c)
}

/// The bitmap drawn for `c`, if the basic set has one.
pub open spec fn glyph_of(c: char) -> Option<Seq<u8>> {
    if (c as u32) < 128 {
        Some(basic_glyph(c))
    } else {
        None
    }
}

/// Whether bit `b` of `row` is lit.
pub open spec fn lit(row: u8, b: int) -> bool {
    (row & (1u8 << (b as u8))) != 0u8
}

/// The lit cells among the first `n` cells of `glyph`, rows top first and
/// each row left to right, as (row, column).
pub open spec fn lit_cells(glyph: Seq<u8>, n: int) -> Seq<(int, int)>
    decreases n,
{
    if n <= 0 {
        Seq::empty()
    } else {
        lit_cells(glyph, n - 1) + if lit(glyph[(n - 1) / 8], (n - 1) % 8) {
            seq![((n - 1) / 8, (n - 1) % 8)]
        } else {
            Seq::empty()
        }
    }
}

/// The top-left corners of the squares drawn for the lit cells of `glyph`
/// when its top-left corner is at (`left`, `top`) and each cell is `scale`
/// pixels wide.
pub open spec fn placed_cells(glyph: Seq<u8>, n: int, left: int, top: int, scale: int) -> Seq<
    (i32, i32),
> {
    lit_cells(glyph, n).map_values(
        |c: (int, int)| ((left + scale * c.1) as i32, (top + scale * c.0) as i32),
    )
}

/// The squares drawn for the first `n` characters of `text`, in order: each
/// character takes `8 * scale` pixels of width, and characters outside the
/// basic set draw nothing but still take their width.
pub open spec fn text_squares(x: int, y: int, text: Seq<char>, scale: int, n: int) -> Seq<
    (i32, i32),
>
    decreases n,
{
    if n <= 0 {
        Seq::empty()
    } else {
        text_squares(x, y, text, scale, n - 1) + match glyph_of(text[n - 1]) {
            Some(g) => placed_cells(g, 64, x + 8 * scale * (n - 1), y, scale),
            None => Seq::empty(),
        }
    }
}

/// The side of the square drawn for one lit cell: one pixel at scale 1,
/// otherwise the scale less the `fill` gap (no gap when the gap would exceed
/// the scale).
pub open spec fn square_side(scale: int, fill: int) -> int {
    if scale == 1 {
        1
    } else if fill > scale {
        scale
    } else {
        scale - fill
    }
}

/// Where bitmap text lands on screen.
pub struct TextLayout {
    /// Top-left corner of each square to fill, in drawing order.
    pub squares: Vec<(i32, i32)>,
    /// Side of every square, in pixels.
    pub side: usize,
}

/// The squares drawn for the lit cells of `glyph` with its top-left corner at
/// (`left`, `top`) and its cells `scale` pixels apart, rows top first.
pub fn glyph_squares(glyph: &[u8; 8], left: i32, top: i32, scale: usize) -> (r: Vec<(i32, i32)>)
    requires
        left + 8 * scale <= i32::MAX,
        top + 8 * scale <= i32::MAX,
    ensures
        r@ == placed_cells(glyph@, 64, left as int, top as int, scale as int),
{
    let mut squares: Vec<(i32, i32)> = Vec::new();
    let mut cell: usize = 0;
    while cell < 64
        invariant
            0 <= cell <= 64,
            glyph@.len() == 8,
            left + 8 * scale <= i32::MAX,
            top + 8 * scale <= i32::MAX,
            squares@ == placed_cells(glyph@, cell as int, left as int, top as int, scale as int),
        decreases 64 - cell,
    {
        let row = cell / 8;
        let col = cell % 8;
        let bits: u8 = glyph[row];
        if bits & (1u8 << (col as u8)) != 0 {
            assert(scale * col <= 8 * scale) by (nonlinear_arith)
                requires
                    col < 8,
            ;
            assert(scale * row <= 8 * scale) by (nonlinear_arith)
                requires
                    row < 8,
            ;
            let px: i32 = (left as i64 + (scale * col) as i64) as i32;
            let py: i32 = (top as i64 + (scale * row) as i64) as i32;
            squares.push((px, py));
        }
        proof {
            let c = cell as int;
            assert(lit_cells(glyph@, c + 1) == lit_cells(glyph@, c) + if lit(glyph@[c / 8], c % 8) {
                seq![(c / 8, c % 8)]
            } else {
                Seq::<(int, int)>::empty()
            });
            assert(squares@ =~= placed_cells(glyph@, c + 1, left as int, top as int, scale as int));
        }
        cell = cell + 1;
    }
    squares
}

/// Lays out `text` with its top-left corner at (`x`, `y`), each bitmap pixel
/// drawn as a square `scale` pixels apart (see `square_side`).
pub fn layout_text(x: i32, y: i32, text: &Vec<char>, scale: usize, fill: usize) -> (t: TextLayout)
    requires
        x + 8 * scale * (text@.len() + 1) <= i32::MAX,
        y + 8 * scale <= i32::MAX,
    ensures
        t.squares@ == text_squares(x as int, y as int, text@, scale as int, text@.len() as int),
        t.side == square_side(scale as int, fill as int),
{
    let mut squares: Vec<(i32, i32)> = Vec::new();
    let ghost len = text@.len() as int;
    let mut i: usize = 0;
    while i < text.len()
        invariant
            0 <= i <= text.len(),
            len == text@.len(),
            x + 8 * scale * (len + 1) <= i32::MAX,
            y + 8 * scale <= i32::MAX,
            squares@ == text_squares(x as int, y as int, text@, scale as int, i as int),
        decreases text.len() - i,
    {
        let ghost before = squares@;
        assert(8 * scale * i + 8 * scale <= 8 * scale * (len + 1)) by (nonlinear_arith)
            requires
                i < len,
        ;
        let left: i32 = (x as i64 + (8 * scale * i) as i64) as i32;
        match basic_font_glyph(text[i]) {
            Some(g) => {
                let mut placed = glyph_squares(&g, left, y, scale);
                squares.append(&mut placed);
            },
            None => {},
        }
        assert(squares@ =~= text_squares(x as int, y as int, text@, scale as int, i + 1));
        i = i + 1;
    }
    let side = if scale == 1 {
        1
    } else if fill > scale {
        scale
    } else {
        scale - fill
    };
    TextLayout { squares, side }
}

/// The slot of `c` in the vector font: the letters `A`..`Z`, then the digits,
/// then `=` `,` `.` `/` `!` `:` `_` `-` and the space. Any other character
/// is drawn as `A`.
pub open spec fn glyph_slot(c: char) -> int {
    let u = c as u32 as int;
    if 65 <= u <= 90 {
        u - 65
    } else if 48 <= u <= 57 {
        26 + u - 48
    } else if c == '=' {
        36
    } else if c == ',' {
        37
    } else if c == '.' {
        38
    } else if c == '/' {
        39
    } else if c == '!' {
        40
    } else if c == ':' {
        41
    } else if c == '_' {
        42
    } else if c == '-' {
        43
    } else if c == ' ' {
        44
    } else {
        0
    }
}

/// The number of glyphs in the vector font.
pub const VECTOR_GLYPHS: usize = 45;

/// The index of the vector-font glyph drawn for `c`.
pub fn vector_glyph_index(c: char) -> (i: usize)
    ensures
        i == glyph_slot(c),
        i < VECTOR_GLYPHS,
{
    let u = c as u32;
    if 65 <= u && u <= 90 {
        (u - 65) as usize
    } else if 48 <= u && u <= 57 {
        (26 + u - 48) as usize
    } else {
        match c {
            '=' => 36,
            ',' => 37,
            '.' => 38,
            '/' => 39,
            '!' => 40,
            ':' => 41,
            '_' => 42,
            '-' => 43,
            ' ' => 44,
            _ => 0,
        }
    }
}

} // verus!
