use vstd::prelude::*;
use crate::keyword::{trim, trimmed};
use crate::matrix::{flat_index, Matrix};

verus! {

/// Number of glyphs in the default ramp.
pub const DEFAULT_CHARS_LEN: usize = 39;

/// The glyph that level `k` is drawn with: `glyphs[k]`, with `k` held to
/// `0 .. glyphs.len() - 1`.
pub open spec fn glyph_for(glyphs: Seq<char>, k: int) -> char {
    if k < 0 {
        glyphs[0]
    } else if k >= glyphs.len() {
        glyphs[glyphs.len() - 1]
    } else {
        glyphs[k]
    }
}

/// Length of one rendered text line for a `width`-wide matrix: two glyphs a
/// cell and the line break.
pub open spec fn text_line_len(width: int) -> int {
    2 * width + 1
}

fn glyph_index(k: i64, len: usize) -> (r: usize)
    requires
        len > 0,
    ensures
        r < len,
        r == (if k < 0 {
            0
        } else if k >= len {
            len - 1
        } else {
            k as int
        }),
{
    if k < 0 {
        0
    } else if k as u64 >= len as u64 {
        len - 1
    } else {
        k as usize
    }
}

/// Where the first copy of cell `(i, j)` stands in the text of a
/// `width`-wide matrix; `(i, width)` is the line break of row `i`.
pub open spec fn text_pos(i: int, j: int, width: int) -> int {
    i * text_line_len(width) + 2 * j
}

proof fn lemma_earlier_lines(i: int, width: int)
    requires
        0 <= i,
        0 <= width,
    ensures
        forall|ii: int, jj: int|
            0 <= ii < i && 0 <= jj <= width ==> #[trigger] text_pos(ii, jj, width) + 2 * (width - jj)
                + 1 <= i * text_line_len(width),
{
    let n = text_line_len(width);
    assert forall|ii: int, jj: int| 0 <= ii < i && 0 <= jj <= width implies #[trigger] text_pos(
        ii,
        jj,
        width,
    ) + 2 * (width - jj) + 1 <= i * n by {
        assert(ii * n + n <= i * n) by (nonlinear_arith)
            requires
                0 <= ii < i,
                n >= 0,
        ;
    }
}

/// The text for a matrix of glyph levels, a line per row: each cell is
/// drawn twice side by side (a glyph is about twice as tall as it is wide)
/// and every line ends in `'\n'`.
pub fn render_text(levels: &Matrix<i64>, glyphs: &Vec<char>) -> (r: Vec<char>)
    requires
        levels.wf(),
        glyphs@.len() > 0,
        levels.spec_height() * text_line_len(levels.spec_width() as int) <= usize::MAX,
    ensures
        r@.len() == levels.spec_height() * text_line_len(levels.spec_width() as int),
        forall|i: int, j: int|
            levels.in_range(i, j) ==> r@[#[trigger] text_pos(i, j, levels.spec_width() as int)]
                == glyph_for(glyphs@, levels.cell(i, j) as int) && r@[text_pos(
                i,
                j,
                levels.spec_width() as int,
            ) + 1] == glyph_for(glyphs@, levels.cell(i, j) as int),
        forall|i: int|
            0 <= i < levels.spec_height() ==> r@[#[trigger] text_pos(
                i,
                levels.spec_width() as int,
                levels.spec_width() as int,
            )] == '\n',
{
    let width = levels.get_width();
    let height = levels.get_height();
    let ghost w = width as int;
    let ghost n = text_line_len(w);
    let mut out: Vec<char> = Vec::new();
    let mut i: u32 = 0;
    while i < height
        invariant
            levels.wf(),
            glyphs@.len() > 0,
            w == width == levels.spec_width(),
            height == levels.spec_height(),
            n == text_line_len(w),
            height * n <= usize::MAX,
            i <= height,
            out@.len() == i * n,
            forall|ii: int, j: int|
                0 <= ii < i && 0 <= j < width ==> out@[#[trigger] text_pos(ii, j, w)] == glyph_for(
                    glyphs@,
                    levels.cell(ii, j) as int,
                ) && out@[text_pos(ii, j, w) + 1] == glyph_for(glyphs@, levels.cell(ii, j) as int),
            forall|ii: int| 0 <= ii < i ==> out@[#[trigger] text_pos(ii, w, w)] == '\n',
        decreases height - i,
    {
        let mut j: u32 = 0;
        proof {
            assert(i * n + n <= height * n) by (nonlinear_arith)
                requires
                    i < height,
                    n >= 0,
            ;
            lemma_earlier_lines(i as int, w);
        }
        while j < width
            invariant
                levels.wf(),
                glyphs@.len() > 0,
                w == width == levels.spec_width(),
                height == levels.spec_height(),
                n == text_line_len(w),
                i * n + n <= height * n <= usize::MAX,
                i < height,
                j <= width,
                out@.len() == i * n + 2 * j,
                forall|ii: int, jj: int|
                    0 <= ii < i && 0 <= jj <= width ==> #[trigger] text_pos(ii, jj, w) + 2 * (width - jj)
                        + 1 <= i * n,
                forall|ii: int, jj: int|
                    0 <= ii <= i && 0 <= jj < width && (ii < i || jj < j) ==> out@[#[trigger] text_pos(
                        ii,
                        jj,
                        w,
                    )] == glyph_for(glyphs@, levels.cell(ii, jj) as int) && out@[text_pos(ii, jj, w)
                        + 1] == glyph_for(glyphs@, levels.cell(ii, jj) as int),
                forall|ii: int| 0 <= ii < i ==> out@[#[trigger] text_pos(ii, w, w)] == '\n',
            decreases width - j,
        {
            let k = levels.get(i, j).unwrap();
            let glyph = glyphs[glyph_index(k, glyphs.len())];
            let ghost before = out@;
            out.push(glyph);
            out.push(glyph);
            proof {
                assert(text_pos(i as int, j as int, w) == before.len());
                assert forall|ii: int, jj: int|
                    0 <= ii <= i && 0 <= jj < width && (ii < i || jj <= j) implies out@[#[trigger] text_pos(
                    ii,
                    jj,
                    w,
                )] == glyph_for(glyphs@, levels.cell(ii, jj) as int) && out@[text_pos(ii, jj, w) + 1]
                    == glyph_for(glyphs@, levels.cell(ii, jj) as int) by {
                    if ii < i || jj < j {
                        assert(text_pos(ii, jj, w) + 1 < before.len());
                        assert(out@[text_pos(ii, jj, w)] == before[text_pos(ii, jj, w)]);
                        assert(out@[text_pos(ii, jj, w) + 1] == before[text_pos(ii, jj, w) + 1]);
                    }
                }
            }
            j = j + 1;
        }
        out.push('\n');
        proof {
            assert((i + 1) * n == i * n + n) by (nonlinear_arith);
        }
        i = i + 1;
    }
    out
}

/// The weight `bit` where the dot at `(row, col)` is raised, else 0.
pub open spec fn dot_bit(dots: Matrix<bool>, row: int, col: int, bit: int) -> int {
    if dots.cell(row, col) {
        bit
    } else {
        0
    }
}

/// The code point of the Braille character for the 2 x 4 block of dots whose
/// top left dot is `(4 * i, 2 * j)`: U+2800 plus one bit per raised dot,
/// numbered down the left column (bits 0 to 2), down the right column (bits
/// 3 to 5), then the bottom row left and right (bits 6 and 7).
pub open spec fn braille_code(dots: Matrix<bool>, i: int, j: int) -> int {
    let r = 4 * i;
    let c = 2 * j;
    0x2800 + dot_bit(dots, r, c, 1) + dot_bit(dots, r + 1, c, 2) + dot_bit(dots, r + 2, c, 4)
        + dot_bit(dots, r, c + 1, 8) + dot_bit(dots, r + 1, c + 1, 16) + dot_bit(
        dots,
        r + 2,
        c + 1,
        32,
    ) + dot_bit(dots, r + 3, c, 64) + dot_bit(dots, r + 3, c + 1, 128)
}

/// Where the character of block `(i, j)` stands in a Braille text whose
/// lines hold `cells` characters; `(i, cells)` is the line break of row `i`.
pub open spec fn braille_pos(i: int, j: int, cells: int) -> int {
    i * (cells + 1) + j
}

/// Relies on char::from_u32: the character whose code point is `code`, or
/// `None` for a surrogate or a value past U+10FFFF.
#[verifier::external_body]
fn char_from_u32(code: u32) -> (r: Option<char>)
    ensures
        r is Some <==> (code < 0xD800 || 0xE000 <= code <= 0x10FFFF),
        r matches Some(c) ==> c as u32 == code,
{
    char::from_u32(code)
}

fn dot_weight(dots: &Matrix<bool>, row: u32, col: u32, bit: u32) -> (r: u32)
    requires
        dots.wf(),
        dots.in_range(row as int, col as int),
    ensures
        r == dot_bit(*dots, row as int, col as int, bit as int),
{
    if dots.get(row, col).unwrap() {
        bit
    } else {
        0
    }
}

fn braille_char(dots: &Matrix<bool>, i: u32, j: u32) -> (r: char)
    requires
        dots.wf(),
        4 * i + 3 < dots.spec_height(),
        2 * j + 1 < dots.spec_width(),
    ensures
        r as u32 == braille_code(*dots, i as int, j as int),
{
    let r = 4 * i;
    let c = 2 * j;
    let code: u32 = 0x2800 + dot_weight(dots, r, c, 1) + dot_weight(dots, r + 1, c, 2) + dot_weight(
        dots,
        r + 2,
        c,
        4,
    ) + dot_weight(dots, r, c + 1, 8) + dot_weight(dots, r + 1, c + 1, 16) + dot_weight(
        dots,
        r + 2,
        c + 1,
        32,
    ) + dot_weight(dots, r + 3, c, 64) + dot_weight(dots, r + 3, c + 1, 128);
    char_from_u32(code).unwrap()
}

/// Braille text for a matrix of dots: each 2 x 4 block of dots becomes one
/// character (rows and columns past the last whole block are left out), and
/// every line ends in `'\n'`.
pub fn render_braille(dots: &Matrix<bool>) -> (r: Vec<char>)
    requires
        dots.wf(),
        (dots.spec_height() / 4) * (dots.spec_width() / 2 + 1) <= usize::MAX,
    ensures
        r@.len() == (dots.spec_height() / 4) * (dots.spec_width() / 2 + 1),
        forall|i: int, j: int|
            0 <= i < dots.spec_height() / 4 && 0 <= j < dots.spec_width() / 2 ==> r@[#[trigger] braille_pos(
                i,
                j,
                (dots.spec_width() / 2) as int,
            )] as u32 == braille_code(*dots, i, j),
        forall|i: int|
            0 <= i < dots.spec_height() / 4 ==> r@[#[trigger] braille_pos(
                i,
                (dots.spec_width() / 2) as int,
                (dots.spec_width() / 2) as int,
            )] == '\n',
{
    let cells = dots.get_width() / 2;
    let lines = dots.get_height() / 4;
    let ghost n = cells + 1;
    let mut out: Vec<char> = Vec::new();
    let mut i: u32 = 0;
    while i < lines
        invariant
            dots.wf(),
            cells == dots.spec_width() / 2,
            lines == dots.spec_height() / 4,
            n == cells + 1,
            lines * n <= usize::MAX,
            i <= lines,
            out@.len() == i * n,
            forall|ii: int, j: int|
                0 <= ii < i && 0 <= j < cells ==> out@[#[trigger] braille_pos(ii, j, cells as int)] as u32
                    == braille_code(*dots, ii, j),
            forall|ii: int| 0 <= ii < i ==> out@[#[trigger] braille_pos(ii, cells as int, cells as int)]
                == '\n',
        decreases lines - i,
    {
        let mut j: u32 = 0;
        proof {
            assert(i * n + n <= lines * n) by (nonlinear_arith)
                requires
                    i < lines,
                    n >= 0,
            ;
            assert forall|ii: int, jj: int| 0 <= ii < i && 0 <= jj <= cells implies #[trigger] braille_pos(
                ii,
                jj,
                cells as int,
            ) < i * n by {
                assert(ii * n + n <= i * n) by (nonlinear_arith)
                    requires
                        0 <= ii < i,
                        n >= 0,
                ;
            }
        }
        while j < cells
            invariant
                dots.wf(),
                cells == dots.spec_width() / 2,
                lines == dots.spec_height() / 4,
                n == cells + 1,
                i * n + n <= lines * n <= usize::MAX,
                i < lines,
                j <= cells,
                out@.len() == i * n + j,
                forall|ii: int, jj: int|
                    0 <= ii < i && 0 <= jj <= cells ==> #[trigger] braille_pos(ii, jj, cells as int) < i
                        * n,
                forall|ii: int, jj: int|
                    0 <= ii <= i && 0 <= jj < cells && (ii < i || jj < j) ==> out@[#[trigger] braille_pos(
                        ii,
                        jj,
                        cells as int,
                    )] as u32 == braille_code(*dots, ii, jj),
                forall|ii: int| 0 <= ii < i ==> out@[#[trigger] braille_pos(ii, cells as int, cells as int)]
                    == '\n',
            decreases cells - j,
        {
            let ch = braille_char(dots, i, j);
            out.push(ch);
            j = j + 1;
        }
        out.push('\n');
        proof {
            assert((i + 1) * n == i * n + n) by (nonlinear_arith);
        }
        i = i + 1;
    }
    out
}

/// The default ramp, from the darkest glyph to the brightest.
pub fn default_glyphs() -> (r: Vec<char>)
    ensures
        r@.len() == DEFAULT_CHARS_LEN,
        r@ == seq![
            ' ', '.', '`', '\'', '-', '~', '+', '^', ':', ';', '>', '<', '?', ')', '(', '|', ']',
            '[', '}', '{', '\\', '/', 'i', '1', 'l', 'L', '0', 'O', 'm', 'q', 'd', 'k', '#', 'W',
            '%', '&', 'B', '@', '$',
        ],
{
    vec![
        ' ', '.', '`', '\'', '-', '~', '+', '^', ':', ';', '>', '<', '?', ')', '(', '|', ']', '[',
        '}', '{', '\\', '/', 'i', '1', 'l', 'L', '0', 'O', 'm', 'q', 'd', 'k', '#', 'W', '%', '&',
        'B', '@', '$',
    ]
}

/// `s` with every `'\n'` taken out.
pub open spec fn without_newlines(s: Seq<char>) -> Seq<char>
    decreases s.len(),
{
    if s.len() == 0 {
        seq![]
    } else if s.last() == '\n' {
        without_newlines(s.drop_last())
    } else {
        without_newlines(s.drop_last()).push(s.last())
    }
}

/// A user's ramp: the trimmed text without line breaks, after a space where
/// the text as given began with one.
pub open spec fn glyph_ramp(leading_space: bool, trimmed: Seq<char>) -> Seq<char> {
    if leading_space {
        seq![' '] + without_newlines(trimmed)
    } else {
        without_newlines(trimmed)
    }
}

/// The glyphs of a ramp given as text whose surrounding white space is
/// already gone: its characters but line breaks, after a space where
/// `leading_space` says the text as given began with one.
pub fn glyphs_from_trimmed(leading_space: bool, text: &str) -> (r: Vec<char>)
    ensures
        r@ == glyph_ramp(leading_space, text@),
{
    let mut out: Vec<char> = Vec::new();
    if leading_space {
        out.push(' ');
    }
    let ghost prefix = out@;
    let n = text.unicode_len();
    let mut k: usize = 0;
    while k < n
        invariant
            n == text@.len(),
            k <= n,
            prefix == (if leading_space {
                seq![' ']
            } else {
                Seq::<char>::empty()
            }),
            out@ == prefix + without_newlines(text@.subrange(0, k as int)),
        decreases n - k,
    {
        let c = text.get_char(k);
        proof {
            assert(text@.subrange(0, k + 1).drop_last() =~= text@.subrange(0, k as int));
        }
        if c != '\n' {
            out.push(c);
            proof {
                assert(out@ =~= prefix + without_newlines(text@.subrange(0, k + 1)));
            }
        }
        k = k + 1;
    }
    proof {
        assert(text@.subrange(0, n as int) =~= text@);
        assert(seq![] + without_newlines(text@) =~= without_newlines(text@));
    }
    out
}

/// The glyphs of a ramp given as text (its first character a space or not).
pub fn glyph_list(chars: &str) -> (r: Vec<char>)
    requires
        chars@.len() > 0,
    ensures
        r@ == glyph_ramp(chars@[0] == ' ', trimmed(chars@)),
{
    let leading_space = chars.get_char(0) == ' ';
    glyphs_from_trimmed(leading_space, trim(chars))
}

} // verus!
