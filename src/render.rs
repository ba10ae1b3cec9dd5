//! Text form of a matrix: one bracketed line per row, each cell right-aligned
//! in five columns and followed by a space.
use vstd::prelude::*;
use crate::matrix::Matrix;

verus! {

/// The width each cell's number is right-aligned in.
pub const CELL_WIDTH: usize = 5;

/// The decimal digit `d`.
pub open spec fn digit_char(d: nat) -> char {
    ((d + 48) as u8) as char
}

/// The decimal digits of `v`, most significant first, with no leading zero.
pub open spec fn decimal(v: nat) -> Seq<char>
    decreases v,
{
    if v < 10 {
        seq![digit_char(v)]
    } else {
        decimal(v / 10).push(digit_char(v % 10))
    }
}

/// `x` in decimal, with a leading `-` when it is negative.
pub open spec fn int_text(x: int) -> Seq<char> {
    if x < 0 {
        seq!['-'] + decimal((-x) as nat)
    } else {
        decimal(x as nat)
    }
}

/// `s` preceded by spaces up to `width` characters (unchanged if longer).
pub open spec fn pad_left(s: Seq<char>, width: nat) -> Seq<char> {
    if s.len() < width {
        Seq::new((width - s.len()) as nat, |i: int| ' ') + s
    } else {
        s
    }
}

/// One cell: its number right-aligned in `CELL_WIDTH` columns, then a space.
pub open spec fn cell_text(x: i32) -> Seq<char> {
    pad_left(int_text(x as int), CELL_WIDTH as nat).push(' ')
}

/// The cells of a row, one after the other.
pub open spec fn cells_text(r: Seq<i32>) -> Seq<char>
    decreases r.len(),
{
    if r.len() == 0 {
        Seq::empty()
    } else {
        cells_text(r.drop_last()) + cell_text(r.last())
    }
}

/// One row: `[ `, its cells, `]` and a line break.
pub open spec fn row_text(r: Seq<i32>) -> Seq<char> {
    seq!['[', ' '] + cells_text(r) + seq![']', '\n']
}

/// All rows of a matrix, one line each.
pub open spec fn matrix_text(m: Seq<Vec<i32>>) -> Seq<char>
    decreases m.len(),
{
    if m.len() == 0 {
        Seq::empty()
    } else {
        matrix_text(m.drop_last()) + row_text(m.last()@)
    }
}

/// Appends the decimal digits of `v`.
fn push_decimal(out: &mut Vec<char>, v: u32)
    ensures
        final(out)@ == old(out)@ + decimal(v as nat),
    decreases v,
{
    if v >= 10 {
        push_decimal(out, v / 10);
    }
    let d: u8 = (v % 10) as u8;
    out.push((d + 48) as char);
    assert(out@ =~= old(out)@ + decimal(v as nat));
}

/// Appends one cell: `x` right-aligned in `CELL_WIDTH` columns, then a space.
fn push_cell(out: &mut Vec<char>, x: i32)
    ensures
        final(out)@ == old(out)@ + cell_text(x),
{
    let mut text: Vec<char> = Vec::new();
    let magnitude: u32;
    if x < 0 {
        text.push('-');
        magnitude = (-(x as i64)) as u32;
    } else {
        magnitude = x as u32;
    }
    push_decimal(&mut text, magnitude);
    assert(text@ =~= int_text(x as int));
    let ghost start = out@;
    if text.len() < CELL_WIDTH {
        let mut k: usize = text.len();
        while k < CELL_WIDTH
            invariant
                text@.len() <= k <= CELL_WIDTH,
                out@ == start + Seq::new((k - text@.len()) as nat, |i: int| ' '),
            decreases CELL_WIDTH - k,
        {
            out.push(' ');
            k += 1;
            assert(out@ =~= start + Seq::new((k - text@.len()) as nat, |i: int| ' '));
        }
    }
    let ghost padded = out@;
    let mut j: usize = 0;
    while j < text.len()
        invariant
            j <= text@.len(),
            out@ == padded + text@.subrange(0, j as int),
        decreases text@.len() - j,
    {
        out.push(text[j]);
        j += 1;
        assert(out@ =~= padded + text@.subrange(0, j as int));
    }
    out.push(' ');
    assert(out@ =~= start + cell_text(x));
}

/// The text of `m`: for each row, `[ `, then each cell right-aligned in
/// `CELL_WIDTH` columns and followed by a space, then `]` and a line break.
pub fn render_matrix(m: &Matrix) -> (text: Vec<char>)
    ensures
        text@ == matrix_text(m@),
{
    let mut out: Vec<char> = Vec::new();
    let mut i: usize = 0;
    while i < m.len()
        invariant
            i <= m@.len(),
            out@ == matrix_text(m@.subrange(0, i as int)),
        decreases m@.len() - i,
    {
        let row = &m[i];
        let ghost before = out@;
        out.push('[');
        out.push(' ');
        let mut j: usize = 0;
        while j < row.len()
            invariant
                j <= row@.len(),
                out@ == before + seq!['[', ' '] + cells_text(row@.subrange(0, j as int)),
            decreases row@.len() - j,
        {
            push_cell(&mut out, row[j]);
            assert(row@.subrange(0, j + 1).drop_last() =~= row@.subrange(0, j as int));
            j += 1;
            assert(out@ =~= before + seq!['[', ' '] + cells_text(row@.subrange(0, j as int)));
        }
        out.push(']');
        out.push('\n');
        assert(row@.subrange(0, j as int) =~= row@);
        assert(m@.subrange(0, i + 1).drop_last() =~= m@.subrange(0, i as int));
        i += 1;
        assert(out@ =~= matrix_text(m@.subrange(0, i as int)));
    }
    assert(m@.subrange(0, i as int) =~= m@);
    out
}

} // verus!
