use vstd::prelude::*;
use crate::buffer::{cell_index, index_of, Context, MAX_DIM};

verus! {

/// The escape byte that opens a terminal control sequence.
pub const ESC: u8 = 0x1b;

/// Decimal digits of `n`, most significant first, without leading zeros.
pub open spec fn decimal(n: nat) -> Seq<u8>
    decreases n,
{
    if n < 10 {
        seq![(48 + n) as u8]
    } else {
        decimal(n / 10).push((48 + n % 10) as u8)
    }
}

/// Moves the cursor to the first column of row `y` (counted from zero).
pub open spec fn cursor_to(y: nat) -> Seq<u8> {
    seq![ESC, 91u8] + decimal(y + 1) + seq![59u8, 49u8, 72u8]
}

/// Sets the background to color `c` of the 256-color palette.
pub open spec fn set_color(c: u8) -> Seq<u8> {
    seq![ESC, 91u8, 52u8, 56u8, 59u8, 53u8, 59u8] + decimal(c as nat) + seq![109u8]
}

/// Resets all colors.
pub open spec fn reset_colors() -> Seq<u8> {
    seq![ESC, 91u8, 48u8, 109u8]
}

/// The bytes for the cell in column `x` and row `y`: a cursor move at the
/// start of each row, a color change where the color differs from the
/// previous cell's (and at the first cell), then one blank.
pub open spec fn cell_bytes(frame: Seq<u8>, width: int, x: int, y: int) -> Seq<u8> {
    let i = cell_index(width, x, y);
    let mv = if x == 0 { cursor_to(y as nat) } else { Seq::empty() };
    let col = if i == 0 || frame[i] != frame[i - 1] { set_color(frame[i]) } else { Seq::empty() };
    mv + col + seq![32u8]
}

/// The bytes for the first `n` cells of row `y`.
pub open spec fn row_bytes(frame: Seq<u8>, width: int, y: int, n: int) -> Seq<u8>
    decreases n,
{
    if n <= 0 {
        Seq::empty()
    } else {
        row_bytes(frame, width, y, n - 1) + cell_bytes(frame, width, n - 1, y)
    }
}

/// The bytes for the first `rows` rows.
pub open spec fn frame_bytes(frame: Seq<u8>, width: int, rows: int) -> Seq<u8>
    decreases rows,
{
    if rows <= 0 {
        Seq::empty()
    } else {
        frame_bytes(frame, width, rows - 1) + row_bytes(frame, width, rows - 1, width)
    }
}

/// Appends the decimal digits of `n`.
pub fn push_decimal(out: &mut Vec<u8>, n: u64)
    ensures
        final(out)@ == old(out)@ + decimal(n as nat),
    decreases n,
{
    if n >= 10 {
        push_decimal(out, n / 10);
    }
    out.push(48u8 + (n % 10) as u8);
    proof {
        if n < 10 {
            assert(final(out)@ =~= old(out)@ + decimal(n as nat));
        } else {
            assert(final(out)@ =~= old(out)@ + decimal(n as nat));
        }
    }
}

fn push_cursor_to(out: &mut Vec<u8>, y: usize)
    requires
        y < MAX_DIM,
    ensures
        final(out)@ == old(out)@ + cursor_to(y as nat),
{
    out.push(ESC);
    out.push(91u8);
    push_decimal(out, y as u64 + 1);
    out.push(59u8);
    out.push(49u8);
    out.push(72u8);
    assert(final(out)@ =~= old(out)@ + cursor_to(y as nat));
}

fn push_set_color(out: &mut Vec<u8>, c: u8)
    ensures
        final(out)@ == old(out)@ + set_color(c),
{
    out.push(ESC);
    out.push(91u8);
    out.push(52u8);
    out.push(56u8);
    out.push(59u8);
    out.push(53u8);
    out.push(59u8);
    push_decimal(out, c as u64);
    out.push(109u8);
    assert(final(out)@ =~= old(out)@ + set_color(c));
}

impl Context {
    /// The terminal bytes that paint the frame buffer, row by row, followed
    /// by a color reset.
    pub fn encode_frame(&self) -> (r: Vec<u8>)
        requires
            self.wf(),
        ensures
            r@ == frame_bytes(self.frame@, self.width as int, self.height as int) + reset_colors(),
    {
        let w = self.width;
        let h = self.height;
        let mut out: Vec<u8> = Vec::new();
        let mut y: usize = 0;
        while y < h
            invariant
                self.wf(),
                w == self.width,
                h == self.height,
                y <= h,
                out@ == frame_bytes(self.frame@, w as int, y as int),
            decreases h - y,
        {
            let ghost row_start = out@;
            let mut x: usize = 0;
            while x < w
                invariant
                    self.wf(),
                    w == self.width,
                    h == self.height,
                    y < h,
                    x <= w,
                    out@ == row_start + row_bytes(self.frame@, w as int, y as int, x as int),
                decreases w - x,
            {
                let ghost before = out@;
                let i = index_of(w, h, x, y);
                if x == 0 {
                    push_cursor_to(&mut out, y);
                }
                let ghost after_move = out@;
                if i == 0 || self.frame[i] != self.frame[i - 1] {
                    push_set_color(&mut out, self.frame[i]);
                }
                out.push(32u8);
                proof {
                    assert(out@ =~= before + cell_bytes(self.frame@, w as int, x as int, y as int));
                    assert(out@ =~= row_start + row_bytes(self.frame@, w as int, y as int, x + 1));
                }
                x = x + 1;
            }
            y = y + 1;
        }
        out.push(ESC);
        out.push(91u8);
        out.push(48u8);
        out.push(109u8);
        proof {
            assert(out@ =~= frame_bytes(self.frame@, w as int, h as int) + reset_colors());
        }
        out
    }
}

} // verus!
