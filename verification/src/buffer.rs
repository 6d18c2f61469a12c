//! A character canvas: the oldest terminal frame buffer.
use vstd::prelude::*;

verus! {

/// Position of cell `(x, y)` in a row-major buffer `width` cells wide.
pub open spec fn cell_index(width: int, x: int, y: int) -> int {
    x + y * width
}

/// Row-major position of `(x, y)` in a `width` by `height` buffer, or `None`
/// when the position lies outside it. This is the bounds test and index that
/// every depth-tested `set_pixel` of the renderers performs before touching
/// its colour and depth planes.
pub fn buffer_index(width: usize, height: usize, x: usize, y: usize) -> (r: Option<usize>)
    requires
        width * height <= usize::MAX,
    ensures
        r == (if x < width && y < height {
            Some(cell_index(width as int, x as int, y as int) as usize)
        } else {
            None::<usize>
        }),
        r matches Some(i) ==> i < width * height,
{
    if x < width && y < height {
        proof {
            assert(x + y * width < width * height) by (nonlinear_arith)
                requires
                    x < width,
                    y < height,
            ;
        }
        Some(x + y * width)
    } else {
        None
    }
}

/// A `width` by `height` grid of characters, stored row by row.
pub struct Buffer {
    pub width: usize,
    pub height: usize,
    pub data: Vec<char>,
}

impl Buffer {
    /// The buffer holds exactly one cell per position.
    pub open spec fn wf(&self) -> bool {
        &&& self.width * self.height <= usize::MAX
        &&& self.data@.len() == self.width * self.height
    }

    /// Character at `(x, y)`.
    pub open spec fn cell(&self, x: int, y: int) -> char {
        self.data@[cell_index(self.width as int, x, y)]
    }

    /// A buffer of the given size filled with spaces.
    pub fn new(width: usize, height: usize) -> (b: Buffer)
        requires
            width * height <= usize::MAX,
        ensures
            b.width == width,
            b.height == height,
            b.wf(),
            forall|i: int| 0 <= i < b.data@.len() ==> #[trigger] b.data@[i] == ' ',
    {
        let n = width * height;
        let mut data: Vec<char> = Vec::new();
        let mut k: usize = 0;
        while k < n
            invariant
                k <= n,
                data@.len() == k,
                forall|i: int| 0 <= i < data@.len() ==> #[trigger] data@[i] == ' ',
            decreases n - k,
        {
            data.push(' ');
            k = k + 1;
        }
        Buffer { width, height, data }
    }

    /// Fills every cell with a space.
    pub fn clear(&mut self)
        ensures
            final(self).width == old(self).width,
            final(self).height == old(self).height,
            final(self).data@.len() == old(self).data@.len(),
            forall|i: int| 0 <= i < final(self).data@.len() ==> #[trigger] final(self).data@[i] == ' ',
    {
        let n = self.data.len();
        let mut k: usize = 0;
        while k < n
            invariant
                k <= n,
                n == self.data@.len(),
                self.width == old(self).width,
                self.height == old(self).height,
                forall|i: int| 0 <= i < k ==> #[trigger] self.data@[i] == ' ',
            decreases n - k,
        {
            self.data.set(k, ' ');
            k = k + 1;
        }
    }

    /// Writes `ch` at `(x, y)`; positions outside the buffer are ignored.
    pub fn set_char(&mut self, x: usize, y: usize, ch: char)
        requires
            old(self).wf(),
        ensures
            final(self).width == old(self).width,
            final(self).height == old(self).height,
            final(self).data@ == (if x < old(self).width && y < old(self).height {
                old(self).data@.update(cell_index(old(self).width as int, x as int, y as int), ch)
            } else {
                old(self).data@
            }),
    {
        if x < self.width && y < self.height {
            proof {
                assert(x + y * self.width < self.width * self.height) by (nonlinear_arith)
                    requires
                        x < self.width,
                        y < self.height,
                ;
            }
            self.data.set(x + y * self.width, ch);
        }
    }
}

/// Writing a character and reading the same cell gives the character back;
/// every other cell keeps its content.
pub proof fn law_set_char_then_read(b: Buffer, b2: Buffer, x: int, y: int, ch: char, u: int, v: int)
    requires
        b.wf(),
        0 <= x < b.width,
        0 <= y < b.height,
        0 <= u < b.width,
        0 <= v < b.height,
        b2.width == b.width,
        b2.height == b.height,
        b2.data@ == b.data@.update(cell_index(b.width as int, x, y), ch),
    ensures
        b2.wf(),
        b2.cell(x, y) == ch,
        (u != x || v != y) ==> b2.cell(u, v) == b.cell(u, v),
{
    assert(0 <= x + y * b.width < b.width * b.height) by (nonlinear_arith)
        requires
            0 <= x < b.width,
            0 <= y < b.height,
    ;
    assert(0 <= u + v * b.width < b.width * b.height) by (nonlinear_arith)
        requires
            0 <= u < b.width,
            0 <= v < b.height,
    ;
    if u != x || v != y {
        assert(u + v * b.width != x + y * b.width) by (nonlinear_arith)
            requires
                0 <= u < b.width,
                0 <= x < b.width,
                u != x || v != y,
        ;
    }
}

} // verus!
