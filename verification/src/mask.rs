//! The eight mask patterns.
//!
//! A mask inverts the colour of the modules that its formula selects,
//! leaving out the function modules.

use vstd::prelude::*;
use crate::grid::{Canvas, Grid};
use crate::types::Mask;

verus! {

/// Whether the mask with the given number selects the module in column
/// `x` of row `y`.
pub open spec fn mask_inverts(mask: int, x: int, y: int) -> bool {
    if mask == 0 {
        (x + y) % 2 == 0
    } else if mask == 1 {
        y % 2 == 0
    } else if mask == 2 {
        x % 3 == 0
    } else if mask == 3 {
        (x + y) % 3 == 0
    } else if mask == 4 {
        (x / 3 + y / 2) % 2 == 0
    } else if mask == 5 {
        (x * y) % 2 + (x * y) % 3 == 0
    } else if mask == 6 {
        ((x * y) % 2 + (x * y) % 3) % 2 == 0
    } else {
        ((x + y) % 2 + (x * y) % 3) % 2 == 0
    }
}

/// The colour of a module under a mask.
pub open spec fn masked_at(c: Canvas, mask: int, x: int, y: int) -> bool {
    c.at(x, y) != (mask_inverts(mask, x, y) && !c.fun(x, y))
}

/// The canvas with a mask applied.
pub open spec fn masked(c: Canvas, size: int, mask: int) -> Canvas {
    Canvas::from_fn(
        size,
        |x: int, y: int| masked_at(c, mask, x, y),
        |x: int, y: int| c.fun(x, y),
    )
}

/// The canvas with a mask applied to the rows above `row` and to the
/// modules of that row left of `col`.
pub open spec fn masked_upto(c: Canvas, size: int, mask: int, row: int, col: int) -> Canvas {
    Canvas::from_fn(
        size,
        |x: int, y: int|
            if y < row || (y == row && x < col) {
                masked_at(c, mask, x, y)
            } else {
                c.at(x, y)
            },
        |x: int, y: int| c.fun(x, y),
    )
}

/// Applying one mask twice gives back the canvas as it was.
pub proof fn lemma_mask_involution(c: Canvas, size: int, mask: int)
    requires
        c.wf(size),
    ensures
        masked(masked(c, size, mask), size, mask) == c,
{
    Canvas::lemma_ext(masked(masked(c, size, mask), size, mask), c, size);
}

impl Grid {
    /// Applies the given mask to the grid. Applied again, it undoes itself.
    pub fn apply_mask(&mut self, mask: Mask)
        requires
            old(self).wf(),
        ensures
            final(self).wf(),
            final(self).spec_size() == old(self).spec_size(),
            final(self)@ == masked(old(self)@, old(self).spec_size(), mask.spec_value()),
    {
        let size: i32 = self.size();
        let m: u8 = mask.value();
        let ghost c0 = self@;
        let ghost n = size as int;
        proof {
            self.lemma_view_wf();
            Canvas::lemma_ext(self@, masked_upto(c0, n, m as int, 0, 0), n);
        }
        for y in 0..size
            invariant
                self.wf(),
                self.spec_size() == size,
                n == size,
                1 <= size <= 177,
                m == mask.spec_value(),
                m <= 7,
                c0.wf(n),
                self@ == masked_upto(c0, n, m as int, y as int, 0),
        {
            for x in 0..size
                invariant
                    self.wf(),
                    self.spec_size() == size,
                    n == size,
                    1 <= size <= 177,
                    0 <= y < size,
                    m == mask.spec_value(),
                    m <= 7,
                    c0.wf(n),
                    self@ == masked_upto(c0, n, m as int, y as int, x as int),
            {
                assert(0 <= x * y <= 176 * 176) by (nonlinear_arith)
                    requires
                        0 <= x <= 176,
                        0 <= y <= 176,
                ;
                let invert: bool = if m == 0 {
                    (x + y) % 2 == 0
                } else if m == 1 {
                    y % 2 == 0
                } else if m == 2 {
                    x % 3 == 0
                } else if m == 3 {
                    (x + y) % 3 == 0
                } else if m == 4 {
                    (x / 3 + y / 2) % 2 == 0
                } else if m == 5 {
                    (x * y) % 2 + (x * y) % 3 == 0
                } else if m == 6 {
                    ((x * y) % 2 + (x * y) % 3) % 2 == 0
                } else {
                    ((x + y) % 2 + (x * y) % 3) % 2 == 0
                };
                assert(invert == mask_inverts(m as int, x as int, y as int));
                let flip: bool = invert && !self.is_function(x, y);
                let before: bool = self.module(x, y);
                self.set_module(x, y, before != flip);
                proof {
                    self.lemma_view_wf();
                    Canvas::lemma_ext(self@, masked_upto(c0, n, m as int, y as int, x + 1), n);
                }
            }
            proof {
                Canvas::lemma_ext(self@, masked_upto(c0, n, m as int, y + 1, 0), n);
            }
        }
        proof {
            Canvas::lemma_ext(self@, masked(c0, n, m as int), n);
        }
    }
}

} // verus!
