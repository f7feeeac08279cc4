//! The function patterns of a symbol: timing strips, finder patterns,
//! alignment patterns, format information and version information.
//!
//! Each pattern is stated as a layer painted over a canvas: inside the
//! pattern's region a module takes the pattern's colour and becomes a
//! function module, outside it the canvas stays as it was.

use vstd::prelude::*;
use crate::grid::{Canvas, Grid};
use crate::tables::symbol_size;
use crate::types::{bit_is_set, get_bit, Mask, QrCodeEcc, Version};

verus! {

/// The distance of a module from a centre, as the larger of the two
/// coordinate distances.
pub open spec fn ring(dx: int, dy: int) -> int {
    let ax = if dx < 0 {
        -dx
    } else {
        dx
    };
    let ay = if dy < 0 {
        -dy
    } else {
        dy
    };
    if ax < ay {
        ay
    } else {
        ax
    }
}

/// The timing strips: column 6 and row 6.
pub open spec fn in_timing(x: int, y: int) -> bool {
    x == 6 || y == 6
}

/// Along a timing strip every second module is dark, beginning with a dark one.
pub open spec fn timing_dark(x: int, y: int) -> bool {
    if x == 6 {
        y % 2 == 0
    } else {
        x % 2 == 0
    }
}

/// The canvas with the timing strips drawn.
pub open spec fn with_timing(c: Canvas, size: int) -> Canvas {
    Canvas::from_fn(
        size,
        |x: int, y: int|
            if in_timing(x, y) {
                timing_dark(x, y)
            } else {
                c.at(x, y)
            },
        |x: int, y: int| in_timing(x, y) || c.fun(x, y),
    )
}

/// The timing strips as far as they are drawn after `n` steps.
pub open spec fn timing_upto(c: Canvas, size: int, n: int) -> Canvas {
    Canvas::from_fn(
        size,
        |x: int, y: int|
            if (x == 6 && y < n) || (y == 6 && x < n) {
                timing_dark(x, y)
            } else {
                c.at(x, y)
            },
        |x: int, y: int| (x == 6 && y < n) || (y == 6 && x < n) || c.fun(x, y),
    )
}

/// A finder pattern with its separator: the nine by nine square round the centre.
pub open spec fn in_finder(cx: int, cy: int, x: int, y: int) -> bool {
    ring(x - cx, y - cy) <= 4
}

/// A finder pattern is a dark three by three core, a light ring, a dark
/// ring, and the light separator.
pub open spec fn finder_dark(cx: int, cy: int, x: int, y: int) -> bool {
    ring(x - cx, y - cy) != 2 && ring(x - cx, y - cy) != 4
}

/// The canvas with a finder pattern drawn round the given centre.
pub open spec fn with_finder(c: Canvas, size: int, cx: int, cy: int) -> Canvas {
    Canvas::from_fn(
        size,
        |x: int, y: int|
            if in_finder(cx, cy, x, y) {
                finder_dark(cx, cy, x, y)
            } else {
                c.at(x, y)
            },
        |x: int, y: int| in_finder(cx, cy, x, y) || c.fun(x, y),
    )
}

/// Whether a module of a square region has been reached when the region
/// is walked row by row and the walk stands at offset `dx` in row `dy`.
pub open spec fn walked(cx: int, cy: int, dy: int, dx: int, x: int, y: int) -> bool {
    y - cy < dy || (y - cy == dy && x - cx < dx)
}

/// A finder pattern as far as it is drawn when the walk stands at offset
/// `dx` in row `dy`.
pub open spec fn finder_upto(c: Canvas, size: int, cx: int, cy: int, dy: int, dx: int) -> Canvas {
    Canvas::from_fn(
        size,
        |x: int, y: int|
            if in_finder(cx, cy, x, y) && walked(cx, cy, dy, dx, x, y) {
                finder_dark(cx, cy, x, y)
            } else {
                c.at(x, y)
            },
        |x: int, y: int| (in_finder(cx, cy, x, y) && walked(cx, cy, dy, dx, x, y)) || c.fun(x, y),
    )
}

/// An alignment pattern: the five by five square round the centre.
pub open spec fn in_alignment(cx: int, cy: int, x: int, y: int) -> bool {
    ring(x - cx, y - cy) <= 2
}

/// An alignment pattern is a dark centre, a light ring and a dark ring.
pub open spec fn alignment_dark(cx: int, cy: int, x: int, y: int) -> bool {
    ring(x - cx, y - cy) != 1
}

/// The canvas with an alignment pattern drawn round the given centre.
pub open spec fn with_alignment(c: Canvas, size: int, cx: int, cy: int) -> Canvas {
    Canvas::from_fn(
        size,
        |x: int, y: int|
            if in_alignment(cx, cy, x, y) {
                alignment_dark(cx, cy, x, y)
            } else {
                c.at(x, y)
            },
        |x: int, y: int| in_alignment(cx, cy, x, y) || c.fun(x, y),
    )
}

/// An alignment pattern as far as it is drawn when the walk stands at
/// offset `dx` in row `dy`.
pub open spec fn alignment_upto(
    c: Canvas,
    size: int,
    cx: int,
    cy: int,
    dy: int,
    dx: int,
) -> Canvas {
    Canvas::from_fn(
        size,
        |x: int, y: int|
            if in_alignment(cx, cy, x, y) && walked(cx, cy, dy, dx, x, y) {
                alignment_dark(cx, cy, x, y)
            } else {
                c.at(x, y)
            },
        |x: int, y: int|
            (in_alignment(cx, cy, x, y) && walked(cx, cy, dy, dx, x, y)) || c.fun(x, y),
    )
}

impl Grid {
    /// Draws the two timing strips.
    pub fn draw_timing_patterns(&mut self)
        requires
            old(self).wf(),
            old(self).spec_size() >= 7,
        ensures
            final(self).wf(),
            final(self).spec_size() == old(self).spec_size(),
            final(self)@ == with_timing(old(self)@, old(self).spec_size()),
    {
        let size: i32 = self.size();
        let ghost c0 = self@;
        proof {
            self.lemma_view_wf();
            Canvas::lemma_ext(self@, timing_upto(c0, size as int, 0), size as int);
        }
        for i in 0..size
            invariant
                self.wf(),
                self.spec_size() == size,
                7 <= size <= 177,
                c0.wf(size as int),
                self@ == timing_upto(c0, size as int, i as int),
        {
            self.set_function_module(6, i, i % 2 == 0);
            self.set_function_module(i, 6, i % 2 == 0);
            proof {
                self.lemma_view_wf();
                Canvas::lemma_ext(self@, timing_upto(c0, size as int, i + 1), size as int);
            }
        }
        proof {
            Canvas::lemma_ext(self@, with_timing(c0, size as int), size as int);
        }
    }

    /// Draws a finder pattern with its separator round the given centre;
    /// what falls outside the grid is left out.
    pub fn draw_finder_pattern(&mut self, x: i32, y: i32)
        requires
            old(self).wf(),
            0 <= x < old(self).spec_size(),
            0 <= y < old(self).spec_size(),
        ensures
            final(self).wf(),
            final(self).spec_size() == old(self).spec_size(),
            final(self)@ == with_finder(old(self)@, old(self).spec_size(), x as int, y as int),
    {
        let size: i32 = self.size();
        let ghost c0 = self@;
        proof {
            self.lemma_view_wf();
            Canvas::lemma_ext(
                self@,
                finder_upto(c0, size as int, x as int, y as int, -4, -4),
                size as int,
            );
        }
        let mut dy: i32 = -4;
        while dy <= 4
            invariant
                self.wf(),
                self.spec_size() == size,
                1 <= size <= 177,
                0 <= x < size,
                0 <= y < size,
                c0.wf(size as int),
                -4 <= dy <= 5,
                self@ == finder_upto(c0, size as int, x as int, y as int, dy as int, -4),
            decreases 5 - dy,
        {
            let mut dx: i32 = -4;
            while dx <= 4
                invariant
                    self.wf(),
                    self.spec_size() == size,
                    1 <= size <= 177,
                    0 <= x < size,
                    0 <= y < size,
                    c0.wf(size as int),
                    -4 <= dy <= 4,
                    -4 <= dx <= 5,
                    self@ == finder_upto(c0, size as int, x as int, y as int, dy as int, dx as int),
                decreases 5 - dx,
            {
                let xx: i32 = x + dx;
                let yy: i32 = y + dy;
                if 0 <= xx && xx < size && 0 <= yy && yy < size {
                    let ax: i32 = if dx < 0 {
                        -dx
                    } else {
                        dx
                    };
                    let ay: i32 = if dy < 0 {
                        -dy
                    } else {
                        dy
                    };
                    let dist: i32 = if ax < ay {
                        ay
                    } else {
                        ax
                    };
                    self.set_function_module(xx, yy, dist != 2 && dist != 4);
                }
                dx += 1;
                proof {
                    self.lemma_view_wf();
                    Canvas::lemma_ext(
                        self@,
                        finder_upto(c0, size as int, x as int, y as int, dy as int, dx as int),
                        size as int,
                    );
                }
            }
            dy += 1;
            proof {
                Canvas::lemma_ext(
                    self@,
                    finder_upto(c0, size as int, x as int, y as int, dy as int, -4),
                    size as int,
                );
            }
        }
        proof {
            Canvas::lemma_ext(
                self@,
                with_finder(c0, size as int, x as int, y as int),
                size as int,
            );
        }
    }

    /// Draws an alignment pattern round the given centre, which must lie
    /// at least two modules inside the grid.
    pub fn draw_alignment_pattern(&mut self, x: i32, y: i32)
        requires
            old(self).wf(),
            2 <= x < old(self).spec_size() - 2,
            2 <= y < old(self).spec_size() - 2,
        ensures
            final(self).wf(),
            final(self).spec_size() == old(self).spec_size(),
            final(self)@ == with_alignment(old(self)@, old(self).spec_size(), x as int, y as int),
    {
        let size: i32 = self.size();
        let ghost c0 = self@;
        proof {
            self.lemma_view_wf();
            Canvas::lemma_ext(
                self@,
                alignment_upto(c0, size as int, x as int, y as int, -2, -2),
                size as int,
            );
        }
        let mut dy: i32 = -2;
        while dy <= 2
            invariant
                self.wf(),
                self.spec_size() == size,
                1 <= size <= 177,
                2 <= x < size - 2,
                2 <= y < size - 2,
                c0.wf(size as int),
                -2 <= dy <= 3,
                self@ == alignment_upto(c0, size as int, x as int, y as int, dy as int, -2),
            decreases 3 - dy,
        {
            let mut dx: i32 = -2;
            while dx <= 2
                invariant
                    self.wf(),
                    self.spec_size() == size,
                    1 <= size <= 177,
                    2 <= x < size - 2,
                    2 <= y < size - 2,
                    c0.wf(size as int),
                    -2 <= dy <= 2,
                    -2 <= dx <= 3,
                    self@ == alignment_upto(
                        c0,
                        size as int,
                        x as int,
                        y as int,
                        dy as int,
                        dx as int,
                    ),
                decreases 3 - dx,
            {
                let ax: i32 = if dx < 0 {
                    -dx
                } else {
                    dx
                };
                let ay: i32 = if dy < 0 {
                    -dy
                } else {
                    dy
                };
                let dist: i32 = if ax < ay {
                    ay
                } else {
                    ax
                };
                self.set_function_module(x + dx, y + dy, dist != 1);
                dx += 1;
                proof {
                    self.lemma_view_wf();
                    Canvas::lemma_ext(
                        self@,
                        alignment_upto(c0, size as int, x as int, y as int, dy as int, dx as int),
                        size as int,
                    );
                }
            }
            dy += 1;
            proof {
                Canvas::lemma_ext(
                    self@,
                    alignment_upto(c0, size as int, x as int, y as int, dy as int, -2),
                    size as int,
                );
            }
        }
        proof {
            Canvas::lemma_ext(
                self@,
                with_alignment(c0, size as int, x as int, y as int),
                size as int,
            );
        }
    }
}

/// One step of the division by which a checksum is made: the remainder
/// moves up by one bit and, where its top bit was set, the generator is
/// taken off.
pub open spec fn bch_step(rem: u32, generator: u32, degree: u32) -> u32 {
    if (rem >> ((degree - 1) as u32)) & 1u32 != 0 {
        (rem << 1u32) ^ generator
    } else {
        rem << 1u32
    }
}

/// The remainder after `n` steps of the division, beginning with the data.
pub open spec fn bch_remainder(data: u32, generator: u32, degree: u32, n: nat) -> u32
    decreases n,
{
    if n == 0 {
        data
    } else {
        bch_step(bch_remainder(data, generator, degree, (n - 1) as nat), generator, degree)
    }
}

/// The five data bits of the format information: the level's code above the mask number.
pub open spec fn format_data(ecl: QrCodeEcc, mask: int) -> u32 {
    ((ecl.spec_format_bits() as u32) << 3u32) | (mask as u32)
}

/// The fifteen bits of format information for a level and a mask: the
/// data bits above their ten checksum bits (generator 0x537), the whole
/// masked with 0x5412.
pub open spec fn format_word(ecl: QrCodeEcc, mask: int) -> u32 {
    let data = format_data(ecl, mask);
    ((data << 10u32) | bch_remainder(data, 0x537, 10, 10)) ^ 0x5412u32
}

/// The eighteen bits of version information: the version number above
/// its twelve checksum bits (generator 0x1F25).
pub open spec fn version_word(ver: int) -> u32 {
    let data = ver as u32;
    (data << 12u32) | bch_remainder(data, 0x1F25, 12, 12)
}

/// The place of a module in the order in which the format information
/// is drawn, or -1 for a module outside it. Places 0 to 14 show the bits
/// of the first copy round the top left finder pattern, places 15 to 29
/// the bits of the second copy beside the other two, and place 30 is the
/// module that is always dark.
pub open spec fn format_cell(size: int, x: int, y: int) -> int {
    if x == 8 && 0 <= y <= 5 {
        y
    } else if x == 8 && y == 7 {
        6
    } else if x == 8 && y == 8 {
        7
    } else if x == 7 && y == 8 {
        8
    } else if y == 8 && 0 <= x <= 5 {
        14 - x
    } else if y == 8 && size - 8 <= x < size {
        15 + (size - 1 - x)
    } else if x == 8 && size - 7 <= y < size {
        15 + (y - (size - 15))
    } else if x == 8 && y == size - 8 {
        30
    } else {
        -1
    }
}

/// The colour of the format module at a place of the drawing order.
pub open spec fn format_dark(word: u32, place: int) -> bool {
    place == 30 || bit_is_set(word, place % 15)
}

/// The format information as far as it is drawn after `n` modules.
pub open spec fn format_upto(c: Canvas, size: int, word: u32, n: int) -> Canvas {
    Canvas::from_fn(
        size,
        |x: int, y: int|
            if 0 <= format_cell(size, x, y) < n {
                format_dark(word, format_cell(size, x, y))
            } else {
                c.at(x, y)
            },
        |x: int, y: int| 0 <= format_cell(size, x, y) < n || c.fun(x, y),
    )
}

/// The canvas with both copies of a format word drawn.
pub open spec fn with_format(c: Canvas, size: int, word: u32) -> Canvas {
    format_upto(c, size, word, 31)
}

/// The bit of the version word that a module shows, or -1 for a module
/// outside the two version areas: the six by three block left of the top
/// right finder pattern and its mirror image above the bottom left one.
pub open spec fn version_cell(size: int, x: int, y: int) -> int {
    if size - 11 <= x <= size - 9 && 0 <= y <= 5 {
        y * 3 + (x - (size - 11))
    } else if 0 <= x <= 5 && size - 11 <= y <= size - 9 {
        x * 3 + (y - (size - 11))
    } else {
        -1
    }
}

/// Bit `i` of the version word is shown by two modules, each the mirror
/// image of the other.
pub proof fn lemma_version_cell(size: int, x: int, y: int, i: int)
    requires
        size >= 45,
        0 <= i < 18,
        0 <= x < size,
        0 <= y < size,
    ensures
        version_cell(size, x, y) == i <==> ((x == size - 11 + i % 3 && y == i / 3) || (x == i / 3
            && y == size - 11 + i % 3)),
{
}

/// Drawing the two modules of bit `i` carries the version information
/// from `i` bits to `i + 1`.
pub proof fn lemma_version_step(c: Canvas, size: int, word: u32, i: int)
    requires
        c.wf(size),
        size >= 45,
        0 <= i < 18,
    ensures
        version_upto(c, size, word, i).with_function(
            size - 11 + i % 3,
            i / 3,
            bit_is_set(word, i),
        ).with_function(i / 3, size - 11 + i % 3, bit_is_set(word, i)) == version_upto(
            c,
            size,
            word,
            i + 1,
        ),
{
    let a = size - 11 + i % 3;
    let b = i / 3;
    let bit = bit_is_set(word, i);
    let before = version_upto(c, size, word, i);
    let drawn = before.with_function(a, b, bit).with_function(b, a, bit);
    let after = version_upto(c, size, word, i + 1);
    assert forall|x: int, y: int| 0 <= x < size && 0 <= y < size implies #[trigger] drawn.at(x, y)
        == after.at(x, y) && #[trigger] drawn.fun(x, y) == after.fun(x, y) by {
        lemma_version_cell(size, x, y, i);
    }
    Canvas::lemma_ext(drawn, after, size);
}

/// The version information as far as it is drawn after `n` bits.
pub open spec fn version_upto(c: Canvas, size: int, word: u32, n: int) -> Canvas {
    Canvas::from_fn(
        size,
        |x: int, y: int|
            if 0 <= version_cell(size, x, y) < n {
                bit_is_set(word, version_cell(size, x, y))
            } else {
                c.at(x, y)
            },
        |x: int, y: int| 0 <= version_cell(size, x, y) < n || c.fun(x, y),
    )
}

/// The canvas with the version information drawn; versions below 7 carry none.
pub open spec fn with_version(c: Canvas, size: int, ver: int) -> Canvas {
    if ver < 7 {
        c
    } else {
        version_upto(c, size, version_word(ver), 18)
    }
}

/// The distance between neighbouring alignment coordinates, but for the first.
pub open spec fn alignment_step(ver: int) -> int {
    let numalign = ver / 7 + 2;
    (ver * 8 + numalign * 3 + 5) / (numalign * 4 - 4) * 2
}

/// The coordinates at which alignment patterns are centred, in rising
/// order; the same for columns and rows. Version 1 has none. The first
/// is 6, the last is seven modules from the far edge, and those between
/// lie one step apart, counted from the last.
pub open spec fn alignment_positions(ver: int) -> Seq<int> {
    if ver == 1 {
        Seq::empty()
    } else {
        let numalign = ver / 7 + 2;
        Seq::new(
            numalign as nat,
            |k: int|
                if k == 0 {
                    6
                } else {
                    symbol_size(ver) - 7 - (numalign - 1 - k) * alignment_step(ver)
                },
        )
    }
}

/// Whether there is no alignment pattern at crossing `i`, `j` of `n`
/// coordinates, because a finder pattern stands there.
pub open spec fn under_finder(i: int, j: int, n: int) -> bool {
    (i == 0 && j == 0) || (i == 0 && j == n - 1) || (i == n - 1 && j == 0)
}

/// The canvas with the first `n` alignment patterns of column coordinate `i` drawn.
pub open spec fn with_alignment_line(c: Canvas, size: int, pos: Seq<int>, i: int, n: nat) -> Canvas
    decreases n,
{
    if n == 0 {
        c
    } else {
        let before = with_alignment_line(c, size, pos, i, (n - 1) as nat);
        if under_finder(i, n - 1, pos.len() as int) {
            before
        } else {
            with_alignment(before, size, pos[i], pos[n - 1])
        }
    }
}

/// The canvas with the alignment patterns of the first `n` column coordinates drawn.
pub open spec fn with_alignment_lines(c: Canvas, size: int, pos: Seq<int>, n: nat) -> Canvas
    decreases n,
{
    if n == 0 {
        c
    } else {
        with_alignment_line(
            with_alignment_lines(c, size, pos, (n - 1) as nat),
            size,
            pos,
            n - 1,
            pos.len(),
        )
    }
}

/// The canvas with all alignment patterns of a version drawn: one at
/// each crossing of two alignment coordinates where no finder pattern stands.
pub open spec fn with_alignments(c: Canvas, size: int, ver: int) -> Canvas {
    let pos = alignment_positions(ver);
    with_alignment_lines(c, size, pos, pos.len())
}

/// All function patterns of a symbol, drawn one over another on a blank
/// canvas: timing strips, the three finder patterns, the alignment
/// patterns, the format information of mask 0 and the version information.
pub open spec fn function_patterns(ver: int, ecl: QrCodeEcc) -> Canvas {
    let size = symbol_size(ver);
    let timing = with_timing(Canvas::blank(size), size);
    let finders = with_finder(
        with_finder(with_finder(timing, size, 3, 3), size, size - 4, 3),
        size,
        3,
        size - 4,
    );
    let aligned = with_alignments(finders, size, ver);
    with_version(with_format(aligned, size, format_word(ecl, 0)), size, ver)
}

/// What holds of the alignment coordinates of one version.
pub open spec fn alignment_facts(ver: int) -> bool {
    let numalign = ver / 7 + 2;
    &&& 12 <= alignment_step(ver) <= 28
    &&& symbol_size(ver) - 7 - (numalign - 2) * alignment_step(ver) >= 18
}

/// Every alignment coordinate lies between 6 and seven modules from the far edge.
pub proof fn lemma_alignment_positions(ver: int, k: int)
    requires
        2 <= ver <= 40,
        0 <= k < ver / 7 + 2,
    ensures
        alignment_positions(ver).len() == ver / 7 + 2,
        6 <= alignment_positions(ver)[k] <= symbol_size(ver) - 7,
        12 <= alignment_step(ver) <= 28,
{
    lemma_alignment_facts(ver);
    let numalign = ver / 7 + 2;
    let step = alignment_step(ver);
    if k >= 1 {
        assert(0 <= (numalign - 1 - k) * step <= (numalign - 2) * step) by (nonlinear_arith)
            requires
                1 <= k <= numalign - 1,
                0 <= step,
        ;
    }
}

/// The alignment coordinates of every version from 2 on keep their distance.
pub proof fn lemma_alignment_facts(ver: int)
    requires
        2 <= ver <= 40,
    ensures
        alignment_facts(ver),
{
    assert(alignment_facts(2)) by (nonlinear_arith);
    assert(alignment_facts(3)) by (nonlinear_arith);
    assert(alignment_facts(4)) by (nonlinear_arith);
    assert(alignment_facts(5)) by (nonlinear_arith);
    assert(alignment_facts(6)) by (nonlinear_arith);
    assert(alignment_facts(7)) by (nonlinear_arith);
    assert(alignment_facts(8)) by (nonlinear_arith);
    assert(alignment_facts(9)) by (nonlinear_arith);
    assert(alignment_facts(10)) by (nonlinear_arith);
    assert(alignment_facts(11)) by (nonlinear_arith);
    assert(alignment_facts(12)) by (nonlinear_arith);
    assert(alignment_facts(13)) by (nonlinear_arith);
    assert(alignment_facts(14)) by (nonlinear_arith);
    assert(alignment_facts(15)) by (nonlinear_arith);
    assert(alignment_facts(16)) by (nonlinear_arith);
    assert(alignment_facts(17)) by (nonlinear_arith);
    assert(alignment_facts(18)) by (nonlinear_arith);
    assert(alignment_facts(19)) by (nonlinear_arith);
    assert(alignment_facts(20)) by (nonlinear_arith);
    assert(alignment_facts(21)) by (nonlinear_arith);
    assert(alignment_facts(22)) by (nonlinear_arith);
    assert(alignment_facts(23)) by (nonlinear_arith);
    assert(alignment_facts(24)) by (nonlinear_arith);
    assert(alignment_facts(25)) by (nonlinear_arith);
    assert(alignment_facts(26)) by (nonlinear_arith);
    assert(alignment_facts(27)) by (nonlinear_arith);
    assert(alignment_facts(28)) by (nonlinear_arith);
    assert(alignment_facts(29)) by (nonlinear_arith);
    assert(alignment_facts(30)) by (nonlinear_arith);
    assert(alignment_facts(31)) by (nonlinear_arith);
    assert(alignment_facts(32)) by (nonlinear_arith);
    assert(alignment_facts(33)) by (nonlinear_arith);
    assert(alignment_facts(34)) by (nonlinear_arith);
    assert(alignment_facts(35)) by (nonlinear_arith);
    assert(alignment_facts(36)) by (nonlinear_arith);
    assert(alignment_facts(37)) by (nonlinear_arith);
    assert(alignment_facts(38)) by (nonlinear_arith);
    assert(alignment_facts(39)) by (nonlinear_arith);
    assert(alignment_facts(40)) by (nonlinear_arith);
}

/// Returns the fifteen bits of format information for a level and a mask.
pub fn format_bits_of(ecl: QrCodeEcc, mask: Mask) -> (bits: u32)
    ensures
        bits == format_word(ecl, mask.spec_value()),
{
    let data: u32 = ((ecl.format_bits() as u32) << 3u32) | (mask.value() as u32);
    let mut rem: u32 = data;
    for n in 0..10u32
        invariant
            rem == bch_remainder(data, 0x537, 10, n as nat),
    {
        rem = if (rem >> 9u32) & 1u32 != 0 {
            (rem << 1u32) ^ 0x537u32
        } else {
            rem << 1u32
        };
    }
    ((data << 10u32) | rem) ^ 0x5412u32
}

/// Returns the eighteen bits of version information for a version.
pub fn version_bits_of(ver: Version) -> (bits: u32)
    ensures
        bits == version_word(ver.spec_value()),
{
    let data: u32 = ver.value() as u32;
    let mut rem: u32 = data;
    for n in 0..12u32
        invariant
            rem == bch_remainder(data, 0x1F25, 12, n as nat),
    {
        rem = if (rem >> 11u32) & 1u32 != 0 {
            (rem << 1u32) ^ 0x1F25u32
        } else {
            rem << 1u32
        };
    }
    (data << 12u32) | rem
}

/// Returns the coordinates at which the alignment patterns of a version are centred.
pub fn get_alignment_pattern_positions(ver: Version) -> (result: Vec<i32>)
    ensures
        result@.len() == alignment_positions(ver.spec_value()).len(),
        forall|k: int|
            0 <= k < result@.len() ==> #[trigger] result@[k] == alignment_positions(
                ver.spec_value(),
            )[k],
{
    let v: i32 = ver.value() as i32;
    let mut result: Vec<i32> = Vec::new();
    if v == 1 {
        return result;
    }
    let size: i32 = v * 4 + 17;
    let numalign: i32 = v / 7 + 2;
    let step: i32 = (v * 8 + numalign * 3 + 5) / (numalign * 4 - 4) * 2;
    proof {
        lemma_alignment_positions(v as int, 0);
    }
    result.push(6);
    let mut k: i32 = 1;
    while k < numalign
        invariant
            2 <= v <= 40,
            v == ver.spec_value(),
            size == symbol_size(v as int),
            numalign == v / 7 + 2,
            step == alignment_step(v as int),
            1 <= k <= numalign,
            result@.len() == k,
            forall|j: int|
                0 <= j < k ==> #[trigger] result@[j] == alignment_positions(v as int)[j],
        decreases numalign - k,
    {
        proof {
            lemma_alignment_positions(v as int, k as int);
            assert(0 <= (numalign - 1 - k) * step <= 6 * 28) by (nonlinear_arith)
                requires
                    0 <= numalign - 1 - k <= 6,
                    0 <= step <= 28,
            ;
        }
        result.push(size - 7 - (numalign - 1 - k) * step);
        k += 1;
    }
    result
}

impl Grid {
    /// Draws both copies of the format information for a level and a mask,
    /// and the module beside them that is always dark.
    pub fn draw_format_bits(&mut self, ecl: QrCodeEcc, mask: Mask)
        requires
            old(self).wf(),
            old(self).spec_size() >= 21,
        ensures
            final(self).wf(),
            final(self).spec_size() == old(self).spec_size(),
            final(self)@ == with_format(
                old(self)@,
                old(self).spec_size(),
                format_word(ecl, mask.spec_value()),
            ),
    {
        let bits: u32 = format_bits_of(ecl, mask);
        let size: i32 = self.size();
        let ghost c0 = self@;
        let ghost n = size as int;
        proof {
            self.lemma_view_wf();
            Canvas::lemma_ext(self@, format_upto(c0, n, bits, 0), n);
        }

        // First copy, round the top left finder pattern.
        for i in 0..6i32
            invariant
                self.wf(),
                self.spec_size() == size,
                n == size,
                21 <= size <= 177,
                c0.wf(n),
                self@ == format_upto(c0, n, bits, i as int),
        {
            self.set_function_module(8, i, get_bit(bits, i));
            proof {
                self.lemma_view_wf();
                Canvas::lemma_ext(self@, format_upto(c0, n, bits, i + 1), n);
            }
        }
        self.set_function_module(8, 7, get_bit(bits, 6));
        proof {
            self.lemma_view_wf();
            Canvas::lemma_ext(self@, format_upto(c0, n, bits, 7), n);
        }
        self.set_function_module(8, 8, get_bit(bits, 7));
        proof {
            self.lemma_view_wf();
            Canvas::lemma_ext(self@, format_upto(c0, n, bits, 8), n);
        }
        self.set_function_module(7, 8, get_bit(bits, 8));
        proof {
            self.lemma_view_wf();
            Canvas::lemma_ext(self@, format_upto(c0, n, bits, 9), n);
        }
        for i in 9..15i32
            invariant
                self.wf(),
                self.spec_size() == size,
                n == size,
                21 <= size <= 177,
                c0.wf(n),
                self@ == format_upto(c0, n, bits, i as int),
        {
            self.set_function_module(14 - i, 8, get_bit(bits, i));
            proof {
                self.lemma_view_wf();
                Canvas::lemma_ext(self@, format_upto(c0, n, bits, i + 1), n);
            }
        }

        // Second copy, beside the other two finder patterns.
        for i in 0..8i32
            invariant
                self.wf(),
                self.spec_size() == size,
                n == size,
                21 <= size <= 177,
                c0.wf(n),
                self@ == format_upto(c0, n, bits, 15 + i as int),
        {
            self.set_function_module(size - 1 - i, 8, get_bit(bits, i));
            proof {
                self.lemma_view_wf();
                Canvas::lemma_ext(self@, format_upto(c0, n, bits, 15 + i + 1), n);
            }
        }
        for i in 8..15i32
            invariant
                self.wf(),
                self.spec_size() == size,
                n == size,
                21 <= size <= 177,
                c0.wf(n),
                self@ == format_upto(c0, n, bits, 15 + i as int),
        {
            self.set_function_module(8, size - 15 + i, get_bit(bits, i));
            proof {
                self.lemma_view_wf();
                Canvas::lemma_ext(self@, format_upto(c0, n, bits, 15 + i + 1), n);
            }
        }
        self.set_function_module(8, size - 8, true);
        proof {
            self.lemma_view_wf();
            Canvas::lemma_ext(self@, format_upto(c0, n, bits, 31), n);
        }
    }

    /// Draws both copies of the version information, where the version carries any.
    pub fn draw_version(&mut self, ver: Version)
        requires
            old(self).wf(),
            old(self).spec_size() == symbol_size(ver.spec_value()),
        ensures
            final(self).wf(),
            final(self).spec_size() == old(self).spec_size(),
            final(self)@ == with_version(old(self)@, old(self).spec_size(), ver.spec_value()),
    {
        if ver.value() < 7 {
            return ;
        }
        let bits: u32 = version_bits_of(ver);
        let size: i32 = self.size();
        let ghost c0 = self@;
        let ghost n = size as int;
        proof {
            self.lemma_view_wf();
            Canvas::lemma_ext(self@, version_upto(c0, n, bits, 0), n);
        }
        for i in 0..18i32
            invariant
                self.wf(),
                self.spec_size() == size,
                n == size,
                45 <= size <= 177,
                c0.wf(n),
                self@ == version_upto(c0, n, bits, i as int),
        {
            let bit: bool = get_bit(bits, i);
            let a: i32 = size - 11 + i % 3;
            let b: i32 = i / 3;
            proof {
                lemma_version_step(c0, n, bits, i as int);
            }
            self.set_function_module(a, b, bit);
            self.set_function_module(b, a, bit);
        }
    }

    /// Draws all function patterns of a symbol of the given version and level.
    pub fn draw_function_patterns(&mut self, ver: Version, ecl: QrCodeEcc)
        requires
            old(self).wf(),
            old(self).spec_size() == symbol_size(ver.spec_value()),
            old(self)@ == Canvas::blank(old(self).spec_size()),
        ensures
            final(self).wf(),
            final(self).spec_size() == old(self).spec_size(),
            final(self)@ == function_patterns(ver.spec_value(), ecl),
    {
        let v: u8 = ver.value();
        let size: i32 = self.size();
        self.draw_timing_patterns();
        self.draw_finder_pattern(3, 3);
        self.draw_finder_pattern(size - 4, 3);
        self.draw_finder_pattern(3, size - 4);

        let alignpatpos: Vec<i32> = get_alignment_pattern_positions(ver);
        let numalign: usize = alignpatpos.len();
        let ghost pos = alignment_positions(v as int);
        let ghost c0 = self@;
        let ghost n = size as int;
        for i in 0..numalign
            invariant
                self.wf(),
                self.spec_size() == size,
                n == size,
                size == symbol_size(v as int),
                1 <= v <= 40,
                pos == alignment_positions(v as int),
                numalign == pos.len(),
                alignpatpos@.len() == numalign,
                forall|k: int| 0 <= k < numalign ==> #[trigger] alignpatpos@[k] == pos[k],
                self@ == with_alignment_lines(c0, n, pos, i as nat),
        {
            let ghost c1 = self@;
            for j in 0..numalign
                invariant
                    self.wf(),
                    self.spec_size() == size,
                    n == size,
                    size == symbol_size(v as int),
                    1 <= v <= 40,
                    pos == alignment_positions(v as int),
                    numalign == pos.len(),
                    0 <= i < numalign,
                    alignpatpos@.len() == numalign,
                    forall|k: int| 0 <= k < numalign ==> #[trigger] alignpatpos@[k] == pos[k],
                    self@ == with_alignment_line(c1, n, pos, i as int, j as nat),
            {
                if !(i == 0 && j == 0 || i == 0 && j == numalign - 1 || i == numalign - 1 && j
                    == 0) {
                    proof {
                        lemma_alignment_positions(v as int, i as int);
                        lemma_alignment_positions(v as int, j as int);
                    }
                    self.draw_alignment_pattern(alignpatpos[i], alignpatpos[j]);
                }
            }
        }
        self.draw_format_bits(ecl, Mask::new(0));
        self.draw_version(ver);
    }
}

/// The module that shows bit `i` of the format information in its first
/// copy (`copy` 0) or its second (`copy` 1).
pub open spec fn format_place(size: int, copy: int, i: int) -> (int, int) {
    if copy == 0 {
        if i < 6 {
            (8, i)
        } else if i == 6 {
            (8, 7)
        } else if i == 7 {
            (8, 8)
        } else if i == 8 {
            (7, 8)
        } else {
            (14 - i, 8)
        }
    } else {
        if i < 8 {
            (size - 1 - i, 8)
        } else {
            (8, size - 15 + i)
        }
    }
}

/// The number whose bit `i` is set where the `i`th of the first `n` bits is.
pub open spec fn word_of(bits: Seq<bool>, n: nat) -> u32
    decreases n,
{
    if n == 0 {
        0u32
    } else {
        word_of(bits, (n - 1) as nat) | (if bits[n - 1] {
            1u32 << ((n - 1) as u32)
        } else {
            0u32
        })
    }
}

/// The fifteen bits that one copy of the format information shows on a canvas.
pub open spec fn drawn_format_bits(c: Canvas, size: int, copy: int) -> Seq<bool> {
    Seq::new(15, |i: int| c.at(format_place(size, copy, i).0, format_place(size, copy, i).1))
}

/// The format word that one copy of the format information shows on a canvas.
pub open spec fn drawn_format_word(c: Canvas, size: int, copy: int) -> u32 {
    word_of(drawn_format_bits(c, size, copy), 15)
}

/// The level code and the mask number that a format word stands for,
/// where its ten checksum bits are those of its five data bits.
pub open spec fn recovered_format(word: u32) -> Option<(int, int)> {
    let plain = word ^ 0x5412u32;
    let data = plain >> 10u32;
    if bch_remainder(data, 0x537, 10, 10) == plain & 0x3FFu32 {
        Some(((data >> 3u32) as int, (data & 7u32) as int))
    } else {
        None
    }
}

/// The remainder of the checksum division stays below two to the power ten.
pub proof fn lemma_format_remainder_bound(data: u32, n: nat)
    requires
        data < 1024,
    ensures
        bch_remainder(data, 0x537, 10, n) < 1024,
    decreases n,
{
    if n > 0 {
        lemma_format_remainder_bound(data, (n - 1) as nat);
        let r = bch_remainder(data, 0x537, 10, (n - 1) as nat);
        assert(r < 1024 ==> (if (r >> 9u32) & 1u32 != 0 {
            (r << 1u32) ^ 0x537u32
        } else {
            r << 1u32
        }) < 1024) by (bit_vector);
    }
}

/// The first `n` bits of a word, put together again, are the word's `n` lowest bits.
pub proof fn lemma_word_of_bits(w: u32, n: nat)
    requires
        n <= 15,
    ensures
        word_of(Seq::new(15, |i: int| bit_is_set(w, i)), n) == w & (((1u32 << (n as u32)) - 1) as u32),
    decreases n,
{
    let bits = Seq::new(15, |i: int| bit_is_set(w, i));
    if n == 0 {
        assert(w & (((1u32 << 0u32) - 1) as u32) == 0) by (bit_vector);
    } else {
        lemma_word_of_bits(w, (n - 1) as nat);
        let k: u32 = (n - 1) as u32;
        let low = word_of(bits, (n - 1) as nat);
        assert(bits[n - 1] == bit_is_set(w, n - 1));
        assert(k < 15 && low == w & (((1u32 << k) - 1) as u32) ==> (low | (if (w >> k) & 1u32 != 0 {
            1u32 << k
        } else {
            0u32
        })) == w & (((1u32 << ((k + 1) as u32)) - 1) as u32)) by (bit_vector);
    }
}

/// A format word is recovered from itself: taking off the mask 0x5412
/// leaves the level code and the mask number above a checksum that fits them.
pub proof fn lemma_format_word_recovers(ecl: QrCodeEcc, mask: int)
    requires
        0 <= mask < 8,
    ensures
        format_word(ecl, mask) < 32768,
        recovered_format(format_word(ecl, mask)) == Some((ecl.spec_format_bits(), mask)),
{
    let fb: u32 = ecl.spec_format_bits() as u32;
    let m: u32 = mask as u32;
    let data: u32 = format_data(ecl, mask);
    assert(fb <= 3 && m <= 7 ==> ((fb << 3u32) | m) < 32 && ((fb << 3u32) | m) >> 3u32 == fb && ((fb
        << 3u32) | m) & 7u32 == m) by (bit_vector);
    lemma_format_remainder_bound(data, 10);
    let rem: u32 = bch_remainder(data, 0x537, 10, 10);
    assert(data < 32 && rem < 1024 ==> (((data << 10u32) | rem) ^ 0x5412u32) < 32768 && ((((data
        << 10u32) | rem) ^ 0x5412u32) ^ 0x5412u32) >> 10u32 == data && ((((data << 10u32) | rem)
        ^ 0x5412u32) ^ 0x5412u32) & 0x3FFu32 == rem) by (bit_vector);
}

/// Each place of the format information lies inside the symbol and
/// holds its own step of the drawing order.
pub proof fn lemma_format_place(size: int, copy: int, i: int)
    requires
        size >= 21,
        0 <= copy <= 1,
        0 <= i < 15,
    ensures
        0 <= format_place(size, copy, i).0 < size,
        0 <= format_place(size, copy, i).1 < size,
        format_cell(size, format_place(size, copy, i).0, format_place(size, copy, i).1) == 15
            * copy + i,
{
}

/// Both copies of the format information drawn on a canvas show the word
/// that was drawn.
pub proof fn lemma_drawn_format_word(c: Canvas, size: int, word: u32, copy: int)
    requires
        size >= 21,
        0 <= copy <= 1,
        word < 32768,
    ensures
        drawn_format_word(with_format(c, size, word), size, copy) == word,
{
    let drawn = with_format(c, size, word);
    let bits = drawn_format_bits(drawn, size, copy);
    assert forall|i: int| 0 <= i < 15 implies #[trigger] bits[i] == bit_is_set(word, i) by {
        lemma_format_place(size, copy, i);
    }
    assert(bits =~= Seq::new(15, |i: int| bit_is_set(word, i)));
    lemma_word_of_bits(word, 15);
    assert(word < 32768 ==> word & (((1u32 << 15u32) - 1) as u32) == word) by (bit_vector);
}

/// Drawing alignment patterns along one column coordinate keeps the
/// size of the canvas and the function modules that stood before.
pub proof fn lemma_alignment_line_keeps(c: Canvas, size: int, pos: Seq<int>, i: int, n: nat)
    requires
        c.wf(size),
    ensures
        with_alignment_line(c, size, pos, i, n).wf(size),
        forall|x: int, y: int|
            0 <= x < size && 0 <= y < size && c.fun(x, y) ==> #[trigger] with_alignment_line(
                c,
                size,
                pos,
                i,
                n,
            ).fun(x, y),
    decreases n,
{
    if n > 0 {
        lemma_alignment_line_keeps(c, size, pos, i, (n - 1) as nat);
        let before = with_alignment_line(c, size, pos, i, (n - 1) as nat);
        let after = with_alignment_line(c, size, pos, i, n);
        assert forall|x: int, y: int| 0 <= x < size && 0 <= y < size && c.fun(x, y) implies #[trigger] after.fun(
            x,
            y,
        ) by {
            assert(before.fun(x, y));
        }
    }
}

/// Drawing the alignment patterns keeps the size of the canvas and the
/// function modules that stood before.
pub proof fn lemma_alignment_lines_keep(c: Canvas, size: int, pos: Seq<int>, n: nat)
    requires
        c.wf(size),
    ensures
        with_alignment_lines(c, size, pos, n).wf(size),
        forall|x: int, y: int|
            0 <= x < size && 0 <= y < size && c.fun(x, y) ==> #[trigger] with_alignment_lines(
                c,
                size,
                pos,
                n,
            ).fun(x, y),
    decreases n,
{
    if n > 0 {
        lemma_alignment_lines_keep(c, size, pos, (n - 1) as nat);
        let before = with_alignment_lines(c, size, pos, (n - 1) as nat);
        lemma_alignment_line_keeps(before, size, pos, n - 1, pos.len());
        let after = with_alignment_lines(c, size, pos, n);
        assert forall|x: int, y: int| 0 <= x < size && 0 <= y < size && c.fun(x, y) implies #[trigger] after.fun(
            x,
            y,
        ) by {
            assert(before.fun(x, y));
        }
    }
}

/// The function patterns of a symbol fill a square of its size, and the
/// timing strips, the three finder patterns with their separators and
/// the format information are among them.
pub proof fn lemma_function_patterns(ver: int, ecl: QrCodeEcc, x: int, y: int)
    requires
        1 <= ver <= 40,
        0 <= x < symbol_size(ver),
        0 <= y < symbol_size(ver),
    ensures
        function_patterns(ver, ecl).wf(symbol_size(ver)),
        in_timing(x, y) || in_finder(3, 3, x, y) || in_finder(symbol_size(ver) - 4, 3, x, y)
            || in_finder(3, symbol_size(ver) - 4, x, y) || format_cell(symbol_size(ver), x, y)
            >= 0 ==> function_patterns(ver, ecl).fun(x, y),
{
    let size = symbol_size(ver);
    let timing = with_timing(Canvas::blank(size), size);
    let finders = with_finder(
        with_finder(with_finder(timing, size, 3, 3), size, size - 4, 3),
        size,
        3,
        size - 4,
    );
    let pos = alignment_positions(ver);
    lemma_alignment_lines_keep(finders, size, pos, pos.len());
    let aligned = with_alignments(finders, size, ver);
    if in_timing(x, y) || in_finder(3, 3, x, y) || in_finder(size - 4, 3, x, y) || in_finder(
        3,
        size - 4,
        x,
        y,
    ) {
        assert(finders.fun(x, y));
        assert(aligned.fun(x, y));
    }
}

} // verus!
