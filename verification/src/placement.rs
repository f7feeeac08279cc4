//! Placing the codewords into the modules that no function pattern holds.
//!
//! The modules are visited along a zigzag path: column pairs from the
//! right edge to the left, leaving out the column of the vertical timing
//! strip, each pair walked upward and downward by turns, the right
//! module of a row before the left one. The modules along the path that
//! are no function modules take the bits of the codewords in order.

use vstd::prelude::*;
use crate::grid::{Canvas, Grid};
use crate::types::{bit_is_set, get_bit};

verus! {

/// The bits of a sequence of codewords, each byte from its highest bit down.
pub open spec fn codeword_bits(data: Seq<u8>) -> Seq<bool> {
    Seq::new(8 * data.len(), |i: int| bit_is_set(data[i / 8] as u32, 7 - i % 8))
}

/// The right column of the column pair number `p` from the right edge.
pub open spec fn pair_right(size: int, p: int) -> int {
    let right = size - 1 - 2 * p;
    if right <= 6 {
        right - 1
    } else {
        right
    }
}

/// Whether the column pair with the given right column is walked upward.
pub open spec fn walks_upward(right: int) -> bool {
    (right + 1) % 4 < 2
}

/// The column of step `k` in a column pair.
pub open spec fn zigzag_x(right: int, k: int) -> int {
    right - k % 2
}

/// The row of step `k` in a column pair.
pub open spec fn zigzag_y(size: int, right: int, k: int) -> int {
    if walks_upward(right) {
        size - 1 - k / 2
    } else {
        k / 2
    }
}

/// A canvas during placement, with the number of bits placed so far.
pub struct Placing {
    pub canvas: Canvas,
    pub used: int,
}

/// The placement after the path has reached one more module: a module
/// that is no function module takes the next bit, as long as bits are left.
pub open spec fn place_step(s: Placing, bits: Seq<bool>, x: int, y: int) -> Placing {
    if !s.canvas.fun(x, y) && s.used < bits.len() {
        Placing { canvas: s.canvas.with_dark(x, y, bits[s.used]), used: s.used + 1 }
    } else {
        s
    }
}

/// The placement after the first `k` steps of a column pair.
pub open spec fn place_in_pair(s: Placing, bits: Seq<bool>, size: int, right: int, k: nat) -> Placing
    decreases k,
{
    if k == 0 {
        s
    } else {
        place_step(
            place_in_pair(s, bits, size, right, (k - 1) as nat),
            bits,
            zigzag_x(right, k - 1),
            zigzag_y(size, right, k - 1),
        )
    }
}

/// The placement after the first `p` column pairs.
pub open spec fn place_pairs(s: Placing, bits: Seq<bool>, size: int, p: nat) -> Placing
    decreases p,
{
    if p == 0 {
        s
    } else {
        place_in_pair(
            place_pairs(s, bits, size, (p - 1) as nat),
            bits,
            size,
            pair_right(size, p - 1),
            (2 * size) as nat,
        )
    }
}

/// The canvas with the given codewords placed along the whole path.
pub open spec fn with_codewords(c: Canvas, size: int, data: Seq<u8>) -> Canvas {
    place_pairs(Placing { canvas: c, used: 0 }, codeword_bits(data), size, ((size - 1) / 2) as nat).canvas
}

/// Placement keeps the size of the canvas and its function modules
/// with their colours, and never uses more bits than there are.
pub proof fn lemma_place_in_pair_wf(s: Placing, bits: Seq<bool>, size: int, right: int, k: nat)
    requires
        s.canvas.wf(size),
        0 <= s.used <= bits.len(),
        1 <= right < size,
        k <= 2 * size,
    ensures
        place_in_pair(s, bits, size, right, k).canvas.wf(size),
        s.used <= place_in_pair(s, bits, size, right, k).used <= bits.len(),
        place_in_pair(s, bits, size, right, k).canvas.func == s.canvas.func,
        forall|x: int, y: int|
            0 <= x < size && 0 <= y < size && s.canvas.fun(x, y) ==> #[trigger] place_in_pair(
                s,
                bits,
                size,
                right,
                k,
            ).canvas.at(x, y) == s.canvas.at(x, y),
    decreases k,
{
    if k > 0 {
        lemma_place_in_pair_wf(s, bits, size, right, (k - 1) as nat);
        let before = place_in_pair(s, bits, size, right, (k - 1) as nat);
        let x = zigzag_x(right, k - 1);
        let y = zigzag_y(size, right, k - 1);
        assert(0 <= x < size && 0 <= y < size);
        let after = place_step(before, bits, x, y);
        assert(after.canvas.func =~= s.canvas.func);
        assert forall|x2: int, y2: int|
            0 <= x2 < size && 0 <= y2 < size && s.canvas.fun(x2, y2) implies #[trigger] after.canvas.at(
            x2,
            y2,
        ) == s.canvas.at(x2, y2) by {
            assert(before.canvas.at(x2, y2) == s.canvas.at(x2, y2));
            assert(before.canvas.fun(x2, y2));
        }
    }
}

/// The step of a column pair at which the path reaches the module in
/// column `x` of row `y`, or -1 where the module lies outside the pair.
pub open spec fn pair_step(size: int, right: int, x: int, y: int) -> int {
    if x == right || x == right - 1 {
        2 * (if walks_upward(right) {
            size - 1 - y
        } else {
            y
        }) + (right - x)
    } else {
        -1
    }
}

/// The number of the column pair that holds column `x`, counted from
/// the right edge. Column 6 belongs to no pair.
pub open spec fn pair_of_column(size: int, x: int) -> int {
    if x > 6 {
        (size - 1 - x) / 2
    } else {
        (size - 2 - x) / 2
    }
}

/// How many of the first `k` modules of a column pair are no function modules.
pub open spec fn free_in_pair(c: Canvas, size: int, right: int, k: nat) -> int
    decreases k,
{
    if k == 0 {
        0
    } else {
        free_in_pair(c, size, right, (k - 1) as nat) + (if c.fun(
            zigzag_x(right, k - 1),
            zigzag_y(size, right, k - 1),
        ) {
            0int
        } else {
            1int
        })
    }
}

/// How many modules of the first `p` column pairs are no function modules.
pub open spec fn free_in_pairs(c: Canvas, size: int, p: nat) -> int
    decreases p,
{
    if p == 0 {
        0
    } else {
        free_in_pairs(c, size, (p - 1) as nat) + free_in_pair(
            c,
            size,
            pair_right(size, p - 1),
            (2 * size) as nat,
        )
    }
}

/// The place along the path, among the modules that are no function
/// modules, of the module in column `x` of row `y`.
pub open spec fn path_rank(c: Canvas, size: int, x: int, y: int) -> int {
    let p = pair_of_column(size, x);
    let right = pair_right(size, p);
    free_in_pairs(c, size, p as nat) + free_in_pair(
        c,
        size,
        right,
        pair_step(size, right, x, y) as nat,
    )
}

/// The colour of a module after placement begun at bit `used`: the bit
/// of its rank where the module is no function module and bits are
/// left, else the colour it had.
pub open spec fn placed_at(c: Canvas, bits: Seq<bool>, rank: int, x: int, y: int) -> bool {
    if !c.fun(x, y) && rank < bits.len() {
        bits[rank]
    } else {
        c.at(x, y)
    }
}

/// The number of modules that are no function modules is never negative
/// and grows with the steps.
pub proof fn lemma_free_in_pair_bounds(c: Canvas, size: int, right: int, k: nat)
    ensures
        0 <= free_in_pair(c, size, right, k) <= k,
    decreases k,
{
    if k > 0 {
        lemma_free_in_pair_bounds(c, size, right, (k - 1) as nat);
    }
}

/// After the first `k` steps of a column pair, each module that the
/// walk has reached holds the bit of its rank, and every other module
/// is as it was.
pub proof fn lemma_place_in_pair_cells(
    s: Placing,
    bits: Seq<bool>,
    size: int,
    right: int,
    k: nat,
    x: int,
    y: int,
)
    requires
        s.canvas.wf(size),
        0 <= s.used,
        1 <= right < size,
        k <= 2 * size,
        0 <= x < size,
        0 <= y < size,
    ensures
        place_in_pair(s, bits, size, right, k).canvas.wf(size),
        place_in_pair(s, bits, size, right, k).canvas.func == s.canvas.func,
        place_in_pair(s, bits, size, right, k).used == (if s.used + free_in_pair(
            s.canvas,
            size,
            right,
            k,
        ) <= bits.len() {
            s.used + free_in_pair(s.canvas, size, right, k)
        } else if s.used <= bits.len() {
            bits.len() as int
        } else {
            s.used
        }),
        place_in_pair(s, bits, size, right, k).canvas.at(x, y) == (if 0 <= pair_step(
            size,
            right,
            x,
            y,
        ) < k {
            placed_at(
                s.canvas,
                bits,
                s.used + free_in_pair(s.canvas, size, right, pair_step(size, right, x, y) as nat),
                x,
                y,
            )
        } else {
            s.canvas.at(x, y)
        }),
    decreases k,
{
    if k > 0 {
        let m = (k - 1) as nat;
        lemma_place_in_pair_cells(s, bits, size, right, m, x, y);
        lemma_free_in_pair_bounds(s.canvas, size, right, m);
        let before = place_in_pair(s, bits, size, right, m);
        let cx = zigzag_x(right, k - 1);
        let cy = zigzag_y(size, right, k - 1);
        assert(0 <= cx < size && 0 <= cy < size);
        assert(pair_step(size, right, cx, cy) == k - 1);
        lemma_place_in_pair_cells(s, bits, size, right, m, cx, cy);
        let after = place_step(before, bits, cx, cy);
        assert(after.canvas.func =~= s.canvas.func);
        assert(before.canvas.fun(cx, cy) == s.canvas.fun(cx, cy));
        if x == cx && y == cy {
        } else {
            assert(pair_step(size, right, x, y) != k - 1);
            assert(after.canvas.at(x, y) == before.canvas.at(x, y));
        }
    }
}

/// The count of modules that are no function modules looks at the
/// function marks alone.
pub proof fn lemma_free_in_pair_same(a: Canvas, b: Canvas, size: int, right: int, k: nat)
    requires
        a.func == b.func,
    ensures
        free_in_pair(a, size, right, k) == free_in_pair(b, size, right, k),
    decreases k,
{
    if k > 0 {
        lemma_free_in_pair_same(a, b, size, right, (k - 1) as nat);
    }
}

/// The number of modules that are no function modules is never negative.
pub proof fn lemma_free_in_pairs_bounds(c: Canvas, size: int, p: nat)
    ensures
        0 <= free_in_pairs(c, size, p),
    decreases p,
{
    if p > 0 {
        lemma_free_in_pairs_bounds(c, size, (p - 1) as nat);
        lemma_free_in_pair_bounds(c, size, pair_right(size, p - 1), (2 * size) as nat);
    }
}

/// A column pair holds its right column and the one left of it, and
/// these are the columns whose pair it is.
pub proof fn lemma_pair_columns(size: int, q: int, x: int)
    requires
        size % 2 == 1,
        size >= 9,
        0 <= q < (size - 1) / 2,
        0 <= x < size,
    ensures
        1 <= pair_right(size, q) < size,
        (x == pair_right(size, q) || x == pair_right(size, q) - 1) <==> (x != 6 && pair_of_column(
            size,
            x,
        ) == q),
{
}

/// After the first `p` column pairs, each module of these pairs holds
/// the bit of its rank along the path, and every other module is as it was.
pub proof fn lemma_place_pairs_cells(
    s: Placing,
    bits: Seq<bool>,
    size: int,
    p: nat,
    x: int,
    y: int,
)
    requires
        s.canvas.wf(size),
        s.used == 0,
        size % 2 == 1,
        size >= 9,
        p <= (size - 1) / 2,
        0 <= x < size,
        0 <= y < size,
    ensures
        place_pairs(s, bits, size, p).canvas.wf(size),
        place_pairs(s, bits, size, p).canvas.func == s.canvas.func,
        place_pairs(s, bits, size, p).used == (if free_in_pairs(s.canvas, size, p) <= bits.len() {
            free_in_pairs(s.canvas, size, p)
        } else {
            bits.len() as int
        }),
        place_pairs(s, bits, size, p).canvas.at(x, y) == (if x != 6 && pair_of_column(size, x) < p {
            placed_at(s.canvas, bits, path_rank(s.canvas, size, x, y), x, y)
        } else {
            s.canvas.at(x, y)
        }),
    decreases p,
{
    if p > 0 {
        let q = p - 1;
        let right = pair_right(size, q);
        let before = place_pairs(s, bits, size, q as nat);
        lemma_place_pairs_cells(s, bits, size, q as nat, x, y);
        lemma_pair_columns(size, q, x);
        lemma_free_in_pairs_bounds(s.canvas, size, q as nat);
        lemma_place_in_pair_cells(before, bits, size, right, (2 * size) as nat, x, y);
        lemma_free_in_pair_same(before.canvas, s.canvas, size, right, (2 * size) as nat);
        lemma_free_in_pair_bounds(s.canvas, size, right, (2 * size) as nat);
        let step = pair_step(size, right, x, y);
        if x == right || x == right - 1 {
            assert(0 <= step < 2 * size);
            lemma_free_in_pair_same(before.canvas, s.canvas, size, right, step as nat);
            lemma_free_in_pair_bounds(s.canvas, size, right, step as nat);
            assert(before.canvas.fun(x, y) == s.canvas.fun(x, y));
        }
    }
}

/// Where the codewords go: a module that is no function module holds
/// the bit whose number is the module's rank along the path, as long as
/// there is such a bit; every other module is as it was.
pub proof fn lemma_with_codewords_cell(c: Canvas, size: int, data: Seq<u8>, x: int, y: int)
    requires
        c.wf(size),
        size % 2 == 1,
        size >= 9,
        0 <= x < size,
        0 <= y < size,
    ensures
        with_codewords(c, size, data).fun(x, y) == c.fun(x, y),
        with_codewords(c, size, data).at(x, y) == (if x != 6 {
            placed_at(c, codeword_bits(data), path_rank(c, size, x, y), x, y)
        } else {
            c.at(x, y)
        }),
{
    lemma_place_pairs_cells(
        Placing { canvas: c, used: 0 },
        codeword_bits(data),
        size,
        ((size - 1) / 2) as nat,
        x,
        y,
    );
}

/// Placement along the whole path keeps the size of the canvas and its
/// function modules with their colours.
pub proof fn lemma_place_pairs_wf(s: Placing, bits: Seq<bool>, size: int, p: nat)
    requires
        s.canvas.wf(size),
        0 <= s.used <= bits.len(),
        size % 2 == 1,
        size >= 9,
        p <= (size - 1) / 2,
    ensures
        place_pairs(s, bits, size, p).canvas.wf(size),
        s.used <= place_pairs(s, bits, size, p).used <= bits.len(),
        place_pairs(s, bits, size, p).canvas.func == s.canvas.func,
        forall|x: int, y: int|
            0 <= x < size && 0 <= y < size && s.canvas.fun(x, y) ==> #[trigger] place_pairs(
                s,
                bits,
                size,
                p,
            ).canvas.at(x, y) == s.canvas.at(x, y),
    decreases p,
{
    if p > 0 {
        lemma_place_pairs_wf(s, bits, size, (p - 1) as nat);
        let before = place_pairs(s, bits, size, (p - 1) as nat);
        lemma_place_in_pair_wf(before, bits, size, pair_right(size, p - 1), (2 * size) as nat);
        let after = place_pairs(s, bits, size, p);
        assert forall|x: int, y: int|
            0 <= x < size && 0 <= y < size && s.canvas.fun(x, y) implies #[trigger] after.canvas.at(
            x,
            y,
        ) == s.canvas.at(x, y) by {
            assert(before.canvas.at(x, y) == s.canvas.at(x, y));
            assert(before.canvas.fun(x, y));
        }
    }
}

impl Grid {
    /// Places the given codewords into the modules of the grid that are
    /// no function modules. The side of the grid must be odd.
    pub fn draw_codewords(&mut self, data: &[u8])
        requires
            old(self).wf(),
            old(self).spec_size() % 2 == 1,
            old(self).spec_size() >= 7,
            data@.len() <= 3706,
        ensures
            final(self).wf(),
            final(self).spec_size() == old(self).spec_size(),
            final(self)@ == with_codewords(old(self)@, old(self).spec_size(), data@),
    {
        let size: i32 = self.size();
        let ghost n = size as int;
        let ghost bits = codeword_bits(data@);
        let ghost start = Placing { canvas: self@, used: 0 };
        proof {
            self.lemma_view_wf();
        }
        let nbits: usize = data.len() * 8;
        let mut i: usize = 0;
        let mut right: i32 = size - 1;
        let ghost mut p: int = 0;
        let ghost mut s = start;
        while right >= 1
            invariant
                self.wf(),
                self.spec_size() == size,
                n == size,
                7 <= size <= 177,
                size % 2 == 1,
                bits == codeword_bits(data@),
                nbits == bits.len(),
                nbits == data@.len() * 8,
                data@.len() <= 3706,
                0 <= p <= (n - 1) / 2,
                right == (if n - 1 - 2 * p >= 6 {
                    n - 1 - 2 * p
                } else {
                    n - 2 - 2 * p
                }),
                s == place_pairs(start, bits, n, p as nat),
                s.canvas == self@,
                s.used == i,
                0 <= i <= nbits,
            decreases right + 1,
        {
            if right == 6 {
                right = 5;
            }
            assert(right == pair_right(n, p));
            let upward: bool = (right + 1) % 4 < 2;
            let ghost s0 = s;
            for vert in 0..size
                invariant
                    self.wf(),
                    self.spec_size() == size,
                    n == size,
                    7 <= size <= 177,
                    bits == codeword_bits(data@),
                    nbits == bits.len(),
                    nbits == data@.len() * 8,
                    data@.len() <= 3706,
                    1 <= right < size,
                    upward == walks_upward(right as int),
                    0 <= s0.used <= nbits,
                    s == place_in_pair(s0, bits, n, right as int, (2 * vert) as nat),
                    s.canvas == self@,
                    s.used == i,
                    0 <= i <= nbits,
            {
                for j in 0..2i32
                    invariant
                        self.wf(),
                        self.spec_size() == size,
                        n == size,
                        7 <= size <= 177,
                        bits == codeword_bits(data@),
                        nbits == bits.len(),
                        nbits == data@.len() * 8,
                        data@.len() <= 3706,
                        1 <= right < size,
                        0 <= vert < size,
                        upward == walks_upward(right as int),
                            0 <= s0.used <= nbits,
                        s == place_in_pair(s0, bits, n, right as int, (2 * vert + j) as nat),
                        s.canvas == self@,
                        s.used == i,
                        0 <= i <= nbits,
                {
                    let x: i32 = right - j;
                    let y: i32 = if upward {
                        size - 1 - vert
                    } else {
                        vert
                    };
                    assert(x == zigzag_x(right as int, 2 * vert + j));
                    assert(y == zigzag_y(n, right as int, 2 * vert + j));
                    if !self.is_function(x, y) && i < nbits {
                        let bit: bool = get_bit(data[i / 8] as u32, 7 - ((i % 8) as i32));
                        self.set_module(x, y, bit);
                        i += 1;
                    }
                    proof {
                        s = place_step(s, bits, x as int, y as int);
                    }
                }
            }
            right -= 2;
            proof {
                p = p + 1;
            }
        }
    }
}

} // verus!
