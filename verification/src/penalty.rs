//! The penalty score by which one mask is preferred to another.
//!
//! The score of a grid is the sum of four rules. Two of them read each row
//! and each column module by module, keeping the colour and length of the
//! current run and the lengths of the last seven runs; they are stated here
//! as a scan over a line of modules.

use vstd::prelude::*;
use crate::grid::{lemma_flat_index, Grid};

verus! {

/// Weight of a run of five modules of one colour.
pub const PENALTY_N1: i32 = 3;

/// Weight of a two-by-two block of one colour.
pub const PENALTY_N2: i32 = 3;

/// Weight of a run pattern that looks like a finder pattern.
pub const PENALTY_N3: i32 = 40;

/// Weight of each step of five percent by which the dark modules miss one half.
pub const PENALTY_N4: i32 = 10;

/// The run history after a run of the given length has ended. The newest
/// run stands first; the very first run of a line is lengthened by the
/// light border, which is as wide as the symbol.
pub open spec fn history_push(h: Seq<int>, size: int, run: int) -> Seq<int> {
    let r = if h[0] == 0 {
        run + size
    } else {
        run
    };
    seq![r, h[0], h[1], h[2], h[3], h[4], h[5]]
}

/// How many finder-like patterns end at the newest run of the history:
/// runs in the ratio 1:1:3:1:1 with at least four units of light on one
/// side and one on the other. The answer is 0, 1 or 2.
pub open spec fn history_count(h: Seq<int>) -> int {
    let n = h[1];
    let core = n > 0 && h[2] == n && h[3] == n * 3 && h[4] == n && h[5] == n;
    (if core && h[0] >= n * 4 && h[6] >= n {
        1int
    } else {
        0int
    }) + (if core && h[6] >= n * 4 && h[0] >= n {
        1int
    } else {
        0int
    })
}

/// The patterns counted when a line ends in a run of the given colour and
/// length: a dark run is closed first, then the light border is added.
pub open spec fn history_finish(h: Seq<int>, size: int, color: bool, run: int) -> int {
    if color {
        history_count(history_push(history_push(h, size, run), size, size))
    } else {
        history_count(history_push(h, size, run + size))
    }
}

/// Every entry of a run history is a length that a line of the given size can produce.
pub open spec fn history_wf(h: Seq<int>, size: int) -> bool {
    &&& h.len() == 7
    &&& forall|i: int| 0 <= i < 7 ==> 0 <= #[trigger] h[i] <= 3 * size
}

/// What a scan knows after some modules of a line.
pub struct Scan {
    /// Colour of the current run.
    pub color: bool,
    /// Length of the current run.
    pub run: int,
    /// Lengths of the runs that have ended, newest first.
    pub history: Seq<int>,
    /// Penalty points gathered so far.
    pub score: int,
}

/// The state before the first module: a light run of length zero.
pub open spec fn scan_start() -> Scan {
    Scan { color: false, run: 0, history: seq![0int, 0int, 0int, 0int, 0int, 0int, 0int], score: 0 }
}

/// The state after one more module `m` of a line of the given length. A
/// run earns 3 points when it reaches five modules and 1 point for each
/// module beyond; each finder-like pattern that a light run completes earns 40.
pub open spec fn scan_step(s: Scan, size: int, m: bool) -> Scan {
    if m == s.color {
        let run = s.run + 1;
        Scan {
            color: s.color,
            run,
            history: s.history,
            score: s.score + (if run == 5 {
                3int
            } else if run > 5 {
                1int
            } else {
                0int
            }),
        }
    } else {
        let h = history_push(s.history, size, s.run);
        Scan {
            color: m,
            run: 1,
            history: h,
            score: s.score + (if !s.color {
                history_count(h) * 40
            } else {
                0int
            }),
        }
    }
}

/// The state after the first `n` modules of a line.
pub open spec fn scan(line: Seq<bool>, n: nat) -> Scan
    decreases n,
{
    if n == 0 {
        scan_start()
    } else {
        scan_step(scan(line, (n - 1) as nat), line.len() as int, line[n - 1])
    }
}

/// The points that the run rules give to one line.
pub open spec fn line_penalty(line: Seq<bool>) -> int {
    let s = scan(line, line.len());
    s.score + history_finish(s.history, line.len() as int, s.color, s.run) * 40
}

/// Column `x` of a square of modules, from the top down.
pub open spec fn column(dark: Seq<Seq<bool>>, x: int) -> Seq<bool> {
    Seq::new(dark.len(), |y: int| dark[y][x])
}

/// The run points of the first `n` rows.
pub open spec fn rows_penalty(dark: Seq<Seq<bool>>, n: nat) -> int
    decreases n,
{
    if n == 0 {
        0
    } else {
        rows_penalty(dark, (n - 1) as nat) + line_penalty(dark[n - 1])
    }
}

/// The run points of the first `n` columns.
pub open spec fn columns_penalty(dark: Seq<Seq<bool>>, n: nat) -> int
    decreases n,
{
    if n == 0 {
        0
    } else {
        columns_penalty(dark, (n - 1) as nat) + line_penalty(column(dark, n - 1))
    }
}

/// Whether the four modules whose top left corner is at column `x`, row `y` have one colour.
pub open spec fn is_block(dark: Seq<Seq<bool>>, x: int, y: int) -> bool {
    let c = dark[y][x];
    c == dark[y][x + 1] && c == dark[y + 1][x] && c == dark[y + 1][x + 1]
}

/// The number of one-coloured blocks whose top left corner is among the first `n` modules of row `y`.
pub open spec fn blocks_in_row(dark: Seq<Seq<bool>>, y: int, n: nat) -> int
    decreases n,
{
    if n == 0 {
        0
    } else {
        blocks_in_row(dark, y, (n - 1) as nat) + (if is_block(dark, n - 1, y) {
            1int
        } else {
            0int
        })
    }
}

/// The number of one-coloured blocks whose top left corner is in the first `n` rows.
pub open spec fn blocks(dark: Seq<Seq<bool>>, n: nat) -> int
    decreases n,
{
    if n == 0 {
        0
    } else {
        blocks(dark, (n - 1) as nat) + blocks_in_row(dark, n - 1, (dark.len() - 1) as nat)
    }
}

/// The number of dark modules among the first `n` of a line.
pub open spec fn dark_in_line(line: Seq<bool>, n: nat) -> int
    decreases n,
{
    if n == 0 {
        0
    } else {
        dark_in_line(line, (n - 1) as nat) + (if line[n - 1] {
            1int
        } else {
            0int
        })
    }
}

/// The number of dark modules in the first `n` rows.
pub open spec fn dark_count(dark: Seq<Seq<bool>>, n: nat) -> int
    decreases n,
{
    if n == 0 {
        0
    } else {
        dark_count(dark, (n - 1) as nat) + dark_in_line(dark[n - 1], dark[n - 1].len())
    }
}

/// The points for the balance of colours: ten for each step of five
/// percent, counted from zero, by which the share of dark modules is away
/// from one half; the number of steps is held between 0 and 9.
pub open spec fn balance_penalty(dark: int, total: int) -> int {
    let d = dark * 20 - total * 10;
    let a = if d < 0 {
        -d
    } else {
        d
    };
    let k = (a + total - 1) / total - 1;
    10 * (if k < 0 {
        0
    } else if k > 9 {
        9
    } else {
        k
    })
}

/// The penalty score of a square of modules.
pub open spec fn penalty_score(dark: Seq<Seq<bool>>) -> int {
    let n = dark.len();
    rows_penalty(dark, n) + columns_penalty(dark, n) + 3 * blocks(dark, (n - 1) as nat)
        + balance_penalty(dark_count(dark, n), (n * n) as int)
}

/// A history holds at most two patterns.
pub proof fn lemma_history_count_bounds(h: Seq<int>)
    ensures
        0 <= history_count(h) <= 2,
{
}

/// Pushing a run that a line can produce keeps the history well formed.
pub proof fn lemma_history_push_wf(h: Seq<int>, size: int, run: int)
    requires
        history_wf(h, size),
        0 <= run <= 2 * size,
    ensures
        history_wf(history_push(h, size, run), size),
{
}

/// A scan of a line keeps its history well formed, its run within the
/// line, and gathers at most 83 points for each module.
pub proof fn lemma_scan_bounds(line: Seq<bool>, n: nat)
    requires
        n <= line.len(),
    ensures
        history_wf(scan(line, n).history, line.len() as int),
        0 <= scan(line, n).run <= n,
        0 <= scan(line, n).score <= 83 * n,
    decreases n,
{
    if n > 0 {
        lemma_scan_bounds(line, (n - 1) as nat);
        let s = scan(line, (n - 1) as nat);
        let h = history_push(s.history, line.len() as int, s.run);
        lemma_history_push_wf(s.history, line.len() as int, s.run);
        lemma_history_count_bounds(h);
    }
}

/// One line gathers at most 83 points for each module and 80 at its end.
pub proof fn lemma_line_penalty_bounds(line: Seq<bool>)
    ensures
        0 <= line_penalty(line) <= 83 * line.len() + 80,
{
    let s = scan(line, line.len());
    let size = line.len() as int;
    lemma_scan_bounds(line, line.len());
    if s.color {
        lemma_history_push_wf(s.history, size, s.run);
        lemma_history_count_bounds(
            history_push(history_push(s.history, size, s.run), size, size),
        );
    } else {
        lemma_history_count_bounds(history_push(s.history, size, s.run + size));
    }
}

/// The lengths of the last seven runs of a line, as the scan of a grid keeps them.
pub struct FinderPenalty {
    qr_size: i32,
    run_history: [i32; 7],
}

impl FinderPenalty {
    /// The length of the lines that are scanned.
    pub closed spec fn spec_size(&self) -> int {
        self.qr_size as int
    }

    /// The run lengths, newest first.
    pub closed spec fn history(&self) -> Seq<int> {
        Seq::new(7, |i: int| self.run_history@[i] as int)
    }

    /// The line length is at most 177 and the history is well formed for it.
    pub open spec fn wf(&self) -> bool {
        &&& 0 <= self.spec_size() <= 177
        &&& history_wf(self.history(), self.spec_size())
    }

    /// An empty history for lines of the given length.
    pub fn new(size: i32) -> (r: FinderPenalty)
        requires
            0 <= size <= 177,
        ensures
            r.wf(),
            r.spec_size() == size,
            r.history() == scan_start().history,
    {
        let r = FinderPenalty { qr_size: size, run_history: [0i32; 7] };
        assert(r.history() =~= scan_start().history);
        r
    }

    /// Records that a run of the given length has ended.
    pub fn add_history(&mut self, currentrunlength: i32)
        requires
            old(self).wf(),
            0 <= currentrunlength <= 2 * old(self).spec_size(),
        ensures
            final(self).wf(),
            final(self).spec_size() == old(self).spec_size(),
            final(self).history() == history_push(
                old(self).history(),
                old(self).spec_size(),
                currentrunlength as int,
            ),
    {
        let mut run: i32 = currentrunlength;
        assert(old(self).history()[0] == self.run_history@[0]);
        if self.run_history[0] == 0 {
            run += self.qr_size;
        }
        let ghost h = self.history();
        assert forall|i: int| 0 <= i < 7 implies self.run_history@[i] == #[trigger] h[i] by {}
        let rh = &self.run_history;
        let next: [i32; 7] = [run, rh[0], rh[1], rh[2], rh[3], rh[4], rh[5]];
        self.run_history = next;
        assert(self.history() =~= history_push(h, self.qr_size as int, currentrunlength as int));
    }

    /// The number of finder-like patterns that end at the newest run: 0, 1 or 2.
    pub fn count_patterns(&self) -> (r: i32)
        requires
            self.wf(),
        ensures
            r == history_count(self.history()),
            0 <= r <= 2,
    {
        let ghost h = self.history();
        assert forall|i: int| 0 <= i < 7 implies self.run_history@[i] == #[trigger] h[i] by {}
        assert(0 <= h[1] <= 531);
        let rh = &self.run_history;
        let n: i32 = rh[1];
        let core: bool = n > 0 && rh[2] == n && rh[3] == n * 3 && rh[4] == n && rh[5] == n;
        let a: i32 = if core && rh[0] >= n * 4 && rh[6] >= n {
            1
        } else {
            0
        };
        let b: i32 = if core && rh[6] >= n * 4 && rh[0] >= n {
            1
        } else {
            0
        };
        a + b
    }

    /// Closes the last run of a line, adds the light border after it, and counts the patterns.
    pub fn terminate_and_count(self, currentruncolor: bool, currentrunlength: i32) -> (r: i32)
        requires
            self.wf(),
            0 <= currentrunlength <= self.spec_size(),
        ensures
            r == history_finish(
                self.history(),
                self.spec_size(),
                currentruncolor,
                currentrunlength as int,
            ),
            0 <= r <= 2,
    {
        let mut runs = self;
        let mut run: i32 = currentrunlength;
        if currentruncolor {
            runs.add_history(run);
            run = 0;
        }
        run += runs.qr_size;
        runs.add_history(run);
        runs.count_patterns()
    }
}

impl Grid {
    /// The penalty score of the grid as it stands.
    pub fn get_penalty_score(&self) -> (r: i32)
        requires
            self.wf(),
        ensures
            r == penalty_score(self@.dark),
            0 <= r <= 5400000,
    {
        let size: i32 = self.size();
        let ghost d = self@.dark;
        proof {
            self.lemma_view_wf();
        }
        let mut result: i32 = 0;

        // Runs and finder-like patterns in the rows.
        for y in 0..size
            invariant
                self.wf(),
                size == self.spec_size(),
                1 <= size <= 177,
                d == self@.dark,
                self@.wf(size as int),
                result == rows_penalty(d, y as nat),
                0 <= result <= y * 14771,
        {
            let mut runcolor: bool = false;
            let mut runx: i32 = 0;
            let mut runhistory = FinderPenalty::new(size);
            let ghost base = result as int;
            let ghost line = d[y as int];
            for x in 0..size
                invariant
                    self.wf(),
                    size == self.spec_size(),
                    1 <= size <= 177,
                    d == self@.dark,
                    self@.wf(size as int),
                    0 <= y < size,
                    line == d[y as int],
                    line.len() == size,
                    runhistory.wf(),
                    runhistory.spec_size() == size,
                    runcolor == scan(line, x as nat).color,
                    runx == scan(line, x as nat).run,
                    runhistory.history() == scan(line, x as nat).history,
                    result == base + scan(line, x as nat).score,
                    0 <= base <= y * 14771,
            {
                proof {
                    lemma_scan_bounds(line, x as nat);
                    lemma_scan_bounds(line, (x + 1) as nat);
                }
                let m: bool = self.module(x, y);
                assert(m == line[x as int]);
                if m == runcolor {
                    runx += 1;
                    if runx == 5 {
                        result += PENALTY_N1;
                    } else if runx > 5 {
                        result += 1;
                    }
                } else {
                    runhistory.add_history(runx);
                    if !runcolor {
                        result += runhistory.count_patterns() * PENALTY_N3;
                    }
                    runcolor = m;
                    runx = 1;
                }
            }
            proof {
                lemma_scan_bounds(line, size as nat);
                lemma_line_penalty_bounds(line);
            }
            result += runhistory.terminate_and_count(runcolor, runx) * PENALTY_N3;
        }

        // Runs and finder-like patterns in the columns.
        let ghost rows = result as int;
        for x in 0..size
            invariant
                self.wf(),
                size == self.spec_size(),
                1 <= size <= 177,
                d == self@.dark,
                self@.wf(size as int),
                result == rows + columns_penalty(d, x as nat),
                0 <= rows <= 177 * 14771,
                0 <= columns_penalty(d, x as nat) <= x * 14771,
        {
            let mut runcolor: bool = false;
            let mut runy: i32 = 0;
            let mut runhistory = FinderPenalty::new(size);
            let ghost base = result as int;
            let ghost line = column(d, x as int);
            for y in 0..size
                invariant
                    self.wf(),
                    size == self.spec_size(),
                    1 <= size <= 177,
                    d == self@.dark,
                    self@.wf(size as int),
                    0 <= x < size,
                    line == column(d, x as int),
                    line.len() == size,
                    runhistory.wf(),
                    runhistory.spec_size() == size,
                    runcolor == scan(line, y as nat).color,
                    runy == scan(line, y as nat).run,
                    runhistory.history() == scan(line, y as nat).history,
                    result == base + scan(line, y as nat).score,
                    0 <= base <= 177 * 14771 + x * 14771,
            {
                proof {
                    lemma_scan_bounds(line, y as nat);
                    lemma_scan_bounds(line, (y + 1) as nat);
                }
                let m: bool = self.module(x, y);
                assert(m == line[y as int]);
                if m == runcolor {
                    runy += 1;
                    if runy == 5 {
                        result += PENALTY_N1;
                    } else if runy > 5 {
                        result += 1;
                    }
                } else {
                    runhistory.add_history(runy);
                    if !runcolor {
                        result += runhistory.count_patterns() * PENALTY_N3;
                    }
                    runcolor = m;
                    runy = 1;
                }
            }
            proof {
                lemma_scan_bounds(line, size as nat);
                lemma_line_penalty_bounds(line);
            }
            result += runhistory.terminate_and_count(runcolor, runy) * PENALTY_N3;
        }

        // Two-by-two blocks of one colour.
        let ghost lines = result as int;
        for y in 0..size - 1
            invariant
                self.wf(),
                size == self.spec_size(),
                1 <= size <= 177,
                d == self@.dark,
                self@.wf(size as int),
                result == lines + 3 * blocks(d, y as nat),
                0 <= lines <= 2 * 177 * 14771,
                0 <= blocks(d, y as nat) <= y * 176,
        {
            let ghost base = result as int;
            for x in 0..size - 1
                invariant
                    self.wf(),
                    size == self.spec_size(),
                    1 <= size <= 177,
                    d == self@.dark,
                    self@.wf(size as int),
                    0 <= y < size - 1,
                    result == base + 3 * blocks_in_row(d, y as int, x as nat),
                    0 <= base <= 2 * 177 * 14771 + 3 * y * 176,
                    0 <= blocks_in_row(d, y as int, x as nat) <= x,
            {
                let color: bool = self.module(x, y);
                if color == self.module(x + 1, y) && color == self.module(x, y + 1) && color
                    == self.module(x + 1, y + 1) {
                    result += PENALTY_N2;
                }
            }
        }

        // Balance of dark and light modules.
        let ghost shapes = result as int;
        let mut dark: i32 = 0;
        for y in 0..size
            invariant
                self.wf(),
                size == self.spec_size(),
                1 <= size <= 177,
                d == self@.dark,
                self@.wf(size as int),
                dark == dark_count(d, y as nat),
                0 <= dark <= y * 177,
        {
            let ghost base = dark as int;
            for x in 0..size
                invariant
                    self.wf(),
                    size == self.spec_size(),
                    1 <= size <= 177,
                    d == self@.dark,
                    self@.wf(size as int),
                    0 <= y < size,
                    dark == base + dark_in_line(d[y as int], x as nat),
                    0 <= base <= y * 177,
                    0 <= dark_in_line(d[y as int], x as nat) <= x,
            {
                if self.module(x, y) {
                    dark += 1;
                }
            }
        }
        proof {
            lemma_flat_index(size as int, 0, 0);
        }
        let total: i32 = size * size;
        let diff: i32 = dark * 20 - total * 10;
        let dist: i32 = if diff < 0 {
            -diff
        } else {
            diff
        };
        let steps: i32 = (dist + total - 1) / total - 1;
        let k: i32 = if steps < 0 {
            0
        } else if steps > 9 {
            9
        } else {
            steps
        };
        result += k * PENALTY_N4;
        result
    }
}

} // verus!
