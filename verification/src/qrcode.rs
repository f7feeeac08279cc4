//! The symbol and its construction from data codewords.

use vstd::prelude::*;
use crate::grid::{flat, lemma_flat_entry, lemma_flat_index, Canvas, Grid};
use crate::interleave::{add_ecc_and_interleave, interleaved};
use crate::mask::{mask_inverts, masked};
use crate::patterns::{
    drawn_format_word, format_cell, format_word, function_patterns, lemma_drawn_format_word,
    lemma_format_word_recovers, lemma_function_patterns, recovered_format, with_format,
};
use crate::penalty::penalty_score;
use crate::placement::{
    codeword_bits, lemma_place_pairs_wf, lemma_with_codewords_cell, path_rank, placed_at,
    with_codewords, Placing,
};
use crate::tables::{
    lemma_layout, lemma_raw_bounds, num_data_codewords, symbol_size, BlockLayout,
};
use crate::types::{Mask, QrCodeEcc, Version};

verus! {

/// The canvas of a symbol before masking: the function patterns, and the
/// data codewords with their error correction placed round them.
pub open spec fn unmasked_canvas(ver: int, ecl: QrCodeEcc, data: Seq<u8>) -> Canvas {
    with_codewords(
        function_patterns(ver, ecl),
        symbol_size(ver),
        interleaved(data, BlockLayout::of(ver, ecl)),
    )
}

/// The canvas of the finished symbol under a mask: the mask applied to
/// the modules outside the function patterns, and the format information
/// of level and mask drawn.
pub open spec fn symbol_canvas(ver: int, ecl: QrCodeEcc, data: Seq<u8>, mask: int) -> Canvas {
    with_format(
        masked(unmasked_canvas(ver, ecl, data), symbol_size(ver), mask),
        symbol_size(ver),
        format_word(ecl, mask),
    )
}

/// The penalty score of the finished symbol under a mask.
pub open spec fn symbol_penalty(ver: int, ecl: QrCodeEcc, data: Seq<u8>, mask: int) -> int {
    penalty_score(symbol_canvas(ver, ecl, data, mask).dark)
}

/// The mask with the least penalty among the first `n`, the lowest
/// number winning among equals.
pub open spec fn best_mask_upto(ver: int, ecl: QrCodeEcc, data: Seq<u8>, n: nat) -> int
    decreases n,
{
    if n <= 1 {
        0
    } else {
        let best = best_mask_upto(ver, ecl, data, (n - 1) as nat);
        if symbol_penalty(ver, ecl, data, n - 1) < symbol_penalty(ver, ecl, data, best) {
            n - 1
        } else {
            best
        }
    }
}

/// The mask that is chosen where the caller names none.
pub open spec fn best_mask(ver: int, ecl: QrCodeEcc, data: Seq<u8>) -> int {
    best_mask_upto(ver, ecl, data, 8)
}

/// The mask of the finished symbol: the one asked for, or else the best.
pub open spec fn chosen_mask(ver: int, ecl: QrCodeEcc, data: Seq<u8>, mask: Option<Mask>) -> int {
    match mask {
        Some(m) => m.spec_value(),
        None => best_mask(ver, ecl, data),
    }
}

/// The best mask among the first `n` has a penalty no higher than any of
/// them, and a lower one than every mask before it.
pub proof fn lemma_best_mask_upto(ver: int, ecl: QrCodeEcc, data: Seq<u8>, n: nat, m: int)
    requires
        1 <= n,
        0 <= m < n,
    ensures
        0 <= best_mask_upto(ver, ecl, data, n) < n,
        symbol_penalty(ver, ecl, data, best_mask_upto(ver, ecl, data, n)) <= symbol_penalty(
            ver,
            ecl,
            data,
            m,
        ),
        m < best_mask_upto(ver, ecl, data, n) ==> symbol_penalty(
            ver,
            ecl,
            data,
            best_mask_upto(ver, ecl, data, n),
        ) < symbol_penalty(ver, ecl, data, m),
    decreases n,
{
    if n > 1 {
        if m < n - 1 {
            lemma_best_mask_upto(ver, ecl, data, (n - 1) as nat, m);
        } else {
            lemma_best_mask_upto(ver, ecl, data, (n - 1) as nat, 0);
        }
    }
}

/// The penalty score of the mask that is chosen where the caller names
/// none is no higher than that of any of the eight masks, and lower than
/// that of every mask with a smaller number.
pub proof fn lemma_best_mask(ver: int, ecl: QrCodeEcc, data: Seq<u8>, m: int)
    requires
        0 <= m < 8,
    ensures
        0 <= best_mask(ver, ecl, data) < 8,
        symbol_penalty(ver, ecl, data, best_mask(ver, ecl, data)) <= symbol_penalty(
            ver,
            ecl,
            data,
            m,
        ),
        m < best_mask(ver, ecl, data) ==> symbol_penalty(ver, ecl, data, best_mask(ver, ecl, data))
            < symbol_penalty(ver, ecl, data, m),
{
    lemma_best_mask_upto(ver, ecl, data, 8, m);
}

/// Neither the placing of codewords nor masking touches a function
/// module: outside the format information, which is drawn anew for the
/// mask, every function module of the finished symbol has the colour
/// that its function pattern gave it.
pub proof fn lemma_function_modules_kept(
    ver: int,
    ecl: QrCodeEcc,
    data: Seq<u8>,
    mask: int,
    x: int,
    y: int,
)
    requires
        1 <= ver <= 40,
        0 <= x < symbol_size(ver),
        0 <= y < symbol_size(ver),
        function_patterns(ver, ecl).fun(x, y),
        format_cell(symbol_size(ver), x, y) < 0,
    ensures
        symbol_canvas(ver, ecl, data, mask).fun(x, y),
        symbol_canvas(ver, ecl, data, mask).at(x, y) == function_patterns(ver, ecl).at(x, y),
{
    let size = symbol_size(ver);
    let f = function_patterns(ver, ecl);
    let bits = codeword_bits(interleaved(data, BlockLayout::of(ver, ecl)));
    assert(f.wf(size));
    lemma_place_pairs_wf(Placing { canvas: f, used: 0 }, bits, size, ((size - 1) / 2) as nat);
    let p = unmasked_canvas(ver, ecl, data);
    assert(p.at(x, y) == f.at(x, y));
    assert(p.fun(x, y) == f.fun(x, y));
}

/// A symbol whose modules are those of a canvas laid out row after row
/// shows at each place the colour that the canvas has there.
pub proof fn lemma_module_of_canvas(qr: &QrCode, c: Canvas, x: int, y: int)
    requires
        c.wf(qr.spec_size()),
        qr.spec_modules() == flat(c.dark),
        0 <= x < qr.spec_size(),
        0 <= y < qr.spec_size(),
    ensures
        qr.spec_module(x, y) == c.at(x, y),
{
    lemma_flat_entry(c, qr.spec_size(), x, y);
}

/// What the modules outside the function patterns show in the finished
/// symbol: the bit of the interleaved codewords whose number is the
/// module's rank along the zigzag path, inverted where the mask selects
/// the module; a module whose rank lies beyond the last bit stays light
/// but for the mask.
pub proof fn lemma_data_modules(
    ver: int,
    ecl: QrCodeEcc,
    data: Seq<u8>,
    mask: int,
    x: int,
    y: int,
)
    requires
        1 <= ver <= 40,
        0 <= x < symbol_size(ver),
        0 <= y < symbol_size(ver),
        !function_patterns(ver, ecl).fun(x, y),
    ensures
        !symbol_canvas(ver, ecl, data, mask).fun(x, y),
        symbol_canvas(ver, ecl, data, mask).at(x, y) == (placed_at(
            function_patterns(ver, ecl),
            codeword_bits(interleaved(data, BlockLayout::of(ver, ecl))),
            path_rank(function_patterns(ver, ecl), symbol_size(ver), x, y),
            x,
            y,
        ) != mask_inverts(mask, x, y)),
{
    let size = symbol_size(ver);
    let f = function_patterns(ver, ecl);
    lemma_function_patterns(ver, ecl, x, y);
    assert(x != 6 && format_cell(size, x, y) < 0);
    lemma_with_codewords_cell(f, size, interleaved(data, BlockLayout::of(ver, ecl)), x, y);
}

/// In the finished symbol of every level and mask, each of the two
/// copies of the format information shows a word from which the level's
/// code and the mask number are recovered, the checksum agreeing.
pub proof fn lemma_format_information(
    ver: int,
    ecl: QrCodeEcc,
    data: Seq<u8>,
    mask: int,
    copy: int,
)
    requires
        1 <= ver <= 40,
        0 <= mask < 8,
        0 <= copy <= 1,
    ensures
        recovered_format(
            drawn_format_word(symbol_canvas(ver, ecl, data, mask), symbol_size(ver), copy),
        ) == Some((ecl.spec_format_bits(), mask)),
{
    lemma_format_word_recovers(ecl, mask);
    lemma_drawn_format_word(
        masked(unmasked_canvas(ver, ecl, data), symbol_size(ver), mask),
        symbol_size(ver),
        format_word(ecl, mask),
        copy,
    );
}

/// Two canvases that have the same function modules and the same colours
/// outside the format information, where the second holds function modules.
pub open spec fn same_but_format(a: Canvas, p: Canvas, size: int) -> bool {
    &&& a.wf(size)
    &&& p.wf(size)
    &&& forall|x: int, y: int|
        0 <= x < size && 0 <= y < size ==> #[trigger] a.fun(x, y) == p.fun(x, y)
    &&& forall|x: int, y: int|
        0 <= x < size && 0 <= y < size && format_cell(size, x, y) < 0 ==> #[trigger] a.at(x, y)
            == p.at(x, y)
    &&& forall|x: int, y: int|
        0 <= x < size && 0 <= y < size && format_cell(size, x, y) >= 0 ==> #[trigger] p.fun(x, y)
}

/// Masking and drawing the format information gives the same canvas
/// whatever format information stood there before.
pub proof fn lemma_candidate(a: Canvas, p: Canvas, size: int, mask: int, word: u32)
    requires
        same_but_format(a, p, size),
    ensures
        with_format(masked(a, size, mask), size, word) == with_format(
            masked(p, size, mask),
            size,
            word,
        ),
{
    let l = with_format(masked(a, size, mask), size, word);
    let r = with_format(masked(p, size, mask), size, word);
    assert forall|x: int, y: int| 0 <= x < size && 0 <= y < size implies #[trigger] l.at(x, y)
        == r.at(x, y) && #[trigger] l.fun(x, y) == r.fun(x, y) by {
        assert(a.fun(x, y) == p.fun(x, y));
        if format_cell(size, x, y) < 0 {
            assert(a.at(x, y) == p.at(x, y));
        }
    }
    Canvas::lemma_ext(l, r, size);
}

/// Applying the mask of a candidate once more leaves a canvas that
/// differs from the unmasked one in the format information alone.
pub proof fn lemma_undo(a: Canvas, p: Canvas, size: int, mask: int, word: u32)
    requires
        same_but_format(a, p, size),
    ensures
        same_but_format(masked(with_format(masked(a, size, mask), size, word), size, mask), p, size),
{
    let u = masked(with_format(masked(a, size, mask), size, word), size, mask);
    assert forall|x: int, y: int| 0 <= x < size && 0 <= y < size implies #[trigger] u.fun(x, y)
        == p.fun(x, y) by {
        assert(a.fun(x, y) == p.fun(x, y));
        if format_cell(size, x, y) >= 0 {
            assert(p.fun(x, y));
        }
    }
    assert forall|x: int, y: int|
        0 <= x < size && 0 <= y < size && format_cell(size, x, y) < 0 implies #[trigger] u.at(x, y)
        == p.at(x, y) by {
        assert(a.fun(x, y) == p.fun(x, y));
        assert(a.at(x, y) == p.at(x, y));
    }
}

/// The unmasked canvas of a symbol is a square of the symbol's size in
/// which the format information lies on function modules.
pub proof fn lemma_unmasked_canvas(ver: int, ecl: QrCodeEcc, data: Seq<u8>)
    requires
        1 <= ver <= 40,
    ensures
        same_but_format(
            unmasked_canvas(ver, ecl, data),
            unmasked_canvas(ver, ecl, data),
            symbol_size(ver),
        ),
{
    let size = symbol_size(ver);
    let f = function_patterns(ver, ecl);
    let bits = codeword_bits(interleaved(data, BlockLayout::of(ver, ecl)));
    let p = unmasked_canvas(ver, ecl, data);
    assert(f.wf(size));
    assert forall|x: int, y: int|
        0 <= x < size && 0 <= y < size && format_cell(size, x, y) >= 0 implies f.fun(x, y) by {}
    lemma_place_pairs_wf(Placing { canvas: f, used: 0 }, bits, size, ((size - 1) / 2) as nat);
    assert(p.func == f.func);
    assert forall|x: int, y: int|
        0 <= x < size && 0 <= y < size && format_cell(size, x, y) >= 0 implies #[trigger] p.fun(
        x,
        y,
    ) by {
        assert(f.fun(x, y));
    }
}

/// A QR Code symbol: a square grid of dark and light modules, with the
/// version, error correction level and mask it was made with. A symbol
/// is not changed once it is made.
#[derive(PartialEq, Eq, Debug)]
pub struct QrCode {
    version: Version,
    size: i32,
    errorcorrectionlevel: QrCodeEcc,
    mask: Mask,
    modules: Vec<bool>,
}

impl Clone for QrCode {
    /// Returns a symbol with the same modules, version, level and mask.
    fn clone(&self) -> (copy: Self)
        ensures
            copy.spec_version() == self.spec_version(),
            copy.spec_size() == self.spec_size(),
            copy.spec_error_correction_level() == self.spec_error_correction_level(),
            copy.spec_mask() == self.spec_mask(),
            copy.spec_modules() == self.spec_modules(),
    {
        proof {
            use_type_invariant(self);
        }
        let modules: Vec<bool> = self.modules.clone();
        assert(modules@ =~= self.modules@);
        QrCode {
            version: self.version,
            size: self.size,
            errorcorrectionlevel: self.errorcorrectionlevel,
            mask: self.mask,
            modules,
        }
    }
}

impl QrCode {
    /// The side is that of the version, and there is one module for each
    /// place of the square.
    #[verifier::type_invariant]
    spec fn consistent(&self) -> bool {
        &&& 1 <= self.version.spec_value() <= 40
        &&& self.size == symbol_size(self.version.spec_value())
        &&& self.modules@.len() == self.size * self.size
    }

    /// The version of the symbol.
    pub closed spec fn spec_version(&self) -> Version {
        self.version
    }

    /// The side of the symbol, in modules.
    pub closed spec fn spec_size(&self) -> int {
        self.size as int
    }

    /// The error correction level of the symbol.
    pub closed spec fn spec_error_correction_level(&self) -> QrCodeEcc {
        self.errorcorrectionlevel
    }

    /// The mask of the symbol.
    pub closed spec fn spec_mask(&self) -> Mask {
        self.mask
    }

    /// The modules of the symbol, row after row.
    pub closed spec fn spec_modules(&self) -> Seq<bool> {
        self.modules@
    }

    /// The colour of the module in column `x` of row `y`; light outside the symbol.
    pub open spec fn spec_module(&self, x: int, y: int) -> bool {
        0 <= x < self.spec_size() && 0 <= y < self.spec_size() && self.spec_modules()[y
            * self.spec_size() + x]
    }

    /// Creates the symbol of the given version and level that carries the
    /// given data codewords, of which there must be as many as the symbol
    /// holds. The mask is the one given, or else the one with the least
    /// penalty score.
    pub fn encode_codewords(
        ver: Version,
        ecl: QrCodeEcc,
        datacodewords: &[u8],
        msk: Option<Mask>,
    ) -> (qr: QrCode)
        requires
            datacodewords@.len() == num_data_codewords(ver.spec_value(), ecl),
        ensures
            qr.spec_version() == ver,
            qr.spec_error_correction_level() == ecl,
            qr.spec_size() == symbol_size(ver.spec_value()),
            qr.spec_mask().spec_value() == chosen_mask(ver.spec_value(), ecl, datacodewords@, msk),
            qr.spec_modules() == flat(
                symbol_canvas(
                    ver.spec_value(),
                    ecl,
                    datacodewords@,
                    qr.spec_mask().spec_value(),
                ).dark,
            ),
    {
        let v: u8 = ver.value();
        let size: i32 = (v as i32) * 4 + 17;
        let ghost n = size as int;
        let ghost data = datacodewords@;
        let ghost p = unmasked_canvas(v as int, ecl, data);
        proof {
            lemma_raw_bounds(v as int);
            lemma_layout(v as int, ecl);
            lemma_unmasked_canvas(v as int, ecl, data);
        }

        let mut grid = Grid::new(size);
        grid.draw_function_patterns(ver, ecl);
        let allcodewords: Vec<u8> = add_ecc_and_interleave(ver, ecl, datacodewords);
        grid.draw_codewords(allcodewords.as_slice());
        assert(grid@ == p);

        let chosen: Mask = match msk {
            Some(m) => m,
            None => {
                let mut best: Mask = Mask::new(0);
                let mut minpenalty: i32 = i32::MAX;
                for i in 0..8u8
                    invariant
                        grid.wf(),
                        grid.spec_size() == size,
                        n == size,
                        21 <= size <= 177,
                        v == ver.spec_value(),
                        data == datacodewords@,
                        size == symbol_size(v as int),
                        p == unmasked_canvas(v as int, ecl, data),
                        same_but_format(grid@, p, n),
                        i == 0 ==> minpenalty == i32::MAX,
                        i > 0 ==> best.spec_value() == best_mask_upto(v as int, ecl, data, i as nat),
                        i > 0 ==> minpenalty == symbol_penalty(
                            v as int,
                            ecl,
                            data,
                            best.spec_value(),
                        ),
                {
                    let m = Mask::new(i);
                    let ghost before = grid@;
                    grid.apply_mask(m);
                    grid.draw_format_bits(ecl, m);
                    proof {
                        lemma_candidate(before, p, n, i as int, format_word(ecl, i as int));
                    }
                    assert(grid@ == symbol_canvas(v as int, ecl, data, i as int));
                    let penalty: i32 = grid.get_penalty_score();
                    if penalty < minpenalty {
                        best = m;
                        minpenalty = penalty;
                    }
                    grid.apply_mask(m);
                    proof {
                        lemma_undo(before, p, n, i as int, format_word(ecl, i as int));
                    }
                }
                best
            },
        };
        let ghost before = grid@;
        grid.apply_mask(chosen);
        grid.draw_format_bits(ecl, chosen);
        proof {
            lemma_candidate(
                before,
                p,
                n,
                chosen.spec_value(),
                format_word(ecl, chosen.spec_value()),
            );
            lemma_flat_index(n, 0, 0);
        }
        let modules: Vec<bool> = grid.into_modules();
        QrCode { version: ver, size, errorcorrectionlevel: ecl, mask: chosen, modules }
    }

    /// Returns the version of this symbol, which is between 1 and 40.
    pub fn version(&self) -> (v: Version)
        ensures
            v == self.spec_version(),
    {
        self.version
    }

    /// Returns the side of this symbol, which is its version times four
    /// plus 17: an odd number between 21 and 177.
    pub fn size(&self) -> (s: i32)
        ensures
            s == self.spec_size(),
            s == symbol_size(self.spec_version().spec_value()),
            21 <= s <= 177,
            s % 2 == 1,
    {
        proof {
            use_type_invariant(self);
        }
        self.size
    }

    /// Returns the error correction level of this symbol.
    pub fn error_correction_level(&self) -> (e: QrCodeEcc)
        ensures
            e == self.spec_error_correction_level(),
    {
        self.errorcorrectionlevel
    }

    /// Returns the mask of this symbol.
    pub fn mask(&self) -> (m: Mask)
        ensures
            m == self.spec_mask(),
    {
        self.mask
    }

    /// Returns the colour of the module at the given coordinates: true
    /// for dark, false for light, and false outside the symbol.
    pub fn get_module(&self, x: i32, y: i32) -> (dark: bool)
        ensures
            dark == self.spec_module(x as int, y as int),
    {
        proof {
            use_type_invariant(self);
        }
        0 <= x && x < self.size && 0 <= y && y < self.size && self.module(x, y)
    }

    /// Returns the colour of the module at the given coordinates, which
    /// must lie inside the symbol.
    pub fn module(&self, x: i32, y: i32) -> (dark: bool)
        requires
            0 <= x < self.spec_size(),
            0 <= y < self.spec_size(),
        ensures
            dark == self.spec_module(x as int, y as int),
    {
        proof {
            use_type_invariant(self);
            lemma_flat_index(self.size as int, x as int, y as int);
        }
        self.modules[(y * self.size + x) as usize]
    }
}

} // verus!
