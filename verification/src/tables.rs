//! How many codewords a symbol holds, and how they are split into blocks.

use vstd::prelude::*;
use crate::types::{QrCodeEcc, Version};

verus! {

/// Error correction codewords in each block, by level (in order of
/// strength) and version. Column 0 stands for no version.
pub const ECC_CODEWORDS_PER_BLOCK: [[i8; 41]; 4] = [
    [-1, 7, 10, 15, 20, 26, 18, 20, 24, 30, 18, 20, 24, 26, 30, 22, 24, 28, 30, 28, 28, 28, 28, 30, 30, 26, 28, 30, 30, 30, 30, 30, 30, 30, 30, 30, 30, 30, 30, 30, 30],
    [-1, 10, 16, 26, 18, 24, 16, 18, 22, 22, 26, 30, 22, 22, 24, 24, 28, 28, 26, 26, 26, 26, 28, 28, 28, 28, 28, 28, 28, 28, 28, 28, 28, 28, 28, 28, 28, 28, 28, 28, 28],
    [-1, 13, 22, 18, 26, 18, 24, 18, 22, 20, 24, 28, 26, 24, 20, 30, 24, 28, 28, 26, 30, 28, 30, 30, 30, 30, 28, 30, 30, 30, 30, 30, 30, 30, 30, 30, 30, 30, 30, 30, 30],
    [-1, 17, 28, 22, 16, 22, 28, 26, 26, 24, 28, 24, 28, 22, 24, 24, 30, 28, 28, 26, 28, 30, 24, 30, 30, 30, 30, 30, 30, 30, 30, 30, 30, 30, 30, 30, 30, 30, 30, 30, 30],
];

/// Number of error correction blocks, by level (in order of strength) and
/// version. Column 0 stands for no version.
pub const NUM_ERROR_CORRECTION_BLOCKS: [[i8; 41]; 4] = [
    [-1, 1, 1, 1, 1, 1, 2, 2, 2, 2, 4, 4, 4, 4, 4, 6, 6, 6, 6, 7, 8, 8, 9, 9, 10, 12, 12, 12, 13, 14, 15, 16, 17, 18, 19, 19, 20, 21, 22, 24, 25],
    [-1, 1, 1, 1, 2, 2, 4, 4, 4, 5, 5, 5, 8, 9, 9, 10, 10, 11, 13, 14, 16, 17, 17, 18, 20, 21, 23, 25, 26, 28, 29, 31, 33, 35, 37, 38, 40, 43, 45, 47, 49],
    [-1, 1, 1, 2, 2, 4, 4, 6, 6, 8, 8, 8, 10, 12, 16, 12, 17, 16, 18, 21, 20, 23, 23, 25, 27, 29, 34, 34, 35, 38, 40, 43, 45, 48, 51, 53, 56, 59, 62, 65, 68],
    [-1, 1, 1, 2, 4, 4, 4, 5, 6, 8, 8, 11, 11, 16, 16, 18, 16, 19, 21, 25, 25, 25, 34, 30, 32, 35, 37, 40, 42, 45, 48, 51, 54, 57, 60, 63, 66, 70, 74, 77, 81],
];

/// The number of modules of a symbol of the given version that carry
/// data and error correction bits: all modules but those of the function
/// patterns. Remainder bits are counted in.
pub open spec fn num_raw_data_modules(ver: int) -> int {
    let all = (16 * ver + 128) * ver + 64;
    if ver >= 2 {
        let numalign = ver / 7 + 2;
        let aligned = all - ((25 * numalign - 10) * numalign - 55);
        if ver >= 7 {
            aligned - 36
        } else {
            aligned
        }
    } else {
        all
    }
}

/// Error correction codewords in each block of a symbol.
pub open spec fn ecc_codewords_per_block(ver: int, ecl: QrCodeEcc) -> int {
    ECC_CODEWORDS_PER_BLOCK[ecl.spec_ordinal()][ver] as int
}

/// Number of error correction blocks of a symbol.
pub open spec fn num_error_correction_blocks(ver: int, ecl: QrCodeEcc) -> int {
    NUM_ERROR_CORRECTION_BLOCKS[ecl.spec_ordinal()][ver] as int
}

/// The number of codewords of a symbol, data and error correction together.
pub open spec fn num_raw_codewords(ver: int) -> int {
    num_raw_data_modules(ver) / 8
}

/// The number of data codewords of a symbol: all its codewords but
/// those of error correction.
pub open spec fn num_data_codewords(ver: int, ecl: QrCodeEcc) -> int {
    num_raw_codewords(ver) - ecc_codewords_per_block(ver, ecl) * num_error_correction_blocks(
        ver,
        ecl,
    )
}

/// The side of a symbol of the given version, in modules.
pub open spec fn symbol_size(ver: int) -> int {
    ver * 4 + 17
}

/// The side of every symbol is odd and lies between 21 and 177.
pub proof fn lemma_symbol_size(ver: int)
    requires
        1 <= ver <= 40,
    ensures
        symbol_size(ver) == ver * 4 + 17,
        symbol_size(ver) % 2 == 1,
        21 <= symbol_size(ver) <= 177,
{
}

/// Codeword counts lie in the range that the smallest and the largest symbol give.
pub proof fn lemma_raw_bounds(ver: int)
    requires
        1 <= ver <= 40,
    ensures
        208 <= num_raw_data_modules(ver) <= 29648,
        26 <= num_raw_codewords(ver) <= 3706,
{
    assert((16 * ver + 128) * ver == 16 * (ver * ver) + 128 * ver) by (nonlinear_arith);
    assert(1 <= ver * ver <= 1600) by (nonlinear_arith)
        requires
            1 <= ver <= 40,
    ;
    let numalign = ver / 7 + 2;
    assert(2 <= numalign <= 7);
    assert((25 * numalign - 10) * numalign == 25 * (numalign * numalign) - 10 * numalign)
        by (nonlinear_arith);
    assert(numalign * numalign == if ver < 7 {
        4int
    } else if ver < 14 {
        9int
    } else if ver < 21 {
        16int
    } else if ver < 28 {
        25int
    } else if ver < 35 {
        36int
    } else {
        49int
    }) by (nonlinear_arith)
        requires
            1 <= ver <= 40,
            numalign == ver / 7 + 2,
    ;
    if ver < 35 {
        assert(ver * ver <= 1156) by (nonlinear_arith)
            requires
                1 <= ver <= 34,
        ;
    }
}

/// How the codewords of a symbol are split into blocks. All blocks carry
/// the same number of error correction codewords; the first `num_short`
/// blocks carry `short_data_len` data codewords, the others one more.
pub struct BlockLayout {
    pub num_blocks: int,
    pub ecc_len: int,
    pub num_short: int,
    pub short_data_len: int,
}

impl BlockLayout {
    /// The layout of a symbol of the given version and level.
    pub open spec fn of(ver: int, ecl: QrCodeEcc) -> BlockLayout {
        let raw = num_raw_codewords(ver);
        let nb = num_error_correction_blocks(ver, ecl);
        let ecc = ecc_codewords_per_block(ver, ecl);
        BlockLayout {
            num_blocks: nb,
            ecc_len: ecc,
            num_short: nb - raw % nb,
            short_data_len: raw / nb - ecc,
        }
    }

    /// At least one block, at least one short block, at least one data
    /// codeword in each, and a generator polynomial of a degree that a
    /// byte can count.
    pub open spec fn wf(self) -> bool {
        &&& 1 <= self.num_short <= self.num_blocks <= 81
        &&& 1 <= self.ecc_len <= 30
        &&& 1 <= self.short_data_len <= 3706
    }

    /// The number of data codewords of all blocks together.
    pub open spec fn data_len(self) -> int {
        self.num_blocks * self.short_data_len + (self.num_blocks - self.num_short)
    }

    /// The number of codewords of all blocks together.
    pub open spec fn raw_len(self) -> int {
        self.data_len() + self.num_blocks * self.ecc_len
    }

    /// The number of data codewords of block `j`.
    pub open spec fn block_data_len(self, j: int) -> int {
        if j < self.num_short {
            self.short_data_len
        } else {
            self.short_data_len + 1
        }
    }

    /// Where the data codewords of block `j` begin among all data codewords.
    pub open spec fn block_start(self, j: int) -> int {
        if j < self.num_short {
            j * self.short_data_len
        } else {
            j * self.short_data_len + (j - self.num_short)
        }
    }
}

/// What holds of the tables at one version and level.
pub open spec fn layout_facts(ver: int, ecl: QrCodeEcc) -> bool {
    let l = BlockLayout::of(ver, ecl);
    &&& l.wf()
    &&& l.data_len() == num_data_codewords(ver, ecl)
    &&& l.raw_len() == num_raw_codewords(ver)
    &&& 9 <= num_data_codewords(ver, ecl) <= 2956
}

/// What the two tables hold at one version and level, beside the number
/// of codewords of that version.
pub open spec fn table_facts(ver: int, ecl: QrCodeEcc) -> bool {
    let raw = num_raw_codewords(ver);
    let nb = num_error_correction_blocks(ver, ecl);
    let ecc = ecc_codewords_per_block(ver, ecl);
    &&& 1 <= nb <= 81
    &&& 1 <= ecc <= 30
    &&& nb * (ecc + 1) <= raw
    &&& 9 <= raw - nb * ecc <= 2956
}

/// What the two tables hold at one version, at each of the four levels.
pub open spec fn version_facts(ver: int) -> bool {
    &&& table_facts(ver, QrCodeEcc::Low)
    &&& table_facts(ver, QrCodeEcc::Medium)
    &&& table_facts(ver, QrCodeEcc::Quartile)
    &&& table_facts(ver, QrCodeEcc::High)
    &&& capacity_order(ver)
}

/// The tables fit the number of codewords of every version.
pub proof fn lemma_table_values(ver: int, ecl: QrCodeEcc)
    requires
        1 <= ver <= 40,
    ensures
        table_facts(ver, ecl),
{
    lemma_version_facts(ver);
}

/// The facts of the tables hold at every version.
pub proof fn lemma_version_facts(ver: int)
    requires
        1 <= ver <= 40,
    ensures
        version_facts(ver),
{
    if ver <= 10 {
        lemma_version_facts_1_to_10(ver);
    } else if ver <= 20 {
        lemma_version_facts_11_to_20(ver);
    } else if ver <= 30 {
        lemma_version_facts_21_to_30(ver);
    } else {
        lemma_version_facts_31_to_40(ver);
    }
}

/// The facts of the tables at the versions 1 to 10, each version settled
/// by itself once the number of its modules is worked out.
proof fn lemma_version_facts_1_to_10(ver: int)
    requires
        1 <= ver <= 10,
    ensures
        version_facts(ver),
{
    assert(num_raw_data_modules(1) == 208) by (nonlinear_arith);
    assert(version_facts(1)) by (nonlinear_arith)
        requires
            num_raw_data_modules(1) == 208,
    ;
    assert(num_raw_data_modules(2) == 359) by (nonlinear_arith);
    assert(version_facts(2)) by (nonlinear_arith)
        requires
            num_raw_data_modules(2) == 359,
    ;
    assert(num_raw_data_modules(3) == 567) by (nonlinear_arith);
    assert(version_facts(3)) by (nonlinear_arith)
        requires
            num_raw_data_modules(3) == 567,
    ;
    assert(num_raw_data_modules(4) == 807) by (nonlinear_arith);
    assert(version_facts(4)) by (nonlinear_arith)
        requires
            num_raw_data_modules(4) == 807,
    ;
    assert(num_raw_data_modules(5) == 1079) by (nonlinear_arith);
    assert(version_facts(5)) by (nonlinear_arith)
        requires
            num_raw_data_modules(5) == 1079,
    ;
    assert(num_raw_data_modules(6) == 1383) by (nonlinear_arith);
    assert(version_facts(6)) by (nonlinear_arith)
        requires
            num_raw_data_modules(6) == 1383,
    ;
    assert(num_raw_data_modules(7) == 1568) by (nonlinear_arith);
    assert(version_facts(7)) by (nonlinear_arith)
        requires
            num_raw_data_modules(7) == 1568,
    ;
    assert(num_raw_data_modules(8) == 1936) by (nonlinear_arith);
    assert(version_facts(8)) by (nonlinear_arith)
        requires
            num_raw_data_modules(8) == 1936,
    ;
    assert(num_raw_data_modules(9) == 2336) by (nonlinear_arith);
    assert(version_facts(9)) by (nonlinear_arith)
        requires
            num_raw_data_modules(9) == 2336,
    ;
    assert(num_raw_data_modules(10) == 2768) by (nonlinear_arith);
    assert(version_facts(10)) by (nonlinear_arith)
        requires
            num_raw_data_modules(10) == 2768,
    ;
}

/// The facts of the tables at the versions 11 to 20, each version settled
/// by itself once the number of its modules is worked out.
proof fn lemma_version_facts_11_to_20(ver: int)
    requires
        11 <= ver <= 20,
    ensures
        version_facts(ver),
{
    assert(num_raw_data_modules(11) == 3232) by (nonlinear_arith);
    assert(version_facts(11)) by (nonlinear_arith)
        requires
            num_raw_data_modules(11) == 3232,
    ;
    assert(num_raw_data_modules(12) == 3728) by (nonlinear_arith);
    assert(version_facts(12)) by (nonlinear_arith)
        requires
            num_raw_data_modules(12) == 3728,
    ;
    assert(num_raw_data_modules(13) == 4256) by (nonlinear_arith);
    assert(version_facts(13)) by (nonlinear_arith)
        requires
            num_raw_data_modules(13) == 4256,
    ;
    assert(num_raw_data_modules(14) == 4651) by (nonlinear_arith);
    assert(version_facts(14)) by (nonlinear_arith)
        requires
            num_raw_data_modules(14) == 4651,
    ;
    assert(num_raw_data_modules(15) == 5243) by (nonlinear_arith);
    assert(version_facts(15)) by (nonlinear_arith)
        requires
            num_raw_data_modules(15) == 5243,
    ;
    assert(num_raw_data_modules(16) == 5867) by (nonlinear_arith);
    assert(version_facts(16)) by (nonlinear_arith)
        requires
            num_raw_data_modules(16) == 5867,
    ;
    assert(num_raw_data_modules(17) == 6523) by (nonlinear_arith);
    assert(version_facts(17)) by (nonlinear_arith)
        requires
            num_raw_data_modules(17) == 6523,
    ;
    assert(num_raw_data_modules(18) == 7211) by (nonlinear_arith);
    assert(version_facts(18)) by (nonlinear_arith)
        requires
            num_raw_data_modules(18) == 7211,
    ;
    assert(num_raw_data_modules(19) == 7931) by (nonlinear_arith);
    assert(version_facts(19)) by (nonlinear_arith)
        requires
            num_raw_data_modules(19) == 7931,
    ;
    assert(num_raw_data_modules(20) == 8683) by (nonlinear_arith);
    assert(version_facts(20)) by (nonlinear_arith)
        requires
            num_raw_data_modules(20) == 8683,
    ;
}

/// The facts of the tables at the versions 21 to 30, each version settled
/// by itself once the number of its modules is worked out.
proof fn lemma_version_facts_21_to_30(ver: int)
    requires
        21 <= ver <= 30,
    ensures
        version_facts(ver),
{
    assert(num_raw_data_modules(21) == 9252) by (nonlinear_arith);
    assert(version_facts(21)) by (nonlinear_arith)
        requires
            num_raw_data_modules(21) == 9252,
    ;
    assert(num_raw_data_modules(22) == 10068) by (nonlinear_arith);
    assert(version_facts(22)) by (nonlinear_arith)
        requires
            num_raw_data_modules(22) == 10068,
    ;
    assert(num_raw_data_modules(23) == 10916) by (nonlinear_arith);
    assert(version_facts(23)) by (nonlinear_arith)
        requires
            num_raw_data_modules(23) == 10916,
    ;
    assert(num_raw_data_modules(24) == 11796) by (nonlinear_arith);
    assert(version_facts(24)) by (nonlinear_arith)
        requires
            num_raw_data_modules(24) == 11796,
    ;
    assert(num_raw_data_modules(25) == 12708) by (nonlinear_arith);
    assert(version_facts(25)) by (nonlinear_arith)
        requires
            num_raw_data_modules(25) == 12708,
    ;
    assert(num_raw_data_modules(26) == 13652) by (nonlinear_arith);
    assert(version_facts(26)) by (nonlinear_arith)
        requires
            num_raw_data_modules(26) == 13652,
    ;
    assert(num_raw_data_modules(27) == 14628) by (nonlinear_arith);
    assert(version_facts(27)) by (nonlinear_arith)
        requires
            num_raw_data_modules(27) == 14628,
    ;
    assert(num_raw_data_modules(28) == 15371) by (nonlinear_arith);
    assert(version_facts(28)) by (nonlinear_arith)
        requires
            num_raw_data_modules(28) == 15371,
    ;
    assert(num_raw_data_modules(29) == 16411) by (nonlinear_arith);
    assert(version_facts(29)) by (nonlinear_arith)
        requires
            num_raw_data_modules(29) == 16411,
    ;
    assert(num_raw_data_modules(30) == 17483) by (nonlinear_arith);
    assert(version_facts(30)) by (nonlinear_arith)
        requires
            num_raw_data_modules(30) == 17483,
    ;
}

/// The facts of the tables at the versions 31 to 40, each version settled
/// by itself once the number of its modules is worked out.
proof fn lemma_version_facts_31_to_40(ver: int)
    requires
        31 <= ver <= 40,
    ensures
        version_facts(ver),
{
    assert(num_raw_data_modules(31) == 18587) by (nonlinear_arith);
    assert(version_facts(31)) by (nonlinear_arith)
        requires
            num_raw_data_modules(31) == 18587,
    ;
    assert(num_raw_data_modules(32) == 19723) by (nonlinear_arith);
    assert(version_facts(32)) by (nonlinear_arith)
        requires
            num_raw_data_modules(32) == 19723,
    ;
    assert(num_raw_data_modules(33) == 20891) by (nonlinear_arith);
    assert(version_facts(33)) by (nonlinear_arith)
        requires
            num_raw_data_modules(33) == 20891,
    ;
    assert(num_raw_data_modules(34) == 22091) by (nonlinear_arith);
    assert(version_facts(34)) by (nonlinear_arith)
        requires
            num_raw_data_modules(34) == 22091,
    ;
    assert(num_raw_data_modules(35) == 23008) by (nonlinear_arith);
    assert(version_facts(35)) by (nonlinear_arith)
        requires
            num_raw_data_modules(35) == 23008,
    ;
    assert(num_raw_data_modules(36) == 24272) by (nonlinear_arith);
    assert(version_facts(36)) by (nonlinear_arith)
        requires
            num_raw_data_modules(36) == 24272,
    ;
    assert(num_raw_data_modules(37) == 25568) by (nonlinear_arith);
    assert(version_facts(37)) by (nonlinear_arith)
        requires
            num_raw_data_modules(37) == 25568,
    ;
    assert(num_raw_data_modules(38) == 26896) by (nonlinear_arith);
    assert(version_facts(38)) by (nonlinear_arith)
        requires
            num_raw_data_modules(38) == 26896,
    ;
    assert(num_raw_data_modules(39) == 28256) by (nonlinear_arith);
    assert(version_facts(39)) by (nonlinear_arith)
        requires
            num_raw_data_modules(39) == 28256,
    ;
    assert(num_raw_data_modules(40) == 29648) by (nonlinear_arith);
    assert(version_facts(40)) by (nonlinear_arith)
        requires
            num_raw_data_modules(40) == 29648,
    ;
}

/// From what the tables hold at one version and level, the layout of
/// the blocks is well formed and accounts for every codeword.
proof fn lemma_layout_case(ver: int, ecl: QrCodeEcc, raw: int, nb: int, ecc: int)
    requires
        1 <= ver <= 40,
        raw == num_raw_codewords(ver),
        nb == num_error_correction_blocks(ver, ecl),
        ecc == ecc_codewords_per_block(ver, ecl),
        1 <= nb <= 81,
        1 <= ecc <= 30,
        nb * (ecc + 1) <= raw,
        9 <= raw - nb * ecc <= 2956,
        26 <= raw <= 3706,
    ensures
        layout_facts(ver, ecl),
{
    let l = BlockLayout::of(ver, ecl);
    let q = raw / nb;
    let r = raw % nb;
    vstd::arithmetic::div_mod::lemma_fundamental_div_mod(raw, nb);
    vstd::arithmetic::div_mod::lemma_mod_bound(raw, nb);
    assert(raw == nb * q + r);
    assert(q >= ecc + 1) by (nonlinear_arith)
        requires
            raw == nb * q + r,
            0 <= r < nb,
            nb * (ecc + 1) <= raw,
            nb >= 1,
    ;
    assert(q <= raw) by (nonlinear_arith)
        requires
            raw == nb * q + r,
            0 <= r,
            nb >= 1,
            q >= 0,
    ;
    assert(nb * (q - ecc) == nb * q - nb * ecc) by (nonlinear_arith);
    assert(nb * ecc == ecc * nb) by (nonlinear_arith);
    assert(l.num_blocks * l.short_data_len == nb * (q - ecc));
}

/// At every version and level the blocks are well formed and hold
/// together exactly the codewords of the symbol.
pub proof fn lemma_layout(ver: int, ecl: QrCodeEcc)
    requires
        1 <= ver <= 40,
    ensures
        layout_facts(ver, ecl),
{
    lemma_raw_bounds(ver);
    let raw = num_raw_codewords(ver);
    let nb = num_error_correction_blocks(ver, ecl);
    let ecc = ecc_codewords_per_block(ver, ecl);
    lemma_table_values(ver, ecl);
    lemma_layout_case(ver, ecl, raw, nb, ecc);
}

/// Returns the number of modules of a symbol of the given version that
/// carry data and error correction bits.
pub fn get_num_raw_data_modules(ver: Version) -> (result: usize)
    ensures
        result == num_raw_data_modules(ver.spec_value()),
        208 <= result <= 29648,
{
    let v: usize = ver.value() as usize;
    proof {
        lemma_raw_bounds(v as int);
        assert((16 * v + 128) * v <= 768 * 40) by (nonlinear_arith)
            requires
                1 <= v <= 40,
        ;
    }
    let mut result: usize = (16 * v + 128) * v + 64;
    if v >= 2 {
        let numalign: usize = v / 7 + 2;
        proof {
            assert(0 <= (25 * numalign - 10) * numalign <= 165 * 7) by (nonlinear_arith)
                requires
                    2 <= numalign <= 7,
            ;
            assert((25 * numalign - 10) * numalign >= 40 * 2) by (nonlinear_arith)
                requires
                    2 <= numalign <= 7,
            ;
        }
        result -= (25 * numalign - 10) * numalign - 55;
        if v >= 7 {
            result -= 36;
        }
    }
    result
}

/// Returns the entry of one of the two tables for the given version and level.
pub fn table_get(table: &[[i8; 41]; 4], ver: Version, ecl: QrCodeEcc) -> (result: usize)
    requires
        table[ecl.spec_ordinal()][ver.spec_value()] >= 0,
    ensures
        result == table[ecl.spec_ordinal()][ver.spec_value()],
{
    table[ecl.ordinal()][ver.value() as usize] as usize
}

/// Returns the number of data codewords of a symbol of the given version and level.
pub fn get_num_data_codewords(ver: Version, ecl: QrCodeEcc) -> (result: usize)
    ensures
        result == num_data_codewords(ver.spec_value(), ecl),
        9 <= result <= 2956,
{
    let v: u8 = ver.value();
    proof {
        lemma_table_values(ver.spec_value(), ecl);
        lemma_layout(ver.spec_value(), ecl);
        let nb = num_error_correction_blocks(ver.spec_value(), ecl);
        let ecc = ecc_codewords_per_block(ver.spec_value(), ecl);
        assert(0 <= ecc * nb <= 30 * 81) by (nonlinear_arith)
            requires
                1 <= nb <= 81,
                1 <= ecc <= 30,
        ;
    }
    get_num_raw_data_modules(ver) / 8 - table_get(&ECC_CODEWORDS_PER_BLOCK, ver, ecl) * table_get(
        &NUM_ERROR_CORRECTION_BLOCKS,
        ver,
        ecl,
    )
}

/// What holds of the capacities of one version: a stronger level holds
/// no more data, and up to version 26 no level holds more than 1370
/// data codewords.
pub open spec fn capacity_order(ver: int) -> bool {
    &&& ver <= 26 ==> num_data_codewords(ver, QrCodeEcc::Low) <= 1370
    &&& num_data_codewords(ver, QrCodeEcc::High) <= num_data_codewords(ver, QrCodeEcc::Quartile)
    &&& num_data_codewords(ver, QrCodeEcc::Quartile) <= num_data_codewords(
        ver,
        QrCodeEcc::Medium,
    )
    &&& num_data_codewords(ver, QrCodeEcc::Medium) <= num_data_codewords(ver, QrCodeEcc::Low)
}

/// At every version a stronger level holds no more data than a weaker
/// one, and the versions up to 26 hold at most 1370 data codewords.
pub proof fn lemma_capacity_order(ver: int)
    requires
        1 <= ver <= 40,
    ensures
        capacity_order(ver),
{
    lemma_version_facts(ver);
}

} // verus!
