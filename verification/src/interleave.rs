//! Splitting the data codewords into blocks, giving each block its error
//! correction codewords, and interleaving the blocks.

use vstd::prelude::*;
use vstd::arithmetic::div_mod::lemma_fundamental_div_mod_converse;
use crate::reed_solomon::{
    reed_solomon_compute_divisor, reed_solomon_compute_remainder, rs_divisor, rs_remainder,
    lemma_remainder_len,
};
use crate::tables::{
    get_num_raw_data_modules, lemma_layout, lemma_table_values, num_data_codewords,
    num_raw_codewords, table_get, BlockLayout, ECC_CODEWORDS_PER_BLOCK,
    NUM_ERROR_CORRECTION_BLOCKS,
};
use crate::types::{QrCodeEcc, Version};

verus! {

/// The data codewords of block `j`.
pub open spec fn block_data(data: Seq<u8>, l: BlockLayout, j: int) -> Seq<u8> {
    data.subrange(l.block_start(j), l.block_start(j) + l.block_data_len(j))
}

/// The error correction codewords of block `j`.
pub open spec fn block_ecc(data: Seq<u8>, l: BlockLayout, j: int) -> Seq<u8> {
    rs_remainder(block_data(data, l, j), rs_divisor(l.ecc_len as nat))
}

/// The codeword at place `k` of the interleaved sequence. First come the
/// data codewords that every block has, taken round the blocks; then the
/// one more data codeword of each long block; then the error correction
/// codewords, taken round the blocks.
pub open spec fn interleaved_at(data: Seq<u8>, l: BlockLayout, k: int) -> u8 {
    let full = l.num_blocks * l.short_data_len;
    if k < full {
        block_data(data, l, k % l.num_blocks)[k / l.num_blocks]
    } else if k < l.data_len() {
        block_data(data, l, l.num_short + (k - full))[l.short_data_len]
    } else {
        block_ecc(data, l, (k - l.data_len()) % l.num_blocks)[(k - l.data_len()) / l.num_blocks]
    }
}

/// All codewords of a symbol in the order in which they are placed.
pub open spec fn interleaved(data: Seq<u8>, l: BlockLayout) -> Seq<u8> {
    Seq::new(l.raw_len() as nat, |k: int| interleaved_at(data, l, k))
}

/// The place in the interleaved sequence at which data codeword `m` stands.
pub open spec fn data_position(l: BlockLayout, m: int) -> int {
    let short_total = l.num_short * l.short_data_len;
    if m < short_total {
        (m % l.short_data_len) * l.num_blocks + m / l.short_data_len
    } else {
        let long_len = l.short_data_len + 1;
        let i = (m - short_total) % long_len;
        let j = (m - short_total) / long_len;
        if i < l.short_data_len {
            i * l.num_blocks + (l.num_short + j)
        } else {
            l.num_blocks * l.short_data_len + j
        }
    }
}

/// The data codewords read back out of an interleaved sequence.
pub open spec fn deinterleaved(raw: Seq<u8>, l: BlockLayout) -> Seq<u8> {
    Seq::new(l.data_len() as nat, |m: int| raw[data_position(l, m)])
}

/// Block `j` as it is laid out for interleaving: its data, one filler
/// byte where the block is short, then its error correction codewords.
pub open spec fn padded_block(data: Seq<u8>, l: BlockLayout, j: int) -> Seq<u8> {
    if j < l.num_short {
        block_data(data, l, j) + seq![0u8] + block_ecc(data, l, j)
    } else {
        block_data(data, l, j) + block_ecc(data, l, j)
    }
}

/// Where row `i` of the padded blocks begins in the interleaved sequence.
pub open spec fn row_start(l: BlockLayout, i: int) -> int {
    if i <= l.short_data_len {
        i * l.num_blocks
    } else {
        l.data_len() + (i - l.short_data_len - 1) * l.num_blocks
    }
}

/// How many codewords of row `i` come before block `j`.
pub open spec fn row_offset(l: BlockLayout, i: int, j: int) -> int {
    if i == l.short_data_len {
        if j < l.num_short {
            0
        } else {
            j - l.num_short
        }
    } else {
        j
    }
}

/// Quotient and remainder of `q * d + r` where `r` is below `d`.
pub proof fn lemma_div_mod_of(q: int, d: int, r: int)
    requires
        0 <= r < d,
    ensures
        (q * d + r) / d == q,
        (q * d + r) % d == r,
{
    lemma_fundamental_div_mod_converse(q * d + r, d, q, r);
}

/// The blocks lie one after another and fill the data codewords.
pub proof fn lemma_block_bounds(l: BlockLayout, j: int)
    requires
        l.wf(),
        0 <= j < l.num_blocks,
    ensures
        0 <= l.block_start(j),
        l.block_start(j) + l.block_data_len(j) == l.block_start(j + 1),
        l.block_start(j + 1) <= l.data_len(),
        l.block_start(l.num_blocks) == l.data_len(),
        l.block_start(0) == 0,
{
    let s = l.short_data_len;
    assert((j + 1) * s == j * s + s) by (nonlinear_arith);
    assert(0 <= j * s) by (nonlinear_arith)
        requires
            0 <= j,
            0 <= s,
    ;
    assert((j + 1) * s <= l.num_blocks * s) by (nonlinear_arith)
        requires
            j + 1 <= l.num_blocks,
            0 <= s,
    ;
}

/// Each row of the padded blocks follows the row before it.
pub proof fn lemma_row_bounds(l: BlockLayout, i: int)
    requires
        l.wf(),
        0 <= i <= l.short_data_len + l.ecc_len,
    ensures
        0 <= row_start(l, i),
        row_start(l, i) + row_offset(l, i, l.num_blocks) == row_start(l, i + 1),
        row_start(l, i + 1) <= l.raw_len(),
        row_start(l, l.short_data_len + l.ecc_len + 1) == l.raw_len(),
        row_start(l, 0) == 0,
{
    let nb = l.num_blocks;
    let s = l.short_data_len;
    assert((i + 1) * nb == i * nb + nb) by (nonlinear_arith);
    assert((i - s) * nb == (i - s - 1) * nb + nb) by (nonlinear_arith);
    assert(s * nb == nb * s) by (nonlinear_arith);
    assert(l.ecc_len * nb == nb * l.ecc_len) by (nonlinear_arith);
    assert(0 <= i * nb) by (nonlinear_arith)
        requires
            0 <= i,
            0 <= nb,
    ;
    assert((s + l.ecc_len + 1 - s - 1) * nb == l.ecc_len * nb);
    if i == s {
        assert((i + 1 - s - 1) * nb == 0) by (nonlinear_arith)
            requires
                i == s,
        ;
    }
    if i <= s {
        assert((i + 1) * nb <= (s + 1) * nb) by (nonlinear_arith)
            requires
                i <= s,
                0 <= nb,
        ;
        assert((s + 1) * nb == s * nb + nb) by (nonlinear_arith);
    } else {
        assert((i - s) * nb <= l.ecc_len * nb) by (nonlinear_arith)
            requires
                i - s <= l.ecc_len,
                0 <= nb,
        ;
        assert(0 <= (i - s - 1) * nb) by (nonlinear_arith)
            requires
                0 <= i - s - 1,
                0 <= nb,
        ;
    }
}

/// The codeword of block `j` in row `i` is the one that the interleaved
/// sequence holds at its place.
pub proof fn lemma_interleaved_entry(data: Seq<u8>, l: BlockLayout, i: int, j: int)
    requires
        l.wf(),
        data.len() == l.data_len(),
        0 <= i <= l.short_data_len + l.ecc_len,
        0 <= j < l.num_blocks,
        i != l.short_data_len || j >= l.num_short,
    ensures
        0 <= row_start(l, i) + row_offset(l, i, j) < l.raw_len(),
        padded_block(data, l, j).len() == l.short_data_len + 1 + l.ecc_len,
        interleaved_at(data, l, row_start(l, i) + row_offset(l, i, j)) == padded_block(
            data,
            l,
            j,
        )[i],
{
    let nb = l.num_blocks;
    let s = l.short_data_len;
    let pos = row_start(l, i) + row_offset(l, i, j);
    lemma_row_bounds(l, i);
    lemma_block_bounds(l, j);
    lemma_remainder_len(block_data(data, l, j), rs_divisor(l.ecc_len as nat), block_data(data, l, j).len());
    crate::reed_solomon::lemma_divisor_len(l.ecc_len as nat, l.ecc_len as nat);
    assert(block_ecc(data, l, j).len() == l.ecc_len);
    assert(s * nb == nb * s) by (nonlinear_arith);
    if i < s {
        lemma_div_mod_of(i, nb, j);
        assert(i * nb + nb <= s * nb) by (nonlinear_arith)
            requires
                i + 1 <= s,
                0 <= nb,
        ;
    } else if i == s {
    } else {
        let e = i - s - 1;
        lemma_div_mod_of(e, nb, j);
        assert(pos - l.data_len() == e * nb + j);
    }
}

/// De-interleaving gives back the data codewords: reading the
/// interleaved sequence at the place of each data codeword yields the
/// data that went in.
pub proof fn lemma_deinterleave(data: Seq<u8>, l: BlockLayout)
    requires
        l.wf(),
        data.len() == l.data_len(),
    ensures
        deinterleaved(interleaved(data, l), l) == data,
{
    let nb = l.num_blocks;
    let s = l.short_data_len;
    let ns = l.num_short;
    let short_total = ns * s;
    assert(s * nb == nb * s) by (nonlinear_arith);
    assert(0 <= short_total <= nb * s) by (nonlinear_arith)
        requires
            short_total == ns * s,
            0 <= ns <= nb,
            0 <= s,
    ;
    assert forall|m: int| 0 <= m < l.data_len() implies 0 <= data_position(l, m) < l.raw_len()
        && interleaved_at(data, l, data_position(l, m)) == data[m] by {
        assert(0 <= nb * l.ecc_len) by (nonlinear_arith)
            requires
                0 <= nb,
                0 <= l.ecc_len,
        ;
        if m < short_total {
            let i = m % s;
            let j = m / s;
            vstd::arithmetic::div_mod::lemma_fundamental_div_mod(m, s);
            vstd::arithmetic::div_mod::lemma_mod_bound(m, s);
            assert(m == s * j + i);
            assert(0 <= j < ns) by (nonlinear_arith)
                requires
                    m == s * j + i,
                    0 <= i < s,
                    0 <= m < ns * s,
            ;
            lemma_div_mod_of(i, nb, j);
            lemma_block_bounds(l, j);
            assert(i * nb + nb <= s * nb) by (nonlinear_arith)
                requires
                    i + 1 <= s,
                    0 <= nb,
            ;
            assert(j * s == s * j) by (nonlinear_arith);
            assert(0 <= i * nb) by (nonlinear_arith)
                requires
                    0 <= i,
                    0 <= nb,
            ;
        } else {
            let long_len = s + 1;
            let r = m - short_total;
            let i = r % long_len;
            let j = r / long_len;
            vstd::arithmetic::div_mod::lemma_fundamental_div_mod(r, long_len);
            vstd::arithmetic::div_mod::lemma_mod_bound(r, long_len);
            assert(r == long_len * j + i);
            assert(nb * s + (nb - ns) - ns * s == (nb - ns) * long_len) by (nonlinear_arith)
                requires
                    long_len == s + 1,
            ;
            assert(0 <= j < nb - ns) by (nonlinear_arith)
                requires
                    r == long_len * j + i,
                    0 <= i < long_len,
                    0 <= r < (nb - ns) * long_len,
            ;
            let jj = ns + j;
            lemma_block_bounds(l, jj);
            assert(jj * s + j == ns * s + long_len * j) by (nonlinear_arith)
                requires
                    jj == ns + j,
                    long_len == s + 1,
            ;
            if i < s {
                lemma_div_mod_of(i, nb, jj);
                assert(i * nb + nb <= s * nb) by (nonlinear_arith)
                    requires
                        i + 1 <= s,
                        0 <= nb,
                ;
                assert(0 <= i * nb) by (nonlinear_arith)
                    requires
                        0 <= i,
                        0 <= nb,
                ;
            }
        }
    }
    assert(deinterleaved(interleaved(data, l), l) =~= data);
}

/// For every version and level, the interleaved sequence has as many
/// codewords as the symbol holds, and de-interleaving it gives back the
/// data codewords that went in.
pub proof fn lemma_interleave_round_trip(ver: int, ecl: QrCodeEcc, data: Seq<u8>)
    requires
        1 <= ver <= 40,
        data.len() == num_data_codewords(ver, ecl),
    ensures
        interleaved(data, BlockLayout::of(ver, ecl)).len() == num_raw_codewords(ver),
        deinterleaved(interleaved(data, BlockLayout::of(ver, ecl)), BlockLayout::of(ver, ecl))
            == data,
{
    lemma_table_values(ver, ecl);
    lemma_layout(ver, ecl);
    lemma_deinterleave(data, BlockLayout::of(ver, ecl));
}

/// Returns the data codewords of a symbol followed through by their
/// error correction, block by block interleaved: the sequence that is
/// placed into the symbol. The data must be as long as the symbol's data
/// capacity.
pub fn add_ecc_and_interleave(ver: Version, ecl: QrCodeEcc, data: &[u8]) -> (result: Vec<u8>)
    requires
        data@.len() == num_data_codewords(ver.spec_value(), ecl),
    ensures
        result@ == interleaved(data@, BlockLayout::of(ver.spec_value(), ecl)),
        result@.len() == num_raw_codewords(ver.spec_value()),
{
    let v: u8 = ver.value();
    let ghost l = BlockLayout::of(ver.spec_value(), ecl);
    proof {
        lemma_table_values(ver.spec_value(), ecl);
        lemma_layout(ver.spec_value(), ecl);
    }
    let numblocks: usize = table_get(&NUM_ERROR_CORRECTION_BLOCKS, ver, ecl);
    let blockecclen: usize = table_get(&ECC_CODEWORDS_PER_BLOCK, ver, ecl);
    let rawcodewords: usize = get_num_raw_data_modules(ver) / 8;
    let numshortblocks: usize = numblocks - rawcodewords % numblocks;
    let shortblocklen: usize = rawcodewords / numblocks;
    let shortdatalen: usize = shortblocklen - blockecclen;

    let mut blocks: Vec<Vec<u8>> = Vec::new();
    let rsdiv: Vec<u8> = reed_solomon_compute_divisor(blockecclen);
    let mut k: usize = 0;
    for i in 0..numblocks
        invariant
            l == BlockLayout::of(ver.spec_value(), ecl),
            l.wf(),
            data@.len() == l.data_len(),
            l.data_len() <= 2956,
            numblocks == l.num_blocks,
            blockecclen == l.ecc_len,
            numshortblocks == l.num_short,
            shortdatalen == l.short_data_len,
            rsdiv@ == rs_divisor(l.ecc_len as nat),
            rsdiv@.len() == l.ecc_len,
            k == l.block_start(i as int),
            blocks@.len() == i,
            forall|j: int| 0 <= j < i ==> (#[trigger] blocks@[j])@ == padded_block(data@, l, j),
    {
        proof {
            lemma_block_bounds(l, i as int);
        }
        let datlen: usize = if i >= numshortblocks {
            shortdatalen + 1
        } else {
            shortdatalen
        };
        let mut dat: Vec<u8> = Vec::new();
        dat.extend_from_slice(vstd::slice::slice_subrange(data, k, k + datlen));
        assert(dat@ =~= block_data(data@, l, i as int));
        k += datlen;
        let ecc: Vec<u8> = reed_solomon_compute_remainder(dat.as_slice(), rsdiv.as_slice());
        if i < numshortblocks {
            dat.push(0);
        }
        dat.extend_from_slice(ecc.as_slice());
        assert(dat@ =~= padded_block(data@, l, i as int));
        blocks.push(dat);
    }

    let ghost all = interleaved(data@, l);
    let mut result: Vec<u8> = Vec::new();
    let mut i: usize = 0;
    while i <= shortblocklen
        invariant
            l.wf(),
            data@.len() == l.data_len(),
            numblocks == l.num_blocks,
            blockecclen == l.ecc_len,
            numshortblocks == l.num_short,
            shortdatalen == l.short_data_len,
            shortblocklen == l.short_data_len + l.ecc_len,
            l.raw_len() <= 3706,
            all == interleaved(data@, l),
            blocks@.len() == numblocks,
            forall|j: int|
                0 <= j < numblocks ==> (#[trigger] blocks@[j])@ == padded_block(data@, l, j),
            0 <= i <= shortblocklen + 1,
            result@.len() == row_start(l, i as int),
            result@ == all.subrange(0, result@.len() as int),
        decreases shortblocklen + 1 - i,
    {
        proof {
            lemma_row_bounds(l, i as int);
        }
        for j in 0..numblocks
            invariant
                l.wf(),
                data@.len() == l.data_len(),
                numblocks == l.num_blocks,
                blockecclen == l.ecc_len,
                numshortblocks == l.num_short,
                shortdatalen == l.short_data_len,
                shortblocklen == l.short_data_len + l.ecc_len,
                l.raw_len() <= 3706,
                all == interleaved(data@, l),
                blocks@.len() == numblocks,
                forall|b: int|
                    0 <= b < numblocks ==> (#[trigger] blocks@[b])@ == padded_block(data@, l, b),
                0 <= i <= shortblocklen,
                result@.len() == row_start(l, i as int) + row_offset(l, i as int, j as int),
                result@ == all.subrange(0, result@.len() as int),
        {
            if i != shortdatalen || j >= numshortblocks {
                proof {
                    lemma_interleaved_entry(data@, l, i as int, j as int);
                }
                let ghost before = result@;
                let block = &blocks[j];
                assert(block@ == padded_block(data@, l, j as int));
                result.push(block[i]);
                assert(result@ =~= all.subrange(0, result@.len() as int));
            }
        }
        i += 1;
    }
    proof {
        lemma_row_bounds(l, shortblocklen as int);
        assert(result@ =~= all);
    }
    result
}

} // verus!
