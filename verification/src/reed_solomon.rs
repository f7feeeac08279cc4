//! Reed-Solomon error correction over the field of 256 elements.
//!
//! A byte stands for a polynomial over GF(2) of degree below eight, bit `i`
//! being the coefficient of the power `i`. Sums are exclusive ors and
//! products are reduced modulo x^8 + x^4 + x^3 + x^2 + 1 (0x11D).

use vstd::prelude::*;

verus! {

/// True iff bit `i` of the byte is 1.
pub open spec fn byte_bit(y: u8, i: int) -> bool {
    (y >> (i as u8)) & 1u8 != 0
}

/// The field element times the indeterminate: a shift to the left, and
/// the feedback 0x1D where the shift drops the highest bit.
pub open spec fn gf_double(z: u8) -> u8 {
    if z >= 128 {
        (z << 1u8) ^ 0x1Du8
    } else {
        z << 1u8
    }
}

/// The product of `x` and the `n` highest bits of `y`, by Horner's rule:
/// the product so far is doubled, and `x` is added where the next bit of
/// `y` is 1.
pub open spec fn gf_mul_high(x: u8, y: u8, n: nat) -> u8
    decreases n,
{
    if n == 0 {
        0u8
    } else {
        let z = gf_double(gf_mul_high(x, y, (n - 1) as nat));
        if byte_bit(y, 8 - n) {
            z ^ x
        } else {
            z
        }
    }
}

/// The product of two field elements.
pub open spec fn gf_mul(x: u8, y: u8) -> u8 {
    gf_mul_high(x, y, 8)
}

/// The element 2 raised to the power `n`.
pub open spec fn gf_pow2(n: nat) -> u8
    decreases n,
{
    if n == 0 {
        1u8
    } else {
        gf_mul(gf_pow2((n - 1) as nat), 2u8)
    }
}

/// The polynomial 1, written as the coefficients below the leading one of
/// a monic polynomial of the given degree, highest power first.
pub open spec fn divisor_start(degree: nat) -> Seq<u8> {
    Seq::new(
        degree,
        |j: int|
            if j == degree - 1 {
                1u8
            } else {
                0u8
            },
    )
}

/// The lower coefficients of a monic polynomial times (x - root), the
/// coefficient that moves above the window being dropped.
pub open spec fn divisor_times_root(poly: Seq<u8>, root: u8) -> Seq<u8> {
    Seq::new(
        poly.len(),
        |j: int|
            if j + 1 < poly.len() {
                gf_mul(poly[j], root) ^ poly[j + 1]
            } else {
                gf_mul(poly[j], root)
            },
    )
}

/// The product of (x - 2^i) for i below `n`, in a window of `degree` coefficients.
pub open spec fn divisor_upto(degree: nat, n: nat) -> Seq<u8>
    decreases n,
{
    if n == 0 {
        divisor_start(degree)
    } else {
        divisor_times_root(divisor_upto(degree, (n - 1) as nat), gf_pow2((n - 1) as nat))
    }
}

/// The Reed-Solomon generator polynomial of the given degree: the product
/// of (x - 2^i) for i below the degree, as its coefficients from the
/// highest power down, without the leading 1.
pub open spec fn rs_divisor(degree: nat) -> Seq<u8> {
    divisor_upto(degree, degree)
}

/// One step of the long division: the remainder so far, times x, plus the
/// next data byte `b`, reduced by the divisor.
pub open spec fn remainder_step(rem: Seq<u8>, divisor: Seq<u8>, b: u8) -> Seq<u8> {
    let factor = b ^ rem[0];
    Seq::new(
        rem.len(),
        |i: int|
            if i + 1 < rem.len() {
                rem[i + 1] ^ gf_mul(divisor[i], factor)
            } else {
                gf_mul(divisor[i], factor)
            },
    )
}

/// The remainder after the first `n` data bytes.
pub open spec fn remainder_upto(data: Seq<u8>, divisor: Seq<u8>, n: nat) -> Seq<u8>
    decreases n,
{
    if n == 0 {
        Seq::new(divisor.len(), |i: int| 0u8)
    } else {
        remainder_step(remainder_upto(data, divisor, (n - 1) as nat), divisor, data[n - 1])
    }
}

/// The remainder of the data polynomial, times x to the divisor's degree,
/// divided by the divisor: the error correction codewords of one block.
pub open spec fn rs_remainder(data: Seq<u8>, divisor: Seq<u8>) -> Seq<u8> {
    remainder_upto(data, divisor, data.len())
}

/// A remainder has as many bytes as the divisor.
pub proof fn lemma_remainder_len(data: Seq<u8>, divisor: Seq<u8>, n: nat)
    ensures
        remainder_upto(data, divisor, n).len() == divisor.len(),
    decreases n,
{
    if n > 0 {
        lemma_remainder_len(data, divisor, (n - 1) as nat);
    }
}

/// A generator polynomial of degree `degree` has `degree` lower coefficients.
pub proof fn lemma_divisor_len(degree: nat, n: nat)
    ensures
        divisor_upto(degree, n).len() == degree,
    decreases n,
{
    if n > 0 {
        lemma_divisor_len(degree, (n - 1) as nat);
    }
}

/// Returns the product of the two given field elements.
pub fn reed_solomon_multiply(x: u8, y: u8) -> (z: u8)
    ensures
        z == gf_mul(x, y),
{
    let mut z: u8 = 0;
    let mut n: u8 = 0;
    while n < 8
        invariant
            n <= 8,
            z == gf_mul_high(x, y, n as nat),
        decreases 8 - n,
    {
        let i: u8 = 7 - n;
        z = if z >= 128 {
            (z << 1u8) ^ 0x1Du8
        } else {
            z << 1u8
        };
        if (y >> i) & 1u8 != 0 {
            z ^= x;
        }
        n += 1;
    }
    z
}

/// Returns the generator polynomial of the given degree, which must be
/// between 1 and 255.
pub fn reed_solomon_compute_divisor(degree: usize) -> (result: Vec<u8>)
    requires
        1 <= degree <= 255,
    ensures
        result@ == rs_divisor(degree as nat),
        result@.len() == degree,
{
    let mut result: Vec<u8> = vec![0u8; degree - 1];
    result.push(1);
    assert(result@ =~= divisor_start(degree as nat));

    let mut root: u8 = 1;
    for n in 0..degree
        invariant
            result@.len() == degree,
            result@ == divisor_upto(degree as nat, n as nat),
            root == gf_pow2(n as nat),
    {
        let ghost before = result@;
        for j in 0..degree
            invariant
                result@.len() == degree,
                before.len() == degree,
                forall|k: int| 0 <= k < j ==> result@[k] == divisor_times_root(before, root)[k],
                forall|k: int| j <= k < degree ==> result@[k] == before[k],
        {
            let mut c: u8 = reed_solomon_multiply(result[j], root);
            if j + 1 < result.len() {
                c ^= result[j + 1];
            }
            result.set(j, c);
        }
        assert(result@ =~= divisor_times_root(before, root));
        root = reed_solomon_multiply(root, 0x02);
    }
    result
}

/// Returns the remainder of the data divided by the divisor, which must
/// not be empty.
pub fn reed_solomon_compute_remainder(data: &[u8], divisor: &[u8]) -> (result: Vec<u8>)
    requires
        divisor@.len() >= 1,
    ensures
        result@ == rs_remainder(data@, divisor@),
        result@.len() == divisor@.len(),
{
    let len: usize = divisor.len();
    let mut result: Vec<u8> = vec![0u8; len];
    assert(result@ =~= remainder_upto(data@, divisor@, 0));
    for n in 0..data.len()
        invariant
            len == divisor@.len(),
            len >= 1,
            result@.len() == len,
            result@ == remainder_upto(data@, divisor@, n as nat),
    {
        let ghost before = result@;
        let factor: u8 = data[n] ^ result.remove(0);
        result.push(0);
        for i in 0..len
            invariant
                len == divisor@.len(),
                result@.len() == len,
                before.len() == len,
                len >= 1,
                factor == data@[n as int] ^ before[0],
                forall|k: int|
                    0 <= k < i ==> result@[k] == remainder_step(before, divisor@, data@[n as int])[k],
                forall|k: int| i <= k < len - 1 ==> result@[k] == before[k + 1],
                i < len ==> result@[len - 1] == 0u8,
        {
            let m: u8 = reed_solomon_multiply(divisor[i], factor);
            let old_byte: u8 = result[i];
            proof {
                if i == len - 1 {
                    lemma_xor_zero(m);
                }
            }
            result.set(i, old_byte ^ m);
        }
        assert(result@ =~= remainder_step(before, divisor@, data@[n as int]));
    }
    result
}

/// Adding zero changes nothing.
proof fn lemma_xor_zero(m: u8)
    ensures
        0u8 ^ m == m,
{
    assert(0u8 ^ m == m) by (bit_vector);
}

} // verus!
