//! From segments to a symbol: choosing the version and the error
//! correction level, and assembling the data codewords.

use vstd::prelude::*;
use vstd::arithmetic::power2::{lemma2_to64, lemma_pow2_pos, pow2};
use crate::placement::codeword_bits;
use crate::qrcode::{chosen_mask, symbol_canvas, QrCode};
use crate::grid::flat;
use crate::segment::{
    bits_of, segment_fits, stream_len, text_segments,
    total_bits, views, BitBuffer, QrSegment, QrSegmentMode, SegmentView,
};
use crate::tables::{
    get_num_data_codewords, lemma_capacity_order, lemma_layout, lemma_table_values,
    num_data_codewords, symbol_size,
};
use crate::types::{bit_is_set, DataTooLong, Mask, QrCodeEcc, QrError, Version};

verus! {

/// The number of data bits that a symbol of the given version and level holds.
pub open spec fn data_capacity_bits(ver: int, ecl: QrCodeEcc) -> int {
    8 * num_data_codewords(ver, ecl)
}

/// Whether the segments fit into a symbol of the given version and level.
pub open spec fn fits(segs: Seq<SegmentView>, ver: int, ecl: QrCodeEcc) -> bool {
    match total_bits(segs, ver) {
        Some(n) => n <= data_capacity_bits(ver, ecl),
        None => false,
    }
}

/// The smallest version from `from` to `to` into which the segments fit
/// at the given level, if there is one.
pub open spec fn first_fit(segs: Seq<SegmentView>, ecl: QrCodeEcc, from: int, to: int) -> Option<
    int,
>
    decreases to - from + 1,
{
    if from > to {
        None
    } else if fits(segs, from, ecl) {
        Some(from)
    } else {
        first_fit(segs, ecl, from + 1, to)
    }
}

/// The level that is used for data of `used` bits at the given version.
/// Where boosting is asked for, the levels Medium, Quartile and High are
/// tried in this order, and each that still holds the data is taken.
pub open spec fn boosted_level(used: int, ver: int, ecl: QrCodeEcc, boost: bool) -> QrCodeEcc {
    if !boost {
        ecl
    } else if used <= data_capacity_bits(ver, QrCodeEcc::High) {
        QrCodeEcc::High
    } else if used <= data_capacity_bits(ver, QrCodeEcc::Quartile) {
        QrCodeEcc::Quartile
    } else if used <= data_capacity_bits(ver, QrCodeEcc::Medium) {
        QrCodeEcc::Medium
    } else {
        ecl
    }
}

/// The bits of the first `n` segments one after another: for each its
/// mode, its character count in the width of the version's tier, and its data.
pub open spec fn segment_stream(segs: Seq<SegmentView>, ver: int, n: nat) -> Seq<bool>
    decreases n,
{
    if n == 0 {
        Seq::empty()
    } else {
        let seg = segs[n - 1];
        segment_stream(segs, ver, (n - 1) as nat) + bits_of(seg.mode.spec_mode_bits() as u32, 4)
            + bits_of(seg.numchars as u32, seg.mode.spec_num_char_count_bits(ver)) + seg.data
    }
}

/// A run of zero bits.
pub open spec fn zeros(n: int) -> Seq<bool> {
    Seq::new(n as nat, |i: int| false)
}

/// The bits with the terminator: up to four zero bits, as far as the capacity allows.
pub open spec fn terminated(bits: Seq<bool>, capacity: int) -> Seq<bool> {
    let room = capacity - bits.len();
    bits + zeros(
        if room < 4 {
            room
        } else {
            4
        },
    )
}

/// The bits filled up with zero bits to a whole number of bytes.
pub open spec fn byte_aligned(bits: Seq<bool>) -> Seq<bool> {
    bits + zeros((8 - bits.len() % 8) % 8)
}

/// The pad byte number `k`: 0xEC and 0x11 by turns.
pub open spec fn pad_byte(k: int) -> u8 {
    if k % 2 == 0 {
        0xECu8
    } else {
        0x11u8
    }
}

/// The first `n` bits of the run of pad bytes.
pub open spec fn pad_bits(n: int) -> Seq<bool> {
    Seq::new(n as nat, |i: int| bit_is_set(pad_byte(i / 8) as u32, 7 - i % 8))
}

/// The bits filled up with pad bytes to the capacity.
pub open spec fn padded(bits: Seq<bool>, capacity: int) -> Seq<bool> {
    bits + pad_bits(capacity - bits.len())
}

/// The number that the first `n` bits spell, the first bit counting most.
pub open spec fn bits_value(bits: Seq<bool>, n: nat) -> int
    decreases n,
{
    if n == 0 {
        0
    } else {
        2 * bits_value(bits, (n - 1) as nat) + (if bits[n - 1] {
            1int
        } else {
            0int
        })
    }
}

/// The bits packed into bytes, eight to a byte, the first bit counting most.
pub open spec fn packed(bits: Seq<bool>) -> Seq<u8> {
    Seq::new((bits.len() / 8) as nat, |k: int| bits_value(bits.subrange(8 * k, 8 * k + 8), 8) as u8)
}

/// The data codewords of the segments in a symbol of the given version
/// and level: the segment bits, the terminator, zero bits to the end of
/// the byte, pad bytes to the capacity, all packed into bytes.
pub open spec fn data_codewords(segs: Seq<SegmentView>, ver: int, ecl: QrCodeEcc) -> Seq<u8> {
    let capacity = data_capacity_bits(ver, ecl);
    packed(
        padded(byte_aligned(terminated(segment_stream(segs, ver, segs.len()), capacity)), capacity),
    )
}

/// What encoding segments yields. Where the segments fit a version of
/// the range, the symbol of the smallest such version, at the level that
/// boosting leaves, of the data codewords of the segments. Where they fit
/// none, the error says why the largest version does not hold them: a
/// segment is too long for its count field, or the bits needed exceed
/// the bits there are.
pub open spec fn encoding_of(
    segs: Seq<SegmentView>,
    ecl: QrCodeEcc,
    min: int,
    max: int,
    mask: Option<Mask>,
    boost: bool,
    r: Result<QrCode, DataTooLong>,
) -> bool {
    match first_fit(segs, ecl, min, max) {
        Some(ver) => {
            let level = boosted_level(total_bits(segs, ver)->0, ver, ecl, boost);
            let data = data_codewords(segs, ver, level);
            &&& r matches Ok(qr)
            &&& qr.spec_version().spec_value() == ver
            &&& qr.spec_error_correction_level() == level
            &&& qr.spec_size() == symbol_size(ver)
            &&& qr.spec_mask().spec_value() == chosen_mask(ver, level, data, mask)
            &&& qr.spec_modules() == flat(
                symbol_canvas(ver, level, data, qr.spec_mask().spec_value()).dark,
            )
        },
        None => match total_bits(segs, max) {
            None => r == Err::<QrCode, DataTooLong>(DataTooLong::SegmentTooLong),
            Some(n) => r == Err::<QrCode, DataTooLong>(
                DataTooLong::DataOverCapacity(n as usize, data_capacity_bits(max, ecl) as usize),
            ),
        },
    }
}

/// The stream of the first `n` segments is as long as the count of their bits.
pub proof fn lemma_segment_stream_len(segs: Seq<SegmentView>, ver: int, n: nat)
    requires
        1 <= ver <= 40,
    ensures
        segment_stream(segs, ver, n).len() == stream_len(segs, ver, n),
    decreases n,
{
    if n > 0 {
        lemma_segment_stream_len(segs, ver, (n - 1) as nat);
    }
}

/// The zero value has no bit set.
pub proof fn lemma_bits_of_zero(len: int)
    requires
        0 <= len <= 31,
    ensures
        bits_of(0, len) == zeros(len),
{
    assert forall|i: int| 0 <= i < len implies #[trigger] bits_of(0, len)[i] == false by {
        let j: u32 = (len - 1 - i) as u32;
        assert((0u32 >> j) & 1u32 == 0) by (bit_vector);
    }
    assert(bits_of(0, len) =~= zeros(len));
}

/// The first `n` bits spell a number below two to the power `n`.
pub proof fn lemma_bits_value_bound(bits: Seq<bool>, n: nat)
    ensures
        0 <= bits_value(bits, n) < pow2(n),
    decreases n,
{
    if n == 0 {
        lemma2_to64();
    } else {
        lemma_bits_value_bound(bits, (n - 1) as nat);
        vstd::arithmetic::power2::lemma_pow2_unfold(n);
    }
}

/// From version 27 on the segments take the same number of bits at every version.
pub proof fn lemma_stream_len_top_tier(segs: Seq<SegmentView>, ver: int, n: nat)
    requires
        27 <= ver <= 40,
    ensures
        stream_len(segs, ver, n) == stream_len(segs, 40, n),
    decreases n,
{
    if n > 0 {
        lemma_stream_len_top_tier(segs, ver, (n - 1) as nat);
    }
}

/// At no version do the segments take fewer than half the bits that
/// they take at version 40.
pub proof fn lemma_stream_len_halves(segs: Seq<SegmentView>, ver: int, n: nat)
    requires
        1 <= ver <= 40,
    ensures
        stream_len(segs, 40, n) <= 2 * stream_len(segs, ver, n),
    decreases n,
{
    if n > 0 {
        lemma_stream_len_halves(segs, ver, (n - 1) as nat);
    }
}

/// Segments that take more bits at version 40 than the largest symbol
/// holds, which are 23648, fit no version at any level.
pub proof fn lemma_too_long_fits_nowhere(segs: Seq<SegmentView>, ecl: QrCodeEcc, ver: int)
    requires
        1 <= ver <= 40,
        total_bits(segs, 40) is Some,
        total_bits(segs, 40)->0 > 23648,
    ensures
        !fits(segs, ver, ecl),
{
    lemma_table_values(ver, ecl);
    lemma_layout(ver, ecl);
    lemma_capacity_order(ver);
    if ver >= 27 {
        lemma_stream_len_top_tier(segs, ver, segs.len());
    } else {
        lemma_stream_len_halves(segs, ver, segs.len());
    }
}

/// Encoding segments that take more than 23648 bits at version 40, each
/// with a character count that fits its field there, fails at every
/// level, whatever range of versions ends at 40, and the error names the
/// bits needed and the bits that version 40 holds at that level.
pub proof fn lemma_over_capacity(
    segs: Seq<SegmentView>,
    ecl: QrCodeEcc,
    min: int,
    mask: Option<Mask>,
    boost: bool,
    r: Result<QrCode, DataTooLong>,
)
    requires
        1 <= min <= 40,
        total_bits(segs, 40) is Some,
        total_bits(segs, 40)->0 > 23648,
        encoding_of(segs, ecl, min, 40, mask, boost, r),
    ensures
        r == Err::<QrCode, DataTooLong>(
            DataTooLong::DataOverCapacity(
                total_bits(segs, 40)->0 as usize,
                data_capacity_bits(40, ecl) as usize,
            ),
        ),
{
    lemma_first_fit_none(segs, ecl, min, 40);
}

/// Segments that take more than 23648 bits at version 40 have no first
/// fit in any range of versions.
pub proof fn lemma_first_fit_none(segs: Seq<SegmentView>, ecl: QrCodeEcc, from: int, to: int)
    requires
        1 <= from,
        to <= 40,
        total_bits(segs, 40) is Some,
        total_bits(segs, 40)->0 > 23648,
    ensures
        first_fit(segs, ecl, from, to) is None,
    decreases to - from + 1,
{
    if from <= to {
        lemma_too_long_fits_nowhere(segs, ecl, from);
        lemma_first_fit_none(segs, ecl, from + 1, to);
    }
}

/// The value of eight bits shows each of them at its place: packing
/// bits into a byte and taking the byte apart gives back the bits.
pub proof fn lemma_byte_bits(byte: Seq<bool>, j: int)
    requires
        byte.len() == 8,
        0 <= j < 8,
    ensures
        0 <= bits_value(byte, 8) < 256,
        bit_is_set(bits_value(byte, 8) as u8 as u32, 7 - j) == byte[j],
{
    reveal_with_fuel(bits_value, 9);
    let x0: u32 = if byte[0] { 1 } else { 0 };
    let x1: u32 = if byte[1] { 1 } else { 0 };
    let x2: u32 = if byte[2] { 1 } else { 0 };
    let x3: u32 = if byte[3] { 1 } else { 0 };
    let x4: u32 = if byte[4] { 1 } else { 0 };
    let x5: u32 = if byte[5] { 1 } else { 0 };
    let x6: u32 = if byte[6] { 1 } else { 0 };
    let x7: u32 = if byte[7] { 1 } else { 0 };
    let v: u32 = (((((((x0 * 2 + x1) * 2 + x2) * 2 + x3) * 2 + x4) * 2 + x5) * 2 + x6) * 2
        + x7) as u32;
    assert(v == bits_value(byte, 8));
    assert(x0 <= 1 && x1 <= 1 && x2 <= 1 && x3 <= 1 && x4 <= 1 && x5 <= 1 && x6 <= 1 && x7 <= 1
        && v == (((((((x0 * 2 + x1) * 2 + x2) * 2 + x3) * 2 + x4) * 2 + x5) * 2 + x6) * 2 + x7)
        ==> v < 256 && ((v >> 7u32) & 1u32 != 0) == (x0 == 1) && ((v >> 6u32) & 1u32 != 0) == (x1
        == 1) && ((v >> 5u32) & 1u32 != 0) == (x2 == 1) && ((v >> 4u32) & 1u32 != 0) == (x3 == 1)
        && ((v >> 3u32) & 1u32 != 0) == (x4 == 1) && ((v >> 2u32) & 1u32 != 0) == (x5 == 1) && ((v
        >> 1u32) & 1u32 != 0) == (x6 == 1) && ((v >> 0u32) & 1u32 != 0) == (x7 == 1))
        by (bit_vector);
}

/// Taking the packed bytes apart gives back the bits that were packed.
pub proof fn lemma_packed_bits(bits: Seq<bool>)
    requires
        bits.len() % 8 == 0,
    ensures
        codeword_bits(packed(bits)) == bits,
{
    let bytes = packed(bits);
    assert forall|i: int| 0 <= i < bits.len() implies #[trigger] codeword_bits(bytes)[i]
        == bits[i] by {
        let k = i / 8;
        let j = i % 8;
        let byte = bits.subrange(8 * k, 8 * k + 8);
        lemma_byte_bits(byte, j);
        assert(byte[j] == bits[i]);
    }
    assert(codeword_bits(bytes) =~= bits);
}

/// Returns the smallest version of the range that holds the segments at
/// the given level, with the number of bits they take there; or the
/// reason why the largest version of the range does not hold them.
pub fn choose_version(
    segs: &[QrSegment],
    ecl: QrCodeEcc,
    minversion: Version,
    maxversion: Version,
) -> (r: Result<(Version, usize), DataTooLong>)
    requires
        minversion.spec_value() <= maxversion.spec_value(),
    ensures
        match first_fit(views(segs@), ecl, minversion.spec_value(), maxversion.spec_value()) {
            Some(ver) => r matches Ok(found) && found.0.spec_value() == ver && total_bits(
                views(segs@),
                ver,
            ) == Some(found.1 as int) && fits(views(segs@), ver, ecl) && 1 <= ver <= 40,
            None => match total_bits(views(segs@), maxversion.spec_value()) {
                None => r == Err::<(Version, usize), DataTooLong>(DataTooLong::SegmentTooLong),
                Some(n) => r == Err::<(Version, usize), DataTooLong>(
                    DataTooLong::DataOverCapacity(
                        n as usize,
                        data_capacity_bits(maxversion.spec_value(), ecl) as usize,
                    ),
                ),
            },
        },
{
    let ghost all = views(segs@);
    let ghost min = minversion.spec_value();
    let ghost max = maxversion.spec_value();
    let minv: u8 = minversion.value();
    let maxv: u8 = maxversion.value();
    let mut version: Version = minversion;
    loop
        invariant
            all == views(segs@),
            min == minversion.spec_value(),
            max == maxversion.spec_value(),
            maxv == max,
            1 <= min <= version.spec_value() <= max <= 40,
            first_fit(all, ecl, min, max) == first_fit(all, ecl, version.spec_value(), max),
        decreases max - version.spec_value(),
    {
        let v: u8 = version.value();
        let datacapacitybits: usize = get_num_data_codewords(version, ecl) * 8;
        let dataused: Option<usize> = QrSegment::get_total_bits(segs, version);
        match dataused {
            Some(n) => {
                if n <= datacapacitybits {
                    return Ok((version, n));
                }
            },
            None => {},
        }
        assert(!fits(all, v as int, ecl));
        if v >= maxv {
            assert(first_fit(all, ecl, v + 1, max) is None);
            return Err(
                match dataused {
                    None => DataTooLong::SegmentTooLong,
                    Some(n) => DataTooLong::DataOverCapacity(n, datacapacitybits),
                },
            );
        }
        version = Version::new(v + 1);
    }
}

/// Returns the level that is used for data of `used` bits at the given version.
pub fn boost_level(used: usize, version: Version, ecl: QrCodeEcc, boostecl: bool) -> (level:
    QrCodeEcc)
    ensures
        level == boosted_level(used as int, version.spec_value(), ecl, boostecl),
{
    let ver: u8 = version.value();
    let mut level: QrCodeEcc = ecl;
    if boostecl {
        if used <= get_num_data_codewords(version, QrCodeEcc::Medium) * 8 {
            level = QrCodeEcc::Medium;
        }
        if used <= get_num_data_codewords(version, QrCodeEcc::Quartile) * 8 {
            level = QrCodeEcc::Quartile;
        }
        if used <= get_num_data_codewords(version, QrCodeEcc::High) * 8 {
            level = QrCodeEcc::High;
        }
    }
    proof {
        lemma_capacity_order(ver as int);
    }
    level
}

/// Returns the bits packed into bytes, eight to a byte, the first bit
/// counting most. The number of bits must be a multiple of eight.
pub fn pack_bits(bits: &Vec<bool>) -> (bytes: Vec<u8>)
    requires
        bits@.len() % 8 == 0,
    ensures
        bytes@ == packed(bits@),
{
    let ghost full = bits@;
    let numbytes: usize = bits.len() / 8;
    let mut bytes: Vec<u8> = Vec::new();
    for k in 0..numbytes
        invariant
            full == bits@,
            full.len() == 8 * numbytes,
            8 * numbytes <= usize::MAX,
            bytes@ == packed(full).take(k as int),
    {
        let mut acc: u8 = 0;
        let ghost byte = full.subrange(8 * k, 8 * k + 8);
        for j in 0..8usize
            invariant
                0 <= k < numbytes,
                full == bits@,
                full.len() == 8 * numbytes,
                8 * numbytes <= usize::MAX,
                byte == full.subrange(8 * k, 8 * k + 8),
                acc == bits_value(byte, j as nat),
        {
            proof {
                lemma_bits_value_bound(byte, j as nat);
                lemma_bits_value_bound(byte, (j + 1) as nat);
                lemma2_to64();
                if j + 1 < 8 {
                    vstd::arithmetic::power2::lemma_pow2_strictly_increases((j + 1) as nat, 8);
                }
            }
            let bit: bool = bits[8 * k + j];
            assert(bit == byte[j as int]);
            acc = acc * 2 + (if bit {
                1
            } else {
                0
            });
        }
        bytes.push(acc);
        assert(bytes@ =~= packed(full).take(k + 1));
    }
    assert(bytes@ =~= packed(full));
    bytes
}

/// Returns the bits of the given segments one after another, as they
/// stand in a symbol of the given version. Every character count must
/// fit its field.
pub fn concatenate_segments(segs: &[QrSegment], version: Version) -> (bb: BitBuffer)
    requires
        total_bits(views(segs@), version.spec_value()) is Some,
    ensures
        bb.0@ == segment_stream(views(segs@), version.spec_value(), segs@.len()),
        bb.0@.len() == total_bits(views(segs@), version.spec_value())->0,
{
    let ghost all = views(segs@);
    let ver: u8 = version.value();
    let mut bb = BitBuffer(Vec::new());
    let n: usize = segs.len();
    proof {
        lemma2_to64();
    }
    for k in 0..n
        invariant
            n == segs@.len(),
            all == views(segs@),
            ver == version.spec_value(),
            1 <= ver <= 40,
            total_bits(all, ver as int) is Some,
            pow2(4) == 16,
            bb.0@ == segment_stream(all, ver as int, k as nat),
    {
        let seg: &QrSegment = &segs[k];
        assert(seg@ == all[k as int]);
        assert(segment_fits(all[k as int], ver as int));
        let ccbits: u8 = seg.mode().num_char_count_bits(version);
        proof {
            vstd::arithmetic::power2::lemma_pow2_strictly_increases(ccbits as nat, 17);
            lemma2_to64();
        }
        bb.append_bits(seg.mode().mode_bits(), 4);
        bb.append_bits(seg.num_chars() as u32, ccbits);
        bb.0.extend_from_slice(seg.data().as_slice());
    }
    proof {
        lemma_segment_stream_len(all, ver as int, n as nat);
    }
    bb
}

/// Returns the data codewords of the segments in a symbol of the given
/// version and level, which must hold them.
pub fn assemble_data_codewords(segs: &[QrSegment], version: Version, level: QrCodeEcc) -> (data:
    Vec<u8>)
    requires
        fits(views(segs@), version.spec_value(), level),
    ensures
        data@ == data_codewords(views(segs@), version.spec_value(), level),
        data@.len() == num_data_codewords(version.spec_value(), level),
{
    let ghost all = views(segs@);
    let ver: u8 = version.value();
    let mut bb: BitBuffer = concatenate_segments(segs, version);
    let ghost stream = bb.0@;

    // Add the terminator and fill up the last byte.
    let datacapacitybits: usize = get_num_data_codewords(version, level) * 8;
    let room: usize = datacapacitybits - bb.0.len();
    let numzerobits: usize = if room < 4 {
        room
    } else {
        4
    };
    proof {
        lemma_pow2_pos(numzerobits as nat);
        lemma_bits_of_zero(numzerobits as int);
    }
    bb.append_bits(0, numzerobits as u8);
    let ghost ended = terminated(stream, datacapacitybits as int);
    assert(bb.0@ == ended);
    let numzerobits: usize = (8 - bb.0.len() % 8) % 8;
    proof {
        lemma_pow2_pos(numzerobits as nat);
        lemma_bits_of_zero(numzerobits as int);
    }
    bb.append_bits(0, numzerobits as u8);
    let ghost aligned = byte_aligned(ended);
    assert(bb.0@ == aligned);

    // Fill up with pad bytes.
    let mut padcount: usize = 0;
    proof {
        lemma2_to64();
    }
    assert(bb.0@ =~= aligned + pad_bits(0));
    while bb.0.len() < datacapacitybits
        invariant
            datacapacitybits % 8 == 0,
            datacapacitybits <= 8 * 2956,
            aligned.len() % 8 == 0,
            aligned.len() <= datacapacitybits,
            pow2(8) == 256,
            bb.0@ == aligned + pad_bits(8 * padcount),
            bb.0@.len() <= datacapacitybits,
        decreases datacapacitybits - bb.0.len(),
    {
        let padbyte: u32 = if padcount % 2 == 0 {
            0xEC
        } else {
            0x11
        };
        bb.append_bits(padbyte, 8);
        padcount += 1;
        assert(bb.0@ =~= aligned + pad_bits(8 * padcount));
    }
    assert(bb.0@ == padded(aligned, datacapacitybits as int));
    pack_bits(&bb.0)
}

impl QrCode {
    /// Returns the symbol that holds the given text at the given error
    /// correction level or a higher one, in the smallest version that can
    /// hold it; or the reason why no version can.
    pub fn encode_text(text: &str, ecl: QrCodeEcc) -> (r: Result<QrCode, DataTooLong>)
        ensures
            encoding_of(text_segments(text), ecl, 1, 40, None, true, r),
    {
        let segs: Vec<QrSegment> = QrSegment::make_segments(text);
        QrCode::encode_segments(segs.as_slice(), ecl)
    }

    /// Returns the symbol that holds the given bytes in byte mode at the
    /// given error correction level or a higher one, in the smallest
    /// version that can hold them; or the reason why no version can.
    pub fn encode_binary(data: &[u8], ecl: QrCodeEcc) -> (r: Result<QrCode, DataTooLong>)
        ensures
            encoding_of(
                seq![
                    (SegmentView {
                        mode: QrSegmentMode::Byte,
                        numchars: data@.len(),
                        data: codeword_bits(data@),
                    }),
                ],
                ecl,
                1,
                40,
                None,
                true,
                r,
            ),
    {
        let mut segs: Vec<QrSegment> = Vec::new();
        segs.push(QrSegment::make_bytes(data));
        assert(views(segs@) =~= seq![
            (SegmentView {
                mode: QrSegmentMode::Byte,
                numchars: data@.len(),
                data: codeword_bits(data@),
            }),
        ]);
        QrCode::encode_segments(segs.as_slice(), ecl)
    }

    /// Returns the symbol that holds the given segments at the given
    /// error correction level or a higher one, in the smallest version
    /// that can hold them; or the reason why no version can.
    pub fn encode_segments(segs: &[QrSegment], ecl: QrCodeEcc) -> (r: Result<QrCode, DataTooLong>)
        ensures
            encoding_of(views(segs@), ecl, 1, 40, None, true, r),
    {
        QrCode::encode_segments_advanced(
            segs,
            ecl,
            Version::lowest(),
            Version::highest(),
            None,
            true,
        )
    }

    /// Returns the symbol that holds the given segments as
    /// [`QrCode::encode_segments_advanced`] does, or says that the first
    /// version of the range is greater than the last, or why the
    /// segments fit no version of the range.
    pub fn try_encode_segments_advanced(
        segs: &[QrSegment],
        ecl: QrCodeEcc,
        minversion: Version,
        maxversion: Version,
        mask: Option<Mask>,
        boostecl: bool,
    ) -> (r: Result<QrCode, QrError>)
        ensures
            minversion.spec_value() > maxversion.spec_value() ==> r == Err::<QrCode, QrError>(
                QrError::InvalidArgument,
            ),
            minversion.spec_value() <= maxversion.spec_value() ==> match r {
                Ok(qr) => encoding_of(
                    views(segs@),
                    ecl,
                    minversion.spec_value(),
                    maxversion.spec_value(),
                    mask,
                    boostecl,
                    Ok(qr),
                ),
                Err(QrError::DataTooLong(e)) => encoding_of(
                    views(segs@),
                    ecl,
                    minversion.spec_value(),
                    maxversion.spec_value(),
                    mask,
                    boostecl,
                    Err(e),
                ),
                Err(_) => false,
            },
    {
        if minversion.value() > maxversion.value() {
            return Err(QrError::InvalidArgument);
        }
        match QrCode::encode_segments_advanced(segs, ecl, minversion, maxversion, mask, boostecl) {
            Ok(qr) => Ok(qr),
            Err(e) => Err(QrError::DataTooLong(e)),
        }
    }

    /// Returns the symbol that holds the given segments, in the smallest
    /// version of the given range that can hold them at the given error
    /// correction level. Where `boostecl` is set the level is raised as
    /// far as that version allows. The mask is the one given, or else the
    /// one with the least penalty score. The first version of the range
    /// must not be greater than the last.
    pub fn encode_segments_advanced(
        segs: &[QrSegment],
        ecl: QrCodeEcc,
        minversion: Version,
        maxversion: Version,
        mask: Option<Mask>,
        boostecl: bool,
    ) -> (r: Result<QrCode, DataTooLong>)
        requires
            minversion.spec_value() <= maxversion.spec_value(),
        ensures
            encoding_of(
                views(segs@),
                ecl,
                minversion.spec_value(),
                maxversion.spec_value(),
                mask,
                boostecl,
                r,
            ),
    {
        let (version, datausedbits) = match choose_version(segs, ecl, minversion, maxversion) {
            Ok(found) => found,
            Err(e) => {
                return Err(e);
            },
        };
        let level: QrCodeEcc = boost_level(datausedbits, version, ecl, boostecl);
        let datacodewords: Vec<u8> = assemble_data_codewords(segs, version, level);
        Ok(QrCode::encode_codewords(version, level, datacodewords.as_slice(), mask))
    }
}

} // verus!
