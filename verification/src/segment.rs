//! Segments: pieces of data in one encoding mode, packed into bits.

use vstd::prelude::*;
use vstd::arithmetic::power2::{lemma2_to64, lemma_pow2_unfold, pow2};
use vstd::string::StringSliceAdditionalSpecFns;
use vstd::utf8::{is_ascii_chars, is_ascii_chars_encode_utf8};
use crate::placement::codeword_bits;
use crate::types::{bit_is_set, get_bit, QrError, Version};

verus! {

/// Describes how a segment's data bits are interpreted.
#[derive(Clone, Copy, PartialEq, Eq, Structural, Debug)]
pub enum QrSegmentMode {
    /// Decimal digits.
    Numeric,
    /// Digits, upper case letters, space and `$%*+-./:`.
    Alphanumeric,
    /// Arbitrary bytes.
    Byte,
    /// Japanese characters.
    Kanji,
    /// An Extended Channel Interpretation designator.
    Eci,
}

impl QrSegmentMode {
    /// The four bits that announce a segment of this mode.
    pub open spec fn spec_mode_bits(self) -> int {
        match self {
            QrSegmentMode::Numeric => 0x1,
            QrSegmentMode::Alphanumeric => 0x2,
            QrSegmentMode::Byte => 0x4,
            QrSegmentMode::Kanji => 0x8,
            QrSegmentMode::Eci => 0x7,
        }
    }

    /// The width of the character count field of a segment of this mode
    /// in a symbol of the given version. The versions fall into three
    /// tiers: 1 to 9, 10 to 26, and 27 to 40.
    pub open spec fn spec_num_char_count_bits(self, ver: int) -> int {
        let tier = (ver + 7) / 17;
        match self {
            QrSegmentMode::Numeric => if tier == 0 {
                10
            } else if tier == 1 {
                12
            } else {
                14
            },
            QrSegmentMode::Alphanumeric => if tier == 0 {
                9
            } else if tier == 1 {
                11
            } else {
                13
            },
            QrSegmentMode::Byte => if tier == 0 {
                8
            } else {
                16
            },
            QrSegmentMode::Kanji => if tier == 0 {
                8
            } else if tier == 1 {
                10
            } else {
                12
            },
            QrSegmentMode::Eci => 0,
        }
    }

    /// Returns the four bits that announce a segment of this mode.
    pub fn mode_bits(self) -> (r: u32)
        ensures
            r == self.spec_mode_bits(),
    {
        match self {
            QrSegmentMode::Numeric => 0x1,
            QrSegmentMode::Alphanumeric => 0x2,
            QrSegmentMode::Byte => 0x4,
            QrSegmentMode::Kanji => 0x8,
            QrSegmentMode::Eci => 0x7,
        }
    }

    /// Returns the width of the character count field of a segment of
    /// this mode in a symbol of the given version.
    pub fn num_char_count_bits(self, ver: Version) -> (r: u8)
        ensures
            r == self.spec_num_char_count_bits(ver.spec_value()),
            r <= 16,
    {
        let tier: u8 = (ver.value() + 7) / 17;
        match self {
            QrSegmentMode::Numeric => if tier == 0 {
                10
            } else if tier == 1 {
                12
            } else {
                14
            },
            QrSegmentMode::Alphanumeric => if tier == 0 {
                9
            } else if tier == 1 {
                11
            } else {
                13
            },
            QrSegmentMode::Byte => if tier == 0 {
                8
            } else {
                16
            },
            QrSegmentMode::Kanji => if tier == 0 {
                8
            } else if tier == 1 {
                10
            } else {
                12
            },
            QrSegmentMode::Eci => 0,
        }
    }
}

/// The `len` lowest bits of a value, the highest of them first.
pub open spec fn bits_of(val: u32, len: int) -> Seq<bool> {
    Seq::new(len as nat, |i: int| bit_is_set(val, len - 1 - i))
}

/// An appendable sequence of bits.
pub struct BitBuffer(pub Vec<bool>);

impl BitBuffer {
    /// Appends the `len` lowest bits of the value, the highest of them
    /// first. The value must fit into that many bits, and there may be
    /// no more than 31 of them.
    pub fn append_bits(&mut self, val: u32, len: u8)
        requires
            len <= 31,
            (val as int) < pow2(len as nat),
        ensures
            final(self).0@ == old(self).0@ + bits_of(val, len as int),
    {
        let mut i: i32 = len as i32;
        while i > 0
            invariant
                0 <= i <= len <= 31,
                self.0@ == old(self).0@ + bits_of(val, len as int).subrange(0, len - i),
            decreases i,
        {
            i -= 1;
            self.0.push(get_bit(val, i));
            assert(self.0@ =~= old(self).0@ + bits_of(val, len as int).subrange(0, len - i));
        }
        assert(bits_of(val, len as int).subrange(0, len as int) =~= bits_of(val, len as int));
    }
}

impl BitBuffer {
    /// Appends the `len` lowest bits of the value, the highest of them
    /// first; or says that there are more than 31 of them or that the
    /// value does not fit into that many bits, and leaves the buffer as it is.
    pub fn try_append_bits(&mut self, val: u32, len: u8) -> (r: Result<(), QrError>)
        ensures
            len <= 31 && (val as int) < pow2(len as nat) ==> r is Ok && final(self).0@ == old(
                self,
            ).0@ + bits_of(val, len as int),
            !(len <= 31 && (val as int) < pow2(len as nat)) ==> r == Err::<(), QrError>(
                QrError::OutOfRange,
            ) && final(self).0@ == old(self).0@,
    {
        if len > 31 {
            return Err(QrError::OutOfRange);
        }
        proof {
            vstd::bits::lemma_u32_shr_is_div(val, len as u32);
            vstd::arithmetic::power2::lemma_pow2_pos(len as nat);
            if (val as int) < pow2(len as nat) {
                vstd::arithmetic::div_mod::lemma_basic_div(val as int, pow2(len as nat) as int);
            } else {
                vstd::arithmetic::div_mod::lemma_div_non_zero(val as int, pow2(len as nat) as int);
            }
        }
        if val >> (len as u32) != 0 {
            return Err(QrError::OutOfRange);
        }
        self.append_bits(val, len);
        Ok(())
    }
}

/// What a segment is: its mode, the number of characters it stands for,
/// and its packed data bits.
pub struct SegmentView {
    pub mode: QrSegmentMode,
    pub numchars: nat,
    pub data: Seq<bool>,
}

/// A segment of character, binary or control data in a symbol.
#[derive(Clone, PartialEq, Eq, Debug)]
pub struct QrSegment {
    mode: QrSegmentMode,
    numchars: usize,
    data: Vec<bool>,
}

impl View for QrSegment {
    type V = SegmentView;

    closed spec fn view(&self) -> SegmentView {
        SegmentView { mode: self.mode, numchars: self.numchars as nat, data: self.data@ }
    }
}

/// Whether a character is a decimal digit.
pub open spec fn is_digit(c: char) -> bool {
    '0' <= c <= '9'
}

/// Whether every character of a text is a decimal digit.
pub open spec fn is_numeric_text(s: Seq<char>) -> bool {
    forall|i: int| 0 <= i < s.len() ==> is_digit(#[trigger] s[i])
}

/// The value of a digit.
pub open spec fn digit_value(c: char) -> int {
    c as int - 48
}

/// The place of a character in the alphanumeric character set
/// `0123456789ABCDEFGHIJKLMNOPQRSTUVWXYZ $%*+-./:`, or -1 where it does
/// not belong to it.
pub open spec fn alphanumeric_index(c: char) -> int {
    if '0' <= c <= '9' {
        c as int - 48
    } else if 'A' <= c <= 'Z' {
        c as int - 65 + 10
    } else if c == ' ' {
        36
    } else if c == '$' {
        37
    } else if c == '%' {
        38
    } else if c == '*' {
        39
    } else if c == '+' {
        40
    } else if c == '-' {
        41
    } else if c == '.' {
        42
    } else if c == '/' {
        43
    } else if c == ':' {
        44
    } else {
        -1
    }
}

/// Whether every character of a text belongs to the alphanumeric character set.
pub open spec fn is_alphanumeric_text(s: Seq<char>) -> bool {
    forall|i: int| 0 <= i < s.len() ==> alphanumeric_index(#[trigger] s[i]) >= 0
}

/// The bits of a text of digits: each group of three digits as a number
/// in ten bits, a last group of two in seven bits, of one in four bits.
pub open spec fn numeric_bits(s: Seq<char>) -> Seq<bool>
    decreases s.len(),
{
    if s.len() == 0 {
        Seq::empty()
    } else if s.len() == 1 {
        bits_of(digit_value(s[0]) as u32, 4)
    } else if s.len() == 2 {
        bits_of((digit_value(s[0]) * 10 + digit_value(s[1])) as u32, 7)
    } else {
        bits_of((digit_value(s[0]) * 100 + digit_value(s[1]) * 10 + digit_value(s[2])) as u32, 10)
            + numeric_bits(s.skip(3))
    }
}

/// The bits of an alphanumeric text: each pair of characters as the
/// number `45 * first + second` in eleven bits, a last single character
/// in six bits.
pub open spec fn alphanumeric_bits(s: Seq<char>) -> Seq<bool>
    decreases s.len(),
{
    if s.len() == 0 {
        Seq::empty()
    } else if s.len() == 1 {
        bits_of(alphanumeric_index(s[0]) as u32, 6)
    } else {
        bits_of((alphanumeric_index(s[0]) * 45 + alphanumeric_index(s[1])) as u32, 11)
            + alphanumeric_bits(s.skip(2))
    }
}

/// The bits of an Extended Channel Interpretation designator: eight bits
/// for a value below 128; the bits 10 and fourteen bits for a value below
/// 16384; else the bits 110 and twenty-one bits.
pub open spec fn eci_bits(assignval: u32) -> Seq<bool> {
    if assignval < 128 {
        bits_of(assignval, 8)
    } else if assignval < 16384 {
        bits_of(2, 2) + bits_of(assignval, 14)
    } else {
        bits_of(6, 3) + bits_of(assignval, 21)
    }
}

/// The segment that stands for a text when one mode is chosen for the
/// whole of it: numeric for digits alone, else alphanumeric where the
/// character set allows it, else the bytes of its UTF-8 form.
pub open spec fn text_segment(text: &str) -> SegmentView {
    if is_numeric_text(text@) {
        SegmentView {
            mode: QrSegmentMode::Numeric,
            numchars: text@.len(),
            data: numeric_bits(text@),
        }
    } else if is_alphanumeric_text(text@) {
        SegmentView {
            mode: QrSegmentMode::Alphanumeric,
            numchars: text@.len(),
            data: alphanumeric_bits(text@),
        }
    } else {
        SegmentView {
            mode: QrSegmentMode::Byte,
            numchars: text.spec_bytes().len(),
            data: codeword_bits(text.spec_bytes()),
        }
    }
}

/// The number of bits that a segment takes in a symbol of the given
/// version: four for the mode, the character count field, and the data.
pub open spec fn segment_bits(seg: SegmentView, ver: int) -> int {
    4 + seg.mode.spec_num_char_count_bits(ver) + seg.data.len()
}

/// Whether the character count of a segment fits its field at the given version.
pub open spec fn segment_fits(seg: SegmentView, ver: int) -> bool {
    seg.numchars < pow2(seg.mode.spec_num_char_count_bits(ver) as nat)
}

/// The segments of a list as what they are.
pub open spec fn views(segs: Seq<QrSegment>) -> Seq<SegmentView> {
    Seq::new(segs.len(), |i: int| segs[i]@)
}

/// The segments that stand for a text: none for the empty text, else one.
pub open spec fn text_segments(text: &str) -> Seq<SegmentView> {
    if text@.len() == 0 {
        Seq::empty()
    } else {
        seq![text_segment(text)]
    }
}

/// The number of bits that the first `n` segments take.
pub open spec fn stream_len(segs: Seq<SegmentView>, ver: int, n: nat) -> int
    decreases n,
{
    if n == 0 {
        0
    } else {
        stream_len(segs, ver, (n - 1) as nat) + segment_bits(segs[n - 1], ver)
    }
}

/// Whether the character count of every segment fits its field.
pub open spec fn all_fit(segs: Seq<SegmentView>, ver: int) -> bool {
    forall|i: int| 0 <= i < segs.len() ==> segment_fits(#[trigger] segs[i], ver)
}

/// The number of bits that the segments take in a symbol of the given
/// version, where every character count fits its field and the number
/// can be held in a machine word.
pub open spec fn total_bits(segs: Seq<SegmentView>, ver: int) -> Option<int> {
    if all_fit(segs, ver) && stream_len(segs, ver, segs.len()) <= usize::MAX {
        Some(stream_len(segs, ver, segs.len()))
    } else {
        None
    }
}

/// More segments take no fewer bits.
pub proof fn lemma_stream_len_grows(segs: Seq<SegmentView>, ver: int, m: nat, n: nat)
    requires
        m <= n,
    ensures
        0 <= stream_len(segs, ver, m) <= stream_len(segs, ver, n),
    decreases n,
{
    if n > 0 {
        if m < n {
            lemma_stream_len_grows(segs, ver, m, (n - 1) as nat);
        } else {
            lemma_stream_len_grows(segs, ver, (m - 1) as nat, (n - 1) as nat);
        }
    }
}

/// Returns two to the power `n`, for `n` up to 16.
fn power_of_two(n: u8) -> (r: usize)
    requires
        n <= 16,
    ensures
        r == pow2(n as nat),
        r <= 65536,
{
    let mut r: usize = 1;
    proof {
        lemma2_to64();
    }
    for k in 0..n
        invariant
            n <= 16,
            r == pow2(k as nat),
            r <= pow2(16),
            pow2(16) == 65536,
    {
        proof {
            lemma_pow2_unfold((k + 1) as nat);
            if k + 1 < 16 {
                vstd::arithmetic::power2::lemma_pow2_strictly_increases((k + 1) as nat, 16);
            }
        }
        r = r * 2;
    }
    r
}

/// Returns the place of a byte in the alphanumeric character set.
fn alphanumeric_index_of(b: u8) -> (r: Option<u32>)
    requires
        b < 128,
    ensures
        match r {
            Some(i) => i == alphanumeric_index(b as char) && i < 45,
            None => alphanumeric_index(b as char) < 0,
        },
{
    if 48 <= b && b <= 57 {
        Some((b - 48) as u32)
    } else if 65 <= b && b <= 90 {
        Some((b - 65 + 10) as u32)
    } else if b == 32 {
        Some(36)
    } else if b == 36 {
        Some(37)
    } else if b == 37 {
        Some(38)
    } else if b == 42 {
        Some(39)
    } else if b == 43 {
        Some(40)
    } else if b == 45 {
        Some(41)
    } else if b == 46 {
        Some(42)
    } else if b == 47 {
        Some(43)
    } else if b == 58 {
        Some(44)
    } else {
        None
    }
}

impl QrSegment {
    /// Creates a segment with the given mode, character count and data
    /// bits. Nothing is asked of how they agree.
    pub fn new(mode: QrSegmentMode, numchars: usize, data: Vec<bool>) -> (seg: QrSegment)
        ensures
            seg@ == (SegmentView { mode, numchars: numchars as nat, data: data@ }),
    {
        QrSegment { mode, numchars, data }
    }

    /// Returns the mode of this segment.
    pub fn mode(&self) -> (m: QrSegmentMode)
        ensures
            m == self@.mode,
    {
        self.mode
    }

    /// Returns the number of characters this segment stands for.
    pub fn num_chars(&self) -> (n: usize)
        ensures
            n == self@.numchars,
    {
        self.numchars
    }

    /// Returns the data bits of this segment.
    pub fn data(&self) -> (d: &Vec<bool>)
        ensures
            d@ == self@.data,
    {
        &self.data
    }

    /// Returns the segment that holds the given bytes in byte mode, each
    /// byte as eight bits.
    pub fn make_bytes(data: &[u8]) -> (seg: QrSegment)
        ensures
            seg@ == (SegmentView {
                mode: QrSegmentMode::Byte,
                numchars: data@.len(),
                data: codeword_bits(data@),
            }),
    {
        let mut bb = BitBuffer(Vec::new());
        let n: usize = data.len();
        proof {
            lemma2_to64();
        }
        for k in 0..n
            invariant
                n == data@.len(),
                pow2(8) == 256,
                bb.0@ == codeword_bits(data@.take(k as int)),
        {
            bb.append_bits(data[k] as u32, 8);
            assert(bb.0@ =~= codeword_bits(data@.take(k + 1)));
        }
        assert(data@.take(n as int) =~= data@);
        QrSegment::new(QrSegmentMode::Byte, n, bb.0)
    }

    /// Returns the segment that holds the given text of decimal digits in
    /// numeric mode. Every character must be a digit.
    pub fn make_numeric(text: &str) -> (seg: QrSegment)
        requires
            is_numeric_text(text@),
        ensures
            seg@ == (SegmentView {
                mode: QrSegmentMode::Numeric,
                numchars: text@.len(),
                data: numeric_bits(text@),
            }),
    {
        let bytes: &[u8] = text.as_bytes();
        let n: usize = bytes.len();
        let ghost s = text@;
        proof {
            assert(is_ascii_chars(s)) by {
                assert forall|i: int| 0 <= i < s.len() implies '\0' <= #[trigger] s[i]
                    <= '\u{7f}' by {
                    assert(is_digit(s[i]));
                }
            }
            is_ascii_chars_encode_utf8(s);
            lemma2_to64();
            assert(s.skip(0) =~= s);
        }
        let mut bb = BitBuffer(Vec::new());
        let mut i: usize = 0;
        while i < n
            invariant
                n == s.len(),
                bytes@.len() == n,
                is_numeric_text(s),
                forall|k: int| 0 <= k < n ==> #[trigger] bytes@[k] == s[k] as u8,
                pow2(4) == 16,
                pow2(7) == 128,
                pow2(10) == 1024,
                0 <= i <= n,
                bb.0@ + numeric_bits(s.skip(i as int)) == numeric_bits(s),
            decreases n - i,
        {
            let ghost rest = s.skip(i as int);
            let ghost before = bb.0@;
            assert(is_digit(s[i as int]));
            let d0: u32 = (bytes[i] - 48) as u32;
            assert(d0 == digit_value(rest[0]));
            if n - i >= 3 {
                assert(is_digit(s[i + 1]) && is_digit(s[i + 2]));
                let d1: u32 = (bytes[i + 1] - 48) as u32;
                let d2: u32 = (bytes[i + 2] - 48) as u32;
                assert(d1 == digit_value(rest[1]) && d2 == digit_value(rest[2]));
                bb.append_bits(d0 * 100 + d1 * 10 + d2, 10);
                i += 3;
                assert(rest.skip(3) =~= s.skip(i as int));
                assert(bb.0@ + numeric_bits(s.skip(i as int)) =~= before + numeric_bits(rest));
            } else if n - i == 2 {
                assert(is_digit(s[i + 1]));
                let d1: u32 = (bytes[i + 1] - 48) as u32;
                assert(d1 == digit_value(rest[1]));
                bb.append_bits(d0 * 10 + d1, 7);
                i += 2;
                assert(bb.0@ + numeric_bits(s.skip(i as int)) =~= before + numeric_bits(rest));
            } else {
                bb.append_bits(d0, 4);
                i += 1;
                assert(bb.0@ + numeric_bits(s.skip(i as int)) =~= before + numeric_bits(rest));
            }
        }
        assert(bb.0@ =~= numeric_bits(s));
        QrSegment::new(QrSegmentMode::Numeric, n, bb.0)
    }

    /// Returns the segment that holds the given text in alphanumeric
    /// mode. Every character must belong to the alphanumeric character set.
    pub fn make_alphanumeric(text: &str) -> (seg: QrSegment)
        requires
            is_alphanumeric_text(text@),
        ensures
            seg@ == (SegmentView {
                mode: QrSegmentMode::Alphanumeric,
                numchars: text@.len(),
                data: alphanumeric_bits(text@),
            }),
    {
        let bytes: &[u8] = text.as_bytes();
        let n: usize = bytes.len();
        let ghost s = text@;
        proof {
            assert(is_ascii_chars(s)) by {
                assert forall|i: int| 0 <= i < s.len() implies '\0' <= #[trigger] s[i]
                    <= '\u{7f}' by {
                    assert(alphanumeric_index(s[i]) >= 0);
                }
            }
            is_ascii_chars_encode_utf8(s);
            lemma2_to64();
            assert(s.skip(0) =~= s);
        }
        let mut bb = BitBuffer(Vec::new());
        let mut i: usize = 0;
        while i < n
            invariant
                n == s.len(),
                bytes@.len() == n,
                is_alphanumeric_text(s),
                is_ascii_chars(s),
                forall|k: int| 0 <= k < n ==> #[trigger] bytes@[k] == s[k] as u8,
                pow2(6) == 64,
                pow2(11) == 2048,
                0 <= i <= n,
                bb.0@ + alphanumeric_bits(s.skip(i as int)) == alphanumeric_bits(s),
            decreases n - i,
        {
            let ghost rest = s.skip(i as int);
            let ghost before = bb.0@;
            assert(alphanumeric_index(s[i as int]) >= 0);
            assert(bytes@[i as int] as char == s[i as int]);
            let c0: u32 = match alphanumeric_index_of(bytes[i]) {
                Some(c) => c,
                None => 0,
            };
            assert(c0 == alphanumeric_index(rest[0]));
            if n - i >= 2 {
                assert(alphanumeric_index(s[i + 1]) >= 0);
                assert(bytes@[i + 1] as char == s[i + 1]);
                let c1: u32 = match alphanumeric_index_of(bytes[i + 1]) {
                    Some(c) => c,
                    None => 0,
                };
                assert(c1 == alphanumeric_index(rest[1]));
                bb.append_bits(c0 * 45 + c1, 11);
                i += 2;
                assert(rest.skip(2) =~= s.skip(i as int));
                assert(bb.0@ + alphanumeric_bits(s.skip(i as int)) =~= before
                    + alphanumeric_bits(rest));
            } else {
                bb.append_bits(c0, 6);
                i += 1;
                assert(bb.0@ + alphanumeric_bits(s.skip(i as int)) =~= before
                    + alphanumeric_bits(rest));
            }
        }
        assert(bb.0@ =~= alphanumeric_bits(s));
        QrSegment::new(QrSegmentMode::Alphanumeric, n, bb.0)
    }

    /// Returns the segment that holds the given text in numeric mode, or
    /// says that the text holds a character that is no decimal digit.
    pub fn try_make_numeric(text: &str) -> (r: Result<QrSegment, QrError>)
        ensures
            is_numeric_text(text@) ==> (r matches Ok(seg) && seg@ == (SegmentView {
                mode: QrSegmentMode::Numeric,
                numchars: text@.len(),
                data: numeric_bits(text@),
            })),
            !is_numeric_text(text@) ==> (r matches Err(e) && e == QrError::InvalidCharacter),
    {
        if QrSegment::is_numeric(text) {
            Ok(QrSegment::make_numeric(text))
        } else {
            Err(QrError::InvalidCharacter)
        }
    }

    /// Returns the segment that holds the given text in alphanumeric
    /// mode, or says that the text holds a character outside the
    /// alphanumeric character set.
    pub fn try_make_alphanumeric(text: &str) -> (r: Result<QrSegment, QrError>)
        ensures
            is_alphanumeric_text(text@) ==> (r matches Ok(seg) && seg@ == (SegmentView {
                mode: QrSegmentMode::Alphanumeric,
                numchars: text@.len(),
                data: alphanumeric_bits(text@),
            })),
            !is_alphanumeric_text(text@) ==> (r matches Err(e) && e == QrError::InvalidCharacter),
    {
        if QrSegment::is_alphanumeric(text) {
            Ok(QrSegment::make_alphanumeric(text))
        } else {
            Err(QrError::InvalidCharacter)
        }
    }

    /// Returns the segment that holds an Extended Channel Interpretation
    /// designator with the given value, or says that the value is not
    /// below one million.
    pub fn try_make_eci(assignval: u32) -> (r: Result<QrSegment, QrError>)
        ensures
            assignval < 1_000_000 ==> (r matches Ok(seg) && seg@ == (SegmentView {
                mode: QrSegmentMode::Eci,
                numchars: 0,
                data: eci_bits(assignval),
            })),
            assignval >= 1_000_000 ==> (r matches Err(e) && e == QrError::OutOfRange),
    {
        if assignval < 1_000_000 {
            Ok(QrSegment::make_eci(assignval))
        } else {
            Err(QrError::OutOfRange)
        }
    }

    /// Returns the segments that stand for the given text: none for the
    /// empty text, else one segment in the first mode that can hold the
    /// whole text.
    pub fn make_segments(text: &str) -> (segs: Vec<QrSegment>)
        ensures
            views(segs@) == text_segments(text),
    {
        let mut segs: Vec<QrSegment> = Vec::new();
        if text.is_empty() {
            assert(views(segs@) =~= text_segments(text));
            return segs;
        }
        if QrSegment::is_numeric(text) {
            segs.push(QrSegment::make_numeric(text));
        } else if QrSegment::is_alphanumeric(text) {
            segs.push(QrSegment::make_alphanumeric(text));
        } else {
            segs.push(QrSegment::make_bytes(text.as_bytes()));
        }
        assert(views(segs@) =~= text_segments(text));
        segs
    }

    /// Returns the segment that holds an Extended Channel Interpretation
    /// designator with the given value, which must be below one million.
    pub fn make_eci(assignval: u32) -> (seg: QrSegment)
        requires
            assignval < 1_000_000,
        ensures
            seg@ == (SegmentView {
                mode: QrSegmentMode::Eci,
                numchars: 0,
                data: eci_bits(assignval),
            }),
    {
        let mut bb = BitBuffer(Vec::new());
        proof {
            lemma2_to64();
        }
        if assignval < 128 {
            bb.append_bits(assignval, 8);
        } else if assignval < 16384 {
            bb.append_bits(2, 2);
            bb.append_bits(assignval, 14);
        } else {
            bb.append_bits(6, 3);
            bb.append_bits(assignval, 21);
        }
        assert(bb.0@ =~= eci_bits(assignval));
        QrSegment::new(QrSegmentMode::Eci, 0, bb.0)
    }

    /// Returns the number of bits that the given segments take in a
    /// symbol of the given version, or nothing where a segment has more
    /// characters than its count field can hold or the number is too
    /// large for a machine word.
    pub fn get_total_bits(segs: &[QrSegment], version: Version) -> (r: Option<usize>)
        ensures
            match r {
                Some(n) => total_bits(views(segs@), version.spec_value()) == Some(n as int),
                None => total_bits(views(segs@), version.spec_value()) is None,
            },
    {
        let ghost ver = version.spec_value();
        let ghost all = views(segs@);
        let mut result: usize = 0;
        let n: usize = segs.len();
        for k in 0..n
            invariant
                n == segs@.len(),
                ver == version.spec_value(),
                all == views(segs@),
                result == stream_len(all, ver, k as nat),
                forall|i: int| 0 <= i < k ==> segment_fits(#[trigger] all[i], ver),
        {
            let seg: &QrSegment = &segs[k];
            assert(seg@ == all[k as int]);
            let ccbits: u8 = seg.mode.num_char_count_bits(version);
            let limit: usize = power_of_two(ccbits);
            proof {
                lemma_stream_len_grows(all, ver, (k + 1) as nat, n as nat);
            }
            if seg.numchars >= limit {
                assert(!segment_fits(all[k as int], ver));
                return None;
            }
            result = match result.checked_add(4 + ccbits as usize) {
                Some(sum) => sum,
                None => {
                    return None;
                },
            };
            result = match result.checked_add(seg.data.len()) {
                Some(sum) => sum,
                None => {
                    return None;
                },
            };
        }
        Some(result)
    }

    /// Tests whether every character of the text is a decimal digit.
    pub fn is_numeric(text: &str) -> (r: bool)
        ensures
            r == is_numeric_text(text@),
    {
        let ghost s = text@;
        if !text.is_ascii() {
            proof {
                if is_numeric_text(s) {
                    assert forall|i: int| 0 <= i < s.len() implies '\0' <= #[trigger] s[i]
                        <= '\u{7f}' by {
                        assert(is_digit(s[i]));
                    }
                }
            }
            return false;
        }
        let bytes: &[u8] = text.as_bytes();
        let n: usize = bytes.len();
        proof {
            is_ascii_chars_encode_utf8(s);
        }
        for k in 0..n
            invariant
                s == text@,
                n == s.len(),
                bytes@.len() == n,
                is_ascii_chars(s),
                forall|i: int| 0 <= i < n ==> #[trigger] bytes@[i] == s[i] as u8,
                forall|i: int| 0 <= i < k ==> is_digit(#[trigger] s[i]),
        {
            let b: u8 = bytes[k];
            assert('\0' <= s[k as int] <= '\u{7f}');
            if !(48 <= b && b <= 57) {
                assert(!is_digit(s[k as int]));
                return false;
            }
        }
        true
    }

    /// Tests whether every character of the text belongs to the
    /// alphanumeric character set.
    pub fn is_alphanumeric(text: &str) -> (r: bool)
        ensures
            r == is_alphanumeric_text(text@),
    {
        let ghost s = text@;
        if !text.is_ascii() {
            proof {
                if is_alphanumeric_text(s) {
                    assert forall|i: int| 0 <= i < s.len() implies '\0' <= #[trigger] s[i]
                        <= '\u{7f}' by {
                        assert(alphanumeric_index(s[i]) >= 0);
                    }
                }
            }
            return false;
        }
        let bytes: &[u8] = text.as_bytes();
        let n: usize = bytes.len();
        proof {
            is_ascii_chars_encode_utf8(s);
        }
        for k in 0..n
            invariant
                s == text@,
                n == s.len(),
                bytes@.len() == n,
                is_ascii_chars(s),
                forall|i: int| 0 <= i < n ==> #[trigger] bytes@[i] == s[i] as u8,
                forall|i: int| 0 <= i < k ==> alphanumeric_index(#[trigger] s[i]) >= 0,
        {
            let b: u8 = bytes[k];
            assert('\0' <= s[k as int] <= '\u{7f}');
            assert(b as char == s[k as int]);
            if alphanumeric_index_of(b).is_none() {
                assert(alphanumeric_index(s[k as int]) < 0);
                return false;
            }
        }
        true
    }
}

} // verus!
