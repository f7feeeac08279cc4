//! Basic value types shared by the whole library.

use vstd::prelude::*;
use vstd::string::StringExecFns;
use crate::text::{append_natural, natural_text};

verus! {

/// The error correction level in a QR Code symbol.
#[derive(Clone, Copy, PartialEq, Eq, Structural, PartialOrd, Ord, Debug)]
pub enum QrCodeEcc {
    /// The QR Code can tolerate about  7% erroneous codewords.
    Low,
    /// The QR Code can tolerate about 15% erroneous codewords.
    Medium,
    /// The QR Code can tolerate about 25% erroneous codewords.
    Quartile,
    /// The QR Code can tolerate about 30% erroneous codewords.
    High,
}

impl QrCodeEcc {
    /// Position of the level in order of increasing strength, 0 to 3.
    pub open spec fn spec_ordinal(self) -> int {
        match self {
            QrCodeEcc::Low => 0,
            QrCodeEcc::Medium => 1,
            QrCodeEcc::Quartile => 2,
            QrCodeEcc::High => 3,
        }
    }

    /// The two-bit code that stands for the level in the format information.
    pub open spec fn spec_format_bits(self) -> int {
        match self {
            QrCodeEcc::Low => 1,
            QrCodeEcc::Medium => 0,
            QrCodeEcc::Quartile => 3,
            QrCodeEcc::High => 2,
        }
    }

    /// Returns the position of the level in order of increasing strength, 0 to 3.
    pub fn ordinal(self) -> (r: usize)
        ensures
            r == self.spec_ordinal(),
    {
        match self {
            QrCodeEcc::Low => 0,
            QrCodeEcc::Medium => 1,
            QrCodeEcc::Quartile => 2,
            QrCodeEcc::High => 3,
        }
    }

    /// Returns the two-bit code that stands for the level in the format information.
    pub fn format_bits(self) -> (r: u8)
        ensures
            r == self.spec_format_bits(),
    {
        match self {
            QrCodeEcc::Low => 1,
            QrCodeEcc::Medium => 0,
            QrCodeEcc::Quartile => 3,
            QrCodeEcc::High => 2,
        }
    }
}

/// A version number of a symbol, between 1 and 40.
#[derive(Copy, Clone, PartialEq, Eq, Structural, PartialOrd, Ord, Debug)]
pub struct Version(u8);

impl Version {
    /// Every version lies between 1 and 40.
    #[verifier::type_invariant]
    spec fn in_range(self) -> bool {
        1 <= self.0 <= 40
    }

    /// The number this version stands for.
    pub closed spec fn spec_value(self) -> int {
        self.0 as int
    }

    /// Creates the version with the given number, which must be between 1 and 40.
    pub fn new(ver: u8) -> (v: Version)
        requires
            1 <= ver <= 40,
        ensures
            v.spec_value() == ver,
    {
        Version(ver)
    }

    /// Creates the version with the given number, or says that the
    /// number is not between 1 and 40.
    pub fn try_new(ver: u8) -> (r: Result<Version, QrError>)
        ensures
            1 <= ver <= 40 ==> (r matches Ok(v) && v.spec_value() == ver),
            !(1 <= ver <= 40) ==> r == Err::<Version, QrError>(QrError::OutOfRange),
    {
        if 1 <= ver && ver <= 40 {
            Ok(Version(ver))
        } else {
            Err(QrError::OutOfRange)
        }
    }

    /// The smallest version, 1.
    pub fn lowest() -> (v: Version)
        ensures
            v.spec_value() == 1,
    {
        Version(1)
    }

    /// The largest version, 40.
    pub fn highest() -> (v: Version)
        ensures
            v.spec_value() == 40,
    {
        Version(40)
    }

    /// Returns the number of this version, which is between 1 and 40.
    pub fn value(self) -> (r: u8)
        ensures
            r == self.spec_value(),
            1 <= r <= 40,
    {
        proof {
            use_type_invariant(&self);
        }
        self.0
    }
}

/// A mask pattern number, between 0 and 7.
#[derive(Copy, Clone, PartialEq, Eq, Structural, PartialOrd, Ord, Debug)]
pub struct Mask(u8);

impl Mask {
    /// Every mask lies between 0 and 7.
    #[verifier::type_invariant]
    spec fn in_range(self) -> bool {
        self.0 <= 7
    }

    /// The number this mask stands for.
    pub closed spec fn spec_value(self) -> int {
        self.0 as int
    }

    /// Creates the mask with the given number, which must be between 0 and 7.
    pub fn new(mask: u8) -> (m: Mask)
        requires
            mask <= 7,
        ensures
            m.spec_value() == mask,
    {
        Mask(mask)
    }

    /// Creates the mask with the given number, or says that the number
    /// is not between 0 and 7.
    pub fn try_new(mask: u8) -> (r: Result<Mask, QrError>)
        ensures
            mask <= 7 ==> (r matches Ok(m) && m.spec_value() == mask),
            mask > 7 ==> r == Err::<Mask, QrError>(QrError::OutOfRange),
    {
        if mask <= 7 {
            Ok(Mask(mask))
        } else {
            Err(QrError::OutOfRange)
        }
    }

    /// Returns the number of this mask, which is between 0 and 7.
    pub fn value(self) -> (r: u8)
        ensures
            r == self.spec_value(),
            r <= 7,
    {
        proof {
            use_type_invariant(&self);
        }
        self.0
    }
}

/// Why a list of segments does not fit any symbol in the range of versions asked for.
#[derive(Debug, Clone, Copy, PartialEq, Eq, Structural)]
pub enum DataTooLong {
    /// A segment holds more characters than its length field can count.
    SegmentTooLong,
    /// The bits needed, then the bits that the largest version allowed can hold.
    DataOverCapacity(usize, usize),
}

/// Why a value was not accepted or a symbol could not be made.
#[derive(Debug, Clone, Copy, PartialEq, Eq, Structural)]
pub enum QrError {
    /// A text holds a character that its encoding mode does not allow.
    InvalidCharacter,
    /// A number lies outside the bounds of what it stands for.
    OutOfRange,
    /// Arguments contradict each other.
    InvalidArgument,
    /// The data fits no symbol in the range of versions asked for.
    DataTooLong(DataTooLong),
}

impl DataTooLong {
    /// What the error says in words.
    pub open spec fn spec_message(self) -> Seq<char> {
        match self {
            DataTooLong::SegmentTooLong => "Segment too long"@,
            DataTooLong::DataOverCapacity(datalen, maxcapacity) => "Data length = "@
                + natural_text(datalen as nat) + " bits, Max capacity = "@ + natural_text(
                maxcapacity as nat,
            ) + " bits"@,
        }
    }

    /// Returns what the error says in words.
    pub fn message(&self) -> (text: String)
        ensures
            text@ == self.spec_message(),
    {
        let mut text = String::new();
        match *self {
            DataTooLong::SegmentTooLong => {
                text.append("Segment too long");
            },
            DataTooLong::DataOverCapacity(datalen, maxcapacity) => {
                text.append("Data length = ");
                append_natural(&mut text, datalen as u64);
                text.append(" bits, Max capacity = ");
                append_natural(&mut text, maxcapacity as u64);
                text.append(" bits");
            },
        }
        assert(text@ =~= self.spec_message());
        text
    }
}

/// True iff bit `i` of `x` is 1, counting from the least significant bit.
pub open spec fn bit_is_set(x: u32, i: int) -> bool {
    (x >> (i as u32)) & 1u32 != 0
}

/// Returns true iff bit `i` of `x` is set to 1.
pub fn get_bit(x: u32, i: i32) -> (r: bool)
    requires
        0 <= i < 32,
    ensures
        r == bit_is_set(x, i as int),
{
    (x >> (i as u32)) & 1u32 != 0
}

} // verus!
