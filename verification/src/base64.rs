//! Base64 text of bytes, for data addresses that carry a picture.

use vstd::prelude::*;
use vstd::string::{StrSliceExecFns, StringExecFns, StringSliceAdditionalSpecFns};

verus! {

/// The alphabet of base64: the sign of each six-bit value at its place.
pub open spec fn alphabet() -> Seq<char> {
    "ABCDEFGHIJKLMNOPQRSTUVWXYZabcdefghijklmnopqrstuvwxyz0123456789+/"@
}

/// The sign of a six-bit value.
pub open spec fn sextet_text(v: int) -> Seq<char> {
    alphabet().subrange(v, v + 1)
}

/// The four signs of a group of up to three bytes, the first `len` of
/// which are there; a sign that would carry no bit of a byte is `=`.
pub open spec fn group_text(b0: u8, b1: u8, b2: u8, len: int) -> Seq<char> {
    sextet_text(b0 as int / 4) + sextet_text((b0 as int % 4) * 16 + b1 as int / 16) + (if len > 1 {
        sextet_text((b1 as int % 16) * 4 + b2 as int / 64)
    } else {
        "="@
    }) + (if len > 2 {
        sextet_text(b2 as int % 64)
    } else {
        "="@
    })
}

/// The base64 text of bytes: each group of three bytes as four signs, a
/// last group of one or two bytes filled up with zero bits and `=`.
pub open spec fn base64_text(bytes: Seq<u8>) -> Seq<char>
    decreases bytes.len(),
{
    if bytes.len() == 0 {
        Seq::empty()
    } else if bytes.len() == 1 {
        group_text(bytes[0], 0, 0, 1)
    } else if bytes.len() == 2 {
        group_text(bytes[0], bytes[1], 0, 2)
    } else {
        group_text(bytes[0], bytes[1], bytes[2], 3) + base64_text(bytes.skip(3))
    }
}

/// The data address of an SVG picture: the media type, and the picture
/// in base64.
pub open spec fn svg_data_address(svg: Seq<u8>) -> Seq<char> {
    "data:image/svg+xml;base64,"@ + base64_text(svg)
}

/// Appends the sign of a six-bit value.
fn append_sextet(text: &mut String, v: usize)
    requires
        v < 64,
    ensures
        final(text)@ == old(text)@ + sextet_text(v as int),
{
    let signs: &'static str = "ABCDEFGHIJKLMNOPQRSTUVWXYZabcdefghijklmnopqrstuvwxyz0123456789+/";
    proof {
        reveal_strlit("ABCDEFGHIJKLMNOPQRSTUVWXYZabcdefghijklmnopqrstuvwxyz0123456789+/");
        assert(signs@.len() == 64);
        assert(signs.is_ascii());
    }
    text.append(signs.substring_ascii(v, v + 1));
}

/// Appends the four signs of a group of bytes.
fn append_group(text: &mut String, b0: u8, b1: u8, b2: u8, len: usize)
    requires
        1 <= len <= 3,
    ensures
        final(text)@ == old(text)@ + group_text(b0, b1, b2, len as int),
{
    append_sextet(text, (b0 / 4) as usize);
    append_sextet(text, ((b0 % 4) * 16 + b1 / 16) as usize);
    if len > 1 {
        append_sextet(text, ((b1 % 16) * 4 + b2 / 64) as usize);
    } else {
        text.append("=");
    }
    if len > 2 {
        append_sextet(text, (b2 % 64) as usize);
    } else {
        text.append("=");
    }
    assert(text@ =~= old(text)@ + group_text(b0, b1, b2, len as int));
}

/// Returns the data address under which a browser shows the given SVG text.
pub fn base64_encode_svg(svg: &str) -> (address: String)
    ensures
        address@ == svg_data_address(svg.spec_bytes()),
{
    let bytes: &[u8] = svg.as_bytes();
    let n: usize = bytes.len();
    let ghost all = bytes@;
    let mut address = String::new();
    address.append("data:image/svg+xml;base64,");
    let ghost head = address@;
    let mut i: usize = 0;
    assert(all.skip(0) =~= all);
    while i < n
        invariant
            all == bytes@,
            n == all.len(),
            0 <= i <= n,
            address@ + base64_text(all.skip(i as int)) == head + base64_text(all),
        decreases n - i,
    {
        let ghost rest = all.skip(i as int);
        let ghost before = address@;
        if n - i >= 3 {
            append_group(&mut address, bytes[i], bytes[i + 1], bytes[i + 2], 3);
            i += 3;
            assert(rest.skip(3) =~= all.skip(i as int));
        } else if n - i == 2 {
            append_group(&mut address, bytes[i], bytes[i + 1], 0, 2);
            i += 2;
        } else {
            append_group(&mut address, bytes[i], 0, 0, 1);
            i += 1;
        }
        assert(address@ + base64_text(all.skip(i as int)) =~= before + base64_text(rest));
    }
    assert(address@ =~= head + base64_text(all));
    address
}

} // verus!
