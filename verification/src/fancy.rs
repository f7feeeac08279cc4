//! A symbol with a quiet zone, rendered as SVG in the plain style: square
//! modules, square finder patterns, black on white.

use vstd::prelude::*;
use vstd::string::StringExecFns;
use crate::encode::encoding_of;
use crate::placement::codeword_bits;
use crate::qrcode::QrCode;
use crate::segment::{text_segments, QrSegmentMode, SegmentView};
use crate::text::{append_natural, natural_text};
use crate::types::{DataTooLong, QrCodeEcc};

verus! {

/// A symbol together with the width of the light border round it.
pub struct FancyQr {
    code: QrCode,
    quiet_zone: usize,
}

/// Whether the module in column `c` of row `r` belongs to one of the
/// three finder patterns of a symbol of the given width.
pub open spec fn in_finder_corner(c: int, r: int, width: int) -> bool {
    let far = if width < 7 {
        0
    } else {
        width - 7
    };
    (r < 7 && c < 7) || (r < 7 && c >= far) || (r >= far && c < 7)
}

/// The SVG text of a square: its place, its side, and its colour.
pub open spec fn square_text(x: int, y: int, side: Seq<char>, tail: Seq<char>) -> Seq<char> {
    "<rect x=\""@ + natural_text(x as nat) + "\" y=\""@ + natural_text(y as nat) + "\" width=\""@
        + side + "\" height=\""@ + side + tail
}

/// The SVG text of one module: a black unit square where the module is
/// dark and outside the finder patterns.
pub open spec fn module_text(qr: &QrCode, quiet_zone: int, c: int, r: int) -> Seq<char> {
    if qr.spec_module(c, r) && !in_finder_corner(c, r, qr.spec_size()) {
        square_text(c + quiet_zone, r + quiet_zone, "1"@, "\" fill=\"#000000\" />"@)
    } else {
        Seq::empty()
    }
}

/// The SVG text of the first `n` modules of row `r`.
pub open spec fn modules_row_text(qr: &QrCode, quiet_zone: int, r: int, n: nat) -> Seq<char>
    decreases n,
{
    if n == 0 {
        Seq::empty()
    } else {
        modules_row_text(qr, quiet_zone, r, (n - 1) as nat) + module_text(qr, quiet_zone, n - 1, r)
    }
}

/// The SVG text of the modules of the first `n` rows.
pub open spec fn modules_text(qr: &QrCode, quiet_zone: int, n: nat) -> Seq<char>
    decreases n,
{
    if n == 0 {
        Seq::empty()
    } else {
        modules_text(qr, quiet_zone, (n - 1) as nat) + modules_row_text(
            qr,
            quiet_zone,
            n - 1,
            qr.spec_size() as nat,
        )
    }
}

/// The SVG text of a finder pattern whose top left corner is at `x`,
/// `y`: a black square of side 7, a white one of side 5 and a black one
/// of side 3, each inside the one before.
pub open spec fn finder_text(x: int, y: int) -> Seq<char> {
    square_text(x, y, "7"@, "\" rx=\"0\" fill=\"#000000\" />"@) + square_text(
        x + 1,
        y + 1,
        "5"@,
        "\" rx=\"0\" fill=\"#FFFFFF\" />"@,
    ) + square_text(x + 2, y + 2, "3"@, "\" rx=\"0\" fill=\"#000000\" />"@)
}

/// The SVG text of a symbol in the plain style, with a quiet zone of the
/// given width: the white ground, the dark modules outside the finder
/// patterns, and the three finder patterns.
pub open spec fn plain_svg(qr: &QrCode, quiet_zone: int) -> Seq<char> {
    let width = qr.spec_size();
    let w = natural_text((width + quiet_zone * 2) as nat);
    "<svg viewBox=\"0 0 "@ + w + " "@ + w
        + "\" xmlns=\"http://www.w3.org/2000/svg\" shape-rendering=\"geometricPrecision\">"@
        + "<rect x=\"0\" y=\"0\" width=\""@ + w + "\" height=\""@ + w + "\" fill=\"#FFFFFF\" />"@
        + modules_text(qr, quiet_zone, width as nat) + finder_text(quiet_zone, quiet_zone)
        + finder_text(width - 7 + quiet_zone, quiet_zone) + finder_text(
        quiet_zone,
        width - 7 + quiet_zone,
    ) + "</svg>"@
}

/// Appends the SVG text of a square.
fn append_square(svg: &mut String, x: usize, y: usize, side: &str, tail: &str)
    ensures
        final(svg)@ == old(svg)@ + square_text(x as int, y as int, side@, tail@),
{
    svg.append("<rect x=\"");
    append_natural(svg, x as u64);
    svg.append("\" y=\"");
    append_natural(svg, y as u64);
    svg.append("\" width=\"");
    svg.append(side);
    svg.append("\" height=\"");
    svg.append(side);
    svg.append(tail);
    assert(svg@ =~= old(svg)@ + square_text(x as int, y as int, side@, tail@));
}

/// Appends the SVG text of a finder pattern.
fn append_finder(svg: &mut String, x: usize, y: usize)
    requires
        x <= usize::MAX - 2,
        y <= usize::MAX - 2,
    ensures
        final(svg)@ == old(svg)@ + finder_text(x as int, y as int),
{
    append_square(svg, x, y, "7", "\" rx=\"0\" fill=\"#000000\" />");
    append_square(svg, x + 1, y + 1, "5", "\" rx=\"0\" fill=\"#FFFFFF\" />");
    append_square(svg, x + 2, y + 2, "3", "\" rx=\"0\" fill=\"#000000\" />");
    assert(svg@ =~= old(svg)@ + finder_text(x as int, y as int));
}

/// What making a fancy symbol yields: what encoding yields, with the
/// standard quiet zone of four modules.
pub open spec fn fancy_of(
    segs: Seq<SegmentView>,
    ecl: QrCodeEcc,
    r: Result<FancyQr, DataTooLong>,
) -> bool {
    match r {
        Ok(fancy) => fancy.spec_quiet_zone() == 4 && encoding_of(
            segs,
            ecl,
            1,
            40,
            None,
            true,
            Ok(fancy.spec_code()),
        ),
        Err(e) => encoding_of(segs, ecl, 1, 40, None, true, Err(e)),
    }
}

impl FancyQr {
    /// The symbol.
    pub closed spec fn spec_code(&self) -> QrCode {
        self.code
    }

    /// The width of the quiet zone, in modules.
    pub closed spec fn spec_quiet_zone(&self) -> int {
        self.quiet_zone as int
    }

    /// Creates a fancy symbol from text at the highest error correction level.
    pub fn from_text(text: &str) -> (r: Result<FancyQr, DataTooLong>)
        ensures
            fancy_of(text_segments(text), QrCodeEcc::High, r),
    {
        match QrCode::encode_text(text, QrCodeEcc::High) {
            Ok(code) => Ok(FancyQr { code, quiet_zone: 4 }),
            Err(e) => Err(e),
        }
    }

    /// Creates a fancy symbol from bytes at the highest error correction level.
    pub fn from_binary(data: &[u8]) -> (r: Result<FancyQr, DataTooLong>)
        ensures
            fancy_of(
                seq![
                    (SegmentView {
                        mode: QrSegmentMode::Byte,
                        numchars: data@.len(),
                        data: codeword_bits(data@),
                    }),
                ],
                QrCodeEcc::High,
                r,
            ),
    {
        match QrCode::encode_binary(data, QrCodeEcc::High) {
            Ok(code) => Ok(FancyQr { code, quiet_zone: 4 }),
            Err(e) => Err(e),
        }
    }

    /// Creates a fancy symbol from text at the given error correction level.
    pub fn from_text_with_ecc(text: &str, ecl: QrCodeEcc) -> (r: Result<FancyQr, DataTooLong>)
        ensures
            fancy_of(text_segments(text), ecl, r),
    {
        match QrCode::encode_text(text, ecl) {
            Ok(code) => Ok(FancyQr { code, quiet_zone: 4 }),
            Err(e) => Err(e),
        }
    }

    /// Creates a fancy symbol from a symbol, with the standard quiet zone
    /// of four modules.
    pub fn from_qrcode(code: QrCode) -> (fancy: FancyQr)
        ensures
            fancy.spec_code() == code,
            fancy.spec_quiet_zone() == 4,
    {
        FancyQr { code, quiet_zone: 4 }
    }

    /// Sets the width of the quiet zone, in modules.
    pub fn with_quiet_zone(self, size: usize) -> (fancy: FancyQr)
        ensures
            fancy.spec_code() == self.spec_code(),
            fancy.spec_quiet_zone() == size,
    {
        FancyQr { code: self.code, quiet_zone: size }
    }

    /// Returns the symbol.
    pub fn qrcode(&self) -> (code: &QrCode)
        ensures
            *code == self.spec_code(),
    {
        &self.code
    }

    /// Returns the width of the quiet zone, in modules.
    pub fn quiet_zone(&self) -> (size: usize)
        ensures
            size == self.spec_quiet_zone(),
    {
        self.quiet_zone
    }

    /// Tells whether the module in column `c` of row `r` belongs to one
    /// of the three finder patterns of a symbol of the given width.
    pub fn is_finder_module(c: usize, r: usize, width: usize) -> (inside: bool)
        ensures
            inside == in_finder_corner(c as int, r as int, width as int),
    {
        let far: usize = if width < 7 {
            0
        } else {
            width - 7
        };
        (r < 7 && c < 7) || (r < 7 && c >= far) || (r >= far && c < 7)
    }

    /// Renders the symbol as SVG text in the plain style. The quiet zone
    /// must be narrow enough for the picture's width to be a machine number.
    pub fn render_svg_default(&self) -> (svg: String)
        requires
            self.spec_quiet_zone() <= 1000000000,
        ensures
            svg@ == plain_svg(&self.spec_code(), self.spec_quiet_zone()),
    {
        let size: i32 = self.code.size();
        let matrix_width: usize = size as usize;
        let quiet: usize = self.quiet_zone;
        let full_width: usize = matrix_width + quiet * 2;
        let ghost qr = &self.code;
        let ghost qz = quiet as int;

        let mut svg = String::new();
        svg.append("<svg viewBox=\"0 0 ");
        append_natural(&mut svg, full_width as u64);
        svg.append(" ");
        append_natural(&mut svg, full_width as u64);
        svg.append(
            "\" xmlns=\"http://www.w3.org/2000/svg\" shape-rendering=\"geometricPrecision\">",
        );
        svg.append("<rect x=\"0\" y=\"0\" width=\"");
        append_natural(&mut svg, full_width as u64);
        svg.append("\" height=\"");
        append_natural(&mut svg, full_width as u64);
        svg.append("\" fill=\"#FFFFFF\" />");
        let ghost head = svg@;

        for r in 0..matrix_width
            invariant
                qr == &self.code,
                size == qr.spec_size(),
                matrix_width == size,
                21 <= size <= 177,
                quiet == qz,
                qz <= 1000000000,
                svg@ == head + modules_text(qr, qz, r as nat),
        {
            let ghost rows = svg@;
            for c in 0..matrix_width
                invariant
                    qr == &self.code,
                    size == qr.spec_size(),
                    matrix_width == size,
                    21 <= size <= 177,
                    0 <= r < matrix_width,
                    quiet == qz,
                    qz <= 1000000000,
                    svg@ == rows + modules_row_text(qr, qz, r as int, c as nat),
            {
                let ghost before = svg@;
                if self.code.get_module(c as i32, r as i32) && !FancyQr::is_finder_module(
                    c,
                    r,
                    matrix_width,
                ) {
                    append_square(&mut svg, c + quiet, r + quiet, "1", "\" fill=\"#000000\" />");
                }
                assert(svg@ =~= before + module_text(qr, qz, c as int, r as int));
                assert(svg@ =~= rows + modules_row_text(qr, qz, r as int, (c + 1) as nat));
            }
            assert(svg@ =~= head + modules_text(qr, qz, (r + 1) as nat));
        }
        append_finder(&mut svg, quiet, quiet);
        append_finder(&mut svg, matrix_width - 7 + quiet, quiet);
        append_finder(&mut svg, quiet, matrix_width - 7 + quiet);
        svg.append("</svg>");
        assert(svg@ =~= plain_svg(qr, qz));
        svg
    }
}

} // verus!
