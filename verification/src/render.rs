//! Plain renderings of a symbol as text.

use vstd::prelude::*;
use vstd::string::StringExecFns;
use crate::qrcode::QrCode;
use crate::text::{append_decimal, decimal_text};

verus! {

/// A text written `n` times over.
pub open spec fn repeated(s: Seq<char>, n: int) -> Seq<char>
    decreases n,
{
    if n <= 0 {
        Seq::empty()
    } else {
        repeated(s, n - 1) + s
    }
}

/// The debug text of the first `n` modules of row `y`: `1` for dark and
/// `0` for light, with a space between neighbours.
pub open spec fn debug_row(qr: &QrCode, y: int, n: nat) -> Seq<char>
    decreases n,
{
    if n == 0 {
        Seq::empty()
    } else {
        debug_row(qr, y, (n - 1) as nat) + (if qr.spec_module(n - 1, y) {
            "1"@
        } else {
            "0"@
        }) + (if n - 1 < qr.spec_size() - 1 {
            " "@
        } else {
            Seq::empty()
        })
    }
}

/// The debug text of the first `n` rows, with a line break between neighbours.
pub open spec fn debug_rows(qr: &QrCode, n: nat) -> Seq<char>
    decreases n,
{
    if n == 0 {
        Seq::empty()
    } else {
        debug_rows(qr, (n - 1) as nat) + debug_row(qr, n - 1, qr.spec_size() as nat) + (if n - 1
            < qr.spec_size() - 1 {
            "\n"@
        } else {
            Seq::empty()
        })
    }
}

/// The blocks that show the first `n` modules of row `y`: two spaces for
/// a dark module, two full blocks for a light one or one outside the symbol.
pub open spec fn ascii_row(qr: &QrCode, y: int, n: nat) -> Seq<char>
    decreases n,
{
    if n == 0 {
        Seq::empty()
    } else {
        ascii_row(qr, y, (n - 1) as nat) + (if qr.spec_module(n - 1, y) {
            "  "@
        } else {
            "██"@
        })
    }
}

/// One line of the block picture: the row between its two borders.
pub open spec fn ascii_line(qr: &QrCode, border: int, y: int) -> Seq<char> {
    repeated("██"@, border) + ascii_row(qr, y, qr.spec_size() as nat) + repeated("██"@, border)
        + "\n"@
}

/// The first `n` lines of the block picture below its top line,
/// beginning `border` rows above the symbol.
pub open spec fn ascii_lines(qr: &QrCode, border: int, n: int) -> Seq<char>
    decreases n,
{
    if n <= 0 {
        Seq::empty()
    } else {
        ascii_lines(qr, border, n - 1) + ascii_line(qr, border, n - 1 - border)
    }
}

/// The block picture of a symbol: a full top line, then the rows of the
/// symbol with `border` light rows above and below and `border` light
/// modules at either side.
pub open spec fn ascii_art(qr: &QrCode, border: int) -> Seq<char> {
    repeated("██"@, qr.spec_size() + border * 2) + "\n"@ + ascii_lines(
        qr,
        border,
        qr.spec_size() + border * 2,
    )
}

/// The path piece of one module: a square of side `module_size` at its
/// place, where the module is dark.
pub open spec fn svg_cell(qr: &QrCode, border: int, module_size: int, x: int, y: int) -> Seq<char> {
    if qr.spec_module(x, y) {
        "M"@ + decimal_text((x + border) * module_size) + ","@ + decimal_text(
            (y + border) * module_size,
        ) + "h"@ + decimal_text(module_size) + "v"@ + decimal_text(module_size) + "h-"@
            + decimal_text(module_size) + "z"@
    } else {
        Seq::empty()
    }
}

/// The path pieces of the first `n` modules of row `y`.
pub open spec fn svg_row(qr: &QrCode, border: int, module_size: int, y: int, n: nat) -> Seq<char>
    decreases n,
{
    if n == 0 {
        Seq::empty()
    } else {
        svg_row(qr, border, module_size, y, (n - 1) as nat) + svg_cell(
            qr,
            border,
            module_size,
            n - 1,
            y,
        )
    }
}

/// The path pieces of the first `n` rows.
pub open spec fn svg_rows(qr: &QrCode, border: int, module_size: int, n: nat) -> Seq<char>
    decreases n,
{
    if n == 0 {
        Seq::empty()
    } else {
        svg_rows(qr, border, module_size, (n - 1) as nat) + svg_row(
            qr,
            border,
            module_size,
            n - 1,
            qr.spec_size() as nat,
        )
    }
}

/// The SVG text of a symbol: a white square of the full size and one
/// black path of the dark modules.
pub open spec fn svg_string(qr: &QrCode, border: int, module_size: int) -> Seq<char> {
    let w = decimal_text((qr.spec_size() + border * 2) * module_size);
    "<svg xmlns=\"http://www.w3.org/2000/svg\" version=\"1.1\" viewBox=\"0 0 "@ + w + " "@ + w
        + "\" stroke=\"none\">"@ + "\n"@ + "<rect width=\""@ + w + "\" height=\""@ + w
        + "\" fill=\"#FFFFFF\"/>"@ + "\n"@ + "<path d=\""@ + svg_rows(
        qr,
        border,
        module_size,
        qr.spec_size() as nat,
    ) + "\" fill=\"#000000\"/>"@ + "\n</svg>"@
}

/// Renders a symbol as SVG text, with a light border of `border`
/// modules and modules of `module_size` units.
pub fn to_svg_string(qr: &QrCode, border: i32, module_size: i32) -> (svg: String)
    requires
        -16384 <= border <= 16384,
        -16384 <= module_size <= 16384,
    ensures
        svg@ == svg_string(qr, border as int, module_size as int),
{
    let size: i32 = qr.size();
    assert(-1000000000 <= (size + border * 2) * module_size <= 1000000000) by (nonlinear_arith)
        requires
            21 <= size <= 177,
            -16384 <= border <= 16384,
            -16384 <= module_size <= 16384,
    ;
    let full_size: i32 = (size + border * 2) * module_size;
    let ghost w = decimal_text(full_size as int);

    let mut svg = String::new();
    svg.append("<svg xmlns=\"http://www.w3.org/2000/svg\" version=\"1.1\" viewBox=\"0 0 ");
    append_decimal(&mut svg, full_size as i64);
    svg.append(" ");
    append_decimal(&mut svg, full_size as i64);
    svg.append("\" stroke=\"none\">");
    svg.append("\n");
    svg.append("<rect width=\"");
    append_decimal(&mut svg, full_size as i64);
    svg.append("\" height=\"");
    append_decimal(&mut svg, full_size as i64);
    svg.append("\" fill=\"#FFFFFF\"/>");
    svg.append("\n");
    svg.append("<path d=\"");
    let ghost head = svg@;

    for y in 0..size
        invariant
            size == qr.spec_size(),
            21 <= size <= 177,
            -16384 <= border <= 16384,
            -16384 <= module_size <= 16384,
            svg@ == head + svg_rows(qr, border as int, module_size as int, y as nat),
    {
        let ghost rows = svg@;
        for x in 0..size
            invariant
                size == qr.spec_size(),
                21 <= size <= 177,
                0 <= y < size,
                -16384 <= border <= 16384,
                -16384 <= module_size <= 16384,
                svg@ == rows + svg_row(qr, border as int, module_size as int, y as int, x as nat),
        {
            let ghost before = svg@;
            if qr.get_module(x, y) {
                assert(-1000000000 <= (x + border) * module_size <= 1000000000
                    && -1000000000 <= (y + border) * module_size <= 1000000000)
                    by (nonlinear_arith)
                    requires
                        0 <= x <= 177,
                        0 <= y <= 177,
                        -16384 <= border <= 16384,
                        -16384 <= module_size <= 16384,
                ;
                let px: i32 = (x + border) * module_size;
                let py: i32 = (y + border) * module_size;
                svg.append("M");
                append_decimal(&mut svg, px as i64);
                svg.append(",");
                append_decimal(&mut svg, py as i64);
                svg.append("h");
                append_decimal(&mut svg, module_size as i64);
                svg.append("v");
                append_decimal(&mut svg, module_size as i64);
                svg.append("h-");
                append_decimal(&mut svg, module_size as i64);
                svg.append("z");
            }
            assert(svg@ =~= before + svg_cell(
                qr,
                border as int,
                module_size as int,
                x as int,
                y as int,
            ));
            assert(svg@ =~= rows + svg_row(
                qr,
                border as int,
                module_size as int,
                y as int,
                (x + 1) as nat,
            ));
        }
        assert(svg@ =~= head + svg_rows(qr, border as int, module_size as int, (y + 1) as nat));
    }
    svg.append("\" fill=\"#000000\"/>");
    svg.append("\n</svg>");
    assert(svg@ =~= svg_string(qr, border as int, module_size as int));
    svg
}

/// Appends the two full blocks of a light module `n` times.
fn append_blocks(s: &mut String, n: i32)
    ensures
        final(s)@ == old(s)@ + repeated("██"@, n as int),
{
    let mut k: i32 = 0;
    assert(s@ =~= old(s)@ + repeated("██"@, 0));
    while k < n
        invariant
            0 <= k,
            k <= n || n < 0,
            n < 0 ==> k == 0,
            s@ == old(s)@ + repeated("██"@, k as int),
        decreases n - k,
    {
        s.append("██");
        k += 1;
        assert(s@ =~= old(s)@ + repeated("██"@, k as int));
    }
    assert(repeated("██"@, n as int) =~= repeated("██"@, k as int));
}

/// Renders a symbol as a picture of full blocks and spaces for a
/// terminal with dark letters on a light ground, with a border of
/// `border` modules.
pub fn to_ascii_art(qr: &QrCode, border: i32) -> (art: String)
    requires
        -1000000 <= border <= 1000000,
    ensures
        art@ == ascii_art(qr, border as int),
{
    let size: i32 = qr.size();
    let mut result = String::new();
    append_blocks(&mut result, size + border * 2);
    result.append("\n");
    let ghost head = result@;
    let lines: i32 = size + border * 2;
    let mut n: i32 = 0;
    assert(result@ =~= head + ascii_lines(qr, border as int, 0));
    while n < lines
        invariant
            size == qr.spec_size(),
            21 <= size <= 177,
            -1000000 <= border <= 1000000,
            lines == size + border * 2,
            0 <= n,
            n <= lines || lines < 0,
            lines < 0 ==> n == 0,
            result@ == head + ascii_lines(qr, border as int, n as int),
        decreases lines - n,
    {
        let y: i32 = n - border;
        let ghost before = result@;
        append_blocks(&mut result, border);
        let ghost left = result@;
        for x in 0..size
            invariant
                size == qr.spec_size(),
                21 <= size <= 177,
                result@ == left + ascii_row(qr, y as int, x as nat),
        {
            let module: bool = if y >= 0 && y < size {
                qr.get_module(x, y)
            } else {
                false
            };
            result.append(
                if module {
                    "  "
                } else {
                    "██"
                },
            );
            assert(result@ =~= left + ascii_row(qr, y as int, (x + 1) as nat));
        }
        append_blocks(&mut result, border);
        result.append("\n");
        n += 1;
        assert(result@ =~= before + ascii_line(qr, border as int, y as int));
        assert(result@ =~= head + ascii_lines(qr, border as int, n as int));
    }
    assert(ascii_lines(qr, border as int, lines as int) =~= ascii_lines(
        qr,
        border as int,
        n as int,
    ));
    assert(result@ =~= ascii_art(qr, border as int));
    result
}

/// Renders a symbol as lines of `0` and `1` with spaces between them.
pub fn to_debug_string(qr: &QrCode) -> (text: String)
    ensures
        text@ == debug_rows(qr, qr.spec_size() as nat),
{
    let size: i32 = qr.size();
    let mut result = String::new();
    assert(result@ =~= debug_rows(qr, 0));
    for y in 0..size
        invariant
            size == qr.spec_size(),
            21 <= size <= 177,
            result@ == debug_rows(qr, y as nat),
    {
        let ghost rows = result@;
        for x in 0..size
            invariant
                size == qr.spec_size(),
                21 <= size <= 177,
                0 <= y < size,
                result@ == rows + debug_row(qr, y as int, x as nat),
        {
            result.append(
                if qr.get_module(x, y) {
                    "1"
                } else {
                    "0"
                },
            );
            if x < size - 1 {
                result.append(" ");
            }
            assert(result@ =~= rows + debug_row(qr, y as int, (x + 1) as nat));
        }
        if y < size - 1 {
            result.append("\n");
        }
        assert(result@ =~= debug_rows(qr, (y + 1) as nat));
    }
    result
}

} // verus!
