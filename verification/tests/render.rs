use qrcode_lib::base64::base64_encode_svg;
use qrcode_lib::render::{to_ascii_art, to_debug_string, to_svg_string};
use qrcode_lib::{QrCode, QrCodeEcc};

#[test]
fn render_test_svg_rendering() {
    let qr = QrCode::encode_text("Test", QrCodeEcc::Low).unwrap();
    let svg = to_svg_string(&qr, 4, 10);
    assert!(svg.starts_with("<svg"));
    assert!(svg.ends_with("</svg>"));
}

#[test]
fn test_ascii_art() {
    let qr = QrCode::encode_text("Hi", QrCodeEcc::Low).unwrap();
    let art = to_ascii_art(&qr, 2);
    assert!(!art.is_empty());
    assert!(art.contains("██"));
}

#[test]
fn test_debug_string() {
    let qr = QrCode::encode_text("A", QrCodeEcc::Low).unwrap();
    let debug = to_debug_string(&qr);
    assert!(debug.contains('0'));
    assert!(debug.contains('1'));
}

#[test]
fn debug_string_has_one_line_for_each_row() {
    let qr = QrCode::encode_text("A", QrCodeEcc::Low).unwrap();
    let debug = to_debug_string(&qr);
    let lines: Vec<&str> = debug.split('\n').collect();
    assert_eq!(lines.len(), 21);
    for (y, line) in lines.iter().enumerate() {
        assert_eq!(line.len(), 41);
        for (k, c) in line.chars().enumerate() {
            if k % 2 == 1 {
                assert_eq!(c, ' ');
            } else {
                let dark = qr.get_module((k / 2) as i32, y as i32);
                assert_eq!(c, if dark { '1' } else { '0' });
            }
        }
    }
}

#[test]
fn svg_string_begins_with_the_full_size() {
    let qr = QrCode::encode_text("Test", QrCodeEcc::Low).unwrap();
    let svg = to_svg_string(&qr, 4, 10);
    assert!(svg.starts_with(
        "<svg xmlns=\"http://www.w3.org/2000/svg\" version=\"1.1\" viewBox=\"0 0 290 290\" stroke=\"none\">\n<rect width=\"290\" height=\"290\" fill=\"#FFFFFF\"/>\n<path d=\"M40,40h10v10h-10z"
    ));
    assert!(svg.ends_with("\" fill=\"#000000\"/>\n</svg>"));
}

#[test]
fn svg_string_writes_negative_numbers_with_a_sign() {
    let qr = QrCode::encode_text("Test", QrCodeEcc::Low).unwrap();
    let svg = to_svg_string(&qr, -1, 3);
    assert!(svg.contains("viewBox=\"0 0 57 57\""));
    assert!(svg.contains("<path d=\"M-3,-3h3v3h-3z"));
}

#[test]
fn ascii_art_has_a_top_line_and_bordered_rows() {
    let qr = QrCode::encode_text("Hi", QrCodeEcc::Low).unwrap();
    let art = to_ascii_art(&qr, 2);
    let lines: Vec<&str> = art.split('\n').collect();
    // top line, 25 bordered rows, and the empty piece after the last line break
    assert_eq!(lines.len(), 27);
    assert_eq!(lines[0], "██".repeat(25));
    assert_eq!(lines[1], "██".repeat(25));
    // the row of the symbol's first line begins with a finder pattern: seven dark modules
    let first = lines[3];
    assert!(first.starts_with(&format!("{}{}", "██".repeat(2), "  ".repeat(7))));
}

#[test]
fn data_address_in_base64() {
    assert_eq!(base64_encode_svg(""), "data:image/svg+xml;base64,");
    assert_eq!(base64_encode_svg("a"), "data:image/svg+xml;base64,YQ==");
    assert_eq!(base64_encode_svg("ab"), "data:image/svg+xml;base64,YWI=");
    assert_eq!(base64_encode_svg("abc"), "data:image/svg+xml;base64,YWJj");
    assert_eq!(base64_encode_svg("<svg/>"), "data:image/svg+xml;base64,PHN2Zy8+");
    assert_eq!(base64_encode_svg("\u{ff}\u{ff}"), "data:image/svg+xml;base64,w7/Dvw==");
}
