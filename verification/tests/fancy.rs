use qrcode_lib::fancy::FancyQr;
use qrcode_lib::{QrCode, QrCodeEcc};

#[test]
fn test_fancy_qr_creation() {
    let qr = FancyQr::from_text("Hello, World!").unwrap();
    assert!(qr.qrcode().size() > 0);
}

#[test]
fn fancy_test_svg_rendering() {
    let qr = FancyQr::from_text("Test").unwrap();
    let svg = qr.render_svg_default();
    assert!(svg.contains("<svg"));
    assert!(svg.contains("</svg>"));
}

#[test]
fn fancy_symbol_uses_the_highest_level_and_four_modules_of_quiet_zone() {
    let qr = FancyQr::from_text("Test").unwrap();
    assert_eq!(qr.qrcode().error_correction_level(), QrCodeEcc::High);
    assert_eq!(qr.quiet_zone(), 4);
    let wide = qr.with_quiet_zone(10);
    assert_eq!(wide.quiet_zone(), 10);
}

#[test]
fn plain_svg_draws_ground_modules_and_finder_patterns() {
    let code = QrCode::encode_text("Test", QrCodeEcc::Low).unwrap();
    let qr = FancyQr::from_qrcode(code);
    let svg = qr.render_svg_default();
    assert!(svg.starts_with(
        "<svg viewBox=\"0 0 29 29\" xmlns=\"http://www.w3.org/2000/svg\" shape-rendering=\"geometricPrecision\"><rect x=\"0\" y=\"0\" width=\"29\" height=\"29\" fill=\"#FFFFFF\" />"
    ));
    assert!(svg.ends_with(
        "<rect x=\"4\" y=\"18\" width=\"7\" height=\"7\" rx=\"0\" fill=\"#000000\" /><rect x=\"5\" y=\"19\" width=\"5\" height=\"5\" rx=\"0\" fill=\"#FFFFFF\" /><rect x=\"6\" y=\"20\" width=\"3\" height=\"3\" rx=\"0\" fill=\"#000000\" /></svg>"
    ));
    // no unit square inside the top left finder pattern
    assert!(!svg.contains("<rect x=\"4\" y=\"4\" width=\"1\""));
    // the timing strip's first module outside the finder patterns is dark
    assert!(svg.contains("<rect x=\"12\" y=\"10\" width=\"1\" height=\"1\" fill=\"#000000\" />"));
}

#[test]
fn finder_modules_are_the_three_corners() {
    assert!(FancyQr::is_finder_module(0, 0, 21));
    assert!(FancyQr::is_finder_module(6, 6, 21));
    assert!(!FancyQr::is_finder_module(7, 7, 21));
    assert!(FancyQr::is_finder_module(14, 0, 21));
    assert!(FancyQr::is_finder_module(0, 14, 21));
    assert!(!FancyQr::is_finder_module(14, 14, 21));
    assert!(!FancyQr::is_finder_module(13, 0, 21));
}

#[test]
fn fancy_from_binary_and_with_level() {
    let a = FancyQr::from_binary(&[1, 2, 3]).unwrap();
    assert_eq!(a.qrcode().version().value(), 1);
    let b = FancyQr::from_text_with_ecc("12345", QrCodeEcc::Low).unwrap();
    assert_eq!(b.qrcode().size(), 21);
}
