use qrcode_lib::grid::Grid;
use qrcode_lib::interleave::add_ecc_and_interleave;
use qrcode_lib::patterns::{format_bits_of, get_alignment_pattern_positions, version_bits_of};
use qrcode_lib::penalty::FinderPenalty;
use qrcode_lib::style::QrStyle;
use qrcode_lib::types::get_bit;
use qrcode_lib::{Mask, QrCode, QrCodeEcc, Version};

const LEVELS: [QrCodeEcc; 4] =
    [QrCodeEcc::Low, QrCodeEcc::Medium, QrCodeEcc::Quartile, QrCodeEcc::High];

fn grid_of(qr: &QrCode) -> Grid {
    let mut grid = Grid::new(qr.size());
    for y in 0..qr.size() {
        for x in 0..qr.size() {
            grid.set_module(x, y, qr.get_module(x, y));
        }
    }
    grid
}

fn inverts(mask: u8, x: i32, y: i32) -> bool {
    match mask {
        0 => (x + y) % 2 == 0,
        1 => y % 2 == 0,
        2 => x % 3 == 0,
        3 => (x + y) % 3 == 0,
        4 => (x / 3 + y / 2) % 2 == 0,
        5 => x * y % 2 + x * y % 3 == 0,
        6 => (x * y % 2 + x * y % 3) % 2 == 0,
        _ => ((x + y) % 2 + x * y % 3) % 2 == 0,
    }
}

/// The first copy of the format information, read from the symbol.
fn read_format(qr: &QrCode) -> u32 {
    let mut cells: Vec<(i32, i32)> = Vec::new();
    for i in 0..6 {
        cells.push((8, i));
    }
    cells.push((8, 7));
    cells.push((8, 8));
    cells.push((7, 8));
    for i in 9..15 {
        cells.push((14 - i, 8));
    }
    let mut word = 0;
    for (i, (x, y)) in cells.iter().enumerate() {
        if qr.get_module(*x, *y) {
            word |= 1 << i;
        }
    }
    word
}

/// The second copy of the format information, read from the symbol.
fn read_format_again(qr: &QrCode) -> u32 {
    let size = qr.size();
    let mut word = 0;
    for i in 0..8 {
        if qr.get_module(size - 1 - i, 8) {
            word |= 1 << i;
        }
    }
    for i in 8..15 {
        if qr.get_module(8, size - 15 + i) {
            word |= 1 << i;
        }
    }
    word
}

/// The checksum of five data bits, by long division.
fn checksum(data: u32) -> u32 {
    let mut value = data << 10;
    for shift in (0..5).rev() {
        if value & (1 << (shift + 10)) != 0 {
            value ^= 0x537 << shift;
        }
    }
    value
}

#[test]
fn hello_world_low_is_version_one() {
    let qr = QrCode::encode_text("Hello, World!", QrCodeEcc::Low).unwrap();
    assert_eq!(qr.version().value(), 1);
    assert_eq!(qr.size(), 21);
    let mut dark = 0;
    for y in 0..qr.size() {
        for x in 0..qr.size() {
            if qr.get_module(x, y) {
                dark += 1;
            }
        }
    }
    assert!(dark > 0);
}

#[test]
fn side_is_four_times_the_version_plus_seventeen() {
    for v in 1..=40u8 {
        for ecl in LEVELS {
            let ver = Version::new(v);
            let data = vec![0u8; qrcode_lib::tables::get_num_data_codewords(ver, ecl)];
            let qr = QrCode::encode_codewords(ver, ecl, &data, Some(Mask::new(0)));
            assert_eq!(qr.size(), (v as i32) * 4 + 17);
            assert_eq!(qr.size() % 2, 1);
            assert!(21 <= qr.size() && qr.size() <= 177);
            assert_eq!(qr.version().value(), v);
            assert_eq!(qr.error_correction_level(), ecl);
        }
    }
}

#[test]
fn modules_outside_the_symbol_are_light() {
    let qr = QrCode::encode_text("Hello, World!", QrCodeEcc::Low).unwrap();
    assert!(qr.get_module(0, 0));
    assert!(!qr.get_module(-1, 0));
    assert!(!qr.get_module(0, -1));
    assert!(!qr.get_module(21, 0));
    assert!(!qr.get_module(0, 21));
    assert!(!qr.get_module(i32::MAX, i32::MIN));
    assert!(qr.module(0, 0));
}

#[test]
fn finder_patterns_timing_strips_and_dark_module() {
    let qr = QrCode::encode_text("Hello, World!", QrCodeEcc::Low).unwrap();
    let size = qr.size();
    for (cx, cy) in [(3, 3), (size - 4, 3), (3, size - 4)] {
        for dy in -4..=4 {
            for dx in -4..=4 {
                let (x, y) = (cx + dx, cy + dy);
                if x < 0 || y < 0 || x >= size || y >= size {
                    continue;
                }
                let dist = std::cmp::max(dx.abs(), dy.abs());
                assert_eq!(qr.get_module(x, y), dist != 2 && dist != 4);
            }
        }
    }
    for i in 8..size - 8 {
        assert_eq!(qr.get_module(6, i), i % 2 == 0);
        assert_eq!(qr.get_module(i, 6), i % 2 == 0);
    }
    assert!(qr.get_module(8, size - 8));
}

#[test]
fn alignment_pattern_positions_of_known_versions() {
    assert_eq!(get_alignment_pattern_positions(Version::new(1)), Vec::<i32>::new());
    assert_eq!(get_alignment_pattern_positions(Version::new(2)), vec![6, 18]);
    assert_eq!(get_alignment_pattern_positions(Version::new(7)), vec![6, 22, 38]);
    assert_eq!(get_alignment_pattern_positions(Version::new(32)), vec![6, 34, 60, 86, 112, 138]);
    assert_eq!(
        get_alignment_pattern_positions(Version::new(40)),
        vec![6, 30, 58, 86, 114, 142, 170]
    );
}

#[test]
fn alignment_patterns_are_drawn_but_under_the_finder_patterns() {
    let data = vec![0u8; qrcode_lib::tables::get_num_data_codewords(Version::new(7), QrCodeEcc::Low)];
    let qr = QrCode::encode_codewords(Version::new(7), QrCodeEcc::Low, &data, Some(Mask::new(0)));
    for (cx, cy) in [(22, 22), (38, 38), (6, 22), (22, 6), (38, 22), (22, 38)] {
        for dy in -2..=2i32 {
            for dx in -2..=2i32 {
                let dist = std::cmp::max(dx.abs(), dy.abs());
                assert_eq!(qr.get_module(cx + dx, cy + dy), dist != 1);
            }
        }
    }
    // at the three corners the finder patterns stand
    assert!(!qr.get_module(5, 5));
    assert!(!qr.get_module(39, 5));
    assert!(!qr.get_module(5, 39));
}

#[test]
fn format_words_of_mask_zero() {
    assert_eq!(format_bits_of(QrCodeEcc::Low, Mask::new(0)), 0b111011111000100);
    assert_eq!(format_bits_of(QrCodeEcc::Medium, Mask::new(0)), 0b101010000010010);
    assert_eq!(format_bits_of(QrCodeEcc::Quartile, Mask::new(0)), 0b011010101011111);
    assert_eq!(format_bits_of(QrCodeEcc::High, Mask::new(0)), 0b001011010001001);
    assert_eq!(format_bits_of(QrCodeEcc::Low, Mask::new(1)), 0b111001011110011);
}

#[test]
fn version_words() {
    assert_eq!(version_bits_of(Version::new(7)), 0b000111110010010100);
    assert_eq!(version_bits_of(Version::new(8)), 0b001000010110111100);
    assert_eq!(version_bits_of(Version::new(40)), 0b101000110001101001);
}

#[test]
fn version_information_is_drawn_from_version_seven_on() {
    let ver = Version::new(7);
    let data = vec![0u8; qrcode_lib::tables::get_num_data_codewords(ver, QrCodeEcc::Low)];
    let qr = QrCode::encode_codewords(ver, QrCodeEcc::Low, &data, Some(Mask::new(3)));
    let word = version_bits_of(ver);
    let size = qr.size();
    for i in 0..18 {
        let a = size - 11 + i % 3;
        let b = i / 3;
        assert_eq!(qr.get_module(a, b), get_bit(word, i));
        assert_eq!(qr.get_module(b, a), get_bit(word, i));
    }
}

#[test]
fn format_information_is_recovered_for_every_level_and_mask() {
    let codes = [1, 0, 3, 2];
    for (e, ecl) in LEVELS.iter().enumerate() {
        for m in 0..8u8 {
            let ver = Version::new(1);
            let n = qrcode_lib::tables::get_num_data_codewords(ver, *ecl);
            let data: Vec<u8> = (0..n).map(|k| (k * 31) as u8).collect();
            let qr = QrCode::encode_codewords(ver, *ecl, &data, Some(Mask::new(m)));
            assert_eq!(qr.mask().value(), m);
            let word = read_format(&qr);
            assert_eq!(word, read_format_again(&qr));
            let plain = word ^ 0x5412;
            assert_eq!(plain >> 13, codes[e]);
            assert_eq!((plain >> 10) & 7, m as u32);
            assert_eq!(checksum(plain >> 10), plain & 0x3FF);
        }
    }
}

#[test]
fn codewords_are_read_back_along_the_zigzag_path() {
    let ver = Version::new(1);
    let ecl = QrCodeEcc::Medium;
    let data = [32, 91, 11, 120, 209, 114, 220, 77, 67, 64, 236, 17, 236, 17, 236, 17];
    let all = add_ecc_and_interleave(ver, ecl, &data);
    for m in 0..8u8 {
        let qr = QrCode::encode_codewords(ver, ecl, &data, Some(Mask::new(m)));
        let size = qr.size();
        let is_function = |x: i32, y: i32| {
            x == 6 || y == 6 || (x <= 8 && y <= 8) || (x >= size - 8 && y <= 8)
                || (x <= 8 && y >= size - 8)
        };
        let mut read: Vec<bool> = Vec::new();
        let mut right = size - 1;
        let mut up = true;
        while right >= 1 {
            if right == 6 {
                right = 5;
            }
            for step in 0..size {
                let y = if up { size - 1 - step } else { step };
                for x in [right, right - 1] {
                    if !is_function(x, y) {
                        read.push(qr.get_module(x, y) != inverts(m, x, y));
                    }
                }
            }
            up = !up;
            right -= 2;
        }
        assert_eq!(read.len(), 208);
        let mut bytes: Vec<u8> = Vec::new();
        for chunk in read.chunks(8) {
            let mut b = 0u8;
            for bit in chunk {
                b = (b << 1) | (*bit as u8);
            }
            bytes.push(b);
        }
        assert_eq!(bytes, all);
    }
}

#[test]
fn masking_twice_restores_the_grid() {
    let qr = QrCode::encode_text("Masks undo themselves", QrCodeEcc::Medium).unwrap();
    for m in 0..8u8 {
        let mut grid = grid_of(&qr);
        grid.set_function_module(3, 3, true);
        grid.apply_mask(Mask::new(m));
        let mut changed = 0;
        for y in 0..qr.size() {
            for x in 0..qr.size() {
                let was = if (x, y) == (3, 3) { true } else { qr.get_module(x, y) };
                let flips = inverts(m, x, y) && (x, y) != (3, 3);
                assert_eq!(grid.module(x, y), was != flips);
                if flips {
                    changed += 1;
                }
            }
        }
        assert!(changed > 0);
        grid.apply_mask(Mask::new(m));
        for y in 0..qr.size() {
            for x in 0..qr.size() {
                let was = if (x, y) == (3, 3) { true } else { qr.get_module(x, y) };
                assert_eq!(grid.module(x, y), was);
            }
        }
    }
}

#[test]
fn chosen_mask_has_the_least_penalty() {
    for text in ["Hello, World!", "3141592653589793238462643383", "HELLO WORLD"] {
        let segs = qrcode_lib::QrSegment::make_segments(text);
        let best =
            QrCode::encode_segments_advanced(&segs, QrCodeEcc::Low, Version::new(1), Version::new(40), None, false)
                .unwrap();
        let best_penalty = grid_of(&best).get_penalty_score();
        for m in 0..8u8 {
            let other = QrCode::encode_segments_advanced(
                &segs,
                QrCodeEcc::Low,
                Version::new(1),
                Version::new(40),
                Some(Mask::new(m)),
                false,
            )
            .unwrap();
            let penalty = grid_of(&other).get_penalty_score();
            assert!(best_penalty <= penalty);
            if m < best.mask().value() {
                assert!(best_penalty < penalty);
            }
            if m == best.mask().value() {
                assert_eq!(best_penalty, penalty);
                for y in 0..best.size() {
                    for x in 0..best.size() {
                        assert_eq!(best.get_module(x, y), other.get_module(x, y));
                    }
                }
            }
        }
    }
}

#[test]
fn penalty_of_a_light_grid() {
    // runs: 21 rows and 21 columns of 3 + 16 points; blocks: 400 of 3 points; balance: 9 steps
    let grid = Grid::new(21);
    assert_eq!(grid.get_penalty_score(), 42 * 19 + 1200 + 90);
}

#[test]
fn penalty_counts_a_finder_like_run() {
    // one row with the pattern dark, light, three dark, light, dark after four light modules
    let mut grid = Grid::new(21);
    for x in [4, 6, 7, 8, 10] {
        grid.set_module(x, 0, true);
    }
    let blank = Grid::new(21).get_penalty_score();
    // row 0 loses its run of 21 (19 points) and gains a run of ten light modules (3 + 5)
    // and the pattern (40, light on both sides: 80); five columns lose their run of 21 and
    // keep a run of 20 (3 + 15); blocks: 20 of row 0 less the 6 that hold no dark module...
    let score = grid.get_penalty_score();
    let rows = -19 + 8 + 80;
    let columns = -5;
    let blocks = -3 * 8;
    let balance = 0;
    assert_eq!(score, blank + rows + columns + blocks + balance);
}

#[test]
fn finder_penalty_history() {
    let mut runs = FinderPenalty::new(21);
    runs.add_history(4);
    assert_eq!(runs.count_patterns(), 0);
    for run in [1, 1, 3, 1, 1] {
        runs.add_history(run);
    }
    // 25 light, then 1:1:3:1:1, no light run after it yet
    assert_eq!(runs.count_patterns(), 0);
    // light enough on both sides
    assert_eq!(runs.terminate_and_count(false, 2), 2);

    let mut runs = FinderPenalty::new(21);
    for run in [5, 2, 1, 1, 1, 3, 1, 1] {
        runs.add_history(run);
    }
    // one light module before the pattern, 23 after it
    assert_eq!(runs.terminate_and_count(false, 2), 1);

    let mut runs = FinderPenalty::new(21);
    for run in [0, 1, 1, 3, 1, 1] {
        runs.add_history(run);
    }
    assert_eq!(runs.terminate_and_count(false, 0), 2);

    let mut runs = FinderPenalty::new(21);
    for run in [0, 1, 1, 3, 1] {
        runs.add_history(run);
    }
    assert_eq!(runs.terminate_and_count(true, 1), 2);
}

#[test]
fn grid_keeps_modules_and_function_marks() {
    let mut grid = Grid::new(25);
    assert_eq!(grid.size(), 25);
    assert!(!grid.module(3, 4));
    assert!(!grid.is_function(3, 4));
    grid.set_module(3, 4, true);
    assert!(grid.module(3, 4));
    assert!(!grid.module(4, 3));
    assert!(!grid.is_function(3, 4));
    grid.set_function_module(24, 0, false);
    assert!(grid.is_function(24, 0));
    assert!(!grid.is_function(0, 24));
    let modules = grid.into_modules();
    assert_eq!(modules.len(), 625);
    assert!(modules[4 * 25 + 3]);
    assert_eq!(modules.iter().filter(|m| **m).count(), 1);
}

#[test]
fn codewords_go_to_the_modules_that_are_not_function_modules() {
    let mut grid = Grid::new(21);
    grid.draw_function_patterns(Version::new(1), QrCodeEcc::Low);
    let mut free = 0;
    for y in 0..21 {
        for x in 0..21 {
            if !grid.is_function(x, y) {
                free += 1;
            }
        }
    }
    assert_eq!(free, 208);
    grid.draw_codewords(&[0xFF; 26]);
    for y in 0..21 {
        for x in 0..21 {
            if !grid.is_function(x, y) {
                assert!(grid.module(x, y));
            }
        }
    }
    // the first bit goes to the bottom right corner
    let mut grid = Grid::new(21);
    grid.draw_function_patterns(Version::new(1), QrCodeEcc::Low);
    let mut data = [0u8; 26];
    data[0] = 0b1010_0000;
    grid.draw_codewords(&data);
    assert!(grid.module(20, 20));
    assert!(!grid.module(19, 20));
    assert!(grid.module(20, 19));
    assert!(!grid.module(19, 19));
}

#[test]
fn symbol_can_be_copied() {
    let qr = QrCode::encode_text("copy", QrCodeEcc::Low).unwrap();
    let copy = qr.clone();
    assert_eq!(copy.size(), qr.size());
    assert_eq!(copy.mask(), qr.mask());
    for y in 0..qr.size() {
        for x in 0..qr.size() {
            assert_eq!(copy.get_module(x, y), qr.get_module(x, y));
        }
    }
}

#[test]
fn bits_of_a_number() {
    assert!(get_bit(0b100, 2));
    assert!(!get_bit(0b100, 1));
    assert!(get_bit(u32::MAX, 31));
    assert!(!get_bit(0, 0));
}

#[test]
fn level_order_and_format_codes() {
    assert_eq!(QrCodeEcc::Low.ordinal(), 0);
    assert_eq!(QrCodeEcc::Medium.ordinal(), 1);
    assert_eq!(QrCodeEcc::Quartile.ordinal(), 2);
    assert_eq!(QrCodeEcc::High.ordinal(), 3);
    assert_eq!(QrCodeEcc::Low.format_bits(), 1);
    assert_eq!(QrCodeEcc::Medium.format_bits(), 0);
    assert_eq!(QrCodeEcc::Quartile.format_bits(), 3);
    assert_eq!(QrCodeEcc::High.format_bits(), 2);
    assert!(QrCodeEcc::Low < QrCodeEcc::High);
    assert_eq!(Version::lowest().value(), 1);
    assert_eq!(Version::highest().value(), 40);
    assert_eq!(Mask::new(7).value(), 7);
}

#[test]
fn style_names() {
    assert_eq!(QrStyle::Standard.name(), "Standard with Logo");
    assert_eq!(QrStyle::MinimalLogo.name(), "Minimal with Logo");
    assert_eq!(QrStyle::GradientLogo.name(), "Gradient with Logo");
    assert_eq!(QrStyle::Premium.name(), "Ultra Premium");
    assert_eq!(QrStyle::BrandedFinders.name(), "Branded Finders");
    assert_eq!(QrStyle::MinimalFinders.name(), "Minimal Finders");
    assert_eq!(QrStyle::GradientFinders.name(), "Gradient Finders");
    assert_eq!(QrStyle::GradientMinimal.name(), "Gradient Minimal");
}

#[test]
fn symbols_and_segments_compare_by_what_they_hold() {
    let a = QrCode::encode_text("same", QrCodeEcc::Low).unwrap();
    let b = QrCode::encode_text("same", QrCodeEcc::Low).unwrap();
    let c = QrCode::encode_text("other", QrCodeEcc::Low).unwrap();
    assert!(a == b);
    assert!(a != c);
    assert!(a == a.clone());
    let s = qrcode_lib::QrSegment::make_numeric("12");
    assert!(s == s.clone());
    assert!(s != qrcode_lib::QrSegment::make_numeric("13"));
}
