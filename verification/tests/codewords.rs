use qrcode_lib::interleave::add_ecc_and_interleave;
use qrcode_lib::reed_solomon::{
    reed_solomon_compute_divisor, reed_solomon_compute_remainder, reed_solomon_multiply,
};
use qrcode_lib::tables::{
    get_num_data_codewords, get_num_raw_data_modules, table_get, ECC_CODEWORDS_PER_BLOCK,
    NUM_ERROR_CORRECTION_BLOCKS,
};
use qrcode_lib::{QrCodeEcc, Version};

const LEVELS: [QrCodeEcc; 4] =
    [QrCodeEcc::Low, QrCodeEcc::Medium, QrCodeEcc::Quartile, QrCodeEcc::High];

/// Powers of the element 2, by shifting and reducing.
fn powers() -> Vec<u8> {
    let mut exp = Vec::new();
    let mut x: u32 = 1;
    for _ in 0..255 {
        exp.push(x as u8);
        x <<= 1;
        if x >= 256 {
            x ^= 0x11D;
        }
    }
    exp
}

/// The product of two elements by their logarithms.
fn product_by_logs(a: u8, b: u8, exp: &[u8]) -> u8 {
    if a == 0 || b == 0 {
        return 0;
    }
    let la = exp.iter().position(|v| *v == a).unwrap();
    let lb = exp.iter().position(|v| *v == b).unwrap();
    exp[(la + lb) % 255]
}

#[test]
fn field_multiplication_agrees_with_logarithms() {
    let exp = powers();
    for a in 0..=255u8 {
        for b in 0..=255u8 {
            assert_eq!(reed_solomon_multiply(a, b), product_by_logs(a, b, &exp));
        }
    }
    assert_eq!(reed_solomon_multiply(2, 128), 0x1D);
    assert_eq!(reed_solomon_multiply(1, 77), 77);
    assert_eq!(reed_solomon_multiply(0, 77), 0);
}

#[test]
fn divisor_of_degree_seven() {
    assert_eq!(reed_solomon_compute_divisor(7), vec![127, 122, 154, 164, 11, 68, 117]);
    assert_eq!(reed_solomon_compute_divisor(1), vec![1]);
}

#[test]
fn divisor_has_the_powers_of_two_as_roots() {
    let exp = powers();
    for degree in [1usize, 2, 7, 10, 30, 255] {
        let div = reed_solomon_compute_divisor(degree);
        assert_eq!(div.len(), degree);
        for i in 0..degree {
            let root = exp[i % 255];
            // the value of the monic polynomial at the root, by Horner's rule
            let mut value: u8 = 1;
            for c in &div {
                value = product_by_logs(value, root, &exp) ^ c;
            }
            assert_eq!(value, 0);
        }
    }
}

#[test]
fn hello_world_error_correction_codewords() {
    let data = [32, 91, 11, 120, 209, 114, 220, 77, 67, 64, 236, 17, 236, 17, 236, 17];
    let div = reed_solomon_compute_divisor(10);
    let ecc = reed_solomon_compute_remainder(&data, &div);
    assert_eq!(ecc, vec![196, 35, 39, 119, 235, 215, 231, 226, 93, 23]);
    let all = add_ecc_and_interleave(Version::new(1), QrCodeEcc::Medium, &data);
    let mut expected = data.to_vec();
    expected.extend_from_slice(&ecc);
    assert_eq!(all, expected);
}

#[test]
fn remainder_of_no_data_is_zero() {
    let div = reed_solomon_compute_divisor(5);
    assert_eq!(reed_solomon_compute_remainder(&[], &div), vec![0; 5]);
}

#[test]
fn raw_modules_and_data_codewords_of_known_versions() {
    assert_eq!(get_num_raw_data_modules(Version::new(1)), 208);
    assert_eq!(get_num_raw_data_modules(Version::new(2)), 359);
    assert_eq!(get_num_raw_data_modules(Version::new(7)), 1568);
    assert_eq!(get_num_raw_data_modules(Version::new(40)), 29648);
    assert_eq!(get_num_data_codewords(Version::new(1), QrCodeEcc::Low), 19);
    assert_eq!(get_num_data_codewords(Version::new(1), QrCodeEcc::Medium), 16);
    assert_eq!(get_num_data_codewords(Version::new(1), QrCodeEcc::Quartile), 13);
    assert_eq!(get_num_data_codewords(Version::new(1), QrCodeEcc::High), 9);
    assert_eq!(get_num_data_codewords(Version::new(40), QrCodeEcc::Low), 2956);
    assert_eq!(get_num_data_codewords(Version::new(40), QrCodeEcc::High), 1276);
    assert_eq!(table_get(&ECC_CODEWORDS_PER_BLOCK, Version::new(5), QrCodeEcc::Quartile), 18);
    assert_eq!(table_get(&NUM_ERROR_CORRECTION_BLOCKS, Version::new(5), QrCodeEcc::Quartile), 4);
}

#[test]
fn interleaving_takes_the_blocks_by_turns() {
    // version 5, quartile: 2 blocks of 15 and 2 blocks of 16 data codewords, 18 of error correction each
    let data: Vec<u8> = (0..62).collect();
    let all = add_ecc_and_interleave(Version::new(5), QrCodeEcc::Quartile, &data);
    assert_eq!(all.len(), 134);
    assert_eq!(&all[0..8], &[0, 15, 30, 46, 1, 16, 31, 47]);
    assert_eq!(&all[56..62], &[14, 29, 44, 60, 45, 61]);
    let div = reed_solomon_compute_divisor(18);
    let e0 = reed_solomon_compute_remainder(&data[0..15], &div);
    let e1 = reed_solomon_compute_remainder(&data[15..30], &div);
    let e2 = reed_solomon_compute_remainder(&data[30..46], &div);
    let e3 = reed_solomon_compute_remainder(&data[46..62], &div);
    assert_eq!(&all[62..66], &[e0[0], e1[0], e2[0], e3[0]]);
    assert_eq!(&all[130..134], &[e0[17], e1[17], e2[17], e3[17]]);
}

#[test]
fn interleaved_length_and_round_trip_for_every_version_and_level() {
    for v in 1..=40u8 {
        for ecl in LEVELS {
            let ver = Version::new(v);
            let n = get_num_data_codewords(ver, ecl);
            let data: Vec<u8> = (0..n).map(|k| (k * 7 + 3) as u8).collect();
            let all = add_ecc_and_interleave(ver, ecl, &data);
            let raw = get_num_raw_data_modules(ver) / 8;
            assert_eq!(all.len(), raw);

            // take the interleaved sequence apart again
            let blocks = table_get(&NUM_ERROR_CORRECTION_BLOCKS, ver, ecl);
            let ecc = table_get(&ECC_CODEWORDS_PER_BLOCK, ver, ecl);
            let short = blocks - raw % blocks;
            let short_len = raw / blocks - ecc;
            let mut parts: Vec<Vec<u8>> = vec![Vec::new(); blocks];
            let mut k = 0;
            for i in 0..=short_len {
                for (j, part) in parts.iter_mut().enumerate() {
                    if i < short_len || j >= short {
                        part.push(all[k]);
                        k += 1;
                    }
                }
            }
            assert_eq!(k, n);
            let back: Vec<u8> = parts.concat();
            assert_eq!(back, data);
        }
    }
}
