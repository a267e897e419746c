use image_core::expand::{expand_bits, expand_packed};

#[test]
fn gray_to_luma8_skip() {
    let check = |bit_depth: u8, w: u32, from: &[u8], to: Vec<u8>| {
        assert_eq!(expand_bits(bit_depth, w, from), to);
    };
    // Bit depth 1, skip is more than half a byte
    check(
        1,
        10,
        &[0b11110000, 0b11000000, 0b00001111, 0b11000000],
        vec![
            255, 255, 255, 255, 0, 0, 0, 0, 255, 255, 0, 0, 0, 0, 255, 255, 255, 255, 255, 255,
        ],
    );
    // Bit depth 2, skip is more than half a byte
    check(
        2,
        5,
        &[0b11110000, 0b11000000, 0b00001111, 0b11000000],
        vec![255, 255, 0, 0, 255, 0, 0, 255, 255, 255],
    );
    // Bit depth 2, skip is 0
    check(
        2,
        4,
        &[0b11110000, 0b00001111],
        vec![255, 255, 0, 0, 0, 0, 255, 255],
    );
    // Bit depth 4, skip is half a byte
    check(4, 1, &[0b11110011, 0b00001100], vec![255, 0]);
}

#[test]
fn expand_bits_one_bit_rows_of_ten() {
    assert_eq!(
        expand_bits(1, 10, &[0b11110000, 0b11000000, 0b00001111, 0b11000000]),
        vec![255, 255, 255, 255, 0, 0, 0, 0, 255, 255, 0, 0, 0, 0, 255, 255, 255, 255, 255, 255]
    );
}

#[test]
fn expand_bits_byte_aligned_rows() {
    assert_eq!(expand_bits(2, 4, &[0b11110000, 0b00001111]), vec![255, 255, 0, 0, 0, 0, 255, 255]);
}

#[test]
fn expand_bits_one_nibble_of_padding() {
    assert_eq!(expand_bits(4, 1, &[0b11110011, 0b00001100]), vec![255, 0]);
}

#[test]
fn expand_bits_scales_intermediate_values() {
    // 2 bit samples 0,1,2,3 scale by 85; 4 bit samples by 17.
    assert_eq!(expand_bits(2, 4, &[0b00011011]), vec![0, 85, 170, 255]);
    assert_eq!(expand_bits(4, 2, &[0x5a]), vec![85, 170]);
}

#[test]
fn expand_bits_empty_input_and_zero_row() {
    assert_eq!(expand_bits(1, 3, &[]), Vec::<u8>::new());
    assert_eq!(expand_bits(1, 0, &[0xff]), Vec::<u8>::new());
}

#[test]
fn expand_packed_gray_in_place() {
    // Four 1 bit samples 1,0,1,1 expanded into one byte each.
    let mut buf = vec![0b1011_0000, 7, 7, 7];
    expand_packed(&mut buf, 1, 1, |s: u8, _c: usize| s * 255);
    assert_eq!(buf, vec![255, 0, 255, 255]);
}

#[test]
fn expand_packed_three_channels() {
    // Two 4 bit samples 0x2 and 0xc, each written to three channels.
    let mut buf = vec![0x2c, 0, 0, 0, 0, 0, 9];
    expand_packed(&mut buf, 3, 4, |s: u8, c: usize| s * 10 + c as u8);
    assert_eq!(buf, vec![20, 21, 22, 120, 121, 122, 9]);
}
