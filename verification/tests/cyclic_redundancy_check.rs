use error_detection_techniques::cyclic_redundancy_check::generate_crc_3_gsm;
use error_detection_techniques::cyclic_redundancy_check::verify_crc_3_gsm;
use error_detection_techniques::cyclic_redundancy_check::verify_weird_crc;

#[test]
fn test_generate_crc_3_gsm() {
    assert_eq!(generate_crc_3_gsm(0b1001), 0b1001101);
}

#[test]
fn test_verify_crc_3_gsm() {
    assert_eq!(verify_crc_3_gsm(0b1001110), 1);
}

#[test]
fn test_verify_weird_crc() {
    assert_eq!(verify_weird_crc(&0b1001110, 0b1011), true);
    assert_eq!(verify_weird_crc(&0b0001011, 0b1011), false);
    assert_eq!(verify_weird_crc(&0b1111111, 0b1011), false);
    assert_eq!(verify_weird_crc(&0b1000110, 0b1011), false);
    assert_eq!(verify_weird_crc(&0b1001000, 0b1011), false);
}

#[test]
fn test_generate_crc_3_gsm_zero_remainder_adds_full_generator() {
    // 0b0000 padded is 0, whose remainder modulo 0b1011 is already 0; the
    // generation formula then adds a full generator instead of nothing.
    assert_eq!(generate_crc_3_gsm(0b0000), 0b1011);
    // 0b1011 padded is 0b1011000 = 88 = 8 * 11, again remainder 0.
    assert_eq!(generate_crc_3_gsm(0b1011), 88 + 11);
}

#[test]
fn test_verify_crc_3_gsm_of_generated_codewords() {
    // Codewords from the generator leave the fixed remainder 0, because a
    // full generator complement was added on top of the padded data.
    for data in 0u8..=0b1111 {
        let codeword = generate_crc_3_gsm(data);
        assert_eq!(verify_crc_3_gsm(codeword), 0);
    }
}
