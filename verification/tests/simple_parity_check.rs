use error_detection_techniques::simple_parity_check::check_parity_bit;
use error_detection_techniques::simple_parity_check::check_syndrome;
use error_detection_techniques::simple_parity_check::compute_even_parity_bit;

#[test]
fn test_compute_even_parity_bit() {
    assert_eq!(compute_even_parity_bit(0b00000000), 0b000000000);
    assert_eq!(compute_even_parity_bit(0b00000100), 0b000001001);
    assert_eq!(compute_even_parity_bit(0b11010111), 0b110101110);
    assert_eq!(compute_even_parity_bit(0b10010011), 0b100100110);
    assert_eq!(compute_even_parity_bit(0b0), 0b00);
    assert_eq!(compute_even_parity_bit(0b0), 0b0);
    assert_eq!(compute_even_parity_bit(0b11111111), 0b111111110);
    assert_eq!(compute_even_parity_bit(0b11111110), 0b111111101);
    assert_eq!(compute_even_parity_bit(0b1100), 0b11000);
    assert_eq!(compute_even_parity_bit(0b1), 0b11);
    assert_eq!(compute_even_parity_bit(0b10), 0b101);
    assert_eq!(compute_even_parity_bit(0b11), 0b110);
    assert_eq!(compute_even_parity_bit(0b100), 0b1001);
}

#[test]
fn test_check_syndrome() {
    assert_eq!(check_syndrome(0b101010100), 0);
    assert_eq!(check_syndrome(0b111111110), 0);
    assert_eq!(check_syndrome(0b000000000), 0);

    assert_eq!(check_syndrome(0b111111111), 1);
    assert_eq!(check_syndrome(0b101010101), 1);
    assert_eq!(check_syndrome(0b000000001), 1);
    assert_eq!(check_syndrome(0b101001111), 0);
    assert_eq!(check_syndrome(0b101010001), 0);
    assert_eq!(check_syndrome(0b000000101), 0);
}

#[test]
fn test_clean_codewords_have_syndrome_zero() {
    for dataword in 0u8..=255 {
        let codeword = compute_even_parity_bit(dataword);
        assert_eq!(check_syndrome(codeword), 0);
    }
}

#[test]
fn test_single_bit_flip_always_detected() {
    for dataword in 0u8..=255 {
        let codeword = compute_even_parity_bit(dataword);
        for k in 0..16 {
            let corrupted = codeword ^ (1u16 << k);
            assert_eq!(check_syndrome(corrupted), 1);
        }
    }
}

#[test]
fn test_check_parity_bit() {
    assert_eq!(check_parity_bit(0b10010011, 0b100100110), true);
    assert_eq!(check_parity_bit(0b10010011, 0b100100111), false);
    // The syndrome alone accepts any even-parity word; the comparison
    // against the original rejects one that came from different data.
    assert_eq!(check_syndrome(0b110101110), 0);
    assert_eq!(check_parity_bit(0b10010011, 0b110101110), false);
}
