use boolrpn::adder::adder;
use boolrpn::gray_code::gray_code;
use boolrpn::multiplier::multiplier;

#[test]
fn test_adder_loop() {
    for i in 0u32..1000 {
        for j in 0u32..1000 {
            assert_eq!(adder(i, j), i + j);
        }
    }
}

#[test]
fn test_gray_code() {
    assert_eq!(gray_code(0), 0);
    assert_eq!(gray_code(1), 1);
    assert_eq!(gray_code(2), 3);
    assert_eq!(gray_code(3), 2);
    assert_eq!(gray_code(4), 6);
    assert_eq!(gray_code(5), 7);
    assert_eq!(gray_code(6), 5);
    assert_eq!(gray_code(7), 4);
    assert_eq!(gray_code(8), 12);
}

#[test]
fn test_multiplier_with_loop() {
    for i in 0u32..100 {
        for j in 0u32..100 {
            assert_eq!(multiplier(i, j), i * j);
        }
    }
}

#[test]
fn test_adder_wraps_at_word_width() {
    assert_eq!(adder(u32::MAX, 1), 0);
    assert_eq!(adder(u32::MAX, u32::MAX), u32::MAX - 1);
    assert_eq!(adder(0x8000_0000, 0x8000_0000), 0);
}

#[test]
fn test_multiplier_wraps_at_word_width() {
    assert_eq!(multiplier(0x8000_0000, 2), 0);
    assert_eq!(multiplier(0x1_0001, 0x1_0000), 0x1_0000);
}

#[test]
fn test_gray_code_top_bits() {
    assert_eq!(gray_code(0x8000_0000), 0x8000_0000 ^ ((0x8000_0000u32 >> 1) & 0xBFFF_FFFF));
    assert_eq!(gray_code(0xFFFF_FFFF), 0xFFFF_FFFF ^ ((0xFFFF_FFFFu32 >> 1) & 0xBFFF_FFFF));
}
