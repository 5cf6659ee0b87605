use frequency_sketch::bits::{
    bit_count, ceiling_power_of_two, number_of_leading_zeros, MAX_POWER_OF_TWO,
};

#[test]
fn bit_count_of_23_is_4() {
    assert_eq!(bit_count(23), 4);
}

#[test]
fn bit_count_keeps_low_three_bits() {
    assert_eq!(bit_count(0), 0);
    assert_eq!(bit_count(1), 1);
    assert_eq!(bit_count(0x7f), 7);
    assert_eq!(bit_count(0xff), 0);
    assert_eq!(bit_count(0x1ff), 1);
    assert_eq!(bit_count(0xffff), 0);
    assert_eq!(bit_count(0x8000_0000_0000_0000), 1);
    assert_eq!(bit_count(0x1111_1111_1111_1111), 0);
    assert_eq!(bit_count(0x0111_1111_1111_1111), 7);
    assert_eq!(bit_count(u64::MAX), 0);
    assert_eq!(bit_count(u64::MAX >> 1), 7);
}

#[test]
fn bit_count_agrees_with_count_ones_modulo_8() {
    let mut x: u64 = 0x9e37_79b9_7f4a_7c15;
    for _ in 0..1000 {
        x = x.wrapping_mul(6364136223846793005).wrapping_add(1442695040888963407);
        assert_eq!(bit_count(x) as u32, x.count_ones() % 8);
    }
}

#[test]
fn leading_zeros_of_89_is_25() {
    assert_eq!(number_of_leading_zeros(89), 25);
}

#[test]
fn leading_zeros_edge_cases() {
    assert_eq!(number_of_leading_zeros(0), 32);
    assert_eq!(number_of_leading_zeros(-1), 0);
    assert_eq!(number_of_leading_zeros(i32::MIN), 0);
    assert_eq!(number_of_leading_zeros(1), 31);
    assert_eq!(number_of_leading_zeros(2), 30);
    assert_eq!(number_of_leading_zeros(3), 30);
    assert_eq!(number_of_leading_zeros(0xffff), 16);
    assert_eq!(number_of_leading_zeros(0x1_0000), 15);
    assert_eq!(number_of_leading_zeros(i32::MAX), 1);
}

#[test]
fn leading_zeros_agrees_with_std() {
    let mut i: i32 = 1;
    while i > 0 && i < i32::MAX / 3 {
        assert_eq!(number_of_leading_zeros(i) as u32, i.leading_zeros());
        assert_eq!(number_of_leading_zeros(i + 1) as u32, (i + 1).leading_zeros());
        i = i * 3 + 1;
    }
}

#[test]
fn ceiling_power_of_two_of_10_is_16() {
    assert_eq!(ceiling_power_of_two(10), 16);
}

#[test]
fn ceiling_power_of_two_keeps_powers_of_two() {
    let mut p: i32 = 1;
    for _ in 0..31 {
        assert_eq!(ceiling_power_of_two(p), p as u32);
        if p == 1 << 30 {
            break;
        }
        p *= 2;
    }
}

#[test]
fn ceiling_power_of_two_rounds_up() {
    assert_eq!(ceiling_power_of_two(3), 4);
    assert_eq!(ceiling_power_of_two(5), 8);
    assert_eq!(ceiling_power_of_two(17), 32);
    assert_eq!(ceiling_power_of_two(1000), 1024);
    assert_eq!(ceiling_power_of_two(1025), 2048);
    assert_eq!(ceiling_power_of_two((1 << 29) + 1), 1 << 30);
}

#[test]
fn ceiling_power_of_two_is_1_up_to_1() {
    assert_eq!(ceiling_power_of_two(1), 1);
    assert_eq!(ceiling_power_of_two(0), 1);
    assert_eq!(ceiling_power_of_two(-1), 1);
    assert_eq!(ceiling_power_of_two(-1000), 1);
    assert_eq!(ceiling_power_of_two(i32::MIN), 1);
}

#[test]
fn ceiling_power_of_two_is_capped() {
    assert_eq!(MAX_POWER_OF_TWO, 1 << 30);
    assert_eq!(ceiling_power_of_two(1 << 30), 1 << 30);
    assert_eq!(ceiling_power_of_two((1 << 30) + 1), 1 << 30);
    assert_eq!(ceiling_power_of_two(i32::MAX), 1 << 30);
}
