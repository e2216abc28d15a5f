use budlum_core::fuzz_input::{
    producer_from, take, take_32, take_n, take_u32, take_u64, take_u8,
};

#[test]
fn reads_past_the_end_as_zero() {
    let data = [9u8, 8];
    let mut i = 0usize;
    assert_eq!(take(&data, &mut i), 9);
    assert_eq!(take_u8(&data, &mut i), 8);
    assert_eq!(take(&data, &mut i), 0);
    assert_eq!(i, 3);
}

#[test]
fn cursor_saturates() {
    let data = [1u8];
    let mut i = usize::MAX;
    assert_eq!(take(&data, &mut i), 0);
    assert_eq!(i, usize::MAX);
}

#[test]
fn reads_little_endian_words() {
    let data = [1u8, 0, 0, 0, 2, 0, 0, 0, 0, 0, 0, 0, 0xff];
    let mut i = 0usize;
    assert_eq!(take_u32(&data, &mut i), 1);
    assert_eq!(take_u64(&data, &mut i), 2);
    assert_eq!(i, 12);
    assert_eq!(take_n(&data, &mut i, 3), vec![0xff, 0, 0]);
    assert_eq!(i, 15);
}

#[test]
fn reads_32_bytes() {
    let data: Vec<u8> = (0u8..40).collect();
    let mut i = 4usize;
    let a = take_32(&data, &mut i);
    assert_eq!(a[0], 4);
    assert_eq!(a[31], 35);
    assert_eq!(i, 36);
}

#[test]
fn producer_address_marks_both_ends() {
    let a = producer_from(0x0f);
    assert_eq!(a.0[0], 0x0f);
    assert_eq!(a.0[31], 0x0f ^ 0xA5);
    assert!(a.0[1..31].iter().all(|b| *b == 0));
}
