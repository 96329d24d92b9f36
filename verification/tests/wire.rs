use lib::wire::{le_bytes_to_words, push_u16, push_u32, read_u16, read_u32, words_to_le_bytes};

#[test]
fn words_round_trip() {
    let bytes = [1u8, 2, 3, 4, 5, 6, 7];
    let words = le_bytes_to_words(&bytes);
    assert_eq!(words, vec![0x04030201, 0x00070605]);
    let back = words_to_le_bytes(&words, 2);
    assert_eq!(back, vec![1, 2, 3, 4, 5, 6, 7, 0]);
    assert_eq!(words_to_le_bytes(&words, 1), vec![1, 2, 3, 4]);
    assert!(le_bytes_to_words(&[]).is_empty());
}

#[test]
fn little_endian_fields() {
    let mut out = Vec::new();
    push_u16(&mut out, 0xBEEF);
    push_u32(&mut out, 0x12345678);
    assert_eq!(out, vec![0xEF, 0xBE, 0x78, 0x56, 0x34, 0x12]);
    assert_eq!(read_u16(&out, 0), 0xBEEF);
    assert_eq!(read_u32(&out, 2), 0x12345678);
}
