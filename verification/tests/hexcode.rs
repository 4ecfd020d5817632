use electrs::hexcode::{be_hex, reversed};

#[test]
fn reversed_turns_the_bytes_round() {
    assert_eq!(reversed(&[1, 2, 3]), vec![3, 2, 1]);
    assert_eq!(reversed(&[]), Vec::<u8>::new());
}

#[test]
fn be_hex_shows_a_hash_backwards_in_lower_case() {
    assert_eq!(be_hex(&[0x6F, 0xE2, 0x8C, 0x0A]), "0a8ce26f");
    assert_eq!(be_hex(&[0x00, 0xAB]), "ab00");
    assert_eq!(be_hex(&[]), "");
}
