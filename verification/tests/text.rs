use pinnacle::text::{hex_text, push_hex4, push_padded};

fn padded(n: u32, width: usize) -> String {
    let mut out = String::from("<");
    push_padded(&mut out, n, width);
    out
}

#[test]
fn numbers_are_zero_filled_to_a_width() {
    assert_eq!(padded(0, 2), "<00");
    assert_eq!(padded(7, 4), "<0007");
    assert_eq!(padded(15, 1), "<15");
    assert_eq!(padded(0, 0), "<0");
    assert_eq!(padded(u32::MAX, 2), "<4294967295");
}

#[test]
fn bytes_are_two_lowercase_digits_each() {
    assert_eq!(hex_text(&[]), "");
    assert_eq!(hex_text(&[0x00, 0x0f, 0xa0, 0xff]), "000fa0ff");
}

#[test]
fn indices_are_four_uppercase_digits() {
    for n in [0u16, 1, 0x0a1b, 0xcdef, u16::MAX] {
        let mut out = String::from("Boot");
        push_hex4(&mut out, n);
        assert_eq!(out, format!("Boot{n:04X}"));
    }
}
