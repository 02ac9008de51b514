use pinnacle::scrub::{ScrubbedBytes, ScrubbedUnits};

#[test]
fn units_are_pushed_and_erased() {
    let mut buffer = ScrubbedUnits::with_limit(3);
    assert_eq!(buffer.len(), 0);
    buffer.push(7);
    buffer.push(8);
    buffer.push(9);
    assert_eq!(buffer.as_slice(), &[7, 8, 9]);
    buffer.erase_last();
    assert_eq!(buffer.as_slice(), &[7, 8]);
    assert_eq!(buffer.len(), 2);
}

#[test]
fn bytes_are_extended_and_overwritten() {
    let mut buffer = ScrubbedBytes::with_limit(5);
    buffer.extend(&[1, 2]);
    buffer.extend(&[]);
    buffer.extend(&[3, 4, 5]);
    assert_eq!(buffer.as_slice(), &[1, 2, 3, 4, 5]);
    let mut zeros = ScrubbedBytes::zeroed(4);
    assert_eq!(zeros.as_slice(), &[0, 0, 0, 0]);
    zeros.as_mut_slice()[2] = 9;
    assert_eq!(zeros.as_slice(), &[0, 0, 9, 0]);
}
