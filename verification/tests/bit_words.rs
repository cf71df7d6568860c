use antbyte::bits::bits_from_int;
use antbyte::bits::int_from_bits;

#[test]
fn bit_conversion() {
    for i in 0..=0xff {
        let bits = bits_from_int(i);
        let value = int_from_bits(&bits) as u8;
        assert_eq!(i, value);
    }
}

#[test]
fn bits_are_least_significant_first() {
    assert_eq!(
        bits_from_int(0b0000_0101),
        [true, false, true, false, false, false, false, false]
    );
    assert_eq!(int_from_bits(&[false, true, true]), 6);
    assert_eq!(int_from_bits(&[]), 0);
}
