use dotmatrix_fileprinter::text::{push_decimal, push_numeral};

#[test]
fn decimal_is_appended_without_padding() {
    let mut out = String::from("n=");
    push_decimal(&mut out, 0);
    out.push(',');
    push_decimal(&mut out, 7);
    out.push(',');
    push_decimal(&mut out, 10);
    out.push(',');
    push_decimal(&mut out, 127);
    out.push(',');
    push_decimal(&mut out, 1000000);
    assert_eq!(out, "n=0,7,10,127,1000000");
}

#[test]
fn decimal_of_the_largest_number() {
    let mut out = String::new();
    push_decimal(&mut out, usize::MAX);
    assert_eq!(out, format!("{}", usize::MAX));
}

#[test]
fn hex_is_padded_with_zeros_up_to_the_width() {
    let mut out = String::new();
    push_numeral(&mut out, 0xa0, 16, true, 2);
    out.push(' ');
    push_numeral(&mut out, 0xa0, 16, false, 2);
    out.push(' ');
    push_numeral(&mut out, 5, 16, false, 2);
    out.push(' ');
    push_numeral(&mut out, 0x1f0, 16, false, 8);
    out.push(' ');
    push_numeral(&mut out, 0, 16, false, 8);
    assert_eq!(out, "A0 a0 05 000001f0 00000000");
}

#[test]
fn width_is_a_minimum() {
    let mut out = String::new();
    push_numeral(&mut out, 0xabcdef, 16, false, 2);
    out.push(' ');
    push_numeral(&mut out, 0xABCDEF, 16, true, 0);
    out.push(' ');
    push_numeral(&mut out, 5, 2, false, 0);
    out.push(' ');
    push_numeral(&mut out, 255, 10, false, 5);
    assert_eq!(out, "abcdef ABCDEF 101 00255");
}

#[test]
fn hex_matches_the_standard_formatting_for_every_byte() {
    for b in 0u8..=255 {
        let mut lower = String::new();
        push_numeral(&mut lower, b as usize, 16, false, 2);
        assert_eq!(lower, format!("{:02x}", b));
        let mut upper = String::new();
        push_numeral(&mut upper, b as usize, 16, true, 2);
        assert_eq!(upper, format!("{:02X}", b));
        let mut dec = String::new();
        push_decimal(&mut dec, b as usize);
        assert_eq!(dec, format!("{}", b));
    }
}
