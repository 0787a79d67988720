use synacor::u15::{U15, MAX};

#[test]
fn addition_wraps_at_32768() {
    assert_eq!((U15::new(10) + U15::new(20)).to_u16(), 30);
    assert_eq!((U15::new(MAX) + U15::new(1)).to_u16(), 0);
    assert_eq!((U15::new(32758) + U15::new(15)).to_u16(), 5);
}

#[test]
fn adding_max_steps_down() {
    assert_eq!((U15::new(5) + 32767u16).to_u16(), 4);
    assert_eq!((U15::new(0) + 32767u16).to_u16(), 32767);
    assert_eq!((U15::new(7) + 1u16).to_u16(), 8);
}

#[test]
fn multiplication_wraps() {
    assert_eq!((U15::new(200) * U15::new(200)).to_u16(), 7232);
    assert_eq!((U15::new(3) * U15::new(4)).to_u16(), 12);
    assert_eq!((U15::new(MAX) * U15::new(MAX)).to_u16(), 1);
}

#[test]
fn remainder_and_difference() {
    assert_eq!((U15::new(17) % U15::new(5)).to_u16(), 2);
    assert_eq!((U15::new(10) - U15::new(3)).to_u16(), 7);
    assert_eq!(((U15::new(100) + U15::new(23)) - U15::new(23)).to_u16(), 100);
}

#[test]
fn bitwise_operations() {
    assert_eq!((U15::new(0b1100) & U15::new(0b1010)).to_u16(), 0b1000);
    assert_eq!((U15::new(0b1100) | U15::new(0b1010)).to_u16(), 0b1110);
    assert_eq!((!U15::new(0)).to_u16(), 32767);
    assert_eq!((!U15::new(32767)).to_u16(), 0);
    assert_eq!((!U15::new(21845)).to_u16(), 10922);
}

#[test]
fn complement_twice_is_identity() {
    for v in [0u16, 1, 2, 100, 12345, 32767] {
        let x = U15::new(v);
        assert_eq!(!(!x), x);
    }
}

#[test]
fn conversions() {
    assert_eq!(U15::from(200u8).to_u16(), 200);
    assert_eq!(U15::new(65).to_char(), 'A');
    assert_eq!(U15::new(10).to_char(), '\n');
    assert_eq!(U15::new(1234).to_idx(), 1234usize);
    assert_eq!(U15::new(32767).to_u16(), 32767);
}

#[test]
fn text_is_decimal() {
    assert_eq!(U15::new(0).to_text(), "0");
    assert_eq!(U15::new(7).to_text(), "7");
    assert_eq!(U15::new(12345).to_text(), "12345");
    assert_eq!(U15::new(32767).to_text(), "32767");
}

#[test]
fn operand_order_does_not_matter() {
    for (a, b) in [(1u16, 2u16), (32767, 5), (300, 300), (12345, 23456)] {
        assert_eq!(U15::new(a) + U15::new(b), U15::new(b) + U15::new(a));
        assert_eq!(U15::new(a) * U15::new(b), U15::new(b) * U15::new(a));
    }
}

#[test]
fn from_signed_numbers() {
    assert_eq!(U15::from_i32(0), U15::new(0));
    assert_eq!(U15::from_i32(32767).to_u16(), 32767);
    assert_eq!(U15::from_i32(1234), U15::new(1234));
}
