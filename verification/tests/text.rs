use nsproxy::text::{push_decimal, push_dotted_quad, push_signed_decimal, same_text};

#[test]
fn decimal_of_small_and_large_numbers() {
    let mut out = String::from("n=");
    push_decimal(&mut out, 0);
    out.push(',');
    push_decimal(&mut out, 7);
    out.push(',');
    push_decimal(&mut out, 10);
    out.push(',');
    push_decimal(&mut out, 65535);
    out.push(',');
    push_decimal(&mut out, u64::MAX);
    assert_eq!(out, "n=0,7,10,65535,18446744073709551615");
}

#[test]
fn signed_decimal_keeps_the_sign() {
    let mut out = String::new();
    push_signed_decimal(&mut out, -1);
    out.push(' ');
    push_signed_decimal(&mut out, 0);
    out.push(' ');
    push_signed_decimal(&mut out, 255);
    out.push(' ');
    push_signed_decimal(&mut out, i32::MIN);
    out.push(' ');
    push_signed_decimal(&mut out, i32::MAX);
    assert_eq!(out, "-1 0 255 -2147483648 2147483647");
}

#[test]
fn dotted_quad_of_addresses() {
    let mut out = String::new();
    push_dotted_quad(&mut out, 0x0D00_0001);
    out.push(' ');
    push_dotted_quad(&mut out, 0);
    out.push(' ');
    push_dotted_quad(&mut out, 0xFFFF_FFFF);
    out.push(' ');
    push_dotted_quad(&mut out, 0x7F00_0001);
    out.push(' ');
    push_dotted_quad(&mut out, 0xC0A8_0164);
    assert_eq!(out, "13.0.0.1 0.0.0.0 255.255.255.255 127.0.0.1 192.168.1.100");
}

#[test]
fn same_text_compares_characters() {
    assert!(same_text("", ""));
    assert!(same_text("abc", "abc"));
    assert!(!same_text("abc", "abd"));
    assert!(!same_text("abc", "ab"));
    assert!(!same_text("abc", "ABC"));
    assert!(same_text("größe", "größe"));
    assert!(!same_text("große", "größe"));
}
