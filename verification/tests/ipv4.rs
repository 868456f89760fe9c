use ipflip::ipv4::{decimal_text, is_ipv4, prefix_length_to_mask};

#[test]
fn plain_quads_are_ipv4() {
    for value in ["0.0.0.0", "192.168.1.10", "255.255.255.255", "10.0.0.1", "8.8.4.4"] {
        assert!(is_ipv4(value), "{value}");
    }
}

#[test]
fn other_texts_are_not_ipv4() {
    for value in [
        "",
        ".",
        "...",
        "1.2.3",
        "1.2.3.4.5",
        "1.2.3.",
        ".1.2.3",
        "1..2.3",
        "256.1.1.1",
        "1.1.1.999",
        "1.1.1.1000",
        "01.1.1.1",
        "1.1.1.00",
        "000.0.0.0",
        "+1.1.1.1",
        "-1.1.1.1",
        "1.1.1.1 ",
        " 1.1.1.1",
        "1. 1.1.1",
        "a.b.c.d",
        "1.1.1.a",
        "١.1.1.1",
        "1,1,1,1",
        "::1",
    ] {
        assert!(!is_ipv4(value), "{value}");
    }
}

#[test]
fn ipv4_agrees_with_printing() {
    for n in 0u32..=299 {
        let value = format!("10.{n}.0.1");
        assert_eq!(is_ipv4(&value), n <= 255, "{value}");
    }
}

#[test]
fn decimal_form_of_every_byte() {
    for n in 0u8..=255 {
        assert_eq!(decimal_text(n), format!("{n}"));
    }
}

#[test]
fn masks_of_prefixes() {
    assert_eq!(prefix_length_to_mask(0), Some("0.0.0.0".to_string()));
    assert_eq!(prefix_length_to_mask(1), Some("128.0.0.0".to_string()));
    assert_eq!(prefix_length_to_mask(8), Some("255.0.0.0".to_string()));
    assert_eq!(prefix_length_to_mask(12), Some("255.240.0.0".to_string()));
    assert_eq!(prefix_length_to_mask(20), Some("255.255.240.0".to_string()));
    assert_eq!(prefix_length_to_mask(24), Some("255.255.255.0".to_string()));
    assert_eq!(prefix_length_to_mask(31), Some("255.255.255.254".to_string()));
    assert_eq!(prefix_length_to_mask(32), Some("255.255.255.255".to_string()));
}

#[test]
fn masks_agree_with_shifting() {
    for n in 0i32..=32 {
        let mask: u32 = if n == 0 { 0 } else { u32::MAX << (32 - n) };
        let [a, b, c, d] = mask.to_be_bytes();
        assert_eq!(prefix_length_to_mask(n), Some(format!("{a}.{b}.{c}.{d}")));
    }
}

#[test]
fn no_mask_outside_of_prefixes() {
    for n in [-1, 33, 64, i32::MIN, i32::MAX] {
        assert_eq!(prefix_length_to_mask(n), None);
    }
}

#[test]
fn every_mask_is_ipv4_and_differs() {
    let mut seen: Vec<String> = vec![];
    for n in 0i32..=32 {
        let mask = prefix_length_to_mask(n).unwrap();
        assert!(is_ipv4(&mask));
        assert!(!seen.contains(&mask));
        seen.push(mask);
    }
}
