use httpreq::port::port_from_text;

#[test]
fn digits_give_their_value() {
    assert_eq!(port_from_text("0"), Some(0));
    assert_eq!(port_from_text("80"), Some(80));
    assert_eq!(port_from_text("8080"), Some(8080));
    assert_eq!(port_from_text("65535"), Some(65535));
    assert_eq!(port_from_text("0000443"), Some(443));
}

#[test]
fn largest_port_that_fits() {
    assert_eq!(port_from_text("4294967295"), Some(4294967295));
    assert_eq!(port_from_text("4294967296"), None);
    assert_eq!(port_from_text("42949672950"), None);
    assert_eq!(port_from_text("99999999999999999999999999"), None);
    assert_eq!(port_from_text("00000000004294967295"), Some(4294967295));
}

#[test]
fn one_plus_sign_may_lead() {
    assert_eq!(port_from_text("+80"), Some(80));
    assert_eq!(port_from_text("+"), None);
    assert_eq!(port_from_text("++80"), None);
    assert_eq!(port_from_text("8+0"), None);
}

#[test]
fn anything_else_is_no_port() {
    assert_eq!(port_from_text(""), None);
    assert_eq!(port_from_text("-1"), None);
    assert_eq!(port_from_text("notanumber"), None);
    assert_eq!(port_from_text("80 "), None);
    assert_eq!(port_from_text(" 80"), None);
    assert_eq!(port_from_text("8o"), None);
    assert_eq!(port_from_text("\u{662}\u{663}"), None);
    assert_eq!(port_from_text("/"), None);
    assert_eq!(port_from_text(":"), None);
}

#[test]
fn port_reading_agrees_with_the_standard_parser() {
    let samples = [
        "", "+", "-", "0", "+0", "-0", "1", "80", "+80", "080", "65536", "4294967295",
        "4294967296", "+4294967295", "+4294967296", "12a", "a12", "1 2", "1_000", "0x50",
        "\u{ff11}", "18446744073709551616",
    ];
    for s in samples {
        assert_eq!(port_from_text(s), s.parse::<u32>().ok(), "{}", s);
    }
}
