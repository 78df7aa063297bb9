use message_relay::port::parse_port_descriptor;

#[test]
fn plain_port() {
    assert_eq!(parse_port_descriptor("8080"), Some(8080));
    assert_eq!(parse_port_descriptor("0"), Some(0));
    assert_eq!(parse_port_descriptor("65535"), Some(65535));
}

#[test]
fn white_space_around_the_port_is_dropped() {
    assert_eq!(parse_port_descriptor("  8080\n"), Some(8080));
    assert_eq!(parse_port_descriptor("\t\r\n 443 \u{b}\u{c}"), Some(443));
    assert_eq!(parse_port_descriptor("\u{a0}80\u{3000}"), Some(80));
    assert_eq!(parse_port_descriptor("\u{2003}\u{85}1\u{2028}\u{205f}"), Some(1));
}

#[test]
fn sign_and_leading_zeros() {
    assert_eq!(parse_port_descriptor("+80"), Some(80));
    assert_eq!(parse_port_descriptor("00080"), Some(80));
    assert_eq!(parse_port_descriptor("+0000065535"), Some(65535));
    assert_eq!(parse_port_descriptor("-80"), None);
    assert_eq!(parse_port_descriptor("++80"), None);
    assert_eq!(parse_port_descriptor("+"), None);
    assert_eq!(parse_port_descriptor("+ 80"), None);
}

#[test]
fn port_out_of_range() {
    assert_eq!(parse_port_descriptor("65536"), None);
    assert_eq!(parse_port_descriptor("99999"), None);
    assert_eq!(parse_port_descriptor("4294967296"), None);
    assert_eq!(parse_port_descriptor("100000000000000000000000000000"), None);
}

#[test]
fn text_that_names_no_port() {
    for text in ["", " ", "\n", "port", "80a", "a80", "12 34", "8080.0", "0x50", "8\u{a0}0", "٣"] {
        assert_eq!(parse_port_descriptor(text), None);
    }
}

#[test]
fn agrees_with_trim_and_parse() {
    let texts = [
        "8080", " 8080 ", "+1", "-1", "", "+", "65535", "65536", "000", "1e3", "\u{feff}80",
        "80\u{200b}", "\u{1680}7\u{202f}", "\u{2000}\u{200a}9", "9\u{200b}", "1_000", " + 1",
        "\u{180e}5",
    ];
    for text in texts {
        assert_eq!(parse_port_descriptor(text), text.trim().parse::<u16>().ok(), "{:?}", text);
    }
}
