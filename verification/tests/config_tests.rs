use keylayout::{encode_config, parse_config, Config};

#[test]
fn encode_writes_the_key_value_line() {
    let c = Config { rectangle_color: 0xFF808080 };
    let bytes = encode_config(&c);
    assert_eq!(bytes, b"rectangle_color=4286611584\r\n".to_vec());
}

#[test]
fn round_trip_preserves_the_color() {
    for color in [0u32, 1, 9, 10, 255, 0xFF808080, 0xFFFFFFFF] {
        let c = Config { rectangle_color: color };
        let bytes = encode_config(&c);
        let parsed = parse_config(&bytes).expect("encoded configuration parses");
        assert_eq!(parsed.rectangle_color, color);
    }
}

#[test]
fn parse_accepts_all_line_endings() {
    assert_eq!(parse_config(b"rectangle_color=7").map(|c| c.rectangle_color), Some(7));
    assert_eq!(parse_config(b"rectangle_color=7\n").map(|c| c.rectangle_color), Some(7));
    assert_eq!(parse_config(b"rectangle_color=7\r\n").map(|c| c.rectangle_color), Some(7));
}

#[test]
fn parse_rejects_malformed_lines() {
    assert!(parse_config(b"").is_none());
    assert!(parse_config(b"rectangle_color=").is_none());
    assert!(parse_config(b"rectangle_color=abc").is_none());
    assert!(parse_config(b"rectangle_colour=7").is_none());
    assert!(parse_config(b"rectangle_color=7 ").is_none());
    assert!(parse_config(b"rectangle_color=7\r").is_none());
    assert!(parse_config(b"rectangle_color=12x").is_none());
}

#[test]
fn parse_rejects_values_above_the_color_range() {
    assert!(parse_config(b"rectangle_color=4294967296").is_none());
    assert!(parse_config(b"rectangle_color=99999999999999999999").is_none());
    assert_eq!(
        parse_config(b"rectangle_color=4294967295").map(|c| c.rectangle_color),
        Some(u32::MAX)
    );
}

#[test]
fn parse_accepts_leading_zeros() {
    assert_eq!(parse_config(b"rectangle_color=007\r\n").map(|c| c.rectangle_color), Some(7));
}

#[test]
fn fallback_is_the_default_gray() {
    assert_eq!(Config::fallback().rectangle_color, 0xFF808080);
}
