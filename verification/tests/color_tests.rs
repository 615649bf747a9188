use keylayout::scroll_color;

#[test]
fn red_delta_clamps_high() {
    // Channel at 250, delta +1000: clamps to 255.
    let mut color: u32 = 0xFFFA8080;
    assert_eq!((color >> 16) & 0xFF, 0xFA);
    let mut c = 0xFF000000 | (250 << 16) | (0x80 << 8) | 0x80;
    assert_eq!(c, 0xFFFA8080);
    let accepted = scroll_color(&mut c, 1000, 'R');
    assert!(accepted);
    assert_eq!(c, 0xFFFF8080);
    let accepted2 = scroll_color(&mut color, 1000, 'R');
    assert!(accepted2);
    assert_eq!(color, 0xFFFF8080);
}

#[test]
fn green_delta_clamps_low() {
    let mut color: u32 = 0xFF800580;
    let accepted = scroll_color(&mut color, -1000, 'G');
    assert!(accepted);
    assert_eq!(color, 0xFF800080);
}

#[test]
fn blue_delta_plain() {
    let mut color: u32 = 0xFF808080;
    let accepted = scroll_color(&mut color, 16, 'B');
    assert!(accepted);
    assert_eq!(color, 0xFF808090);
}

#[test]
fn unknown_component_rejected() {
    let mut color: u32 = 0xFF123456;
    let accepted = scroll_color(&mut color, 50, ' ');
    assert!(!accepted);
    assert_eq!(color, 0xFF123456);
    let accepted = scroll_color(&mut color, 50, 'X');
    assert!(!accepted);
    assert_eq!(color, 0xFF123456);
}

#[test]
fn alpha_pinned_opaque_on_accept() {
    let mut color: u32 = 0x00808080;
    let accepted = scroll_color(&mut color, 0, 'R');
    assert!(accepted);
    assert_eq!(color >> 24, 0xFF);
}
