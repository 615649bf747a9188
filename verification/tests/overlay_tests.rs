use keylayout::StatusOverlay;

#[test]
fn message_lives_for_its_ttl_and_is_cleared_after() {
    let mut overlay = StatusOverlay::new();
    overlay.show(String::from("Scroll toggle: ON"), 0);
    assert!(overlay.is_live(1900));
    assert_eq!(overlay.current_message().map(|m| m.clone()), Some(String::from(
        "Scroll toggle: ON",
    )));
    assert!(!overlay.is_live(2100));
    assert!(overlay.current_message().is_none());
}

#[test]
fn boundary_instant_is_still_live() {
    let mut overlay = StatusOverlay::new();
    overlay.show(String::from("hello"), 100);
    assert!(overlay.is_live(2100));
    assert!(!overlay.is_live(2101));
}

#[test]
fn new_message_replaces_the_old_one() {
    let mut overlay = StatusOverlay::new();
    overlay.show(String::from("first"), 0);
    overlay.show(String::from("second"), 1000);
    assert!(overlay.is_live(2500));
    assert_eq!(overlay.current_message().map(|m| m.clone()), Some(String::from("second")));
}

#[test]
fn empty_overlay_is_not_live() {
    let mut overlay = StatusOverlay::new();
    assert!(!overlay.is_live(0));
    assert!(overlay.current_message().is_none());
}
