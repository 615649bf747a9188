use keylayout::{AdjustEvent, ColorAdjust, StatusMessage};

#[test]
fn select_red_then_negative_delta_clamps_to_zero() {
    // Accent 0xFF8080FF, select 'R', delta -200: red clamps to 0.
    let mut adjust = ColorAdjust::new(0xFF8080FF);
    let on = adjust.apply(AdjustEvent::Toggle, 0);
    assert!(matches!(on.message, Some(StatusMessage::ToggleOn)));
    let sel = adjust.apply(AdjustEvent::SelectComponent('R'), 10);
    assert!(matches!(sel.message, Some(StatusMessage::SelectedRed)));
    let out = adjust.apply(AdjustEvent::ScrollDelta(-200), 20);
    assert!(out.color_changed);
    assert!(out.message.is_none());
    assert_eq!(adjust.accent, 0xFF0080FF);
}

#[test]
fn toggle_within_cooldown_is_ignored() {
    let mut adjust = ColorAdjust::new(0xFF808080);
    let first = adjust.apply(AdjustEvent::Toggle, 0);
    assert!(matches!(first.message, Some(StatusMessage::ToggleOn)));
    assert!(adjust.active);
    let bounced = adjust.apply(AdjustEvent::Toggle, 50);
    assert!(bounced.message.is_none());
    assert!(adjust.active);
    let second = adjust.apply(AdjustEvent::Toggle, 125);
    assert!(matches!(second.message, Some(StatusMessage::ToggleOff)));
    assert!(!adjust.active);
}

#[test]
fn delta_without_component_emits_hint_and_keeps_color() {
    let mut adjust = ColorAdjust::new(0xFF112233);
    adjust.apply(AdjustEvent::Toggle, 0);
    let out = adjust.apply(AdjustEvent::ScrollDelta(40), 10);
    assert!(!out.color_changed);
    assert!(matches!(out.message, Some(StatusMessage::PickComponentHint)));
    assert_eq!(adjust.accent, 0xFF112233);
}

#[test]
fn unknown_select_emits_component_hint_at_small_size() {
    let mut adjust = ColorAdjust::new(0xFF112233);
    adjust.apply(AdjustEvent::Toggle, 0);
    let out = adjust.apply(AdjustEvent::SelectComponent('Q'), 10);
    assert!(matches!(out.message, Some(StatusMessage::ComponentHint)));
    assert_eq!(adjust.component, ' ');
    assert_eq!(adjust.overlay_size, 40);
    let sel = adjust.apply(AdjustEvent::SelectComponent('G'), 20);
    assert!(matches!(sel.message, Some(StatusMessage::SelectedGreen)));
    assert_eq!(adjust.component, 'G');
    assert_eq!(adjust.overlay_size, 64);
}

#[test]
fn events_are_ignored_while_off() {
    let mut adjust = ColorAdjust::new(0xFF445566);
    let sel = adjust.apply(AdjustEvent::SelectComponent('R'), 0);
    assert!(sel.message.is_none());
    assert_eq!(adjust.component, ' ');
    let out = adjust.apply(AdjustEvent::ScrollDelta(10), 5);
    assert!(out.message.is_none());
    assert!(!out.color_changed);
    assert_eq!(adjust.accent, 0xFF445566);
}

#[test]
fn messages_carry_their_text() {
    assert_eq!(StatusMessage::ToggleOn.text(), "Scroll toggle: ON");
    assert_eq!(StatusMessage::ToggleOff.text(), "Scroll toggle: OFF");
    assert_eq!(StatusMessage::SelectedRed.text(), "Component selected: Red");
    assert_eq!(StatusMessage::SelectedGreen.text(), "Component selected: Green");
    assert_eq!(StatusMessage::SelectedBlue.text(), "Component selected: Blue");
    assert_eq!(
        StatusMessage::ComponentHint.text(),
        "Valid components: R - Red, G - Green, B - Blue"
    );
    assert_eq!(StatusMessage::PickComponentHint.text(), "Pick RGB component first !");
}

#[test]
fn blue_delta_through_the_machine() {
    let mut adjust = ColorAdjust::new(0xFF8080F0);
    adjust.apply(AdjustEvent::Toggle, 0);
    adjust.apply(AdjustEvent::SelectComponent('B'), 10);
    let out = adjust.apply(AdjustEvent::ScrollDelta(100), 20);
    assert!(out.color_changed);
    assert_eq!(adjust.accent, 0xFF8080FF);
}
