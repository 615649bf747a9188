//! The color-adjustment state machine: a debounced toggle gesture switches
//! it on and off; while on, component-select events pick the R, G or B
//! channel and scroll deltas mutate that channel of the accent color,
//! clamped per channel.  Every transition names the status message to show,
//! and every accepted color mutation asks the host for a repaint and a save.

use vstd::prelude::*;

use crate::color::{alpha_of, blue_of, clamp_channel, green_of, red_of, scroll_color};

verus! {

/// Cooldown between accepted toggle gestures, in milliseconds, so that one
/// physical press does not toggle twice.
pub const TOGGLE_COOLDOWN_MILLIS: u64 = 125;

/// Overlay pixel size for mode and selection announcements.
pub const ADJUST_OVERLAY_SIZE: u32 = 64;

/// Overlay pixel size for the component hint.
pub const HINT_OVERLAY_SIZE: u32 = 40;

/// The status messages the state machine emits.
pub enum StatusMessage {
    ToggleOn,
    ToggleOff,
    SelectedRed,
    SelectedGreen,
    SelectedBlue,
    ComponentHint,
    PickComponentHint,
}

impl StatusMessage {
    /// The text of the message.
    pub fn text(&self) -> (r: &'static str)
        ensures
            self is ToggleOn ==> r@ == "Scroll toggle: ON"@,
            self is ToggleOff ==> r@ == "Scroll toggle: OFF"@,
            self is SelectedRed ==> r@ == "Component selected: Red"@,
            self is SelectedGreen ==> r@ == "Component selected: Green"@,
            self is SelectedBlue ==> r@ == "Component selected: Blue"@,
            self is ComponentHint ==> r@ == "Valid components: R - Red, G - Green, B - Blue"@,
            self is PickComponentHint ==> r@ == "Pick RGB component first !"@,
    {
        match self {
            StatusMessage::ToggleOn => "Scroll toggle: ON",
            StatusMessage::ToggleOff => "Scroll toggle: OFF",
            StatusMessage::SelectedRed => "Component selected: Red",
            StatusMessage::SelectedGreen => "Component selected: Green",
            StatusMessage::SelectedBlue => "Component selected: Blue",
            StatusMessage::ComponentHint => "Valid components: R - Red, G - Green, B - Blue",
            StatusMessage::PickComponentHint => "Pick RGB component first !",
        }
    }
}

/// An input to the state machine: the toggle gesture, a component-select
/// key ('R', 'G' or 'B' select; anything else is a miss), or a signed
/// scroll delta.
pub enum AdjustEvent {
    Toggle,
    SelectComponent(char),
    ScrollDelta(i32),
}

/// What a transition asks the host to do: show a message at a size, repaint
/// with and persist the new accent color.
pub struct AdjustOutcome {
    pub message: Option<StatusMessage>,
    pub color_changed: bool,
}

/// The adjustment mode state: whether it is on, the selected component
/// (' ' when none), the accent color it mutates, the overlay size to render
/// status text at, and the instant of the last accepted toggle.
pub struct ColorAdjust {
    pub active: bool,
    pub component: char,
    pub accent: u32,
    pub overlay_size: u32,
    pub last_toggle: Option<u64>,
}

impl ColorAdjust {
    /// Whether a toggle gesture at `now` is past the debounce cooldown.
    pub open spec fn toggle_ready(self, now: u64) -> bool {
        match self.last_toggle {
            Option::None => true,
            Option::Some(t) => now >= t && now - t >= TOGGLE_COOLDOWN_MILLIS,
        }
    }

    /// The mode as started: off, no component selected, the given accent
    /// color.
    pub fn new(accent: u32) -> (r: ColorAdjust)
        ensures
            !r.active,
            r.component == ' ',
            r.accent == accent,
            r.overlay_size == ADJUST_OVERLAY_SIZE,
            r.last_toggle is None,
    {
        ColorAdjust {
            active: false,
            component: ' ',
            accent,
            overlay_size: ADJUST_OVERLAY_SIZE,
            last_toggle: None,
        }
    }

    /// Applies one event at instant `now`.
    ///
    /// A toggle past the cooldown flips the mode and announces it; within
    /// the cooldown it is ignored.  While the mode is on, selecting 'R', 'G'
    /// or 'B' records the component and announces the selection, any other
    /// select emits the component hint and changes nothing else, and a
    /// scroll delta adjusts the selected channel of the accent color
    /// (clamped to [0, 255]) or, with no component selected, only emits a
    /// hint.  While the mode is off, select and scroll events are ignored.
    pub fn apply(&mut self, event: AdjustEvent, now: u64) -> (outcome: AdjustOutcome)
        ensures
            ({
                let s0 = *old(self);
                let s1 = *final(self);
                match event {
                    AdjustEvent::Toggle => {
                        if s0.toggle_ready(now) {
                            &&& s1.active == !s0.active
                            &&& s1.component == s0.component
                            &&& s1.accent == s0.accent
                            &&& s1.overlay_size == ADJUST_OVERLAY_SIZE
                            &&& s1.last_toggle == Some(now)
                            &&& outcome.message == Some(
                                if s1.active {
                                    StatusMessage::ToggleOn
                                } else {
                                    StatusMessage::ToggleOff
                                },
                            )
                            &&& !outcome.color_changed
                        } else {
                            s1 == s0 && outcome.message is None && !outcome.color_changed
                        }
                    },
                    AdjustEvent::SelectComponent(c) => {
                        if !s0.active {
                            s1 == s0 && outcome.message is None && !outcome.color_changed
                        } else if c == 'R' || c == 'G' || c == 'B' {
                            &&& s1 == (ColorAdjust {
                                component: c,
                                overlay_size: ADJUST_OVERLAY_SIZE,
                                ..s0
                            })
                            &&& outcome.message == Some(
                                if c == 'R' {
                                    StatusMessage::SelectedRed
                                } else if c == 'G' {
                                    StatusMessage::SelectedGreen
                                } else {
                                    StatusMessage::SelectedBlue
                                },
                            )
                            &&& !outcome.color_changed
                        } else {
                            &&& s1 == (ColorAdjust { overlay_size: HINT_OVERLAY_SIZE, ..s0 })
                            &&& outcome.message == Some(StatusMessage::ComponentHint)
                            &&& !outcome.color_changed
                        }
                    },
                    AdjustEvent::ScrollDelta(d) => {
                        if !s0.active {
                            s1 == s0 && outcome.message is None && !outcome.color_changed
                        } else if s0.component == 'R' || s0.component == 'G' || s0.component
                            == 'B' {
                            &&& s1.active == s0.active
                            &&& s1.component == s0.component
                            &&& s1.overlay_size == s0.overlay_size
                            &&& s1.last_toggle == s0.last_toggle
                            &&& outcome.message is None
                            &&& outcome.color_changed
                            &&& alpha_of(s1.accent) == 0xFF
                            &&& red_of(s1.accent) == (if s0.component == 'R' {
                                clamp_channel(red_of(s0.accent) + d)
                            } else {
                                red_of(s0.accent)
                            })
                            &&& green_of(s1.accent) == (if s0.component == 'G' {
                                clamp_channel(green_of(s0.accent) + d)
                            } else {
                                green_of(s0.accent)
                            })
                            &&& blue_of(s1.accent) == (if s0.component == 'B' {
                                clamp_channel(blue_of(s0.accent) + d)
                            } else {
                                blue_of(s0.accent)
                            })
                        } else {
                            &&& s1 == s0
                            &&& outcome.message == Some(StatusMessage::PickComponentHint)
                            &&& !outcome.color_changed
                        }
                    },
                }
            }),
    {
        match event {
            AdjustEvent::Toggle => {
                let ready = match self.last_toggle {
                    Some(t) => now >= t && now - t >= TOGGLE_COOLDOWN_MILLIS,
                    None => true,
                };
                if ready {
                    self.active = !self.active;
                    self.last_toggle = Some(now);
                    self.overlay_size = ADJUST_OVERLAY_SIZE;
                    let message = if self.active {
                        StatusMessage::ToggleOn
                    } else {
                        StatusMessage::ToggleOff
                    };
                    AdjustOutcome { message: Some(message), color_changed: false }
                } else {
                    AdjustOutcome { message: None, color_changed: false }
                }
            },
            AdjustEvent::SelectComponent(c) => {
                if !self.active {
                    AdjustOutcome { message: None, color_changed: false }
                } else if c == 'R' || c == 'G' || c == 'B' {
                    self.component = c;
                    self.overlay_size = ADJUST_OVERLAY_SIZE;
                    let message = if c == 'R' {
                        StatusMessage::SelectedRed
                    } else if c == 'G' {
                        StatusMessage::SelectedGreen
                    } else {
                        StatusMessage::SelectedBlue
                    };
                    AdjustOutcome { message: Some(message), color_changed: false }
                } else {
                    self.overlay_size = HINT_OVERLAY_SIZE;
                    AdjustOutcome {
                        message: Some(StatusMessage::ComponentHint),
                        color_changed: false,
                    }
                }
            },
            AdjustEvent::ScrollDelta(d) => {
                if !self.active {
                    AdjustOutcome { message: None, color_changed: false }
                } else {
                    let mut color = self.accent;
                    let accepted = scroll_color(&mut color, d, self.component);
                    if accepted {
                        self.accent = color;
                        AdjustOutcome { message: None, color_changed: true }
                    } else {
                        AdjustOutcome {
                            message: Some(StatusMessage::PickComponentHint),
                            color_changed: false,
                        }
                    }
                }
            },
        }
    }
}

} // verus!
