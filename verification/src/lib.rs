//! Verified rendering core of a live visual keyboard.
//!
//! The library covers the pixel-level compositor (opaque rectangle fill and
//! alpha-blended glyph paint on an ARGB frame buffer), a glyph rasterization
//! cache backed by `fontdue`, the text layout that centers a label inside a
//! box, the pressed-key state, the transient status overlay, the accent-color
//! adjustment state machine, and the flat key/value config format that
//! persists the accent color.  Window creation, the OS input listener and the
//! file system are host concerns and stay outside.

pub mod adjust;
pub mod buffer;
pub mod color;
pub mod config;
pub mod glyph;
pub mod input;
pub mod keys;
pub mod layout;
pub mod overlay;

pub use adjust::{AdjustEvent, AdjustOutcome, ColorAdjust, StatusMessage};
pub use buffer::{fill_rect, paint_glyph, rectangle, PixelBuffer};
pub use color::scroll_color;
pub use config::{encode_config, parse_config, Config};
pub use glyph::{GlyphBitmap, GlyphCache};
pub use input::InputState;
pub use keys::KeyRegion;
pub use layout::{draw_glyphs, draw_text, key_text, label_for_display, settings_text};
pub use overlay::StatusOverlay;
