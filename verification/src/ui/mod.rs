//! What the mixer window decides, apart from drawing it.

pub mod appicon;
pub mod mixer;
pub mod placement;
pub mod theme;
pub mod widgets;

use vstd::prelude::*;

verus! {

/// Icons drawn on the window's buttons.
#[derive(Debug, Clone, Copy, PartialEq, Eq, Structural)]
pub enum Icon {
    Close,
    /// Sliders; reads as "settings" and suits a volume app better than a gear.
    Settings,
    Pin,
    /// Circular arrow: apply the saved values.
    Sync,
    /// Arrow into a tray: store the current values.
    Save,
    Speaker,
    SpeakerMuted,
    Trash,
}

/// Which panel the window shows.
#[derive(Debug, Clone, Copy, PartialEq, Eq, Structural)]
pub enum Panel {
    Mixer,
    Settings,
}

/// Native window width, in points.
pub const WINDOW_WIDTH: u32 = 424;

/// Native window height, in points.
pub const WINDOW_HEIGHT: u32 = 572;

} // verus!
