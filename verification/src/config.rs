//! The settings that outlive a session.

use crate::viewer::{HexViewer, State};
use vstd::prelude::*;

verus! {

/// The settings of the user.
#[derive(Debug)]
pub struct UserConfig {
    pub display: Option<DisplayConfig>,
}

/// How the dump looks.
#[derive(Debug)]
pub struct DisplayConfig {
    /// Bytes per group.
    pub grouping: Option<u8>,
}

impl Default for UserConfig {
    fn default() -> (r: Self)
        ensures
            r.display is None,
    {
        UserConfig { display: None }
    }
}

/// The groupings that there are.
pub open spec fn is_grouping(g: int) -> bool {
    g == 1 || g == 2 || g == 4 || g == 8
}

impl UserConfig {
    /// The grouping that the settings ask for, where there is such a one.
    pub open spec fn wanted_grouping(self) -> Option<u8> {
        match self.display {
            Some(DisplayConfig { grouping: Some(g) }) => if is_grouping(g as int) {
                Some(g)
            } else {
                None
            },
            _ => None,
        }
    }
}

/// Applies the settings to a viewer. A grouping that there is not is passed
/// over.
pub fn apply_config(viewer: &mut HexViewer, config: &UserConfig)
    ensures
        final(viewer)@ == (match config.wanted_grouping() {
            Some(g) => (State { grouping: g as int, ..old(viewer)@ }).laid_out(),
            None => old(viewer)@,
        }),
{
    if let Some(display) = &config.display {
        if let Some(g) = display.grouping {
            if g == 1 || g == 2 || g == 4 || g == 8 {
                viewer.grouping = g;
                viewer.recalc_layout();
            }
        }
    }
}

} // verus!
