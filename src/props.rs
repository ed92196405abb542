use vstd::prelude::*;

verus! {

/// Field width used when none is given.
pub const DEFAULT_WIDTH: u8 = 20;

/// Field height used when none is given.
pub const DEFAULT_HEIGHT: u8 = 10;

/// The size of the field a game is played on.
#[derive(Debug, Clone, Copy, PartialEq, Eq, Structural)]
pub struct App {
    pub width: u8,
    pub height: u8,
}

impl App {
    /// The field size from optional properties, falling back to 20 x 10.
    pub fn from_props(width: Option<u8>, height: Option<u8>) -> (r: App)
        ensures
            r.width == (match width {
                Some(w) => w,
                None => DEFAULT_WIDTH,
            }),
            r.height == (match height {
                Some(h) => h,
                None => DEFAULT_HEIGHT,
            }),
    {
        App {
            width: match width {
                Some(w) => w,
                None => DEFAULT_WIDTH,
            },
            height: match height {
                Some(h) => h,
                None => DEFAULT_HEIGHT,
            },
        }
    }
}

} // verus!
