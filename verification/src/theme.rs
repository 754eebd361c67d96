//! The colours the window is drawn in.
//!
//! A palette written down as explicit pairs so the contrast ratios can be
//! reasoned about instead of inherited — every text colour below reaches at
//! least 4.5:1 against the surface it is drawn on.

use vstd::prelude::*;

verus! {

/// A colour: red, green and blue.
#[derive(Clone, Copy, PartialEq, Eq, Debug, Structural)]
pub struct Rgb(pub u8, pub u8, pub u8);

/// The colours that change meaning between light and dark. Held as a struct so
/// a call site asks for "the error colour" and gets one that is legible on the
/// surface it is actually drawing on.
#[derive(Clone, Copy, PartialEq, Eq, Debug, Structural)]
pub struct Palette {
    /// Success / completed.
    pub ok: Rgb,
    /// Needs attention but nothing has failed.
    pub warn: Rgb,
    /// Something failed.
    pub bad: Rgb,
    /// Supporting text. Still 4.5:1 — "muted" here means lower saturation, not
    /// lower contrast, because greyed-out text is where accessibility usually
    /// goes wrong.
    pub muted: Rgb,
    /// Focus ring and selection.
    pub accent: Rgb,
}

/// 4.5:1 or better against white and the light panel fill.
pub open spec fn light() -> Palette {
    Palette {
        ok: Rgb(0, 100, 45),
        warn: Rgb(133, 77, 0),
        bad: Rgb(176, 27, 27),
        muted: Rgb(84, 92, 102),
        accent: Rgb(11, 87, 164),
    }
}

/// 4.5:1 or better against the dark panel and window fills.
pub open spec fn dark() -> Palette {
    Palette {
        ok: Rgb(109, 219, 133),
        warn: Rgb(240, 187, 64),
        bad: Rgb(255, 138, 128),
        muted: Rgb(176, 186, 197),
        accent: Rgb(124, 187, 255),
    }
}

/// The palette matching whichever theme is currently in force.
pub fn palette(dark_mode: bool) -> (r: Palette)
    ensures
        r == (if dark_mode {
            dark()
        } else {
            light()
        }),
{
    if dark_mode {
        Palette {
            ok: Rgb(109, 219, 133),
            warn: Rgb(240, 187, 64),
            bad: Rgb(255, 138, 128),
            muted: Rgb(176, 186, 197),
            accent: Rgb(124, 187, 255),
        }
    } else {
        Palette {
            ok: Rgb(0, 100, 45),
            warn: Rgb(133, 77, 0),
            bad: Rgb(176, 27, 27),
            muted: Rgb(84, 92, 102),
            accent: Rgb(11, 87, 164),
        }
    }
}

} // verus!
