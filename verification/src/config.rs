//! Bar geometry: the immutable surface configuration taken from the layout
//! script at startup, and the values derived from it when the layer surface
//! is created.

use vstd::prelude::*;
use crate::text::str_eq;

verus! {

/// Which screen edge the bar surface is pinned to.
#[derive(Clone, Copy, Debug, PartialEq, Eq, Structural)]
pub enum Anchor {
    Top,
    Bottom,
}

/// Why a surface description from the layout script was rejected.
#[derive(Clone, Copy, Debug, PartialEq, Eq, Structural)]
pub enum ConfigError {
    /// The requested height is zero or does not fit a signed 32-bit field.
    BadHeight,
    /// The requested exclusive height does not fit a signed 32-bit field.
    BadExclusiveHeight,
    /// The anchor string is neither "top" nor "bottom".
    BadAnchor,
}

/// Immutable snapshot of the bar geometry, taken once at startup from the
/// layout script and read-only thereafter.
#[derive(Clone, Copy, Debug, PartialEq, Eq, Structural)]
pub struct SurfaceConfig {
    /// Allocate this many rows for drawing.
    pub height: u32,
    /// Request exclusive residence from the compositor.
    ///
    /// This can be used to implement margins, or (with a negative value) to
    /// allow windows to draw over the bar.  Defaults to `height` if not
    /// specified.
    pub exclusive_height: Option<i32>,
    /// Anchor the bar to the bottom of the output, instead of the top.
    pub bottom: bool,
}

impl SurfaceConfig {
    /// The bar height is positive and fits the protocol's signed 32-bit
    /// size fields.
    pub open spec fn wf(self) -> bool {
        0 < self.height <= i32::MAX
    }

    pub open spec fn spec_anchor(self) -> Anchor {
        if self.bottom {
            Anchor::Bottom
        } else {
            Anchor::Top
        }
    }

    /// The edge the layer surface is anchored to: `bottom == false` maps to
    /// `Top`, `bottom == true` maps to `Bottom`.
    pub fn anchor(&self) -> (a: Anchor)
        ensures
            a == self.spec_anchor(),
    {
        if self.bottom {
            Anchor::Bottom
        } else {
            Anchor::Top
        }
    }

    pub open spec fn spec_exclusive_zone(self) -> int {
        match self.exclusive_height {
            Some(e) => e as int,
            None => self.height as int,
        }
    }

    /// The exclusive zone requested from the compositor: `exclusive_height`
    /// when set (negative values permit overlap), otherwise `height`.
    pub fn exclusive_zone(&self) -> (z: i32)
        requires
            self.wf(),
        ensures
            z == self.spec_exclusive_zone(),
    {
        match self.exclusive_height {
            Some(e) => e,
            None => self.height as i32,
        }
    }
}

/// The height assumed when the script's surface record does not give one.
pub const DEFAULT_HEIGHT: u32 = 32;

/// What [`SurfaceConfig::from_script`] returns for the given script fields.
///
/// The fields are checked in order: height first, then exclusive height,
/// then the anchor string.
pub open spec fn spec_from_script(
    height: Option<i64>,
    exclusive_height: Option<i64>,
    anchor: Option<Seq<char>>,
) -> Result<SurfaceConfig, ConfigError> {
    let h = match height {
        Some(h) => h,
        None => DEFAULT_HEIGHT as i64,
    };
    if !(0 < h <= i32::MAX) {
        Err(ConfigError::BadHeight)
    } else if (exclusive_height matches Some(e) && !(i32::MIN <= e <= i32::MAX)) {
        Err(ConfigError::BadExclusiveHeight)
    } else if (anchor matches Some(a) && a != "top"@ && a != "bottom"@) {
        Err(ConfigError::BadAnchor)
    } else {
        Ok(SurfaceConfig {
            height: h as u32,
            exclusive_height: match exclusive_height {
                Some(e) => Some(e as i32),
                None => None,
            },
            bottom: match anchor {
                Some(a) => a == "bottom"@,
                None => false,
            },
        })
    }
}

/// Builds the surface configuration from the fields of the script's
/// `surface` record.  Absent fields take their defaults: height
/// [`DEFAULT_HEIGHT`], no explicit exclusive height, anchored to the top.
/// A malformed height or exclusive height and an unrecognized anchor string
/// are fatal configuration errors.
pub fn from_script(
    height: Option<i64>,
    exclusive_height: Option<i64>,
    anchor: Option<&str>,
) -> (r: Result<SurfaceConfig, ConfigError>)
    ensures
        r == spec_from_script(
            height,
            exclusive_height,
            match anchor {
                Some(a) => Some(a@),
                None => None,
            },
        ),
        r matches Ok(c) ==> c.wf(),
{
    let h: i64 = match height {
        Some(h) => h,
        None => DEFAULT_HEIGHT as i64,
    };
    if !(0 < h && h <= i32::MAX as i64) {
        return Err(ConfigError::BadHeight);
    }
    let ex: Option<i32> = match exclusive_height {
        Some(e) => {
            if e < i32::MIN as i64 || e > i32::MAX as i64 {
                return Err(ConfigError::BadExclusiveHeight);
            }
            Some(e as i32)
        },
        None => None,
    };
    let bottom: bool = match anchor {
        Some(a) => {
            proof {
                reveal_strlit("top");
                reveal_strlit("bottom");
            }
            let b: bool = if str_eq(a, "top") {
                false
            } else if str_eq(a, "bottom") {
                true
            } else {
                return Err(ConfigError::BadAnchor);
            };
            proof {
                // The two anchor strings differ, so the branch taken above
                // pins b to "a names the bottom edge".
                assert("top"@.len() == 3);
                assert("bottom"@.len() == 6);
            }
            b
        },
        None => false,
    };
    Ok(SurfaceConfig { height: h as u32, exclusive_height: ex, bottom })
}

} // verus!
