//! The widget model: the ordered layout the bar repaints every frame is a
//! sequence of these values.  The drawing callback of a user widget stays
//! with the script evaluator; the library holds the plain fields that the
//! renderer and the frame scheduler read.

use vstd::prelude::*;

verus! {

pub const NANOS_PER_SEC: u32 = 1_000_000_000;
pub const MILLIS_PER_SEC: u64 = 1_000;
pub const NANOS_PER_MILLI: u32 = 1_000_000;

/// A span of time: whole seconds plus a sub-second remainder in nanoseconds.
#[derive(Clone, Copy, Debug, PartialEq, Eq, Structural)]
pub struct Duration {
    pub secs: u64,
    pub nanos: u32,
}

impl Duration {
    /// The sub-second remainder never reaches a full second.
    pub open spec fn wf(self) -> bool {
        self.nanos < NANOS_PER_SEC
    }

    /// The whole span in nanoseconds.
    pub open spec fn as_nanos(self) -> int {
        self.secs * (NANOS_PER_SEC as int) + self.nanos
    }

    pub fn from_secs(secs: u64) -> (d: Duration)
        ensures
            d.wf(),
            d.secs == secs,
            d.nanos == 0,
    {
        Duration { secs, nanos: 0 }
    }

    pub fn from_millis(millis: u64) -> (d: Duration)
        ensures
            d.wf(),
            d.as_nanos() == millis * (NANOS_PER_MILLI as int),
    {
        let d = Duration {
            secs: millis / MILLIS_PER_SEC,
            nanos: (millis % MILLIS_PER_SEC) as u32 * NANOS_PER_MILLI,
        };
        proof {
            assert(millis == MILLIS_PER_SEC * (millis / MILLIS_PER_SEC) + millis % MILLIS_PER_SEC);
        }
        d
    }
}

/// How often a user widget asks to be redrawn.
#[derive(Clone, Copy, Debug, PartialEq, Eq, Structural)]
pub enum WidgetRefreshRate {
    /// Repaint on a fixed timer.
    Timer(Duration),
    /// Repaint on every frame callback.
    Framerate,
}

/// Why a widget description from the layout script was rejected.
#[derive(Clone, Copy, Debug, PartialEq, Eq, Structural)]
pub enum WidgetError {
    /// The width hint is negative or does not fit an unsigned 32-bit field.
    BadWidth,
    /// A timer length is negative.
    NegativeTime,
}

/// A widget supplied by the layout script.
#[derive(Clone, Debug)]
pub struct UserWidget {
    pub title: String,
    /// Width hint, in pixels.
    pub width: u32,
    pub refresh: WidgetRefreshRate,
}

impl UserWidget {
    /// Validates the plain fields of a scripted widget.  The width hint must
    /// fit an unsigned 32-bit field.
    pub fn new(title: String, width: i64, refresh: WidgetRefreshRate) -> (r: Result<
        UserWidget,
        WidgetError,
    >)
        ensures
            0 <= width <= u32::MAX ==> (r matches Ok(w) && w.title == title && w.width == width
                && w.refresh == refresh),
            !(0 <= width <= u32::MAX) ==> r == Err::<UserWidget, WidgetError>(
                WidgetError::BadWidth,
            ),
    {
        if width < 0 || width > u32::MAX as i64 {
            return Err(WidgetError::BadWidth);
        }
        Ok(UserWidget { title, width: width as u32, refresh })
    }
}

/// One slot of the bar's layout.
#[derive(Clone, Debug)]
pub enum Widget {
    /// A flexible gap: the renderer draws nothing for it.
    Spacer,
    /// A scripted widget.
    User(UserWidget),
}

} // verus!
