//! Screen rectangles in terminal cells.

use vstd::prelude::*;

verus! {

/// A rectangle of terminal cells: top-left corner and size.
#[derive(Debug, Clone, Copy, PartialEq, Eq, Structural, Hash, Default)]
pub struct Rect {
    pub x: u16,
    pub y: u16,
    pub width: u16,
    pub height: u16,
}

/// The rectangle that `Rect::new` builds: the width is clipped so that the
/// right edge stays within `u16`, and likewise the height.
pub open spec fn clipped_rect(x: u16, y: u16, width: u16, height: u16) -> Rect {
    Rect {
        x,
        y,
        width: if width > u16::MAX - x { (u16::MAX - x) as u16 } else { width },
        height: if height > u16::MAX - y { (u16::MAX - y) as u16 } else { height },
    }
}

/// Builds the rectangle with `ratatui::layout::Rect::new`.
///
/// Trusted: the body of `ratatui::layout::Rect::new` (ratatui 0.29) keeps `x`
/// and `y`, and replaces a width above `u16::MAX - x` by `u16::MAX - x` and a
/// height above `u16::MAX - y` by `u16::MAX - y`; the contract says that.
#[verifier::external_body]
fn ratatui_rect_new(x: u16, y: u16, width: u16, height: u16) -> (r: Rect)
    ensures
        r == clipped_rect(x, y, width, height),
{
    let r = ratatui::layout::Rect::new(x, y, width, height);
    Rect { x: r.x, y: r.y, width: r.width, height: r.height }
}

impl Rect {
    /// A rectangle at `(x, y)`, its size clipped to the `u16` coordinate space.
    pub fn new(x: u16, y: u16, width: u16, height: u16) -> (r: Rect)
        ensures
            r == clipped_rect(x, y, width, height),
            r.x == x,
            r.y == y,
            r.x + r.width <= u16::MAX,
            r.y + r.height <= u16::MAX,
            x + width <= u16::MAX ==> r.width == width,
            y + height <= u16::MAX ==> r.height == height,
    {
        ratatui_rect_new(x, y, width, height)
    }

    /// One past the last column, saturating at `u16::MAX`.
    #[verifier::allow_in_spec]
    pub fn right(&self) -> u16
        returns
            self.x.saturating_add(self.width),
    {
        self.x.saturating_add(self.width)
    }

    /// One past the last row, saturating at `u16::MAX`.
    #[verifier::allow_in_spec]
    pub fn bottom(&self) -> u16
        returns
            self.y.saturating_add(self.height),
    {
        self.y.saturating_add(self.height)
    }

    /// Whether the rectangle has no cells.
    #[verifier::allow_in_spec]
    pub fn is_empty(&self) -> bool
        returns
            self.width == 0 || self.height == 0,
    {
        self.width == 0 || self.height == 0
    }
}

/// `inner` lies within `outer` (both edges of each axis).
pub open spec fn rect_within(inner: Rect, outer: Rect) -> bool {
    &&& outer.x <= inner.x
    &&& outer.y <= inner.y
    &&& inner.x + inner.width <= outer.x + outer.width
    &&& inner.y + inner.height <= outer.y + outer.height
}

} // verus!
