//! Rectangles in pixel coordinates.

use vstd::prelude::*;
use crate::search::{Extremes, Match};

verus! {

/// A rectangle on the screen or on a frame: its top left pixel, its width
/// and its height.
#[derive(Clone, Copy, Debug, PartialEq, Eq)]
pub struct Rect {
    /// Column of the top left pixel.
    pub x: u32,
    /// Row of the top left pixel.
    pub y: u32,
    /// Width in pixels.
    pub width: u32,
    /// Height in pixels.
    pub height: u32,
}

impl Rect {
    /// Whether the pixel (`px`, `py`) lies inside the rectangle.
    pub open spec fn contains(self, px: int, py: int) -> bool {
        self.x <= px < self.x + self.width && self.y <= py < self.y + self.height
    }

    /// The rectangle that a template of the given size covers when its top
    /// left pixel lies at `location`.
    pub fn at(location: (u32, u32), template_width: u32, template_height: u32) -> (r: Rect)
        ensures
            r == (Rect {
                x: location.0,
                y: location.1,
                width: template_width,
                height: template_height,
            }),
    {
        Rect { x: location.0, y: location.1, width: template_width, height: template_height }
    }

    /// The rectangle of a match.
    pub fn of_match(m: &Match, template_width: u32, template_height: u32) -> (r: Rect)
        ensures
            r == (Rect {
                x: m.location.0,
                y: m.location.1,
                width: template_width,
                height: template_height,
            }),
    {
        Rect::at(m.location, template_width, template_height)
    }

    /// The rectangle of the best match in a grid's extremes: that of the
    /// minimum where lower scores are better, that of the maximum where
    /// higher ones are.
    pub fn of_best(
        extremes: &Extremes,
        prefers_minimum: bool,
        template_width: u32,
        template_height: u32,
    ) -> (r: Rect)
        ensures
            r == (Rect {
                x: if prefers_minimum {
                    extremes.min_value_location.0
                } else {
                    extremes.max_value_location.0
                },
                y: if prefers_minimum {
                    extremes.min_value_location.1
                } else {
                    extremes.max_value_location.1
                },
                width: template_width,
                height: template_height,
            }),
    {
        if prefers_minimum {
            Rect::at(extremes.min_value_location, template_width, template_height)
        } else {
            Rect::at(extremes.max_value_location, template_width, template_height)
        }
    }

    /// The rectangle moved right by `dx` and down by `dy`, as far as the
    /// coordinates go: a rectangle found in a cropped frame, put back into
    /// the whole one.
    pub fn offset(&self, dx: u32, dy: u32) -> (r: Rect)
        ensures
            r.x == if self.x + dx > u32::MAX {
                u32::MAX
            } else {
                (self.x + dx) as u32
            },
            r.y == if self.y + dy > u32::MAX {
                u32::MAX
            } else {
                (self.y + dy) as u32
            },
            r.width == self.width,
            r.height == self.height,
    {
        Rect {
            x: self.x.saturating_add(dx),
            y: self.y.saturating_add(dy),
            width: self.width,
            height: self.height,
        }
    }
}

} // verus!
