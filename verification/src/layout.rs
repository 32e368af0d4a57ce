//! Placing a pop-up: the area of given percentages centred in a larger one,
//! as ratatui's layout solver divides it.

use vstd::prelude::*;
use ratatui::layout::{Constraint, Direction, Layout, Rect};

verus! {

/// The direction in which an area is divided into parts.
#[derive(Clone, Copy, Debug, PartialEq, Eq, Structural)]
pub enum Axis {
    Vertical,
    Horizontal,
}

/// A rectangle as `(x, y, width, height)`.
pub type Area = (u16, u16, u16, u16);

/// The middle part that ratatui's layout solver gives when it divides `area`
/// along `axis` into three parts of the percentages `first`, `middle` and
/// `last`.
pub uninterp spec fn layout_middle(axis: Axis, first: u16, middle: u16, last: u16, area: (u16, u16, u16, u16)) -> (u16, u16, u16, u16);

/// `Layout::default().direction(..).constraints(..).split(..)` of ratatui,
/// with three `Constraint::Percentage` parts, taking the middle one.
/// Claimed: the result is `layout_middle` of the arguments (the solver and
/// its cache depend on the area and the layout alone); nothing more is said
/// of where the part lies.
#[verifier::external_body]
fn middle_part(axis: Axis, first: u16, middle: u16, last: u16, area: Area) -> (part: Area)
    ensures
        part == layout_middle(axis, first, middle, last, area),
{
    let direction = match axis {
        Axis::Vertical => Direction::Vertical,
        Axis::Horizontal => Direction::Horizontal,
    };
    let parts = Layout::default().direction(direction).constraints([
        Constraint::Percentage(first),
        Constraint::Percentage(middle),
        Constraint::Percentage(last),
    ]).split(Rect::new(area.0, area.1, area.2, area.3));
    (parts[1].x, parts[1].y, parts[1].width, parts[1].height)
}

/// The margin on each side of a part of `percent` of the whole.
pub open spec fn margin(percent: u16) -> u16 {
    ((100 - percent) / 2) as u16
}

/// The area of `percent_x` of the width and `percent_y` of the height of `r`,
/// centred in it: first the middle band of the height, then the middle of
/// that band's width.
pub open spec fn centered(percent_x: u16, percent_y: u16, r: Area) -> Area {
    let band = layout_middle(Axis::Vertical, margin(percent_y), percent_y, margin(percent_y), r);
    layout_middle(Axis::Horizontal, margin(percent_x), percent_x, margin(percent_x), band)
}

/// The centred pop-up area (`centered`); percentages above 100 are not
/// accepted.
pub fn centered_rect(percent_x: u16, percent_y: u16, r: Area) -> (area: Area)
    requires
        percent_x <= 100,
        percent_y <= 100,
    ensures
        area == centered(percent_x, percent_y, r),
{
    let margin_y: u16 = (100 - percent_y) / 2;
    let band = middle_part(Axis::Vertical, margin_y, percent_y, margin_y, r);
    let margin_x: u16 = (100 - percent_x) / 2;
    middle_part(Axis::Horizontal, margin_x, percent_x, margin_x, band)
}

} // verus!
