//! Areas of the screen and how they are divided.

use crate::number::{least, less_by};
use ratatui::layout as outer;
use vstd::prelude::*;

verus! {

/// A rectangle of cells.
#[derive(Debug, Clone, Copy, PartialEq, Eq, Structural)]
pub struct Rect {
    pub x: u16,
    pub y: u16,
    pub width: u16,
    pub height: u16,
}

impl Rect {
    /// Whether this area lies inside `outer`.
    pub open spec fn within(self, outer: Rect) -> bool {
        &&& outer.x <= self.x
        &&& outer.y <= self.y
        &&& self.x + self.width <= outer.x + outer.width
        &&& self.y + self.height <= outer.y + outer.height
    }
}

/// Which way an area is divided.
#[derive(Debug, Clone, Copy, PartialEq, Eq, Structural)]
pub enum Direction {
    Horizontal,
    Vertical,
}

/// How large a part is asked to be.
#[derive(Debug, Clone, Copy, PartialEq, Eq, Structural)]
pub enum Constraint {
    Length(u16),
    Min(u16),
    Percentage(u16),
    Ratio(u32, u32),
}

/// Whether `ratatui`, asked to divide `area` by `constraints`, may answer with `parts`. Where
/// the constraints leave a choice, or cannot all be met, more than one answer is possible.
pub uninterp spec fn may_divide(
    direction: Direction,
    constraints: Seq<Constraint>,
    area: Rect,
    parts: Seq<Rect>,
) -> bool;

/// One part for each constraint, inside the area, and as wide as it or as high.
pub open spec fn parts_fit(direction: Direction, constraints: Seq<Constraint>, area: Rect, parts: Seq<Rect>) -> bool {
    &&& parts.len() == constraints.len()
    &&& forall|i: int|
        0 <= i < parts.len() ==> (#[trigger] parts[i]).within(area) && match direction {
            Direction::Horizontal => parts[i].y == area.y && parts[i].height == area.height,
            Direction::Vertical => parts[i].x == area.x && parts[i].width == area.width,
        }
}

/// `parts` is a division of `area` by `constraints`.
pub open spec fn divides(direction: Direction, constraints: Seq<Constraint>, area: Rect, parts: Seq<Rect>) -> bool {
    may_divide(direction, constraints, area, parts) && parts_fit(direction, constraints, area, parts)
}

/// Divides an area. This calls `Layout::split` of `ratatui` on a layout that
/// `Layout::horizontal` or `Layout::vertical` made of the constraints, with no margin and no
/// spacing: it gives one part for each constraint, which keeps the
/// area's extent across the direction and lies inside the area along it. How the constraints
/// are weighed against each other is the crate's affair, and nothing is said of it beyond a
/// name for the answers that are possible.
#[verifier::external_body]
fn split_area(direction: Direction, constraints: &Vec<Constraint>, area: Rect) -> (parts: Vec<Rect>)
    ensures
        may_divide(direction, constraints@, area, parts@),
        parts_fit(direction, constraints@, area, parts@),
{
    let sizes = constraints.iter().map(|c| match *c {
        Constraint::Length(n) => outer::Constraint::Length(n),
        Constraint::Min(n) => outer::Constraint::Min(n),
        Constraint::Percentage(n) => outer::Constraint::Percentage(n),
        Constraint::Ratio(a, b) => outer::Constraint::Ratio(a, b),
    });
    let layout = match direction {
        Direction::Horizontal => outer::Layout::horizontal(sizes),
        Direction::Vertical => outer::Layout::vertical(sizes),
    };
    let Rect { x, y, width, height } = area;
    let parts = layout.split(outer::Rect { x, y, width, height });
    parts.iter().map(|p| Rect { x: p.x, y: p.y, width: p.width, height: p.height }).collect()
}

/// Divides an area from top to bottom.
pub fn split_rows(constraints: &Vec<Constraint>, area: Rect) -> (parts: Vec<Rect>)
    ensures
        divides(Direction::Vertical, constraints@, area, parts@),
{
    split_area(Direction::Vertical, constraints, area)
}

/// Divides an area from left to right.
pub fn split_columns(constraints: &Vec<Constraint>, area: Rect) -> (parts: Vec<Rect>)
    ensures
        divides(Direction::Horizontal, constraints@, area, parts@),
{
    split_area(Direction::Horizontal, constraints, area)
}

/// What a frame of one cell on each side leaves of an area.
pub open spec fn framed(area: Rect) -> Rect {
    Rect {
        x: least(least(area.x + 1, area.x + area.width), u16::MAX as int) as u16,
        y: least(least(area.y + 1, area.y + area.height), u16::MAX as int) as u16,
        width: less_by(area.width as int, 2) as u16,
        height: less_by(area.height as int, 2) as u16,
    }
}

/// What a frame of one cell on each side leaves of an area. This calls `Block::inner` of
/// `ratatui` on a block with all four borders and nothing else set: it takes one cell off each
/// side, as far as there is one.
#[verifier::external_body]
pub(crate) fn inside_frame(area: Rect) -> (r: Rect)
    ensures
        r == framed(area),
{
    let block = ratatui::widgets::Block::default().borders(ratatui::widgets::Borders::ALL);
    let Rect { x, y, width, height } = area;
    let inner = block.inner(outer::Rect { x, y, width, height });
    Rect { x: inner.x, y: inner.y, width: inner.width, height: inner.height }
}

/// The inside of a frame lies inside the area that the frame stands on, wherever there is an
/// inside.
pub proof fn law_inside_of_frame(area: Rect)
    requires
        area.x + area.width <= u16::MAX,
        area.y + area.height <= u16::MAX,
    ensures
        framed(area).within(area),
{
}

/// A frame takes one cell off each side.
pub proof fn law_frame_takes_one_cell(area: Rect)
    requires
        area.x + area.width <= u16::MAX,
        area.y + area.height <= u16::MAX,
        area.width >= 2,
        area.height >= 2,
    ensures
        framed(area).x == area.x + 1,
        framed(area).y == area.y + 1,
        framed(area).x + framed(area).width + 1 == area.x + area.width,
        framed(area).y + framed(area).height + 1 == area.y + area.height,
{
}

} // verus!
