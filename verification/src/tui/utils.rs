//! Centering an area inside another with ratatui's layout solver.
use vstd::prelude::*;
use ratatui::layout as rl;

verus! {

/// A rectangle of terminal cells.
#[derive(Debug, Clone, Copy, PartialEq, Eq, Structural)]
pub struct Rect {
    pub x: u16,
    pub y: u16,
    pub width: u16,
    pub height: u16,
}

#[derive(Debug, Clone, Copy, PartialEq, Eq, Structural)]
pub enum Direction {
    Horizontal,
    Vertical,
}

/// A constraint on one area of a layout, as ratatui's `Constraint` has it.
#[derive(Debug, Clone, Copy, PartialEq, Eq, Structural)]
pub enum LayoutConstraint {
    Length(u16),
    Min(u16),
    Percentage(u16),
}

/// Name for the areas that ratatui's `Layout` gives when it splits `area` in
/// `direction` by `constraints` (default margin, flex and spacing).
pub uninterp spec fn layout_areas(direction: Direction, constraints: Seq<LayoutConstraint>, area: Rect) -> Seq<Rect>;

/// Calls ratatui's `Layout::split`; claims that the areas are `layout_areas` of the
/// arguments, one for each constraint.
#[verifier::external_body]
pub(crate) fn split_areas(direction: Direction, constraints: &[LayoutConstraint], area: Rect) -> (r: Vec<Rect>)
    ensures
        r@ == layout_areas(direction, constraints@, area),
        r@.len() == constraints@.len(),
{
    let d = match direction { Direction::Horizontal => rl::Direction::Horizontal, Direction::Vertical => rl::Direction::Vertical };
    let c = constraints.iter().map(|c| match *c {
        LayoutConstraint::Length(n) => rl::Constraint::Length(n),
        LayoutConstraint::Min(n) => rl::Constraint::Min(n),
        LayoutConstraint::Percentage(n) => rl::Constraint::Percentage(n),
    });
    let a = rl::Rect { x: area.x, y: area.y, width: area.width, height: area.height };
    let areas = rl::Layout::default().direction(d).constraints(c).split(a);
    areas.iter().map(|m| Rect { x: m.x, y: m.y, width: m.width, height: m.height }).collect()
}

/// The middle of three areas: `side` percent, `middle` percent, `side` percent.
pub open spec fn layout_middle(direction: Direction, side: u16, middle: u16, area: Rect) -> Rect {
    layout_areas(
        direction,
        seq![LayoutConstraint::Percentage(side), LayoutConstraint::Percentage(middle), LayoutConstraint::Percentage(side)],
        area,
    )[1]
}

fn split_middle(direction: Direction, side: u16, middle: u16, area: Rect) -> (r: Rect)
    ensures
        r == layout_middle(direction, side, middle, area),
{
    let c = vec![LayoutConstraint::Percentage(side), LayoutConstraint::Percentage(middle), LayoutConstraint::Percentage(side)];
    let areas = split_areas(direction, c.as_slice(), area);
    proof {
        assert(c@ =~= seq![LayoutConstraint::Percentage(side), LayoutConstraint::Percentage(middle), LayoutConstraint::Percentage(side)]);
    }
    areas[1]
}

/// The band of `r` that takes `percent_y` percent of its height, centered vertically.
pub fn center_vertical(percent_y: u16, r: Rect) -> (c: Rect)
    requires
        percent_y <= 100,
    ensures
        c == layout_middle(Direction::Vertical, ((100 - percent_y) / 2) as u16, percent_y, r),
{
    split_middle(Direction::Vertical, (100 - percent_y) / 2, percent_y, r)
}

/// The band of `r` that takes `percent_x` percent of its width, centered horizontally.
pub fn center_horizontal(percent_x: u16, r: Rect) -> (c: Rect)
    requires
        percent_x <= 100,
    ensures
        c == layout_middle(Direction::Horizontal, ((100 - percent_x) / 2) as u16, percent_x, r),
{
    split_middle(Direction::Horizontal, (100 - percent_x) / 2, percent_x, r)
}

/// The centered area of `r` that takes `percent_x` of its width and `percent_y` of its
/// height.
pub fn centered_rect(percent_x: u16, percent_y: u16, r: Rect) -> (c: Rect)
    requires
        percent_x <= 100,
        percent_y <= 100,
    ensures
        c == layout_middle(
            Direction::Horizontal,
            ((100 - percent_x) / 2) as u16,
            percent_x,
            layout_middle(Direction::Vertical, ((100 - percent_y) / 2) as u16, percent_y, r),
        ),
{
    center_horizontal(percent_x, center_vertical(percent_y, r))
}

} // verus!
