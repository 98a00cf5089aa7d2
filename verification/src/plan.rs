//! Where things are drawn: how the screen is divided into panels, and panels into lines.

use crate::config::{CPU_LAYOUT_SLACK_ROWS, MAX_CONTENT_WIDTH};
use crate::layout::{
    divides, framed, inside_frame, split_columns, split_rows, Constraint, Direction, Rect,
};
use crate::number::{least, less_by};
use vstd::prelude::*;

verus! {

// ---------------------------------------------------------------------------
// Areas in the middle
// ---------------------------------------------------------------------------

/// The division of an area of which the middle part is `max_width` wide.
pub open spec fn column_constraints(width: int, max_width: int) -> Seq<Constraint> {
    seq![
        Constraint::Length(((width - max_width) / 2) as u16),
        Constraint::Length(max_width as u16),
        Constraint::Min(0),
    ]
}

/// Whether `content` is the part of `area` that is drawn on: all of it, or, where it is wider
/// than `max_width`, the middle.
pub open spec fn is_content(content: Rect, area: Rect, max_width: u16) -> bool {
    if area.width <= max_width {
        content == area
    } else {
        exists|parts: Seq<Rect>|
            #[trigger] divides(
                Direction::Horizontal,
                column_constraints(area.width as int, max_width as int),
                area,
                parts,
            ) && content == parts[1]
    }
}

/// The part of an area that is drawn on.
pub fn centered_content_area(area: Rect, max_width: u16) -> (r: Rect)
    ensures
        is_content(r, area, max_width),
        r.within(area),
{
    if area.width <= max_width {
        return area;
    }
    let mut constraints: Vec<Constraint> = Vec::new();
    constraints.push(Constraint::Length((area.width - max_width) / 2));
    constraints.push(Constraint::Length(max_width));
    constraints.push(Constraint::Min(0));
    assert(constraints@ =~= column_constraints(area.width as int, max_width as int));
    let parts = split_columns(&constraints, area);
    parts[1]
}

/// The division of an area of which the middle part takes `percent` per cent.
pub open spec fn middle_constraints(percent: int) -> Seq<Constraint> {
    seq![
        Constraint::Percentage(((100 - percent) / 2) as u16),
        Constraint::Percentage(percent as u16),
        Constraint::Percentage(((100 - percent) / 2) as u16),
    ]
}

/// Whether `popup` is the middle of `area`, as wide and high as the shares say.
pub open spec fn is_centered(popup: Rect, percent_x: u16, percent_y: u16, area: Rect) -> bool {
    exists|rows: Seq<Rect>, columns: Seq<Rect>|
        {
            &&& #[trigger] divides(Direction::Vertical, middle_constraints(percent_y as int), area, rows)
            &&& #[trigger] divides(
                Direction::Horizontal,
                middle_constraints(percent_x as int),
                rows[1],
                columns,
            )
            &&& popup == columns[1]
        }
}

fn middle(percent: u16) -> (r: Vec<Constraint>)
    requires
        percent <= 100,
    ensures
        r@ == middle_constraints(percent as int),
{
    let mut r: Vec<Constraint> = Vec::new();
    r.push(Constraint::Percentage((100 - percent) / 2));
    r.push(Constraint::Percentage(percent));
    r.push(Constraint::Percentage((100 - percent) / 2));
    assert(r@ =~= middle_constraints(percent as int));
    r
}

/// The middle of an area, as wide and high as the shares say.
pub fn centered_rect(percent_x: u16, percent_y: u16, area: Rect) -> (r: Rect)
    requires
        percent_x <= 100,
        percent_y <= 100,
    ensures
        is_centered(r, percent_x, percent_y, area),
        r.within(area),
{
    let rows = split_rows(&middle(percent_y), area);
    let columns = split_columns(&middle(percent_x), rows[1]);
    assert(columns@[1].within(rows@[1]) && rows@[1].within(area));
    columns[1]
}

// ---------------------------------------------------------------------------
// The panels of the screen
// ---------------------------------------------------------------------------

/// The division into the banner, the processors, the middle row, the processes and the footer.
pub open spec fn screen_constraints(cpu: Constraint) -> Seq<Constraint> {
    seq![
        Constraint::Length(1),
        cpu,
        Constraint::Length(7),
        Constraint::Min(7),
        Constraint::Length(1),
    ]
}

/// The rows that the processors need, with the frame and the summary.
pub open spec fn cpu_target(pairs: int, combine: bool) -> int {
    let rows = if combine {
        (pairs + 1) / 2
    } else {
        pairs
    };
    least(least(rows, u16::MAX as int) + 3 + CPU_LAYOUT_SLACK_ROWS, u16::MAX as int)
}

/// The rows that are left for the processors.
pub open spec fn cpu_limit(height: int) -> int {
    less_by(height, 16)
}

/// Whether `rows` divide `content` into the panels: two fifths for the processors, or only
/// what they need where that is less.
pub open spec fn are_panels(rows: Seq<Rect>, content: Rect, pairs: int, combine: bool) -> bool {
    exists|base: Seq<Rect>|
        {
            &&& #[trigger] divides(
                Direction::Vertical,
                screen_constraints(Constraint::Percentage(40)),
                content,
                base,
            )
            &&& if cpu_limit(content.height as int) > 0 && base[1].height > cpu_target(pairs, combine) {
                divides(
                    Direction::Vertical,
                    screen_constraints(
                        Constraint::Length(
                            least(cpu_target(pairs, combine), cpu_limit(content.height as int)) as u16,
                        ),
                    ),
                    content,
                    rows,
                )
            } else {
                rows == base
            }
        }
}

fn panel_constraints(cpu: Constraint) -> (r: Vec<Constraint>)
    ensures
        r@ == screen_constraints(cpu),
{
    let mut r: Vec<Constraint> = Vec::new();
    r.push(Constraint::Length(1));
    r.push(cpu);
    r.push(Constraint::Length(7));
    r.push(Constraint::Min(7));
    r.push(Constraint::Length(1));
    assert(r@ =~= screen_constraints(cpu));
    r
}

/// Divides the content into the panels.
pub fn split_panels(content: Rect, pairs: usize, combine: bool) -> (rows: Vec<Rect>)
    ensures
        are_panels(rows@, content, pairs as int, combine),
        rows@.len() == 5,
        forall|i: int| 0 <= i < 5 ==> (#[trigger] rows@[i]).within(content),
{
    let base = split_rows(&panel_constraints(Constraint::Percentage(40)), content);
    let rows_needed: usize = if combine {
        pairs / 2 + pairs % 2
    } else {
        pairs
    };
    let clipped: u16 = if rows_needed < 65535 {
        rows_needed as u16
    } else {
        65535
    };
    let target = clipped.saturating_add(3).saturating_add(CPU_LAYOUT_SLACK_ROWS);
    let limit = content.height.saturating_sub(16);
    assert(target == cpu_target(pairs as int, combine));
    if limit > 0 && base[1].height > target {
        let length: u16 = if target < limit {
            target
        } else {
            limit
        };
        split_rows(&panel_constraints(Constraint::Length(length)), content)
    } else {
        base
    }
}

/// The division of the middle row: two thirds for the graphics card.
pub open spec fn thirds() -> Seq<Constraint> {
    seq![Constraint::Ratio(2, 3), Constraint::Ratio(1, 3)]
}

/// Divides the middle row.
pub fn split_thirds(area: Rect) -> (r: Vec<Rect>)
    ensures
        divides(Direction::Horizontal, thirds(), area, r@),
{
    let mut constraints: Vec<Constraint> = Vec::new();
    constraints.push(Constraint::Ratio(2, 3));
    constraints.push(Constraint::Ratio(1, 3));
    assert(constraints@ =~= thirds());
    split_columns(&constraints, area)
}

// ---------------------------------------------------------------------------
// The lines of a panel
// ---------------------------------------------------------------------------

/// `n` lines of one row each.
pub open spec fn single_rows(n: nat) -> Seq<Constraint> {
    Seq::new(n, |i: int| Constraint::Length(1))
}

/// `n` lines of one row each, and a rest of at least `min` rows.
pub open spec fn rows_and_rest(n: nat, min: u16) -> Seq<Constraint> {
    single_rows(n).push(Constraint::Min(min))
}

fn push_rows(n: usize) -> (r: Vec<Constraint>)
    ensures
        r@ == single_rows(n as nat),
{
    let mut r: Vec<Constraint> = Vec::new();
    for i in 0..n
        invariant
            r@ =~= single_rows(i as nat),
    {
        r.push(Constraint::Length(1));
    }
    r
}

/// Divides an area into `n` lines of one row each.
pub fn split_single_rows(n: usize, area: Rect) -> (r: Vec<Rect>)
    ensures
        divides(Direction::Vertical, single_rows(n as nat), area, r@),
{
    split_rows(&push_rows(n), area)
}

/// Divides an area into `n` lines of one row each, and a rest of at least `min` rows.
pub fn split_rows_and_rest(n: usize, min: u16, area: Rect) -> (r: Vec<Rect>)
    ensures
        divides(Direction::Vertical, rows_and_rest(n as nat, min), area, r@),
{
    let mut constraints = push_rows(n);
    constraints.push(Constraint::Min(min));
    split_rows(&constraints, area)
}

/// Whether `parts` are the lines of the graphics panel: five, four, or one and a rest.
pub open spec fn are_gpu_lines(parts: Seq<Rect>, inner: Rect) -> bool {
    if inner.height >= 5 {
        divides(Direction::Vertical, single_rows(5), inner, parts)
    } else if inner.height >= 4 {
        divides(Direction::Vertical, single_rows(4), inner, parts)
    } else {
        divides(Direction::Vertical, rows_and_rest(1, 1), inner, parts)
    }
}

/// Divides the graphics panel into lines.
pub fn split_gpu_lines(inner: Rect) -> (parts: Vec<Rect>)
    ensures
        are_gpu_lines(parts@, inner),
{
    if inner.height >= 5 {
        split_single_rows(5, inner)
    } else if inner.height >= 4 {
        split_single_rows(4, inner)
    } else {
        split_rows_and_rest(1, 1, inner)
    }
}

/// Whether `parts` are the lines of the memory panel: four and a rest, or two.
pub open spec fn are_memory_lines(parts: Seq<Rect>, inner: Rect) -> bool {
    if inner.height >= 5 {
        divides(Direction::Vertical, rows_and_rest(4, 1), inner, parts)
    } else {
        divides(Direction::Vertical, single_rows(2), inner, parts)
    }
}

/// Divides the memory panel into lines.
pub fn split_memory_lines(inner: Rect) -> (parts: Vec<Rect>)
    ensures
        are_memory_lines(parts@, inner),
{
    if inner.height >= 5 {
        split_rows_and_rest(4, 1, inner)
    } else {
        split_single_rows(2, inner)
    }
}

// ---------------------------------------------------------------------------
// The lines of the processors
// ---------------------------------------------------------------------------

/// The least width of a line with two columns.
pub const WIDE_ROW: u16 = 52;

/// The division of a line into two columns and the bar between them.
pub open spec fn lane_constraints() -> Seq<Constraint> {
    seq![Constraint::Percentage(50), Constraint::Length(1), Constraint::Percentage(49)]
}

/// The number of lines for the processors, where `rows` are left: two pairs on a line where
/// pairs are combined, else one.
pub open spec fn lane_rows(rows: int, pairs: int, combine: bool) -> int {
    if combine {
        (least(rows * 2, pairs) + 1) / 2
    } else {
        least(rows, pairs)
    }
}

/// Where the processors are drawn: the summary and the rest, the lines of the rest, and the
/// columns of each line that is wide enough for them.
#[derive(Debug)]
pub struct CpuPlan {
    pub chunks: Vec<Rect>,
    pub rows: Vec<Rect>,
    pub columns: Vec<Vec<Rect>>,
}

impl CpuPlan {
    /// The number of lines.
    pub open spec fn count(self, pairs: int, combine: bool) -> int {
        lane_rows(self.chunks@[1].height as int, pairs, combine)
    }

    /// Whether the parts of the plan belong together.
    pub open spec fn fits(self, pairs: int, combine: bool) -> bool {
        let n = self.count(pairs, combine);
        &&& self.chunks@.len() == 2
        &&& self.chunks@[1].height > 0 ==> {
            &&& self.rows@.len() == n + 1
            &&& self.columns@.len() == n
            &&& forall|i: int|
                0 <= i < n ==> (#[trigger] self.columns@[i])@.len() == (if self.rows@[i].width >= WIDE_ROW {
                    3nat
                } else {
                    0
                })
        }
    }

    /// Whether the plan divides the inside of the panel.
    pub open spec fn is_for(self, inner: Rect, pairs: int, combine: bool) -> bool {
        let n = self.count(pairs, combine);
        &&& self.fits(pairs, combine)
        &&& divides(Direction::Vertical, rows_and_rest(1, 1), inner, self.chunks@)
        &&& self.chunks@[1].height > 0 ==> {
            &&& divides(Direction::Vertical, rows_and_rest(n as nat, 0), self.chunks@[1], self.rows@)
            &&& forall|i: int|
                0 <= i < n && self.rows@[i].width >= WIDE_ROW ==> divides(
                    Direction::Horizontal,
                    lane_constraints(),
                    self.rows@[i],
                    (#[trigger] self.columns@[i])@,
                )
        }
    }
}

fn split_lane(area: Rect) -> (r: Vec<Rect>)
    ensures
        divides(Direction::Horizontal, lane_constraints(), area, r@),
        r@.len() == 3,
{
    let mut constraints: Vec<Constraint> = Vec::new();
    constraints.push(Constraint::Percentage(50));
    constraints.push(Constraint::Length(1));
    constraints.push(Constraint::Percentage(49));
    assert(constraints@ =~= lane_constraints());
    split_columns(&constraints, area)
}

/// Divides the inside of the panel of the processors.
pub fn plan_cpu_grid(inner: Rect, pairs: usize, combine: bool) -> (plan: CpuPlan)
    ensures
        plan.is_for(inner, pairs as int, combine),
{
    let chunks = split_rows_and_rest(1, 1, inner);
    let height: usize = chunks[1].height as usize;
    let mut columns: Vec<Vec<Rect>> = Vec::new();
    if height == 0 {
        return CpuPlan { chunks, rows: Vec::new(), columns };
    }
    let n: usize = if combine {
        let shown: usize = if height * 2 < pairs {
            height * 2
        } else {
            pairs
        };
        shown / 2 + shown % 2
    } else if height < pairs {
        height
    } else {
        pairs
    };
    assert(n == lane_rows(height as int, pairs as int, combine));
    let rows = split_rows_and_rest(n, 0, chunks[1]);
    for i in 0..n
        invariant
            rows@.len() == n + 1,
            columns@.len() == i,
            forall|j: int|
                0 <= j < i ==> (#[trigger] columns@[j])@.len() == (if rows@[j].width >= WIDE_ROW {
                    3nat
                } else {
                    0
                }),
            forall|j: int|
                0 <= j < i && rows@[j].width >= WIDE_ROW ==> divides(
                    Direction::Horizontal,
                    lane_constraints(),
                    rows@[j],
                    (#[trigger] columns@[j])@,
                ),
    {
        if rows[i].width >= WIDE_ROW {
            columns.push(split_lane(rows[i]));
        } else {
            columns.push(Vec::new());
        }
    }
    CpuPlan { chunks, rows, columns }
}

// ---------------------------------------------------------------------------
// The whole screen
// ---------------------------------------------------------------------------

/// What decides how the screen is divided.
#[derive(Debug, Clone, Copy)]
pub struct Shape {
    /// The number of pairs of processors.
    pub pairs: usize,
    /// Whether the two threads of a pair are shown as one.
    pub combine: bool,
}

/// Where everything is drawn.
#[derive(Debug)]
pub struct FramePlan {
    pub content: Rect,
    pub rows: Vec<Rect>,
    pub middle: Vec<Rect>,
    pub cpu: CpuPlan,
    pub gpu: Vec<Rect>,
    pub memory: Vec<Rect>,
    pub popup: Rect,
}

impl FramePlan {
    /// Whether the plan divides the screen.
    pub open spec fn is_for(self, area: Rect, shape: Shape) -> bool {
        &&& is_content(self.content, area, MAX_CONTENT_WIDTH)
        &&& are_panels(self.rows@, self.content, shape.pairs as int, shape.combine)
        &&& divides(Direction::Horizontal, thirds(), self.rows@[2], self.middle@)
        &&& self.cpu.is_for(framed(self.rows@[1]), shape.pairs as int, shape.combine)
        &&& are_gpu_lines(self.gpu@, framed(self.middle@[0]))
        &&& are_memory_lines(self.memory@, framed(self.middle@[1]))
        &&& is_centered(self.popup, 62, 26, area)
    }

    /// Whether the parts of the plan belong together.
    pub open spec fn fits(self, shape: Shape) -> bool {
        &&& self.rows@.len() == 5
        &&& self.middle@.len() == 2
        &&& self.cpu.fits(shape.pairs as int, shape.combine)
        &&& fits_gpu(self.gpu@, framed(self.middle@[0]))
        &&& fits_memory(self.memory@, framed(self.middle@[1]))
    }

    /// Whether the parts of the plan lie where they belong: panels on the screen, lines in
    /// their panels.
    pub open spec fn nested(self, area: Rect, shape: Shape) -> bool {
        &&& self.content.within(area)
        &&& forall|i: int| 0 <= i < 5 ==> (#[trigger] self.rows@[i]).within(self.content)
        &&& self.middle@[0].within(self.rows@[2])
        &&& self.middle@[1].within(self.rows@[2])
        &&& self.popup.within(area)
    }
}

/// Whether there are as many lines as the graphics panel is high enough for.
pub open spec fn fits_gpu(parts: Seq<Rect>, inner: Rect) -> bool {
    parts.len() == (if inner.height >= 5 {
        5nat
    } else if inner.height >= 4 {
        4
    } else {
        2
    })
}

/// Whether there are as many lines as the memory panel is high enough for.
pub open spec fn fits_memory(parts: Seq<Rect>, inner: Rect) -> bool {
    parts.len() == (if inner.height >= 5 {
        5nat
    } else {
        2
    })
}

/// Divides the screen.
pub fn plan_frame(area: Rect, shape: Shape) -> (plan: FramePlan)
    ensures
        plan.is_for(area, shape),
        plan.fits(shape),
        plan.nested(area, shape),
{
    let content = centered_content_area(area, MAX_CONTENT_WIDTH);
    let rows = split_panels(content, shape.pairs, shape.combine);
    let middle = split_thirds(rows[2]);
    let cpu = plan_cpu_grid(inside_frame(rows[1]), shape.pairs, shape.combine);
    let gpu = split_gpu_lines(inside_frame(middle[0]));
    let memory = split_memory_lines(inside_frame(middle[1]));
    let popup = centered_rect(62, 26, area);
    FramePlan { content, rows, middle, cpu, gpu, memory, popup }
}

// ---------------------------------------------------------------------------
// Laws
// ---------------------------------------------------------------------------

/// Every pair gets a place as long as there is room: two on a line where pairs are combined, else
/// one; there are no more lines than rows, and none without a pair.
pub proof fn law_lines_for_pairs(rows: int, pairs: int, k: int)
    requires
        0 <= rows,
        0 <= pairs,
        0 <= k,
    ensures
        k < lane_rows(rows, pairs, false) <==> k < rows && k < pairs,
        k < lane_rows(rows, pairs, true) <==> k < rows && 2 * k < pairs,
        pairs <= 2 * rows ==> 2 * lane_rows(rows, pairs, true) >= pairs,
{
}

/// The processors need a row for each of their lines, two for the frame and one for the summary.
pub proof fn law_rows_for_processors(pairs: int)
    requires
        0 <= pairs < 60_000,
    ensures
        cpu_target(pairs, false) == pairs + 3,
        pairs % 2 == 0 ==> 2 * (cpu_target(pairs, true) - 3) == pairs,
        pairs % 2 == 1 ==> 2 * (cpu_target(pairs, true) - 3) == pairs + 1,
{
}

/// The content has margins of the same width on both sides, but for one cell, and the popup has
/// shares of the same size on both sides.
pub proof fn law_margins(width: int, max_width: int, percent: int)
    requires
        0 <= max_width < width <= u16::MAX,
        0 <= percent <= 100,
    ensures
        column_constraints(width, max_width).len() == 3,
        column_constraints(width, max_width)[1] == Constraint::Length(max_width as u16),
        ({
            let margin = column_constraints(width, max_width)[0]->Length_0;
            &&& column_constraints(width, max_width)[0] is Length
            &&& width - 1 <= 2 * margin + max_width <= width
        }),
        middle_constraints(percent).len() == 3,
        middle_constraints(percent)[1] == Constraint::Percentage(percent as u16),
        middle_constraints(percent)[0] == middle_constraints(percent)[2],
        ({
            let side = middle_constraints(percent)[0]->Percentage_0;
            &&& middle_constraints(percent)[0] is Percentage
            &&& 99 <= 2 * side + percent <= 100
        }),
{
}

/// The banner and the footer take one row each, the middle row seven, and the list of processes
/// at least seven; the processors take what is left for them.
pub proof fn law_rows_of_screen(cpu: Constraint)
    ensures
        screen_constraints(cpu).len() == 5,
        screen_constraints(cpu)[0] == Constraint::Length(1),
        screen_constraints(cpu)[1] == cpu,
        screen_constraints(cpu)[2] == Constraint::Length(7),
        screen_constraints(cpu)[3] == Constraint::Min(7),
        screen_constraints(cpu)[4] == Constraint::Length(1),
        forall|height: int| height >= 16 ==> #[trigger] cpu_limit(height) + (1 + 7 + 7 + 1) == height,
        thirds().len() == 2,
        thirds()[0] == Constraint::Ratio(2, 3),
        thirds()[1] == Constraint::Ratio(1, 3),
{
}

/// Lines are one row high each; a rest comes last.
pub proof fn law_single_rows(n: nat, min: u16, i: int)
    requires
        0 <= i < n,
    ensures
        single_rows(n).len() == n,
        single_rows(n)[i] == Constraint::Length(1),
        rows_and_rest(n, min).len() == n + 1,
        rows_and_rest(n, min)[i] == Constraint::Length(1),
        rows_and_rest(n, min)[n as int] == Constraint::Min(min),
{
}

/// The two columns of a line take half of it and one per cent less, with one cell between them.
pub proof fn law_columns_of_line()
    ensures
        lane_constraints().len() == 3,
        lane_constraints()[0] == Constraint::Percentage(50),
        lane_constraints()[1] == Constraint::Length(1),
        lane_constraints()[2] == Constraint::Percentage(49),
{
}

/// The content is no wider than 160 cells where that can be, and the menu takes 62 per cent of
/// the width of the screen and 26 of its height.
pub proof fn law_content_and_menu(plan: FramePlan, area: Rect, shape: Shape)
    requires
        plan.is_for(area, shape),
    ensures
        area.width <= 160 ==> plan.content == area,
        is_content(plan.content, area, 160),
        is_centered(plan.popup, 62, 26, area),
        are_panels(plan.rows@, plan.content, shape.pairs as int, shape.combine),
{
}

/// Of the rows, two fifths go to the processors, or as many as they need and can have where that
/// is fewer.
pub proof fn law_panels_of_screen(rows: Seq<Rect>, content: Rect, pairs: int, combine: bool)
    requires
        are_panels(rows, content, pairs, combine),
    ensures
        content.height <= 16 ==> divides(
            Direction::Vertical,
            screen_constraints(Constraint::Percentage(40)),
            content,
            rows,
        ),
        divides(Direction::Vertical, screen_constraints(Constraint::Percentage(40)), content, rows) || divides(
            Direction::Vertical,
            screen_constraints(
                Constraint::Length(least(cpu_target(pairs, combine), content.height - 16) as u16),
            ),
            content,
            rows,
        ),
{
}

/// A panel of the graphics card that is high enough has five lines, then four, else one and a
/// rest; one of the memory four and a rest, or two.
pub proof fn law_lines_of_panels(parts: Seq<Rect>, inner: Rect)
    ensures
        inner.height >= 5 ==> (are_gpu_lines(parts, inner) <==> divides(
            Direction::Vertical,
            single_rows(5),
            inner,
            parts,
        )),
        inner.height == 4 ==> (are_gpu_lines(parts, inner) <==> divides(
            Direction::Vertical,
            single_rows(4),
            inner,
            parts,
        )),
        inner.height < 4 ==> (are_gpu_lines(parts, inner) <==> divides(
            Direction::Vertical,
            rows_and_rest(1, 1),
            inner,
            parts,
        )),
        inner.height >= 5 ==> (are_memory_lines(parts, inner) <==> divides(
            Direction::Vertical,
            rows_and_rest(4, 1),
            inner,
            parts,
        )),
        inner.height < 5 ==> (are_memory_lines(parts, inner) <==> divides(
            Direction::Vertical,
            single_rows(2),
            inner,
            parts,
        )),
{
}

} // verus!
