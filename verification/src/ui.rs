//! The screen: the banner, the panels, the process list, the footer and the action menu.

use crate::app::{App, KillMenuTarget, ProcessListRow};
use crate::banner::{animated_title_line, title_line};
use crate::figure::{append_fixed, fixed};
use crate::layout::{framed, inside_frame, Constraint, Rect};
use crate::lines::{percent_text, truncate_ascii, truncated};
use crate::models::{ProcessGroup, ProcessStat};
use crate::number::{append_decimal, decimal, least, less_by};
use crate::panels::{
    cpu_grid, gpu_panel, memory_panel, render_cpu_grid, render_gpu_panel, render_mem_disk_panel,
    Figures,
};
use crate::plan::{plan_frame, FramePlan, Shape};
use crate::text::copy_str;
use crate::theme::{style_for_usage_with_base, usage_style, Color, Style};
use crate::widgets::{
    all_within, frame_draw, ink, is_line, line, line_draw, line_in, line_views, raw_line,
    row_views, style_at, text_at, CellView, DrawView, Line, LineView, Row, RowView, Screen,
    SpanView, Table, TableView, Widget, WidgetView,
};
use vstd::prelude::*;

verus! {

broadcast use vstd::string::group_string_axioms;

// ---------------------------------------------------------------------------
// The banner
// ---------------------------------------------------------------------------

/// The step of the animation.
pub open spec fn animation_step(started_at: u64, now: u64) -> nat {
    if now < started_at {
        0
    } else {
        ((now - started_at) / 120_000_000) as nat
    }
}

/// The banner, where there is room for it.
pub open spec fn banner(area: Rect, started_at: u64, now: u64) -> Seq<DrawView> {
    if area.width == 0 || area.height == 0 {
        Seq::empty()
    } else {
        seq![
            line_draw(
                area,
                title_line(area.width as nat, animation_step(started_at, now), " RTOP "@, false),
                Style::paper(Color::RowB),
            ),
        ]
    }
}

/// Draws the banner.
pub fn render_telemetry_banner(screen: &mut Screen, area: Rect, started_at: u64, now: u64)
    ensures
        final(screen)@ == old(screen)@ + banner(area, started_at, now),
{
    let ghost before = screen@;
    if area.width > 0 && area.height > 0 {
        let tick: u64 = now.saturating_sub(started_at) / 120_000_000;
        let title = animated_title_line(area.width as usize, tick, " RTOP ", false);
        screen.put_line(area, title, Style::paper(Color::RowB));
    }
    assert(screen@ =~= before + banner(area, started_at, now));
}

// ---------------------------------------------------------------------------
// The process list
// ---------------------------------------------------------------------------

/// The place of the selected row, where there are rows.
pub open spec fn selected_index(app: App) -> Option<int> {
    if app.rows().len() == 0 {
        None
    } else {
        Some(least(app.selected_row as int, app.rows().len() - 1))
    }
}

/// The rows that are in view, from the first to before the second: as many as there is room
/// for, with the selected one in the middle where that leaves no room unused.
pub open spec fn window(count: int, capacity: int, selected: Option<int>) -> (int, int) {
    if capacity == 0 || count == 0 {
        (0, 0)
    } else {
        match selected {
            Some(row) => {
                let start = least(less_by(row, capacity / 2), less_by(count, capacity));
                (start, least(start + capacity, count))
            },
            None => (0, least(capacity, count)),
        }
    }
}

/// The rows that are in view.
pub fn visible_window(count: usize, capacity: usize, selected: Option<usize>) -> (r: (usize, usize))
    requires
        selected matches Some(row) ==> row < count,
    ensures
        (r.0 as int, r.1 as int) == window(
            count as int,
            capacity as int,
            match selected {
                Some(row) => Some(row as int),
                None => None,
            },
        ),
        r.0 <= r.1 <= count,
{
    if capacity == 0 || count == 0 {
        return (0, 0);
    }
    match selected {
        Some(row) => {
            let max_start: usize = count.saturating_sub(capacity);
            let wish: usize = row.saturating_sub(capacity / 2);
            let start: usize = if wish < max_start {
                wish
            } else {
                max_start
            };
            let end: usize = if count - start <= capacity {
                count
            } else {
                start + capacity
            };
            (start, end)
        },
        None => (
            0,
            if capacity < count {
                capacity
            } else {
                count
            },
        ),
    }
}

/// The selected row is in view wherever there is room for a row.
pub proof fn law_selected_row_is_in_view(count: int, capacity: int, row: int)
    requires
        0 <= row < count,
        0 < capacity,
    ensures
        ({
            let (start, end) = window(count, capacity, Some(row));
            0 <= start <= row < end <= count && end - start == least(capacity, count)
        }),
{
}

/// The background of a row.
pub open spec fn row_background(index: int, is_selected: bool) -> Color {
    if is_selected {
        Color::RowSelected
    } else if index % 2 == 0 {
        Color::RowA
    } else {
        Color::RowB
    }
}

/// A style in bold where that is asked.
pub open spec fn bold_if(style: Style, bold: bool) -> Style {
    if bold {
        style.in_bold()
    } else {
        style
    }
}

/// How a share of the processor is drawn in the list.
pub open spec fn share_style(usage: crate::reading::Reading, background: Color, is_selected: bool) -> Style {
    Style { underlined: is_selected, ..usage_style(usage, Color::AccentThread).on(background).in_bold() }
}

/// What stands before the name of a group.
pub open spec fn marker(stale: bool, expanded: bool) -> Seq<char> {
    if stale {
        "•"@
    } else if expanded {
        "▾"@
    } else {
        "▸"@
    }
}

/// The row of a group.
pub open spec fn group_row(group: ProcessGroup, expanded: bool, background: Color, is_selected: bool) -> RowView {
    RowView {
        cells: seq![
            CellView {
                text: marker(group.stale, expanded) + " "@ + group.app@ + " ("@ + decimal(
                    group.processes@.len(),
                ) + ")"@,
                style: Style::ink(
                    if is_selected {
                        Color::Text
                    } else if group.stale {
                        Color::Muted
                    } else {
                        Color::AccentProc
                    },
                ).on(background).in_bold(),
            },
            CellView { text: "—"@, style: Style::ink(Color::Muted).on(background) },
            CellView {
                text: decimal(group.total_mem_mib as nat) + " MiB"@,
                style: Style::ink(Color::AccentVram).on(background).in_bold(),
            },
            CellView {
                text: fixed(group.total_cpu, 0, 1) + "%"@,
                style: share_style(group.total_cpu, background, is_selected),
            },
        ],
        style: Style::plain(),
    }
}

/// The row of a process.
pub open spec fn process_row(process: ProcessStat, background: Color, is_selected: bool) -> RowView {
    RowView {
        cells: seq![
            CellView {
                text: "  └─ "@ + process.name@,
                style: bold_if(Style::ink(Color::Text).on(background), is_selected),
            },
            CellView {
                text: process.pid@,
                style: Style::ink(
                    if is_selected {
                        Color::Text
                    } else {
                        Color::AccentProc
                    },
                ).on(background).in_bold(),
            },
            CellView {
                text: decimal(process.mem_mib as nat) + " MiB"@,
                style: bold_if(Style::ink(Color::AccentVram).on(background), is_selected),
            },
            CellView {
                text: fixed(process.cpu, 0, 1) + "%"@,
                style: share_style(process.cpu, background, is_selected),
            },
        ],
        style: Style::plain(),
    }
}

/// Row `index` of the list.
pub open spec fn list_row(app: App, index: int) -> RowView {
    let is_selected = selected_index(app) == Some(index);
    let background = row_background(index, is_selected);
    match app.rows()[index] {
        ProcessListRow::App { app_index } => group_row(
            app.process_groups@[app_index as int],
            app.expands(app_index as int),
            background,
            is_selected,
        ),
        ProcessListRow::Process { app_index, process_index } => process_row(
            app.process_groups@[app_index as int].processes@[process_index as int],
            background,
            is_selected,
        ),
    }
}

/// The title of the list.
pub open spec fn list_title(app: App, now: u64) -> Seq<char> {
    if app.expanded_app is Some {
        " Processes (expanded, frozen) "@
    } else if app.locked(now) {
        " Processes (frozen) "@
    } else {
        " Processes "@
    }
}

/// The header of the list.
pub open spec fn list_header() -> RowView {
    let plain = Style::plain();
    RowView {
        cells: seq![
            CellView { text: "App"@, style: plain },
            CellView { text: "PID"@, style: plain },
            CellView { text: "Memory"@, style: plain },
            CellView { text: "CPU"@, style: plain },
        ],
        style: Style::ink(Color::Text).on(Color::HeaderBg).in_bold(),
    }
}

/// The widths of the columns of the list.
pub open spec fn list_widths() -> Seq<Constraint> {
    seq![
        Constraint::Percentage(60),
        Constraint::Length(8),
        Constraint::Length(14),
        Constraint::Length(10),
    ]
}

/// The list of processes, as far as it is in view.
pub open spec fn process_table(area: Rect, app: App, now: u64) -> DrawView {
    let (start, end) = window(app.rows().len() as int, less_by(area.height as int, 3), selected_index(app));
    DrawView {
        area,
        widget: WidgetView::Table {
            table: TableView {
                title: LineView {
                    style: Style::ink(Color::AccentProc).in_bold(),
                    ..raw_line(list_title(app, now))
                },
                header: list_header(),
                widths: list_widths(),
                column_spacing: 1,
                rows: Seq::new((end - start) as nat, |k: int| list_row(app, start + k)),
            },
        },
    }
}

pub fn background_of(index: usize, is_selected: bool) -> (r: Color)
    ensures
        r == row_background(index as int, is_selected),
{
    if is_selected {
        Color::RowSelected
    } else if index % 2 == 0 {
        Color::RowA
    } else {
        Color::RowB
    }
}

pub fn bold_style(style: Style, bold: bool) -> (r: Style)
    ensures
        r == bold_if(style, bold),
{
    if bold {
        style.in_bold()
    } else {
        style
    }
}

pub fn memory_text(mib: u64) -> (r: String)
    ensures
        r@ == decimal(mib as nat) + " MiB"@,
{
    let mut r = String::new();
    append_decimal(&mut r, mib as u128);
    assert(r@ =~= decimal(mib as nat));
    r.append(" MiB");
    r
}

pub fn push_share(row: &mut Row, usage: crate::reading::Reading, background: Color, is_selected: bool)
    ensures
        final(row)@ == (RowView {
            cells: old(row)@.cells.push(
                CellView {
                    text: fixed(usage, 0, 1) + "%"@,
                    style: share_style(usage, background, is_selected),
                },
            ),
            ..old(row)@
        }),
{
    let warm = style_for_usage_with_base(usage, Color::AccentThread).on(background).in_bold();
    let style = Style { fg: warm.fg, bg: warm.bg, bold: warm.bold, underlined: is_selected };
    row.push(percent_text(usage).as_str(), style);
}

fn draw_group_row(group: &ProcessGroup, expanded: bool, background: Color, is_selected: bool) -> (r: Row)
    ensures
        r@ == group_row(*group, expanded, background, is_selected),
{
    let mut label = if group.stale {
        copy_str("•")
    } else if expanded {
        copy_str("▾")
    } else {
        copy_str("▸")
    };
    label.append(" ");
    label.append(group.app.as_str());
    label.append(" (");
    append_decimal(&mut label, group.processes.len() as u128);
    label.append(")");
    let color = if is_selected {
        Color::Text
    } else if group.stale {
        Color::Muted
    } else {
        Color::AccentProc
    };
    let mut r = Row::empty(Style::plain());
    r.push(label.as_str(), Style::ink(color).on(background).in_bold());
    r.push("—", Style::ink(Color::Muted).on(background));
    r.push(
        memory_text(group.total_mem_mib).as_str(),
        Style::ink(Color::AccentVram).on(background).in_bold(),
    );
    push_share(&mut r, group.total_cpu, background, is_selected);
    assert(r@.cells =~= group_row(*group, expanded, background, is_selected).cells);
    r
}

fn draw_process_row(process: &ProcessStat, background: Color, is_selected: bool) -> (r: Row)
    ensures
        r@ == process_row(*process, background, is_selected),
{
    let mut label = copy_str("  └─ ");
    label.append(process.name.as_str());
    let color = if is_selected {
        Color::Text
    } else {
        Color::AccentProc
    };
    let mut r = Row::empty(Style::plain());
    r.push(label.as_str(), bold_style(Style::ink(Color::Text).on(background), is_selected));
    r.push(process.pid.as_str(), Style::ink(color).on(background).in_bold());
    r.push(
        memory_text(process.mem_mib).as_str(),
        bold_style(Style::ink(Color::AccentVram).on(background), is_selected),
    );
    push_share(&mut r, process.cpu, background, is_selected);
    assert(r@.cells =~= process_row(*process, background, is_selected).cells);
    r
}

fn header_row() -> (r: Row)
    ensures
        r@ == list_header(),
{
    let mut r = Row::empty(Style::ink(Color::Text).on(Color::HeaderBg).in_bold());
    r.push("App", Style::plain());
    r.push("PID", Style::plain());
    r.push("Memory", Style::plain());
    r.push("CPU", Style::plain());
    assert(r@.cells =~= list_header().cells);
    r
}

fn column_widths() -> (r: Vec<Constraint>)
    ensures
        r@ == list_widths(),
{
    let mut r: Vec<Constraint> = Vec::new();
    r.push(Constraint::Percentage(60));
    r.push(Constraint::Length(8));
    r.push(Constraint::Length(14));
    r.push(Constraint::Length(10));
    assert(r@ =~= list_widths());
    r
}

/// Draws the list of processes, as far as it is in view.
pub fn render_process_table(screen: &mut Screen, area: Rect, app: &App, now: u64)
    ensures
        final(screen)@ == old(screen)@.push(process_table(area, *app, now)),
{
    let visible_rows = app.visible_process_rows();
    let selected_row = app.selected_row_index();
    let capacity: usize = area.height.saturating_sub(3) as usize;
    let (row_start, row_end) = visible_window(visible_rows.len(), capacity, selected_row);
    let mut rows: Vec<Row> = Vec::new();
    for index in row_start..row_end
        invariant
            row_end <= visible_rows@.len(),
            visible_rows@ == app.rows(),
            selected_row == (if app.rows().len() == 0 {
                None
            } else {
                Some(least(app.selected_row as int, app.rows().len() - 1) as usize)
            }),
            rows@.len() == index - row_start,
            forall|k: int| 0 <= k < rows@.len() ==> (#[trigger] rows@[k])@ == list_row(*app, row_start + k),
    {
        let is_selected = match selected_row {
            Some(selected) => selected == index,
            None => false,
        };
        assert(is_selected == (selected_index(*app) == Some(index as int)));
        let background = background_of(index, is_selected);
        proof {
            crate::app::lemma_row_exists(*app, index as int);
        }
        let row = match visible_rows[index] {
            ProcessListRow::App { app_index } => draw_group_row(
                &app.process_groups[app_index],
                app.is_expanded_app_index(app_index),
                background,
                is_selected,
            ),
            ProcessListRow::Process { app_index, process_index } => draw_process_row(
                &app.process_groups[app_index].processes[process_index],
                background,
                is_selected,
            ),
        };
        rows.push(row);
    }
    let title = if app.expanded_app_name().is_some() {
        Line::raw(" Processes (expanded, frozen) ")
    } else if app.process_updates_locked(now) {
        Line::raw(" Processes (frozen) ")
    } else {
        Line::raw(" Processes ")
    };
    let table = Table {
        title: title.styled(Style::ink(Color::AccentProc).in_bold()),
        header: header_row(),
        widths: column_widths(),
        column_spacing: 1,
        rows,
    };
    assert(row_views(table.rows@) =~= process_table(area, *app, now).widget->table.rows);
    screen.put(area, Widget::Table { table });
}

// ---------------------------------------------------------------------------
// The action menu
// ---------------------------------------------------------------------------

/// What the menu acts on, by its number and name.
pub open spec fn process_heading(pid: Seq<char>, name: Seq<char>, width: nat) -> LineView {
    line(
        seq![
            ink("PID "@, Style::ink(Color::Muted)),
            ink(pid, Style::ink(Color::AccentProc).in_bold()),
            ink("  "@, Style::plain()),
            ink("Name "@, Style::ink(Color::Muted)),
            ink(truncated(name, width), Style::ink(Color::Text).in_bold()),
        ],
    )
}

/// What the menu acts on, by its name and how many processes it has.
pub open spec fn app_heading(app: Seq<char>, process_count: nat, width: nat) -> LineView {
    line(
        seq![
            ink("App "@, Style::ink(Color::Muted)),
            ink(truncated(app, width), Style::ink(Color::AccentProc).in_bold()),
            ink("  "@, Style::plain()),
            ink("Processes "@, Style::ink(Color::Muted)),
            ink(decimal(process_count), Style::ink(Color::Text).in_bold()),
        ],
    )
}

/// The keys that send a signal.
pub open spec fn signal_keys(term: Seq<char>, kill: Seq<char>) -> LineView {
    line(
        seq![
            ink("Enter / k"@, Style::ink(Color::Good).in_bold()),
            ink(term, Style::ink(Color::Muted)),
            ink("f"@, Style::ink(Color::Warn).in_bold()),
            ink(kill, Style::ink(Color::Muted)),
        ],
    )
}

/// The key that closes the menu, and, on an application, those that show its processes.
pub open spec fn other_keys(on_app: bool) -> LineView {
    let key = Style::ink(Color::AccentProc).in_bold();
    let muted = Style::ink(Color::Muted);
    line(
        if on_app {
            seq![
                ink("o / →"@, key),
                ink(" open process list   "@, muted),
                ink("Esc"@, key),
                ink(" cancel"@, muted),
            ]
        } else {
            seq![ink("Esc"@, key), ink(" cancel"@, muted)]
        },
    )
}

/// The lines of the menu.
pub open spec fn menu_lines(target: KillMenuTarget, inner: Rect) -> Seq<LineView> {
    let space = less_by(inner.width as int, 2);
    let width = (if space < 1 {
        1
    } else {
        space
    }) as nat;
    match target {
        KillMenuTarget::Process { pid, name } => seq![
            process_heading(pid@, name@, width),
            line(Seq::<SpanView>::empty()),
            signal_keys(" SIGTERM process   "@, " SIGKILL process"@),
            other_keys(false),
        ],
        KillMenuTarget::App { app, process_count, .. } => seq![
            app_heading(app@, process_count as nat, width),
            line(Seq::<SpanView>::empty()),
            signal_keys(" SIGTERM app   "@, " SIGKILL app"@),
            other_keys(true),
        ],
    }
}

/// The menu: over what was drawn before, a frame, and the lines where there is room for them.
pub open spec fn kill_menu(target: Option<KillMenuTarget>, popup: Rect) -> Seq<DrawView> {
    let inner = framed(popup);
    match target {
        None => Seq::empty(),
        Some(target) => {
            let frame = seq![
                DrawView { area: popup, widget: WidgetView::Clear },
                frame_draw(
                    popup,
                    LineView {
                        style: Style::ink(Color::AccentProc).in_bold(),
                        ..raw_line(" Process Action "@)
                    },
                    Style::paper(Color::RowA),
                ),
            ];
            if inner.height < 3 {
                frame
            } else {
                frame.push(
                    DrawView {
                        area: inner,
                        widget: WidgetView::Paragraph {
                            lines: menu_lines(target, inner),
                            style: Style::plain(),
                        },
                    },
                )
            }
        },
    }
}

pub fn process_heading_line(pid: &str, name: &str, width: usize) -> (r: Line)
    ensures
        r@ == process_heading(pid@, name@, width as nat),
{
    let mut r = Line::empty();
    r.push("PID ", Style::ink(Color::Muted));
    r.push(pid, Style::ink(Color::AccentProc).in_bold());
    r.push("  ", Style::plain());
    r.push("Name ", Style::ink(Color::Muted));
    r.push(truncate_ascii(name, width).as_str(), Style::ink(Color::Text).in_bold());
    assert(r@.spans =~= process_heading(pid@, name@, width as nat).spans);
    r
}

fn app_heading_line(app: &str, process_count: usize, width: usize) -> (r: Line)
    ensures
        r@ == app_heading(app@, process_count as nat, width as nat),
{
    let mut count = String::new();
    append_decimal(&mut count, process_count as u128);
    assert(count@ =~= decimal(process_count as nat));
    let mut r = Line::empty();
    r.push("App ", Style::ink(Color::Muted));
    r.push(truncate_ascii(app, width).as_str(), Style::ink(Color::AccentProc).in_bold());
    r.push("  ", Style::plain());
    r.push("Processes ", Style::ink(Color::Muted));
    r.push(count.as_str(), Style::ink(Color::Text).in_bold());
    assert(r@.spans =~= app_heading(app@, process_count as nat, width as nat).spans);
    r
}

fn signal_keys_line(term: &str, kill: &str) -> (r: Line)
    ensures
        r@ == signal_keys(term@, kill@),
{
    let mut r = Line::empty();
    r.push("Enter / k", Style::ink(Color::Good).in_bold());
    r.push(term, Style::ink(Color::Muted));
    r.push("f", Style::ink(Color::Warn).in_bold());
    r.push(kill, Style::ink(Color::Muted));
    assert(r@.spans =~= signal_keys(term@, kill@).spans);
    r
}

fn other_keys_line(on_app: bool) -> (r: Line)
    ensures
        r@ == other_keys(on_app),
{
    let key = Style::ink(Color::AccentProc).in_bold();
    let muted = Style::ink(Color::Muted);
    let mut r = Line::empty();
    if on_app {
        r.push("o / →", key);
        r.push(" open process list   ", muted);
    }
    r.push("Esc", key);
    r.push(" cancel", muted);
    assert(r@.spans =~= other_keys(on_app).spans);
    r
}

fn draw_menu_lines(target: &KillMenuTarget, inner: Rect) -> (r: Vec<Line>)
    ensures
        line_views(r@) == menu_lines(*target, inner),
{
    let space: usize = inner.width.saturating_sub(2) as usize;
    let width: usize = if space < 1 {
        1
    } else {
        space
    };
    let mut r: Vec<Line> = Vec::new();
    match target {
        KillMenuTarget::Process { pid, name } => {
            r.push(process_heading_line(pid.as_str(), name.as_str(), width));
            r.push(Line::empty());
            r.push(signal_keys_line(" SIGTERM process   ", " SIGKILL process"));
            r.push(other_keys_line(false));
        },
        KillMenuTarget::App { app, pids, process_count } => {
            r.push(app_heading_line(app.as_str(), *process_count, width));
            r.push(Line::empty());
            r.push(signal_keys_line(" SIGTERM app   ", " SIGKILL app"));
            r.push(other_keys_line(true));
        },
    }
    assert(line_views(r@) =~= menu_lines(*target, inner));
    r
}

/// Draws the action menu.
pub fn render_kill_menu(screen: &mut Screen, app: &App, popup: Rect)
    ensures
        final(screen)@ == old(screen)@ + kill_menu(app.kill_menu_target, popup),
{
    let ghost before = screen@;
    match app.kill_menu_target() {
        None => {},
        Some(target) => {
            screen.put(popup, Widget::Clear);
            let title = Line::raw(" Process Action ").styled(Style::ink(Color::AccentProc).in_bold());
            screen.put(popup, Widget::Frame { title, style: Style::paper(Color::RowA) });
            let inner = inside_frame(popup);
            if inner.height >= 3 {
                screen.put(
                    inner,
                    Widget::Paragraph { lines: draw_menu_lines(target, inner), style: Style::plain() },
                );
            }
        },
    }
    assert(screen@ =~= before + kill_menu(app.kill_menu_target, popup));
}

// ---------------------------------------------------------------------------
// The footer
// ---------------------------------------------------------------------------

/// The keys.
pub open spec fn footer_keys(combine_smt: bool) -> Seq<SpanView> {
    let key = Style::ink(Color::AccentProc).in_bold();
    let muted = Style::ink(Color::Muted);
    seq![
        ink("↑/↓"@, key),
        ink(" select  |  "@, muted),
        ink("←/→"@, key),
        ink(" close/open app  |  "@, muted),
        ink("Enter"@, key),
        ink(" actions  |  "@, muted),
        ink(
            "m"@,
            if combine_smt {
                Style::ink(Color::Good).in_bold()
            } else {
                key
            },
        ),
        ink(
            if combine_smt {
                " cpu mode  |  "@
            } else {
                " thread mode  |  "@
            },
            muted,
        ),
        ink("q/Esc"@, key),
        ink(" quit"@, muted),
    ]
}

/// What a notice adds to the footer.
pub open spec fn notice(text: Seq<char>, color: Color) -> Seq<SpanView> {
    seq![ink("  |  "@, Style::ink(Color::Muted)), ink(text, Style::ink(color).in_bold())]
}

/// Why the list stands still: an application shows its processes, or the selection moved.
pub open spec fn pause_notice(app: App, figures: Figures, now: u64) -> Seq<SpanView> {
    match app.expanded_app {
        Some(name) => notice("expanded "@ + name@ + " (refresh paused)"@, Color::Good),
        None => if app.frozen(now) {
            notice("list frozen "@ + fixed(figures.freeze_seconds, 0, 1) + "s"@, Color::Good)
        } else {
            Seq::empty()
        },
    }
}

/// That the menu is open.
pub open spec fn menu_notice(app: App) -> Seq<SpanView> {
    if app.kill_menu_open {
        notice("action menu open"@, Color::Warn)
    } else {
        Seq::empty()
    }
}

/// The message.
pub open spec fn status_notice(app: App) -> Seq<SpanView> {
    match app.status_message {
        Some(status) => seq![
            ink("  |  "@, Style::ink(Color::Muted)),
            ink("status "@, Style::ink(Color::Muted)),
            ink(
                status.text@,
                Style::ink(
                    if status.is_error {
                        Color::Hot
                    } else {
                        Color::Good
                    },
                ).in_bold(),
            ),
        ],
        None => Seq::empty(),
    }
}

/// The footer.
pub open spec fn footer(area: Rect, app: App, figures: Figures, now: u64) -> DrawView {
    line_draw(
        area,
        line(
            footer_keys(app.combine_smt) + pause_notice(app, figures, now) + menu_notice(app)
                + status_notice(app),
        ),
        Style::plain(),
    )
}

fn footer_line(combine_smt: bool) -> (r: Line)
    ensures
        r@ == line(footer_keys(combine_smt)),
{
    let key = Style::ink(Color::AccentProc).in_bold();
    let muted = Style::ink(Color::Muted);
    let mut r = Line::empty();
    r.push("↑/↓", key);
    r.push(" select  |  ", muted);
    r.push("←/→", key);
    r.push(" close/open app  |  ", muted);
    r.push("Enter", key);
    r.push(" actions  |  ", muted);
    if combine_smt {
        r.push("m", Style::ink(Color::Good).in_bold());
        r.push(" cpu mode  |  ", muted);
    } else {
        r.push("m", key);
        r.push(" thread mode  |  ", muted);
    }
    r.push("q/Esc", key);
    r.push(" quit", muted);
    assert(r@.spans =~= footer_keys(combine_smt));
    r
}

pub fn push_notice(r: &mut Line, text: &str, color: Color)
    ensures
        final(r)@ == (LineView { spans: old(r)@.spans + notice(text@, color), ..old(r)@ }),
{
    let ghost before = r@;
    r.push("  |  ", Style::ink(Color::Muted));
    r.push(text, Style::ink(color).in_bold());
    assert(r@.spans =~= before.spans + notice(text@, color));
}

fn push_pause(r: &mut Line, app: &App, figures: &Figures, now: u64)
    ensures
        final(r)@ == (LineView {
            spans: old(r)@.spans + pause_notice(*app, *figures, now),
            ..old(r)@
        }),
{
    let ghost before = r@;
    match app.expanded_app_name() {
        Some(name) => {
            let mut text = copy_str("expanded ");
            text.append(name);
            text.append(" (refresh paused)");
            push_notice(r, text.as_str(), Color::Good);
        },
        None => {
            if app.process_freeze_remaining(now).is_some() {
                let mut text = copy_str("list frozen ");
                append_fixed(&mut text, figures.freeze_seconds, 0, 1);
                text.append("s");
                push_notice(r, text.as_str(), Color::Good);
            }
        },
    }
    assert(r@.spans =~= before.spans + pause_notice(*app, *figures, now));
}

/// Draws the footer.
pub fn render_footer(screen: &mut Screen, area: Rect, app: &App, figures: &Figures, now: u64)
    ensures
        final(screen)@ == old(screen)@.push(footer(area, *app, *figures, now)),
{
    let mut r = footer_line(app.combine_smt);
    push_pause(&mut r, app, figures, now);
    let ghost paused = r@.spans;
    if app.kill_menu_open {
        push_notice(&mut r, "action menu open", Color::Warn);
    }
    assert(r@.spans =~= paused + menu_notice(*app));
    let ghost with_menu = r@.spans;
    match &app.status_message {
        Some(status) => {
            let color = if status.is_error {
                Color::Hot
            } else {
                Color::Good
            };
            r.push("  |  ", Style::ink(Color::Muted));
            r.push("status ", Style::ink(Color::Muted));
            r.push(status.text.as_str(), Style::ink(color).in_bold());
        },
        None => {},
    }
    assert(r@.spans =~= with_menu + status_notice(*app));
    screen.put_line(area, r, Style::plain());
}

// ---------------------------------------------------------------------------
// The whole screen
// ---------------------------------------------------------------------------

/// What decides how the screen is divided.
pub open spec fn shape_of(app: App) -> Shape {
    Shape { pairs: app.cpu_pairs@.len() as usize, combine: app.combine_smt }
}

/// The menu, where it is open.
pub open spec fn open_menu(app: App, popup: Rect) -> Seq<DrawView> {
    if app.kill_menu_open {
        kill_menu(app.kill_menu_target, popup)
    } else {
        Seq::empty()
    }
}

/// The background of the screen.
pub open spec fn backdrop(area: Rect) -> DrawView {
    DrawView { area, widget: WidgetView::Backdrop { style: Style::ink(Color::Text).on(Color::Bg) } }
}

/// The whole screen.
pub open spec fn frame_draws(area: Rect, app: App, figures: Figures, now: u64, plan: FramePlan) -> Seq<DrawView> {
    seq![backdrop(area)] + banner(plan.rows@[0], app.started_at, now) + cpu_grid(
        plan.rows@[1],
        app,
        figures,
        plan.cpu,
    ) + gpu_panel(plan.middle@[0], app.gpu, figures, plan.gpu@) + memory_panel(
        plan.middle@[1],
        app.storage,
        figures,
        plan.memory@,
    ) + seq![process_table(plan.rows@[3], app, now)] + seq![footer(plan.rows@[4], app, figures, now)]
        + open_menu(app, plan.popup)
}

/// Draws the whole screen where it was planned.
pub fn draw_planned(area: Rect, app: &App, figures: &Figures, now: u64, plan: &FramePlan) -> (screen: Screen)
    requires
        plan.fits(shape_of(*app)),
        figures.pair_means@.len() == app.cpu_pairs@.len(),
    ensures
        screen@ == frame_draws(area, *app, *figures, now, *plan),
{
    assert(app.cpu_pairs.len() == app.cpu_pairs@.len());
    let mut screen = Screen::empty();
    screen.put(area, Widget::Backdrop { style: Style::ink(Color::Text).on(Color::Bg) });
    assert(screen@ =~= seq![backdrop(area)]);
    render_telemetry_banner(&mut screen, plan.rows[0], app.started_at, now);
    render_cpu_grid(&mut screen, plan.rows[1], app, figures, &plan.cpu);
    render_gpu_panel(&mut screen, plan.middle[0], &app.gpu, figures, &plan.gpu);
    render_mem_disk_panel(&mut screen, plan.middle[1], app.storage, figures, &plan.memory);
    let ghost panels = screen@;
    render_process_table(&mut screen, plan.rows[3], app, now);
    assert(screen@ =~= panels + seq![process_table(plan.rows@[3], *app, now)]);
    let ghost listed = screen@;
    render_footer(&mut screen, plan.rows[4], app, figures, now);
    assert(screen@ =~= listed + seq![footer(plan.rows@[4], *app, *figures, now)]);
    let ghost whole = screen@;
    if app.kill_menu_open {
        render_kill_menu(&mut screen, app, plan.popup);
    }
    assert(screen@ =~= whole + open_menu(*app, plan.popup));
    screen
}

/// Draws the whole screen: plans where everything goes, and draws it there.
pub fn draw_ui(area: Rect, app: &App, figures: &Figures, now: u64) -> (screen: Screen)
    requires
        figures.pair_means@.len() == app.cpu_pairs@.len(),
    ensures
        exists|plan: FramePlan|
            {
                &&& #[trigger] plan.is_for(area, shape_of(*app))
                &&& screen@ == frame_draws(area, *app, *figures, now, plan)
            },
        area.x + area.width <= u16::MAX && area.y + area.height <= u16::MAX ==> all_within(screen@, area),
{
    let shape = Shape { pairs: app.cpu_pairs.len(), combine: app.combine_smt };
    let plan = plan_frame(area, shape);
    let screen = draw_planned(area, app, figures, now, &plan);
    assert(plan.is_for(area, shape_of(*app)));
    proof {
        if area.x + area.width <= u16::MAX && area.y + area.height <= u16::MAX {
            lemma_drawn_within(area, *app, *figures, now, plan);
        }
    }
    screen
}

// ---------------------------------------------------------------------------
// Everything is drawn on the screen
// ---------------------------------------------------------------------------

proof fn lemma_add_within(a: Seq<DrawView>, b: Seq<DrawView>, area: Rect)
    requires
        all_within(a, area),
        all_within(b, area),
    ensures
        all_within(a + b, area),
{
    assert forall|i: int| 0 <= i < (a + b).len() implies (#[trigger] (a + b)[i]).area.within(area) by {
        if i < a.len() {
            assert(a[i].area.within(area));
        } else {
            assert(b[i - a.len()].area.within(area));
        }
    }
}

proof fn lemma_part_within(draws: Seq<DrawView>, part: Rect, area: Rect)
    requires
        all_within(draws, part),
        part.within(area),
    ensures
        all_within(draws, area),
{
    assert forall|i: int| 0 <= i < draws.len() implies (#[trigger] draws[i]).area.within(area) by {
        assert(draws[i].area.within(part));
    }
}

proof fn lemma_cpu_rows_within(
    app: App,
    figures: Figures,
    plan: crate::plan::CpuPlan,
    inner: Rect,
    n: int,
)
    requires
        plan.is_for(inner, app.cpu_pairs@.len() as int, app.combine_smt),
        plan.chunks@[1].height > 0,
        n <= plan.count(app.cpu_pairs@.len() as int, app.combine_smt),
    ensures
        all_within(crate::panels::cpu_rows(app, figures, plan, n), inner),
    decreases n,
{
    if n > 0 {
        lemma_cpu_rows_within(app, figures, plan, inner, n - 1);
        let i = n - 1;
        let row = plan.rows@[i];
        assert(row.within(plan.chunks@[1]));
        assert(plan.chunks@[1].within(inner));
        let columns = plan.columns@[i]@;
        if row.width >= crate::plan::WIDE_ROW {
            assert(columns[0].within(row) && columns[1].within(row) && columns[2].within(row));
        }
        let draws = crate::panels::cpu_row(app, figures, plan, i);
        assert(all_within(draws, row));
        lemma_part_within(draws, row, inner);
        lemma_add_within(crate::panels::cpu_rows(app, figures, plan, n - 1), draws, inner);
    }
}

proof fn lemma_cpu_grid_within(area: Rect, app: App, figures: Figures, plan: crate::plan::CpuPlan)
    requires
        area.x + area.width <= u16::MAX,
        area.y + area.height <= u16::MAX,
        plan.is_for(framed(area), app.cpu_pairs@.len() as int, app.combine_smt),
    ensures
        all_within(cpu_grid(area, app, figures, plan), area),
{
    crate::layout::law_inside_of_frame(area);
    let inner = framed(area);
    if crate::panels::shows_cpus(area, app, plan) {
        let n = plan.count(app.cpu_pairs@.len() as int, app.combine_smt);
        lemma_cpu_rows_within(app, figures, plan, inner, n);
        lemma_part_within(crate::panels::cpu_rows(app, figures, plan, n), inner, area);
        assert(plan.chunks@[0].within(inner));
        let head = seq![
            frame_draw(area, crate::panels::cpu_title(area, app, figures), Style::plain()),
        ].push(
            line_draw(plan.chunks@[0], crate::panels::cpu_summary(app, figures), Style::paper(Color::RowA)),
        );
        assert(all_within(head, area));
        lemma_add_within(head, crate::panels::cpu_rows(app, figures, plan, n), area);
    }
}

proof fn lemma_gpu_panel_within(
    area: Rect,
    gpu: Option<crate::models::GpuStats>,
    figures: Figures,
    parts: Seq<Rect>,
)
    requires
        area.x + area.width <= u16::MAX,
        area.y + area.height <= u16::MAX,
        crate::plan::are_gpu_lines(parts, framed(area)),
    ensures
        all_within(gpu_panel(area, gpu, figures, parts), area),
{
    crate::layout::law_inside_of_frame(area);
    let inner = framed(area);
    assert forall|i: int| 0 <= i < parts.len() implies (#[trigger] parts[i]).within(area) by {
        assert(parts[i].within(inner));
    }
}

proof fn lemma_memory_panel_within(
    area: Rect,
    storage: Option<crate::models::StorageStats>,
    figures: Figures,
    parts: Seq<Rect>,
)
    requires
        area.x + area.width <= u16::MAX,
        area.y + area.height <= u16::MAX,
        crate::plan::are_memory_lines(parts, framed(area)),
    ensures
        all_within(memory_panel(area, storage, figures, parts), area),
{
    crate::layout::law_inside_of_frame(area);
    let inner = framed(area);
    assert forall|i: int| 0 <= i < parts.len() implies (#[trigger] parts[i]).within(area) by {
        assert(parts[i].within(inner));
    }
}

/// Nothing is drawn outside the screen.
proof fn lemma_drawn_within(area: Rect, app: App, figures: Figures, now: u64, plan: FramePlan)
    requires
        area.x + area.width <= u16::MAX,
        area.y + area.height <= u16::MAX,
        plan.is_for(area, shape_of(app)),
        plan.nested(area, shape_of(app)),
        plan.fits(shape_of(app)),
    ensures
        all_within(frame_draws(area, app, figures, now, plan), area),
{
    assert(app.cpu_pairs.len() == app.cpu_pairs@.len());
    assert forall|i: int| 0 <= i < 5 implies (#[trigger] plan.rows@[i]).within(area) by {
        assert(plan.rows@[i].within(plan.content));
    }
    assert(plan.rows@[2].within(area));
    let a = seq![backdrop(area)];
    let b = banner(plan.rows@[0], app.started_at, now);
    let c = cpu_grid(plan.rows@[1], app, figures, plan.cpu);
    let d = gpu_panel(plan.middle@[0], app.gpu, figures, plan.gpu@);
    let e = memory_panel(plan.middle@[1], app.storage, figures, plan.memory@);
    let f = seq![process_table(plan.rows@[3], app, now)];
    let g = seq![footer(plan.rows@[4], app, figures, now)];
    let h = open_menu(app, plan.popup);
    assert(plan.rows@[0].within(area) && plan.rows@[1].within(area) && plan.rows@[3].within(area)
        && plan.rows@[4].within(area));
    lemma_cpu_grid_within(plan.rows@[1], app, figures, plan.cpu);
    lemma_part_within(c, plan.rows@[1], area);
    lemma_gpu_panel_within(plan.middle@[0], app.gpu, figures, plan.gpu@);
    lemma_part_within(d, plan.middle@[0], area);
    lemma_memory_panel_within(plan.middle@[1], app.storage, figures, plan.memory@);
    lemma_part_within(e, plan.middle@[1], area);
    crate::layout::law_inside_of_frame(plan.popup);
    lemma_add_within(a, b, area);
    lemma_add_within(a + b, c, area);
    lemma_add_within(a + b + c, d, area);
    lemma_add_within(a + b + c + d, e, area);
    lemma_add_within(a + b + c + d + e, f, area);
    lemma_add_within(a + b + c + d + e + f, g, area);
    lemma_add_within(a + b + c + d + e + f + g, h, area);
}

// ---------------------------------------------------------------------------
// Laws
// ---------------------------------------------------------------------------

/// As many rows are in view as there is room for. The list is shown from its first row while the
/// selected one lies in the first half of the room, to its last row while it lies in the last
/// half, and else with the selected row in the middle. Where there is room for all rows, all are
/// in view.
pub proof fn law_window_follows_selection(count: int, capacity: int, row: int)
    requires
        0 <= row < count,
        0 < capacity,
    ensures
        ({
            let (start, end) = window(count, capacity, Some(row));
            &&& end - start == least(capacity, count)
            &&& row <= capacity / 2 ==> start == 0
            &&& row - capacity / 2 >= count - capacity ==> end == count
            &&& capacity / 2 <= row <= count - capacity + capacity / 2 ==> row - start == capacity / 2
            &&& capacity >= count ==> start == 0 && end == count
        }),
        window(count, capacity, None) == (0int, least(capacity, count)),
        window(count, 0, Some(row)) == (0int, 0int),
{
}

/// The rows of the list that is drawn.
pub open spec fn drawn_rows(area: Rect, app: App, now: u64) -> Seq<RowView> {
    process_table(area, app, now).widget->Table_table.rows
}

/// Whether a row of the list shows a process: its name, its number, its memory and its share.
pub open spec fn shows_process(row: RowView, process: ProcessStat) -> bool {
    &&& row.cells.len() == 4
    &&& row.cells[0].text == "  └─ "@ + process.name@
    &&& row.cells[1].text == process.pid@
    &&& row.cells[2].text == decimal(process.mem_mib as nat) + " MiB"@
    &&& row.cells[3].text == fixed(process.cpu, 0, 1) + "%"@
    &&& row.cells[3].style.fg == usage_style(process.cpu, Color::AccentThread).fg
}

/// Whether a row of the list shows a group: its name and how many processes it has, behind a
/// sign that tells whether it is gone, shows its processes or hides them, its memory and its
/// share.
pub open spec fn shows_group(row: RowView, group: ProcessGroup, expanded: bool) -> bool {
    let sign = if group.stale {
        "•"@
    } else if expanded {
        "▾"@
    } else {
        "▸"@
    };
    &&& row.cells.len() == 4
    &&& row.cells[0].text == sign + " "@ + group.app@ + " ("@ + decimal(group.processes@.len()) + ")"@
    &&& row.cells[1].text == "—"@
    &&& row.cells[2].text == decimal(group.total_mem_mib as nat) + " MiB"@
    &&& row.cells[3].text == fixed(group.total_cpu, 0, 1) + "%"@
    &&& row.cells[3].style.fg == usage_style(group.total_cpu, Color::AccentThread).fg
}

/// Whether the cells of a row have one background.
pub open spec fn lies_on(row: RowView, background: Color) -> bool {
    forall|c: int| 0 <= c < row.cells.len() ==> (#[trigger] row.cells[c]).style.bg == Some(background)
}

/// Each row that is in view shows the process or the group whose row it is: row `k` of the table
/// is row `k` of the list, counted from the first one in view.
pub proof fn law_row_shows_its_process(area: Rect, app: App, now: u64, k: int)
    requires
        0 <= k < drawn_rows(area, app, now).len(),
    ensures
        ({
            let first = window(app.rows().len() as int, less_by(area.height as int, 3), selected_index(app)).0;
            let row = drawn_rows(area, app, now)[k];
            &&& 0 <= first + k < app.rows().len()
            &&& match app.rows()[first + k] {
                ProcessListRow::App { app_index } => {
                    let group = app.process_groups@[app_index as int];
                    &&& app.expanded_app is Some && (app.expanded_app->0)@ == group.app@ ==> shows_group(row, group, true)
                    &&& app.expanded_app is None || (app.expanded_app->0)@ != group.app@ ==> shows_group(row, group, false)
                },
                ProcessListRow::Process { app_index, process_index } => shows_process(
                    row,
                    app.process_groups@[app_index as int].processes@[process_index as int],
                ),
            }
        }),
{
}

/// Where there is room for all rows, every process of an application that shows its processes is
/// in the table, with its own number, name, memory and share, behind the row of the application
/// and in the order of its processes.
pub proof fn law_all_processes_are_shown(area: Rect, app: App, now: u64, i: int, j: int)
    requires
        area.height >= app.rows().len() + 3,
        0 <= i < app.process_groups@.len(),
        app.expands(i),
        0 <= j < app.process_groups@[i].processes@.len(),
    ensures
        drawn_rows(area, app, now).len() == app.rows().len(),
        app.rows_of_first(i).len() + 1 + j < drawn_rows(area, app, now).len(),
        shows_process(
            drawn_rows(area, app, now)[app.rows_of_first(i).len() + 1 + j],
            app.process_groups@[i].processes@[j],
        ),
        shows_group(drawn_rows(area, app, now)[app.rows_of_first(i).len() as int], app.process_groups@[i], true),
{
    assert(app.process_groups.len() == app.process_groups@.len());
    assert(app.process_groups@[i].processes.len() == app.process_groups@[i].processes@.len());
    crate::app::law_process_has_its_row(app, i as usize, j as usize);
    crate::app::law_group_has_its_row(app, i);
    let k = app.rows_of_first(i).len() + 1 + j;
    let count = app.rows().len() as int;
    let selected = least(app.selected_row as int, count - 1);
    assert(selected_index(app) == Some(selected));
    law_window_follows_selection(count, area.height - 3, selected);
    assert(app.rows()[k] == (ProcessListRow::Process { app_index: i as usize, process_index: j as usize }));
}

/// The selected row stands out: it alone has the background of a selection, and the others have
/// two backgrounds in turn.
pub proof fn law_selected_row_stands_out(area: Rect, app: App, now: u64, k: int)
    requires
        0 <= k < drawn_rows(area, app, now).len(),
    ensures
        ({
            let first = window(app.rows().len() as int, less_by(area.height as int, 3), selected_index(app)).0;
            let row = drawn_rows(area, app, now)[k];
            let selected = app.selected_row == first + k || (app.selected_row >= app.rows().len() && first + k
                == app.rows().len() - 1);
            &&& selected ==> lies_on(row, Color::RowSelected) && row.cells[3].style.underlined
            &&& !selected && (first + k) % 2 == 0 ==> lies_on(row, Color::RowA) && !row.cells[3].style.underlined
            &&& !selected && (first + k) % 2 == 1 ==> lies_on(row, Color::RowB) && !row.cells[3].style.underlined
        }),
{
    let first = window(app.rows().len() as int, less_by(area.height as int, 3), selected_index(app)).0;
    let row = drawn_rows(area, app, now)[k];
    assert(row == list_row(app, first + k));
    assert(row.cells.len() == 4);
    let background = row_background(first + k, selected_index(app) == Some(first + k));
    assert forall|c: int| 0 <= c < 4 implies (#[trigger] row.cells[c]).style.bg == Some(background) by {
        if c == 0 {
        } else if c == 1 {
        } else if c == 2 {
        } else {
        }
    }
}

/// The list says why it stands still, and names its columns.
pub proof fn law_list_is_labelled(area: Rect, app: App, now: u64)
    ensures
        ({
            let table = process_table(area, app, now).widget->Table_table;
            let title = if app.expanded_app is Some {
                " Processes (expanded, frozen) "@
            } else if app.kill_menu_open || (app.process_freeze_until is Some && now < app.process_freeze_until->0) {
                " Processes (frozen) "@
            } else {
                " Processes "@
            };
            &&& process_table(area, app, now).area == area
            &&& table.title.spans == raw_line(title).spans
            &&& table.header.cells.len() == 4
            &&& table.header.cells[0].text == "App"@
            &&& table.header.cells[1].text == "PID"@
            &&& table.header.cells[2].text == "Memory"@
            &&& table.header.cells[3].text == "CPU"@
        }),
{
}

/// The menu names what it acts on: a process by its number and name, an application by its name
/// and how many processes it has. It covers what was drawn before, and has the keys that act.
pub proof fn law_menu_names_target(target: KillMenuTarget, popup: Rect)
    ensures
        kill_menu(None, popup).len() == 0,
        kill_menu(Some(target), popup).len() >= 2,
        kill_menu(Some(target), popup)[0] == (DrawView { area: popup, widget: WidgetView::Clear }),
        framed(popup).height >= 3 ==> {
            let menu = kill_menu(Some(target), popup);
            let lines = menu[2].widget->Paragraph_lines;
            &&& menu.len() == 3
            &&& menu[2].area == framed(popup)
            &&& lines.len() == 4
            &&& text_at(lines[2], 0) == "Enter / k"@
            &&& text_at(lines[2], 2) == "f"@
            &&& match target {
                KillMenuTarget::Process { pid, name } => {
                    &&& text_at(lines[0], 1) == pid@
                    &&& name@.len() + 2 <= framed(popup).width ==> text_at(lines[0], 4) == name@
                    &&& framed(popup).width > 2 ==> text_at(lines[0], 4) == truncated(
                        name@,
                        (framed(popup).width - 2) as nat,
                    )
                    &&& text_at(lines[2], 1) == " SIGTERM process   "@
                    &&& text_at(lines[2], 3) == " SIGKILL process"@
                    &&& text_at(lines[3], 0) == "Esc"@
                },
                KillMenuTarget::App { app, process_count, .. } => {
                    &&& app@.len() + 2 <= framed(popup).width ==> text_at(lines[0], 1) == app@
                    &&& framed(popup).width > 2 ==> text_at(lines[0], 1) == truncated(
                        app@,
                        (framed(popup).width - 2) as nat,
                    )
                    &&& text_at(lines[0], 4) == decimal(process_count as nat)
                    &&& text_at(lines[2], 1) == " SIGTERM app   "@
                    &&& text_at(lines[2], 3) == " SIGKILL app"@
                    &&& text_at(lines[3], 0) == "o / →"@
                    &&& text_at(lines[3], 2) == "Esc"@
                },
            }
        },
{
}

/// The footer begins with the keys and ends with the message, where there is one, an error in
/// another colour than a success; between them it says why the list stands still and that the
/// menu is open.
pub proof fn law_footer_says(area: Rect, app: App, figures: Figures, now: u64)
    ensures
        ({
            let spans = line_in(footer(area, app, figures, now));
            let n = spans.spans.len();
            let paused = app.expanded_app is Some || app.frozen(now);
            let after_pause = if paused {
                12int
            } else {
                10
            };
            let after_menu = if app.kill_menu_open {
                after_pause + 2
            } else {
                after_pause
            };
            &&& footer(area, app, figures, now).area == area
            &&& is_line(footer(area, app, figures, now))
            &&& text_at(spans, 0) == "↑/↓"@ && text_at(spans, 1) == " select  |  "@
            &&& text_at(spans, 2) == "←/→"@ && text_at(spans, 3) == " close/open app  |  "@
            &&& text_at(spans, 4) == "Enter"@ && text_at(spans, 5) == " actions  |  "@
            &&& text_at(spans, 6) == "m"@
            &&& app.combine_smt ==> text_at(spans, 7) == " cpu mode  |  "@
            &&& !app.combine_smt ==> text_at(spans, 7) == " thread mode  |  "@
            &&& text_at(spans, 8) == "q/Esc"@ && text_at(spans, 9) == " quit"@
            &&& app.expanded_app is Some ==> text_at(spans, 11) == "expanded "@ + (app.expanded_app->0)@
                + " (refresh paused)"@
            &&& app.expanded_app is None && app.frozen(now) ==> text_at(spans, 11) == "list frozen "@ + fixed(
                figures.freeze_seconds,
                0,
                1,
            ) + "s"@
            &&& app.kill_menu_open ==> text_at(spans, after_pause + 1) == "action menu open"@
            &&& app.status_message is None ==> n == after_menu
            &&& app.status_message is Some ==> {
                &&& n == after_menu + 3
                &&& text_at(spans, n - 1) == (app.status_message->0).text@
                &&& (app.status_message->0).is_error ==> style_at(spans, n - 1).fg == Some(Color::Hot)
                &&& !(app.status_message->0).is_error ==> style_at(spans, n - 1).fg == Some(Color::Good)
            }
        }),
{
    let keys = footer_keys(app.combine_smt);
    let pause = pause_notice(app, figures, now);
    let menu = menu_notice(app);
    let status = status_notice(app);
    let all = keys + pause + menu + status;
    assert(line_in(footer(area, app, figures, now)).spans == all);
    assert(keys.len() == 10);
    assert forall|i: int| 0 <= i < 10 implies #[trigger] all[i] == keys[i] by {}
    assert forall|i: int| 0 <= i < pause.len() implies #[trigger] all[10 + i] == pause[i] by {}
    assert forall|i: int| 0 <= i < menu.len() implies #[trigger] all[10int + pause.len() + i] == menu[i] by {}
    assert forall|i: int| 0 <= i < status.len() implies #[trigger] all[10int + pause.len() + menu.len() + i]
        == status[i] by {}
    if pause.len() > 0 {
        assert(all[11int] == pause[1]);
    }
    if menu.len() > 0 {
        assert(all[10int + pause.len() + 1] == menu[1]);
    }
    if status.len() > 0 {
        assert(all[10int + pause.len() + menu.len() + 2] == status[2]);
    }
}

/// The animation goes on by one step every 120 milliseconds, from none at the start.
pub proof fn law_animation_goes_on(started_at: u64, now: u64)
    requires
        started_at <= now,
        now + 120_000_000 <= u64::MAX,
    ensures
        animation_step(started_at, started_at) == 0,
        animation_step(started_at, (now + 120_000_000) as u64) == animation_step(started_at, now) + 1,
        now < started_at + 120_000_000 ==> animation_step(started_at, now) == 0,
        forall|earlier: u64| earlier < started_at ==> #[trigger] animation_step(started_at, earlier) == 0,
{
}

/// The screen is filled first, the menu comes last, where it is open, and between them the
/// banner, the panels, the list and the footer are drawn, each in its own part.
pub proof fn law_everything_is_drawn(area: Rect, app: App, figures: Figures, now: u64, plan: FramePlan)
    ensures
        ({
            let all = frame_draws(area, app, figures, now, plan);
            let menu = open_menu(app, plan.popup);
            let title = banner(plan.rows@[0], app.started_at, now);
            let cpus = cpu_grid(plan.rows@[1], app, figures, plan.cpu);
            let card = gpu_panel(plan.middle@[0], app.gpu, figures, plan.gpu@);
            let memory = memory_panel(plan.middle@[1], app.storage, figures, plan.memory@);
            let n = all.len() - menu.len();
            &&& all[0].area == area && all[0].widget is Backdrop
            &&& all[0].widget->Backdrop_style == Style::ink(Color::Text).on(Color::Bg)
            &&& all.len() == 1 + title.len() + cpus.len() + card.len() + memory.len() + 2 + menu.len()
            &&& all.subrange(1, 1int + title.len()) == title
            &&& all.subrange(1int + title.len(), 1int + title.len() + cpus.len()) == cpus
            &&& all.subrange(n - 2 - memory.len() - card.len(), n - 2 - memory.len()) == card
            &&& all.subrange(n - 2 - memory.len(), n - 2) == memory
            &&& all[n - 2] == process_table(plan.rows@[3], app, now)
            &&& all[n - 1] == footer(plan.rows@[4], app, figures, now)
            &&& all.subrange(n, all.len() as int) == menu
            &&& !app.kill_menu_open ==> menu.len() == 0
            &&& app.kill_menu_open ==> menu == kill_menu(app.kill_menu_target, plan.popup)
            &&& plan.rows@[0].width > 0 && plan.rows@[0].height > 0 ==> title.len() == 1 && title[0].area
                == plan.rows@[0]
        }),
{
    let menu = open_menu(app, plan.popup);
    let title = banner(plan.rows@[0], app.started_at, now);
    let cpus = cpu_grid(plan.rows@[1], app, figures, plan.cpu);
    let card = gpu_panel(plan.middle@[0], app.gpu, figures, plan.gpu@);
    let memory = memory_panel(plan.middle@[1], app.storage, figures, plan.memory@);
    let list = process_table(plan.rows@[3], app, now);
    let keys = footer(plan.rows@[4], app, figures, now);
    lemma_parts_in_place(backdrop(area), title, cpus, card, memory, list, keys, menu);
}

proof fn lemma_parts_in_place(
    first: DrawView,
    a: Seq<DrawView>,
    b: Seq<DrawView>,
    c: Seq<DrawView>,
    d: Seq<DrawView>,
    x: DrawView,
    y: DrawView,
    e: Seq<DrawView>,
)
    ensures
        ({
            let all = seq![first] + a + b + c + d + seq![x] + seq![y] + e;
            let n = all.len() - e.len();
            &&& all[0] == first
            &&& all.len() == 1 + a.len() + b.len() + c.len() + d.len() + 2 + e.len()
            &&& all.subrange(1, 1int + a.len()) == a
            &&& all.subrange(1int + a.len(), 1int + a.len() + b.len()) == b
            &&& all.subrange(n - 2 - d.len() - c.len(), n - 2 - d.len()) == c
            &&& all.subrange(n - 2 - d.len(), n - 2) == d
            &&& all[n - 2] == x
            &&& all[n - 1] == y
            &&& all.subrange(n, all.len() as int) == e
        }),
{
    let all = seq![first] + a + b + c + d + seq![x] + seq![y] + e;
    let n = all.len() - e.len();
    assert(all.subrange(1, 1int + a.len()) =~= a);
    assert(all.subrange(1int + a.len(), 1int + a.len() + b.len()) =~= b);
    assert(all.subrange(n - 2 - d.len() - c.len(), n - 2 - d.len()) =~= c);
    assert(all.subrange(n - 2 - d.len(), n - 2) =~= d);
    assert(all.subrange(n, all.len() as int) =~= e);
}

/// The columns of the list have fixed widths but for the name, which takes 60 per cent.
pub proof fn law_columns_of_list(area: Rect, app: App, now: u64)
    ensures
        ({
            let table = process_table(area, app, now).widget->Table_table;
            &&& table.widths.len() == 4
            &&& table.widths[0] == Constraint::Percentage(60)
            &&& table.widths[1] == Constraint::Length(8)
            &&& table.widths[2] == Constraint::Length(14)
            &&& table.widths[3] == Constraint::Length(10)
            &&& table.column_spacing == 1
        }),
{
}

/// The name of a process is bold where it is selected, and only there; that of a group always is,
/// in a faint colour where the group is gone and not selected.
pub proof fn law_names_in_list(process: ProcessStat, group: ProcessGroup, expanded: bool, background: Color)
    ensures
        process_row(process, background, true).cells[0].style.bold,
        !process_row(process, background, false).cells[0].style.bold,
        process_row(process, background, true).cells[1].style.fg == Some(Color::Text),
        process_row(process, background, false).cells[1].style.fg == Some(Color::AccentProc),
        group_row(group, expanded, background, true).cells[0].style.fg == Some(Color::Text),
        group.stale ==> group_row(group, expanded, background, false).cells[0].style.fg == Some(Color::Muted),
        !group.stale ==> group_row(group, expanded, background, false).cells[0].style.fg == Some(Color::AccentProc),
        group_row(group, expanded, background, true).cells[0].style.bold,
        group_row(group, expanded, background, false).cells[0].style.bold,
{
}

/// The screen is divided for the pairs and the mode that are shown.
pub proof fn law_shape_is_that_of_monitor(app: App)
    ensures
        shape_of(app).pairs == app.cpu_pairs@.len(),
        shape_of(app).combine == app.combine_smt,
{
    assert(app.cpu_pairs.len() == app.cpu_pairs@.len());
}

/// The banner moves with the time since the start, and shows the name of the program.
pub proof fn law_banner_shows_name(area: Rect, started_at: u64, now: u64, k: int)
    requires
        area.width >= 6,
        area.height > 0,
        0 <= k < 6,
    ensures
        ({
            let shown = banner(area, started_at, now);
            let at = (area.width - 6) / 2 + k;
            &&& shown.len() == 1
            &&& shown[0].area == area
            &&& text_at(line_in(shown[0]), at) == seq![" RTOP "@[k]]
        }),
{
    reveal_strlit(" RTOP ");
    crate::banner::law_title_is_shown(
        area.width as nat,
        animation_step(started_at, now),
        " RTOP "@,
        false,
        k,
    );
    crate::banner::law_title_in_the_middle(" RTOP "@, area.width as int);
}

} // verus!
