//! A process list without groups: one row for each process, with a selection that follows the
//! process it is on.

use crate::app::says;
use crate::config::{PROCESS_FREEZE_AFTER_NAV, PROCESS_INTERVAL, STATUS_MESSAGE_DURATION};
use crate::figure::{append_fixed, fixed};
use crate::layout::{framed, inside_frame, Constraint, Rect};
use crate::models::{KillSignal, ProcessStat, StatusMessage};
use crate::number::{least, less_by};
use crate::processes::{are_top, busiest, share_rows, with_shares};
use crate::reading::Reading;
use crate::text::{copy_str, same_str};
use crate::theme::{usage_style, Color, Style};
use crate::tui::{Action, Key};
use crate::ui::{
    background_of, bold_if, bold_style, memory_text, notice, process_heading, process_heading_line,
    push_notice, push_share, row_background, share_style,
};
use crate::widgets::{
    frame_draw, ink, line, line_draw, line_in, line_views, raw_line, row_views, style_at, text_at,
    CellView, DrawView, Line, LineView, Row, RowView, Screen, SpanView, Table, TableView, Widget,
    WidgetView,
};
use vstd::prelude::*;

verus! {

broadcast use vstd::string::group_string_axioms;

/// The most processes that are listed.
pub const LIST_LIMIT: usize = 256;

/// A list of processes with a selection.
#[derive(Debug)]
pub struct FlatList {
    pub processes: Vec<ProcessStat>,
    pub selected_index: usize,
    pub selected_pid: Option<String>,
    pub has_user_navigated_processes: bool,
    pub process_freeze_until: Option<u64>,
    pub kill_menu_open: bool,
    pub status_message: Option<StatusMessage>,
}

/// The place of the first process with a number, or how many there are.
pub open spec fn first_with_pid(processes: Seq<ProcessStat>, pid: Seq<char>) -> int
    decreases processes.len(),
{
    if processes.len() == 0 || processes[0].pid@ == pid {
        0
    } else {
        1 + first_with_pid(processes.drop_first(), pid)
    }
}

fn place_of_pid(processes: &Vec<ProcessStat>, pid: &str) -> (r: usize)
    ensures
        r == first_with_pid(processes@, pid@),
        r <= processes@.len(),
        r < processes@.len() ==> processes@[r as int].pid@ == pid@,
{
    let mut i: usize = 0;
    assert(processes@.skip(0) =~= processes@);
    while i < processes.len()
        invariant
            i <= processes@.len(),
            first_with_pid(processes@, pid@) == i + first_with_pid(processes@.skip(i as int), pid@),
        decreases processes@.len() - i,
    {
        if same_str(processes[i].pid.as_str(), pid) {
            return i;
        }
        assert(processes@.skip(i as int).drop_first() =~= processes@.skip(i + 1));
        i = i + 1;
    }
    i
}

impl FlatList {
    /// Whether the selection is on a process where there are any, and knows its number.
    pub open spec fn valid(self) -> bool {
        if self.processes@.len() == 0 {
            self.selected_index == 0 && self.selected_pid is None && !self.kill_menu_open
        } else {
            &&& self.selected_index < self.processes@.len()
            &&& self.selected_pid matches Some(pid) && pid@ == self.processes@[self.selected_index as int].pid@
        }
    }

    /// The state with the selection on the process at `i`.
    pub open spec fn selecting(self, i: int) -> FlatList {
        FlatList { selected_index: i as usize, selected_pid: Some(self.processes@[i].pid), ..self }
    }

    /// Where the selected process is now listed.
    pub open spec fn followed(self) -> Option<int> {
        match self.selected_pid {
            Some(pid) => if first_with_pid(self.processes@, pid@) < self.processes@.len() {
                Some(first_with_pid(self.processes@, pid@))
            } else {
                None
            },
            None => None,
        }
    }

    /// The state with the selection brought in line with the processes: on the first process
    /// until the selection was moved, then on the process that it was on, and where that is
    /// gone, at the place where it was, as far as there is one.
    pub open spec fn synced(self) -> FlatList {
        if self.processes@.len() == 0 {
            FlatList { selected_index: 0, selected_pid: None, kill_menu_open: false, ..self }
        } else if !self.has_user_navigated_processes {
            self.selecting(0)
        } else {
            match self.followed() {
                Some(i) => FlatList { selected_index: i as usize, ..self },
                None => self.selecting(least(self.selected_index as int, self.processes@.len() - 1)),
            }
        }
    }

    /// An empty list.
    pub fn new() -> (r: FlatList)
        ensures
            r.processes@.len() == 0,
            r.selected_index == 0,
            r.selected_pid is None,
            !r.has_user_navigated_processes,
            r.process_freeze_until is None,
            !r.kill_menu_open,
            r.status_message is None,
            r.valid(),
    {
        FlatList {
            processes: Vec::new(),
            selected_index: 0,
            selected_pid: None,
            has_user_navigated_processes: false,
            process_freeze_until: None,
            kill_menu_open: false,
            status_message: None,
        }
    }

    fn sync_selection(&mut self)
        ensures
            *final(self) == old(self).synced(),
            final(self).valid(),
    {
        let count = self.processes.len();
        if count == 0 {
            self.selected_index = 0;
            self.selected_pid = None;
            self.kill_menu_open = false;
            return;
        }
        if !self.has_user_navigated_processes {
            self.selected_index = 0;
            self.selected_pid = Some(self.processes[0].pid.clone());
            return;
        }
        if let Some(pid) = &self.selected_pid {
            let idx = place_of_pid(&self.processes, pid.as_str());
            if idx < count {
                self.selected_index = idx;
                return;
            }
        }
        if self.selected_index > count - 1 {
            self.selected_index = count - 1;
        }
        self.selected_pid = Some(self.processes[self.selected_index].pid.clone());
    }

    /// Takes in the processes that were found.
    pub fn refresh_processes(&mut self, rows: Vec<ProcessStat>)
        ensures
            are_top(final(self).processes@, share_rows(rows@), LIST_LIMIT as int),
            *final(self) == (FlatList { processes: final(self).processes, ..*old(self) }).synced(),
            final(self).valid(),
    {
        self.processes = busiest(with_shares(rows), LIST_LIMIT);
        self.sync_selection();
    }

    /// The place of the selection, where there are processes.
    pub fn selected_index(&self) -> (r: Option<usize>)
        ensures
            r == (if self.processes@.len() == 0 {
                None
            } else {
                Some(self.selected_index)
            }),
    {
        if self.processes.len() == 0 {
            None
        } else {
            Some(self.selected_index)
        }
    }

    /// The process that is selected.
    pub open spec fn selection(self) -> Option<ProcessStat> {
        if self.selected_index < self.processes@.len() {
            Some(self.processes@[self.selected_index as int])
        } else {
            None
        }
    }

    /// The process that is selected.
    pub fn selected_process(&self) -> (r: Option<&ProcessStat>)
        ensures
            match (r, self.selection()) {
                (Some(a), Some(b)) => *a == b,
                (None, None) => true,
                _ => false,
            },
    {
        if self.selected_index < self.processes.len() {
            Some(&self.processes[self.selected_index])
        } else {
            None
        }
    }

    /// Where the selection stands after it moved by `delta` rows.
    pub open spec fn moved(self, delta: int) -> int {
        if delta < 0 {
            if self.selected_index + delta < 0 {
                0
            } else {
                self.selected_index + delta
            }
        } else {
            least(self.selected_index + delta, self.processes@.len() - 1)
        }
    }

    /// The state after the selection moved by `delta` rows; without processes nothing happens.
    pub open spec fn after_move(self, delta: int, now: u64) -> FlatList {
        if self.processes@.len() == 0 {
            self
        } else {
            FlatList {
                has_user_navigated_processes: true,
                process_freeze_until: Some((now + PROCESS_FREEZE_AFTER_NAV) as u64),
                ..self.selecting(self.moved(delta))
            }
        }
    }

    /// Moves the selection by `delta` rows.
    pub fn move_selection(&mut self, delta: isize, now: u64)
        requires
            old(self).valid(),
            now + PROCESS_FREEZE_AFTER_NAV <= u64::MAX,
        ensures
            *final(self) == old(self).after_move(delta as int, now),
            final(self).valid(),
    {
        let count = self.processes.len();
        if count == 0 {
            return;
        }
        self.has_user_navigated_processes = true;
        let max_idx: usize = count - 1;
        self.selected_index =
        if delta < 0 {
            let back: usize = (-(delta + 1)) as usize + 1;
            self.selected_index.saturating_sub(back)
        } else {
            let forward: usize = self.selected_index.saturating_add(delta as usize);
            if forward < max_idx {
                forward
            } else {
                max_idx
            }
        };
        self.selected_pid = Some(self.processes[self.selected_index].pid.clone());
        self.process_freeze_until = Some(now + PROCESS_FREEZE_AFTER_NAV);
    }

    /// Whether the list stands still after a movement.
    pub open spec fn frozen(self, now: u64) -> bool {
        self.process_freeze_until matches Some(until) && now < until
    }

    /// Whether the list is not to be refreshed: the menu is open, or the list stands still.
    pub fn process_updates_locked(&self, now: u64) -> (r: bool)
        ensures
            r == self.locked(now),
            r == (self.kill_menu_open || self.frozen(now)),
    {
        self.kill_menu_open || match self.process_freeze_until {
            Some(until) => now < until,
            None => false,
        }
    }

    /// When the list is to be refreshed next: an interval after the last time, or, while it
    /// stands still and the menu is closed, once it no longer does.
    pub open spec fn next_refresh(self, last_process: u64, now: u64) -> int {
        if !self.kill_menu_open && self.frozen(now) {
            self.process_freeze_until->0 as int
        } else {
            last_process + PROCESS_INTERVAL
        }
    }

    /// Whether the list is not to be refreshed: the menu is open, or the list stands still.
    pub open spec fn locked(self, now: u64) -> bool {
        self.kill_menu_open || self.frozen(now)
    }

    /// When the list is to be refreshed next: an interval after the last time, or, while it
    /// stands still and the menu is closed, once it no longer does.
    pub fn process_due(&self, last_process: u64, now: u64) -> (r: u64)
        requires
            last_process + PROCESS_INTERVAL <= u64::MAX,
        ensures
            r == self.next_refresh(last_process, now),
            r == (if !self.kill_menu_open && self.frozen(now) {
                self.process_freeze_until->0 as int
            } else {
                last_process + PROCESS_INTERVAL
            }),
    {
        if !self.kill_menu_open {
            if let Some(until) = self.process_freeze_until {
                if now < until {
                    return until;
                }
            }
        }
        last_process + PROCESS_INTERVAL
    }

    /// The state with the menu opened on the selection, where there is one.
    pub open spec fn opening(self, now: u64) -> FlatList {
        if self.selection() is Some {
            FlatList {
                kill_menu_open: true,
                process_freeze_until: Some((now + PROCESS_FREEZE_AFTER_NAV) as u64),
                ..self
            }
        } else {
            self
        }
    }

    /// Opens the menu on the selection, where there is one.
    pub fn open_kill_menu(&mut self, now: u64)
        requires
            now + PROCESS_FREEZE_AFTER_NAV <= u64::MAX,
        ensures
            *final(self) == old(self).opening(now),
            old(self).valid() ==> final(self).valid(),
    {
        if self.selected_process().is_some() {
            self.kill_menu_open = true;
            self.process_freeze_until = Some(now + PROCESS_FREEZE_AFTER_NAV);
        }
    }

    /// The state without what has run out.
    pub open spec fn unexpired(self, now: u64) -> FlatList {
        FlatList {
            process_freeze_until: if self.frozen(now) {
                self.process_freeze_until
            } else {
                None
            },
            status_message: if self.status_message matches Some(m) && now >= m.expires_at {
                None
            } else {
                self.status_message
            },
            ..self
        }
    }

    /// Lets go of what has run out.
    pub fn clear_expired_state(&mut self, now: u64)
        ensures
            *final(self) == old(self).unexpired(now),
            old(self).valid() ==> final(self).valid(),
    {
        let thawed = match self.process_freeze_until {
            Some(until) => now >= until,
            None => false,
        };
        if thawed {
            self.process_freeze_until = None;
        }
        let expired = match &self.status_message {
            Some(status) => now >= status.expires_at,
            None => false,
        };
        if expired {
            self.status_message = None;
        }
    }

    /// What a key does: in the menu Escape closes it, and a signal closes it and is sent; else
    /// the selection moves, the menu opens or the session ends.
    pub open spec fn key_effect(self, key: Key, now: u64) -> (FlatList, Action) {
        let closed = FlatList { kill_menu_open: false, ..self };
        if self.kill_menu_open {
            if key == Key::Esc {
                (closed, Action::Redraw)
            } else {
                match crate::tui::signal_of(key) {
                    Some(signal) => (closed, Action::Send(signal)),
                    None => (self, Action::Wait),
                }
            }
        } else if key == Key::Esc || key == Key::Char('q') {
            (self, Action::Quit)
        } else if key == Key::Up {
            (self.after_move(-1, now), Action::Redraw)
        } else if key == Key::Down {
            (self.after_move(1, now), Action::Redraw)
        } else if key == Key::Enter {
            (self.opening(now), Action::Redraw)
        } else {
            (self, Action::Wait)
        }
    }

    /// Takes in a key that was pressed at `now`.
    pub fn key(&mut self, key: Key, now: u64) -> (action: Action)
        requires
            old(self).valid(),
            now + PROCESS_FREEZE_AFTER_NAV <= u64::MAX,
        ensures
            (*final(self), action) == old(self).unexpired(now).key_effect(key, now),
            final(self).valid(),
    {
        self.clear_expired_state(now);
        if self.kill_menu_open {
            return match key {
                Key::Esc => {
                    self.kill_menu_open = false;
                    Action::Redraw
                },
                Key::Enter => {
                    self.kill_menu_open = false;
                    Action::Send(KillSignal::Term)
                },
                Key::Char(c) => if c == 'k' {
                    self.kill_menu_open = false;
                    Action::Send(KillSignal::Term)
                } else if c == 'f' || c == 'K' {
                    self.kill_menu_open = false;
                    Action::Send(KillSignal::Kill)
                } else {
                    Action::Wait
                },
                _ => Action::Wait,
            };
        }
        match key {
            Key::Esc => Action::Quit,
            Key::Char(c) => if c == 'q' {
                Action::Quit
            } else {
                Action::Wait
            },
            Key::Up => {
                self.move_selection(-1, now);
                Action::Redraw
            },
            Key::Down => {
                self.move_selection(1, now);
                Action::Redraw
            },
            Key::Enter => {
                self.open_kill_menu(now);
                Action::Redraw
            },
            _ => Action::Wait,
        }
    }

    /// What is said after `signal` was sent to the selected process and `reply` came back:
    /// whether it went well, and the text.
    pub open spec fn kill_report(self, signal: KillSignal, reply: Result<(), String>) -> (bool, Seq<char>) {
        match self.selection() {
            None => (false, "No process selected"@),
            Some(process) => match reply {
                Ok(_) => (true, signal.label_text() + " sent to PID "@ + process.pid@),
                Err(error) => (false, error@),
            },
        }
    }

    /// Takes in the reply to a signal that was sent to the selected process: a message says
    /// how it went. Where it went well, the processes are to be refreshed.
    pub fn send_kill_to_selected(&mut self, signal: KillSignal, reply: Result<(), String>, now: u64) -> (refresh: bool)
        requires
            now + STATUS_MESSAGE_DURATION <= u64::MAX,
        ensures
            refresh == old(self).kill_report(signal, reply).0,
            says(
                final(self).status_message,
                old(self).kill_report(signal, reply).1,
                !refresh,
                now + STATUS_MESSAGE_DURATION,
            ),
            *final(self) == (FlatList { status_message: final(self).status_message, ..*old(self) }),
            old(self).valid() ==> final(self).valid(),
    {
        let (ok, text) = match self.selected_process() {
            None => (false, copy_str("No process selected")),
            Some(process) => match reply {
                Ok(_) => {
                    let mut text = copy_str(signal.label());
                    text.append(" sent to PID ");
                    text.append(process.pid.as_str());
                    (true, text)
                },
                Err(error) => (false, error),
            },
        };
        self.status_message =
        Some(StatusMessage { text, is_error: !ok, expires_at: now + STATUS_MESSAGE_DURATION });
        ok
    }
}

// ---------------------------------------------------------------------------
// What is drawn
// ---------------------------------------------------------------------------

/// The row of the process at `i`.
pub open spec fn flat_row(list: FlatList, i: int) -> RowView {
    let process = list.processes@[i];
    let is_selected = list.selected_index == i;
    let background = row_background(i, is_selected);
    RowView {
        cells: seq![
            CellView {
                text: process.pid@,
                style: Style::ink(
                    if is_selected {
                        Color::Text
                    } else {
                        Color::AccentProc
                    },
                ).on(background).in_bold(),
            },
            CellView {
                text: process.name@,
                style: bold_if(Style::ink(Color::Text).on(background), is_selected),
            },
            CellView {
                text: crate::number::decimal(process.mem_mib as nat) + " MiB"@,
                style: bold_if(Style::ink(Color::AccentVram).on(background), is_selected),
            },
            CellView {
                text: fixed(process.cpu, 0, 1) + "%"@,
                style: share_style(process.cpu, background, is_selected),
            },
        ],
        style: Style::plain(),
    }
}

/// The header of the list.
pub open spec fn flat_header() -> RowView {
    let plain = Style::plain();
    RowView {
        cells: seq![
            CellView { text: "PID"@, style: plain },
            CellView { text: "Process"@, style: plain },
            CellView { text: "Memory"@, style: plain },
            CellView { text: "CPU"@, style: plain },
        ],
        style: Style::ink(Color::Text).on(Color::HeaderBg).in_bold(),
    }
}

/// The widths of the columns of the list.
pub open spec fn flat_widths() -> Seq<Constraint> {
    seq![
        Constraint::Length(8),
        Constraint::Percentage(55),
        Constraint::Length(14),
        Constraint::Length(10),
    ]
}

/// The list.
pub open spec fn flat_table(area: Rect, list: FlatList, now: u64) -> DrawView {
    DrawView {
        area,
        widget: WidgetView::Table {
            table: TableView {
                title: LineView {
                    style: Style::ink(Color::AccentProc).in_bold(),
                    ..raw_line(
                        if list.kill_menu_open || list.frozen(now) {
                            " Processes (frozen) "@
                        } else {
                            " Processes "@
                        },
                    )
                },
                header: flat_header(),
                widths: flat_widths(),
                column_spacing: 1,
                rows: Seq::new(list.processes@.len(), |i: int| flat_row(list, i)),
            },
        },
    }
}

fn draw_row(list: &FlatList, i: usize) -> (r: Row)
    requires
        i < list.processes@.len(),
    ensures
        r@ == flat_row(*list, i as int),
{
    let process = &list.processes[i];
    let is_selected = list.selected_index == i;
    let background = background_of(i, is_selected);
    let color = if is_selected {
        Color::Text
    } else {
        Color::AccentProc
    };
    let mut r = Row::empty(Style::plain());
    r.push(process.pid.as_str(), Style::ink(color).on(background).in_bold());
    r.push(process.name.as_str(), bold_style(Style::ink(Color::Text).on(background), is_selected));
    r.push(
        memory_text(process.mem_mib).as_str(),
        bold_style(Style::ink(Color::AccentVram).on(background), is_selected),
    );
    push_share(&mut r, process.cpu, background, is_selected);
    assert(r@.cells =~= flat_row(*list, i as int).cells);
    r
}

/// Draws the list.
pub fn render_process_table(screen: &mut Screen, area: Rect, list: &FlatList, now: u64)
    ensures
        final(screen)@ == old(screen)@.push(flat_table(area, *list, now)),
{
    let mut rows: Vec<Row> = Vec::new();
    for i in 0..list.processes.len()
        invariant
            rows@.len() == i,
            forall|k: int| 0 <= k < i ==> (#[trigger] rows@[k])@ == flat_row(*list, k),
    {
        rows.push(draw_row(list, i));
    }
    let mut header = Row::empty(Style::ink(Color::Text).on(Color::HeaderBg).in_bold());
    header.push("PID", Style::plain());
    header.push("Process", Style::plain());
    header.push("Memory", Style::plain());
    header.push("CPU", Style::plain());
    assert(header@.cells =~= flat_header().cells);
    let mut widths: Vec<Constraint> = Vec::new();
    widths.push(Constraint::Length(8));
    widths.push(Constraint::Percentage(55));
    widths.push(Constraint::Length(14));
    widths.push(Constraint::Length(10));
    assert(widths@ =~= flat_widths());
    let title = if list.process_updates_locked(now) {
        Line::raw(" Processes (frozen) ")
    } else {
        Line::raw(" Processes ")
    };
    let table = Table {
        title: title.styled(Style::ink(Color::AccentProc).in_bold()),
        header,
        widths,
        column_spacing: 1,
        rows,
    };
    assert(row_views(table.rows@) =~= flat_table(area, *list, now).widget->table.rows);
    screen.put(area, Widget::Table { table });
}

/// The keys of the menu.
pub open spec fn flat_keys() -> LineView {
    let muted = Style::ink(Color::Muted);
    line(
        seq![
            ink("Enter / k"@, Style::ink(Color::Good).in_bold()),
            ink(" SIGTERM   "@, muted),
            ink("f"@, Style::ink(Color::Warn).in_bold()),
            ink(" SIGKILL   "@, muted),
            ink("Esc"@, Style::ink(Color::AccentProc).in_bold()),
            ink(" cancel"@, muted),
        ],
    )
}

/// The lines of the menu.
pub open spec fn flat_menu_lines(process: ProcessStat, inner: Rect) -> Seq<LineView> {
    let space = less_by(inner.width as int, 2);
    let width = (if space < 1 {
        1
    } else {
        space
    }) as nat;
    seq![
        process_heading(process.pid@, process.name@, width),
        line(Seq::<SpanView>::empty()),
        flat_keys(),
    ]
}

/// The menu on the selected process.
pub open spec fn flat_menu(selection: Option<ProcessStat>, popup: Rect) -> Seq<DrawView> {
    let inner = framed(popup);
    match selection {
        None => Seq::empty(),
        Some(process) => {
            let frame = seq![
                DrawView { area: popup, widget: WidgetView::Clear },
                frame_draw(
                    popup,
                    LineView {
                        style: Style::ink(Color::AccentProc).in_bold(),
                        ..raw_line(" Process Action "@)
                    },
                    Style::paper(Color::RowA),
                ),
            ];
            if inner.height < 3 {
                frame
            } else {
                frame.push(
                    DrawView {
                        area: inner,
                        widget: WidgetView::Paragraph {
                            lines: flat_menu_lines(process, inner),
                            style: Style::plain(),
                        },
                    },
                )
            }
        },
    }
}

fn draw_menu_lines(process: &ProcessStat, inner: Rect) -> (r: Vec<Line>)
    ensures
        line_views(r@) == flat_menu_lines(*process, inner),
{
    let space: usize = inner.width.saturating_sub(2) as usize;
    let width: usize = if space < 1 {
        1
    } else {
        space
    };
    let muted = Style::ink(Color::Muted);
    let mut keys = Line::empty();
    keys.push("Enter / k", Style::ink(Color::Good).in_bold());
    keys.push(" SIGTERM   ", muted);
    keys.push("f", Style::ink(Color::Warn).in_bold());
    keys.push(" SIGKILL   ", muted);
    keys.push("Esc", Style::ink(Color::AccentProc).in_bold());
    keys.push(" cancel", muted);
    assert(keys@.spans =~= flat_keys().spans);
    let mut r: Vec<Line> = Vec::new();
    r.push(process_heading_line(process.pid.as_str(), process.name.as_str(), width));
    r.push(Line::empty());
    r.push(keys);
    assert(line_views(r@) =~= flat_menu_lines(*process, inner));
    r
}

/// Draws the menu on the selected process.
pub fn render_kill_menu(screen: &mut Screen, list: &FlatList, popup: Rect)
    ensures
        final(screen)@ == old(screen)@ + flat_menu(list.selection(), popup),
{
    let ghost before = screen@;
    if let Some(process) = list.selected_process() {
        screen.put(popup, Widget::Clear);
        let title = Line::raw(" Process Action ").styled(Style::ink(Color::AccentProc).in_bold());
        screen.put(popup, Widget::Frame { title, style: Style::paper(Color::RowA) });
        let inner = inside_frame(popup);
        if inner.height >= 3 {
            screen.put(
                inner,
                Widget::Paragraph { lines: draw_menu_lines(process, inner), style: Style::plain() },
            );
        }
    }
    assert(screen@ =~= before + flat_menu(list.selection(), popup));
}

/// The keys.
pub open spec fn flat_footer_keys() -> Seq<SpanView> {
    let key = Style::ink(Color::AccentProc).in_bold();
    let muted = Style::ink(Color::Muted);
    seq![
        ink("↑/↓"@, key),
        ink(" select  |  "@, muted),
        ink("Enter"@, key),
        ink(" actions  |  "@, muted),
        ink("q/Esc"@, key),
        ink(" quit"@, muted),
    ]
}

/// What the footer says beside the keys.
pub open spec fn flat_notices(list: FlatList, freeze_seconds: Reading, now: u64) -> Seq<SpanView> {
    let pause = if list.frozen(now) {
        notice("list frozen "@ + fixed(freeze_seconds, 0, 1) + "s"@, Color::Good)
    } else {
        Seq::empty()
    };
    let menu = if list.kill_menu_open {
        notice("action menu open"@, Color::Warn)
    } else {
        Seq::empty()
    };
    let status = match list.status_message {
        Some(status) => seq![
            ink("  |  "@, Style::ink(Color::Muted)),
            ink("status "@, Style::ink(Color::Muted)),
            ink(
                status.text@,
                Style::ink(
                    if status.is_error {
                        Color::Hot
                    } else {
                        Color::Good
                    },
                ).in_bold(),
            ),
        ],
        None => Seq::empty(),
    };
    pause + menu + status
}

/// The footer.
pub open spec fn flat_footer(area: Rect, list: FlatList, freeze_seconds: Reading, now: u64) -> DrawView {
    line_draw(
        area,
        line(flat_footer_keys() + flat_notices(list, freeze_seconds, now)),
        Style::plain(),
    )
}

/// Draws the footer.
pub fn render_footer(screen: &mut Screen, area: Rect, list: &FlatList, freeze_seconds: Reading, now: u64)
    ensures
        final(screen)@ == old(screen)@.push(flat_footer(area, *list, freeze_seconds, now)),
{
    let key = Style::ink(Color::AccentProc).in_bold();
    let muted = Style::ink(Color::Muted);
    let mut r = Line::empty();
    r.push("↑/↓", key);
    r.push(" select  |  ", muted);
    r.push("Enter", key);
    r.push(" actions  |  ", muted);
    r.push("q/Esc", key);
    r.push(" quit", muted);
    assert(r@.spans =~= flat_footer_keys());
    let frozen = match list.process_freeze_until {
        Some(until) => until > now,
        None => false,
    };
    if frozen {
        let mut text = copy_str("list frozen ");
        append_fixed(&mut text, freeze_seconds, 0, 1);
        text.append("s");
        push_notice(&mut r, text.as_str(), Color::Good);
    }
    if list.kill_menu_open {
        push_notice(&mut r, "action menu open", Color::Warn);
    }
    if let Some(status) = &list.status_message {
        let color = if status.is_error {
            Color::Hot
        } else {
            Color::Good
        };
        r.push("  |  ", muted);
        r.push("status ", muted);
        r.push(status.text.as_str(), Style::ink(color).in_bold());
    }
    assert(r@.spans =~= flat_footer_keys() + flat_notices(*list, freeze_seconds, now));
    screen.put_line(area, r, Style::plain());
}

// ---------------------------------------------------------------------------
// Laws
// ---------------------------------------------------------------------------

proof fn lemma_first_with_pid(processes: Seq<ProcessStat>, pid: Seq<char>, k: int)
    requires
        0 <= k < processes.len(),
        processes[k].pid@ == pid,
    ensures
        0 <= first_with_pid(processes, pid) <= k,
        processes[first_with_pid(processes, pid)].pid@ == pid,
    decreases processes.len(),
{
    if processes[0].pid@ != pid {
        assert(processes.drop_first()[k - 1] == processes[k]);
        lemma_first_with_pid(processes.drop_first(), pid, k - 1);
    }
}

/// Once the selection was moved, it stays on its process for as long as that is listed,
/// wherever in the list it goes.
pub proof fn law_selection_follows_process(list: FlatList, fresh: Vec<ProcessStat>, k: int)
    requires
        list.valid(),
        list.has_user_navigated_processes,
        list.selection() is Some,
        0 <= k < fresh@.len(),
        fresh@[k].pid@ == list.selection()->0.pid@,
    ensures
        ({
            let after = (FlatList { processes: fresh, ..list }).synced();
            after.selection() is Some && after.selection()->0.pid@ == list.selection()->0.pid@
        }),
{
    lemma_first_with_pid(fresh@, list.selection()->0.pid@, k);
    assert(fresh.len() == fresh@.len());
}

/// Until the selection is moved, it stays on the first process.
pub proof fn law_selection_stays_on_top(list: FlatList, fresh: Vec<ProcessStat>)
    requires
        !list.has_user_navigated_processes,
    ensures
        (FlatList { processes: fresh, ..list }).synced().selected_index == 0,
{
}

/// Each row of the table shows the process at its place: its number, its name, its memory and its
/// share. The selected row alone has the background of a selection.
pub proof fn law_row_shows_its_process(area: Rect, list: FlatList, now: u64, i: int)
    requires
        0 <= i < list.processes@.len(),
    ensures
        ({
            let table = flat_table(area, list, now).widget->Table_table;
            let row = table.rows[i];
            let process = list.processes@[i];
            &&& table.rows.len() == list.processes@.len()
            &&& row.cells.len() == 4
            &&& row.cells[0].text == process.pid@
            &&& row.cells[1].text == process.name@
            &&& row.cells[2].text == crate::number::decimal(process.mem_mib as nat) + " MiB"@
            &&& row.cells[3].text == fixed(process.cpu, 0, 1) + "%"@
            &&& row.cells[3].style.fg == usage_style(process.cpu, Color::AccentThread).fg
            &&& forall|c: int|
                0 <= c < 4 ==> ((#[trigger] row.cells[c]).style.bg == Some(Color::RowSelected) <==> i
                    == list.selected_index)
            &&& table.header.cells.len() == 4
            &&& table.header.cells[0].text == "PID"@
            &&& table.header.cells[1].text == "Process"@
            &&& table.header.cells[2].text == "Memory"@
            &&& table.header.cells[3].text == "CPU"@
        }),
{
    let row = flat_table(area, list, now).widget->Table_table.rows[i];
    assert forall|c: int| 0 <= c < 4 implies ((#[trigger] row.cells[c]).style.bg == Some(Color::RowSelected) <==> i
        == list.selected_index) by {
        if c == 0 {
        } else if c == 1 {
        } else if c == 2 {
        } else {
        }
    }
}

/// The title says that the list stands still, while the menu is open or after a movement.
pub proof fn law_title_of_list(area: Rect, list: FlatList, now: u64)
    ensures
        ({
            let title = flat_table(area, list, now).widget->Table_table.title;
            let still = list.kill_menu_open || (list.process_freeze_until is Some && now
                < list.process_freeze_until->0);
            &&& still ==> title.spans == raw_line(" Processes (frozen) "@).spans
            &&& !still ==> title.spans == raw_line(" Processes "@).spans
        }),
{
}

/// A movement leads to the process that is listed so many rows on, as long as there is one, else
/// to the first or the last; the list then stands still for two seconds.
pub proof fn law_movement_leads_to_process(list: FlatList, delta: int, now: u64)
    requires
        list.valid(),
        now + 2_000_000_000 <= u64::MAX,
    ensures
        list.processes@.len() == 0 ==> list.after_move(delta, now) == list,
        list.processes@.len() > 0 ==> {
            let after = list.after_move(delta, now);
            let target = list.selected_index + delta;
            &&& 0 <= target < list.processes@.len() ==> after.selected_index == target
            &&& target < 0 ==> after.selected_index == 0
            &&& target >= list.processes@.len() ==> after.selected_index == list.processes@.len() - 1
            &&& after.processes == list.processes
            &&& after.selected_pid == Some(list.processes@[after.selected_index as int].pid)
            &&& after.has_user_navigated_processes
            &&& after.process_freeze_until == Some((now + 2_000_000_000) as u64)
            &&& after.kill_menu_open == list.kill_menu_open
            &&& after.status_message == list.status_message
        },
{
    assert(list.processes.len() == list.processes@.len());
}

/// Where the selected process is gone, the selection stays at its place, or goes to the last
/// process where there are not so many; without processes there is no selection and no menu.
pub proof fn law_selection_keeps_its_place(list: FlatList)
    ensures
        list.processes@.len() == 0 ==> list.synced().selected_index == 0 && list.synced().selected_pid is None
            && !list.synced().kill_menu_open,
        list.processes@.len() > 0 && list.has_user_navigated_processes && (list.selected_pid is None || forall|i: int|
            0 <= i < list.processes@.len() ==> (#[trigger] list.processes@[i]).pid@ != (list.selected_pid->0)@) ==> {
            &&& list.selected_index < list.processes@.len() ==> list.synced().selected_index == list.selected_index
            &&& list.selected_index >= list.processes@.len() ==> list.synced().selected_index
                == list.processes@.len() - 1
            &&& list.synced().selected_pid == Some(
                list.processes@[list.synced().selected_index as int].pid,
            )
        },
        list.synced().processes == list.processes,
        list.synced().status_message == list.status_message,
{
    assert(list.processes.len() == list.processes@.len());
    if list.selected_pid is Some {
        lemma_no_such_pid(list.processes@, (list.selected_pid->0)@);
    }
}

proof fn lemma_no_such_pid(processes: Seq<ProcessStat>, pid: Seq<char>)
    ensures
        0 <= first_with_pid(processes, pid) <= processes.len(),
        first_with_pid(processes, pid) < processes.len() ==> processes[first_with_pid(processes, pid)].pid@ == pid,
    decreases processes.len(),
{
    if processes.len() > 0 && processes[0].pid@ != pid {
        lemma_no_such_pid(processes.drop_first(), pid);
    }
}

/// No more than 256 processes are listed, and all of them where there are no more.
pub proof fn law_most_that_are_listed(out: Seq<ProcessStat>, rows: Seq<ProcessStat>)
    requires
        are_top(out, rows, LIST_LIMIT as int),
    ensures
        out.len() <= 256,
        rows.len() <= 256 ==> out.len() == rows.len(),
        rows.len() > 256 ==> out.len() == 256,
{
    let all = choose|all: Seq<ProcessStat>|
        {
            &&& #[trigger] crate::order::sorted_from(all, rows)
            &&& out == all.take(if LIST_LIMIT < all.len() {
                LIST_LIMIT as int
            } else {
                all.len() as int
            })
        };
    crate::order::lemma_sorted_keeps_items(all, rows);
}

/// In the menu Enter and `k` send the signal that asks, `f` and `K` the one that kills, and these
/// and Escape close it; all other keys do nothing. Without the menu Escape and `q` end the
/// session, the arrows move the selection by one row and Enter opens the menu, where there is a
/// process to act on.
pub proof fn law_keys(list: FlatList, key: Key, now: u64)
    requires
        list.valid(),
        now + 2_000_000_000 <= u64::MAX,
    ensures
        ({
            let (after, action) = list.key_effect(key, now);
            let menu = list.kill_menu_open;
            &&& menu && (key == Key::Enter || key == Key::Char('k')) <==> action == Action::Send(KillSignal::Term)
            &&& menu && (key == Key::Char('f') || key == Key::Char('K')) <==> action == Action::Send(KillSignal::Kill)
            &&& !menu && (key == Key::Esc || key == Key::Char('q')) <==> action == Action::Quit
            &&& menu && (key == Key::Esc || action is Send) ==> !after.kill_menu_open && after.selected_index
                == list.selected_index
            &&& menu && key == Key::Esc ==> action == Action::Redraw
            &&& !menu && (key == Key::Up || key == Key::Down || key == Key::Enter) ==> action == Action::Redraw
            &&& !menu && key == Key::Down && list.selected_index + 1 < list.processes@.len() ==> after.selected_index
                == list.selected_index + 1
            &&& !menu && key == Key::Down && list.selected_index + 1 >= list.processes@.len()
                ==> after.selected_index == list.selected_index
            &&& !menu && key == Key::Up && list.selected_index > 0 ==> after.selected_index == list.selected_index - 1
            &&& !menu && key == Key::Up && list.selected_index == 0 ==> after.selected_index == 0
            &&& !menu && key == Key::Enter ==> (after.kill_menu_open <==> list.processes@.len() > 0)
            &&& !menu && key != Key::Enter ==> !after.kill_menu_open
            &&& action == Action::Wait || action == Action::Quit ==> after == list
        }),
{
    assert(list.processes.len() == list.processes@.len());
}

/// What has run out is let go of, at its time and not before.
pub proof fn law_nothing_outlasts_its_time(list: FlatList, now: u64)
    ensures
        list.status_message is Some ==> (list.unexpired(now).status_message is Some <==> now < (
        list.status_message->0).expires_at),
        list.process_freeze_until is Some ==> (list.unexpired(now).process_freeze_until is Some <==> now
            < list.process_freeze_until->0),
        list.unexpired(now).status_message is Some ==> list.unexpired(now).status_message == list.status_message,
        list.unexpired(now).process_freeze_until is Some ==> list.unexpired(now).process_freeze_until
            == list.process_freeze_until,
        list.unexpired(now).processes == list.processes,
        list.unexpired(now).selected_index == list.selected_index,
        list.unexpired(now).selected_pid == list.selected_pid,
        list.unexpired(now).kill_menu_open == list.kill_menu_open,
{
}

/// A signal that was sent is reported with the number of the selected process, one that was not
/// with its error.
pub proof fn law_report_of_signal(list: FlatList, reply: Result<(), String>)
    ensures
        list.selection() is None ==> list.kill_report(KillSignal::Term, reply) == (false, "No process selected"@),
        list.selection() is Some && reply is Ok ==> {
            let pid = list.processes@[list.selected_index as int].pid@;
            &&& list.kill_report(KillSignal::Term, reply) == (true, "SIGTERM"@ + " sent to PID "@ + pid)
            &&& list.kill_report(KillSignal::Kill, reply) == (true, "SIGKILL"@ + " sent to PID "@ + pid)
        },
        list.selection() is Some && reply is Err ==> list.kill_report(KillSignal::Term, reply) == (
            false,
            reply->Err_0@,
        ),
{
}

/// The menu names the process that it acts on and the keys that act.
pub proof fn law_menu_names_process(process: ProcessStat, popup: Rect)
    ensures
        flat_menu(None, popup).len() == 0,
        flat_menu(Some(process), popup)[0] == (DrawView { area: popup, widget: WidgetView::Clear }),
        framed(popup).height < 3 ==> flat_menu(Some(process), popup).len() == 2,
        framed(popup).height >= 3 ==> {
            let menu = flat_menu(Some(process), popup);
            let lines = menu[2].widget->Paragraph_lines;
            &&& menu.len() == 3
            &&& menu[2].area == framed(popup)
            &&& lines.len() == 3
            &&& text_at(lines[0], 1) == process.pid@
            &&& process.name@.len() + 2 <= framed(popup).width ==> text_at(lines[0], 4) == process.name@
            &&& text_at(lines[2], 0) == "Enter / k"@ && text_at(lines[2], 1) == " SIGTERM   "@
            &&& text_at(lines[2], 2) == "f"@ && text_at(lines[2], 3) == " SIGKILL   "@
            &&& text_at(lines[2], 4) == "Esc"@ && text_at(lines[2], 5) == " cancel"@
        },
{
}

/// The footer begins with the keys and ends with the message, where there is one, an error in
/// another colour than a success; between them it says for how long the list still stands still
/// and that the menu is open.
pub proof fn law_footer_says(area: Rect, list: FlatList, freeze_seconds: Reading, now: u64)
    ensures
        ({
            let spans = line_in(flat_footer(area, list, freeze_seconds, now));
            let n = spans.spans.len();
            let after_pause = if list.frozen(now) {
                8int
            } else {
                6
            };
            let after_menu = if list.kill_menu_open {
                after_pause + 2
            } else {
                after_pause
            };
            &&& text_at(spans, 0) == "↑/↓"@ && text_at(spans, 1) == " select  |  "@
            &&& text_at(spans, 2) == "Enter"@ && text_at(spans, 3) == " actions  |  "@
            &&& text_at(spans, 4) == "q/Esc"@ && text_at(spans, 5) == " quit"@
            &&& list.frozen(now) ==> text_at(spans, 7) == "list frozen "@ + fixed(freeze_seconds, 0, 1) + "s"@
            &&& list.kill_menu_open ==> text_at(spans, after_pause + 1) == "action menu open"@
            &&& list.status_message is None ==> n == after_menu
            &&& list.status_message is Some ==> {
                &&& n == after_menu + 3
                &&& text_at(spans, n - 1) == (list.status_message->0).text@
                &&& (list.status_message->0).is_error ==> style_at(spans, n - 1).fg == Some(Color::Hot)
                &&& !(list.status_message->0).is_error ==> style_at(spans, n - 1).fg == Some(Color::Good)
            }
        }),
{
    let keys = flat_footer_keys();
    let notices = flat_notices(list, freeze_seconds, now);
    let all = keys + notices;
    assert(line_in(flat_footer(area, list, freeze_seconds, now)).spans == all);
    assert forall|i: int| 0 <= i < 6 implies #[trigger] all[i] == keys[i] by {}
    assert forall|i: int| 0 <= i < notices.len() implies #[trigger] all[6 + i] == notices[i] by {}
    if list.frozen(now) {
        assert(all[6int + 1] == notices[1]);
        if list.kill_menu_open {
            assert(all[6int + 3] == notices[3]);
        }
    } else if list.kill_menu_open {
        assert(all[6int + 1] == notices[1]);
    }
    if list.status_message is Some {
        assert(all[6 + (notices.len() - 1)] == notices[notices.len() - 1]);
    }
}

/// The list is refreshed 800 milliseconds after the last time, or, after a movement, when it no
/// longer stands still: at that time it is not locked any more.
pub proof fn law_refresh_waits_for_movement(list: FlatList, last_process: u64, now: u64)
    ensures
        list.process_freeze_until is None ==> list.next_refresh(last_process, now) == last_process + 800_000_000,
        list.kill_menu_open ==> list.next_refresh(last_process, now) == last_process + 800_000_000 && list.locked(now),
        list.process_freeze_until is Some && now < list.process_freeze_until->0 && !list.kill_menu_open ==> {
            &&& list.locked(now)
            &&& list.next_refresh(last_process, now) == list.process_freeze_until->0
            &&& !list.locked(list.next_refresh(last_process, now) as u64)
        },
        list.process_freeze_until is Some && now >= list.process_freeze_until->0 ==> list.next_refresh(
            last_process,
            now,
        ) == last_process + 800_000_000,
        !list.kill_menu_open && list.process_freeze_until is None ==> !list.locked(now),
{
}

/// The menu opens on the selected process, and the list then stands still for two seconds;
/// without a process nothing happens.
pub proof fn law_menu_opens_on_process(list: FlatList, now: u64)
    requires
        now + 2_000_000_000 <= u64::MAX,
    ensures
        list.selected_index < list.processes@.len() ==> list.opening(now).kill_menu_open && list.opening(
            now,
        ).process_freeze_until == Some((now + 2_000_000_000) as u64) && list.opening(now).selection() == Some(
            list.processes@[list.selected_index as int],
        ),
        list.selected_index >= list.processes@.len() ==> list.opening(now) == list,
{
}

/// The columns of the list have fixed widths but for the name, which takes 55 per cent.
pub proof fn law_columns_of_list(area: Rect, list: FlatList, now: u64)
    ensures
        ({
            let table = flat_table(area, list, now).widget->Table_table;
            &&& table.widths.len() == 4
            &&& table.widths[0] == Constraint::Length(8)
            &&& table.widths[1] == Constraint::Percentage(55)
            &&& table.widths[2] == Constraint::Length(14)
            &&& table.widths[3] == Constraint::Length(10)
            &&& table.column_spacing == 1
        }),
{
}

} // verus!
