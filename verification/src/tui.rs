//! The course of a session: what is due when, and what each key does.

use crate::app::{menu_opened, unexpired, App, ProcessListRow};
use crate::config::{
    CPU_INTERVAL, DRAW_INTERVAL, GPU_INTERVAL, PROCESS_FREEZE_AFTER_NAV, PROCESS_INTERVAL,
    STATUS_MESSAGE_DURATION, STORAGE_INTERVAL,
};
use crate::models::{KillSignal, ProcessGroup};
use crate::number::least;
use vstd::prelude::*;

verus! {

// ---------------------------------------------------------------------------
// What is due
// ---------------------------------------------------------------------------

/// When each part was last done.
#[derive(Debug, Clone, Copy)]
pub struct Schedule {
    pub last_draw: u64,
    pub last_cpu: u64,
    pub last_process: u64,
    pub last_gpu: u64,
    pub last_storage: u64,
}

/// What is to be done.
#[derive(Debug, Clone, Copy, PartialEq, Eq, Structural)]
pub struct Due {
    pub cpu: bool,
    pub processes: bool,
    pub gpu: bool,
    pub storage: bool,
    pub draw: bool,
}

impl Schedule {
    /// Whether nothing was done after `now`.
    pub open spec fn until(self, now: u64) -> bool {
        &&& self.last_draw <= now
        &&& self.last_cpu <= now
        &&& self.last_process <= now
        &&& self.last_gpu <= now
        &&& self.last_storage <= now
    }

    /// What is due: what was last done an interval ago. The processes wait where the list is
    /// not to be refreshed.
    pub open spec fn due_at(self, locked: bool, now: u64) -> Due {
        Due {
            cpu: now - self.last_cpu >= CPU_INTERVAL,
            processes: now - self.last_process >= PROCESS_INTERVAL && !locked,
            gpu: now - self.last_gpu >= GPU_INTERVAL,
            storage: now - self.last_storage >= STORAGE_INTERVAL,
            draw: now - self.last_draw >= DRAW_INTERVAL,
        }
    }

    /// The schedule after `due` was done.
    pub open spec fn after(self, due: Due, now: u64) -> Schedule {
        Schedule {
            last_draw: if due.draw {
                now
            } else {
                self.last_draw
            },
            last_cpu: if due.cpu {
                now
            } else {
                self.last_cpu
            },
            last_process: if due.processes {
                now
            } else {
                self.last_process
            },
            last_gpu: if due.gpu {
                now
            } else {
                self.last_gpu
            },
            last_storage: if due.storage {
                now
            } else {
                self.last_storage
            },
        }
    }

    /// When something is due next. Where the list is not to be refreshed, that is looked at
    /// again after an interval.
    pub open spec fn next_due(self, locked: bool, now: u64) -> int {
        let process_due = if locked {
            now + PROCESS_INTERVAL
        } else {
            self.last_process + PROCESS_INTERVAL
        };
        least(
            least(
                least(
                    least(self.last_draw + DRAW_INTERVAL, self.last_cpu + CPU_INTERVAL),
                    process_due,
                ),
                self.last_gpu + GPU_INTERVAL,
            ),
            self.last_storage + STORAGE_INTERVAL,
        )
    }

    /// The schedule in which everything was last done an interval before `now`.
    pub open spec fn start(now: u64) -> Schedule {
        Schedule {
            last_draw: (now - DRAW_INTERVAL) as u64,
            last_cpu: (now - CPU_INTERVAL) as u64,
            last_process: (now - PROCESS_INTERVAL) as u64,
            last_gpu: (now - GPU_INTERVAL) as u64,
            last_storage: (now - STORAGE_INTERVAL) as u64,
        }
    }

    /// A schedule in which everything is due at `now`.
    pub fn starting(now: u64) -> (r: Schedule)
        requires
            now >= STORAGE_INTERVAL,
        ensures
            r == Schedule::start(now),
            r.until(now),
            r.due_at(false, now) == (Due { cpu: true, processes: true, gpu: true, storage: true, draw: true }),
    {
        Schedule {
            last_draw: now - DRAW_INTERVAL,
            last_cpu: now - CPU_INTERVAL,
            last_process: now - PROCESS_INTERVAL,
            last_gpu: now - GPU_INTERVAL,
            last_storage: now - STORAGE_INTERVAL,
        }
    }

    /// What is due.
    pub fn due(&self, locked: bool, now: u64) -> (r: Due)
        ensures
            r == self.due_at(locked, now),
    {
        Due {
            cpu: now.saturating_sub(self.last_cpu) >= CPU_INTERVAL,
            processes: now.saturating_sub(self.last_process) >= PROCESS_INTERVAL && !locked,
            gpu: now.saturating_sub(self.last_gpu) >= GPU_INTERVAL,
            storage: now.saturating_sub(self.last_storage) >= STORAGE_INTERVAL,
            draw: now.saturating_sub(self.last_draw) >= DRAW_INTERVAL,
        }
    }

    /// Takes down that `due` was done.
    pub fn mark(&mut self, due: Due, now: u64)
        ensures
            *final(self) == old(self).after(due, now),
            old(self).until(now) ==> final(self).until(now),
    {
        if due.draw {
            self.last_draw = now;
        }
        if due.cpu {
            self.last_cpu = now;
        }
        if due.processes {
            self.last_process = now;
        }
        if due.gpu {
            self.last_gpu = now;
        }
        if due.storage {
            self.last_storage = now;
        }
    }

    /// How long to wait for a key, at the time `clock`.
    pub open spec fn wait_at(self, locked: bool, now: u64, clock: u64) -> int {
        if self.next_due(locked, now) < clock {
            0
        } else {
            self.next_due(locked, now) - clock
        }
    }

    /// How long to wait for a key, at the time `clock`.
    pub fn timeout(&self, locked: bool, now: u64, clock: u64) -> (r: u64)
        requires
            self.until(now),
            now + STORAGE_INTERVAL <= u64::MAX,
        ensures
            r == self.wait_at(locked, now, clock),
            r == (if self.next_due(locked, now) < clock {
                0
            } else {
                self.next_due(locked, now) - clock
            }),
    {
        let process_due: u64 = if locked {
            now + PROCESS_INTERVAL
        } else {
            self.last_process + PROCESS_INTERVAL
        };
        let mut next: u64 = self.last_draw + DRAW_INTERVAL;
        if self.last_cpu + CPU_INTERVAL < next {
            next = self.last_cpu + CPU_INTERVAL;
        }
        if process_due < next {
            next = process_due;
        }
        if self.last_gpu + GPU_INTERVAL < next {
            next = self.last_gpu + GPU_INTERVAL;
        }
        if self.last_storage + STORAGE_INTERVAL < next {
            next = self.last_storage + STORAGE_INTERVAL;
        }
        next.saturating_sub(clock)
    }
}

// ---------------------------------------------------------------------------
// Keys
// ---------------------------------------------------------------------------

/// A key that was pressed.
#[derive(Debug, Clone, Copy, PartialEq, Eq, Structural)]
pub enum Key {
    Esc,
    Enter,
    Up,
    Down,
    Left,
    Right,
    Char(char),
    Other,
}

/// What is to be done after a key.
#[derive(Debug, Clone, Copy, PartialEq, Eq, Structural)]
pub enum Action {
    /// Nothing.
    Wait,
    /// Draw the screen at once.
    Redraw,
    /// Send a signal to what the menu acts on.
    Send(KillSignal),
    /// End the session.
    Quit,
}

/// The signal that a key sends from the menu.
pub open spec fn signal_of(key: Key) -> Option<KillSignal> {
    if key == Key::Enter || key == Key::Char('k') {
        Some(KillSignal::Term)
    } else if key == Key::Char('f') || key == Key::Char('K') {
        Some(KillSignal::Kill)
    } else {
        None
    }
}

/// The state with the menu closed.
pub open spec fn menu_closed(app: App) -> App {
    App { kill_menu_open: false, kill_menu_target: None, ..app }
}

/// What a key does while the menu is open: Escape closes it, Right and `o` show the processes
/// of what it acts on.
pub open spec fn menu_key(before: App, after: App, key: Key, action: Action) -> bool {
    if key == Key::Esc {
        action == Action::Redraw && after == menu_closed(before)
    } else if signal_of(key) is Some {
        action == Action::Send(signal_of(key)->0) && after == before
    } else if (key == Key::Right || key == Key::Char('o')) && before.menu_group() is Some {
        &&& action == Action::Redraw
        &&& before.kill_menu_target matches Some(crate::app::KillMenuTarget::App { app, .. })
        &&& after == menu_closed(before.expanding(before.menu_group()->0, app))
    } else {
        action == Action::Wait && after == before
    }
}

/// Whether the selection is on a live application.
pub open spec fn can_expand(app: App) -> bool {
    app.selection() matches Some(ProcessListRow::App { app_index })
        && !app.process_groups@[app_index as int].stale
}

/// What a key does while the menu is closed.
pub open spec fn list_key(before: App, after: App, key: Key, now: u64, action: Action) -> bool {
    match key {
        Key::Esc => action == Action::Quit && after == before,
        Key::Char(c) => if c == 'q' {
            action == Action::Quit && after == before
        } else if c == 'm' {
            action == Action::Redraw && after == (App { combine_smt: !before.combine_smt, ..before })
        } else {
            action == Action::Wait && after == before
        },
        Key::Up => action == Action::Redraw && after == before.after_move(-1, now),
        Key::Down => action == Action::Redraw && after == before.after_move(1, now),
        Key::Right => if can_expand(before) {
            &&& action == Action::Redraw
            &&& before.selection() matches Some(ProcessListRow::App { app_index })
            &&& after == before.expanding(
                app_index as int,
                before.process_groups@[app_index as int].app,
            )
        } else {
            action == Action::Wait && after == before
        },
        Key::Left => match before.expanded_app {
            Some(name) => action == Action::Redraw && after == before.collapsing(name),
            None => action == Action::Wait && after == before,
        },
        Key::Enter => action == Action::Redraw && menu_opened(before, after, now),
        Key::Other => action == Action::Wait && after == before,
    }
}

/// What a key does, once what has run out is gone.
pub open spec fn key_effect(before: App, after: App, key: Key, now: u64, action: Action) -> bool {
    if before.kill_menu_open {
        menu_key(before, after, key, action)
    } else {
        list_key(before, after, key, now, action)
    }
}

fn menu_key_pressed(app: &mut App, key: Key) -> (action: Action)
    requires
        old(app).valid(),
    ensures
        menu_key(*old(app), *final(app), key, action),
        final(app).valid(),
{
    match key {
        Key::Esc => {
            app.close_kill_menu();
            Action::Redraw
        },
        Key::Enter => Action::Send(KillSignal::Term),
        Key::Char(c) => if c == 'k' {
            Action::Send(KillSignal::Term)
        } else if c == 'f' || c == 'K' {
            Action::Send(KillSignal::Kill)
        } else if c == 'o' && app.expand_kill_menu_app_target() {
            app.close_kill_menu();
            Action::Redraw
        } else {
            Action::Wait
        },
        Key::Right => if app.expand_kill_menu_app_target() {
            app.close_kill_menu();
            Action::Redraw
        } else {
            Action::Wait
        },
        _ => Action::Wait,
    }
}

fn list_key_pressed(app: &mut App, key: Key, now: u64) -> (action: Action)
    requires
        old(app).valid(),
        now + PROCESS_FREEZE_AFTER_NAV <= u64::MAX,
        now + STATUS_MESSAGE_DURATION <= u64::MAX,
    ensures
        list_key(*old(app), *final(app), key, now, action),
        final(app).valid(),
{
    match key {
        Key::Esc => Action::Quit,
        Key::Char(c) => if c == 'q' {
            Action::Quit
        } else if c == 'm' {
            app.toggle_combine_smt();
            Action::Redraw
        } else {
            Action::Wait
        },
        Key::Up => {
            app.move_selection(-1, now);
            Action::Redraw
        },
        Key::Down => {
            app.move_selection(1, now);
            Action::Redraw
        },
        Key::Right => if app.expand_selected_app() {
            Action::Redraw
        } else {
            Action::Wait
        },
        Key::Left => if app.collapse_expanded_app() {
            Action::Redraw
        } else {
            Action::Wait
        },
        Key::Enter => {
            app.open_kill_menu(now);
            Action::Redraw
        },
        Key::Other => Action::Wait,
    }
}

// ---------------------------------------------------------------------------
// The session
// ---------------------------------------------------------------------------

/// A session: the state of the monitor and its schedule.
#[derive(Debug)]
pub struct Session {
    pub app: App,
    pub schedule: Schedule,
}

impl Session {
    /// A session that starts at `now`: nothing is measured yet and everything is due.
    pub fn new(now: u64) -> (s: Session)
        requires
            now >= STORAGE_INTERVAL,
        ensures
            s.app.is_new(now),
            s.app.valid(),
            s.schedule == Schedule::start(now),
            s.schedule.until(now),
            s.schedule.due_at(s.app.locked(now), now) == (Due {
                cpu: true,
                processes: true,
                gpu: true,
                storage: true,
                draw: true,
            }),
    {
        Session { app: App::new(now), schedule: Schedule::starting(now) }
    }

    /// Begins a round at `now`: lets go of what has run out, says what is due, and takes down
    /// that it is done.
    pub fn begin(&mut self, now: u64) -> (due: Due)
        ensures
            final(self).app == unexpired(old(self).app, now),
            due == old(self).schedule.due_at(unexpired(old(self).app, now).locked(now), now),
            final(self).schedule == old(self).schedule.after(due, now),
            old(self).app.valid() ==> final(self).app.valid(),
            old(self).schedule.until(now) ==> final(self).schedule.until(now),
    {
        self.app.clear_expired_state(now);
        let due = self.schedule.due(self.app.process_updates_locked(now), now);
        self.schedule.mark(due, now);
        due
    }

    /// How long to wait for a key in the round that began at `now`, at the time `clock`.
    pub fn timeout(&self, now: u64, clock: u64) -> (r: u64)
        requires
            self.schedule.until(now),
            now + STORAGE_INTERVAL <= u64::MAX,
        ensures
            r == (if self.schedule.next_due(self.app.locked(now), now) < clock {
                0
            } else {
                self.schedule.next_due(self.app.locked(now), now) - clock
            }),
    {
        self.schedule.timeout(self.app.process_updates_locked(now), now, clock)
    }

    /// Takes in a key that was pressed at `now`.
    pub fn key(&mut self, key: Key, now: u64) -> (action: Action)
        requires
            old(self).app.valid(),
            now + PROCESS_FREEZE_AFTER_NAV <= u64::MAX,
            now + STATUS_MESSAGE_DURATION <= u64::MAX,
        ensures
            key_effect(unexpired(old(self).app, now), final(self).app, key, now, action),
            final(self).app.valid(),
            final(self).schedule == old(self).schedule,
    {
        self.app.clear_expired_state(now);
        if self.app.kill_menu_open {
            menu_key_pressed(&mut self.app, key)
        } else {
            list_key_pressed(&mut self.app, key, now)
        }
    }

    /// Takes in the replies to a signal that was sent to all that the menu acts on: the menu
    /// closes and a message says how it went. Where it went well, the processes are to be
    /// refreshed.
    pub fn signals_sent(&mut self, signal: KillSignal, replies: &Vec<Result<(), String>>, now: u64) -> (refresh:
        bool)
        requires
            replies@.len() == crate::app::target_pids(old(self).app.kill_menu_target).len(),
            now + STATUS_MESSAGE_DURATION <= u64::MAX,
        ensures
            ({
                let (ok, text) = crate::app::kill_report(old(self).app.kill_menu_target, signal, replies@);
                &&& refresh == ok
                &&& crate::app::says(
                    final(self).app.status_message,
                    text,
                    !ok,
                    now + STATUS_MESSAGE_DURATION,
                )
            }),
            final(self).app == menu_closed(
                (App { status_message: final(self).app.status_message, ..old(self).app }),
            ),
            old(self).app.valid() ==> final(self).app.valid(),
            final(self).schedule == old(self).schedule,
    {
        let result = self.app.send_kill_to_selected(signal, replies);
        self.app.close_kill_menu();
        match result {
            Ok(message) => {
                self.app.set_status(now, message.as_str(), false);
                true
            },
            Err(error) => {
                self.app.set_status(now, error.as_str(), true);
                false
            },
        }
    }

    /// Takes in the groups that were found at `found_at`, out of turn, after a key that was
    /// pressed at `now`.
    pub fn refresh_processes(&mut self, fresh_groups: Vec<ProcessGroup>, found_at: u64, now: u64)
        requires
            old(self).app.valid(),
        ensures
            crate::app::processes_refreshed(old(self).app, final(self).app, fresh_groups@, found_at),
            final(self).app.valid(),
            final(self).schedule == (Schedule { last_process: now, ..old(self).schedule }),
    {
        self.app.refresh_processes(fresh_groups, found_at);
        self.schedule.last_process = now;
    }

    /// Takes down that the screen was drawn at `now`, out of turn.
    pub fn drawn(&mut self, now: u64)
        ensures
            final(self).app == old(self).app,
            final(self).schedule == (Schedule { last_draw: now, ..old(self).schedule }),
    {
        self.schedule.last_draw = now;
    }
}

// ---------------------------------------------------------------------------
// Laws
// ---------------------------------------------------------------------------

/// Nothing becomes due while a session waits for a key: neither a measurement nor the screen,
/// and not the processes either unless their list was not to be refreshed.
pub proof fn law_nothing_due_while_waiting(schedule: Schedule, locked: bool, now: u64, later: u64)
    requires
        schedule.until(now),
        now <= later < schedule.next_due(locked, now),
    ensures
        !schedule.due_at(locked, later).cpu,
        !schedule.due_at(locked, later).gpu,
        !schedule.due_at(locked, later).storage,
        !schedule.due_at(locked, later).draw,
        !schedule.due_at(locked, later).processes,
{
}

/// What was done at `now` is not due again before its interval is over.
pub proof fn law_done_is_not_due(schedule: Schedule, locked: bool, now: u64)
    ensures
        ({
            let due = schedule.due_at(locked, now);
            let again = schedule.after(due, now).due_at(locked, now);
            !again.cpu && !again.gpu && !again.storage && !again.draw && !again.processes
        }),
{
}

/// While the menu is open, the list stands still after a movement or an application shows its
/// processes, the list is not refreshed.
pub proof fn law_locked_list_is_not_refreshed(schedule: Schedule, app: App, now: u64)
    requires
        app.kill_menu_open || app.frozen(now) || app.expanded_app is Some,
    ensures
        !schedule.due_at(app.locked(now), now).processes,
{
}

/// A session ends by a key only while the menu is closed, and a signal is sent only while it
/// is open.
pub proof fn law_menu_guards_keys(before: App, after: App, key: Key, now: u64, action: Action)
    requires
        key_effect(before, after, key, now, action),
    ensures
        action == Action::Quit ==> !before.kill_menu_open,
        action is Send ==> before.kill_menu_open,
{
}

/// A second press of `m` undoes the first.
pub proof fn law_mode_toggles_back(a: App, b: App, c: App, now: u64, first: Action, second: Action)
    requires
        !a.kill_menu_open,
        key_effect(a, b, Key::Char('m'), now, first),
        key_effect(b, c, Key::Char('m'), now, second),
    ensures
        c == a,
{
}

/// The processors, the processes and the graphics card are due 800 milliseconds after they were
/// last measured, the storage after four seconds and the screen after 240 milliseconds, each
/// whatever else is due; only the processes wait while their list is not to be refreshed.
pub proof fn law_due_after_interval(schedule: Schedule, locked: bool, now: u64)
    requires
        schedule.until(now),
    ensures
        schedule.due_at(locked, now).cpu <==> now >= schedule.last_cpu + 800_000_000,
        schedule.due_at(locked, now).gpu <==> now >= schedule.last_gpu + 800_000_000,
        schedule.due_at(locked, now).storage <==> now >= schedule.last_storage + 4_000_000_000,
        schedule.due_at(locked, now).draw <==> now >= schedule.last_draw + 240_000_000,
        schedule.due_at(locked, now).processes <==> now >= schedule.last_process + 800_000_000 && !locked,
{
}

/// What is done at `now` is taken down with that time, and the rest keeps its time.
pub proof fn law_only_done_is_taken_down(schedule: Schedule, due: Due, now: u64)
    ensures
        schedule.after(due, now).last_cpu == (if due.cpu {
            now
        } else {
            schedule.last_cpu
        }),
        schedule.after(due, now).last_process == (if due.processes {
            now
        } else {
            schedule.last_process
        }),
        schedule.after(due, now).last_gpu == (if due.gpu {
            now
        } else {
            schedule.last_gpu
        }),
        schedule.after(due, now).last_storage == (if due.storage {
            now
        } else {
            schedule.last_storage
        }),
        schedule.after(due, now).last_draw == (if due.draw {
            now
        } else {
            schedule.last_draw
        }),
{
}

/// At the time until which a session waits something is due, or the processes are to be looked at
/// again after an interval.
pub proof fn law_something_due_at_end_of_wait(schedule: Schedule, locked: bool, now: u64, later: u64)
    requires
        schedule.until(now),
        now <= later,
        later == schedule.next_due(locked, now),
    ensures
        ({
            let due = schedule.due_at(locked, later);
            due.cpu || due.gpu || due.storage || due.draw || due.processes || (locked && later == now + 800_000_000)
        }),
{
}

/// At the start everything was last done an interval ago.
pub proof fn law_everything_due_at_start(now: u64)
    requires
        now >= 4_000_000_000,
    ensures
        ({
            let due = Schedule::start(now).due_at(false, now);
            due.cpu && due.gpu && due.storage && due.draw && due.processes
        }),
        Schedule::start(now).next_due(false, now) == now,
{
}

/// While the menu is open, Enter and `k` send the signal that asks, `f` and `K` the one that
/// kills, and Escape closes it; no other key sends a signal or ends the session.
pub proof fn law_keys_of_menu(before: App, after: App, key: Key, now: u64, action: Action)
    requires
        before.kill_menu_open,
        key_effect(before, after, key, now, action),
    ensures
        key == Key::Enter || key == Key::Char('k') <==> action == Action::Send(KillSignal::Term),
        key == Key::Char('f') || key == Key::Char('K') <==> action == Action::Send(KillSignal::Kill),
        action is Send ==> after == before,
        key == Key::Esc ==> action == Action::Redraw && !after.kill_menu_open && after.kill_menu_target is None
            && after.selected_row == before.selected_row && after.expanded_app == before.expanded_app,
        key == Key::Up || key == Key::Down || key == Key::Left || key == Key::Other || key == Key::Char('q') || key
            == Key::Char('m') ==> action == Action::Wait && after == before,
        after != before ==> !after.kill_menu_open,
        (key == Key::Right || key == Key::Char('o')) && before.menu_group() is None ==> action == Action::Wait,
        (key == Key::Right || key == Key::Char('o')) && before.menu_group() is Some ==> action == Action::Redraw
            && after.expanded_app is Some,
{
}

/// While the menu is closed, Escape and `q` end the session, `m` changes the mode, the arrows up
/// and down move the selection by one row, the arrow to the right shows the processes of a live
/// application, the one to the left hides them, and Enter opens the menu.
pub proof fn law_keys_of_list(before: App, after: App, key: Key, now: u64, action: Action)
    requires
        !before.kill_menu_open,
        before.valid(),
        before.rows().len() <= usize::MAX,
        key_effect(before, after, key, now, action),
    ensures
        key == Key::Esc || key == Key::Char('q') <==> action == Action::Quit,
        key == Key::Char('m') ==> action == Action::Redraw && after.combine_smt != before.combine_smt
            && after.selected_row == before.selected_row,
        key != Key::Char('m') ==> after.combine_smt == before.combine_smt,
        key == Key::Down && before.selected_row + 1 < before.rows().len() ==> after.selected_row == before.selected_row
            + 1,
        key == Key::Down && before.selected_row + 1 == before.rows().len() ==> after.selected_row
            == before.selected_row,
        key == Key::Up && before.selected_row > 0 ==> after.selected_row == before.selected_row - 1,
        key == Key::Up && before.selected_row == 0 ==> after.selected_row == 0,
        key == Key::Up || key == Key::Down ==> action == Action::Redraw && after.expanded_app == before.expanded_app,
        key == Key::Left ==> after.expanded_app is None && (action == Action::Redraw <==> before.expanded_app is Some),
        key == Key::Right ==> (action == Action::Redraw <==> can_expand(before)),
        key == Key::Right && action == Action::Redraw ==> after.expanded_app is Some,
        key == Key::Enter ==> action == Action::Redraw && menu_opened(before, after, now),
        action == Action::Wait || action == Action::Quit ==> after == before,
        key == Key::Other ==> action == Action::Wait,
        !(action is Send),
{
    if before.rows().len() > 0 {
        assert(before.selected_row < before.rows().len());
    }
}

/// A session waits until something is due next, and not at all where that has passed; it never
/// waits longer than 240 milliseconds after the screen was drawn.
pub proof fn law_wait_ends_when_due(schedule: Schedule, locked: bool, now: u64, clock: u64)
    requires
        schedule.until(now),
    ensures
        ({
            let wait = schedule.wait_at(locked, now, clock);
            let next = schedule.next_due(locked, now);
            &&& wait >= 0
            &&& clock <= next ==> clock + wait == next
            &&& clock > next ==> wait == 0
            &&& next <= schedule.last_draw + 240_000_000
            &&& next <= schedule.last_cpu + 800_000_000
            &&& next <= schedule.last_gpu + 800_000_000
            &&& next <= schedule.last_storage + 4_000_000_000
            &&& !locked ==> next <= schedule.last_process + 800_000_000
        }),
{
}

} // verus!
