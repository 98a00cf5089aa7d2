//! The state of the monitor: what was measured, the process list, its selection and the
//! action menu.

use crate::config::{
    PROCESS_FREEZE_AFTER_NAV, PROCESS_GROUP_DISAPPEAR_GRACE, STATUS_MESSAGE_DURATION,
};
use crate::cpu::{detect_cpu_model, parse_logical_cpu_id, pick_cpu_temp, Sensor};
use crate::models::{GpuStats, KillSignal, ProcessGroup, ProcessStat, StatusMessage, StorageStats};
use crate::number::{append_decimal, least};
use crate::pairs::{detect_cpu_pairs, wide_entries_count};
use crate::processes::{stabilize_process_groups, CachedProcessGroup};
use crate::reading::Reading;
use crate::text::{chars_of, copy_str, same_str, string_of, trimmed};
use std::collections::BTreeMap;
use vstd::prelude::*;
use vstd::std_specs::iter::IteratorSpec;

verus! {

broadcast use {vstd::string::group_string_axioms, vstd::std_specs::btree::group_btree_axioms};

/// One row of the process list.
#[derive(Debug, Clone, Copy, PartialEq, Eq, Structural)]
pub enum ProcessListRow {
    App { app_index: usize },
    Process { app_index: usize, process_index: usize },
}

/// What the action menu acts on.
#[derive(Debug)]
pub enum KillMenuTarget {
    Process { pid: String, name: String },
    App { app: String, pids: Vec<String>, process_count: usize },
}

/// The state of the monitor. Times are nanoseconds on a clock that never goes back.
#[derive(Debug)]
pub struct App {
    pub started_at: u64,
    pub cpu_usage_by_id: BTreeMap<usize, Reading>,
    pub cpu_pairs: Vec<(usize, Option<usize>)>,
    pub cpu_model: String,
    pub cpu_temp_c: Option<Reading>,
    pub cpu_freq_mhz: Option<u64>,
    pub storage: Option<StorageStats>,
    pub process_groups: Vec<ProcessGroup>,
    pub process_group_history: Vec<CachedProcessGroup>,
    pub gpu: Option<GpuStats>,
    pub selected_row: usize,
    pub expanded_app: Option<String>,
    pub process_freeze_until: Option<u64>,
    pub kill_menu_open: bool,
    pub kill_menu_target: Option<KillMenuTarget>,
    pub status_message: Option<StatusMessage>,
    pub combine_smt: bool,
}

impl App {
    // -----------------------------------------------------------------------
    // The rows of the process list
    // -----------------------------------------------------------------------

    /// Whether the group at `i` shows its processes.
    pub open spec fn expands(self, i: int) -> bool {
        self.expanded_app matches Some(name) && name@ == self.process_groups@[i].app@
    }

    /// The rows of the group at `i`: one of its own, then, where it shows them, one for each
    /// of its processes.
    pub open spec fn group_rows(self, i: int) -> Seq<ProcessListRow> {
        let own = ProcessListRow::App { app_index: i as usize };
        let count = if self.expands(i) {
            self.process_groups@[i].processes@.len()
        } else {
            0
        };
        seq![own] + Seq::new(
            count,
            |k: int|
                ProcessListRow::Process { app_index: i as usize, process_index: k as usize },
        )
    }

    /// The rows of the first `n` groups.
    pub open spec fn rows_of_first(self, n: int) -> Seq<ProcessListRow>
        decreases n,
    {
        if n <= 0 {
            Seq::empty()
        } else {
            self.rows_of_first(n - 1) + self.group_rows(n - 1)
        }
    }

    /// The rows of the process list.
    pub open spec fn rows(self) -> Seq<ProcessListRow> {
        self.rows_of_first(self.process_groups@.len() as int)
    }

    /// The row that is selected.
    pub open spec fn selection(self) -> Option<ProcessListRow> {
        if self.selected_row < self.rows().len() {
            Some(self.rows()[self.selected_row as int])
        } else {
            None
        }
    }

    /// Whether a row is selected where there are rows, the first where there are none, the
    /// menu is open only on a target, and no application is remembered twice.
    pub open spec fn valid(self) -> bool {
        &&& self.selected_row < self.rows().len() || (self.rows().len() == 0 && self.selected_row == 0)
        &&& self.kill_menu_open ==> self.kill_menu_target is Some
        &&& crate::processes::remembers_once(self.process_group_history@)
    }

    /// Whether nothing was measured, selected or said since the start at `now`.
    pub open spec fn is_new(self, now: u64) -> bool {
        &&& self.started_at == now
        &&& self.cpu_usage_by_id@ == Map::<usize, Reading>::empty()
        &&& self.cpu_pairs@.len() == 0
        &&& self.cpu_model@.len() == 0
        &&& self.cpu_temp_c is None
        &&& self.cpu_freq_mhz is None
        &&& self.storage is None
        &&& self.process_groups@.len() == 0
        &&& self.process_group_history@.len() == 0
        &&& self.gpu is None
        &&& self.selected_row == 0
        &&& self.expanded_app is None
        &&& self.process_freeze_until is None
        &&& !self.kill_menu_open
        &&& self.kill_menu_target is None
        &&& self.status_message is None
        &&& self.combine_smt
    }

    /// A monitor that has measured nothing yet.
    pub fn new(now: u64) -> (app: App)
        ensures
            app.is_new(now),
            app.valid(),
    {
        App {
            started_at: now,
            cpu_usage_by_id: BTreeMap::new(),
            cpu_pairs: Vec::new(),
            cpu_model: String::new(),
            cpu_temp_c: None,
            cpu_freq_mhz: None,
            storage: None,
            process_groups: Vec::new(),
            process_group_history: Vec::new(),
            gpu: None,
            selected_row: 0,
            expanded_app: None,
            process_freeze_until: None,
            kill_menu_open: false,
            kill_menu_target: None,
            status_message: None,
            combine_smt: true,
        }
    }

    /// Whether the expanded application is called `name`.
    fn expands_name(&self, name: &str) -> (r: bool)
        ensures
            r == (self.expanded_app matches Some(e) && e@ == name@),
    {
        match &self.expanded_app {
            Some(expanded) => same_str(expanded.as_str(), name),
            None => false,
        }
    }

    /// The rows of the process list.
    pub fn visible_process_rows(&self) -> (rows: Vec<ProcessListRow>)
        ensures
            rows@ == self.rows(),
    {
        let mut rows: Vec<ProcessListRow> = Vec::new();
        for app_index in 0..self.process_groups.len()
            invariant
                rows@ == self.rows_of_first(app_index as int),
        {
            let ghost before = rows@;
            rows.push(ProcessListRow::App { app_index });
            let group = &self.process_groups[app_index];
            if self.expands_name(group.app.as_str()) {
                for process_index in 0..group.processes.len()
                    invariant
                        group == self.process_groups@[app_index as int],
                        self.expands(app_index as int),
                        rows@ =~= before + self.group_rows(app_index as int).take(process_index + 1),
                {
                    rows.push(ProcessListRow::Process { app_index, process_index });
                }
            }
            assert(rows@ =~= before + self.group_rows(app_index as int));
        }
        rows
    }

    /// The place of the selected row, moved to the last row where it lies behind it.
    pub fn selected_row_index(&self) -> (r: Option<usize>)
        ensures
            r == (if self.rows().len() == 0 {
                None
            } else {
                Some(least(self.selected_row as int, self.rows().len() - 1) as usize)
            }),
    {
        let row_count = self.visible_process_rows().len();
        if row_count == 0 {
            None
        } else if self.selected_row < row_count - 1 {
            Some(self.selected_row)
        } else {
            Some(row_count - 1)
        }
    }

    /// The row that is selected.
    pub fn selected_row_kind(&self) -> (r: Option<ProcessListRow>)
        ensures
            r == self.selection(),
    {
        let rows = self.visible_process_rows();
        if self.selected_row < rows.len() {
            Some(rows[self.selected_row])
        } else {
            None
        }
    }
}

// ---------------------------------------------------------------------------
// What was measured
// ---------------------------------------------------------------------------

/// What was measured of one processor.
#[derive(Debug)]
pub struct CpuSample {
    pub name: String,
    pub brand: String,
    pub frequency: u64,
    pub usage: Reading,
}

/// The usage of each processor by its number; where two have one number, that of the later.
pub open spec fn usages(cpus: Seq<CpuSample>) -> Map<usize, Reading>
    decreases cpus.len(),
{
    if cpus.len() == 0 {
        Map::empty()
    } else {
        usages(cpus.drop_last()).insert(
            crate::cpu::logical_cpu_id(cpus.last().name@, (cpus.len() - 1) as usize),
            cpus.last().usage,
        )
    }
}

/// Whether `ids` lists every number of `set` once.
pub open spec fn lists_once(ids: Seq<usize>, set: Set<usize>) -> bool {
    ids.no_duplicates() && ids.to_set() == set
}

/// Whether `pairs` are those of the processors in `set`.
pub open spec fn are_pairs_of(
    pairs: Seq<(usize, Option<usize>)>,
    set: Set<usize>,
    siblings: Map<usize, String>,
) -> bool {
    exists|ids: Seq<usize>|
        #[trigger] lists_once(ids, set) && crate::pairs::are_pairs(
            pairs,
            crate::pairs::in_order(ids),
            siblings,
        )
}

/// The usage of each processor by its number.
fn usage_by_id(cpus: &Vec<CpuSample>) -> (map: BTreeMap<usize, Reading>)
    ensures
        map@ == usages(cpus@),
{
    let mut map: BTreeMap<usize, Reading> = BTreeMap::new();
    for idx in 0..cpus.len()
        invariant
            map@ == usages(cpus@.take(idx as int)),
    {
        let id = parse_logical_cpu_id(cpus[idx].name.as_str(), idx);
        map.insert(id, cpus[idx].usage);
        assert(cpus@.take(idx + 1).drop_last() =~= cpus@.take(idx as int));
    }
    assert(cpus@.take(cpus@.len() as int) =~= cpus@);
    map
}

/// The numbers of the processors.
fn numbers_of(map: &BTreeMap<usize, Reading>) -> (ids: Vec<usize>)
    ensures
        lists_once(ids@, map@.dom()),
{
    let mut ids: Vec<usize> = Vec::new();
    let ghost all = map.keys().remaining();
    for id in it: map.keys()
        invariant
            ids@ =~= it.seq().unref().take(it.index()),
            it.seq().unref().to_set() == map@.dom(),
            it.seq().no_duplicates(),
            all == it.seq(),
    {
        ids.push(*id);
    }
    proof {
        assert(ids@ =~= all.unref());
        assert forall|i: int, j: int| 0 <= i < j < ids@.len() implies ids@[i] != ids@[j] by {
            assert(all[i] != all[j]);
        }
    }
    ids
}

/// Whether `after` is `before` with what was measured of the processors.
pub open spec fn cpu_refreshed(
    before: App,
    after: App,
    cpus: Seq<CpuSample>,
    sensors: Seq<Sensor>,
    siblings: Map<usize, String>,
) -> bool {
    &&& after.cpu_model@ == (if before.cpu_model@.len() == 0 {
        crate::cpu::cpu_model(
            if cpus.len() > 0 {
                Some((cpus[0].brand@, cpus[0].name@))
            } else {
                None
            },
        )
    } else {
        before.cpu_model@
    })
    &&& after.cpu_freq_mhz == (if cpus.len() > 0 {
        Some(cpus[0].frequency)
    } else {
        None
    })
    &&& after.cpu_usage_by_id@ == usages(cpus)
    &&& if before.pairs_outdated(cpus) {
        are_pairs_of(after.cpu_pairs@, usages(cpus).dom(), siblings)
    } else {
        after.cpu_pairs == before.cpu_pairs
    }
    &&& crate::cpu::is_cpu_temp(sensors, after.cpu_temp_c)
    &&& after == (App {
        cpu_usage_by_id: after.cpu_usage_by_id,
        cpu_pairs: after.cpu_pairs,
        cpu_model: after.cpu_model,
        cpu_temp_c: after.cpu_temp_c,
        cpu_freq_mhz: after.cpu_freq_mhz,
        ..before
    })
}

/// Whether `after` is `before` with the groups that were found at `now`: what is shown of
/// them, and with it the expansion and the selection.
pub open spec fn processes_refreshed(before: App, after: App, fresh: Seq<ProcessGroup>, now: u64) -> bool {
    &&& crate::processes::is_kept(
        after.process_group_history@,
        before.process_group_history@,
        fresh,
        now,
        PROCESS_GROUP_DISAPPEAR_GRACE,
    )
    &&& crate::processes::lists_shown(
        after.process_groups@,
        before.process_group_history@,
        fresh,
        now,
        PROCESS_GROUP_DISAPPEAR_GRACE,
    )
    &&& after == (App {
        process_groups: after.process_groups,
        process_group_history: after.process_group_history,
        expanded_app: if shows_expanded(after.process_groups@, before.expanded_app) {
            before.expanded_app
        } else {
            None
        },
        ..before
    }).synced()
}

impl App {
    /// Whether the pairs name another number of processors than were measured.
    pub open spec fn pairs_outdated(self, cpus: Seq<CpuSample>) -> bool {
        crate::pairs::entries_count(self.cpu_pairs@) != usages(cpus).len()
    }

    /// Whether the pairs name another number of processors than were measured.
    pub fn cpu_pairs_outdated(&self, cpus: &Vec<CpuSample>) -> (r: bool)
        ensures
            r == self.pairs_outdated(cpus@),
    {
        let map = usage_by_id(cpus);
        wide_entries_count(self.cpu_pairs.as_slice()) != map.len() as u128
    }

    /// Takes in what was measured of the processors. The lists of siblings are looked at
    /// only where the pairs are outdated.
    pub fn refresh_cpu(
        &mut self,
        cpus: &Vec<CpuSample>,
        sensors: &Vec<Sensor>,
        siblings: &BTreeMap<usize, String>,
    )
        ensures
            cpu_refreshed(*old(self), *final(self), cpus@, sensors@, siblings@),
            old(self).valid() ==> final(self).valid(),
    {
        if self.cpu_model.as_str().is_empty() {
            let first = if cpus.len() > 0 {
                Some((cpus[0].brand.as_str(), cpus[0].name.as_str()))
            } else {
                None
            };
            self.cpu_model = detect_cpu_model(first);
        }
        self.cpu_freq_mhz = if cpus.len() > 0 {
            Some(cpus[0].frequency)
        } else {
            None
        };
        self.cpu_usage_by_id = usage_by_id(cpus);
        if wide_entries_count(self.cpu_pairs.as_slice()) != self.cpu_usage_by_id.len() as u128 {
            let ids = numbers_of(&self.cpu_usage_by_id);
            let ghost listed = ids@;
            self.cpu_pairs = detect_cpu_pairs(ids, siblings);
            assert(lists_once(listed, usages(cpus@).dom()));
        }
        self.cpu_temp_c = pick_cpu_temp(sensors);
        proof {
            lemma_same_rows(*old(self), *self, self.process_groups@.len() as int);
        }
    }
}

/// The rows of the first groups are the beginning of the rows of all.
proof fn lemma_rows_of_first(app: App, m: int, n: int)
    requires
        0 <= m <= n,
    ensures
        app.rows_of_first(m).len() <= app.rows_of_first(n).len(),
        forall|k: int|
            0 <= k < app.rows_of_first(m).len() ==> app.rows_of_first(n)[k] == #[trigger] app.rows_of_first(m)[k],
    decreases n - m,
{
    if m < n {
        lemma_rows_of_first(app, m, n - 1);
    }
}

/// Where no group shows its processes, the rows are those of the groups.
proof fn lemma_rows_collapsed(app: App, n: int)
    requires
        app.expanded_app is None,
        0 <= n,
    ensures
        app.rows_of_first(n).len() == n,
    decreases n,
{
    if n > 0 {
        lemma_rows_collapsed(app, n - 1);
    }
}

/// Every row is that of a group, or of a process of a group that shows its processes.
proof fn lemma_rows_exist(app: App, n: int, k: int)
    requires
        0 <= n <= app.process_groups@.len(),
        0 <= k < app.rows_of_first(n).len(),
    ensures
        match app.rows_of_first(n)[k] {
            ProcessListRow::App { app_index } => app_index < n,
            ProcessListRow::Process { app_index, process_index } => app_index < n && process_index
                < app.process_groups@[app_index as int].processes@.len() && app.expands(app_index as int),
        },
    decreases n,
{
    if n > 0 {
        let m = app.rows_of_first(n - 1).len();
        if k < m {
            lemma_rows_exist(app, n - 1, k);
        } else {
            assert(app.process_groups.len() == app.process_groups@.len());
            assert(app.process_groups@[n - 1].processes.len() == app.process_groups@[n - 1].processes@.len());
            assert(app.rows_of_first(n)[k] == app.group_rows(n - 1)[k - m]);
        }
    }
}

/// Every row is that of a group, or of a process of a group that shows its processes.
pub proof fn lemma_row_exists(app: App, k: int)
    requires
        0 <= k < app.rows().len(),
    ensures
        match app.rows()[k] {
            ProcessListRow::App { app_index } => app_index < app.process_groups@.len(),
            ProcessListRow::Process { app_index, process_index } => app_index < app.process_groups@.len()
                && process_index < app.process_groups@[app_index as int].processes@.len() && app.expands(
                app_index as int,
            ),
        },
{
    lemma_rows_exist(app, app.process_groups@.len() as int, k);
}

// ---------------------------------------------------------------------------
// The process list
// ---------------------------------------------------------------------------

/// Whether one of the groups is the expanded one.
pub open spec fn shows_expanded(groups: Seq<ProcessGroup>, expanded: Option<String>) -> bool {
    expanded matches Some(name) && crate::processes::has_group(groups, name@)
}

/// The place of the first group of an application, live ones only where that is asked; the
/// number of groups where there is none.
pub open spec fn first_group(groups: Seq<ProcessGroup>, app: Seq<char>, live: bool) -> int
    decreases groups.len(),
{
    if groups.len() == 0 || (groups[0].app@ == app && !(live && groups[0].stale)) {
        0
    } else {
        1 + first_group(groups.drop_first(), app, live)
    }
}

/// The place of the first group of an application.
fn place_of_group(groups: &Vec<ProcessGroup>, app: &str, live: bool) -> (r: usize)
    ensures
        r == first_group(groups@, app@, live),
        r <= groups@.len(),
        r < groups@.len() ==> groups@[r as int].app@ == app@ && !(live && groups@[r as int].stale),
        forall|j: int| 0 <= j < r ==> (#[trigger] groups@[j]).app@ != app@ || (live && groups@[j].stale),
{
    let mut i: usize = 0;
    assert(groups@.skip(0) =~= groups@);
    while i < groups.len()
        invariant
            i <= groups@.len(),
            first_group(groups@, app@, live) == i + first_group(groups@.skip(i as int), app@, live),
            forall|j: int|
                0 <= j < i ==> (#[trigger] groups@[j]).app@ != app@ || (live && groups@[j].stale),
        decreases groups@.len() - i,
    {
        let group = &groups[i];
        if !(live && group.stale) && same_str(group.app.as_str(), app) {
            return i;
        }
        assert(groups@.skip(i as int).drop_first() =~= groups@.skip(i + 1));
        i = i + 1;
    }
    i
}

impl App {
    /// The state with the selection moved onto the rows. Without rows the menu closes.
    pub open spec fn synced(self) -> App {
        if self.rows().len() == 0 {
            App { selected_row: 0, kill_menu_open: false, kill_menu_target: None, ..self }
        } else {
            App {
                selected_row: least(self.selected_row as int, self.rows().len() - 1) as usize,
                kill_menu_open: self.kill_menu_open && self.kill_menu_target is Some,
                ..self
            }
        }
    }

    fn sync_selection(&mut self)
        ensures
            *final(self) == old(self).synced(),
            crate::processes::remembers_once(old(self).process_group_history@) ==> final(self).valid(),
    {
        let row_count = self.visible_process_rows().len();
        proof {
            lemma_synced(*self);
        }
        if row_count == 0 {
            self.selected_row = 0;
            self.close_kill_menu();
            return;
        }
        if self.selected_row > row_count - 1 {
            self.selected_row = row_count - 1;
        }
        if self.kill_menu_open && self.kill_menu_target.is_none() {
            self.kill_menu_open = false;
        }
    }

    /// Takes in the groups that were found at `now`.
    pub fn refresh_processes(&mut self, fresh_groups: Vec<ProcessGroup>, now: u64)
        requires
            crate::processes::remembers_once(old(self).process_group_history@),
        ensures
            processes_refreshed(*old(self), *final(self), fresh_groups@, now),
            final(self).valid(),
    {
        self.process_groups = stabilize_process_groups(
            &mut self.process_group_history,
            fresh_groups,
            now,
            PROCESS_GROUP_DISAPPEAR_GRACE,
        );
        let gone = match &self.expanded_app {
            Some(name) => place_of_group(&self.process_groups, name.as_str(), false)
                == self.process_groups.len(),
            None => false,
        };
        if gone {
            self.expanded_app = None;
        }
        self.sync_selection();
    }

    /// Takes in what was measured of the graphics card.
    pub fn refresh_gpu(&mut self, gpu: Option<GpuStats>)
        ensures
            *final(self) == (App { gpu, ..*old(self) }),
            old(self).valid() ==> final(self).valid(),
    {
        proof {
            lemma_same_rows(*self, App { gpu, ..*self }, self.process_groups@.len() as int);
        }
        self.gpu = gpu;
    }

    /// Takes in what was measured of the file system.
    pub fn refresh_storage(&mut self, storage: Option<StorageStats>)
        ensures
            *final(self) == (App { storage, ..*old(self) }),
            old(self).valid() ==> final(self).valid(),
    {
        proof {
            lemma_same_rows(*self, App { storage, ..*self }, self.process_groups@.len() as int);
        }
        self.storage = storage;
    }

    /// Takes in all that was measured at `now`.
    pub fn refresh_all(
        &mut self,
        cpus: &Vec<CpuSample>,
        sensors: &Vec<Sensor>,
        siblings: &BTreeMap<usize, String>,
        fresh_groups: Vec<ProcessGroup>,
        gpu: Option<GpuStats>,
        storage: Option<StorageStats>,
        now: u64,
    )
        requires
            crate::processes::remembers_once(old(self).process_group_history@),
        ensures
            exists|a: App, b: App|
                {
                    &&& #[trigger] cpu_refreshed(*old(self), a, cpus@, sensors@, siblings@)
                    &&& #[trigger] processes_refreshed(a, b, fresh_groups@, now)
                    &&& *final(self) == (App { gpu, storage, ..b })
                },
            final(self).valid(),
    {
        self.refresh_cpu(cpus, sensors, siblings);
        let ghost a = *self;
        self.refresh_processes(fresh_groups, now);
        let ghost b = *self;
        self.refresh_gpu(gpu);
        self.refresh_storage(storage);
        assert(cpu_refreshed(*old(self), a, cpus@, sensors@, siblings@) && processes_refreshed(
            a,
            b,
            fresh_groups@,
            now,
        ));
    }

    /// Whether the process list stands still after a movement.
    pub open spec fn frozen(self, now: u64) -> bool {
        self.process_freeze_until matches Some(until) && now < until
    }

    /// Whether the process list is not to be refreshed.
    pub open spec fn locked(self, now: u64) -> bool {
        self.kill_menu_open || self.frozen(now) || self.expanded_app is Some
    }

    /// Whether the process list stands still after a movement.
    pub fn process_updates_frozen(&self, now: u64) -> (r: bool)
        ensures
            r == self.frozen(now),
    {
        match self.process_freeze_until {
            Some(until) => now < until,
            None => false,
        }
    }

    /// Whether the process list is not to be refreshed: the menu is open, the list stands
    /// still after a movement, or an application shows its processes.
    pub fn process_updates_locked(&self, now: u64) -> (r: bool)
        ensures
            r == self.locked(now),
    {
        self.kill_menu_open || self.process_updates_frozen(now) || self.expanded_app.is_some()
    }

    /// For how much longer the process list stands still.
    pub open spec fn freeze_left(self, now: u64) -> Option<u64> {
        if self.frozen(now) {
            Some((self.process_freeze_until->0 - now) as u64)
        } else {
            None
        }
    }

    /// For how much longer the process list stands still.
    pub fn process_freeze_remaining(&self, now: u64) -> (r: Option<u64>)
        ensures
            r == self.freeze_left(now),
            r == (match self.process_freeze_until {
                Some(until) => if until > now {
                    Some((until - now) as u64)
                } else {
                    None
                },
                None => None,
            }),
    {
        match self.process_freeze_until {
            Some(until) => if until > now {
                Some(until - now)
            } else {
                None
            },
            None => None,
        }
    }

    /// The name of the application that shows its processes.
    pub fn expanded_app_name(&self) -> (r: Option<&str>)
        ensures
            match (r, self.expanded_app) {
                (Some(name), Some(expanded)) => name@ == expanded@,
                (None, None) => true,
                _ => false,
            },
    {
        match &self.expanded_app {
            Some(name) => Some(name.as_str()),
            None => None,
        }
    }

    /// Whether the group at `app_index` shows its processes.
    pub fn is_expanded_app_index(&self, app_index: usize) -> (r: bool)
        ensures
            r == (app_index < self.process_groups@.len() && self.expands(app_index as int)),
    {
        if app_index < self.process_groups.len() {
            self.expands_name(self.process_groups[app_index].app.as_str())
        } else {
            false
        }
    }

    /// The group at `app_index`.
    pub fn process_group_at(&self, app_index: usize) -> (r: Option<&ProcessGroup>)
        ensures
            r == (if app_index < self.process_groups@.len() {
                Some(&self.process_groups@[app_index as int])
            } else {
                None
            }),
    {
        if app_index < self.process_groups.len() {
            Some(&self.process_groups[app_index])
        } else {
            None
        }
    }

    /// The process at `process_index` of the group at `app_index`.
    pub fn process_at(&self, app_index: usize, process_index: usize) -> (r: Option<&ProcessStat>)
        ensures
            r == (if app_index < self.process_groups@.len() && process_index
                < self.process_groups@[app_index as int].processes@.len() {
                Some(&self.process_groups@[app_index as int].processes@[process_index as int])
            } else {
                None
            }),
    {
        if app_index < self.process_groups.len() && process_index < self.process_groups[app_index].processes.len() {
            Some(&self.process_groups[app_index].processes[process_index])
        } else {
            None
        }
    }

    /// What the action menu acts on.
    pub fn kill_menu_target(&self) -> (r: Option<&KillMenuTarget>)
        ensures
            r == (match self.kill_menu_target {
                Some(target) => Some(&target),
                None => None,
            }),
    {
        match &self.kill_menu_target {
            Some(target) => Some(target),
            None => None,
        }
    }

    /// Closes the action menu.
    pub fn close_kill_menu(&mut self)
        ensures
            *final(self) == (App { kill_menu_open: false, kill_menu_target: None, ..*old(self) }),
            old(self).valid() ==> final(self).valid(),
    {
        proof {
            lemma_same_rows(
                *self,
                App { kill_menu_open: false, kill_menu_target: None, ..*self },
                self.process_groups@.len() as int,
            );
        }
        self.kill_menu_open = false;
        self.kill_menu_target = None;
    }
}

// ---------------------------------------------------------------------------
// Navigation
// ---------------------------------------------------------------------------

impl App {
    /// The state with the process list standing still from `now` on.
    pub open spec fn freezing(self, now: u64) -> App {
        App { process_freeze_until: Some((now + PROCESS_FREEZE_AFTER_NAV) as u64), ..self }
    }

    fn freeze_process_list(&mut self, now: u64)
        requires
            now + PROCESS_FREEZE_AFTER_NAV <= u64::MAX,
        ensures
            *final(self) == old(self).freezing(now),
    {
        self.process_freeze_until = Some(now + PROCESS_FREEZE_AFTER_NAV);
    }

    /// Where the selection stands after it moved by `delta` rows: upwards not past the first
    /// row, downwards not past the last.
    pub open spec fn moved(self, delta: int) -> int {
        if delta < 0 {
            if self.selected_row + delta < 0 {
                0
            } else {
                self.selected_row + delta
            }
        } else {
            least(self.selected_row + delta, self.rows().len() - 1)
        }
    }

    /// The state after the selection moved by `delta` rows; without rows nothing happens.
    pub open spec fn after_move(self, delta: int, now: u64) -> App {
        if self.rows().len() == 0 {
            self
        } else {
            (App { selected_row: self.moved(delta) as usize, ..self }).freezing(now)
        }
    }

    /// Moves the selection by `delta` rows; without rows nothing happens.
    pub fn move_selection(&mut self, delta: isize, now: u64)
        requires
            now + PROCESS_FREEZE_AFTER_NAV <= u64::MAX,
        ensures
            *final(self) == old(self).after_move(delta as int, now),
            old(self).valid() ==> final(self).valid(),
    {
        let row_count = self.visible_process_rows().len();
        if row_count == 0 {
            return;
        }
        let max_idx: usize = row_count - 1;
        let next: usize = if delta < 0 {
            let back: usize = (-(delta + 1)) as usize + 1;
            self.selected_row.saturating_sub(back)
        } else {
            let forward: usize = self.selected_row.saturating_add(delta as usize);
            if forward < max_idx {
                forward
            } else {
                max_idx
            }
        };
        self.selected_row = next;
        self.freeze_process_list(now);
        proof {
            lemma_same_rows(*old(self), *self, self.process_groups@.len() as int);
        }
    }

    /// The state with the processes of the group at `i` shown, under the name `name`, and the
    /// first of them selected where there is one.
    pub open spec fn expanding(self, i: int, name: String) -> App {
        let open = App { expanded_app: Some(name), ..self };
        (App {
            selected_row: if self.process_groups@[i].processes@.len() > 0 {
                (open.rows_of_first(i).len() + 1) as usize
            } else {
                self.selected_row
            },
            ..open
        }).synced()
    }

    /// The place of the row of a process, where its group shows its processes.
    pub fn row_index_for_child(&self, app_index: usize, process_index: usize) -> (r: Option<usize>)
        ensures
            r == (if app_index < self.process_groups@.len() && self.expands(app_index as int)
                && process_index < self.process_groups@[app_index as int].processes@.len() {
                Some((self.rows_of_first(app_index as int).len() + 1 + process_index) as usize)
            } else {
                None
            }),
            r matches Some(k) ==> k == self.rows_of_first(app_index as int).len() + 1 + process_index && k
                < self.rows().len() && self.rows()[k as int] == (ProcessListRow::Process {
                app_index,
                process_index,
            }),
            forall|k: int|
                0 <= k < self.rows().len() && #[trigger] self.rows()[k] == (ProcessListRow::Process {
                    app_index,
                    process_index,
                }) ==> r == Some(k as usize),
    {
        proof {
            law_process_has_its_row(*self, app_index, process_index);
        }
        let row_count = self.visible_process_rows().len();
        let count = self.process_groups.len();
        if app_index >= count {
            return None;
        }
        let mut row_idx: usize = 0;
        proof {
            lemma_rows_of_first(*self, app_index + 1, count as int);
        }
        for idx in 0..app_index
            invariant
                app_index < count,
                count == self.process_groups@.len(),
                row_count == self.rows().len(),
                row_idx == self.rows_of_first(idx as int).len(),
        {
            proof {
                lemma_rows_of_first(*self, idx + 1, count as int);
            }
            row_idx = row_idx + 1;
            let group = &self.process_groups[idx];
            if self.expands_name(group.app.as_str()) {
                row_idx = row_idx + group.processes.len();
            }
        }
        let group = &self.process_groups[app_index];
        if self.expands_name(group.app.as_str()) && process_index < group.processes.len() {
            let ghost upto = self.rows_of_first(app_index + 1);
            let ghost k = row_idx + 1 + process_index;
            assert(upto[k] == self.group_rows(app_index as int)[1 + process_index]);
            Some(row_idx + 1 + process_index)
        } else {
            None
        }
    }

    /// Shows the processes of the selected application; false, and nothing happens, where no
    /// live application is selected.
    pub fn expand_selected_app(&mut self) -> (r: bool)
        requires
            crate::processes::remembers_once(old(self).process_group_history@),
        ensures
            r == (old(self).selection() matches Some(ProcessListRow::App { app_index })
                && !old(self).process_groups@[app_index as int].stale),
            r ==> (old(self).selection() matches Some(ProcessListRow::App { app_index })
                && *final(self) == old(self).expanding(
                app_index as int,
                old(self).process_groups@[app_index as int].app,
            )),
            r ==> final(self).valid(),
            !r ==> *final(self) == *old(self),
    {
        let app_index = match self.selected_row_kind() {
            Some(ProcessListRow::App { app_index }) => app_index,
            _ => {
                return false;
            },
        };
        proof {
            lemma_rows_exist(*self, self.process_groups@.len() as int, self.selected_row as int);
        }
        if self.process_groups[app_index].stale {
            return false;
        }
        let name = self.process_groups[app_index].app.clone();
        self.expand_group(app_index, name);
        true
    }

    /// Shows the processes of the group at `app_index`, which is called `name`.
    fn expand_group(&mut self, app_index: usize, name: String)
        requires
            app_index < old(self).process_groups@.len(),
            old(self).process_groups@[app_index as int].app@ == name@,
            crate::processes::remembers_once(old(self).process_group_history@),
        ensures
            *final(self) == old(self).expanding(app_index as int, name),
            final(self).valid(),
    {
        self.expanded_app = Some(name);
        match self.row_index_for_child(app_index, 0) {
            Some(first_child_row) => {
                self.selected_row = first_child_row;
            },
            None => {},
        }
        self.sync_selection();
    }

    /// The state after the expanded application stopped showing its processes; its own row
    /// is selected where it is listed.
    pub open spec fn collapsing(self, name: String) -> App {
        let closed = App { expanded_app: None, ..self };
        let i = first_group(self.process_groups@, name@, false);
        (App {
            selected_row: if i < self.process_groups@.len() {
                i as usize
            } else {
                self.selected_row
            },
            ..closed
        }).synced()
    }

    /// Stops showing processes; false, and nothing happens, where none are shown.
    pub fn collapse_expanded_app(&mut self) -> (r: bool)
        requires
            crate::processes::remembers_once(old(self).process_group_history@),
        ensures
            r == (old(self).expanded_app is Some),
            match old(self).expanded_app {
                Some(name) => *final(self) == old(self).collapsing(name) && final(self).valid(),
                None => *final(self) == *old(self),
            },
    {
        let name = match self.expanded_app.take() {
            Some(name) => name,
            None => {
                return false;
            },
        };
        let app_index = place_of_group(&self.process_groups, name.as_str(), false);
        if app_index < self.process_groups.len() {
            self.selected_row = app_index;
        }
        self.sync_selection();
        true
    }
}

// ---------------------------------------------------------------------------
// Messages and the action menu
// ---------------------------------------------------------------------------

/// Whether a message is shown that says `text`.
pub open spec fn says(message: Option<StatusMessage>, text: Seq<char>, is_error: bool, expires_at: int) -> bool {
    message matches Some(m) && m.text@ == text && m.is_error == is_error && m.expires_at == expires_at
}

/// Whether the menu acts on the process.
pub open spec fn acts_on_process(target: Option<KillMenuTarget>, process: ProcessStat) -> bool {
    target matches Some(KillMenuTarget::Process { pid, name }) && pid@ == process.pid@ && name@
        == process.name@
}

/// Whether the menu acts on all processes of the group.
pub open spec fn acts_on_group(target: Option<KillMenuTarget>, group: ProcessGroup) -> bool {
    &&& target matches Some(KillMenuTarget::App { app, pids, process_count })
    &&& app@ == group.app@
    &&& process_count == group.processes@.len()
    &&& pids@.len() == group.processes@.len()
    &&& forall|i: int| 0 <= i < pids@.len() ==> (#[trigger] pids@[i])@ == group.processes@[i].pid@
}

/// Whether `after` is `before` with the menu opened on the selection, or a message why not.
pub open spec fn menu_opened(before: App, after: App, now: u64) -> bool {
    match before.selection() {
        Some(ProcessListRow::Process { app_index, process_index }) => {
            &&& acts_on_process(
                after.kill_menu_target,
                before.process_groups@[app_index as int].processes@[process_index as int],
            )
            &&& after == (App {
                kill_menu_target: after.kill_menu_target,
                kill_menu_open: true,
                ..before
            }).freezing(now)
        },
        Some(ProcessListRow::App { app_index }) => {
            let group = before.process_groups@[app_index as int];
            if group.stale {
                &&& says(
                    after.status_message,
                    "App is no longer active"@,
                    true,
                    now + STATUS_MESSAGE_DURATION,
                )
                &&& after == (App { status_message: after.status_message, ..before })
            } else {
                &&& acts_on_group(after.kill_menu_target, group)
                &&& after == (App {
                    kill_menu_target: after.kill_menu_target,
                    kill_menu_open: true,
                    ..before
                }).freezing(now)
            }
        },
        None => {
            &&& says(
                after.status_message,
                "Nothing selected"@,
                true,
                now + STATUS_MESSAGE_DURATION,
            )
            &&& after == (App { status_message: after.status_message, ..before })
        },
    }
}

/// The state without what has run out.
pub open spec fn unexpired(app: App, now: u64) -> App {
    App {
        process_freeze_until: if app.frozen(now) {
            app.process_freeze_until
        } else {
            None
        },
        status_message: if app.status_message matches Some(m) && now >= m.expires_at {
            None
        } else {
            app.status_message
        },
        ..app
    }
}

/// The numbers of processes, in order.
fn pids_of(processes: &Vec<ProcessStat>) -> (pids: Vec<String>)
    ensures
        pids@.len() == processes@.len(),
        forall|i: int| 0 <= i < pids@.len() ==> (#[trigger] pids@[i])@ == processes@[i].pid@,
{
    let mut pids: Vec<String> = Vec::new();
    for i in 0..processes.len()
        invariant
            pids@.len() == i,
            forall|j: int| 0 <= j < i ==> (#[trigger] pids@[j])@ == processes@[j].pid@,
    {
        pids.push(processes[i].pid.clone());
    }
    pids
}

impl App {
    /// Shows a message for a while.
    pub fn set_status(&mut self, now: u64, message: &str, is_error: bool)
        requires
            now + STATUS_MESSAGE_DURATION <= u64::MAX,
        ensures
            says(final(self).status_message, message@, is_error, now + STATUS_MESSAGE_DURATION),
            *final(self) == (App { status_message: final(self).status_message, ..*old(self) }),
            old(self).valid() ==> final(self).valid(),
    {
        self.status_message =
        Some(
            StatusMessage {
                text: copy_str(message),
                is_error,
                expires_at: now + STATUS_MESSAGE_DURATION,
            },
        );
        proof {
            lemma_same_rows(*old(self), *self, self.process_groups@.len() as int);
        }
    }

    /// Changes between showing the two threads of a pair as one and showing each.
    pub fn toggle_combine_smt(&mut self)
        ensures
            *final(self) == (App { combine_smt: !old(self).combine_smt, ..*old(self) }),
            old(self).valid() ==> final(self).valid(),
    {
        self.combine_smt = !self.combine_smt;
        proof {
            lemma_same_rows(*old(self), *self, self.process_groups@.len() as int);
        }
    }

    /// Lets go of what has run out: the list standing still, and the message.
    pub fn clear_expired_state(&mut self, now: u64)
        ensures
            *final(self) == unexpired(*old(self), now),
            old(self).valid() ==> final(self).valid(),
    {
        let thawed = match self.process_freeze_until {
            Some(until) => now >= until,
            None => false,
        };
        if thawed {
            self.process_freeze_until = None;
        }
        let expired = match &self.status_message {
            Some(status) => now >= status.expires_at,
            None => false,
        };
        if expired {
            self.status_message = None;
        }
        proof {
            lemma_same_rows(*old(self), *self, self.process_groups@.len() as int);
        }
    }

    /// Opens the action menu on the selected process or on all processes of the selected
    /// live application; else a message says why not.
    pub fn open_kill_menu(&mut self, now: u64)
        requires
            now + PROCESS_FREEZE_AFTER_NAV <= u64::MAX,
            now + STATUS_MESSAGE_DURATION <= u64::MAX,
        ensures
            menu_opened(*old(self), *final(self), now),
            old(self).valid() ==> final(self).valid(),
    {
        let selected = self.selected_row_kind();
        proof {
            if selected is Some {
                lemma_rows_exist(*self, self.process_groups@.len() as int, self.selected_row as int);
            }
        }
        match selected {
            Some(ProcessListRow::Process { app_index, process_index }) => {
                let process = &self.process_groups[app_index].processes[process_index];
                let pid = process.pid.clone();
                let name = process.name.clone();
                self.kill_menu_target = Some(KillMenuTarget::Process { pid, name });
                self.kill_menu_open = true;
                self.freeze_process_list(now);
            },
            Some(ProcessListRow::App { app_index }) => {
                let group = &self.process_groups[app_index];
                if group.stale {
                    self.set_status(now, "App is no longer active", true);
                    return;
                }
                let pids = pids_of(&group.processes);
                let app = group.app.clone();
                let process_count = group.processes.len();
                self.kill_menu_target = Some(KillMenuTarget::App { app, pids, process_count });
                self.kill_menu_open = true;
                self.freeze_process_list(now);
            },
            None => {
                self.set_status(now, "Nothing selected", true);
            },
        }
        proof {
            lemma_same_rows(*old(self), *self, self.process_groups@.len() as int);
        }
    }

    /// The place of the live group that the menu acts on; none where the menu does not act on
    /// a group or that is no longer live.
    pub open spec fn menu_group(self) -> Option<int> {
        match self.kill_menu_target {
            Some(KillMenuTarget::App { app, .. }) => {
                let i = first_group(self.process_groups@, app@, true);
                if i < self.process_groups@.len() {
                    Some(i)
                } else {
                    None
                }
            },
            _ => None,
        }
    }

    /// Shows the processes of the application that the menu acts on; false, and nothing
    /// happens, where it acts on none that is live.
    pub fn expand_kill_menu_app_target(&mut self) -> (r: bool)
        requires
            crate::processes::remembers_once(old(self).process_group_history@),
        ensures
            r == (old(self).menu_group() is Some),
            match old(self).menu_group() {
                Some(i) => {
                    &&& old(self).kill_menu_target matches Some(KillMenuTarget::App { app, .. })
                    &&& *final(self) == old(self).expanding(i, app)
                    &&& final(self).valid()
                },
                None => *final(self) == *old(self),
            },
    {
        let name = match &self.kill_menu_target {
            Some(KillMenuTarget::App { app, .. }) => app.clone(),
            _ => {
                return false;
            },
        };
        let app_index = place_of_group(&self.process_groups, name.as_str(), true);
        if app_index == self.process_groups.len() {
            return false;
        }
        self.expand_group(app_index, name);
        true
    }
}

// ---------------------------------------------------------------------------
// Sending signals
// ---------------------------------------------------------------------------

/// What is made of the end of the `kill` command: whether it succeeded, what it wrote to its
/// error output, and how its status reads.
pub open spec fn signal_error(success: bool, stderr: Seq<char>, status: Seq<char>) -> Option<Seq<char>> {
    if success {
        None
    } else if crate::text::trim(stderr).len() == 0 {
        Some("kill failed with status "@ + status)
    } else {
        Some("kill failed: "@ + crate::text::trim(stderr))
    }
}

/// Whether a reply is an error that says `error`, or none where there is none.
pub open spec fn replies(reply: Result<(), String>, error: Option<Seq<char>>) -> bool {
    match (reply, error) {
        (Ok(_), None) => true,
        (Err(e), Some(text)) => e@ == text,
        _ => false,
    }
}

/// What is made of the end of the `kill` command.
pub fn signal_reply(success: bool, stderr: &str, status: &str) -> (r: Result<(), String>)
    ensures
        replies(r, signal_error(success, stderr@, status@)),
{
    if success {
        return Ok(());
    }
    let chars = chars_of(stderr);
    let error_text = string_of(trimmed(chars.as_slice()));
    if error_text.as_str().is_empty() {
        let mut text = copy_str("kill failed with status ");
        text.append(status);
        return Err(text);
    }
    let mut text = copy_str("kill failed: ");
    text.append(error_text.as_str());
    Err(text)
}

/// The number of replies without an error.
pub open spec fn count_ok(replies: Seq<Result<(), String>>) -> nat
    decreases replies.len(),
{
    if replies.len() == 0 {
        0
    } else {
        count_ok(replies.drop_last()) + (if replies.last() is Ok {
            1nat
        } else {
            0
        })
    }
}

/// The place of the first reply that is an error, or the number of replies.
pub open spec fn first_error(replies: Seq<Result<(), String>>) -> int
    decreases replies.len(),
{
    if replies.len() == 0 {
        0
    } else if first_error(replies.drop_last()) < replies.len() - 1 {
        first_error(replies.drop_last())
    } else if replies.last() is Err {
        replies.len() - 1
    } else {
        replies.len() as int
    }
}

proof fn lemma_first_error(replies: Seq<Result<(), String>>)
    ensures
        0 <= first_error(replies) <= replies.len(),
        count_ok(replies) <= replies.len(),
        count_ok(replies) == replies.len() <==> first_error(replies) == replies.len(),
        first_error(replies) < replies.len() ==> replies[first_error(replies)] is Err,
    decreases replies.len(),
{
    if replies.len() > 0 {
        lemma_first_error(replies.drop_last());
    }
}

/// What the menu acts on, as texts.
pub open spec fn target_pids(target: Option<KillMenuTarget>) -> Seq<Seq<char>> {
    match target {
        Some(KillMenuTarget::Process { pid, .. }) => seq![pid@],
        Some(KillMenuTarget::App { pids, .. }) => Seq::new(pids@.len(), |i: int| pids@[i]@),
        None => Seq::empty(),
    }
}

/// What is said after `signal` was sent to each process that the menu acts on and `replies`
/// came back: whether all went well, and the text.
pub open spec fn kill_report(
    target: Option<KillMenuTarget>,
    signal: KillSignal,
    replies: Seq<Result<(), String>>,
) -> (bool, Seq<char>) {
    match target {
        None => (false, "No action target selected"@),
        Some(KillMenuTarget::Process { pid, name }) => match replies[0] {
            Ok(_) => (
                true,
                signal.label_text() + " sent to PID "@ + pid@ + " ("@ + name@ + ")"@,
            ),
            Err(error) => (false, error@),
        },
        Some(KillMenuTarget::App { app, pids, process_count }) => {
            let ok = count_ok(replies);
            let k = first_error(replies);
            let counts = crate::number::decimal(ok) + "/"@ + crate::number::decimal(process_count as nat);
            let detail = "PID "@ + pids@[k]@ + ": "@ + replies[k]->Err_0@;
            if pids@.len() == 0 {
                (false, "App has no processes to signal"@)
            } else if ok == pids@.len() {
                (true, signal.label_text() + " sent to app "@ + app@ + " ("@ + counts + " processes)"@)
            } else if ok > 0 {
                (
                    false,
                    signal.label_text() + " partially sent to app "@ + app@ + " ("@ + counts + "). "@
                        + detail,
                )
            } else {
                (false, "failed to send "@ + signal.label_text() + " to app "@ + app@ + ": "@ + detail)
            }
        },
    }
}

/// The replies without an error, counted, and the place of the first error.
fn count_replies(replies: &Vec<Result<(), String>>) -> (r: (usize, usize))
    ensures
        r.0 == count_ok(replies@),
        r.1 == first_error(replies@),
{
    let mut ok: usize = 0;
    let mut first: Option<usize> = None;
    for i in 0..replies.len()
        invariant
            ok <= i,
            ok == count_ok(replies@.take(i as int)),
            first_error(replies@.take(i as int)) == (match first {
                Some(k) => k as int,
                None => i as int,
            }),
            first matches Some(k) ==> k < i,
    {
        assert(replies@.take(i + 1).drop_last() =~= replies@.take(i as int));
        match &replies[i] {
            Ok(_) => {
                ok = ok + 1;
            },
            Err(_) => {
                if first.is_none() {
                    first = Some(i);
                }
            },
        }
    }
    assert(replies@.take(replies@.len() as int) =~= replies@);
    match first {
        Some(k) => (ok, k),
        None => (ok, replies.len()),
    }
}

/// Appends the first error with the process that it is about.
fn append_detail(text: &mut String, pids: &Vec<String>, replies: &Vec<Result<(), String>>, k: usize)
    requires
        k < pids@.len(),
        k < replies@.len(),
        replies@[k as int] is Err,
    ensures
        final(text)@ == old(text)@ + ("PID "@ + pids@[k as int]@ + ": "@ + replies@[k as int]->Err_0@),
{
    let ghost start = text@;
    text.append("PID ");
    text.append(pids[k].as_str());
    text.append(": ");
    match &replies[k] {
        Ok(_) => {},
        Err(error) => {
            text.append(error.as_str());
        },
    }
    assert(text@ =~= start + ("PID "@ + pids@[k as int]@ + ": "@ + replies@[k as int]->Err_0@));
}

impl App {
    /// The processes that a signal goes to.
    pub fn signal_targets(&self) -> (out: Vec<String>)
        ensures
            out@.len() == target_pids(self.kill_menu_target).len(),
            forall|i: int|
                0 <= i < out@.len() ==> (#[trigger] out@[i])@ == target_pids(self.kill_menu_target)[i],
    {
        let mut out: Vec<String> = Vec::new();
        match &self.kill_menu_target {
            None => {},
            Some(KillMenuTarget::Process { pid, .. }) => {
                out.push(pid.clone());
            },
            Some(KillMenuTarget::App { pids, .. }) => {
                for i in 0..pids.len()
                    invariant
                        out@.len() == i,
                        forall|j: int| 0 <= j < i ==> (#[trigger] out@[j])@ == pids@[j]@,
                {
                    out.push(pids[i].clone());
                }
            },
        }
        out
    }

    /// What is said after `signal` was sent to each process that the menu acts on and
    /// `replies` came back, one for each.
    pub fn send_kill_to_selected(&self, signal: KillSignal, replies: &Vec<Result<(), String>>) -> (r:
        Result<String, String>)
        requires
            replies@.len() == target_pids(self.kill_menu_target).len(),
        ensures
            match r {
                Ok(text) => (true, text@) == kill_report(self.kill_menu_target, signal, replies@),
                Err(text) => (false, text@) == kill_report(self.kill_menu_target, signal, replies@),
            },
    {
        match &self.kill_menu_target {
            None => Err(copy_str("No action target selected")),
            Some(KillMenuTarget::Process { pid, name }) => {
                match &replies[0] {
                    Ok(_) => {
                        let mut text = copy_str(signal.label());
                        text.append(" sent to PID ");
                        text.append(pid.as_str());
                        text.append(" (");
                        text.append(name.as_str());
                        text.append(")");
                        Ok(text)
                    },
                    Err(error) => Err(error.clone()),
                }
            },
            Some(KillMenuTarget::App { app, pids, process_count }) => {
                if pids.len() == 0 {
                    return Err(copy_str("App has no processes to signal"));
                }
                let (ok, k) = count_replies(replies);
                proof {
                    lemma_first_error(replies@);
                }
                if ok > 0 {
                    let mut text = copy_str(signal.label());
                    if ok == pids.len() {
                        text.append(" sent to app ");
                    } else {
                        text.append(" partially sent to app ");
                    }
                    text.append(app.as_str());
                    text.append(" (");
                    let ghost head = text@;
                    append_decimal(&mut text, ok as u128);
                    text.append("/");
                    append_decimal(&mut text, *process_count as u128);
                    assert(text@ =~= head + (crate::number::decimal(ok as nat) + "/"@
                        + crate::number::decimal(*process_count as nat)));
                    if ok == pids.len() {
                        text.append(" processes)");
                        Ok(text)
                    } else {
                        text.append("). ");
                        append_detail(&mut text, pids, replies, k);
                        Err(text)
                    }
                } else {
                    let mut text = copy_str("failed to send ");
                    text.append(signal.label());
                    text.append(" to app ");
                    text.append(app.as_str());
                    text.append(": ");
                    append_detail(&mut text, pids, replies, k);
                    Err(text)
                }
            },
        }
    }
}

/// The rows depend on the groups and on which of them shows its processes, on nothing else.
proof fn lemma_same_rows(a: App, b: App, n: int)
    requires
        a.process_groups@ == b.process_groups@,
        a.expanded_app == b.expanded_app,
    ensures
        a.rows_of_first(n) == b.rows_of_first(n),
    decreases n,
{
    if n > 0 {
        lemma_same_rows(a, b, n - 1);
        assert(a.group_rows(n - 1) =~= b.group_rows(n - 1));
    }
}

/// Moving the selection onto the rows leaves the rows as they are.
proof fn lemma_synced(app: App)
    ensures
        app.synced().rows() == app.rows(),
        app.rows().len() <= usize::MAX + 1 && crate::processes::remembers_once(
            app.process_group_history@,
        ) ==> app.synced().valid(),
{
    lemma_same_rows(app, app.synced(), app.process_groups@.len() as int);
}

// ---------------------------------------------------------------------------
// Laws
// ---------------------------------------------------------------------------

proof fn lemma_first_group(groups: Seq<ProcessGroup>, i: int)
    requires
        crate::processes::groups_differ(groups),
        0 <= i < groups.len(),
    ensures
        first_group(groups, groups[i].app@, false) == i,
    decreases groups.len(),
{
    if i > 0 {
        let rest = groups.drop_first();
        assert(groups[0].app@ != groups[i].app@);
        assert forall|j: int, k: int| 0 <= j < k < rest.len() implies (#[trigger] rest[j]).app@ != (
        #[trigger] rest[k]).app@ by {
            assert(groups[j + 1].app@ != groups[k + 1].app@);
        }
        assert(rest[i - 1] == groups[i]);
        lemma_first_group(rest, i - 1);
    }
}

/// Where no group shows its processes, row `k` is that of group `k`.
proof fn lemma_collapsed_row(app: App, n: int, k: int)
    requires
        app.expanded_app is None,
        0 <= k < n <= app.process_groups@.len(),
    ensures
        app.rows_of_first(n)[k] == (ProcessListRow::App { app_index: k as usize }),
    decreases n,
{
    lemma_rows_collapsed(app, n - 1);
    if k < n - 1 {
        lemma_collapsed_row(app, n - 1, k);
    }
}

/// Showing the processes of the selected application and hiding them again leads back to the
/// same state.
pub proof fn law_collapse_undoes_expand(app: App, i: int)
    requires
        app.valid(),
        app.expanded_app is None,
        crate::processes::groups_differ(app.process_groups@),
        0 <= i < app.process_groups@.len(),
        app.selection() == Some(ProcessListRow::App { app_index: i as usize }),
    ensures
        app.expanding(i, app.process_groups@[i].app).expanded_app == Some(app.process_groups@[i].app),
        app.expanding(i, app.process_groups@[i].app).collapsing(app.process_groups@[i].app) == app,
{
    let n = app.process_groups@.len() as int;
    let name = app.process_groups@[i].app;
    let open = app.expanding(i, name);
    assert(app.process_groups.len() == app.process_groups@.len());
    lemma_rows_collapsed(app, n);
    lemma_collapsed_row(app, n, app.selected_row as int);
    lemma_first_group(app.process_groups@, i);
    let shown = App { expanded_app: Some(name), ..app };
    lemma_rows_of_first(shown, 1, n);
    lemma_rows_of_first(shown, 0, 1);
    assert(shown.rows_of_first(1).len() >= 1) by {
        assert(shown.rows_of_first(1) == shown.rows_of_first(0) + shown.group_rows(0));
    }
    let first = App {
        selected_row: if app.process_groups@[i].processes@.len() > 0 {
            (shown.rows_of_first(i).len() + 1) as usize
        } else {
            app.selected_row
        },
        ..shown
    };
    lemma_same_rows(shown, first, n);
    let back = App { expanded_app: None, selected_row: i as usize, ..open };
    lemma_same_rows(app, back, n);
}

/// The state after movements of the selection, each by a number of rows at a time.
pub open spec fn after_moves(app: App, moves: Seq<(int, u64)>) -> App
    decreases moves.len(),
{
    if moves.len() == 0 {
        app
    } else {
        after_moves(app, moves.drop_last()).after_move(moves.last().0, moves.last().1)
    }
}

/// Whether `after` differs from `before` at most in what a movement changes: where the
/// selection stands and until when the list stands still.
pub open spec fn only_moved(before: App, after: App) -> bool {
    after == (App {
        selected_row: after.selected_row,
        process_freeze_until: after.process_freeze_until,
        ..before
    })
}

/// Movements change where the selection stands and until when the list stands still, and
/// nothing else.
pub proof fn law_movements_only_move(app: App, moves: Seq<(int, u64)>)
    ensures
        only_moved(app, after_moves(app, moves)),
    decreases moves.len(),
{
    if moves.len() > 0 {
        law_movements_only_move(app, moves.drop_last());
    }
}

/// Hiding the processes of an application leads back to the state before they were shown,
/// with its own row selected, wherever the selection moved in between: only the list may stand
/// still for longer.
pub proof fn law_collapse_leads_back(app: App, i: int, moved: App)
    requires
        app.valid(),
        app.expanded_app is None,
        crate::processes::groups_differ(app.process_groups@),
        0 <= i < app.process_groups@.len(),
        app.selection() == Some(ProcessListRow::App { app_index: i as usize }),
        only_moved(app.expanding(i, app.process_groups@[i].app), moved),
    ensures
        moved.expanded_app == Some(app.process_groups@[i].app),
        moved.collapsing(app.process_groups@[i].app) == (App {
            process_freeze_until: moved.process_freeze_until,
            ..app
        }),
        moved.collapsing(app.process_groups@[i].app).selected_row == i,
        moved.collapsing(app.process_groups@[i].app).expanded_app is None,
        moved.collapsing(app.process_groups@[i].app).selection() == Some(
            ProcessListRow::App { app_index: i as usize },
        ),
{
    let name = app.process_groups@[i].app;
    let n = app.process_groups@.len() as int;
    let open = app.expanding(i, name);
    law_collapse_undoes_expand(app, i);
    assert(app.process_groups.len() == app.process_groups@.len());
    lemma_rows_collapsed(app, n);
    lemma_collapsed_row(app, n, app.selected_row as int);
    lemma_first_group(app.process_groups@, i);
    let back = App {
        expanded_app: None,
        selected_row: i as usize,
        process_freeze_until: moved.process_freeze_until,
        ..open
    };
    lemma_same_rows(app, back, n);
    lemma_same_rows(app, moved.collapsing(name), n);
}

/// Showing the processes of the selected application, moving the selection in any way and
/// hiding them again leads back to the row of the application.
pub proof fn law_collapse_after_movements(app: App, i: int, moves: Seq<(int, u64)>)
    requires
        app.valid(),
        app.expanded_app is None,
        crate::processes::groups_differ(app.process_groups@),
        0 <= i < app.process_groups@.len(),
        app.selection() == Some(ProcessListRow::App { app_index: i as usize }),
    ensures
        ({
            let name = app.process_groups@[i].app;
            let moved = after_moves(app.expanding(i, name), moves);
            &&& moved.expanded_app == Some(name)
            &&& moved.collapsing(name) == (App {
                process_freeze_until: moved.process_freeze_until,
                ..app
            })
            &&& moved.collapsing(name).selected_row == i
        }),
{
    let open = app.expanding(i, app.process_groups@[i].app);
    law_movements_only_move(open, moves);
    law_collapse_leads_back(app, i, after_moves(open, moves));
}

/// Once the processors were paired anew, the pairs name as many as were measured, so that they
/// are not outdated, wherever processors that have a sibling in common have all siblings in
/// common.
pub proof fn law_new_pairs_are_current(
    before: App,
    after: App,
    cpus: Seq<CpuSample>,
    sensors: Seq<Sensor>,
    siblings: Map<usize, String>,
)
    requires
        cpu_refreshed(before, after, cpus, sensors, siblings),
        before.pairs_outdated(cpus),
        forall|ids: Seq<usize>| #[trigger]
            lists_once(ids, usages(cpus).dom()) ==> crate::pairs::siblings_agree(
                crate::pairs::sibling_lists(crate::pairs::in_order(ids), siblings),
                crate::pairs::in_order(ids),
            ),
    ensures
        !after.pairs_outdated(cpus),
        forall|x: usize| #[trigger]
            crate::pairs::names(after.cpu_pairs@, x) <==> usages(cpus).contains_key(x),
{
    let set = usages(cpus).dom();
    let ids = choose|ids: Seq<usize>|
        #[trigger] lists_once(ids, set) && crate::pairs::are_pairs(
            after.cpu_pairs@,
            crate::pairs::in_order(ids),
            siblings,
        );
    let sorted = crate::pairs::in_order(ids);
    crate::pairs::lemma_in_order(ids);
    ids.unique_seq_to_set();
    if crate::pairs::topology_known(sorted, siblings) {
        crate::pairs::law_listed_pairs_are_complete(after.cpu_pairs@, sorted, siblings);
        crate::pairs::law_listed_pairs_name_all(after.cpu_pairs@, sorted, siblings);
    } else {
        crate::pairs::law_counted_pairs_are_complete(sorted);
        crate::pairs::law_counted_pairs_name_all(sorted);
    }
    assert forall|x: usize| #[trigger] crate::pairs::names(after.cpu_pairs@, x) <==> usages(
        cpus,
    ).contains_key(x) by {
        assert(ids.to_set().contains(x) <==> ids.contains(x));
    }
}

/// A message is shown until its time has run out, and no longer.
pub proof fn law_message_lasts(app: App, text: Seq<char>, is_error: bool, now: u64, later: u64)
    requires
        says(app.status_message, text, is_error, now + STATUS_MESSAGE_DURATION),
        now <= later,
    ensures
        unexpired(app, later).status_message is Some <==> later - now < STATUS_MESSAGE_DURATION,
        unexpired(app, later).status_message is Some ==> unexpired(app, later).status_message
            == app.status_message,
{
}

/// The menu that was opened on the selection acts on what is selected: on the process, or on
/// all processes of the application, in order.
pub proof fn law_menu_acts_on_selection(before: App, after: App, now: u64)
    requires
        menu_opened(before, after, now),
        after.kill_menu_open,
        !before.kill_menu_open,
    ensures
        match before.selection() {
            Some(ProcessListRow::Process { app_index, process_index }) => target_pids(after.kill_menu_target)
                == seq![before.process_groups@[app_index as int].processes@[process_index as int].pid@],
            Some(ProcessListRow::App { app_index }) => {
                let processes = before.process_groups@[app_index as int].processes@;
                &&& !before.process_groups@[app_index as int].stale
                &&& target_pids(after.kill_menu_target) == Seq::new(
                    processes.len(),
                    |i: int| processes[i].pid@,
                )
            },
            None => false,
        },
{
    match before.selection() {
        Some(ProcessListRow::App { app_index }) => {
            let processes = before.process_groups@[app_index as int].processes@;
            assert(target_pids(after.kill_menu_target) =~= Seq::new(
                processes.len(),
                |i: int| processes[i].pid@,
            ));
        },
        _ => {},
    }
}

/// Every group has a row of its own, which comes before the rows of its processes and after
/// those of the groups before it.
pub proof fn law_group_has_its_row(app: App, i: int)
    requires
        0 <= i < app.process_groups@.len(),
    ensures
        app.rows_of_first(i).len() < app.rows().len(),
        app.rows()[app.rows_of_first(i).len() as int] == (ProcessListRow::App { app_index: i as usize }),
        forall|k: int|
            0 <= k < app.rows_of_first(i).len() ==> app.rows()[k] == #[trigger] app.rows_of_first(i)[k],
{
    let n = app.process_groups@.len() as int;
    lemma_rows_of_first(app, i, n);
    lemma_rows_of_first(app, i + 1, n);
    let upto = app.rows_of_first(i + 1);
    assert(upto == app.rows_of_first(i) + app.group_rows(i));
    assert(upto[app.rows_of_first(i).len() as int] == app.group_rows(i)[0]);
}

/// A row that is that of a process stands behind the row of its group, at the place of the
/// process in the group.
proof fn lemma_row_of_process(app: App, n: int, k: int, app_index: usize, process_index: usize)
    requires
        0 <= n <= app.process_groups@.len(),
        0 <= k < app.rows_of_first(n).len(),
        app.rows_of_first(n)[k] == (ProcessListRow::Process { app_index, process_index }),
    ensures
        app_index < n,
        k == app.rows_of_first(app_index as int).len() + 1 + process_index,
    decreases n,
{
    if n > 0 {
        let m = app.rows_of_first(n - 1).len();
        if k < m {
            lemma_row_of_process(app, n - 1, k, app_index, process_index);
        } else {
            assert(app.process_groups.len() == app.process_groups@.len());
            assert(app.process_groups@[n - 1].processes.len() == app.process_groups@[n - 1].processes@.len());
            assert(app.rows_of_first(n)[k] == app.group_rows(n - 1)[k - m]);
        }
    }
}

/// Every process of a group that shows its processes has one row, behind the row of its group
/// and those of the processes before it; no other process has a row.
pub proof fn law_process_has_its_row(app: App, app_index: usize, process_index: usize)
    ensures
        forall|k: int|
            0 <= k < app.rows().len() ==> (#[trigger] app.rows()[k] == (ProcessListRow::Process {
                app_index,
                process_index,
            }) <==> {
                &&& app_index < app.process_groups@.len()
                &&& app.expands(app_index as int)
                &&& process_index < app.process_groups@[app_index as int].processes@.len()
                &&& k == app.rows_of_first(app_index as int).len() + 1 + process_index
            }),
        app_index < app.process_groups@.len() && app.expands(app_index as int) && process_index
            < app.process_groups@[app_index as int].processes@.len() ==> app.rows_of_first(
            app_index as int,
        ).len() + 1 + process_index < app.rows().len(),
{
    let n = app.process_groups@.len() as int;
    let i = app_index as int;
    if i < n && app.expands(i) && process_index < app.process_groups@[i].processes@.len() {
        lemma_rows_of_first(app, i + 1, n);
        let upto = app.rows_of_first(i + 1);
        let k = app.rows_of_first(i).len() + 1 + process_index;
        assert(upto == app.rows_of_first(i) + app.group_rows(i));
        assert(upto[k] == app.group_rows(i)[1 + process_index]);
    }
    assert forall|k: int|
        0 <= k < app.rows().len() && #[trigger] app.rows()[k] == (ProcessListRow::Process {
            app_index,
            process_index,
        }) implies {
        &&& i < n
        &&& app.expands(i)
        &&& process_index < app.process_groups@[i].processes@.len()
        &&& k == app.rows_of_first(i).len() + 1 + process_index
    } by {
        lemma_rows_exist(app, n, k);
        lemma_row_of_process(app, n, k, app_index, process_index);
    }
}

/// After a movement the process list stands still for its time, and no longer.
pub proof fn law_freeze_lasts(app: App, now: u64, later: u64)
    requires
        now + PROCESS_FREEZE_AFTER_NAV <= u64::MAX,
        now <= later,
    ensures
        app.freezing(now).frozen(later) <==> later - now < PROCESS_FREEZE_AFTER_NAV,
{
}

/// The menu reports success exactly where there was a process to signal and every reply was
/// without an error.
pub proof fn law_report_is_success(
    target: Option<KillMenuTarget>,
    signal: KillSignal,
    replies: Seq<Result<(), String>>,
)
    requires
        replies.len() == target_pids(target).len(),
    ensures
        kill_report(target, signal, replies).0 <==> replies.len() > 0 && forall|i: int|
            0 <= i < replies.len() ==> (#[trigger] replies[i]) is Ok,
{
    lemma_first_error(replies);
    lemma_all_ok(replies);
}

proof fn lemma_all_ok(replies: Seq<Result<(), String>>)
    ensures
        count_ok(replies) == replies.len() <==> forall|i: int|
            0 <= i < replies.len() ==> (#[trigger] replies[i]) is Ok,
    decreases replies.len(),
{
    if replies.len() > 0 {
        let front = replies.drop_last();
        lemma_all_ok(front);
        lemma_first_error(front);
        if forall|i: int| 0 <= i < replies.len() ==> (#[trigger] replies[i]) is Ok {
            assert forall|i: int| 0 <= i < front.len() implies (#[trigger] front[i]) is Ok by {
                assert(replies[i] is Ok);
            }
            assert(replies[replies.len() - 1] is Ok);
        }
        if count_ok(replies) == replies.len() {
            assert forall|i: int| 0 <= i < replies.len() implies (#[trigger] replies[i]) is Ok by {
                if i < front.len() {
                    assert(front[i] is Ok);
                }
            }
        }
    }
}

/// A movement leads to the row that lies so many rows on, as long as there is one, else to the
/// first or the last row; the list then stands still for two seconds. Without rows nothing
/// happens.
pub proof fn law_movement_leads_to_row(app: App, delta: int, now: u64)
    requires
        app.valid(),
        app.rows().len() <= usize::MAX,
        now + 2_000_000_000 <= u64::MAX,
    ensures
        app.rows().len() == 0 ==> app.after_move(delta, now) == app,
        app.rows().len() > 0 ==> {
            let after = app.after_move(delta, now);
            let target = app.selected_row + delta;
            &&& 0 <= target < app.rows().len() ==> after.selected_row == target
            &&& target < 0 ==> after.selected_row == 0
            &&& target >= app.rows().len() ==> after.selected_row == app.rows().len() - 1
            &&& after.process_freeze_until == Some((now + 2_000_000_000) as u64)
            &&& only_moved(app, after)
        },
{
}

/// One row down and one row up lead back, where there is a row below.
pub proof fn law_down_and_up(app: App, now: u64, later: u64)
    requires
        app.valid(),
        app.selected_row + 1 < app.rows().len() <= usize::MAX,
    ensures
        app.after_move(1, now).after_move(-1, later).selected_row == app.selected_row,
        app.after_move(1, now).selected_row == app.selected_row + 1,
{
    lemma_same_rows(app, app.after_move(1, now), app.process_groups@.len() as int);
}

/// Showing the processes of an application selects the first of them, and changes nothing else
/// but which application is shown; where there are none, its own row stays selected.
pub proof fn law_expand_selects_first(app: App, i: int, name: String)
    requires
        app.valid(),
        0 <= i < app.process_groups@.len(),
        name@ == app.process_groups@[i].app@,
        app.rows().len() > 0,
    ensures
        ({
            let after = app.expanding(i, name);
            &&& after.expanded_app == Some(name)
            &&& after.process_groups == app.process_groups
            &&& after == (App { selected_row: after.selected_row, expanded_app: after.expanded_app, ..app })
            &&& app.process_groups@[i].processes@.len() > 0 && (App { expanded_app: Some(name), ..app }).rows().len()
                <= usize::MAX ==> after.selection() == Some(
                ProcessListRow::Process { app_index: i as usize, process_index: 0 },
            )
            &&& app.process_groups@[i].processes@.len() == 0 && app.expanded_app is None ==> after.selected_row
                == app.selected_row
        }),
{
    lemma_row_for_each_group((App { expanded_app: Some(name), ..app }), app.process_groups@.len() as int);
    if app.expanded_app is None {
        lemma_rows_collapsed(app, app.process_groups@.len() as int);
    }
    assert(app.process_groups.len() == app.process_groups@.len());
    let open = App { expanded_app: Some(name), ..app };
    let after = app.expanding(i, name);
    let n = app.process_groups@.len() as int;
    lemma_same_rows(open, after, n);
    law_process_has_its_row(open, i as usize, 0);
    law_group_has_its_row(open, i);
    lemma_synced(
        App {
            selected_row: if app.process_groups@[i].processes@.len() > 0 {
                (open.rows_of_first(i).len() + 1) as usize
            } else {
                app.selected_row
            },
            ..open
        },
    );
    if app.process_groups@[i].processes@.len() > 0 {
        let k = open.rows_of_first(i).len() as int + 1;
        assert(open.rows()[k] == (ProcessListRow::Process { app_index: i as usize, process_index: 0 }));
    }
}

proof fn lemma_row_for_each_group(app: App, n: int)
    requires
        0 <= n,
    ensures
        app.rows_of_first(n).len() >= n,
    decreases n,
{
    if n > 0 {
        lemma_row_for_each_group(app, n - 1);
    }
}

/// After the groups were taken in, a row is selected where there are rows: the same one where it
/// still exists, else the last. The menu stays as it is where there are rows, and closes where
/// there are none.
pub proof fn law_selection_stays_on_rows(app: App)
    ensures
        app.synced().rows().len() == app.rows().len(),
        app.selected_row < app.rows().len() ==> app.synced().selected_row == app.selected_row,
        0 < app.rows().len() <= app.selected_row ==> app.synced().selected_row == app.rows().len() - 1,
        app.rows().len() > 0 ==> app.synced().kill_menu_target == app.kill_menu_target,
        app.rows().len() > 0 && app.kill_menu_target is Some ==> app.synced().kill_menu_open == app.kill_menu_open,
        app.rows().len() == 0 ==> app.synced().selected_row == 0 && !app.synced().kill_menu_open
            && app.synced().kill_menu_target is None,
        app.synced() == (App {
            selected_row: app.synced().selected_row,
            kill_menu_open: app.synced().kill_menu_open,
            kill_menu_target: app.synced().kill_menu_target,
            ..app
        }),
{
    lemma_same_rows(app, app.synced(), app.process_groups@.len() as int);
}

/// Where no group before it shows its processes, the row of a group stands at the place of the
/// group; and a list without any shown processes has as many rows as groups.
pub proof fn law_rows_of_groups(app: App, i: int)
    requires
        0 <= i <= app.process_groups@.len(),
        forall|j: int| 0 <= j < i ==> !app.expands(j),
    ensures
        app.rows_of_first(i).len() == i,
        i == app.process_groups@.len() ==> app.rows().len() == i,
    decreases i,
{
    if i > 0 {
        law_rows_of_groups(app, i - 1);
        assert(!app.expands(i - 1));
    }
}

/// A group that shows its processes has one row more for each of them; another one has only its
/// own.
pub proof fn law_rows_of_group(app: App, i: int)
    requires
        0 <= i < app.process_groups@.len(),
    ensures
        app.expanded_app is Some && (app.expanded_app->0)@ == app.process_groups@[i].app@ ==> app.rows_of_first(
            i + 1,
        ).len() == app.rows_of_first(i).len() + 1 + app.process_groups@[i].processes@.len(),
        app.expanded_app is None || (app.expanded_app->0)@ != app.process_groups@[i].app@ ==> app.rows_of_first(
            i + 1,
        ).len() == app.rows_of_first(i).len() + 1,
{
}

/// The usage of a processor is what the last sample with its number says; numbers without a
/// sample have none.
pub proof fn law_last_sample_counts(cpus: Seq<CpuSample>, i: int, id: usize)
    requires
        -1 <= i < cpus.len(),
        i >= 0 ==> crate::cpu::logical_cpu_id(cpus[i].name@, i as usize) == id,
        forall|j: int|
            i < j < cpus.len() ==> crate::cpu::logical_cpu_id((#[trigger] cpus[j]).name@, j as usize) != id,
    ensures
        i >= 0 ==> usages(cpus).contains_key(id) && usages(cpus)[id] == cpus[i].usage,
        i == -1 ==> !usages(cpus).contains_key(id),
    decreases cpus.len(),
{
    if cpus.len() > 0 && i < cpus.len() - 1 {
        let front = cpus.drop_last();
        let last = cpus.len() - 1;
        assert(crate::cpu::logical_cpu_id(cpus[last].name@, last as usize) != id);
        assert forall|j: int| i < j < front.len() implies crate::cpu::logical_cpu_id(
            (#[trigger] front[j]).name@,
            j as usize,
        ) != id by {
            assert(front[j] == cpus[j]);
        }
        law_last_sample_counts(front, i, id);
    }
}

/// What was measured of the processors is taken over: the frequency of the first, the usage of
/// each, and the model where none was known; the rest stays as it was.
pub proof fn law_measurements_are_taken_over(
    before: App,
    after: App,
    cpus: Seq<CpuSample>,
    sensors: Seq<Sensor>,
    siblings: Map<usize, String>,
)
    requires
        cpu_refreshed(before, after, cpus, sensors, siblings),
    ensures
        cpus.len() > 0 ==> after.cpu_freq_mhz == Some(cpus[0].frequency),
        cpus.len() == 0 ==> after.cpu_freq_mhz is None,
        after.cpu_usage_by_id@ == usages(cpus),
        before.cpu_model@.len() > 0 ==> after.cpu_model@ == before.cpu_model@,
        before.cpu_model@.len() == 0 && cpus.len() > 0 ==> after.cpu_model@ == crate::cpu::cpu_model(
            Some((cpus[0].brand@, cpus[0].name@)),
        ),
        before.cpu_model@.len() == 0 && cpus.len() == 0 ==> after.cpu_model@ == crate::cpu::cpu_model(None),
        crate::pairs::entries_count(before.cpu_pairs@) == usages(cpus).len() ==> after.cpu_pairs == before.cpu_pairs,
        after.process_groups == before.process_groups,
        after.selected_row == before.selected_row,
        after.expanded_app == before.expanded_app,
        after.kill_menu_open == before.kill_menu_open,
        after.status_message == before.status_message,
        after.gpu == before.gpu,
        after.storage == before.storage,
        after.combine_smt == before.combine_smt,
{
}

/// An application goes on showing its processes as long as it is listed, and only so long; it is
/// listed for three seconds after its last process went away.
pub proof fn law_expansion_follows_list(before: App, after: App, fresh: Seq<ProcessGroup>, now: u64, i: int)
    requires
        processes_refreshed(before, after, fresh, now),
    ensures
        before.expanded_app is None ==> after.expanded_app is None,
        before.expanded_app is Some && 0 <= i < after.process_groups@.len() && after.process_groups@[i].app@
            == (before.expanded_app->0)@ ==> after.expanded_app == before.expanded_app,
        before.expanded_app is Some && (forall|j: int|
            0 <= j < after.process_groups@.len() ==> (#[trigger] after.process_groups@[j]).app@ != (
            before.expanded_app->0)@) ==> after.expanded_app is None,
        after.cpu_usage_by_id == before.cpu_usage_by_id,
        after.status_message == before.status_message,
        after.process_freeze_until == before.process_freeze_until,
        crate::processes::lists_shown(
            after.process_groups@,
            before.process_group_history@,
            fresh,
            now,
            3_000_000_000,
        ),
        crate::processes::is_kept(
            after.process_group_history@,
            before.process_group_history@,
            fresh,
            now,
            3_000_000_000,
        ),
{
}

/// The place of a group is that of the first one of its application, of the live ones only where
/// that is asked.
pub proof fn law_first_group_of_app(groups: Seq<ProcessGroup>, app: Seq<char>, live: bool, i: int)
    requires
        0 <= i <= groups.len(),
        forall|j: int| 0 <= j < i ==> (#[trigger] groups[j]).app@ != app || (live && groups[j].stale),
    ensures
        i < groups.len() && groups[i].app@ == app && !(live && groups[i].stale) ==> first_group(groups, app, live) == i,
        i == groups.len() ==> first_group(groups, app, live) == i,
    decreases groups.len(),
{
    if i > 0 {
        assert(groups[0].app@ != app || (live && groups[0].stale));
        let rest = groups.drop_first();
        assert forall|j: int| 0 <= j < i - 1 implies (#[trigger] rest[j]).app@ != app || (live && rest[j].stale) by {
            assert(rest[j] == groups[j + 1]);
        }
        law_first_group_of_app(rest, app, live, i - 1);
    }
}

/// The replies without an error add up, and the first error is the first.
pub proof fn law_replies_are_counted(replies: Seq<Result<(), String>>, reply: Result<(), String>)
    ensures
        count_ok(Seq::<Result<(), String>>::empty()) == 0,
        reply is Ok ==> count_ok(replies.push(reply)) == count_ok(replies) + 1,
        reply is Err ==> count_ok(replies.push(reply)) == count_ok(replies),
        0 <= first_error(replies) <= replies.len(),
        forall|i: int| 0 <= i < first_error(replies) ==> (#[trigger] replies[i]) is Ok,
        first_error(replies) < replies.len() ==> replies[first_error(replies)] is Err,
    decreases replies.len(),
{
    assert(replies.push(reply).drop_last() =~= replies);
    lemma_first_error(replies);
    if replies.len() > 0 {
        let front = replies.drop_last();
        law_replies_are_counted(front, reply);
        lemma_first_error(front);
        assert forall|i: int| 0 <= i < first_error(replies) implies (#[trigger] replies[i]) is Ok by {
            if i < first_error(front) {
                assert(front[i] is Ok);
            }
        }
    }
}

/// What is said after a signal was sent to one process: its name and number, or its error.
pub proof fn law_report_of_process(pid: String, name: String, replies: Seq<Result<(), String>>)
    requires
        replies.len() == 1,
    ensures
        ({
            let target = Some(KillMenuTarget::Process { pid, name });
            let whom = " sent to PID "@ + pid@ + " ("@ + name@ + ")"@;
            &&& replies[0] is Ok ==> kill_report(target, KillSignal::Term, replies).1 == "SIGTERM"@ + whom
            &&& replies[0] is Ok ==> kill_report(target, KillSignal::Kill, replies).1 == "SIGKILL"@ + whom
            &&& replies[0] is Err ==> kill_report(target, KillSignal::Term, replies) == (false, replies[0]->Err_0@)
            &&& replies[0] is Err ==> kill_report(target, KillSignal::Kill, replies) == (false, replies[0]->Err_0@)
        }),
        kill_report(None, KillSignal::Term, replies) == (false, "No action target selected"@),
{
    let tail = " sent to PID "@ + pid@ + " ("@ + name@ + ")"@;
    assert("SIGTERM"@ + " sent to PID "@ + pid@ + " ("@ + name@ + ")"@ =~= "SIGTERM"@ + tail);
    assert("SIGKILL"@ + " sent to PID "@ + pid@ + " ("@ + name@ + ")"@ =~= "SIGKILL"@ + tail);
}

/// What is said after a signal was sent to all processes of an application: how many replies were
/// without an error, of how many, and else the first error, with the process that it is about.
pub proof fn law_report_of_app(
    app: String,
    pids: Vec<String>,
    process_count: usize,
    signal: KillSignal,
    replies: Seq<Result<(), String>>,
    k: int,
)
    requires
        replies.len() == pids@.len(),
        replies.len() > 0,
    ensures
        ({
            let target = Some(KillMenuTarget::App { app, pids, process_count });
            let report = kill_report(target, signal, replies);
            let good = crate::number::decimal(count_ok(replies));
            let all = crate::number::decimal(process_count as nat);
            let about = "PID "@ + pids@[k]@ + ": "@ + replies[k]->Err_0@;
            let first = 0 <= k < replies.len() && replies[k] is Err && forall|j: int|
                0 <= j < k ==> (#[trigger] replies[j]) is Ok;
            &&& count_ok(replies) == replies.len() ==> report == (
                true,
                signal.label_text() + " sent to app "@ + app@ + " ("@ + (good + "/"@ + all) + " processes)"@,
            )
            &&& first && count_ok(replies) > 0 ==> report == (
                false,
                signal.label_text() + " partially sent to app "@ + app@ + " ("@ + (good + "/"@ + all) + "). "@ + about,
            )
            &&& first && count_ok(replies) == 0 ==> report == (
                false,
                "failed to send "@ + signal.label_text() + " to app "@ + app@ + ": "@ + about,
            )
        }),
{
    lemma_first_error(replies);
    lemma_all_ok(replies);
    if replies.len() > 0 {
        law_replies_are_counted(replies, replies[0]);
    }
    if 0 <= k < replies.len() && replies[k] is Err && forall|j: int| 0 <= j < k ==> (#[trigger] replies[j]) is Ok {
        let f = first_error(replies);
        if f < k {
            assert(replies[f] is Ok);
        }
        if k < f {
            assert(replies[k] is Ok);
        }
    }
}

/// An application without processes cannot be signalled.
pub proof fn law_report_of_empty_app(app: String, pids: Vec<String>, process_count: usize, signal: KillSignal)
    requires
        pids@.len() == 0,
    ensures
        kill_report(Some(KillMenuTarget::App { app, pids, process_count }), signal, Seq::empty()) == (
            false,
            "App has no processes to signal"@,
        ),
{
}

/// A command that succeeded gives no error; one that failed gives what it wrote, without the
/// white space around it, or its status where it wrote nothing.
pub proof fn law_error_of_command(stderr: Seq<char>, status: Seq<char>)
    ensures
        signal_error(true, stderr, status) is None,
        crate::text::trim(stderr).len() > 0 ==> signal_error(false, stderr, status) == Some(
            "kill failed: "@ + crate::text::trim(stderr),
        ),
        crate::text::trim(stderr).len() == 0 ==> signal_error(false, stderr, status) == Some(
            "kill failed with status "@ + status,
        ),
{
}

/// The menu opens on the selected process or live application, and the list then stands still; on
/// an application that is gone, or without a selection, a message says why it does not open.
pub proof fn law_menu_opens_on_selection(before: App, after: App, now: u64)
    requires
        menu_opened(before, after, now),
        !before.kill_menu_open,
        now + 3_000_000_000 <= u64::MAX,
    ensures
        match before.selection() {
            Some(ProcessListRow::Process { .. }) => after.kill_menu_open,
            Some(ProcessListRow::App { app_index }) => after.kill_menu_open
                <==> !before.process_groups@[app_index as int].stale,
            None => !after.kill_menu_open,
        },
        after.kill_menu_open ==> after.process_freeze_until == Some((now + 2_000_000_000) as u64) && after.status_message
            == before.status_message,
        !after.kill_menu_open ==> after.status_message is Some && (after.status_message->0).is_error && (
        after.status_message->0).expires_at == now + 3_000_000_000 && after.process_freeze_until
            == before.process_freeze_until,
        before.selection() is None ==> (after.status_message->0).text@ == "Nothing selected"@,
        before.selection() is Some && !after.kill_menu_open ==> (after.status_message->0).text@
            == "App is no longer active"@,
        after.selected_row == before.selected_row,
        after.process_groups == before.process_groups,
        after.expanded_app == before.expanded_app,
        after.kill_menu_open ==> match (before.selection(), after.kill_menu_target) {
            (
                Some(ProcessListRow::Process { app_index, process_index }),
                Some(KillMenuTarget::Process { pid, name }),
            ) => {
                let process = before.process_groups@[app_index as int].processes@[process_index as int];
                pid@ == process.pid@ && name@ == process.name@
            },
            (Some(ProcessListRow::App { app_index }), Some(KillMenuTarget::App { app, process_count, .. })) => {
                let group = before.process_groups@[app_index as int];
                app@ == group.app@ && process_count == group.processes@.len()
            },
            _ => false,
        },
{
}

/// What is left of the time for which the list stands still ends with that time, and nothing is
/// left where it does not stand still.
pub proof fn law_freeze_runs_out(app: App, now: u64)
    requires
        now + 2_000_000_000 <= u64::MAX,
    ensures
        app.freezing(now).freeze_left(now) == Some(2_000_000_000u64),
        app.freeze_left(now) is Some <==> app.frozen(now),
        app.freeze_left(now) is Some ==> now + app.freeze_left(now)->0 == app.process_freeze_until->0,
        app.process_freeze_until is None ==> !app.frozen(now),
{
}

/// The list is refreshed unless the menu is open, it stands still after a movement or an
/// application shows its processes.
pub proof fn law_list_is_locked(app: App, now: u64)
    ensures
        app.locked(now) <==> app.kill_menu_open || app.expanded_app is Some || (app.process_freeze_until is Some && now
            < app.process_freeze_until->0),
{
}

/// A new monitor has measured nothing, lists nothing, selects the first row, combines pairs, says
/// nothing, and its list may be refreshed at once.
pub proof fn law_new_monitor(app: App, now: u64)
    requires
        app.is_new(now),
    ensures
        app.started_at == now,
        app.rows().len() == 0,
        app.selected_row == 0,
        app.selection() is None,
        app.combine_smt,
        !app.locked(now),
        !app.kill_menu_open,
        app.status_message is None,
        app.gpu is None,
        app.storage is None,
        app.cpu_pairs@.len() == 0,
        app.cpu_usage_by_id@.len() == 0,
        app.cpu_model@.len() == 0,
{
}

/// What the menu acts on is found again among the live groups by its name; a process is not.
pub proof fn law_menu_finds_group(app: App, i: int)
    ensures
        app.kill_menu_target is None ==> app.menu_group() is None,
        app.kill_menu_target matches Some(KillMenuTarget::Process { .. }) ==> app.menu_group() is None,
        app.kill_menu_target matches Some(KillMenuTarget::App { app: name, .. }) && 0 <= i < app.process_groups@.len()
            && app.process_groups@[i].app@ == name@ && !app.process_groups@[i].stale && (forall|j: int|
            0 <= j < i ==> (#[trigger] app.process_groups@[j]).app@ != name@ || app.process_groups@[j].stale)
            ==> app.menu_group() == Some(i),
        app.kill_menu_target matches Some(KillMenuTarget::App { app: name, .. }) && (forall|j: int|
            0 <= j < app.process_groups@.len() ==> (#[trigger] app.process_groups@[j]).app@ != name@
                || app.process_groups@[j].stale) ==> app.menu_group() is None,
{
    if let Some(KillMenuTarget::App { app: name, .. }) = app.kill_menu_target {
        let groups = app.process_groups@;
        if 0 <= i < groups.len() && forall|j: int|
            0 <= j < i ==> (#[trigger] groups[j]).app@ != name@ || groups[j].stale {
            law_first_group_of_app(groups, name@, true, i);
        }
        if forall|j: int| 0 <= j < groups.len() ==> (#[trigger] groups[j]).app@ != name@ || groups[j].stale {
            law_first_group_of_app(groups, name@, true, groups.len() as int);
        }
    }
}

/// What has run out is let go of, at its time and not before; all else stays as it was.
pub proof fn law_nothing_outlasts_its_time(app: App, now: u64)
    ensures
        app.status_message is Some ==> (unexpired(app, now).status_message is Some <==> now < (
        app.status_message->0).expires_at),
        app.process_freeze_until is Some ==> (unexpired(app, now).process_freeze_until is Some <==> now
            < app.process_freeze_until->0),
        unexpired(app, now).status_message is Some ==> unexpired(app, now).status_message == app.status_message,
        unexpired(app, now).process_freeze_until is Some ==> unexpired(app, now).process_freeze_until
            == app.process_freeze_until,
        unexpired(app, now).locked(now) == app.locked(now),
        app == (App {
            status_message: app.status_message,
            process_freeze_until: app.process_freeze_until,
            ..unexpired(app, now)
        }),
{
}

} // verus!
