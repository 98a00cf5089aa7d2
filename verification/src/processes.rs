//! Processes: the busiest first, grouped by application, and kept in view for a while after
//! they went away.

use crate::models::{
    law_busier_group_first, law_busier_process_first, GroupView, ProcessGroup, ProcessStat,
};
use crate::order::{
    all_orderly, arranges, in_stable_order, is_arrangement, leads, lemma_arrangement_covers,
    lemma_sorted_keeps_items, sorted_from, stable_sort, Ranked,
};
use crate::reading::Reading;
use crate::text::{lemma_text_less, same_str};
use vstd::prelude::*;

verus! {

// ---------------------------------------------------------------------------
// The busiest processes
// ---------------------------------------------------------------------------

/// `out` is the first `limit` of `rows` put in order.
pub open spec fn are_top(out: Seq<ProcessStat>, rows: Seq<ProcessStat>, limit: int) -> bool {
    exists|all: Seq<ProcessStat>|
        {
            &&& #[trigger] sorted_from(all, rows)
            &&& out == all.take(if limit < all.len() {
                limit
            } else {
                all.len() as int
            })
        }
}

/// A process or a thread as it was measured; its share may lie outside 0 to 100.
#[derive(Debug)]
pub struct Measured {
    pub is_thread: bool,
    pub row: ProcessStat,
}

/// A process with its share from 0 to 100.
pub open spec fn with_share(row: ProcessStat) -> ProcessStat {
    ProcessStat { cpu: row.cpu.to_percent(), ..row }
}

/// The processes with their shares from 0 to 100, without the threads.
pub open spec fn leader_rows(list: Seq<Measured>) -> Seq<ProcessStat>
    decreases list.len(),
{
    if list.len() == 0 {
        Seq::empty()
    } else if list.last().is_thread {
        leader_rows(list.drop_last())
    } else {
        leader_rows(list.drop_last()).push(with_share(list.last().row))
    }
}

/// The processes with their shares from 0 to 100.
pub open spec fn share_rows(rows: Seq<ProcessStat>) -> Seq<ProcessStat> {
    Seq::new(rows.len(), |i: int| with_share(rows[i]))
}

/// The processes with their shares from 0 to 100, without the threads.
pub fn leaders(list: &Vec<Measured>) -> (rows: Vec<ProcessStat>)
    ensures
        rows@ == leader_rows(list@),
{
    let mut rows: Vec<ProcessStat> = Vec::new();
    for i in 0..list.len()
        invariant
            rows@ == leader_rows(list@.take(i as int)),
    {
        assert(list@.take(i + 1).drop_last() =~= list@.take(i as int));
        if !list[i].is_thread {
            let mut row = list[i].row.clone();
            row.cpu = row.cpu.clamped();
            rows.push(row);
        }
    }
    assert(list@.take(list@.len() as int) =~= list@);
    rows
}

/// The processes with their shares from 0 to 100.
pub fn with_shares(rows: Vec<ProcessStat>) -> (out: Vec<ProcessStat>)
    ensures
        out@ == share_rows(rows@),
{
    let mut out: Vec<ProcessStat> = Vec::new();
    for i in 0..rows.len()
        invariant
            out@ =~= share_rows(rows@).take(i as int),
    {
        let mut row = rows[i].clone();
        row.cpu = row.cpu.clamped();
        out.push(row);
    }
    assert(share_rows(rows@).take(rows@.len() as int) =~= share_rows(rows@));
    out
}

/// The first `limit` processes by their share of the processor and their memory, without the
/// threads.
pub fn top_processes(list: &Vec<Measured>, limit: usize) -> (out: Vec<ProcessStat>)
    ensures
        are_top(out@, leader_rows(list@), limit as int),
{
    busiest(leaders(list), limit)
}

proof fn lemma_leader_shares(list: Seq<Measured>, i: int)
    requires
        forall|j: int| 0 <= j < list.len() ==> !(#[trigger] list[j]).row.cpu.is_nan(),
        0 <= i < leader_rows(list).len(),
    ensures
        leader_rows(list)[i].cpu.is_share(),
    decreases list.len(),
{
    if list.len() > 0 {
        let front = list.drop_last();
        assert forall|j: int| 0 <= j < front.len() implies !(#[trigger] front[j]).row.cpu.is_nan() by {
            assert(front[j] == list[j]);
        }
        assert(!list[list.len() - 1].row.cpu.is_nan());
        if i < leader_rows(front).len() {
            lemma_leader_shares(front, i);
        }
    }
}

/// The share of every process that is listed lies from 0 to 100, where what was measured are
/// numbers.
pub proof fn law_listed_shares_are_shares(out: Seq<ProcessStat>, list: Seq<Measured>, limit: int)
    requires
        are_top(out, leader_rows(list), limit),
        0 <= limit,
        forall|j: int| 0 <= j < list.len() ==> !(#[trigger] list[j]).row.cpu.is_nan(),
    ensures
        forall|i: int| 0 <= i < out.len() ==> (#[trigger] out[i]).cpu.is_share(),
{
    let rows = leader_rows(list);
    let all = choose|all: Seq<ProcessStat>|
        {
            &&& #[trigger] sorted_from(all, rows)
            &&& out == all.take(if limit < all.len() {
                limit
            } else {
                all.len() as int
            })
        };
    lemma_sorted_keeps_items(all, rows);
    assert forall|i: int| 0 <= i < out.len() implies (#[trigger] out[i]).cpu.is_share() by {
        assert(rows.contains(all[i]));
        let k = choose|k: int| 0 <= k < rows.len() && rows[k] == all[i];
        lemma_leader_shares(list, k);
    }
}

/// The first `limit` processes by their share of the processor and their memory.
pub fn busiest(rows: Vec<ProcessStat>, limit: usize) -> (out: Vec<ProcessStat>)
    ensures
        are_top(out@, rows@, limit as int),
{
    let mut out = stable_sort(rows);
    let ghost all = out@;
    if limit < out.len() {
        out.truncate(limit);
    } else {
        assert(all.take(all.len() as int) =~= all);
    }
    assert(sorted_from(all, rows@));
    out
}

// ---------------------------------------------------------------------------
// Grouping by application
// ---------------------------------------------------------------------------

/// The processes of one application, in their given order.
pub open spec fn of_app(list: Seq<ProcessStat>, app: Seq<char>) -> Seq<ProcessStat>
    decreases list.len(),
{
    if list.len() == 0 {
        Seq::empty()
    } else if list.last().app@ == app {
        of_app(list.drop_last(), app).push(list.last())
    } else {
        of_app(list.drop_last(), app)
    }
}

/// The memory that processes take together.
pub open spec fn mem_sum(list: Seq<ProcessStat>) -> nat
    decreases list.len(),
{
    if list.len() == 0 {
        0
    } else {
        mem_sum(list.drop_last()) + list.last().mem_mib as nat
    }
}

proof fn lemma_mem_sum_grows(list: Seq<ProcessStat>, n: int)
    requires
        0 <= n <= list.len(),
    ensures
        mem_sum(list.take(n)) <= mem_sum(list),
    decreases list.len() - n,
{
    if n < list.len() {
        lemma_mem_sum_grows(list, n + 1);
        assert(list.take(n + 1).drop_last() =~= list.take(n));
    } else {
        assert(list.take(n) =~= list);
    }
}

/// The processes of one application, and the memory that they take together.
#[derive(Debug)]
pub struct AppProcesses {
    pub app: String,
    pub total_mem_mib: u64,
    pub processes: Vec<ProcessStat>,
}

/// Whether no two of the given lists belong to one application.
pub open spec fn apps_differ(list: Seq<AppProcesses>) -> bool {
    forall|i: int, j: int|
        0 <= i < j < list.len() ==> (#[trigger] list[i]).app@ != (#[trigger] list[j]).app@
}

/// Whether one of the given lists belongs to the application.
pub open spec fn has_app(list: Seq<AppProcesses>, app: Seq<char>) -> bool {
    exists|i: int| 0 <= i < list.len() && (#[trigger] list[i]).app@ == app
}

/// Whether `group` holds the processes of its application out of `all`, in order, with the
/// memory that they take together.
pub open spec fn gathers(group: AppProcesses, all: Seq<ProcessStat>) -> bool {
    let own = of_app(all, group.app@);
    &&& own.len() > 0
    &&& sorted_from(group.processes@, own)
    &&& group.total_mem_mib == mem_sum(own)
}

/// Whether `groups` divide `all` by application: one group for each.
pub open spec fn divides(groups: Seq<AppProcesses>, all: Seq<ProcessStat>) -> bool {
    &&& apps_differ(groups)
    &&& forall|i: int| 0 <= i < groups.len() ==> gathers(#[trigger] groups[i], all)
    &&& forall|i: int| 0 <= i < all.len() ==> has_app(groups, (#[trigger] all[i]).app@)
}

/// The place of the list that belongs to `app`, or the number of lists.
fn place_of_app(list: &Vec<AppProcesses>, app: &str) -> (r: usize)
    ensures
        r <= list@.len(),
        r < list@.len() ==> list@[r as int].app@ == app@,
        r == list@.len() ==> !has_app(list@, app@),
{
    for i in 0..list.len()
        invariant
            forall|j: int| 0 <= j < i ==> (#[trigger] list@[j]).app@ != app@,
    {
        if same_str(list[i].app.as_str(), app) {
            return i;
        }
    }
    list.len()
}

/// Whether the lists hold the processes of `all` by application, in their given order.
spec fn collected(list: Seq<AppProcesses>, all: Seq<ProcessStat>) -> bool {
    &&& apps_differ(list)
    &&& forall|i: int|
        0 <= i < list.len() ==> (#[trigger] list[i]).processes@ == of_app(all, list[i].app@)
            && list[i].processes@.len() > 0
    &&& forall|i: int| 0 <= i < all.len() ==> has_app(list, (#[trigger] all[i]).app@)
}

proof fn lemma_of_app_absent(list: Seq<AppProcesses>, all: Seq<ProcessStat>, app: Seq<char>)
    requires
        forall|i: int| 0 <= i < all.len() ==> has_app(list, (#[trigger] all[i]).app@),
        !has_app(list, app),
    ensures
        of_app(all, app) == Seq::<ProcessStat>::empty(),
    decreases all.len(),
{
    if all.len() > 0 {
        assert(has_app(list, all[all.len() - 1].app@));
        assert forall|i: int| 0 <= i < all.drop_last().len() implies has_app(
            list,
            (#[trigger] all.drop_last()[i]).app@,
        ) by {
            assert(has_app(list, all[i].app@));
        }
        lemma_of_app_absent(list, all.drop_last(), app);
    }
}

/// Adds one process to the list of its application.
fn collect(list: &mut Vec<AppProcesses>, process: ProcessStat, Ghost(all): Ghost<Seq<ProcessStat>>)
    requires
        collected(old(list)@, all),
    ensures
        collected(final(list)@, all.push(process)),
{
    let ghost start = list@;
    let ghost next = all.push(process);
    assert(next.drop_last() =~= all);
    let k = place_of_app(list, process.app.as_str());
    if k < list.len() {
        let mut group = list.remove(k);
        group.processes.push(process);
        list.insert(k, group);
        proof {
            let end = list@;
            assert(end =~= start.update(k as int, group));
            assert forall|i: int, j: int| 0 <= i < j < end.len() implies (#[trigger] end[i]).app@ != (
            #[trigger] end[j]).app@ by {
                assert(start[i].app@ != start[j].app@);
            }
            assert forall|i: int| 0 <= i < end.len() implies (#[trigger] end[i]).processes@ == of_app(
                next,
                end[i].app@,
            ) && end[i].processes@.len() > 0 by {
                assert(start[i].processes@ == of_app(all, start[i].app@));
                if i != k {
                    if i < k {
                        assert(start[i].app@ != start[k as int].app@);
                    } else {
                        assert(start[k as int].app@ != start[i].app@);
                    }
                }
            }
            assert forall|i: int| 0 <= i < next.len() implies has_app(end, (#[trigger] next[i]).app@) by {
                if i < all.len() {
                    assert(has_app(start, all[i].app@));
                    let m = choose|m: int| 0 <= m < start.len() && (#[trigger] start[m]).app@ == all[i].app@;
                    assert(end[m].app@ == all[i].app@);
                } else {
                    assert(end[k as int].app@ == next[i].app@);
                }
            }
        }
    } else {
        let ghost added = process;
        let mut processes: Vec<ProcessStat> = Vec::new();
        let app = process.app.clone();
        processes.push(process);
        list.push(AppProcesses { app, total_mem_mib: 0, processes });
        proof {
            let end = list@;
            lemma_of_app_absent(start, all, added.app@);
            assert(end.last().processes@ =~= of_app(next, added.app@));
            assert forall|i: int| 0 <= i < end.len() implies (#[trigger] end[i]).processes@ == of_app(
                next,
                end[i].app@,
            ) && end[i].processes@.len() > 0 by {
                if i < start.len() {
                    assert(start[i].processes@ == of_app(all, start[i].app@));
                }
            }
            assert forall|i: int| 0 <= i < next.len() implies has_app(end, (#[trigger] next[i]).app@) by {
                if i < all.len() {
                    assert(has_app(start, all[i].app@));
                    let m = choose|m: int| 0 <= m < start.len() && (#[trigger] start[m]).app@ == all[i].app@;
                    assert(end[m].app@ == all[i].app@);
                } else {
                    assert(end[start.len() as int].app@ == next[i].app@);
                }
            }
        }
    }
}

/// The memory that processes take together.
fn total_memory(list: &Vec<ProcessStat>) -> (r: u64)
    requires
        mem_sum(list@) <= u64::MAX,
    ensures
        r == mem_sum(list@),
{
    let mut total: u64 = 0;
    for i in 0..list.len()
        invariant
            mem_sum(list@) <= u64::MAX,
            total == mem_sum(list@.take(i as int)),
    {
        proof {
            assert(list@.take(i + 1).drop_last() =~= list@.take(i as int));
            lemma_mem_sum_grows(list@, i + 1);
        }
        total = total + list[i].mem_mib;
    }
    assert(list@.take(list@.len() as int) =~= list@);
    total
}

/// Divides processes by application; those of one application stand in order.
pub fn group_processes_by_app(processes: Vec<ProcessStat>) -> (out: Vec<AppProcesses>)
    requires
        forall|app: Seq<char>| mem_sum(#[trigger] of_app(processes@, app)) <= u64::MAX,
    ensures
        divides(out@, processes@),
{
    let ghost all = processes@;
    let mut lists: Vec<AppProcesses> = Vec::new();
    assert(collected(lists@, all.take(0)));
    let mut rest = processes;
    let mut reversed: Vec<ProcessStat> = Vec::new();
    while rest.len() > 0
        invariant
            rest@ =~= all.take(rest@.len() as int),
            rest@.len() + reversed@.len() == all.len(),
            forall|i: int| 0 <= i < reversed@.len() ==> #[trigger] reversed@[i] == all[all.len() - 1 - i],
        decreases rest@.len(),
    {
        let last = rest.pop().unwrap();
        reversed.push(last);
    }
    let ghost mut n: int = 0;
    while reversed.len() > 0
        invariant
            n + reversed@.len() == all.len(),
            n >= 0,
            forall|i: int| 0 <= i < reversed@.len() ==> #[trigger] reversed@[i] == all[all.len() - 1 - i],
            collected(lists@, all.take(n)),
        decreases reversed@.len(),
    {
        let process = reversed.pop().unwrap();
        assert(process == all[n]);
        assert(all.take(n).push(process) =~= all.take(n + 1));
        collect(&mut lists, process, Ghost(all.take(n)));
        proof {
            n = n + 1;
        }
    }
    assert(all.take(n) =~= all);
    let ghost whole = lists@;
    let mut out: Vec<AppProcesses> = Vec::new();
    while lists.len() > 0
        invariant
            forall|app: Seq<char>| mem_sum(#[trigger] of_app(all, app)) <= u64::MAX,
            collected(whole, all),
            lists@ =~= whole.take(lists@.len() as int),
            lists@.len() + out@.len() == whole.len(),
            forall|i: int|
                0 <= i < out@.len() ==> gathers(#[trigger] out@[i], all) && out@[i].app
                    == whole[whole.len() - 1 - i].app,
        decreases lists@.len(),
    {
        let ghost at = lists@.len() - 1;
        let group = lists.pop().unwrap();
        assert(group == whole[at]);
        assert(group.processes@ == of_app(all, group.app@));
        let total_mem_mib = total_memory(&group.processes);
        let processes = stable_sort(group.processes);
        out.push(AppProcesses { app: group.app, total_mem_mib, processes });
    }
    proof {
        assert forall|i: int, j: int| 0 <= i < j < out@.len() implies (#[trigger] out@[i]).app@ != (
        #[trigger] out@[j]).app@ by {
            assert(whole[whole.len() - 1 - j].app@ != whole[whole.len() - 1 - i].app@);
        }
        assert forall|i: int| 0 <= i < all.len() implies has_app(out@, (#[trigger] all[i]).app@) by {
            assert(has_app(whole, all[i].app@));
            let m = choose|m: int| 0 <= m < whole.len() && (#[trigger] whole[m]).app@ == all[i].app@;
            assert(out@[whole.len() - 1 - m].app@ == all[i].app@);
        }
    }
    out
}

/// Whether `group` is live and shows `list` with the processor time `cpu`.
pub open spec fn is_group_of(group: GroupView, list: AppProcesses, cpu: Reading) -> bool {
    &&& group.app == list.app@
    &&& group.total_mem_mib == list.total_mem_mib
    &&& group.total_cpu == cpu
    &&& !group.stale
    &&& group.processes == list.processes@
}

/// Whether `groups` show `lists` with the processor times `totals`, one for one.
pub open spec fn are_groups_of(
    groups: Seq<ProcessGroup>,
    lists: Seq<AppProcesses>,
    totals: Seq<Reading>,
) -> bool {
    &&& groups.len() == lists.len()
    &&& forall|i: int| 0 <= i < groups.len() ==> is_group_of((#[trigger] groups[i])@, lists[i], totals[i])
}

/// Puts the groups in order, where `totals` gives for each list the processor time that its
/// processes take together.
pub fn rank_groups(lists: Vec<AppProcesses>, totals: &Vec<Reading>) -> (out: Vec<ProcessGroup>)
    requires
        lists@.len() == totals@.len(),
    ensures
        exists|groups: Seq<ProcessGroup>|
            #[trigger] are_groups_of(groups, lists@, totals@) && sorted_from(out@, groups),
{
    let ghost all = lists@;
    let mut rest = lists;
    let mut groups: Vec<ProcessGroup> = Vec::new();
    while rest.len() > 0
        invariant
            all.len() == totals@.len(),
            rest@ =~= all.take(rest@.len() as int),
            rest@.len() + groups@.len() == all.len(),
            forall|i: int|
                0 <= i < groups@.len() ==> is_group_of(
                    (#[trigger] groups@[i])@,
                    all[rest@.len() + i],
                    totals@[rest@.len() + i],
                ),
        decreases rest@.len(),
    {
        let ghost before = groups@;
        let list = rest.pop().unwrap();
        let total_cpu = totals[rest.len()];
        let group = ProcessGroup {
            app: list.app,
            total_mem_mib: list.total_mem_mib,
            total_cpu,
            stale: false,
            processes: list.processes,
        };
        groups.insert(0, group);
        proof {
            assert forall|i: int| 0 <= i < groups@.len() implies is_group_of(
                (#[trigger] groups@[i])@,
                all[rest@.len() + i],
                totals@[rest@.len() + i],
            ) by {
                if i > 0 {
                    assert(groups@[i] == before[i - 1]);
                }
            }
        }
    }
    assert(are_groups_of(groups@, all, totals@));
    stable_sort(groups)
}

// ---------------------------------------------------------------------------
// Groups that went away
// ---------------------------------------------------------------------------

/// A group as it was when its application was last seen.
#[derive(Debug)]
pub struct CachedProcessGroup {
    pub group: ProcessGroup,
    pub last_seen: u64,
}

/// Whether no application is remembered twice.
pub open spec fn remembers_once(history: Seq<CachedProcessGroup>) -> bool {
    forall|i: int, j: int|
        0 <= i < j < history.len() ==> (#[trigger] history[i]).group.app@ != (
        #[trigger] history[j]).group.app@
}

/// Whether the entry at `i` is about the application.
pub open spec fn is_about(history: Seq<CachedProcessGroup>, i: int, app: Seq<char>) -> bool {
    0 <= i < history.len() && history[i].group.app@ == app
}

/// What is remembered of an application, and when it was seen.
pub open spec fn remembered(history: Seq<CachedProcessGroup>, app: Seq<char>) -> Option<
    (GroupView, u64),
> {
    if exists|i: int| is_about(history, i, app) {
        let i = choose|i: int| is_about(history, i, app);
        Some((history[i].group@, history[i].last_seen))
    } else {
        None
    }
}

proof fn lemma_remembered(history: Seq<CachedProcessGroup>, i: int)
    requires
        remembers_once(history),
        0 <= i < history.len(),
    ensures
        remembered(history, history[i].group.app@) == Some((history[i].group@, history[i].last_seen)),
{
    let app = history[i].group.app@;
    assert(is_about(history, i, app));
    let k = choose|k: int| is_about(history, k, app);
    if k < i {
        assert(history[k].group.app@ != history[i].group.app@);
    }
    if i < k {
        assert(history[i].group.app@ != history[k].group.app@);
    }
}

/// The last of the groups that belongs to the application.
pub open spec fn latest(groups: Seq<ProcessGroup>, app: Seq<char>) -> Option<GroupView>
    decreases groups.len(),
{
    if groups.len() == 0 {
        None
    } else if groups.last().app@ == app {
        Some(groups.last()@)
    } else {
        latest(groups.drop_last(), app)
    }
}

/// Whether what was seen at `seen` is at most `grace` old.
pub open spec fn is_recent(now: u64, seen: u64, grace: u64) -> bool {
    now - seen <= grace
}

/// What is remembered of an application after `fresh` groups were seen at `now`.
pub open spec fn after_seeing(
    history: Seq<CachedProcessGroup>,
    fresh: Seq<ProcessGroup>,
    now: u64,
    app: Seq<char>,
) -> Option<(GroupView, u64)> {
    match latest(fresh, app) {
        Some(group) => Some((group, now)),
        None => remembered(history, app),
    }
}

/// What is kept of it: only what is recent.
pub open spec fn kept(
    history: Seq<CachedProcessGroup>,
    fresh: Seq<ProcessGroup>,
    now: u64,
    grace: u64,
    app: Seq<char>,
) -> Option<(GroupView, u64)> {
    match after_seeing(history, fresh, now, app) {
        Some((group, seen)) => if is_recent(now, seen, grace) {
            Some((group, seen))
        } else {
            None
        },
        None => None,
    }
}

/// What is shown of an application: the fresh group where there is one, else, marked as
/// stale, what is remembered, where that is recent.
pub open spec fn shown(
    history: Seq<CachedProcessGroup>,
    fresh: Seq<ProcessGroup>,
    now: u64,
    grace: u64,
    app: Seq<char>,
) -> Option<GroupView> {
    match latest(fresh, app) {
        Some(group) => Some(group),
        None => match remembered(history, app) {
            Some((group, seen)) => if is_recent(now, seen, grace) {
                Some(GroupView { stale: true, ..group })
            } else {
                None
            },
            None => None,
        },
    }
}

/// Whether one of the groups belongs to the application.
pub open spec fn has_group(groups: Seq<ProcessGroup>, app: Seq<char>) -> bool {
    exists|i: int| 0 <= i < groups.len() && (#[trigger] groups[i]).app@ == app
}

/// Whether no two groups belong to one application.
pub open spec fn groups_differ(groups: Seq<ProcessGroup>) -> bool {
    forall|i: int, j: int|
        0 <= i < j < groups.len() ==> (#[trigger] groups[i]).app@ != (#[trigger] groups[j]).app@
}

/// Whether each group comes before those that follow it.
pub open spec fn in_rank_order(groups: Seq<ProcessGroup>) -> bool {
    forall|i: int, j: int| 0 <= i < j < groups.len() ==> (#[trigger] groups[i]).before(#[trigger] groups[j])
}

/// Whether `out` lists what is shown of every application, each once, in order.
pub open spec fn lists_shown(
    out: Seq<ProcessGroup>,
    history: Seq<CachedProcessGroup>,
    fresh: Seq<ProcessGroup>,
    now: u64,
    grace: u64,
) -> bool {
    &&& groups_differ(out)
    &&& forall|i: int|
        0 <= i < out.len() ==> shown(history, fresh, now, grace, (#[trigger] out[i]).app@) == Some(out[i]@)
    &&& forall|app: Seq<char>| (#[trigger] shown(history, fresh, now, grace, app)) is Some ==> has_group(out, app)
    &&& all_orderly(out) ==> in_rank_order(out)
}

/// Whether `later` is what is kept of `history` after `fresh` groups were seen.
pub open spec fn is_kept(
    later: Seq<CachedProcessGroup>,
    history: Seq<CachedProcessGroup>,
    fresh: Seq<ProcessGroup>,
    now: u64,
    grace: u64,
) -> bool {
    &&& remembers_once(later)
    &&& forall|app: Seq<char>| #[trigger] remembered(later, app) == kept(history, fresh, now, grace, app)
}

/// The place of the entry about an application, or the number of entries.
fn place_of_entry(history: &Vec<CachedProcessGroup>, app: &str) -> (r: usize)
    ensures
        r <= history@.len(),
        r < history@.len() ==> is_about(history@, r as int, app@),
        r == history@.len() ==> remembered(history@, app@) is None,
{
    for i in 0..history.len()
        invariant
            forall|j: int| 0 <= j < i ==> !(#[trigger] is_about(history@, j, app@)),
    {
        if same_str(history[i].group.app.as_str(), app) {
            return i;
        }
        assert(!is_about(history@, i as int, app@));
    }
    history.len()
}

/// Remembers that a group was seen.
fn remember(history: &mut Vec<CachedProcessGroup>, group: ProcessGroup, now: u64)
    requires
        remembers_once(old(history)@),
    ensures
        remembers_once(final(history)@),
        forall|app: Seq<char>| #[trigger]
            remembered(final(history)@, app) == (if app == group.app@ {
                Some((group@, now))
            } else {
                remembered(old(history)@, app)
            }),
{
    let ghost start = history@;
    let ghost view = group@;
    let k = place_of_entry(history, group.app.as_str());
    let entry = CachedProcessGroup { group, last_seen: now };
    if k < history.len() {
        history.set(k, entry);
    } else {
        history.push(entry);
    }
    proof {
        let end = history@;
        assert forall|i: int, j: int| 0 <= i < j < end.len() implies (#[trigger] end[i]).group.app@ != (
        #[trigger] end[j]).group.app@ by {
            if j < start.len() {
                assert(start[i].group.app@ != start[j].group.app@);
            } else {
                assert(is_about(start, i, start[i].group.app@));
                assert(!is_about(start, i, view.app));
            }
        }
        assert forall|app: Seq<char>| #[trigger] remembered(end, app) == (if app == view.app {
            Some((view, now))
        } else {
            remembered(start, app)
        }) by {
            if app == view.app {
                lemma_remembered(end, k as int);
            } else if exists|i: int| is_about(start, i, app) {
                let i = choose|i: int| is_about(start, i, app);
                assert(end[i] == start[i]);
                lemma_remembered(end, i);
                lemma_remembered(start, i);
            } else if exists|i: int| is_about(end, i, app) {
                let i = choose|i: int| is_about(end, i, app);
                assert(is_about(start, i, app));
            }
        }
    }
}

proof fn lemma_latest_take(groups: Seq<ProcessGroup>, i: int, app: Seq<char>)
    requires
        0 <= i < groups.len(),
    ensures
        latest(groups.take(i + 1), app) == (if groups[i].app@ == app {
            Some(groups[i]@)
        } else {
            latest(groups.take(i), app)
        }),
{
    assert(groups.take(i + 1).drop_last() =~= groups.take(i));
}

/// What is shown of one entry that is not fresh.
spec fn stale_view(entry: CachedProcessGroup) -> GroupView {
    GroupView { stale: true, ..entry.group@ }
}

/// Whether an entry is shown though it is not fresh.
spec fn lingers(entry: CachedProcessGroup, current: Seq<CachedProcessGroup>, now: u64, grace: u64) -> bool {
    remembered(current, entry.group.app@) is None && is_recent(now, entry.last_seen, grace)
}

/// Copies of the fresh groups, then of the entries that linger.
fn combine(
    current: &Vec<CachedProcessGroup>,
    history: &Vec<CachedProcessGroup>,
    now: u64,
    grace: u64,
) -> (out: Vec<ProcessGroup>)
    requires
        remembers_once(current@),
        remembers_once(history@),
    ensures
        groups_differ(out@),
        forall|k: int|
            0 <= k < out@.len() ==> {
                ||| remembered(current@, (#[trigger] out@[k]).app@) matches Some((g, _)) && g == out@[k]@
                ||| exists|m: int|
                    0 <= m < history@.len() && lingers(#[trigger] history@[m], current@, now, grace)
                        && out@[k]@ == stale_view(history@[m])
            },
        forall|i: int| 0 <= i < current@.len() ==> has_group(out@, (#[trigger] current@[i]).group.app@),
        forall|m: int|
            0 <= m < history@.len() && lingers(#[trigger] history@[m], current@, now, grace) ==> has_group(
                out@,
                history@[m].group.app@,
            ),
{
    let mut out: Vec<ProcessGroup> = Vec::new();
    for i in 0..current.len()
        invariant
            out@.len() == i,
            forall|k: int| 0 <= k < i ==> (#[trigger] out@[k])@ == current@[k].group@,
    {
        out.push(current[i].group.clone());
    }
    proof {
        assert forall|i: int, j: int| 0 <= i < j < out@.len() implies (#[trigger] out@[i]).app@ != (
        #[trigger] out@[j]).app@ by {
            assert(out@[i]@.app == current@[i].group.app@);
            assert(out@[j]@.app == current@[j].group.app@);
        }
        assert forall|k: int| 0 <= k < out@.len() implies (remembered(
            current@,
            (#[trigger] out@[k]).app@,
        ) matches Some((g, _)) && g == out@[k]@) by {
            assert(out@[k]@.app == current@[k].group.app@);
            lemma_remembered(current@, k);
        }
        assert forall|i: int| 0 <= i < current@.len() implies has_group(
            out@,
            (#[trigger] current@[i]).group.app@,
        ) by {
            assert(out@[i]@.app == current@[i].group.app@);
        }
    }
    for m in 0..history.len()
        invariant
            remembers_once(current@),
            remembers_once(history@),
            groups_differ(out@),
            forall|k: int|
                0 <= k < out@.len() ==> {
                    ||| remembered(current@, (#[trigger] out@[k]).app@) matches Some((g, _)) && g == out@[k]@
                    ||| exists|n: int|
                        0 <= n < m && lingers(#[trigger] history@[n], current@, now, grace) && out@[k]@
                            == stale_view(history@[n])
                },
            forall|i: int| 0 <= i < current@.len() ==> has_group(out@, (#[trigger] current@[i]).group.app@),
            forall|n: int|
                0 <= n < m && lingers(#[trigger] history@[n], current@, now, grace) ==> has_group(
                    out@,
                    history@[n].group.app@,
                ),
    {
        let entry = &history[m];
        let fresh = place_of_entry(current, entry.group.app.as_str()) < current.len();
        proof {
            if fresh {
                assert(exists|i: int| is_about(current@, i, entry.group.app@));
            }
        }
        if !fresh && !(now > entry.last_seen && now - entry.last_seen > grace) {
            assert(lingers(history@[m as int], current@, now, grace));
            let ghost before = out@;
            let mut group = entry.group.clone();
            group.stale = true;
            out.push(group);
            proof {
                assert(group@ == stale_view(history@[m as int]));
                assert forall|i: int, j: int| 0 <= i < j < out@.len() implies (#[trigger] out@[i]).app@ != (
                #[trigger] out@[j]).app@ by {
                    assert(out@[i] == before[i]);
                    if j < before.len() {
                        assert(before[i].app@ != before[j].app@);
                    } else if remembered(current@, before[i].app@) is None {
                        let n = choose|n: int|
                            0 <= n < m && lingers(#[trigger] history@[n], current@, now, grace)
                                && before[i]@ == stale_view(history@[n]);
                        assert(before[i]@.app == history@[n].group.app@);
                        assert(history@[n].group.app@ != history@[m as int].group.app@);
                    }
                }
                assert forall|k: int| 0 <= k < out@.len() implies {
                    ||| remembered(current@, (#[trigger] out@[k]).app@) matches Some((g, _)) && g == out@[k]@
                    ||| exists|n: int|
                        0 <= n < m + 1 && lingers(#[trigger] history@[n], current@, now, grace)
                            && out@[k]@ == stale_view(history@[n])
                } by {
                    if k < before.len() {
                        assert(out@[k] == before[k]);
                        if !(remembered(current@, before[k].app@) matches Some((g, _)) && g == before[k]@) {
                            let n = choose|n: int|
                                0 <= n < m && lingers(#[trigger] history@[n], current@, now, grace)
                                    && before[k]@ == stale_view(history@[n]);
                            assert(lingers(history@[n], current@, now, grace) && out@[k]@ == stale_view(
                                history@[n],
                            ));
                        }
                    }
                }
                assert forall|i: int| 0 <= i < current@.len() implies has_group(
                    out@,
                    (#[trigger] current@[i]).group.app@,
                ) by {
                    lemma_has_group_push(before, group, current@[i].group.app@);
                }
                assert forall|n: int|
                    0 <= n < m + 1 && lingers(#[trigger] history@[n], current@, now, grace) implies has_group(
                    out@,
                    history@[n].group.app@,
                ) by {
                    if n < m {
                        lemma_has_group_push(before, group, history@[n].group.app@);
                    } else {
                        assert(out@[before.len() as int]@.app == history@[n].group.app@);
                    }
                }
            }
        } else {
            assert(!lingers(history@[m as int], current@, now, grace));
        }
    }
    out
}

proof fn lemma_has_group_push(groups: Seq<ProcessGroup>, group: ProcessGroup, app: Seq<char>)
    requires
        has_group(groups, app),
    ensures
        has_group(groups.push(group), app),
{
    let i = choose|i: int| 0 <= i < groups.len() && (#[trigger] groups[i]).app@ == app;
    assert(groups.push(group)[i].app@ == app);
}

/// The entries that are recent.
fn keep_recent(history: Vec<CachedProcessGroup>, now: u64, grace: u64) -> (out: Vec<CachedProcessGroup>)
    requires
        remembers_once(history@),
    ensures
        remembers_once(out@),
        forall|app: Seq<char>| #[trigger]
            remembered(out@, app) == (match remembered(history@, app) {
                Some((group, seen)) => if is_recent(now, seen, grace) {
                    Some((group, seen))
                } else {
                    None
                },
                None => None,
            }),
{
    let ghost all = history@;
    let mut rest = history;
    let mut out: Vec<CachedProcessGroup> = Vec::new();
    let ghost mut from: Seq<int> = Seq::empty();
    while rest.len() > 0
        invariant
            remembers_once(all),
            rest@ =~= all.take(rest@.len() as int),
            rest@.len() <= all.len(),
            from.len() == out@.len(),
            forall|i: int|
                0 <= i < from.len() ==> rest@.len() <= #[trigger] from[i] < all.len() && out@[i]
                    == all[from[i]] && is_recent(now, all[from[i]].last_seen, grace),
            forall|i: int, j: int| 0 <= i < j < from.len() ==> #[trigger] from[i] > #[trigger] from[j],
            forall|m: int|
                rest@.len() <= m < all.len() && is_recent(now, (#[trigger] all[m]).last_seen, grace)
                    ==> from.contains(m),
        decreases rest@.len(),
    {
        let ghost at = rest@.len() - 1;
        let entry = rest.pop().unwrap();
        assert(entry == all[at]);
        if !(now > entry.last_seen && now - entry.last_seen > grace) {
            out.push(entry);
            proof {
                let before = from;
                from = before.push(at);
                assert forall|m: int|
                    rest@.len() <= m < all.len() && is_recent(now, (#[trigger] all[m]).last_seen, grace)
                    implies from.contains(m) by {
                    if m > at {
                        assert(before.contains(m));
                        let k = choose|k: int| 0 <= k < before.len() && before[k] == m;
                        assert(from[k] == m);
                    } else {
                        assert(from[before.len() as int] == m);
                    }
                }
            }
        }
    }
    proof {
        assert forall|i: int, j: int| 0 <= i < j < out@.len() implies (#[trigger] out@[i]).group.app@ != (
        #[trigger] out@[j]).group.app@ by {
            assert(from[i] > from[j]);
            assert(all[from[j]].group.app@ != all[from[i]].group.app@);
        }
        assert forall|app: Seq<char>| #[trigger]
            remembered(out@, app) == (match remembered(all, app) {
                Some((group, seen)) => if is_recent(now, seen, grace) {
                    Some((group, seen))
                } else {
                    None
                },
                None => None,
            }) by {
            if exists|i: int| is_about(out@, i, app) {
                let i = choose|i: int| is_about(out@, i, app);
                assert(out@[i] == all[from[i]]);
                lemma_remembered(all, from[i]);
                lemma_remembered(out@, i);
            } else if exists|m: int| is_about(all, m, app) {
                let m = choose|m: int| is_about(all, m, app);
                lemma_remembered(all, m);
                if is_recent(now, all[m].last_seen, grace) {
                    assert(from.contains(m));
                    let k = choose|k: int| 0 <= k < from.len() && from[k] == m;
                    assert(is_about(out@, k, app));
                }
            }
        }
    }
    out
}

/// Whether the groups stand in order once they were sorted, where no two are of one
/// application.
proof fn lemma_sorted_groups(out: Seq<ProcessGroup>, groups: Seq<ProcessGroup>)
    requires
        sorted_from(out, groups),
        groups_differ(groups),
    ensures
        groups_differ(out),
        forall|i: int| 0 <= i < out.len() ==> groups.contains(#[trigger] out[i]),
        forall|app: Seq<char>| has_group(groups, app) ==> #[trigger] has_group(out, app),
        all_orderly(out) ==> in_rank_order(out),
{
    let p = choose|p: Seq<int>|
        {
            &&& #[trigger] arranges(out, groups, p)
            &&& all_orderly(groups) ==> in_stable_order(groups, p)
        };
    assert forall|i: int, j: int| 0 <= i < j < out.len() implies (#[trigger] out[i]).app@ != (
    #[trigger] out[j]).app@ by {
        assert(out[i] == groups[p[i]] && out[j] == groups[p[j]]);
        assert(p[i] != p[j]);
        if p[i] < p[j] {
            assert(groups[p[i]].app@ != groups[p[j]].app@);
        } else {
            assert(groups[p[j]].app@ != groups[p[i]].app@);
        }
    }
    assert forall|i: int| 0 <= i < out.len() implies groups.contains(#[trigger] out[i]) by {
        assert(out[i] == groups[p[i]]);
    }
    assert forall|app: Seq<char>| has_group(groups, app) implies #[trigger] has_group(out, app) by {
        let m = choose|m: int| 0 <= m < groups.len() && (#[trigger] groups[m]).app@ == app;
        lemma_arrangement_covers(p, groups.len(), m);
        let k = choose|k: int| 0 <= k < p.len() && p[k] == m;
        assert(out[k] == groups[p[k]]);
    }
    if all_orderly(out) {
        assert forall|i: int| 0 <= i < groups.len() implies (#[trigger] groups[i]).orderly() by {
            lemma_arrangement_covers(p, groups.len(), i);
            let k = choose|k: int| 0 <= k < p.len() && p[k] == i;
            assert(out[k] == groups[p[k]]);
            assert(out[k].orderly());
        }
        assert forall|i: int, j: int| 0 <= i < j < out.len() implies (#[trigger] out[i]).before(
            #[trigger] out[j],
        ) by {
            assert(out[i] == groups[p[i]] && out[j] == groups[p[j]]);
            assert(leads(groups, p[i], p[j]));
            assert(out[i].app@ != out[j].app@);
            lemma_text_less(out[i].app@, out[j].app@, out[j].app@);
        }
    }
}

/// The groups to show, in order: the fresh ones, and, marked as stale, those that went away
/// no longer ago than `grace`. The history then holds what was seen no longer ago.
pub fn stabilize_process_groups(
    history: &mut Vec<CachedProcessGroup>,
    fresh_groups: Vec<ProcessGroup>,
    now: u64,
    grace: u64,
) -> (out: Vec<ProcessGroup>)
    requires
        remembers_once(old(history)@),
    ensures
        is_kept(final(history)@, old(history)@, fresh_groups@, now, grace),
        lists_shown(out@, old(history)@, fresh_groups@, now, grace),
{
    let ghost start = history@;
    let ghost fresh = fresh_groups@;
    let mut current: Vec<CachedProcessGroup> = Vec::new();
    proof {
        assert forall|app: Seq<char>| #[trigger] remembered(current@, app) is None by {
            if exists|i: int| is_about(current@, i, app) {
                let i = choose|i: int| is_about(current@, i, app);
                assert(false);
            }
        }
    }
    for i in 0..fresh_groups.len()
        invariant
            fresh == fresh_groups@,
            remembers_once(history@),
            remembers_once(current@),
            forall|app: Seq<char>| #[trigger]
                remembered(history@, app) == after_seeing(start, fresh.take(i as int), now, app),
            forall|app: Seq<char>| #[trigger]
                remembered(current@, app) == (match latest(fresh.take(i as int), app) {
                    Some(group) => Some((group, now)),
                    None => None,
                }),
    {
        remember(history, fresh_groups[i].clone(), now);
        remember(&mut current, fresh_groups[i].clone(), now);
        proof {
            assert forall|app: Seq<char>| #[trigger] remembered(history@, app) == after_seeing(
                start,
                fresh.take(i + 1),
                now,
                app,
            ) by {
                lemma_latest_take(fresh, i as int, app);
            }
            assert forall|app: Seq<char>| #[trigger]
                remembered(current@, app) == (match latest(fresh.take(i + 1), app) {
                    Some(group) => Some((group, now)),
                    None => None,
                }) by {
                lemma_latest_take(fresh, i as int, app);
            }
        }
    }
    assert(fresh.take(fresh.len() as int) =~= fresh);
    let combined = combine(&current, history, now, grace);
    let ghost seen = history@;
    proof {
        assert forall|k: int| 0 <= k < combined@.len() implies shown(
            start,
            fresh,
            now,
            grace,
            (#[trigger] combined@[k]).app@,
        ) == Some(combined@[k]@) by {
            let app = combined@[k].app@;
            if !(remembered(current@, app) matches Some((g, _)) && g == combined@[k]@) {
                let m = choose|m: int|
                    0 <= m < seen.len() && lingers(#[trigger] seen[m], current@, now, grace)
                        && combined@[k]@ == stale_view(seen[m]);
                assert(combined@[k]@.app == seen[m].group.app@);
                lemma_remembered(seen, m);
                assert(remembered(seen, app) == after_seeing(start, fresh, now, app));
            }
        }
        assert forall|app: Seq<char>| (#[trigger] shown(start, fresh, now, grace, app)) is Some
            implies has_group(combined@, app) by {
            assert(remembered(current@, app) == (match latest(fresh, app) {
                Some(group) => Some((group, now)),
                None => None,
            }));
            assert(remembered(seen, app) == after_seeing(start, fresh, now, app));
            if latest(fresh, app) is Some {
                let i = choose|i: int| is_about(current@, i, app);
                assert(has_group(combined@, current@[i].group.app@));
            } else {
                let m = choose|m: int| is_about(seen, m, app);
                lemma_remembered(seen, m);
                assert(lingers(seen[m], current@, now, grace));
            }
        }
    }
    let mut all: Vec<CachedProcessGroup> = Vec::new();
    std::mem::swap(&mut all, history);
    let mut recent = keep_recent(all, now, grace);
    std::mem::swap(&mut recent, history);
    let out = stable_sort(combined);
    proof {
        lemma_sorted_groups(out@, combined@);
        assert forall|i: int| 0 <= i < out@.len() implies shown(
            start,
            fresh,
            now,
            grace,
            (#[trigger] out@[i]).app@,
        ) == Some(out@[i]@) by {
            assert(combined@.contains(out@[i]));
            let k = choose|k: int| 0 <= k < combined@.len() && combined@[k] == out@[i];
            assert(combined@[k].app@ == out@[i].app@);
        }
        assert forall|app: Seq<char>| (#[trigger] shown(start, fresh, now, grace, app)) is Some
            implies has_group(out@, app) by {
            assert(has_group(combined@, app));
        }
        assert forall|app: Seq<char>| #[trigger]
            remembered(history@, app) == kept(start, fresh, now, grace, app) by {
            assert(remembered(seen, app) == after_seeing(start, fresh, now, app));
        }
    }
    out
}

// ---------------------------------------------------------------------------
// Laws
// ---------------------------------------------------------------------------

/// An application whose processes were there at one refresh and are gone at the next is
/// still listed, as it was but for being stale, exactly where the time between the two is no
/// longer than the grace.
pub proof fn law_vanished_app_lingers(
    history: Seq<CachedProcessGroup>,
    first: Seq<ProcessGroup>,
    seen: u64,
    middle: Seq<CachedProcessGroup>,
    second: Seq<ProcessGroup>,
    now: u64,
    grace: u64,
    out: Seq<ProcessGroup>,
    app: Seq<char>,
)
    requires
        is_kept(middle, history, first, seen, grace),
        lists_shown(out, middle, second, now, grace),
        latest(first, app) is Some,
        latest(second, app) is None,
    ensures
        has_group(out, app) <==> now - seen <= grace,
        forall|i: int|
            0 <= i < out.len() && (#[trigger] out[i]).app@ == app ==> out[i]@ == (GroupView {
                stale: true,
                ..latest(first, app)->0
            }),
{
    assert(remembered(middle, app) == kept(history, first, seen, grace, app));
    if has_group(out, app) {
        let i = choose|i: int| 0 <= i < out.len() && (#[trigger] out[i]).app@ == app;
        assert(shown(middle, second, now, grace, out[i].app@) == Some(out[i]@));
    }
    if now - seen <= grace {
        assert(shown(middle, second, now, grace, app) is Some);
    }
}

/// What is fresh is listed as it was found, and an application that is back is listed once.
pub proof fn law_fresh_app_is_listed(
    history: Seq<CachedProcessGroup>,
    fresh: Seq<ProcessGroup>,
    now: u64,
    grace: u64,
    out: Seq<ProcessGroup>,
    app: Seq<char>,
)
    requires
        lists_shown(out, history, fresh, now, grace),
        latest(fresh, app) is Some,
    ensures
        exists|i: int| 0 <= i < out.len() && (#[trigger] out[i])@ == latest(fresh, app)->0,
        forall|i: int, j: int|
            0 <= i < out.len() && 0 <= j < out.len() && (#[trigger] out[i]).app@ == app && (
            #[trigger] out[j]).app@ == app ==> i == j,
{
    assert(shown(history, fresh, now, grace, app) is Some);
    let i = choose|i: int| 0 <= i < out.len() && (#[trigger] out[i]).app@ == app;
    assert(shown(history, fresh, now, grace, out[i].app@) == Some(out[i]@));
}

/// The memory of processes adds up: nothing takes none, one process more takes as much more as
/// its own, and two lists take together what each takes.
pub proof fn law_memory_adds_up(a: Seq<ProcessStat>, b: Seq<ProcessStat>, p: ProcessStat)
    ensures
        mem_sum(Seq::<ProcessStat>::empty()) == 0,
        mem_sum(a.push(p)) == mem_sum(a) + p.mem_mib,
        mem_sum(a + b) == mem_sum(a) + mem_sum(b),
    decreases b.len(),
{
    assert(a.push(p).drop_last() =~= a);
    if b.len() > 0 {
        law_memory_adds_up(a, b.drop_last(), p);
        assert((a + b).drop_last() =~= a + b.drop_last());
        assert(b =~= b.drop_last().push(b.last()));
    } else {
        assert(a + b =~= a);
    }
}

/// The memory of all groups together.
pub open spec fn groups_memory(groups: Seq<AppProcesses>) -> nat
    decreases groups.len(),
{
    if groups.len() == 0 {
        0
    } else {
        groups[0].total_mem_mib as nat + groups_memory(groups.drop_first())
    }
}

/// The processes of all groups together.
pub open spec fn groups_size(groups: Seq<AppProcesses>) -> nat
    decreases groups.len(),
{
    if groups.len() == 0 {
        0
    } else {
        groups[0].processes@.len() + groups_size(groups.drop_first())
    }
}

spec fn own_memory(groups: Seq<AppProcesses>, all: Seq<ProcessStat>) -> nat
    decreases groups.len(),
{
    if groups.len() == 0 {
        0
    } else {
        mem_sum(of_app(all, groups[0].app@)) + own_memory(groups.drop_first(), all)
    }
}

spec fn own_size(groups: Seq<AppProcesses>, all: Seq<ProcessStat>) -> nat
    decreases groups.len(),
{
    if groups.len() == 0 {
        0
    } else {
        of_app(all, groups[0].app@).len() + own_size(groups.drop_first(), all)
    }
}

proof fn lemma_own_push(groups: Seq<AppProcesses>, all: Seq<ProcessStat>, p: ProcessStat)
    requires
        apps_differ(groups),
    ensures
        has_app(groups, p.app@) ==> own_memory(groups, all.push(p)) == own_memory(groups, all) + p.mem_mib,
        has_app(groups, p.app@) ==> own_size(groups, all.push(p)) == own_size(groups, all) + 1,
        !has_app(groups, p.app@) ==> own_memory(groups, all.push(p)) == own_memory(groups, all),
        !has_app(groups, p.app@) ==> own_size(groups, all.push(p)) == own_size(groups, all),
    decreases groups.len(),
{
    if groups.len() > 0 {
        let rest = groups.drop_first();
        assert forall|i: int, j: int| 0 <= i < j < rest.len() implies (#[trigger] rest[i]).app@ != (
        #[trigger] rest[j]).app@ by {
            assert(groups[i + 1].app@ != groups[j + 1].app@);
        }
        lemma_own_push(rest, all, p);
        let own = of_app(all, groups[0].app@);
        assert(all.push(p).drop_last() =~= all);
        assert(own.push(p).drop_last() =~= own);
        if has_app(rest, p.app@) {
            let i = choose|i: int| 0 <= i < rest.len() && (#[trigger] rest[i]).app@ == p.app@;
            assert(groups[i + 1].app@ == p.app@);
            assert(groups[0].app@ != groups[i + 1].app@);
            assert(has_app(groups, p.app@));
        } else if groups[0].app@ == p.app@ {
            assert(has_app(groups, p.app@));
        } else if has_app(groups, p.app@) {
            let i = choose|i: int| 0 <= i < groups.len() && (#[trigger] groups[i]).app@ == p.app@;
            assert(rest[i - 1].app@ == p.app@);
        }
    }
}

proof fn lemma_own_of_none(groups: Seq<AppProcesses>)
    ensures
        own_memory(groups, Seq::empty()) == 0,
        own_size(groups, Seq::empty()) == 0,
    decreases groups.len(),
{
    if groups.len() > 0 {
        lemma_own_of_none(groups.drop_first());
    }
}

proof fn lemma_own_all(groups: Seq<AppProcesses>, all: Seq<ProcessStat>)
    requires
        apps_differ(groups),
        forall|i: int| 0 <= i < all.len() ==> has_app(groups, (#[trigger] all[i]).app@),
    ensures
        own_memory(groups, all) == mem_sum(all),
        own_size(groups, all) == all.len(),
    decreases all.len(),
{
    if all.len() > 0 {
        let front = all.drop_last();
        let p = all.last();
        assert forall|i: int| 0 <= i < front.len() implies has_app(groups, (#[trigger] front[i]).app@) by {
            assert(has_app(groups, all[i].app@));
        }
        assert(has_app(groups, all[all.len() - 1].app@));
        lemma_own_all(groups, front);
        lemma_own_push(groups, front, p);
        assert(front.push(p) =~= all);
    } else {
        assert(all =~= Seq::<ProcessStat>::empty());
        lemma_own_of_none(groups);
    }
}

proof fn lemma_groups_own(groups: Seq<AppProcesses>, all: Seq<ProcessStat>)
    requires
        forall|i: int| 0 <= i < groups.len() ==> gathers(#[trigger] groups[i], all),
    ensures
        groups_memory(groups) == own_memory(groups, all),
        groups_size(groups) == own_size(groups, all),
    decreases groups.len(),
{
    if groups.len() > 0 {
        let rest = groups.drop_first();
        assert forall|i: int| 0 <= i < rest.len() implies gathers(#[trigger] rest[i], all) by {
            assert(gathers(groups[i + 1], all));
        }
        lemma_groups_own(rest, all);
        assert(gathers(groups[0], all));
        lemma_sorted_keeps_items(groups[0].processes@, of_app(all, groups[0].app@));
    }
}

proof fn lemma_of_app_items(list: Seq<ProcessStat>, app: Seq<char>)
    ensures
        forall|k: int|
            0 <= k < of_app(list, app).len() ==> (#[trigger] of_app(list, app)[k]).app@ == app && list.contains(
                of_app(list, app)[k],
            ),
        forall|i: int| 0 <= i < list.len() && (#[trigger] list[i]).app@ == app ==> of_app(list, app).contains(list[i]),
    decreases list.len(),
{
    if list.len() > 0 {
        let front = list.drop_last();
        let last = list.last();
        lemma_of_app_items(front, app);
        let own = of_app(front, app);
        assert forall|k: int| 0 <= k < of_app(list, app).len() implies (#[trigger] of_app(list, app)[k]).app@ == app
            && list.contains(of_app(list, app)[k]) by {
            if k < own.len() {
                assert(front.contains(own[k]));
                let i = choose|i: int| 0 <= i < front.len() && front[i] == own[k];
                assert(list[i] == own[k]);
            } else {
                assert(list[list.len() - 1] == last);
            }
        }
        assert forall|i: int| 0 <= i < list.len() && (#[trigger] list[i]).app@ == app implies of_app(
            list,
            app,
        ).contains(list[i]) by {
            if i < front.len() {
                assert(front[i] == list[i]);
                assert(own.contains(list[i]));
                let k = choose|k: int| 0 <= k < own.len() && own[k] == list[i];
                assert(of_app(list, app)[k] == list[i]);
            } else {
                assert(of_app(list, app)[own.len() as int] == last);
            }
        }
    }
}

/// The processes of an application are found list by list, in their order: those of two lists
/// are those of the first and then those of the second, and of a single process it is that one
/// exactly where it belongs to the application.
pub proof fn law_processes_of_application(a: Seq<ProcessStat>, b: Seq<ProcessStat>, p: ProcessStat, app: Seq<char>)
    ensures
        of_app(a + b, app) == of_app(a, app) + of_app(b, app),
        p.app@ == app ==> of_app(seq![p], app) == seq![p],
        p.app@ != app ==> of_app(seq![p], app).len() == 0,
    decreases b.len(),
{
    assert(seq![p].drop_last() =~= Seq::<ProcessStat>::empty());
    reveal_with_fuel(of_app, 2);
    assert(p.app@ == app ==> of_app(seq![p], app) =~= seq![p]);
    if b.len() > 0 {
        law_processes_of_application(a, b.drop_last(), p, app);
        assert((a + b).drop_last() =~= a + b.drop_last());
        assert(of_app(a + b, app) =~= of_app(a, app) + of_app(b, app));
    } else {
        assert(a + b =~= a);
        assert(of_app(a + b, app) =~= of_app(a, app) + of_app(b, app));
    }
}

/// Grouping neither loses nor doubles anything: the groups have together as many processes and
/// as much memory as were given, a group holds processes of its application that were given,
/// and every process that was given is in a group. No two groups are of one application.
pub proof fn law_groups_hold_everything(groups: Seq<AppProcesses>, all: Seq<ProcessStat>)
    requires
        divides(groups, all),
    ensures
        groups_memory(groups) == mem_sum(all),
        groups_size(groups) == all.len(),
        forall|g: int, k: int|
            0 <= g < groups.len() && 0 <= k < groups[g].processes@.len() ==> (
            #[trigger] groups[g].processes@[k]).app@ == groups[g].app@ && all.contains(groups[g].processes@[k]),
        forall|i: int|
            0 <= i < all.len() ==> exists|g: int|
                0 <= g < groups.len() && groups[g].app@ == (#[trigger] all[i]).app@ && (
                #[trigger] groups[g]).processes@.contains(all[i]),
        forall|g: int, h: int| 0 <= g < h < groups.len() ==> (#[trigger] groups[g]).app@ != (#[trigger] groups[h]).app@,
{
    lemma_own_all(groups, all);
    lemma_groups_own(groups, all);
    assert forall|g: int, k: int| 0 <= g < groups.len() && 0 <= k < groups[g].processes@.len() implies (
    #[trigger] groups[g].processes@[k]).app@ == groups[g].app@ && all.contains(groups[g].processes@[k]) by {
        let own = of_app(all, groups[g].app@);
        assert(gathers(groups[g], all));
        lemma_sorted_keeps_items(groups[g].processes@, own);
        lemma_of_app_items(all, groups[g].app@);
        assert(own.contains(groups[g].processes@[k]));
        let m = choose|m: int| 0 <= m < own.len() && own[m] == groups[g].processes@[k];
        assert(own[m].app@ == groups[g].app@);
    }
    assert forall|i: int| 0 <= i < all.len() implies exists|g: int|
        0 <= g < groups.len() && groups[g].app@ == (#[trigger] all[i]).app@ && (
        #[trigger] groups[g]).processes@.contains(all[i]) by {
        assert(has_app(groups, all[i].app@));
        let g = choose|g: int| 0 <= g < groups.len() && (#[trigger] groups[g]).app@ == all[i].app@;
        let own = of_app(all, groups[g].app@);
        assert(gathers(groups[g], all));
        lemma_of_app_items(all, groups[g].app@);
        lemma_sorted_keeps_items(groups[g].processes@, own);
        let m = choose|m: int| 0 <= m < own.len() && own[m] == all[i];
        assert(groups[g].processes@.contains(own[m]));
    }
}

/// The total of a group is the memory of its processes, and they stand with the busiest first,
/// where what was measured are numbers.
pub proof fn law_group_is_its_processes(groups: Seq<AppProcesses>, all: Seq<ProcessStat>, g: int)
    requires
        divides(groups, all),
        0 <= g < groups.len(),
        forall|i: int| 0 <= i < all.len() ==> !(#[trigger] all[i]).cpu.is_nan(),
    ensures
        groups[g].processes@.len() > 0,
        groups[g].total_mem_mib == mem_sum(groups[g].processes@),
        forall|i: int, j: int|
            0 <= i < j < groups[g].processes@.len() ==> (#[trigger] groups[g].processes@[i]).cpu.value() >= (
            #[trigger] groups[g].processes@[j]).cpu.value(),
{
    let own = of_app(all, groups[g].app@);
    let list = groups[g].processes@;
    assert(gathers(groups[g], all));
    lemma_sorted_keeps_items(list, own);
    lemma_of_app_items(all, groups[g].app@);
    assert forall|i: int| 0 <= i < own.len() implies (#[trigger] own[i]).orderly() by {
        assert(all.contains(own[i]));
        let k = choose|k: int| 0 <= k < all.len() && all[k] == own[i];
        assert(!all[k].cpu.is_nan());
    }
    crate::order::law_put_in_order(list, own);
    let p = choose|p: Seq<int>| arranges(list, own, p);
    lemma_arranged_memory(list, own, p);
    assert forall|i: int, j: int| 0 <= i < j < list.len() implies (#[trigger] list[i]).cpu.value() >= (
    #[trigger] list[j]).cpu.value() by {
        assert(own.contains(list[i]) && own.contains(list[j]));
        assert(!list[j].before(list[i]));
        law_busier_process_first(list[j], list[i]);
    }
}

/// Arranging processes in another way does not change the memory that they take.
proof fn lemma_arranged_memory(out: Seq<ProcessStat>, items: Seq<ProcessStat>, p: Seq<int>)
    requires
        arranges(out, items, p),
    ensures
        mem_sum(out) == mem_sum(items),
    decreases items.len(),
{
    if items.len() > 0 {
        let n = items.len() - 1;
        lemma_arrangement_covers(p, items.len(), n);
        let k = choose|k: int| 0 <= k < p.len() && p[k] == n;
        let rest = out.remove(k);
        let q = p.remove(k);
        let front = items.drop_last();
        assert(is_arrangement(q, front.len())) by {
            assert forall|i: int| 0 <= i < q.len() implies 0 <= #[trigger] q[i] < front.len() by {
                assert(q[i] == if i < k {
                    p[i]
                } else {
                    p[i + 1]
                });
            }
        }
        assert forall|i: int| 0 <= i < q.len() implies #[trigger] rest[i] == front[q[i]] by {
            if i < k {
                assert(out[i] == items[p[i]]);
            } else {
                assert(out[i + 1] == items[p[i + 1]]);
            }
        }
        lemma_arranged_memory(rest, front, q);
        let (a, b) = (out.take(k), out.skip(k + 1));
        assert(out =~= a.push(out[k]) + b);
        assert(rest =~= a + b);
        law_memory_adds_up(a.push(out[k]), b, out[k]);
        law_memory_adds_up(a, b, out[k]);
        assert(out[k] == items[p[k]]);
    } else {
        assert(out =~= items);
    }
}

/// The first processes of a list are as many as there is room for, the busiest first, and none
/// that was left out is busier than one that is in.
pub proof fn law_top_is_busiest(out: Seq<ProcessStat>, rows: Seq<ProcessStat>, limit: int)
    requires
        are_top(out, rows, limit),
        0 <= limit,
        forall|i: int| 0 <= i < rows.len() ==> !(#[trigger] rows[i]).cpu.is_nan(),
    ensures
        out.len() == (if limit < rows.len() {
            limit
        } else {
            rows.len() as int
        }),
        forall|i: int| 0 <= i < out.len() ==> rows.contains(#[trigger] out[i]),
        forall|i: int, j: int|
            0 <= i < j < out.len() ==> (#[trigger] out[i]).cpu.value() >= (#[trigger] out[j]).cpu.value(),
        forall|k: int, i: int|
            0 <= k < rows.len() && 0 <= i < out.len() && !out.contains(rows[k]) ==> (#[trigger] out[i]).cpu.value() >= (
            #[trigger] rows[k]).cpu.value(),
{
    let all = choose|all: Seq<ProcessStat>|
        {
            &&& #[trigger] sorted_from(all, rows)
            &&& out == all.take(if limit < all.len() {
                limit
            } else {
                all.len() as int
            })
        };
    assert forall|i: int| 0 <= i < rows.len() implies (#[trigger] rows[i]).orderly() by {}
    lemma_sorted_keeps_items(all, rows);
    crate::order::law_put_in_order(all, rows);
    assert forall|i: int| 0 <= i < out.len() implies rows.contains(#[trigger] out[i]) by {
        assert(out[i] == all[i]);
    }
    assert forall|i: int, j: int| 0 <= i < j < all.len() implies (#[trigger] all[i]).cpu.value() >= (
    #[trigger] all[j]).cpu.value() by {
        assert(rows.contains(all[i]) && rows.contains(all[j]));
        assert(!all[j].before(all[i]));
        law_busier_process_first(all[j], all[i]);
    }
    assert forall|k: int, i: int|
        0 <= k < rows.len() && 0 <= i < out.len() && !out.contains(rows[k]) implies (#[trigger] out[i]).cpu.value() >= (
    #[trigger] rows[k]).cpu.value() by {
        assert(all.contains(rows[k]));
        let m = choose|m: int| 0 <= m < all.len() && all[m] == rows[k];
        if m < out.len() {
            assert(out[m] == rows[k]);
        }
        assert(all[i].cpu.value() >= all[m].cpu.value());
    }
}

/// Threads leave nothing behind, and a process leaves one row that differs from what was
/// measured at most in its share; what is measured in turn stands in turn.
pub proof fn law_leaders_stay(a: Seq<Measured>, b: Seq<Measured>, m: Measured)
    ensures
        leader_rows(a + b) == leader_rows(a) + leader_rows(b),
        m.is_thread ==> leader_rows(seq![m]).len() == 0,
        !m.is_thread ==> leader_rows(seq![m]).len() == 1 && leader_rows(seq![m])[0] == (ProcessStat {
            cpu: leader_rows(seq![m])[0].cpu,
            ..m.row
        }),
        !m.is_thread && m.row.cpu.is_share() ==> leader_rows(seq![m])[0] == m.row,
    decreases b.len(),
{
    reveal_with_fuel(leader_rows, 2);
    assert(seq![m].drop_last() =~= Seq::<Measured>::empty());
    if b.len() > 0 {
        law_leaders_stay(a, b.drop_last(), m);
        assert((a + b).drop_last() =~= a + b.drop_last());
        assert(leader_rows(a + b) =~= leader_rows(a) + leader_rows(b));
    } else {
        assert(a + b =~= a);
        assert(leader_rows(a + b) =~= leader_rows(a) + leader_rows(b));
    }
}

/// Every process of a flat list keeps its row but for its share, which lies from 0 to 100.
pub proof fn law_rows_keep_all_but_share(rows: Seq<ProcessStat>, i: int)
    requires
        0 <= i < rows.len(),
        !rows[i].cpu.is_nan(),
    ensures
        share_rows(rows).len() == rows.len(),
        share_rows(rows)[i] == (ProcessStat { cpu: share_rows(rows)[i].cpu, ..rows[i] }),
        share_rows(rows)[i].cpu.is_share(),
        rows[i].cpu.is_share() ==> share_rows(rows)[i] == rows[i],
{
    crate::reading::law_percent_is_share(rows[i].cpu);
}

/// Whether a live group has the name, the memory and the processes of a list, and a total.
pub open spec fn shows_all_of(group: ProcessGroup, list: AppProcesses, total: Reading) -> bool {
    &&& group.app@ == list.app@
    &&& group.processes@ == list.processes@
    &&& group.total_mem_mib == list.total_mem_mib
    &&& group.total_cpu == total
    &&& !group.stale
}

/// Whether one of the groups shows a list and its total.
pub open spec fn some_shows_all_of(groups: Seq<ProcessGroup>, list: AppProcesses, total: Reading) -> bool {
    exists|i: int| 0 <= i < groups.len() && shows_all_of(#[trigger] groups[i], list, total)
}

/// Ranking keeps every list with its memory, its processes and its own total, as a live group,
/// and puts the busiest first.
pub proof fn law_ranked_groups(
    out: Seq<ProcessGroup>,
    groups: Seq<ProcessGroup>,
    lists: Seq<AppProcesses>,
    totals: Seq<Reading>,
)
    requires
        are_groups_of(groups, lists, totals),
        sorted_from(out, groups),
        lists.len() == totals.len(),
    ensures
        out.len() == lists.len(),
        forall|k: int|
            0 <= k < lists.len() ==> some_shows_all_of(out, #[trigger] lists[k], totals[k]),
        (forall|k: int| 0 <= k < totals.len() ==> !(#[trigger] totals[k]).is_nan()) ==> forall|i: int, j: int|
            0 <= i < j < out.len() ==> (#[trigger] out[i]).total_cpu.value() >= (#[trigger] out[j]).total_cpu.value(),
{
    lemma_sorted_keeps_items(out, groups);
    assert forall|k: int| 0 <= k < lists.len() implies some_shows_all_of(
        out,
        #[trigger] lists[k],
        totals[k],
    ) by {
        assert(is_group_of(groups[k]@, lists[k], totals[k]));
        assert(out.contains(groups[k]));
        let i = choose|i: int| 0 <= i < out.len() && out[i] == groups[k];
        assert(out[i]@.app == out[i].app@ && out[i]@.processes == out[i].processes@);
        assert(out[i]@.total_mem_mib == out[i].total_mem_mib && out[i]@.total_cpu == out[i].total_cpu);
        assert(shows_all_of(out[i], lists[k], totals[k]));
    }
    if forall|k: int| 0 <= k < totals.len() ==> !(#[trigger] totals[k]).is_nan() {
        assert forall|k: int| 0 <= k < groups.len() implies (#[trigger] groups[k]).orderly() && !groups[k].stale by {
            assert(is_group_of(groups[k]@, lists[k], totals[k]));
            assert(!totals[k].is_nan());
            assert(groups[k]@.total_cpu == groups[k].total_cpu && groups[k]@.stale == groups[k].stale);
        }
        crate::order::law_put_in_order(out, groups);
        assert forall|i: int, j: int| 0 <= i < j < out.len() implies (#[trigger] out[i]).total_cpu.value() >= (
        #[trigger] out[j]).total_cpu.value() by {
            assert(groups.contains(out[i]) && groups.contains(out[j]));
            let a = choose|a: int| 0 <= a < groups.len() && groups[a] == out[i];
            let b = choose|b: int| 0 <= b < groups.len() && groups[b] == out[j];
            assert(groups[a].orderly() && groups[b].orderly());
            assert(!out[j].before(out[i]));
            law_busier_group_first(out[j], out[i]);
        }
    }
}

/// Of several groups of an application the last counts.
pub proof fn law_last_group_counts(groups: Seq<ProcessGroup>, app: Seq<char>, i: int)
    requires
        0 <= i < groups.len(),
        groups[i].app@ == app,
        forall|j: int| i < j < groups.len() ==> (#[trigger] groups[j]).app@ != app,
    ensures
        latest(groups, app) == Some(groups[i]@),
    decreases groups.len(),
{
    if i < groups.len() - 1 {
        let front = groups.drop_last();
        assert(groups[groups.len() - 1].app@ != app);
        assert forall|j: int| i < j < front.len() implies (#[trigger] front[j]).app@ != app by {
            assert(groups[j].app@ != app);
        }
        law_last_group_counts(front, app, i);
    }
}

/// No group of an application, none that counts.
pub proof fn law_absent_group(groups: Seq<ProcessGroup>, app: Seq<char>)
    requires
        forall|j: int| 0 <= j < groups.len() ==> (#[trigger] groups[j]).app@ != app,
    ensures
        latest(groups, app) is None,
    decreases groups.len(),
{
    if groups.len() > 0 {
        let front = groups.drop_last();
        assert(groups[groups.len() - 1].app@ != app);
        assert forall|j: int| 0 <= j < front.len() implies (#[trigger] front[j]).app@ != app by {
            assert(groups[j].app@ != app);
        }
        law_absent_group(front, app);
    }
}

/// What is listed is fresh or was remembered: as it was found where it was found, else as it was
/// last seen, marked as stale, and no longer ago than is allowed.
pub proof fn law_nothing_else_is_listed(
    out: Seq<ProcessGroup>,
    history: Seq<CachedProcessGroup>,
    fresh: Seq<ProcessGroup>,
    now: u64,
    grace: u64,
    i: int,
)
    requires
        remembers_once(history),
        lists_shown(out, history, fresh, now, grace),
        0 <= i < out.len(),
    ensures
        (exists|k: int| 0 <= k < fresh.len() && (#[trigger] fresh[k])@ == out[i]@) || exists|k: int|
            0 <= k < history.len() && now - (#[trigger] history[k]).last_seen <= grace && out[i]@ == (GroupView {
                stale: true,
                ..history[k].group@
            }),
{
    let app = out[i].app@;
    assert(shown(history, fresh, now, grace, app) == Some(out[i]@));
    if latest(fresh, app) is Some {
        lemma_latest_exists(fresh, app);
    } else {
        let k = choose|k: int| is_about(history, k, app);
        assert(is_about(history, k, app));
        lemma_remembered(history, k);
    }
}

proof fn lemma_latest_exists(groups: Seq<ProcessGroup>, app: Seq<char>)
    requires
        latest(groups, app) is Some,
    ensures
        exists|k: int| 0 <= k < groups.len() && (#[trigger] groups[k])@ == latest(groups, app)->0,
    decreases groups.len(),
{
    if groups.last().app@ == app {
        assert(groups[groups.len() - 1]@ == latest(groups, app)->0);
    } else {
        let front = groups.drop_last();
        lemma_latest_exists(front, app);
        let k = choose|k: int| 0 <= k < front.len() && (#[trigger] front[k])@ == latest(front, app)->0;
        assert(groups[k]@ == latest(groups, app)->0);
    }
}

/// What is remembered of an application is what the entry about it holds.
pub proof fn law_entry_is_remembered(history: Seq<CachedProcessGroup>, i: int)
    requires
        remembers_once(history),
        0 <= i < history.len(),
    ensures
        remembered(history, history[i].group.app@) == Some((history[i].group@, history[i].last_seen)),
{
    lemma_remembered(history, i);
}

/// What is remembered of an application keeps the time at which its processes were last there,
/// through any number of refreshes without them, until the grace is over; processes that are there
/// renew it.
pub proof fn law_memory_keeps_time(
    later: Seq<CachedProcessGroup>,
    history: Seq<CachedProcessGroup>,
    fresh: Seq<ProcessGroup>,
    now: u64,
    grace: u64,
    app: Seq<char>,
)
    requires
        is_kept(later, history, fresh, now, grace),
    ensures
        latest(fresh, app) is Some ==> remembered(later, app) == Some((latest(fresh, app)->0, now)),
        latest(fresh, app) is None && remembered(history, app) is Some && now - (remembered(history, app)->0).1 <= grace
            ==> remembered(later, app) == remembered(history, app),
        latest(fresh, app) is None && remembered(history, app) is Some && now - (remembered(history, app)->0).1 > grace
            ==> remembered(later, app) is None,
        latest(fresh, app) is None && remembered(history, app) is None ==> remembered(later, app) is None,
{
    assert(remembered(later, app) == kept(history, fresh, now, grace, app));
}

} // verus!
