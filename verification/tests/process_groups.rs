use rtop::models::{ProcessGroup, ProcessStat};
use rtop::processes::{
    group_processes_by_app, rank_groups, leaders, stabilize_process_groups, top_processes,
    CachedProcessGroup, Measured,
};
use rtop::reading::Reading;

fn reading(value: f32) -> Reading {
    Reading { bits: value.to_bits() }
}

fn process(app: &str, pid: &str, mem: u64, cpu: f32) -> ProcessStat {
    ProcessStat {
        app: app.to_string(),
        pid: pid.to_string(),
        name: format!("{app}-{pid}"),
        mem_mib: mem,
        cpu: reading(cpu),
    }
}

fn group(app: &str, mem: u64, cpu: f32) -> ProcessGroup {
    ProcessGroup {
        app: app.to_string(),
        total_mem_mib: mem,
        total_cpu: reading(cpu),
        stale: false,
        processes: vec![process(app, "1", mem, cpu)],
    }
}

fn measured(app: &str, pid: &str, mem: u64, cpu: f32, is_thread: bool) -> Measured {
    Measured { is_thread, row: process(app, pid, mem, cpu) }
}

fn pids(list: &[ProcessStat]) -> Vec<&str> {
    list.iter().map(|p| p.pid.as_str()).collect()
}

fn shown(list: &[ProcessGroup]) -> Vec<(&str, bool)> {
    list.iter().map(|g| (g.app.as_str(), g.stale)).collect()
}

#[test]
fn busiest_first() {
    let rows = vec![
        measured("a", "1", 10, 1.0, false),
        measured("a", "2", 20, 5.0, false),
        measured("b", "3", 30, 1.0, false),
        measured("b", "4", 10, 1.0, false),
    ];
    assert_eq!(pids(&top_processes(&rows, usize::MAX)), vec!["2", "3", "1", "4"]);
    assert_eq!(pids(&top_processes(&rows, 2)), vec!["2", "3"]);
    assert_eq!(pids(&top_processes(&rows, 0)), Vec::<&str>::new());
}

#[test]
fn threads_are_left_out_and_shares_kept_in_range() {
    let rows = vec![
        measured("a", "1", 10, -3.0, false),
        measured("a", "2", 20, 5.0, true),
        measured("b", "3", 30, 250.0, false),
        measured("b", "4", 10, 42.5, false),
    ];
    let found = leaders(&rows);
    assert_eq!(pids(&found), vec!["1", "3", "4"]);
    let shares = found.iter().map(|row| row.cpu).collect::<Vec<_>>();
    assert_eq!(shares, vec![reading(0.0), reading(100.0), reading(42.5)]);
    let top = top_processes(&rows, 2);
    assert_eq!(pids(&top), vec!["3", "4"]);
    assert_eq!(top[0].cpu, reading(100.0));
}

#[test]
fn one_group_for_each_application() {
    let lists = group_processes_by_app(vec![
        process("web", "1", 10, 1.0),
        process("mail", "2", 20, 5.0),
        process("web", "3", 30, 2.0),
    ]);
    let mut found = lists
        .iter()
        .map(|l| (l.app.as_str(), l.total_mem_mib, pids(&l.processes)))
        .collect::<Vec<_>>();
    found.sort();
    assert_eq!(found, vec![("mail", 20, vec!["2"]), ("web", 40, vec!["3", "1"])]);
    assert!(group_processes_by_app(vec![]).is_empty());
}

#[test]
fn groups_in_order() {
    let lists = group_processes_by_app(vec![
        process("b", "1", 10, 1.0),
        process("a", "2", 10, 1.0),
        process("c", "3", 20, 1.0),
        process("d", "4", 1, 9.0),
    ]);
    let totals = lists.iter().map(|l| l.processes[0].cpu).collect::<Vec<_>>();
    let groups = rank_groups(lists, &totals);
    let names = groups.iter().map(|g| g.app.as_str()).collect::<Vec<_>>();
    assert_eq!(names, vec!["d", "c", "a", "b"]);
    assert!(groups.iter().all(|g| !g.stale));
    assert_eq!(groups[0].total_cpu, reading(9.0));
    assert_eq!(groups[1].total_mem_mib, 20);
}

#[test]
fn groups_that_went_away_linger() {
    let mut history: Vec<CachedProcessGroup> = Vec::new();
    let out = stabilize_process_groups(&mut history, vec![group("a", 1, 5.0), group("b", 2, 9.0)], 100, 30);
    assert_eq!(shown(&out), vec![("b", false), ("a", false)]);

    let out = stabilize_process_groups(&mut history, vec![group("a", 1, 5.0)], 130, 30);
    assert_eq!(shown(&out), vec![("a", false), ("b", true)]);
    assert_eq!(out[1].total_mem_mib, 2);

    let out = stabilize_process_groups(&mut history, vec![group("a", 1, 5.0)], 131, 30);
    assert_eq!(shown(&out), vec![("a", false)]);
    assert_eq!(history.len(), 1);
}

#[test]
fn groups_that_came_back_are_live_once() {
    let mut history: Vec<CachedProcessGroup> = Vec::new();
    stabilize_process_groups(&mut history, vec![group("a", 1, 5.0)], 0, 10);
    stabilize_process_groups(&mut history, vec![], 5, 10);
    let out = stabilize_process_groups(&mut history, vec![group("a", 7, 6.0)], 9, 10);
    assert_eq!(shown(&out), vec![("a", false)]);
    assert_eq!(out[0].total_mem_mib, 7);
}

#[test]
fn the_last_of_two_groups_of_one_application_counts() {
    let mut history: Vec<CachedProcessGroup> = Vec::new();
    let out = stabilize_process_groups(&mut history, vec![group("a", 1, 5.0), group("a", 2, 1.0)], 0, 10);
    assert_eq!(out.len(), 1);
    assert_eq!(out[0].total_mem_mib, 2);
}

#[test]
fn stale_groups_come_last() {
    let mut history: Vec<CachedProcessGroup> = Vec::new();
    stabilize_process_groups(&mut history, vec![group("busy", 1, 90.0)], 0, 10);
    let out = stabilize_process_groups(&mut history, vec![group("idle", 1, 0.0)], 1, 10);
    assert_eq!(shown(&out), vec![("idle", false), ("busy", true)]);
}
