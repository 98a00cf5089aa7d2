use std::collections::BTreeMap;

use rtop::app::{signal_reply, App, CpuSample, KillMenuTarget, ProcessListRow};
use rtop::cpu::Sensor;
use rtop::models::{GpuStats, KillSignal, ProcessGroup, ProcessStat, StorageStats};
use rtop::reading::Reading;

const SECOND: u64 = 1_000_000_000;

fn reading(value: f32) -> Reading {
    Reading { bits: value.to_bits() }
}

fn process(app: &str, pid: &str) -> ProcessStat {
    ProcessStat {
        app: app.to_string(),
        pid: pid.to_string(),
        name: format!("proc{pid}"),
        mem_mib: 5,
        cpu: reading(1.0),
    }
}

fn group(app: &str, cpu: f32, pids: &[&str]) -> ProcessGroup {
    ProcessGroup {
        app: app.to_string(),
        total_mem_mib: 10,
        total_cpu: reading(cpu),
        stale: false,
        processes: pids.iter().map(|pid| process(app, pid)).collect(),
    }
}

fn monitor() -> App {
    let mut app = App::new(0);
    app.refresh_processes(vec![group("web", 9.0, &["1", "2"]), group("mail", 5.0, &["3"])], 0);
    app
}

fn cpu(name: &str, usage: f32) -> CpuSample {
    CpuSample {
        name: name.to_string(),
        brand: "Brand".to_string(),
        frequency: 3600,
        usage: reading(usage),
    }
}

#[test]
fn a_new_monitor_is_empty() {
    let app = App::new(7);
    assert_eq!(app.started_at, 7);
    assert!(app.combine_smt);
    assert!(app.visible_process_rows().is_empty());
    assert_eq!(app.selected_row_index(), None);
    assert_eq!(app.selected_row_kind(), None);
    assert!(app.kill_menu_target().is_none());
}

#[test]
fn processors_are_taken_in() {
    let mut app = App::new(0);
    let cpus = vec![cpu("cpu0", 10.0), cpu("cpu1", 20.0), cpu("cpu2", 30.0), cpu("cpu3", 40.0)];
    assert!(app.cpu_pairs_outdated(&cpus));
    let sensors = vec![Sensor { label: "Tctl".to_string(), temperature: Some(reading(55.0)) }];
    app.refresh_cpu(&cpus, &sensors, &BTreeMap::new());
    assert_eq!(app.cpu_model, "Brand");
    assert_eq!(app.cpu_freq_mhz, Some(3600));
    assert_eq!(app.cpu_pairs, vec![(0, Some(2)), (1, Some(3))]);
    assert_eq!(app.cpu_usage_by_id[&3], reading(40.0));
    assert_eq!(app.cpu_temp_c, Some(reading(55.0)));
    assert!(!app.cpu_pairs_outdated(&cpus));
    app.refresh_cpu(&vec![], &vec![], &BTreeMap::new());
    assert_eq!(app.cpu_model, "Brand");
    assert_eq!(app.cpu_freq_mhz, None);
    assert_eq!(app.cpu_temp_c, None);
    assert!(app.cpu_pairs.is_empty());
}

#[test]
fn rows_of_groups_and_processes() {
    let mut app = monitor();
    let apps = vec![ProcessListRow::App { app_index: 0 }, ProcessListRow::App { app_index: 1 }];
    assert_eq!(app.visible_process_rows(), apps);
    assert!(app.expand_selected_app());
    assert_eq!(
        app.visible_process_rows(),
        vec![
            ProcessListRow::App { app_index: 0 },
            ProcessListRow::Process { app_index: 0, process_index: 0 },
            ProcessListRow::Process { app_index: 0, process_index: 1 },
            ProcessListRow::App { app_index: 1 },
        ]
    );
    assert_eq!(app.selected_row, 1);
    assert_eq!(app.expanded_app_name(), Some("web"));
    assert!(app.is_expanded_app_index(0));
    assert!(!app.is_expanded_app_index(1));
    assert!(!app.is_expanded_app_index(9));
    assert_eq!(app.process_group_at(1).map(|g| g.app.clone()), Some("mail".to_string()));
    assert!(app.process_group_at(2).is_none());
    assert_eq!(app.process_at(0, 1).map(|p| p.pid.clone()), Some("2".to_string()));
    assert!(app.process_at(0, 2).is_none());
}

#[test]
fn hiding_undoes_showing() {
    let mut app = monitor();
    app.move_selection(1, 0);
    let row = app.selected_row;
    assert!(app.expand_selected_app());
    assert_eq!(app.selected_row_kind(), Some(ProcessListRow::Process { app_index: 1, process_index: 0 }));
    assert!(!app.expand_selected_app());
    assert!(app.collapse_expanded_app());
    assert_eq!(app.selected_row, row);
    assert_eq!(app.expanded_app_name(), None);
    assert!(!app.collapse_expanded_app());
}

#[test]
fn the_selection_stays_on_the_rows() {
    let mut app = monitor();
    app.move_selection(-1, 0);
    assert_eq!(app.selected_row, 0);
    app.move_selection(isize::MAX, 0);
    assert_eq!(app.selected_row, 1);
    app.move_selection(isize::MIN, 0);
    assert_eq!(app.selected_row, 0);
    app.move_selection(1, 0);
    app.refresh_processes(vec![group("web", 9.0, &["1"])], 10 * SECOND);
    assert_eq!(app.selected_row_index(), Some(0));
    let mut empty = App::new(0);
    empty.move_selection(1, 0);
    assert_eq!(empty.selected_row, 0);
    assert!(!empty.process_updates_frozen(0));
}

#[test]
fn the_list_stands_still_after_a_movement() {
    let mut app = monitor();
    app.move_selection(1, 10 * SECOND);
    assert!(app.process_updates_frozen(12 * SECOND - 1));
    assert!(!app.process_updates_frozen(12 * SECOND));
    assert!(app.process_updates_locked(11 * SECOND));
    assert_eq!(app.process_freeze_remaining(11 * SECOND), Some(SECOND));
    assert_eq!(app.process_freeze_remaining(12 * SECOND), None);
    app.clear_expired_state(12 * SECOND);
    assert_eq!(app.process_freeze_until, None);
}

#[test]
fn an_application_that_vanished_stops_showing_its_processes() {
    let mut app = monitor();
    app.expand_selected_app();
    assert!(app.process_updates_locked(0));
    app.refresh_processes(vec![group("mail", 5.0, &["3"])], SECOND);
    assert_eq!(app.expanded_app_name(), Some("web"));
    app.refresh_processes(vec![group("mail", 5.0, &["3"])], 10 * SECOND);
    assert_eq!(app.expanded_app_name(), None);
    assert_eq!(app.selected_row, 0);
}

#[test]
fn stale_applications_cannot_be_acted_on() {
    let mut app = monitor();
    app.refresh_processes(vec![group("web", 9.0, &["1"])], SECOND);
    app.move_selection(1, SECOND);
    assert!(app.process_groups[1].stale);
    assert!(!app.expand_selected_app());
    app.open_kill_menu(SECOND);
    assert!(!app.kill_menu_open);
    let status = app.status_message.as_ref().unwrap();
    assert_eq!(status.text, "App is no longer active");
    assert!(status.is_error);
    assert_eq!(status.expires_at, 4 * SECOND);
}

#[test]
fn nothing_selected_is_said() {
    let mut app = App::new(0);
    app.open_kill_menu(0);
    assert_eq!(app.status_message.as_ref().unwrap().text, "Nothing selected");
    assert!(!app.kill_menu_open);
}

#[test]
fn messages_last_their_time() {
    let mut app = App::new(0);
    app.set_status(SECOND, "done", false);
    app.clear_expired_state(4 * SECOND - 1);
    assert!(app.status_message.is_some());
    app.clear_expired_state(4 * SECOND);
    assert!(app.status_message.is_none());
}

#[test]
fn the_menu_acts_on_the_selected_process() {
    let mut app = monitor();
    app.expand_selected_app();
    app.move_selection(1, 0);
    app.open_kill_menu(0);
    assert!(app.kill_menu_open);
    assert_eq!(app.signal_targets(), vec!["2"]);
    let sent = app.send_kill_to_selected(KillSignal::Term, &vec![Ok(())]);
    assert_eq!(sent, Ok("SIGTERM sent to PID 2 (proc2)".to_string()));
    let refused = app.send_kill_to_selected(KillSignal::Kill, &vec![Err("no".to_string())]);
    assert_eq!(refused, Err("no".to_string()));
    app.close_kill_menu();
    assert!(!app.kill_menu_open);
    assert!(app.signal_targets().is_empty());
    assert_eq!(
        app.send_kill_to_selected(KillSignal::Kill, &vec![]),
        Err("No action target selected".to_string())
    );
}

#[test]
fn the_menu_acts_on_the_selected_application() {
    let mut app = monitor();
    app.open_kill_menu(0);
    assert_eq!(app.signal_targets(), vec!["1", "2"]);
    let all = app.send_kill_to_selected(KillSignal::Kill, &vec![Ok(()), Ok(())]);
    assert_eq!(all, Ok("SIGKILL sent to app web (2/2 processes)".to_string()));
    let some = app.send_kill_to_selected(KillSignal::Term, &vec![Ok(()), Err("gone".to_string())]);
    assert_eq!(some, Err("SIGTERM partially sent to app web (1/2). PID 2: gone".to_string()));
    let none = app.send_kill_to_selected(
        KillSignal::Term,
        &vec![Err("first".to_string()), Err("second".to_string())],
    );
    assert_eq!(none, Err("failed to send SIGTERM to app web: PID 1: first".to_string()));
}

#[test]
fn an_application_without_processes_is_not_signalled() {
    let mut app = App::new(0);
    app.kill_menu_target =
        Some(KillMenuTarget::App { app: "x".to_string(), pids: vec![], process_count: 0 });
    assert_eq!(
        app.send_kill_to_selected(KillSignal::Term, &vec![]),
        Err("App has no processes to signal".to_string())
    );
}

#[test]
fn the_menu_shows_the_processes_of_its_application() {
    let mut app = monitor();
    app.open_kill_menu(0);
    assert!(app.expand_kill_menu_app_target());
    assert_eq!(app.expanded_app_name(), Some("web"));
    assert_eq!(app.selected_row, 1);
    app.open_kill_menu(0);
    assert!(!app.expand_kill_menu_app_target());
}

#[test]
fn replies_of_the_kill_command() {
    assert_eq!(signal_reply(true, "noise", "exit status: 0"), Ok(()));
    assert_eq!(
        signal_reply(false, " no such process\n", "exit status: 1"),
        Err("kill failed: no such process".to_string())
    );
    assert_eq!(
        signal_reply(false, " \n", "exit status: 1"),
        Err("kill failed with status exit status: 1".to_string())
    );
}

#[test]
fn signals() {
    assert_eq!(KillSignal::Term.as_kill_arg(), "-TERM");
    assert_eq!(KillSignal::Kill.as_kill_arg(), "-KILL");
    assert_eq!(KillSignal::Term.label(), "SIGTERM");
    assert_eq!(KillSignal::Kill.label(), "SIGKILL");
}

#[test]
fn everything_at_once() {
    let mut app = App::new(0);
    let gpu = GpuStats {
        name: "card".to_string(),
        usage_pct: reading(1.0),
        temp_c: reading(2.0),
        vram_used_mib: reading(3.0),
        vram_total_mib: reading(4.0),
    };
    let storage = StorageStats { used_bytes: 1, total_bytes: 2 };
    app.refresh_all(
        &vec![cpu("cpu0", 1.0)],
        &vec![],
        &BTreeMap::new(),
        vec![group("web", 9.0, &["1"])],
        Some(gpu),
        Some(storage),
        5,
    );
    assert_eq!(app.cpu_pairs, vec![(0, None)]);
    assert_eq!(app.process_groups.len(), 1);
    assert_eq!(app.gpu.as_ref().map(|g| g.name.clone()), Some("card".to_string()));
    assert_eq!(app.storage.map(|s| s.total_bytes), Some(2));
    app.refresh_gpu(None);
    app.refresh_storage(None);
    assert!(app.gpu.is_none() && app.storage.is_none());
    app.toggle_combine_smt();
    assert!(!app.combine_smt);
}

#[test]
fn hiding_leads_back_after_movements() {
    let mut app = monitor();
    app.move_selection(1, 0);
    assert!(app.expand_selected_app());
    app.move_selection(-2, SECOND);
    app.move_selection(1, 2 * SECOND);
    app.move_selection(9, 3 * SECOND);
    assert!(app.collapse_expanded_app());
    assert_eq!(app.selected_row, 1);
    assert_eq!(app.selected_row_kind(), Some(ProcessListRow::App { app_index: 1 }));
    assert_eq!(app.expanded_app_name(), None);
    assert_eq!(app.process_freeze_until, Some(5 * SECOND));
    assert!(!app.collapse_expanded_app());
}

#[test]
fn each_shown_process_has_one_row() {
    let mut app = monitor();
    app.expand_selected_app();
    let rows = app.visible_process_rows();
    for process_index in 0..2 {
        let row = ProcessListRow::Process { app_index: 0, process_index };
        let places = (0..rows.len()).filter(|k| rows[*k] == row).collect::<Vec<_>>();
        assert_eq!(places, vec![1 + process_index]);
        assert_eq!(app.row_index_for_child(0, process_index), Some(1 + process_index));
    }
    let hidden = ProcessListRow::Process { app_index: 1, process_index: 0 };
    assert!(!rows.contains(&hidden));
    assert_eq!(app.row_index_for_child(1, 0), None);
    assert_eq!(app.row_index_for_child(0, 2), None);
    assert_eq!(app.row_index_for_child(9, 0), None);
}
