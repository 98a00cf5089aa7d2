use rtop::config::{CPU_INTERVAL, DRAW_INTERVAL, GPU_INTERVAL, PROCESS_INTERVAL, STORAGE_INTERVAL};
use rtop::models::{KillSignal, ProcessGroup, ProcessStat};
use rtop::reading::Reading;
use rtop::tui::{Action, Due, Key, Schedule, Session};

const START: u64 = 10_000_000_000;

fn group(app: &str, pids: &[&str]) -> ProcessGroup {
    let cpu = Reading { bits: 1.0f32.to_bits() };
    ProcessGroup {
        app: app.to_string(),
        total_mem_mib: 1,
        total_cpu: cpu,
        stale: false,
        processes: pids
            .iter()
            .map(|pid| ProcessStat {
                app: app.to_string(),
                pid: pid.to_string(),
                name: pid.to_string(),
                mem_mib: 1,
                cpu,
            })
            .collect(),
    }
}

fn session() -> Session {
    let mut s = Session::new(START);
    s.refresh_processes(vec![group("web", &["1", "2"])], START, START);
    s
}

#[test]
fn everything_is_due_at_the_start() {
    let mut s = Session::new(START);
    let all = Due { cpu: true, processes: true, gpu: true, storage: true, draw: true };
    assert_eq!(s.begin(START), all);
    let none = Due { cpu: false, processes: false, gpu: false, storage: false, draw: false };
    assert_eq!(s.begin(START), none);
}

#[test]
fn intervals() {
    assert_eq!(
        (DRAW_INTERVAL, CPU_INTERVAL, PROCESS_INTERVAL, GPU_INTERVAL, STORAGE_INTERVAL),
        (240_000_000, 800_000_000, 800_000_000, 800_000_000, 4_000_000_000)
    );
    let mut s = Session::new(START);
    s.begin(START);
    assert!(!s.begin(START + DRAW_INTERVAL - 1).draw);
    let due = s.begin(START + DRAW_INTERVAL);
    assert!(due.draw && !due.cpu);
    let due = s.begin(START + CPU_INTERVAL);
    assert!(due.cpu && due.processes && due.gpu && !due.storage);
    assert!(s.begin(START + STORAGE_INTERVAL).storage);
}

#[test]
fn waiting_until_something_is_due() {
    let schedule = Schedule {
        last_draw: 100,
        last_cpu: 200,
        last_process: 300,
        last_gpu: 400,
        last_storage: 500,
    };
    assert_eq!(schedule.timeout(false, 600, 600), 100 + DRAW_INTERVAL - 600);
    assert_eq!(schedule.timeout(false, 600, 10 * START), 0);
    let late = Schedule {
        last_draw: START,
        last_cpu: START,
        last_process: START - PROCESS_INTERVAL + 1,
        last_gpu: START,
        last_storage: START,
    };
    assert_eq!(late.timeout(false, START, START), 1);
    assert_eq!(late.timeout(true, START, START), DRAW_INTERVAL);
    for later in START..START + 1 {
        assert!(!late.due(false, later).processes);
    }
    assert!(late.due(false, START + 1).processes);
    assert!(!late.due(true, START + 1).processes);
}

#[test]
fn a_locked_list_is_not_refreshed() {
    let mut s = session();
    assert_eq!(s.key(Key::Enter, START), Action::Redraw);
    assert!(s.app.kill_menu_open);
    assert!(!s.begin(START + 10 * PROCESS_INTERVAL).processes);
    assert_eq!(s.key(Key::Esc, START), Action::Redraw);
    assert!(s.begin(START + 10 * PROCESS_INTERVAL).processes);
    assert_eq!(s.key(Key::Right, START), Action::Redraw);
    assert!(!s.begin(START + 20 * PROCESS_INTERVAL).processes);
}

#[test]
fn keys_of_the_list() {
    let mut s = session();
    assert_eq!(s.key(Key::Char('x'), START), Action::Wait);
    assert_eq!(s.key(Key::Other, START), Action::Wait);
    assert_eq!(s.key(Key::Left, START), Action::Wait);
    assert_eq!(s.key(Key::Char('m'), START), Action::Redraw);
    assert!(!s.app.combine_smt);
    assert_eq!(s.key(Key::Char('m'), START), Action::Redraw);
    assert!(s.app.combine_smt);
    assert_eq!(s.key(Key::Right, START), Action::Redraw);
    assert_eq!(s.app.selected_row, 1);
    assert_eq!(s.key(Key::Right, START), Action::Wait);
    assert_eq!(s.key(Key::Down, START), Action::Redraw);
    assert_eq!(s.app.selected_row, 2);
    assert_eq!(s.key(Key::Up, START), Action::Redraw);
    assert_eq!(s.app.selected_row, 1);
    assert_eq!(s.key(Key::Left, START), Action::Redraw);
    assert_eq!(s.app.selected_row, 0);
    assert_eq!(s.key(Key::Char('q'), START), Action::Quit);
    assert_eq!(s.key(Key::Esc, START), Action::Quit);
}

#[test]
fn keys_of_the_menu() {
    let mut s = session();
    s.key(Key::Enter, START);
    assert_eq!(s.key(Key::Char('q'), START), Action::Wait);
    assert_eq!(s.key(Key::Up, START), Action::Wait);
    assert_eq!(s.key(Key::Enter, START), Action::Send(KillSignal::Term));
    assert_eq!(s.key(Key::Char('k'), START), Action::Send(KillSignal::Term));
    assert_eq!(s.key(Key::Char('f'), START), Action::Send(KillSignal::Kill));
    assert_eq!(s.key(Key::Char('K'), START), Action::Send(KillSignal::Kill));
    assert!(s.app.kill_menu_open);
    assert_eq!(s.key(Key::Char('o'), START), Action::Redraw);
    assert!(!s.app.kill_menu_open);
    assert_eq!(s.app.expanded_app_name(), Some("web"));
    s.key(Key::Enter, START);
    assert_eq!(s.key(Key::Right, START), Action::Wait);
    assert!(s.app.kill_menu_open);
}

#[test]
fn replies_close_the_menu_and_are_reported() {
    let mut s = session();
    s.key(Key::Enter, START);
    assert!(!s.signals_sent(KillSignal::Term, &vec![Ok(()), Err("gone".to_string())], START));
    assert!(!s.app.kill_menu_open);
    let status = s.app.status_message.as_ref().unwrap();
    assert!(status.is_error);
    assert_eq!(status.text, "SIGTERM partially sent to app web (1/2). PID 2: gone");
    s.key(Key::Enter, START);
    assert!(s.signals_sent(KillSignal::Term, &vec![Ok(()), Ok(())], START));
    let status = s.app.status_message.as_ref().unwrap();
    assert!(!status.is_error);
    s.refresh_processes(vec![], START + 7, START + 5);
    assert_eq!(s.schedule.last_process, START + 5);
    s.drawn(START + 6);
    assert_eq!(s.schedule.last_draw, START + 6);
    assert!(s.timeout(START + 6, START + 6) <= DRAW_INTERVAL);
}

#[test]
fn what_has_run_out_is_gone_before_a_key_counts() {
    let mut s = session();
    s.app.set_status(START, "old", false);
    s.key(Key::Other, START + 2_999_999_999);
    assert!(s.app.status_message.is_some());
    s.key(Key::Other, START + 3_000_000_000);
    assert!(s.app.status_message.is_none());
}
