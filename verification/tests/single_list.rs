use rtop::flat::{render_footer, render_kill_menu, render_process_table, FlatList, LIST_LIMIT};
use rtop::layout::Rect;
use rtop::models::{KillSignal, ProcessStat};
use rtop::reading::Reading;
use rtop::tui::{Action, Key};
use rtop::widgets::{Line, Screen, Span, Widget};

const SECOND: u64 = 1_000_000_000;

fn r(value: f32) -> Reading {
    Reading { bits: value.to_bits() }
}

fn process(pid: &str, cpu: f32) -> ProcessStat {
    ProcessStat {
        app: String::new(),
        pid: pid.to_string(),
        name: format!("n{pid}"),
        mem_mib: 3,
        cpu: r(cpu),
    }
}

fn list() -> FlatList {
    let mut list = FlatList::new();
    list.refresh_processes(vec![process("1", 1.0), process("2", 2.0), process("3", 3.0)]);
    list
}

fn text(line: &Line) -> String {
    line.spans
        .iter()
        .map(|span| match span {
            Span::Text { text, .. } => text.clone(),
            Span::Meter { .. } => String::new(),
        })
        .collect()
}

fn area() -> Rect {
    Rect { x: 0, y: 0, width: 60, height: 8 }
}

#[test]
fn the_selection_stays_on_top_until_moved() {
    let mut list = list();
    assert_eq!(list.selected_pid.as_deref(), Some("3"));
    list.refresh_processes(vec![process("3", 1.0), process("1", 9.0)]);
    assert_eq!(list.selected_pid.as_deref(), Some("1"));
    assert_eq!(list.selected_index(), Some(0));
}

#[test]
fn the_selection_follows_its_process() {
    let mut list = list();
    list.move_selection(1, 0);
    assert_eq!(list.selected_pid.as_deref(), Some("2"));
    list.refresh_processes(vec![process("2", 0.5), process("1", 9.0), process("4", 7.0)]);
    assert_eq!(list.selected_index, 2);
    assert_eq!(list.selected_process().map(|p| p.pid.as_str()), Some("2"));
    list.refresh_processes(vec![process("1", 9.0), process("4", 7.0)]);
    assert_eq!(list.selected_index, 1);
    assert_eq!(list.selected_pid.as_deref(), Some("4"));
    list.kill_menu_open = true;
    list.refresh_processes(vec![]);
    assert_eq!(list.selected_index(), None);
    assert!(list.selected_process().is_none());
    assert!(!list.kill_menu_open);
}

#[test]
fn the_list_is_limited() {
    let mut list = FlatList::new();
    list.refresh_processes((0..300).map(|i| process(&format!("{i}"), i as f32 / 4.0)).collect());
    assert_eq!(list.processes.len(), LIST_LIMIT);
    assert_eq!(list.processes[0].pid, "299");
    list.refresh_processes(vec![process("1", 400.0), process("2", -1.0)]);
    assert_eq!(list.processes[0].cpu, r(100.0));
    assert_eq!(list.processes[1].cpu, r(0.0));
}

#[test]
fn moving_in_the_list() {
    let mut list = list();
    list.move_selection(isize::MIN, 0);
    assert_eq!(list.selected_index, 0);
    list.move_selection(isize::MAX, 0);
    assert_eq!(list.selected_index, 2);
    assert!(list.process_updates_locked(2 * SECOND - 1));
    assert!(!list.process_updates_locked(2 * SECOND));
    assert_eq!(list.process_due(0, SECOND), 2 * SECOND);
    assert_eq!(list.process_due(SECOND, 2 * SECOND), SECOND + 800_000_000);
    list.clear_expired_state(2 * SECOND);
    assert_eq!(list.process_freeze_until, None);
}

#[test]
fn keys_and_signals_of_the_list() {
    let mut list = list();
    assert_eq!(list.key(Key::Left, 0), Action::Wait);
    assert_eq!(list.key(Key::Down, 0), Action::Redraw);
    assert_eq!(list.key(Key::Up, 0), Action::Redraw);
    assert_eq!(list.key(Key::Char('q'), 0), Action::Quit);
    assert_eq!(list.key(Key::Enter, 0), Action::Redraw);
    assert!(list.kill_menu_open);
    assert_eq!(list.process_due(0, SECOND), 800_000_000);
    assert_eq!(list.key(Key::Char('q'), 0), Action::Wait);
    assert_eq!(list.key(Key::Char('f'), 0), Action::Send(KillSignal::Kill));
    assert!(!list.kill_menu_open);
    assert!(list.send_kill_to_selected(KillSignal::Kill, Ok(()), 0));
    let status = list.status_message.as_ref().unwrap();
    assert_eq!((status.text.as_str(), status.is_error), ("SIGKILL sent to PID 3", false));
    assert!(!list.send_kill_to_selected(KillSignal::Term, Err("no".to_string()), 0));
    assert_eq!(list.status_message.as_ref().unwrap().text, "no");
    let mut empty = FlatList::new();
    empty.open_kill_menu(0);
    assert!(!empty.kill_menu_open);
    assert!(!empty.send_kill_to_selected(KillSignal::Term, Ok(()), 0));
    assert_eq!(empty.status_message.as_ref().unwrap().text, "No process selected");
}

#[test]
fn drawing_the_list() {
    let mut list = list();
    let mut screen = Screen::empty();
    render_process_table(&mut screen, area(), &list, 0);
    match &screen.draws[0].widget {
        Widget::Table { table } => {
            assert_eq!(text(&table.title), " Processes ");
            let cells = table.rows[0].cells.iter().map(|c| c.text.as_str()).collect::<Vec<_>>();
            assert_eq!(cells, vec!["3", "n3", "3 MiB", "3.0%"]);
            assert_eq!(table.rows.len(), 3);
        }
        _ => panic!("no table"),
    }
    let mut footer = Screen::empty();
    list.move_selection(1, 0);
    render_footer(&mut footer, area(), &list, r(1.0), SECOND);
    match &footer.draws[0].widget {
        Widget::Paragraph { lines, .. } => assert!(text(&lines[0]).ends_with("  |  list frozen 1.0s")),
        _ => panic!("no footer"),
    }
    list.open_kill_menu(0);
    let mut menu = Screen::empty();
    render_kill_menu(&mut menu, &list, area());
    match &menu.draws[2].widget {
        Widget::Paragraph { lines, .. } => assert_eq!(text(&lines[0]), "PID 2  Name n2"),
        _ => panic!("no menu"),
    }
}
