use std::collections::BTreeMap;

use rtop::app::{App, CpuSample};
use rtop::layout::{split_columns, split_rows, Constraint, Rect};
use rtop::models::{GpuStats, ProcessGroup, ProcessStat, StorageStats};
use rtop::panels::{pair_usages, render_cpu_grid, render_gpu_panel, render_mem_disk_panel, Figures};
use rtop::plan::{
    centered_content_area, centered_rect, plan_cpu_grid, plan_frame, split_gpu_lines,
    split_memory_lines, split_panels, Shape,
};
use rtop::reading::Reading;
use rtop::theme::Color;
use rtop::ui::{
    draw_ui, render_footer, render_kill_menu, render_process_table, render_telemetry_banner,
    visible_window,
};
use rtop::widgets::{Line, Screen, Span, Table, Widget};

const SECOND: u64 = 1_000_000_000;

fn r(value: f32) -> Reading {
    Reading { bits: value.to_bits() }
}

fn rect(x: u16, y: u16, width: u16, height: u16) -> Rect {
    Rect { x, y, width, height }
}

fn text(line: &Line) -> String {
    line.spans
        .iter()
        .map(|span| match span {
            Span::Text { text, .. } => text.clone(),
            Span::Meter { width, .. } => format!("<{width}>"),
        })
        .collect()
}

/// The text of everything that is drawn, one string for each draw.
fn texts(screen: &Screen) -> Vec<String> {
    screen
        .draws
        .iter()
        .map(|draw| match &draw.widget {
            Widget::Backdrop { .. } => "backdrop".to_string(),
            Widget::Frame { title, .. } => format!("[{}]", text(title)),
            Widget::Paragraph { lines, .. } => {
                lines.iter().map(text).collect::<Vec<_>>().join("\n")
            }
            Widget::Table { table } => format!("table{}", text(&table.title)),
            Widget::Clear => "clear".to_string(),
        })
        .collect()
}

fn inside(part: Rect, area: Rect) -> bool {
    area.x <= part.x
        && area.y <= part.y
        && part.x + part.width <= area.x + area.width
        && part.y + part.height <= area.y + area.height
}

fn figures(pairs: usize) -> Figures {
    Figures {
        cpu_average: r(25.0),
        frequency: "3.6 GHz".to_string(),
        pair_means: vec![r(12.5); pairs],
        vram_percent: r(50.0),
        ram_total_bytes: 16 << 30,
        ram_used_bytes: 4 << 30,
        ram_percent: r(25.0),
        disk_percent: r(10.0),
        freeze_seconds: r(1.5),
    }
}

fn card() -> GpuStats {
    GpuStats {
        name: "Card".to_string(),
        usage_pct: r(120.0),
        temp_c: r(60.0),
        vram_used_mib: r(1024.0),
        vram_total_mib: r(2048.0),
    }
}

fn group(app: &str, pids: &[&str]) -> ProcessGroup {
    ProcessGroup {
        app: app.to_string(),
        total_mem_mib: 10,
        total_cpu: r(5.0),
        stale: false,
        processes: pids
            .iter()
            .map(|pid| ProcessStat {
                app: app.to_string(),
                pid: pid.to_string(),
                name: format!("n{pid}"),
                mem_mib: 7,
                cpu: r(1.25),
            })
            .collect(),
    }
}

fn monitor() -> App {
    let mut app = App::new(0);
    let cpus = (0..4)
        .map(|i| CpuSample {
            name: format!("cpu{i}"),
            brand: "Brand".to_string(),
            frequency: 3600,
            usage: r(10.0 * i as f32),
        })
        .collect::<Vec<_>>();
    app.refresh_cpu(&cpus, &vec![], &BTreeMap::new());
    app.refresh_processes(vec![group("web", &["1", "2"]), group("zeta", &["3"])], 0);
    app
}

fn table(screen: &Screen) -> &Table {
    match &screen.draws[0].widget {
        Widget::Table { table } => table,
        _ => panic!("no table"),
    }
}

fn cells(table: &Table, row: usize) -> Vec<&str> {
    table.rows[row].cells.iter().map(|c| c.text.as_str()).collect()
}

#[test]
fn dividing_areas() {
    let area = rect(2, 3, 10, 20);
    let rows = split_rows(&vec![Constraint::Length(5), Constraint::Min(0)], area);
    assert_eq!(rows, vec![rect(2, 3, 10, 5), rect(2, 8, 10, 15)]);
    let columns = split_columns(&vec![Constraint::Ratio(1, 5), Constraint::Percentage(80)], area);
    assert_eq!(columns, vec![rect(2, 3, 2, 20), rect(4, 3, 8, 20)]);
    assert!(split_rows(&vec![], area).is_empty());
}

#[test]
fn parts_stay_inside_their_area() {
    let lists = [
        vec![Constraint::Length(1), Constraint::Percentage(40), Constraint::Min(7)],
        vec![Constraint::Ratio(2, 3), Constraint::Ratio(1, 0), Constraint::Length(65535)],
        vec![Constraint::Length(1); 9],
        vec![Constraint::Percentage(300), Constraint::Min(65535), Constraint::Min(0)],
    ];
    for list in &lists {
        for x in [0u16, 1, 40, 65000] {
            for width in [0u16, 1, 2, 5, 80, 535] {
                let area = rect(x, 3, width, 4);
                let parts = split_columns(list, area);
                assert_eq!(parts.len(), list.len());
                for part in parts {
                    assert!(inside(part, area));
                    assert_eq!((part.y, part.height), (3, 4));
                }
                let area = rect(3, x, 4, width);
                for part in split_rows(list, area) {
                    assert!(inside(part, area));
                    assert_eq!((part.x, part.width), (3, 4));
                }
            }
        }
    }
}

#[test]
fn the_middle_of_the_screen() {
    assert_eq!(centered_content_area(rect(0, 0, 160, 9), 160), rect(0, 0, 160, 9));
    assert_eq!(centered_content_area(rect(0, 0, 200, 9), 160), rect(20, 0, 160, 9));
    assert_eq!(centered_rect(62, 26, rect(0, 0, 100, 100)), rect(19, 37, 62, 26));
    let all = centered_rect(100, 100, rect(5, 6, 7, 8));
    assert_eq!(all, rect(5, 6, 7, 8));
}

#[test]
fn panels_of_the_screen() {
    let rows = split_panels(rect(0, 0, 100, 50), 4, true);
    let heights = rows.iter().map(|p| p.height).collect::<Vec<_>>();
    assert_eq!(heights, vec![1, 5, 7, 36, 1]);
    let rows = split_panels(rect(0, 0, 100, 50), 64, false);
    let heights = rows.iter().map(|p| p.height).collect::<Vec<_>>();
    assert_eq!(heights, vec![1, 20, 7, 21, 1]);
    let plan = plan_frame(rect(0, 0, 200, 50), Shape { pairs: 4, combine: true });
    assert_eq!(plan.content, rect(20, 0, 160, 50));
    assert_eq!(plan.middle, vec![rect(20, 6, 107, 7), rect(127, 6, 53, 7)]);
    assert_eq!(plan.cpu.chunks, vec![rect(21, 2, 158, 1), rect(21, 3, 158, 2)]);
    assert_eq!(plan.gpu.len(), 5);
    assert_eq!(plan.memory.len(), 5);
    let tiny = plan_frame(rect(0, 0, 0, 0), Shape { pairs: 4, combine: true });
    assert_eq!(tiny.rows.len(), 5);
}

#[test]
fn the_banner() {
    let mut screen = Screen::empty();
    render_telemetry_banner(&mut screen, rect(0, 0, 0, 1), 0, 0);
    assert!(screen.draws.is_empty());
    render_telemetry_banner(&mut screen, rect(0, 0, 20, 1), 5, 120_000_004);
    assert_eq!(texts(&screen), vec!["·· ·● · RTOP · ·• ··"]);
    let mut next = Screen::empty();
    render_telemetry_banner(&mut next, rect(0, 0, 20, 1), 5, 120_000_005);
    assert_eq!(texts(&next), vec!["·· ·• · RTOP · ·• ··"]);
}

#[test]
fn panel_of_the_processors() {
    let app = monitor();
    assert_eq!(pair_usages(&app, 1), (r(10.0), Some(r(30.0))));
    let area = rect(0, 0, 60, 5);
    let plan = plan_cpu_grid(rect(1, 1, 58, 3), 2, true);
    let mut screen = Screen::empty();
    render_cpu_grid(&mut screen, area, &app, &figures(2), &plan);
    assert_eq!(
        texts(&screen),
        vec![
            "[ Brand  3.6 GHz]",
            "Total  25.0% | Temp n/a | Threads 4 | Combined 2",
            "c00  12.5% <18>",
            "│",
            "c01  12.5% <17>",
        ]
    );
    let mut app = app;
    app.toggle_combine_smt();
    let plan = plan_cpu_grid(rect(1, 1, 58, 3), 2, false);
    let mut screen = Screen::empty();
    render_cpu_grid(&mut screen, area, &app, &figures(2), &plan);
    assert_eq!(
        texts(&screen)[1..],
        [
            "Total  25.0% | Temp n/a | Threads 4 | Cores 2".to_string(),
            "C00   0.0% <18>".to_string(),
            "│".to_string(),
            "T02  20.0% <17>".to_string(),
            "C01  10.0% <18>".to_string(),
            "│".to_string(),
            "T03  30.0% <17>".to_string(),
        ]
    );
    let plan = plan_cpu_grid(rect(1, 1, 38, 3), 2, false);
    let mut narrow = Screen::empty();
    render_cpu_grid(&mut narrow, rect(0, 0, 40, 5), &app, &figures(2), &plan);
    assert_eq!(texts(&narrow)[2], "C00    0% <8>│T02   20% <9>");
    let plan = plan_cpu_grid(rect(1, 1, 20, 3), 2, false);
    let mut small = Screen::empty();
    render_cpu_grid(&mut small, rect(0, 0, 22, 5), &app, &figures(2), &plan);
    assert_eq!(small.draws.len(), 1);
}

#[test]
fn panel_of_the_card() {
    let draw = |height: u16, gpu: &Option<GpuStats>| {
        let mut screen = Screen::empty();
        let inner = rect(1, 1, 28, height - 2);
        render_gpu_panel(&mut screen, rect(0, 0, 30, height), gpu, &figures(0), &split_gpu_lines(inner));
        texts(&screen)
    };
    let card = Some(card());
    assert_eq!(
        draw(7, &card),
        vec![
            "[ GPU Card ]".to_string(),
            "Temp   60C".to_string(),
            "GPU  100.0%  <15>".to_string(),
            "─".repeat(28),
            "VRAM  50.0%  <15>".to_string(),
            "VRAM 1.0/2.0 GB".to_string(),
        ]
    );
    assert_eq!(draw(6, &card)[1], "Temp   60C | VRAM 1.0/2.0 GB");
    assert_eq!(draw(6, &card).len(), 5);
    assert_eq!(draw(4, &card).len(), 2);
    assert_eq!(draw(3, &card).len(), 1);
    let mut screen = Screen::empty();
    let parts = split_gpu_lines(rect(1, 1, 0, 5));
    render_gpu_panel(&mut screen, rect(0, 0, 2, 7), &card, &figures(0), &parts);
    match &screen.draws[3].widget {
        Widget::Paragraph { lines, .. } => assert!(lines.len() == 1 && lines[0].spans.is_empty()),
        _ => panic!("no rule"),
    }
    assert_eq!(
        draw(7, &None),
        vec!["[ GPU ]", "No GPU metrics (NVIDIA nvidia-smi / AMD amdgpu sysfs)"]
    );
}

#[test]
fn panel_of_the_memory() {
    let draw = |height: u16, storage: Option<StorageStats>| {
        let mut screen = Screen::empty();
        let inner = rect(1, 1, 18, height - 2);
        let parts = split_memory_lines(inner);
        render_mem_disk_panel(&mut screen, rect(0, 0, 20, height), storage, &figures(0), &parts);
        texts(&screen)
    };
    let storage = Some(StorageStats { used_bytes: 10 << 30, total_bytes: 100 << 30 });
    assert_eq!(
        draw(7, storage),
        vec!["[ RAM ]", "4.0/16.0 GB 25.0%", "<18>", "────── HDD ───────", "10.0/100.0 GB 10.0%", "<18>"]
    );
    assert_eq!(draw(4, storage), vec!["[ RAM ]", "4.0/16.0 GB 25.0%", "10.0/100.0 GB 10.0%"]);
    assert_eq!(draw(4, None)[2], "n/a 0.0%");
    assert_eq!(draw(3, None), vec!["[ RAM ]"]);
}

#[test]
fn shares_are_kept_in_range() {
    let outside = Figures {
        vram_percent: r(300.0),
        ram_percent: r(150.0),
        disk_percent: r(-5.0),
        ..figures(0)
    };
    let mut screen = Screen::empty();
    let area = rect(0, 0, 30, 7);
    let parts = split_gpu_lines(rect(1, 1, 28, 5));
    render_gpu_panel(&mut screen, area, &Some(card()), &outside, &parts);
    assert_eq!(texts(&screen)[4], "VRAM 100.0%  <15>");
    let mut screen = Screen::empty();
    let storage = Some(StorageStats { used_bytes: 10 << 30, total_bytes: 100 << 30 });
    let parts = split_memory_lines(rect(1, 1, 28, 5));
    render_mem_disk_panel(&mut screen, area, storage, &outside, &parts);
    assert_eq!(texts(&screen)[1], "4.0/16.0 GB 100.0%");
    assert_eq!(texts(&screen)[4], "10.0/100.0 GB 0.0%");
    let mut screen = Screen::empty();
    let empty = Some(StorageStats { used_bytes: 0, total_bytes: 0 });
    let none = Figures { ram_total_bytes: 0, ram_used_bytes: 9, ..outside };
    render_mem_disk_panel(&mut screen, area, empty, &none, &parts);
    assert_eq!(texts(&screen)[1], "0.0/0.0 GB 0.0%");
    assert_eq!(texts(&screen)[4], "0.0/0.0 GB 0.0%");
}

#[test]
fn the_selected_row_stays_in_view() {
    assert_eq!(visible_window(0, 5, None), (0, 0));
    assert_eq!(visible_window(10, 0, Some(3)), (0, 0));
    assert_eq!(visible_window(10, 4, None), (0, 4));
    assert_eq!(visible_window(10, 4, Some(0)), (0, 4));
    assert_eq!(visible_window(10, 4, Some(5)), (3, 7));
    assert_eq!(visible_window(10, 4, Some(9)), (6, 10));
    assert_eq!(visible_window(3, 4, Some(2)), (0, 3));
    for row in 0..10 {
        for capacity in 1..12 {
            let (start, end) = visible_window(10, capacity, Some(row));
            assert!(start <= row && row < end && end - start == capacity.min(10));
        }
    }
}

#[test]
fn the_process_list() {
    let mut app = monitor();
    let mut screen = Screen::empty();
    render_process_table(&mut screen, rect(0, 0, 80, 10), &app, SECOND);
    assert_eq!(texts(&screen), vec!["table Processes "]);
    let list = table(&screen);
    assert_eq!(list.rows.len(), 2);
    assert_eq!(cells(list, 0), vec!["▸ web (2)", "—", "10 MiB", "5.0%"]);
    assert_eq!(list.rows[0].cells[0].style.bg, Some(Color::RowSelected));
    assert!(list.rows[0].cells[3].style.underlined);
    assert_eq!(list.rows[1].cells[0].style.bg, Some(Color::RowB));
    assert!(!list.rows[1].cells[3].style.underlined);
    let header = list.header.cells.iter().map(|c| c.text.as_str()).collect::<Vec<_>>();
    assert_eq!(header, vec!["App", "PID", "Memory", "CPU"]);

    app.expand_selected_app();
    let mut screen = Screen::empty();
    render_process_table(&mut screen, rect(0, 0, 80, 5), &app, SECOND);
    assert_eq!(texts(&screen), vec!["table Processes (expanded, frozen) "]);
    let list = table(&screen);
    assert_eq!(list.rows.len(), 2);
    assert_eq!(cells(list, 0), vec!["▾ web (2)", "—", "10 MiB", "5.0%"]);
    assert_eq!(cells(list, 1), vec!["  └─ n1", "1", "7 MiB", "1.2%"]);

    app.collapse_expanded_app();
    app.move_selection(1, SECOND);
    let mut screen = Screen::empty();
    render_process_table(&mut screen, rect(0, 0, 80, 3), &app, SECOND);
    assert_eq!(texts(&screen), vec!["table Processes (frozen) "]);
    assert!(table(&screen).rows.is_empty());

    app.refresh_processes(vec![group("web", &["1"])], SECOND);
    let mut screen = Screen::empty();
    render_process_table(&mut screen, rect(0, 0, 80, 10), &app, 9 * SECOND);
    assert_eq!(cells(table(&screen), 1)[0], "• zeta (1)");
}

#[test]
fn the_action_menu() {
    let mut app = monitor();
    let popup = rect(0, 0, 60, 8);
    let mut screen = Screen::empty();
    render_kill_menu(&mut screen, &app, popup);
    assert!(screen.draws.is_empty());
    app.open_kill_menu(0);
    render_kill_menu(&mut screen, &app, popup);
    assert_eq!(
        texts(&screen),
        vec![
            "clear",
            "[ Process Action ]",
            "App web  Processes 2\n\nEnter / k SIGTERM app   f SIGKILL app\n\
             o / → open process list   Esc cancel",
        ]
    );
    assert_eq!(screen.draws[2].area, rect(1, 1, 58, 6));
    app.close_kill_menu();
    app.expand_selected_app();
    app.open_kill_menu(0);
    let mut screen = Screen::empty();
    render_kill_menu(&mut screen, &app, rect(0, 0, 5, 5));
    assert_eq!(
        texts(&screen)[2],
        "PID 1  Name .\n\nEnter / k SIGTERM process   f SIGKILL process\nEsc cancel"
    );
    let mut screen = Screen::empty();
    render_kill_menu(&mut screen, &app, rect(0, 0, 60, 4));
    assert_eq!(screen.draws.len(), 2);
}

#[test]
fn the_footer() {
    let mut app = monitor();
    let keys = "↑/↓ select  |  ←/→ close/open app  |  Enter actions  |  m cpu mode  |  q/Esc quit";
    let draw = |app: &App, now: u64| {
        let mut screen = Screen::empty();
        render_footer(&mut screen, rect(0, 0, 80, 1), app, &figures(2), now);
        texts(&screen)[0].clone()
    };
    assert_eq!(draw(&app, 0), keys);
    app.move_selection(1, 0);
    assert_eq!(draw(&app, SECOND), format!("{keys}  |  list frozen 1.5s"));
    assert_eq!(draw(&app, 2 * SECOND), keys);
    app.set_status(0, "done", false);
    app.open_kill_menu(0);
    assert_eq!(
        draw(&app, 9 * SECOND),
        format!("{keys}  |  action menu open  |  status done")
    );
    app.close_kill_menu();
    app.move_selection(-1, 0);
    app.expand_selected_app();
    app.toggle_combine_smt();
    assert_eq!(
        draw(&app, SECOND),
        format!(
            "{}  |  expanded web (refresh paused)  |  status done",
            keys.replace("cpu mode", "thread mode")
        )
    );
}

#[test]
fn everything_is_drawn_inside_the_screen() {
    let mut app = monitor();
    app.refresh_gpu(Some(card()));
    app.open_kill_menu(0);
    for combine in [true, false] {
        for width in [0u16, 1, 2, 10, 29, 30, 54, 80, 160, 201] {
            for height in [0u16, 1, 2, 3, 8, 16, 17, 24, 50] {
                let area = rect(0, 0, width, height);
                let screen = draw_ui(area, &app, &figures(2), SECOND);
                assert!(screen.draws.iter().all(|draw| inside(draw.area, area)));
            }
        }
        if combine {
            app.toggle_combine_smt();
        }
    }
    let screen = draw_ui(rect(0, 0, 100, 40), &app, &figures(2), SECOND);
    let all = texts(&screen);
    assert_eq!(all[0], "backdrop");
    assert!(all[1].contains(" RTOP "));
    assert_eq!(all[2], "[ Brand  3.6 GHz]");
    assert!(all.contains(&"[ GPU Card ]".to_string()));
    assert!(all.contains(&"[ RAM ]".to_string()));
    assert!(all.contains(&"clear".to_string()));
}
