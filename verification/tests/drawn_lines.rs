use rtop::banner::animated_title_line;
use rtop::lines::{
    braille_bar_segments, cpu_lane_line, cpu_lane_placeholder, cpu_pair_narrow_line,
    format_disk_usage, gigabytes_text, push_plain, truncate_ascii, usage_bar_line,
    usage_meter_line, value_usage_line,
};
use rtop::reading::Reading;
use rtop::theme::{style_for_temp, style_for_usage_with_base, Color, Style};
use rtop::widgets::{text_lines, Line, Span};

fn r(value: f32) -> Reading {
    Reading { bits: value.to_bits() }
}

fn text(line: &Line) -> String {
    line.spans
        .iter()
        .map(|span| match span {
            Span::Text { text, .. } => text.clone(),
            Span::Meter { width, .. } => format!("<{width}>"),
        })
        .collect()
}

fn style(line: &Line, at: usize) -> Style {
    match &line.spans[at] {
        Span::Text { style, .. } => *style,
        Span::Meter { style, .. } => *style,
    }
}

#[test]
fn bars() {
    assert_eq!(braille_bar_segments(0, 0), (String::new(), String::new()));
    assert_eq!(braille_bar_segments(0, 3), ("".to_string(), "⠄⠄⠄".to_string()));
    assert_eq!(braille_bar_segments(12, 3), ("⣿⡇".to_string(), "⠄".to_string()));
    assert_eq!(braille_bar_segments(24, 3), ("⣿⣿⣿".to_string(), "".to_string()));
    assert_eq!(braille_bar_segments(999, 3), ("⣿⣿⣿".to_string(), "".to_string()));
    let steps = ['⡀', '⡄', '⡆', '⡇', '⣇', '⣧', '⣷'];
    for (i, c) in steps.iter().enumerate() {
        assert_eq!(braille_bar_segments(i + 1, 1).0, c.to_string());
    }
}

#[test]
fn bars_as_text() {
    let mut out = Line::empty();
    push_plain(&mut out, &Span::Text { text: "a".to_string(), style: Style::plain() }, 9);
    push_plain(&mut out, &Span::Meter { usage: r(50.0), width: 2, style: Style::ink(Color::Hot) }, 8);
    assert_eq!(text(&out), "a⣿⠄");
    assert_eq!(style(&out, 1).fg, Some(Color::Hot));
    assert_eq!(style(&out, 2).fg, Some(Color::Track));
}

#[test]
fn lines_of_processors() {
    let line = cpu_lane_line("c", 3, r(42.25), 30, Color::AccentCpu);
    assert_eq!(text(&line), "c03  42.2% <19>");
    assert!(style(&line, 0).bold);
    assert_eq!(style(&line, 1).fg, Some(Color::Good));
    assert_eq!(text(&cpu_lane_line("C", 12, r(100.0), 16, Color::AccentCpu)), "C12 100.0%");
    assert_eq!(text(&cpu_lane_line("C", 12, r(100.0), 17, Color::AccentCpu)), "C12 100.0% <6>");
    assert_eq!(text(&cpu_lane_line("C", 123, r(5.0), 0, Color::AccentCpu)), "C123   5.0%");
    assert_eq!(text(&cpu_lane_placeholder("T", 14, Color::AccentThread)), "T-- n/a ⠄⠄⠄⠄⠄⠄");
    assert_eq!(text(&cpu_lane_placeholder("T", 13, Color::AccentThread)), "T-- n/a");
}

#[test]
fn narrow_lines_of_processors() {
    let both = cpu_pair_narrow_line(0, r(7.0), Some(8), Some(r(99.6)), 40);
    assert_eq!(text(&both), "C00    7% <9>│T08  100% <10>");
    let unknown = cpu_pair_narrow_line(0, r(7.0), Some(8), None, 24);
    assert_eq!(text(&unknown), "C00    7% <2>│T08  n/a ⠄⠄");
    let alone = cpu_pair_narrow_line(1, r(7.0), None, None, 14);
    assert_eq!(text(&alone), "C01    7% <4>");
    assert_eq!(text(&cpu_pair_narrow_line(1, r(7.0), None, None, 13)), "C01    7%");
    assert_eq!(text(&cpu_pair_narrow_line(0, r(7.0), Some(8), None, 0)), "C00    7%│T08  n/a");
}

#[test]
fn lines_of_shares() {
    assert_eq!(text(&usage_meter_line("GPU", r(5.0), 21, Color::AccentGpu)), "GPU    5.0%  <8>");
    assert_eq!(text(&usage_meter_line("VRAM", r(5.0), 20, Color::AccentGpu)), "VRAM   5.0%");
    assert_eq!(text(&value_usage_line("1/2 GB", r(50.0), Color::AccentGpu)), "1/2 GB 50.0%");
    assert_eq!(text(&usage_bar_line(r(1.0), 4, Color::AccentGpu)), "<4>");
    assert_eq!(text(&usage_bar_line(r(1.0), 3, Color::AccentGpu)), "");
}

#[test]
fn cutting_texts() {
    assert_eq!(truncate_ascii("abcdef", 6), "abcdef");
    assert_eq!(truncate_ascii("abcdef", 5), "ab...");
    assert_eq!(truncate_ascii("abcdef", 3), "...");
    assert_eq!(truncate_ascii("abcdef", 0), "");
    assert_eq!(truncate_ascii("äöüßéè", 5), "äö...");
    for width in 0..10 {
        assert!(truncate_ascii("abcdefgh", width).chars().count() <= width);
    }
}

#[test]
fn sizes_of_disks() {
    let gb = 1u64 << 30;
    assert_eq!(gigabytes_text(gb, 16 * gb), "1.0/16.0 GB");
    assert_eq!(format_disk_usage(gb / 2, 100 * gb), "0.5/100.0 GB");
    assert_eq!(format_disk_usage(512 * gb, 2048 * gb), "0.50/2.00 T");
    assert_eq!(format_disk_usage(0, 659_706_976_665), "0.0/614.4 GB");
    assert_eq!(format_disk_usage(0, 659_706_976_666), "0.00/0.60 T");
}

#[test]
fn colours_of_shares_and_temperatures() {
    let base = Color::AccentCpu;
    let of = |v: f32| style_for_usage_with_base(r(v), base).fg;
    assert_eq!(of(39.9), Some(base));
    assert_eq!(of(40.0), Some(Color::Good));
    assert_eq!(of(70.0), Some(Color::Warn));
    assert_eq!(of(90.0), Some(Color::Hot));
    assert_eq!(of(f32::NAN), Some(base));
    let warm = |v: f32| style_for_temp(Some(r(v))).fg;
    assert_eq!(warm(69.9), Some(Color::Good));
    assert_eq!(warm(70.0), Some(Color::Warn));
    assert_eq!(warm(85.0), Some(Color::Hot));
    assert_eq!(style_for_temp(None).fg, Some(Color::Muted));
    assert_eq!(Color::Bg.rgb(), (12, 14, 20));
    assert_eq!(Color::Hot.rgb(), (255, 111, 111));
}

#[test]
fn the_title() {
    assert!(animated_title_line(0, 0, " RTOP ", false).spans.is_empty());
    let line = animated_title_line(20, 0, " RTOP ", false);
    assert_eq!(line.spans.len(), 20);
    assert_eq!(text(&line), "·· ·● · RTOP · ·• ··");
    assert!(style(&line, 4).bold);
    assert_eq!(style(&line, 4).fg, Some(Color::AccentCpu));
    assert_eq!(style(&line, 8).fg, Some(Color::Text));
    let later = animated_title_line(20, 1, " RTOP ", false);
    assert_eq!(text(&later), "·· ·• · RTOP · ·• ··");
    assert_eq!(style(&later, 4).fg, Some(Color::Separator));
    assert!(!style(&later, 4).bold);
    assert_eq!(text(&animated_title_line(3, 0, " RTOP ", false)), " RT");
    let dense = animated_title_line(14, 15, "AB", true);
    assert_eq!(text(&dense), "┄·┈ ◆┈AB┄·┈ ·┈");
    let huge = animated_title_line(20, u64::MAX, " RTOP ", false);
    assert!(text(&huge).contains(" RTOP "));
}

#[test]
fn lines_of_a_text() {
    let empty = text_lines("");
    assert_eq!(empty.len(), 1);
    assert!(empty[0].spans.is_empty());
    let two = text_lines("a\n\nb\n");
    assert_eq!(two.iter().map(text).collect::<Vec<_>>(), vec!["a", "", "b"]);
    assert!(two[1].spans.is_empty());
}

#[test]
fn bars_grow_with_their_eighths() {
    for width in 0..5 {
        let mut filled = 0;
        for units in 0..50 {
            let (fill, track) = braille_bar_segments(units, width);
            let cells = fill.chars().count();
            assert_eq!(cells + track.chars().count(), width);
            assert!(filled <= cells);
            filled = cells;
        }
        assert_eq!(filled, width);
    }
}

#[test]
fn cutting_twice_is_cutting_once() {
    for width in 0..12 {
        let once = truncate_ascii("abcdefgh", width);
        assert_eq!(truncate_ascii(&once, width), once);
    }
}

#[test]
fn the_title_comes_round() {
    for tick in 0..18 {
        for dense in [false, true] {
            let now = animated_title_line(40, tick, " RTOP ", dense);
            let later = animated_title_line(40, tick + 18, " RTOP ", dense);
            assert_eq!(text(&now), text(&later));
        }
    }
}

#[test]
fn narrow_lines_take_their_width() {
    let cells = |line: &Line| {
        line.spans
            .iter()
            .map(|span| match span {
                Span::Text { text, .. } => text.chars().count(),
                Span::Meter { width, .. } => *width,
            })
            .sum::<usize>()
    };
    for width in 25..60 {
        let both = cpu_pair_narrow_line(0, r(7.0), Some(8), Some(r(99.6)), width);
        assert_eq!(cells(&both), width);
        assert_eq!(cells(&cpu_pair_narrow_line(0, r(7.0), Some(8), None, width)), width);
        assert_eq!(cells(&cpu_pair_narrow_line(0, r(7.0), None, None, width)), width);
    }
}
