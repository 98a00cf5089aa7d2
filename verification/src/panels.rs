//! The panels of the processors, the graphics card and the memory.

use crate::app::App;
use crate::figure::{
    aligned, append_aligned, append_fixed, fixed, repeat, repeated, size_text,
};
use crate::layout::{framed, inside_frame, Rect};
use crate::lines::{
    cpu_lane, cpu_lane_line, cpu_lane_placeholder, cpu_pair_narrow_line, disk_usage,
    format_disk_usage, gigabytes, gigabytes_text, lane_placeholder, law_lane_shows_its_share,
    law_meter_shows_its_share, law_placeholder_shows_none, law_truncated_fits, pair_narrow,
    percent_text, share, share_text, truncate_ascii, truncated, usage_bar, usage_bar_line,
    usage_meter, usage_meter_line, value_usage, value_usage_line,
};
use crate::models::{GpuStats, StorageStats};
use crate::number::{append_decimal, decimal, least, less_by, two_digits};
use crate::plan::{fits_gpu, fits_memory, CpuPlan, WIDE_ROW};
use crate::reading::{law_percent_is_share, Reading, ZERO};
use crate::text::copy_str;
use crate::theme::{
    style_for_temp, style_for_usage_with_base, temp_style, usage_style, Color, Style,
};
use crate::widgets::{
    bars_show, frame_draw, ink, is_bar, is_line, law_text_of_one_line, line, line_draw, line_in, raw_line, raw_text,
    style_at, text_at, text_lines, DrawView, Line, LineView, Screen, Widget, WidgetView,
};
use vstd::prelude::*;

verus! {

broadcast use {vstd::string::group_string_axioms, vstd::std_specs::btree::group_btree_axioms};

/// Figures that are computed with floating-point arithmetic from what was measured.
#[derive(Debug)]
pub struct Figures {
    /// The mean usage of all processors.
    pub cpu_average: Reading,
    /// The frequency as text.
    pub frequency: String,
    /// For each pair, the mean usage of its two processors.
    pub pair_means: Vec<Reading>,
    /// The share of the graphics memory that is in use.
    pub vram_percent: Reading,
    pub ram_total_bytes: u64,
    pub ram_used_bytes: u64,
    /// The share of the memory that is in use.
    pub ram_percent: Reading,
    /// The share of the file system that is in use.
    pub disk_percent: Reading,
    /// For how many seconds the process list still stands still.
    pub freeze_seconds: Reading,
}

/// The number zero.
pub open spec fn zero() -> Reading {
    Reading { bits: ZERO }
}

/// The two backgrounds of lines, in turn.
pub open spec fn stripe(i: int) -> Color {
    if i % 2 == 0 {
        Color::RowA
    } else {
        Color::RowB
    }
}

fn stripe_of(i: usize) -> (r: Color)
    ensures
        r == stripe(i as int),
{
    if i % 2 == 0 {
        Color::RowA
    } else {
        Color::RowB
    }
}

// ---------------------------------------------------------------------------
// Processors
// ---------------------------------------------------------------------------

/// The title of the processors: the model as far as it fits, and the frequency.
pub open spec fn cpu_title(area: Rect, app: App, figures: Figures) -> LineView {
    let model = truncated(app.cpu_model@, less_by(less_by(area.width as int, 4), 10) as nat);
    let frequency = if app.cpu_freq_mhz is Some {
        figures.frequency@
    } else {
        "n/a"@
    };
    LineView {
        centered: true,
        ..line(
            seq![
                ink(" "@ + model + " "@, Style::ink(Color::AccentCpu).in_bold()),
                ink(" "@, Style::plain()),
                ink(frequency, Style::ink(Color::Muted).in_bold()),
            ],
        )
    }
}

fn cpu_title_line(area: Rect, app: &App, figures: &Figures) -> (r: Line)
    ensures
        r@ == cpu_title(area, *app, *figures),
{
    let title_width: usize = area.width.saturating_sub(4).saturating_sub(10) as usize;
    let model = truncate_ascii(app.cpu_model.as_str(), title_width);
    let mut title = copy_str(" ");
    title.append(model.as_str());
    title.append(" ");
    let mut r = Line::empty();
    r.push(title.as_str(), Style::ink(Color::AccentCpu).in_bold());
    r.push(" ", Style::plain());
    if app.cpu_freq_mhz.is_some() {
        r.push(figures.frequency.as_str(), Style::ink(Color::Muted).in_bold());
    } else {
        r.push("n/a", Style::ink(Color::Muted).in_bold());
    }
    let r = r.center();
    assert(r@.spans =~= cpu_title(area, *app, *figures).spans);
    r
}

/// The summary of the processors.
pub open spec fn cpu_summary(app: App, figures: Figures) -> LineView {
    let muted = Style::ink(Color::Muted);
    line(
        seq![
            ink("Total "@, muted),
            ink(
                share(figures.cpu_average),
                usage_style(figures.cpu_average, Color::AccentCpu).in_bold(),
            ),
            ink(" | Temp "@, muted),
            ink(
                match app.cpu_temp_c {
                    Some(temp) => fixed(temp, 0, 0) + "C"@,
                    None => "n/a"@,
                },
                temp_style(app.cpu_temp_c).in_bold(),
            ),
            ink(" | Threads "@, muted),
            ink(decimal(app.cpu_usage_by_id@.len()), Style::ink(Color::AccentThread).in_bold()),
            ink(" | "@, muted),
            ink(
                if app.combine_smt {
                    "Combined "@
                } else {
                    "Cores "@
                },
                muted,
            ),
            ink(decimal(app.cpu_pairs@.len()), Style::ink(Color::AccentCpu).in_bold()),
        ],
    )
}

/// A number in decimal.
fn count_text(n: usize) -> (r: String)
    ensures
        r@ == decimal(n as nat),
{
    let mut r = String::new();
    append_decimal(&mut r, n as u128);
    assert(r@ =~= decimal(n as nat));
    r
}

fn cpu_summary_line(app: &App, figures: &Figures) -> (r: Line)
    ensures
        r@ == cpu_summary(*app, *figures),
{
    let muted = Style::ink(Color::Muted);
    let temp = match app.cpu_temp_c {
        Some(temp) => {
            let mut text = String::new();
            append_fixed(&mut text, temp, 0, 0);
            assert(text@ =~= fixed(temp, 0, 0));
            text.append("C");
            text
        },
        None => copy_str("n/a"),
    };
    let mut r = Line::empty();
    r.push("Total ", muted);
    r.push(
        share_text(figures.cpu_average).as_str(),
        style_for_usage_with_base(figures.cpu_average, Color::AccentCpu).in_bold(),
    );
    r.push(" | Temp ", muted);
    r.push(temp.as_str(), style_for_temp(app.cpu_temp_c).in_bold());
    r.push(" | Threads ", muted);
    r.push(count_text(app.cpu_usage_by_id.len()).as_str(), Style::ink(Color::AccentThread).in_bold());
    r.push(" | ", muted);
    if app.combine_smt {
        r.push("Combined ", muted);
    } else {
        r.push("Cores ", muted);
    }
    r.push(count_text(app.cpu_pairs.len()).as_str(), Style::ink(Color::AccentCpu).in_bold());
    assert(r@.spans =~= cpu_summary(*app, *figures).spans);
    r
}

/// The usage of a processor, where it was measured.
pub open spec fn measured_usage(app: App, id: usize) -> Option<Reading> {
    if app.cpu_usage_by_id@.contains_key(id) {
        Some(app.cpu_usage_by_id@[id])
    } else {
        None
    }
}

/// The usage of a processor; zero where it was not measured.
pub open spec fn usage_or_zero(app: App, id: usize) -> Reading {
    match measured_usage(app, id) {
        Some(usage) => usage,
        None => zero(),
    }
}

fn measured(app: &App, id: usize) -> (r: Option<Reading>)
    ensures
        r == measured_usage(*app, id),
{
    match app.cpu_usage_by_id.get(&id) {
        Some(usage) => Some(*usage),
        None => None,
    }
}

fn measured_or_zero(app: &App, id: usize) -> (r: Reading)
    ensures
        r == usage_or_zero(*app, id),
{
    match measured(app, id) {
        Some(usage) => usage,
        None => Reading { bits: ZERO },
    }
}

/// The usages of the two processors of a pair, of which the mean is shown.
pub open spec fn usages_of_pair(app: App, pair: int) -> (Reading, Option<Reading>) {
    (
        usage_or_zero(app, app.cpu_pairs@[pair].0),
        match app.cpu_pairs@[pair].1 {
            Some(id) => Some(usage_or_zero(app, id)),
            None => None,
        },
    )
}

/// The usages of the two processors of a pair, of which the mean is shown.
pub fn pair_usages(app: &App, pair: usize) -> (r: (Reading, Option<Reading>))
    requires
        pair < app.cpu_pairs@.len(),
    ensures
        r == usages_of_pair(*app, pair as int),
        r.0 == usage_or_zero(*app, app.cpu_pairs@[pair as int].0),
        r.1 == (match app.cpu_pairs@[pair as int].1 {
            Some(id) => Some(usage_or_zero(*app, id)),
            None => None,
        }),
{
    let (core_id, smt_id) = app.cpu_pairs[pair];
    let second = match smt_id {
        Some(id) => Some(measured_or_zero(app, id)),
        None => None,
    };
    (measured_or_zero(app, core_id), second)
}

/// The usage of a pair: the mean of its two processors, or that of its only one.
pub open spec fn pair_usage(app: App, figures: Figures, pair: int) -> Reading {
    if app.cpu_pairs@[pair].1 is Some {
        figures.pair_means@[pair]
    } else {
        usage_or_zero(app, app.cpu_pairs@[pair].0)
    }
}

/// The bar between two columns.
pub open spec fn divider(area: Rect, background: Color) -> DrawView {
    line_draw(
        area,
        LineView { style: Style::ink(Color::Separator), ..raw_line("│"@) },
        Style::paper(background),
    )
}

fn draw_divider(screen: &mut Screen, area: Rect, background: Color)
    ensures
        final(screen)@ == old(screen)@.push(divider(area, background)),
{
    let bar = Line::raw("│").styled(Style::ink(Color::Separator));
    screen.put_line(area, bar, Style::paper(background));
}

/// A pair in its column.
pub open spec fn pair_lane(app: App, figures: Figures, pair: int, area: Rect, background: Color) -> DrawView {
    line_draw(
        area,
        cpu_lane(
            "c"@,
            app.cpu_pairs@[pair].0 as nat,
            pair_usage(app, figures, pair),
            area.width as nat,
            Color::AccentCpu,
        ),
        Style::paper(background),
    )
}

fn draw_pair_lane(screen: &mut Screen, app: &App, figures: &Figures, pair: usize, area: Rect, background: Color)
    requires
        pair < app.cpu_pairs@.len(),
        figures.pair_means@.len() == app.cpu_pairs@.len(),
    ensures
        final(screen)@ == old(screen)@.push(pair_lane(*app, *figures, pair as int, area, background)),
{
    let (core_id, smt_id) = app.cpu_pairs[pair];
    let usage = if smt_id.is_some() {
        figures.pair_means[pair]
    } else {
        measured_or_zero(app, core_id)
    };
    let lane = cpu_lane_line("c", core_id, usage, area.width as usize, Color::AccentCpu);
    screen.put_line(area, lane, Style::paper(background));
}

/// Line `i` where pairs are combined: two pairs side by side, where the line is wide enough.
pub open spec fn combined_row(app: App, figures: Figures, row: Rect, columns: Seq<Rect>, i: int) -> Seq<DrawView> {
    let background = stripe(i);
    if row.width >= WIDE_ROW {
        let left = seq![
            pair_lane(app, figures, 2 * i, columns[0], background),
            divider(columns[1], background),
        ];
        if 2 * i + 1 < app.cpu_pairs@.len() {
            left.push(pair_lane(app, figures, 2 * i + 1, columns[2], background))
        } else {
            left
        }
    } else {
        Seq::empty()
    }
}

/// Line `i` where pairs are not combined: a core and its second thread, in two columns where
/// the line is wide enough.
pub open spec fn separate_row(app: App, row: Rect, columns: Seq<Rect>, i: int) -> Seq<DrawView> {
    let background = stripe(i);
    let (core_id, smt_id) = app.cpu_pairs@[i];
    if row.width >= WIDE_ROW {
        seq![
            line_draw(
                columns[0],
                cpu_lane(
                    "C"@,
                    core_id as nat,
                    usage_or_zero(app, core_id),
                    columns[0].width as nat,
                    Color::AccentCpu,
                ),
                Style::paper(background),
            ),
            divider(columns[1], background),
            line_draw(
                columns[2],
                match smt_id {
                    Some(id) => cpu_lane(
                        "T"@,
                        id as nat,
                        usage_or_zero(app, id),
                        columns[2].width as nat,
                        Color::AccentThread,
                    ),
                    None => lane_placeholder("T"@, columns[2].width as nat, Color::AccentThread),
                },
                Style::paper(background),
            ),
        ]
    } else {
        seq![
            line_draw(
                row,
                pair_narrow(
                    core_id as nat,
                    usage_or_zero(app, core_id),
                    smt_id,
                    match smt_id {
                        Some(id) => measured_usage(app, id),
                        None => None,
                    },
                    row.width as nat,
                ),
                Style::paper(background),
            ),
        ]
    }
}

/// Line `i` of the processors.
pub open spec fn cpu_row(app: App, figures: Figures, plan: CpuPlan, i: int) -> Seq<DrawView> {
    if app.combine_smt {
        combined_row(app, figures, plan.rows@[i], plan.columns@[i]@, i)
    } else {
        separate_row(app, plan.rows@[i], plan.columns@[i]@, i)
    }
}

/// The first `n` lines of the processors.
pub open spec fn cpu_rows(app: App, figures: Figures, plan: CpuPlan, n: int) -> Seq<DrawView>
    decreases n,
{
    if n <= 0 {
        Seq::empty()
    } else {
        cpu_rows(app, figures, plan, n - 1) + cpu_row(app, figures, plan, n - 1)
    }
}

/// Whether there is anything to show of the processors and room for it.
pub open spec fn shows_cpus(area: Rect, app: App, plan: CpuPlan) -> bool {
    &&& app.cpu_usage_by_id@.len() > 0
    &&& app.cpu_pairs@.len() > 0
    &&& framed(area).width >= 28
    &&& framed(area).height >= 2
    &&& plan.chunks@[1].height > 0
}

/// The panel of the processors.
pub open spec fn cpu_grid(area: Rect, app: App, figures: Figures, plan: CpuPlan) -> Seq<DrawView> {
    let frame = seq![frame_draw(area, cpu_title(area, app, figures), Style::plain())];
    if shows_cpus(area, app, plan) {
        frame.push(line_draw(plan.chunks@[0], cpu_summary(app, figures), Style::paper(Color::RowA)))
            + cpu_rows(app, figures, plan, plan.count(app.cpu_pairs@.len() as int, app.combine_smt))
    } else {
        frame
    }
}

fn draw_combined_row(screen: &mut Screen, app: &App, figures: &Figures, row: Rect, columns: &Vec<Rect>, i: usize)
    requires
        2 * i < app.cpu_pairs@.len(),
        figures.pair_means@.len() == app.cpu_pairs@.len(),
        row.width >= WIDE_ROW ==> columns@.len() == 3,
    ensures
        final(screen)@ == old(screen)@ + combined_row(*app, *figures, row, columns@, i as int),
{
    let ghost before = screen@;
    if row.width >= WIDE_ROW {
        let background = stripe_of(i);
        let count = app.cpu_pairs.len();
        draw_pair_lane(screen, app, figures, 2 * i, columns[0], background);
        draw_divider(screen, columns[1], background);
        if 2 * i < count - 1 {
            draw_pair_lane(screen, app, figures, 2 * i + 1, columns[2], background);
        }
    }
    assert(screen@ =~= before + combined_row(*app, *figures, row, columns@, i as int));
}

fn draw_separate_row(screen: &mut Screen, app: &App, row: Rect, columns: &Vec<Rect>, i: usize)
    requires
        i < app.cpu_pairs@.len(),
        row.width >= WIDE_ROW ==> columns@.len() == 3,
    ensures
        final(screen)@ == old(screen)@ + separate_row(*app, row, columns@, i as int),
{
    let ghost before = screen@;
    let background = stripe_of(i);
    let (core_id, smt_id) = app.cpu_pairs[i];
    let core_usage = measured_or_zero(app, core_id);
    if row.width >= WIDE_ROW {
        let core_line = cpu_lane_line("C", core_id, core_usage, columns[0].width as usize, Color::AccentCpu);
        screen.put_line(columns[0], core_line, Style::paper(background));
        draw_divider(screen, columns[1], background);
        let thread_line = match smt_id {
            Some(id) => cpu_lane_line(
                "T",
                id,
                measured_or_zero(app, id),
                columns[2].width as usize,
                Color::AccentThread,
            ),
            None => cpu_lane_placeholder("T", columns[2].width as usize, Color::AccentThread),
        };
        screen.put_line(columns[2], thread_line, Style::paper(background));
    } else {
        let smt_usage = match smt_id {
            Some(id) => measured(app, id),
            None => None,
        };
        let compact = cpu_pair_narrow_line(core_id, core_usage, smt_id, smt_usage, row.width as usize);
        screen.put_line(row, compact, Style::paper(background));
    }
    assert(screen@ =~= before + separate_row(*app, row, columns@, i as int));
}

/// Draws the panel of the processors.
pub fn render_cpu_grid(screen: &mut Screen, area: Rect, app: &App, figures: &Figures, plan: &CpuPlan)
    requires
        plan.fits(app.cpu_pairs@.len() as int, app.combine_smt),
        figures.pair_means@.len() == app.cpu_pairs@.len(),
    ensures
        final(screen)@ == old(screen)@ + cpu_grid(area, *app, *figures, *plan),
{
    let ghost before = screen@;
    let title = cpu_title_line(area, app, figures);
    screen.put(area, Widget::Frame { title, style: Style::plain() });
    let inner = inside_frame(area);
    if app.cpu_usage_by_id.len() == 0 || app.cpu_pairs.len() == 0 || inner.width < 28 || inner.height < 2
        || plan.chunks[1].height == 0 {
        assert(screen@ =~= before + cpu_grid(area, *app, *figures, *plan));
        return;
    }
    screen.put_line(plan.chunks[0], cpu_summary_line(app, figures), Style::paper(Color::RowA));
    let ghost head = screen@;
    let n = plan.columns.len();
    let ghost pairs = app.cpu_pairs@.len() as int;
    for i in 0..n
        invariant
            n == plan.columns@.len(),
            n == plan.count(pairs, app.combine_smt),
            pairs == app.cpu_pairs@.len(),
            plan.chunks@[1].height > 0,
            plan.fits(pairs, app.combine_smt),
            figures.pair_means@.len() == app.cpu_pairs@.len(),
            screen@ =~= head + cpu_rows(*app, *figures, *plan, i as int),
    {
        if app.combine_smt {
            draw_combined_row(screen, app, figures, plan.rows[i], &plan.columns[i], i);
        } else {
            draw_separate_row(screen, app, plan.rows[i], &plan.columns[i], i);
        }
    }
    assert(screen@ =~= before + cpu_grid(area, *app, *figures, *plan));
}

// ---------------------------------------------------------------------------
// The graphics card
// ---------------------------------------------------------------------------

/// The title of the graphics card, as far as it fits.
pub open spec fn gpu_title(area: Rect, gpu: Option<GpuStats>) -> LineView {
    let text = match gpu {
        Some(stats) => truncated("GPU "@ + stats.name@, less_by(area.width as int, 4) as nat),
        None => "GPU"@,
    };
    LineView {
        centered: true,
        style: Style::ink(Color::AccentGpu).in_bold(),
        ..raw_line(" "@ + text + " "@)
    }
}

fn gpu_title_line(area: Rect, gpu: &Option<GpuStats>) -> (r: Line)
    ensures
        r@ == gpu_title(area, *gpu),
{
    let mut title = copy_str(" ");
    match gpu {
        Some(stats) => {
            let mut name = copy_str("GPU ");
            name.append(stats.name.as_str());
            let short = truncate_ascii(name.as_str(), area.width.saturating_sub(4) as usize);
            title.append(short.as_str());
        },
        None => {
            title.append("GPU");
        },
    }
    title.append(" ");
    Line::raw(title.as_str()).center().styled(Style::ink(Color::AccentGpu).in_bold())
}

/// The temperature of the graphics card.
pub open spec fn gpu_temp(stats: GpuStats) -> Seq<char> {
    aligned(stats.temp_c, 0, 4) + "C"@
}

/// How much of the graphics memory is in use.
pub open spec fn vram_size(stats: GpuStats) -> Seq<char> {
    fixed(stats.vram_used_mib, 10, 1) + "/"@ + fixed(stats.vram_total_mib, 10, 1) + " GB"@
}

fn gpu_temp_text(stats: &GpuStats) -> (r: String)
    ensures
        r@ == gpu_temp(*stats),
{
    let mut r = String::new();
    append_aligned(&mut r, stats.temp_c, 0, 4);
    assert(r@ =~= aligned(stats.temp_c, 0, 4));
    r.append("C");
    r
}

fn vram_size_text(stats: &GpuStats) -> (r: String)
    ensures
        r@ == vram_size(*stats),
{
    let mut r = String::new();
    append_fixed(&mut r, stats.vram_used_mib, 10, 1);
    assert(r@ =~= fixed(stats.vram_used_mib, 10, 1));
    r.append("/");
    append_fixed(&mut r, stats.vram_total_mib, 10, 1);
    r.append(" GB");
    r
}

/// The line of the temperature.
pub open spec fn temp_line(stats: GpuStats) -> LineView {
    line(
        seq![
            ink("Temp "@, Style::ink(Color::Muted)),
            ink(gpu_temp(stats), temp_style(Some(stats.temp_c)).in_bold()),
        ],
    )
}

/// The line of the graphics memory.
pub open spec fn vram_line(stats: GpuStats) -> LineView {
    line(
        seq![
            ink("VRAM "@, Style::ink(Color::Muted)),
            ink(vram_size(stats), Style::ink(Color::AccentVram).in_bold()),
        ],
    )
}

/// The line of both.
pub open spec fn gpu_summary(stats: GpuStats) -> LineView {
    line(
        seq![
            ink("Temp "@, Style::ink(Color::Muted)),
            ink(gpu_temp(stats), temp_style(Some(stats.temp_c)).in_bold()),
            ink(" | "@, Style::ink(Color::Muted)),
            ink("VRAM "@, Style::ink(Color::Muted)),
            ink(vram_size(stats), Style::ink(Color::AccentVram).in_bold()),
        ],
    )
}

fn push_temp(r: &mut Line, stats: &GpuStats)
    ensures
        final(r)@ == (LineView {
            spans: old(r)@.spans.push(ink("Temp "@, Style::ink(Color::Muted))).push(
                ink(gpu_temp(*stats), temp_style(Some(stats.temp_c)).in_bold()),
            ),
            ..old(r)@
        }),
{
    r.push("Temp ", Style::ink(Color::Muted));
    r.push(gpu_temp_text(stats).as_str(), style_for_temp(Some(stats.temp_c)).in_bold());
}

fn push_vram(r: &mut Line, stats: &GpuStats)
    ensures
        final(r)@ == (LineView {
            spans: old(r)@.spans.push(ink("VRAM "@, Style::ink(Color::Muted))).push(
                ink(vram_size(*stats), Style::ink(Color::AccentVram).in_bold()),
            ),
            ..old(r)@
        }),
{
    r.push("VRAM ", Style::ink(Color::Muted));
    r.push(vram_size_text(stats).as_str(), Style::ink(Color::AccentVram).in_bold());
}

fn temp_line_of(stats: &GpuStats) -> (r: Line)
    ensures
        r@ == temp_line(*stats),
{
    let mut r = Line::empty();
    push_temp(&mut r, stats);
    assert(r@.spans =~= temp_line(*stats).spans);
    r
}

fn vram_line_of(stats: &GpuStats) -> (r: Line)
    ensures
        r@ == vram_line(*stats),
{
    let mut r = Line::empty();
    push_vram(&mut r, stats);
    assert(r@.spans =~= vram_line(*stats).spans);
    r
}

fn gpu_summary_line(stats: &GpuStats) -> (r: Line)
    ensures
        r@ == gpu_summary(*stats),
{
    let mut r = Line::empty();
    push_temp(&mut r, stats);
    r.push(" | ", Style::ink(Color::Muted));
    push_vram(&mut r, stats);
    assert(r@.spans =~= gpu_summary(*stats).spans);
    r
}

/// The share of the graphics memory that is in use, from 0 to 100; zero where there is none.
pub open spec fn vram_share(stats: GpuStats, figures: Figures) -> Reading {
    if stats.vram_total_mib.at_most(zero()) {
        zero()
    } else {
        figures.vram_percent.to_percent()
    }
}

/// A line across an area.
pub open spec fn rule(area: Rect) -> DrawView {
    DrawView {
        area,
        widget: WidgetView::Paragraph {
            lines: raw_text(repeated('─', area.width as nat)),
            style: Style::ink(Color::Separator).on(Color::RowA),
        },
    }
}

fn draw_rule(screen: &mut Screen, area: Rect)
    ensures
        final(screen)@ == old(screen)@.push(rule(area)),
{
    let text = repeat('─', area.width as usize);
    screen.put(
        area,
        Widget::Paragraph {
            lines: text_lines(text.as_str()),
            style: Style::ink(Color::Separator).on(Color::RowA),
        },
    );
}

/// The lines of the graphics card: with the share of the processor time and the graphics
/// memory as bars where there are four lines, and the size of the memory on a line of its own
/// where there are five.
pub open spec fn gpu_lines(stats: GpuStats, figures: Figures, inner: Rect, parts: Seq<Rect>) -> Seq<DrawView> {
    let (a, b) = (Style::paper(Color::RowA), Style::paper(Color::RowB));
    if inner.height >= 4 {
        let bars = seq![
            line_draw(
                parts[0],
                if inner.height >= 5 {
                    temp_line(stats)
                } else {
                    gpu_summary(stats)
                },
                a,
            ),
            line_draw(
                parts[1],
                usage_meter("GPU"@, stats.usage_pct.to_percent(), parts[1].width as nat, Color::AccentGpu),
                b,
            ),
            rule(parts[2]),
            line_draw(
                parts[3],
                usage_meter("VRAM"@, vram_share(stats, figures), parts[3].width as nat, Color::AccentVram),
                b,
            ),
        ];
        if inner.height >= 5 {
            bars.push(line_draw(parts[4], vram_line(stats), a))
        } else {
            bars
        }
    } else {
        seq![line_draw(parts[0], gpu_summary(stats), Style::plain())]
    }
}

/// The panel of the graphics card.
pub open spec fn gpu_panel(area: Rect, gpu: Option<GpuStats>, figures: Figures, parts: Seq<Rect>) -> Seq<DrawView> {
    let inner = framed(area);
    let frame = seq![frame_draw(area, gpu_title(area, gpu), Style::plain())];
    if inner.height < 2 {
        frame
    } else {
        match gpu {
            Some(stats) => frame + gpu_lines(stats, figures, inner, parts),
            None => frame.push(
                DrawView {
                    area: inner,
                    widget: WidgetView::Paragraph {
                        lines: raw_text("No GPU metrics (NVIDIA nvidia-smi / AMD amdgpu sysfs)"@),
                        style: Style::ink(Color::Muted),
                    },
                },
            ),
        }
    }
}

fn draw_gpu_lines(screen: &mut Screen, stats: &GpuStats, figures: &Figures, inner: Rect, parts: &Vec<Rect>)
    requires
        fits_gpu(parts@, inner),
    ensures
        final(screen)@ == old(screen)@ + gpu_lines(*stats, *figures, inner, parts@),
{
    let ghost before = screen@;
    if inner.height < 4 {
        screen.put_line(parts[0], gpu_summary_line(stats), Style::plain());
        assert(screen@ =~= before + gpu_lines(*stats, *figures, inner, parts@));
        return;
    }
    let first = if inner.height >= 5 {
        temp_line_of(stats)
    } else {
        gpu_summary_line(stats)
    };
    screen.put_line(parts[0], first, Style::paper(Color::RowA));
    let usage = usage_meter_line("GPU", stats.usage_pct.clamped(), parts[1].width as usize, Color::AccentGpu);
    screen.put_line(parts[1], usage, Style::paper(Color::RowB));
    draw_rule(screen, parts[2]);
    let vram_pct = if stats.vram_total_mib.no_more(Reading { bits: ZERO }) {
        Reading { bits: ZERO }
    } else {
        figures.vram_percent.clamped()
    };
    let vram = usage_meter_line("VRAM", vram_pct, parts[3].width as usize, Color::AccentVram);
    screen.put_line(parts[3], vram, Style::paper(Color::RowB));
    if inner.height >= 5 {
        screen.put_line(parts[4], vram_line_of(stats), Style::paper(Color::RowA));
    }
    assert(screen@ =~= before + gpu_lines(*stats, *figures, inner, parts@));
}

/// Draws the panel of the graphics card.
pub fn render_gpu_panel(screen: &mut Screen, area: Rect, gpu: &Option<GpuStats>, figures: &Figures, parts: &Vec<Rect>)
    requires
        fits_gpu(parts@, framed(area)),
    ensures
        final(screen)@ == old(screen)@ + gpu_panel(area, *gpu, *figures, parts@),
{
    let ghost before = screen@;
    screen.put(area, Widget::Frame { title: gpu_title_line(area, gpu), style: Style::plain() });
    let inner = inside_frame(area);
    if inner.height >= 2 {
        match gpu {
            Some(stats) => {
                draw_gpu_lines(screen, stats, figures, inner, parts);
            },
            None => {
                screen.put(
                    inner,
                    Widget::Paragraph {
                        lines: text_lines("No GPU metrics (NVIDIA nvidia-smi / AMD amdgpu sysfs)"),
                        style: Style::ink(Color::Muted),
                    },
                );
            },
        }
    }
    assert(screen@ =~= before + gpu_panel(area, *gpu, *figures, parts@));
}

// ---------------------------------------------------------------------------
// Memory and disk
// ---------------------------------------------------------------------------

/// The title of the memory.
pub open spec fn memory_title() -> LineView {
    LineView { centered: true, style: Style::ink(Color::AccentProc).in_bold(), ..raw_line(" RAM "@) }
}

/// The memory that is in use; no more than there is.
pub open spec fn ram_used(figures: Figures) -> nat {
    if figures.ram_used_bytes <= figures.ram_total_bytes {
        figures.ram_used_bytes as nat
    } else {
        figures.ram_total_bytes as nat
    }
}

/// The share of the memory that is in use, from 0 to 100; zero where there is none.
pub open spec fn ram_share(figures: Figures) -> Reading {
    if figures.ram_total_bytes == 0 {
        zero()
    } else {
        figures.ram_percent.to_percent()
    }
}

/// How much of the disk is in use, where that is known.
pub open spec fn disk_text(storage: Option<StorageStats>) -> Seq<char> {
    match storage {
        Some(s) => disk_usage(s.used_bytes as nat, s.total_bytes as nat),
        None => "n/a"@,
    }
}

/// The share of the disk that is in use, from 0 to 100; zero where that is not known or there
/// is none.
pub open spec fn disk_share(storage: Option<StorageStats>, figures: Figures) -> Reading {
    match storage {
        Some(s) => if s.total_bytes == 0 {
            zero()
        } else {
            figures.disk_percent.to_percent()
        },
        None => zero(),
    }
}

/// The line between memory and disk, with a label in its middle where there is room for it.
pub open spec fn disk_header(width: int) -> LineView {
    let label = Style::ink(Color::AccentVram).in_bold();
    let left = (width - 5) / 2;
    line(
        if width <= 5 {
            seq![ink("HDD"@, label)]
        } else {
            seq![
                ink(repeated('─', left as nat), Style::ink(Color::Separator)),
                ink(" HDD "@, label),
                ink(repeated('─', (width - 5 - left) as nat), Style::ink(Color::Separator)),
            ]
        },
    )
}

fn disk_header_line(width: usize) -> (r: Line)
    ensures
        r@ == disk_header(width as int),
{
    let label = Style::ink(Color::AccentVram).in_bold();
    let mut r = Line::empty();
    if width <= 5 {
        r.push("HDD", label);
    } else {
        let side: usize = width - 5;
        let left: usize = side / 2;
        r.push(repeat('─', left).as_str(), Style::ink(Color::Separator));
        r.push(" HDD ", label);
        r.push(repeat('─', side - left).as_str(), Style::ink(Color::Separator));
    }
    assert(r@.spans =~= disk_header(width as int).spans);
    r
}

/// A value and a share on one line, without bold text.
pub open spec fn short_usage(value: Seq<char>, usage: Reading, accent: Color) -> LineView {
    line(
        seq![
            ink(value, Style::ink(accent)),
            ink(" "@ + (fixed(usage, 0, 1) + "%"@), usage_style(usage, accent)),
        ],
    )
}

fn short_usage_line(value: &str, usage: Reading, accent: Color) -> (r: Line)
    ensures
        r@ == short_usage(value@, usage, accent),
{
    let mut text = copy_str(" ");
    text.append(percent_text(usage).as_str());
    let mut r = Line::empty();
    r.push(value, Style::ink(accent));
    r.push(text.as_str(), style_for_usage_with_base(usage, accent));
    assert(r@.spans =~= short_usage(value@, usage, accent).spans);
    r
}

/// The lines of memory and disk: with bars where there are five, else one for each.
pub open spec fn memory_lines(storage: Option<StorageStats>, figures: Figures, inner: Rect, parts: Seq<Rect>) -> Seq<
    DrawView,
> {
    let (a, b) = (Style::paper(Color::RowA), Style::paper(Color::RowB));
    let ram = gigabytes(ram_used(figures), figures.ram_total_bytes as nat);
    let ram_pct = ram_share(figures);
    let disk = disk_text(storage);
    let disk_pct = disk_share(storage, figures);
    if inner.height >= 5 {
        seq![
            line_draw(parts[0], value_usage(ram, ram_pct, Color::AccentGpu), a),
            line_draw(parts[1], usage_bar(ram_pct, parts[1].width as nat, Color::AccentGpu), b),
            line_draw(parts[2], disk_header(parts[2].width as int), a),
            line_draw(parts[3], value_usage(disk, disk_pct, Color::AccentVram), b),
            line_draw(parts[4], usage_bar(disk_pct, parts[4].width as nat, Color::AccentVram), a),
        ]
    } else {
        seq![
            line_draw(parts[0], short_usage(ram, ram_pct, Color::AccentGpu), Style::plain()),
            line_draw(parts[1], short_usage(disk, disk_pct, Color::AccentVram), Style::plain()),
        ]
    }
}

/// The panel of memory and disk.
pub open spec fn memory_panel(area: Rect, storage: Option<StorageStats>, figures: Figures, parts: Seq<Rect>) -> Seq<
    DrawView,
> {
    let frame = seq![frame_draw(area, memory_title(), Style::plain())];
    if framed(area).height < 2 {
        frame
    } else {
        frame + memory_lines(storage, figures, framed(area), parts)
    }
}

fn draw_memory_lines(
    screen: &mut Screen,
    storage: Option<StorageStats>,
    figures: &Figures,
    inner: Rect,
    parts: &Vec<Rect>,
)
    requires
        fits_memory(parts@, inner),
    ensures
        final(screen)@ == old(screen)@ + memory_lines(storage, *figures, inner, parts@),
{
    let ghost before = screen@;
    let total = figures.ram_total_bytes;
    let used: u64 = if figures.ram_used_bytes <= total {
        figures.ram_used_bytes
    } else {
        total
    };
    let ram = gigabytes_text(used, total);
    let ram_pct = if total == 0 {
        Reading { bits: ZERO }
    } else {
        figures.ram_percent.clamped()
    };
    let disk = match storage {
        Some(s) => format_disk_usage(s.used_bytes, s.total_bytes),
        None => copy_str("n/a"),
    };
    let disk_pct = match storage {
        Some(s) => if s.total_bytes == 0 {
            Reading { bits: ZERO }
        } else {
            figures.disk_percent.clamped()
        },
        None => Reading { bits: ZERO },
    };
    if inner.height >= 5 {
        let (a, b) = (Style::paper(Color::RowA), Style::paper(Color::RowB));
        screen.put_line(parts[0], value_usage_line(ram.as_str(), ram_pct, Color::AccentGpu), a);
        screen.put_line(parts[1], usage_bar_line(ram_pct, parts[1].width as usize, Color::AccentGpu), b);
        screen.put_line(parts[2], disk_header_line(parts[2].width as usize), a);
        screen.put_line(parts[3], value_usage_line(disk.as_str(), disk_pct, Color::AccentVram), b);
        screen.put_line(parts[4], usage_bar_line(disk_pct, parts[4].width as usize, Color::AccentVram), a);
    } else {
        screen.put_line(parts[0], short_usage_line(ram.as_str(), ram_pct, Color::AccentGpu), Style::plain());
        screen.put_line(parts[1], short_usage_line(disk.as_str(), disk_pct, Color::AccentVram), Style::plain());
    }
    assert(screen@ =~= before + memory_lines(storage, *figures, inner, parts@));
}

/// Draws the panel of memory and disk.
pub fn render_mem_disk_panel(
    screen: &mut Screen,
    area: Rect,
    storage: Option<StorageStats>,
    figures: &Figures,
    parts: &Vec<Rect>,
)
    requires
        fits_memory(parts@, framed(area)),
    ensures
        final(screen)@ == old(screen)@ + memory_panel(area, storage, *figures, parts@),
{
    let ghost before = screen@;
    let title = Line::raw(" RAM ").center().styled(Style::ink(Color::AccentProc).in_bold());
    screen.put(area, Widget::Frame { title, style: Style::plain() });
    let inner = inside_frame(area);
    if inner.height >= 2 {
        draw_memory_lines(screen, storage, figures, inner, parts);
    }
    assert(screen@ =~= before + memory_panel(area, storage, *figures, parts@));
}

// ---------------------------------------------------------------------------
// Laws
// ---------------------------------------------------------------------------

/// The shares of the graphics card, its memory, the memory and the disk that are shown lie
/// from 0 to 100, whatever figures come in, as long as these are numbers.
pub proof fn law_shares_are_shares(stats: GpuStats, storage: Option<StorageStats>, figures: Figures)
    requires
        !stats.usage_pct.is_nan(),
        !figures.vram_percent.is_nan(),
        !figures.ram_percent.is_nan(),
        !figures.disk_percent.is_nan(),
    ensures
        stats.usage_pct.to_percent().is_share(),
        vram_share(stats, figures).is_share(),
        ram_share(figures).is_share(),
        disk_share(storage, figures).is_share(),
{
    law_percent_is_share(stats.usage_pct);
    law_percent_is_share(figures.vram_percent);
    law_percent_is_share(figures.ram_percent);
    law_percent_is_share(figures.disk_percent);
}

/// Where pair `k` stands among what is drawn of the processors, two pairs on a line, behind the
/// frame and the summary, with a bar between the two.
pub open spec fn lane_place(k: int) -> int {
    2 + 3 * (k / 2) + 2 * (k % 2)
}

/// Whether all lines of the processors are wide enough for two columns.
pub open spec fn all_wide(plan: CpuPlan, n: int) -> bool {
    forall|i: int| 0 <= i < n ==> (#[trigger] plan.rows@[i]).width >= 52
}

/// Whether a line shows a processor by its letter and number, with a share.
pub open spec fn shows_share_of(draw: DrawView, letter: Seq<char>, id: usize, usage: Reading) -> bool {
    &&& is_line(draw)
    &&& text_at(line_in(draw), 0) == letter + two_digits(id as nat) + " "@
    &&& text_at(line_in(draw), 1) == aligned(usage, 1, 5) + "%"@
    &&& bars_show(line_in(draw), usage)
}

spec fn is_combined_row(app: App, figures: Figures, plan: CpuPlan, draws: Seq<DrawView>, i: int) -> bool {
    let columns = plan.columns@[i]@;
    &&& draws[3 * i] == pair_lane(app, figures, 2 * i, columns[0], stripe(i))
    &&& draws[3 * i + 1] == divider(columns[1], stripe(i))
    &&& 2 * i + 1 < app.cpu_pairs@.len() ==> draws[3 * i + 2] == pair_lane(
        app,
        figures,
        2 * i + 1,
        columns[2],
        stripe(i),
    )
}

proof fn lemma_combined_row(app: App, figures: Figures, plan: CpuPlan, before: Seq<DrawView>, i: int)
    requires
        plan.rows@[i].width >= 52,
        0 <= i,
        before.len() == 3 * i,
        app.combine_smt,
    ensures
        is_combined_row(app, figures, plan, before + cpu_row(app, figures, plan, i), i),
        cpu_row(app, figures, plan, i).len() == (if 2 * i + 1 < app.cpu_pairs@.len() {
            3nat
        } else {
            2
        }),
{
    let row = combined_row(app, figures, plan.rows@[i], plan.columns@[i]@, i);
    assert(cpu_row(app, figures, plan, i) == row);
    let all = before + row;
    assert(all[3 * i] == row[0]);
    assert(all[3 * i + 1] == row[1]);
    if 2 * i + 1 < app.cpu_pairs@.len() {
        assert(all[3 * i + 2] == row[2]);
    }
}

proof fn lemma_combined_rows(app: App, figures: Figures, plan: CpuPlan, n: int)
    requires
        app.combine_smt,
        0 <= n,
        2 * n <= app.cpu_pairs@.len() + 1,
        all_wide(plan, n),
    ensures
        cpu_rows(app, figures, plan, n).len() == (if 2 * n <= app.cpu_pairs@.len() {
            3 * n
        } else {
            3 * n - 1
        }),
        forall|i: int| 0 <= i < n ==> #[trigger] is_combined_row(app, figures, plan, cpu_rows(app, figures, plan, n), i),
    decreases n,
{
    if n > 0 {
        lemma_combined_rows(app, figures, plan, n - 1);
        let before = cpu_rows(app, figures, plan, n - 1);
        let all = cpu_rows(app, figures, plan, n);
        assert(plan.rows@[n - 1].width >= 52);
        assert(all == before + cpu_row(app, figures, plan, n - 1));
        lemma_combined_row(app, figures, plan, before, n - 1);
        assert forall|i: int| 0 <= i < n implies #[trigger] is_combined_row(app, figures, plan, all, i) by {
            if i < n - 1 {
                assert(is_combined_row(app, figures, plan, before, i));
                assert(all[3 * i] == before[3 * i]);
                assert(all[3 * i + 1] == before[3 * i + 1]);
                assert(all[3 * i + 2] == before[3 * i + 2]);
            }
        }
    }
}

/// Where pairs are combined, the lane of each pair shows its number, and its own mean where it
/// has two threads, or what was measured of its only one; it stands at its own place, the pairs
/// in order, two on a line.
pub proof fn law_lane_of_pair(area: Rect, app: App, figures: Figures, plan: CpuPlan, k: int)
    requires
        app.combine_smt,
        app.cpu_usage_by_id@.len() > 0,
        framed(area).width >= 28,
        framed(area).height >= 2,
        plan.chunks@[1].height > 0,
        0 <= k < app.cpu_pairs@.len(),
        k < 2 * plan.chunks@[1].height,
        all_wide(plan, plan.count(app.cpu_pairs@.len() as int, true)),
    ensures
        lane_place(k) < cpu_grid(area, app, figures, plan).len(),
        ({
            let lane = cpu_grid(area, app, figures, plan)[lane_place(k)];
            let (core, second) = app.cpu_pairs@[k];
            &&& lane.area == plan.columns@[k / 2]@[2 * (k % 2)]
            &&& second is Some ==> shows_share_of(lane, "c"@, core, figures.pair_means@[k])
            &&& second is None && app.cpu_usage_by_id@.contains_key(core) ==> shows_share_of(
                lane,
                "c"@,
                core,
                app.cpu_usage_by_id@[core],
            )
            &&& second is None && !app.cpu_usage_by_id@.contains_key(core) ==> shows_share_of(
                lane,
                "c"@,
                core,
                Reading { bits: 0 },
            )
        }),
{
    let pairs = app.cpu_pairs@.len() as int;
    let n = plan.count(pairs, true);
    let i = k / 2;
    lemma_combined_rows(app, figures, plan, n);
    assert(0 <= i < n);
    let rows = cpu_rows(app, figures, plan, n);
    assert(is_combined_row(app, figures, plan, rows, i));
    let grid = cpu_grid(area, app, figures, plan);
    assert(grid.len() == 2 + rows.len());
    assert(grid[lane_place(k)] == rows[lane_place(k) - 2]);
    reveal_strlit("c");
    law_lane_shows_its_share(
        "c"@,
        app.cpu_pairs@[k].0 as nat,
        pair_usage(app, figures, k),
        plan.columns@[i]@[2 * (k % 2)].width as nat,
        Color::AccentCpu,
    );
}

/// Two sets of figures that differ in the mean of one pair give panels that differ in the lane of
/// that pair alone.
pub proof fn law_other_lanes_stay(area: Rect, app: App, a: Figures, b: Figures, plan: CpuPlan, k: int, p: int)
    requires
        app.combine_smt,
        app.cpu_usage_by_id@.len() > 0,
        framed(area).width >= 28,
        framed(area).height >= 2,
        plan.chunks@[1].height > 0,
        0 <= k < app.cpu_pairs@.len(),
        all_wide(plan, plan.count(app.cpu_pairs@.len() as int, true)),
        a.cpu_average == b.cpu_average,
        a.frequency@ == b.frequency@,
        forall|j: int| 0 <= j < app.cpu_pairs@.len() && j != k ==> #[trigger] a.pair_means@[j] == b.pair_means@[j],
        0 <= p < cpu_grid(area, app, a, plan).len(),
        p != lane_place(k),
    ensures
        cpu_grid(area, app, a, plan).len() == cpu_grid(area, app, b, plan).len(),
        cpu_grid(area, app, a, plan)[p] == cpu_grid(area, app, b, plan)[p],
{
    let pairs = app.cpu_pairs@.len() as int;
    let n = plan.count(pairs, true);
    lemma_combined_rows(app, a, plan, n);
    lemma_combined_rows(app, b, plan, n);
    let rows_a = cpu_rows(app, a, plan, n);
    let rows_b = cpu_rows(app, b, plan, n);
    if p >= 2 {
        let q = p - 2;
        let i = q / 3;
        assert(0 <= i < n);
        assert(is_combined_row(app, a, plan, rows_a, i));
        assert(is_combined_row(app, b, plan, rows_b, i));
        assert(cpu_grid(area, app, a, plan)[p] == rows_a[q]);
        assert(cpu_grid(area, app, b, plan)[p] == rows_b[q]);
        if q % 3 == 0 {
            assert(q == 3 * i);
            assert(2 * i != k);
            assert(a.pair_means@[2 * i] == b.pair_means@[2 * i]);
        } else if q % 3 == 1 {
            assert(q == 3 * i + 1);
        } else {
            assert(q == 3 * i + 2);
            assert(2 * i + 1 != k);
            assert(2 * i + 1 < pairs);
            assert(a.pair_means@[2 * i + 1] == b.pair_means@[2 * i + 1]);
        }
    } else {
        assert(cpu_title(area, app, a) == cpu_title(area, app, b));
    }
}

spec fn is_wide_row(app: App, plan: CpuPlan, draws: Seq<DrawView>, i: int) -> bool {
    let row = separate_row(app, plan.rows@[i], plan.columns@[i]@, i);
    &&& draws[3 * i] == row[0]
    &&& draws[3 * i + 1] == row[1]
    &&& draws[3 * i + 2] == row[2]
}

proof fn lemma_wide_rows(app: App, figures: Figures, plan: CpuPlan, n: int)
    requires
        !app.combine_smt,
        0 <= n,
        all_wide(plan, n),
    ensures
        cpu_rows(app, figures, plan, n).len() == 3 * n,
        forall|i: int| 0 <= i < n ==> #[trigger] is_wide_row(app, plan, cpu_rows(app, figures, plan, n), i),
    decreases n,
{
    if n > 0 {
        lemma_wide_rows(app, figures, plan, n - 1);
        let before = cpu_rows(app, figures, plan, n - 1);
        let all = cpu_rows(app, figures, plan, n);
        assert(plan.rows@[n - 1].width >= 52);
        let row = separate_row(app, plan.rows@[n - 1], plan.columns@[n - 1]@, n - 1);
        lemma_row_added(app, figures, plan, n);
        assert(all == before + row);
        assert(row.len() == 3);
        assert forall|i: int| 0 <= i < n implies #[trigger] is_wide_row(app, plan, all, i) by {
            if i < n - 1 {
                assert(is_wide_row(app, plan, before, i));
                assert(all[3 * i] == before[3 * i]);
                assert(all[3 * i + 1] == before[3 * i + 1]);
                assert(all[3 * i + 2] == before[3 * i + 2]);
            } else {
                assert(all[3 * i] == row[0]);
                assert(all[3 * i + 1] == row[1]);
                assert(all[3 * i + 2] == row[2]);
            }
        }
    }
}

proof fn lemma_row_added(app: App, figures: Figures, plan: CpuPlan, n: int)
    requires
        !app.combine_smt,
        0 < n,
    ensures
        cpu_rows(app, figures, plan, n) == cpu_rows(app, figures, plan, n - 1) + separate_row(
            app,
            plan.rows@[n - 1],
            plan.columns@[n - 1]@,
            n - 1,
        ),
{
}

proof fn lemma_narrow_rows(app: App, figures: Figures, plan: CpuPlan, n: int)
    requires
        !app.combine_smt,
        0 <= n,
        all_narrow(plan, n),
    ensures
        cpu_rows(app, figures, plan, n).len() == n,
        forall|i: int|
            0 <= i < n ==> #[trigger] cpu_rows(app, figures, plan, n)[i] == separate_row(
                app,
                plan.rows@[i],
                plan.columns@[i]@,
                i,
            )[0],
    decreases n,
{
    if n > 0 {
        lemma_narrow_rows(app, figures, plan, n - 1);
        let before = cpu_rows(app, figures, plan, n - 1);
        let all = cpu_rows(app, figures, plan, n);
        assert(plan.rows@[n - 1].width < 52);
        lemma_row_added(app, figures, plan, n);
        assert forall|i: int| 0 <= i < n implies #[trigger] all[i] == separate_row(
            app,
            plan.rows@[i],
            plan.columns@[i]@,
            i,
        )[0] by {
            if i < n - 1 {
                assert(all[i] == before[i]);
            }
        }
    }
}

/// Whether no line of the processors is wide enough for two columns.
pub open spec fn all_narrow(plan: CpuPlan, n: int) -> bool {
    forall|i: int| 0 <= i < n ==> (#[trigger] plan.rows@[i]).width < 52
}

/// Where pairs are not combined, line `i` shows what was measured of the core of pair `i`, and
/// beside it what was measured of its second thread, or that there is none.
pub proof fn law_lanes_of_threads(area: Rect, app: App, figures: Figures, plan: CpuPlan, i: int)
    requires
        !app.combine_smt,
        app.cpu_usage_by_id@.len() > 0,
        framed(area).width >= 28,
        framed(area).height >= 2,
        0 <= i < app.cpu_pairs@.len(),
        i < plan.chunks@[1].height,
        all_wide(plan, plan.count(app.cpu_pairs@.len() as int, false)),
    ensures
        3 * i + 4 < cpu_grid(area, app, figures, plan).len(),
        ({
            let left = cpu_grid(area, app, figures, plan)[3 * i + 2];
            let right = cpu_grid(area, app, figures, plan)[3 * i + 4];
            let (core, second) = app.cpu_pairs@[i];
            let usages = app.cpu_usage_by_id@;
            &&& left.area == plan.columns@[i]@[0]
            &&& right.area == plan.columns@[i]@[2]
            &&& usages.contains_key(core) ==> shows_share_of(left, "C"@, core, usages[core])
            &&& !usages.contains_key(core) ==> shows_share_of(left, "C"@, core, Reading { bits: 0 })
            &&& second is Some && usages.contains_key(second->0) ==> shows_share_of(
                right,
                "T"@,
                second->0,
                usages[second->0],
            )
            &&& second is Some && !usages.contains_key(second->0) ==> shows_share_of(
                right,
                "T"@,
                second->0,
                Reading { bits: 0 },
            )
            &&& second is None ==> is_line(right) && text_at(line_in(right), 0) == "T-- "@ && text_at(line_in(right), 1)
                == "n/a"@
        }),
{
    let n = plan.count(app.cpu_pairs@.len() as int, false);
    lemma_wide_rows(app, figures, plan, n);
    assert(plan.rows@[i].width >= 52);
    let row = separate_row(app, plan.rows@[i], plan.columns@[i]@, i);
    let rows = cpu_rows(app, figures, plan, n);
    let grid = cpu_grid(area, app, figures, plan);
    assert(is_wide_row(app, plan, rows, i));
    assert(grid.len() == 2 + rows.len());
    assert(grid[3 * i + 2] == rows[3 * i]);
    assert(grid[3 * i + 4] == rows[3 * i + 2]);
    let (core, second) = app.cpu_pairs@[i];
    let columns = plan.columns@[i]@;
    reveal_strlit("C");
    reveal_strlit("T");
    reveal_strlit("-- ");
    reveal_strlit("T-- ");
    law_lane_shows_its_share("C"@, core as nat, usage_or_zero(app, core), columns[0].width as nat, Color::AccentCpu);
    match second {
        Some(id) => {
            law_lane_shows_its_share("T"@, id as nat, usage_or_zero(app, id), columns[2].width as nat, Color::AccentThread);
        },
        None => {
            law_placeholder_shows_none("T"@, columns[2].width as nat, Color::AccentThread);
            assert("T"@ + "-- "@ =~= "T-- "@);
        },
    }
}

/// On narrow lines, line `i` shows the core of pair `i` and its second thread side by side, with
/// what was measured of each.
pub proof fn law_narrow_lines_of_threads(area: Rect, app: App, figures: Figures, plan: CpuPlan, i: int)
    requires
        !app.combine_smt,
        app.cpu_usage_by_id@.len() > 0,
        framed(area).width >= 28,
        framed(area).height >= 2,
        0 <= i < app.cpu_pairs@.len(),
        i < plan.chunks@[1].height,
        all_narrow(plan, plan.count(app.cpu_pairs@.len() as int, false)),
        app.cpu_usage_by_id@.contains_key(app.cpu_pairs@[i].0),
    ensures
        i + 2 < cpu_grid(area, app, figures, plan).len(),
        ({
            let draw = cpu_grid(area, app, figures, plan)[i + 2];
            let (core, second) = app.cpu_pairs@[i];
            let usages = app.cpu_usage_by_id@;
            let width = plan.rows@[i].width as nat;
            &&& draw.area == plan.rows@[i]
            &&& is_line(draw)
            &&& second is None ==> line_in(draw) == pair_narrow(core as nat, usages[core], None, None, width)
            &&& second is Some && usages.contains_key(second->0) ==> line_in(draw) == pair_narrow(
                core as nat,
                usages[core],
                second,
                Some(usages[second->0]),
                width,
            )
            &&& second is Some && !usages.contains_key(second->0) ==> line_in(draw) == pair_narrow(
                core as nat,
                usages[core],
                second,
                None,
                width,
            )
        }),
{
    let n = plan.count(app.cpu_pairs@.len() as int, false);
    lemma_narrow_rows(app, figures, plan, n);
    assert(plan.rows@[i].width < 52);
    let row = separate_row(app, plan.rows@[i], plan.columns@[i]@, i);
    let rows = cpu_rows(app, figures, plan, n);
    let grid = cpu_grid(area, app, figures, plan);
    assert(rows[i] == row[0]);
    assert(grid.len() == 2 + rows.len());
    assert(grid[i + 2] == rows[i]);
}

/// The title of the processors is the model, cut to the width without 14 cells, and the
/// frequency, where it is known.
pub proof fn law_title_of_processors(area: Rect, app: App, figures: Figures, plan: CpuPlan)
    ensures
        ({
            let grid = cpu_grid(area, app, figures, plan);
            let title = grid[0].widget->Frame_title;
            &&& grid[0].area == area
            &&& grid[0].widget is Frame
            &&& title.centered
            &&& area.width >= 14 && app.cpu_model@.len() <= area.width - 14 ==> text_at(title, 0) == " "@
                + app.cpu_model@ + " "@
            &&& area.width >= 14 ==> text_at(title, 0) == " "@ + truncated(app.cpu_model@, (area.width - 14) as nat)
                + " "@
            &&& app.cpu_freq_mhz is Some ==> text_at(title, 2) == figures.frequency@
            &&& app.cpu_freq_mhz is None ==> text_at(title, 2) == "n/a"@
        }),
{
    reveal_strlit(" ");
    let width = less_by(less_by(area.width as int, 4), 10) as nat;
    law_truncated_fits(app.cpu_model@, width);
}

/// The summary of the processors shows the mean, the temperature where it is known, how many
/// threads were measured and how many pairs there are. It is shown where there is anything to
/// show, and room for it.
pub proof fn law_summary_of_processors(area: Rect, app: App, figures: Figures, plan: CpuPlan)
    ensures
        app.cpu_usage_by_id@.len() == 0 || app.cpu_pairs@.len() == 0 || framed(area).width < 28 || framed(area).height < 2
            || plan.chunks@[1].height == 0 ==> cpu_grid(area, app, figures, plan).len() == 1,
        app.cpu_usage_by_id@.len() > 0 && app.cpu_pairs@.len() > 0 && framed(area).width >= 28 && framed(area).height
            >= 2 && plan.chunks@[1].height > 0 ==> {
            let summary = line_in(cpu_grid(area, app, figures, plan)[1]);
            &&& cpu_grid(area, app, figures, plan)[1].area == plan.chunks@[0]
            &&& text_at(summary, 1) == aligned(figures.cpu_average, 1, 5) + "%"@
            &&& style_at(summary, 1).fg == usage_style(figures.cpu_average, Color::AccentCpu).fg
            &&& app.cpu_temp_c is Some ==> text_at(summary, 3) == fixed(app.cpu_temp_c->0, 0, 0) + "C"@
            &&& app.cpu_temp_c is None ==> text_at(summary, 3) == "n/a"@
            &&& style_at(summary, 3).fg == temp_style(app.cpu_temp_c).fg
            &&& text_at(summary, 5) == decimal(app.cpu_usage_by_id@.len())
            &&& text_at(summary, 7) == (if app.combine_smt {
                "Combined "@
            } else {
                "Cores "@
            })
            &&& text_at(summary, 8) == decimal(app.cpu_pairs@.len())
        },
{
}

/// The panel of a graphics card shows its name, its own use, temperature and memory: the use and
/// the share of its memory as they were measured, brought to the nearest from 0 to 100.
pub proof fn law_panel_of_card(area: Rect, stats: GpuStats, figures: Figures, parts: Seq<Rect>)
    requires
        framed(area).height >= 4,
        !stats.name@.contains('\n'),
        !stats.vram_total_mib.is_nan(),
    ensures
        ({
            let panel = gpu_panel(area, Some(stats), figures, parts);
            let temp = aligned(stats.temp_c, 0, 4) + "C"@;
            let size = fixed(stats.vram_used_mib, 10, 1) + "/"@ + fixed(stats.vram_total_mib, 10, 1) + " GB"@;
            let usage = stats.usage_pct.to_percent();
            let share = if stats.vram_total_mib.value() > 0 {
                figures.vram_percent.to_percent()
            } else {
                Reading { bits: 0 }
            };
            let title = panel[0].widget->Frame_title;
            &&& panel[0].area == area && title.centered
            &&& panel.len() == (if framed(area).height >= 5 {
                6nat
            } else {
                5
            })
            &&& stats.name@.len() + 8 <= area.width ==> text_at(title, 0) == " GPU "@ + stats.name@ + " "@
            &&& area.width >= 4 ==> title.spans == raw_line(
                " "@ + truncated("GPU "@ + stats.name@, (area.width - 4) as nat) + " "@,
            ).spans
            &&& text_at(line_in(panel[1]), 1) == temp
            &&& style_at(line_in(panel[1]), 1).fg == temp_style(Some(stats.temp_c)).fg
            &&& text_at(line_in(panel[2]), 0) == "GPU "@
            &&& text_at(line_in(panel[2]), 2) == aligned(usage, 1, 5) + "%"@
            &&& bars_show(line_in(panel[2]), usage)
            &&& text_at(line_in(panel[4]), 0) == "VRAM"@
            &&& text_at(line_in(panel[4]), 2) == aligned(share, 1, 5) + "%"@
            &&& bars_show(line_in(panel[4]), share)
            &&& framed(area).height >= 5 ==> text_at(line_in(panel[5]), 1) == size
            &&& framed(area).height == 4 ==> text_at(line_in(panel[1]), 4) == size
            &&& forall|i: int|
                0 <= i < framed(area).height && i < 5 ==> (#[trigger] panel[i + 1]).area == parts[i]
        }),
{
    let panel = gpu_panel(area, Some(stats), figures, parts);
    reveal_strlit("GPU");
    reveal_strlit("GPU ");
    reveal_strlit(" GPU ");
    reveal_strlit(" ");
    reveal_strlit("VRAM");
    crate::reading::law_threshold_values();
    crate::reading::law_order_is_numeric(stats.vram_total_mib, zero());
    let name = "GPU "@ + stats.name@;
    law_truncated_fits(name, less_by(area.width as int, 4) as nat);
    let title = " GPU "@ + stats.name@ + " "@;
    assert(" "@ + name + " "@ =~= title);
    assert(!title.contains('\n')) by {
        if title.contains('\n') {
            let i = choose|i: int| 0 <= i < title.len() && title[i] == '\n';
            if 5 <= i < 5 + stats.name@.len() {
                assert(stats.name@[i - 5] == '\n');
            }
        }
    }
    law_text_of_one_line(title);
    let frame = frame_draw(area, gpu_title(area, Some(stats)), Style::plain());
    let lines = gpu_lines(stats, figures, framed(area), parts);
    assert(panel == seq![frame] + lines);
    assert(panel[1] == lines[0] && panel[2] == lines[1] && panel[4] == lines[3]);
    if framed(area).height >= 5 {
        assert(panel[5] == lines[4]);
    }
    let share = vram_share(stats, figures);
    law_meter_shows_its_share("GPU"@, stats.usage_pct.to_percent(), parts[1].width as nat, Color::AccentGpu);
    law_meter_shows_its_share("VRAM"@, share, parts[3].width as nat, Color::AccentVram);
    assert(text_at(line_in(panel[2]), 0) =~= "GPU "@);
    assert(text_at(line_in(panel[4]), 0) =~= "VRAM"@);
}

/// In a low panel one line shows the temperature and the memory; without a card the panel says
/// so; and without room there is only the frame.
pub proof fn law_low_panel_of_card(area: Rect, gpu: Option<GpuStats>, figures: Figures, parts: Seq<Rect>)
    ensures
        framed(area).height < 2 ==> gpu_panel(area, gpu, figures, parts).len() == 1,
        2 <= framed(area).height < 4 && gpu is Some ==> {
            let panel = gpu_panel(area, gpu, figures, parts);
            let stats = gpu->0;
            &&& panel.len() == 2
            &&& panel[1].area == parts[0]
            &&& text_at(line_in(panel[1]), 1) == aligned(stats.temp_c, 0, 4) + "C"@
            &&& text_at(line_in(panel[1]), 4) == fixed(stats.vram_used_mib, 10, 1) + "/"@ + fixed(
                stats.vram_total_mib,
                10,
                1,
            ) + " GB"@
        },
        framed(area).height >= 2 && gpu is None ==> {
            let panel = gpu_panel(area, gpu, figures, parts);
            &&& panel.len() == 2
            &&& panel[1].area == framed(area)
            &&& panel[1].widget->Paragraph_lines == raw_text("No GPU metrics (NVIDIA nvidia-smi / AMD amdgpu sysfs)"@)
            &&& text_at(panel[0].widget->Frame_title, 0) == " GPU "@
        },
{
    reveal_strlit("GPU");
    reveal_strlit(" GPU ");
    reveal_strlit(" ");
    assert(" "@ + "GPU"@ + " "@ =~= " GPU "@);
    law_text_of_one_line(" GPU "@);
}

/// The panel of the memory shows what of the memory and of the disk is in use, and the share of
/// each as it was measured, brought to the nearest from 0 to 100; no more memory is shown to be
/// in use than there is.
pub proof fn law_panel_of_memory(area: Rect, storage: StorageStats, figures: Figures, parts: Seq<Rect>)
    requires
        figures.ram_total_bytes > 0,
        storage.total_bytes > 0,
    ensures
        ({
            let panel = memory_panel(area, Some(storage), figures, parts);
            let used = least(figures.ram_used_bytes as int, figures.ram_total_bytes as int);
            let ram = size_text(used as nat, 30, 1) + "/"@ + size_text(figures.ram_total_bytes as nat, 30, 1) + " GB"@;
            let disk = disk_usage(storage.used_bytes as nat, storage.total_bytes as nat);
            let (ram_pct, disk_pct) = (figures.ram_percent.to_percent(), figures.disk_percent.to_percent());
            &&& panel[0].area == area
            &&& text_at(panel[0].widget->Frame_title, 0) == " RAM "@
            &&& panel[0].widget->Frame_title.centered
            &&& framed(area).height < 2 ==> panel.len() == 1
            &&& framed(area).height >= 5 ==> {
                &&& panel.len() == 6
                &&& text_at(line_in(panel[1]), 0) == ram
                &&& text_at(line_in(panel[1]), 2) == fixed(ram_pct, 0, 1) + "%"@
                &&& bars_show(line_in(panel[2]), ram_pct)
                &&& parts[1].width >= 4 ==> is_bar(line_in(panel[2]), 0, ram_pct)
                &&& text_at(line_in(panel[4]), 0) == disk
                &&& text_at(line_in(panel[4]), 2) == fixed(disk_pct, 0, 1) + "%"@
                &&& bars_show(line_in(panel[5]), disk_pct)
                &&& parts[4].width >= 4 ==> is_bar(line_in(panel[5]), 0, disk_pct)
                &&& forall|i: int| 0 <= i < 5 ==> (#[trigger] panel[i + 1]).area == parts[i]
            }
            &&& 2 <= framed(area).height < 5 ==> {
                &&& panel.len() == 3
                &&& text_at(line_in(panel[1]), 0) == ram
                &&& text_at(line_in(panel[1]), 1) == " "@ + (fixed(ram_pct, 0, 1) + "%"@)
                &&& text_at(line_in(panel[2]), 0) == disk
                &&& text_at(line_in(panel[2]), 1) == " "@ + (fixed(disk_pct, 0, 1) + "%"@)
                &&& panel[1].area == parts[0] && panel[2].area == parts[1]
            }
        }),
{
    reveal_strlit(" RAM ");
    law_text_of_one_line(" RAM "@);
    let panel = memory_panel(area, Some(storage), figures, parts);
    if framed(area).height >= 2 {
        let lines = memory_lines(Some(storage), figures, framed(area), parts);
        assert(panel == seq![frame_draw(area, memory_title(), Style::plain())] + lines);
        assert(panel[1] == lines[0] && panel[2] == lines[1]);
        if framed(area).height >= 5 {
            assert(panel[3] == lines[2] && panel[4] == lines[3] && panel[5] == lines[4]);
        }
    }
}

/// Where nothing is known of the disk that is said, and its share is zero; without memory, or on
/// a disk without room, the share is zero too.
pub proof fn law_unknown_shares_are_zero(storage: StorageStats, figures: Figures)
    ensures
        disk_text(None) == "n/a"@,
        disk_share(None, figures).value() == 0,
        storage.total_bytes == 0 ==> disk_share(Some(storage), figures).value() == 0,
        figures.ram_total_bytes == 0 ==> ram_share(figures).value() == 0,
{
    crate::reading::law_threshold_values();
}

/// The label of the disk stands in the middle of its line, with a rule on both sides, the left
/// one as long as the right one or one cell shorter.
pub proof fn law_label_of_disk(width: int)
    requires
        width >= 0,
    ensures
        width > 5 ==> {
            let header = disk_header(width);
            let (left, right) = (text_at(header, 0), text_at(header, 2));
            &&& header.spans.len() == 3
            &&& text_at(header, 1) == " HDD "@
            &&& left.len() + 5 + right.len() == width
            &&& left.len() <= right.len() <= left.len() + 1
            &&& forall|i: int| 0 <= i < left.len() ==> #[trigger] left[i] == '─'
            &&& forall|i: int| 0 <= i < right.len() ==> #[trigger] right[i] == '─'
        },
        width <= 5 ==> disk_header(width).spans.len() == 1 && text_at(disk_header(width), 0) == "HDD"@,
{
}

/// The usages of a pair are what was measured of its first and its second processor, in this
/// order, with zero for what was not measured.
pub proof fn law_usages_of_pair(app: App, pair: int)
    requires
        0 <= pair < app.cpu_pairs@.len(),
    ensures
        ({
            let (first, second) = usages_of_pair(app, pair);
            let (core, thread) = app.cpu_pairs@[pair];
            let usages = app.cpu_usage_by_id@;
            &&& usages.contains_key(core) ==> first == usages[core]
            &&& !usages.contains_key(core) ==> first.value() == 0
            &&& thread is None <==> second is None
            &&& thread is Some && usages.contains_key(thread->0) ==> second == Some(usages[thread->0])
            &&& thread is Some && !usages.contains_key(thread->0) ==> (second->0).value() == 0
        }),
{
    crate::reading::law_threshold_values();
}

/// Lines that follow each other have different backgrounds, two in turn, on the whole line; a
/// thin bar stands between the two columns.
pub proof fn law_lines_are_striped(app: App, figures: Figures, row: Rect, columns: Seq<Rect>, i: int)
    requires
        i >= 0,
        row.width >= 52,
    ensures
        stripe(i) != stripe(i + 1),
        stripe(i) == stripe(i + 2),
        stripe(0) == Color::RowA,
        forall|narrow: Rect| narrow.width < 52 ==> (#[trigger] combined_row(app, figures, narrow, columns, i)).len() == 0,
        combined_row(app, figures, row, columns, i).len() >= 2,
        forall|k: int|
            0 <= k < combined_row(app, figures, row, columns, i).len() ==> (#[trigger] combined_row(
                app,
                figures,
                row,
                columns,
                i,
            )[k]).widget->Paragraph_style.bg == Some(stripe(i)),
        separate_row(app, row, columns, i).len() == 3,
        forall|k: int|
            0 <= k < 3 ==> (#[trigger] separate_row(app, row, columns, i)[k]).widget->Paragraph_style.bg == Some(
                stripe(i),
            ),
        combined_row(app, figures, row, columns, i)[1].area == columns[1],
        text_at(line_in(combined_row(app, figures, row, columns, i)[1]), 0) == "│"@,
        separate_row(app, row, columns, i)[1].area == columns[1],
        text_at(line_in(separate_row(app, row, columns, i)[1]), 0) == "│"@,
{
    reveal_strlit("│");
    law_text_of_one_line("│"@);
}

/// A rule is as long as its area is wide.
pub proof fn law_rule_fills_area(area: Rect)
    requires
        area.width > 0,
    ensures
        rule(area).area == area,
        is_line(rule(area)),
        text_at(line_in(rule(area)), 0).len() == area.width,
        forall|i: int| 0 <= i < area.width ==> #[trigger] text_at(line_in(rule(area)), 0)[i] == '─',
{
    let text = repeated('─', area.width as nat);
    assert(!text.contains('\n'));
    law_text_of_one_line(text);
}

} // verus!
