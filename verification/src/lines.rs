//! The lines of the panels: shares with bars, and sizes.

use crate::figure::{
    aligned, append_aligned, append_fixed, append_size, fixed, is_ascii, left_aligned,
    lemma_fixed_ascii, repeat, repeated, size_text,
};
use crate::number::{append_two_digits, lemma_decimal, less_by, two_digits};
use crate::reading::Reading;
use crate::text::{chars_of, copy_str, string_of};
use crate::theme::{style_for_usage_with_base, usage_style, Color, Style};
use crate::widgets::{
    bars_show, ink, is_bar, line, style_at, text_at, Line, LineView, Span, SpanView,
};
use vstd::prelude::*;
use vstd::slice::slice_subrange;

verus! {

broadcast use vstd::string::group_string_axioms;

/// The number of bytes that a text takes.
pub open spec fn byte_len(text: Seq<char>) -> int {
    vstd::utf8::encode_utf8(text).len() as int
}

/// A text of characters that take one byte has as many bytes as characters.
proof fn lemma_ascii_bytes(text: Seq<char>)
    requires
        is_ascii(text),
    ensures
        byte_len(text) == text.len(),
    decreases text.len(),
{
    if text.len() > 0 {
        lemma_ascii_bytes(text.drop_first());
        assert(text[0] as u32 <= 0x7F);
    }
}

fn bytes_in(text: &str) -> (r: usize)
    ensures
        r == byte_len(text@),
{
    text.as_bytes().len()
}

/// What of `width` is left beside texts of `a` and `b` bytes and `gaps` more cells.
fn left_beside(width: usize, a: usize, b: usize, gaps: usize) -> (r: usize)
    ensures
        r == less_by(width as int, a + b + gaps),
{
    width.saturating_sub(a).saturating_sub(b).saturating_sub(gaps)
}

// ---------------------------------------------------------------------------
// Bars
// ---------------------------------------------------------------------------

/// A cell of which `units` eighths are filled.
pub open spec fn partial_cell(units: int) -> char {
    if units == 1 {
        '⡀'
    } else if units == 2 {
        '⡄'
    } else if units == 3 {
        '⡆'
    } else if units == 4 {
        '⡇'
    } else if units == 5 {
        '⣇'
    } else if units == 6 {
        '⣧'
    } else if units == 7 {
        '⣷'
    } else {
        '⣿'
    }
}

/// The filled part of a bar: full cells, then a partial one where eighths are left over and a
/// cell is left for them.
pub open spec fn bar_fill(units: nat, width: nat) -> Seq<char> {
    if units / 8 >= width {
        repeated('⣿', width)
    } else if units % 8 > 0 {
        repeated('⣿', units / 8).push(partial_cell((units % 8) as int))
    } else {
        repeated('⣿', units / 8)
    }
}

/// The rest of a bar.
pub open spec fn bar_track(units: nat, width: nat) -> Seq<char> {
    repeated('⠄', (width - bar_fill(units, width).len()) as nat)
}

/// The filled part and the rest of a bar of `width` cells, `units` eighths of a cell filled.
pub fn braille_bar_segments(units: usize, width: usize) -> (r: (String, String))
    ensures
        r.0@ == bar_fill(units as nat, width as nat),
        r.1@ == bar_track(units as nat, width as nat),
        r.0@.len() + r.1@.len() == width,
{
    let full: usize = if units / 8 < width {
        units / 8
    } else {
        width
    };
    let part: usize = if full < width {
        units % 8
    } else {
        0
    };
    let mut fill = repeat('⣿', full);
    if part > 0 {
        let c = if part == 1 {
            '⡀'
        } else if part == 2 {
            '⡄'
        } else if part == 3 {
            '⡆'
        } else if part == 4 {
            '⡇'
        } else if part == 5 {
            '⣇'
        } else if part == 6 {
            '⣧'
        } else {
            '⣷'
        };
        fill.push(c);
        (fill, repeat('⠄', width - full - 1))
    } else {
        (fill, repeat('⠄', width - full))
    }
}

/// A bar has its width. All of its filled cells but the last are full, the rest is track;
/// nothing is filled where no eighth is, and all of it where there are eighths enough.
pub proof fn law_bar_has_its_width(units: nat, width: nat)
    ensures
        bar_fill(units, width).len() + bar_track(units, width).len() == width,
        forall|i: int| 0 <= i < bar_fill(units, width).len() - 1 ==> #[trigger] bar_fill(units, width)[i] == '⣿',
        forall|i: int| 0 <= i < bar_track(units, width).len() ==> #[trigger] bar_track(units, width)[i] == '⠄',
        units == 0 ==> bar_fill(units, width).len() == 0,
        units >= 8 * width ==> bar_track(units, width).len() == 0,
{
}

/// More eighths fill no fewer cells.
pub proof fn law_bar_grows(fewer: nat, more: nat, width: nat)
    requires
        fewer <= more,
    ensures
        bar_fill(fewer, width).len() <= bar_fill(more, width).len(),
{
}

/// A piece of a line as plain text: a bar gives its filled part and the rest.
pub open spec fn plain_spans(span: SpanView, units: nat) -> Seq<SpanView> {
    match span {
        SpanView::Text { text, style } => seq![ink(text, style)],
        SpanView::Meter { usage, width, style } => seq![
            ink(bar_fill(units, width as nat), style),
            ink(bar_track(units, width as nat), Style::ink(Color::Track)),
        ],
    }
}

/// Appends a piece of a line as plain text, where `units` eighths of a cell are filled if it
/// is a bar.
pub fn push_plain(out: &mut Line, span: &Span, units: usize)
    ensures
        final(out)@ == (LineView {
            spans: old(out)@.spans + plain_spans(span@, units as nat),
            ..old(out)@
        }),
{
    let ghost before = out@;
    match span {
        Span::Text { text, style } => {
            out.push(text.as_str(), *style);
        },
        Span::Meter { usage, width, style } => {
            let (fill, track) = braille_bar_segments(units, *width);
            out.push(fill.as_str(), *style);
            out.push(track.as_str(), Style::ink(Color::Track));
        },
    }
    assert(out@.spans =~= before.spans + plain_spans(span@, units as nat));
}

// ---------------------------------------------------------------------------
// Processors
// ---------------------------------------------------------------------------

/// A share in percent with one decimal, in six characters or more.
pub open spec fn share(usage: Reading) -> Seq<char> {
    aligned(usage, 1, 5) + "%"@
}

/// A share in percent with one decimal, in six characters or more.
pub fn share_text(usage: Reading) -> (r: String)
    ensures
        r@ == share(usage),
{
    let mut r = String::new();
    append_aligned(&mut r, usage, 1, 5);
    r.append("%");
    assert(r@ =~= share(usage));
    r
}

/// The line of one processor: its name, its share, and a bar where at least six cells are left.
pub open spec fn cpu_lane(prefix: Seq<char>, logical_id: nat, usage: Reading, width: nat, accent: Color) -> LineView {
    let id = prefix + two_digits(logical_id);
    let strong = usage_style(usage, accent).in_bold();
    let bar = less_by(width as int, byte_len(id) + byte_len(share(usage)) + 2);
    let head = seq![ink(id + " "@, Style::ink(accent).in_bold()), ink(share(usage), strong)];
    line(
        if bar >= 6 {
            head.push(ink(" "@, Style::plain())).push(
                SpanView::Meter { usage, width: bar as usize, style: strong },
            )
        } else {
            head
        },
    )
}

/// The line of one processor.
pub fn cpu_lane_line(prefix: &str, logical_id: usize, usage: Reading, width: usize, accent: Color) -> (r: Line)
    ensures
        r@ == cpu_lane(prefix@, logical_id as nat, usage, width as nat, accent),
{
    let mut id = copy_str(prefix);
    append_two_digits(&mut id, logical_id as u64);
    let usage_text = share_text(usage);
    let bar_width = left_beside(width, bytes_in(id.as_str()), bytes_in(usage_text.as_str()), 2);
    id.append(" ");
    let strong = style_for_usage_with_base(usage, accent).in_bold();
    let mut r = Line::empty();
    r.push(id.as_str(), Style::ink(accent).in_bold());
    r.push(usage_text.as_str(), strong);
    if bar_width >= 6 {
        r.push(" ", Style::plain());
        r.push_meter(usage, bar_width, strong);
    }
    assert(r@.spans =~= cpu_lane(prefix@, logical_id as nat, usage, width as nat, accent).spans);
    r
}

/// The line of a processor that does not exist: an empty bar where at least six cells are left.
pub open spec fn lane_placeholder(prefix: Seq<char>, width: nat, accent: Color) -> LineView {
    let id = prefix + "--"@;
    let bar = less_by(width as int, byte_len(id) + 5);
    let head = seq![ink(id + " "@, Style::ink(accent).in_bold()), ink("n/a"@, Style::ink(Color::Muted))];
    line(
        if bar >= 6 {
            head.push(ink(" "@, Style::plain())).push(
                ink(repeated('⠄', bar as nat), Style::ink(Color::Track)),
            )
        } else {
            head
        },
    )
}

/// The line of a processor that does not exist.
pub fn cpu_lane_placeholder(prefix: &str, width: usize, accent: Color) -> (r: Line)
    ensures
        r@ == lane_placeholder(prefix@, width as nat, accent),
{
    let mut id = copy_str(prefix);
    id.append("--");
    let bar_width = left_beside(width, bytes_in(id.as_str()), 0, 5);
    id.append(" ");
    let mut r = Line::empty();
    r.push(id.as_str(), Style::ink(accent).in_bold());
    r.push("n/a", Style::ink(Color::Muted));
    if bar_width >= 6 {
        r.push(" ", Style::plain());
        r.push(repeat('⠄', bar_width).as_str(), Style::ink(Color::Track));
    }
    assert(r@.spans =~= lane_placeholder(prefix@, width as nat, accent).spans);
    r
}

/// A processor's name and its share without decimals.
pub open spec fn short_name(letter: Seq<char>, id: nat, usage: Option<Reading>) -> Seq<char> {
    match usage {
        Some(usage) => letter + two_digits(id) + " "@ + aligned(usage, 0, 4) + "%"@,
        None => letter + two_digits(id) + "  n/a"@,
    }
}

fn short_name_text(letter: &str, id: usize, usage: Option<Reading>) -> (r: String)
    ensures
        r@ == short_name(letter@, id as nat, usage),
{
    let mut r = copy_str(letter);
    append_two_digits(&mut r, id as u64);
    match usage {
        Some(usage) => {
            r.append(" ");
            append_aligned(&mut r, usage, 0, 4);
            r.append("%");
        },
        None => {
            r.append("  n/a");
        },
    }
    r
}

/// `spans` with a gap and a bar, where the bar has at least `least` cells.
pub open spec fn with_bar(spans: Seq<SpanView>, usage: Reading, bar: int, least: int, style: Style) -> Seq<SpanView> {
    if bar >= least {
        spans.push(ink(" "@, Style::plain())).push(SpanView::Meter { usage, width: bar as usize, style })
    } else {
        spans
    }
}

/// The line of a core and its second thread side by side: what is left of the width is
/// divided between their bars.
pub open spec fn pair_narrow(
    core_id: nat,
    core_usage: Reading,
    smt_id: Option<usize>,
    smt_usage: Option<Reading>,
    width: nat,
) -> LineView {
    let core = short_name("C"@, core_id, Some(core_usage));
    let core_style = usage_style(core_usage, Color::AccentCpu);
    let head = seq![ink(core, core_style.in_bold())];
    line(
        match smt_id {
            Some(thread_id) => {
                let thread = short_name("T"@, thread_id as nat, smt_usage);
                let total = less_by(width as int, byte_len(core) + byte_len(thread) + 3);
                let core_bar = total / 2;
                let thread_bar = total - core_bar;
                let middle = with_bar(head, core_usage, core_bar, 2, core_style).push(
                    ink("│"@, Style::ink(Color::Separator)),
                );
                match smt_usage {
                    Some(thread_usage) => {
                        let style = usage_style(thread_usage, Color::AccentThread);
                        with_bar(middle.push(ink(thread, style.in_bold())), thread_usage, thread_bar, 2, style)
                    },
                    None => {
                        let named = middle.push(ink(thread, Style::ink(Color::Muted)));
                        if thread_bar >= 2 {
                            named.push(ink(" "@, Style::plain())).push(
                                ink(repeated('⠄', thread_bar as nat), Style::ink(Color::Track)),
                            )
                        } else {
                            named
                        }
                    },
                }
            },
            None => with_bar(head, core_usage, less_by(width as int, byte_len(core) + 1), 4, core_style),
        },
    )
}

fn push_bar(r: &mut Line, usage: Reading, bar: usize, least: usize, style: Style)
    ensures
        final(r)@ == (LineView {
            spans: with_bar(old(r)@.spans, usage, bar as int, least as int, style),
            ..old(r)@
        }),
{
    if bar >= least {
        r.push(" ", Style::plain());
        r.push_meter(usage, bar, style);
    }
}

/// The line of a core and its second thread side by side.
pub fn cpu_pair_narrow_line(
    core_id: usize,
    core_usage: Reading,
    smt_id: Option<usize>,
    smt_usage: Option<Reading>,
    width: usize,
) -> (r: Line)
    ensures
        r@ == pair_narrow(core_id as nat, core_usage, smt_id, smt_usage, width as nat),
{
    let core_prefix = short_name_text("C", core_id, Some(core_usage));
    let core_style = style_for_usage_with_base(core_usage, Color::AccentCpu);
    let mut r = Line::empty();
    r.push(core_prefix.as_str(), core_style.in_bold());
    match smt_id {
        Some(thread_id) => {
            let thread_prefix = short_name_text("T", thread_id, smt_usage);
            let total_bar_width = left_beside(
                width,
                bytes_in(core_prefix.as_str()),
                bytes_in(thread_prefix.as_str()),
                3,
            );
            let core_bar_width: usize = total_bar_width / 2;
            let thread_bar_width: usize = total_bar_width - core_bar_width;
            push_bar(&mut r, core_usage, core_bar_width, 2, core_style);
            r.push("│", Style::ink(Color::Separator));
            match smt_usage {
                Some(thread_usage) => {
                    let style = style_for_usage_with_base(thread_usage, Color::AccentThread);
                    r.push(thread_prefix.as_str(), style.in_bold());
                    push_bar(&mut r, thread_usage, thread_bar_width, 2, style);
                },
                None => {
                    r.push(thread_prefix.as_str(), Style::ink(Color::Muted));
                    if thread_bar_width >= 2 {
                        r.push(" ", Style::plain());
                        r.push(repeat('⠄', thread_bar_width).as_str(), Style::ink(Color::Track));
                    }
                },
            }
        },
        None => {
            let bar_width = left_beside(width, bytes_in(core_prefix.as_str()), 0, 1);
            push_bar(&mut r, core_usage, bar_width, 4, core_style);
        },
    }
    r
}

/// The cells that pieces of a line take.
pub open spec fn cells(spans: Seq<SpanView>) -> int
    decreases spans.len(),
{
    if spans.len() == 0 {
        0
    } else {
        cells(spans.drop_last()) + match spans.last() {
            SpanView::Text { text, .. } => text.len() as int,
            SpanView::Meter { width, .. } => width as int,
        }
    }
}

proof fn lemma_cells_push(spans: Seq<SpanView>, span: SpanView)
    ensures
        cells(spans.push(span)) == cells(spans) + match span {
            SpanView::Text { text, .. } => text.len() as int,
            SpanView::Meter { width, .. } => width as int,
        },
{
    assert(spans.push(span).drop_last() =~= spans);
}

/// A gap and a bar take the cells of the bar and one more.
proof fn lemma_cells_with_bar(spans: Seq<SpanView>, usage: Reading, bar: int, least: int, style: Style)
    requires
        0 <= least <= bar <= usize::MAX,
    ensures
        cells(with_bar(spans, usage, bar, least, style)) == cells(spans) + 1 + bar,
{
    reveal_strlit(" ");
    let gap = ink(" "@, Style::plain());
    lemma_cells_push(spans, gap);
    lemma_cells_push(spans.push(gap), SpanView::Meter { usage, width: bar as usize, style });
}

/// The line of a core and its second thread takes exactly the width that was asked for,
/// wherever that leaves room for the bars: two cells for each of two, or four for a single
/// one.
pub proof fn law_narrow_line_is_as_wide(
    core_id: nat,
    core_usage: Reading,
    smt_id: Option<usize>,
    smt_usage: Option<Reading>,
    width: nat,
)
    requires
        width <= usize::MAX,
        width >= short_name("C"@, core_id, Some(core_usage)).len() + (match smt_id {
            Some(id) => short_name("T"@, id as nat, smt_usage).len() + 7,
            None => 5,
        }),
    ensures
        cells(pair_narrow(core_id, core_usage, smt_id, smt_usage, width).spans) == width,
{
    reveal_strlit("C");
    reveal_strlit("T");
    reveal_strlit(" ");
    reveal_strlit("│");
    let core = short_name("C"@, core_id, Some(core_usage));
    let core_style = usage_style(core_usage, Color::AccentCpu);
    let head = seq![ink(core, core_style.in_bold())];
    lemma_short_name_bytes("C"@, core_id, Some(core_usage));
    lemma_cells_push(Seq::empty(), ink(core, core_style.in_bold()));
    assert(head =~= Seq::<SpanView>::empty().push(ink(core, core_style.in_bold())));
    match smt_id {
        Some(id) => {
            let thread = short_name("T"@, id as nat, smt_usage);
            lemma_short_name_bytes("T"@, id as nat, smt_usage);
            let total = width - core.len() - thread.len() - 3;
            let core_bar = total / 2;
            let thread_bar = total - core_bar;
            let barred = with_bar(head, core_usage, core_bar, 2, core_style);
            lemma_cells_with_bar(head, core_usage, core_bar, 2, core_style);
            let divider = ink("│"@, Style::ink(Color::Separator));
            lemma_cells_push(barred, divider);
            let middle = barred.push(divider);
            match smt_usage {
                Some(usage) => {
                    let style = usage_style(usage, Color::AccentThread);
                    let name = ink(thread, style.in_bold());
                    lemma_cells_push(middle, name);
                    lemma_cells_with_bar(middle.push(name), usage, thread_bar, 2, style);
                },
                None => {
                    let name = ink(thread, Style::ink(Color::Muted));
                    let gap = ink(" "@, Style::plain());
                    let track = ink(repeated('⠄', thread_bar as nat), Style::ink(Color::Track));
                    lemma_cells_push(middle, name);
                    lemma_cells_push(middle.push(name), gap);
                    lemma_cells_push(middle.push(name).push(gap), track);
                },
            }
        },
        None => {
            lemma_cells_with_bar(head, core_usage, width - core.len() - 1, 4, core_style);
        },
    }
}

/// The name of a processor takes a byte for each character.
proof fn lemma_short_name_bytes(letter: Seq<char>, id: nat, usage: Option<Reading>)
    requires
        is_ascii(letter),
    ensures
        byte_len(short_name(letter, id, usage)) == short_name(letter, id, usage).len(),
{
    reveal_strlit(" ");
    reveal_strlit("%");
    reveal_strlit("  n/a");
    lemma_decimal(id);
    if let Some(usage) = usage {
        lemma_fixed_ascii(usage, 0, 0);
    }
    lemma_ascii_bytes(short_name(letter, id, usage));
}

// ---------------------------------------------------------------------------
// Shares
// ---------------------------------------------------------------------------

/// A label, a share, and a bar where at least eight cells are left.
pub open spec fn usage_meter(label: Seq<char>, usage: Reading, width: nat, accent: Color) -> LineView {
    let tag = left_aligned(label, 4);
    let strong = usage_style(usage, accent).in_bold();
    let bar = less_by(width as int, byte_len(tag) + byte_len(share(usage)) + 3);
    let head = seq![
        ink(tag, Style::ink(accent).in_bold()),
        ink(" "@, Style::plain()),
        ink(share(usage), strong),
    ];
    line(
        if bar >= 8 {
            head.push(ink("  "@, Style::plain())).push(
                SpanView::Meter { usage, width: bar as usize, style: strong },
            )
        } else {
            head
        },
    )
}

/// A label, a share, and a bar where at least eight cells are left.
pub fn usage_meter_line(label: &str, usage: Reading, width: usize, accent: Color) -> (r: Line)
    ensures
        r@ == usage_meter(label@, usage, width as nat, accent),
{
    let label_len = chars_of(label).len();
    let mut tag = copy_str(label);
    if label_len < 4 {
        let pad = repeat(' ', 4 - label_len);
        tag.append(pad.as_str());
    }
    let usage_text = share_text(usage);
    let bar_width = left_beside(width, bytes_in(tag.as_str()), bytes_in(usage_text.as_str()), 3);
    let strong = style_for_usage_with_base(usage, accent).in_bold();
    let mut r = Line::empty();
    r.push(tag.as_str(), Style::ink(accent).in_bold());
    r.push(" ", Style::plain());
    r.push(usage_text.as_str(), strong);
    if bar_width >= 8 {
        r.push("  ", Style::plain());
        r.push_meter(usage, bar_width, strong);
    }
    assert(r@.spans =~= usage_meter(label@, usage, width as nat, accent).spans);
    r
}

/// A value and a share.
pub open spec fn value_usage(value: Seq<char>, usage: Reading, accent: Color) -> LineView {
    line(
        seq![
            ink(value, Style::ink(accent).in_bold()),
            ink(" "@, Style::plain()),
            ink(fixed(usage, 0, 1) + "%"@, usage_style(usage, accent).in_bold()),
        ],
    )
}

/// A share in percent with one decimal.
pub fn percent_text(usage: Reading) -> (r: String)
    ensures
        r@ == fixed(usage, 0, 1) + "%"@,
{
    let mut r = String::new();
    append_fixed(&mut r, usage, 0, 1);
    assert(r@ =~= fixed(usage, 0, 1));
    r.append("%");
    r
}

/// A value and a share.
pub fn value_usage_line(value_text: &str, usage: Reading, accent: Color) -> (r: Line)
    ensures
        r@ == value_usage(value_text@, usage, accent),
{
    let text = percent_text(usage);
    let mut r = Line::empty();
    r.push(value_text, Style::ink(accent).in_bold());
    r.push(" ", Style::plain());
    r.push(text.as_str(), style_for_usage_with_base(usage, accent).in_bold());
    assert(r@.spans =~= value_usage(value_text@, usage, accent).spans);
    r
}

/// A bar as wide as its area, where that has at least four cells.
pub open spec fn usage_bar(usage: Reading, width: nat, accent: Color) -> LineView {
    line(
        if width < 4 {
            Seq::empty()
        } else {
            seq![
                SpanView::Meter {
                    usage,
                    width: width as usize,
                    style: usage_style(usage, accent).in_bold(),
                },
            ]
        },
    )
}

/// A bar as wide as its area, where that has at least four cells.
pub fn usage_bar_line(usage: Reading, width: usize, accent: Color) -> (r: Line)
    ensures
        r@ == usage_bar(usage, width as nat, accent),
{
    let mut r = Line::empty();
    if width >= 4 {
        r.push_meter(usage, width, style_for_usage_with_base(usage, accent).in_bold());
    }
    r
}

// ---------------------------------------------------------------------------
// Texts
// ---------------------------------------------------------------------------

/// A text cut to at most `max_width` characters; dots stand for what is cut off.
pub open spec fn truncated(input: Seq<char>, max_width: nat) -> Seq<char> {
    if input.len() <= max_width {
        input
    } else if max_width <= 3 {
        repeated('.', max_width)
    } else {
        input.take(max_width - 3) + "..."@
    }
}

/// A text cut to at most `max_width` characters; dots stand for what is cut off.
pub fn truncate_ascii(input: &str, max_width: usize) -> (r: String)
    ensures
        r@ == truncated(input@, max_width as nat),
{
    let chars = chars_of(input);
    if chars.len() <= max_width {
        return copy_str(input);
    }
    if max_width <= 3 {
        return repeat('.', max_width);
    }
    let prefix = slice_subrange(chars.as_slice(), 0, max_width - 3);
    assert(prefix@ =~= input@.take(max_width - 3));
    let mut r = string_of(prefix);
    r.append("...");
    r
}

/// A text that was cut has no more characters than were allowed.
pub proof fn law_truncated_fits(input: Seq<char>, max_width: nat)
    ensures
        truncated(input, max_width).len() <= max_width,
        input.len() <= max_width ==> truncated(input, max_width) == input,
{
    reveal_strlit("...");
}

/// Cutting a text a second time changes nothing more.
pub proof fn law_truncated_twice(input: Seq<char>, max_width: nat)
    ensures
        truncated(truncated(input, max_width), max_width) == truncated(input, max_width),
{
    law_truncated_fits(input, max_width);
}

/// How much of how much, in units of two to the power of 30 bytes.
pub open spec fn gigabytes(used: nat, total: nat) -> Seq<char> {
    size_text(used, 30, 1) + "/"@ + size_text(total, 30, 1) + " GB"@
}

/// How much of how much, in units of two to the power of 30 bytes.
pub fn gigabytes_text(used: u64, total: u64) -> (r: String)
    ensures
        r@ == gigabytes(used as nat, total as nat),
{
    let mut r = String::new();
    append_size(&mut r, used, 30, 1);
    assert(r@ =~= size_text(used as nat, 30, 1));
    r.append("/");
    append_size(&mut r, total, 30, 1);
    r.append(" GB");
    r
}

/// How much of a disk is in use: in units of two to the power of 30 bytes where it is smaller
/// than six tenths of two to the power of 40, else in units of the latter.
pub open spec fn disk_usage(used: nat, total: nat) -> Seq<char> {
    if total * 10 < 6 * 0x100_0000_0000 {
        gigabytes(used, total)
    } else {
        size_text(used, 40, 2) + "/"@ + size_text(total, 40, 2) + " T"@
    }
}

/// How much of a disk is in use.
pub fn format_disk_usage(used_bytes: u64, total_bytes: u64) -> (r: String)
    ensures
        r@ == disk_usage(used_bytes as nat, total_bytes as nat),
{
    if total_bytes <= 659_706_976_665 {
        return gigabytes_text(used_bytes, total_bytes);
    }
    let mut r = String::new();
    append_size(&mut r, used_bytes, 40, 2);
    assert(r@ =~= size_text(used_bytes as nat, 40, 2));
    r.append("/");
    append_size(&mut r, total_bytes, 40, 2);
    r.append(" T");
    r
}

// ---------------------------------------------------------------------------
// Laws
// ---------------------------------------------------------------------------

proof fn lemma_share_bytes(usage: Reading)
    ensures
        byte_len(share(usage)) == share(usage).len(),
        share(usage).len() >= 6,
{
    reveal_strlit("%");
    lemma_fixed_ascii(usage, 0, 1);
    lemma_ascii_bytes(share(usage));
}

proof fn lemma_id_bytes(prefix: Seq<char>, id: nat)
    requires
        is_ascii(prefix),
    ensures
        byte_len(prefix + two_digits(id)) == prefix.len() + two_digits(id).len(),
{
    lemma_decimal(id);
    lemma_ascii_bytes(prefix + two_digits(id));
}

/// The line of a processor names it and shows its share, in figures and, where at least six
/// cells are left for it, as a bar that fills the line.
pub proof fn law_lane_shows_its_share(prefix: Seq<char>, id: nat, usage: Reading, width: nat, accent: Color)
    requires
        is_ascii(prefix),
        width <= usize::MAX,
    ensures
        ({
            let lane = cpu_lane(prefix, id, usage, width, accent);
            let taken = prefix.len() + two_digits(id).len() + 1 + share(usage).len();
            &&& text_at(lane, 0) == prefix + two_digits(id) + " "@
            &&& text_at(lane, 1) == aligned(usage, 1, 5) + "%"@
            &&& style_at(lane, 0).fg == Some(accent)
            &&& style_at(lane, 1).fg == usage_style(usage, accent).fg
            &&& bars_show(lane, usage)
            &&& width >= taken + 7 ==> lane.spans.len() == 4 && is_bar(lane, 3, usage) && cells(lane.spans) == width
            &&& width < taken + 7 ==> lane.spans.len() == 2 && cells(lane.spans) == taken
        }),
{
    reveal_strlit(" ");
    let lane = cpu_lane(prefix, id, usage, width, accent);
    let tag = prefix + two_digits(id);
    let strong = usage_style(usage, accent).in_bold();
    lemma_id_bytes(prefix, id);
    lemma_share_bytes(usage);
    let none = Seq::<SpanView>::empty();
    let a = ink(tag + " "@, Style::ink(accent).in_bold());
    let b = ink(share(usage), strong);
    lemma_cells_push(none, a);
    lemma_cells_push(none.push(a), b);
    assert(seq![a, b] =~= none.push(a).push(b));
    let bar = less_by(width as int, byte_len(tag) + byte_len(share(usage)) + 2);
    let gap = ink(" "@, Style::plain());
    lemma_cells_push(seq![a, b], gap);
    lemma_cells_push(seq![a, b].push(gap), SpanView::Meter { usage, width: bar as usize, style: strong });
}

/// The line of a processor that does not exist says so and shows no share.
pub proof fn law_placeholder_shows_none(prefix: Seq<char>, width: nat, accent: Color)
    requires
        is_ascii(prefix),
    ensures
        ({
            let lane = lane_placeholder(prefix, width, accent);
            &&& text_at(lane, 0) == prefix + "-- "@
            &&& text_at(lane, 1) == "n/a"@
            &&& forall|i: int| 0 <= i < lane.spans.len() ==> (#[trigger] lane.spans[i]) is Text
            &&& width >= prefix.len() + 13 ==> lane.spans.len() == 4 && cells(lane.spans) == width && forall|i: int|
                0 <= i < text_at(lane, 3).len() ==> #[trigger] text_at(lane, 3)[i] == '⠄'
            &&& width < prefix.len() + 13 ==> lane.spans.len() == 2
        }),
{
    reveal_strlit(" ");
    reveal_strlit("--");
    reveal_strlit("-- ");
    reveal_strlit("n/a");
    let lane = lane_placeholder(prefix, width, accent);
    let id = prefix + "--"@;
    assert(id + " "@ =~= prefix + "-- "@);
    lemma_ascii_bytes(id);
    let none = Seq::<SpanView>::empty();
    let a = ink(id + " "@, Style::ink(accent).in_bold());
    let b = ink("n/a"@, Style::ink(Color::Muted));
    lemma_cells_push(none, a);
    lemma_cells_push(none.push(a), b);
    assert(seq![a, b] =~= none.push(a).push(b));
    let bar = less_by(width as int, byte_len(id) + 5);
    let gap = ink(" "@, Style::plain());
    lemma_cells_push(seq![a, b], gap);
    lemma_cells_push(seq![a, b].push(gap), ink(repeated('⠄', bar as nat), Style::ink(Color::Track)));
}

/// The line of a core and its second thread names both and shows the share of each, in figures
/// and, where there is room, as bars, of which the second is as wide as the first or one cell
/// wider.
pub proof fn law_narrow_line_shows_both(
    core_id: nat,
    core_usage: Reading,
    id: usize,
    thread_usage: Reading,
    width: nat,
)
    requires
        width <= usize::MAX,
        width >= short_name("C"@, core_id, Some(core_usage)).len() + short_name("T"@, id as nat, Some(thread_usage)).len()
            + 7,
    ensures
        ({
            let both = pair_narrow(core_id, core_usage, Some(id), Some(thread_usage), width);
            &&& both.spans.len() == 7
            &&& text_at(both, 0) == "C"@ + two_digits(core_id) + " "@ + aligned(core_usage, 0, 4) + "%"@
            &&& text_at(both, 4) == "T"@ + two_digits(id as nat) + " "@ + aligned(thread_usage, 0, 4) + "%"@
            &&& style_at(both, 0).fg == usage_style(core_usage, Color::AccentCpu).fg
            &&& style_at(both, 4).fg == usage_style(thread_usage, Color::AccentThread).fg
            &&& is_bar(both, 2, core_usage)
            &&& is_bar(both, 6, thread_usage)
            &&& both.spans[2]->Meter_width <= both.spans[6]->Meter_width <= both.spans[2]->Meter_width + 1
        }),
{
    reveal_strlit("C");
    reveal_strlit("T");
    lemma_short_name_bytes("C"@, core_id, Some(core_usage));
    lemma_short_name_bytes("T"@, id as nat, Some(thread_usage));
}

/// The line of a core without a second thread shows its share alone; where a thread was not
/// measured, its name stands there without a share.
pub proof fn law_narrow_line_shows_one(core_id: nat, core_usage: Reading, id: usize, width: nat)
    ensures
        ({
            let alone = pair_narrow(core_id, core_usage, None, None, width);
            let both = pair_narrow(core_id, core_usage, Some(id), None, width);
            &&& text_at(alone, 0) == "C"@ + two_digits(core_id) + " "@ + aligned(core_usage, 0, 4) + "%"@
            &&& bars_show(alone, core_usage)
            &&& alone.spans.len() <= 3
            &&& text_at(both, 0) == text_at(alone, 0)
            &&& bars_show(both, core_usage)
            &&& exists|i: int|
                0 < i < both.spans.len() && #[trigger] text_at(both, i) == "T"@ + two_digits(id as nat) + "  n/a"@
        }),
{
    let both = pair_narrow(core_id, core_usage, Some(id), None, width);
    let core = short_name("C"@, core_id, Some(core_usage));
    let thread = short_name("T"@, id as nat, None);
    let total = less_by(width as int, byte_len(core) + byte_len(thread) + 3);
    if total / 2 >= 2 {
        assert(text_at(both, 4) == thread);
    } else {
        assert(text_at(both, 2) == thread);
    }
}

/// A line with a label shows the share in figures and, where at least eight cells are left, as a
/// bar that fills the line.
pub proof fn law_meter_shows_its_share(label: Seq<char>, usage: Reading, width: nat, accent: Color)
    requires
        is_ascii(label),
        width <= usize::MAX,
    ensures
        ({
            let meter = usage_meter(label, usage, width, accent);
            let tag: int = if label.len() < 4 {
                4
            } else {
                label.len() as int
            };
            let taken = tag + 1 + share(usage).len();
            &&& text_at(meter, 0).len() == tag
            &&& text_at(meter, 0).take(label.len() as int) == label
            &&& forall|i: int| label.len() <= i < tag ==> #[trigger] text_at(meter, 0)[i] == ' '
            &&& text_at(meter, 2) == aligned(usage, 1, 5) + "%"@
            &&& style_at(meter, 0).fg == Some(accent)
            &&& style_at(meter, 2).fg == usage_style(usage, accent).fg
            &&& bars_show(meter, usage)
            &&& width >= taken + 10 ==> meter.spans.len() == 5 && is_bar(meter, 4, usage) && cells(meter.spans)
                == width
            &&& width < taken + 10 ==> meter.spans.len() == 3
        }),
{
    reveal_strlit(" ");
    reveal_strlit("  ");
    let meter = usage_meter(label, usage, width, accent);
    let tag = left_aligned(label, 4);
    assert(tag.take(label.len() as int) =~= label);
    lemma_ascii_bytes(tag);
    lemma_share_bytes(usage);
    let strong = usage_style(usage, accent).in_bold();
    let none = Seq::<SpanView>::empty();
    let a = ink(tag, Style::ink(accent).in_bold());
    let b = ink(" "@, Style::plain());
    let c = ink(share(usage), strong);
    let d = ink("  "@, Style::plain());
    lemma_cells_push(none, a);
    lemma_cells_push(none.push(a), b);
    lemma_cells_push(none.push(a).push(b), c);
    assert(seq![a, b, c] =~= none.push(a).push(b).push(c));
    let bar = less_by(width as int, byte_len(tag) + byte_len(share(usage)) + 3);
    lemma_cells_push(seq![a, b, c], d);
    lemma_cells_push(seq![a, b, c].push(d), SpanView::Meter { usage, width: bar as usize, style: strong });
}

/// A value stands before its share, and a bar of its own fills the line.
pub proof fn law_value_and_bar_show_share(value: Seq<char>, usage: Reading, width: nat, accent: Color)
    requires
        width <= usize::MAX,
    ensures
        text_at(value_usage(value, usage, accent), 0) == value,
        text_at(value_usage(value, usage, accent), 2) == fixed(usage, 0, 1) + "%"@,
        style_at(value_usage(value, usage, accent), 2).fg == usage_style(usage, accent).fg,
        width >= 4 ==> usage_bar(usage, width, accent).spans.len() == 1 && is_bar(usage_bar(usage, width, accent), 0, usage)
            && usage_bar(usage, width, accent).spans[0]->Meter_width == width,
        width < 4 ==> usage_bar(usage, width, accent).spans.len() == 0,
{
}

/// A text that is too long keeps its beginning and ends with three dots, or is only dots where
/// there is room for no more than three; it takes all the room there is.
pub proof fn law_truncated_keeps_beginning(input: Seq<char>, max_width: nat)
    requires
        input.len() > max_width,
    ensures
        truncated(input, max_width).len() == max_width,
        forall|i: int| 0 <= i < max_width - 3 ==> #[trigger] truncated(input, max_width)[i] == input[i],
        forall|i: int| 0 <= i < max_width && max_width - 3 <= i ==> #[trigger] truncated(input, max_width)[i] == '.',
{
    reveal_strlit("...");
}

/// What is in use of a disk and what it has are both shown in gigabytes, with one decimal, or,
/// from six tenths of a terabyte on, in terabytes, with two; the memory always in gigabytes.
pub proof fn law_disk_units(used: nat, total: nat)
    ensures
        gigabytes(used, total) == size_text(used, 30, 1) + "/"@ + size_text(total, 30, 1) + " GB"@,
        total <= 659_706_976_665 ==> disk_usage(used, total) == size_text(used, 30, 1) + "/"@ + size_text(total, 30, 1)
            + " GB"@,
        total > 659_706_976_665 ==> disk_usage(used, total) == size_text(used, 40, 2) + "/"@ + size_text(total, 40, 2)
            + " T"@,
{
}

/// The partial cell of a bar has one dot for each eighth, and the bar has all its eighths where
/// they fit: eight in each full cell and the rest in the partial one.
pub proof fn law_bar_counts_eighths(units: nat, width: nat)
    requires
        units <= 8 * width,
    ensures
        units % 8 == 0 ==> 8 * bar_fill(units, width).len() == units && forall|i: int|
            0 <= i < bar_fill(units, width).len() ==> #[trigger] bar_fill(units, width)[i] == '⣿',
        units % 8 > 0 ==> 8 * (bar_fill(units, width).len() - 1) + units % 8 == units && bar_fill(units, width).last()
            == partial_cell((units % 8) as int) && bar_fill(units, width).last() != '⣿',
        forall|a: int, b: int| 1 <= a < b <= 8 ==> #[trigger] partial_cell(a) != #[trigger] partial_cell(b),
{
}

/// The cells of the bars are braille characters with the dots set from below: the left column
/// first, then the right one.
pub proof fn law_partial_cells()
    ensures
        partial_cell(1) as u32 == 0x2840,
        partial_cell(2) as u32 == 0x2844,
        partial_cell(3) as u32 == 0x2846,
        partial_cell(4) as u32 == 0x2847,
        partial_cell(5) as u32 == 0x28C7,
        partial_cell(6) as u32 == 0x28E7,
        partial_cell(7) as u32 == 0x28F7,
        partial_cell(8) as u32 == 0x28FF,
{
}

/// A bar as plain text is its filled part and the rest, in the style of the bar and of the track;
/// other pieces stay as they are.
pub proof fn law_plain_pieces(text: Seq<char>, usage: Reading, width: usize, style: Style, units: nat)
    ensures
        plain_spans(SpanView::Text { text, style }, units) == seq![SpanView::Text { text, style }],
        plain_spans(SpanView::Meter { usage, width, style }, units).len() == 2,
        cells(plain_spans(SpanView::Meter { usage, width, style }, units)) == width,
        text_at(line(plain_spans(SpanView::Meter { usage, width, style }, units)), 0) == bar_fill(units, width as nat),
        style_at(line(plain_spans(SpanView::Meter { usage, width, style }, units)), 0) == style,
        style_at(line(plain_spans(SpanView::Meter { usage, width, style }, units)), 1) == Style::ink(Color::Track),
{
    let a = ink(bar_fill(units, width as nat), style);
    let b = ink(bar_track(units, width as nat), Style::ink(Color::Track));
    let none = Seq::<SpanView>::empty();
    law_bar_has_its_width(units, width as nat);
    lemma_cells_push(none, a);
    lemma_cells_push(none.push(a), b);
    assert(seq![a, b] =~= none.push(a).push(b));
}

/// Both names stand on the line however narrow it is, the core first, and every bar is for one of
/// the two shares.
pub proof fn law_narrow_line_names_both(
    core_id: nat,
    core_usage: Reading,
    id: usize,
    thread_usage: Reading,
    width: nat,
)
    ensures
        ({
            let both = pair_narrow(core_id, core_usage, Some(id), Some(thread_usage), width);
            &&& text_at(both, 0) == "C"@ + two_digits(core_id) + " "@ + aligned(core_usage, 0, 4) + "%"@
            &&& exists|i: int|
                0 < i < both.spans.len() && #[trigger] text_at(both, i) == "T"@ + two_digits(id as nat) + " "@ + aligned(
                    thread_usage,
                    0,
                    4,
                ) + "%"@
            &&& forall|i: int| #![trigger both.spans[i]]
                0 <= i < both.spans.len() && both.spans[i] is Meter ==> is_bar(both, i, core_usage) || is_bar(
                    both,
                    i,
                    thread_usage,
                )
        }),
{
    let both = pair_narrow(core_id, core_usage, Some(id), Some(thread_usage), width);
    let core = short_name("C"@, core_id, Some(core_usage));
    let thread = short_name("T"@, id as nat, Some(thread_usage));
    let total = less_by(width as int, byte_len(core) + byte_len(thread) + 3);
    if total / 2 >= 2 {
        assert(text_at(both, 4) == thread);
    } else {
        assert(text_at(both, 2) == thread);
    }
}

} // verus!
