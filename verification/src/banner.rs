//! The animated title: a dotted line with pulses that light up one after the other, and the
//! title in its middle.

use crate::number::least;
use crate::text::{chars_of, string_of};
use crate::theme::{Color, Style};
use crate::widgets::{ink, line, Line, LineView};
use vstd::prelude::*;

verus! {

/// One cell of the title line.
#[derive(Debug, Clone, Copy)]
pub struct Glyph {
    pub c: char,
    pub color: Color,
    pub bold: bool,
}

/// The pattern of the line at a cell.
pub open spec fn pattern(idx: int, dense: bool) -> char {
    if dense {
        let k = idx % 8;
        if k == 0 || k == 7 {
            '┄'
        } else if k == 1 || k == 4 {
            '·'
        } else if k == 2 || k == 5 {
            '┈'
        } else {
            ' '
        }
    } else {
        let k = idx % 6;
        if k == 0 || k == 1 || k == 3 {
            '·'
        } else if k == 4 {
            '•'
        } else {
            ' '
        }
    }
}

fn pattern_at(idx: usize, dense: bool) -> (c: char)
    ensures
        c == pattern(idx as int, dense),
{
    if dense {
        let k: usize = idx % 8;
        if k == 0 || k == 7 {
            '┄'
        } else if k == 1 || k == 4 {
            '·'
        } else if k == 2 || k == 5 {
            '┈'
        } else {
            ' '
        }
    } else {
        let k: usize = idx % 6;
        if k == 0 || k == 1 || k == 3 {
            '·'
        } else if k == 4 {
            '•'
        } else {
            ' '
        }
    }
}

/// The number of pulses.
pub open spec fn pulse_count(dense: bool) -> int {
    if dense {
        6
    } else {
        4
    }
}

/// The cell of a pulse: the pulses divide the line evenly.
pub open spec fn pulse_place(lane: int, width: int, dense: bool) -> int {
    ((lane + 1) * width) / (pulse_count(dense) + 1)
}

/// The number of cells that the title takes.
pub open spec fn title_len(title: Seq<char>, width: int) -> int {
    least(title.len() as int, width)
}

/// The first cell of the title.
pub open spec fn title_start(title: Seq<char>, width: int) -> int {
    if title_len(title, width) > 0 {
        (width - title_len(title, width)) / 2
    } else {
        0
    }
}

/// Whether a cell belongs to the title.
pub open spec fn in_title(title: Seq<char>, width: int, idx: int) -> bool {
    title_start(title, width) <= idx < title_start(title, width) + title_len(title, width)
}

/// What a pulse puts at its cell: a full dot in its colour, then a fading one, else nothing.
pub open spec fn pulse(lane: int, tick: int, dense: bool) -> Option<Glyph> {
    let phase = (tick + lane * 3) % 18;
    if phase == 0 {
        Some(
            Glyph {
                c: if dense {
                    '◆'
                } else {
                    '●'
                },
                color: if lane % 4 == 0 {
                    Color::AccentCpu
                } else if lane % 4 == 1 {
                    Color::AccentGpu
                } else if lane % 4 == 2 {
                    Color::AccentVram
                } else {
                    Color::AccentProc
                },
                bold: true,
            },
        )
    } else if phase <= 2 {
        Some(
            Glyph {
                c: if dense {
                    '◦'
                } else {
                    '•'
                },
                color: Color::Separator,
                bold: false,
            },
        )
    } else {
        None
    }
}

/// What a fading pulse leaves of a cell that was bold before stays bold.
pub open spec fn covered(below: Glyph, above: Glyph) -> Glyph {
    Glyph { bold: below.bold || above.bold, ..above }
}

/// The cell `idx` after the first `lanes` pulses.
pub open spec fn pulsed(lanes: int, idx: int, title: Seq<char>, width: int, tick: int, dense: bool) -> Glyph
    decreases lanes,
{
    if lanes <= 0 {
        Glyph { c: pattern(idx, dense), color: Color::Track, bold: false }
    } else {
        let below = pulsed(lanes - 1, idx, title, width, tick, dense);
        if pulse_place(lanes - 1, width, dense) == idx && !in_title(title, width, idx) {
            match pulse(lanes - 1, tick, dense) {
                Some(above) => covered(below, above),
                None => below,
            }
        } else {
            below
        }
    }
}

/// The cell `idx` of the line.
pub open spec fn title_glyph(idx: int, title: Seq<char>, width: int, tick: int, dense: bool) -> Glyph {
    if in_title(title, width, idx) {
        Glyph { c: title[idx - title_start(title, width)], color: Color::Text, bold: true }
    } else {
        pulsed(pulse_count(dense), idx, title, width, tick, dense)
    }
}

/// The style of a cell.
pub open spec fn glyph_style(g: Glyph) -> Style {
    if g.bold {
        Style::ink(g.color).in_bold()
    } else {
        Style::ink(g.color)
    }
}

/// The line, one piece for each cell.
pub open spec fn title_line(width: nat, tick: nat, title: Seq<char>, dense: bool) -> LineView {
    line(
        Seq::new(
            width,
            |i: int|
                {
                    let g = title_glyph(i, title, width as int, tick as int, dense);
                    ink(seq![g.c], glyph_style(g))
                },
        ),
    )
}

fn pulse_at(lane: usize, tick: u64, dense: bool) -> (r: Option<Glyph>)
    requires
        lane < 6,
        tick + 15 <= u64::MAX,
    ensures
        r == pulse(lane as int, tick as int, dense),
{
    let phase: u64 = (tick + lane as u64 * 3) % 18;
    if phase == 0 {
        let c = if dense {
            '◆'
        } else {
            '●'
        };
        let color = if lane % 4 == 0 {
            Color::AccentCpu
        } else if lane % 4 == 1 {
            Color::AccentGpu
        } else if lane % 4 == 2 {
            Color::AccentVram
        } else {
            Color::AccentProc
        };
        Some(Glyph { c, color, bold: true })
    } else if phase <= 2 {
        let c = if dense {
            '◦'
        } else {
            '•'
        };
        Some(Glyph { c, color: Color::Separator, bold: false })
    } else {
        None
    }
}

proof fn lemma_pulse_place(lane: int, width: int, dense: bool)
    requires
        0 <= lane < pulse_count(dense),
        width > 0,
    ensures
        0 <= pulse_place(lane, width, dense) < width,
{
    let n = pulse_count(dense);
    assert((lane + 1) * width <= n * width) by (nonlinear_arith)
        requires
            lane + 1 <= n,
            width > 0,
    ;
    assert(0 <= (lane + 1) * width) by (nonlinear_arith)
        requires
            0 <= lane,
            width > 0,
    ;
    assert(n * width < (n + 1) * width) by (nonlinear_arith)
        requires
            width > 0,
    ;
}

/// The title line at a point in time.
pub fn animated_title_line(width: usize, tick: u64, title: &str, dense: bool) -> (r: Line)
    requires
        pulse_count(dense) * width <= usize::MAX,
        tick + 15 <= u64::MAX,
    ensures
        r@ == title_line(width as nat, tick as nat, title@, dense),
{
    let mut r = Line::empty();
    if width == 0 {
        assert(r@.spans =~= title_line(width as nat, tick as nat, title@, dense).spans);
        return r;
    }
    let mut cells: Vec<Glyph> = Vec::new();
    for idx in 0..width
        invariant
            cells@.len() == idx,
            forall|j: int|
                0 <= j < idx ==> #[trigger] cells@[j] == pulsed(0, j, title@, width as int, tick as int, dense),
    {
        cells.push(Glyph { c: pattern_at(idx, dense), color: Color::Track, bold: false });
    }
    let title_chars = chars_of(title);
    let len: usize = if title_chars.len() < width {
        title_chars.len()
    } else {
        width
    };
    let start: usize = if len > 0 {
        (width - len) / 2
    } else {
        0
    };
    let end: usize = start + len;
    let count: usize = if dense {
        6
    } else {
        4
    };
    for lane in 0..count
        invariant
            width > 0,
            count == pulse_count(dense),
            count * width <= usize::MAX,
            tick + 15 <= u64::MAX,
            len == title_len(title@, width as int),
            start == title_start(title@, width as int),
            end == start + len,
            cells@.len() == width,
            forall|j: int|
                0 <= j < width ==> #[trigger] cells@[j] == pulsed(
                    lane as int,
                    j,
                    title@,
                    width as int,
                    tick as int,
                    dense,
                ),
    {
        proof {
            lemma_pulse_place(lane as int, width as int, dense);
            assert((lane + 1) * width <= count * width) by (nonlinear_arith)
                requires
                    lane + 1 <= count,
            ;
        }
        let pos: usize = ((lane + 1) * width) / (count + 1);
        let ghost before = cells@;
        if !(pos >= start && pos < end) {
            match pulse_at(lane, tick, dense) {
                Some(above) => {
                    let below = cells[pos];
                    cells.set(pos, Glyph { c: above.c, color: above.color, bold: below.bold || above.bold });
                },
                None => {},
            }
        }
        assert forall|j: int| 0 <= j < width implies #[trigger] cells@[j] == pulsed(
            lane + 1,
            j,
            title@,
            width as int,
            tick as int,
            dense,
        ) by {
            assert(before[j] == pulsed(lane as int, j, title@, width as int, tick as int, dense));
        }
    }
    let ghost pulses = cells@;
    for offset in 0..len
        invariant
            width > 0,
            count == pulse_count(dense),
            title_chars@ == title@,
            len == title_len(title@, width as int),
            start == title_start(title@, width as int),
            start + len <= width,
            cells@.len() == width,
            forall|j: int|
                0 <= j < width && !in_title(title@, width as int, j) ==> #[trigger] cells@[j] == title_glyph(
                    j,
                    title@,
                    width as int,
                    tick as int,
                    dense,
                ),
            forall|j: int|
                start <= j < start + offset ==> #[trigger] cells@[j] == title_glyph(
                    j,
                    title@,
                    width as int,
                    tick as int,
                    dense,
                ),
    {
        let pos: usize = start + offset;
        cells[pos] = Glyph { c: title_chars[offset], color: Color::Text, bold: true };
    }
    for idx in 0..width
        invariant
            cells@.len() == width,
            forall|j: int|
                0 <= j < width ==> #[trigger] cells@[j] == title_glyph(
                    j,
                    title@,
                    width as int,
                    tick as int,
                    dense,
                ),
            r@.spans =~= title_line(width as nat, tick as nat, title@, dense).spans.take(idx as int),
            !r@.centered,
            r@.style == Style::plain(),
    {
        let g = cells[idx];
        let style = if g.bold {
            Style::ink(g.color).in_bold()
        } else {
            Style::ink(g.color)
        };
        let mut one: Vec<char> = Vec::new();
        one.push(g.c);
        let text = string_of(one.as_slice());
        assert(text@ =~= seq![g.c]);
        r.push(text.as_str(), style);
    }
    assert(r@.spans =~= title_line(width as nat, tick as nat, title@, dense).spans);
    r
}

/// The line has one piece for each cell, and the title can be read in it as far as it fits.
pub proof fn law_title_is_shown(width: nat, tick: nat, title: Seq<char>, dense: bool, k: int)
    requires
        0 <= k < title_len(title, width as int),
    ensures
        title_line(width, tick, title, dense).spans.len() == width,
        0 <= title_start(title, width as int) + k < width,
        title_line(width, tick, title, dense).spans[title_start(title, width as int) + k] == ink(
            seq![title[k]],
            Style::ink(Color::Text).in_bold(),
        ),
{
}

proof fn lemma_pulsed_again(lanes: int, idx: int, title: Seq<char>, width: int, tick: int, dense: bool)
    ensures
        pulsed(lanes, idx, title, width, tick + 18, dense) == pulsed(lanes, idx, title, width, tick, dense),
    decreases lanes,
{
    if lanes > 0 {
        lemma_pulsed_again(lanes - 1, idx, title, width, tick, dense);
        assert(pulse(lanes - 1, tick + 18, dense) == pulse(lanes - 1, tick, dense));
    }
}

/// The line repeats every eighteen steps.
pub proof fn law_title_repeats(width: nat, tick: nat, title: Seq<char>, dense: bool)
    ensures
        title_line(width, tick + 18, title, dense) == title_line(width, tick, title, dense),
{
    let a = title_line(width, tick + 18, title, dense);
    let b = title_line(width, tick, title, dense);
    assert forall|i: int| 0 <= i < width implies a.spans[i] == b.spans[i] by {
        lemma_pulsed_again(pulse_count(dense), i, title, width as int, tick as int, dense);
    }
    assert(a.spans =~= b.spans);
}

/// The pulses divide the line into parts of one width, but for one cell.
pub proof fn law_pulses_divide_evenly(lane: int, width: int, dense: bool)
    requires
        0 <= lane < pulse_count(dense),
        0 <= width,
    ensures
        pulse_count(true) == 6,
        pulse_count(false) == 4,
        ({
            let parts = pulse_count(dense) + 1;
            &&& parts * pulse_place(lane, width, dense) <= (lane + 1) * width
            &&& (lane + 1) * width < parts * (pulse_place(lane, width, dense) + 1)
        }),
{
    let parts = pulse_count(dense) + 1;
    vstd::arithmetic::div_mod::lemma_fundamental_div_mod((lane + 1) * width, parts);
    let q = pulse_place(lane, width, dense);
    assert(parts * (q + 1) == parts * q + parts) by (nonlinear_arith);
}

/// A pulse is bright for one step of eighteen, fades for two and is dark for the rest; each pulse
/// does what the one before it does three steps later.
pub proof fn law_course_of_pulse(lane: int, tick: int, dense: bool)
    requires
        0 <= lane,
        0 <= tick,
    ensures
        (tick + 3 * lane) % 18 == 0 <==> (pulse(lane, tick, dense) matches Some(g) && g.bold),
        (tick + 3 * lane) % 18 == 1 || (tick + 3 * lane) % 18 == 2 <==> (pulse(lane, tick, dense) matches Some(g)
            && !g.bold),
        pulse(lane + 1, tick, dense) is Some <==> pulse(lane, tick + 3, dense) is Some,
        pulse(lane, tick + 18, dense) == pulse(lane, tick, dense),
        pulse(lane, tick, dense) matches Some(g) && !g.bold ==> (pulse(lane, tick, dense)->0).color == Color::Separator,
{
    assert(tick + lane * 3 == tick + 3 * lane);
    assert((lane + 1) * 3 + tick == (tick + 3) + lane * 3);
    assert((tick + 18) + lane * 3 == (tick + lane * 3) + 18);
}

/// A cell outside the title on which no pulse stands shows the pattern, faintly; the pattern
/// repeats.
pub proof fn law_dark_cells_show_pattern(idx: int, title: Seq<char>, width: int, tick: int, dense: bool)
    requires
        0 <= idx < width,
        !in_title(title, width, idx),
        forall|lane: int| 0 <= lane < pulse_count(dense) ==> #[trigger] pulse_place(lane, width, dense) != idx,
    ensures
        title_glyph(idx, title, width, tick, dense) == (Glyph {
            c: pattern(idx, dense),
            color: Color::Track,
            bold: false,
        }),
        pattern(idx + 8, true) == pattern(idx, true),
        pattern(idx + 6, false) == pattern(idx, false),
{
    lemma_no_pulse(pulse_count(dense), idx, title, width, tick, dense);
}

proof fn lemma_no_pulse(lanes: int, idx: int, title: Seq<char>, width: int, tick: int, dense: bool)
    requires
        lanes <= pulse_count(dense),
        forall|lane: int| 0 <= lane < pulse_count(dense) ==> #[trigger] pulse_place(lane, width, dense) != idx,
    ensures
        pulsed(lanes, idx, title, width, tick, dense) == (Glyph {
            c: pattern(idx, dense),
            color: Color::Track,
            bold: false,
        }),
    decreases lanes,
{
    if lanes > 0 {
        assert(pulse_place(lanes - 1, width, dense) != idx);
        lemma_no_pulse(lanes - 1, idx, title, width, tick, dense);
    }
}

proof fn lemma_later_lanes(
    lane: int,
    lanes: int,
    idx: int,
    title: Seq<char>,
    width: int,
    tick: int,
    dense: bool,
)
    requires
        0 <= lane < lanes <= pulse_count(dense),
        forall|other: int|
            0 <= other < pulse_count(dense) && other != lane ==> #[trigger] pulse_place(other, width, dense) != idx,
    ensures
        pulsed(lanes, idx, title, width, tick, dense) == pulsed(lane + 1, idx, title, width, tick, dense),
        pulsed(lane, idx, title, width, tick, dense) == (Glyph {
            c: pattern(idx, dense),
            color: Color::Track,
            bold: false,
        }),
    decreases lanes,
{
    if lanes > lane + 1 {
        assert(pulse_place(lanes - 1, width, dense) != idx);
        lemma_later_lanes(lane, lanes - 1, idx, title, width, tick, dense);
    } else {
        lemma_dark_below(lane, lane, idx, title, width, tick, dense);
    }
}

proof fn lemma_dark_below(
    lanes: int,
    lane: int,
    idx: int,
    title: Seq<char>,
    width: int,
    tick: int,
    dense: bool,
)
    requires
        lanes <= lane <= pulse_count(dense),
        forall|other: int|
            0 <= other < pulse_count(dense) && other != lane ==> #[trigger] pulse_place(other, width, dense) != idx,
    ensures
        pulsed(lanes, idx, title, width, tick, dense) == (Glyph {
            c: pattern(idx, dense),
            color: Color::Track,
            bold: false,
        }),
    decreases lanes,
{
    if lanes > 0 {
        assert(pulse_place(lanes - 1, width, dense) != idx);
        lemma_dark_below(lanes - 1, lane, idx, title, width, tick, dense);
    }
}

/// The cell of a pulse, where it is outside the title and no other pulse stands there, shows the
/// pulse while it shines, and the pattern while it is dark.
pub proof fn law_pulse_is_shown(lane: int, title: Seq<char>, width: int, tick: int, dense: bool)
    requires
        0 <= lane < pulse_count(dense),
        !in_title(title, width, pulse_place(lane, width, dense)),
        forall|other: int|
            0 <= other < pulse_count(dense) && other != lane ==> #[trigger] pulse_place(other, width, dense)
                != pulse_place(lane, width, dense),
    ensures
        ({
            let idx = pulse_place(lane, width, dense);
            let cell = title_glyph(idx, title, width, tick, dense);
            &&& pulse(lane, tick, dense) is Some ==> cell == pulse(lane, tick, dense)->0
            &&& pulse(lane, tick, dense) is None ==> cell.c == pattern(idx, dense) && cell.color == Color::Track
                && !cell.bold
        }),
{
    let idx = pulse_place(lane, width, dense);
    lemma_later_lanes(lane, pulse_count(dense), idx, title, width, tick, dense);
}

/// The title stands in the middle: as many cells on its left as on its right, or one fewer. A
/// title that is too long is cut at its end.
pub proof fn law_title_in_the_middle(title: Seq<char>, width: int)
    requires
        width >= 0,
        title.len() > 0,
    ensures
        title.len() <= width ==> {
            let left = title_start(title, width);
            let right = width - left - title.len();
            &&& title_len(title, width) == title.len()
            &&& left <= right <= left + 1
        },
        title.len() > width ==> title_len(title, width) == width && title_start(title, width) == 0,
{
}

/// Each cell of the line shows its own character, in its colour and as bold as it is.
pub proof fn law_cells_have_their_style(width: nat, tick: nat, title: Seq<char>, dense: bool, i: int)
    requires
        0 <= i < width,
    ensures
        ({
            let cell = title_glyph(i, title, width as int, tick as int, dense);
            title_line(width, tick, title, dense).spans[i] == ink(
                seq![cell.c],
                (Style { fg: Some(cell.color), bg: None, bold: cell.bold, underlined: false }),
            )
        }),
{
}

/// The pattern repeats six characters, or eight where it is dense.
pub proof fn law_pattern_of_line(n: int, k: int)
    requires
        n >= 0,
    ensures
        0 <= k < 6 ==> pattern(6 * n + k, false) == "·· ·• "@[k],
        0 <= k < 8 ==> pattern(8 * n + k, true) == "┄·┈ ·┈ ┄"@[k],
{
    reveal_strlit("·· ·• ");
    reveal_strlit("┄·┈ ·┈ ┄");
}

/// A bright pulse is a full dot, or a diamond where the line is dense, in one of four colours in
/// turn; a fading one is a small dot.
pub proof fn law_look_of_pulse(n: int, tick: int)
    requires
        n >= 0,
        tick >= 0,
    ensures
        forall|lane: int, dense: bool|
            0 <= lane && (#[trigger] pulse(lane, tick, dense) matches Some(g) && g.bold) ==> (pulse(lane, tick, dense)->0).c
                == (if dense {
                '◆'
            } else {
                '●'
            }),
        forall|lane: int, dense: bool|
            0 <= lane && (#[trigger] pulse(lane, tick, dense) matches Some(g) && !g.bold) ==> (pulse(
                lane,
                tick,
                dense,
            )->0).c == (if dense {
                '◦'
            } else {
                '•'
            }),
        forall|dense: bool|
            (#[trigger] pulse(4 * n, tick, dense) matches Some(g) && g.bold) ==> (pulse(4 * n, tick, dense)->0).color
                == Color::AccentCpu,
        forall|dense: bool|
            (#[trigger] pulse(4 * n + 1, tick, dense) matches Some(g) && g.bold) ==> (pulse(
                4 * n + 1,
                tick,
                dense,
            )->0).color == Color::AccentGpu,
        forall|dense: bool|
            (#[trigger] pulse(4 * n + 2, tick, dense) matches Some(g) && g.bold) ==> (pulse(
                4 * n + 2,
                tick,
                dense,
            )->0).color == Color::AccentVram,
        forall|dense: bool|
            (#[trigger] pulse(4 * n + 3, tick, dense) matches Some(g) && g.bold) ==> (pulse(
                4 * n + 3,
                tick,
                dense,
            )->0).color == Color::AccentProc,
{
}

} // verus!
