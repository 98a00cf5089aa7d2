//! What is drawn: styled text, lines, tables and the areas that they fill.

use crate::layout::{Constraint, Rect};
use crate::reading::Reading;
use crate::split::{law_lines, lines, split_lines, texts};
use crate::text::{chars_of, copy_str, string_of};
use crate::theme::Style;
use vstd::prelude::*;

verus! {

// ---------------------------------------------------------------------------
// Text
// ---------------------------------------------------------------------------

/// A piece of a line.
#[derive(Debug)]
pub enum Span {
    Text { text: String, style: Style },
    /// A bar of `width` cells that is filled in proportion to `usage`. The filled part has the
    /// style; the rest is a track in the track colour.
    Meter { usage: Reading, width: usize, style: Style },
}

/// What a piece of a line holds.
pub enum SpanView {
    Text { text: Seq<char>, style: Style },
    Meter { usage: Reading, width: usize, style: Style },
}

impl View for Span {
    type V = SpanView;

    open spec fn view(&self) -> SpanView {
        match *self {
            Span::Text { text, style } => SpanView::Text { text: text@, style },
            Span::Meter { usage, width, style } => SpanView::Meter { usage, width, style },
        }
    }
}

/// A piece of text.
pub open spec fn ink(text: Seq<char>, style: Style) -> SpanView {
    SpanView::Text { text, style }
}

/// What pieces of a line hold.
pub open spec fn span_views(list: Seq<Span>) -> Seq<SpanView> {
    Seq::new(list.len(), |i: int| list[i]@)
}

/// A line of text.
#[derive(Debug)]
pub struct Line {
    pub spans: Vec<Span>,
    pub centered: bool,
    pub style: Style,
}

/// What a line of text holds.
pub struct LineView {
    pub spans: Seq<SpanView>,
    pub centered: bool,
    pub style: Style,
}

impl View for Line {
    type V = LineView;

    open spec fn view(&self) -> LineView {
        LineView { spans: span_views(self.spans@), centered: self.centered, style: self.style }
    }
}

/// A line of pieces.
pub open spec fn line(spans: Seq<SpanView>) -> LineView {
    LineView { spans, centered: false, style: Style::plain() }
}

/// A line of text without a style of its own; a text of several lines gives one piece for
/// each of them.
pub open spec fn raw_line(text: Seq<char>) -> LineView {
    line(Seq::new(lines(text).len(), |i: int| ink(lines(text)[i], Style::plain())))
}

impl Line {
    /// A line without anything.
    pub fn empty() -> (r: Line)
        ensures
            r@ == line(Seq::<SpanView>::empty()),
    {
        let r = Line { spans: Vec::new(), centered: false, style: Style::plain() };
        assert(r@.spans =~= Seq::<SpanView>::empty());
        r
    }

    /// Appends a piece of text.
    pub fn push(&mut self, text: &str, style: Style)
        ensures
            final(self)@ == (LineView { spans: old(self)@.spans.push(ink(text@, style)), ..old(self)@ }),
    {
        let ghost before = self@;
        self.spans.push(Span::Text { text: copy_str(text), style });
        assert(self@.spans =~= before.spans.push(ink(text@, style)));
    }

    /// Appends a bar.
    pub fn push_meter(&mut self, usage: Reading, width: usize, style: Style)
        ensures
            final(self)@ == (LineView {
                spans: old(self)@.spans.push(SpanView::Meter { usage, width, style }),
                ..old(self)@
            }),
    {
        let ghost before = self@;
        self.spans.push(Span::Meter { usage, width, style });
        assert(self@.spans =~= before.spans.push(SpanView::Meter { usage, width, style }));
    }

    /// A line of text without a style of its own.
    pub fn raw(text: &str) -> (r: Line)
        ensures
            r@ == raw_line(text@),
    {
        let chars = chars_of(text);
        let parts = split_lines(chars.as_slice());
        let mut r = Line::empty();
        for i in 0..parts.len()
            invariant
                texts(parts@) == lines(text@),
                r@.spans =~= Seq::new(i as nat, |j: int| ink(lines(text@)[j], Style::plain())),
                !r@.centered,
                r@.style == Style::plain(),
        {
            let part = string_of(parts[i]);
            r.push(part.as_str(), Style::plain());
            assert(part@ == texts(parts@)[i as int]);
        }
        assert(r@.spans =~= raw_line(text@).spans);
        r
    }

    /// The line in the middle of its area.
    pub fn center(self) -> (r: Line)
        ensures
            r@ == (LineView { centered: true, ..self@ }),
    {
        Line { spans: self.spans, centered: true, style: self.style }
    }

    /// The line with a style of its own.
    pub fn styled(self, style: Style) -> (r: Line)
        ensures
            r@ == (LineView { style, ..self@ }),
    {
        Line { spans: self.spans, centered: self.centered, style }
    }
}

/// What lines of text hold.
pub open spec fn line_views(list: Seq<Line>) -> Seq<LineView> {
    Seq::new(list.len(), |i: int| list[i]@)
}

/// The lines of a text without a style of its own; a text without characters is one line
/// without anything.
pub open spec fn raw_text(text: Seq<char>) -> Seq<LineView> {
    if text.len() == 0 {
        seq![line(Seq::<SpanView>::empty())]
    } else {
        Seq::new(lines(text).len(), |i: int| raw_line(lines(text)[i]))
    }
}

/// The lines of a text without a style of its own; a text without characters is one line
/// without anything.
pub fn text_lines(text: &str) -> (r: Vec<Line>)
    ensures
        line_views(r@) == raw_text(text@),
{
    let chars = chars_of(text);
    if chars.len() == 0 {
        return one_line(Line::empty());
    }
    let parts = split_lines(chars.as_slice());
    let mut r: Vec<Line> = Vec::new();
    for i in 0..parts.len()
        invariant
            texts(parts@) == lines(text@),
            r@.len() == i,
            forall|j: int| 0 <= j < i ==> (#[trigger] r@[j])@ == raw_line(lines(text@)[j]),
    {
        let part = string_of(parts[i]);
        assert(part@ == texts(parts@)[i as int]);
        r.push(Line::raw(part.as_str()));
    }
    assert(line_views(r@) =~= raw_text(text@));
    r
}

/// A list of one line.
pub fn one_line(line: Line) -> (r: Vec<Line>)
    ensures
        line_views(r@) == seq![line@],
{
    let mut r: Vec<Line> = Vec::new();
    r.push(line);
    assert(line_views(r@) =~= seq![line@]);
    r
}

// ---------------------------------------------------------------------------
// Tables
// ---------------------------------------------------------------------------

/// A cell of a table.
#[derive(Debug)]
pub struct Cell {
    pub text: String,
    pub style: Style,
}

/// What a cell holds.
pub struct CellView {
    pub text: Seq<char>,
    pub style: Style,
}

impl View for Cell {
    type V = CellView;

    open spec fn view(&self) -> CellView {
        CellView { text: self.text@, style: self.style }
    }
}

/// A row of a table.
#[derive(Debug)]
pub struct Row {
    pub cells: Vec<Cell>,
    pub style: Style,
}

/// What a row holds.
pub struct RowView {
    pub cells: Seq<CellView>,
    pub style: Style,
}

impl View for Row {
    type V = RowView;

    open spec fn view(&self) -> RowView {
        RowView { cells: Seq::new(self.cells@.len(), |i: int| self.cells@[i]@), style: self.style }
    }
}

impl Row {
    /// A row without cells.
    pub fn empty(style: Style) -> (r: Row)
        ensures
            r@ == (RowView { cells: Seq::empty(), style }),
    {
        let r = Row { cells: Vec::new(), style };
        assert(r@.cells =~= Seq::<CellView>::empty());
        r
    }

    /// Appends a cell.
    pub fn push(&mut self, text: &str, style: Style)
        ensures
            final(self)@ == (RowView {
                cells: old(self)@.cells.push(CellView { text: text@, style }),
                ..old(self)@
            }),
    {
        let ghost before = self@;
        self.cells.push(Cell { text: copy_str(text), style });
        assert(self@.cells =~= before.cells.push(CellView { text: text@, style }));
    }
}

/// What rows hold.
pub open spec fn row_views(list: Seq<Row>) -> Seq<RowView> {
    Seq::new(list.len(), |i: int| list[i]@)
}

// ---------------------------------------------------------------------------
// Drawings
// ---------------------------------------------------------------------------

/// A table with a frame round it.
#[derive(Debug)]
pub struct Table {
    pub title: Line,
    pub header: Row,
    pub widths: Vec<Constraint>,
    pub column_spacing: u16,
    pub rows: Vec<Row>,
}

/// What a table holds.
pub struct TableView {
    pub title: LineView,
    pub header: RowView,
    pub widths: Seq<Constraint>,
    pub column_spacing: u16,
    pub rows: Seq<RowView>,
}

impl View for Table {
    type V = TableView;

    open spec fn view(&self) -> TableView {
        TableView {
            title: self.title@,
            header: self.header@,
            widths: self.widths@,
            column_spacing: self.column_spacing,
            rows: row_views(self.rows@),
        }
    }
}

/// What fills an area.
#[derive(Debug)]
pub enum Widget {
    /// A style, without text.
    Backdrop { style: Style },
    /// A rounded frame in the border colour, with a title in its upper side.
    Frame { title: Line, style: Style },
    Paragraph { lines: Vec<Line>, style: Style },
    Table { table: Table },
    /// Nothing; what was there is wiped out.
    Clear,
}

/// What it holds that fills an area.
pub enum WidgetView {
    Backdrop { style: Style },
    Frame { title: LineView, style: Style },
    Paragraph { lines: Seq<LineView>, style: Style },
    Table { table: TableView },
    Clear,
}

impl View for Widget {
    type V = WidgetView;

    open spec fn view(&self) -> WidgetView {
        match *self {
            Widget::Backdrop { style } => WidgetView::Backdrop { style },
            Widget::Frame { title, style } => WidgetView::Frame { title: title@, style },
            Widget::Paragraph { lines, style } => WidgetView::Paragraph { lines: line_views(lines@), style },
            Widget::Table { table } => WidgetView::Table { table: table@ },
            Widget::Clear => WidgetView::Clear,
        }
    }
}

/// An area and what fills it.
#[derive(Debug)]
pub struct Draw {
    pub area: Rect,
    pub widget: Widget,
}

/// An area and what it holds that fills it.
pub struct DrawView {
    pub area: Rect,
    pub widget: WidgetView,
}

impl View for Draw {
    type V = DrawView;

    open spec fn view(&self) -> DrawView {
        DrawView { area: self.area, widget: self.widget@ }
    }
}

/// What is drawn, in this order; what comes later covers what came before.
#[derive(Debug)]
pub struct Screen {
    pub draws: Vec<Draw>,
}

impl View for Screen {
    type V = Seq<DrawView>;

    open spec fn view(&self) -> Seq<DrawView> {
        Seq::new(self.draws@.len(), |i: int| self.draws@[i]@)
    }
}

/// One line of text in an area.
pub open spec fn line_draw(area: Rect, line: LineView, style: Style) -> DrawView {
    DrawView { area, widget: WidgetView::Paragraph { lines: seq![line], style } }
}

/// A frame round an area.
pub open spec fn frame_draw(area: Rect, title: LineView, style: Style) -> DrawView {
    DrawView { area, widget: WidgetView::Frame { title, style } }
}

impl Screen {
    /// Nothing drawn.
    pub fn empty() -> (r: Screen)
        ensures
            r@ == Seq::<DrawView>::empty(),
    {
        let r = Screen { draws: Vec::new() };
        assert(r@ =~= Seq::<DrawView>::empty());
        r
    }

    /// Draws what fills an area.
    pub fn put(&mut self, area: Rect, widget: Widget)
        ensures
            final(self)@ == old(self)@.push(DrawView { area, widget: widget@ }),
    {
        let ghost before = self@;
        self.draws.push(Draw { area, widget });
        assert(self@ =~= before.push(DrawView { area, widget: widget@ }));
    }

    /// Draws one line of text.
    pub fn put_line(&mut self, area: Rect, line: Line, style: Style)
        ensures
            final(self)@ == old(self)@.push(line_draw(area, line@, style)),
    {
        self.put(area, Widget::Paragraph { lines: one_line(line), style });
    }
}

/// Whether everything is drawn inside `area`.
pub open spec fn all_within(draws: Seq<DrawView>, area: Rect) -> bool {
    forall|i: int| 0 <= i < draws.len() ==> (#[trigger] draws[i]).area.within(area)
}

// ---------------------------------------------------------------------------
// What can be read on a line
// ---------------------------------------------------------------------------

/// The text of piece `i` of a line.
pub open spec fn text_at(line: LineView, i: int) -> Seq<char> {
    match line.spans[i] {
        SpanView::Text { text, .. } => text,
        SpanView::Meter { .. } => Seq::empty(),
    }
}

/// The style of piece `i` of a line.
pub open spec fn style_at(line: LineView, i: int) -> Style {
    match line.spans[i] {
        SpanView::Text { style, .. } => style,
        SpanView::Meter { style, .. } => style,
    }
}

/// Whether piece `i` of a line is a bar for a share.
pub open spec fn is_bar(line: LineView, i: int, usage: Reading) -> bool {
    match line.spans[i] {
        SpanView::Text { .. } => false,
        SpanView::Meter { usage: shown, .. } => shown == usage,
    }
}

/// Whether all bars of a line are for a share.
pub open spec fn bars_show(line: LineView, usage: Reading) -> bool {
    forall|i: int| #![trigger line.spans[i]]
        0 <= i < line.spans.len() && line.spans[i] is Meter ==> is_bar(line, i, usage)
}

/// The only line that fills an area.
pub open spec fn line_in(draw: DrawView) -> LineView {
    match draw.widget {
        WidgetView::Paragraph { lines, .. } => lines[0],
        _ => line(Seq::empty()),
    }
}

/// Whether an area is filled by one line.
pub open spec fn is_line(draw: DrawView) -> bool {
    match draw.widget {
        WidgetView::Paragraph { lines, .. } => lines.len() == 1,
        _ => false,
    }
}

/// A text without a newline is one piece of one line, as it is; an empty text is an empty line.
pub proof fn law_text_of_one_line(text: Seq<char>)
    requires
        !text.contains('\n'),
    ensures
        text.len() > 0 ==> raw_line(text).spans == seq![SpanView::Text { text, style: Style::plain() }],
        text.len() == 0 ==> raw_line(text).spans.len() == 0,
        raw_text(text).len() == 1,
        text.len() > 0 ==> text_at(raw_text(text)[0], 0) == text,
{
    let empty = Seq::<char>::empty();
    law_lines(text, empty);
    if text.len() > 0 {
        assert(raw_line(text).spans =~= seq![SpanView::Text { text, style: Style::plain() }]);
    } else {
        assert(text =~= empty);
    }
}

} // verus!
