//! Shared view-model types: line styles, toolbar and window actions, pane
//! focus, and the line-oriented `Document` that each pane displays.

use vstd::prelude::*;

verus! {

/// How a document line is drawn.
#[derive(Clone, Copy, Debug, PartialEq, Eq, Structural)]
pub enum LineStyle {
    Normal,
    Dim,
    Header,
    Selected,
    DiffAdd,
    DiffRemove,
    DiffHunk,
    DiffMeta,
    DiffFileHeader,
    SectionStaged,
    SectionUnstaged,
    SectionUntracked,
}

/// The styles drawn over a full-width background tint.
pub open spec fn spec_has_background(s: LineStyle) -> bool {
    match s {
        LineStyle::Normal | LineStyle::Dim | LineStyle::Header | LineStyle::Selected => false,
        _ => true,
    }
}

impl LineStyle {
    /// Whether this line style should get a full-width background tint.
    pub fn has_background(self) -> (b: bool)
        ensures
            b == spec_has_background(self),
    {
        match self {
            LineStyle::DiffAdd | LineStyle::DiffRemove | LineStyle::DiffHunk | LineStyle::DiffMeta
            | LineStyle::DiffFileHeader | LineStyle::SectionStaged | LineStyle::SectionUnstaged
            | LineStyle::SectionUntracked => true,
            _ => false,
        }
    }
}

/// The actions behind the toolbar buttons.
#[derive(Clone, Copy, Debug, PartialEq, Eq, Structural)]
pub enum ToolbarAction {
    RepoSwitch,
    Browse,
    BranchSwitch,
    Commit,
    Fetch,
    Pull,
    Push,
    Refresh,
    Stage,
    StageAll,
    Unstage,
    UnstageAll,
    Discard,
    Settings,
    Quit,
}

/// Groups for toolbar button visual separation.
#[derive(Clone, Copy, Debug, PartialEq, Eq, Structural)]
pub enum ToolbarGroup {
    Staging,
    GitOps,
    Danger,
    App,
}

/// The window controls drawn in the title bar.
#[derive(Clone, Copy, Debug, PartialEq, Eq, Structural)]
pub enum WindowControlAction {
    Close,
    Minimize,
    Zoom,
}

/// Which pane currently has keyboard focus.
#[derive(Clone, Copy, Debug, PartialEq, Eq, Structural)]
pub enum FocusPane {
    Files,
    Diff,
}

/// Line number info for diff lines (old line, new line).
#[derive(Clone, Copy, Debug, Default, PartialEq, Eq, Structural)]
pub struct DiffLineNumber {
    pub old: Option<u32>,
    pub new: Option<u32>,
}

/// The colour role of a highlighted column range: a syntax role, or a
/// status badge whose colour the active palette gives.
#[derive(Clone, Copy, Debug, PartialEq, Eq, Structural)]
pub enum SpanColor {
    /// Comments.
    Comment,
    /// String and character literals.
    Str,
    /// Numbers and booleans.
    Number,
    /// Keywords.
    Keyword,
    /// Type names and TOML keys.
    Type,
    /// A status badge, keyed by the status letter that picks its colour.
    Badge(char),
}

/// A coloured column range `[start_col, end_col)` of a line.
#[derive(Clone, Copy, Debug, PartialEq, Eq, Structural)]
pub struct ColorSpan {
    pub start_col: usize,
    pub end_col: usize,
    pub color: SpanColor,
}

/// One line of a document.
#[derive(Clone, Debug)]
pub struct DocLine {
    pub text: String,
    pub style: LineStyle,
    pub spans: Vec<ColorSpan>,
    /// Only set for diff document lines.
    pub line_number: Option<DiffLineNumber>,
}

/// The plain value of a document line: text, style, spans, line number.
pub open spec fn line_view(l: DocLine) -> (Seq<char>, LineStyle, Seq<ColorSpan>, Option<DiffLineNumber>) {
    (l.text@, l.style, l.spans@, l.line_number)
}

/// The plain values of a sequence of lines.
pub open spec fn lines_view(ls: Seq<DocLine>) -> Seq<(Seq<char>, LineStyle, Seq<ColorSpan>, Option<DiffLineNumber>)> {
    ls.map_values(|l: DocLine| line_view(l))
}

impl DocLine {
    /// A line with the given text and style, no spans and no line number.
    pub fn new(text: String, style: LineStyle) -> (l: Self)
        ensures
            l.text == text,
            l.style == style,
            l.spans@.len() == 0,
            l.line_number is None,
    {
        DocLine { text, style, spans: Vec::new(), line_number: None }
    }

    /// This line with its spans replaced.
    pub fn with_spans(self, spans: Vec<ColorSpan>) -> (l: Self)
        ensures
            l.text == self.text,
            l.style == self.style,
            l.spans == spans,
            l.line_number == self.line_number,
    {
        let mut s = self;
        s.spans = spans;
        s
    }

    /// This line with the given line number.
    pub fn with_line_number(self, ln: DiffLineNumber) -> (l: Self)
        ensures
            l.text == self.text,
            l.style == self.style,
            l.spans == self.spans,
            l.line_number == Some(ln),
    {
        let mut s = self;
        s.line_number = Some(ln);
        s
    }
}

/// A line-oriented document; it always holds at least one line.
#[derive(Clone, Debug)]
pub struct Document {
    lines: Vec<DocLine>,
}

impl Document {
    /// The lines of the document.
    pub closed spec fn view(&self) -> Seq<DocLine> {
        self.lines@
    }

    /// A document holding `lines`, or one empty dim line where `lines` is
    /// empty.
    pub fn from_lines(lines: Vec<DocLine>) -> (d: Self)
        ensures
            d.view().len() == if lines@.len() == 0 { 1 } else { lines@.len() },
            lines@.len() > 0 ==> d.view() == lines@,
            lines@.len() == 0 ==> d.view()[0].text@.len() == 0 && d.view()[0].style
                == LineStyle::Dim && d.view()[0].spans@.len() == 0 && d.view()[0].line_number is None,
    {
        let mut lines = lines;
        if lines.len() == 0 {
            lines.push(DocLine::new(String::new(), LineStyle::Dim));
        }
        Document { lines }
    }

    /// The lines of the document.
    pub fn into_lines(self) -> (r: Vec<DocLine>)
        ensures
            r@ == self.view(),
    {
        self.lines
    }

    /// The number of lines; at least one.
    pub fn line_count(&self) -> (n: usize)
        ensures
            n == self.view().len(),
    {
        self.lines.len()
    }

    /// The text of line `line_index`.
    pub fn line_text(&self, line_index: usize) -> (t: &str)
        requires
            line_index < self.view().len(),
        ensures
            t@ == self.view()[line_index as int].text@,
    {
        self.lines[line_index].text.as_str()
    }

    /// The style of line `line_index`.
    pub fn line_style(&self, line_index: usize) -> (s: LineStyle)
        requires
            line_index < self.view().len(),
        ensures
            s == self.view()[line_index as int].style,
    {
        self.lines[line_index].style
    }

    /// The coloured spans of line `line_index`.
    pub fn line_spans(&self, line_index: usize) -> (s: &[ColorSpan])
        requires
            line_index < self.view().len(),
        ensures
            s@ == self.view()[line_index as int].spans@,
    {
        self.lines[line_index].spans.as_slice()
    }

    /// The diff line number of line `line_index`.
    pub fn line_number(&self, line_index: usize) -> (n: Option<DiffLineNumber>)
        requires
            line_index < self.view().len(),
        ensures
            n == self.view()[line_index as int].line_number,
    {
        self.lines[line_index].line_number
    }
}

/// Where the file list sits in a single-pane document.
#[derive(Clone, Copy, Debug, PartialEq, Eq, Structural)]
pub struct GitViewMeta {
    pub files_start_line: usize,
    pub files_count: usize,
}

} // verus!
