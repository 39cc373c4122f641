//! Block items: the top-level units of a document.

use vstd::prelude::*;
use super::content::{Content, ContentView};
use super::tittle::{Tittle, TittleView};

verus! {

/// A paragraph: the inline content of its lines, in order.
#[derive(Debug, PartialEq, Eq)]
pub struct Paragraph {
    pub lines: Vec<Content>,
}

/// A paragraph as plain data.
pub struct ParagraphView {
    pub lines: Seq<ContentView>,
}

impl View for Paragraph {
    type V = ParagraphView;

    open spec fn view(&self) -> ParagraphView {
        ParagraphView { lines: self.lines.deep_view() }
    }
}

/// One line of a quote: its text, inside one `Qoute` for each level of
/// nesting below the first.
#[derive(Debug, PartialEq, Eq)]
pub enum QouteItem {
    Content(String),
    Qoute(Box<QouteItem>),
}

/// A quoted line as its text and the number of levels it is nested below
/// the first.
pub struct QouteItemView {
    pub nesting: nat,
    pub text: Seq<char>,
}

impl QouteItem {
    /// The number of `Qoute` layers around the text.
    pub open spec fn nesting(&self) -> nat
        decreases self,
    {
        match self {
            QouteItem::Content(_) => 0,
            QouteItem::Qoute(inner) => (**inner).nesting() + 1,
        }
    }

    /// The quoted text.
    pub open spec fn text(&self) -> Seq<char>
        decreases self,
    {
        match self {
            QouteItem::Content(s) => s@,
            QouteItem::Qoute(inner) => (**inner).text(),
        }
    }
}

impl View for QouteItem {
    type V = QouteItemView;

    open spec fn view(&self) -> QouteItemView {
        QouteItemView { nesting: self.nesting(), text: self.text() }
    }
}

impl DeepView for QouteItem {
    type V = QouteItemView;

    open spec fn deep_view(&self) -> QouteItemView {
        self@
    }
}

/// The marker that opens a list item.
#[derive(Debug, PartialEq, Eq, Clone, Copy, Structural)]
pub enum ListKind {
    /// `1.`, `2.`, ...
    Ordered,
    /// `+`
    Plus,
    /// `-`
    Dash,
    /// `*`
    Star,
}

/// A list item: its text and the items nested below it.
#[derive(Debug, PartialEq, Eq)]
pub enum ListItem {
    Ordered(String, Vec<ListItem>),
    Plus(String, Vec<ListItem>),
    Dash(String, Vec<ListItem>),
    Star(String, Vec<ListItem>),
}

/// A list item as plain data: its marker, its text and the items nested below
/// it.
pub struct ListItemView {
    pub kind: ListKind,
    pub text: Seq<char>,
    pub children: Seq<ListItemView>,
}

impl ListItem {
    pub open spec fn kind(&self) -> ListKind {
        match self {
            ListItem::Ordered(..) => ListKind::Ordered,
            ListItem::Plus(..) => ListKind::Plus,
            ListItem::Dash(..) => ListKind::Dash,
            ListItem::Star(..) => ListKind::Star,
        }
    }

    pub open spec fn text(&self) -> Seq<char> {
        match self {
            ListItem::Ordered(s, _) => s@,
            ListItem::Plus(s, _) => s@,
            ListItem::Dash(s, _) => s@,
            ListItem::Star(s, _) => s@,
        }
    }

    pub open spec fn children(&self) -> Seq<ListItem> {
        match self {
            ListItem::Ordered(_, c) => c@,
            ListItem::Plus(_, c) => c@,
            ListItem::Dash(_, c) => c@,
            ListItem::Star(_, c) => c@,
        }
    }

    /// The item of the given kind with this text and these children.
    pub fn new(kind: ListKind, text: String, children: Vec<ListItem>) -> (item: ListItem)
        ensures
            item@ == (ListItemView { kind, text: text@, children: children.deep_view() }),
    {
        let item = match kind {
            ListKind::Ordered => ListItem::Ordered(text, children),
            ListKind::Plus => ListItem::Plus(text, children),
            ListKind::Dash => ListItem::Dash(text, children),
            ListKind::Star => ListItem::Star(text, children),
        };
        proof {
            assert(item@.children =~= children.deep_view());
        }
        item
    }
}

impl View for ListItem {
    type V = ListItemView;

    open spec fn view(&self) -> ListItemView
        decreases self,
    {
        let kids = self.children();
        ListItemView {
            kind: self.kind(),
            text: self.text(),
            children: Seq::new(
                kids.len(),
                |i: int|
                    if 0 <= i < kids.len() {
                        kids[i]@
                    } else {
                        ListItemView { kind: ListKind::Star, text: Seq::empty(), children: Seq::empty() }
                    },
            ),
        }
    }
}

impl DeepView for ListItem {
    type V = ListItemView;

    open spec fn deep_view(&self) -> ListItemView {
        self@
    }
}

/// A fenced block of code: what follows the opening fence on its line, and
/// the lines between the fences.
#[derive(Debug, PartialEq, Eq)]
pub struct Code {
    pub attr: String,
    pub content: String,
}

/// A block of code as plain text.
pub struct CodeView {
    pub attr: Seq<char>,
    pub content: Seq<char>,
}

impl View for Code {
    type V = CodeView;

    open spec fn view(&self) -> CodeView {
        CodeView { attr: self.attr@, content: self.content@ }
    }
}

/// The cells of one row of a table.
#[derive(Debug, PartialEq, Eq)]
pub struct TableRow(pub Vec<String>);

impl View for TableRow {
    type V = Seq<Seq<char>>;

    open spec fn view(&self) -> Seq<Seq<char>> {
        self.0.deep_view()
    }
}

impl DeepView for TableRow {
    type V = Seq<Seq<char>>;

    open spec fn deep_view(&self) -> Seq<Seq<char>> {
        self@
    }
}

/// A table: the cells of its header and of each row below it.
#[derive(Debug, PartialEq, Eq)]
pub struct Table {
    pub header: Vec<String>,
    pub rows: Vec<TableRow>,
}

/// A table as plain data.
pub struct TableView {
    pub header: Seq<Seq<char>>,
    pub rows: Seq<Seq<Seq<char>>>,
}

impl TableView {
    /// Every row has as many cells as the header.
    pub open spec fn well_formed(self) -> bool {
        forall|i: int| 0 <= i < self.rows.len() ==> (#[trigger] self.rows[i]).len() == self.header.len()
    }
}

impl View for Table {
    type V = TableView;

    open spec fn view(&self) -> TableView {
        TableView { header: self.header.deep_view(), rows: self.rows.deep_view() }
    }
}

/// A top-level unit of a document.
#[derive(Debug, PartialEq, Eq)]
pub enum BasicItem {
    /// A line that begins with `# `, `## `, ...
    Tittle(Tittle),
    /// Lines of text up to a blank line
    Paragraph(Paragraph),
    /// Lines that begin with `>`, `>>`, ...
    Qoute(Vec<QouteItem>),
    /// Lines that begin with `1.`, `2.`, `-`, `+`, `*`
    List(Vec<ListItem>),
    /// Lines between two fences of three backticks
    Code(Code),
    /// `---`
    HLine,
    /// Text between `<!--` and `-->`
    Comment(String),
    /// Text between `$$` and `$$`
    Latex(String),
    /// Lines that begin with `|`
    Table(Table),
}

/// A block item as plain data.
pub enum BasicItemView {
    Tittle(TittleView),
    Paragraph(ParagraphView),
    Qoute(Seq<QouteItemView>),
    List(Seq<ListItemView>),
    Code(CodeView),
    HLine,
    Comment(Seq<char>),
    Latex(Seq<char>),
    Table(TableView),
}

impl View for BasicItem {
    type V = BasicItemView;

    open spec fn view(&self) -> BasicItemView {
        match self {
            BasicItem::Tittle(t) => BasicItemView::Tittle(t@),
            BasicItem::Paragraph(p) => BasicItemView::Paragraph(p@),
            BasicItem::Qoute(q) => BasicItemView::Qoute(q.deep_view()),
            BasicItem::List(l) => BasicItemView::List(l.deep_view()),
            BasicItem::Code(c) => BasicItemView::Code(c@),
            BasicItem::HLine => BasicItemView::HLine,
            BasicItem::Comment(s) => BasicItemView::Comment(s@),
            BasicItem::Latex(s) => BasicItemView::Latex(s@),
            BasicItem::Table(t) => BasicItemView::Table(t@),
        }
    }
}

impl DeepView for BasicItem {
    type V = BasicItemView;

    open spec fn deep_view(&self) -> BasicItemView {
        self@
    }
}

} // verus!
