//! Inline content: the typed spans that a line of text is made of.

use vstd::prelude::*;

verus! {

/// An image, written `![alt](link)`.
#[derive(Debug, PartialEq, Eq)]
pub struct Image {
    pub link: String,
    pub alt: String,
}

/// An image as plain text.
pub struct ImageView {
    pub link: Seq<char>,
    pub alt: Seq<char>,
}

impl View for Image {
    type V = ImageView;

    open spec fn view(&self) -> ImageView {
        ImageView { link: self.link@, alt: self.alt@ }
    }
}

/// A link, written `[name](url)`.
#[derive(Debug, PartialEq, Eq)]
pub struct Hyperlink {
    pub name: String,
    pub url: String,
}

/// A link as plain text.
pub struct HyperlinkView {
    pub name: Seq<char>,
    pub url: Seq<char>,
}

impl View for Hyperlink {
    type V = HyperlinkView;

    open spec fn view(&self) -> HyperlinkView {
        HyperlinkView { name: self.name@, url: self.url@ }
    }
}

/// A date, `2024/06/29` or `2024-06-29`.
///
/// A part may be missing: the year in `09/19`, the day in `2024/09`.
#[derive(Debug, PartialEq, Eq, Clone, Copy)]
pub struct Date {
    pub year: Option<u16>,
    pub month: Option<u8>,
    pub day: Option<u8>,
}

/// A time of day, `09:19:23`.
#[derive(Debug, PartialEq, Eq, Clone, Copy)]
pub struct Time {
    pub hour: Option<u8>,
    pub minute: Option<u8>,
    pub second: Option<u8>,
}

/// A date, a time, or both.
#[derive(Debug, PartialEq, Eq, Clone, Copy)]
pub enum TimeDate {
    /// `2024/06/29` or `2024-06-29`
    Date(Date),
    /// `09:19:23`
    Time(Time),
    /// `2024/06/29 09:19:23` or `2024-06-29 09:19:23`
    DateTime(Date, Time),
}

/// What stands between two backticks.
#[derive(Debug, PartialEq, Eq)]
pub enum InlineCode {
    /// `rgb(0,0,0)` or `#ffffff`
    Color(u8, u8, u8),
    TimeDate(TimeDate),
    TimeConjob(String),
    Text(String),
}

/// What stands between two backticks, as plain data.
pub enum InlineCodeView {
    Color(u8, u8, u8),
    TimeDate(TimeDate),
    TimeConjob(Seq<char>),
    Text(Seq<char>),
}

impl View for InlineCode {
    type V = InlineCodeView;

    open spec fn view(&self) -> InlineCodeView {
        match self {
            InlineCode::Color(r, g, b) => InlineCodeView::Color(*r, *g, *b),
            InlineCode::TimeDate(t) => InlineCodeView::TimeDate(*t),
            InlineCode::TimeConjob(s) => InlineCodeView::TimeConjob(s@),
            InlineCode::Text(s) => InlineCodeView::Text(s@),
        }
    }
}

/// One span of a line.
#[derive(Debug, PartialEq, Eq)]
pub enum Content {
    Text(String),
    /// `**bold**` or `__bold__`
    Bold(String),
    /// `*italic*` or `_italic_`
    Ltalic(String),
    /// `~~delete~~`
    Delete(String),
    /// `![alt](link)`
    Image(Image),
    /// `[name](url)`
    Hyperlink(Hyperlink),
    /// `$ $`
    Latex(String),
    /// `` `code` ``
    Code(InlineCode),
    /// `[attr]`
    Attr(String),
    /// `[^attr]`
    FootnoteAttr(String),
    /// `[!attr]`
    WarningAttr(String),
    /// `#attr`
    DashAttr(String),
    /// `@namespace/ref/er/ence`
    Reference(String, String),
}

/// One span of a line, as plain data.
pub enum ContentView {
    Text(Seq<char>),
    Bold(Seq<char>),
    Ltalic(Seq<char>),
    Delete(Seq<char>),
    Image(ImageView),
    Hyperlink(HyperlinkView),
    Latex(Seq<char>),
    Code(InlineCodeView),
    Attr(Seq<char>),
    FootnoteAttr(Seq<char>),
    WarningAttr(Seq<char>),
    DashAttr(Seq<char>),
    Reference(Seq<char>, Seq<char>),
}

impl View for Content {
    type V = ContentView;

    open spec fn view(&self) -> ContentView {
        match self {
            Content::Text(s) => ContentView::Text(s@),
            Content::Bold(s) => ContentView::Bold(s@),
            Content::Ltalic(s) => ContentView::Ltalic(s@),
            Content::Delete(s) => ContentView::Delete(s@),
            Content::Image(i) => ContentView::Image(i@),
            Content::Hyperlink(h) => ContentView::Hyperlink(h@),
            Content::Latex(s) => ContentView::Latex(s@),
            Content::Code(c) => ContentView::Code(c@),
            Content::Attr(s) => ContentView::Attr(s@),
            Content::FootnoteAttr(s) => ContentView::FootnoteAttr(s@),
            Content::WarningAttr(s) => ContentView::WarningAttr(s@),
            Content::DashAttr(s) => ContentView::DashAttr(s@),
            Content::Reference(n, p) => ContentView::Reference(n@, p@),
        }
    }
}

impl DeepView for Content {
    type V = ContentView;

    open spec fn deep_view(&self) -> ContentView {
        self@
    }
}

} // verus!
