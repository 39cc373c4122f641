//! The document tree: the block items of a document, the inline content of a
//! line, and the view of each as plain mathematical data.

pub mod content;
pub mod document;
pub mod items;
pub mod tittle;

pub use content::{Content, ContentView, Date, Hyperlink, HyperlinkView, Image, ImageView};
pub use content::{InlineCode, InlineCodeView, Time, TimeDate};
pub use document::{Document, DocumentView};
pub use items::{BasicItem, BasicItemView, Code, CodeView, ListItem, ListItemView, ListKind};
pub use items::{Paragraph, ParagraphView, QouteItem, QouteItemView, Table, TableRow, TableView};
pub use tittle::{Tittle, TittleView};
