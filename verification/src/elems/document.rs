//! The document: what a parse produces.

use vstd::prelude::*;
use super::items::{BasicItem, BasicItemView};

verus! {

/// A parsed document: the attributes of its front matter, in the order in
/// which their keys first appeared, and its block items.
#[derive(Debug, PartialEq, Eq)]
pub struct Document {
    pub attrs: Vec<(String, String)>,
    pub items: Vec<BasicItem>,
}

/// A document as plain data.
pub struct DocumentView {
    pub attrs: Seq<(Seq<char>, Seq<char>)>,
    pub items: Seq<BasicItemView>,
}

impl View for Document {
    type V = DocumentView;

    open spec fn view(&self) -> DocumentView {
        DocumentView { attrs: self.attrs.deep_view(), items: self.items.deep_view() }
    }
}

impl Default for Document {
    fn default() -> (doc: Document)
        ensures
            doc@.attrs.len() == 0,
            doc@.items.len() == 0,
    {
        Document { attrs: Vec::new(), items: Vec::new() }
    }
}

} // verus!
