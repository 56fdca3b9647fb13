//! The file preview pane's view model: the text it shows.

use vstd::prelude::*;

verus! {

/// The preview pane's state: the content to paint.
pub struct ViewModel {
    content: String,
}

impl View for ViewModel {
    type V = Seq<char>;

    closed spec fn view(&self) -> Seq<char> {
        self.content@
    }
}

impl ViewModel {
    /// A view model showing `content`; the caller reads the content from
    /// wherever it lives (a file, usually) and hands it over as a string.
    pub fn with_content(content: String) -> (r: ViewModel)
        ensures
            r@ == content@,
    {
        ViewModel { content }
    }

    /// The content to paint.
    pub fn content(&self) -> (r: &String)
        ensures
            r@ == self@,
    {
        &self.content
    }
}

} // verus!
