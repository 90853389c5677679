use vstd::prelude::*;

verus! {

/// One catalog entry: a title and its page count.
#[derive(Clone, Debug)]
pub struct Book {
    pub title: String,
    pub pages: u32,
}

impl View for Book {
    type V = (Seq<char>, u32);

    open spec fn view(&self) -> (Seq<char>, u32) {
        (self.title@, self.pages)
    }
}

impl DeepView for Book {
    type V = (Seq<char>, u32);

    open spec fn deep_view(&self) -> (Seq<char>, u32) {
        (self.title@, self.pages)
    }
}

/// What an upsert did to the store.
#[derive(Clone, Debug)]
pub enum PutOutcome {
    /// The title was new; the book was appended at the end of the order.
    Created(Book),
    /// The title was known and its page count changed, in place.
    Updated,
    /// The title was known with the same page count; nothing changed.
    Unchanged,
}

/// The faults that the store's operations report.
#[derive(Clone, Copy, Debug, PartialEq, Eq, Structural)]
pub enum ShelfError {
    /// A caller-supplied page count is not a non-negative 32-bit integer.
    InvalidPages,
    /// A stored title has no numeric suffix to sort by.
    MalformedTitle,
}

} // verus!
