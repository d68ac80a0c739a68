//! A book.

use vstd::prelude::*;

verus! {

/// A book, known by its title and its author.
#[derive(Debug)]
pub struct Book {
    pub title: String,
    pub author: String,
}

/// The mathematical value of a `Book`.
pub struct BookView {
    pub title: Seq<char>,
    pub author: Seq<char>,
}

impl View for Book {
    type V = BookView;

    open spec fn view(&self) -> BookView {
        BookView { title: self.title@, author: self.author@ }
    }
}

impl DeepView for Book {
    type V = BookView;

    open spec fn deep_view(&self) -> BookView {
        self@
    }
}

impl Book {
    /// A book with the given title and author.
    pub fn new(title: &str, author: &str) -> (book: Book)
        ensures
            book@ == (BookView { title: title@, author: author@ }),
    {
        Book { title: title.to_owned(), author: author.to_owned() }
    }
}

impl Clone for Book {
    fn clone(&self) -> (copy: Book)
        ensures
            copy@ == self@,
    {
        Book { title: self.title.clone(), author: self.author.clone() }
    }
}

} // verus!
