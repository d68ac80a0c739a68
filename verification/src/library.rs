//! Books and the shelf that holds them.

pub mod book;
pub mod bookshelf;
