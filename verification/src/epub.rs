//! Assembling EPUB 3 books: chapter pages, cover page, style resources.
pub mod builder;
pub mod template;
