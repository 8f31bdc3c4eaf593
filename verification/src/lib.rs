//! Turns a plain-text novel into chapters and assembles EPUB books from them.
pub mod models;
pub mod parser;
pub mod text;
pub mod names;
pub mod epub;
pub mod export;
pub mod genre;
pub mod cover;
pub mod mybooks;
pub mod progress;
