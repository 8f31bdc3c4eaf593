//! Plain data exchanged between the library and the application shell.
use vstd::prelude::*;

verus! {

/// A chapter found in a text: its 1-based line range and its count of visible characters.
#[derive(Debug, Clone)]
pub struct Chapter {
    pub id: u32,
    pub title: String,
    pub start_line: usize,
    pub end_line: usize,
    pub word_count: usize,
}

/// How far parsing has come, as shown to the user.
#[derive(Debug, Clone)]
pub struct ParseProgress {
    pub percent: u8,
    pub current_chapter: String,
    pub total_chapters: usize,
}

/// A genre preset offered to the user, with the chapter style it uses.
#[derive(Debug, Clone)]
pub struct GenrePreset {
    pub id: String,
    pub label: String,
    pub prompt_keywords: String,
    pub chapter_style_id: String,
    pub preview_image_path: String,
    pub cover_image_path: Option<String>,
}

/// A cover background image and the name it is shown under.
#[derive(Debug, Clone)]
pub struct CoverTemplate {
    pub path: String,
    pub name: String,
}

/// A chapter to export, by its 1-based line range in the source text.
#[derive(Debug, Clone)]
pub struct ExportChapterRequest {
    pub title: String,
    pub start_line: usize,
    pub end_line: usize,
}

/// A step of an export or upload, as shown to the user.
#[derive(Debug, Clone)]
pub struct ExportProgress {
    pub phase: String,
    pub percent: u8,
    pub message: String,
}

/// The signed-in account of a MyBooks server.
#[derive(Debug, Clone)]
pub struct MyBooksSession {
    pub host: String,
    pub username: String,
}

/// A book found by a MyBooks search.
#[derive(Debug, Clone)]
pub struct MyBooksBookSummary {
    pub id: i64,
    pub title: String,
    pub author: String,
    pub formats: Vec<String>,
}

} // verus!
