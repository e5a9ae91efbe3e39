//! The rules of Open Live Writer, a Markdown editor that publishes to Notion and Typecho: edits of
//! Markdown text, blocks and previews of a document, its encodings on disk, drafts and media, and the
//! requests that publish it.
//!
//! Offsets in a text are bytes of UTF-8, as the editor's text field counts them; the contracts speak
//! of texts as sequences of characters, and relate the two by `text::byte_len`.

pub mod text;
pub mod lines;
pub mod number;
pub mod text_laws;
pub mod bytes;

pub mod editing;
pub mod editing_laws;
pub mod line_laws;

pub mod tree;
pub mod markdown;
pub mod markdown_laws;
pub mod preview;
pub mod preview_laws;

pub mod json;
pub mod http;
pub mod reply;
pub mod publishing;
pub mod notion;
pub mod notion_laws;
pub mod typecho;
pub mod typecho_laws;
pub mod publishing_laws;

pub mod document;
pub mod names;
pub mod names_laws;

pub mod storage;
pub mod storage_laws;
pub mod atomic;

pub mod input;
pub mod ribbon;
pub mod ribbon_laws;
pub mod editor;
pub mod view_laws;
