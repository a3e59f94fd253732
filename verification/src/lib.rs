//! Page-keeping logic of a keyboard-driven PDF reader for non-fiction books:
//! bookmarks, page tags, crop margins, reading history, recently opened books
//! and the small text utilities the reader builds on.

pub mod app_state;
pub mod book_list;
pub mod bookmarks;
pub mod document;
pub mod document_info;
pub mod fuzzy;
pub mod gallery;
pub mod keyed;
pub mod pixels;
pub mod positions;
pub mod preferences;
pub mod recent;
pub mod scrollbar;
pub mod text;
pub mod view;
