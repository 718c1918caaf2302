pub mod annotation_order;
pub mod annotations;
pub mod bookmarks;
pub mod dictionary;
pub mod pdf_text;
pub mod translation;
