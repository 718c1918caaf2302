pub mod annotation_object;
pub mod annotation_panel;
pub mod definition_popover;
pub mod eyers_window;
pub mod pdf_view;
pub mod settings_window;
pub mod toc_panel;
pub mod translation_panel;
