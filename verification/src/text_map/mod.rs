pub mod navigation;
pub mod page_text_map;
pub mod selection;
pub mod sorting;
pub mod text_map_cache;
pub mod word_info;
