pub mod app_mode;
pub mod input_state;
pub mod key_action;
pub mod key_handler;
pub mod keys;
pub mod processing;
