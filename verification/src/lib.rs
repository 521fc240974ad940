pub mod app;
pub mod board;
pub mod card;
pub mod column_laws;
pub mod columns;
pub mod config;
pub mod details;
pub mod edit_laws;
pub mod editor;
pub mod filename_laws;
pub mod filesystem;
pub mod fill_laws;
pub mod key_laws;
pub mod keys;
pub mod laws;
pub mod layout;
pub mod load_laws;
pub mod meta_laws;
pub mod mode;
pub mod positions;
pub mod preview_laws;
pub mod refill_laws;
pub mod settings;
pub mod slug_laws;
pub mod sorting;
pub mod sync_laws;
pub mod text;
pub mod text_lemmas;
pub mod title_laws;
pub mod stamp_laws;
pub mod tui;
pub mod views;
