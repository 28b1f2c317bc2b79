pub mod commands;
pub mod history;
pub mod hotkey;
pub mod menu;
pub mod models;
pub mod numbers;
pub mod paste;
pub mod settings;
pub mod storage;
pub mod text;
