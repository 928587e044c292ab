pub mod text;
pub mod models;
pub mod validate;
pub mod error;
pub mod sorted;
pub mod store;
pub mod chars;
pub mod split;
pub mod gate;
pub mod listing;
pub mod pattern;
pub mod import;
pub mod colours;
pub mod commands;
