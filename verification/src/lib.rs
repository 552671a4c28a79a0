pub mod text;
pub mod ids;
pub mod config;
pub mod detection;
pub mod state;
pub mod permissions;
pub mod quarantine;
pub mod moderation;
pub mod commands;
