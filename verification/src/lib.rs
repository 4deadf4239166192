pub mod server;
pub mod commands;
pub mod shell;
pub mod text;
pub mod control;
