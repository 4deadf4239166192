pub mod argument;
pub mod definition;
pub mod error;
pub mod instance;
