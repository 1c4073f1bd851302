pub mod files;
pub mod identifier;
pub mod mapping;
