pub mod types;
pub mod name;
pub mod listing;
pub mod resolver;
pub mod reserve;
pub mod write;
pub mod counter;
pub mod attr;
pub mod ops;
pub mod cli;
pub mod session;
pub mod command;
