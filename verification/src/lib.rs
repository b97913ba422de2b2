pub mod backup;
pub mod commands;
pub mod errors;
pub mod filters;
pub mod grade;
pub mod ids;
pub mod index;
pub mod models;
pub mod order;
pub mod paths;
pub mod queue;
pub mod records;
pub mod repo;
pub mod rows;
pub mod scheduler;
pub mod stats;
pub mod store;
pub mod text;
pub mod time;
pub mod tui;
