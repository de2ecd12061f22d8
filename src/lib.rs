pub mod collectors;
pub mod config;
pub mod icon;
pub mod index;
pub mod mode;
pub mod model;
pub mod paths;
pub mod query;
pub mod ranking;
pub mod resolver;
pub mod scoring;
pub mod state;
pub mod text;
