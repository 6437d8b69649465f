pub mod text;
pub mod order;
pub mod telemetry;
pub mod net;
pub mod auth;
pub mod paths;
pub mod config;
pub mod state;
pub mod lifecycle;
pub mod handlers;
pub mod removal;
pub mod symbols;
pub mod metadata;
pub mod status;
pub mod board;
pub mod info;
pub mod chunks;
pub mod store;
pub mod exposition;
pub mod grammar;
pub mod metrics;
pub mod scrape;
pub mod reader;
pub mod dashboard;
pub mod stamps;
pub mod tui;
pub mod startup;
pub mod laws;
