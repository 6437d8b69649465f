//! What the operations promise, told of any call: of what a call is given and what it gives
//! back, and of how calls relate.
pub mod access;
pub mod board;
pub mod describing;
pub mod exposing;
pub mod indexing;
pub mod latency;
pub mod opening;
pub mod requests;
pub mod scraping;
pub mod screen;
pub mod settings;
pub mod showing;
pub mod store;
pub mod symbols;
pub mod texts;
