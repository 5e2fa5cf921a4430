pub mod config;
pub mod models;
pub mod client;
pub mod tools;
pub mod ui;
pub mod react;
pub mod sse;
pub mod session;
