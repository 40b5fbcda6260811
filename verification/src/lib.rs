//! Metering of AI coding services: usage records out of local logs, weekly
//! windows, plan caps and the decisions of a burn-rate forecast.

pub mod api;
pub mod collectors;
pub mod config;
pub mod db;
pub mod digest;
pub mod forecast;
pub mod json;
pub mod models;
pub mod normalize;
pub mod number;
pub mod paths;
pub mod pricing;
pub mod projects;
pub mod scheduler;
pub mod text;
pub mod time;
pub mod tui;
