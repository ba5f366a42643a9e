//! Revenue reporting over a portfolio of projects and their revenue
//! forecasts: loading both from CSV exports, and the reports that the
//! terminal interface shows.
pub mod color;
pub mod db;
pub mod logging;
pub mod models;
pub mod parse;
pub mod services;
pub mod text;
pub mod ui;
pub mod utils;
