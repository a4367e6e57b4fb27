//! gflog: reading Grafana and Loki logs from the terminal.

pub mod cli;
pub mod clock;
pub mod dashboard;
pub mod json;
pub mod laws;
pub mod live;
pub mod number;
pub mod offline;
pub mod order;
pub mod patterns;
pub mod record;
pub mod text;
pub mod views;
