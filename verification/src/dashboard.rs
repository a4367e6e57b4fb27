//! Dashboards: from the URL of a panel to the series behind it.

pub mod follow;
pub mod panels;
pub mod range;
pub mod report;
pub mod series;
pub mod table;
pub mod targets;
pub mod url;
pub mod variables;
