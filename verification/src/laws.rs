//! Laws: what holds of the operations as a whole, stated over what goes in and what comes out.

pub mod credentials;
pub mod dashboards;
pub mod groups;
pub mod listings;
pub mod numbers;
pub mod overviews;
pub mod panels;
pub mod records;
pub mod replies;
pub mod requests;
pub mod series;
pub mod texts;
pub mod variables;
pub mod ways;
pub mod windows;
