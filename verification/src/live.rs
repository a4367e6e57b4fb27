//! Live queries: credentials, requests, and what comes back.

pub mod address;
pub mod auth;
pub mod call;
pub mod duration;
pub mod reply;
pub mod request;
pub mod scope;
pub mod window;
