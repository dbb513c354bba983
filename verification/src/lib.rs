//! The accounts of a proxy endpoint: who may use it, and how much each user has used.

pub mod authentication;
mod shared_str;
pub mod user_traffic;
