//! Per-user traffic accounting.
//!
//! Totals labelled by protocol answer "how busy is this endpoint" but not "how much has this
//! account used" - and the second question is the one a panel has to answer to enforce a quota or
//! bill for traffic.
//!
//! Two things make this a table of its own rather than another label on such totals:
//!
//! * a label carrying a username produces one time series per user per protocol, which grows
//!   without bound on a busy endpoint;
//! * a total only ever increases, while a panel wants to collect what has been used *since it last
//!   asked* and have the endpoint forget it. That is [`UserTraffic::drain`].

pub mod accounts;
pub mod json;
pub mod json_reading;
pub mod laws;
pub mod table;
pub mod usage;

pub use json::render_json;
pub use table::{CounterHandle, UserTraffic};
pub use usage::{Usage, UserCounter};
