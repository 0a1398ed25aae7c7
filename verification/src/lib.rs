//! A tiny user-record service core: request classification, parameter
//! extraction, and the mapping from store outcomes to wire responses.

pub mod text;
pub mod request;
pub mod user;
pub mod response;
pub mod dispatch;
pub mod store;
pub mod lifecycle;
