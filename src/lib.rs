pub mod model;
pub mod gauge;
pub mod ranking;
pub mod store;
pub mod search;
pub mod lifecycle;
pub mod checkin;
pub mod authorization;
pub mod common;
