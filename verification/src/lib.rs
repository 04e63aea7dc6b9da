//! The in-season cup: a cup that a hockey team holds until it loses a game, and that then goes to
//! the team it lost to.
//!
//! The library works out who holds the cup day by day, keeps the history of the cup and an audit
//! log, and finds the next game of the team that holds it. Where something has to be fetched or
//! stored, it says what, and takes what came back.

pub mod calendar;
pub mod history;
pub mod json;
pub mod model;
pub mod roster;
pub mod schedule;
pub mod search;
pub mod state;
pub mod store;
pub mod text;
pub mod update;
pub mod web;
