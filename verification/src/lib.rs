//! A plain-text day planner: the plan model, its validation and revision rules, recurrence,
//! the firing lifecycle and the decisions of the command layer.

use vstd::prelude::*;

pub mod civil;
pub mod commands;
pub mod config;
pub mod context;
pub mod error;
pub mod gui;
pub mod lifecycle;
pub mod mcp;
pub mod model;
pub mod platform;
pub mod recurrence;
pub mod rpc;
pub mod serve;
pub mod store;
pub mod text;
pub mod time;

verus! {

} // verus!
