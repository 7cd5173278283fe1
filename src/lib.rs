//! A configurable reverse proxy: URI pattern matching and rewriting,
//! socket addresses, and the decisions of each service's accept loop.
use vstd::prelude::*;

pub mod text;
pub mod pattern;
pub mod matcher;
pub mod gateway;
pub mod methods;
pub mod address;
pub mod arg;
pub mod engine;
pub mod service;
pub mod mocker;

verus! {

} // verus!
