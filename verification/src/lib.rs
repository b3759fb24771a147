//! Signalling and bookkeeping logic of a horizontally scaled WebRTC SFU.
use vstd::prelude::*;

pub mod cli;
pub mod text;
pub mod command;
pub mod store;
pub mod sdp;
pub mod subscriber;
pub mod signal;
pub mod peer;
pub mod web;
pub mod registry;
pub mod tls;

verus! {
}
