//! Broadcast audio over IP: wire format, routing, jitter buffering and session rules.

pub mod announce;
pub mod audio;
pub mod cli;
pub mod clock;
pub mod cloud;
pub mod constants;
pub mod delivery;
pub mod engine;
pub mod interfaces;
pub mod jitter;
pub mod link;
pub mod metadata;
pub mod packet;
pub mod persistence;
pub mod rendezvous;
pub mod restart;
pub mod routing;
pub mod session;
pub mod state;
pub mod stream;
pub mod text;
pub mod token;
pub mod transmit;
pub mod web;
pub mod wire;
