//! Protocol engine for the SSM2 diagnostic link of an engine control unit.
//!
//! The engine performs no I/O. A driver owns the serial transport; the client in
//! [`client`] tells it, one [`client::Action`] at a time, what to do with the
//! transport, and is told in return what happened.

pub mod client;
pub mod error;
pub mod packet;
pub mod param;

pub use client::{Action, Ssm2};
pub use error::Ssm2Error;
pub use param::EcuParam;
