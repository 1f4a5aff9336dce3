//! Verified core of the HushWire layer-3 tunnel.

pub mod auth;
pub mod bytes;
pub mod cli;
pub mod config;
pub mod doctor;
pub mod engine;
pub mod ffi;
pub mod firewall;
pub mod gateway;
pub mod names;
pub mod net;
pub mod noise;
pub mod packet;
pub mod replay;
pub mod router;
pub mod routing;
pub mod scheduler;
pub mod sessions;
pub mod state;
pub mod tcp_transport;
pub mod text;
pub mod tunnel;
