pub mod island;
pub mod wire;
pub mod text;
pub mod delta_envelope;
pub mod checkpoint;
pub mod sync;
pub mod types;
pub mod tick;
pub mod degraded;
pub mod watchdog;
pub mod interest;
pub mod keyed;
pub mod distinct;
pub mod ws_session;
pub mod bridge_health;
pub mod clock;
pub mod auth;
pub mod connection;
pub mod error;
pub mod zone_transfer;
pub mod config;
pub mod tls;
pub mod command;
pub mod manager;
pub mod traits;
pub mod stubs;
pub mod session_store;
pub mod bridge_rpc;
pub mod session;
pub mod fanout;
pub mod testing;
pub mod effect_io;
pub mod recording;
pub mod bot;
pub mod session_routing;
