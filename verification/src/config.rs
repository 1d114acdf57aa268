//! Server and endpoint settings. Durations are in milliseconds or seconds as named.
use vstd::prelude::*;
use crate::zone_transfer::ZoneTransferConfig;

verus! {

/// Transport settings of the QUIC/WebTransport endpoint.
#[derive(Debug, Clone)]
pub struct EndpointConfig {
    pub idle_timeout_ms: u64,
    pub keep_alive_interval_ms: u64,
    pub initial_rtt_ms: u64,
    pub datagram_receive_buffer_size: usize,
    pub datagram_send_buffer_size: usize,
    pub max_concurrent_bidi_streams: u32,
    pub max_concurrent_uni_streams: u32,
    pub rate_limit_per_sec: u32,
    pub auth_timeout_ms: u64,
    pub ws_port: Option<u16>,
    /// How long to retain disconnected sessions for fast reconnect.
    pub session_retain_ms: u64,
    /// Maximum number of retained sessions before LRU eviction.
    pub max_retained_sessions: usize,
}

impl Default for EndpointConfig {
    /// 30 s idle timeout, 5 s keep-alive, 50 ms initial RTT, 64 KiB datagram buffers,
    /// 8 bidirectional and 4 unidirectional streams, 100 messages a second, 5 s to
    /// authenticate, no WebSocket port, sessions retained 30 s, at most 1000 of them.
    fn default() -> (c: EndpointConfig)
        ensures
            c.idle_timeout_ms == 30_000,
            c.keep_alive_interval_ms == 5_000,
            c.initial_rtt_ms == 50,
            c.datagram_receive_buffer_size == 65_536,
            c.datagram_send_buffer_size == 65_536,
            c.max_concurrent_bidi_streams == 8,
            c.max_concurrent_uni_streams == 4,
            c.rate_limit_per_sec == 100,
            c.auth_timeout_ms == 5_000,
            c.ws_port is None,
            c.session_retain_ms == 30_000,
            c.max_retained_sessions == 1000,
    {
        EndpointConfig {
            idle_timeout_ms: 30_000,
            keep_alive_interval_ms: 5_000,
            initial_rtt_ms: 50,
            datagram_receive_buffer_size: 65_536,
            datagram_send_buffer_size: 65_536,
            max_concurrent_bidi_streams: 8,
            max_concurrent_uni_streams: 4,
            rate_limit_per_sec: 100,
            auth_timeout_ms: 5_000,
            ws_port: None,
            session_retain_ms: 30_000,
            max_retained_sessions: 1000,
        }
    }
}

/// Settings of the realtime server.
#[derive(Debug, Clone)]
pub struct ServerConfig {
    /// NATS broker URL. `None` disables capacity publishing: the server runs standalone.
    pub nats_url: Option<String>,
    pub max_islands: u32,
    pub entity_threshold: u32,
    pub capacity_interval_secs: u64,
    pub capacity_subject: String,
    /// Seconds with no player before an island passivates.
    pub idle_timeout_secs: u64,
    /// Seconds after the last player leaves before passivation is scheduled.
    pub grace_period_secs: u64,
    /// Zone transfer settings; `None` disables zone transfers.
    pub zone_transfer: Option<ZoneTransferConfig>,
    /// Tick rate of every island, in Hz. It must match the rate the executors assume.
    pub tick_rate_hz: u8,
}

/// The tick rate an island runs at unless configured otherwise.
pub fn default_tick_rate_hz() -> (hz: u8)
    ensures
        hz == 20,
{
    20
}

impl Default for ServerConfig {
    /// Standalone, at most 200 islands, dedicated threads from 100 entities, capacity
    /// every 5 s on `quanta.default.realtime.capacity`, 30 s idle timeout, 10 s grace, no
    /// zone transfers, 20 Hz.
    fn default() -> (c: ServerConfig)
        ensures
            c.nats_url is None,
            c.max_islands == 200,
            c.entity_threshold == 100,
            c.capacity_interval_secs == 5,
            c.capacity_subject@ == "quanta.default.realtime.capacity"@,
            c.idle_timeout_secs == 30,
            c.grace_period_secs == 10,
            c.zone_transfer is None,
            c.tick_rate_hz == 20,
    {
        ServerConfig {
            nats_url: None,
            max_islands: 200,
            entity_threshold: 100,
            capacity_interval_secs: 5,
            capacity_subject: String::from_str("quanta.default.realtime.capacity"),
            idle_timeout_secs: 30,
            grace_period_secs: 10,
            zone_transfer: None,
            tick_rate_hz: default_tick_rate_hz(),
        }
    }
}

} // verus!
