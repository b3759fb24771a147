//! Options the service runs with.
use vstd::prelude::*;

verus! {

/// Options of a WebRTC SFU server instance.
#[derive(Clone, Debug)]
pub struct CliOptions {
    /// CORS domain
    pub cors_domain: String,
    /// Web server host
    pub host: String,
    /// Web server port (public)
    pub port: String,
    /// Private web server port (management, metrics, probes)
    pub private_port: String,
    /// NATS server URL
    pub nats: String,
    /// Redis server URL
    pub redis: String,
    /// STUN server URL
    pub stun: String,
    /// TURN server URL
    pub turn: Option<String>,
    /// TURN server username
    pub turn_username: Option<String>,
    /// TURN server password
    pub turn_password: Option<String>,
    /// SSL cert file
    pub cert_file: String,
    /// SSL key file
    pub key_file: String,
    /// External IP address of a 1:1 (D)NAT
    pub public_ip: Option<String>,
    /// Token verification for publishers and subscribers
    pub auth: bool,
    /// Demo site and public management API
    pub debug: bool,
}

} // verus!
