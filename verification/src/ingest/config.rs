//! How an ingest listener is configured.

use vstd::prelude::*;

verus! {

/// The largest payload of a frame, unless something else is asked for.
pub const DEFAULT_MAX_FRAME_BYTES: u32 = 65_535;

/// How long a handshake may take, unless something else is asked for: five
/// seconds.
pub const DEFAULT_HANDSHAKE_TIMEOUT_NS: u64 = 5_000_000_000;

/// Where the TLS material of a listener is.
#[derive(Debug)]
pub struct TlsConfig {
    /// The PEM file with the server's certificate chain, the leaf first.
    pub cert_chain: String,
    /// The PEM file with the server's private key.
    pub private_key: String,
    /// The PEM file with the authorities that sign clients' certificates. Where
    /// there is one, clients have to show a certificate.
    pub client_ca: Option<String>,
}

/// How a TCP listener is configured.
#[derive(Debug)]
pub struct TcpIngestConfig {
    /// The address to listen on.
    pub bind_addr: String,
    /// The largest payload of a frame; at least 1.
    pub max_frame_bytes: u32,
    /// How long a handshake may take, in nanoseconds; at least 1.
    pub handshake_timeout_ns: u64,
    /// The TLS material; none for plain TCP.
    pub tls: Option<TlsConfig>,
}

/// How a Unix-socket listener is configured.
#[derive(Debug)]
pub struct UnixSocketIngestConfig {
    /// The path to listen on.
    pub socket_path: String,
    /// The largest payload of a frame; at least 1.
    pub max_frame_bytes: u32,
    /// How long a handshake may take, in nanoseconds; at least 1.
    pub handshake_timeout_ns: u64,
    /// The permission bits that the socket gets, where they are not left to the
    /// process.
    pub socket_permissions: Option<u32>,
    /// Whether a socket that someone listens on may be taken over.
    pub force_rebind: bool,
}

/// What is wrong with a configuration.
#[derive(Debug, Clone, Copy, PartialEq, Eq, Structural)]
pub enum ConfigError {
    /// No payload would be small enough.
    ZeroMaxFrameBytes,
    /// No handshake would be fast enough.
    ZeroHandshakeTimeout,
}

impl ConfigError {
    /// The sentence for the error.
    pub open spec fn text(self) -> Seq<char> {
        match self {
            ConfigError::ZeroMaxFrameBytes => "max_frame_bytes must be > 0"@,
            ConfigError::ZeroHandshakeTimeout => "handshake_timeout must be > 0"@,
        }
    }

    /// A sentence that tells a person what is wrong.
    pub fn message(&self) -> (r: &'static str)
        ensures
            r@ == self.text(),
    {
        match self {
            ConfigError::ZeroMaxFrameBytes => "max_frame_bytes must be > 0",
            ConfigError::ZeroHandshakeTimeout => "handshake_timeout must be > 0",
        }
    }
}

/// What is wrong with the limits of a listener, if anything is.
pub open spec fn limits_fault(max_frame_bytes: u32, handshake_timeout_ns: u64) -> Option<
    ConfigError,
> {
    if max_frame_bytes == 0 {
        Some(ConfigError::ZeroMaxFrameBytes)
    } else if handshake_timeout_ns == 0 {
        Some(ConfigError::ZeroHandshakeTimeout)
    } else {
        None
    }
}

fn check_limits(max_frame_bytes: u32, handshake_timeout_ns: u64) -> (r: Result<(), ConfigError>)
    ensures
        r == match limits_fault(max_frame_bytes, handshake_timeout_ns) {
            Some(e) => Err::<(), ConfigError>(e),
            None => Ok(()),
        },
{
    if max_frame_bytes == 0 {
        return Err(ConfigError::ZeroMaxFrameBytes);
    }
    if handshake_timeout_ns == 0 {
        return Err(ConfigError::ZeroHandshakeTimeout);
    }
    Ok(())
}

impl TcpIngestConfig {
    /// Refuses a configuration that could never work, before anything is done.
    pub fn validate(&self) -> (r: Result<(), ConfigError>)
        ensures
            r == match limits_fault(self.max_frame_bytes, self.handshake_timeout_ns) {
                Some(e) => Err::<(), ConfigError>(e),
                None => Ok(()),
            },
    {
        check_limits(self.max_frame_bytes, self.handshake_timeout_ns)
    }
}

impl Default for TcpIngestConfig {
    /// Plain TCP on the local host.
    fn default() -> (r: Self)
        ensures
            r.bind_addr@ == "127.0.0.1:8463"@,
            r.max_frame_bytes == DEFAULT_MAX_FRAME_BYTES,
            r.handshake_timeout_ns == DEFAULT_HANDSHAKE_TIMEOUT_NS,
            r.tls is None,
    {
        TcpIngestConfig {
            bind_addr: "127.0.0.1:8463".to_owned(),
            max_frame_bytes: DEFAULT_MAX_FRAME_BYTES,
            handshake_timeout_ns: DEFAULT_HANDSHAKE_TIMEOUT_NS,
            tls: None,
        }
    }
}

impl UnixSocketIngestConfig {
    /// Refuses a configuration that could never work, before anything is done.
    pub fn validate(&self) -> (r: Result<(), ConfigError>)
        ensures
            r == match limits_fault(self.max_frame_bytes, self.handshake_timeout_ns) {
                Some(e) => Err::<(), ConfigError>(e),
                None => Ok(()),
            },
    {
        check_limits(self.max_frame_bytes, self.handshake_timeout_ns)
    }
}

impl Default for UnixSocketIngestConfig {
    /// A socket under `/var/run` that is not taken over from anyone.
    fn default() -> (r: Self)
        ensures
            r.socket_path@ == "/var/run/otk-node.sock"@,
            r.max_frame_bytes == DEFAULT_MAX_FRAME_BYTES,
            r.handshake_timeout_ns == DEFAULT_HANDSHAKE_TIMEOUT_NS,
            r.socket_permissions is None,
            !r.force_rebind,
    {
        UnixSocketIngestConfig {
            socket_path: "/var/run/otk-node.sock".to_owned(),
            max_frame_bytes: DEFAULT_MAX_FRAME_BYTES,
            handshake_timeout_ns: DEFAULT_HANDSHAKE_TIMEOUT_NS,
            socket_permissions: None,
            force_rebind: false,
        }
    }
}

} // verus!
