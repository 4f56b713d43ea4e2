//! The configuration of the relay.

use vstd::prelude::*;

verus! {

/// How control channels are carried.
#[derive(Clone, Copy, Debug, PartialEq, Eq, Structural)]
pub enum TransportType {
    Tcp,
    Tls,
    Noise,
    Websocket,
}

/// The transport of control channels.
#[derive(Clone, Copy, Debug, PartialEq, Eq, Structural)]
pub struct TransportConfig {
    pub transport_type: TransportType,
}

/// What a service carries.
#[derive(Clone, Copy, Debug, PartialEq, Eq, Structural)]
pub enum ServiceType {
    Tcp,
    Udp,
}

/// A service as the server side of a tunnel sees it.
#[derive(Clone, Debug)]
pub struct ServerServiceConfig {
    pub service_type: ServiceType,
    pub name: String,
    pub bind_addr: String,
    pub token: Option<String>,
    pub nodelay: Option<bool>,
}

/// What a `ServerServiceConfig` holds.
pub struct ServiceModel {
    pub service_type: ServiceType,
    pub name: Seq<char>,
    pub bind_addr: Seq<char>,
    pub token: Option<Seq<char>>,
    pub nodelay: Option<bool>,
}

impl View for ServerServiceConfig {
    type V = ServiceModel;

    open spec fn view(&self) -> ServiceModel {
        ServiceModel {
            service_type: self.service_type,
            name: self.name@,
            bind_addr: self.bind_addr@,
            token: match self.token {
                Some(token) => Some(token@),
                None => None,
            },
            nodelay: self.nodelay,
        }
    }
}

/// A tunnel: the public address it is reached at and the hash of its token.
#[derive(Clone, Debug)]
pub struct RelayTunnelConfig {
    pub id: String,
    /// The public address, as the text of an absolute URL.
    pub url: String,
    pub token_hash: String,
    pub nodelay: Option<bool>,
}

/// What a `RelayTunnelConfig` holds.
pub struct TunnelConfigModel {
    pub id: Seq<char>,
    pub url: Seq<char>,
    pub token_hash: Seq<char>,
    pub nodelay: Option<bool>,
}

impl View for RelayTunnelConfig {
    type V = TunnelConfigModel;

    open spec fn view(&self) -> TunnelConfigModel {
        TunnelConfigModel {
            id: self.id@,
            url: self.url@,
            token_hash: self.token_hash@,
            nodelay: self.nodelay,
        }
    }
}

/// The `[relay]` block.
#[derive(Clone, Debug)]
pub struct RelayConfig {
    /// Where clients connect to.
    pub control_addr: String,
    /// Where visitors connect to.
    pub ingress_addr: String,
    pub transport: TransportConfig,
    /// Seconds between heartbeats on a control channel; zero for none.
    pub heartbeat_interval: u64,
    /// How many bytes of a request may be read without its header coming to an end.
    pub max_header_bytes: usize,
    pub tunnels: Vec<RelayTunnelConfig>,
}

/// A configuration file.
#[derive(Clone, Debug)]
pub struct Config {
    pub relay: Option<RelayConfig>,
}

/// Why a configuration does not describe a relay.
#[derive(Clone, Copy, Debug, PartialEq, Eq, Structural)]
pub enum ConfigError {
    /// There is no `[relay]` block.
    MissingRelay,
    /// The transport is not raw TCP.
    UnsupportedTransport,
}

impl ConfigError {
    /// The text of the error.
    pub open spec fn text(self) -> Seq<char> {
        match self {
            ConfigError::MissingRelay =>
            "Try to run as a relay, but the configuration is missing. Please add the `[relay]` block"@,
            ConfigError::UnsupportedTransport => "relay supports raw tcp transport only"@,
        }
    }

    /// Describes the error.
    pub fn message(&self) -> (text: &'static str)
        ensures
            text@ == self.text(),
    {
        match self {
            ConfigError::MissingRelay =>
            "Try to run as a relay, but the configuration is missing. Please add the `[relay]` block",
            ConfigError::UnsupportedTransport => "relay supports raw tcp transport only",
        }
    }
}

/// Picks the relay out of a configuration.
pub fn relay_config(config: Config) -> (relay: Result<RelayConfig, ConfigError>)
    ensures
        relay == match config.relay {
            None => Err::<RelayConfig, ConfigError>(ConfigError::MissingRelay),
            Some(relay) => if relay.transport.transport_type == TransportType::Tcp {
                Ok(relay)
            } else {
                Err(ConfigError::UnsupportedTransport)
            },
        },
{
    match config.relay {
        None => Err(ConfigError::MissingRelay),
        Some(relay) => match relay.transport.transport_type {
            TransportType::Tcp => Ok(relay),
            _ => Err(ConfigError::UnsupportedTransport),
        },
    }
}

} // verus!
