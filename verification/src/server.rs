//! The relay as a whole: what it starts with and what it does about what happens.

use vstd::prelude::*;

use crate::config::RelayConfig;
use crate::maps::ControlChannelMap;
use crate::protocol::Digest;
use crate::registry::registry_of;
use crate::registry::tunnel_models;
use crate::registry::RegistryError;
use crate::registry::RelayRegistry;

verus! {

/// How many seconds a client has to set up the transport of its connection.
pub const HANDSHAKE_TIMEOUT: u64 = 5;

/// How many milliseconds at most pass between attempts to accept a client.
pub const MAX_ACCEPT_DELAY: u64 = 100;

/// A relay: its configuration, its tunnels and the control channels it has.
pub struct RelayServer<V> {
    pub config: RelayConfig,
    pub registry: RelayRegistry,
    pub control_channels: ControlChannelMap<V>,
}

impl<V> RelayServer<V> {
    /// A relay for the configured tunnels, none of them connected yet.
    pub fn from_config(config: RelayConfig) -> (server: Result<Self, RegistryError>)
        ensures
            match registry_of(tunnel_models(config.tunnels@)) {
                Ok(model) => server matches Ok(server) && server.config == config
                    && server.registry.wf() && server.registry@ == model
                    && server.control_channels.wf() && server.control_channels@ == Map::<
                    Digest,
                    (Digest, V),
                >::empty(),
                Err(error) => server matches Err(e) && e@ == error,
            },
    {
        match RelayRegistry::from_tunnels(config.tunnels.as_slice()) {
            Ok(registry) => Ok(
                RelayServer { config, registry, control_channels: ControlChannelMap::new() },
            ),
            Err(error) => Err(error),
        }
    }
}

/// What happens to a relay.
#[derive(Clone, Copy, Debug, PartialEq, Eq, Structural)]
pub enum ServerEvent {
    /// A client has connected.
    ClientAccepted,
    /// No client could be accepted; whether a delay before the next attempt is set.
    ClientFailed { delayed: bool },
    /// A visitor has connected.
    VisitorAccepted,
    /// No visitor could be accepted.
    VisitorFailed,
    /// The relay is to stop.
    Shutdown,
    /// The configuration has changed.
    Update,
    /// No more changes of the configuration will be announced.
    NoMoreUpdates,
}

/// What a relay does about it.
#[derive(Clone, Copy, Debug, PartialEq, Eq, Structural)]
pub enum ServerAction {
    /// Forget earlier failures and serve the client.
    ServeClient,
    /// Say what failed and wait for the delay to pass.
    Pause,
    /// Serve the visitor.
    ServeVisitor,
    /// Say what failed and go on.
    Report,
    /// Say that a restart is needed and go on.
    IgnoreUpdate,
    /// Go on.
    Continue,
    /// Stop.
    Stop,
}

/// What a relay does about an event.
pub open spec fn reaction(event: ServerEvent) -> ServerAction {
    match event {
        ServerEvent::ClientAccepted => ServerAction::ServeClient,
        ServerEvent::ClientFailed { delayed } => if delayed {
            ServerAction::Pause
        } else {
            ServerAction::Continue
        },
        ServerEvent::VisitorAccepted => ServerAction::ServeVisitor,
        ServerEvent::VisitorFailed => ServerAction::Report,
        ServerEvent::Shutdown => ServerAction::Stop,
        ServerEvent::Update => ServerAction::IgnoreUpdate,
        ServerEvent::NoMoreUpdates => ServerAction::Continue,
    }
}

/// Decides what the relay does about an event. It goes on after every event but
/// a shutdown.
pub fn server_action(event: ServerEvent) -> (action: ServerAction)
    ensures
        action == reaction(event),
        action is Stop <==> event is Shutdown,
{
    match event {
        ServerEvent::ClientAccepted => ServerAction::ServeClient,
        ServerEvent::ClientFailed { delayed } => if delayed {
            ServerAction::Pause
        } else {
            ServerAction::Continue
        },
        ServerEvent::VisitorAccepted => ServerAction::ServeVisitor,
        ServerEvent::VisitorFailed => ServerAction::Report,
        ServerEvent::Shutdown => ServerAction::Stop,
        ServerEvent::Update => ServerAction::IgnoreUpdate,
        ServerEvent::NoMoreUpdates => ServerAction::Continue,
    }
}

/// A client has five seconds to set up its transport, and a tenth of one at most
/// passes before the next attempt to accept a client.
pub proof fn waits_are_short()
    ensures
        HANDSHAKE_TIMEOUT == 5,
        10 * MAX_ACCEPT_DELAY == 1000,
{
}

} // verus!
