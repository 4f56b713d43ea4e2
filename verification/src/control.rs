//! Control channels: how a client gets one, and what is sent on it.

use rand::RngCore as _;
use vstd::prelude::*;
use vstd::string::StringExecFns;
use vstd::utf8::encode_utf8;

use crate::config::RelayTunnelConfig;
use crate::config::TunnelConfigModel;
use crate::maps::distinct_sessions;
use crate::maps::has_session;
use crate::maps::ControlChannelMap;
use crate::protocol::digest_eq;
use crate::protocol::sha256;
use crate::protocol::Ack;
use crate::protocol::Auth;
use crate::protocol::ControlChannelCmd;
use crate::protocol::Digest;
use crate::protocol::Hello;
use crate::protocol::CURRENT_PROTO_VERSION;
use crate::protocol::HASH_WIDTH_IN_BYTES;
use crate::registry::is_registry_of;
use crate::registry::last_tunnel_has_the_digest;
use crate::registry::nothing_else_is_registered;
use crate::registry::registered_tunnel_is_as_configured;
use crate::registry::registry_of;
use crate::registry::tunnel_digest;
use crate::registry::RegistryModel;
use crate::registry::RelayRegistry;
use crate::registry::RelayTunnelRuntime;
use crate::registry::TunnelModel;
use crate::token::hex_encode;
use crate::token::hex_text;
use crate::token::response_for_token_hash;
use crate::token::token_and_hash_give_one_response;
use crate::token::token_hash_response;
use crate::token::token_hash_text;
use crate::token::token_hash_text_round_trips;
use crate::token::token_response;

verus! {

/// What a client that has said hello wants.
#[derive(Clone, Copy, Debug, PartialEq, Eq)]
pub enum ControlRequest {
    /// A control channel for a service.
    ControlChannel { service_digest: Digest },
    /// To lend the connection to a session.
    DataChannel { session_key: Digest },
}

/// Reads what a client wants from its hello.
pub fn control_request(hello: Hello) -> (request: ControlRequest)
    ensures
        request == match hello {
            Hello::ControlChannelHello(_, service_digest) => ControlRequest::ControlChannel {
                service_digest,
            },
            Hello::DataChannelHello(_, session_key) => ControlRequest::DataChannel { session_key },
        },
{
    match hello {
        Hello::ControlChannelHello(_, service_digest) => ControlRequest::ControlChannel {
            service_digest,
        },
        Hello::DataChannelHello(_, session_key) => ControlRequest::DataChannel { session_key },
    }
}

/// Why a client gets no control channel.
#[derive(Debug)]
pub enum HandshakeRefusal {
    /// No tunnel has the digest that the client named.
    UnknownService { service_digest: Digest },
    /// The response of the client is not that of one that knows the token.
    AuthFailed { tunnel: String },
}

/// What a `HandshakeRefusal` holds.
#[verifier::ext_equal]
pub enum HandshakeRefusalModel {
    UnknownService { service_digest: Digest },
    AuthFailed { tunnel: Seq<char> },
}

impl View for HandshakeRefusal {
    type V = HandshakeRefusalModel;

    open spec fn view(&self) -> HandshakeRefusalModel {
        match self {
            HandshakeRefusal::UnknownService { service_digest } => {
                HandshakeRefusalModel::UnknownService { service_digest: *service_digest }
            },
            HandshakeRefusal::AuthFailed { tunnel } => HandshakeRefusalModel::AuthFailed {
                tunnel: tunnel@,
            },
        }
    }
}

impl HandshakeRefusalModel {
    /// What the client is told.
    pub open spec fn ack(self) -> Ack {
        match self {
            HandshakeRefusalModel::UnknownService { .. } => Ack::ServiceNotExist,
            HandshakeRefusalModel::AuthFailed { .. } => Ack::AuthFailed,
        }
    }

    /// The text of the error.
    pub open spec fn text(self) -> Seq<char> {
        match self {
            HandshakeRefusalModel::UnknownService { service_digest } =>
            "No relay tunnel for service digest "@ + hex_text(service_digest@),
            HandshakeRefusalModel::AuthFailed { tunnel } => "relay tunnel `"@ + tunnel
                + "` failed authentication"@,
        }
    }
}

impl HandshakeRefusal {
    /// What the client is told.
    pub fn ack(&self) -> (ack: Ack)
        ensures
            ack == self@.ack(),
            ack == match *self {
                HandshakeRefusal::UnknownService { .. } => Ack::ServiceNotExist,
                HandshakeRefusal::AuthFailed { .. } => Ack::AuthFailed,
            },
    {
        match self {
            HandshakeRefusal::UnknownService { .. } => Ack::ServiceNotExist,
            HandshakeRefusal::AuthFailed { .. } => Ack::AuthFailed,
        }
    }

    /// Describes the error.
    pub fn message(&self) -> (text: String)
        ensures
            text@ == self@.text(),
            text@ == match *self {
                HandshakeRefusal::UnknownService { service_digest } =>
                "No relay tunnel for service digest "@ + hex_text(service_digest@),
                HandshakeRefusal::AuthFailed { tunnel } => "relay tunnel `"@ + tunnel@
                    + "` failed authentication"@,
            },
    {
        match self {
            HandshakeRefusal::UnknownService { service_digest } => {
                let mut text = String::from_str("No relay tunnel for service digest ");
                text.append(hex_encode(service_digest).as_str());
                text
            },
            HandshakeRefusal::AuthFailed { tunnel } => {
                let mut text = String::from_str("relay tunnel `");
                text.append(tunnel.as_str());
                text.append("` failed authentication");
                text
            },
        }
    }
}

/// `rand::thread_rng`, with which a nonce is filled. Nothing is said of the
/// nonce: it differs from call to call.
#[verifier::external_body]
fn random_nonce() -> (nonce: Digest) {
    let mut nonce: Digest = [0u8; HASH_WIDTH_IN_BYTES];
    rand::thread_rng().fill_bytes(&mut nonce);
    nonce
}

/// A client that asks for the control channel of a service, and has to be sent
/// a nonce.
#[derive(Clone, Copy, Debug)]
pub struct ControlHandshake {
    service_digest: Digest,
    nonce: Digest,
}

/// A client that asks for the control channel of a known tunnel and has to
/// respond to the nonce.
pub struct PendingAuth<'a> {
    service_digest: Digest,
    nonce: Digest,
    tunnel: &'a RelayTunnelRuntime,
}

/// A client that has given the right response. The control channel that its
/// service had so far has to be dropped.
pub struct Admitted<'a> {
    service_digest: Digest,
    session_key: Digest,
    tunnel: &'a RelayTunnelRuntime,
}

/// A client that has to be told that it was accepted, and whose control channel
/// is then to be registered.
pub struct Registration<'a> {
    service_digest: Digest,
    session_key: Digest,
    tunnel: &'a RelayTunnelRuntime,
}

/// The tunnel with the digest that a client named.
pub open spec fn announced_tunnel(registry: RegistryModel, service_digest: Digest) -> Result<
    TunnelModel,
    HandshakeRefusalModel,
> {
    if registry.by_digest.contains_key(service_digest) {
        Ok(registry.by_digest[service_digest])
    } else {
        Err(HandshakeRefusalModel::UnknownService { service_digest })
    }
}

/// The key of the session with a client that gave `response` to `nonce`: the
/// response itself, if it is that of a client that knows the token.
pub open spec fn session_key(tunnel: TunnelModel, nonce: Digest, response: Digest) -> Result<
    Digest,
    HandshakeRefusalModel,
> {
    if response == token_hash_response(tunnel.token_hash, nonce@) {
        Ok(response)
    } else {
        Err(HandshakeRefusalModel::AuthFailed { tunnel: tunnel.id })
    }
}

impl ControlHandshake {
    /// The digest that the client named.
    pub closed spec fn service(&self) -> Digest {
        self.service_digest
    }

    /// What the client has to respond to.
    pub closed spec fn challenge(&self) -> Digest {
        self.nonce
    }

    /// Begins a handshake with a nonce that is drawn for it.
    pub fn begin(service_digest: Digest) -> (handshake: Self)
        ensures
            handshake.service() == service_digest,
    {
        ControlHandshake::with_nonce(service_digest, random_nonce())
    }

    /// Begins a handshake with the given nonce.
    pub fn with_nonce(service_digest: Digest, nonce: Digest) -> (handshake: Self)
        ensures
            handshake.service() == service_digest,
            handshake.challenge() == nonce,
    {
        ControlHandshake { service_digest, nonce }
    }

    /// The hello that hands the nonce to the client.
    pub fn hello(&self) -> (hello: Hello)
        ensures
            hello == Hello::ControlChannelHello(CURRENT_PROTO_VERSION, self.challenge()),
    {
        Hello::ControlChannelHello(CURRENT_PROTO_VERSION, self.nonce)
    }

    /// Goes on once the hello is sent, with the tunnel that the client asks for.
    pub fn greeted<'a>(self, registry: &'a RelayRegistry) -> (pending: Result<
        PendingAuth<'a>,
        HandshakeRefusal,
    >)
        requires
            registry.wf(),
        ensures
            match announced_tunnel(registry@, self.service()) {
                Ok(tunnel) => pending matches Ok(pending) && pending.tunnel_model() == tunnel
                    && pending.service() == self.service() && pending.challenge()
                    == self.challenge(),
                Err(refusal) => pending matches Err(e) && e@ == refusal,
            },
            if registry.by_digest@.contains_key(self.service()) {
                pending matches Ok(pending) && pending.tunnel_model()
                    == registry.by_digest@[self.service()]@ && pending.service() == self.service()
                    && pending.challenge() == self.challenge()
            } else {
                pending matches Err(HandshakeRefusal::UnknownService { service_digest })
                    && service_digest == self.service()
            },
    {
        match registry.by_digest.get(&self.service_digest) {
            Some(tunnel) => Ok(
                PendingAuth { service_digest: self.service_digest, nonce: self.nonce, tunnel },
            ),
            None => Err(HandshakeRefusal::UnknownService { service_digest: self.service_digest }),
        }
    }
}

impl<'a> PendingAuth<'a> {
    /// The digest that the client named.
    pub closed spec fn service(&self) -> Digest {
        self.service_digest
    }

    /// What the client has to respond to.
    pub closed spec fn challenge(&self) -> Digest {
        self.nonce
    }

    /// The tunnel that the client asks for.
    pub closed spec fn tunnel_model(&self) -> TunnelModel {
        self.tunnel@
    }

    /// Goes on with the response of the client, which becomes the key of the session.
    pub fn authenticate(self, auth: &Auth) -> (admitted: Result<Admitted<'a>, HandshakeRefusal>)
        ensures
            match session_key(self.tunnel_model(), self.challenge(), auth.0) {
                Ok(key) => admitted matches Ok(admitted) && admitted.key() == key
                    && admitted.service() == self.service() && admitted.tunnel_model()
                    == self.tunnel_model(),
                Err(refusal) => admitted matches Err(e) && e@ == refusal,
            },
            admitted is Ok <==> auth.0 == sha256(
                self.tunnel_model().token_hash + self.challenge()@,
            ),
            admitted matches Ok(admitted) ==> admitted.key() == auth.0,
            admitted is Err ==> (admitted matches Err(HandshakeRefusal::AuthFailed { tunnel })
                && tunnel@ == self.tunnel_model().id),
    {
        let expected = response_for_token_hash(&self.tunnel.token_hash, &self.nonce);
        if digest_eq(&auth.0, &expected) {
            Ok(
                Admitted {
                    service_digest: self.service_digest,
                    session_key: expected,
                    tunnel: self.tunnel,
                },
            )
        } else {
            Err(HandshakeRefusal::AuthFailed { tunnel: self.tunnel.id.clone() })
        }
    }
}

impl<'a> Admitted<'a> {
    /// The digest of the service.
    pub closed spec fn service(&self) -> Digest {
        self.service_digest
    }

    /// The key of the session.
    pub closed spec fn key(&self) -> Digest {
        self.session_key
    }

    /// The tunnel of the service.
    pub closed spec fn tunnel_model(&self) -> TunnelModel {
        self.tunnel@
    }

    /// Drops the control channel that the service had; says whether there was one.
    pub fn displace<V>(self, channels: &mut ControlChannelMap<V>) -> (next: (Registration<'a>, bool))
        requires
            old(channels).wf(),
        ensures
            final(channels).wf(),
            final(channels)@ == old(channels)@.remove(self.service()),
            next.0.service() == self.service(),
            next.0.key() == self.key(),
            next.0.tunnel_model() == self.tunnel_model(),
            next.1 == old(channels)@.contains_key(self.service()),
    {
        let displaced = channels.remove1(&self.service_digest).is_some();
        let registration = Registration {
            service_digest: self.service_digest,
            session_key: self.session_key,
            tunnel: self.tunnel,
        };
        (registration, displaced)
    }
}

impl<'a> Registration<'a> {
    /// The digest of the service.
    pub closed spec fn service(&self) -> Digest {
        self.service_digest
    }

    /// The key of the session.
    pub closed spec fn key(&self) -> Digest {
        self.session_key
    }

    /// The tunnel of the service.
    pub closed spec fn tunnel_model(&self) -> TunnelModel {
        self.tunnel@
    }

    /// What the client is told.
    pub fn ack(&self) -> (ack: Ack)
        ensures
            ack == Ack::Accepted,
    {
        Ack::Accepted
    }

    /// The tunnel of the service.
    pub fn tunnel(&self) -> (tunnel: &'a RelayTunnelRuntime)
        ensures
            tunnel@ == self.tunnel_model(),
    {
        self.tunnel
    }

    /// Registers the control channel, once the client is told. It is dropped when
    /// the service has one again or another service has the session key.
    pub fn establish<V>(self, channels: &mut ControlChannelMap<V>, channel: V) -> (established: bool)
        requires
            old(channels).wf(),
        ensures
            final(channels).wf(),
            established == (!old(channels)@.contains_key(self.service()) && forall|other: Digest|
                !#[trigger] has_session(old(channels)@, other, self.key())),
            established == (!old(channels)@.contains_key(self.service()) && forall|other: Digest|
                old(channels)@.contains_key(other) ==> (#[trigger] old(channels)@[other]).0
                    != self.key()),
            final(channels)@ == if established {
                old(channels)@.insert(self.service(), (self.key(), channel))
            } else {
                old(channels)@
            },
    {
        channels.insert(self.service_digest, self.session_key, channel).is_ok()
    }
}

/// What happens around a control channel.
#[derive(Clone, Copy, Debug, PartialEq, Eq, Structural)]
pub enum ControlEvent {
    /// A data channel is wanted.
    DataChannelWanted,
    /// No data channel will be wanted any more.
    NoMoreWanted,
    /// The heartbeat interval has passed.
    HeartbeatDue,
    /// The control channel was replaced, or the relay stops.
    Shutdown,
}

/// What is done about it.
#[derive(Clone, Copy, Debug, PartialEq, Eq, Structural)]
pub enum ControlAction {
    Send(ControlChannelCmd),
    Stop,
}

/// What is done about an event on a control channel.
pub open spec fn action_on(event: ControlEvent) -> ControlAction {
    match event {
        ControlEvent::DataChannelWanted => ControlAction::Send(ControlChannelCmd::CreateDataChannel),
        ControlEvent::HeartbeatDue => ControlAction::Send(ControlChannelCmd::HeartBeat),
        ControlEvent::NoMoreWanted | ControlEvent::Shutdown => ControlAction::Stop,
    }
}

/// Decides what is done about an event on a control channel.
pub fn control_action(event: ControlEvent) -> (action: ControlAction)
    ensures
        action == action_on(event),
        event is DataChannelWanted <==> action == ControlAction::Send(
            ControlChannelCmd::CreateDataChannel,
        ),
        event is HeartbeatDue <==> action == ControlAction::Send(ControlChannelCmd::HeartBeat),
        event is NoMoreWanted || event is Shutdown <==> action is Stop,
{
    match event {
        ControlEvent::DataChannelWanted => ControlAction::Send(ControlChannelCmd::CreateDataChannel),
        ControlEvent::HeartbeatDue => ControlAction::Send(ControlChannelCmd::HeartBeat),
        ControlEvent::NoMoreWanted => ControlAction::Stop,
        ControlEvent::Shutdown => ControlAction::Stop,
    }
}

/// Whether heartbeats are sent at all; an interval of zero turns them off.
pub fn heartbeat_enabled(heartbeat_interval: u64) -> (enabled: bool)
    ensures
        enabled == (heartbeat_interval != 0),
{
    heartbeat_interval != 0
}

/// What is said when a command cannot be sent.
pub fn send_failure(command: ControlChannelCmd) -> (text: &'static str)
    ensures
        text@ == match command {
            ControlChannelCmd::CreateDataChannel => "failed to request relay data channel"@,
            ControlChannelCmd::HeartBeat => "failed to write relay heartbeat"@,
        },
{
    match command {
        ControlChannelCmd::CreateDataChannel => "failed to request relay data channel",
        ControlChannelCmd::HeartBeat => "failed to write relay heartbeat",
    }
}

/// A client that knows the token of a configured tunnel gets a session, whose
/// key is its response, whatever the nonce; the tunnel is the last one with its
/// name.
pub proof fn token_holder_gets_a_session(
    tunnels: Seq<TunnelConfigModel>,
    index: int,
    token: Seq<char>,
    nonce: Digest,
)
    requires
        registry_of(tunnels) is Ok,
        0 <= index < tunnels.len(),
        forall|i: int|
            index < i < tunnels.len() ==> tunnel_digest(#[trigger] tunnels[i]) != tunnel_digest(
                tunnels[index],
            ),
        tunnels[index].token_hash == token_hash_text(sha256(encode_utf8(token))@),
    ensures
        announced_tunnel(registry_of(tunnels)->Ok_0, tunnel_digest(tunnels[index])) matches Ok(
            tunnel,
        ) && tunnel.id == tunnels[index].id && session_key(
            tunnel,
            nonce,
            token_response(token, nonce@),
        ) == Ok::<Digest, HandshakeRefusalModel>(token_response(token, nonce@)),
{
    last_tunnel_has_the_digest(tunnels, index);
    token_and_hash_give_one_response(token, nonce@);
}

/// A new control channel takes the place of the one that its service had: it
/// alone is found under the service and under its session key, the key of the
/// old session leads nowhere, and the other services keep theirs.
pub proof fn new_channel_replaces_the_old<V>(
    channels: Map<Digest, (Digest, V)>,
    service: Digest,
    key: Digest,
    channel: V,
)
    requires
        distinct_sessions(channels),
        forall|other: Digest| other != service ==> !#[trigger] has_session(channels, other, key),
    ensures
        ({
            let after = channels.remove(service).insert(service, (key, channel));
            &&& distinct_sessions(after)
            &&& forall|other: Digest| #[trigger] has_session(after, other, key) <==> other == service
            &&& channels.contains_key(service) && channels[service].0 != key ==> forall|
                other: Digest,
            | !#[trigger] has_session(after, other, channels[service].0)
            &&& forall|other: Digest|
                other != service ==> #[trigger] after.contains_key(other) == channels.contains_key(
                    other,
                ) && after[other] == channels[other]
        }),
{
    let after = channels.remove(service).insert(service, (key, channel));
    assert forall|a: Digest, b: Digest|
        after.contains_key(a) && after.contains_key(b) && (#[trigger] after[a]).0 == (
        #[trigger] after[b]).0 implies a == b by {
        if a == service && b != service {
            assert(!has_session(channels, b, key));
        } else if b == service && a != service {
            assert(!has_session(channels, a, key));
        } else if a != service && b != service {
            assert(channels[a].0 == channels[b].0);
        }
    }
    assert forall|other: Digest| #[trigger] has_session(after, other, key) <==> other
        == service by {
        if other != service {
            assert(!has_session(channels, other, key));
        }
    }
    if channels.contains_key(service) && channels[service].0 != key {
        assert forall|other: Digest| !#[trigger] has_session(after, other, channels[service].0) by {
            if other != service && has_session(after, other, channels[service].0) {
                assert(channels[other].0 == channels[service].0);
            }
        }
    }
}

/// A client gets a session if and only if its response is the digest of the token
/// hash of the tunnel with the nonce behind it, and that is the key of the session;
/// any other response is refused in the name of the tunnel.
pub proof fn response_decides_the_session(tunnel: TunnelModel, nonce: Digest, response: Digest)
    ensures
        session_key(tunnel, nonce, response) is Ok <==> response == sha256(
            tunnel.token_hash + nonce@,
        ),
        match session_key(tunnel, nonce, response) {
            Ok(key) => key == response,
            Err(refusal) => refusal == (HandshakeRefusalModel::AuthFailed { tunnel: tunnel.id }),
        },
{
}

/// A client of a configured tunnel, the last with its name, gets a session if and
/// only if it sends the digest of the configured token hash and the nonce; for a
/// token that is the digest of the token's digest and the nonce.
pub proof fn configured_token_decides_the_session(
    tunnels: Seq<RelayTunnelConfig>,
    registry: RelayRegistry,
    index: int,
    token: Seq<char>,
    nonce: Digest,
    response: Digest,
)
    requires
        is_registry_of(registry, tunnels),
        0 <= index < tunnels.len(),
        forall|i: int|
            index < i < tunnels.len() ==> sha256(encode_utf8(#[trigger] tunnels[i].id@)) != sha256(
                encode_utf8(tunnels[index].id@),
            ),
        tunnels[index].token_hash@ == "sha256:"@ + hex_text(sha256(encode_utf8(token))@),
    ensures
        announced_tunnel(registry@, sha256(encode_utf8(tunnels[index].id@))) matches Ok(tunnel) && (
        session_key(tunnel, nonce, response) is Ok <==> response == sha256(
            sha256(encode_utf8(token))@ + nonce@,
        )),
{
    registered_tunnel_is_as_configured(tunnels, registry, index);
    token_hash_text_round_trips(sha256(encode_utf8(token)));
    let digest = sha256(encode_utf8(tunnels[index].id@));
    assert(registry@.by_digest[digest] == registry.by_digest@[digest]@);
}

/// A client that names a digest that no tunnel has is refused with that digest.
pub proof fn unknown_digest_is_refused(
    tunnels: Seq<RelayTunnelConfig>,
    registry: RelayRegistry,
    service_digest: Digest,
)
    requires
        is_registry_of(registry, tunnels),
        forall|i: int|
            0 <= i < tunnels.len() ==> sha256(encode_utf8(#[trigger] tunnels[i].id@))
                != service_digest,
    ensures
        announced_tunnel(registry@, service_digest) == Err::<TunnelModel, HandshakeRefusalModel>(
            HandshakeRefusalModel::UnknownService { service_digest },
        ),
{
    nothing_else_is_registered(tunnels, registry, Seq::empty(), service_digest);
    assert(registry@.by_digest.contains_key(service_digest)
        == registry.by_digest@.contains_key(service_digest));
}

} // verus!
