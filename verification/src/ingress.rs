//! Visitors: reading the header of their request, routing it to a tunnel by the
//! host it asks for, and answering it when it cannot be served.

use vstd::prelude::*;
use vstd::string::StringExecFns;
use vstd::utf8::encode_utf8;
use vstd::utf8::encode_utf8_decode_utf8;
use vstd::utf8::encode_utf8_valid_utf8;

use crate::config::RelayTunnelConfig;
use crate::config::TunnelConfigModel;
use crate::data_channel::OpenError;
use crate::data_channel::OpenErrorModel;
use crate::host::all_digits;
use crate::host::final_dot_does_not_matter;
use crate::host::host_is_its_name;
use crate::host::is_dots;
use crate::host::is_plain;
use crate::host::is_port;
use crate::host::plain_name_is_kept;
use crate::host::port_does_not_matter;
use crate::http::error_response;
use crate::http::extract_http_host;
use crate::http::find_header_end_from;
use crate::http::first_host_field;
use crate::http::first_host_field_is_asked_for;
use crate::http::first_terminator;
use crate::http::header_end;
use crate::http::header_end_is_stable;
use crate::http::header_is_read_as_written;
use crate::http::header_text;
use crate::http::host_depends_on_header_alone;
use crate::http::http_error_response;
use crate::http::http_host;
use crate::http::is_header_line;
use crate::http::is_host_line;
use crate::http::lemma_header_end;
use crate::http::rescan_finds_header_end;
use crate::http::terminator_at;
use crate::http::trimmed_bytes;
use crate::maps::ControlChannelMap;
use crate::protocol::sha256;
use crate::protocol::Digest;
use crate::registry::hosts_are_those_of_the_tunnels;
use crate::registry::is_registry_of;
use crate::registry::last_tunnel_has_the_host;
use crate::registry::registry_of;
use crate::registry::tunnel_digest;
use crate::registry::tunnel_host;
use crate::registry::url_host;
use crate::registry::url_host_leads_to_its_tunnel;
use crate::registry::RegistryModel;
use crate::registry::RelayRegistry;
use crate::text::lowercase;
use crate::text::text_is_read_as_written;

verus! {

/// Why no request could be read from a visitor.
#[derive(Clone, Copy, Debug, PartialEq, Eq, Structural)]
pub enum IngressReadError {
    /// More bytes than allowed came without an end of the header.
    HeaderTooLarge,
    /// The visitor left before the header came to its end.
    Closed,
}

impl IngressReadError {
    /// The text of the error.
    pub open spec fn text(self) -> Seq<char> {
        match self {
            IngressReadError::HeaderTooLarge => "ingress request header too large"@,
            IngressReadError::Closed => "ingress connection closed before headers"@,
        }
    }

    /// Describes the error.
    pub fn message(&self) -> (text: &'static str)
        ensures
            text@ == self.text(),
            text@ == match *self {
                IngressReadError::HeaderTooLarge => "ingress request header too large"@,
                IngressReadError::Closed => "ingress connection closed before headers"@,
            },
    {
        match self {
            IngressReadError::HeaderTooLarge => "ingress request header too large",
            IngressReadError::Closed => "ingress connection closed before headers",
        }
    }

    /// The refusal with which the visitor is answered; one that left gets no answer.
    pub fn refusal(&self) -> (refusal: Option<IngressRefusal>)
        ensures
            match self {
                IngressReadError::HeaderTooLarge => refusal matches Some(refusal) && refusal@
                    == RefusalModel::HeaderTooLarge,
                IngressReadError::Closed => refusal is None,
            },
            *self is HeaderTooLarge <==> refusal is Some,
            refusal matches Some(refusal) ==> refusal is HeaderTooLarge,
    {
        match self {
            IngressReadError::HeaderTooLarge => Some(IngressRefusal::HeaderTooLarge),
            IngressReadError::Closed => None,
        }
    }
}

/// The bytes of a request whose header has not come to its end yet.
pub struct PrefixReader {
    prefix: Vec<u8>,
    scan_from: usize,
    max_header_bytes: usize,
}

/// How far reading has come.
pub enum PrefixProgress {
    /// The header is complete: all bytes that were read, those behind it included.
    Complete(Vec<u8>),
    /// The header goes on.
    More(PrefixReader),
}

/// What comes of the bytes of a request.
#[verifier::ext_equal]
pub enum PrefixOutcome {
    Complete(Seq<u8>),
    More(Seq<u8>),
    Failed(IngressReadError),
}

/// What comes of reading `chunk` behind the bytes in `seen`; an empty chunk is
/// the end of the stream.
pub open spec fn read_outcome(seen: Seq<u8>, chunk: Seq<u8>, limit: usize) -> PrefixOutcome {
    if chunk.len() == 0 {
        PrefixOutcome::Failed(IngressReadError::Closed)
    } else if header_end(seen + chunk) is Some {
        PrefixOutcome::Complete(seen + chunk)
    } else if (seen + chunk).len() > limit {
        PrefixOutcome::Failed(IngressReadError::HeaderTooLarge)
    } else {
        PrefixOutcome::More(seen + chunk)
    }
}

/// What comes of reading `chunks` one by one behind the bytes in `seen`.
pub open spec fn read_all(seen: Seq<u8>, chunks: Seq<Seq<u8>>, limit: usize) -> PrefixOutcome
    decreases chunks.len(),
{
    if chunks.len() == 0 {
        PrefixOutcome::More(seen)
    } else {
        match read_outcome(seen, chunks.first(), limit) {
            PrefixOutcome::More(seen) => read_all(seen, chunks.drop_first(), limit),
            outcome => outcome,
        }
    }
}

impl PrefixReader {
    /// The bytes that were read.
    pub closed spec fn bytes(&self) -> Seq<u8> {
        self.prefix@
    }

    /// How many bytes may be read without an end of the header.
    pub closed spec fn limit(&self) -> usize {
        self.max_header_bytes
    }

    /// There is no end of a header in the bytes, and the next look at them
    /// starts early enough to find one that more bytes complete.
    pub closed spec fn wf(&self) -> bool {
        &&& header_end(self.prefix@) is None
        &&& self.scan_from == 0 || self.scan_from <= self.prefix@.len() - 3
    }

    /// Nothing read yet.
    pub fn new(max_header_bytes: usize) -> (reader: Self)
        ensures
            reader.wf(),
            reader.bytes() == Seq::<u8>::empty(),
            reader.limit() == max_header_bytes,
    {
        PrefixReader { prefix: Vec::with_capacity(1024), scan_from: 0, max_header_bytes }
    }

    /// Takes the bytes of one read; none are the end of the stream.
    pub fn feed(self, chunk: &[u8]) -> (progress: Result<PrefixProgress, IngressReadError>)
        requires
            self.wf(),
        ensures
            match read_outcome(self.bytes(), chunk@, self.limit()) {
                PrefixOutcome::Complete(bytes) => progress matches Ok(PrefixProgress::Complete(prefix))
                    && prefix@ == bytes,
                PrefixOutcome::More(bytes) => progress matches Ok(PrefixProgress::More(next))
                    && next.wf() && next.bytes() == bytes && next.limit() == self.limit(),
                PrefixOutcome::Failed(error) => progress matches Err(e) && e == error,
            },
            progress == Err::<PrefixProgress, IngressReadError>(IngressReadError::Closed)
                <==> chunk@.len() == 0,
            progress matches Ok(PrefixProgress::Complete(_)) <==> chunk@.len() > 0 && header_end(
                self.bytes() + chunk@,
            ) is Some,
            progress matches Ok(PrefixProgress::More(_)) <==> chunk@.len() > 0 && header_end(
                self.bytes() + chunk@,
            ) is None && self.bytes().len() + chunk@.len() <= self.limit(),
            progress matches Ok(PrefixProgress::Complete(prefix)) ==> prefix@ == self.bytes()
                + chunk@,
            progress matches Ok(PrefixProgress::More(next)) ==> next.bytes() == self.bytes()
                + chunk@,
    {
        if chunk.len() == 0 {
            return Err(IngressReadError::Closed);
        }
        let mut reader = self;
        reader.prefix.extend_from_slice(chunk);
        assert(reader.prefix@ == self.prefix@ + chunk@);
        proof {
            rescan_finds_header_end(self.prefix@, chunk@, self.scan_from as int);
        }
        if find_header_end_from(reader.prefix.as_slice(), reader.scan_from).is_some() {
            return Ok(PrefixProgress::Complete(reader.prefix));
        }
        reader.scan_from = reader.prefix.len().saturating_sub(3);
        if reader.prefix.len() > reader.max_header_bytes {
            return Err(IngressReadError::HeaderTooLarge);
        }
        Ok(PrefixProgress::More(reader))
    }
}

/// Why a request is not served.
#[derive(Debug)]
pub enum IngressRefusal {
    /// The header is too large.
    HeaderTooLarge,
    /// The request does not say which host it is for.
    MissingHost,
    /// No tunnel has the host.
    UnknownHost { host: String },
    /// The tunnel has no control channel.
    NotConnected { host: String },
    /// The client behind the tunnel lends no data channel.
    NoDataChannel { error: OpenError },
}

/// What an `IngressRefusal` holds.
#[verifier::ext_equal]
pub enum RefusalModel {
    HeaderTooLarge,
    MissingHost,
    UnknownHost { host: Seq<char> },
    NotConnected { host: Seq<char> },
    NoDataChannel { error: OpenErrorModel },
}

impl View for IngressRefusal {
    type V = RefusalModel;

    open spec fn view(&self) -> RefusalModel {
        match self {
            IngressRefusal::HeaderTooLarge => RefusalModel::HeaderTooLarge,
            IngressRefusal::MissingHost => RefusalModel::MissingHost,
            IngressRefusal::UnknownHost { host } => RefusalModel::UnknownHost { host: host@ },
            IngressRefusal::NotConnected { host } => RefusalModel::NotConnected { host: host@ },
            IngressRefusal::NoDataChannel { error } => RefusalModel::NoDataChannel { error: error@ },
        }
    }
}

impl RefusalModel {
    /// The status code of the answer.
    pub open spec fn status(self) -> u16 {
        match self {
            RefusalModel::HeaderTooLarge => 431,
            RefusalModel::MissingHost => 400,
            RefusalModel::UnknownHost { .. } => 404,
            RefusalModel::NotConnected { .. } => 503,
            RefusalModel::NoDataChannel { .. } => 502,
        }
    }

    /// The reason that stands behind the status code.
    pub open spec fn reason(self) -> Seq<char> {
        match self {
            RefusalModel::HeaderTooLarge => "Request Header Fields Too Large"@,
            RefusalModel::MissingHost => "Bad Request"@,
            RefusalModel::UnknownHost { .. } => "Not Found"@,
            RefusalModel::NotConnected { .. } => "Service Unavailable"@,
            RefusalModel::NoDataChannel { .. } => "Bad Gateway"@,
        }
    }

    /// The text of the error.
    pub open spec fn text(self) -> Seq<char> {
        match self {
            RefusalModel::HeaderTooLarge => IngressReadError::HeaderTooLarge.text(),
            RefusalModel::MissingHost => "ingress request has no Host header"@,
            RefusalModel::UnknownHost { host } => "unknown relay host `"@ + host + "`"@,
            RefusalModel::NotConnected { host } => "relay tunnel for `"@ + host
                + "` is not connected"@,
            RefusalModel::NoDataChannel { error } => error.text(),
        }
    }
}

impl IngressRefusal {
    /// The status code of the answer.
    pub fn status(&self) -> (status: u16)
        ensures
            status == self@.status(),
            status == match *self {
                IngressRefusal::HeaderTooLarge => 431u16,
                IngressRefusal::MissingHost => 400u16,
                IngressRefusal::UnknownHost { .. } => 404u16,
                IngressRefusal::NotConnected { .. } => 503u16,
                IngressRefusal::NoDataChannel { .. } => 502u16,
            },
    {
        match self {
            IngressRefusal::HeaderTooLarge => 431,
            IngressRefusal::MissingHost => 400,
            IngressRefusal::UnknownHost { .. } => 404,
            IngressRefusal::NotConnected { .. } => 503,
            IngressRefusal::NoDataChannel { .. } => 502,
        }
    }

    /// The reason that stands behind the status code.
    pub fn reason(&self) -> (reason: &'static str)
        ensures
            reason@ == self@.reason(),
            reason@ == match *self {
                IngressRefusal::HeaderTooLarge => "Request Header Fields Too Large"@,
                IngressRefusal::MissingHost => "Bad Request"@,
                IngressRefusal::UnknownHost { .. } => "Not Found"@,
                IngressRefusal::NotConnected { .. } => "Service Unavailable"@,
                IngressRefusal::NoDataChannel { .. } => "Bad Gateway"@,
            },
    {
        match self {
            IngressRefusal::HeaderTooLarge => "Request Header Fields Too Large",
            IngressRefusal::MissingHost => "Bad Request",
            IngressRefusal::UnknownHost { .. } => "Not Found",
            IngressRefusal::NotConnected { .. } => "Service Unavailable",
            IngressRefusal::NoDataChannel { .. } => "Bad Gateway",
        }
    }

    /// The answer that the visitor gets.
    pub fn response(&self) -> (response: String)
        ensures
            response@ == error_response(self@.status(), self@.reason()),
            response@ == match *self {
                IngressRefusal::HeaderTooLarge => error_response(
                    431,
                    "Request Header Fields Too Large"@,
                ),
                IngressRefusal::MissingHost => error_response(400, "Bad Request"@),
                IngressRefusal::UnknownHost { .. } => error_response(404, "Not Found"@),
                IngressRefusal::NotConnected { .. } => error_response(503, "Service Unavailable"@),
                IngressRefusal::NoDataChannel { .. } => error_response(502, "Bad Gateway"@),
            },
    {
        http_error_response(self.status(), self.reason())
    }

    /// Describes the error.
    pub fn message(&self) -> (text: String)
        ensures
            text@ == self@.text(),
            text@ == match *self {
                IngressRefusal::HeaderTooLarge => "ingress request header too large"@,
                IngressRefusal::MissingHost => "ingress request has no Host header"@,
                IngressRefusal::UnknownHost { host } => "unknown relay host `"@ + host@ + "`"@,
                IngressRefusal::NotConnected { host } => "relay tunnel for `"@ + host@
                    + "` is not connected"@,
                IngressRefusal::NoDataChannel { error: OpenError::ControlChannelClosed } =>
                "relay control channel is closed"@,
                IngressRefusal::NoDataChannel { error: OpenError::Unavailable { tunnel } } =>
                "no available relay data channel for `"@ + tunnel@ + "`"@,
            },
    {
        match self {
            IngressRefusal::HeaderTooLarge => String::from_str(
                IngressReadError::HeaderTooLarge.message(),
            ),
            IngressRefusal::MissingHost => String::from_str("ingress request has no Host header"),
            IngressRefusal::UnknownHost { host } => {
                let mut text = String::from_str("unknown relay host `");
                text.append(host.as_str());
                text.append("`");
                text
            },
            IngressRefusal::NotConnected { host } => {
                let mut text = String::from_str("relay tunnel for `");
                text.append(host.as_str());
                text.append("` is not connected");
                text
            },
            IngressRefusal::NoDataChannel { error } => error.message(),
        }
    }
}

/// A request for which there is a tunnel.
#[derive(Debug)]
pub struct RoutedRequest {
    prefix: Vec<u8>,
    host: String,
    service_digest: Digest,
}

/// The host and the tunnel of the request that starts with `prefix`.
pub open spec fn route(prefix: Seq<u8>, registry: RegistryModel) -> Result<
    (Seq<char>, Digest),
    RefusalModel,
> {
    match http_host(prefix) {
        None => Err(RefusalModel::MissingHost),
        Some(host) => if registry.by_host.contains_key(host) {
            Ok((host, registry.by_host[host]))
        } else {
            Err(RefusalModel::UnknownHost { host })
        },
    }
}

/// Finds the tunnel that the request which starts with `prefix` is for.
pub fn route_request(prefix: Vec<u8>, registry: &RelayRegistry) -> (routed: Result<
    RoutedRequest,
    IngressRefusal,
>)
    ensures
        match route(prefix@, registry@) {
            Ok((host, digest)) => routed matches Ok(request) && request.bytes() == prefix@
                && request.host_name() == host && request.service() == digest,
            Err(refusal) => routed matches Err(e) && e@ == refusal,
        },
        match http_host(prefix@) {
            None => routed matches Err(IngressRefusal::MissingHost),
            Some(asked) => if registry.by_host@.contains_key(asked) {
                routed matches Ok(request) && request.bytes() == prefix@ && request.host_name()
                    == asked && request.service() == registry.by_host@[asked]
            } else {
                routed matches Err(IngressRefusal::UnknownHost { host }) && host@ == asked
            },
        },
{
    let host = match extract_http_host(prefix.as_slice()) {
        Some(host) => owned_text(host),
        None => return Err(IngressRefusal::MissingHost),
    };
    match registry.by_host.get(host.as_str()) {
        Some(digest) => {
            let service_digest = *digest;
            Ok(RoutedRequest { prefix, host, service_digest })
        },
        None => Err(IngressRefusal::UnknownHost { host }),
    }
}

fn owned_text(text: std::borrow::Cow<'_, str>) -> (owned: String)
    ensures
        owned@ == text@,
{
    match text {
        std::borrow::Cow::Borrowed(text) => String::from_str(text),
        std::borrow::Cow::Owned(text) => text,
    }
}

impl RoutedRequest {
    /// What was read of the request.
    pub closed spec fn bytes(&self) -> Seq<u8> {
        self.prefix@
    }

    /// The host that the request asks for.
    pub closed spec fn host_name(&self) -> Seq<char> {
        self.host@
    }

    /// The digest of the tunnel behind that host.
    pub closed spec fn service(&self) -> Digest {
        self.service_digest
    }

    /// The host that the request asks for.
    pub fn host(&self) -> (host: &str)
        ensures
            host@ == self.host_name(),
    {
        self.host.as_str()
    }

    /// The digest of the tunnel behind that host.
    pub fn service_digest(&self) -> (digest: Digest)
        ensures
            digest == self.service(),
    {
        self.service_digest
    }

    /// The control channel of the tunnel, if its client is connected.
    pub fn channel<'a, V>(&self, channels: &'a ControlChannelMap<V>) -> (channel: Result<
        &'a V,
        IngressRefusal,
    >)
        requires
            channels.wf(),
        ensures
            if channels@.contains_key(self.service()) {
                channel matches Ok(channel) && *channel == channels@[self.service()].1
            } else {
                channel matches Err(e) && e@ == (RefusalModel::NotConnected {
                    host: self.host_name(),
                })
            },
            channel is Ok <==> channels@.contains_key(self.service()),
            channel is Err ==> (channel matches Err(IngressRefusal::NotConnected { host }) && host@
                == self.host_name()),
    {
        match channels.get1(&self.service_digest) {
            Some(channel) => Ok(channel),
            None => Err(IngressRefusal::NotConnected { host: self.host.clone() }),
        }
    }

    /// Goes on once it is known whether a data channel could be opened: the bytes
    /// to be sent on it, which are those that were read.
    pub fn forward(self, opened: Result<(), OpenError>) -> (bytes: Result<Vec<u8>, IngressRefusal>)
        ensures
            match opened {
                Ok(_) => bytes matches Ok(bytes) && bytes@ == self.bytes(),
                Err(error) => bytes matches Err(e) && e@ == (RefusalModel::NoDataChannel {
                    error: error@,
                }),
            },
            bytes is Ok <==> opened is Ok,
            opened matches Err(error) ==> bytes == Err::<Vec<u8>, IngressRefusal>(
                (IngressRefusal::NoDataChannel { error }),
            ),
    {
        match opened {
            Ok(_) => Ok(self.prefix),
            Err(error) => Err(IngressRefusal::NoDataChannel { error }),
        }
    }
}

/// A request is what arrived: what was read of it is the start of the stream,
/// unchanged, and holds a whole header.
pub proof fn request_is_what_arrived(seen: Seq<u8>, chunks: Seq<Seq<u8>>, limit: usize)
    ensures
        read_all(seen, chunks, limit) matches PrefixOutcome::Complete(prefix) ==> header_end(
            prefix,
        ) is Some && prefix.len() <= (seen + chunks.flatten()).len() && prefix == (seen
            + chunks.flatten()).take(prefix.len() as int),
    decreases chunks.len(),
{
    if chunks.len() > 0 {
        let all = seen + chunks.first();
        let rest = chunks.drop_first();
        assert(seen + chunks.flatten() == all + rest.flatten());
        match read_outcome(seen, chunks.first(), limit) {
            PrefixOutcome::More(_) => {
                request_is_what_arrived(all, rest, limit);
            },
            PrefixOutcome::Complete(prefix) => {
                assert(prefix == (all + rest.flatten()).take(prefix.len() as int));
            },
            PrefixOutcome::Failed(_) => {},
        }
    }
}

/// A header that ends within the limit is never refused for its size, however
/// it is cut into chunks.
pub proof fn header_within_limit_is_read(seen: Seq<u8>, chunks: Seq<Seq<u8>>, limit: usize)
    requires
        header_end(seen) is None,
        header_end(seen + chunks.flatten()) matches Some(end) && end <= limit,
        forall|i: int| 0 <= i < chunks.len() ==> (#[trigger] chunks[i]).len() > 0,
    ensures
        read_all(seen, chunks, limit) is Complete,
    decreases chunks.len(),
{
    if chunks.len() == 0 {
        assert(seen + chunks.flatten() == seen);
    } else {
        let all = seen + chunks.first();
        let rest = chunks.drop_first();
        let stream = all + rest.flatten();
        assert(seen + chunks.flatten() == stream);
        assert(chunks[0].len() > 0);
        if header_end(all) is None {
            let index = choose|i: int| first_terminator(stream, 0, i);
            assert(first_terminator(stream, 0, index));
            if index + 4 <= all.len() {
                assert(first_terminator(all, 0, index)) by {
                    assert forall|i: int| 0 <= i < index implies !#[trigger] terminator_at(all, i) by {
                        assert(!terminator_at(stream, i));
                    }
                }
                lemma_header_end(all, 0, index);
            }
            assert forall|i: int| 0 <= i < rest.len() implies (#[trigger] rest[i]).len() > 0 by {
                assert(rest[i] == chunks[i + 1]);
            }
            header_within_limit_is_read(all, rest, limit);
        }
    }
}

/// While the header goes on, no more bytes are held than allowed; once there are
/// more, reading stops.
pub proof fn no_more_is_held_than_allowed(chunks: Seq<Seq<u8>>, limit: usize)
    ensures
        read_all(Seq::empty(), chunks, limit) matches PrefixOutcome::More(held) ==> held.len()
            <= limit,
{
    lemma_held_within_limit(Seq::empty(), chunks, limit);
}

proof fn lemma_held_within_limit(seen: Seq<u8>, chunks: Seq<Seq<u8>>, limit: usize)
    requires
        seen.len() <= limit,
    ensures
        read_all(seen, chunks, limit) matches PrefixOutcome::More(held) ==> held.len() <= limit,
    decreases chunks.len(),
{
    if chunks.len() > 0 {
        if let PrefixOutcome::More(held) = read_outcome(seen, chunks.first(), limit) {
            lemma_held_within_limit(held, chunks.drop_first(), limit);
        }
    }
}

/// Which host a request asks for does not depend on how it is cut into chunks.
pub proof fn host_does_not_depend_on_chunks(a: Seq<Seq<u8>>, b: Seq<Seq<u8>>, limit: usize)
    requires
        a.flatten() == b.flatten(),
        read_all(Seq::empty(), a, limit) is Complete,
        read_all(Seq::empty(), b, limit) is Complete,
    ensures
        http_host(read_all(Seq::empty(), a, limit)->Complete_0) == http_host(
            read_all(Seq::empty(), b, limit)->Complete_0,
        ),
{
    let stream = Seq::<u8>::empty() + a.flatten();
    let p = read_all(Seq::empty(), a, limit)->Complete_0;
    let q = read_all(Seq::empty(), b, limit)->Complete_0;
    request_is_what_arrived(Seq::empty(), a, limit);
    request_is_what_arrived(Seq::empty(), b, limit);
    if p.len() <= q.len() {
        assert(q == p + q.skip(p.len() as int));
        host_depends_on_header_alone(p, q.skip(p.len() as int));
    } else {
        assert(p == q + p.skip(q.len() as int));
        host_depends_on_header_alone(q, p.skip(q.len() as int));
    }
}

/// A request for the host of a configured tunnel is routed to that tunnel,
/// unless a later one has the same host.
pub proof fn request_reaches_its_tunnel(
    tunnels: Seq<TunnelConfigModel>,
    index: int,
    prefix: Seq<u8>,
)
    requires
        registry_of(tunnels) is Ok,
        0 <= index < tunnels.len(),
        forall|i: int|
            index < i < tunnels.len() ==> tunnel_host(#[trigger] tunnels[i]) != tunnel_host(
                tunnels[index],
            ),
        http_host(prefix) == tunnel_host(tunnels[index]),
    ensures
        route(prefix, registry_of(tunnels)->Ok_0) == Ok::<(Seq<char>, Digest), RefusalModel>(
            (http_host(prefix)->0, tunnel_digest(tunnels[index])),
        ),
{
    last_tunnel_has_the_host(tunnels, index);
}

/// A request for a host that no tunnel has is refused, with that host.
pub proof fn unknown_host_is_refused(tunnels: Seq<TunnelConfigModel>, prefix: Seq<u8>)
    requires
        registry_of(tunnels) is Ok,
        http_host(prefix) is Some,
        forall|i: int|
            0 <= i < tunnels.len() ==> tunnel_host(#[trigger] tunnels[i]) != http_host(prefix),
    ensures
        route(prefix, registry_of(tunnels)->Ok_0) == Err::<(Seq<char>, Digest), RefusalModel>(
            RefusalModel::UnknownHost { host: http_host(prefix)->0 },
        ),
{
    hosts_are_those_of_the_tunnels(tunnels, http_host(prefix)->0);
}

/// A request whose first `Host` field names the host of a configured tunnel, in
/// any case, with or without a final dot and with or without a port, is routed to
/// that tunnel, unless a later one has the same host.
pub proof fn named_host_reaches_its_tunnel(
    tunnels: Seq<TunnelConfigModel>,
    index: int,
    request_line: Seq<u8>,
    fields: Seq<Seq<u8>>,
    body: Seq<u8>,
    name: Seq<char>,
    port: Seq<char>,
)
    requires
        registry_of(tunnels) is Ok,
        0 <= index < tunnels.len(),
        forall|i: int|
            index < i < tunnels.len() ==> tunnel_host(#[trigger] tunnels[i]) != tunnel_host(
                tunnels[index],
            ),
        is_header_line(request_line),
        forall|i: int| 0 <= i < fields.len() ==> is_header_line(#[trigger] fields[i]),
        is_plain(name) && name.last() != '.' && all_digits(port),
        tunnel_host(tunnels[index]) == Some(lowercase(name)),
        first_host_field(fields) == Some(encode_utf8(name)) || first_host_field(fields) == Some(
            encode_utf8(name.push(':') + port),
        ) || first_host_field(fields) == Some(encode_utf8(name.push('.'))) || first_host_field(
            fields,
        ) == Some(encode_utf8(name.push('.').push(':') + port)),
    ensures
        route(
            header_text(seq![request_line] + fields) + body,
            registry_of(tunnels)->Ok_0,
        ) == Ok::<(Seq<char>, Digest), RefusalModel>(
            (lowercase(name), tunnel_digest(tunnels[index])),
        ),
{
    header_is_read_as_written(request_line, fields, body);
    plain_name_is_kept(name);
    port_does_not_matter(name, port);
    encode_utf8_valid_utf8(name);
    encode_utf8_decode_utf8(name);
    encode_utf8_valid_utf8(name.push(':') + port);
    encode_utf8_decode_utf8(name.push(':') + port);
    final_dot_does_not_matter(name);
    port_does_not_matter(name.push('.'), port);
    encode_utf8_valid_utf8(name.push('.'));
    encode_utf8_decode_utf8(name.push('.'));
    encode_utf8_valid_utf8(name.push('.').push(':') + port);
    encode_utf8_decode_utf8(name.push('.').push(':') + port);
    request_reaches_its_tunnel(
        tunnels,
        index,
        header_text(seq![request_line] + fields) + body,
    );
}

proof fn lemma_quiet_chunks(seen: Seq<u8>, chunks: Seq<Seq<u8>>, k: int, limit: usize)
    requires
        0 <= k < chunks.len(),
        forall|j: int|
            0 <= j < k ==> (#[trigger] chunks[j]).len() > 0 && header_end(
                seen + chunks.take(j + 1).flatten(),
            ) is None && (seen + chunks.take(j + 1).flatten()).len() <= limit,
    ensures
        read_all(seen, chunks, limit) == match read_outcome(
            seen + chunks.take(k).flatten(),
            chunks[k],
            limit,
        ) {
            PrefixOutcome::More(held) => read_all(held, chunks.skip(k + 1), limit),
            outcome => outcome,
        },
        seen + chunks.take(k + 1).flatten() == seen + chunks.take(k).flatten() + chunks[k],
    decreases k,
{
    if k == 0 {
        assert(chunks.take(0) == Seq::<Seq<u8>>::empty());
        assert(chunks.take(0).flatten() == Seq::<u8>::empty());
        assert(seen + chunks.take(0).flatten() == seen);
        lemma_flatten_first(chunks, 0);
        assert(chunks.skip(1) == chunks.drop_first());
    } else {
        let rest = chunks.drop_first();
        let held = seen + chunks[0];
        lemma_flatten_first(chunks, 0);
        assert(seen + chunks.take(1).flatten() == held);
        assert(chunks[0].len() > 0);
        assert forall|j: int| 0 <= j < k - 1 implies (#[trigger] rest[j]).len() > 0 && header_end(
            held + rest.take(j + 1).flatten(),
        ) is None && (held + rest.take(j + 1).flatten()).len() <= limit by {
            assert(rest[j] == chunks[j + 1]);
            lemma_flatten_first(chunks, j + 1);
            assert(seen + chunks.take(j + 2).flatten() == held + rest.take(j + 1).flatten());
        }
        lemma_quiet_chunks(held, rest, k - 1, limit);
        lemma_flatten_first(chunks, k);
        lemma_flatten_first(chunks, k - 1);
        assert(held + rest.take(k - 1).flatten() == seen + chunks.take(k).flatten());
        assert(held + rest.take(k).flatten() == seen + chunks.take(k + 1).flatten());
        assert(rest.skip(k) == chunks.skip(k + 1));
    }
}

proof fn lemma_flatten_first(chunks: Seq<Seq<u8>>, k: int)
    requires
        0 <= k < chunks.len(),
    ensures
        chunks.take(k + 1).flatten() == chunks[0] + chunks.drop_first().take(k).flatten(),
{
    let front = chunks.take(k + 1);
    assert(front.first() == chunks[0]);
    assert(front.drop_first() == chunks.drop_first().take(k));
}

/// Reading goes on while bytes come, no header ends in all that came and it is
/// within the limit. The first read that changes this decides: none are the end of
/// the stream; with the end of a header all that came is the request; without one
/// more than the limit is too much.
pub proof fn reading_goes_on_until(chunks: Seq<Seq<u8>>, k: int, limit: usize)
    requires
        0 <= k < chunks.len(),
        forall|j: int|
            0 <= j < k ==> (#[trigger] chunks[j]).len() > 0 && header_end(
                chunks.take(j + 1).flatten(),
            ) is None && chunks.take(j + 1).flatten().len() <= limit,
    ensures
        ({
            let all = chunks.take(k + 1).flatten();
            let outcome = read_all(Seq::empty(), chunks, limit);
            &&& chunks[k].len() == 0 ==> outcome == PrefixOutcome::Failed(IngressReadError::Closed)
            &&& chunks[k].len() > 0 && header_end(all) is Some ==> outcome
                == PrefixOutcome::Complete(all)
            &&& chunks[k].len() > 0 && header_end(all) is None && all.len() > limit ==> outcome
                == PrefixOutcome::Failed(IngressReadError::HeaderTooLarge)
            &&& chunks[k].len() > 0 && header_end(all) is None && all.len() <= limit && k
                == chunks.len() - 1 ==> outcome == PrefixOutcome::More(all)
        }),
{
    let nothing = Seq::<u8>::empty();
    assert forall|j: int| 0 <= j < k implies (#[trigger] chunks[j]).len() > 0 && header_end(
        nothing + chunks.take(j + 1).flatten(),
    ) is None && (nothing + chunks.take(j + 1).flatten()).len() <= limit by {
        assert(nothing + chunks.take(j + 1).flatten() == chunks.take(j + 1).flatten());
    }
    lemma_quiet_chunks(nothing, chunks, k, limit);
    assert(nothing + chunks.take(k + 1).flatten() == chunks.take(k + 1).flatten());
    if k == chunks.len() - 1 {
        assert(chunks.skip(k + 1) == Seq::<Seq<u8>>::empty());
    }
}

/// While bytes come reading never fails for the end of the stream, and more bytes
/// than the limit without the end of a header are refused for their number,
/// however they are cut into chunks.
pub proof fn only_size_stops_a_stream(chunks: Seq<Seq<u8>>, limit: usize)
    requires
        forall|i: int| 0 <= i < chunks.len() ==> (#[trigger] chunks[i]).len() > 0,
    ensures
        read_all(Seq::empty(), chunks, limit) != PrefixOutcome::Failed(IngressReadError::Closed),
        header_end(chunks.flatten()) is None && chunks.flatten().len() > limit ==> read_all(
            Seq::empty(),
            chunks,
            limit,
        ) == PrefixOutcome::Failed(IngressReadError::HeaderTooLarge),
{
    assert(Seq::<u8>::empty() + chunks.flatten() == chunks.flatten());
    lemma_only_size_stops(Seq::empty(), chunks, limit);
}

proof fn lemma_only_size_stops(seen: Seq<u8>, chunks: Seq<Seq<u8>>, limit: usize)
    requires
        seen.len() <= limit,
        forall|i: int| 0 <= i < chunks.len() ==> (#[trigger] chunks[i]).len() > 0,
    ensures
        read_all(seen, chunks, limit) != PrefixOutcome::Failed(IngressReadError::Closed),
        header_end(seen + chunks.flatten()) is None && (seen + chunks.flatten()).len() > limit
            ==> read_all(seen, chunks, limit) == PrefixOutcome::Failed(
            IngressReadError::HeaderTooLarge,
        ),
    decreases chunks.len(),
{
    if chunks.len() == 0 {
        assert(seen + chunks.flatten() == seen);
    } else {
        let all = seen + chunks.first();
        let rest = chunks.drop_first();
        assert(chunks[0].len() > 0);
        assert(seen + chunks.flatten() == all + rest.flatten());
        assert forall|i: int| 0 <= i < rest.len() implies (#[trigger] rest[i]).len() > 0 by {
            assert(rest[i] == chunks[i + 1]);
        }
        if header_end(all) is Some {
            header_end_is_stable(all, rest.flatten());
        } else if all.len() <= limit {
            lemma_only_size_stops(all, rest, limit);
        }
    }
}

/// A request without a host is refused as such, whatever is registered; any other
/// is for the host that it asks for, and goes where that host leads.
pub proof fn route_follows_the_host(prefix: Seq<u8>, registry: RelayRegistry)
    ensures
        http_host(prefix) is None ==> route(prefix, registry@) == Err::<
            (Seq<char>, Digest),
            RefusalModel,
        >(RefusalModel::MissingHost),
        http_host(prefix) matches Some(host) ==> match route(prefix, registry@) {
            Ok((asked, digest)) => asked == host && registry.by_host@.contains_pair(host, digest),
            Err(refusal) => refusal == (RefusalModel::UnknownHost { host })
                && !registry.by_host@.contains_key(host),
        },
{
}

/// A visitor reaches the tunnel behind the host of a configured URL: a request
/// whose first `Host` field, the one at `k`, names that host in any case, with dots
/// and a port behind it or without them, is routed to the digest of the tunnel's
/// name, unless a later URL has the same host.
pub proof fn visitor_reaches_the_url(
    tunnels: Seq<RelayTunnelConfig>,
    registry: RelayRegistry,
    index: int,
    host: Seq<char>,
    request_line: Seq<u8>,
    fields: Seq<Seq<u8>>,
    body: Seq<u8>,
    k: int,
    colon: int,
    name: Seq<char>,
    dots: Seq<char>,
    port: Seq<char>,
)
    requires
        is_registry_of(registry, tunnels),
        0 <= index < tunnels.len(),
        url_host(tunnels[index].url@) == Some(Some(host)),
        forall|i: int|
            index < i < tunnels.len() ==> !(url_host(#[trigger] tunnels[i].url@) matches Some(
                Some(other),
            ) && lowercase(other) == lowercase(host)),
        is_header_line(request_line),
        forall|i: int| 0 <= i < fields.len() ==> is_header_line(#[trigger] fields[i]),
        0 <= k < fields.len(),
        forall|i: int, c: int| 0 <= i < k ==> !#[trigger] is_host_line(fields[i], c),
        is_host_line(fields[k], colon),
        trimmed_bytes(fields[k].skip(colon + 1)) == encode_utf8(name + dots + port),
        lowercase(name) == lowercase(host),
        is_plain(name) && name.last() != '.' && is_dots(dots),
        is_port(port) || port.len() == 0,
    ensures
        route(header_text(seq![request_line] + fields) + body, registry@) == Ok::<
            (Seq<char>, Digest),
            RefusalModel,
        >((lowercase(host), sha256(encode_utf8(tunnels[index].id@)))),
{
    let shown = name + dots + port;
    let nothing = Seq::<char>::empty();
    first_host_field_is_asked_for(request_line, fields, body, k, colon);
    text_is_read_as_written(shown, encode_utf8(shown));
    assert(shown.last() == if port.len() > 0 {
        port.last()
    } else if dots.len() > 0 {
        dots.last()
    } else {
        name.last()
    });
    if port.len() > 0 {
        assert(port.last() == port[port.len() - 1]);
    } else if dots.len() > 0 {
        assert(dots.last() == dots[dots.len() - 1]);
    }
    assert forall|i: int| 0 <= i < name.len() implies #[trigger] name[i] != ':' by {
        assert(name.contains(name[i]));
    }
    host_is_its_name(nothing, name, dots, port, nothing);
    assert(nothing + shown + nothing == shown);
    url_host_leads_to_its_tunnel(tunnels, registry, index, host);
}

} // verus!
