//! The tunnels that the relay serves, by the digest of their name and by host.

use vstd::hash_map::StringHashMap;
use vstd::prelude::*;
use vstd::string::StringExecFns;
use vstd::utf8::encode_utf8;

use crate::config::RelayTunnelConfig;
use crate::config::ServerServiceConfig;
use crate::config::ServiceModel;
use crate::config::ServiceType;
use crate::config::TunnelConfigModel;
use crate::maps::DigestMap;
use crate::protocol::digest;
use crate::protocol::sha256;
use crate::protocol::Digest;
use crate::text::lemma_lowercase_twice;
use crate::text::lowercase;
use crate::token::parse_token_hash;
use crate::token::parsed_token_hash;
use crate::token::TokenHashError;

verus! {

/// A tunnel, ready to be served.
#[derive(Clone, Debug)]
pub struct RelayTunnelRuntime {
    pub id: String,
    pub host: String,
    pub token_hash: Digest,
    pub service: ServerServiceConfig,
}

/// What a `RelayTunnelRuntime` holds.
pub struct TunnelModel {
    pub id: Seq<char>,
    pub host: Seq<char>,
    pub token_hash: Seq<u8>,
    pub service: ServiceModel,
}

impl View for RelayTunnelRuntime {
    type V = TunnelModel;

    open spec fn view(&self) -> TunnelModel {
        TunnelModel {
            id: self.id@,
            host: self.host@,
            token_hash: self.token_hash@,
            service: self.service@,
        }
    }
}

/// Why a tunnel cannot be served.
#[derive(Debug)]
pub enum RegistryError {
    /// The address of the tunnel is not an absolute URL.
    InvalidUrl { id: String },
    /// The address of the tunnel has no host.
    NoHost { id: String },
    /// The token hash of the tunnel does not parse.
    InvalidTokenHash { id: String, error: TokenHashError },
}

/// What a `RegistryError` holds.
pub enum RegistryErrorModel {
    InvalidUrl { id: Seq<char> },
    NoHost { id: Seq<char> },
    InvalidTokenHash { id: Seq<char>, error: TokenHashError },
}

impl View for RegistryError {
    type V = RegistryErrorModel;

    open spec fn view(&self) -> RegistryErrorModel {
        match self {
            RegistryError::InvalidUrl { id } => RegistryErrorModel::InvalidUrl { id: id@ },
            RegistryError::NoHost { id } => RegistryErrorModel::NoHost { id: id@ },
            RegistryError::InvalidTokenHash { id, error } => RegistryErrorModel::InvalidTokenHash {
                id: id@,
                error: *error,
            },
        }
    }
}

impl RegistryErrorModel {
    /// The text of the error itself, without its cause.
    pub open spec fn outer_text(self) -> Seq<char> {
        match self {
            RegistryErrorModel::InvalidUrl { id } => "relay tunnel `"@ + id + "` URL is invalid"@,
            RegistryErrorModel::NoHost { id } => "relay tunnel `"@ + id + "` URL has no host"@,
            RegistryErrorModel::InvalidTokenHash { id, .. } =>
            "invalid token_hash for relay tunnel `"@ + id + "`"@,
        }
    }

    /// The text of the error and, each behind a colon, those of its causes.
    pub open spec fn text(self) -> Seq<char> {
        match self {
            RegistryErrorModel::InvalidTokenHash { error, .. } => self.outer_text() + ": "@
                + error.text(),
            _ => self.outer_text(),
        }
    }
}

impl RegistryError {
    /// Describes the error without its cause.
    pub fn outer_message(&self) -> (text: String)
        ensures
            text@ == self@.outer_text(),
            text@ == match *self {
                RegistryError::InvalidUrl { id } => "relay tunnel `"@ + id@ + "` URL is invalid"@,
                RegistryError::NoHost { id } => "relay tunnel `"@ + id@ + "` URL has no host"@,
                RegistryError::InvalidTokenHash { id, .. } =>
                "invalid token_hash for relay tunnel `"@ + id@ + "`"@,
            },
    {
        match self {
            RegistryError::InvalidUrl { id } => {
                let mut text = String::from_str("relay tunnel `");
                text.append(id.as_str());
                text.append("` URL is invalid");
                text
            },
            RegistryError::NoHost { id } => {
                let mut text = String::from_str("relay tunnel `");
                text.append(id.as_str());
                text.append("` URL has no host");
                text
            },
            RegistryError::InvalidTokenHash { id, .. } => {
                let mut text = String::from_str("invalid token_hash for relay tunnel `");
                text.append(id.as_str());
                text.append("`");
                text
            },
        }
    }

    /// Describes the error with the whole chain of its causes.
    pub fn message(&self) -> (text: String)
        ensures
            text@ == self@.text(),
            text@ == match *self {
                RegistryError::InvalidUrl { id } => "relay tunnel `"@ + id@ + "` URL is invalid"@,
                RegistryError::NoHost { id } => "relay tunnel `"@ + id@ + "` URL has no host"@,
                RegistryError::InvalidTokenHash { id, error } =>
                "invalid token_hash for relay tunnel `"@ + id@ + "`"@ + ": "@ + error.text(),
            },
    {
        let mut text = self.outer_message();
        if let RegistryError::InvalidTokenHash { error, .. } = self {
            text.append(": ");
            text.append(error.message().as_str());
        }
        text
    }
}

/// The host of a URL, as far as there is one.
#[derive(Debug)]
pub enum UrlHost {
    /// The text is not an absolute URL.
    Invalid,
    /// The URL has no host.
    Missing,
    /// The host of the URL.
    Found(String),
}

impl View for UrlHost {
    type V = Option<Option<Seq<char>>>;

    open spec fn view(&self) -> Option<Option<Seq<char>>> {
        match self {
            UrlHost::Invalid => None,
            UrlHost::Missing => Some(None),
            UrlHost::Found(host) => Some(Some(host@)),
        }
    }
}

/// The host of the URL that a text stands for: `None` when the text is not an
/// absolute URL, `Some(None)` when the URL has no host.
pub uninterp spec fn url_host(text: Seq<char>) -> Option<Option<Seq<char>>>;

/// `url::Url::parse`, then `host_str` of the URL. The outcome is named after
/// the text; nothing else is said of it.
#[verifier::external_body]
fn host_of_url(text: &str) -> (host: UrlHost)
    ensures
        host@ == url_host(text@),
{
    match url::Url::parse(text) {
        Ok(url) => match url.host_str() {
            Some(host) => UrlHost::Found(host.to_string()),
            None => UrlHost::Missing,
        },
        Err(_) => UrlHost::Invalid,
    }
}

/// What the relay knows of its tunnels.
#[verifier::ext_equal]
pub struct RegistryModel {
    /// The tunnels, by the digest of their name.
    pub by_digest: Map<Digest, TunnelModel>,
    /// The digest of the tunnel behind each host.
    pub by_host: Map<Seq<char>, Digest>,
}

/// The tunnel that a configuration describes, once its host and its token hash are known.
pub open spec fn tunnel_model(
    tunnel: TunnelConfigModel,
    host: Seq<char>,
    token_hash: Seq<u8>,
) -> TunnelModel {
    TunnelModel {
        id: tunnel.id,
        host: lowercase(host),
        token_hash,
        service: ServiceModel {
            service_type: ServiceType::Tcp,
            name: tunnel.id,
            bind_addr: Seq::empty(),
            token: None,
            nodelay: tunnel.nodelay,
        },
    }
}

impl RegistryModel {
    /// No tunnels.
    pub open spec fn empty() -> RegistryModel {
        RegistryModel { by_digest: Map::empty(), by_host: Map::empty() }
    }

    /// The registry with one tunnel more, in place of those with the same digest
    /// or the same host; `host` is the host of its URL, `digest` that of its name.
    pub open spec fn with(
        self,
        tunnel: TunnelConfigModel,
        host: Option<Option<Seq<char>>>,
        digest: Digest,
    ) -> Result<RegistryModel, RegistryErrorModel> {
        match host {
            None => Err(RegistryErrorModel::InvalidUrl { id: tunnel.id }),
            Some(None) => Err(RegistryErrorModel::NoHost { id: tunnel.id }),
            Some(Some(host)) => match parsed_token_hash(tunnel.token_hash) {
                Err(error) => Err(RegistryErrorModel::InvalidTokenHash { id: tunnel.id, error }),
                Ok(token_hash) => Ok(
                    RegistryModel {
                        by_digest: self.by_digest.insert(
                            digest,
                            tunnel_model(tunnel, host, token_hash),
                        ),
                        by_host: self.by_host.insert(lowercase(host), digest),
                    },
                ),
            },
        }
    }
}

/// The digest that a tunnel is announced under: that of its name.
pub open spec fn tunnel_digest(tunnel: TunnelConfigModel) -> Digest {
    sha256(encode_utf8(tunnel.id))
}

/// The registry of `tunnels`, taken in order; the first that cannot be served
/// decides the error.
pub open spec fn registry_of(tunnels: Seq<TunnelConfigModel>) -> Result<
    RegistryModel,
    RegistryErrorModel,
>
    decreases tunnels.len(),
{
    if tunnels.len() == 0 {
        Ok(RegistryModel::empty())
    } else {
        match registry_of(tunnels.drop_last()) {
            Ok(registry) => registry.with(
                tunnels.last(),
                url_host(tunnels.last().url),
                tunnel_digest(tunnels.last()),
            ),
            Err(error) => Err(error),
        }
    }
}

/// What a list of tunnel configurations holds.
pub open spec fn tunnel_models(tunnels: Seq<RelayTunnelConfig>) -> Seq<TunnelConfigModel> {
    tunnels.map_values(|tunnel: RelayTunnelConfig| tunnel@)
}

/// Whether `runtime` is the tunnel that `tunnel` describes, when its URL has the
/// given host.
pub open spec fn is_tunnel_of(
    runtime: RelayTunnelRuntime,
    tunnel: RelayTunnelConfig,
    host: Seq<char>,
) -> bool {
    &&& runtime.id@ == tunnel.id@
    &&& runtime.host@ == lowercase(host)
    &&& parsed_token_hash(tunnel.token_hash@) == Ok::<Seq<u8>, TokenHashError>(runtime.token_hash@)
    &&& runtime.service.service_type == ServiceType::Tcp
    &&& runtime.service.name@ == tunnel.id@
    &&& runtime.service.bind_addr@.len() == 0
    &&& runtime.service.token is None
    &&& runtime.service.nodelay == tunnel.nodelay
}

/// The tunnels that the relay serves.
pub struct RelayRegistry {
    /// The tunnels, by the digest of their name.
    pub by_digest: DigestMap<RelayTunnelRuntime>,
    /// The digest of the tunnel behind each host.
    pub by_host: StringHashMap<Digest>,
}

impl View for RelayRegistry {
    type V = RegistryModel;

    open spec fn view(&self) -> RegistryModel {
        RegistryModel {
            by_digest: self.by_digest@.map_values(|tunnel: RelayTunnelRuntime| tunnel@),
            by_host: self.by_host@,
        }
    }
}

impl RelayRegistry {
    /// The tables are sound.
    pub open spec fn wf(&self) -> bool {
        self.by_digest.wf()
    }

    /// No tunnels.
    pub fn new() -> (registry: Self)
        ensures
            registry.wf(),
            registry@ == RegistryModel::empty(),
    {
        let registry = RelayRegistry { by_digest: DigestMap::new(), by_host: StringHashMap::new() };
        assert(registry@ =~= RegistryModel::empty());
        registry
    }

    /// Adds a tunnel whose URL has the given host and whose name has the given digest.
    pub fn add_tunnel(&mut self, tunnel: &RelayTunnelConfig, host: UrlHost, digest: Digest) -> (added:
        Result<(), RegistryError>)
        requires
            old(self).wf(),
        ensures
            final(self).wf(),
            match old(self)@.with(tunnel@, host@, digest) {
                Ok(registry) => added is Ok && final(self)@ == registry,
                Err(error) => added matches Err(e) && e@ == error && final(self)@ == old(self)@,
            },
            host is Invalid ==> (added matches Err(RegistryError::InvalidUrl { id }) && id@
                == tunnel.id@),
            host is Missing ==> (added matches Err(RegistryError::NoHost { id }) && id@
                == tunnel.id@),
            host is Found ==> match parsed_token_hash(tunnel.token_hash@) {
                Err(error) => added matches Err(RegistryError::InvalidTokenHash { id, error: e })
                    && id@ == tunnel.id@ && e == error,
                Ok(_) => added is Ok,
            },
            added is Err ==> final(self).by_host@ == old(self).by_host@ && final(self).by_digest@
                == old(self).by_digest@,
            added is Ok ==> final(self).by_host@ == old(self).by_host@.insert(
                lowercase(host->Found_0@),
                digest,
            ),
            added is Ok ==> final(self).by_digest@ == old(self).by_digest@.insert(
                digest,
                final(self).by_digest@[digest],
            ),
            added is Ok ==> is_tunnel_of(
                final(self).by_digest@[digest],
                *tunnel,
                host->Found_0@,
            ),
    {
        let host = match host {
            UrlHost::Found(host) => host.as_str().to_ascii_lowercase(),
            UrlHost::Missing => return Err(RegistryError::NoHost { id: tunnel.id.clone() }),
            UrlHost::Invalid => return Err(RegistryError::InvalidUrl { id: tunnel.id.clone() }),
        };
        let token_hash = match parse_token_hash(tunnel.token_hash.as_str()) {
            Ok(token_hash) => token_hash,
            Err(error) => return Err(
                RegistryError::InvalidTokenHash { id: tunnel.id.clone(), error },
            ),
        };
        let service = ServerServiceConfig {
            service_type: ServiceType::Tcp,
            name: tunnel.id.clone(),
            bind_addr: String::new(),
            token: None,
            nodelay: tunnel.nodelay,
        };
        self.by_host.insert(host.clone(), digest);
        let runtime = RelayTunnelRuntime { id: tunnel.id.clone(), host, token_hash, service };
        self.by_digest.insert(digest, runtime);
        proof {
            assert(self@.by_digest =~= old(self)@.by_digest.insert(digest, runtime@));
        }
        Ok(())
    }

    /// Builds the registry of the configured tunnels.
    pub fn from_tunnels(tunnels: &[RelayTunnelConfig]) -> (registry: Result<Self, RegistryError>)
        ensures
            match registry_of(tunnel_models(tunnels@)) {
                Ok(model) => registry matches Ok(registry) && registry.wf() && registry@ == model,
                Err(error) => registry matches Err(e) && e@ == error,
            },
    {
        let mut registry = RelayRegistry::new();
        let ghost models = tunnel_models(tunnels@);
        for index in 0..tunnels.len()
            invariant
                models == tunnel_models(tunnels@),
                registry.wf(),
                registry_of(models.take(index as int)) == Ok::<RegistryModel, RegistryErrorModel>(
                    registry@,
                ),
        {
            let tunnel = &tunnels[index];
            let host = host_of_url(tunnel.url.as_str());
            let digest = digest(tunnel.id.as_str().as_bytes());
            let ghost longer = models.take(index + 1);
            assert(longer.drop_last() == models.take(index as int));
            assert(longer.last() == tunnel@);
            if let Err(error) = registry.add_tunnel(tunnel, host, digest) {
                proof {
                    lemma_first_error(models, index + 1);
                }
                return Err(error);
            }
        }
        assert(models.take(models.len() as int) == models);
        Ok(registry)
    }
}

/// The host that a tunnel is registered under, if its URL has one.
pub open spec fn tunnel_host(tunnel: TunnelConfigModel) -> Option<Seq<char>> {
    match url_host(tunnel.url) {
        Some(Some(host)) => Some(lowercase(host)),
        _ => None,
    }
}

/// Whether a tunnel has all that it takes to be served.
pub open spec fn servable(tunnel: TunnelConfigModel) -> bool {
    tunnel_host(tunnel) is Some && parsed_token_hash(tunnel.token_hash) is Ok
}

/// A registry is built if and only if every tunnel can be served.
pub proof fn all_tunnels_must_be_servable(tunnels: Seq<TunnelConfigModel>)
    ensures
        registry_of(tunnels) is Ok <==> forall|i: int|
            0 <= i < tunnels.len() ==> servable(#[trigger] tunnels[i]),
    decreases tunnels.len(),
{
    if tunnels.len() > 0 {
        let shorter = tunnels.drop_last();
        all_tunnels_must_be_servable(shorter);
        if registry_of(tunnels) is Ok {
            assert forall|i: int| 0 <= i < tunnels.len() implies servable(#[trigger] tunnels[i]) by {
                if i < shorter.len() {
                    assert(servable(shorter[i]));
                }
            }
        }
        if forall|i: int| 0 <= i < tunnels.len() ==> servable(#[trigger] tunnels[i]) {
            assert forall|i: int| 0 <= i < shorter.len() implies servable(#[trigger] shorter[i]) by {
                assert(servable(tunnels[i]));
            }
            assert(servable(tunnels[tunnels.len() - 1]));
        }
    }
}

/// The first tunnel that cannot be served decides the error: its URL, if that is
/// wrong, and otherwise its token hash, with what is wrong about it.
pub proof fn first_unservable_tunnel_decides(tunnels: Seq<TunnelConfigModel>, index: int)
    requires
        0 <= index < tunnels.len(),
        !servable(tunnels[index]),
        forall|i: int| 0 <= i < index ==> servable(#[trigger] tunnels[i]),
    ensures
        registry_of(tunnels) == Err::<RegistryModel, RegistryErrorModel>(
            match url_host(tunnels[index].url) {
                None => RegistryErrorModel::InvalidUrl { id: tunnels[index].id },
                Some(None) => RegistryErrorModel::NoHost { id: tunnels[index].id },
                Some(Some(_)) => RegistryErrorModel::InvalidTokenHash {
                    id: tunnels[index].id,
                    error: parsed_token_hash(tunnels[index].token_hash)->Err_0,
                },
            },
        ),
{
    let before = tunnels.take(index);
    let upto = tunnels.take(index + 1);
    assert forall|i: int| 0 <= i < before.len() implies servable(#[trigger] before[i]) by {
        assert(before[i] == tunnels[i]);
    }
    all_tunnels_must_be_servable(before);
    assert(upto.drop_last() == before);
    assert(upto.last() == tunnels[index]);
    lemma_first_error(tunnels, index + 1);
}

/// Every host leads to a tunnel that is registered.
pub proof fn every_host_leads_to_a_tunnel(tunnels: Seq<TunnelConfigModel>, host: Seq<char>)
    requires
        registry_of(tunnels) matches Ok(registry) && registry.by_host.contains_key(host),
    ensures
        registry_of(tunnels)->Ok_0.by_digest.contains_key(
            registry_of(tunnels)->Ok_0.by_host[host],
        ),
    decreases tunnels.len(),
{
    let before = registry_of(tunnels.drop_last())->Ok_0;
    let added = tunnel_host(tunnels.last())->0;
    if host != added {
        assert(before.by_host.contains_key(host));
        every_host_leads_to_a_tunnel(tunnels.drop_last(), host);
    }
}

/// A host is registered if and only if some tunnel has it.
pub proof fn hosts_are_those_of_the_tunnels(tunnels: Seq<TunnelConfigModel>, host: Seq<char>)
    requires
        registry_of(tunnels) is Ok,
    ensures
        registry_of(tunnels)->Ok_0.by_host.contains_key(host) <==> exists|i: int|
            0 <= i < tunnels.len() && tunnel_host(#[trigger] tunnels[i]) == Some(host),
    decreases tunnels.len(),
{
    if tunnels.len() > 0 {
        let shorter = tunnels.drop_last();
        hosts_are_those_of_the_tunnels(shorter, host);
        let last = tunnels.len() - 1;
        assert(tunnels[last] == tunnels.last());
        if exists|i: int|
            0 <= i < shorter.len() && tunnel_host(#[trigger] shorter[i]) == Some(host) {
            let i = choose|i: int|
                0 <= i < shorter.len() && tunnel_host(#[trigger] shorter[i]) == Some(host);
            assert(tunnel_host(tunnels[i]) == Some(host));
        }
        if exists|i: int|
            0 <= i < tunnels.len() && tunnel_host(#[trigger] tunnels[i]) == Some(host) {
            let i = choose|i: int|
                0 <= i < tunnels.len() && tunnel_host(#[trigger] tunnels[i]) == Some(host);
            if i < last {
                assert(tunnel_host(shorter[i]) == Some(host));
            }
        }
    }
}

/// A digest is registered if and only if it is that of some tunnel's name.
pub proof fn digests_are_those_of_the_tunnels(tunnels: Seq<TunnelConfigModel>, digest: Digest)
    requires
        registry_of(tunnels) is Ok,
    ensures
        registry_of(tunnels)->Ok_0.by_digest.contains_key(digest) <==> exists|i: int|
            0 <= i < tunnels.len() && tunnel_digest(#[trigger] tunnels[i]) == digest,
    decreases tunnels.len(),
{
    if tunnels.len() > 0 {
        let shorter = tunnels.drop_last();
        digests_are_those_of_the_tunnels(shorter, digest);
        let last = tunnels.len() - 1;
        assert(tunnels[last] == tunnels.last());
        if exists|i: int|
            0 <= i < shorter.len() && tunnel_digest(#[trigger] shorter[i]) == digest {
            let i = choose|i: int|
                0 <= i < shorter.len() && tunnel_digest(#[trigger] shorter[i]) == digest;
            assert(tunnel_digest(tunnels[i]) == digest);
        }
        if exists|i: int|
            0 <= i < tunnels.len() && tunnel_digest(#[trigger] tunnels[i]) == digest {
            let i = choose|i: int|
                0 <= i < tunnels.len() && tunnel_digest(#[trigger] tunnels[i]) == digest;
            if i < last {
                assert(tunnel_digest(shorter[i]) == digest);
            }
        }
    }
}

/// A host is written without the letters `A` to `Z`.
pub proof fn registered_hosts_are_lowercase(tunnels: Seq<TunnelConfigModel>, host: Seq<char>)
    requires
        registry_of(tunnels) matches Ok(registry) && registry.by_host.contains_key(host),
    ensures
        lowercase(host) == host,
{
    hosts_are_those_of_the_tunnels(tunnels, host);
    let i = choose|i: int|
        0 <= i < tunnels.len() && tunnel_host(#[trigger] tunnels[i]) == Some(host);
    lemma_lowercase_twice(url_host(tunnels[i].url)->0->0);
}

/// Of the tunnels with one host the last is reached under it.
pub proof fn last_tunnel_has_the_host(tunnels: Seq<TunnelConfigModel>, index: int)
    requires
        registry_of(tunnels) is Ok,
        0 <= index < tunnels.len(),
        forall|i: int|
            index < i < tunnels.len() ==> tunnel_host(#[trigger] tunnels[i]) != tunnel_host(
                tunnels[index],
            ),
    ensures
        tunnel_host(tunnels[index]) matches Some(host) && registry_of(
            tunnels,
        )->Ok_0.by_host.contains_pair(host, tunnel_digest(tunnels[index])),
    decreases tunnels.len(),
{
    let last = tunnels.len() - 1;
    all_tunnels_must_be_servable(tunnels);
    assert(servable(tunnels[index]));
    if index < last {
        let shorter = tunnels.drop_last();
        assert(shorter[index] == tunnels[index]);
        assert forall|i: int| index < i < shorter.len() implies tunnel_host(#[trigger] shorter[i])
            != tunnel_host(shorter[index]) by {
            assert(shorter[i] == tunnels[i]);
        }
        last_tunnel_has_the_host(shorter, index);
        assert(tunnel_host(tunnels[last]) != tunnel_host(tunnels[index]));
    }
}

/// Of the tunnels with one digest the last is the one that is served.
pub proof fn last_tunnel_has_the_digest(tunnels: Seq<TunnelConfigModel>, index: int)
    requires
        registry_of(tunnels) is Ok,
        0 <= index < tunnels.len(),
        forall|i: int|
            index < i < tunnels.len() ==> tunnel_digest(#[trigger] tunnels[i]) != tunnel_digest(
                tunnels[index],
            ),
    ensures
        registry_of(tunnels)->Ok_0.by_digest.contains_pair(
            tunnel_digest(tunnels[index]),
            tunnel_model(
                tunnels[index],
                url_host(tunnels[index].url)->0->0,
                parsed_token_hash(tunnels[index].token_hash)->Ok_0,
            ),
        ),
    decreases tunnels.len(),
{
    let last = tunnels.len() - 1;
    if index < last {
        let shorter = tunnels.drop_last();
        assert(shorter[index] == tunnels[index]);
        assert forall|i: int| index < i < shorter.len() implies tunnel_digest(#[trigger] shorter[i])
            != tunnel_digest(shorter[index]) by {
            assert(shorter[i] == tunnels[i]);
        }
        last_tunnel_has_the_digest(shorter, index);
        assert(tunnel_digest(tunnels[last]) != tunnel_digest(tunnels[index]));
    }
}

/// Tunnels behind one that cannot be served do not change the error.
proof fn lemma_first_error(tunnels: Seq<TunnelConfigModel>, count: int)
    requires
        0 <= count <= tunnels.len(),
        registry_of(tunnels.take(count)) is Err,
    ensures
        registry_of(tunnels) == registry_of(tunnels.take(count)),
    decreases tunnels.len(),
{
    if count == tunnels.len() {
        assert(tunnels.take(count) == tunnels);
    } else {
        let shorter = tunnels.drop_last();
        assert(shorter.take(count) == tunnels.take(count));
        lemma_first_error(shorter, count);
    }
}

/// The registry of `tunnels`.
pub open spec fn is_registry_of(registry: RelayRegistry, tunnels: Seq<RelayTunnelConfig>) -> bool {
    registry_of(tunnel_models(tunnels)) == Ok::<RegistryModel, RegistryErrorModel>(registry@)
}

/// A registry is built if and only if each URL has a host and each token hash is
/// accepted.
pub proof fn registry_needs_hosts_and_token_hashes(tunnels: Seq<RelayTunnelConfig>)
    ensures
        registry_of(tunnel_models(tunnels)) is Ok <==> forall|i: int|
            0 <= i < tunnels.len() ==> (url_host(#[trigger] tunnels[i].url@) matches Some(Some(_)))
                && parsed_token_hash(tunnels[i].token_hash@) is Ok,
{
    let models = tunnel_models(tunnels);
    all_tunnels_must_be_servable(models);
    assert forall|i: int| 0 <= i < tunnels.len() implies #[trigger] servable(models[i]) == ((
    url_host(tunnels[i].url@) matches Some(Some(_))) && parsed_token_hash(tunnels[i].token_hash@)
        is Ok) by {
        assert(models[i] == tunnels[i]@);
    }
    if registry_of(models) is Ok {
        assert forall|i: int| 0 <= i < tunnels.len() implies (url_host(
            #[trigger] tunnels[i].url@,
        ) matches Some(Some(_))) && parsed_token_hash(tunnels[i].token_hash@) is Ok by {
            assert(servable(models[i]));
        }
    }
    if forall|i: int|
        0 <= i < tunnels.len() ==> (url_host(#[trigger] tunnels[i].url@) matches Some(Some(_)))
            && parsed_token_hash(tunnels[i].token_hash@) is Ok {
        assert forall|i: int| 0 <= i < models.len() implies servable(#[trigger] models[i]) by {
            assert(models[i] == tunnels[i]@);
            assert(url_host(tunnels[i].url@) matches Some(Some(_)));
        }
    }
}

/// The first tunnel whose URL has no host or whose token hash is not accepted
/// decides the error, with its name: the URL first, then the token hash.
pub proof fn first_wrong_tunnel_is_reported(tunnels: Seq<RelayTunnelConfig>, index: int)
    requires
        0 <= index < tunnels.len(),
        !(url_host(tunnels[index].url@) matches Some(Some(_)))
            || parsed_token_hash(tunnels[index].token_hash@) is Err,
        forall|i: int|
            0 <= i < index ==> (url_host(#[trigger] tunnels[i].url@) matches Some(Some(_)))
                && parsed_token_hash(tunnels[i].token_hash@) is Ok,
    ensures
        registry_of(tunnel_models(tunnels)) matches Err(error) && match error {
            RegistryErrorModel::InvalidUrl { id } => id == tunnels[index].id@ && url_host(
                tunnels[index].url@,
            ) is None,
            RegistryErrorModel::NoHost { id } => id == tunnels[index].id@ && url_host(
                tunnels[index].url@,
            ) == Some(None::<Seq<char>>),
            RegistryErrorModel::InvalidTokenHash { id, error } => id == tunnels[index].id@ && (
            url_host(tunnels[index].url@) matches Some(Some(_))) && parsed_token_hash(
                tunnels[index].token_hash@,
            ) == Err::<Seq<u8>, TokenHashError>(error),
        },
{
    let models = tunnel_models(tunnels);
    assert(models[index] == tunnels[index]@);
    assert forall|i: int| 0 <= i < index implies servable(#[trigger] models[i]) by {
        assert(models[i] == tunnels[i]@);
        assert(url_host(tunnels[i].url@) matches Some(Some(_)));
    }
    first_unservable_tunnel_decides(models, index);
}

/// Under the digest of a tunnel's name stands that tunnel as it is configured,
/// unless a later one has the same digest.
pub proof fn registered_tunnel_is_as_configured(
    tunnels: Seq<RelayTunnelConfig>,
    registry: RelayRegistry,
    index: int,
)
    requires
        is_registry_of(registry, tunnels),
        0 <= index < tunnels.len(),
        forall|i: int|
            index < i < tunnels.len() ==> sha256(encode_utf8(#[trigger] tunnels[i].id@)) != sha256(
                encode_utf8(tunnels[index].id@),
            ),
    ensures
        ({
            let digest = sha256(encode_utf8(tunnels[index].id@));
            let tunnel = registry.by_digest@[digest];
            &&& registry.by_digest@.contains_key(digest)
            &&& tunnel.id@ == tunnels[index].id@
            &&& url_host(tunnels[index].url@) matches Some(Some(host)) && tunnel.host@ == lowercase(
                host,
            )
            &&& parsed_token_hash(tunnels[index].token_hash@) == Ok::<Seq<u8>, TokenHashError>(
                tunnel.token_hash@,
            )
            &&& tunnel.service.service_type == ServiceType::Tcp
            &&& tunnel.service.name@ == tunnels[index].id@
            &&& tunnel.service.bind_addr@ == Seq::<char>::empty()
            &&& tunnel.service.token is None
            &&& tunnel.service.nodelay == tunnels[index].nodelay
        }),
{
    let models = tunnel_models(tunnels);
    assert(models[index] == tunnels[index]@);
    assert forall|i: int| index < i < models.len() implies tunnel_digest(#[trigger] models[i])
        != tunnel_digest(models[index]) by {
        assert(models[i] == tunnels[i]@);
        assert(sha256(encode_utf8(tunnels[i].id@)) != sha256(encode_utf8(tunnels[index].id@)));
    }
    last_tunnel_has_the_digest(models, index);
    registry_needs_hosts_and_token_hashes(tunnels);
    assert(url_host(tunnels[index].url@) matches Some(Some(_)));
    let digest = sha256(encode_utf8(tunnels[index].id@));
    assert(registry@.by_digest.contains_key(digest));
    assert(registry@.by_digest[digest] == registry.by_digest@[digest]@);
}

/// The whole host of a tunnel's URL, in lowercase, leads to the digest of that
/// tunnel's name, unless a later URL has the same host.
pub proof fn url_host_leads_to_its_tunnel(
    tunnels: Seq<RelayTunnelConfig>,
    registry: RelayRegistry,
    index: int,
    host: Seq<char>,
)
    requires
        is_registry_of(registry, tunnels),
        0 <= index < tunnels.len(),
        url_host(tunnels[index].url@) == Some(Some(host)),
        forall|i: int|
            index < i < tunnels.len() ==> !(url_host(#[trigger] tunnels[i].url@) matches Some(
                Some(other),
            ) && lowercase(other) == lowercase(host)),
    ensures
        registry.by_host@.contains_key(lowercase(host)),
        registry.by_host@[lowercase(host)] == sha256(encode_utf8(tunnels[index].id@)),
{
    let models = tunnel_models(tunnels);
    assert(models[index] == tunnels[index]@);
    assert forall|i: int| index < i < models.len() implies tunnel_host(#[trigger] models[i])
        != tunnel_host(models[index]) by {
        assert(models[i] == tunnels[i]@);
        assert(!(url_host(tunnels[i].url@) matches Some(Some(other)) && lowercase(other)
            == lowercase(host)));
    }
    last_tunnel_has_the_host(models, index);
}

/// Nothing is registered but the hosts of the URLs, in lowercase, and the digests
/// of the names.
pub proof fn nothing_else_is_registered(
    tunnels: Seq<RelayTunnelConfig>,
    registry: RelayRegistry,
    host: Seq<char>,
    digest: Digest,
)
    requires
        is_registry_of(registry, tunnels),
    ensures
        registry.by_host@.contains_key(host) ==> exists|i: int|
            0 <= i < tunnels.len() && (url_host(#[trigger] tunnels[i].url@) matches Some(Some(other))
                && lowercase(other) == host && registry.by_host@[host] == sha256(
                encode_utf8(tunnels[i].id@),
            )),
        registry.by_digest@.contains_key(digest) ==> exists|i: int|
            0 <= i < tunnels.len() && sha256(encode_utf8(#[trigger] tunnels[i].id@)) == digest,
{
    let models = tunnel_models(tunnels);
    if registry.by_host@.contains_key(host) {
        let i = lemma_last_with_host(models, host, models.len() as int);
        last_tunnel_has_the_host(models, i);
        assert(models[i] == tunnels[i]@);
        assert(url_host(tunnels[i].url@) matches Some(Some(_)));
    }
    if registry.by_digest@.contains_key(digest) {
        assert(registry@.by_digest.contains_key(digest));
        digests_are_those_of_the_tunnels(models, digest);
        let i = choose|i: int|
            0 <= i < models.len() && tunnel_digest(#[trigger] models[i]) == digest;
        assert(models[i] == tunnels[i]@);
        assert(sha256(encode_utf8(tunnels[i].id@)) == digest);
    }
}

/// The last of the tunnels with a registered host; none from `end` on has it.
proof fn lemma_last_with_host(tunnels: Seq<TunnelConfigModel>, host: Seq<char>, end: int) -> (index:
    int)
    requires
        registry_of(tunnels) matches Ok(registry) && registry.by_host.contains_key(host),
        0 <= end <= tunnels.len(),
        forall|i: int| end <= i < tunnels.len() ==> tunnel_host(#[trigger] tunnels[i]) != Some(host),
    ensures
        0 <= index < tunnels.len(),
        tunnel_host(tunnels[index]) == Some(host),
        forall|i: int|
            index < i < tunnels.len() ==> tunnel_host(#[trigger] tunnels[i]) != Some(host),
    decreases end,
{
    if end == 0 {
        hosts_are_those_of_the_tunnels(tunnels, host);
        0
    } else if tunnel_host(tunnels[end - 1]) == Some(host) {
        end - 1
    } else {
        lemma_last_with_host(tunnels, host, end - 1)
    }
}

} // verus!
