//! Digests and the messages that are exchanged on control and data channels.

use sha2::Digest as _;
use vstd::prelude::*;

verus! {

/// Width of a SHA-256 digest.
pub const HASH_WIDTH_IN_BYTES: usize = 32;

/// Version of the protocol that is announced in every hello.
pub const CURRENT_PROTO_VERSION: u8 = 1;

/// A SHA-256 digest; also the shape of nonces and session keys.
pub type Digest = [u8; HASH_WIDTH_IN_BYTES];

/// The SHA-256 digest of a message.
pub uninterp spec fn sha256(message: Seq<u8>) -> [u8; 32];

/// `sha2::Sha256`, fed `left` and then `right` with `chain_update`: the digest
/// of the two slices put together. Nothing is said of the digest itself.
#[verifier::external_body]
pub(crate) fn digest_pair(left: &[u8], right: &[u8]) -> (hash: Digest)
    ensures
        hash == sha256(left@ + right@),
{
    sha2::Sha256::new().chain_update(left).chain_update(right).finalize().into()
}

/// The SHA-256 digest of `data`.
pub fn digest(data: &[u8]) -> (hash: Digest)
    ensures
        hash == sha256(data@),
{
    let nothing: [u8; 0] = [];
    assert(data@ + nothing@ == data@);
    digest_pair(data, &nothing)
}

/// Whether two digests agree in every byte.
pub fn digest_eq(a: &Digest, b: &Digest) -> (equal: bool)
    ensures
        equal == (*a == *b),
{
    for i in 0..HASH_WIDTH_IN_BYTES
        invariant
            forall|j: int| 0 <= j < i ==> a@[j] == b@[j],
    {
        if a[i] != b[i] {
            return false;
        }
    }
    assert(*a =~= *b);
    true
}

/// The first message on a connection, with the version of the protocol. On a
/// control channel the client sends the digest of the service and the relay a
/// nonce; on a data channel the client sends the key of the session.
#[derive(Clone, Copy, Debug, PartialEq, Eq)]
pub enum Hello {
    ControlChannelHello(u8, Digest),
    DataChannelHello(u8, Digest),
}

/// The response of a client to the nonce of the relay.
#[derive(Clone, Copy, Debug, PartialEq, Eq)]
pub struct Auth(pub Digest);

/// How the relay answers a client that asks for a control channel.
#[derive(Clone, Copy, Debug, PartialEq, Eq, Structural)]
pub enum Ack {
    Accepted,
    ServiceNotExist,
    AuthFailed,
}

/// What the relay asks of a client on its control channel.
#[derive(Clone, Copy, Debug, PartialEq, Eq, Structural)]
pub enum ControlChannelCmd {
    CreateDataChannel,
    HeartBeat,
}

/// What the relay asks of a client on a data channel.
#[derive(Clone, Copy, Debug, PartialEq, Eq, Structural)]
pub enum DataChannelCmd {
    StartForwardTcp,
    StartForwardUdp,
}

} // verus!
