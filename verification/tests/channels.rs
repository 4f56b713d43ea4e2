use relay::config::RelayTunnelConfig;
use relay::control::control_action;
use relay::control::control_request;
use relay::control::heartbeat_enabled;
use relay::control::send_failure;
use relay::control::ControlAction;
use relay::control::ControlEvent;
use relay::control::ControlHandshake;
use relay::control::ControlRequest;
use relay::control::HandshakeRefusal;
use relay::data_channel::OpenError;
use relay::data_channel::OpenPhase;
use relay::data_channel::CHAN_SIZE;
use relay::data_channel::DATA_CHANNEL_QUEUE;
use relay::data_channel::START_COMMAND;
use relay::data_channel::TCP_POOL_SIZE;
use relay::maps::ControlChannelMap;
use relay::maps::DigestMap;
use relay::protocol::digest;
use relay::protocol::Ack;
use relay::protocol::Auth;
use relay::protocol::ControlChannelCmd;
use relay::protocol::DataChannelCmd;
use relay::protocol::Hello;
use relay::protocol::CURRENT_PROTO_VERSION;
use relay::registry::RelayRegistry;
use relay::token::hash_token;
use relay::token::response_for_token;

fn registry() -> RelayRegistry {
    let tunnels: Vec<RelayTunnelConfig> = ["a", "b"]
        .iter()
        .map(|id| RelayTunnelConfig {
            id: id.to_string(),
            url: format!("http://{id}.example"),
            token_hash: hash_token(&format!("token of {id}")),
            nodelay: None,
        })
        .collect();
    RelayRegistry::from_tunnels(&tunnels).unwrap()
}

/// Takes a client through a handshake that works out.
fn connect(
    registry: &RelayRegistry,
    channels: &mut ControlChannelMap<u32>,
    id: &str,
    nonce: [u8; 32],
    channel: u32,
) -> (bool, bool) {
    let response = response_for_token(&format!("token of {id}"), &nonce);
    let admitted = match ControlHandshake::with_nonce(digest(id.as_bytes()), nonce)
        .greeted(registry)
        .and_then(|pending| pending.authenticate(&Auth(response)))
    {
        Ok(admitted) => admitted,
        Err(refusal) => panic!("{}", refusal.message()),
    };
    let (registration, displaced) = admitted.displace(channels);
    assert_eq!(channels.get1(&digest(id.as_bytes())), None);
    assert_eq!(registration.ack(), Ack::Accepted);
    assert_eq!(registration.tunnel().id, id);
    (displaced, registration.establish(channels, channel))
}

#[test]
fn hello_says_what_a_client_wants() {
    let key = digest(b"key");
    assert_eq!(
        control_request(Hello::ControlChannelHello(CURRENT_PROTO_VERSION, key)),
        ControlRequest::ControlChannel { service_digest: key }
    );
    assert_eq!(
        control_request(Hello::DataChannelHello(0, key)),
        ControlRequest::DataChannel { session_key: key }
    );
}

#[test]
fn nonces_are_drawn_anew() {
    let first = ControlHandshake::begin(digest(b"a")).hello();
    let second = ControlHandshake::begin(digest(b"a")).hello();
    assert_ne!(first, second);
    assert!(matches!(first, Hello::ControlChannelHello(1, nonce) if nonce != digest(b"a")));
}

#[test]
fn hello_hands_out_the_nonce() {
    let handshake = ControlHandshake::with_nonce(digest(b"a"), [3u8; 32]);
    assert_eq!(handshake.hello(), Hello::ControlChannelHello(1, [3u8; 32]));
}

#[test]
fn unknown_service_is_refused() {
    let registry = registry();
    let refusal = match ControlHandshake::begin(digest(b"secret")).greeted(&registry) {
        Ok(_) => panic!("the service was accepted"),
        Err(refusal) => refusal,
    };
    assert!(matches!(
        refusal,
        HandshakeRefusal::UnknownService { service_digest } if service_digest == digest(b"secret")
    ));
    assert_eq!(refusal.ack(), Ack::ServiceNotExist);
    assert_eq!(
        refusal.message(),
        "No relay tunnel for service digest \
         2bb80d537b1da3e38bd30361aa855686bde0eacd7162fef6a25fe97bf527a25b"
    );
}

#[test]
fn wrong_response_is_refused() {
    let registry = registry();
    let nonce = [4u8; 32];
    let right = response_for_token("token of a", &nonce);
    let mut near = right;
    near[31] ^= 1;
    for response in [
        near,
        nonce,
        digest(b"token of a"),
        response_for_token("token of b", &nonce),
        response_for_token("token of a", &[5u8; 32]),
    ] {
        let pending = match ControlHandshake::with_nonce(digest(b"a"), nonce).greeted(&registry) {
            Ok(pending) => pending,
            Err(refusal) => panic!("{}", refusal.message()),
        };
        let refusal = match pending.authenticate(&Auth(response)) {
            Ok(_) => panic!("the response was accepted"),
            Err(refusal) => refusal,
        };
        assert_eq!(refusal.ack(), Ack::AuthFailed);
        assert_eq!(refusal.message(), "relay tunnel `a` failed authentication");
    }
}

#[test]
fn token_holder_gets_a_channel() {
    let registry = registry();
    let mut channels = ControlChannelMap::new();
    let nonce = [6u8; 32];
    assert_eq!(connect(&registry, &mut channels, "a", nonce, 1), (false, true));
    assert_eq!(channels.get1(&digest(b"a")), Some(&1));
    assert_eq!(channels.get2(&response_for_token("token of a", &nonce)), Some(&1));
    assert_eq!(channels.get2(&nonce), None);
}

#[test]
fn new_channel_takes_the_place_of_the_old() {
    let registry = registry();
    let mut channels = ControlChannelMap::new();
    assert_eq!(connect(&registry, &mut channels, "a", [1u8; 32], 1), (false, true));
    assert_eq!(connect(&registry, &mut channels, "b", [1u8; 32], 2), (false, true));
    assert_eq!(connect(&registry, &mut channels, "a", [2u8; 32], 3), (true, true));
    assert_eq!(channels.get1(&digest(b"a")), Some(&3));
    assert_eq!(channels.get1(&digest(b"b")), Some(&2));
    assert_eq!(channels.get2(&response_for_token("token of a", &[1u8; 32])), None);
    assert_eq!(channels.get2(&response_for_token("token of a", &[2u8; 32])), Some(&3));
    assert_eq!(channels.get2(&response_for_token("token of b", &[1u8; 32])), Some(&2));
}

#[test]
fn session_key_in_use_keeps_a_channel_out() {
    let registry = registry();
    let mut channels = ControlChannelMap::new();
    let nonce = [8u8; 32];
    let key = response_for_token("token of a", &nonce);
    assert_eq!(channels.insert(digest(b"b"), key, 9), Ok(()));
    assert_eq!(connect(&registry, &mut channels, "a", nonce, 1), (false, false));
    assert_eq!(channels.get1(&digest(b"a")), None);
    assert_eq!(channels.get2(&key), Some(&9));
}

#[test]
fn channels_need_both_keys_free() {
    let mut channels = ControlChannelMap::new();
    let (a, b, k, l) = (digest(b"a"), digest(b"b"), digest(b"k"), digest(b"l"));
    assert_eq!(channels.insert(a, k, 1), Ok(()));
    assert_eq!(channels.insert(a, l, 2), Err((a, l, 2)));
    assert_eq!(channels.insert(b, k, 3), Err((b, k, 3)));
    assert_eq!(channels.insert(b, l, 4), Ok(()));
    assert_eq!(channels.remove1(&a), Some(1));
    assert_eq!(channels.remove1(&a), None);
    assert_eq!(channels.get2(&k), None);
    assert_eq!(channels.get2(&l), Some(&4));
    assert_eq!(channels.insert(a, k, 5), Ok(()));
    assert_eq!(channels.get1(&a), Some(&5));
}

#[test]
fn digest_map_keeps_the_last_value() {
    let mut map = DigestMap::new();
    let (a, b, c) = (digest(b"a"), digest(b"b"), digest(b"c"));
    map.insert(a, 1);
    map.insert(b, 2);
    map.insert(c, 3);
    map.insert(a, 4);
    assert_eq!(map.get(&a), Some(&4));
    assert_eq!(map.remove(&a), Some(4));
    assert_eq!(map.remove(&a), None);
    assert!(!map.contains_key(&a));
    assert_eq!(map.get(&b), Some(&2));
    assert_eq!(map.get(&c), Some(&3));
}

#[test]
fn control_channel_sends_or_stops() {
    assert_eq!(
        control_action(ControlEvent::DataChannelWanted),
        ControlAction::Send(ControlChannelCmd::CreateDataChannel)
    );
    assert_eq!(
        control_action(ControlEvent::HeartbeatDue),
        ControlAction::Send(ControlChannelCmd::HeartBeat)
    );
    assert_eq!(control_action(ControlEvent::NoMoreWanted), ControlAction::Stop);
    assert_eq!(control_action(ControlEvent::Shutdown), ControlAction::Stop);
}

#[test]
fn interval_of_zero_turns_heartbeats_off() {
    assert!(!heartbeat_enabled(0));
    assert!(heartbeat_enabled(1));
    assert!(heartbeat_enabled(u64::MAX));
}

#[test]
fn failures_to_send_are_told_apart() {
    assert_eq!(
        send_failure(ControlChannelCmd::CreateDataChannel),
        "failed to request relay data channel"
    );
    assert_eq!(send_failure(ControlChannelCmd::HeartBeat), "failed to write relay heartbeat");
}

#[test]
fn data_channel_opens_at_the_first_attempt() {
    let phase = OpenPhase::Ask.next(true).next(true).next(true);
    assert_eq!(phase, OpenPhase::Opened);
    assert!(phase.error("a").is_none());
}

#[test]
fn broken_data_channels_are_replaced() {
    let mut phase = OpenPhase::Ask.next(true);
    let (mut asked, mut taken) = (1, 0);
    for _ in 0..3 {
        phase = phase.next(true);
        taken += 1;
        assert_eq!(phase, OpenPhase::Start);
        phase = phase.next(false);
        assert_eq!(phase, OpenPhase::AskAgain);
        assert_eq!(asked, taken);
        phase = phase.next(true);
        asked += 1;
    }
    assert_eq!(phase, OpenPhase::Wait);
    assert_eq!(phase.next(true).next(true), OpenPhase::Opened);
}

#[test]
fn closed_control_channel_opens_nothing() {
    let phase = OpenPhase::Ask.next(false);
    let error = phase.error("a").unwrap();
    assert!(matches!(error, OpenError::ControlChannelClosed));
    assert_eq!(error.message(), "relay control channel is closed");
}

#[test]
fn data_channels_run_out() {
    let waiting = OpenPhase::Ask.next(true).next(false);
    let refused = OpenPhase::Ask.next(true).next(true).next(false).next(false);
    for phase in [waiting, refused] {
        assert_eq!(phase, OpenPhase::Unavailable);
        let error = phase.error("tunnel").unwrap();
        assert_eq!(error.message(), "no available relay data channel for `tunnel`");
    }
}

#[test]
fn phases_without_anything_to_do_stay() {
    for phase in [
        OpenPhase::Opened,
        OpenPhase::ControlChannelClosed,
        OpenPhase::Unavailable,
    ] {
        assert_eq!(phase.next(true), phase);
        assert_eq!(phase.next(false), phase);
    }
    assert!(OpenPhase::Wait.error("a").is_none());
}

#[test]
fn sizes_of_pool_and_queue() {
    assert_eq!(TCP_POOL_SIZE, 8);
    assert_eq!(CHAN_SIZE, 2048);
    assert_eq!(DATA_CHANNEL_QUEUE, 4096);
    assert_eq!(START_COMMAND, DataChannelCmd::StartForwardTcp);
}
