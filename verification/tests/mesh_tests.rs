use voicecore::room::{Participant, Room, RoomError, RoomState};
use voicecore::rtp::{packetize_vp8, AudioRtpCounters};
use voicecore::server::{ServerError, ServerState};
use voicecore::session::{MeshError, MeshManager, SessionState};
use voicecore::signaling::{parse_message, ParseOutcome, SignalingMessage};

// Scenario: an offer for a peer, accepted remotely, whose answer is
// accepted back at the origin, drives both sessions into Connected, and a
// chat broadcast then reaches that peer's session.
#[test]
fn offer_answer_exchange_connects_both_sides() {
    let mut origin = MeshManager::new();
    origin.set_username("alice".to_string());
    let local_desc: Vec<u8> = b"origin-session-description".to_vec();
    let offer = origin.create_offer_for_peer("p2", "bob", &local_desc);
    assert!(offer.is_offer);
    assert!(matches!(origin.session_state("p2"), Some(SessionState::OfferSent)));

    let mut remote = MeshManager::new();
    remote.set_username("bob".to_string());
    let answer_desc: Vec<u8> = b"remote-session-description".to_vec();
    let (answer, decoded_offer) = remote
        .accept_offer_from_peer("p1", "alice", offer.sdp_base64.as_str(), &answer_desc)
        .expect("a well-formed offer decodes");
    assert_eq!(decoded_offer, local_desc);
    assert!(!answer.is_offer);
    assert!(matches!(remote.session_state("p1"), Some(SessionState::AnswerPending)));

    // the inbound control channel arrives asynchronously
    remote.attach_control_channel("p1").expect("session exists");
    assert!(matches!(remote.session_state("p1"), Some(SessionState::Connected)));

    let decoded_answer = origin
        .accept_answer_from_peer("p2", answer.sdp_base64.as_str())
        .expect("a well-formed answer decodes");
    assert_eq!(decoded_answer, answer_desc);
    assert!(matches!(origin.session_state("p2"), Some(SessionState::Connected)));
    assert!(origin.is_connected());
    assert!(remote.is_connected());

    let (json, targets) = origin.send_chat_message("hello", 1234);
    assert!(targets.iter().any(|t| t == "p2"));
    assert_eq!(
        json,
        "{\"type\":\"chat\",\"sender\":\"alice\",\"content\":\"hello\",\"timestamp\":1234}"
    );
}

// Scenario: removing a peer that was never added succeeds as a no-op, and
// a later send to it fails with the no-session error.
#[test]
fn removing_unknown_peer_is_idempotent() {
    let mut mesh = MeshManager::new();
    mesh.remove_peer("p3");
    assert_eq!(mesh.peer_count(), 0);
    let r = mesh.send_to_peer("p3", "hello");
    assert_eq!(r.unwrap_err(), MeshError::NoSession);
}

#[test]
fn send_requires_an_attached_channel() {
    let mut mesh = MeshManager::new();
    let answer_desc: Vec<u8> = b"desc".to_vec();
    let offer = MeshManager::new().create_offer_for_peer("x", "y", &b"o".to_vec());
    mesh.accept_offer_from_peer("p9", "carol", offer.sdp_base64.as_str(), &answer_desc)
        .unwrap();
    // accepted but the inbound channel has not arrived yet
    let r = mesh.send_to_peer("p9", "hi");
    assert_eq!(r.unwrap_err(), MeshError::NoChannel);
    mesh.attach_control_channel("p9").unwrap();
    let ok = mesh.send_to_peer("p9", "hi").unwrap();
    assert_eq!(ok, "hi");
}

#[test]
fn malformed_descriptions_are_rejected() {
    let mut mesh = MeshManager::new();
    let r = mesh.accept_offer_from_peer("p1", "bob", "not base64 !!!", &b"a".to_vec());
    assert_eq!(r.unwrap_err(), MeshError::BadEncoding);
    // the answer path checks the session first
    let r2 = mesh.accept_answer_from_peer("p1", "not base64 !!!");
    assert_eq!(r2.unwrap_err(), MeshError::NoSession);
    mesh.create_offer_for_peer("p1", "bob", &b"desc".to_vec());
    let r3 = mesh.accept_answer_from_peer("p1", "not base64 !!!");
    assert_eq!(r3.unwrap_err(), MeshError::BadEncoding);
}

#[test]
fn audio_goes_only_to_media_sessions() {
    let mut mesh = MeshManager::new();
    mesh.create_offer_for_peer("quiet", "q", &b"d".to_vec());
    mesh.enable_local_audio(true);
    assert!(mesh.is_audio_enabled());
    mesh.create_offer_for_peer("loud", "l", &b"d".to_vec());
    let targets = mesh.audio_targets();
    assert_eq!(targets, vec!["loud".to_string()]);
    assert_eq!(mesh.peer_count(), 2);
    let names = mesh.get_connected_peers();
    assert_eq!(names, vec!["q".to_string(), "l".to_string()]);
    mesh.close_all();
    assert_eq!(mesh.peer_count(), 0);
    assert!(!mesh.is_connected());
}

#[test]
fn relayed_offers_serialize_for_the_intermediary() {
    let mut mesh = MeshManager::new();
    mesh.create_offer_for_peer("mid", "m", &b"d".to_vec());
    let payload = mesh.relay_peer_offer("newcomer", "mid", "QUJD").unwrap();
    assert_eq!(
        payload,
        "{\"type\":\"peer_offer\",\"from_peer\":\"newcomer\",\"sdp_base64\":\"QUJD\"}"
    );
    let payload2 = mesh.relay_peer_answer("newcomer", "mid", "QUJD").unwrap();
    assert_eq!(
        payload2,
        "{\"type\":\"peer_answer\",\"from_peer\":\"newcomer\",\"sdp_base64\":\"QUJD\"}"
    );
    assert!(mesh.relay_peer_offer("newcomer", "nobody", "QUJD").is_err());
}

#[test]
fn chat_round_trips_with_escapes() {
    let msg = SignalingMessage::chat(
        "a\"b\\c".to_string(),
        "line\nbreak\tand \"quotes\"".to_string(),
        42,
    );
    let json = msg.to_json();
    match parse_message(json.as_str()) {
        ParseOutcome::Message(SignalingMessage::Chat { sender, content, timestamp }) => {
            assert_eq!(sender, "a\"b\\c");
            assert_eq!(content, "line\nbreak\tand \"quotes\"");
            assert_eq!(timestamp, 42);
        }
        _ => panic!("chat message should parse back"),
    }
}

#[test]
fn every_variant_round_trips() {
    let msgs = vec![
        SignalingMessage::user_joined("u1".to_string()),
        SignalingMessage::user_left("u2".to_string()),
        SignalingMessage::Ping { timestamp: 7 },
        SignalingMessage::Pong { timestamp: 8 },
        SignalingMessage::PeerOffer { from_peer: "a".to_string(), sdp_base64: "QQ==".to_string() },
        SignalingMessage::PeerAnswer { from_peer: "b".to_string(), sdp_base64: "Qg==".to_string() },
        SignalingMessage::NewPeerAnnounce { username: "n".to_string() },
        SignalingMessage::ConnectRequest {
            peer_id: "pid".to_string(),
            peer_username: "pu".to_string(),
        },
    ];
    for m in &msgs {
        let json = m.to_json();
        let back = parse_message(json.as_str());
        let again = match back {
            ParseOutcome::Message(m2) => m2.to_json(),
            _ => panic!("known messages must parse"),
        };
        assert_eq!(json, again);
    }
}

#[test]
fn unknown_tags_are_ignored_not_fatal() {
    let r = parse_message("{\"type\":\"hologram\",\"x\":1}");
    assert!(matches!(r, ParseOutcome::Unknown));
    let r2 = parse_message("complete garbage");
    assert!(matches!(r2, ParseOutcome::Invalid));
    // a known tag in a non-canonical rendering is rejected, not misread
    let r3 = parse_message("{\"type\":\"ping\",\"timestamp\":007}");
    assert!(matches!(r3, ParseOutcome::Invalid));
}

#[test]
fn room_lifecycle_and_capacity() {
    let mut state = RoomState::new();
    let room = state.create_room("host".to_string(), 1000).unwrap();
    assert_eq!(room.code.len(), 6);
    assert_eq!(room.participants.len(), 1);
    assert!(room.participants[0].is_host);
    assert!(room.participants[0].is_muted);
    let again = state.create_room("other".to_string(), 1001);
    assert!(matches!(again.unwrap_err(), RoomError::AlreadyInRoom));
    state.leave_room().unwrap();
    assert!(matches!(state.leave_room().unwrap_err(), RoomError::NotInRoom));

    let mut room = Room::new(Participant::new("h".to_string(), true), 0);
    for i in 0..4 {
        let p = Participant::new(format!("guest{}", i), false);
        room.add_participant(p).unwrap();
    }
    let overflow = room.add_participant(Participant::new("late".to_string(), false));
    match overflow.unwrap_err() {
        RoomError::Full(m) => assert_eq!(m, 5),
        _ => panic!("a full room reports its capacity"),
    }
    let gone = room.participants[1].id.clone();
    room.remove_participant(gone.as_str());
    assert_eq!(room.participants.len(), 4);
    assert!(room.participants.iter().all(|p| p.id != gone));
}

#[test]
fn join_room_uppercases_the_given_code() {
    let mut state = RoomState::new();
    let room = state.join_room("abc234".to_string(), "guest".to_string(), 5).unwrap();
    assert_eq!(room.code, "ABC234");
    assert!(!room.participants[0].is_host);
}

#[test]
fn server_hosting_and_joining_are_exclusive() {
    let mut server = ServerState::new(None);
    assert!(!server.is_connected());
    let info = server.start_hosting("alice".to_string()).unwrap();
    assert!(info.is_hosting);
    assert_eq!(info.peers.len(), 1);
    assert!(info.peers[0].is_host);
    assert!(server.is_connected());
    assert!(matches!(
        server.start_hosting("alice".to_string()).unwrap_err(),
        ServerError::AlreadyHosting
    ));
    assert!(matches!(
        server.join_server("ZZZZ22".to_string(), "alice".to_string()).unwrap_err(),
        ServerError::AlreadyHosting
    ));
    server.disconnect().unwrap();
    let info2 = server.join_server("zzzz22".to_string(), "alice".to_string()).unwrap();
    assert_eq!(info2.code, "ZZZZ22");
    assert!(!info2.is_hosting);
    assert!(matches!(
        server.start_hosting("alice".to_string()).unwrap_err(),
        ServerError::AlreadyConnected
    ));
}

#[test]
fn server_config_keeps_its_code() {
    let mut server = ServerState::new(None);
    let cfg = server.get_or_create_config("alice".to_string());
    assert_eq!(cfg.code.len(), 6);
    let cfg2 = server.get_or_create_config("bob".to_string());
    assert_eq!(cfg2.code, cfg.code);
    assert_eq!(cfg2.username, "bob");
    server.set_username("carol".to_string()).unwrap();
    assert_eq!(server.get_config().unwrap().username, "carol");
}

#[test]
fn vp8_packetization_layout() {
    let frame: Vec<u8> = (0..2500u32).map(|i| (i % 251) as u8).collect();
    let chunks = packetize_vp8(&frame, 65535);
    assert_eq!(chunks.len(), 3);
    // descriptor: start bit only on the first chunk
    assert_eq!(chunks[0].payload[0], 0x10);
    assert_eq!(chunks[1].payload[0], 0x00);
    assert_eq!(chunks[2].payload[0], 0x00);
    // sequence numbers wrap
    assert_eq!(chunks[0].seq, 65535);
    assert_eq!(chunks[1].seq, 0);
    assert_eq!(chunks[2].seq, 1);
    // marker only on the last
    assert!(!chunks[0].marker);
    assert!(!chunks[1].marker);
    assert!(chunks[2].marker);
    // payload bytes are the frame, in order
    assert_eq!(&chunks[0].payload[1..], &frame[..1200]);
    assert_eq!(&chunks[1].payload[1..], &frame[1200..2400]);
    assert_eq!(&chunks[2].payload[1..], &frame[2400..]);
    assert!(packetize_vp8(&Vec::new(), 5).is_empty());
}

#[test]
fn audio_rtp_counters_wrap() {
    let mut c = AudioRtpCounters::new(4294967000);
    let (s0, t0) = c.next_packet();
    assert_eq!((s0, t0), (0, 4294967000));
    let (s1, t1) = c.next_packet();
    assert_eq!(s1, 1);
    assert_eq!(t1, 664); // wrapped past the 32-bit boundary
}

#[test]
fn participant_ids_are_fresh_uuids() {
    let a = Participant::new("a".to_string(), false);
    let b = Participant::new("b".to_string(), false);
    assert_eq!(a.id.len(), 36);
    assert_eq!(b.id.len(), 36);
    assert_ne!(a.id, b.id);
}

#[test]
fn room_codes_use_the_unambiguous_alphabet() {
    let code = voicecore::room::generate_room_code();
    assert_eq!(code.len(), 6);
    assert!(code.chars().all(|c| "ABCDEFGHJKLMNPQRSTUVWXYZ23456789".contains(c)));
}

#[test]
fn offers_are_base64_of_the_description() {
    let mut mesh = MeshManager::new();
    let desc: Vec<u8> = b"some description".to_vec();
    let offer = mesh.create_offer_for_peer("p", "u", &desc);
    // padded standard-alphabet text, not the raw bytes
    assert_ne!(offer.sdp_base64.as_bytes(), desc.as_slice());
    assert_eq!(offer.sdp_base64, "c29tZSBkZXNjcmlwdGlvbg==");
}
