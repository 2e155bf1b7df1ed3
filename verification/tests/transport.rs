//! Packet transports, packet security and reliable delivery.

use std::cell::RefCell;
use std::rc::Rc;

use sectorsync::ids::{ClientId, StationId, Tick};
use sectorsync::key_ring::{
    PacketKeyDescriptor, PacketKeyRing, PacketKeyRingConfig, PacketKeyRingError, PacketKeyState,
};
use sectorsync::lookup_set::HASHED_BOUNDED_SET_MIN_CAPACITY;
use sectorsync::memory_transport::{
    ClientTransportLimits, InMemoryStationTransport, InMemoryTransportError, InMemoryTransportHub,
    InMemoryTransportStats, PeerAddresses, StationTransportError, StationTransportLimits,
};
use sectorsync::packets::{
    BudgetedTransport, FakeTransport, InboundPacket, OutboundPacket, PacketBatch, PeerAddress,
    StationInboundPacket, StationOutboundPacket, StationPacketBatch, StationTransportReceiver,
    StationTransportSink, TransportError, TransportReceiver, TransportSink,
};
use sectorsync::reliable_client::{
    ReliableClientConfig, ReliableClientEndpoint, ReliableClientError, ReliableClientReceiver,
    ReliableClientRetryScratch, ReliableClientSender,
};
use sectorsync::reliable_frame::{
    ReliableClientFrame, ReliableClientFrameRef, ReliableStationFrame, ReliableStationFrameRef,
    DEFAULT_RELIABLE_CLIENT_DELIVERED_HISTORY, DEFAULT_RELIABLE_CLIENT_MAX_PAYLOAD_BYTES,
    DEFAULT_RELIABLE_STATION_DELIVERED_HISTORY, DEFAULT_RELIABLE_STATION_MAX_PAYLOAD_BYTES,
};
use sectorsync::reliable_station::{
    ReliableStationConfig, ReliableStationEndpoint, ReliableStationError, ReliableStationReceiver,
    ReliableStationRetryScratch, ReliableStationSender,
};
use sectorsync::reliable_window::ReliableRetryReport;
use sectorsync::replay::PacketReplayWindow;
use sectorsync::security_box::{
    PacketAuthenticator, PacketCipher, PacketSecurityBox, PacketSecurityError, PacketSecurityOpenScratch,
    PacketSecurityScratch, PlaintextPacketCipher,
};
use sectorsync::security_envelope::{
    PacketSecurityConfig, PacketSecurityDecodeError, PacketSecurityEncodeError,
    PacketSecurityEnvelope, PacketSecurityEnvelopeRef, PACKET_SECURITY_HEADER_BYTES,
};

/// A hub shared by its endpoints.
#[derive(Clone)]
struct Hub(Rc<RefCell<InMemoryTransportHub>>);

impl Hub {
    fn new(limits: ClientTransportLimits) -> Self {
        Self(Rc::new(RefCell::new(InMemoryTransportHub::new(limits))))
    }

    fn default() -> Self {
        Self::new(ClientTransportLimits::default())
    }

    fn endpoint(
        &self,
        client_id: ClientId,
        address: PeerAddress,
    ) -> Result<Endpoint, InMemoryTransportError> {
        self.0.borrow_mut().register_client(client_id, address);
        Ok(Endpoint {
            hub: self.clone(),
            client_id,
        })
    }

    fn queued_len(&self, client_id: ClientId) -> Option<usize> {
        self.0.borrow().queued_len(client_id)
    }

    fn stats(&self) -> InMemoryTransportStats {
        self.0.borrow().stats()
    }
}

/// One client's end of a hub.
struct Endpoint {
    hub: Hub,
    client_id: ClientId,
}

impl TransportSink for Endpoint {
    type Error = InMemoryTransportError;

    fn send(&mut self, packet: OutboundPacket) -> Result<(), Self::Error> {
        self.hub.0.borrow_mut().send_from(self.client_id, packet)
    }
}

impl TransportReceiver for Endpoint {
    type Error = InMemoryTransportError;

    fn try_recv(&mut self) -> Result<Option<InboundPacket>, Self::Error> {
        self.hub.0.borrow_mut().receive_for(self.client_id)
    }
}

fn memory_addr(port: u16) -> PeerAddress {
    PeerAddress::v4(0x7f00_0001, port)
}

fn packet(bytes: usize) -> OutboundPacket {
    OutboundPacket {
        client_id: ClientId::new(1),
        bytes: vec![0; bytes],
    }
}

fn station_packet(bytes: usize) -> StationOutboundPacket {
    StationOutboundPacket {
        source_station: StationId::new(1),
        target_station: StationId::new(2),
        bytes: vec![1; bytes],
    }
}

#[derive(Clone, Debug, Default)]
struct TestAuthenticator;

impl PacketAuthenticator for TestAuthenticator {
    type Error = core::convert::Infallible;

    fn sign(
        &mut self,
        key_id: u32,
        nonce: u64,
        payload: &[u8],
        out: &mut Vec<u8>,
    ) -> Result<(), Self::Error> {
        out.extend_from_slice(&test_tag(key_id, nonce, payload));
        Ok(())
    }

    fn verify(
        &mut self,
        key_id: u32,
        nonce: u64,
        payload: &[u8],
        tag: &[u8],
    ) -> Result<bool, Self::Error> {
        Ok(tag == test_tag(key_id, nonce, payload))
    }
}

fn test_tag(key_id: u32, nonce: u64, payload: &[u8]) -> [u8; 8] {
    let mut acc = u64::from(key_id)
        .wrapping_mul(0x9E37_79B9_7F4A_7C15)
        .wrapping_add(nonce.rotate_left(17));
    for (index, byte) in payload.iter().copied().enumerate() {
        acc = acc.rotate_left(5) ^ (u64::from(byte) << ((index % 8) * 8));
        acc = acc.wrapping_mul(0x1000_0000_01B3);
    }
    acc.to_le_bytes()
}
#[test]
fn fake_transport_counts_batches_without_storing_packets() {
    let mut batch = PacketBatch::new();
    batch.push(packet(3));
    batch.push(packet(5));

    let mut transport = FakeTransport::default();
    transport
        .send_batch(batch)
        .expect("fake transport is infallible");

    assert_eq!(transport.batches_sent(), 1);
    assert_eq!(transport.packets_sent(), 2);
    assert_eq!(transport.bytes_sent(), 8);
}

#[test]
fn budgeted_transport_rejects_large_batch() {
    let mut batch = PacketBatch::new();
    batch.push(packet(8));
    batch.push(packet(8));

    let mut transport = BudgetedTransport::new(FakeTransport::default(), 16, 12);
    let error = transport
        .send_batch(batch)
        .expect_err("batch should exceed budget");
    assert_eq!(
        error,
        TransportError::ByteBudgetExceeded {
            budget: 12,
            actual: 16
        }
    );
    assert_eq!(transport.inner().packets_sent(), 0);
}

#[test]
fn packet_security_envelope_roundtrips_and_enforces_limits() {
    let config = PacketSecurityConfig {
        max_payload_bytes: 4,
        max_tag_bytes: 8,
        max_replay_history: 4,
    };
    let envelope = PacketSecurityEnvelope {
        key_id: 9,
        nonce: 42,
        payload: b"move".to_vec(),
        tag: vec![1, 2, 3, 4],
    };
    let mut bytes = Vec::new();
    envelope
        .encode(config, &mut bytes)
        .expect("envelope should encode");
    let mut borrowed_bytes = Vec::new();
    PacketSecurityEnvelope::encode_parts(
        config,
        envelope.key_id,
        envelope.nonce,
        &envelope.payload,
        &envelope.tag,
        &mut borrowed_bytes,
    )
    .expect("borrowed envelope should encode");
    assert_eq!(borrowed_bytes, bytes);
    let borrowed = PacketSecurityEnvelopeRef::decode(config, &bytes)
        .expect("borrowed envelope should decode");
    assert_eq!(borrowed.key_id, envelope.key_id);
    assert_eq!(borrowed.nonce, envelope.nonce);
    assert_eq!(borrowed.payload, envelope.payload);
    assert_eq!(borrowed.tag, envelope.tag);
    assert!(borrowed.payload.as_ptr() >= bytes.as_ptr());
    assert!(borrowed.tag.as_ptr() >= borrowed.payload.as_ptr());
    assert_eq!(
        PacketSecurityEnvelope::decode(config, &bytes).expect("envelope should decode"),
        envelope
    );

    let too_large = PacketSecurityEnvelope {
        key_id: 9,
        nonce: 43,
        payload: b"large".to_vec(),
        tag: Vec::new(),
    }
    .encode(config, &mut Vec::new())
    .expect_err("payload should exceed configured budget");
    assert_eq!(
        too_large,
        PacketSecurityEncodeError::PayloadTooLarge {
            budget: 4,
            actual: 5
        }
    );

    let mut bad = bytes;
    bad[16..20].copy_from_slice(&5_u32.to_le_bytes());
    assert_eq!(
        PacketSecurityEnvelope::decode(config, &bad)
            .expect_err("decoded payload length should exceed budget"),
        PacketSecurityDecodeError::PayloadTooLarge {
            budget: 4,
            actual: 5
        }
    );
}

#[test]
fn packet_key_ring_selects_active_key_and_accepts_retiring_key() {
    let now = Tick::new(10);
    let mut ring = PacketKeyRing::new(PacketKeyRingConfig { max_keys: 4 });
    ring.insert_active(1, now, 1)
        .expect("first key should insert");
    ring.insert_active(2, Tick::new(11), 10)
        .expect("second key should insert");

    assert_eq!(
        ring.select_send_key(now).expect("key 1 should send").key_id,
        1
    );
    assert_eq!(
        ring.select_send_key(Tick::new(11))
            .expect("key 2 should send")
            .key_id,
        2
    );

    ring.retire(1, Tick::new(12)).expect("key 1 should retire");
    assert_eq!(
        ring.accept_key(1, Tick::new(12))
            .expect("retiring key should still receive")
            .state,
        PacketKeyState::Retiring
    );
    assert_eq!(
        ring.select_send_key(Tick::new(12))
            .expect("active key should win")
            .key_id,
        2
    );
    assert_eq!(ring.stats().keys_inserted, 2);
    assert_eq!(ring.stats().keys_retired, 1);
}

#[test]
fn packet_key_ring_rejects_revoked_expired_and_over_capacity_keys() {
    let mut ring = PacketKeyRing::new(PacketKeyRingConfig { max_keys: 2 });
    ring.insert(PacketKeyDescriptor::active(1, Tick::new(1), 1).with_expiry(Tick::new(5)))
        .expect("expiring key should insert");
    ring.insert_active(2, Tick::new(1), 2)
        .expect("second key should insert");
    assert_eq!(
        ring.insert_active(3, Tick::new(1), 3)
            .expect_err("ring should be full"),
        PacketKeyRingError::CapacityFull { capacity: 2 }
    );
    assert_eq!(
        ring.insert_active(2, Tick::new(1), 2)
            .expect_err("duplicate should reject"),
        PacketKeyRingError::DuplicateKey(2)
    );

    assert!(ring.accept_key(1, Tick::new(4)).is_ok());
    assert_eq!(
        ring.accept_key(1, Tick::new(5))
            .expect_err("expired key should reject"),
        PacketKeyRingError::KeyNotAccepted {
            key_id: 1,
            state: PacketKeyState::Active
        }
    );
    ring.revoke(2).expect("key should revoke");
    assert_eq!(
        ring.accept_key(2, Tick::new(4))
            .expect_err("revoked key should reject"),
        PacketKeyRingError::KeyNotAccepted {
            key_id: 2,
            state: PacketKeyState::Revoked
        }
    );
    assert_eq!(ring.remove_expired(Tick::new(5)), 1);
    assert_eq!(ring.len(), 1);
    assert_eq!(ring.stats().keys_revoked, 1);
    assert_eq!(ring.stats().keys_expired_removed, 1);
}

#[test]
fn packet_security_box_seals_opens_and_rejects_replay() {
    let mut sender = PacketSecurityBox::new(
        PacketSecurityConfig::default(),
        TestAuthenticator,
        PlaintextPacketCipher,
    );
    let mut receiver = PacketSecurityBox::new(
        PacketSecurityConfig::default(),
        TestAuthenticator,
        PlaintextPacketCipher,
    );
    let sealed = sender.seal(7, b"command").expect("packet should seal");
    assert_eq!(sender.stats().sealed, 1);
    let opened = receiver.open(&sealed).expect("packet should open");
    assert_eq!(opened, b"command");
    assert_eq!(receiver.stats().opened, 1);

    let replay = receiver.open(&sealed).expect_err("replay should reject");
    match replay {
        PacketSecurityError::Replay { key_id, nonce } => {
            assert_eq!(key_id, 7);
            assert_eq!(nonce, 1);
        }
        other => panic!("unexpected error: {other:?}"),
    }
    assert_eq!(receiver.stats().replay_rejected, 1);
}

#[test]
fn packet_security_seal_into_matches_owned_and_reuses_scratch_atomically() {
    let config = PacketSecurityConfig::default();
    let mut owned = PacketSecurityBox::new(config, TestAuthenticator, PlaintextPacketCipher);
    let mut reused = PacketSecurityBox::new(config, TestAuthenticator, PlaintextPacketCipher);
    let mut scratch = PacketSecurityScratch::with_capacity(32, 8);
    let mut out = Vec::with_capacity(64);

    let expected = owned
        .seal_with_nonce(7, 10, b"command")
        .expect("owned packet should seal");
    reused
        .seal_with_nonce_into(7, 10, b"command", &mut out, &mut scratch)
        .expect("reused packet should seal");
    assert_eq!(out, expected);
    let payload_ptr = scratch.sealed_payload.as_ptr();
    let tag_ptr = scratch.tag.as_ptr();
    let payload_capacity = scratch.retained_payload_capacity();
    let tag_capacity = scratch.retained_tag_capacity();

    out.clear();
    let nonce = reused
        .seal_into(7, b"ack", &mut out, &mut scratch)
        .expect("allocated nonce packet should seal");
    assert_eq!(nonce, 1);
    let envelope =
        PacketSecurityEnvelope::decode(config, &out).expect("reused packet should decode");
    assert_eq!(envelope.nonce, nonce);
    assert_eq!(scratch.sealed_payload.as_ptr(), payload_ptr);
    assert_eq!(scratch.tag.as_ptr(), tag_ptr);
    assert_eq!(scratch.retained_payload_capacity(), payload_capacity);
    assert_eq!(scratch.retained_tag_capacity(), tag_capacity);
    assert_eq!(reused.stats().sealed, 2);

    let before_error = out.clone();
    let too_large = vec![0_u8; config.max_payload_bytes + 1];
    assert!(matches!(
        reused.seal_with_nonce_into(7, 11, &too_large, &mut out, &mut scratch),
        Err(PacketSecurityError::Encode(
            PacketSecurityEncodeError::PayloadTooLarge { .. }
        ))
    ));
    assert_eq!(out, before_error);

    let small_tag_config = PacketSecurityConfig {
        max_tag_bytes: 4,
        ..config
    };
    let mut small_tag =
        PacketSecurityBox::new(small_tag_config, TestAuthenticator, PlaintextPacketCipher);
    assert!(matches!(
        small_tag.seal_with_nonce_into(7, 12, b"tag", &mut out, &mut scratch),
        Err(PacketSecurityError::Encode(
            PacketSecurityEncodeError::TagTooLarge { .. }
        ))
    ));
    assert_eq!(out, before_error);
}

#[test]
fn packet_security_open_scratch_matches_owned_reuses_and_preserves_failed_input() {
    let config = PacketSecurityConfig::default();
    let mut sender = PacketSecurityBox::new(config, TestAuthenticator, PlaintextPacketCipher);
    let first = sender
        .seal_with_nonce(7, 10, b"first-command")
        .expect("first packet should seal");
    let second = sender
        .seal_with_nonce(7, 11, b"second-command")
        .expect("second packet should seal");
    let mut owned_receiver =
        PacketSecurityBox::new(config, TestAuthenticator, PlaintextPacketCipher);
    let expected = owned_receiver
        .open(&first)
        .expect("owned packet should open");

    let mut receiver = PacketSecurityBox::new(config, TestAuthenticator, PlaintextPacketCipher);
    let mut scratch = PacketSecurityOpenScratch::with_capacity(32);
    let first_ptr = {
        let opened = receiver
            .open_with_scratch(&first, &mut scratch)
            .expect("scratch packet should open");
        assert_eq!(opened.key_id, 7);
        assert_eq!(opened.nonce, 10);
        assert_eq!(opened.payload, expected);
        opened.payload.as_ptr()
    };
    let retained = scratch.retained_payload_capacity();
    let second_payload = {
        let opened = receiver
            .open_with_scratch(&second, &mut scratch)
            .expect("second scratch packet should open");
        assert_eq!(opened.payload.as_ptr(), first_ptr);
        opened.payload.to_vec()
    };
    assert_eq!(second_payload, b"second-command");
    assert_eq!(scratch.retained_payload_capacity(), retained);
    assert_eq!(receiver.stats().opened, 2);

    let before_failure = scratch.payload.clone();
    let mut tampered = sender
        .seal_with_nonce(7, 12, b"tampered")
        .expect("tampered source should seal");
    tampered[PACKET_SECURITY_HEADER_BYTES] ^= 0x55;
    assert!(matches!(
        receiver.open_with_scratch(&tampered, &mut scratch),
        Err(PacketSecurityError::AuthenticationFailed { .. })
    ));
    assert_eq!(scratch.payload, before_failure);
}

#[test]
fn packet_security_box_uses_key_ring_for_rotation_policy() {
    let mut sender_ring = PacketKeyRing::default();
    let mut receiver_ring = PacketKeyRing::default();
    sender_ring
        .insert_active(7, Tick::new(10), 1)
        .expect("sender key should insert");
    receiver_ring
        .insert_active(7, Tick::new(10), 1)
        .expect("receiver key should insert");

    let mut sender = PacketSecurityBox::new(
        PacketSecurityConfig::default(),
        TestAuthenticator,
        PlaintextPacketCipher,
    );
    let mut receiver = PacketSecurityBox::new(
        PacketSecurityConfig::default(),
        TestAuthenticator,
        PlaintextPacketCipher,
    );
    let mut open_scratch = PacketSecurityOpenScratch::with_capacity(16);

    let sealed = sender
        .seal_with_key_ring(&sender_ring, b"command", Tick::new(10))
        .expect("packet should seal through selected key");
    let envelope = PacketSecurityEnvelope::decode(PacketSecurityConfig::default(), &sealed)
        .expect("packet should decode");
    assert_eq!(envelope.key_id, 7);
    assert_eq!(
        receiver
            .open_with_key_ring_and_scratch(
                &receiver_ring,
                &sealed,
                Tick::new(10),
                &mut open_scratch,
            )
            .expect("packet should open through accepted key")
            .payload,
        b"command"
    );

    sender_ring
        .insert_active(8, Tick::new(11), 10)
        .expect("rotated sender key should insert");
    receiver_ring
        .insert_active(8, Tick::new(11), 10)
        .expect("rotated receiver key should insert");
    receiver_ring
        .retire(7, Tick::new(11))
        .expect("old key should retire");
    let rotated = sender
        .seal_with_key_ring(&sender_ring, b"ack", Tick::new(11))
        .expect("rotated packet should seal");
    let rotated_envelope =
        PacketSecurityEnvelope::decode(PacketSecurityConfig::default(), &rotated)
            .expect("rotated packet should decode");
    assert_eq!(rotated_envelope.key_id, 8);
    assert_eq!(
        receiver
            .open_with_key_ring_and_scratch(
                &receiver_ring,
                &rotated,
                Tick::new(11),
                &mut open_scratch,
            )
            .expect("rotated packet should open")
            .payload,
        b"ack"
    );

    receiver_ring.revoke(7).expect("old key should revoke");
    let stale = sender
        .seal_with_nonce(7, 99, b"stale")
        .expect("explicit stale-key packet should seal");
    let error = receiver
        .open_with_key_ring(&receiver_ring, &stale, Tick::new(12))
        .expect_err("revoked key should reject before auth");
    match error {
        PacketSecurityError::Key(PacketKeyRingError::KeyNotAccepted { key_id, state }) => {
            assert_eq!(key_id, 7);
            assert_eq!(state, PacketKeyState::Revoked);
        }
        other => panic!("unexpected error: {other:?}"),
    }
    assert_eq!(receiver.stats().key_rejected, 1);
}

#[test]
fn packet_security_box_rejects_tampered_payload() {
    let mut sender = PacketSecurityBox::new(
        PacketSecurityConfig::default(),
        TestAuthenticator,
        PlaintextPacketCipher,
    );
    let mut receiver = PacketSecurityBox::new(
        PacketSecurityConfig::default(),
        TestAuthenticator,
        PlaintextPacketCipher,
    );

    let mut sealed = sender
        .seal_with_nonce(7, 10, b"command")
        .expect("packet should seal");
    let payload_offset = PACKET_SECURITY_HEADER_BYTES;
    sealed[payload_offset] ^= 0x55;
    let error = receiver
        .open(&sealed)
        .expect_err("tampered payload should reject");
    match error {
        PacketSecurityError::AuthenticationFailed { key_id, nonce } => {
            assert_eq!(key_id, 7);
            assert_eq!(nonce, 10);
        }
        other => panic!("unexpected error: {other:?}"),
    }
    assert_eq!(receiver.stats().auth_failed, 1);
    assert_eq!(receiver.replay().len(), 0);
}

#[test]
fn packet_replay_window_bounds_history() {
    let mut replay = PacketReplayWindow::new(2);
    assert!(replay.accept(1, 1));
    assert!(replay.accept(1, 2));
    assert!(!replay.accept(1, 2));
    assert!(replay.accept(1, 3));
    assert_eq!(replay.len(), 2);
    assert!(!replay.contains(1, 1));
    assert!(replay.accept(1, 1));
}

#[test]
fn bounded_duplicate_indexes_adapt_to_configured_capacity() {
    let ordered = PacketReplayWindow::new(HASHED_BOUNDED_SET_MIN_CAPACITY - 1);
    let hashed = PacketReplayWindow::new(HASHED_BOUNDED_SET_MIN_CAPACITY);
    assert!(!ordered.history.keys.is_hashed());
    assert!(hashed.history.keys.is_hashed());

    let client = ReliableClientReceiver::new(ReliableClientConfig {
        max_delivered_history: HASHED_BOUNDED_SET_MIN_CAPACITY,
        ..ReliableClientConfig::default()
    });
    let station = ReliableStationReceiver::new(ReliableStationConfig {
        max_delivered_history: HASHED_BOUNDED_SET_MIN_CAPACITY,
        ..ReliableStationConfig::default()
    });
    assert!(client.delivered.keys.is_hashed());
    assert!(station.delivered.keys.is_hashed());
}

#[test]
fn in_memory_transport_delivers_bounded_packets() {
    let client_id = ClientId::new(7);
    let server_id = ClientId::new(0);
    let hub = Hub::new(ClientTransportLimits {
        max_queued_packets_per_client: 2,
        max_packet_bytes: 8,
    });
    let mut client = hub
        .endpoint(client_id, memory_addr(20007))
        .expect("client should register");
    let mut server = hub
        .endpoint(server_id, memory_addr(20000))
        .expect("server should register");

    client
        .send(OutboundPacket {
            client_id: server_id,
            bytes: b"command".to_vec(),
        })
        .expect("client packet should send");
    assert_eq!(
        hub.queued_len(server_id),
        Some(1)
    );

    let inbound = server
        .try_recv()
        .expect("server receive should work")
        .expect("packet should exist");
    assert_eq!(inbound.client_id, Some(client_id));
    assert_eq!(inbound.remote_addr, memory_addr(20007));
    assert_eq!(inbound.bytes, b"command");

    let stats = hub.stats();
    assert_eq!(stats.packets_sent, 1);
    assert_eq!(stats.packets_received, 1);
    assert_eq!(stats.bytes_sent, 7);
    assert_eq!(stats.bytes_received, 7);
}

#[test]
fn in_memory_transport_rejects_full_queue_and_large_packet() {
    let client_id = ClientId::new(7);
    let server_id = ClientId::new(0);
    let hub = Hub::new(ClientTransportLimits {
        max_queued_packets_per_client: 1,
        max_packet_bytes: 4,
    });
    let mut client = hub
        .endpoint(client_id, memory_addr(20007))
        .expect("client should register");
    hub.endpoint(server_id, memory_addr(20000))
        .expect("server should register");

    client
        .send(OutboundPacket {
            client_id: server_id,
            bytes: vec![0; 4],
        })
        .expect("first packet should send");

    let full = client
        .send(OutboundPacket {
            client_id: server_id,
            bytes: vec![0; 4],
        })
        .expect_err("queue should be full");
    assert_eq!(
        full,
        InMemoryTransportError::QueueFull {
            client_id: server_id,
            capacity: 1
        }
    );

    let large = client
        .send(OutboundPacket {
            client_id: server_id,
            bytes: vec![0; 5],
        })
        .expect_err("packet should exceed budget");
    assert_eq!(
        large,
        InMemoryTransportError::PacketTooLarge {
            budget: 4,
            actual: 5
        }
    );

    let stats = hub.stats();
    assert_eq!(stats.packets_rejected_full, 1);
    assert_eq!(stats.packets_rejected_bytes, 1);
}

#[test]
fn reliable_client_frame_roundtrips_data_and_ack() {
    let data = ReliableClientFrame::Data {
        sequence: 42,
        payload: b"command".to_vec(),
    };
    let mut bytes = Vec::new();
    data.encode(&mut bytes).expect("data frame should encode");
    let mut direct = Vec::new();
    ReliableClientFrame::encode_data(42, b"command", &mut direct)
        .expect("borrowed data frame should encode");
    assert_eq!(direct, bytes);
    assert_eq!(
        ReliableClientFrame::decode_ref(&bytes).expect("data frame view should decode"),
        ReliableClientFrameRef::Data {
            sequence: 42,
            payload: b"command"
        }
    );
    assert_eq!(
        ReliableClientFrame::decode(&bytes).expect("data frame should decode"),
        data
    );
    let truncated = &bytes[..bytes.len() - 1];
    assert_eq!(
        ReliableClientFrame::decode_ref(truncated).expect_err("view should reject truncation"),
        ReliableClientFrame::decode(truncated).expect_err("owned should reject truncation")
    );
    let mut trailing = bytes.clone();
    trailing.push(0);
    assert_eq!(
        ReliableClientFrame::decode_ref(&trailing).expect_err("view should reject trailing"),
        ReliableClientFrame::decode(&trailing).expect_err("owned should reject trailing")
    );

    let ack = ReliableClientFrame::Ack { sequence: 42 };
    bytes.clear();
    ack.encode(&mut bytes).expect("ack frame should encode");
    assert_eq!(
        ReliableClientFrame::decode(&bytes).expect("ack frame should decode"),
        ack
    );
}

#[test]
fn reliable_client_endpoint_delivers_payload_and_acknowledges() {
    let client_id = ClientId::new(7);
    let server_id = ClientId::new(0);
    let hub = Hub::default();
    let mut client_transport = hub
        .endpoint(client_id, memory_addr(20007))
        .expect("client should register");
    let mut server_transport = hub
        .endpoint(server_id, memory_addr(20000))
        .expect("server should register");
    let mut client = ReliableClientEndpoint::default();
    let mut server = ReliableClientEndpoint::default();

    let sequence = client
        .send(
            &mut client_transport,
            OutboundPacket {
                client_id: server_id,
                bytes: b"command".to_vec(),
            },
            0,
        )
        .expect("reliable command should send");
    assert_eq!(sequence, 1);
    assert_eq!(client.sender.in_flight_len(), 1);

    let raw = server_transport
        .try_recv()
        .expect("server receive should work")
        .expect("data packet should exist");
    let wire_pointer = raw.bytes.as_ptr();
    let delivered = server
        .handle_inbound(&mut server_transport, raw)
        .expect("data packet should handle")
        .expect("first data packet should deliver");
    assert_eq!(delivered.client_id, Some(client_id));
    assert_eq!(delivered.remote_addr, memory_addr(20007));
    assert_eq!(delivered.bytes, b"command");
    assert_eq!(delivered.bytes.as_ptr(), wire_pointer);
    assert_eq!(server.receiver.stats().data_delivered, 1);
    assert_eq!(server.receiver.stats().acks_sent, 1);

    let ack = client_transport
        .try_recv()
        .expect("client ACK receive should work")
        .expect("ACK packet should exist");
    assert_eq!(
        client
            .handle_inbound(&mut client_transport, ack)
            .expect("ACK should handle"),
        None
    );
    assert_eq!(client.sender.in_flight_len(), 0);
    assert_eq!(client.sender.stats().acks_received, 1);
}

#[test]
fn reliable_client_endpoint_retries_and_suppresses_duplicate_delivery() {
    let client_id = ClientId::new(7);
    let server_id = ClientId::new(0);
    let hub = Hub::default();
    let mut client_transport = hub
        .endpoint(client_id, memory_addr(20007))
        .expect("client should register");
    let mut server_transport = hub
        .endpoint(server_id, memory_addr(20000))
        .expect("server should register");
    let mut client = ReliableClientEndpoint::default();
    let mut server = ReliableClientEndpoint::default();

    client
        .send(
            &mut client_transport,
            OutboundPacket {
                client_id: server_id,
                bytes: b"idempotent-command".to_vec(),
            },
            0,
        )
        .expect("reliable command should send");
    let mut retry_scratch = ReliableClientRetryScratch::new();
    let retry = client
        .retry_due_with_scratch(&mut client_transport, 2, &mut retry_scratch)
        .expect("retry should send");
    assert_eq!(retry.retried, 1);
    assert_eq!(retry.timed_out, 0);
    assert_eq!(client.sender.stats().retries_sent, 1);
    let retained_keys = retry_scratch.retained_key_capacity();
    assert!(retained_keys >= 1);
    assert_eq!(
        client
            .retry_due_with_scratch(&mut client_transport, 2, &mut retry_scratch)
            .expect("non-due scan should succeed"),
        ReliableRetryReport::default()
    );
    assert_eq!(retry_scratch.retained_key_capacity(), retained_keys);
    assert_eq!(
        hub.queued_len(server_id),
        Some(2)
    );

    let first_raw = server_transport
        .try_recv()
        .expect("server receive should work")
        .expect("first data packet should exist");
    let delivered = server
        .handle_inbound(&mut server_transport, first_raw)
        .expect("first data packet should handle")
        .expect("first data packet should deliver");
    assert_eq!(delivered.bytes, b"idempotent-command");

    let duplicate_raw = server_transport
        .try_recv()
        .expect("server receive should work")
        .expect("duplicate data packet should exist");
    assert_eq!(
        server
            .handle_inbound(&mut server_transport, duplicate_raw)
            .expect("duplicate data packet should handle"),
        None
    );
    assert_eq!(server.receiver.stats().data_delivered, 1);
    assert_eq!(server.receiver.stats().duplicates_suppressed, 1);
    assert_eq!(server.receiver.stats().acks_sent, 2);
}

#[test]
fn reliable_client_failed_retry_preserves_attempt_before_timeout() {
    let client_id = ClientId::new(7);
    let server_id = ClientId::new(0);
    let hub = Hub::new(ClientTransportLimits {
        max_queued_packets_per_client: 1,
        max_packet_bytes: 128,
    });
    let mut client_transport = hub
        .endpoint(client_id, memory_addr(20007))
        .expect("client should register");
    let mut server_transport = hub
        .endpoint(server_id, memory_addr(20000))
        .expect("server should register");
    let mut sender = ReliableClientSender::new(ReliableClientConfig {
        max_in_flight_per_peer: 1,
        retry_after_ticks: 1,
        max_attempts: 2,
        max_payload_bytes: 64,
        max_delivered_history: 0,
    });
    let mut scratch = ReliableClientRetryScratch::new();
    sender
        .send(
            &mut client_transport,
            OutboundPacket {
                client_id: server_id,
                bytes: b"retry".to_vec(),
            },
            0,
        )
        .expect("initial packet should fill queue");

    assert!(matches!(
        sender.retry_due_with_scratch(&mut client_transport, 1, &mut scratch),
        Err(ReliableClientError::Transport(
            InMemoryTransportError::QueueFull { .. }
        ))
    ));
    server_transport
        .try_recv()
        .expect("queue should read")
        .expect("initial packet should remain");
    assert_eq!(
        sender
            .retry_due_with_scratch(&mut client_transport, 1, &mut scratch)
            .expect("failed attempt must remain retryable")
            .retried,
        1
    );
    let timeout = sender
        .retry_due_with_scratch(&mut client_transport, 2, &mut scratch)
        .expect("exhausted packet should time out");
    assert_eq!(timeout.retried, 0);
    assert_eq!(timeout.timed_out, 1);
    assert_eq!(sender.in_flight_len(), 0);
    assert_eq!(sender.in_flight_for(server_id), 0);
    assert!(!sender.window.in_flight_by_peer.contains_key(u128::from(server_id.get())));
}

#[test]
fn reliable_client_receiver_bounds_duplicate_history() {
    let client_id = ClientId::new(7);
    let server_id = ClientId::new(0);
    let hub = Hub::default();
    hub.endpoint(client_id, memory_addr(20007))
        .expect("client should register");
    let mut server_transport = hub
        .endpoint(server_id, memory_addr(20000))
        .expect("server should register");
    let config = ReliableClientConfig {
        max_in_flight_per_peer: 8,
        retry_after_ticks: 2,
        max_attempts: 4,
        max_payload_bytes: DEFAULT_RELIABLE_CLIENT_MAX_PAYLOAD_BYTES,
        max_delivered_history: 1,
    };
    let mut server = ReliableClientEndpoint::new(config);

    let packet = |sequence: u64, payload: &[u8]| {
        let mut bytes = Vec::new();
        ReliableClientFrame::Data {
            sequence,
            payload: payload.to_vec(),
        }
        .encode(&mut bytes)
        .expect("data frame should encode");
        InboundPacket {
            client_id: Some(client_id),
            remote_addr: memory_addr(20007),
            bytes,
        }
    };

    assert!(
        server
            .handle_inbound(&mut server_transport, packet(1, b"first"))
            .expect("first data packet should handle")
            .is_some()
    );
    assert_eq!(
        server
            .handle_inbound(&mut server_transport, packet(1, b"first-duplicate"))
            .expect("duplicate data packet should handle"),
        None
    );
    assert!(
        server
            .handle_inbound(&mut server_transport, packet(2, b"second"))
            .expect("second data packet should handle")
            .is_some()
    );
    assert!(
        server
            .handle_inbound(&mut server_transport, packet(1, b"first-after-eviction"))
            .expect("evicted data packet should handle")
            .is_some()
    );
    assert_eq!(server.receiver.stats().data_delivered, 3);
    assert_eq!(server.receiver.stats().duplicates_suppressed, 1);
}

#[test]
fn reliable_client_sender_enforces_payload_and_window_limits() {
    let client_id = ClientId::new(7);
    let server_id = ClientId::new(0);
    let hub = Hub::default();
    let mut client_transport = hub
        .endpoint(client_id, memory_addr(20007))
        .expect("client should register");
    hub.endpoint(server_id, memory_addr(20000))
        .expect("server should register");
    let config = ReliableClientConfig {
        max_in_flight_per_peer: 1,
        retry_after_ticks: 2,
        max_attempts: 4,
        max_payload_bytes: 4,
        max_delivered_history: DEFAULT_RELIABLE_CLIENT_DELIVERED_HISTORY,
    };
    let mut client = ReliableClientEndpoint::new(config);

    let too_large = client
        .send(
            &mut client_transport,
            OutboundPacket {
                client_id: server_id,
                bytes: vec![0; 5],
            },
            0,
        )
        .expect_err("payload should exceed configured budget");
    match too_large {
        ReliableClientError::PayloadTooLarge { budget, actual } => {
            assert_eq!(budget, 4);
            assert_eq!(actual, 5);
        }
        other => panic!("unexpected error: {other:?}"),
    }

    client
        .send(
            &mut client_transport,
            OutboundPacket {
                client_id: server_id,
                bytes: vec![0; 4],
            },
            0,
        )
        .expect("first packet should fit");
    let full = client
        .send(
            &mut client_transport,
            OutboundPacket {
                client_id: server_id,
                bytes: vec![1; 4],
            },
            0,
        )
        .expect_err("in-flight window should be full");
    match full {
        ReliableClientError::WindowFull {
            peer_client,
            capacity,
        } => {
            assert_eq!(peer_client, server_id);
            assert_eq!(capacity, 1);
        }
        other => panic!("unexpected error: {other:?}"),
    }
}

#[test]
fn reliable_client_window_counts_track_peers_and_saturated_sequence_replacement() {
    let first_peer = ClientId::new(1);
    let second_peer = ClientId::new(2);
    let mut transport = FakeTransport::default();
    let mut sender = ReliableClientSender::new(ReliableClientConfig {
        max_in_flight_per_peer: 3,
        retry_after_ticks: 2,
        max_attempts: 4,
        max_payload_bytes: 16,
        max_delivered_history: 0,
    });
    let mut send = |sender: &mut ReliableClientSender, peer_client| {
        sender
            .send(
                &mut transport,
                OutboundPacket {
                    client_id: peer_client,
                    bytes: b"count".to_vec(),
                },
                0,
            )
            .expect("bounded packet should send")
    };

    assert_eq!(send(&mut sender, first_peer), 1);
    assert_eq!(send(&mut sender, first_peer), 2);
    assert_eq!(send(&mut sender, second_peer), 1);
    assert_eq!(sender.in_flight_for(first_peer), 2);
    assert_eq!(sender.in_flight_for(second_peer), 1);
    assert!(sender.acknowledge(first_peer, 1));
    assert_eq!(sender.in_flight_for(first_peer), 1);

    sender
        .window
        .next_sequence
        .insert(u128::from(first_peer.get()), u64::MAX);
    assert_eq!(send(&mut sender, first_peer), u64::MAX);
    assert_eq!(sender.in_flight_for(first_peer), 2);
    assert_eq!(send(&mut sender, first_peer), u64::MAX);
    assert_eq!(sender.in_flight_for(first_peer), 2);

    assert!(sender.acknowledge(first_peer, u64::MAX));
    assert!(sender.acknowledge(first_peer, 2));
    assert_eq!(sender.in_flight_for(first_peer), 0);
    assert!(!sender.window.in_flight_by_peer.contains_key(u128::from(first_peer.get())));
    assert_eq!(sender.in_flight_for(second_peer), 1);
}

#[test]
fn reliable_client_endpoint_rejects_unknown_packet_source() {
    let mut endpoint = ReliableClientEndpoint::default();
    let mut transport = FakeTransport::default();
    let mut bytes = Vec::new();
    ReliableClientFrame::Ack { sequence: 1 }
        .encode(&mut bytes)
        .expect("ACK should encode");
    let error = endpoint
        .handle_inbound(
            &mut transport,
            InboundPacket {
                client_id: None,
                remote_addr: memory_addr(20007),
                bytes,
            },
        )
        .expect_err("unknown source should be rejected");
    match error {
        ReliableClientError::MissingSourceClient => {}
        other => panic!("unexpected error: {other:?}"),
    }
}

#[test]
fn in_memory_station_transport_delivers_bounded_packets() {
    let mut transport = InMemoryStationTransport::new(StationTransportLimits {
        max_queued_packets_per_station: 2,
        max_packet_bytes: 8,
    });
    transport.register_station(StationId::new(2));

    transport
        .send_station(station_packet(4))
        .expect("station packet should send");
    assert_eq!(transport.queued_len(StationId::new(2)), Some(1));

    let packet = transport
        .try_recv_station(StationId::new(2))
        .expect("receive should work")
        .expect("packet should exist");
    assert_eq!(packet.source_station, StationId::new(1));
    assert_eq!(packet.target_station, StationId::new(2));
    assert_eq!(packet.bytes, vec![1; 4]);
    assert_eq!(transport.stats().packets_sent, 1);
    assert_eq!(transport.stats().packets_received, 1);
}

#[test]
fn in_memory_station_transport_rejects_full_queue_and_large_packet() {
    let mut transport = InMemoryStationTransport::new(StationTransportLimits {
        max_queued_packets_per_station: 1,
        max_packet_bytes: 4,
    });
    transport.register_station(StationId::new(2));
    transport
        .send_station(station_packet(4))
        .expect("first packet should send");

    let full = transport
        .send_station(station_packet(4))
        .expect_err("queue should be full");
    assert_eq!(
        full,
        StationTransportError::QueueFull {
            station_id: StationId::new(2),
            capacity: 1
        }
    );

    let large = transport
        .send_station(station_packet(5))
        .expect_err("packet should exceed budget");
    assert_eq!(
        large,
        StationTransportError::PacketTooLarge {
            budget: 4,
            actual: 5
        }
    );
    assert_eq!(transport.stats().packets_rejected_full, 1);
    assert_eq!(transport.stats().packets_rejected_bytes, 1);
}

#[test]
fn reliable_station_frame_roundtrips_data_and_ack() {
    let data = ReliableStationFrame::Data {
        sequence: 42,
        payload: b"station-event".to_vec(),
    };
    let mut bytes = Vec::new();
    data.encode(&mut bytes).expect("data frame should encode");
    let mut direct = Vec::new();
    ReliableStationFrame::encode_data(42, b"station-event", &mut direct)
        .expect("borrowed data frame should encode");
    assert_eq!(direct, bytes);
    assert_eq!(
        ReliableStationFrame::decode_ref(&bytes).expect("data frame view should decode"),
        ReliableStationFrameRef::Data {
            sequence: 42,
            payload: b"station-event"
        }
    );
    assert_eq!(
        ReliableStationFrame::decode(&bytes).expect("data frame should decode"),
        data
    );
    let truncated = &bytes[..bytes.len() - 1];
    assert_eq!(
        ReliableStationFrame::decode_ref(truncated).expect_err("view should reject truncation"),
        ReliableStationFrame::decode(truncated).expect_err("owned should reject truncation")
    );
    let mut trailing = bytes.clone();
    trailing.push(0);
    assert_eq!(
        ReliableStationFrame::decode_ref(&trailing).expect_err("view should reject trailing"),
        ReliableStationFrame::decode(&trailing).expect_err("owned should reject trailing")
    );

    let ack = ReliableStationFrame::Ack { sequence: 42 };
    bytes.clear();
    ack.encode(&mut bytes).expect("ack frame should encode");
    assert_eq!(
        ReliableStationFrame::decode(&bytes).expect("ack frame should decode"),
        ack
    );
}

#[test]
fn reliable_station_endpoint_delivers_payload_and_acknowledges() {
    let station_one = StationId::new(1);
    let station_two = StationId::new(2);
    let mut transport = InMemoryStationTransport::default();
    transport.register_station(station_one);
    transport.register_station(station_two);
    let mut first = ReliableStationEndpoint::default();
    let mut second = ReliableStationEndpoint::default();

    let sequence = first
        .send(
            &mut transport,
            StationOutboundPacket {
                source_station: station_one,
                target_station: station_two,
                bytes: b"event".to_vec(),
            },
            0,
        )
        .expect("reliable packet should send");
    assert_eq!(sequence, 1);
    assert_eq!(first.sender.in_flight_len(), 1);

    let raw = transport
        .try_recv_station(station_two)
        .expect("receive should work")
        .expect("data packet should exist");
    let wire_pointer = raw.bytes.as_ptr();
    let delivered = second
        .handle_inbound(&mut transport, raw)
        .expect("data packet should handle")
        .expect("first data packet should deliver");
    assert_eq!(delivered.source_station, station_one);
    assert_eq!(delivered.target_station, station_two);
    assert_eq!(delivered.bytes, b"event");
    assert_eq!(delivered.bytes.as_ptr(), wire_pointer);
    assert_eq!(second.receiver.stats().data_delivered, 1);
    assert_eq!(second.receiver.stats().acks_sent, 1);

    let ack = transport
        .try_recv_station(station_one)
        .expect("ack receive should work")
        .expect("ack packet should exist");
    assert_eq!(
        first
            .handle_inbound(&mut transport, ack)
            .expect("ack should handle"),
        None
    );
    assert_eq!(first.sender.in_flight_len(), 0);
    assert_eq!(first.sender.stats().acks_received, 1);
}

#[test]
fn reliable_station_endpoint_retries_and_suppresses_duplicate_delivery() {
    let station_one = StationId::new(1);
    let station_two = StationId::new(2);
    let mut transport = InMemoryStationTransport::default();
    transport.register_station(station_one);
    transport.register_station(station_two);
    let mut first = ReliableStationEndpoint::default();
    let mut second = ReliableStationEndpoint::default();

    first
        .send(
            &mut transport,
            StationOutboundPacket {
                source_station: station_one,
                target_station: station_two,
                bytes: b"idempotent-event".to_vec(),
            },
            0,
        )
        .expect("reliable packet should send");
    let mut retry_scratch = ReliableStationRetryScratch::new();
    let retry = first
        .retry_due_with_scratch(&mut transport, 2, &mut retry_scratch)
        .expect("retry should send");
    assert_eq!(retry.retried, 1);
    assert_eq!(retry.timed_out, 0);
    assert_eq!(first.sender.stats().retries_sent, 1);
    let retained_keys = retry_scratch.retained_key_capacity();
    assert!(retained_keys >= 1);
    assert_eq!(
        first
            .retry_due_with_scratch(&mut transport, 2, &mut retry_scratch)
            .expect("non-due scan should succeed"),
        ReliableRetryReport::default()
    );
    assert_eq!(retry_scratch.retained_key_capacity(), retained_keys);
    assert_eq!(transport.queued_len(station_two), Some(2));

    let first_raw = transport
        .try_recv_station(station_two)
        .expect("receive should work")
        .expect("first data packet should exist");
    let delivered = second
        .handle_inbound(&mut transport, first_raw)
        .expect("first data packet should handle")
        .expect("first data packet should deliver");
    assert_eq!(delivered.bytes, b"idempotent-event");

    let duplicate_raw = transport
        .try_recv_station(station_two)
        .expect("receive should work")
        .expect("duplicate data packet should exist");
    assert_eq!(
        second
            .handle_inbound(&mut transport, duplicate_raw)
            .expect("duplicate data packet should handle"),
        None
    );
    assert_eq!(second.receiver.stats().data_delivered, 1);
    assert_eq!(second.receiver.stats().duplicates_suppressed, 1);
    assert_eq!(second.receiver.stats().acks_sent, 2);
}

#[test]
fn reliable_station_failed_retry_preserves_attempt_before_timeout() {
    let source = StationId::new(1);
    let target = StationId::new(2);
    let mut transport = InMemoryStationTransport::new(StationTransportLimits {
        max_queued_packets_per_station: 1,
        max_packet_bytes: 128,
    });
    transport.register_station(target);
    let mut sender = ReliableStationSender::new(ReliableStationConfig {
        max_in_flight_per_target: 1,
        retry_after_ticks: 1,
        max_attempts: 2,
        max_payload_bytes: 64,
        max_delivered_history: 0,
    });
    let mut scratch = ReliableStationRetryScratch::new();
    sender
        .send(
            &mut transport,
            StationOutboundPacket {
                source_station: source,
                target_station: target,
                bytes: b"retry".to_vec(),
            },
            0,
        )
        .expect("initial packet should fill queue");

    assert!(matches!(
        sender.retry_due_with_scratch(&mut transport, 1, &mut scratch),
        Err(ReliableStationError::Transport(
            StationTransportError::QueueFull { .. }
        ))
    ));
    transport
        .try_recv_station(target)
        .expect("queue should read")
        .expect("initial packet should remain");
    assert_eq!(
        sender
            .retry_due_with_scratch(&mut transport, 1, &mut scratch)
            .expect("failed attempt must remain retryable")
            .retried,
        1
    );
    let timeout = sender
        .retry_due_with_scratch(&mut transport, 2, &mut scratch)
        .expect("exhausted packet should time out");
    assert_eq!(timeout.retried, 0);
    assert_eq!(timeout.timed_out, 1);
    assert_eq!(sender.in_flight_len(), 0);
    assert_eq!(sender.in_flight_for(target), 0);
    assert!(!sender.window.in_flight_by_peer.contains_key(u128::from(target.get())));
}

#[test]
fn reliable_station_receiver_bounds_duplicate_history() {
    let station_one = StationId::new(1);
    let station_two = StationId::new(2);
    let mut transport = InMemoryStationTransport::default();
    transport.register_station(station_one);
    transport.register_station(station_two);
    let config = ReliableStationConfig {
        max_in_flight_per_target: 8,
        retry_after_ticks: 2,
        max_attempts: 4,
        max_payload_bytes: DEFAULT_RELIABLE_STATION_MAX_PAYLOAD_BYTES,
        max_delivered_history: 1,
    };
    let mut endpoint = ReliableStationEndpoint::new(config);

    let packet = |sequence: u64, payload: &[u8]| {
        let mut bytes = Vec::new();
        ReliableStationFrame::Data {
            sequence,
            payload: payload.to_vec(),
        }
        .encode(&mut bytes)
        .expect("data frame should encode");
        StationInboundPacket {
            source_station: station_one,
            target_station: station_two,
            bytes,
        }
    };

    assert!(
        endpoint
            .handle_inbound(&mut transport, packet(1, b"first"))
            .expect("first data packet should handle")
            .is_some()
    );
    assert_eq!(
        endpoint
            .handle_inbound(&mut transport, packet(1, b"first-duplicate"))
            .expect("duplicate data packet should handle"),
        None
    );
    assert!(
        endpoint
            .handle_inbound(&mut transport, packet(2, b"second"))
            .expect("second data packet should handle")
            .is_some()
    );
    assert!(
        endpoint
            .handle_inbound(&mut transport, packet(1, b"first-after-eviction"))
            .expect("evicted data packet should handle")
            .is_some()
    );
    assert_eq!(endpoint.receiver.stats().data_delivered, 3);
    assert_eq!(endpoint.receiver.stats().duplicates_suppressed, 1);
}

#[test]
fn reliable_station_sender_enforces_payload_and_window_limits() {
    let station_one = StationId::new(1);
    let station_two = StationId::new(2);
    let mut transport = InMemoryStationTransport::default();
    transport.register_station(station_one);
    transport.register_station(station_two);
    let config = ReliableStationConfig {
        max_in_flight_per_target: 1,
        retry_after_ticks: 2,
        max_attempts: 4,
        max_payload_bytes: 4,
        max_delivered_history: DEFAULT_RELIABLE_STATION_DELIVERED_HISTORY,
    };
    let mut endpoint = ReliableStationEndpoint::new(config);

    let too_large = endpoint
        .send(
            &mut transport,
            StationOutboundPacket {
                source_station: station_one,
                target_station: station_two,
                bytes: vec![0; 5],
            },
            0,
        )
        .expect_err("payload should exceed configured budget");
    match too_large {
        ReliableStationError::PayloadTooLarge { budget, actual } => {
            assert_eq!(budget, 4);
            assert_eq!(actual, 5);
        }
        other => panic!("unexpected error: {other:?}"),
    }

    endpoint
        .send(
            &mut transport,
            StationOutboundPacket {
                source_station: station_one,
                target_station: station_two,
                bytes: vec![0; 4],
            },
            0,
        )
        .expect("first packet should fit");
    let full = endpoint
        .send(
            &mut transport,
            StationOutboundPacket {
                source_station: station_one,
                target_station: station_two,
                bytes: vec![1; 4],
            },
            0,
        )
        .expect_err("in-flight window should be full");
    match full {
        ReliableStationError::WindowFull {
            target_station,
            capacity,
        } => {
            assert_eq!(target_station, station_two);
            assert_eq!(capacity, 1);
        }
        other => panic!("unexpected error: {other:?}"),
    }
}

#[test]
fn reliable_station_window_counts_track_targets_and_saturated_sequence_replacement() {
    let source = StationId::new(1);
    let first_target = StationId::new(2);
    let second_target = StationId::new(3);
    let mut transport = InMemoryStationTransport::default();
    transport.register_station(first_target);
    transport.register_station(second_target);
    let mut sender = ReliableStationSender::new(ReliableStationConfig {
        max_in_flight_per_target: 3,
        retry_after_ticks: 2,
        max_attempts: 4,
        max_payload_bytes: 16,
        max_delivered_history: 0,
    });
    let mut send = |sender: &mut ReliableStationSender, target_station| {
        sender
            .send(
                &mut transport,
                StationOutboundPacket {
                    source_station: source,
                    target_station,
                    bytes: b"count".to_vec(),
                },
                0,
            )
            .expect("bounded packet should send")
    };

    assert_eq!(send(&mut sender, first_target), 1);
    assert_eq!(send(&mut sender, first_target), 2);
    assert_eq!(send(&mut sender, second_target), 1);
    assert_eq!(sender.in_flight_for(first_target), 2);
    assert_eq!(sender.in_flight_for(second_target), 1);
    assert!(sender.acknowledge(first_target, 1));
    assert_eq!(sender.in_flight_for(first_target), 1);

    sender
        .window
        .next_sequence
        .insert(u128::from(first_target.get()), u64::MAX);
    assert_eq!(send(&mut sender, first_target), u64::MAX);
    assert_eq!(sender.in_flight_for(first_target), 2);
    assert_eq!(send(&mut sender, first_target), u64::MAX);
    assert_eq!(sender.in_flight_for(first_target), 2);

    assert!(sender.acknowledge(first_target, u64::MAX));
    assert!(sender.acknowledge(first_target, 2));
    assert_eq!(sender.in_flight_for(first_target), 0);
    assert!(!sender.window.in_flight_by_peer.contains_key(u128::from(first_target.get())));
    assert_eq!(sender.in_flight_for(second_target), 1);
}

#[test]
fn budgeted_transport_rejects_large_packets_and_passes_small_ones() {
    let mut transport = BudgetedTransport::new(FakeTransport::default(), 4, 100);
    assert_eq!(
        transport.send(packet(5)),
        Err(TransportError::ByteBudgetExceeded {
            budget: 4,
            actual: 5
        })
    );
    assert_eq!(transport.send(packet(4)), Ok(()));
    assert_eq!(transport.inner().packets_sent(), 1);
    let inner = transport.into_inner();
    assert_eq!(inner.bytes_sent(), 4);
}

#[test]
fn budgeted_transport_names_the_first_large_packet_of_a_batch() {
    let mut batch = PacketBatch::new();
    batch.push(packet(2));
    batch.push(packet(6));
    batch.push(packet(7));
    let mut transport = BudgetedTransport::new(FakeTransport::default(), 4, 100);
    assert_eq!(
        transport.send_batch(batch),
        Err(TransportError::ByteBudgetExceeded {
            budget: 4,
            actual: 6
        })
    );
    assert_eq!(transport.inner().packets_sent(), 0);
}

#[test]
fn station_batches_report_their_size() {
    let mut batch = StationPacketBatch::new();
    assert!(batch.is_empty());
    batch.push(station_packet(3));
    batch.push(station_packet(4));
    assert_eq!(batch.len(), 2);
    assert_eq!(batch.bytes_len(), 7);

    let mut transport = InMemoryStationTransport::default();
    transport.register_station(StationId::new(2));
    transport
        .send_station_batch(batch)
        .expect("batch should send");
    assert_eq!(transport.queued_len(StationId::new(2)), Some(2));
}

#[test]
fn hub_packets_arrive_in_the_order_sent() {
    let hub = Hub::default();
    let mut client = hub
        .endpoint(ClientId::new(7), memory_addr(20007))
        .expect("client should register");
    let mut server = hub
        .endpoint(ClientId::new(0), memory_addr(20000))
        .expect("server should register");
    for byte in 0..3_u8 {
        client
            .send(OutboundPacket {
                client_id: ClientId::new(0),
                bytes: vec![byte],
            })
            .expect("packet should send");
    }
    for byte in 0..3_u8 {
        let packet = server
            .try_recv()
            .expect("receive should work")
            .expect("packet should exist");
        assert_eq!(packet.bytes, vec![byte]);
    }
    assert_eq!(server.try_recv(), Ok(None));
}

#[test]
fn hub_refuses_unknown_clients() {
    let hub = Hub::default();
    let mut client = hub
        .endpoint(ClientId::new(7), memory_addr(20007))
        .expect("client should register");
    assert!(client
        .send(OutboundPacket {
            client_id: ClientId::new(9),
            bytes: Vec::new(),
        })
        .is_err());
}

#[test]
fn unknown_stations_are_refused() {
    let mut transport = InMemoryStationTransport::default();
    assert!(transport.send_station(station_packet(1)).is_err());
    assert_eq!(transport.queued_len(StationId::new(2)), None);
}

#[test]
fn an_address_moves_to_its_last_peer() {
    let mut book = PeerAddresses::new();
    assert_eq!(book.register(1, memory_addr(1)), None);
    assert_eq!(book.register(2, memory_addr(1)), None);
    assert_eq!(book.holder(memory_addr(1)), Some(2));
    assert_eq!(book.address_of(1), None);
    assert_eq!(book.register(2, memory_addr(2)), Some(memory_addr(1)));
    assert_eq!(book.holder(memory_addr(1)), None);
    assert_eq!(book.unregister(2), Some(memory_addr(2)));
    assert_eq!(book.address_of(2), None);
}

#[test]
fn envelope_header_and_trailing_bytes_are_checked() {
    let config = PacketSecurityConfig::default();
    let mut bytes = Vec::new();
    PacketSecurityEnvelope {
        key_id: 1,
        nonce: 2,
        payload: vec![3],
        tag: vec![4, 5],
    }
    .encode(config, &mut bytes)
    .expect("envelope should encode");
    assert_eq!(bytes.len(), PACKET_SECURITY_HEADER_BYTES + 3);

    let mut trailing = bytes.clone();
    trailing.push(0);
    assert!(matches!(
        PacketSecurityEnvelope::decode(config, &trailing),
        Err(PacketSecurityDecodeError::TrailingBytes(1))
    ));

    let mut wrong_magic = bytes.clone();
    wrong_magic[0] ^= 1;
    assert!(PacketSecurityEnvelope::decode(config, &wrong_magic).is_err());

    for cut in 0..bytes.len() {
        assert!(PacketSecurityEnvelope::decode(config, &bytes[..cut]).is_err());
    }
}

#[test]
fn nonces_count_up_for_each_key() {
    let mut sender = PacketSecurityBox::new(
        PacketSecurityConfig::default(),
        TestAuthenticator,
        PlaintextPacketCipher,
    );
    let mut out = Vec::new();
    let mut scratch = PacketSecurityScratch::new();
    let mut nonces = Vec::new();
    for key_id in [7, 7, 8, 7] {
        nonces.push(
            sender
                .seal_into(key_id, b"x", &mut out, &mut scratch)
                .expect("packet should seal"),
        );
    }
    assert_eq!(nonces, vec![1, 2, 1, 3]);
}

#[test]
fn a_key_ring_without_keys_cannot_seal() {
    let mut sender = PacketSecurityBox::new(
        PacketSecurityConfig::default(),
        TestAuthenticator,
        PlaintextPacketCipher,
    );
    let ring = PacketKeyRing::default();
    assert!(matches!(
        sender.seal_with_key_ring(&ring, b"x", Tick::new(1)),
        Err(PacketSecurityError::Key(_))
    ));
    assert_eq!(sender.stats().key_rejected, 0);
    assert_eq!(sender.stats().sealed, 0);
}

#[test]
fn client_and_station_frames_are_told_apart() {
    let mut bytes = Vec::new();
    ReliableStationFrame::Ack { sequence: 1 }
        .encode(&mut bytes)
        .expect("ack should encode");
    assert!(ReliableClientFrame::decode(&bytes).is_err());
    assert!(ReliableStationFrame::decode(&bytes).is_ok());
}

#[test]
fn attempts_are_spent_one_retry_at_a_time() {
    let mut transport = FakeTransport::default();
    let mut sender = ReliableClientSender::new(ReliableClientConfig {
        max_in_flight_per_peer: 4,
        retry_after_ticks: 2,
        max_attempts: 3,
        max_payload_bytes: 16,
        max_delivered_history: 0,
    });
    sender
        .send(&mut transport, packet(3), 0)
        .expect("packet should send");
    let mut retried = 0;
    let mut timed_out = 0;
    for now in 1..=20 {
        let report = sender
            .retry_due(&mut transport, now)
            .expect("retry should send");
        retried += report.retried;
        timed_out += report.timed_out;
    }
    assert_eq!(retried, 2);
    assert_eq!(timed_out, 1);
    assert_eq!(transport.packets_sent(), 3);
    assert_eq!(sender.in_flight_len(), 0);
}

/// Takes a few packets, then refuses.
struct Stingy {
    left: usize,
    taken: Vec<u64>,
}

impl TransportSink for Stingy {
    type Error = u64;

    fn send(&mut self, packet: OutboundPacket) -> Result<(), u64> {
        if self.left == 0 {
            return Err(packet.client_id.get());
        }
        self.left -= 1;
        self.taken.push(packet.client_id.get());
        Ok(())
    }
}

#[test]
fn batches_are_sent_in_order_up_to_the_first_refusal() {
    let batch = || {
        let mut batch = PacketBatch::new();
        for client in [3, 1, 2] {
            batch.push(OutboundPacket {
                client_id: ClientId::new(client),
                bytes: vec![1],
            });
        }
        batch
    };
    let mut stingy = Stingy {
        left: 2,
        taken: Vec::new(),
    };
    assert_eq!(stingy.send_batch(batch()), Err(2));
    assert_eq!(stingy.taken, vec![3, 1]);

    let mut generous = Stingy {
        left: 9,
        taken: Vec::new(),
    };
    assert_eq!(generous.send_batch(batch()), Ok(()));
    assert_eq!(generous.taken, vec![3, 1, 2]);
}

/// Counts what it is asked, refuses to open, and turns payload bytes round.
#[derive(Default)]
struct Counting {
    sealed: usize,
    opened: usize,
    fails: bool,
}

impl PacketCipher for Counting {
    type Error = &'static str;

    fn seal(&mut self, _key_id: u32, _nonce: u64, payload: &mut Vec<u8>) -> Result<(), Self::Error> {
        self.sealed += 1;
        payload.reverse();
        Ok(())
    }

    fn open(&mut self, _key_id: u32, _nonce: u64, payload: &mut Vec<u8>) -> Result<(), Self::Error> {
        self.opened += 1;
        if self.fails {
            return Err("cannot open");
        }
        payload.reverse();
        Ok(())
    }
}

/// Signs with a fixed tag and counts how often.
#[derive(Default)]
struct Stamp {
    signed: usize,
}

impl PacketAuthenticator for Stamp {
    type Error = &'static str;

    fn sign(
        &mut self,
        _key_id: u32,
        _nonce: u64,
        _payload: &[u8],
        out: &mut Vec<u8>,
    ) -> Result<(), Self::Error> {
        self.signed += 1;
        out.push(9);
        Ok(())
    }

    fn verify(
        &mut self,
        _key_id: u32,
        _nonce: u64,
        _payload: &[u8],
        tag: &[u8],
    ) -> Result<bool, Self::Error> {
        Ok(tag == [9])
    }
}

#[test]
fn oversized_payloads_reach_no_hook() {
    let config = PacketSecurityConfig {
        max_payload_bytes: 2,
        ..PacketSecurityConfig::default()
    };
    let mut security = PacketSecurityBox::new(config, Stamp::default(), Counting::default());
    let mut out = vec![5];
    let mut scratch = PacketSecurityScratch::new();

    assert!(matches!(
        security.seal_with_nonce_into(1, 1, &[1, 2, 3], &mut out, &mut scratch),
        Err(PacketSecurityError::Encode(
            PacketSecurityEncodeError::PayloadTooLarge {
                budget: 2,
                actual: 3
            }
        ))
    ));
    assert!(security.seal(1, &[1, 2, 3]).is_err());

    assert_eq!(out, vec![5]);
    assert!(scratch.sealed_payload.is_empty());
    assert_eq!(security.stats().sealed, 0);
    assert_eq!(security.cipher.sealed, 0);
    assert_eq!(security.authenticator.signed, 0);
}

#[test]
fn opening_gives_back_what_was_sealed() {
    let config = PacketSecurityConfig::default();
    let mut sender = PacketSecurityBox::new(config, Stamp::default(), Counting::default());
    let mut receiver = PacketSecurityBox::new(config, Stamp::default(), Counting::default());
    for (key_id, nonce) in [(1, 1), (2, 1), (1, 2), (1, 3), (2, 2)] {
        let sealed = sender.seal(key_id, b"payload").expect("packet should seal");
        let envelope =
            PacketSecurityEnvelope::decode(config, &sealed).expect("envelope should decode");
        assert_eq!((envelope.key_id, envelope.nonce), (key_id, nonce));
        assert_eq!(envelope.payload, b"daolyap");
        assert_eq!(
            receiver.open(&sealed).expect("packet should open"),
            b"payload"
        );
    }
}

#[test]
fn undeciphered_packets_use_up_their_nonce() {
    let config = PacketSecurityConfig::default();
    let mut sender = PacketSecurityBox::new(config, Stamp::default(), Counting::default());
    let sealed = sender.seal(1, b"payload").expect("packet should seal");
    let failing = Counting {
        fails: true,
        ..Counting::default()
    };
    let mut receiver = PacketSecurityBox::new(config, Stamp::default(), failing);

    assert!(matches!(
        receiver.open(&sealed),
        Err(PacketSecurityError::Cipher("cannot open"))
    ));
    let mut scratch = PacketSecurityOpenScratch::new();
    scratch.payload.push(3);
    assert!(matches!(
        receiver.open_with_scratch(&sealed, &mut scratch),
        Err(PacketSecurityError::Replay {
            key_id: 1,
            nonce: 1
        })
    ));
    assert_eq!(scratch.payload, vec![3]);
    assert_eq!(receiver.cipher.opened, 1);
    assert_eq!(receiver.stats().opened, 0);
}

#[test]
fn windows_hold_the_pairs_accepted_last() {
    let mut window = PacketReplayWindow::new(2);
    for (nonce, accepted) in [(1, true), (2, true), (2, false), (3, true), (1, true)] {
        assert_eq!(window.accept(7, nonce), accepted);
    }
    assert_eq!(window.len(), 2);
    assert!(window.contains(7, 3));
    assert!(window.contains(7, 1));
    assert!(!window.contains(7, 2));
}

#[test]
fn decoded_reliable_frames_encode_to_their_input() {
    let mut input = Vec::new();
    ReliableClientFrame::encode_data(300, b"abc", &mut input).expect("frame should encode");
    match ReliableClientFrame::decode(&input).expect("frame should decode") {
        ReliableClientFrame::Data { sequence, payload } => {
            let mut again = Vec::new();
            ReliableClientFrame::encode_data(sequence, &payload, &mut again)
                .expect("frame should encode");
            assert_eq!(again, input);
        }
        ReliableClientFrame::Ack { .. } => panic!("a data frame was encoded"),
    }
}

#[test]
fn fake_counts_add_up_over_a_run() {
    let mut fake = FakeTransport::default();
    let mut batch = PacketBatch::new();
    batch.push(packet(3));
    batch.push(packet(4));
    fake.send(packet(5)).expect("fake transport takes all");
    fake.send_batch(batch).expect("fake transport takes all");
    fake.send(packet(1)).expect("fake transport takes all");
    assert_eq!(fake.packets_sent(), 4);
    assert_eq!(fake.bytes_sent(), 13);
    assert_eq!(fake.batches_sent(), 1);
}

#[test]
fn a_refused_retry_goes_out_once_there_is_room() {
    let limits = StationTransportLimits {
        max_queued_packets_per_station: 1,
        ..StationTransportLimits::default()
    };
    let (source, target) = (StationId::new(1), StationId::new(2));
    let mut transport = InMemoryStationTransport::new(limits);
    transport.register_station(target);
    let mut sender = ReliableStationSender::new(ReliableStationConfig::default());
    sender
        .send(
            &mut transport,
            StationOutboundPacket {
                source_station: source,
                target_station: target,
                bytes: vec![1],
            },
            0,
        )
        .expect("packet should send");
    assert!(sender.retry_due(&mut transport, 5).is_err());

    let first = transport
        .try_recv_station(target)
        .expect("target is known")
        .expect("packet waits");
    let report = sender
        .retry_due(&mut transport, 5)
        .expect("there is room again");

    assert_eq!((report.retried, report.timed_out), (1, 0));
    let second = transport
        .try_recv_station(target)
        .expect("target is known")
        .expect("packet waits");
    assert_eq!(first.bytes, second.bytes);
}

#[test]
fn default_endpoints_have_the_default_limits() {
    let client = ReliableClientEndpoint::default();
    assert_eq!(client.sender.config(), ReliableClientConfig::default());
    assert_eq!(client.receiver.config(), ReliableClientConfig::default());
    assert_eq!(client.sender.config().max_in_flight_per_peer, 1024);
    assert!(client.sender.window.next_sequence.entries.is_empty());
    let station = ReliableStationEndpoint::default();
    assert_eq!(station.sender.config(), ReliableStationConfig::default());
    assert_eq!(station.receiver.config(), ReliableStationConfig::default());
    assert_eq!(station.receiver.config().max_delivered_history, 4096);
    assert!(station.sender.window.next_sequence.entries.is_empty());
}

#[test]
fn cloned_replay_windows_refuse_what_the_first_one_saw() {
    for limit in [4, 4096] {
        let mut window = PacketReplayWindow::new(limit);
        assert!(window.accept(1, 7));
        let mut copy = window.clone();
        assert!(!copy.accept(1, 7));
        assert!(copy.accept(1, 8));
        assert!(window.accept(1, 8));
    }
}
