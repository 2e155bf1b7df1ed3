//! Packet sealing and opening: nonce allocation, authentication, optional encryption and replay
//! checks.

use vstd::prelude::*;

use crate::bytes::push_all;
use crate::ids::Tick;
use crate::key_ring::{
    accepted_key, selects, PacketKeyDescriptor, PacketKeyRing, PacketKeyRingError,
};
use crate::memory::vec_capacity;
use crate::num::clamp_u64;
use crate::ordered_map::OrderedMap;
use crate::pair_history::retained;
use crate::replay::PacketReplayWindow;
use crate::security_envelope::{
    decoded_envelope, envelope_bytes, envelope_encode_error, law_envelope_decode_inverts_encode,
    EnvelopeParts, PacketSecurityConfig, PacketSecurityDecodeError, PacketSecurityEncodeError,
    PacketSecurityEnvelope, PacketSecurityEnvelopeRef,
};

verus! {

/// Packet authenticator hook. Embedders should provide a real MAC/signature implementation and key
/// management.
pub trait PacketAuthenticator {
    /// Authenticator error type.
    type Error;

    /// Produces an authentication tag over `key_id`, `nonce`, and `payload`.
    fn sign(&mut self, key_id: u32, nonce: u64, payload: &[u8], out: &mut Vec<u8>) -> Result<
        (),
        Self::Error,
    >;

    /// Verifies an authentication tag over `key_id`, `nonce`, and `payload`.
    fn verify(&mut self, key_id: u32, nonce: u64, payload: &[u8], tag: &[u8]) -> Result<
        bool,
        Self::Error,
    >;
}

/// Packet cipher hook. Embedders should provide real encryption when confidentiality is needed.
pub trait PacketCipher {
    /// Cipher error type.
    type Error;

    /// Seals a payload in place before authentication.
    fn seal(&mut self, key_id: u32, nonce: u64, payload: &mut Vec<u8>) -> Result<(), Self::Error>;

    /// Opens a payload in place after authentication.
    fn open(&mut self, key_id: u32, nonce: u64, payload: &mut Vec<u8>) -> Result<(), Self::Error>;
}

/// Explicit plaintext cipher for tests and integrations that only need authentication framing.
#[derive(Clone, Copy, Debug, Default)]
pub struct PlaintextPacketCipher;

impl PacketCipher for PlaintextPacketCipher {
    type Error = core::convert::Infallible;

    fn seal(&mut self, _key_id: u32, _nonce: u64, payload: &mut Vec<u8>) -> (result: Result<
        (),
        core::convert::Infallible,
    >)
        ensures
            result is Ok,
            *final(payload) == *old(payload),
    {
        Ok(())
    }

    fn open(&mut self, _key_id: u32, _nonce: u64, payload: &mut Vec<u8>) -> (result: Result<
        (),
        core::convert::Infallible,
    >)
        ensures
            result is Ok,
            *final(payload) == *old(payload),
    {
        Ok(())
    }
}

/// Packet security box statistics.
#[derive(Clone, Copy, Debug, Default, PartialEq, Eq, Structural)]
pub struct PacketSecurityStats {
    /// Packets sealed.
    pub sealed: usize,
    /// Packets opened.
    pub opened: usize,
    /// Packets rejected by key lifecycle policy.
    pub key_rejected: usize,
    /// Packets rejected because authentication failed.
    pub auth_failed: usize,
    /// Packets rejected because the nonce was replayed.
    pub replay_rejected: usize,
}

/// Caller-owned reusable payload and tag storage for packet sealing.
#[derive(Clone, Debug)]
pub struct PacketSecurityScratch {
    /// Payload after encryption.
    pub sealed_payload: Vec<u8>,
    /// Authentication tag.
    pub tag: Vec<u8>,
}

impl Default for PacketSecurityScratch {
    fn default() -> (scratch: Self)
        ensures
            scratch.sealed_payload@ == Seq::<u8>::empty(),
            scratch.tag@ == Seq::<u8>::empty(),
    {
        Self::new()
    }
}

impl PacketSecurityScratch {
    /// Creates empty sealing storage.
    pub fn new() -> (scratch: Self)
        ensures
            scratch.sealed_payload@ == Seq::<u8>::empty(),
            scratch.tag@ == Seq::<u8>::empty(),
    {
        Self { sealed_payload: Vec::new(), tag: Vec::new() }
    }

    /// Creates sealing storage with explicit payload and tag capacities.
    pub fn with_capacity(payload_bytes: usize, tag_bytes: usize) -> (scratch: Self)
        ensures
            scratch.sealed_payload@ == Seq::<u8>::empty(),
            scratch.tag@ == Seq::<u8>::empty(),
    {
        Self {
            sealed_payload: Vec::with_capacity(payload_bytes),
            tag: Vec::with_capacity(tag_bytes),
        }
    }

    /// Encrypted-payload bytes retained without growing the scratch buffer.
    pub fn retained_payload_capacity(&self) -> (capacity: usize)
        ensures
            capacity >= self.sealed_payload@.len(),
    {
        vec_capacity(&self.sealed_payload)
    }

    /// Authentication-tag bytes retained without growing the scratch buffer.
    pub fn retained_tag_capacity(&self) -> (capacity: usize)
        ensures
            capacity >= self.tag@.len(),
    {
        vec_capacity(&self.tag)
    }
}

/// Caller-owned reusable payload storage for packet opening.
#[derive(Clone, Debug)]
pub struct PacketSecurityOpenScratch {
    /// Opened payload.
    pub payload: Vec<u8>,
}

impl Default for PacketSecurityOpenScratch {
    fn default() -> (scratch: Self)
        ensures
            scratch.payload@ == Seq::<u8>::empty(),
    {
        Self::new()
    }
}

impl PacketSecurityOpenScratch {
    /// Creates empty opening storage.
    pub fn new() -> (scratch: Self)
        ensures
            scratch.payload@ == Seq::<u8>::empty(),
    {
        Self { payload: Vec::new() }
    }

    /// Creates opening storage with explicit payload capacity.
    pub fn with_capacity(payload_bytes: usize) -> (scratch: Self)
        ensures
            scratch.payload@ == Seq::<u8>::empty(),
    {
        Self { payload: Vec::with_capacity(payload_bytes) }
    }

    /// Opened-payload bytes retained without growing the scratch buffer.
    pub fn retained_payload_capacity(&self) -> (capacity: usize)
        ensures
            capacity >= self.payload@.len(),
    {
        vec_capacity(&self.payload)
    }
}

/// Borrowed result of opening one packet into caller-owned scratch.
#[derive(Clone, Copy, Debug, PartialEq, Eq)]
pub struct PacketSecurityOpenView<'a> {
    /// External key identifier carried by the envelope.
    pub key_id: u32,
    /// Accepted nonce carried by the envelope.
    pub nonce: u64,
    /// Opened payload, valid until the scratch is mutably reused.
    pub payload: &'a [u8],
}

/// Error produced by packet security helpers.
#[derive(Debug)]
pub enum PacketSecurityError<A, C> {
    /// Envelope encode failed.
    Encode(PacketSecurityEncodeError),
    /// Envelope decode failed.
    Decode(PacketSecurityDecodeError),
    /// Authenticator failed.
    Authenticator(A),
    /// Cipher failed.
    Cipher(C),
    /// Key lifecycle policy rejected the packet or send attempt.
    Key(PacketKeyRingError),
    /// Authenticator returned false.
    AuthenticationFailed {
        /// Key id.
        key_id: u32,
        /// Nonce.
        nonce: u64,
    },
    /// Replay window rejected the nonce.
    Replay {
        /// Key id.
        key_id: u32,
        /// Nonce.
        nonce: u64,
    },
}

/// Bounded packet security helper combining nonce allocation, authentication, optional encryption,
/// and replay checks.
#[derive(Clone, Debug)]
pub struct PacketSecurityBox<A, C> {
    /// Configuration.
    pub config: PacketSecurityConfig,
    /// Authenticator.
    pub authenticator: A,
    /// Cipher.
    pub cipher: C,
    /// Replay window over accepted packets.
    pub replay: PacketReplayWindow,
    /// Next nonce by key id.
    pub next_nonce: OrderedMap<u64>,
    /// Statistics.
    pub stats: PacketSecurityStats,
}

/// The nonce that a key id gets next.
pub open spec fn nonce_for(next: Map<u128, u64>, key_id: u32) -> u64 {
    if next.contains_key(key_id as u128) {
        next[key_id as u128]
    } else {
        1
    }
}

/// What becomes of an authenticated-or-not packet before its payload is opened: the authenticator's
/// verdict first, then the replay window, which only sees authentic packets.
pub open spec fn admitted<E, F>(
    verdict: Result<bool, E>,
    max_seen: nat,
    order: Seq<(u64, u64)>,
    key_id: u32,
    nonce: u64,
) -> Result<(), PacketSecurityError<E, F>> {
    match verdict {
        Err(error) => Err(PacketSecurityError::Authenticator(error)),
        Ok(false) => Err(PacketSecurityError::AuthenticationFailed { key_id, nonce }),
        Ok(true) => if max_seen != 0 && order.contains((key_id as u64, nonce)) {
            Err(PacketSecurityError::Replay { key_id, nonce })
        } else {
            Ok(())
        },
    }
}

/// The replay history behind the same decision.
pub open spec fn history_after<E>(
    verdict: Result<bool, E>,
    max_seen: nat,
    order: Seq<(u64, u64)>,
    key_id: u32,
    nonce: u64,
) -> Seq<(u64, u64)> {
    if verdict == Ok::<bool, E>(true) {
        retained(max_seen, order, (key_id as u64, nonce))
    } else {
        order
    }
}

/// The statistics behind the same decision.
pub open spec fn stats_after<E>(
    verdict: Result<bool, E>,
    stats: PacketSecurityStats,
    max_seen: nat,
    order: Seq<(u64, u64)>,
    key_id: u32,
    nonce: u64,
) -> PacketSecurityStats {
    match verdict {
        Err(_) => stats,
        Ok(false) => PacketSecurityStats {
            auth_failed: stats.auth_failed.saturating_add(1),
            ..stats
        },
        Ok(true) => if max_seen != 0 && order.contains((key_id as u64, nonce)) {
            PacketSecurityStats {
                replay_rejected: stats.replay_rejected.saturating_add(1),
                ..stats
            }
        } else {
            stats
        },
    }
}

impl<A, C> PacketSecurityBox<A, C> {
    /// The replay window and the nonce table are well-formed.
    pub open spec fn wf(self) -> bool {
        self.replay.wf() && self.next_nonce.wf()
    }

    /// Creates a packet security box.
    pub fn new(config: PacketSecurityConfig, authenticator: A, cipher: C) -> (security: Self)
        ensures
            security.wf(),
            security.config == config,
            security.authenticator == authenticator,
            security.cipher == cipher,
            security.replay.max_seen() == config.max_replay_history,
            security.replay@ == Seq::<(u64, u64)>::empty(),
            security.next_nonce@ == Map::<u128, u64>::empty(),
            security.stats == (PacketSecurityStats {
                sealed: 0,
                opened: 0,
                key_rejected: 0,
                auth_failed: 0,
                replay_rejected: 0,
            }),
    {
        Self {
            config,
            authenticator,
            cipher,
            replay: PacketReplayWindow::new(config.max_replay_history),
            next_nonce: OrderedMap::new(),
            stats: PacketSecurityStats {
                sealed: 0,
                opened: 0,
                key_rejected: 0,
                auth_failed: 0,
                replay_rejected: 0,
            },
        }
    }

    /// Returns configuration.
    pub fn config(&self) -> (config: PacketSecurityConfig)
        ensures
            config == self.config,
    {
        self.config
    }

    /// Returns statistics.
    pub fn stats(&self) -> (stats: PacketSecurityStats)
        ensures
            stats == self.stats,
    {
        self.stats
    }

    /// Borrows the replay window.
    pub fn replay(&self) -> (replay: &PacketReplayWindow)
        ensures
            *replay == self.replay,
    {
        &self.replay
    }

    /// Consumes the box and returns its components.
    pub fn into_inner(self) -> (parts: (A, C, PacketReplayWindow))
        ensures
            parts == (self.authenticator, self.cipher, self.replay),
    {
        (self.authenticator, self.cipher, self.replay)
    }

    /// Everything but the nonce table is the same.
    pub open spec fn same_but_nonces(self, other: Self) -> bool {
        &&& self.config == other.config
        &&& self.authenticator == other.authenticator
        &&& self.cipher == other.cipher
        &&& self.replay == other.replay
        &&& self.stats == other.stats
    }

    fn allocate_nonce(&mut self, key_id: u32) -> (nonce: u64)
        requires
            old(self).wf(),
        ensures
            final(self).wf(),
            final(self).same_but_nonces(*old(self)),
            nonce == nonce_for(old(self).next_nonce@, key_id),
            final(self).next_nonce@ == old(self).next_nonce@.insert(
                key_id as u128,
                nonce.saturating_add(1),
            ),
    {
        let nonce: u64 = match self.next_nonce.get(key_id as u128) {
            Some(next) => *next,
            None => 1,
        };
        self.next_nonce.insert(key_id as u128, nonce.saturating_add(1));
        nonce
    }
}

impl<A, C> PacketSecurityBox<A, C> where A: PacketAuthenticator, C: PacketCipher {
    fn prepare_seal(
        &mut self,
        key_id: u32,
        nonce: u64,
        payload: &[u8],
        scratch: &mut PacketSecurityScratch,
    ) -> (result: Result<(), PacketSecurityError<A::Error, C::Error>>)
        requires
            old(self).wf(),
        ensures
            final(self).wf(),
            final(self).config == old(self).config,
            final(self).replay == old(self).replay,
            final(self).next_nonce == old(self).next_nonce,
            final(self).stats == old(self).stats,
            payload@.len() > old(self).config.max_payload_bytes ==> result == Err::<
                (),
                PacketSecurityError<A::Error, C::Error>,
            >(
                PacketSecurityError::Encode(
                    PacketSecurityEncodeError::PayloadTooLarge {
                        budget: old(self).config.max_payload_bytes,
                        actual: payload@.len() as usize,
                    },
                ),
            ) && *final(self) == *old(self) && *final(scratch) == *old(scratch),
            payload@.len() <= old(self).config.max_payload_bytes ==> match result {
                Ok(()) => {
                    &&& exists|
                        cipher: &mut C,
                        buffer: &mut Vec<u8>,
                        outcome: Result<(), C::Error>,
                    |
                        #![trigger call_ensures(C::seal, (cipher, key_id, nonce, buffer), outcome)]
                        call_ensures(C::seal, (cipher, key_id, nonce, buffer), outcome)
                            && outcome is Ok && *cipher == old(self).cipher && *final(cipher) == final(self).cipher && buffer@
                            == payload@ && *final(buffer) == final(scratch).sealed_payload
                    &&& exists|
                        signer: &mut A,
                        sealed: &[u8],
                        tag: &mut Vec<u8>,
                        outcome: Result<(), A::Error>,
                    |
                        #![trigger call_ensures(
                            A::sign,
                            (signer, key_id, nonce, sealed, tag),
                            outcome,
                        )]
                        call_ensures(A::sign, (signer, key_id, nonce, sealed, tag), outcome)
                            && outcome is Ok && *signer == old(self).authenticator && *final(signer) == final(self).authenticator && sealed@ == final(scratch).sealed_payload@ && tag@
                            == Seq::<u8>::empty() && *final(tag) == final(scratch).tag
                },
                Err(PacketSecurityError::Cipher(error)) => {
                    &&& final(self).authenticator == old(self).authenticator
                    &&& exists|
                        cipher: &mut C,
                        buffer: &mut Vec<u8>,
                        outcome: Result<(), C::Error>,
                    |
                        #![trigger call_ensures(C::seal, (cipher, key_id, nonce, buffer), outcome)]
                        call_ensures(C::seal, (cipher, key_id, nonce, buffer), outcome) && outcome
                            == Err::<(), C::Error>(error) && *cipher == old(self).cipher && *final(cipher) == final(self).cipher
                            && buffer@ == payload@
                },
                Err(PacketSecurityError::Authenticator(error)) => {
                    &&& exists|
                        cipher: &mut C,
                        buffer: &mut Vec<u8>,
                        outcome: Result<(), C::Error>,
                    |
                        #![trigger call_ensures(C::seal, (cipher, key_id, nonce, buffer), outcome)]
                        call_ensures(C::seal, (cipher, key_id, nonce, buffer), outcome)
                            && outcome is Ok && *cipher == old(self).cipher && *final(cipher) == final(self).cipher && buffer@
                            == payload@ && *final(buffer) == final(scratch).sealed_payload
                    &&& exists|
                        signer: &mut A,
                        sealed: &[u8],
                        tag: &mut Vec<u8>,
                        outcome: Result<(), A::Error>,
                    |
                        #![trigger call_ensures(
                            A::sign,
                            (signer, key_id, nonce, sealed, tag),
                            outcome,
                        )]
                        call_ensures(A::sign, (signer, key_id, nonce, sealed, tag), outcome)
                            && outcome == Err::<(), A::Error>(error) && *signer == old(self).authenticator && *final(signer) == final(self).authenticator && sealed@ == final(scratch).sealed_payload@ && tag@
                            == Seq::<u8>::empty()
                },
                Err(_) => false,
            },
    {
        if payload.len() > self.config.max_payload_bytes {
            return Err(
                PacketSecurityError::Encode(
                    PacketSecurityEncodeError::PayloadTooLarge {
                        budget: self.config.max_payload_bytes,
                        actual: payload.len(),
                    },
                ),
            );
        }
        scratch.sealed_payload.clear();
        push_all(&mut scratch.sealed_payload, payload);
        assert(scratch.sealed_payload@ =~= payload@);
        let sealed = self.cipher.seal(key_id, nonce, &mut scratch.sealed_payload);
        match sealed {
            Ok(()) => {},
            Err(error) => {
                return Err(PacketSecurityError::Cipher(error));
            },
        }
        scratch.tag.clear();
        let signed = self.authenticator.sign(
            key_id,
            nonce,
            scratch.sealed_payload.as_slice(),
            &mut scratch.tag,
        );
        match signed {
            Ok(()) => {},
            Err(error) => {
                return Err(PacketSecurityError::Authenticator(error));
            },
        }
        Ok(())
    }

    fn verify_and_accept(&mut self, envelope: PacketSecurityEnvelopeRef<'_>) -> (result: Result<
        (),
        PacketSecurityError<A::Error, C::Error>,
    >)
        requires
            old(self).wf(),
        ensures
            final(self).wf(),
            final(self).config == old(self).config,
            final(self).next_nonce == old(self).next_nonce,
            final(self).replay.max_seen() == old(self).replay.max_seen(),
            final(self).cipher == old(self).cipher,
            exists|
                verifier: &mut A,
                payload: &[u8],
                tag: &[u8],
                verdict: Result<bool, A::Error>,
            |
                #![trigger call_ensures(
                    A::verify,
                    (verifier, envelope.key_id, envelope.nonce, payload, tag),
                    verdict,
                )]
                {
                    let max_seen = old(self).replay.max_seen();
                    let order = old(self).replay@;
                    &&& call_ensures(
                        A::verify,
                        (verifier, envelope.key_id, envelope.nonce, payload, tag),
                        verdict,
                    )
                    &&& *verifier == old(self).authenticator
                    &&& *final(verifier) == final(self).authenticator
                    &&& payload@ == envelope.payload@
                    &&& tag@ == envelope.tag@
                    &&& final(self).replay@ == history_after(
                        verdict,
                        max_seen,
                        order,
                        envelope.key_id,
                        envelope.nonce,
                    )
                    &&& final(self).stats == stats_after(
                        verdict,
                        old(self).stats,
                        max_seen,
                        order,
                        envelope.key_id,
                        envelope.nonce,
                    )
                    &&& result == admitted::<A::Error, C::Error>(
                        verdict,
                        max_seen,
                        order,
                        envelope.key_id,
                        envelope.nonce,
                    )
                },
    {
        let verdict = self.authenticator.verify(
            envelope.key_id,
            envelope.nonce,
            envelope.payload,
            envelope.tag,
        );
        let verified: bool = match verdict {
            Ok(verified) => verified,
            Err(error) => {
                return Err(PacketSecurityError::Authenticator(error));
            },
        };
        if !verified {
            self.stats.auth_failed = self.stats.auth_failed.saturating_add(1);
            return Err(
                PacketSecurityError::AuthenticationFailed {
                    key_id: envelope.key_id,
                    nonce: envelope.nonce,
                },
            );
        }
        if !self.replay.accept(envelope.key_id, envelope.nonce) {
            self.stats.replay_rejected = self.stats.replay_rejected.saturating_add(1);
            return Err(
                PacketSecurityError::Replay { key_id: envelope.key_id, nonce: envelope.nonce },
            );
        }
        Ok(())
    }

    fn open_borrowed_owned(&mut self, envelope: PacketSecurityEnvelopeRef<'_>) -> (result: Result<
        Vec<u8>,
        PacketSecurityError<A::Error, C::Error>,
    >)
        requires
            old(self).wf(),
        ensures
            final(self).wf(),
            final(self).config == old(self).config,
            final(self).next_nonce == old(self).next_nonce,
            final(self).replay.max_seen() == old(self).replay.max_seen(),
            ({
                let parts = envelope@;
                exists|
                    verifier: &mut A,
                    payload: &[u8],
                    tag: &[u8],
                    verdict: Result<bool, A::Error>,
                |
                    #![trigger call_ensures(
                        A::verify,
                        (verifier, parts.key_id, parts.nonce, payload, tag),
                        verdict,
                    )]
                    {
                        let max_seen = old(self).replay.max_seen();
                        let order = old(self).replay@;
                        let stats = stats_after(
                            verdict,
                            old(self).stats,
                            max_seen,
                            order,
                            parts.key_id,
                            parts.nonce,
                        );
                        &&& call_ensures(
                            A::verify,
                            (verifier, parts.key_id, parts.nonce, payload, tag),
                            verdict,
                        )
                        &&& *verifier == old(self).authenticator
                        &&& *final(verifier) == final(self).authenticator
                        &&& payload@ == parts.payload
                        &&& tag@ == parts.tag
                        &&& final(self).replay@ == history_after(
                            verdict,
                            max_seen,
                            order,
                            parts.key_id,
                            parts.nonce,
                        )
                        &&& match admitted::<A::Error, C::Error>(
                            verdict,
                            max_seen,
                            order,
                            parts.key_id,
                            parts.nonce,
                        ) {
                            Err(refusal) => {
                                &&& result == Err::<Vec<u8>, PacketSecurityError<A::Error, C::Error>>(refusal)
                                &&& final(self).cipher == old(self).cipher
                                &&& final(self).stats == stats
                            },
                            Ok(()) => match result {
                                Ok(opened) => {
                                    &&& final(self).stats == (PacketSecurityStats {
                                        opened: stats.opened.saturating_add(1),
                                        ..stats
                                    })
                                    &&& exists|
                                        cipher: &mut C,
                                        buffer: &mut Vec<u8>,
                                        outcome: Result<(), C::Error>,
                                    |
                                        #![trigger call_ensures(
                                            C::open,
                                            (cipher, parts.key_id, parts.nonce, buffer),
                                            outcome,
                                        )]
                                        call_ensures(C::open, (cipher, parts.key_id, parts.nonce, buffer), outcome)
                                            && outcome is Ok && *cipher == old(self).cipher && *final(cipher) == final(self).cipher
                                            && buffer@ == parts.payload && *final(buffer) == opened
                                },
                                Err(PacketSecurityError::Cipher(error)) => {
                                    &&& final(self).stats == stats
                                    &&& exists|
                                        cipher: &mut C,
                                        buffer: &mut Vec<u8>,
                                        outcome: Result<(), C::Error>,
                                    |
                                        #![trigger call_ensures(
                                            C::open,
                                            (cipher, parts.key_id, parts.nonce, buffer),
                                            outcome,
                                        )]
                                        call_ensures(C::open, (cipher, parts.key_id, parts.nonce, buffer), outcome)
                                            && outcome == Err::<(), C::Error>(error) && *cipher == old(self).cipher && *final(cipher) == final(self).cipher
                                            && buffer@ == parts.payload
                                },
                                Err(_) => false,
                            },
                        }
                    }
            }),
    {
        assert(envelope@.key_id == envelope.key_id && envelope@.nonce == envelope.nonce);
        self.verify_and_accept(envelope)?;
        let mut payload: Vec<u8> = Vec::new();
        push_all(&mut payload, envelope.payload);
        assert(payload@ =~= envelope.payload@);
        let outcome = self.cipher.open(envelope.key_id, envelope.nonce, &mut payload);
        match outcome {
            Ok(()) => {},
            Err(error) => {
                return Err(PacketSecurityError::Cipher(error));
            },
        }
        self.stats.opened = self.stats.opened.saturating_add(1);
        Ok(payload)
    }

    fn open_borrowed_with_scratch<'a>(
        &mut self,
        envelope: PacketSecurityEnvelopeRef<'_>,
        scratch: &'a mut PacketSecurityOpenScratch,
    ) -> (result: Result<PacketSecurityOpenView<'a>, PacketSecurityError<A::Error, C::Error>>)
        requires
            old(self).wf(),
        ensures
            final(self).wf(),
            final(self).config == old(self).config,
            final(self).next_nonce == old(self).next_nonce,
            final(self).replay.max_seen() == old(self).replay.max_seen(),
            ({
                let parts = envelope@;
                exists|
                    verifier: &mut A,
                    payload: &[u8],
                    tag: &[u8],
                    verdict: Result<bool, A::Error>,
                |
                    #![trigger call_ensures(
                        A::verify,
                        (verifier, parts.key_id, parts.nonce, payload, tag),
                        verdict,
                    )]
                    {
                        let max_seen = old(self).replay.max_seen();
                        let order = old(self).replay@;
                        let stats = stats_after(
                            verdict,
                            old(self).stats,
                            max_seen,
                            order,
                            parts.key_id,
                            parts.nonce,
                        );
                        &&& call_ensures(
                            A::verify,
                            (verifier, parts.key_id, parts.nonce, payload, tag),
                            verdict,
                        )
                        &&& *verifier == old(self).authenticator
                        &&& *final(verifier) == final(self).authenticator
                        &&& payload@ == parts.payload
                        &&& tag@ == parts.tag
                        &&& final(self).replay@ == history_after(
                            verdict,
                            max_seen,
                            order,
                            parts.key_id,
                            parts.nonce,
                        )
                        &&& match admitted::<A::Error, C::Error>(
                            verdict,
                            max_seen,
                            order,
                            parts.key_id,
                            parts.nonce,
                        ) {
                            Err(refusal) => {
                                &&& result == Err::<PacketSecurityOpenView<'a>, PacketSecurityError<A::Error, C::Error>>(refusal)
                                &&& *final(scratch) == *old(scratch)
                                &&& final(self).cipher == old(self).cipher
                                &&& final(self).stats == stats
                            },
                            Ok(()) => match result {
                                Ok(view) => {
                                    &&& view.key_id == parts.key_id
                                    &&& view.nonce == parts.nonce
                                    &&& final(self).stats == (PacketSecurityStats {
                                        opened: stats.opened.saturating_add(1),
                                        ..stats
                                    })
                                    &&& exists|
                                        cipher: &mut C,
                                        buffer: &mut Vec<u8>,
                                        outcome: Result<(), C::Error>,
                                    |
                                        #![trigger call_ensures(
                                            C::open,
                                            (cipher, parts.key_id, parts.nonce, buffer),
                                            outcome,
                                        )]
                                        call_ensures(C::open, (cipher, parts.key_id, parts.nonce, buffer), outcome)
                                            && outcome is Ok && *cipher == old(self).cipher && *final(cipher) == final(self).cipher
                                            && buffer@ == parts.payload && final(buffer)@ == view.payload@
                                },
                                Err(PacketSecurityError::Cipher(error)) => {
                                    &&& final(self).stats == stats
                                    &&& exists|
                                        cipher: &mut C,
                                        buffer: &mut Vec<u8>,
                                        outcome: Result<(), C::Error>,
                                    |
                                        #![trigger call_ensures(
                                            C::open,
                                            (cipher, parts.key_id, parts.nonce, buffer),
                                            outcome,
                                        )]
                                        call_ensures(C::open, (cipher, parts.key_id, parts.nonce, buffer), outcome)
                                            && outcome == Err::<(), C::Error>(error) && *cipher == old(self).cipher && *final(cipher) == final(self).cipher
                                            && buffer@ == parts.payload
                                },
                                Err(_) => false,
                            },
                        }
                    }
            }),
    {
        assert(envelope@.key_id == envelope.key_id && envelope@.nonce == envelope.nonce);
        self.verify_and_accept(envelope)?;
        scratch.payload.clear();
        push_all(&mut scratch.payload, envelope.payload);
        assert(scratch.payload@ =~= envelope.payload@);
        let outcome = self.cipher.open(envelope.key_id, envelope.nonce, &mut scratch.payload);
        match outcome {
            Ok(()) => {},
            Err(error) => {
                return Err(PacketSecurityError::Cipher(error));
            },
        }
        self.stats.opened = self.stats.opened.saturating_add(1);
        Ok(
            PacketSecurityOpenView {
                key_id: envelope.key_id,
                nonce: envelope.nonce,
                payload: scratch.payload.as_slice(),
            },
        )
    }

    /// Decodes, authenticates, replay-checks, and opens one payload.
    pub fn open(&mut self, input: &[u8]) -> (result: Result<
        Vec<u8>,
        PacketSecurityError<A::Error, C::Error>,
    >)
        requires
            old(self).wf(),
        ensures
            final(self).wf(),
            final(self).config == old(self).config,
            final(self).next_nonce == old(self).next_nonce,
            final(self).replay.max_seen() == old(self).replay.max_seen(),
            match decoded_envelope(old(self).config, input@) {
                Err(error) => {
                    &&& result == Err::<Vec<u8>, PacketSecurityError<A::Error, C::Error>>(
                        PacketSecurityError::Decode(error),
                    )
                    &&& *final(self) == *old(self)
                },
                Ok(parts) => {
                    exists|
                        verifier: &mut A,
                        payload: &[u8],
                        tag: &[u8],
                        verdict: Result<bool, A::Error>,
                    |
                        #![trigger call_ensures(
                            A::verify,
                            (verifier, parts.key_id, parts.nonce, payload, tag),
                            verdict,
                        )]
                        {
                            let max_seen = old(self).replay.max_seen();
                            let order = old(self).replay@;
                            let stats = stats_after(
                                verdict,
                                old(self).stats,
                                max_seen,
                                order,
                                parts.key_id,
                                parts.nonce,
                            );
                            &&& call_ensures(
                                A::verify,
                                (verifier, parts.key_id, parts.nonce, payload, tag),
                                verdict,
                            )
                            &&& *verifier == old(self).authenticator
                            &&& *final(verifier) == final(self).authenticator
                            &&& payload@ == parts.payload
                            &&& tag@ == parts.tag
                            &&& final(self).replay@ == history_after(
                                verdict,
                                max_seen,
                                order,
                                parts.key_id,
                                parts.nonce,
                            )
                            &&& match admitted::<A::Error, C::Error>(
                                verdict,
                                max_seen,
                                order,
                                parts.key_id,
                                parts.nonce,
                            ) {
                                Err(refusal) => {
                                    &&& result == Err::<Vec<u8>, PacketSecurityError<A::Error, C::Error>>(refusal)
                                    &&& final(self).cipher == old(self).cipher
                                    &&& final(self).stats == stats
                                },
                                Ok(()) => match result {
                                    Ok(opened) => {
                                        &&& final(self).stats == (PacketSecurityStats {
                                            opened: stats.opened.saturating_add(1),
                                            ..stats
                                        })
                                        &&& exists|
                                            cipher: &mut C,
                                            buffer: &mut Vec<u8>,
                                            outcome: Result<(), C::Error>,
                                        |
                                            #![trigger call_ensures(
                                                C::open,
                                                (cipher, parts.key_id, parts.nonce, buffer),
                                                outcome,
                                            )]
                                            call_ensures(C::open, (cipher, parts.key_id, parts.nonce, buffer), outcome)
                                                && outcome is Ok && *cipher == old(self).cipher && *final(cipher) == final(self).cipher
                                                && buffer@ == parts.payload && *final(buffer) == opened
                                    },
                                    Err(PacketSecurityError::Cipher(error)) => {
                                        &&& final(self).stats == stats
                                        &&& exists|
                                            cipher: &mut C,
                                            buffer: &mut Vec<u8>,
                                            outcome: Result<(), C::Error>,
                                        |
                                            #![trigger call_ensures(
                                                C::open,
                                                (cipher, parts.key_id, parts.nonce, buffer),
                                                outcome,
                                            )]
                                            call_ensures(C::open, (cipher, parts.key_id, parts.nonce, buffer), outcome)
                                                && outcome == Err::<(), C::Error>(error) && *cipher == old(self).cipher && *final(cipher) == final(self).cipher
                                                && buffer@ == parts.payload
                                    },
                                    Err(_) => false,
                                },
                            }
                        }
                },
            },
    {
        let envelope = match PacketSecurityEnvelopeRef::decode(self.config, input) {
            Ok(envelope) => envelope,
            Err(error) => {
                return Err(PacketSecurityError::Decode(error));
            },
        };
        proof {
            let parts = decoded_envelope(self.config, input@)->Ok_0;
            assert(parts.key_id == envelope@.key_id && parts.nonce == envelope@.nonce);
        }
        self.open_borrowed_owned(envelope)
    }

    /// Decodes an envelope, validates its key against `key_ring`, then opens it.
    pub fn open_with_key_ring(&mut self, key_ring: &PacketKeyRing, input: &[u8], now: Tick) -> (result:
        Result<Vec<u8>, PacketSecurityError<A::Error, C::Error>>)
        requires
            old(self).wf(),
            key_ring.wf(),
        ensures
            final(self).wf(),
            final(self).config == old(self).config,
            final(self).next_nonce == old(self).next_nonce,
            final(self).replay.max_seen() == old(self).replay.max_seen(),
            match decoded_envelope(old(self).config, input@) {
                Err(error) => {
                    &&& result == Err::<Vec<u8>, PacketSecurityError<A::Error, C::Error>>(
                        PacketSecurityError::Decode(error),
                    )
                    &&& *final(self) == *old(self)
                },
                Ok(parts) => match accepted_key(key_ring@, parts.key_id, now) {
                    Err(error) => {
                        &&& result == Err::<Vec<u8>, PacketSecurityError<A::Error, C::Error>>(
                            PacketSecurityError::Key(error),
                        )
                        &&& final(self).replay == old(self).replay
                        &&& final(self).authenticator == old(self).authenticator
                        &&& final(self).cipher == old(self).cipher
                        &&& final(self).stats == (PacketSecurityStats {
                            key_rejected: old(self).stats.key_rejected.saturating_add(1),
                            ..old(self).stats
                        })
                    },
                    Ok(_) => {
                        exists|
                            verifier: &mut A,
                            payload: &[u8],
                            tag: &[u8],
                            verdict: Result<bool, A::Error>,
                        |
                            #![trigger call_ensures(
                                A::verify,
                                (verifier, parts.key_id, parts.nonce, payload, tag),
                                verdict,
                            )]
                            {
                                let max_seen = old(self).replay.max_seen();
                                let order = old(self).replay@;
                                let stats = stats_after(
                                    verdict,
                                    old(self).stats,
                                    max_seen,
                                    order,
                                    parts.key_id,
                                    parts.nonce,
                                );
                                &&& call_ensures(
                                    A::verify,
                                    (verifier, parts.key_id, parts.nonce, payload, tag),
                                    verdict,
                                )
                                &&& *verifier == old(self).authenticator
                                &&& *final(verifier) == final(self).authenticator
                                &&& payload@ == parts.payload
                                &&& tag@ == parts.tag
                                &&& final(self).replay@ == history_after(
                                    verdict,
                                    max_seen,
                                    order,
                                    parts.key_id,
                                    parts.nonce,
                                )
                                &&& match admitted::<A::Error, C::Error>(
                                    verdict,
                                    max_seen,
                                    order,
                                    parts.key_id,
                                    parts.nonce,
                                ) {
                                    Err(refusal) => {
                                        &&& result == Err::<Vec<u8>, PacketSecurityError<A::Error, C::Error>>(refusal)
                                        &&& final(self).cipher == old(self).cipher
                                        &&& final(self).stats == stats
                                    },
                                    Ok(()) => match result {
                                        Ok(opened) => {
                                            &&& final(self).stats == (PacketSecurityStats {
                                                opened: stats.opened.saturating_add(1),
                                                ..stats
                                            })
                                            &&& exists|
                                                cipher: &mut C,
                                                buffer: &mut Vec<u8>,
                                                outcome: Result<(), C::Error>,
                                            |
                                                #![trigger call_ensures(
                                                    C::open,
                                                    (cipher, parts.key_id, parts.nonce, buffer),
                                                    outcome,
                                                )]
                                                call_ensures(C::open, (cipher, parts.key_id, parts.nonce, buffer), outcome)
                                                    && outcome is Ok && *cipher == old(self).cipher && *final(cipher) == final(self).cipher
                                                    && buffer@ == parts.payload && *final(buffer) == opened
                                        },
                                        Err(PacketSecurityError::Cipher(error)) => {
                                            &&& final(self).stats == stats
                                            &&& exists|
                                                cipher: &mut C,
                                                buffer: &mut Vec<u8>,
                                                outcome: Result<(), C::Error>,
                                            |
                                                #![trigger call_ensures(
                                                    C::open,
                                                    (cipher, parts.key_id, parts.nonce, buffer),
                                                    outcome,
                                                )]
                                                call_ensures(C::open, (cipher, parts.key_id, parts.nonce, buffer), outcome)
                                                    && outcome == Err::<(), C::Error>(error) && *cipher == old(self).cipher && *final(cipher) == final(self).cipher
                                                    && buffer@ == parts.payload
                                        },
                                        Err(_) => false,
                                    },
                                }
                            }
                    },
                },
            },
    {
        let envelope = match PacketSecurityEnvelopeRef::decode(self.config, input) {
            Ok(envelope) => envelope,
            Err(error) => {
                return Err(PacketSecurityError::Decode(error));
            },
        };
        if let Err(error) = key_ring.accept_key(envelope.key_id, now) {
            self.stats.key_rejected = self.stats.key_rejected.saturating_add(1);
            return Err(PacketSecurityError::Key(error));
        }
        self.open_borrowed_owned(envelope)
    }

    /// Opens one envelope into caller-owned reusable payload storage.
    pub fn open_with_scratch<'a>(
        &mut self,
        input: &[u8],
        scratch: &'a mut PacketSecurityOpenScratch,
    ) -> (result: Result<PacketSecurityOpenView<'a>, PacketSecurityError<A::Error, C::Error>>)
        requires
            old(self).wf(),
        ensures
            final(self).wf(),
            final(self).config == old(self).config,
            final(self).next_nonce == old(self).next_nonce,
            final(self).replay.max_seen() == old(self).replay.max_seen(),
            match decoded_envelope(old(self).config, input@) {
                Err(error) => {
                    &&& result == Err::<PacketSecurityOpenView<'a>, PacketSecurityError<A::Error, C::Error>>(
                        PacketSecurityError::Decode(error),
                    )
                    &&& *final(scratch) == *old(scratch)
                    &&& *final(self) == *old(self)
                },
                Ok(parts) => {
                    exists|
                        verifier: &mut A,
                        payload: &[u8],
                        tag: &[u8],
                        verdict: Result<bool, A::Error>,
                    |
                        #![trigger call_ensures(
                            A::verify,
                            (verifier, parts.key_id, parts.nonce, payload, tag),
                            verdict,
                        )]
                        {
                            let max_seen = old(self).replay.max_seen();
                            let order = old(self).replay@;
                            let stats = stats_after(
                                verdict,
                                old(self).stats,
                                max_seen,
                                order,
                                parts.key_id,
                                parts.nonce,
                            );
                            &&& call_ensures(
                                A::verify,
                                (verifier, parts.key_id, parts.nonce, payload, tag),
                                verdict,
                            )
                            &&& *verifier == old(self).authenticator
                            &&& *final(verifier) == final(self).authenticator
                            &&& payload@ == parts.payload
                            &&& tag@ == parts.tag
                            &&& final(self).replay@ == history_after(
                                verdict,
                                max_seen,
                                order,
                                parts.key_id,
                                parts.nonce,
                            )
                            &&& match admitted::<A::Error, C::Error>(
                                verdict,
                                max_seen,
                                order,
                                parts.key_id,
                                parts.nonce,
                            ) {
                                Err(refusal) => {
                                    &&& result == Err::<PacketSecurityOpenView<'a>, PacketSecurityError<A::Error, C::Error>>(refusal)
                                    &&& *final(scratch) == *old(scratch)
                                    &&& final(self).cipher == old(self).cipher
                                    &&& final(self).stats == stats
                                },
                                Ok(()) => match result {
                                    Ok(view) => {
                                        &&& view.key_id == parts.key_id
                                        &&& view.nonce == parts.nonce
                                        &&& final(self).stats == (PacketSecurityStats {
                                            opened: stats.opened.saturating_add(1),
                                            ..stats
                                        })
                                        &&& exists|
                                            cipher: &mut C,
                                            buffer: &mut Vec<u8>,
                                            outcome: Result<(), C::Error>,
                                        |
                                            #![trigger call_ensures(
                                                C::open,
                                                (cipher, parts.key_id, parts.nonce, buffer),
                                                outcome,
                                            )]
                                            call_ensures(C::open, (cipher, parts.key_id, parts.nonce, buffer), outcome)
                                                && outcome is Ok && *cipher == old(self).cipher && *final(cipher) == final(self).cipher
                                                && buffer@ == parts.payload && final(buffer)@ == view.payload@
                                    },
                                    Err(PacketSecurityError::Cipher(error)) => {
                                        &&& final(self).stats == stats
                                        &&& exists|
                                            cipher: &mut C,
                                            buffer: &mut Vec<u8>,
                                            outcome: Result<(), C::Error>,
                                        |
                                            #![trigger call_ensures(
                                                C::open,
                                                (cipher, parts.key_id, parts.nonce, buffer),
                                                outcome,
                                            )]
                                            call_ensures(C::open, (cipher, parts.key_id, parts.nonce, buffer), outcome)
                                                && outcome == Err::<(), C::Error>(error) && *cipher == old(self).cipher && *final(cipher) == final(self).cipher
                                                && buffer@ == parts.payload
                                    },
                                    Err(_) => false,
                                },
                            }
                        }
                },
            },
    {
        let envelope = match PacketSecurityEnvelopeRef::decode(self.config, input) {
            Ok(envelope) => envelope,
            Err(error) => {
                return Err(PacketSecurityError::Decode(error));
            },
        };
        proof {
            let parts = decoded_envelope(self.config, input@)->Ok_0;
            assert(parts.key_id == envelope@.key_id && parts.nonce == envelope@.nonce);
        }
        self.open_borrowed_with_scratch(envelope, scratch)
    }

    /// Validates a key-ring entry and opens into caller-owned reusable storage.
    pub fn open_with_key_ring_and_scratch<'a>(
        &mut self,
        key_ring: &PacketKeyRing,
        input: &[u8],
        now: Tick,
        scratch: &'a mut PacketSecurityOpenScratch,
    ) -> (result: Result<PacketSecurityOpenView<'a>, PacketSecurityError<A::Error, C::Error>>)
        requires
            old(self).wf(),
            key_ring.wf(),
        ensures
            final(self).wf(),
            final(self).config == old(self).config,
            final(self).next_nonce == old(self).next_nonce,
            final(self).replay.max_seen() == old(self).replay.max_seen(),
            match decoded_envelope(old(self).config, input@) {
                Err(error) => {
                    &&& result == Err::<PacketSecurityOpenView<'a>, PacketSecurityError<A::Error, C::Error>>(
                        PacketSecurityError::Decode(error),
                    )
                    &&& *final(scratch) == *old(scratch)
                    &&& *final(self) == *old(self)
                },
                Ok(parts) => match accepted_key(key_ring@, parts.key_id, now) {
                    Err(error) => {
                        &&& result == Err::<PacketSecurityOpenView<'a>, PacketSecurityError<A::Error, C::Error>>(
                            PacketSecurityError::Key(error),
                        )
                        &&& *final(scratch) == *old(scratch)
                        &&& final(self).replay == old(self).replay
                        &&& final(self).authenticator == old(self).authenticator
                        &&& final(self).cipher == old(self).cipher
                        &&& final(self).stats == (PacketSecurityStats {
                            key_rejected: old(self).stats.key_rejected.saturating_add(1),
                            ..old(self).stats
                        })
                    },
                    Ok(_) => {
                        exists|
                            verifier: &mut A,
                            payload: &[u8],
                            tag: &[u8],
                            verdict: Result<bool, A::Error>,
                        |
                            #![trigger call_ensures(
                                A::verify,
                                (verifier, parts.key_id, parts.nonce, payload, tag),
                                verdict,
                            )]
                            {
                                let max_seen = old(self).replay.max_seen();
                                let order = old(self).replay@;
                                let stats = stats_after(
                                    verdict,
                                    old(self).stats,
                                    max_seen,
                                    order,
                                    parts.key_id,
                                    parts.nonce,
                                );
                                &&& call_ensures(
                                    A::verify,
                                    (verifier, parts.key_id, parts.nonce, payload, tag),
                                    verdict,
                                )
                                &&& *verifier == old(self).authenticator
                                &&& *final(verifier) == final(self).authenticator
                                &&& payload@ == parts.payload
                                &&& tag@ == parts.tag
                                &&& final(self).replay@ == history_after(
                                    verdict,
                                    max_seen,
                                    order,
                                    parts.key_id,
                                    parts.nonce,
                                )
                                &&& match admitted::<A::Error, C::Error>(
                                    verdict,
                                    max_seen,
                                    order,
                                    parts.key_id,
                                    parts.nonce,
                                ) {
                                    Err(refusal) => {
                                        &&& result == Err::<PacketSecurityOpenView<'a>, PacketSecurityError<A::Error, C::Error>>(refusal)
                                        &&& *final(scratch) == *old(scratch)
                                        &&& final(self).cipher == old(self).cipher
                                        &&& final(self).stats == stats
                                    },
                                    Ok(()) => match result {
                                        Ok(view) => {
                                            &&& view.key_id == parts.key_id
                                            &&& view.nonce == parts.nonce
                                            &&& final(self).stats == (PacketSecurityStats {
                                                opened: stats.opened.saturating_add(1),
                                                ..stats
                                            })
                                            &&& exists|
                                                cipher: &mut C,
                                                buffer: &mut Vec<u8>,
                                                outcome: Result<(), C::Error>,
                                            |
                                                #![trigger call_ensures(
                                                    C::open,
                                                    (cipher, parts.key_id, parts.nonce, buffer),
                                                    outcome,
                                                )]
                                                call_ensures(C::open, (cipher, parts.key_id, parts.nonce, buffer), outcome)
                                                    && outcome is Ok && *cipher == old(self).cipher && *final(cipher) == final(self).cipher
                                                    && buffer@ == parts.payload && final(buffer)@ == view.payload@
                                        },
                                        Err(PacketSecurityError::Cipher(error)) => {
                                            &&& final(self).stats == stats
                                            &&& exists|
                                                cipher: &mut C,
                                                buffer: &mut Vec<u8>,
                                                outcome: Result<(), C::Error>,
                                            |
                                                #![trigger call_ensures(
                                                    C::open,
                                                    (cipher, parts.key_id, parts.nonce, buffer),
                                                    outcome,
                                                )]
                                                call_ensures(C::open, (cipher, parts.key_id, parts.nonce, buffer), outcome)
                                                    && outcome == Err::<(), C::Error>(error) && *cipher == old(self).cipher && *final(cipher) == final(self).cipher
                                                    && buffer@ == parts.payload
                                        },
                                        Err(_) => false,
                                    },
                                }
                            }
                    },
                },
            },
    {
        let envelope = match PacketSecurityEnvelopeRef::decode(self.config, input) {
            Ok(envelope) => envelope,
            Err(error) => {
                return Err(PacketSecurityError::Decode(error));
            },
        };
        if let Err(error) = key_ring.accept_key(envelope.key_id, now) {
            self.stats.key_rejected = self.stats.key_rejected.saturating_add(1);
            return Err(PacketSecurityError::Key(error));
        }
        self.open_borrowed_with_scratch(envelope, scratch)
    }

    /// Seals and appends one payload with an explicit nonce and reusable storage.
    pub fn seal_with_nonce_into(
        &mut self,
        key_id: u32,
        nonce: u64,
        payload: &[u8],
        out: &mut Vec<u8>,
        scratch: &mut PacketSecurityScratch,
    ) -> (result: Result<(), PacketSecurityError<A::Error, C::Error>>)
        requires
            old(self).wf(),
        ensures
            final(self).wf(),
            final(self).config == old(self).config,
            final(self).replay == old(self).replay,
            final(self).next_nonce == old(self).next_nonce,
            payload@.len() > old(self).config.max_payload_bytes ==> result == Err::<(), PacketSecurityError<A::Error, C::Error>>(
                PacketSecurityError::Encode(
                    PacketSecurityEncodeError::PayloadTooLarge {
                        budget: old(self).config.max_payload_bytes,
                        actual: payload@.len() as usize,
                    },
                ),
            ) && *final(self) == *old(self) && *final(scratch) == *old(scratch) && final(out)@ == old(out)@,
            payload@.len() <= old(self).config.max_payload_bytes ==> match result {
                Ok(()) => {
                    &&& final(self).stats == (PacketSecurityStats {
                        sealed: old(self).stats.sealed.saturating_add(1),
                        ..old(self).stats
                    })
                    &&& envelope_encode_error(
                        old(self).config,
                        final(scratch).sealed_payload@.len(),
                        final(scratch).tag@.len(),
                    ) is None
                    &&& final(out)@ == old(out)@ + envelope_bytes(
                        EnvelopeParts {
                            key_id: key_id,
                            nonce: nonce,
                            payload: final(scratch).sealed_payload@,
                            tag: final(scratch).tag@,
                        },
                    )
                    &&& exists|
                        cipher: &mut C,
                        buffer: &mut Vec<u8>,
                        outcome: Result<(), C::Error>,
                    |
                        #![trigger call_ensures(C::seal, (cipher, key_id, nonce, buffer), outcome)]
                        call_ensures(C::seal, (cipher, key_id, nonce, buffer), outcome) && outcome is Ok
                            && *cipher == old(self).cipher && *final(cipher) == final(self).cipher && buffer@
                            == payload@ && *final(buffer) == final(scratch).sealed_payload
                    &&& exists|
                        signer: &mut A,
                        sealed: &[u8],
                        tag: &mut Vec<u8>,
                        outcome: Result<(), A::Error>,
                    |
                        #![trigger call_ensures(
                            A::sign,
                            (signer, key_id, nonce, sealed, tag),
                            outcome,
                        )]
                        call_ensures(A::sign, (signer, key_id, nonce, sealed, tag), outcome) && outcome is Ok
                            && *signer == old(self).authenticator && *final(signer) == final(self).authenticator
                            && sealed@ == final(scratch).sealed_payload@ && tag@ == Seq::<u8>::empty() && *final(tag) == final(scratch).tag
                },
                Err(error) => {
                    &&& final(self).stats == old(self).stats
                    &&& final(out)@ == old(out)@
                    &&& match error {
                        PacketSecurityError::Cipher(error) => {
                            &&& final(self).authenticator == old(self).authenticator
                            &&& exists|
                                cipher: &mut C,
                                buffer: &mut Vec<u8>,
                                outcome: Result<(), C::Error>,
                            |
                                #![trigger call_ensures(C::seal, (cipher, key_id, nonce, buffer), outcome)]
                                call_ensures(C::seal, (cipher, key_id, nonce, buffer), outcome) && outcome == Err::<(), C::Error>(error)
                                    && *cipher == old(self).cipher && *final(cipher) == final(self).cipher && buffer@
                                    == payload@
                        },
                        PacketSecurityError::Authenticator(error) => {
                            &&& exists|
                                cipher: &mut C,
                                buffer: &mut Vec<u8>,
                                outcome: Result<(), C::Error>,
                            |
                                #![trigger call_ensures(C::seal, (cipher, key_id, nonce, buffer), outcome)]
                                call_ensures(C::seal, (cipher, key_id, nonce, buffer), outcome) && outcome is Ok
                                    && *cipher == old(self).cipher && *final(cipher) == final(self).cipher && buffer@
                                    == payload@ && *final(buffer) == final(scratch).sealed_payload
                            &&& exists|
                                signer: &mut A,
                                sealed: &[u8],
                                tag: &mut Vec<u8>,
                                outcome: Result<(), A::Error>,
                            |
                                #![trigger call_ensures(
                                    A::sign,
                                    (signer, key_id, nonce, sealed, tag),
                                    outcome,
                                )]
                                call_ensures(A::sign, (signer, key_id, nonce, sealed, tag), outcome) && outcome == Err::<(), A::Error>(error)
                                    && *signer == old(self).authenticator && *final(signer) == final(self).authenticator
                                    && sealed@ == final(scratch).sealed_payload@ && tag@ == Seq::<u8>::empty()
                        },
                        PacketSecurityError::Encode(error) => {
                            &&& envelope_encode_error(
                                old(self).config,
                                final(scratch).sealed_payload@.len(),
                                final(scratch).tag@.len(),
                            ) == Some(error)
                            &&& exists|
                                cipher: &mut C,
                                buffer: &mut Vec<u8>,
                                outcome: Result<(), C::Error>,
                            |
                                #![trigger call_ensures(C::seal, (cipher, key_id, nonce, buffer), outcome)]
                                call_ensures(C::seal, (cipher, key_id, nonce, buffer), outcome) && outcome is Ok
                                    && *cipher == old(self).cipher && *final(cipher) == final(self).cipher && buffer@
                                    == payload@ && *final(buffer) == final(scratch).sealed_payload
                            &&& exists|
                                signer: &mut A,
                                sealed: &[u8],
                                tag: &mut Vec<u8>,
                                outcome: Result<(), A::Error>,
                            |
                                #![trigger call_ensures(
                                    A::sign,
                                    (signer, key_id, nonce, sealed, tag),
                                    outcome,
                                )]
                                call_ensures(A::sign, (signer, key_id, nonce, sealed, tag), outcome) && outcome is Ok
                                    && *signer == old(self).authenticator && *final(signer) == final(self).authenticator
                                    && sealed@ == final(scratch).sealed_payload@ && tag@ == Seq::<u8>::empty() && *final(tag) == final(scratch).tag
                        },
                        _ => false,
                    }
                },
            },
    {
        self.prepare_seal(key_id, nonce, payload, scratch)?;
        match PacketSecurityEnvelope::encode_parts(
            self.config,
            key_id,
            nonce,
            scratch.sealed_payload.as_slice(),
            scratch.tag.as_slice(),
            out,
        ) {
            Ok(()) => {},
            Err(error) => {
                return Err(PacketSecurityError::Encode(error));
            },
        }
        self.stats.sealed = self.stats.sealed.saturating_add(1);
        Ok(())
    }

    /// Seals and appends one payload using an allocated nonce and reusable storage.
    pub fn seal_into(
        &mut self,
        key_id: u32,
        payload: &[u8],
        out: &mut Vec<u8>,
        scratch: &mut PacketSecurityScratch,
    ) -> (result: Result<u64, PacketSecurityError<A::Error, C::Error>>)
        requires
            old(self).wf(),
        ensures
            final(self).wf(),
            final(self).config == old(self).config,
            final(self).replay == old(self).replay,
            final(self).next_nonce@ == old(self).next_nonce@.insert(
                key_id as u128,
                nonce_for(old(self).next_nonce@, key_id).saturating_add(1),
            ),
            payload@.len() > old(self).config.max_payload_bytes ==> result == Err::<u64, PacketSecurityError<A::Error, C::Error>>(
                PacketSecurityError::Encode(
                    PacketSecurityEncodeError::PayloadTooLarge {
                        budget: old(self).config.max_payload_bytes,
                        actual: payload@.len() as usize,
                    },
                ),
            ) && final(self).same_but_nonces(*old(self)) && *final(scratch) == *old(scratch) && final(out)@ == old(out)@,
            payload@.len() <= old(self).config.max_payload_bytes ==> match result {
                Ok(nonce) => {
                    &&& nonce == nonce_for(old(self).next_nonce@, key_id)
                    &&& final(self).stats == (PacketSecurityStats {
                        sealed: old(self).stats.sealed.saturating_add(1),
                        ..old(self).stats
                    })
                    &&& envelope_encode_error(
                        old(self).config,
                        final(scratch).sealed_payload@.len(),
                        final(scratch).tag@.len(),
                    ) is None
                    &&& final(out)@ == old(out)@ + envelope_bytes(
                        EnvelopeParts {
                            key_id: key_id,
                            nonce: nonce_for(old(self).next_nonce@, key_id),
                            payload: final(scratch).sealed_payload@,
                            tag: final(scratch).tag@,
                        },
                    )
                    &&& exists|
                        cipher: &mut C,
                        buffer: &mut Vec<u8>,
                        outcome: Result<(), C::Error>,
                    |
                        #![trigger call_ensures(C::seal, (cipher, key_id, nonce_for(old(self).next_nonce@, key_id), buffer), outcome)]
                        call_ensures(C::seal, (cipher, key_id, nonce_for(old(self).next_nonce@, key_id), buffer), outcome) && outcome is Ok
                            && *cipher == old(self).cipher && *final(cipher) == final(self).cipher && buffer@
                            == payload@ && *final(buffer) == final(scratch).sealed_payload
                    &&& exists|
                        signer: &mut A,
                        sealed: &[u8],
                        tag: &mut Vec<u8>,
                        outcome: Result<(), A::Error>,
                    |
                        #![trigger call_ensures(
                            A::sign,
                            (signer, key_id, nonce_for(old(self).next_nonce@, key_id), sealed, tag),
                            outcome,
                        )]
                        call_ensures(A::sign, (signer, key_id, nonce_for(old(self).next_nonce@, key_id), sealed, tag), outcome) && outcome is Ok
                            && *signer == old(self).authenticator && *final(signer) == final(self).authenticator
                            && sealed@ == final(scratch).sealed_payload@ && tag@ == Seq::<u8>::empty() && *final(tag) == final(scratch).tag
                },
                Err(error) => {
                    &&& final(self).stats == old(self).stats
                    &&& final(out)@ == old(out)@
                    &&& match error {
                        PacketSecurityError::Cipher(error) => {
                            &&& final(self).authenticator == old(self).authenticator
                            &&& exists|
                                cipher: &mut C,
                                buffer: &mut Vec<u8>,
                                outcome: Result<(), C::Error>,
                            |
                                #![trigger call_ensures(C::seal, (cipher, key_id, nonce_for(old(self).next_nonce@, key_id), buffer), outcome)]
                                call_ensures(C::seal, (cipher, key_id, nonce_for(old(self).next_nonce@, key_id), buffer), outcome) && outcome == Err::<(), C::Error>(error)
                                    && *cipher == old(self).cipher && *final(cipher) == final(self).cipher && buffer@
                                    == payload@
                        },
                        PacketSecurityError::Authenticator(error) => {
                            &&& exists|
                                cipher: &mut C,
                                buffer: &mut Vec<u8>,
                                outcome: Result<(), C::Error>,
                            |
                                #![trigger call_ensures(C::seal, (cipher, key_id, nonce_for(old(self).next_nonce@, key_id), buffer), outcome)]
                                call_ensures(C::seal, (cipher, key_id, nonce_for(old(self).next_nonce@, key_id), buffer), outcome) && outcome is Ok
                                    && *cipher == old(self).cipher && *final(cipher) == final(self).cipher && buffer@
                                    == payload@ && *final(buffer) == final(scratch).sealed_payload
                            &&& exists|
                                signer: &mut A,
                                sealed: &[u8],
                                tag: &mut Vec<u8>,
                                outcome: Result<(), A::Error>,
                            |
                                #![trigger call_ensures(
                                    A::sign,
                                    (signer, key_id, nonce_for(old(self).next_nonce@, key_id), sealed, tag),
                                    outcome,
                                )]
                                call_ensures(A::sign, (signer, key_id, nonce_for(old(self).next_nonce@, key_id), sealed, tag), outcome) && outcome == Err::<(), A::Error>(error)
                                    && *signer == old(self).authenticator && *final(signer) == final(self).authenticator
                                    && sealed@ == final(scratch).sealed_payload@ && tag@ == Seq::<u8>::empty()
                        },
                        PacketSecurityError::Encode(error) => {
                            &&& envelope_encode_error(
                                old(self).config,
                                final(scratch).sealed_payload@.len(),
                                final(scratch).tag@.len(),
                            ) == Some(error)
                            &&& exists|
                                cipher: &mut C,
                                buffer: &mut Vec<u8>,
                                outcome: Result<(), C::Error>,
                            |
                                #![trigger call_ensures(C::seal, (cipher, key_id, nonce_for(old(self).next_nonce@, key_id), buffer), outcome)]
                                call_ensures(C::seal, (cipher, key_id, nonce_for(old(self).next_nonce@, key_id), buffer), outcome) && outcome is Ok
                                    && *cipher == old(self).cipher && *final(cipher) == final(self).cipher && buffer@
                                    == payload@ && *final(buffer) == final(scratch).sealed_payload
                            &&& exists|
                                signer: &mut A,
                                sealed: &[u8],
                                tag: &mut Vec<u8>,
                                outcome: Result<(), A::Error>,
                            |
                                #![trigger call_ensures(
                                    A::sign,
                                    (signer, key_id, nonce_for(old(self).next_nonce@, key_id), sealed, tag),
                                    outcome,
                                )]
                                call_ensures(A::sign, (signer, key_id, nonce_for(old(self).next_nonce@, key_id), sealed, tag), outcome) && outcome is Ok
                                    && *signer == old(self).authenticator && *final(signer) == final(self).authenticator
                                    && sealed@ == final(scratch).sealed_payload@ && tag@ == Seq::<u8>::empty() && *final(tag) == final(scratch).tag
                        },
                        _ => false,
                    }
                },
            },
    {
        let nonce: u64 = self.allocate_nonce(key_id);
        self.seal_with_nonce_into(key_id, nonce, payload, out, scratch)?;
        Ok(nonce)
    }

    /// Seals and encodes one payload with an explicit nonce.
    pub fn seal_with_nonce(&mut self, key_id: u32, nonce: u64, payload: &[u8]) -> (result: Result<
        Vec<u8>,
        PacketSecurityError<A::Error, C::Error>,
    >)
        requires
            old(self).wf(),
        ensures
            final(self).wf(),
            final(self).config == old(self).config,
            final(self).replay == old(self).replay,
            final(self).next_nonce == old(self).next_nonce,
            payload@.len() > old(self).config.max_payload_bytes ==> result == Err::<Vec<u8>, PacketSecurityError<A::Error, C::Error>>(
                PacketSecurityError::Encode(
                    PacketSecurityEncodeError::PayloadTooLarge {
                        budget: old(self).config.max_payload_bytes,
                        actual: payload@.len() as usize,
                    },
                ),
            ) && *final(self) == *old(self),
            payload@.len() <= old(self).config.max_payload_bytes ==> match result {
                Ok(out) => {
                    let parts = decoded_envelope(old(self).config, out@)->Ok_0;
                    &&& decoded_envelope(old(self).config, out@) is Ok
                    &&& out@ == envelope_bytes(parts)
                    &&& parts.key_id == key_id
                    &&& parts.nonce == nonce
                    &&& final(self).stats == (PacketSecurityStats {
                        sealed: old(self).stats.sealed.saturating_add(1),
                        ..old(self).stats
                    })
                    &&& exists|
                        cipher: &mut C,
                        buffer: &mut Vec<u8>,
                        outcome: Result<(), C::Error>,
                    |
                        #![trigger call_ensures(C::seal, (cipher, key_id, nonce, buffer), outcome)]
                        call_ensures(C::seal, (cipher, key_id, nonce, buffer), outcome) && outcome is Ok
                            && *cipher == old(self).cipher && *final(cipher) == final(self).cipher && buffer@
                            == payload@ && final(buffer)@ == parts.payload
                    &&& exists|
                        signer: &mut A,
                        sealed: &[u8],
                        tag: &mut Vec<u8>,
                        outcome: Result<(), A::Error>,
                    |
                        #![trigger call_ensures(
                            A::sign,
                            (signer, key_id, nonce, sealed, tag),
                            outcome,
                        )]
                        call_ensures(A::sign, (signer, key_id, nonce, sealed, tag), outcome) && outcome is Ok
                            && *signer == old(self).authenticator && *final(signer) == final(self).authenticator
                            && sealed@ == parts.payload && tag@ == Seq::<u8>::empty() && final(tag)@ == parts.tag
                },
                Err(error) => {
                    &&& final(self).stats == old(self).stats
                    &&& match error {
                        PacketSecurityError::Cipher(error) => {
                            &&& final(self).authenticator == old(self).authenticator
                            &&& exists|
                                cipher: &mut C,
                                buffer: &mut Vec<u8>,
                                outcome: Result<(), C::Error>,
                            |
                                #![trigger call_ensures(C::seal, (cipher, key_id, nonce, buffer), outcome)]
                                call_ensures(C::seal, (cipher, key_id, nonce, buffer), outcome) && outcome == Err::<(), C::Error>(error)
                                    && *cipher == old(self).cipher && *final(cipher) == final(self).cipher && buffer@
                                    == payload@
                        },
                        PacketSecurityError::Authenticator(error) => exists|plain: Seq<u8>| {
                            &&& #[trigger] plain.len() >= 0
                            &&& exists|
                                cipher: &mut C,
                                buffer: &mut Vec<u8>,
                                outcome: Result<(), C::Error>,
                            |
                                #![trigger call_ensures(C::seal, (cipher, key_id, nonce, buffer), outcome)]
                                call_ensures(C::seal, (cipher, key_id, nonce, buffer), outcome) && outcome is Ok
                                    && *cipher == old(self).cipher && *final(cipher) == final(self).cipher && buffer@
                                    == payload@ && final(buffer)@ == plain
                            &&& exists|
                                signer: &mut A,
                                sealed: &[u8],
                                tag: &mut Vec<u8>,
                                outcome: Result<(), A::Error>,
                            |
                                #![trigger call_ensures(
                                    A::sign,
                                    (signer, key_id, nonce, sealed, tag),
                                    outcome,
                                )]
                                call_ensures(A::sign, (signer, key_id, nonce, sealed, tag), outcome) && outcome == Err::<(), A::Error>(error)
                                    && *signer == old(self).authenticator && *final(signer) == final(self).authenticator
                                    && sealed@ == plain && tag@ == Seq::<u8>::empty()
                        },
                        PacketSecurityError::Encode(error) => exists|body: Seq<u8>, mark: Seq<u8>| {
                            &&& #[trigger] envelope_encode_error(
                                old(self).config,
                                body.len(),
                                mark.len(),
                            ) == Some(error)
                            &&& exists|
                                cipher: &mut C,
                                buffer: &mut Vec<u8>,
                                outcome: Result<(), C::Error>,
                            |
                                #![trigger call_ensures(C::seal, (cipher, key_id, nonce, buffer), outcome)]
                                call_ensures(C::seal, (cipher, key_id, nonce, buffer), outcome) && outcome is Ok
                                    && *cipher == old(self).cipher && *final(cipher) == final(self).cipher && buffer@
                                    == payload@ && final(buffer)@ == body
                            &&& exists|
                                signer: &mut A,
                                sealed: &[u8],
                                tag: &mut Vec<u8>,
                                outcome: Result<(), A::Error>,
                            |
                                #![trigger call_ensures(
                                    A::sign,
                                    (signer, key_id, nonce, sealed, tag),
                                    outcome,
                                )]
                                call_ensures(A::sign, (signer, key_id, nonce, sealed, tag), outcome) && outcome is Ok
                                    && *signer == old(self).authenticator && *final(signer) == final(self).authenticator
                                    && sealed@ == body && tag@ == Seq::<u8>::empty() && final(tag)@ == mark
                        },
                        _ => false,
                    }
                },
            },
    {
        let mut scratch = PacketSecurityScratch::new();
        self.prepare_seal(key_id, nonce, payload, &mut scratch)?;
        let mut out: Vec<u8> = Vec::new();
        let ghost parts = EnvelopeParts {
            key_id,
            nonce,
            payload: scratch.sealed_payload@,
            tag: scratch.tag@,
        };
        match PacketSecurityEnvelope::encode_parts(
            self.config,
            key_id,
            nonce,
            scratch.sealed_payload.as_slice(),
            scratch.tag.as_slice(),
            &mut out,
        ) {
            Ok(()) => {},
            Err(error) => {
                return Err(PacketSecurityError::Encode(error));
            },
        }
        proof {
            law_envelope_decode_inverts_encode(self.config, parts);
            assert(out@ =~= envelope_bytes(parts));
        }
        self.stats.sealed = self.stats.sealed.saturating_add(1);
        Ok(out)
    }

    /// Seals and encodes one payload.
    pub fn seal(&mut self, key_id: u32, payload: &[u8]) -> (result: Result<
        Vec<u8>,
        PacketSecurityError<A::Error, C::Error>,
    >)
        requires
            old(self).wf(),
        ensures
            final(self).wf(),
            final(self).config == old(self).config,
            final(self).replay == old(self).replay,
            final(self).next_nonce@ == old(self).next_nonce@.insert(
                key_id as u128,
                nonce_for(old(self).next_nonce@, key_id).saturating_add(1),
            ),
            payload@.len() > old(self).config.max_payload_bytes ==> result == Err::<Vec<u8>, PacketSecurityError<A::Error, C::Error>>(
                PacketSecurityError::Encode(
                    PacketSecurityEncodeError::PayloadTooLarge {
                        budget: old(self).config.max_payload_bytes,
                        actual: payload@.len() as usize,
                    },
                ),
            ) && final(self).same_but_nonces(*old(self)),
            payload@.len() <= old(self).config.max_payload_bytes ==> match result {
                Ok(out) => {
                    let parts = decoded_envelope(old(self).config, out@)->Ok_0;
                    &&& decoded_envelope(old(self).config, out@) is Ok
                    &&& out@ == envelope_bytes(parts)
                    &&& parts.key_id == key_id
                    &&& parts.nonce == nonce_for(old(self).next_nonce@, key_id)
                    &&& final(self).stats == (PacketSecurityStats {
                        sealed: old(self).stats.sealed.saturating_add(1),
                        ..old(self).stats
                    })
                    &&& exists|
                        cipher: &mut C,
                        buffer: &mut Vec<u8>,
                        outcome: Result<(), C::Error>,
                    |
                        #![trigger call_ensures(C::seal, (cipher, key_id, nonce_for(old(self).next_nonce@, key_id), buffer), outcome)]
                        call_ensures(C::seal, (cipher, key_id, nonce_for(old(self).next_nonce@, key_id), buffer), outcome) && outcome is Ok
                            && *cipher == old(self).cipher && *final(cipher) == final(self).cipher && buffer@
                            == payload@ && final(buffer)@ == parts.payload
                    &&& exists|
                        signer: &mut A,
                        sealed: &[u8],
                        tag: &mut Vec<u8>,
                        outcome: Result<(), A::Error>,
                    |
                        #![trigger call_ensures(
                            A::sign,
                            (signer, key_id, nonce_for(old(self).next_nonce@, key_id), sealed, tag),
                            outcome,
                        )]
                        call_ensures(A::sign, (signer, key_id, nonce_for(old(self).next_nonce@, key_id), sealed, tag), outcome) && outcome is Ok
                            && *signer == old(self).authenticator && *final(signer) == final(self).authenticator
                            && sealed@ == parts.payload && tag@ == Seq::<u8>::empty() && final(tag)@ == parts.tag
                },
                Err(error) => {
                    &&& final(self).stats == old(self).stats
                    &&& match error {
                        PacketSecurityError::Cipher(error) => {
                            &&& final(self).authenticator == old(self).authenticator
                            &&& exists|
                                cipher: &mut C,
                                buffer: &mut Vec<u8>,
                                outcome: Result<(), C::Error>,
                            |
                                #![trigger call_ensures(C::seal, (cipher, key_id, nonce_for(old(self).next_nonce@, key_id), buffer), outcome)]
                                call_ensures(C::seal, (cipher, key_id, nonce_for(old(self).next_nonce@, key_id), buffer), outcome) && outcome == Err::<(), C::Error>(error)
                                    && *cipher == old(self).cipher && *final(cipher) == final(self).cipher && buffer@
                                    == payload@
                        },
                        PacketSecurityError::Authenticator(error) => exists|plain: Seq<u8>| {
                            &&& #[trigger] plain.len() >= 0
                            &&& exists|
                                cipher: &mut C,
                                buffer: &mut Vec<u8>,
                                outcome: Result<(), C::Error>,
                            |
                                #![trigger call_ensures(C::seal, (cipher, key_id, nonce_for(old(self).next_nonce@, key_id), buffer), outcome)]
                                call_ensures(C::seal, (cipher, key_id, nonce_for(old(self).next_nonce@, key_id), buffer), outcome) && outcome is Ok
                                    && *cipher == old(self).cipher && *final(cipher) == final(self).cipher && buffer@
                                    == payload@ && final(buffer)@ == plain
                            &&& exists|
                                signer: &mut A,
                                sealed: &[u8],
                                tag: &mut Vec<u8>,
                                outcome: Result<(), A::Error>,
                            |
                                #![trigger call_ensures(
                                    A::sign,
                                    (signer, key_id, nonce_for(old(self).next_nonce@, key_id), sealed, tag),
                                    outcome,
                                )]
                                call_ensures(A::sign, (signer, key_id, nonce_for(old(self).next_nonce@, key_id), sealed, tag), outcome) && outcome == Err::<(), A::Error>(error)
                                    && *signer == old(self).authenticator && *final(signer) == final(self).authenticator
                                    && sealed@ == plain && tag@ == Seq::<u8>::empty()
                        },
                        PacketSecurityError::Encode(error) => exists|body: Seq<u8>, mark: Seq<u8>| {
                            &&& #[trigger] envelope_encode_error(
                                old(self).config,
                                body.len(),
                                mark.len(),
                            ) == Some(error)
                            &&& exists|
                                cipher: &mut C,
                                buffer: &mut Vec<u8>,
                                outcome: Result<(), C::Error>,
                            |
                                #![trigger call_ensures(C::seal, (cipher, key_id, nonce_for(old(self).next_nonce@, key_id), buffer), outcome)]
                                call_ensures(C::seal, (cipher, key_id, nonce_for(old(self).next_nonce@, key_id), buffer), outcome) && outcome is Ok
                                    && *cipher == old(self).cipher && *final(cipher) == final(self).cipher && buffer@
                                    == payload@ && final(buffer)@ == body
                            &&& exists|
                                signer: &mut A,
                                sealed: &[u8],
                                tag: &mut Vec<u8>,
                                outcome: Result<(), A::Error>,
                            |
                                #![trigger call_ensures(
                                    A::sign,
                                    (signer, key_id, nonce_for(old(self).next_nonce@, key_id), sealed, tag),
                                    outcome,
                                )]
                                call_ensures(A::sign, (signer, key_id, nonce_for(old(self).next_nonce@, key_id), sealed, tag), outcome) && outcome is Ok
                                    && *signer == old(self).authenticator && *final(signer) == final(self).authenticator
                                    && sealed@ == body && tag@ == Seq::<u8>::empty() && final(tag)@ == mark
                        },
                        _ => false,
                    }
                },
            },
    {
        let nonce: u64 = self.allocate_nonce(key_id);
        self.seal_with_nonce(key_id, nonce, payload)
    }

    /// Selects a send key from `key_ring`, then seals and encodes one payload.
    pub fn seal_with_key_ring(&mut self, key_ring: &PacketKeyRing, payload: &[u8], now: Tick) -> (result:
        Result<Vec<u8>, PacketSecurityError<A::Error, C::Error>>)
        requires
            old(self).wf(),
            key_ring.wf(),
        ensures
            exists|selected: Result<PacketKeyDescriptor, PacketKeyRingError>|
                {
                    &&& #[trigger] selects(key_ring@, now, selected)
                    &&& match selected {
                        Err(error) => {
                            &&& result == Err::<Vec<u8>, PacketSecurityError<A::Error, C::Error>>(
                                PacketSecurityError::Key(error),
                            )
                            &&& *final(self) == *old(self)
                        },
                        Ok(best) => {
                        &&& (final(self).wf())
                        &&& (final(self).config == old(self).config)
                        &&& (final(self).replay == old(self).replay)
                        &&& (final(self).next_nonce@ == old(self).next_nonce@.insert(
                best.key_id as u128,
                nonce_for(old(self).next_nonce@, best.key_id).saturating_add(1),
            ))
                        &&& (payload@.len() > old(self).config.max_payload_bytes ==> result == Err::<Vec<u8>, PacketSecurityError<A::Error, C::Error>>(
                PacketSecurityError::Encode(
                    PacketSecurityEncodeError::PayloadTooLarge {
                        budget: old(self).config.max_payload_bytes,
                        actual: payload@.len() as usize,
                    },
                ),
            ) && final(self).same_but_nonces(*old(self)))
                        &&& (payload@.len() <= old(self).config.max_payload_bytes ==> match result {
                Ok(out) => {
                    let parts = decoded_envelope(old(self).config, out@)->Ok_0;
                    &&& decoded_envelope(old(self).config, out@) is Ok
                    &&& out@ == envelope_bytes(parts)
                    &&& parts.key_id == best.key_id
                    &&& parts.nonce == nonce_for(old(self).next_nonce@, best.key_id)
                    &&& final(self).stats == (PacketSecurityStats {
                        sealed: old(self).stats.sealed.saturating_add(1),
                        ..old(self).stats
                    })
                    &&& exists|
                        cipher: &mut C,
                        buffer: &mut Vec<u8>,
                        outcome: Result<(), C::Error>,
                    |
                        #![trigger call_ensures(C::seal, (cipher, best.key_id, nonce_for(old(self).next_nonce@, best.key_id), buffer), outcome)]
                        call_ensures(C::seal, (cipher, best.key_id, nonce_for(old(self).next_nonce@, best.key_id), buffer), outcome) && outcome is Ok
                            && *cipher == old(self).cipher && *final(cipher) == final(self).cipher && buffer@
                            == payload@ && final(buffer)@ == parts.payload
                    &&& exists|
                        signer: &mut A,
                        sealed: &[u8],
                        tag: &mut Vec<u8>,
                        outcome: Result<(), A::Error>,
                    |
                        #![trigger call_ensures(
                            A::sign,
                            (signer, best.key_id, nonce_for(old(self).next_nonce@, best.key_id), sealed, tag),
                            outcome,
                        )]
                        call_ensures(A::sign, (signer, best.key_id, nonce_for(old(self).next_nonce@, best.key_id), sealed, tag), outcome) && outcome is Ok
                            && *signer == old(self).authenticator && *final(signer) == final(self).authenticator
                            && sealed@ == parts.payload && tag@ == Seq::<u8>::empty() && final(tag)@ == parts.tag
                },
                Err(error) => {
                    &&& final(self).stats == old(self).stats
                    &&& match error {
                        PacketSecurityError::Cipher(error) => {
                            &&& final(self).authenticator == old(self).authenticator
                            &&& exists|
                                cipher: &mut C,
                                buffer: &mut Vec<u8>,
                                outcome: Result<(), C::Error>,
                            |
                                #![trigger call_ensures(C::seal, (cipher, best.key_id, nonce_for(old(self).next_nonce@, best.key_id), buffer), outcome)]
                                call_ensures(C::seal, (cipher, best.key_id, nonce_for(old(self).next_nonce@, best.key_id), buffer), outcome) && outcome == Err::<(), C::Error>(error)
                                    && *cipher == old(self).cipher && *final(cipher) == final(self).cipher && buffer@
                                    == payload@
                        },
                        PacketSecurityError::Authenticator(error) => exists|plain: Seq<u8>| {
                            &&& #[trigger] plain.len() >= 0
                            &&& exists|
                                cipher: &mut C,
                                buffer: &mut Vec<u8>,
                                outcome: Result<(), C::Error>,
                            |
                                #![trigger call_ensures(C::seal, (cipher, best.key_id, nonce_for(old(self).next_nonce@, best.key_id), buffer), outcome)]
                                call_ensures(C::seal, (cipher, best.key_id, nonce_for(old(self).next_nonce@, best.key_id), buffer), outcome) && outcome is Ok
                                    && *cipher == old(self).cipher && *final(cipher) == final(self).cipher && buffer@
                                    == payload@ && final(buffer)@ == plain
                            &&& exists|
                                signer: &mut A,
                                sealed: &[u8],
                                tag: &mut Vec<u8>,
                                outcome: Result<(), A::Error>,
                            |
                                #![trigger call_ensures(
                                    A::sign,
                                    (signer, best.key_id, nonce_for(old(self).next_nonce@, best.key_id), sealed, tag),
                                    outcome,
                                )]
                                call_ensures(A::sign, (signer, best.key_id, nonce_for(old(self).next_nonce@, best.key_id), sealed, tag), outcome) && outcome == Err::<(), A::Error>(error)
                                    && *signer == old(self).authenticator && *final(signer) == final(self).authenticator
                                    && sealed@ == plain && tag@ == Seq::<u8>::empty()
                        },
                        PacketSecurityError::Encode(error) => exists|body: Seq<u8>, mark: Seq<u8>| {
                            &&& #[trigger] envelope_encode_error(
                                old(self).config,
                                body.len(),
                                mark.len(),
                            ) == Some(error)
                            &&& exists|
                                cipher: &mut C,
                                buffer: &mut Vec<u8>,
                                outcome: Result<(), C::Error>,
                            |
                                #![trigger call_ensures(C::seal, (cipher, best.key_id, nonce_for(old(self).next_nonce@, best.key_id), buffer), outcome)]
                                call_ensures(C::seal, (cipher, best.key_id, nonce_for(old(self).next_nonce@, best.key_id), buffer), outcome) && outcome is Ok
                                    && *cipher == old(self).cipher && *final(cipher) == final(self).cipher && buffer@
                                    == payload@ && final(buffer)@ == body
                            &&& exists|
                                signer: &mut A,
                                sealed: &[u8],
                                tag: &mut Vec<u8>,
                                outcome: Result<(), A::Error>,
                            |
                                #![trigger call_ensures(
                                    A::sign,
                                    (signer, best.key_id, nonce_for(old(self).next_nonce@, best.key_id), sealed, tag),
                                    outcome,
                                )]
                                call_ensures(A::sign, (signer, best.key_id, nonce_for(old(self).next_nonce@, best.key_id), sealed, tag), outcome) && outcome is Ok
                                    && *signer == old(self).authenticator && *final(signer) == final(self).authenticator
                                    && sealed@ == body && tag@ == Seq::<u8>::empty() && final(tag)@ == mark
                        },
                        _ => false,
                    }
                },
            })
                        },
                    }
                },
    {
        match key_ring.select_send_key(now) {
            Ok(descriptor) => self.seal(descriptor.key_id, payload),
            Err(error) => Err(PacketSecurityError::Key(error)),
        }
    }

    /// Selects a key and appends one sealed payload using reusable storage.
    pub fn seal_with_key_ring_into(
        &mut self,
        key_ring: &PacketKeyRing,
        payload: &[u8],
        now: Tick,
        out: &mut Vec<u8>,
        scratch: &mut PacketSecurityScratch,
    ) -> (result: Result<(u32, u64), PacketSecurityError<A::Error, C::Error>>)
        requires
            old(self).wf(),
            key_ring.wf(),
        ensures
            exists|selected: Result<PacketKeyDescriptor, PacketKeyRingError>|
                {
                    &&& #[trigger] selects(key_ring@, now, selected)
                    &&& match selected {
                        Err(error) => {
                            &&& result == Err::<(u32, u64), PacketSecurityError<A::Error, C::Error>>(
                                PacketSecurityError::Key(error),
                            )
                            &&& *final(self) == *old(self)
                            &&& final(out)@ == old(out)@
                        },
                        Ok(best) => {
                        &&& (final(self).wf())
                        &&& (final(self).config == old(self).config)
                        &&& (final(self).replay == old(self).replay)
                        &&& (final(self).next_nonce@ == old(self).next_nonce@.insert(
                best.key_id as u128,
                nonce_for(old(self).next_nonce@, best.key_id).saturating_add(1),
            ))
                        &&& (payload@.len() > old(self).config.max_payload_bytes ==> result == Err::<(u32, u64), PacketSecurityError<A::Error, C::Error>>(
                PacketSecurityError::Encode(
                    PacketSecurityEncodeError::PayloadTooLarge {
                        budget: old(self).config.max_payload_bytes,
                        actual: payload@.len() as usize,
                    },
                ),
            ) && final(self).same_but_nonces(*old(self)) && *final(scratch) == *old(scratch) && final(out)@ == old(out)@)
                        &&& (payload@.len() <= old(self).config.max_payload_bytes ==> match result {
                Ok(pair) => {
                    &&& pair == (best.key_id, nonce_for(old(self).next_nonce@, best.key_id))
                    &&& final(self).stats == (PacketSecurityStats {
                        sealed: old(self).stats.sealed.saturating_add(1),
                        ..old(self).stats
                    })
                    &&& envelope_encode_error(
                        old(self).config,
                        final(scratch).sealed_payload@.len(),
                        final(scratch).tag@.len(),
                    ) is None
                    &&& final(out)@ == old(out)@ + envelope_bytes(
                        EnvelopeParts {
                            key_id: best.key_id,
                            nonce: nonce_for(old(self).next_nonce@, best.key_id),
                            payload: final(scratch).sealed_payload@,
                            tag: final(scratch).tag@,
                        },
                    )
                    &&& exists|
                        cipher: &mut C,
                        buffer: &mut Vec<u8>,
                        outcome: Result<(), C::Error>,
                    |
                        #![trigger call_ensures(C::seal, (cipher, best.key_id, nonce_for(old(self).next_nonce@, best.key_id), buffer), outcome)]
                        call_ensures(C::seal, (cipher, best.key_id, nonce_for(old(self).next_nonce@, best.key_id), buffer), outcome) && outcome is Ok
                            && *cipher == old(self).cipher && *final(cipher) == final(self).cipher && buffer@
                            == payload@ && *final(buffer) == final(scratch).sealed_payload
                    &&& exists|
                        signer: &mut A,
                        sealed: &[u8],
                        tag: &mut Vec<u8>,
                        outcome: Result<(), A::Error>,
                    |
                        #![trigger call_ensures(
                            A::sign,
                            (signer, best.key_id, nonce_for(old(self).next_nonce@, best.key_id), sealed, tag),
                            outcome,
                        )]
                        call_ensures(A::sign, (signer, best.key_id, nonce_for(old(self).next_nonce@, best.key_id), sealed, tag), outcome) && outcome is Ok
                            && *signer == old(self).authenticator && *final(signer) == final(self).authenticator
                            && sealed@ == final(scratch).sealed_payload@ && tag@ == Seq::<u8>::empty() && *final(tag) == final(scratch).tag
                },
                Err(error) => {
                    &&& final(self).stats == old(self).stats
                    &&& final(out)@ == old(out)@
                    &&& match error {
                        PacketSecurityError::Cipher(error) => {
                            &&& final(self).authenticator == old(self).authenticator
                            &&& exists|
                                cipher: &mut C,
                                buffer: &mut Vec<u8>,
                                outcome: Result<(), C::Error>,
                            |
                                #![trigger call_ensures(C::seal, (cipher, best.key_id, nonce_for(old(self).next_nonce@, best.key_id), buffer), outcome)]
                                call_ensures(C::seal, (cipher, best.key_id, nonce_for(old(self).next_nonce@, best.key_id), buffer), outcome) && outcome == Err::<(), C::Error>(error)
                                    && *cipher == old(self).cipher && *final(cipher) == final(self).cipher && buffer@
                                    == payload@
                        },
                        PacketSecurityError::Authenticator(error) => {
                            &&& exists|
                                cipher: &mut C,
                                buffer: &mut Vec<u8>,
                                outcome: Result<(), C::Error>,
                            |
                                #![trigger call_ensures(C::seal, (cipher, best.key_id, nonce_for(old(self).next_nonce@, best.key_id), buffer), outcome)]
                                call_ensures(C::seal, (cipher, best.key_id, nonce_for(old(self).next_nonce@, best.key_id), buffer), outcome) && outcome is Ok
                                    && *cipher == old(self).cipher && *final(cipher) == final(self).cipher && buffer@
                                    == payload@ && *final(buffer) == final(scratch).sealed_payload
                            &&& exists|
                                signer: &mut A,
                                sealed: &[u8],
                                tag: &mut Vec<u8>,
                                outcome: Result<(), A::Error>,
                            |
                                #![trigger call_ensures(
                                    A::sign,
                                    (signer, best.key_id, nonce_for(old(self).next_nonce@, best.key_id), sealed, tag),
                                    outcome,
                                )]
                                call_ensures(A::sign, (signer, best.key_id, nonce_for(old(self).next_nonce@, best.key_id), sealed, tag), outcome) && outcome == Err::<(), A::Error>(error)
                                    && *signer == old(self).authenticator && *final(signer) == final(self).authenticator
                                    && sealed@ == final(scratch).sealed_payload@ && tag@ == Seq::<u8>::empty()
                        },
                        PacketSecurityError::Encode(error) => {
                            &&& envelope_encode_error(
                                old(self).config,
                                final(scratch).sealed_payload@.len(),
                                final(scratch).tag@.len(),
                            ) == Some(error)
                            &&& exists|
                                cipher: &mut C,
                                buffer: &mut Vec<u8>,
                                outcome: Result<(), C::Error>,
                            |
                                #![trigger call_ensures(C::seal, (cipher, best.key_id, nonce_for(old(self).next_nonce@, best.key_id), buffer), outcome)]
                                call_ensures(C::seal, (cipher, best.key_id, nonce_for(old(self).next_nonce@, best.key_id), buffer), outcome) && outcome is Ok
                                    && *cipher == old(self).cipher && *final(cipher) == final(self).cipher && buffer@
                                    == payload@ && *final(buffer) == final(scratch).sealed_payload
                            &&& exists|
                                signer: &mut A,
                                sealed: &[u8],
                                tag: &mut Vec<u8>,
                                outcome: Result<(), A::Error>,
                            |
                                #![trigger call_ensures(
                                    A::sign,
                                    (signer, best.key_id, nonce_for(old(self).next_nonce@, best.key_id), sealed, tag),
                                    outcome,
                                )]
                                call_ensures(A::sign, (signer, best.key_id, nonce_for(old(self).next_nonce@, best.key_id), sealed, tag), outcome) && outcome is Ok
                                    && *signer == old(self).authenticator && *final(signer) == final(self).authenticator
                                    && sealed@ == final(scratch).sealed_payload@ && tag@ == Seq::<u8>::empty() && *final(tag) == final(scratch).tag
                        },
                        _ => false,
                    }
                },
            })
                        },
                    }
                },
    {
        match key_ring.select_send_key(now) {
            Ok(descriptor) => {
                let nonce: u64 = self.seal_into(descriptor.key_id, payload, out, scratch)?;
                Ok((descriptor.key_id, nonce))
            },
            Err(error) => Err(PacketSecurityError::Key(error)),
        }
    }
}

/// An authentic packet that was admitted is refused as a replay from then on, as long as the window
/// retains it.
pub proof fn law_admitted_packets_are_not_admitted_again<E, F>(
    max_seen: nat,
    order: Seq<(u64, u64)>,
    key_id: u32,
    nonce: u64,
)
    requires
        max_seen > 0,
    ensures
        admitted::<E, F>(
            Ok(true),
            max_seen,
            history_after::<E>(Ok(true), max_seen, order, key_id, nonce),
            key_id,
            nonce,
        ) == Err::<(), PacketSecurityError<E, F>>(PacketSecurityError::Replay { key_id, nonce }),
{
    let pair = (key_id as u64, nonce);
    if !order.contains(pair) {
        let after = retained(max_seen, order, pair);
        assert(after.last() == pair);
        assert(after.contains(pair));
    }
}

/// A packet that fails authentication leaves the replay history as it was, so that a forged packet
/// cannot use up the nonce of a genuine one.
pub proof fn law_forged_packets_leave_the_history<E, F>(
    max_seen: nat,
    order: Seq<(u64, u64)>,
    key_id: u32,
    nonce: u64,
)
    ensures
        history_after::<E>(Ok(false), max_seen, order, key_id, nonce) == order,
        admitted::<E, F>(Ok(false), max_seen, order, key_id, nonce) == Err::<
            (),
            PacketSecurityError<E, F>,
        >(PacketSecurityError::AuthenticationFailed { key_id, nonce }),
{
}

/// A sealed envelope comes back from the wire as it was sealed, and is admitted where its tag is
/// verified and its nonce is new.
pub proof fn law_sealed_envelopes_are_admitted<E, F>(
    config: PacketSecurityConfig,
    parts: EnvelopeParts,
    order: Seq<(u64, u64)>,
)
    requires
        envelope_encode_error(config, parts.payload.len(), parts.tag.len()) is None,
        !order.contains((parts.key_id as u64, parts.nonce)),
    ensures
        decoded_envelope(config, envelope_bytes(parts)) == Ok::<
            EnvelopeParts,
            PacketSecurityDecodeError,
        >(parts),
        admitted::<E, F>(
            Ok(true),
            config.max_replay_history as nat,
            order,
            parts.key_id,
            parts.nonce,
        ) == Ok::<(), PacketSecurityError<E, F>>(()),
{
    law_envelope_decode_inverts_encode(config, parts);
}

/// The nonce table once packets were sealed under the given keys, in this order.
pub open spec fn nonces_after(next: Map<u128, u64>, keys: Seq<u32>) -> Map<u128, u64>
    decreases keys.len(),
{
    if keys.len() == 0 {
        next
    } else {
        let before = nonces_after(next, keys.drop_last());
        before.insert(keys.last() as u128, nonce_for(before, keys.last()).saturating_add(1))
    }
}

/// How often a key occurs.
pub open spec fn uses_of(keys: Seq<u32>, key_id: u32) -> nat
    decreases keys.len(),
{
    if keys.len() == 0 {
        0
    } else if keys.last() == key_id {
        uses_of(keys.drop_last(), key_id) + 1
    } else {
        uses_of(keys.drop_last(), key_id)
    }
}

/// The first packet that a new box seals under a key gets nonce one, the second nonce two, and so on,
/// whatever is sealed under other keys in between. The last nonce is used again once it is reached.
pub proof fn law_nonces_count_the_seals_of_a_key(keys: Seq<u32>, key_id: u32)
    ensures
        nonce_for(nonces_after(Map::empty(), keys), key_id) == clamp_u64(
            uses_of(keys, key_id) + 1,
        ),
    decreases keys.len(),
{
    if keys.len() > 0 {
        law_nonces_count_the_seals_of_a_key(keys.drop_last(), key_id);
        law_nonces_count_the_seals_of_a_key(keys.drop_last(), keys.last());
    }
}

/// Until the counter reaches its last value, every nonce that a key gets is larger than the one
/// before.
pub proof fn law_nonces_increase(next: Map<u128, u64>, key_id: u32)
    ensures
        ({
            let nonce = nonce_for(next, key_id);
            let after = next.insert(key_id as u128, nonce.saturating_add(1));
            nonce < u64::MAX ==> nonce_for(after, key_id) > nonce
        }),
{
}

/// A packet that was admitted but could not be deciphered has used up its nonce: the next attempt to
/// open it is refused as a replay, unless the authenticator changes its mind about it.
pub proof fn law_undeciphered_packets_are_not_admitted_again<
    A: PacketAuthenticator,
    C: PacketCipher,
>()
    ensures
        forall|
            first: &mut PacketSecurityBox<A, C>,
            second: &mut PacketSecurityBox<A, C>,
            input: &[u8],
            failed: Result<Vec<u8>, PacketSecurityError<A::Error, C::Error>>,
            again: Result<Vec<u8>, PacketSecurityError<A::Error, C::Error>>,
        |
            {
                &&& #[trigger] call_ensures(
                    PacketSecurityBox::<A, C>::open,
                    (first, input),
                    failed,
                )
                &&& #[trigger] call_ensures(
                    PacketSecurityBox::<A, C>::open,
                    (second, input),
                    again,
                )
                &&& *second == *final(first)
                &&& first.replay.max_seen() > 0
                &&& failed matches Err(PacketSecurityError::Cipher(_))
            } ==> {
                let parts = decoded_envelope(first.config, input@)->Ok_0;
                match again {
                    Err(PacketSecurityError::Replay { key_id, nonce }) => key_id == parts.key_id
                        && nonce == parts.nonce,
                    Err(PacketSecurityError::AuthenticationFailed { .. }) => true,
                    Err(PacketSecurityError::Authenticator(_)) => true,
                    _ => false,
                }
            },
{
    assert forall|
        first: &mut PacketSecurityBox<A, C>,
        second: &mut PacketSecurityBox<A, C>,
        input: &[u8],
        failed: Result<Vec<u8>, PacketSecurityError<A::Error, C::Error>>,
        again: Result<Vec<u8>, PacketSecurityError<A::Error, C::Error>>,
    |
        {
            &&& #[trigger] call_ensures(PacketSecurityBox::<A, C>::open, (first, input), failed)
            &&& #[trigger] call_ensures(PacketSecurityBox::<A, C>::open, (second, input), again)
            &&& *second == *final(first)
            &&& first.replay.max_seen() > 0
            &&& failed matches Err(PacketSecurityError::Cipher(_))
        } implies {
        let parts = decoded_envelope(first.config, input@)->Ok_0;
        match again {
            Err(PacketSecurityError::Replay { key_id, nonce }) => key_id == parts.key_id && nonce
                == parts.nonce,
            Err(PacketSecurityError::AuthenticationFailed { .. }) => true,
            Err(PacketSecurityError::Authenticator(_)) => true,
            _ => false,
        }
    } by {
        let parts = decoded_envelope(first.config, input@)->Ok_0;
        law_admitted_packets_are_not_admitted_again::<A::Error, C::Error>(
            first.replay.max_seen(),
            first.replay@,
            parts.key_id,
            parts.nonce,
        );
    }
}

/// Where the hooks answer alike in like states, opening into reusable storage comes to the same as
/// opening into a new buffer: the same payload or the same error, and the same box afterwards.
pub proof fn law_opening_into_storage_agrees<A: PacketAuthenticator, C: PacketCipher>()
    requires
        forall|
            left: &mut A,
            right: &mut A,
            key_id: u32,
            nonce: u64,
            payload: &[u8],
            other_payload: &[u8],
            tag: &[u8],
            other_tag: &[u8],
            outcome: Result<bool, A::Error>,
            other: Result<bool, A::Error>,
        |
            {
                &&& #[trigger] call_ensures(
                    A::verify,
                    (left, key_id, nonce, payload, tag),
                    outcome,
                )
                &&& #[trigger] call_ensures(
                    A::verify,
                    (right, key_id, nonce, other_payload, other_tag),
                    other,
                )
                &&& *left == *right
                &&& payload@ == other_payload@
                &&& tag@ == other_tag@
            } ==> outcome == other && *final(left) == *final(right),
        forall|
            left: &mut C,
            right: &mut C,
            key_id: u32,
            nonce: u64,
            buffer: &mut Vec<u8>,
            other_buffer: &mut Vec<u8>,
            outcome: Result<(), C::Error>,
            other: Result<(), C::Error>,
        |
            {
                &&& #[trigger] call_ensures(C::open, (left, key_id, nonce, buffer), outcome)
                &&& #[trigger] call_ensures(C::open, (right, key_id, nonce, other_buffer), other)
                &&& *left == *right
                &&& buffer@ == other_buffer@
            } ==> {
                &&& outcome == other
                &&& *final(left) == *final(right)
                &&& final(buffer)@ == final(other_buffer)@
            },
    ensures
        forall|
            plain: &mut PacketSecurityBox<A, C>,
            reusing: &mut PacketSecurityBox<A, C>,
            input: &[u8],
            scratch: &mut PacketSecurityOpenScratch,
            owned: Result<Vec<u8>, PacketSecurityError<A::Error, C::Error>>,
            borrowed: Result<PacketSecurityOpenView<'_>, PacketSecurityError<A::Error, C::Error>>,
        |
            {
                &&& #[trigger] call_ensures(
                    PacketSecurityBox::<A, C>::open,
                    (plain, input),
                    owned,
                )
                &&& #[trigger] call_ensures(
                    PacketSecurityBox::<A, C>::open_with_scratch,
                    (reusing, input, scratch),
                    borrowed,
                )
                &&& *plain == *reusing
            } ==> {
                &&& match owned {
                    Ok(payload) => borrowed matches Ok(view) && view.payload@ == payload@,
                    Err(error) => borrowed == Err::<PacketSecurityOpenView<'_>, PacketSecurityError<A::Error, C::Error>>(error),
                }
                &&& final(plain).authenticator == final(reusing).authenticator
                &&& final(plain).cipher == final(reusing).cipher
                &&& final(plain).replay@ == final(reusing).replay@
                &&& final(plain).stats == final(reusing).stats
            },
{
}

/// Where the hooks answer alike in like states, sealing into reusable storage comes to the same as
/// sealing into a new buffer: the same bytes behind those that are there already or the same error,
/// and the same box afterwards.
pub proof fn law_sealing_into_storage_agrees<A: PacketAuthenticator, C: PacketCipher>()
    requires
        forall|
            left: &mut A,
            right: &mut A,
            key_id: u32,
            nonce: u64,
            sealed: &[u8],
            other_sealed: &[u8],
            tag: &mut Vec<u8>,
            other_tag: &mut Vec<u8>,
            outcome: Result<(), A::Error>,
            other: Result<(), A::Error>,
        |
            {
                &&& #[trigger] call_ensures(
                    A::sign,
                    (left, key_id, nonce, sealed, tag),
                    outcome,
                )
                &&& #[trigger] call_ensures(
                    A::sign,
                    (right, key_id, nonce, other_sealed, other_tag),
                    other,
                )
                &&& *left == *right
                &&& sealed@ == other_sealed@
                &&& tag@ == other_tag@
            } ==> {
                &&& outcome == other
                &&& *final(left) == *final(right)
                &&& final(tag)@ == final(other_tag)@
            },
        forall|
            left: &mut C,
            right: &mut C,
            key_id: u32,
            nonce: u64,
            buffer: &mut Vec<u8>,
            other_buffer: &mut Vec<u8>,
            outcome: Result<(), C::Error>,
            other: Result<(), C::Error>,
        |
            {
                &&& #[trigger] call_ensures(C::seal, (left, key_id, nonce, buffer), outcome)
                &&& #[trigger] call_ensures(C::seal, (right, key_id, nonce, other_buffer), other)
                &&& *left == *right
                &&& buffer@ == other_buffer@
            } ==> {
                &&& outcome == other
                &&& *final(left) == *final(right)
                &&& final(buffer)@ == final(other_buffer)@
            },
    ensures
        forall|
            plain: &mut PacketSecurityBox<A, C>,
            reusing: &mut PacketSecurityBox<A, C>,
            key_id: u32,
            nonce: u64,
            payload: &[u8],
            out: &mut Vec<u8>,
            scratch: &mut PacketSecurityScratch,
            owned: Result<Vec<u8>, PacketSecurityError<A::Error, C::Error>>,
            appended: Result<(), PacketSecurityError<A::Error, C::Error>>,
        |
            {
                &&& #[trigger] call_ensures(
                    PacketSecurityBox::<A, C>::seal_with_nonce,
                    (plain, key_id, nonce, payload),
                    owned,
                )
                &&& #[trigger] call_ensures(
                    PacketSecurityBox::<A, C>::seal_with_nonce_into,
                    (reusing, key_id, nonce, payload, out, scratch),
                    appended,
                )
                &&& *plain == *reusing
            } ==> {
                &&& match owned {
                    Ok(bytes) => appended is Ok && final(out)@ == out@ + bytes@,
                    Err(error) => appended == Err::<(), PacketSecurityError<A::Error, C::Error>>(error) && final(out)@ == out@,
                }
                &&& final(plain).authenticator == final(reusing).authenticator
                &&& final(plain).cipher == final(reusing).cipher
                &&& final(plain).stats == final(reusing).stats
            },
{
}

/// Where the authenticator confirms what it signed and the cipher opens what it sealed, a box of the
/// same configuration that has not seen the nonce opens a sealed packet to the payload that was
/// sealed.
pub proof fn law_opening_undoes_sealing<A: PacketAuthenticator, C: PacketCipher>()
    requires
        forall|
            signer: &mut A,
            verifier: &mut A,
            key_id: u32,
            nonce: u64,
            sealed: &[u8],
            received: &[u8],
            tag: &mut Vec<u8>,
            received_tag: &[u8],
            signed: Result<(), A::Error>,
            verdict: Result<bool, A::Error>,
        |
            {
                &&& #[trigger] call_ensures(A::sign, (signer, key_id, nonce, sealed, tag), signed)
                &&& #[trigger] call_ensures(
                    A::verify,
                    (verifier, key_id, nonce, received, received_tag),
                    verdict,
                )
                &&& signed is Ok
                &&& tag@.len() == 0
                &&& sealed@ == received@
                &&& final(tag)@ == received_tag@
            } ==> verdict == Ok::<bool, A::Error>(true),
        forall|
            sealer: &mut C,
            opener: &mut C,
            key_id: u32,
            nonce: u64,
            plain: &mut Vec<u8>,
            received: &mut Vec<u8>,
            sealed: Result<(), C::Error>,
            opened: Result<(), C::Error>,
        |
            {
                &&& #[trigger] call_ensures(C::seal, (sealer, key_id, nonce, plain), sealed)
                &&& #[trigger] call_ensures(C::open, (opener, key_id, nonce, received), opened)
                &&& sealed is Ok
                &&& final(plain)@ == received@
            } ==> opened is Ok && final(received)@ == plain@,
    ensures
        forall|
            sender: &mut PacketSecurityBox<A, C>,
            receiver: &mut PacketSecurityBox<A, C>,
            key_id: u32,
            payload: &[u8],
            input: &[u8],
            sealed: Result<Vec<u8>, PacketSecurityError<A::Error, C::Error>>,
            opened: Result<Vec<u8>, PacketSecurityError<A::Error, C::Error>>,
        |
            {
                &&& #[trigger] call_ensures(
                    PacketSecurityBox::<A, C>::seal,
                    (sender, key_id, payload),
                    sealed,
                )
                &&& #[trigger] call_ensures(
                    PacketSecurityBox::<A, C>::open,
                    (receiver, input),
                    opened,
                )
                &&& sealed matches Ok(bytes) && bytes@ == input@
                &&& sender.config == receiver.config
                &&& !receiver.replay@.contains(
                    (key_id as u64, nonce_for(sender.next_nonce@, key_id)),
                )
            } ==> (opened matches Ok(returned) && returned@ == payload@),
{
}

} // verus!
