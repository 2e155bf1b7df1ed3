//! What packet security promises: only authentic packets are opened, each once while it is
//! remembered, and no nonce of a key is used twice.

use vstd::prelude::*;

use crate::gateway_laws::counts;
use crate::history_laws::joins_at_the_end;
use crate::ids::Tick;
use crate::key_laws::{holds_key, is_chosen_over, is_current};
use crate::key_ring::{selects, PacketKeyDescriptor, PacketKeyRing, PacketKeyRingError};
use crate::replay::PacketReplayWindow;
use crate::security_box::{
    PacketAuthenticator, PacketCipher, PacketSecurityBox, PacketSecurityError,
};
use crate::security_envelope::{decoded_envelope, EnvelopeParts};

verus! {

/// The authenticator may say this of the envelope.
pub open spec fn may_judge<A: PacketAuthenticator>(
    authenticator: A,
    parts: EnvelopeParts,
    verdict: Result<bool, A::Error>,
) -> bool {
    exists|verifier: &mut A, payload: &[u8], tag: &[u8]|
        #![trigger call_ensures(
            A::verify,
            (verifier, parts.key_id, parts.nonce, payload, tag),
            verdict,
        )]
        {
            &&& call_ensures(
                A::verify,
                (verifier, parts.key_id, parts.nonce, payload, tag),
                verdict,
            )
            &&& *verifier == authenticator
            &&& payload@ == parts.payload
            &&& tag@ == parts.tag
        }
}

/// The nonce of the envelope is remembered under its key.
pub open spec fn is_replay(window: PacketReplayWindow, parts: EnvelopeParts) -> bool {
    &&& window.max_seen() > 0
    &&& exists|i: int|
        0 <= i < window@.len() && #[trigger] window@[i] == (parts.key_id as u64, parts.nonce)
}

/// The window remembers the nonce of the envelope, and only the oldest was forgotten for it.
pub open spec fn remembers(
    before: PacketReplayWindow,
    after: PacketReplayWindow,
    parts: EnvelopeParts,
) -> bool {
    if before.max_seen() == 0 {
        after@ == before@
    } else {
        joins_at_the_end(
            before.max_seen(),
            before@,
            after@,
            (parts.key_id as u64, parts.nonce),
        )
    }
}

/// What opening an envelope comes to under this verdict of the authenticator.
pub open spec fn opens_as<A: PacketAuthenticator, C: PacketCipher>(
    before: PacketSecurityBox<A, C>,
    after: PacketSecurityBox<A, C>,
    parts: EnvelopeParts,
    verdict: Result<bool, A::Error>,
    result: Result<Vec<u8>, PacketSecurityError<A::Error, C::Error>>,
) -> bool {
    let authentic = verdict is Ok && verdict->Ok_0;
    let replayed = is_replay(before.replay, parts);
    &&& result is Ok ==> authentic && !replayed
    &&& verdict matches Err(error) ==> result == Err::<
        Vec<u8>,
        PacketSecurityError<A::Error, C::Error>,
    >(PacketSecurityError::Authenticator(error))
    &&& verdict is Ok && !authentic ==> result == Err::<
        Vec<u8>,
        PacketSecurityError<A::Error, C::Error>,
    >(
        PacketSecurityError::AuthenticationFailed { key_id: parts.key_id, nonce: parts.nonce },
    )
    &&& authentic && replayed ==> result == Err::<
        Vec<u8>,
        PacketSecurityError<A::Error, C::Error>,
    >(PacketSecurityError::Replay { key_id: parts.key_id, nonce: parts.nonce })
    &&& authentic && !replayed && result is Err ==> result->Err_0 is Cipher
    &&& authentic && !replayed ==> remembers(before.replay, after.replay, parts)
    &&& !(authentic && !replayed) ==> after.replay@ == before.replay@ && after.cipher
        == before.cipher
    &&& counts(before.stats.opened, after.stats.opened, result is Ok)
    &&& counts(before.stats.auth_failed, after.stats.auth_failed, verdict is Ok && !authentic)
    &&& counts(before.stats.replay_rejected, after.stats.replay_rejected, authentic && replayed)
    &&& after.stats.sealed == before.stats.sealed
    &&& after.stats.key_rejected == before.stats.key_rejected
}

/// A packet is opened only where it decodes, its authenticator vouches for its key, nonce, payload
/// and tag, and its nonce is not remembered under its key. A forged packet uses up no nonce, and
/// neither a forged nor a replayed one reaches the cipher.
pub proof fn law_only_authentic_packets_are_opened<A: PacketAuthenticator, C: PacketCipher>(
    input: &[u8],
)
    ensures
        forall|
            security: &mut PacketSecurityBox<A, C>,
            result: Result<Vec<u8>, PacketSecurityError<A::Error, C::Error>>,
        |
            #[trigger] call_ensures(PacketSecurityBox::<A, C>::open, (security, input), result)
                && security.wf() ==> match decoded_envelope(security.config, input@) {
                Err(error) => {
                    &&& result == Err::<Vec<u8>, PacketSecurityError<A::Error, C::Error>>(
                        PacketSecurityError::Decode(error),
                    )
                    &&& *final(security) == *security
                },
                Ok(parts) => exists|verdict: Result<bool, A::Error>| #[trigger]
                    may_judge(security.authenticator, parts, verdict) && opens_as(
                        *security,
                        *final(security),
                        parts,
                        verdict,
                        result,
                    ),
            },
{
    assert forall|
        security: &mut PacketSecurityBox<A, C>,
        result: Result<Vec<u8>, PacketSecurityError<A::Error, C::Error>>,
    |
        #[trigger] call_ensures(PacketSecurityBox::<A, C>::open, (security, input), result)
            && security.wf() && decoded_envelope(security.config, input@) is Ok implies exists|
        verdict: Result<bool, A::Error>,
    | #[trigger]
        may_judge(
            security.authenticator,
            decoded_envelope(security.config, input@)->Ok_0,
            verdict,
        ) && opens_as(
            *security,
            *final(security),
            decoded_envelope(security.config, input@)->Ok_0,
            verdict,
            result,
        ) by {
        let parts = decoded_envelope(security.config, input@)->Ok_0;
        let (verifier, payload, tag, verdict) = choose|
            verifier: &mut A,
            payload: &[u8],
            tag: &[u8],
            verdict: Result<bool, A::Error>,
        |
            #![trigger call_ensures(
                A::verify,
                (verifier, parts.key_id, parts.nonce, payload, tag),
                verdict,
            )]
            {
                &&& call_ensures(
                    A::verify,
                    (verifier, parts.key_id, parts.nonce, payload, tag),
                    verdict,
                )
                &&& *verifier == security.authenticator
                &&& payload@ == parts.payload
                &&& tag@ == parts.tag
                &&& opens_as(*security, *final(security), parts, verdict, result)
            };
        assert(may_judge(security.authenticator, parts, verdict));
    }
}

/// The key of the envelope is in the ring, was not revoked, and is current.
pub open spec fn is_readable(ring: PacketKeyRing, parts: EnvelopeParts, now: Tick) -> bool {
    exists|key: PacketKeyDescriptor| #[trigger]
        holds_key(ring, key) && key.key_id == parts.key_id && (key.state is Active
            || key.state is Retiring) && is_current(key, now)
}

/// With a key ring, a packet is opened only under a current key that was not revoked. Under any other
/// key it is refused before the authenticator sees it, and counted as such.
pub proof fn law_packets_are_opened_under_keys_in_use<A: PacketAuthenticator, C: PacketCipher>(
    ring: &PacketKeyRing,
    input: &[u8],
    now: Tick,
)
    requires
        ring.wf(),
    ensures
        forall|
            security: &mut PacketSecurityBox<A, C>,
            result: Result<Vec<u8>, PacketSecurityError<A::Error, C::Error>>,
        |
            #[trigger] call_ensures(
                PacketSecurityBox::<A, C>::open_with_key_ring,
                (security, ring, input, now),
                result,
            ) && security.wf() ==> match decoded_envelope(security.config, input@) {
                Err(error) => {
                    &&& result == Err::<Vec<u8>, PacketSecurityError<A::Error, C::Error>>(
                        PacketSecurityError::Decode(error),
                    )
                    &&& *final(security) == *security
                },
                Ok(parts) => {
                    &&& !is_readable(*ring, parts, now) ==> {
                        &&& result is Err
                        &&& result->Err_0 is Key
                        &&& final(security).replay == security.replay
                        &&& final(security).authenticator == security.authenticator
                        &&& final(security).cipher == security.cipher
                        &&& counts(
                            security.stats.key_rejected,
                            final(security).stats.key_rejected,
                            true,
                        )
                    }
                    &&& is_readable(*ring, parts, now) ==> exists|verdict: Result<bool, A::Error>|
                        #[trigger] may_judge(security.authenticator, parts, verdict) && opens_as(
                            *security,
                            *final(security),
                            parts,
                            verdict,
                            result,
                        )
                },
            },
{
    assert forall|
        security: &mut PacketSecurityBox<A, C>,
        result: Result<Vec<u8>, PacketSecurityError<A::Error, C::Error>>,
    |
        #[trigger] call_ensures(
            PacketSecurityBox::<A, C>::open_with_key_ring,
            (security, ring, input, now),
            result,
        ) && security.wf() && decoded_envelope(security.config, input@) is Ok implies {
        let parts = decoded_envelope(security.config, input@)->Ok_0;
        &&& !is_readable(*ring, parts, now) ==> {
            &&& result is Err
            &&& result->Err_0 is Key
            &&& final(security).replay == security.replay
            &&& final(security).authenticator == security.authenticator
            &&& final(security).cipher == security.cipher
            &&& counts(security.stats.key_rejected, final(security).stats.key_rejected, true)
        }
        &&& is_readable(*ring, parts, now) ==> exists|verdict: Result<bool, A::Error>| #[trigger]
            may_judge(security.authenticator, parts, verdict) && opens_as(
                *security,
                *final(security),
                parts,
                verdict,
                result,
            )
    } by {
        let parts = decoded_envelope(security.config, input@)->Ok_0;
        if ring@.contains_key(parts.key_id as u128) {
            let key = ring@[parts.key_id as u128];
            assert(holds_key(*ring, key));
        }
        if is_readable(*ring, parts, now) {
            let (verifier, payload, tag, verdict) = choose|
                verifier: &mut A,
                payload: &[u8],
                tag: &[u8],
                verdict: Result<bool, A::Error>,
            |
                #![trigger call_ensures(
                    A::verify,
                    (verifier, parts.key_id, parts.nonce, payload, tag),
                    verdict,
                )]
                {
                    &&& call_ensures(
                        A::verify,
                        (verifier, parts.key_id, parts.nonce, payload, tag),
                        verdict,
                    )
                    &&& *verifier == security.authenticator
                    &&& payload@ == parts.payload
                    &&& tag@ == parts.tag
                    &&& opens_as(*security, *final(security), parts, verdict, result)
                };
            assert(may_judge(security.authenticator, parts, verdict));
        }
    }
}

/// Two packets that one box seals under the same key, one after the other, carry different nonces: the
/// second a higher one, until the counter ends. The first under a key carries nonce one. Each decodes
/// under the box's own limits, with the key that it was sealed under.
pub proof fn law_sealed_packets_differ_in_their_nonce<A: PacketAuthenticator, C: PacketCipher>(
    key_id: u32,
    payload: &[u8],
    next_payload: &[u8],
)
    ensures
        forall|
            first: &mut PacketSecurityBox<A, C>,
            second: &mut PacketSecurityBox<A, C>,
            one: Result<Vec<u8>, PacketSecurityError<A::Error, C::Error>>,
            two: Result<Vec<u8>, PacketSecurityError<A::Error, C::Error>>,
        |
            {
                &&& #[trigger] call_ensures(
                    PacketSecurityBox::<A, C>::seal,
                    (first, key_id, payload),
                    one,
                )
                &&& #[trigger] call_ensures(
                    PacketSecurityBox::<A, C>::seal,
                    (second, key_id, next_payload),
                    two,
                )
                &&& first.wf()
                &&& *second == *final(first)
                &&& one is Ok
                &&& two is Ok
            } ==> {
                let sent = decoded_envelope(first.config, one->Ok_0@);
                let next = decoded_envelope(first.config, two->Ok_0@);
                &&& sent is Ok
                &&& next is Ok
                &&& sent->Ok_0.key_id == key_id
                &&& next->Ok_0.key_id == key_id
                &&& sent->Ok_0.nonce < u64::MAX ==> next->Ok_0.nonce == sent->Ok_0.nonce + 1
                &&& !first.next_nonce@.contains_key(key_id as u128) ==> sent->Ok_0.nonce == 1
                &&& payload@.len() <= first.config.max_payload_bytes
                &&& sent->Ok_0.payload.len() <= first.config.max_payload_bytes
            },
{
    assert forall|
        security: &mut PacketSecurityBox<A, C>,
        message: &[u8],
        sealed: Result<Vec<u8>, PacketSecurityError<A::Error, C::Error>>,
    |
        #[trigger] call_ensures(
            PacketSecurityBox::<A, C>::seal,
            (security, key_id, message),
            sealed,
        ) && security.wf() && sealed is Ok implies message@.len()
        <= security.config.max_payload_bytes by {}
    reveal(decoded_envelope);
}

/// With a key ring, a packet is sealed under the best active and current key. Where there is none,
/// nothing is sealed and no nonce is used.
pub proof fn law_packets_are_sealed_under_the_best_key<A: PacketAuthenticator, C: PacketCipher>(
    ring: &PacketKeyRing,
    payload: &[u8],
    now: Tick,
)
    requires
        ring.wf(),
    ensures
        forall|
            security: &mut PacketSecurityBox<A, C>,
            result: Result<Vec<u8>, PacketSecurityError<A::Error, C::Error>>,
        |
            #[trigger] call_ensures(
                PacketSecurityBox::<A, C>::seal_with_key_ring,
                (security, ring, payload, now),
                result,
            ) && security.wf() ==> {
                &&& result matches Ok(out) ==> {
                    let sent = decoded_envelope(security.config, out@);
                    &&& sent is Ok
                    &&& is_best_key(*ring, sent->Ok_0.key_id, now)
                    &&& counts(security.stats.sealed, final(security).stats.sealed, true)
                }
                &&& result matches Err(error) ==> final(security).stats.sealed
                    == security.stats.sealed
                &&& has_no_send_key(*ring, now) ==> {
                    &&& result is Err
                    &&& *final(security) == *security
                }
            },
{
    assert forall|
        security: &mut PacketSecurityBox<A, C>,
        result: Result<Vec<u8>, PacketSecurityError<A::Error, C::Error>>,
    |
        #[trigger] call_ensures(
            PacketSecurityBox::<A, C>::seal_with_key_ring,
            (security, ring, payload, now),
            result,
        ) && security.wf() implies {
        &&& result matches Ok(out) ==> {
            let sent = decoded_envelope(security.config, out@);
            &&& sent is Ok
            &&& is_best_key(*ring, sent->Ok_0.key_id, now)
            &&& counts(security.stats.sealed, final(security).stats.sealed, true)
        }
        &&& result matches Err(error) ==> final(security).stats.sealed == security.stats.sealed
        &&& has_no_send_key(*ring, now) ==> {
            &&& result is Err
            &&& *final(security) == *security
        }
    } by {
        let selected = choose|selected: Result<PacketKeyDescriptor, PacketKeyRingError>|
            {
                &&& #[trigger] selects(ring@, now, selected)
                &&& selected is Err ==> result is Err && *final(security) == *security
                &&& selected matches Ok(best) ==> (result matches Ok(out) ==> {
                    &&& decoded_envelope(security.config, out@) is Ok
                    &&& decoded_envelope(security.config, out@)->Ok_0.key_id == best.key_id
                    &&& counts(security.stats.sealed, final(security).stats.sealed, true)
                })
                &&& result is Err ==> final(security).stats.sealed == security.stats.sealed
            };
        if let Ok(best) = selected {
            assert(holds_key(*ring, best));
            assert forall|other: PacketKeyDescriptor| #[trigger]
                holds_key(*ring, other) && other.state is Active && is_current(
                    other,
                    now,
                ) implies is_chosen_over(best, other) by {
                assert(ring@.contains_key(other.key_id as u128)
                    && ring@[other.key_id as u128].sendable(now));
            }
            assert(is_best_key(*ring, best.key_id, now));
        }
    }
}

/// The number is that of an active, current key, and no such key would be chosen over it.
pub open spec fn is_best_key(ring: PacketKeyRing, key_id: u32, now: Tick) -> bool {
    let chosen = ring@[key_id as u128];
    &&& holds_key(ring, chosen)
    &&& chosen.key_id == key_id
    &&& chosen.state is Active
    &&& is_current(chosen, now)
    &&& forall|other: PacketKeyDescriptor| #[trigger]
        holds_key(ring, other) && other.state is Active && is_current(other, now)
            ==> is_chosen_over(chosen, other)
}

/// The ring holds no active, current key.
pub open spec fn has_no_send_key(ring: PacketKeyRing, now: Tick) -> bool {
    forall|other: PacketKeyDescriptor| #[trigger]
        holds_key(ring, other) ==> !(other.state is Active) || !is_current(other, now)
}

} // verus!
