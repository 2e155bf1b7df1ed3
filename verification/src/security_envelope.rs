//! Packet security envelopes: key id, nonce, payload and authentication tag as bytes.

use vstd::prelude::*;

use crate::bytes::{
    le_bytes, lemma_le_bytes_len, lemma_le_limits, push_all, push_u16, push_u32, push_u64,
};
use crate::wire_codec::Cursor;
use crate::wire_spec::{number_at, slice_at, BinaryDecodeError};

verus! {

/// Packet security envelope header bytes before payload and tag.
pub const PACKET_SECURITY_HEADER_BYTES: usize = 22;

/// Default packet security payload budget aligned to the default packet budget after envelope
/// overhead.
pub const DEFAULT_PACKET_SECURITY_MAX_PAYLOAD_BYTES: usize = 16 * 1024 - 22;

/// Default maximum authentication tag bytes.
pub const DEFAULT_PACKET_SECURITY_MAX_TAG_BYTES: usize = 128;

/// Default replay history retained per security box.
pub const DEFAULT_PACKET_SECURITY_REPLAY_HISTORY: usize = 4096;

/// The bytes that open every envelope: `SSEC`.
pub open spec fn security_magic() -> Seq<u8> {
    seq![0x53u8, 0x53u8, 0x45u8, 0x43u8]
}

/// Packet security framing configuration.
#[derive(Clone, Copy, Debug, PartialEq, Eq, Structural)]
pub struct PacketSecurityConfig {
    /// Maximum encrypted/authenticated payload bytes.
    pub max_payload_bytes: usize,
    /// Maximum authentication tag bytes.
    pub max_tag_bytes: usize,
    /// Maximum accepted `(key_id, nonce)` pairs retained for replay checks.
    pub max_replay_history: usize,
}

impl Default for PacketSecurityConfig {
    fn default() -> (config: Self)
        ensures
            config == (PacketSecurityConfig {
                max_payload_bytes: 16362,
                max_tag_bytes: 128,
                max_replay_history: 4096,
            }),
    {
        Self {
            max_payload_bytes: DEFAULT_PACKET_SECURITY_MAX_PAYLOAD_BYTES,
            max_tag_bytes: DEFAULT_PACKET_SECURITY_MAX_TAG_BYTES,
            max_replay_history: DEFAULT_PACKET_SECURITY_REPLAY_HISTORY,
        }
    }
}

/// Packet security encode error.
#[derive(Clone, Copy, Debug, PartialEq, Eq, Structural)]
pub enum PacketSecurityEncodeError {
    /// Payload exceeded configured budget.
    PayloadTooLarge {
        /// Configured byte budget.
        budget: usize,
        /// Actual byte count.
        actual: usize,
    },
    /// Authentication tag exceeded configured budget.
    TagTooLarge {
        /// Configured byte budget.
        budget: usize,
        /// Actual byte count.
        actual: usize,
    },
}

/// Packet security decode error.
#[derive(Clone, Copy, Debug, PartialEq, Eq, Structural)]
pub enum PacketSecurityDecodeError {
    /// Frame magic did not match.
    BadMagic,
    /// Frame ended before all fields were available.
    Truncated {
        /// Required bytes.
        needed: usize,
        /// Available bytes.
        available: usize,
    },
    /// Payload exceeded configured budget.
    PayloadTooLarge {
        /// Configured byte budget.
        budget: usize,
        /// Actual byte count.
        actual: usize,
    },
    /// Authentication tag exceeded configured budget.
    TagTooLarge {
        /// Configured byte budget.
        budget: usize,
        /// Actual byte count.
        actual: usize,
    },
    /// Frame had trailing bytes after a complete envelope.
    TrailingBytes(usize),
}

/// Model of an envelope.
#[verifier::ext_equal]
pub struct EnvelopeParts {
    pub key_id: u32,
    pub nonce: u64,
    pub payload: Seq<u8>,
    pub tag: Seq<u8>,
}

/// Bytes of an envelope.
pub open spec fn envelope_bytes(parts: EnvelopeParts) -> Seq<u8> {
    security_magic() + (le_bytes(parts.key_id as nat, 4) + (le_bytes(parts.nonce as nat, 8) + (
    le_bytes(parts.payload.len(), 4) + (le_bytes(parts.tag.len(), 2) + (parts.payload
        + parts.tag)))))
}

/// Why an envelope with these parts cannot be encoded, if it cannot.
pub open spec fn envelope_encode_error(
    config: PacketSecurityConfig,
    payload_len: nat,
    tag_len: nat,
) -> Option<PacketSecurityEncodeError> {
    if payload_len > config.max_payload_bytes {
        Some(
            PacketSecurityEncodeError::PayloadTooLarge {
                budget: config.max_payload_bytes,
                actual: payload_len as usize,
            },
        )
    } else if tag_len > config.max_tag_bytes {
        Some(
            PacketSecurityEncodeError::TagTooLarge {
                budget: config.max_tag_bytes,
                actual: tag_len as usize,
            },
        )
    } else if payload_len > u32::MAX {
        Some(
            PacketSecurityEncodeError::PayloadTooLarge {
                budget: config.max_payload_bytes,
                actual: payload_len as usize,
            },
        )
    } else if tag_len > u16::MAX {
        Some(
            PacketSecurityEncodeError::TagTooLarge {
                budget: config.max_tag_bytes,
                actual: tag_len as usize,
            },
        )
    } else {
        None
    }
}

/// A fault of the byte cursor as an envelope error.
pub open spec fn cursor_fault(error: BinaryDecodeError) -> PacketSecurityDecodeError {
    match error {
        BinaryDecodeError::Truncated { needed, available } => PacketSecurityDecodeError::Truncated {
            needed,
            available,
        },
        BinaryDecodeError::TrailingBytes(count) => PacketSecurityDecodeError::TrailingBytes(count),
        _ => PacketSecurityDecodeError::BadMagic,
    }
}

/// Key id, nonce, payload length and tag length of an envelope.
pub struct EnvelopeHeader {
    pub key_id: u32,
    pub nonce: u64,
    pub payload_len: u32,
    pub tag_len: u16,
}

/// Reads the fixed fields of an envelope.
pub open spec fn envelope_header(input: Seq<u8>) -> Result<
    EnvelopeHeader,
    PacketSecurityDecodeError,
> {
    match slice_at(input, 0, 4) {
        Err(error) => Err(cursor_fault(error)),
        Ok((magic, _)) => if magic != security_magic() {
            Err(PacketSecurityDecodeError::BadMagic)
        } else {
            match number_at(input, 4, 4) {
                Err(error) => Err(cursor_fault(error)),
                Ok((key_id, _)) => match number_at(input, 8, 8) {
                    Err(error) => Err(cursor_fault(error)),
                    Ok((nonce, _)) => match number_at(input, 16, 4) {
                        Err(error) => Err(cursor_fault(error)),
                        Ok((payload_len, _)) => match number_at(input, 20, 2) {
                            Err(error) => Err(cursor_fault(error)),
                            Ok((tag_len, _)) => Ok(
                                EnvelopeHeader {
                                    key_id: key_id as u32,
                                    nonce: nonce as u64,
                                    payload_len: payload_len as u32,
                                    tag_len: tag_len as u16,
                                },
                            ),
                        },
                    },
                },
            }
        },
    }
}

/// What an input denotes as an envelope under the given budgets.
pub open spec fn decoded_envelope(config: PacketSecurityConfig, input: Seq<u8>) -> Result<
    EnvelopeParts,
    PacketSecurityDecodeError,
> {
    match envelope_header(input) {
        Err(error) => Err(error),
        Ok(header) => if header.payload_len > config.max_payload_bytes {
            Err(
                PacketSecurityDecodeError::PayloadTooLarge {
                    budget: config.max_payload_bytes,
                    actual: header.payload_len as usize,
                },
            )
        } else if header.tag_len > config.max_tag_bytes {
            Err(
                PacketSecurityDecodeError::TagTooLarge {
                    budget: config.max_tag_bytes,
                    actual: header.tag_len as usize,
                },
            )
        } else {
            match slice_at(input, 22, header.payload_len as int) {
                Err(error) => Err(cursor_fault(error)),
                Ok((payload, at)) => match slice_at(input, at, header.tag_len as int) {
                    Err(error) => Err(cursor_fault(error)),
                    Ok((tag, at)) => if at != input.len() {
                        Err(PacketSecurityDecodeError::TrailingBytes((input.len() - at) as usize))
                    } else {
                        Ok(
                            EnvelopeParts {
                                key_id: header.key_id,
                                nonce: header.nonce,
                                payload,
                                tag,
                            },
                        )
                    },
                },
            }
        },
    }
}

fn fault(error: BinaryDecodeError) -> (mapped: PacketSecurityDecodeError)
    ensures
        mapped == cursor_fault(error),
{
    match error {
        BinaryDecodeError::Truncated { needed, available } => PacketSecurityDecodeError::Truncated {
            needed,
            available,
        },
        BinaryDecodeError::TrailingBytes(count) => PacketSecurityDecodeError::TrailingBytes(count),
        _ => PacketSecurityDecodeError::BadMagic,
    }
}

fn decode_header(cursor: &mut Cursor<'_>) -> (result: Result<
    EnvelopeHeader,
    PacketSecurityDecodeError,
>)
    requires
        old(cursor).wf(),
        old(cursor).offset == 0,
    ensures
        final(cursor).wf(),
        final(cursor).input == old(cursor).input,
        result == envelope_header(old(cursor).input@),
        result is Ok ==> final(cursor).offset == 22,
{
    let magic = match cursor.read_slice(4) {
        Ok(magic) => magic,
        Err(error) => {
            return Err(fault(error));
        },
    };
    if magic[0] != 0x53 || magic[1] != 0x53 || magic[2] != 0x45 || magic[3] != 0x43 {
        return Err(PacketSecurityDecodeError::BadMagic);
    }
    assert(magic@ =~= security_magic());
    let key_id: u32 = match cursor.read_u32() {
        Ok(value) => value,
        Err(error) => {
            return Err(fault(error));
        },
    };
    let nonce: u64 = match cursor.read_u64() {
        Ok(value) => value,
        Err(error) => {
            return Err(fault(error));
        },
    };
    let payload_len: u32 = match cursor.read_u32() {
        Ok(value) => value,
        Err(error) => {
            return Err(fault(error));
        },
    };
    let tag_len: u16 = match cursor.read_u16() {
        Ok(value) => value,
        Err(error) => {
            return Err(fault(error));
        },
    };
    Ok(EnvelopeHeader { key_id, nonce, payload_len, tag_len })
}

/// Borrowed packet security envelope decoded directly from wire bytes.
#[derive(Clone, Copy, Debug, PartialEq, Eq)]
pub struct PacketSecurityEnvelopeRef<'a> {
    /// External key identifier chosen by the embedder.
    pub key_id: u32,
    /// Nonce scoped to `key_id`.
    pub nonce: u64,
    /// Borrowed ciphertext or plaintext payload.
    pub payload: &'a [u8],
    /// Borrowed authentication tag.
    pub tag: &'a [u8],
}

impl<'a> View for PacketSecurityEnvelopeRef<'a> {
    type V = EnvelopeParts;

    open spec fn view(&self) -> EnvelopeParts {
        EnvelopeParts {
            key_id: self.key_id,
            nonce: self.nonce,
            payload: self.payload@,
            tag: self.tag@,
        }
    }
}

/// Relates the outcome of envelope decoding to what the input denotes.
pub open spec fn decodes_envelope<T: View<V = EnvelopeParts>>(
    config: PacketSecurityConfig,
    input: Seq<u8>,
    result: Result<T, PacketSecurityDecodeError>,
) -> bool {
    match result {
        Ok(envelope) => decoded_envelope(config, input) == Ok::<
            EnvelopeParts,
            PacketSecurityDecodeError,
        >(envelope@),
        Err(error) => decoded_envelope(config, input) == Err::<
            EnvelopeParts,
            PacketSecurityDecodeError,
        >(error),
    }
}

impl<'a> PacketSecurityEnvelopeRef<'a> {
    /// Decodes and validates an envelope without copying payload or tag bytes.
    pub fn decode(config: PacketSecurityConfig, input: &'a [u8]) -> (result: Result<
        Self,
        PacketSecurityDecodeError,
    >)
        ensures
            decodes_envelope(config, input@, result),
    {
        let mut cursor = Cursor::new(input);
        let header = decode_header(&mut cursor)?;
        if header.payload_len as usize > config.max_payload_bytes {
            return Err(
                PacketSecurityDecodeError::PayloadTooLarge {
                    budget: config.max_payload_bytes,
                    actual: header.payload_len as usize,
                },
            );
        }
        if header.tag_len as usize > config.max_tag_bytes {
            return Err(
                PacketSecurityDecodeError::TagTooLarge {
                    budget: config.max_tag_bytes,
                    actual: header.tag_len as usize,
                },
            );
        }
        let payload = match cursor.read_slice(header.payload_len as usize) {
            Ok(payload) => payload,
            Err(error) => {
                return Err(fault(error));
            },
        };
        let tag = match cursor.read_slice(header.tag_len as usize) {
            Ok(tag) => tag,
            Err(error) => {
                return Err(fault(error));
            },
        };
        match cursor.finish() {
            Ok(()) => {},
            Err(error) => {
                return Err(fault(error));
            },
        }
        Ok(Self { key_id: header.key_id, nonce: header.nonce, payload, tag })
    }
}

/// Owned packet security envelope.
#[derive(Clone, Debug, PartialEq, Eq)]
pub struct PacketSecurityEnvelope {
    /// External key identifier chosen by the embedder.
    pub key_id: u32,
    /// Nonce scoped to `key_id`.
    pub nonce: u64,
    /// Ciphertext or plaintext payload, depending on the configured cipher.
    pub payload: Vec<u8>,
    /// Authentication tag produced by the configured authenticator.
    pub tag: Vec<u8>,
}

impl View for PacketSecurityEnvelope {
    type V = EnvelopeParts;

    open spec fn view(&self) -> EnvelopeParts {
        EnvelopeParts {
            key_id: self.key_id,
            nonce: self.nonce,
            payload: self.payload@,
            tag: self.tag@,
        }
    }
}

/// Relates what envelope encoding appended and returned to the envelope. A refused envelope leaves
/// the output untouched.
pub open spec fn appends_envelope(
    config: PacketSecurityConfig,
    parts: EnvelopeParts,
    before: Seq<u8>,
    after: Seq<u8>,
    result: Result<(), PacketSecurityEncodeError>,
) -> bool {
    match envelope_encode_error(config, parts.payload.len(), parts.tag.len()) {
        None => result is Ok && after == before + envelope_bytes(parts),
        Some(error) => result == Err::<(), PacketSecurityEncodeError>(error) && after == before,
    }
}

impl PacketSecurityEnvelope {
    /// Appends an envelope from borrowed payload and tag slices.
    pub fn encode_parts(
        config: PacketSecurityConfig,
        key_id: u32,
        nonce: u64,
        payload: &[u8],
        tag: &[u8],
        out: &mut Vec<u8>,
    ) -> (result: Result<(), PacketSecurityEncodeError>)
        ensures
            appends_envelope(
                config,
                EnvelopeParts { key_id, nonce, payload: payload@, tag: tag@ },
                old(out)@,
                final(out)@,
                result,
            ),
    {
        if payload.len() > config.max_payload_bytes || (payload.len() > u32::MAX as usize
            && tag.len() <= config.max_tag_bytes) {
            return Err(
                PacketSecurityEncodeError::PayloadTooLarge {
                    budget: config.max_payload_bytes,
                    actual: payload.len(),
                },
            );
        }
        if tag.len() > config.max_tag_bytes || tag.len() > u16::MAX as usize {
            return Err(
                PacketSecurityEncodeError::TagTooLarge {
                    budget: config.max_tag_bytes,
                    actual: tag.len(),
                },
            );
        }
        out.push(0x53);
        out.push(0x53);
        out.push(0x45);
        out.push(0x43);
        push_u32(out, key_id);
        push_u64(out, nonce);
        push_u32(out, payload.len() as u32);
        push_u16(out, tag.len() as u16);
        push_all(out, payload);
        push_all(out, tag);
        assert(out@ =~= old(out)@ + envelope_bytes(
            EnvelopeParts { key_id, nonce, payload: payload@, tag: tag@ },
        ));
        Ok(())
    }

    /// Encodes a packet security envelope.
    pub fn encode(&self, config: PacketSecurityConfig, out: &mut Vec<u8>) -> (result: Result<
        (),
        PacketSecurityEncodeError,
    >)
        ensures
            appends_envelope(config, self@, old(out)@, final(out)@, result),
    {
        Self::encode_parts(
            config,
            self.key_id,
            self.nonce,
            self.payload.as_slice(),
            self.tag.as_slice(),
            out,
        )
    }

    /// Decodes a packet security envelope.
    pub fn decode(config: PacketSecurityConfig, input: &[u8]) -> (result: Result<
        Self,
        PacketSecurityDecodeError,
    >)
        ensures
            decodes_envelope(config, input@, result),
    {
        let envelope = PacketSecurityEnvelopeRef::decode(config, input)?;
        let mut payload: Vec<u8> = Vec::new();
        push_all(&mut payload, envelope.payload);
        let mut tag: Vec<u8> = Vec::new();
        push_all(&mut tag, envelope.tag);
        assert(payload@ =~= envelope.payload@);
        assert(tag@ =~= envelope.tag@);
        Ok(Self { key_id: envelope.key_id, nonce: envelope.nonce, payload, tag })
    }
}

proof fn lemma_envelope(config: PacketSecurityConfig, parts: EnvelopeParts, extra: Seq<u8>)
    requires
        envelope_encode_error(config, parts.payload.len(), parts.tag.len()) is None,
    ensures
        extra.len() == 0 ==> decoded_envelope(config, envelope_bytes(parts) + extra) == Ok::<
            EnvelopeParts,
            PacketSecurityDecodeError,
        >(parts),
        extra.len() > 0 ==> decoded_envelope(config, envelope_bytes(parts) + extra) == Err::<
            EnvelopeParts,
            PacketSecurityDecodeError,
        >(PacketSecurityDecodeError::TrailingBytes(extra.len() as usize)),
{
    let input = envelope_bytes(parts) + extra;
    lemma_le_limits();
    lemma_le_bytes_len(parts.key_id as nat, 4);
    lemma_le_bytes_len(parts.nonce as nat, 8);
    lemma_le_bytes_len(parts.payload.len(), 4);
    lemma_le_bytes_len(parts.tag.len(), 2);
    let r4 = parts.payload + (parts.tag + extra);
    let r3 = le_bytes(parts.tag.len(), 2) + r4;
    let r2 = le_bytes(parts.payload.len(), 4) + r3;
    let r1 = le_bytes(parts.nonce as nat, 8) + r2;
    let r0 = le_bytes(parts.key_id as nat, 4) + r1;
    assert(input =~= security_magic() + r0);
    assert(input.subrange(0, 4) =~= security_magic());
    assert(input.skip(4) =~= r0);
    crate::wire_laws::lemma_number(input, 4, parts.key_id as nat, 4, r1);
    crate::wire_laws::lemma_number(input, 8, parts.nonce as nat, 8, r2);
    crate::wire_laws::lemma_number(input, 16, parts.payload.len(), 4, r3);
    crate::wire_laws::lemma_number(input, 20, parts.tag.len(), 2, r4);
    let body = 22 + parts.payload.len() as int;
    assert(input.subrange(22, body) =~= input.skip(22).take(parts.payload.len() as int));
    assert(input.subrange(22, body) =~= parts.payload);
    assert(input.subrange(body, body + parts.tag.len()) =~= input.skip(22).subrange(
        parts.payload.len() as int,
        (parts.payload.len() + parts.tag.len()) as int,
    ));
    assert(input.subrange(body, body + parts.tag.len()) =~= parts.tag);
}

/// Decoding an encoded envelope under the same budgets gives back its key id, nonce, payload and
/// tag.
pub proof fn law_envelope_decode_inverts_encode(config: PacketSecurityConfig, parts: EnvelopeParts)
    requires
        envelope_encode_error(config, parts.payload.len(), parts.tag.len()) is None,
    ensures
        decoded_envelope(config, envelope_bytes(parts)) == Ok::<
            EnvelopeParts,
            PacketSecurityDecodeError,
        >(parts),
{
    lemma_envelope(config, parts, Seq::empty());
    assert(envelope_bytes(parts) + Seq::empty() =~= envelope_bytes(parts));
}

/// Bytes behind an envelope are refused, and the error counts them.
pub proof fn law_envelope_trailing_bytes_are_refused(
    config: PacketSecurityConfig,
    parts: EnvelopeParts,
    extra: Seq<u8>,
)
    requires
        envelope_encode_error(config, parts.payload.len(), parts.tag.len()) is None,
        extra.len() > 0,
    ensures
        decoded_envelope(config, envelope_bytes(parts) + extra) == Err::<
            EnvelopeParts,
            PacketSecurityDecodeError,
        >(PacketSecurityDecodeError::TrailingBytes(extra.len() as usize)),
{
    lemma_envelope(config, parts, extra);
}

/// An envelope that decodes is the encoding of what it decodes to: no two inputs denote the same
/// envelope.
pub proof fn law_envelope_encoding_is_canonical(config: PacketSecurityConfig, input: Seq<u8>)
    requires
        decoded_envelope(config, input) is Ok,
    ensures
        envelope_bytes(decoded_envelope(config, input)->Ok_0) == input,
{
    let parts = decoded_envelope(config, input)->Ok_0;
    let key = input.subrange(4, 8);
    let nonce = input.subrange(8, 16);
    let payload_len = input.subrange(16, 20);
    let tag_len = input.subrange(20, 22);
    crate::bytes::lemma_le_bytes_of_value(key);
    crate::bytes::lemma_le_bytes_of_value(nonce);
    crate::bytes::lemma_le_bytes_of_value(payload_len);
    crate::bytes::lemma_le_bytes_of_value(tag_len);
    lemma_le_limits();
    assert(envelope_bytes(parts) =~= input);
}

} // verus!
