//! Frames of the reliable packet links: sequenced data and acknowledgements.

use vstd::prelude::*;

use crate::bytes::{le_bytes, lemma_le_bytes_len, lemma_le_limits, push_all, push_u32, push_u64};
use crate::packets::copy_slice;
use crate::wire_codec::Cursor;
use crate::wire_spec::{byte_at, number_at, payload_at, slice_at, BinaryDecodeError};

verus! {

/// Reliable client data frame header bytes before payload.
pub const RELIABLE_CLIENT_DATA_HEADER_BYTES: usize = 17;

/// Reliable client ACK frame bytes.
pub const RELIABLE_CLIENT_ACK_BYTES: usize = 13;

/// Default reliable client payload budget aligned to the default packet budget after reliable
/// header overhead.
pub const DEFAULT_RELIABLE_CLIENT_MAX_PAYLOAD_BYTES: usize = 16 * 1024 - 17;

/// Default duplicate-suppression history retained per reliable client endpoint.
pub const DEFAULT_RELIABLE_CLIENT_DELIVERED_HISTORY: usize = 4096;

/// Reliable station data frame header bytes before payload.
pub const RELIABLE_STATION_DATA_HEADER_BYTES: usize = 17;

/// Reliable station ACK frame bytes.
pub const RELIABLE_STATION_ACK_BYTES: usize = 13;

/// Default reliable station payload budget aligned to the default station packet budget after
/// reliable header overhead.
pub const DEFAULT_RELIABLE_STATION_MAX_PAYLOAD_BYTES: usize = 16 * 1024 - 17;

/// Default duplicate-suppression history retained per reliable station endpoint.
pub const DEFAULT_RELIABLE_STATION_DELIVERED_HISTORY: usize = 4096;

/// The third and fourth letter that tell the links apart: client frames open with `SSCR`, station
/// frames with `SSRP`.
#[derive(Clone, Copy, Debug, PartialEq, Eq, Structural)]
pub enum LinkKind {
    /// Client link.
    Client,
    /// Station link.
    Station,
}

/// The bytes that open every frame of a link.
pub open spec fn link_magic(kind: LinkKind) -> Seq<u8> {
    match kind {
        LinkKind::Client => seq![0x53u8, 0x53u8, 0x43u8, 0x52u8],
        LinkKind::Station => seq![0x53u8, 0x53u8, 0x52u8, 0x50u8],
    }
}

/// Model of a reliable frame.
#[verifier::ext_equal]
pub enum ReliableModel {
    Data { sequence: u64, payload: Seq<u8> },
    Ack { sequence: u64 },
}

/// Reliable station frame decode error.
#[derive(Clone, Copy, Debug, PartialEq, Eq, Structural)]
pub enum ReliableStationDecodeError {
    /// Frame magic did not match.
    BadMagic,
    /// Frame kind byte is unknown.
    UnknownKind(u8),
    /// Frame ended before all fields were available.
    Truncated {
        /// Required bytes.
        needed: usize,
        /// Available bytes.
        available: usize,
    },
    /// Frame had trailing bytes after a complete payload.
    TrailingBytes(usize),
}

/// Reliable client frame decode error.
#[derive(Clone, Copy, Debug, PartialEq, Eq, Structural)]
pub enum ReliableClientDecodeError {
    /// Frame magic did not match.
    BadMagic,
    /// Frame kind byte is unknown.
    UnknownKind(u8),
    /// Frame ended before all fields were available.
    Truncated {
        /// Required bytes.
        needed: usize,
        /// Available bytes.
        available: usize,
    },
    /// Frame had trailing bytes after a complete payload.
    TrailingBytes(usize),
}

impl ReliableClientDecodeError {
    /// The client error of the same kind as a station error.
    pub open spec fn like(error: ReliableStationDecodeError) -> ReliableClientDecodeError {
        match error {
            ReliableStationDecodeError::BadMagic => ReliableClientDecodeError::BadMagic,
            ReliableStationDecodeError::UnknownKind(kind) => ReliableClientDecodeError::UnknownKind(
                kind,
            ),
            ReliableStationDecodeError::Truncated {
                needed,
                available,
            } => ReliableClientDecodeError::Truncated { needed, available },
            ReliableStationDecodeError::TrailingBytes(
                bytes,
            ) => ReliableClientDecodeError::TrailingBytes(bytes),
        }
    }

    fn from_station_decode(error: ReliableStationDecodeError) -> (mapped: Self)
        ensures
            mapped == Self::like(error),
    {
        match error {
            ReliableStationDecodeError::BadMagic => Self::BadMagic,
            ReliableStationDecodeError::UnknownKind(kind) => Self::UnknownKind(kind),
            ReliableStationDecodeError::Truncated { needed, available } => Self::Truncated {
                needed,
                available,
            },
            ReliableStationDecodeError::TrailingBytes(bytes) => Self::TrailingBytes(bytes),
        }
    }
}

/// Reliable client frame encode error.
#[derive(Clone, Copy, Debug, PartialEq, Eq, Structural)]
pub enum ReliableClientEncodeError {
    /// Payload length exceeded `u32::MAX`.
    PayloadTooLarge {
        /// Actual byte count.
        actual: usize,
    },
}

/// Reliable station frame encode error.
#[derive(Clone, Copy, Debug, PartialEq, Eq, Structural)]
pub enum ReliableStationEncodeError {
    /// Payload length exceeded `u32::MAX`.
    PayloadTooLarge {
        /// Actual byte count.
        actual: usize,
    },
}

/// Fields of a frame in front of its payload.
pub open spec fn reliable_lead(kind: LinkKind, tag: u8, sequence: u64) -> Seq<u8> {
    link_magic(kind) + (seq![tag] + le_bytes(sequence as nat, 8))
}

/// Whether a frame's payload fits its length field.
pub open spec fn reliable_fits(frame: ReliableModel) -> bool {
    match frame {
        ReliableModel::Data { payload, .. } => payload.len() <= u32::MAX,
        ReliableModel::Ack { .. } => true,
    }
}

/// What encoding a frame appends. Of a payload that is too large only the leading fields remain.
pub open spec fn reliable_bytes(kind: LinkKind, frame: ReliableModel) -> Seq<u8> {
    match frame {
        ReliableModel::Data { sequence, payload } => if payload.len() > u32::MAX {
            reliable_lead(kind, 0, sequence)
        } else {
            reliable_lead(kind, 0, sequence) + (le_bytes(payload.len(), 4) + payload)
        },
        ReliableModel::Ack { sequence } => reliable_lead(kind, 1, sequence),
    }
}

/// A fault of the byte cursor as a frame error.
pub open spec fn reliable_fault(error: BinaryDecodeError) -> ReliableStationDecodeError {
    match error {
        BinaryDecodeError::Truncated { needed, available } => ReliableStationDecodeError::Truncated {
            needed,
            available,
        },
        BinaryDecodeError::TrailingBytes(count) => ReliableStationDecodeError::TrailingBytes(count),
        _ => ReliableStationDecodeError::BadMagic,
    }
}

/// What an input denotes as a frame of a link.
pub open spec fn decoded_reliable(kind: LinkKind, input: Seq<u8>) -> Result<
    ReliableModel,
    ReliableStationDecodeError,
> {
    match slice_at(input, 0, 4) {
        Err(error) => Err(reliable_fault(error)),
        Ok((magic, _)) => if magic != link_magic(kind) {
            Err(ReliableStationDecodeError::BadMagic)
        } else {
            match byte_at(input, 4) {
                Err(error) => Err(reliable_fault(error)),
                Ok((tag, _)) => match number_at(input, 5, 8) {
                    Err(error) => Err(reliable_fault(error)),
                    Ok((sequence, _)) => if tag == 0 {
                        match payload_at(input, 13) {
                            Err(error) => Err(reliable_fault(error)),
                            Ok((payload, at)) => if at != input.len() {
                                Err(
                                    ReliableStationDecodeError::TrailingBytes(
                                        (input.len() - at) as usize,
                                    ),
                                )
                            } else {
                                Ok(ReliableModel::Data { sequence: sequence as u64, payload })
                            },
                        }
                    } else if tag == 1 {
                        if input.len() != 13 {
                            Err(
                                ReliableStationDecodeError::TrailingBytes(
                                    (input.len() - 13) as usize,
                                ),
                            )
                        } else {
                            Ok(ReliableModel::Ack { sequence: sequence as u64 })
                        }
                    } else {
                        Err(ReliableStationDecodeError::UnknownKind(tag))
                    },
                },
            }
        },
    }
}

fn fault(error: BinaryDecodeError) -> (mapped: ReliableStationDecodeError)
    ensures
        mapped == reliable_fault(error),
{
    match error {
        BinaryDecodeError::Truncated { needed, available } => ReliableStationDecodeError::Truncated {
            needed,
            available,
        },
        BinaryDecodeError::TrailingBytes(count) => ReliableStationDecodeError::TrailingBytes(count),
        _ => ReliableStationDecodeError::BadMagic,
    }
}

fn magic_tail(kind: LinkKind) -> (tail: (u8, u8))
    ensures
        link_magic(kind) == seq![0x53u8, 0x53u8, tail.0, tail.1],
{
    match kind {
        LinkKind::Client => (0x43, 0x52),
        LinkKind::Station => (0x52, 0x50),
    }
}

fn push_lead(kind: LinkKind, tag: u8, sequence: u64, out: &mut Vec<u8>)
    ensures
        final(out)@ == old(out)@ + reliable_lead(kind, tag, sequence),
{
    let (third, fourth) = magic_tail(kind);
    out.push(0x53);
    out.push(0x53);
    out.push(third);
    out.push(fourth);
    out.push(tag);
    push_u64(out, sequence);
    assert(out@ =~= old(out)@ + reliable_lead(kind, tag, sequence));
}

fn push_data(kind: LinkKind, sequence: u64, payload: &[u8], out: &mut Vec<u8>) -> (fits: bool)
    ensures
        fits == (payload@.len() <= u32::MAX),
        final(out)@ == old(out)@ + reliable_bytes(
            kind,
            ReliableModel::Data { sequence, payload: payload@ },
        ),
{
    push_lead(kind, 0, sequence, out);
    if payload.len() > u32::MAX as usize {
        return false;
    }
    push_u32(out, payload.len() as u32);
    push_all(out, payload);
    assert(out@ =~= old(out)@ + reliable_bytes(
        kind,
        ReliableModel::Data { sequence, payload: payload@ },
    ));
    true
}

/// A decoded frame that borrows its payload.
enum Borrowed<'a> {
    Data(u64, &'a [u8]),
    Ack(u64),
}

spec fn borrowed_model(frame: Borrowed<'_>) -> ReliableModel {
    match frame {
        Borrowed::Data(sequence, payload) => ReliableModel::Data { sequence, payload: payload@ },
        Borrowed::Ack(sequence) => ReliableModel::Ack { sequence },
    }
}

fn decode_link<'a>(kind: LinkKind, input: &'a [u8]) -> (result: Result<
    Borrowed<'a>,
    ReliableStationDecodeError,
>)
    ensures
        match result {
            Ok(frame) => decoded_reliable(kind, input@) == Ok::<
                ReliableModel,
                ReliableStationDecodeError,
            >(borrowed_model(frame)),
            Err(error) => decoded_reliable(kind, input@) == Err::<
                ReliableModel,
                ReliableStationDecodeError,
            >(error),
        },
{
    let mut cursor = Cursor::new(input);
    let magic = match cursor.read_slice(4) {
        Ok(magic) => magic,
        Err(error) => {
            return Err(fault(error));
        },
    };
    let (third, fourth) = magic_tail(kind);
    if magic[0] != 0x53 || magic[1] != 0x53 || magic[2] != third || magic[3] != fourth {
        return Err(ReliableStationDecodeError::BadMagic);
    }
    assert(magic@ =~= link_magic(kind));
    let tag: u8 = match cursor.read_u8() {
        Ok(tag) => tag,
        Err(error) => {
            return Err(fault(error));
        },
    };
    let sequence: u64 = match cursor.read_u64() {
        Ok(sequence) => sequence,
        Err(error) => {
            return Err(fault(error));
        },
    };
    let frame = if tag == 0 {
        let payload = match cursor.read_payload_ref() {
            Ok(payload) => payload,
            Err(error) => {
                return Err(fault(error));
            },
        };
        Borrowed::Data(sequence, payload)
    } else if tag == 1 {
        Borrowed::Ack(sequence)
    } else {
        return Err(ReliableStationDecodeError::UnknownKind(tag));
    };
    match cursor.finish() {
        Ok(()) => Ok(frame),
        Err(error) => Err(fault(error)),
    }
}

/// Encoded reliable client frame.
#[derive(Clone, Debug, PartialEq, Eq)]
pub enum ReliableClientFrame {
    /// Reliable data packet.
    Data {
        /// Sender-local sequence number scoped to the peer client.
        sequence: u64,
        /// Original packet payload.
        payload: Vec<u8>,
    },
    /// Acknowledgement for a reliable data packet.
    Ack {
        /// Acknowledged sequence number.
        sequence: u64,
    },
}

impl View for ReliableClientFrame {
    type V = ReliableModel;

    open spec fn view(&self) -> ReliableModel {
        match self {
            ReliableClientFrame::Data { sequence, payload } => ReliableModel::Data {
                sequence: *sequence,
                payload: payload@,
            },
            ReliableClientFrame::Ack { sequence } => ReliableModel::Ack { sequence: *sequence },
        }
    }
}

/// Borrowed reliable client frame decoded from caller-owned bytes.
#[derive(Clone, Copy, Debug, PartialEq, Eq)]
pub enum ReliableClientFrameRef<'a> {
    /// Reliable data packet with borrowed payload bytes.
    Data {
        /// Sender-local sequence number scoped to the peer client.
        sequence: u64,
        /// Payload borrowed from the encoded frame.
        payload: &'a [u8],
    },
    /// Acknowledgement for a reliable data packet.
    Ack {
        /// Acknowledged sequence number.
        sequence: u64,
    },
}

impl<'a> View for ReliableClientFrameRef<'a> {
    type V = ReliableModel;

    open spec fn view(&self) -> ReliableModel {
        match self {
            ReliableClientFrameRef::Data { sequence, payload } => ReliableModel::Data {
                sequence: *sequence,
                payload: payload@,
            },
            ReliableClientFrameRef::Ack { sequence } => ReliableModel::Ack { sequence: *sequence },
        }
    }
}

impl<'a> ReliableClientFrameRef<'a> {
    /// Materializes the compatible owned reliable client frame.
    pub fn to_owned(self) -> (frame: ReliableClientFrame)
        ensures
            frame@ == self@,
    {
        match self {
            Self::Data { sequence, payload } => ReliableClientFrame::Data {
                sequence,
                payload: copy_slice(payload),
            },
            Self::Ack { sequence } => ReliableClientFrame::Ack { sequence },
        }
    }
}

/// Relates the outcome of reliable client decoding to what the input denotes.
pub open spec fn decodes_client_frame<T: View<V = ReliableModel>>(
    input: Seq<u8>,
    result: Result<T, ReliableClientDecodeError>,
) -> bool {
    match result {
        Ok(frame) => decoded_reliable(LinkKind::Client, input) == Ok::<
            ReliableModel,
            ReliableStationDecodeError,
        >(frame@),
        Err(error) => decoded_reliable(LinkKind::Client, input) matches Err(fault) && error == ReliableClientDecodeError::like(fault),
    }
}

impl ReliableClientFrame {
    /// Appends a data frame from a borrowed payload without materializing an owned frame.
    pub fn encode_data(sequence: u64, payload: &[u8], out: &mut Vec<u8>) -> (result: Result<
        (),
        ReliableClientEncodeError,
    >)
        ensures
            final(out)@ == old(out)@ + reliable_bytes(
                LinkKind::Client,
                ReliableModel::Data { sequence, payload: payload@ },
            ),
            result == (if payload@.len() > u32::MAX {
                Err(
                    ReliableClientEncodeError::PayloadTooLarge { actual: payload@.len() as usize },
                )
            } else {
                Ok(())
            }),
    {
        if push_data(LinkKind::Client, sequence, payload, out) {
            Ok(())
        } else {
            Err(ReliableClientEncodeError::PayloadTooLarge { actual: payload.len() })
        }
    }

    /// Encodes a reliable client frame.
    pub fn encode(&self, out: &mut Vec<u8>) -> (result: Result<(), ReliableClientEncodeError>)
        ensures
            final(out)@ == old(out)@ + reliable_bytes(LinkKind::Client, self@),
            result is Ok <==> reliable_fits(self@),
            result matches Err(error) ==> self@ matches ReliableModel::Data { payload, .. }
                && error == (ReliableClientEncodeError::PayloadTooLarge {
                actual: payload.len() as usize,
            }),
    {
        match self {
            Self::Data { sequence, payload } => Self::encode_data(
                *sequence,
                payload.as_slice(),
                out,
            ),
            Self::Ack { sequence } => {
                push_lead(LinkKind::Client, 1, *sequence, out);
                Ok(())
            },
        }
    }

    /// Decodes a reliable client frame.
    pub fn decode(input: &[u8]) -> (result: Result<Self, ReliableClientDecodeError>)
        ensures
            decodes_client_frame(input@, result),
    {
        match Self::decode_ref(input) {
            Ok(frame) => Ok(frame.to_owned()),
            Err(error) => Err(error),
        }
    }

    /// Decodes a reliable client frame while borrowing data payload bytes.
    pub fn decode_ref<'a>(input: &'a [u8]) -> (result: Result<
        ReliableClientFrameRef<'a>,
        ReliableClientDecodeError,
    >)
        ensures
            decodes_client_frame(input@, result),
    {
        match decode_link(LinkKind::Client, input) {
            Ok(Borrowed::Data(sequence, payload)) => Ok(
                ReliableClientFrameRef::Data { sequence, payload },
            ),
            Ok(Borrowed::Ack(sequence)) => Ok(ReliableClientFrameRef::Ack { sequence }),
            Err(error) => Err(ReliableClientDecodeError::from_station_decode(error)),
        }
    }
}

/// Encoded reliable station frame.
#[derive(Clone, Debug, PartialEq, Eq)]
pub enum ReliableStationFrame {
    /// Reliable data packet.
    Data {
        /// Sender-local sequence number scoped to the target station.
        sequence: u64,
        /// Original packet payload.
        payload: Vec<u8>,
    },
    /// Acknowledgement for a reliable data packet.
    Ack {
        /// Acknowledged sequence number.
        sequence: u64,
    },
}

impl View for ReliableStationFrame {
    type V = ReliableModel;

    open spec fn view(&self) -> ReliableModel {
        match self {
            ReliableStationFrame::Data { sequence, payload } => ReliableModel::Data {
                sequence: *sequence,
                payload: payload@,
            },
            ReliableStationFrame::Ack { sequence } => ReliableModel::Ack { sequence: *sequence },
        }
    }
}

/// Borrowed reliable station frame decoded from caller-owned bytes.
#[derive(Clone, Copy, Debug, PartialEq, Eq)]
pub enum ReliableStationFrameRef<'a> {
    /// Reliable data packet with borrowed payload bytes.
    Data {
        /// Sender-local sequence number scoped to the target station.
        sequence: u64,
        /// Payload borrowed from the encoded frame.
        payload: &'a [u8],
    },
    /// Acknowledgement for a reliable data packet.
    Ack {
        /// Acknowledged sequence number.
        sequence: u64,
    },
}

impl<'a> View for ReliableStationFrameRef<'a> {
    type V = ReliableModel;

    open spec fn view(&self) -> ReliableModel {
        match self {
            ReliableStationFrameRef::Data { sequence, payload } => ReliableModel::Data {
                sequence: *sequence,
                payload: payload@,
            },
            ReliableStationFrameRef::Ack { sequence } => ReliableModel::Ack { sequence: *sequence },
        }
    }
}

impl<'a> ReliableStationFrameRef<'a> {
    /// Materializes the compatible owned reliable station frame.
    pub fn to_owned(self) -> (frame: ReliableStationFrame)
        ensures
            frame@ == self@,
    {
        match self {
            Self::Data { sequence, payload } => ReliableStationFrame::Data {
                sequence,
                payload: copy_slice(payload),
            },
            Self::Ack { sequence } => ReliableStationFrame::Ack { sequence },
        }
    }
}

/// Relates the outcome of reliable station decoding to what the input denotes.
pub open spec fn decodes_station_frame<T: View<V = ReliableModel>>(
    input: Seq<u8>,
    result: Result<T, ReliableStationDecodeError>,
) -> bool {
    match result {
        Ok(frame) => decoded_reliable(LinkKind::Station, input) == Ok::<
            ReliableModel,
            ReliableStationDecodeError,
        >(frame@),
        Err(error) => decoded_reliable(LinkKind::Station, input) matches Err(fault) && error == fault,
    }
}

impl ReliableStationFrame {
    /// Appends a data frame from a borrowed payload without materializing an owned frame.
    pub fn encode_data(sequence: u64, payload: &[u8], out: &mut Vec<u8>) -> (result: Result<
        (),
        ReliableStationEncodeError,
    >)
        ensures
            final(out)@ == old(out)@ + reliable_bytes(
                LinkKind::Station,
                ReliableModel::Data { sequence, payload: payload@ },
            ),
            result == (if payload@.len() > u32::MAX {
                Err(
                    ReliableStationEncodeError::PayloadTooLarge { actual: payload@.len() as usize },
                )
            } else {
                Ok(())
            }),
    {
        if push_data(LinkKind::Station, sequence, payload, out) {
            Ok(())
        } else {
            Err(ReliableStationEncodeError::PayloadTooLarge { actual: payload.len() })
        }
    }

    /// Encodes a reliable station frame.
    pub fn encode(&self, out: &mut Vec<u8>) -> (result: Result<(), ReliableStationEncodeError>)
        ensures
            final(out)@ == old(out)@ + reliable_bytes(LinkKind::Station, self@),
            result is Ok <==> reliable_fits(self@),
            result matches Err(error) ==> self@ matches ReliableModel::Data { payload, .. }
                && error == (ReliableStationEncodeError::PayloadTooLarge {
                actual: payload.len() as usize,
            }),
    {
        match self {
            Self::Data { sequence, payload } => Self::encode_data(
                *sequence,
                payload.as_slice(),
                out,
            ),
            Self::Ack { sequence } => {
                push_lead(LinkKind::Station, 1, *sequence, out);
                Ok(())
            },
        }
    }

    /// Decodes a reliable station frame.
    pub fn decode(input: &[u8]) -> (result: Result<Self, ReliableStationDecodeError>)
        ensures
            decodes_station_frame(input@, result),
    {
        match Self::decode_ref(input) {
            Ok(frame) => Ok(frame.to_owned()),
            Err(error) => Err(error),
        }
    }

    /// Decodes a reliable station frame while borrowing data payload bytes.
    pub fn decode_ref<'a>(input: &'a [u8]) -> (result: Result<
        ReliableStationFrameRef<'a>,
        ReliableStationDecodeError,
    >)
        ensures
            decodes_station_frame(input@, result),
    {
        match decode_link(LinkKind::Station, input) {
            Ok(Borrowed::Data(sequence, payload)) => Ok(
                ReliableStationFrameRef::Data { sequence, payload },
            ),
            Ok(Borrowed::Ack(sequence)) => Ok(ReliableStationFrameRef::Ack { sequence }),
            Err(error) => Err(error),
        }
    }
}

/// Moves a payload to the front of the bytes it arrived in and drops the rest.
pub fn reuse_reliable_payload(wire_bytes: Vec<u8>, offset: usize, len: usize) -> (payload: Vec<u8>)
    requires
        offset + len <= wire_bytes@.len(),
    ensures
        payload@ == wire_bytes@.subrange(offset as int, offset + len),
{
    let mut bytes = wire_bytes;
    let mut index: usize = 0;
    while index < len
        invariant
            index <= len,
            offset + len <= wire_bytes@.len(),
            bytes@.len() == wire_bytes@.len(),
            offset + len <= bytes.len(),
            forall|i: int| 0 <= i < index ==> bytes@[i] == wire_bytes@[offset + i],
            forall|i: int| index <= i < bytes@.len() ==> bytes@[i] == wire_bytes@[i],
        decreases len - index,
    {
        let byte: u8 = bytes[offset + index];
        bytes.set(index, byte);
        index = index + 1;
    }
    bytes.truncate(len);
    assert(bytes@ =~= wire_bytes@.subrange(offset as int, offset + len));
    bytes
}

proof fn lemma_reliable(kind: LinkKind, frame: ReliableModel, extra: Seq<u8>)
    requires
        reliable_fits(frame),
    ensures
        extra.len() == 0 ==> decoded_reliable(kind, reliable_bytes(kind, frame) + extra) == Ok::<
            ReliableModel,
            ReliableStationDecodeError,
        >(frame),
        extra.len() > 0 ==> decoded_reliable(kind, reliable_bytes(kind, frame) + extra) == Err::<
            ReliableModel,
            ReliableStationDecodeError,
        >(ReliableStationDecodeError::TrailingBytes(extra.len() as usize)),
{
    let input = reliable_bytes(kind, frame) + extra;
    lemma_le_limits();
    match frame {
        ReliableModel::Data { sequence, payload } => {
            lemma_le_bytes_len(sequence as nat, 8);
            lemma_le_bytes_len(payload.len(), 4);
            let r2 = (le_bytes(payload.len(), 4) + payload) + extra;
            let r1 = le_bytes(sequence as nat, 8) + r2;
            let r0 = seq![0u8] + r1;
            assert(input =~= link_magic(kind) + r0);
            assert(input.subrange(0, 4) =~= link_magic(kind));
            assert(input.skip(4) =~= r0);
            crate::wire_laws::lemma_byte(input, 4, 0u8, r1);
            crate::wire_laws::lemma_number(input, 5, sequence as nat, 8, r2);
            crate::wire_laws::lemma_payload(input, 13, "", payload, extra);
        },
        ReliableModel::Ack { sequence } => {
            lemma_le_bytes_len(sequence as nat, 8);
            let r1 = le_bytes(sequence as nat, 8) + extra;
            let r0 = seq![1u8] + r1;
            assert(input =~= link_magic(kind) + r0);
            assert(input.subrange(0, 4) =~= link_magic(kind));
            assert(input.skip(4) =~= r0);
            crate::wire_laws::lemma_byte(input, 4, 1u8, r1);
            crate::wire_laws::lemma_number(input, 5, sequence as nat, 8, extra);
        },
    }
}

/// Decoding the bytes of a reliable frame gives the frame back.
pub proof fn law_reliable_decode_inverts_encode(kind: LinkKind, frame: ReliableModel)
    requires
        reliable_fits(frame),
    ensures
        decoded_reliable(kind, reliable_bytes(kind, frame)) == Ok::<
            ReliableModel,
            ReliableStationDecodeError,
        >(frame),
{
    lemma_reliable(kind, frame, Seq::empty());
    assert(reliable_bytes(kind, frame) + Seq::empty() =~= reliable_bytes(kind, frame));
}

/// Bytes behind a reliable frame are refused, and the error counts them.
pub proof fn law_reliable_trailing_bytes_are_refused(
    kind: LinkKind,
    frame: ReliableModel,
    extra: Seq<u8>,
)
    requires
        reliable_fits(frame),
        extra.len() > 0,
    ensures
        decoded_reliable(kind, reliable_bytes(kind, frame) + extra) == Err::<
            ReliableModel,
            ReliableStationDecodeError,
        >(ReliableStationDecodeError::TrailingBytes(extra.len() as usize)),
{
    lemma_reliable(kind, frame, extra);
}

/// A reliable frame that decodes is the encoding of what it decodes to: no two inputs denote the same
/// frame of a link.
pub proof fn law_reliable_encoding_is_canonical(kind: LinkKind, input: Seq<u8>)
    requires
        decoded_reliable(kind, input) is Ok,
    ensures
        reliable_fits(decoded_reliable(kind, input)->Ok_0),
        reliable_bytes(kind, decoded_reliable(kind, input)->Ok_0) == input,
{
    let frame = decoded_reliable(kind, input)->Ok_0;
    let sequence = input.subrange(5, 13);
    crate::bytes::lemma_le_bytes_of_value(sequence);
    lemma_le_limits();
    match frame {
        ReliableModel::Data { payload, .. } => {
            crate::bytes::lemma_le_bytes_of_value(input.subrange(13, 17));
            assert(reliable_bytes(kind, frame) =~= input);
        },
        ReliableModel::Ack { .. } => {
            assert(reliable_bytes(kind, frame) =~= input);
        },
    }
}

/// A frame of one link is never taken for a frame of the other.
pub proof fn law_links_do_not_mix(kind: LinkKind, other: LinkKind, frame: ReliableModel)
    requires
        kind != other,
        reliable_fits(frame),
    ensures
        decoded_reliable(other, reliable_bytes(kind, frame)) == Err::<
            ReliableModel,
            ReliableStationDecodeError,
        >(ReliableStationDecodeError::BadMagic),
{
    let input = reliable_bytes(kind, frame);
    assert(input.len() >= 4) by {
        match frame {
            ReliableModel::Data { sequence, payload } => {
                lemma_le_bytes_len(sequence as nat, 8);
            },
            ReliableModel::Ack { sequence } => {
                lemma_le_bytes_len(sequence as nat, 8);
            },
        }
    }
    assert(input.subrange(0, 4) =~= link_magic(kind));
    assert(link_magic(kind)[2] != link_magic(other)[2]);
}

} // verus!
