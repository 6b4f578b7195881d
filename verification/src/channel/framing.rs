//! The channel envelope on the wire: a six-byte big-endian header
//! `[message type][sequence][size]`, then the message payload.

use super::ChannelError;
use vstd::prelude::*;
use vstd::slice::slice_to_vec;

verus! {

/// Tag that tells the peer how to read a payload.
pub type MessageType = u16;

/// Bytes that the envelope header takes.
pub const ENVELOPE_HEADER_SIZE: usize = 6;

/// The two bytes of `value`, high byte first.
pub open spec fn be16(value: u16) -> Seq<u8> {
    seq![(value / 256) as u8, (value % 256) as u8]
}

/// The number spelt by two bytes, high byte first.
pub open spec fn from_be16(high: u8, low: u8) -> u16 {
    (high * 256 + low) as u16
}

/// The framed form of a payload. A missing sequence is written as zero,
/// and the size field holds the payload length modulo `2^16`.
pub open spec fn spec_envelope(
    payload: Seq<u8>,
    message_type: MessageType,
    sequence: Option<u16>,
) -> Seq<u8> {
    be16(message_type) + be16(
        match sequence {
            Some(s) => s,
            None => 0,
        },
    ) + be16((payload.len() % 0x10000) as u16) + payload
}

/// The three header fields of a frame, in wire order: message type,
/// sequence, size.
pub open spec fn spec_header(raw: Seq<u8>) -> (u16, u16, u16) {
    (from_be16(raw[0], raw[1]), from_be16(raw[2], raw[3]), from_be16(raw[4], raw[5]))
}

/// What reading a frame header yields: the fields, or `Misc` for a frame
/// too short to hold a header.
pub open spec fn spec_deenvelope(raw: Seq<u8>) -> Result<(u16, u16, u16), ChannelError> {
    if raw.len() < ENVELOPE_HEADER_SIZE {
        Err(ChannelError::Misc)
    } else {
        Ok(spec_header(raw))
    }
}

fn push_be16(out: &mut Vec<u8>, value: u16)
    ensures
        final(out)@ == old(out)@ + be16(value),
{
    out.push((value / 256) as u8);
    out.push((value % 256) as u8);
    assert(out@ =~= old(out)@ + be16(value));
}

/// Frames a payload for the wire.
pub fn envelope_raw(data: &[u8], message_type: MessageType, sequence: Option<u16>) -> (enveloped:
    Vec<u8>)
    ensures
        enveloped@ == spec_envelope(data@, message_type, sequence),
        enveloped@.len() == data@.len() + ENVELOPE_HEADER_SIZE,
{
    let raw_size = data.len();
    let mut enveloped: Vec<u8> = Vec::new();
    push_be16(&mut enveloped, message_type);
    push_be16(
        &mut enveloped,
        match sequence {
            Some(s) => s,
            None => 0,
        },
    );
    push_be16(&mut enveloped, (raw_size % 0x10000) as u16);
    let mut payload = slice_to_vec(data);
    enveloped.append(&mut payload);
    enveloped
}

/// Reads the header of a frame: message type, sequence and size.
pub fn deenvelope_raw(data: &[u8]) -> (header: Result<(u16, u16, u16), ChannelError>)
    ensures
        header == spec_deenvelope(data@),
{
    if data.len() < 6 {
        return Err(ChannelError::Misc);
    }
    let message_type: MessageType = (data[0] as u16) * 256 + data[1] as u16;
    let sequence: u16 = (data[2] as u16) * 256 + data[3] as u16;
    let size: u16 = (data[4] as u16) * 256 + data[5] as u16;
    Ok((message_type, sequence, size))
}

/// Framing then reading the header gives back the message type, the
/// sequence and the payload length, and the bytes after the header are the
/// payload, for every payload that fits the size field.
pub proof fn lemma_envelope_round_trip(payload: Seq<u8>, message_type: MessageType, sequence: u16)
    requires
        payload.len() < 0x10000,
    ensures
        spec_deenvelope(spec_envelope(payload, message_type, Some(sequence))) == Ok::<
            (u16, u16, u16),
            ChannelError,
        >((message_type, sequence, payload.len() as u16)),
        spec_envelope(payload, message_type, Some(sequence)).skip(ENVELOPE_HEADER_SIZE as int)
            == payload,
        spec_envelope(payload, message_type, Some(sequence)).len() == payload.len()
            + ENVELOPE_HEADER_SIZE,
{
    let raw = spec_envelope(payload, message_type, Some(sequence));
    assert(raw.skip(ENVELOPE_HEADER_SIZE as int) =~= payload);
}

} // verus!
