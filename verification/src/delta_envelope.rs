//! Delta datagram wire format: a 13-byte big-endian header
//! `[flags:u8][entity_slot:u32][tick:u64]` followed by the delta bytes.
use vstd::prelude::*;
use crate::wire::{be32, be64, push_be32, push_be64, push_bytes, read_be32, read_be64, read_u32_be, read_u64_be, lemma_read_be32_at, lemma_read_be64_at};
use crate::text::{decimal, decimal_chars};

verus! {

pub const DELTA_HEADER_LEN: usize = 13;

pub const FLAG_FULL_STATE: u8 = 0x01;

/// The datagram for one entity update.
pub open spec fn delta_datagram(flags: u8, entity_slot: u32, tick: u64, delta: Seq<u8>) -> Seq<u8> {
    seq![flags] + be32(entity_slot) + be64(tick) + delta
}

pub fn encode_delta_datagram(flags: u8, entity_slot: u32, tick: u64, delta_bytes: &[u8]) -> (buf:
    Vec<u8>)
    ensures
        buf@ == delta_datagram(flags, entity_slot, tick, delta_bytes@),
{
    let mut buf: Vec<u8> = Vec::new();
    buf.push(flags);
    push_be32(&mut buf, entity_slot);
    push_be64(&mut buf, tick);
    push_bytes(&mut buf, delta_bytes);
    buf
}

#[derive(Debug, PartialEq, Eq, Structural)]
pub enum DeltaParseError {
    Truncated { expected: usize, got: usize },
}

impl DeltaParseError {
    /// Human-readable description of the error.
    pub fn to_string(&self) -> (s: String)
        ensures
            s@ == (match self {
                DeltaParseError::Truncated { expected, got } => "truncated delta datagram: expected ≥"@
                    + decimal_chars(*expected as nat) + " bytes, got "@ + decimal_chars(*got as nat),
            }),
    {
        match self {
            DeltaParseError::Truncated { expected, got } => {
                let mut s = String::from_str("truncated delta datagram: expected ≥");
                s.append(decimal(*expected as u64).as_str());
                s.append(" bytes, got ");
                s.append(decimal(*got as u64).as_str());
                s
            },
        }
    }
}

pub fn parse_delta_datagram(bytes: &[u8]) -> (res: Result<(u8, u32, u64, &[u8]), DeltaParseError>)
    ensures
        bytes.len() < DELTA_HEADER_LEN ==> res == Err::<(u8, u32, u64, &[u8]), DeltaParseError>(
            DeltaParseError::Truncated { expected: DELTA_HEADER_LEN, got: bytes.len() },
        ),
        bytes.len() >= DELTA_HEADER_LEN ==> (res matches Ok((flags, slot, tick, delta)) && flags
            == bytes@[0] && slot == read_be32(bytes@, 1) && tick == read_be64(bytes@, 5) && delta@
            == bytes@.subrange(13, bytes@.len() as int)),
{
    if bytes.len() < DELTA_HEADER_LEN {
        return Err(DeltaParseError::Truncated { expected: DELTA_HEADER_LEN, got: bytes.len() });
    }
    let flags = bytes[0];
    let slot = read_u32_be(bytes, 1);
    let tick = read_u64_be(bytes, 5);
    let rest = &bytes[13..bytes.len()];
    Ok((flags, slot, tick, rest))
}

/// Parsing a datagram gives back exactly the fields it was encoded from.
pub proof fn law_delta_datagram_roundtrip(flags: u8, entity_slot: u32, tick: u64, delta: Seq<u8>)
    ensures
        ({
            let d = delta_datagram(flags, entity_slot, tick, delta);
            &&& d.len() >= DELTA_HEADER_LEN
            &&& d[0] == flags
            &&& read_be32(d, 1) == entity_slot
            &&& read_be64(d, 5) == tick
            &&& d.subrange(13, d.len() as int) == delta
        }),
{
    let d = delta_datagram(flags, entity_slot, tick, delta);
    assert(d.subrange(1, 5) == be32(entity_slot));
    assert(d.subrange(5, 13) == be64(tick));
    lemma_read_be32_at(d, 1, entity_slot);
    lemma_read_be64_at(d, 5, tick);
    assert(d.subrange(13, d.len() as int) == delta);
}

} // verus!
