//! Field entries of the wire format: a tag (field number and wire type)
//! followed by a payload whose shape the wire type fixes.
use vstd::prelude::*;
use crate::varint::{
    lemma_varint_parse_len, lemma_varint_parse_prefix, lemma_varint_round_trip, parse_varint, varint,
    MAX_VARINT_LEN,
};

verus! {

/// The largest field number a schema may use.
pub const MAX_FIELD_NUMBER: u32 = 536870911;

/// Payload is one varint.
pub const WIRE_VARINT: u8 = 0;

/// Payload is eight raw bytes.
pub const WIRE_FIXED64: u8 = 1;

/// Payload is a varint length followed by that many bytes.
pub const WIRE_LENGTH_DELIMITED: u8 = 2;

/// Payload is four raw bytes.
pub const WIRE_FIXED32: u8 = 5;

/// One field entry as read from the front of a buffer. `value` is the
/// payload for varints and the payload length for length-delimited entries
/// (zero otherwise); `len` counts every byte of the entry, tag included.
pub struct FieldEntry {
    pub number: u32,
    pub wire_type: u8,
    pub value: u64,
    pub len: nat,
}

/// Encoding of the tag of a field entry.
pub open spec fn tag(number: u32, wire_type: u8) -> Seq<u8> {
    varint((number as int * 8 + wire_type) as u64)
}

/// A complete varint field entry.
pub open spec fn varint_field(number: u32, v: u64) -> Seq<u8> {
    tag(number, WIRE_VARINT) + varint(v)
}

pub open spec fn valid_field_number(number: int) -> bool {
    1 <= number <= MAX_FIELD_NUMBER
}

/// Reads one field entry from the front of `s`; `None` when the tag is
/// malformed, names field number zero or one out of range, carries a wire
/// type this codec does not know (groups included), or the payload is cut off.
pub open spec fn parse_field(s: Seq<u8>) -> Option<FieldEntry> {
    match parse_varint(s) {
        None => None,
        Some((t, n)) => {
            let number = t / 8;
            let wt = t % 8;
            let rest = s.skip(n as int);
            if !valid_field_number(number as int) {
                None
            } else if wt == WIRE_VARINT {
                match parse_varint(rest) {
                    None => None,
                    Some((v, m)) => Some(FieldEntry { number: number as u32, wire_type: wt as u8, value: v, len: n + m }),
                }
            } else if wt == WIRE_FIXED64 {
                if n + 8 <= s.len() {
                    Some(FieldEntry { number: number as u32, wire_type: wt as u8, value: 0, len: n + 8 })
                } else {
                    None
                }
            } else if wt == WIRE_LENGTH_DELIMITED {
                match parse_varint(rest) {
                    None => None,
                    Some((l, m)) => if n + m + l <= s.len() {
                        Some(FieldEntry { number: number as u32, wire_type: wt as u8, value: l, len: (n + m + l) as nat })
                    } else {
                        None
                    },
                }
            } else if wt == WIRE_FIXED32 {
                if n + 4 <= s.len() {
                    Some(FieldEntry { number: number as u32, wire_type: wt as u8, value: 0, len: n + 4 })
                } else {
                    None
                }
            } else {
                None
            }
        },
    }
}

/// A buffer that holds exactly one field entry.
pub open spec fn is_field_entry(e: Seq<u8>) -> bool {
    parse_field(e) is Some && parse_field(e).unwrap().len == e.len()
}

/// An entry consumes at least one byte and never more than is there.
pub proof fn lemma_parse_field_len(s: Seq<u8>)
    ensures
        parse_field(s) is Some ==> 1 <= parse_field(s).unwrap().len <= s.len(),
{
    lemma_varint_parse_len(s, MAX_VARINT_LEN as nat);
    if let Some((t, n)) = parse_varint(s) {
        lemma_varint_parse_len(s.skip(n as int), MAX_VARINT_LEN as nat);
    }
}

proof fn lemma_parse_varint_extend(s: Seq<u8>, rest: Seq<u8>)
    requires
        parse_varint(s) is Some,
    ensures
        parse_varint(s + rest) == parse_varint(s),
{
    lemma_varint_parse_len(s, MAX_VARINT_LEN as nat);
    let t = s + rest;
    assert forall|i: int| 0 <= i < parse_varint(s).unwrap().1 implies t[i] == s[i] by {}
    lemma_varint_parse_prefix(s, t, MAX_VARINT_LEN as nat);
}

/// A complete entry reads the same whatever follows it.
pub proof fn lemma_parse_field_extend(e: Seq<u8>, rest: Seq<u8>)
    requires
        is_field_entry(e),
    ensures
        parse_field(e + rest) == parse_field(e),
{
    let s = e + rest;
    let (t, n) = parse_varint(e).unwrap();
    lemma_varint_parse_len(e, MAX_VARINT_LEN as nat);
    lemma_parse_varint_extend(e, rest);
    assert(s.skip(n as int) =~= e.skip(n as int) + rest);
    let wt = t % 8;
    if wt == WIRE_VARINT || wt == WIRE_LENGTH_DELIMITED {
        lemma_parse_varint_extend(e.skip(n as int), rest);
    }
}

/// A varint entry for a valid field number reads back as itself.
pub proof fn lemma_varint_field(number: u32, v: u64)
    requires
        valid_field_number(number as int),
    ensures
        is_field_entry(varint_field(number, v)),
        parse_field(varint_field(number, v)) == Some(
            FieldEntry { number, wire_type: WIRE_VARINT, value: v, len: varint_field(number, v).len() },
        ),
{
    let t = (number as int * 8 + WIRE_VARINT) as u64;
    let e = varint_field(number, v);
    lemma_varint_round_trip(t, varint(v));
    assert(t / 8 == number && t % 8 == 0);
    assert(e.skip(varint(t).len() as int) =~= varint(v) + Seq::<u8>::empty());
    lemma_varint_round_trip(v, Seq::<u8>::empty());
    assert(varint(v) + Seq::<u8>::empty() =~= varint(v));
}

} // verus!
