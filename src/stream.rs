//! Cursors over bytes: one that reads field entries from a buffer within a
//! movable limit, one that appends encoded data to a buffer.
use vstd::prelude::*;
use crate::error::{ProtobufError, ProtobufResult};
use crate::varint::{parse_varint, read_varint, varint, write_varint};
use crate::wire::{
    parse_field, tag, MAX_FIELD_NUMBER, WIRE_FIXED32, WIRE_FIXED64, WIRE_LENGTH_DELIMITED,
    WIRE_VARINT,
};

verus! {

/// Copies `buf[start..end]` into a new vector.
pub fn copy_range(buf: &Vec<u8>, start: usize, end: usize) -> (r: Vec<u8>)
    requires
        start <= end <= buf@.len(),
    ensures
        r@ == buf@.subrange(start as int, end as int),
{
    let mut r: Vec<u8> = Vec::new();
    let mut i: usize = start;
    while i < end
        invariant
            start <= i <= end <= buf@.len(),
            r@ == buf@.subrange(start as int, i as int),
        decreases end - i,
    {
        r.push(buf[i]);
        i = i + 1;
        assert(r@ =~= buf@.subrange(start as int, i as int));
    }
    r
}

/// One field entry read from an input stream, with the bytes it occupied.
pub struct Field {
    pub number: u32,
    pub wire_type: u8,
    /// The payload of a varint entry, the payload length of a
    /// length-delimited one, zero otherwise.
    pub value: u64,
    /// Every byte of the entry, tag included, as it was read.
    pub raw: Vec<u8>,
}

/// A read cursor over a byte buffer. Reading stops at the current limit,
/// which starts at the end of the buffer and can be narrowed to a frame.
pub struct CodedInputStream {
    buf: Vec<u8>,
    pos: usize,
    limit: usize,
}

impl CodedInputStream {
    /// All bytes of the underlying buffer.
    pub closed spec fn bytes(&self) -> Seq<u8> {
        self.buf@
    }

    /// Offset of the next byte to read.
    pub closed spec fn pos_spec(&self) -> nat {
        self.pos as nat
    }

    /// Offset at which reading stops.
    pub closed spec fn limit_spec(&self) -> nat {
        self.limit as nat
    }

    pub open spec fn wf(&self) -> bool {
        self.pos_spec() <= self.limit_spec() <= self.bytes().len()
    }

    /// The bytes still to be read before the limit.
    pub open spec fn remaining(&self) -> Seq<u8> {
        self.bytes().subrange(self.pos_spec() as int, self.limit_spec() as int)
    }

    /// A cursor at the start of `bytes`, limited by their end.
    pub fn from_bytes(bytes: &[u8]) -> (r: CodedInputStream)
        ensures
            r.wf(),
            r.bytes() == bytes@,
            r.pos_spec() == 0,
            r.limit_spec() == bytes@.len(),
            r.remaining() == bytes@,
    {
        let mut buf: Vec<u8> = Vec::new();
        let mut i: usize = 0;
        while i < bytes.len()
            invariant
                i <= bytes@.len(),
                buf@ == bytes@.subrange(0, i as int),
            decreases bytes@.len() - i,
        {
            buf.push(bytes[i]);
            i = i + 1;
            assert(buf@ =~= bytes@.subrange(0, i as int));
        }
        assert(buf@ =~= bytes@);
        let limit = buf.len();
        let r = CodedInputStream { buf, pos: 0, limit };
        assert(r.remaining() =~= bytes@);
        r
    }

    /// Whether every byte before the limit has been read.
    pub fn eof(&self) -> (r: bool)
        requires
            self.wf(),
        ensures
            r == (self.remaining().len() == 0),
    {
        self.pos == self.limit
    }

    /// Number of bytes read since the start of the buffer.
    pub fn pos(&self) -> (r: usize)
        ensures
            r == self.pos_spec(),
    {
        self.pos
    }

    /// Reads a varint.
    pub fn read_raw_varint64(&mut self) -> (r: ProtobufResult<u64>)
        requires
            old(self).wf(),
        ensures
            final(self).wf(),
            final(self).bytes() == old(self).bytes(),
            final(self).limit_spec() == old(self).limit_spec(),
            match parse_varint(old(self).remaining()) {
                None => r == Err::<u64, ProtobufError>(ProtobufError::WireError),
                Some((v, n)) => r == Ok::<u64, ProtobufError>(v) && final(self).pos_spec()
                    == old(self).pos_spec() + n,
            },
    {
        let ghost s = self.remaining();
        assert(s == self.buf@.subrange(self.pos as int, self.limit as int));
        match read_varint(&self.buf, self.pos, self.limit) {
            None => Err(ProtobufError::WireError),
            Some((v, next)) => {
                self.pos = next;
                Ok(v)
            },
        }
    }

    /// Reads one field entry, payload included.
    pub fn read_field(&mut self) -> (r: ProtobufResult<Field>)
        requires
            old(self).wf(),
        ensures
            final(self).wf(),
            final(self).bytes() == old(self).bytes(),
            final(self).limit_spec() == old(self).limit_spec(),
            match parse_field(old(self).remaining()) {
                None => r is Err && r->Err_0 == ProtobufError::WireError,
                Some(f) => {
                    &&& r is Ok
                    &&& r->Ok_0.number == f.number
                    &&& r->Ok_0.wire_type == f.wire_type
                    &&& r->Ok_0.value == f.value
                    &&& r->Ok_0.raw@ == old(self).remaining().take(f.len as int)
                    &&& final(self).pos_spec() == old(self).pos_spec() + f.len
                },
            },
    {
        let ghost s = self.remaining();
        assert(s == self.buf@.subrange(self.pos as int, self.limit as int));
        let start = self.pos;
        let (t, p1) = match read_varint(&self.buf, self.pos, self.limit) {
            None => return Err(ProtobufError::WireError),
            Some(x) => x,
        };
        let ghost n = (p1 - start) as nat;
        assert(parse_varint(s) == Some((t, n)));
        assert(s.skip(n as int) =~= self.buf@.subrange(p1 as int, self.limit as int));
        let number = t / 8;
        let wt = t % 8;
        if number == 0 || number > MAX_FIELD_NUMBER as u64 {
            return Err(ProtobufError::WireError);
        }
        let mut value: u64 = 0;
        let end: usize;
        if wt == WIRE_VARINT as u64 {
            match read_varint(&self.buf, p1, self.limit) {
                None => return Err(ProtobufError::WireError),
                Some((v, p2)) => {
                    value = v;
                    end = p2;
                },
            }
        } else if wt == WIRE_FIXED64 as u64 {
            if self.limit - p1 < 8 {
                return Err(ProtobufError::WireError);
            }
            end = p1 + 8;
        } else if wt == WIRE_LENGTH_DELIMITED as u64 {
            match read_varint(&self.buf, p1, self.limit) {
                None => return Err(ProtobufError::WireError),
                Some((l, p2)) => {
                    if l > (self.limit - p2) as u64 {
                        return Err(ProtobufError::WireError);
                    }
                    value = l;
                    end = p2 + l as usize;
                },
            }
        } else if wt == WIRE_FIXED32 as u64 {
            if self.limit - p1 < 4 {
                return Err(ProtobufError::WireError);
            }
            end = p1 + 4;
        } else {
            return Err(ProtobufError::WireError);
        }
        let raw = copy_range(&self.buf, start, end);
        assert(raw@ =~= s.take((end - start) as int));
        self.pos = end;
        Ok(Field { number: number as u32, wire_type: wt as u8, value, raw })
    }

    /// Narrows the limit to the next `len` bytes and returns the limit it
    /// replaces; fails when fewer than `len` bytes remain.
    pub fn push_limit(&mut self, len: u64) -> (r: ProtobufResult<usize>)
        requires
            old(self).wf(),
        ensures
            final(self).wf(),
            final(self).bytes() == old(self).bytes(),
            final(self).pos_spec() == old(self).pos_spec(),
            len <= old(self).remaining().len() ==> {
                &&& r is Ok && r->Ok_0 == old(self).limit_spec()
                &&& final(self).limit_spec() == old(self).pos_spec() + len
            },
            len > old(self).remaining().len() ==> {
                &&& r == Err::<usize, ProtobufError>(ProtobufError::WireError)
                &&& final(self).limit_spec() == old(self).limit_spec()
            },
    {
        if len > (self.limit - self.pos) as u64 {
            return Err(ProtobufError::WireError);
        }
        let old_limit = self.limit;
        self.limit = self.pos + len as usize;
        Ok(old_limit)
    }

    /// Puts back a limit that `push_limit` replaced.
    pub fn pop_limit(&mut self, old_limit: usize)
        requires
            old(self).wf(),
            old(self).limit_spec() <= old_limit <= old(self).bytes().len(),
        ensures
            final(self).wf(),
            final(self).bytes() == old(self).bytes(),
            final(self).pos_spec() == old(self).pos_spec(),
            final(self).limit_spec() == old_limit,
    {
        self.limit = old_limit;
    }
}

/// An append-only writer of encoded data into a growing buffer.
pub struct CodedOutputStream {
    buf: Vec<u8>,
}

impl View for CodedOutputStream {
    type V = Seq<u8>;

    closed spec fn view(&self) -> Seq<u8> {
        self.buf@
    }
}

impl CodedOutputStream {
    /// A writer over an empty buffer.
    pub fn new() -> (r: CodedOutputStream)
        ensures
            r@ == Seq::<u8>::empty(),
    {
        CodedOutputStream { buf: Vec::new() }
    }

    /// A writer that appends to the bytes of `buf`.
    pub fn from_vec(buf: Vec<u8>) -> (r: CodedOutputStream)
        ensures
            r@ == buf@,
    {
        CodedOutputStream { buf }
    }

    /// Everything written, after what the buffer held at the start.
    pub fn into_bytes(self) -> (r: Vec<u8>)
        ensures
            r@ == self@,
    {
        self.buf
    }

    /// Appends a varint.
    pub fn write_raw_varint64(&mut self, v: u64)
        ensures
            final(self)@ == old(self)@ + varint(v),
    {
        write_varint(&mut self.buf, v);
    }

    /// Appends a varint of a 32-bit value.
    pub fn write_raw_varint32(&mut self, v: u32)
        ensures
            final(self)@ == old(self)@ + varint(v as u64),
    {
        write_varint(&mut self.buf, v as u64);
    }

    /// Appends raw bytes.
    pub fn write_raw_bytes(&mut self, bytes: &[u8])
        ensures
            final(self)@ == old(self)@ + bytes@,
    {
        let ghost start = self.buf@;
        let mut i: usize = 0;
        while i < bytes.len()
            invariant
                i <= bytes@.len(),
                self.buf@ == start + bytes@.subrange(0, i as int),
            decreases bytes@.len() - i,
        {
            self.buf.push(bytes[i]);
            i = i + 1;
            assert(self.buf@ =~= start + bytes@.subrange(0, i as int));
        }
        assert(bytes@.subrange(0, i as int) =~= bytes@);
    }

    /// Appends the tag of a field entry.
    pub fn write_tag(&mut self, number: u32, wire_type: u8)
        requires
            number <= MAX_FIELD_NUMBER,
            wire_type < 8,
        ensures
            final(self)@ == old(self)@ + tag(number, wire_type),
    {
        write_varint(&mut self.buf, number as u64 * 8 + wire_type as u64);
    }
}

} // verus!
