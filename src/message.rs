//! The contract every message type meets, the encode and decode protocols
//! built on it once for all types, and the contract of enumerations.
use vstd::prelude::*;
use crate::error::{ProtobufError, ProtobufResult};
use crate::stream::{CodedInputStream, CodedOutputStream, Field};
use crate::unknown::{concat, UnknownFields};
use crate::varint::{lemma_varint_round_trip, parse_varint, varint};
use crate::wire::{
    is_field_entry, lemma_parse_field_extend, lemma_parse_field_len, parse_field, FieldEntry,
};

verus! {

/// The entry that `f` was read as.
pub open spec fn entry_of(f: &Field) -> FieldEntry {
    FieldEntry { number: f.number, wire_type: f.wire_type, value: f.value, len: f.raw@.len() }
}

/// The outcome of parsing all of `s` as one message: a fresh value with `s`
/// merged into it, refused when malformed or when a required field is absent.
pub open spec fn parse_result<M: Message>(s: Seq<u8>) -> Result<M::V, ProtobufError> {
    match M::merge_model(M::empty_model(), s) {
        None => Err(ProtobufError::WireError),
        Some(m) => match M::missing_model(m) {
            None => Ok(m),
            Some(n) => Err(ProtobufError::MessageNotInitialized(n)),
        },
    }
}

/// The outcome of parsing one length-delimited frame from the front of `s`:
/// the message and the number of bytes the frame took, prefix included.
pub open spec fn delimited_result<M: Message>(s: Seq<u8>) -> Result<(M::V, nat), ProtobufError> {
    match parse_varint(s) {
        None => Err(ProtobufError::WireError),
        Some((len, n)) => if n + len <= s.len() {
            match parse_result::<M>(s.subrange(n as int, n + len)) {
                Ok(m) => Ok((m, (n + len) as nat)),
                Err(e) => Err(e),
            }
        } else {
            Err(ProtobufError::WireError)
        },
    }
}

/// The bytes of a length-delimited frame holding `m`.
pub open spec fn delimited_encoding<M: Message>(m: M::V) -> Seq<u8> {
    varint(M::encoding(m).len() as u64) + M::encoding(m)
}

/// A structured message that encodes to, and merges from, the wire format.
///
/// A message type gives its abstract value (`view`), its canonical empty
/// value, its encoding, and how one field entry read from the wire changes a
/// value; the protocols for whole buffers and length-delimited frames are
/// built on these once, below, for every message type.
pub trait Message: Sized + View + PartialEq + Clone + Default + std::fmt::Debug {
    /// The value of a freshly created message.
    spec fn empty_model() -> Self::V;

    /// The number of a field that the schema marks as required and that is
    /// not set in `m` (looking into nested required messages), or `None`
    /// when every required field is set.
    spec fn missing_model(m: Self::V) -> Option<u32>;

    /// Holds of values whose encoding parses back to them: all that the
    /// schema allows, with an unknown-field store made of complete entries
    /// for field numbers the schema does not use.
    spec fn valid_model(m: Self::V) -> bool;

    /// The bytes that `write_to_with_cached_sizes` emits for `m`.
    spec fn encoding(m: Self::V) -> Seq<u8>;

    /// Merges one entry, whose bytes on the wire are `raw`, into `m`:
    /// scalar fields are overwritten, repeated ones appended to, nested
    /// messages merged into, and unknown numbers kept in the store.
    spec fn apply_field(m: Self::V, f: FieldEntry, raw: Seq<u8>) -> Option<Self::V>;

    /// The entries kept for field numbers the schema does not know.
    spec fn unknown_model(m: Self::V) -> Seq<Seq<u8>>;

    /// The value with its unknown-field store replaced by `u`.
    spec fn with_unknown_model(m: Self::V, u: Seq<Seq<u8>>) -> Self::V;

    /// Entries that the schema reads into its own fields.
    spec fn known_entry(f: FieldEntry) -> bool;

    /// The encoding of the fields that the schema knows.
    spec fn known_encoding(m: Self::V) -> Seq<u8>;

    /// How the unknown-field store behaves: an empty value has none; an
    /// entry the schema does not know is appended to it byte for byte, and
    /// a known one leaves it as it is; the encoding is the known fields
    /// followed by the stored entries as they were read.
    proof fn lemma_unknown_fields(m: Self::V, f: FieldEntry, raw: Seq<u8>, u: Seq<Seq<u8>>)
        ensures
            Self::unknown_model(Self::empty_model()) == Seq::<Seq<u8>>::empty(),
            !Self::known_entry(f) ==> Self::apply_field(m, f, raw) == Some(
                Self::with_unknown_model(m, Self::unknown_model(m).push(raw)),
            ),
            Self::known_entry(f) && Self::apply_field(m, f, raw) is Some ==> Self::unknown_model(
                Self::apply_field(m, f, raw).unwrap(),
            ) == Self::unknown_model(m),
            Self::unknown_model(Self::with_unknown_model(m, u)) == u,
            Self::encoding(m) == Self::known_encoding(m) + concat(Self::unknown_model(m)),
    ;

    /// The size held by the message (and its nested messages) agrees with
    /// its current value.
    spec fn size_cached(&self) -> bool;

    /// The field entries that make up the encoding of `m`, in order.
    spec fn entries(m: Self::V) -> Seq<Seq<u8>>;

    /// The value that merging the first `k` entries of the encoding of `m`
    /// into an empty value gives.
    spec fn partial(m: Self::V, k: nat) -> Self::V;

    /// The encoding of a valid value is a sequence of complete entries, and
    /// merging them one by one into an empty value rebuilds the value.
    proof fn lemma_entries(m: Self::V)
        requires
            Self::valid_model(m),
        ensures
            Self::encoding(m) == concat(Self::entries(m)),
            Self::partial(m, 0) == Self::empty_model(),
            Self::partial(m, Self::entries(m).len()) == m,
            forall|k: nat|
                k < Self::entries(m).len() ==> {
                    &&& is_field_entry(#[trigger] Self::entries(m)[k as int])
                    &&& Self::apply_field(
                        Self::partial(m, k),
                        parse_field(Self::entries(m)[k as int]).unwrap(),
                        Self::entries(m)[k as int],
                    ) == Some(Self::partial(m, k + 1))
                },
    ;

    /// The canonical empty value.
    fn new() -> (r: Self)
        ensures
            r@ == Self::empty_model(),
    ;

    /// Resets the message to the empty value.
    fn clear(&mut self)
        ensures
            final(self)@ == Self::empty_model(),
    ;

    /// The number of a required field that is not set, if any.
    fn missing_field(&self) -> (r: Option<u32>)
        ensures
            r == Self::missing_model(self@),
    ;

    /// Whether every required field is set.
    fn is_initialized(&self) -> (r: bool)
        ensures
            r == (Self::missing_model(self@) is None),
    {
        self.missing_field().is_none()
    }

    /// Merges one entry read from the wire.
    fn merge_field(&mut self, f: &Field) -> (r: ProtobufResult<()>)
        ensures
            match Self::apply_field(old(self)@, entry_of(f), f.raw@) {
                Some(m) => r is Ok && final(self)@ == m,
                None => r == Err::<(), ProtobufError>(ProtobufError::WireError),
            },
    ;

    /// Computes, stores and returns the encoded size of the message and of
    /// every nested message.
    fn compute_size(&mut self) -> (r: u32)
        requires
            Self::encoding(old(self)@).len() <= u32::MAX,
        ensures
            final(self)@ == old(self)@,
            final(self).size_cached(),
            r == Self::encoding(old(self)@).len(),
    ;

    /// Whether the encoded size fits in 32 bits, as the writers require.
    fn size_fits(&self) -> (r: bool)
        ensures
            r == (Self::encoding(self@).len() <= u32::MAX),
    ;

    /// The size stored by the last `compute_size`.
    fn get_cached_size(&self) -> (r: u32)
        requires
            self.size_cached(),
        ensures
            r == Self::encoding(self@).len(),
    ;

    /// Appends the encoding, using the sizes stored by `compute_size`.
    fn write_to_with_cached_sizes(&self, os: &mut CodedOutputStream) -> (r: ProtobufResult<()>)
        requires
            self.size_cached(),
        ensures
            r == Ok::<(), ProtobufError>(()),
            final(os)@ == old(os)@ + Self::encoding(self@),
    ;

    /// The unknown-field store.
    fn get_unknown_fields(&self) -> (r: &UnknownFields)
        ensures
            r@ == Self::unknown_model(self@),
    ;

    /// Merges every field entry of `s` into `m`, in order; `None` when `s`
    /// is not a sequence of well-formed entries or an entry cannot be applied.
    spec fn merge_model(m: Self::V, s: Seq<u8>) -> Option<Self::V>;

    /// Merging is entry by entry: nothing to merge leaves the value as it
    /// is; otherwise the first entry is applied, then the rest merged.
    proof fn lemma_merge_unfold(m: Self::V, s: Seq<u8>)
        ensures
            Self::merge_model(m, s) == (if s.len() == 0 {
                Some(m)
            } else {
                match parse_field(s) {
                    None => None,
                    Some(f) => if 1 <= f.len <= s.len() {
                        match Self::apply_field(m, f, s.take(f.len as int)) {
                            None => None,
                            Some(m2) => Self::merge_model(m2, s.skip(f.len as int)),
                        }
                    } else {
                        None
                    },
                }
            }),
    ;

    /// The unknown-field store, for changing it.
    fn mut_unknown_fields(&mut self) -> (r: &mut UnknownFields)
        ensures
            r@ == Self::unknown_model(old(self)@),
            final(self)@ == Self::with_unknown_model(old(self)@, final(r)@),
    ;

    /// Reads field entries up to the limit of `is` and merges each into the
    /// message. Whether required fields are set is not checked.
    fn merge_from(&mut self, is: &mut CodedInputStream) -> (r: ProtobufResult<()>)
        requires
            old(is).wf(),
        ensures
            final(is).wf(),
            final(is).bytes() == old(is).bytes(),
            final(is).limit_spec() == old(is).limit_spec(),
            match Self::merge_model(old(self)@, old(is).remaining()) {
                Some(m) => r is Ok && final(self)@ == m && final(is).pos_spec()
                    == final(is).limit_spec(),
                None => r == Err::<(), ProtobufError>(ProtobufError::WireError),
            },
    {
        while !(is.eof())
            invariant
                is.wf(),
                is.bytes() == old(is).bytes(),
                is.limit_spec() == old(is).limit_spec(),
                Self::merge_model(self@, is.remaining()) == Self::merge_model(
                    old(self)@,
                    old(is).remaining(),
                ),
            decreases is.remaining().len(),
        {
            let ghost s = is.remaining();
            proof {
                lemma_parse_field_len(s);
                Self::lemma_merge_unfold(self@, s);
            }
            let f = match is.read_field() {
                Err(e) => return Err(e),
                Ok(f) => f,
            };
            assert(is.remaining() =~= s.skip(f.raw@.len() as int));
            match self.merge_field(&f) {
                Err(e) => return Err(e),
                Ok(()) => {},
            }
        }
        proof {
            Self::lemma_merge_unfold(self@, is.remaining());
        }
        Ok(())
    }

    /// Merges all of `bytes`.
    fn merge_from_bytes(&mut self, bytes: &[u8]) -> (r: ProtobufResult<()>)
        ensures
            match Self::merge_model(old(self)@, bytes@) {
                Some(m) => r is Ok && final(self)@ == m,
                None => r == Err::<(), ProtobufError>(ProtobufError::WireError),
            },
    {
        let mut is = CodedInputStream::from_bytes(bytes);
        self.merge_from(&mut is)
    }

    /// Fails with `MessageNotInitialized`, naming the field, when a
    /// required field is absent.
    fn check_initialized(&self) -> (r: ProtobufResult<()>)
        ensures
            match Self::missing_model(self@) {
                None => r is Ok,
                Some(n) => r == Err::<(), ProtobufError>(ProtobufError::MessageNotInitialized(n)),
            },
    {
        match self.missing_field() {
            None => Ok(()),
            Some(n) => Err(ProtobufError::MessageNotInitialized(n)),
        }
    }

    /// Checks that required fields are set, computes sizes, then appends
    /// the encoding. Nothing is written when the check fails.
    fn write_to(&mut self, os: &mut CodedOutputStream) -> (r: ProtobufResult<()>)
        requires
            Self::encoding(old(self)@).len() <= u32::MAX,
        ensures
            final(self)@ == old(self)@,
            match Self::missing_model(old(self)@) {
                None => r is Ok && final(os)@ == old(os)@ + Self::encoding(old(self)@)
                    && final(self).size_cached(),
                Some(n) => r == Err::<(), ProtobufError>(ProtobufError::MessageNotInitialized(n))
                    && final(os)@ == old(os)@,
            },
    {
        match self.check_initialized() {
            Err(e) => return Err(e),
            Ok(()) => {},
        }
        self.compute_size();
        self.write_to_with_cached_sizes(os)
    }

    /// Checks that required fields are set, then appends the encoded size
    /// as a varint and the encoding: a frame that delimits itself within a
    /// longer stream. Nothing is written when the check fails.
    fn write_length_delimited_to(&mut self, os: &mut CodedOutputStream) -> (r: ProtobufResult<()>)
        requires
            Self::encoding(old(self)@).len() <= u32::MAX,
        ensures
            final(self)@ == old(self)@,
            match Self::missing_model(old(self)@) {
                None => r is Ok && final(os)@ == old(os)@ + varint(
                    Self::encoding(old(self)@).len() as u64,
                ) + Self::encoding(old(self)@) && final(self).size_cached(),
                Some(n) => r == Err::<(), ProtobufError>(ProtobufError::MessageNotInitialized(n))
                    && final(os)@ == old(os)@,
            },
    {
        match self.check_initialized() {
            Err(e) => return Err(e),
            Ok(()) => {},
        }
        let size = self.compute_size();
        os.write_raw_varint32(size);
        let r = self.write_to_with_cached_sizes(os);
        
        r
    }

    /// Appends the checked encoding to `v`.
    fn write_to_vec(&mut self, v: &mut Vec<u8>) -> (r: ProtobufResult<()>)
        requires
            Self::encoding(old(self)@).len() <= u32::MAX,
        ensures
            final(self)@ == old(self)@,
            match Self::missing_model(old(self)@) {
                None => r is Ok && final(v)@ == old(v)@ + Self::encoding(old(self)@),
                Some(n) => r == Err::<(), ProtobufError>(ProtobufError::MessageNotInitialized(n))
                    && final(v)@ == old(v)@,
            },
    {
        let mut os = CodedOutputStream::new();
        let r = self.write_to(&mut os);
        let mut bytes = os.into_bytes();
        let ghost written = bytes@;
        v.append(&mut bytes);
        assert(v@ =~= old(v)@ + written);
        r
    }

    /// The checked encoding, in a new buffer.
    fn write_to_bytes(&mut self) -> (r: ProtobufResult<Vec<u8>>)
        requires
            Self::encoding(old(self)@).len() <= u32::MAX,
        ensures
            final(self)@ == old(self)@,
            match Self::missing_model(old(self)@) {
                None => r is Ok && r->Ok_0@ == Self::encoding(old(self)@),
                Some(n) => r is Err && r->Err_0 == ProtobufError::MessageNotInitialized(n),
            },
    {
        let mut v: Vec<u8> = Vec::new();
        match self.write_to_vec(&mut v) {
            Err(e) => Err(e),
            Ok(()) => {
                assert(v@ =~= Self::encoding(old(self)@));
                Ok(v)
            },
        }
    }

    /// A length-delimited frame holding the message, checked for required
    /// fields, in a new buffer.
    fn write_length_delimited_to_bytes(&mut self) -> (r: ProtobufResult<Vec<u8>>)
        requires
            Self::encoding(old(self)@).len() <= u32::MAX,
        ensures
            final(self)@ == old(self)@,
            match Self::missing_model(old(self)@) {
                None => r is Ok && r->Ok_0@ == varint(Self::encoding(old(self)@).len() as u64)
                    + Self::encoding(old(self)@),
                Some(n) => r is Err && r->Err_0 == ProtobufError::MessageNotInitialized(n),
            },
    {
        let mut os = CodedOutputStream::new();
        match self.write_length_delimited_to(&mut os) {
            Err(e) => Err(e),
            Ok(()) => {
                let v = os.into_bytes();
                assert(v@ =~= varint(Self::encoding(old(self)@).len() as u64) + Self::encoding(old(self)@));
                Ok(v)
            },
        }
    }
}

/// Reads field entries up to the limit of `is` into a fresh message and
/// checks that its required fields are set.
pub fn parse_from<M: Message>(is: &mut CodedInputStream) -> (r: ProtobufResult<M>)
    requires
        old(is).wf(),
    ensures
        final(is).wf(),
        final(is).bytes() == old(is).bytes(),
        final(is).limit_spec() == old(is).limit_spec(),
        match parse_result::<M>(old(is).remaining()) {
            Ok(m) => r is Ok && r->Ok_0@ == m && final(is).pos_spec() == final(is).limit_spec(),
            Err(e) => r is Err && r->Err_0 == e,
        },
{
    let mut m = M::new();
    match m.merge_from(is) {
        Err(e) => return Err(e),
        Ok(()) => {},
    }
    match m.check_initialized() {
        Err(e) => Err(e),
        Ok(()) => Ok(m),
    }
}

/// Parses all of `bytes` as one message.
pub fn parse_from_bytes<M: Message>(bytes: &[u8]) -> (r: ProtobufResult<M>)
    ensures
        match parse_result::<M>(bytes@) {
            Ok(m) => r is Ok && r->Ok_0@ == m,
            Err(e) => r is Err && r->Err_0 == e,
        },
{
    let mut is = CodedInputStream::from_bytes(bytes);
    parse_from::<M>(&mut is)
}

/// Reads one length-delimited frame from `is`: a varint length, then a
/// message read from exactly that many bytes, never past them.
pub fn parse_length_delimited_from<M: Message>(is: &mut CodedInputStream) -> (r: ProtobufResult<M>)
    requires
        old(is).wf(),
    ensures
        final(is).wf(),
        final(is).bytes() == old(is).bytes(),
        final(is).limit_spec() == old(is).limit_spec(),
        match delimited_result::<M>(old(is).remaining()) {
            Ok((m, n)) => r is Ok && r->Ok_0@ == m && final(is).pos_spec() == old(is).pos_spec()
                + n,
            Err(e) => r is Err && r->Err_0 == e,
        },
{
    let ghost s = is.remaining();
    let len = match is.read_raw_varint64() {
        Err(e) => return Err(e),
        Ok(len) => len,
    };
    let ghost n = (is.pos_spec() - old(is).pos_spec()) as nat;
    assert(is.remaining() =~= s.skip(n as int));
    let outer = match is.push_limit(len) {
        Err(e) => return Err(e),
        Ok(outer) => outer,
    };
    assert(is.remaining() =~= s.subrange(n as int, n + len));
    let r = parse_from::<M>(is);
    is.pop_limit(outer);
    r
}

/// Reads one length-delimited frame from the front of `bytes`.
pub fn parse_length_delimited_from_bytes<M: Message>(bytes: &[u8]) -> (r: ProtobufResult<M>)
    ensures
        match delimited_result::<M>(bytes@) {
            Ok((m, n)) => r is Ok && r->Ok_0@ == m,
            Err(e) => r is Err && r->Err_0 == e,
        },
{
    let mut is = CodedInputStream::from_bytes(bytes);
    parse_length_delimited_from::<M>(&mut is)
}

/// Entries laid end to end: the first, then the rest.
proof fn lemma_concat_front(es: Seq<Seq<u8>>)
    requires
        es.len() > 0,
    ensures
        concat(es) == es[0] + concat(es.drop_first()),
    decreases es.len(),
{
    if es.len() > 1 {
        lemma_concat_front(es.drop_last());
        assert(es.drop_last().drop_first() =~= es.drop_first().drop_last());
        assert(es.drop_first().last() == es.last());
        assert(concat(es.drop_first()) == concat(es.drop_first().drop_last()) + es.drop_first().last());
        assert(concat(es) =~= es[0] + concat(es.drop_first()));
    } else {
        assert(es.drop_last() =~= Seq::<Seq<u8>>::empty());
        assert(es.drop_first() =~= Seq::<Seq<u8>>::empty());
        assert(concat(es) =~= es[0] + concat(es.drop_first()));
    }
}

proof fn lemma_merge_suffix<M: Message>(m: M::V, k: nat)
    requires
        M::valid_model(m),
        k <= M::entries(m).len(),
    ensures
        M::merge_model(M::partial(m, k), concat(M::entries(m).skip(k as int))) == Some(m),
    decreases M::entries(m).len() - k,
{
    M::lemma_entries(m);
    let es = M::entries(m);
    let tail = es.skip(k as int);
    if k == es.len() {
        assert(tail =~= Seq::<Seq<u8>>::empty());
        M::lemma_merge_unfold(m, concat(tail));
    } else {
        let e = es[k as int];
        lemma_concat_front(tail);
        assert(tail.drop_first() =~= es.skip(k + 1 as int));
        let rest = concat(es.skip(k + 1 as int));
        let s = e + rest;
        assert(is_field_entry(e));
        lemma_parse_field_extend(e, rest);
        let f = parse_field(e).unwrap();
        assert(s.take(f.len as int) =~= e);
        assert(s.skip(f.len as int) =~= rest);
        lemma_parse_field_len(s);
        M::lemma_merge_unfold(M::partial(m, k), s);
        lemma_merge_suffix::<M>(m, k + 1);
    }
}

/// The encoding of a valid value merges back, into an empty value, to that
/// same value.
pub proof fn lemma_encoding_parses<M: Message>(m: M::V)
    requires
        M::valid_model(m),
    ensures
        M::merge_model(M::empty_model(), M::encoding(m)) == Some(m),
{
    M::lemma_entries(m);
    lemma_merge_suffix::<M>(m, 0);
    assert(M::entries(m).skip(0) =~= M::entries(m));
}

/// The entries of `s` that `M` does not read into its own fields, in order,
/// each as its exact bytes; `s` is read as far as it is well formed.
pub open spec fn unknown_entries<M: Message>(s: Seq<u8>) -> Seq<Seq<u8>>
    decreases s.len(),
{
    if s.len() == 0 {
        Seq::empty()
    } else {
        match parse_field(s) {
            None => Seq::empty(),
            Some(f) => if 1 <= f.len <= s.len() {
                if M::known_entry(f) {
                    unknown_entries::<M>(s.skip(f.len as int))
                } else {
                    seq![s.take(f.len as int)] + unknown_entries::<M>(s.skip(f.len as int))
                }
            } else {
                Seq::empty()
            },
        }
    }
}

/// Merging `s` into any value appends the entries of `s` that the schema
/// does not know, in order and byte for byte, to its unknown-field store.
pub proof fn lemma_merge_appends_unknown<M: Message>(m0: M::V, s: Seq<u8>)
    requires
        M::merge_model(m0, s) is Some,
    ensures
        M::unknown_model(M::merge_model(m0, s).unwrap()) == M::unknown_model(m0) + unknown_entries::<
            M,
        >(s),
    decreases s.len(),
{
    M::lemma_merge_unfold(m0, s);
    if s.len() == 0 {
        assert(M::unknown_model(m0) + unknown_entries::<M>(s) =~= M::unknown_model(m0));
    } else {
        let f = parse_field(s).unwrap();
        let raw = s.take(f.len as int);
        let rest = s.skip(f.len as int);
        M::lemma_unknown_fields(m0, f, raw, M::unknown_model(m0).push(raw));
        let m1 = M::apply_field(m0, f, raw).unwrap();
        lemma_merge_appends_unknown::<M>(m1, rest);
        if !M::known_entry(f) {
            assert(M::unknown_model(m0).push(raw) + unknown_entries::<M>(rest) =~= M::unknown_model(
                m0,
            ) + (seq![raw] + unknown_entries::<M>(rest)));
        }
    }
}

/// Parsing keeps every entry that the schema does not know, in order and
/// byte for byte, and writing the message back emits exactly those bytes
/// after its known fields.
pub proof fn lemma_unknown_preserved<M: Message>(s: Seq<u8>)
    requires
        M::merge_model(M::empty_model(), s) is Some,
    ensures
        M::unknown_model(M::merge_model(M::empty_model(), s).unwrap()) == unknown_entries::<M>(s),
        M::encoding(M::merge_model(M::empty_model(), s).unwrap()) == M::known_encoding(
            M::merge_model(M::empty_model(), s).unwrap(),
        ) + concat(unknown_entries::<M>(s)),
{
    let m = M::merge_model(M::empty_model(), s).unwrap();
    M::lemma_unknown_fields(M::empty_model(), arbitrary(), Seq::empty(), Seq::empty());
    M::lemma_unknown_fields(m, arbitrary(), Seq::empty(), Seq::empty());
    lemma_merge_appends_unknown::<M>(M::empty_model(), s);
    assert(Seq::<Seq<u8>>::empty() + unknown_entries::<M>(s) =~= unknown_entries::<M>(s));
}

/// Writing a valid message with its required fields set and parsing the
/// bytes back gives the same message.
pub proof fn lemma_round_trip<M: Message>(m: M::V)
    requires
        M::valid_model(m),
        M::missing_model(m) is None,
    ensures
        parse_result::<M>(M::encoding(m)) == Ok::<M::V, ProtobufError>(m),
{
    lemma_encoding_parses::<M>(m);
}

/// A length-delimited frame written for a valid message with its required
/// fields set parses back, whatever follows it, to that message, and the
/// parse consumes exactly the prefix and the number of bytes it declares.
pub proof fn lemma_length_delimited_round_trip<M: Message>(m: M::V, rest: Seq<u8>)
    requires
        M::valid_model(m),
        M::missing_model(m) is None,
        M::encoding(m).len() <= u64::MAX,
    ensures
        delimited_result::<M>(delimited_encoding::<M>(m) + rest) == Ok::<(M::V, nat), ProtobufError>(
            (m, delimited_encoding::<M>(m).len()),
        ),
{
    let body = M::encoding(m);
    let len = body.len() as u64;
    let s = delimited_encoding::<M>(m) + rest;
    lemma_varint_round_trip(len, body + rest);
    assert(s =~= varint(len) + (body + rest));
    let n = varint(len).len();
    assert(s.subrange(n as int, n + len) =~= body);
    lemma_encoding_parses::<M>(m);
}

/// The parse of a message whose required field is absent is refused with
/// `MessageNotInitialized` naming a missing field, even though the bytes themselves are well formed.
pub proof fn lemma_uninitialized_parse_refused<M: Message>(s: Seq<u8>)
    requires
        M::merge_model(M::empty_model(), s) is Some,
        M::missing_model(M::merge_model(M::empty_model(), s).unwrap()) is Some,
    ensures
        parse_result::<M>(s) == Err::<M::V, ProtobufError>(
            ProtobufError::MessageNotInitialized(
                M::missing_model(M::merge_model(M::empty_model(), s).unwrap()).unwrap(),
            ),
        ),
{
}

/// A closed enumeration backed by 32-bit integers.
pub trait ProtobufEnum: Sized {
    /// The integer this value stands for.
    spec fn value_spec(&self) -> i32;

    /// Whether some value of the enumeration stands for `v`.
    spec fn declared(v: i32) -> bool;

    /// The integer this value stands for.
    fn value(&self) -> (r: i32)
        ensures
            r == self.value_spec(),
    ;

    /// The value standing for `v`, or `None` when there is none; never an
    /// error, and never a value with another integer.
    fn from_i32(v: i32) -> (r: Option<Self>)
        ensures
            r is Some <==> Self::declared(v),
            r is Some ==> r->Some_0.value_spec() == v,
    ;
}

} // verus!
