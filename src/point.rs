//! A message with two required integer fields, and a small
//! enumeration: concrete types that meet the message and enumeration
//! contracts.
use vstd::prelude::*;
use crate::error::ProtobufResult;
use crate::message::{entry_of, Message, ProtobufEnum};
use crate::stream::{copy_range, CodedOutputStream, Field};
use crate::unknown::{concat, lemma_concat_append, lemma_concat_push, UnknownFields};
use crate::varint::{lemma_varint_len, varint, varint_size};
use crate::wire::{
    is_field_entry, lemma_varint_field, parse_field, tag, varint_field, FieldEntry, WIRE_VARINT,
};

verus! {

/// Field number of `x`.
pub const POINT_X: u32 = 1;

/// Field number of `y`.
pub const POINT_Y: u32 = 2;

/// The value of a `Point`: its two fields and its unknown entries.
pub struct PointModel {
    pub x: Option<i32>,
    pub y: Option<i32>,
    pub unknown: Seq<Seq<u8>>,
}

/// A 32-bit integer as the wire carries it: sign-extended to 64 bits.
pub open spec fn int32_wire(v: i32) -> u64 {
    (v as i64) as u64
}

/// Entries that `Point` reads into its own fields.
pub open spec fn point_known(f: FieldEntry) -> bool {
    (f.number == POINT_X || f.number == POINT_Y) && f.wire_type == WIRE_VARINT
}

/// The entry of an integer field, if it is set.
pub open spec fn int32_entries(number: u32, v: Option<i32>) -> Seq<Seq<u8>> {
    match v {
        Some(v) => seq![varint_field(number, int32_wire(v))],
        None => Seq::empty(),
    }
}

pub open spec fn point_entries(m: PointModel) -> Seq<Seq<u8>> {
    int32_entries(POINT_X, m.x) + int32_entries(POINT_Y, m.y) + m.unknown
}

/// `x`, then `y`, then the unknown entries as they were read.
pub open spec fn point_encoding(m: PointModel) -> Seq<u8> {
    concat(int32_entries(POINT_X, m.x)) + concat(int32_entries(POINT_Y, m.y)) + concat(m.unknown)
}

pub open spec fn point_apply(m: PointModel, f: FieldEntry, raw: Seq<u8>) -> PointModel {
    if f.number == POINT_X && f.wire_type == WIRE_VARINT {
        PointModel { x: Some(#[verifier::truncate] (f.value as i32)), ..m }
    } else if f.number == POINT_Y && f.wire_type == WIRE_VARINT {
        PointModel { y: Some(#[verifier::truncate] (f.value as i32)), ..m }
    } else {
        PointModel { unknown: m.unknown.push(raw), ..m }
    }
}

pub open spec fn point_merge(m: PointModel, s: Seq<u8>) -> Option<PointModel>
    decreases s.len(),
{
    if s.len() == 0 {
        Some(m)
    } else {
        match parse_field(s) {
            None => None,
            Some(f) => if 1 <= f.len <= s.len() {
                point_merge(point_apply(m, f, s.take(f.len as int)), s.skip(f.len as int))
            } else {
                None
            },
        }
    }
}

pub open spec fn empty_point() -> PointModel {
    PointModel { x: None, y: None, unknown: Seq::empty() }
}

/// An entry that `Point` keeps in its unknown-field store.
pub open spec fn valid_unknown(e: Seq<u8>) -> bool {
    is_field_entry(e) && !point_known(parse_field(e).unwrap())
}

pub open spec fn point_partial(m: PointModel, k: nat) -> PointModel {
    let nx = int32_entries(POINT_X, m.x).len();
    let ny = int32_entries(POINT_Y, m.y).len();
    PointModel {
        x: if k >= nx { m.x } else { None },
        y: if k >= nx + ny { m.y } else { None },
        unknown: if k >= nx + ny { m.unknown.take(k - nx - ny) } else { Seq::empty() },
    }
}

proof fn lemma_int32_wire(v: i32)
    ensures
        int32_wire(v) as i32 == v,
{
    assert(((v as i64) as u64) as i32 == v) by (bit_vector);
}

/// A point whose two fields, `x` and `y`, are both required.
#[derive(Clone, Debug)]
pub struct Point {
    x: Option<i32>,
    y: Option<i32>,
    unknown_fields: UnknownFields,
    cached_size: u32,
}

impl View for Point {
    type V = PointModel;

    closed spec fn view(&self) -> PointModel {
        PointModel { x: self.x, y: self.y, unknown: self.unknown_fields@ }
    }
}

impl Point {
    /// Whether `x` is set.
    pub fn has_x(&self) -> (r: bool)
        ensures
            r == (self@.x is Some),
    {
        self.x.is_some()
    }

    /// `x`, or zero when unset.
    pub fn get_x(&self) -> (r: i32)
        ensures
            r == (match self@.x {
                Some(v) => v,
                None => 0,
            }),
    {
        match self.x {
            Some(v) => v,
            None => 0,
        }
    }

    /// Sets `x`.
    pub fn set_x(&mut self, v: i32)
        ensures
            final(self)@ == (PointModel { x: Some(v), ..old(self)@ }),
    {
        self.x = Some(v);
    }

    /// Unsets `x`.
    pub fn clear_x(&mut self)
        ensures
            final(self)@ == (PointModel { x: None, ..old(self)@ }),
    {
        self.x = None;
    }

    /// Whether `y` is set.
    pub fn has_y(&self) -> (r: bool)
        ensures
            r == (self@.y is Some),
    {
        self.y.is_some()
    }

    /// `y`, or zero when unset.
    pub fn get_y(&self) -> (r: i32)
        ensures
            r == (match self@.y {
                Some(v) => v,
                None => 0,
            }),
    {
        match self.y {
            Some(v) => v,
            None => 0,
        }
    }

    /// Sets `y`.
    pub fn set_y(&mut self, v: i32)
        ensures
            final(self)@ == (PointModel { y: Some(v), ..old(self)@ }),
    {
        self.y = Some(v);
    }

    /// Unsets `y`.
    pub fn clear_y(&mut self)
        ensures
            final(self)@ == (PointModel { y: None, ..old(self)@ }),
    {
        self.y = None;
    }
}

impl Default for Point {
    fn default() -> (r: Point)
        ensures
            r@ == empty_point(),
    {
        Point::new()
    }
}

impl PartialEq for Point {
    fn eq(&self, o: &Point) -> (r: bool) {
        let same_unknown = self.unknown_fields == o.unknown_fields;
        self.x == o.x && self.y == o.y && same_unknown
    }
}

impl vstd::std_specs::cmp::PartialEqSpecImpl for Point {
    open spec fn obeys_eq_spec() -> bool {
        true
    }

    open spec fn eq_spec(&self, o: &Point) -> bool {
        self@ == o@
    }
}

impl Message for Point {
    open spec fn empty_model() -> PointModel {
        empty_point()
    }

    open spec fn missing_model(m: PointModel) -> Option<u32> {
        if m.x is None {
            Some(POINT_X)
        } else if m.y is None {
            Some(POINT_Y)
        } else {
            None
        }
    }

    open spec fn valid_model(m: PointModel) -> bool {
        forall|i: int| 0 <= i < m.unknown.len() ==> valid_unknown(#[trigger] m.unknown[i])
    }

    open spec fn encoding(m: PointModel) -> Seq<u8> {
        point_encoding(m)
    }

    open spec fn apply_field(m: PointModel, f: FieldEntry, raw: Seq<u8>) -> Option<PointModel> {
        Some(point_apply(m, f, raw))
    }

    open spec fn unknown_model(m: PointModel) -> Seq<Seq<u8>> {
        m.unknown
    }

    open spec fn with_unknown_model(m: PointModel, u: Seq<Seq<u8>>) -> PointModel {
        PointModel { unknown: u, ..m }
    }

    open spec fn known_entry(f: FieldEntry) -> bool {
        point_known(f)
    }

    open spec fn known_encoding(m: PointModel) -> Seq<u8> {
        concat(int32_entries(POINT_X, m.x)) + concat(int32_entries(POINT_Y, m.y))
    }

    proof fn lemma_unknown_fields(m: PointModel, f: FieldEntry, raw: Seq<u8>, u: Seq<Seq<u8>>) {
    }

    open spec fn merge_model(m: PointModel, s: Seq<u8>) -> Option<PointModel> {
        point_merge(m, s)
    }

    closed spec fn size_cached(&self) -> bool {
        self.cached_size == point_encoding(self@).len()
    }

    open spec fn entries(m: PointModel) -> Seq<Seq<u8>> {
        point_entries(m)
    }

    open spec fn partial(m: PointModel, k: nat) -> PointModel {
        point_partial(m, k)
    }

    proof fn lemma_merge_unfold(m: PointModel, s: Seq<u8>) {
        if s.len() == 0 {
            assert(point_merge(m, s) == Some(m));
        } else {
            if let Some(f) = parse_field(s) {
                if 1 <= f.len <= s.len() {
                    assert(Self::apply_field(m, f, s.take(f.len as int)) == Some(
                        point_apply(m, f, s.take(f.len as int)),
                    ));
                    assert(point_merge(m, s) == point_merge(
                        point_apply(m, f, s.take(f.len as int)),
                        s.skip(f.len as int),
                    ));
                }
            }
        }
    }

    proof fn lemma_entries(m: PointModel) {
        let ex = int32_entries(POINT_X, m.x);
        let ey = int32_entries(POINT_Y, m.y);
        let es = point_entries(m);
        lemma_concat_append(ex, ey);
        lemma_concat_append(ex + ey, m.unknown);
        assert(point_partial(m, 0).unknown =~= Seq::<Seq<u8>>::empty());
        assert(point_partial(m, 0) == empty_point());
        assert(m.unknown.take(m.unknown.len() as int) =~= m.unknown);
        assert forall|k: nat| k < es.len() implies {
            &&& is_field_entry(#[trigger] es[k as int])
            &&& Self::apply_field(point_partial(m, k), parse_field(es[k as int]).unwrap(), es[k as int])
                == Some(point_partial(m, k + 1))
        } by {
            let nx = ex.len();
            let ny = ey.len();
            assert(m.unknown.take(0) =~= Seq::<Seq<u8>>::empty());
            if k < nx {
                let v = m.x.unwrap();
                lemma_varint_field(POINT_X, int32_wire(v));
                lemma_int32_wire(v);
                assert(es[k as int] == varint_field(POINT_X, int32_wire(v)));
                let f = parse_field(es[k as int]).unwrap();
                assert(point_apply(point_partial(m, k), f, es[k as int]) == point_partial(m, k + 1));
            } else if k < nx + ny {
                let v = m.y.unwrap();
                lemma_varint_field(POINT_Y, int32_wire(v));
                lemma_int32_wire(v);
                assert(es[k as int] == varint_field(POINT_Y, int32_wire(v)));
                let f = parse_field(es[k as int]).unwrap();
                assert(point_apply(point_partial(m, k), f, es[k as int]) == point_partial(m, k + 1));
            } else {
                let j = k - nx - ny;
                assert(es[k as int] == m.unknown[j]);
                assert(valid_unknown(m.unknown[j]));
                assert(m.unknown.take(j).push(m.unknown[j]) =~= m.unknown.take(j + 1));
                let f = parse_field(es[k as int]).unwrap();
                assert(point_apply(point_partial(m, k), f, es[k as int]) == point_partial(m, k + 1));
            }
        }
    }

    fn new() -> (r: Point) {
        Point { x: None, y: None, unknown_fields: UnknownFields::new(), cached_size: 0 }
    }

    fn clear(&mut self) {
        self.x = None;
        self.y = None;
        self.unknown_fields.clear();
    }

    fn missing_field(&self) -> (r: Option<u32>) {
        if self.x.is_none() {
            Some(POINT_X)
        } else if self.y.is_none() {
            Some(POINT_Y)
        } else {
            None
        }
    }

    fn merge_field(&mut self, f: &Field) -> (r: ProtobufResult<()>) {
        if f.number == POINT_X && f.wire_type == WIRE_VARINT {
            self.x = Some(#[verifier::truncate] (f.value as i32));
        } else if f.number == POINT_Y && f.wire_type == WIRE_VARINT {
            self.y = Some(#[verifier::truncate] (f.value as i32));
        } else {
            let raw = copy_range(&f.raw, 0, f.raw.len());
            assert(raw@ =~= f.raw@);
            self.unknown_fields.add_entry(raw);
        }
        assert(Self::apply_field(old(self)@, entry_of(f), f.raw@) == Some(self@));
        Ok(())
    }

    fn compute_size(&mut self) -> (r: u32) {
        let ghost m = self@;
        proof {
            lemma_int32_entries_len(POINT_X, m.x);
            lemma_int32_entries_len(POINT_Y, m.y);
        }
        let mut size: u64 = self.unknown_fields.compute_size();
        if let Some(v) = self.x {
            size = size + 1 + varint_size(#[verifier::truncate] (v as i64 as u64)) as u64;
        }
        if let Some(v) = self.y {
            size = size + 1 + varint_size(#[verifier::truncate] (v as i64 as u64)) as u64;
        }
        assert(size == point_encoding(m).len());
        self.cached_size = size as u32;
        assert(self@ == m);
        assert(self.size_cached());
        self.cached_size
    }

    fn size_fits(&self) -> (r: bool) {
        let ghost m = self@;
        proof {
            lemma_int32_entries_len(POINT_X, m.x);
            lemma_int32_entries_len(POINT_Y, m.y);
        }
        let mut known: u64 = 0;
        if let Some(v) = self.x {
            known = known + 1 + varint_size(#[verifier::truncate] (v as i64 as u64)) as u64;
        }
        if let Some(v) = self.y {
            known = known + 1 + varint_size(#[verifier::truncate] (v as i64 as u64)) as u64;
        }
        self.unknown_fields.size_at_most(u32::MAX as u64 - known)
    }

    fn get_cached_size(&self) -> (r: u32) {
        self.cached_size
    }

    fn write_to_with_cached_sizes(&self, os: &mut CodedOutputStream) -> (r: ProtobufResult<()>) {
        let ghost m = self@;
        if let Some(v) = self.x {
            os.write_tag(POINT_X, WIRE_VARINT);
            os.write_raw_varint64(#[verifier::truncate] (v as i64 as u64));
        }
        assert(os@ =~= old(os)@ + concat(int32_entries(POINT_X, m.x))) by {
            lemma_concat_single(m.x, POINT_X);
        }
        let ghost mid = os@;
        if let Some(v) = self.y {
            os.write_tag(POINT_Y, WIRE_VARINT);
            os.write_raw_varint64(#[verifier::truncate] (v as i64 as u64));
        }
        assert(os@ =~= mid + concat(int32_entries(POINT_Y, m.y))) by {
            lemma_concat_single(m.y, POINT_Y);
        }
        self.unknown_fields.write_to(os);
        assert(os@ =~= old(os)@ + point_encoding(m));
        Ok(())
    }

    fn get_unknown_fields(&self) -> (r: &UnknownFields) {
        &self.unknown_fields
    }

    fn mut_unknown_fields(&mut self) -> (r: &mut UnknownFields) {
        &mut self.unknown_fields
    }
}

proof fn lemma_concat_single(v: Option<i32>, number: u32)
    ensures
        v is Some ==> concat(int32_entries(number, v)) == tag(number, WIRE_VARINT) + varint(
            int32_wire(v.unwrap()),
        ),
        v is None ==> concat(int32_entries(number, v)) == Seq::<u8>::empty(),
{
    if let Some(x) = v {
        lemma_concat_push(Seq::empty(), varint_field(number, int32_wire(x)));
        assert(Seq::<Seq<u8>>::empty().push(varint_field(number, int32_wire(x))) =~= int32_entries(
            number,
            v,
        ));
        assert(concat(Seq::<Seq<u8>>::empty()) + varint_field(number, int32_wire(x))
            =~= varint_field(number, int32_wire(x)));
    }
}

proof fn lemma_int32_entries_len(number: u32, v: Option<i32>)
    requires
        number == POINT_X || number == POINT_Y,
    ensures
        v is Some ==> concat(int32_entries(number, v)).len() == 1 + varint(int32_wire(v.unwrap())).len(),
        v is None ==> concat(int32_entries(number, v)).len() == 0,
{
    lemma_concat_single(v, number);
    if let Some(x) = v {
        assert(tag(number, WIRE_VARINT) == varint((number * 8) as u64));
        assert(tag(number, WIRE_VARINT).len() == 1);
        lemma_varint_len(int32_wire(x));
    }
}

/// A direction along one of the axes of a `Point`.
#[derive(Clone, Copy, Debug, PartialEq, Eq, Structural)]
pub enum Axis {
    Horizontal,
    Vertical,
}

impl ProtobufEnum for Axis {
    open spec fn value_spec(&self) -> i32 {
        match self {
            Axis::Horizontal => 1,
            Axis::Vertical => 2,
        }
    }

    open spec fn declared(v: i32) -> bool {
        v == 1 || v == 2
    }

    fn value(&self) -> (r: i32) {
        match self {
            Axis::Horizontal => 1,
            Axis::Vertical => 2,
        }
    }

    fn from_i32(v: i32) -> (r: Option<Axis>) {
        if v == 1 {
            Some(Axis::Horizontal)
        } else if v == 2 {
            Some(Axis::Vertical)
        } else {
            None
        }
    }
}

} // verus!
