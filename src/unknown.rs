//! The store of field entries that a message's schema does not know.
use vstd::prelude::*;
use crate::stream::CodedOutputStream;

verus! {

/// All entries of `s`, one after another.
pub open spec fn concat(s: Seq<Seq<u8>>) -> Seq<u8>
    decreases s.len(),
{
    if s.len() == 0 {
        Seq::empty()
    } else {
        concat(s.drop_last()) + s.last()
    }
}

/// Appending one entry appends its bytes.
pub proof fn lemma_concat_push(s: Seq<Seq<u8>>, e: Seq<u8>)
    ensures
        concat(s.push(e)) == concat(s) + e,
{
    assert(s.push(e).drop_last() =~= s);
}

/// Entries of two lists laid end to end.
pub proof fn lemma_concat_append(a: Seq<Seq<u8>>, b: Seq<Seq<u8>>)
    ensures
        concat(a + b) == concat(a) + concat(b),
    decreases b.len(),
{
    if b.len() == 0 {
        assert(a + b =~= a);
        assert(concat(a) + concat(b) =~= concat(a));
    } else {
        lemma_concat_append(a, b.drop_last());
        assert((a + b).drop_last() =~= a + b.drop_last());
        assert(concat(a + b) =~= concat(a) + concat(b));
    }
}

/// Field entries kept in the order they were read, each as the exact bytes
/// it occupied on the wire (tag included), so that writing them back
/// reproduces the input.
#[derive(Clone, Debug)]
pub struct UnknownFields {
    entries: Vec<Vec<u8>>,
}

impl View for UnknownFields {
    type V = Seq<Seq<u8>>;

    closed spec fn view(&self) -> Seq<Seq<u8>> {
        Seq::new(self.entries@.len(), |i: int| self.entries@[i]@)
    }
}

impl UnknownFields {
    /// An empty store.
    pub fn new() -> (r: UnknownFields)
        ensures
            r@ == Seq::<Seq<u8>>::empty(),
    {
        let r = UnknownFields { entries: Vec::new() };
        assert(r@ =~= Seq::<Seq<u8>>::empty());
        r
    }

    /// Appends one entry.
    pub fn add_entry(&mut self, raw: Vec<u8>)
        ensures
            final(self)@ == old(self)@.push(raw@),
    {
        self.entries.push(raw);
        assert(final(self)@ =~= old(self)@.push(raw@));
    }

    /// Removes every entry.
    pub fn clear(&mut self)
        ensures
            final(self)@ == Seq::<Seq<u8>>::empty(),
    {
        self.entries.clear();
        assert(final(self)@ =~= Seq::<Seq<u8>>::empty());
    }

    /// Number of entries.
    pub fn len(&self) -> (r: usize)
        ensures
            r == self@.len(),
    {
        self.entries.len()
    }

    /// Whether the store holds no entry.
    pub fn is_empty(&self) -> (r: bool)
        ensures
            r == (self@.len() == 0),
    {
        self.entries.len() == 0
    }

    /// The bytes of the entry at `i`.
    pub fn get(&self, i: usize) -> (r: &[u8])
        requires
            i < self@.len(),
        ensures
            r@ == self@[i as int],
    {
        self.entries[i].as_slice()
    }

    /// Total encoded size of the entries.
    pub fn compute_size(&self) -> (r: u64)
        requires
            concat(self@).len() <= u64::MAX,
        ensures
            r == concat(self@).len(),
    {
        let mut total: u64 = 0;
        let mut i: usize = 0;
        while i < self.entries.len()
            invariant
                i <= self@.len(),
                concat(self@).len() <= u64::MAX,
                total == concat(self@.subrange(0, i as int)).len(),
            decreases self@.len() - i,
        {
            proof {
                lemma_concat_push(self@.subrange(0, i as int), self@[i as int]);
                assert(self@.subrange(0, i + 1) =~= self@.subrange(0, i as int).push(
                    self@[i as int],
                ));
                lemma_concat_prefix_len(self@, i + 1);
            }
            total = total + self.entries[i].len() as u64;
            i = i + 1;
        }
        assert(self@.subrange(0, i as int) =~= self@);
        total
    }

    /// Whether the entries take at most `limit` bytes in all.
    pub fn size_at_most(&self, limit: u64) -> (r: bool)
        ensures
            r == (concat(self@).len() <= limit),
    {
        let mut total: u64 = 0;
        let mut i: usize = 0;
        while i < self.entries.len()
            invariant
                i <= self@.len(),
                total <= limit,
                total == concat(self@.subrange(0, i as int)).len(),
            decreases self@.len() - i,
        {
            proof {
                lemma_concat_push(self@.subrange(0, i as int), self@[i as int]);
                assert(self@.subrange(0, i + 1) =~= self@.subrange(0, i as int).push(
                    self@[i as int],
                ));
            }
            let len = self.entries[i].len() as u64;
            if len > limit - total {
                proof {
                    lemma_concat_prefix_len(self@, i + 1);
                }
                return false;
            }
            total = total + len;
            i = i + 1;
        }
        assert(self@.subrange(0, i as int) =~= self@);
        true
    }

    /// Appends every entry, in order, to `os`.
    pub fn write_to(&self, os: &mut CodedOutputStream)
        ensures
            final(os)@ == old(os)@ + concat(self@),
    {
        let mut i: usize = 0;
        while i < self.entries.len()
            invariant
                i <= self@.len(),
                os@ == old(os)@ + concat(self@.subrange(0, i as int)),
            decreases self@.len() - i,
        {
            proof {
                lemma_concat_push(self@.subrange(0, i as int), self@[i as int]);
                assert(self@.subrange(0, i + 1) =~= self@.subrange(0, i as int).push(
                    self@[i as int],
                ));
            }
            os.write_raw_bytes(self.entries[i].as_slice());
            i = i + 1;
            assert(os@ =~= old(os)@ + concat(self@.subrange(0, i as int)));
        }
        assert(self@.subrange(0, i as int) =~= self@);
    }
}

fn bytes_equal(a: &Vec<u8>, b: &Vec<u8>) -> (r: bool)
    ensures
        r == (a@ == b@),
{
    if a.len() != b.len() {
        return false;
    }
    let mut i: usize = 0;
    while i < a.len()
        invariant
            a@.len() == b@.len(),
            i <= a@.len(),
            forall|j: int| 0 <= j < i ==> a@[j] == b@[j],
        decreases a@.len() - i,
    {
        if a[i] != b[i] {
            return false;
        }
        i = i + 1;
    }
    assert(a@ =~= b@);
    true
}

impl PartialEq for UnknownFields {
    fn eq(&self, o: &UnknownFields) -> (r: bool) {
        if self.entries.len() != o.entries.len() {
            return false;
        }
        let mut i: usize = 0;
        while i < self.entries.len()
            invariant
                self@.len() == o@.len(),
                i <= self@.len(),
                forall|j: int| 0 <= j < i ==> self@[j] == o@[j],
            decreases self@.len() - i,
        {
            if !bytes_equal(&self.entries[i], &o.entries[i]) {
                assert(self@[i as int] != o@[i as int]);
                return false;
            }
            i = i + 1;
        }
        assert(self@ =~= o@);
        true
    }
}

impl vstd::std_specs::cmp::PartialEqSpecImpl for UnknownFields {
    open spec fn obeys_eq_spec() -> bool {
        true
    }

    open spec fn eq_spec(&self, o: &UnknownFields) -> bool {
        self@ == o@
    }
}

/// The entries of a prefix take no more bytes than all entries.
proof fn lemma_concat_prefix_len(s: Seq<Seq<u8>>, k: int)
    requires
        0 <= k <= s.len(),
    ensures
        concat(s.subrange(0, k)).len() <= concat(s).len(),
    decreases s.len() - k,
{
    if k < s.len() {
        lemma_concat_push(s.subrange(0, k), s[k]);
        assert(s.subrange(0, k + 1) =~= s.subrange(0, k).push(s[k]));
        lemma_concat_prefix_len(s, k + 1);
    } else {
        assert(s.subrange(0, k) =~= s);
    }
}

} // verus!
