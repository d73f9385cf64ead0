//! Base-128 variable-length unsigned integers: the encoding used for tags,
//! lengths and integer payloads of the wire format.
use vstd::prelude::*;

verus! {

/// The largest number of bytes a 64-bit varint occupies.
pub const MAX_VARINT_LEN: usize = 10;

/// The canonical (shortest) encoding of `v`: seven bits per byte, least
/// significant group first, high bit set on every byte but the last.
pub open spec fn varint(v: u64) -> Seq<u8>
    decreases v,
{
    if v < 128 {
        seq![v as u8]
    } else {
        seq![(v % 128 + 128) as u8] + varint(v / 128)
    }
}

/// Reads one varint from the front of `s`, looking at no more than `fuel`
/// bytes: the value and the number of bytes it took, or `None` when the
/// input ends first, runs over `fuel` bytes, or the value exceeds 64 bits.
pub open spec fn varint_parse(s: Seq<u8>, fuel: nat) -> Option<(u64, nat)>
    decreases fuel,
{
    if fuel == 0 || s.len() == 0 {
        None
    } else if s[0] < 128 {
        Some((s[0] as u64, 1))
    } else {
        match varint_parse(s.drop_first(), (fuel - 1) as nat) {
            None => None,
            Some((hi, n)) => {
                let v = hi as int * 128 + (s[0] - 128);
                if v <= u64::MAX {
                    Some((v as u64, n + 1))
                } else {
                    None
                }
            },
        }
    }
}

/// Reads one varint of at most ten bytes from the front of `s`.
pub open spec fn parse_varint(s: Seq<u8>) -> Option<(u64, nat)> {
    varint_parse(s, MAX_VARINT_LEN as nat)
}

pub open spec fn pow128(k: nat) -> int
    decreases k,
{
    if k == 0 {
        1
    } else {
        128 * pow128((k - 1) as nat)
    }
}

proof fn lemma_varint_len_bound(v: u64, k: nat)
    requires
        k >= 1,
        v < pow128(k),
    ensures
        1 <= varint(v).len() <= k,
    decreases v,
{
    if v >= 128 {
        if k == 1 {
            assert(pow128(0) == 1);
        } else {
            let p = pow128((k - 1) as nat);
            assert(v / 128 < p) by (nonlinear_arith)
                requires
                    v < 128 * p,
                    p >= 0,
            ;
            lemma_varint_len_bound(v / 128, (k - 1) as nat);
        }
    }
}

/// Every 64-bit value encodes in one to ten bytes.
pub proof fn lemma_varint_len(v: u64)
    ensures
        1 <= varint(v).len() <= MAX_VARINT_LEN,
{
    reveal_with_fuel(pow128, 11);
    assert(pow128(10) == 1180591620717411303424);
    lemma_varint_len_bound(v, 10);
}

proof fn lemma_varint_parse_fuel(v: u64, rest: Seq<u8>, fuel: nat)
    requires
        fuel >= varint(v).len(),
    ensures
        varint_parse(varint(v) + rest, fuel) == Some((v, varint(v).len())),
    decreases v,
{
    let s = varint(v) + rest;
    if v >= 128 {
        let hi = v / 128;
        assert(s.drop_first() =~= varint(hi) + rest);
        lemma_varint_parse_fuel(hi, rest, (fuel - 1) as nat);
    }
}

/// Reading back the encoding of `v`, whatever follows it, gives `v` and
/// consumes exactly the encoding.
pub proof fn lemma_varint_round_trip(v: u64, rest: Seq<u8>)
    ensures
        parse_varint(varint(v) + rest) == Some((v, varint(v).len())),
{
    lemma_varint_len(v);
    lemma_varint_parse_fuel(v, rest, MAX_VARINT_LEN as nat);
}

/// A successful parse consumes between one and `fuel` bytes of its input.
pub proof fn lemma_varint_parse_len(s: Seq<u8>, fuel: nat)
    ensures
        varint_parse(s, fuel) is Some ==> 1 <= varint_parse(s, fuel).unwrap().1 <= s.len()
            && varint_parse(s, fuel).unwrap().1 <= fuel,
    decreases fuel,
{
    if fuel > 0 && s.len() > 0 && s[0] >= 128 {
        lemma_varint_parse_len(s.drop_first(), (fuel - 1) as nat);
    }
}

/// What a parse reads depends only on the bytes it consumed.
pub proof fn lemma_varint_parse_prefix(s: Seq<u8>, t: Seq<u8>, fuel: nat)
    requires
        varint_parse(s, fuel) is Some,
        t.len() >= varint_parse(s, fuel).unwrap().1,
        forall|i: int| 0 <= i < varint_parse(s, fuel).unwrap().1 ==> t[i] == s[i],
    ensures
        varint_parse(t, fuel) == varint_parse(s, fuel),
    decreases fuel,
{
    lemma_varint_parse_len(s, fuel);
    let n = varint_parse(s, fuel).unwrap().1;
    assert(t[0] == s[0]);
    if s[0] >= 128 {
        let m = varint_parse(s.drop_first(), (fuel - 1) as nat).unwrap().1;
        assert forall|i: int| 0 <= i < m implies t.drop_first()[i] == s.drop_first()[i] by {
            assert(t[i + 1] == s[i + 1]);
        }
        lemma_varint_parse_prefix(s.drop_first(), t.drop_first(), (fuel - 1) as nat);
    }
}

/// Number of bytes in the encoding of `v`.
pub fn varint_size(v: u64) -> (r: usize)
    ensures
        r == varint(v).len(),
        1 <= r <= MAX_VARINT_LEN,
    decreases v,
{
    proof {
        lemma_varint_len(v);
    }
    if v < 128 {
        1
    } else {
        1 + varint_size(v / 128)
    }
}

/// Whether bytes read one at a time from the front of a varint are enough
/// to stop: the last one ends the varint, or the longest varint has been read.
pub fn varint_prefix_complete(bytes: &Vec<u8>) -> (r: bool)
    ensures
        r == (bytes@.len() >= MAX_VARINT_LEN || (bytes@.len() > 0 && bytes@.last() < 128)),
{
    let n = bytes.len();
    n >= MAX_VARINT_LEN || (n > 0 && bytes[n - 1] < 128)
}

/// Appends the encoding of `v` to `out`.
pub fn write_varint(out: &mut Vec<u8>, v: u64)
    ensures
        final(out)@ == old(out)@ + varint(v),
    decreases v,
{
    if v < 128 {
        out.push(v as u8);
        assert(final(out)@ =~= old(out)@ + varint(v));
    } else {
        out.push((v % 128 + 128) as u8);
        write_varint(out, v / 128);
        assert(final(out)@ =~= old(out)@ + varint(v));
    }
}

fn read_varint_fuel(buf: &Vec<u8>, pos: usize, end: usize, fuel: usize) -> (r: Option<(u64, usize)>)
    requires
        pos <= end <= buf@.len(),
    ensures
        match varint_parse(buf@.subrange(pos as int, end as int), fuel as nat) {
            Some((v, n)) => r is Some && r.unwrap().0 == v && r.unwrap().1 == pos + n,
            None => r is None,
        },
        r is Some ==> pos < r.unwrap().1 <= end,
    decreases fuel,
{
    let ghost s = buf@.subrange(pos as int, end as int);
    if fuel == 0 || pos == end {
        return None;
    }
    let b = buf[pos];
    if b < 128 {
        Some((b as u64, pos + 1))
    } else {
        assert(s.drop_first() =~= buf@.subrange(pos + 1, end as int));
        match read_varint_fuel(buf, pos + 1, end, fuel - 1) {
            None => None,
            Some((hi, next)) => {
                if hi <= (u64::MAX - (b - 128) as u64) / 128 {
                    Some((hi * 128 + (b - 128) as u64, next))
                } else {
                    None
                }
            },
        }
    }
}

/// Reads one varint from `buf[pos..end]`: its value and the position just
/// after it.
pub fn read_varint(buf: &Vec<u8>, pos: usize, end: usize) -> (r: Option<(u64, usize)>)
    requires
        pos <= end <= buf@.len(),
    ensures
        match parse_varint(buf@.subrange(pos as int, end as int)) {
            Some((v, n)) => r is Some && r.unwrap().0 == v && r.unwrap().1 == pos + n,
            None => r is None,
        },
        r is Some ==> pos < r.unwrap().1 <= end,
{
    read_varint_fuel(buf, pos, end, MAX_VARINT_LEN)
}

} // verus!
