//! Little-endian integers, length-prefixed byte strings and the terminator
//! scan.
use vstd::prelude::*;

verus! {

/// The four bytes of `v`, least significant first.
pub open spec fn le_u32(v: u32) -> Seq<u8> {
    seq![(v & 0xff) as u8, ((v >> 8u32) & 0xff) as u8, ((v >> 16u32) & 0xff) as u8, ((v >> 24u32) & 0xff) as u8]
}

/// The two bytes of `v`, least significant first.
pub open spec fn le_u16(v: u16) -> Seq<u8> {
    seq![(v & 0xff) as u8, ((v >> 8u16) & 0xff) as u8]
}

/// The integer whose little-endian bytes are `b0 b1 b2 b3`.
pub open spec fn u32_of(b0: u8, b1: u8, b2: u8, b3: u8) -> u32 {
    (b0 as u32) | ((b1 as u32) << 8u32) | ((b2 as u32) << 16u32) | ((b3 as u32) << 24u32)
}

/// The integer whose little-endian bytes are `b0 b1`.
pub open spec fn u16_of(b0: u8, b1: u8) -> u16 {
    (b0 as u16) | ((b1 as u16) << 8u16)
}

/// Decodes a `u32` from the front of `d`, giving the rest.
pub open spec fn take_u32(d: Seq<u8>) -> Option<(u32, Seq<u8>)> {
    if d.len() >= 4 {
        Some((u32_of(d[0], d[1], d[2], d[3]), d.subrange(4, d.len() as int)))
    } else {
        None
    }
}

/// Decodes a `u16` from the front of `d`, giving the rest.
pub open spec fn take_u16(d: Seq<u8>) -> Option<(u16, Seq<u8>)> {
    if d.len() >= 2 {
        Some((u16_of(d[0], d[1]), d.subrange(2, d.len() as int)))
    } else {
        None
    }
}

/// Decodes a length-prefixed byte string from the front of `d`, giving the rest.
pub open spec fn take_bstr(d: Seq<u8>) -> Option<(Seq<u8>, Seq<u8>)> {
    match take_u32(d) {
        Some((n, r)) => if n <= r.len() {
            Some((r.subrange(0, n as int), r.subrange(n as int, r.len() as int)))
        } else {
            None
        },
        None => None,
    }
}

/// A length-prefixed byte string: its length as a `u32`, then its bytes.
pub open spec fn bstr(b: Seq<u8>) -> Seq<u8> {
    le_u32(b.len() as u32) + b
}

pub proof fn lemma_u32_round(v: u32)
    ensures
        u32_of(le_u32(v)[0], le_u32(v)[1], le_u32(v)[2], le_u32(v)[3]) == v,
{
    let b0 = (v & 0xff) as u8;
    let b1 = ((v >> 8u32) & 0xff) as u8;
    let b2 = ((v >> 16u32) & 0xff) as u8;
    let b3 = ((v >> 24u32) & 0xff) as u8;
    assert(u32_of(b0, b1, b2, b3) == v) by (bit_vector)
        requires
            b0 == (v & 0xff) as u8,
            b1 == ((v >> 8u32) & 0xff) as u8,
            b2 == ((v >> 16u32) & 0xff) as u8,
            b3 == ((v >> 24u32) & 0xff) as u8,
    ;
}

pub proof fn lemma_u16_round(v: u16)
    ensures
        u16_of(le_u16(v)[0], le_u16(v)[1]) == v,
{
    let b0 = (v & 0xff) as u8;
    let b1 = ((v >> 8u16) & 0xff) as u8;
    assert(u16_of(b0, b1) == v) by (bit_vector)
        requires
            b0 == (v & 0xff) as u8,
            b1 == ((v >> 8u16) & 0xff) as u8,
    ;
}

/// Decoding the bytes of `v` in front of any rest gives `v` and that rest.
pub proof fn lemma_take_u32(v: u32, rest: Seq<u8>)
    ensures
        take_u32(le_u32(v) + rest) == Some((v, rest)),
{
    lemma_u32_round(v);
    let d = le_u32(v) + rest;
    assert(d.subrange(4, d.len() as int) =~= rest);
}

pub proof fn lemma_take_u16(v: u16, rest: Seq<u8>)
    ensures
        take_u16(le_u16(v) + rest) == Some((v, rest)),
{
    lemma_u16_round(v);
    let d = le_u16(v) + rest;
    assert(d.subrange(2, d.len() as int) =~= rest);
}

pub proof fn lemma_take_bstr(b: Seq<u8>, rest: Seq<u8>)
    requires
        b.len() <= u32::MAX,
    ensures
        take_bstr(bstr(b) + rest) == Some((b, rest)),
{
    let d = bstr(b) + rest;
    assert(d =~= le_u32(b.len() as u32) + (b + rest));
    lemma_take_u32(b.len() as u32, b + rest);
    assert((b + rest).subrange(0, b.len() as int) =~= b);
    assert((b + rest).subrange(b.len() as int, (b + rest).len() as int) =~= rest);
}

/// Reads the `u32` stored at `pos`, if four bytes are there.
pub fn read_u32(d: &[u8], pos: usize) -> (r: Option<u32>)
    ensures
        pos + 4 <= d@.len() ==> r == Some(u32_of(d@[pos as int], d@[pos + 1], d@[pos + 2], d@[pos + 3])),
        pos + 4 > d@.len() ==> r is None,
{
    if pos > d.len() || d.len() - pos < 4 {
        return None;
    }
    let b0 = d[pos];
    let b1 = d[pos + 1];
    let b2 = d[pos + 2];
    let b3 = d[pos + 3];
    Some((b0 as u32) | ((b1 as u32) << 8u32) | ((b2 as u32) << 16u32) | ((b3 as u32) << 24u32))
}

/// Reads the `u16` stored at `pos`, if two bytes are there.
pub fn read_u16(d: &[u8], pos: usize) -> (r: Option<u16>)
    ensures
        pos + 2 <= d@.len() ==> r == Some(u16_of(d@[pos as int], d@[pos + 1])),
        pos + 2 > d@.len() ==> r is None,
{
    if pos > d.len() || d.len() - pos < 2 {
        return None;
    }
    let b0 = d[pos];
    let b1 = d[pos + 1];
    Some((b0 as u16) | ((b1 as u16) << 8u16))
}

/// Appends the four little-endian bytes of `v`.
pub fn push_u32(out: &mut Vec<u8>, v: u32)
    ensures
        final(out)@ == old(out)@ + le_u32(v),
{
    out.push((v & 0xff) as u8);
    out.push(((v >> 8u32) & 0xff) as u8);
    out.push(((v >> 16u32) & 0xff) as u8);
    out.push(((v >> 24u32) & 0xff) as u8);
    assert(final(out)@ =~= old(out)@ + le_u32(v));
}

/// Appends the two little-endian bytes of `v`.
pub fn push_u16(out: &mut Vec<u8>, v: u16)
    ensures
        final(out)@ == old(out)@ + le_u16(v),
{
    out.push((v & 0xff) as u8);
    out.push(((v >> 8u16) & 0xff) as u8);
    assert(final(out)@ =~= old(out)@ + le_u16(v));
}

/// Appends every byte of `b`.
pub fn push_all(out: &mut Vec<u8>, b: &[u8])
    ensures
        final(out)@ == old(out)@ + b@,
{
    let mut i: usize = 0;
    while i < b.len()
        invariant
            i <= b@.len(),
            out@ == old(out)@ + b@.subrange(0, i as int),
        decreases b@.len() - i,
    {
        out.push(b[i]);
        i = i + 1;
        assert(out@ =~= old(out)@ + b@.subrange(0, i as int));
    }
    assert(b@.subrange(0, i as int) =~= b@);
}

/// Appends `b` as a length-prefixed byte string.
pub fn write_bstr(out: &mut Vec<u8>, b: &[u8])
    requires
        b@.len() <= u32::MAX,
    ensures
        final(out)@ == old(out)@ + bstr(b@),
{
    push_u32(out, b.len() as u32);
    push_all(out, b);
    assert(final(out)@ =~= old(out)@ + bstr(b@));
}

/// The bytes `d[start..end]`, copied.
pub fn copy_range(d: &[u8], start: usize, end: usize) -> (r: Vec<u8>)
    requires
        start <= end <= d@.len(),
    ensures
        r@ == d@.subrange(start as int, end as int),
{
    let mut r: Vec<u8> = Vec::new();
    let mut i: usize = start;
    while i < end
        invariant
            start <= i <= end <= d@.len(),
            r@ == d@.subrange(start as int, i as int),
        decreases end - i,
    {
        r.push(d[i]);
        i = i + 1;
        assert(r@ =~= d@.subrange(start as int, i as int));
    }
    r
}

/// Whether `a` and `b` hold the same bytes.
pub fn bytes_eq(a: &[u8], b: &[u8]) -> (r: bool)
    ensures
        r == (a@ == b@),
{
    if a.len() != b.len() {
        return false;
    }
    let mut i: usize = 0;
    while i < a.len()
        invariant
            a@.len() == b@.len(),
            i <= a@.len(),
            a@.subrange(0, i as int) == b@.subrange(0, i as int),
        decreases a@.len() - i,
    {
        if a[i] != b[i] {
            assert(a@[i as int] != b@[i as int]);
            return false;
        }
        assert(a@.subrange(0, i + 1) =~= a@.subrange(0, i as int).push(a@[i as int]));
        assert(b@.subrange(0, i + 1) =~= b@.subrange(0, i as int).push(b@[i as int]));
        i = i + 1;
    }
    assert(a@ =~= a@.subrange(0, i as int));
    assert(b@ =~= b@.subrange(0, i as int));
    true
}

/// Whether `needle` ends at position `n` of `hay`.
pub open spec fn ends_at(hay: Seq<u8>, needle: Seq<u8>, n: int) -> bool {
    needle.len() <= n <= hay.len() && hay.subrange(n - needle.len(), n) == needle
}

/// The first position at or after `n` at which `needle` ends in `hay`.
pub open spec fn first_end_from(hay: Seq<u8>, needle: Seq<u8>, n: nat) -> Option<nat>
    decreases hay.len() + 1 - n,
{
    if n > hay.len() {
        None
    } else if ends_at(hay, needle, n as int) {
        Some(n)
    } else {
        first_end_from(hay, needle, n + 1)
    }
}

/// The first position at which `needle` ends in `hay`.
pub open spec fn first_end(hay: Seq<u8>, needle: Seq<u8>) -> Option<nat> {
    first_end_from(hay, needle, 0)
}

/// What `first_end_from` finds is an end of `needle`, with none between `n` and it.
pub proof fn lemma_first_end_from(hay: Seq<u8>, needle: Seq<u8>, n: nat)
    ensures
        match first_end_from(hay, needle, n) {
            Some(e) => n <= e && ends_at(hay, needle, e as int) && forall|m: int|
                n <= m < e ==> !ends_at(hay, needle, m),
            None => forall|m: int| n <= m ==> !ends_at(hay, needle, m),
        },
    decreases hay.len() + 1 - n,
{
    if n > hay.len() {
    } else if ends_at(hay, needle, n as int) {
    } else {
        lemma_first_end_from(hay, needle, n + 1);
    }
}

/// `first_end` finds the first end of `needle`, and none means there is none.
pub proof fn lemma_first_end(hay: Seq<u8>, needle: Seq<u8>)
    ensures
        match first_end(hay, needle) {
            Some(e) => ends_at(hay, needle, e as int) && forall|m: int|
                0 <= m < e ==> !ends_at(hay, needle, m),
            None => forall|m: int| !ends_at(hay, needle, m),
        },
{
    lemma_first_end_from(hay, needle, 0);
}

/// Where the first occurrence of `needle` in `hay` ends, if it occurs.
pub fn find_end(hay: &[u8], needle: &[u8]) -> (r: Option<usize>)
    ensures
        r matches Some(e) ==> first_end(hay@, needle@) == Some(e as nat),
        r is None ==> first_end(hay@, needle@) is None,
{
    let mut n: usize = 0;
    while n <= hay.len()
        invariant
            n <= hay@.len() + 1,
            first_end(hay@, needle@) == first_end_from(hay@, needle@, n as nat),
        decreases hay@.len() + 1 - n,
    {
        if n >= needle.len() {
            let s = n - needle.len();
            let mut k: usize = 0;
            let mut same = true;
            assert(hay@.subrange(s as int, s as int) =~= needle@.subrange(0, 0));
            while k < needle.len()
                invariant
                    s + needle@.len() == n <= hay@.len(),
                    k <= needle@.len(),
                    same == (hay@.subrange(s as int, (s + k) as int) == needle@.subrange(0, k as int)),
                decreases needle@.len() - k,
            {
                if hay[s + k] != needle[k] {
                    same = false;
                    assert(hay@.subrange(s as int, (s + k + 1) as int)[k as int] != needle@.subrange(0, k + 1)[k as int]);
                } else if same {
                    assert(hay@.subrange(s as int, (s + k + 1) as int) =~= hay@.subrange(s as int, (s + k) as int).push(hay@[(s + k) as int]));
                    assert(needle@.subrange(0, k + 1) =~= needle@.subrange(0, k as int).push(needle@[k as int]));
                }
                if !same {
                    assert(hay@.subrange(s as int, (s + k + 1) as int) != needle@.subrange(0, k + 1)) by {
                        if hay@.subrange(s as int, (s + k + 1) as int) == needle@.subrange(0, k + 1) {
                            assert(hay@.subrange(s as int, (s + k) as int) =~= hay@.subrange(s as int, (s + k + 1) as int).subrange(0, k as int));
                            assert(needle@.subrange(0, k as int) =~= needle@.subrange(0, k + 1).subrange(0, k as int));
                        }
                    }
                }
                k = k + 1;
            }
            assert(needle@.subrange(0, k as int) =~= needle@);
            if same {
                return Some(n);
            }
        }
        assert(!ends_at(hay@, needle@, n as int));
        assert(first_end_from(hay@, needle@, n as nat) == first_end_from(hay@, needle@, (n + 1) as nat));
        if n == hay.len() {
            return None;
        }
        n = n + 1;
    }
    None
}

} // verus!
