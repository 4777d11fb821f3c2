//! A byte range of an archive: held in memory, or kept as offsets into
//! the archive's bytes and copied out when asked for.
use vstd::prelude::*;

use crate::bytes::{copy_range, push_all, read_u16, read_u32, take_bstr, take_u16, take_u32};

verus! {

/// A stub, alias, metadata string or file name.
pub enum Section {
    /// The bytes themselves.
    Cached(Vec<u8>),
    /// The bytes from `start` up to `end` of the archive.
    Offset(u64, u64),
}

impl Section {
    /// The bytes that the section stands for, in the archive `d`.
    pub open spec fn bytes(&self, d: Seq<u8>) -> Seq<u8> {
        match self {
            Section::Cached(v) => v@,
            Section::Offset(s, e) => d.subrange(*s as int, *e as int),
        }
    }

    /// Whether the offsets lie in the archive `d`.
    pub open spec fn within(&self, d: Seq<u8>) -> bool {
        match self {
            Section::Cached(_) => true,
            Section::Offset(s, e) => *s <= *e <= d.len(),
        }
    }

    /// An empty section, held in memory or starting at `start`.
    pub fn create(cache: bool, start: u64) -> (r: Self)
        ensures
            cache ==> (r matches Section::Cached(v) && v@.len() == 0),
            !cache ==> r == Section::Offset(start, start),
    {
        if cache {
            Section::Cached(Vec::new())
        } else {
            Section::Offset(start, start)
        }
    }

    /// Extends the section by `b`, which follows it in the archive.
    pub fn feed(&mut self, b: &[u8])
        requires
            *old(self) matches Section::Offset(_, e) ==> e + b@.len() <= u64::MAX,
        ensures
            match (*old(self), *final(self)) {
                (Section::Cached(v0), Section::Cached(v1)) => v1@ == v0@ + b@,
                (Section::Offset(s0, e0), Section::Offset(s1, e1)) => s1 == s0 && e1 == e0 + b@.len(),
                _ => false,
            },
    {
        match self {
            Section::Cached(v) => push_all(v, b),
            Section::Offset(_, e) => {
                *e = *e + b.len() as u64;
            },
        }
    }

    /// The number of bytes of the section.
    pub fn len(&self, Ghost(d): Ghost<Seq<u8>>) -> (r: u64)
        requires
            self.within(d),
        ensures
            r == self.bytes(d).len(),
    {
        match self {
            Section::Cached(v) => v.len() as u64,
            Section::Offset(s, e) => *e - *s,
        }
    }

    /// The bytes of the section, copied out of the archive `d` where needed.
    pub fn as_memory(&self, d: &[u8]) -> (r: Vec<u8>)
        requires
            self.within(d@),
        ensures
            r@ == self.bytes(d@),
    {
        let n = d.len();
        match self {
            Section::Cached(v) => {
                let r = copy_range(v.as_slice(), 0, v.len());
                assert(r@ =~= v@);
                r
            },
            Section::Offset(s, e) => {
                assert(*e <= n);
                copy_range(d, *s as usize, *e as usize)
            },
        }
    }

    /// Takes `len` bytes of `d` at `pos`, before `end`, into an empty section
    /// that starts at `pos`; gives the position after them.
    pub fn from_read(&mut self, d: &[u8], pos: usize, end: usize, len: u32) -> (r: Option<usize>)
        requires
            pos <= end <= d@.len(),
            *old(self) matches Section::Cached(v) ==> v@.len() == 0,
            *old(self) matches Section::Offset(s, e) ==> s == pos as u64 && e == pos as u64,
        ensures
            pos + len <= end ==> r == Some((pos + len) as usize) && final(self).within(d@)
                && final(self).bytes(d@) == d@.subrange(pos as int, pos + len)
                && ((*old(self) is Cached) <==> (*final(self) is Cached))
                && (*old(self) is Offset ==> *final(self) == Section::Offset(pos as u64, (pos + len) as u64)),
            pos + len > end ==> r is None,
    {
        if end - pos < len as usize {
            return None;
        }
        let stop = pos + len as usize;
        match self {
            Section::Cached(v) => {
                *v = copy_range(d, pos, stop);
            },
            Section::Offset(_, e) => {
                *e = stop as u64;
            },
        }
        Some(stop)
    }

    /// Reads a length-prefixed byte string at `pos`, before `end`.
    pub fn read_bstr(d: &[u8], pos: usize, end: usize, cache: bool) -> (r: Option<(Section, usize)>)
        requires
            pos <= end <= d@.len(),
        ensures
            match take_bstr(d@.subrange(pos as int, end as int)) {
                Some((b, rest)) => r matches Some((s, p)) && s.bytes(d@) == b && s.within(d@)
                    && pos + 4 <= p <= end && rest == d@.subrange(p as int, end as int)
                    && (cache <==> s is Cached) && p == pos + 4 + b.len()
                    && (!cache ==> s == Section::Offset((pos + 4) as u64, (pos + 4 + b.len()) as u64)),
                None => r is None,
            },
    {
        let len = match read_u32_in(d, pos, end) {
            Some(n) => n,
            None => return None,
        };
        let mut s = Section::create(cache, (pos + 4) as u64);
        match s.from_read(d, pos + 4, end, len) {
            Some(p) => {
                let ghost r = d@.subrange(pos + 4, end as int);
                assert(r.subrange(0, len as int) =~= d@.subrange(pos + 4, p as int));
                assert(r.subrange(len as int, r.len() as int) =~= d@.subrange(p as int, end as int));
                Some((s, p))
            },
            None => None,
        }
    }
}

/// Reads the `u32` at `pos`, before `end`.
pub fn read_u32_in(d: &[u8], pos: usize, end: usize) -> (r: Option<u32>)
    requires
        pos <= end <= d@.len(),
    ensures
        match take_u32(d@.subrange(pos as int, end as int)) {
            Some((v, rest)) => r == Some(v) && pos + 4 <= end && rest == d@.subrange(pos + 4, end as int),
            None => r is None && pos + 4 > end,
        },
{
    if end - pos < 4 {
        return None;
    }
    let v = read_u32(d, pos);
    assert(d@.subrange(pos as int, end as int).subrange(4, (end - pos) as int) =~= d@.subrange(pos + 4, end as int));
    v
}

/// Reads the `u16` at `pos`, before `end`.
pub fn read_u16_in(d: &[u8], pos: usize, end: usize) -> (r: Option<u16>)
    requires
        pos <= end <= d@.len(),
    ensures
        match take_u16(d@.subrange(pos as int, end as int)) {
            Some((v, rest)) => r == Some(v) && pos + 2 <= end && rest == d@.subrange(pos + 2, end as int),
            None => r is None,
        },
{
    if end - pos < 2 {
        return None;
    }
    let v = read_u16(d, pos);
    assert(d@.subrange(pos as int, end as int).subrange(2, (end - pos) as int) =~= d@.subrange(pos + 2, end as int));
    v
}

} // verus!
