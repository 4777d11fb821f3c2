//! The stub: the script that an archive starts with.
use vstd::prelude::*;

use crate::bytes::{copy_range, find_end, first_end, lemma_first_end};
use crate::error::Open;
use crate::format::stub_terminator;
use crate::reader::stub_terminator_bytes;
use crate::section::Section;

verus! {

/// The start that an executable stub has: `<?php`.
pub open spec fn php_open_tag() -> Seq<u8> {
    seq![0x3c, 0x3f, 0x70, 0x68, 0x70]
}

/// Feeds `d` up to the end of the first occurrence of `bstr` into `buf`;
/// fails, feeding nothing, where `bstr` does not occur.
pub fn read_find_bstr(d: &[u8], buf: &mut Section, bstr: &[u8]) -> (r: Result<(), Open>)
    requires
        *old(buf) matches Section::Offset(_, e) ==> e + d@.len() <= u64::MAX,
    ensures
        match first_end(d@, bstr@) {
            Some(n) => r is Ok && match (*old(buf), *final(buf)) {
                (Section::Cached(v0), Section::Cached(v1)) => v1@ == v0@ + d@.subrange(0, n as int),
                (Section::Offset(s0, e0), Section::Offset(s1, e1)) => s1 == s0 && e1 == e0 + n,
                _ => false,
            },
            None => r == Err::<(), Open>(Open::UnexpectedEof) && *final(buf) == *old(buf),
        },
{
    match find_end(d, bstr) {
        Some(n) => {
            proof {
                lemma_first_end(d@, bstr@);
            }
            let found = copy_range(d, 0, n);
            buf.feed(found.as_slice());
            Ok(())
        },
        None => Err(Open::UnexpectedEof),
    }
}

/// Reads the stub at the start of `d`: it must start with `<?php`, and it
/// runs to the end of the first terminator `__HALT_COMPILER(); ?>\r\n`.
pub fn read(d: &[u8]) -> (r: Result<Vec<u8>, Open>)
    ensures
        (d@.len() < 5 || d@.subrange(0, 5) != php_open_tag()) ==> r == Err::<Vec<u8>, Open>(Open::IncorrectStubStart),
        (d@.len() >= 5 && d@.subrange(0, 5) == php_open_tag()) ==> match first_end(d@, stub_terminator()) {
            Some(n) => r matches Ok(v) && v@ == d@.subrange(0, n as int),
            None => r == Err::<Vec<u8>, Open>(Open::NoHaltCompiler),
        },
{
    if d.len() < 5 || !(d[0] == 0x3c && d[1] == 0x3f && d[2] == 0x70 && d[3] == 0x68 && d[4] == 0x70) {
        proof {
            if d@.len() >= 5 && d@.subrange(0, 5) == php_open_tag() {
                assert(d@.subrange(0, 5)[0] == d@[0]);
                assert(d@.subrange(0, 5)[1] == d@[1]);
                assert(d@.subrange(0, 5)[2] == d@[2]);
                assert(d@.subrange(0, 5)[3] == d@[3]);
                assert(d@.subrange(0, 5)[4] == d@[4]);
            }
        }
        return Err(Open::IncorrectStubStart);
    }
    assert(d@.subrange(0, 5) =~= php_open_tag());
    proof {
        lemma_first_end(d@, stub_terminator());
    }
    let term = stub_terminator_bytes();
    let mut buf = Section::Cached(Vec::new());
    match read_find_bstr(d, &mut buf, term.as_slice()) {
        Ok(()) => match buf {
            Section::Cached(v) => {
                assert(v@ =~= d@.subrange(0, first_end(d@, stub_terminator())->Some_0 as int));
                Ok(v)
            },
            Section::Offset(_, _) => Err(Open::NoHaltCompiler),
        },
        Err(_) => Err(Open::NoHaltCompiler),
    }
}

} // verus!
