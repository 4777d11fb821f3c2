//! Per-file compression: none, zlib or bzip2.
use vstd::prelude::*;
use std::io::Read;
use std::io::Write as _;

use crate::error::Write;

verus! {

/// The zlib stream that `flate2` makes of a byte string at a level, if it
/// makes one.
pub uninterp spec fn zlib_encoded(b: Seq<u8>, level: u32) -> Option<Seq<u8>>;

/// What `flate2` decodes from a zlib stream, if it is one.
pub uninterp spec fn zlib_decoded(b: Seq<u8>) -> Option<Seq<u8>>;

/// The bzip2 stream that `bzip2` makes of a byte string at a level, if it
/// makes one.
pub uninterp spec fn bzip_encoded(b: Seq<u8>, level: u32) -> Option<Seq<u8>>;

/// What `bzip2` decodes from a bzip2 stream, if it is one.
pub uninterp spec fn bzip_decoded(b: Seq<u8>) -> Option<Seq<u8>>;

/// Relies on `flate2::write::ZlibEncoder`: the zlib stream of `b`.
/// flate2 asserts (in debug builds) that the level is at most 10.
#[verifier::external_body]
fn zlib_encode(b: &[u8], level: u32) -> (r: Option<Vec<u8>>)
    requires
        level <= 9,
    ensures
        match r {
            Some(v) => zlib_encoded(b@, level) == Some(v@),
            None => zlib_encoded(b@, level) is None,
        },
{
    let mut e = flate2::write::ZlibEncoder::new(Vec::new(), flate2::Compression::new(level));
    match e.write_all(b) {
        Ok(()) => e.finish().ok(),
        Err(_) => None,
    }
}

/// Relies on `flate2::read::ZlibDecoder`: the bytes that the zlib stream `b` holds.
#[verifier::external_body]
fn zlib_decode(b: &[u8]) -> (r: Option<Vec<u8>>)
    ensures
        match r {
            Some(v) => zlib_decoded(b@) == Some(v@),
            None => zlib_decoded(b@) is None,
        },
{
    let mut out = Vec::new();
    match flate2::read::ZlibDecoder::new(b).read_to_end(&mut out) {
        Ok(_) => Some(out),
        Err(_) => None,
    }
}

/// Relies on `bzip2::write::BzEncoder`: the bzip2 stream of `b`.
/// bzip2 asserts that libbz2 accepts the level, which it does from 1 to 9.
#[verifier::external_body]
fn bzip_encode(b: &[u8], level: u32) -> (r: Option<Vec<u8>>)
    requires
        1 <= level <= 9,
    ensures
        match r {
            Some(v) => bzip_encoded(b@, level) == Some(v@),
            None => bzip_encoded(b@, level) is None,
        },
{
    let mut e = bzip2::write::BzEncoder::new(Vec::new(), bzip2::Compression::new(level));
    match e.write_all(b) {
        Ok(()) => e.finish().ok(),
        Err(_) => None,
    }
}

/// Relies on `bzip2::read::BzDecoder`: the bytes that the bzip2 stream `b` holds.
#[verifier::external_body]
fn bzip_decode(b: &[u8]) -> (r: Option<Vec<u8>>)
    ensures
        match r {
            Some(v) => bzip_decoded(b@) == Some(v@),
            None => bzip_decoded(b@) is None,
        },
{
    let mut out = Vec::new();
    match bzip2::read::BzDecoder::new(b).read_to_end(&mut out) {
        Ok(_) => Some(out),
        Err(_) => None,
    }
}

/// The flag bit of zlib compression.
pub const FLAG_ZLIB: u32 = 0x1000;

/// The flag bit of bzip2 compression.
pub const FLAG_BZIP: u32 = 0x2000;

/// A file compression method.
///
/// The level is used when writing; a method read from flags has level 0.
#[derive(Debug, Clone, Copy, PartialEq, Eq, Structural)]
pub enum Compression {
    /// No compression.
    Stored,
    /// zlib compression at a deflate level.
    Zlib(u32),
    /// bzip2 compression at a block-size level.
    Bzip(u32),
}

impl Compression {
    /// The flag bit of this method.
    pub open spec fn flag(self) -> u32 {
        match self {
            Compression::Stored => 0,
            Compression::Zlib(_) => FLAG_ZLIB,
            Compression::Bzip(_) => FLAG_BZIP,
        }
    }

    /// The method that entry flags name: zlib wins over bzip2.
    pub open spec fn of_flags(flags: u32) -> Compression {
        if flags & FLAG_ZLIB != 0 {
            Compression::Zlib(0)
        } else if flags & FLAG_BZIP != 0 {
            Compression::Bzip(0)
        } else {
            Compression::Stored
        }
    }

    /// Whether the compressor takes this level.
    pub open spec fn level_ok(self) -> bool {
        match self {
            Compression::Stored => true,
            Compression::Zlib(l) => l <= 9,
            Compression::Bzip(l) => 1 <= l <= 9,
        }
    }

    /// What this method makes of `b`, if the compressor makes something.
    pub open spec fn encoded(self, b: Seq<u8>) -> Option<Seq<u8>> {
        match self {
            Compression::Stored => Some(b),
            Compression::Zlib(l) => zlib_encoded(b, l),
            Compression::Bzip(l) => bzip_encoded(b, l),
        }
    }

    /// What this method recovers from `b`, if it can.
    pub open spec fn decoded(self, b: Seq<u8>) -> Option<Seq<u8>> {
        match self {
            Compression::Stored => Some(b),
            Compression::Zlib(_) => zlib_decoded(b),
            Compression::Bzip(_) => bzip_decoded(b),
        }
    }

    /// The flag bit of this method.
    pub fn bit(self) -> (r: u32)
        ensures
            r == self.flag(),
    {
        match self {
            Compression::Stored => 0,
            Compression::Zlib(_) => FLAG_ZLIB,
            Compression::Bzip(_) => FLAG_BZIP,
        }
    }

    /// The method that entry flags name.
    pub fn from_bit(bit: u32) -> (r: Self)
        ensures
            r == Self::of_flags(bit),
    {
        if bit & FLAG_ZLIB != 0 {
            Compression::Zlib(0)
        } else if bit & FLAG_BZIP != 0 {
            Compression::Bzip(0)
        } else {
            Compression::Stored
        }
    }

    /// Compresses `b` with this method.
    pub fn encode(self, b: &[u8]) -> (r: Result<Vec<u8>, Write>)
        ensures
            !self.level_ok() ==> r == Err::<Vec<u8>, Write>(Write::UnsupportedCompression),
            self.level_ok() ==> match r {
                Ok(v) => self.encoded(b@) == Some(v@),
                Err(e) => e == Write::Io && self.encoded(b@) is None,
            },
    {
        match self {
            Compression::Stored => {
                let v = crate::bytes::copy_range(b, 0, b.len());
                assert(v@ =~= b@);
                Ok(v)
            },
            Compression::Zlib(level) => {
                if level > 9 {
                    return Err(Write::UnsupportedCompression);
                }
                match zlib_encode(b, level) {
                    Some(v) => Ok(v),
                    None => Err(Write::Io),
                }
            },
            Compression::Bzip(level) => {
                if level < 1 || level > 9 {
                    return Err(Write::UnsupportedCompression);
                }
                match bzip_encode(b, level) {
                    Some(v) => Ok(v),
                    None => Err(Write::Io),
                }
            },
        }
    }

    /// Decompresses `b` with this method.
    pub fn decode(self, b: &[u8]) -> (r: Option<Vec<u8>>)
        ensures
            match r {
                Some(v) => self.decoded(b@) == Some(v@),
                None => self.decoded(b@) is None,
            },
    {
        match self {
            Compression::Stored => Some(crate::bytes::copy_range(b, 0, b.len())),
            Compression::Zlib(_) => zlib_decode(b),
            Compression::Bzip(_) => bzip_decode(b),
        }
    }
}

} // verus!
