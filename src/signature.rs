//! The signature engine: md5, sha1, sha256 and sha512 digests of the
//! signed region of an archive.
use vstd::prelude::*;
use digest::Digest;

verus! {

/// The MD5 digest of a byte string.
pub uninterp spec fn md5_of(b: Seq<u8>) -> Seq<u8>;

/// The SHA-1 digest of a byte string.
pub uninterp spec fn sha1_of(b: Seq<u8>) -> Seq<u8>;

/// The SHA-256 digest of a byte string.
pub uninterp spec fn sha256_of(b: Seq<u8>) -> Seq<u8>;

/// The SHA-512 digest of a byte string.
pub uninterp spec fn sha512_of(b: Seq<u8>) -> Seq<u8>;

/// Relies on `md5::Md5` (`Digest::digest`): the MD5 digest, 16 bytes.
#[verifier::external_body]
fn md5_digest(b: &[u8]) -> (r: Vec<u8>)
    ensures
        r@ == md5_of(b@),
        r@.len() == 16,
{
    md5::Md5::digest(b).to_vec()
}

/// Relies on `sha1::Sha1` (`Digest::digest`): the SHA-1 digest, 20 bytes.
#[verifier::external_body]
fn sha1_digest(b: &[u8]) -> (r: Vec<u8>)
    ensures
        r@ == sha1_of(b@),
        r@.len() == 20,
{
    sha1::Sha1::digest(b).to_vec()
}

/// Relies on `sha2::Sha256` (`Digest::digest`): the SHA-256 digest, 32 bytes.
#[verifier::external_body]
fn sha256_digest(b: &[u8]) -> (r: Vec<u8>)
    ensures
        r@ == sha256_of(b@),
        r@.len() == 32,
{
    sha2::Sha256::digest(b).to_vec()
}

/// Relies on `sha2::Sha512` (`Digest::digest`): the SHA-512 digest, 64 bytes.
#[verifier::external_body]
fn sha512_digest(b: &[u8]) -> (r: Vec<u8>)
    ensures
        r@ == sha512_of(b@),
        r@.len() == 64,
{
    sha2::Sha512::digest(b).to_vec()
}

/// A kind of phar signature.
#[derive(Debug, Clone, Copy, PartialEq, Eq, Structural)]
pub enum SignatureType {
    Md5,
    Sha1,
    Sha256,
    Sha512,
}

impl SignatureType {
    /// The kind that the on-wire tag names, if any.
    pub open spec fn from_id(flag: u32) -> Option<SignatureType> {
        if flag == 1 {
            Some(SignatureType::Md5)
        } else if flag == 2 {
            Some(SignatureType::Sha1)
        } else if flag == 4 {
            Some(SignatureType::Sha256)
        } else if flag == 8 {
            Some(SignatureType::Sha512)
        } else {
            None
        }
    }

    /// The on-wire tag of this kind.
    pub open spec fn id(self) -> u32 {
        match self {
            SignatureType::Md5 => 1,
            SignatureType::Sha1 => 2,
            SignatureType::Sha256 => 4,
            SignatureType::Sha512 => 8,
        }
    }

    /// The length of a digest of this kind.
    pub open spec fn len(self) -> nat {
        match self {
            SignatureType::Md5 => 16,
            SignatureType::Sha1 => 20,
            SignatureType::Sha256 => 32,
            SignatureType::Sha512 => 64,
        }
    }

    /// The digest of this kind of `b`.
    pub open spec fn digest(self, b: Seq<u8>) -> Seq<u8> {
        match self {
            SignatureType::Md5 => md5_of(b),
            SignatureType::Sha1 => sha1_of(b),
            SignatureType::Sha256 => sha256_of(b),
            SignatureType::Sha512 => sha512_of(b),
        }
    }

    /// Resolves an on-wire tag.
    pub fn from_save_id(flag: u32) -> (r: Option<Self>)
        ensures
            r == Self::from_id(flag),
    {
        match flag {
            1 => Some(SignatureType::Md5),
            2 => Some(SignatureType::Sha1),
            4 => Some(SignatureType::Sha256),
            8 => Some(SignatureType::Sha512),
            _ => None,
        }
    }

    /// The on-wire tag.
    pub fn to_save_id(self) -> (r: u32)
        ensures
            r == self.id(),
            Self::from_id(r) == Some(self),
    {
        match self {
            SignatureType::Md5 => 1,
            SignatureType::Sha1 => 2,
            SignatureType::Sha256 => 4,
            SignatureType::Sha512 => 8,
        }
    }

    /// The length of a digest.
    pub fn to_save_length(self) -> (r: u64)
        ensures
            r == self.len(),
    {
        match self {
            SignatureType::Md5 => 16,
            SignatureType::Sha1 => 20,
            SignatureType::Sha256 => 32,
            SignatureType::Sha512 => 64,
        }
    }

    /// Computes the digest of `b`.
    pub fn digest_of(self, b: &[u8]) -> (r: Vec<u8>)
        ensures
            r@ == self.digest(b@),
            r@.len() == self.len(),
    {
        match self {
            SignatureType::Md5 => md5_digest(b),
            SignatureType::Sha1 => sha1_digest(b),
            SignatureType::Sha256 => sha256_digest(b),
            SignatureType::Sha512 => sha512_digest(b),
        }
    }
}

/// An incremental signature: a kind and the bytes written to it so far.
pub struct Signature {
    kind: SignatureType,
    written: Vec<u8>,
}

impl View for Signature {
    type V = (SignatureType, Seq<u8>);

    closed spec fn view(&self) -> (SignatureType, Seq<u8>) {
        (self.kind, self.written@)
    }
}

impl Signature {
    /// An empty signature of the given kind.
    pub fn new(kind: SignatureType) -> (r: Self)
        ensures
            r@ == (kind, Seq::<u8>::empty()),
    {
        Signature { kind, written: Vec::new() }
    }

    /// An empty md5 signature.
    pub fn md5() -> (r: Self)
        ensures
            r@ == (SignatureType::Md5, Seq::<u8>::empty()),
    {
        Self::new(SignatureType::Md5)
    }

    /// An empty sha1 signature.
    pub fn sha1() -> (r: Self)
        ensures
            r@ == (SignatureType::Sha1, Seq::<u8>::empty()),
    {
        Self::new(SignatureType::Sha1)
    }

    /// An empty sha256 signature.
    pub fn sha256() -> (r: Self)
        ensures
            r@ == (SignatureType::Sha256, Seq::<u8>::empty()),
    {
        Self::new(SignatureType::Sha256)
    }

    /// An empty sha512 signature.
    pub fn sha512() -> (r: Self)
        ensures
            r@ == (SignatureType::Sha512, Seq::<u8>::empty()),
    {
        Self::new(SignatureType::Sha512)
    }

    /// An empty signature of the kind that the on-wire tag names, if any.
    pub fn from_u32(discrim: u32) -> (r: Option<Self>)
        ensures
            match SignatureType::from_id(discrim) {
                Some(k) => r matches Some(s) && s@ == (k, Seq::<u8>::empty()),
                None => r is None,
            },
    {
        match SignatureType::from_save_id(discrim) {
            Some(kind) => Some(Self::new(kind)),
            None => None,
        }
    }

    /// The kind of this signature.
    pub fn kind(&self) -> (r: SignatureType)
        ensures
            r == self@.0,
    {
        self.kind
    }

    /// The on-wire tag of this signature's kind.
    pub fn to_u32(&self) -> (r: u32)
        ensures
            r == self@.0.id(),
    {
        self.kind.to_save_id()
    }

    /// The number of bytes of the digest.
    pub fn size(&self) -> (r: u8)
        ensures
            r == self@.0.len(),
    {
        self.kind.to_save_length() as u8
    }

    /// Writes bytes into the signature.
    pub fn write(&mut self, b: &[u8])
        ensures
            final(self)@ == (old(self)@.0, old(self)@.1 + b@),
    {
        crate::bytes::push_all(&mut self.written, b);
    }

    /// The digest of everything written.
    pub fn finalize(self) -> (r: Vec<u8>)
        ensures
            r@ == self@.0.digest(self@.1),
            r@.len() == self@.0.len(),
    {
        self.kind.digest_of(self.written.as_slice())
    }
}

/// A sink that discards what is written to it.
pub struct NullDevice;

impl NullDevice {
    /// Discards `b`, reporting all of it written.
    pub fn write(&mut self, b: &[u8]) -> (r: usize)
        ensures
            r == b@.len(),
    {
        b.len()
    }
}

/// A signature, or a stand-in that discards its input and verifies anything.
pub enum MaybeDummy {
    Real(Signature),
    Dummy(NullDevice),
}

impl MaybeDummy {
    /// Writes bytes into the signature, or discards them.
    pub fn write(&mut self, b: &[u8])
        ensures
            match (*old(self), *final(self)) {
                (MaybeDummy::Real(s0), MaybeDummy::Real(s1)) => s1@ == (s0@.0, s0@.1 + b@),
                (MaybeDummy::Dummy(_), MaybeDummy::Dummy(_)) => true,
                _ => false,
            },
    {
        match self {
            MaybeDummy::Real(sig) => sig.write(b),
            MaybeDummy::Dummy(dev) => {
                let _ = dev.write(b);
            },
        }
    }

    /// The digest of everything written; empty for the stand-in.
    pub fn finalize(self) -> (r: Vec<u8>)
        ensures
            match self {
                MaybeDummy::Real(s) => r@ == s@.0.digest(s@.1),
                MaybeDummy::Dummy(_) => r@.len() == 0,
            },
    {
        match self {
            MaybeDummy::Real(sig) => sig.finalize(),
            MaybeDummy::Dummy(_) => Vec::new(),
        }
    }
}

} // verus!
