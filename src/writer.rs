//! Writing an archive: a staged builder that takes the stub, the alias, the
//! global metadata and every entry's name and metadata first, then every
//! entry's content in the same order, and signs the result.
use vstd::prelude::*;

use crate::bytes::{copy_range, le_u32, push_all, write_bstr, push_u16, push_u32};
use crate::compression::Compression;
use crate::entry::{FileEntry, FileFlags, MODE_MASK};
use crate::error::Write;
use crate::format::{
    archive_bytes, content_len, entries_bytes, entry_bytes, entry_fits, magic, manifest_bytes, signed_bytes, stub_terminator,
    EntryModel, ManifestModel, API_VERSION, FLAG_SIGNED, MANIFEST_MAX,
};
use crate::reader::stub_terminator_bytes;
use crate::signature::{Signature, SignatureType};

verus! {

/// The CRC-32 of a byte string.
pub uninterp spec fn crc32_of(b: Seq<u8>) -> u32;

/// Relies on `crc32fast::hash`: the CRC-32 (IEEE) checksum of `b`.
#[verifier::external_body]
fn crc32(b: &[u8]) -> (r: u32)
    ensures
        r == crc32_of(b@),
{
    crc32fast::hash(b)
}

/// The stored timestamp of a time `secs` seconds after the Unix epoch, or
/// before it: the seconds modulo 2^32, negated for times before the epoch.
pub fn timestamp_secs(after_epoch: bool, secs: u64) -> (r: u32)
    ensures
        after_epoch ==> r == secs % 0x1_0000_0000,
        !after_epoch ==> r == (0x1_0000_0000 - secs % 0x1_0000_0000) % 0x1_0000_0000,
{
    let low = (secs % 0x1_0000_0000) as u32;
    if after_epoch {
        low
    } else {
        ((0x1_0000_0000u64 - low as u64) % 0x1_0000_0000) as u32
    }
}

/// Starts writing an archive signed with `signature`.
pub fn create(signature: Signature) -> (r: NeedStub)
    ensures
        r.signature@ == signature@,
{
    NeedStub { signature }
}

/// The first stage: the stub is next.
pub struct NeedStub {
    pub signature: Signature,
}

impl NeedStub {
    /// Sets the stub; the terminator `__HALT_COMPILER(); ?>\r\n` is appended.
    pub fn stub(self, stub: &[u8]) -> (r: NeedAlias)
        ensures
            r.stub@ == stub@ + stub_terminator(),
            r.signature@ == self.signature@,
    {
        let mut full = copy_range(stub, 0, stub.len());
        let term = stub_terminator_bytes();
        push_all(&mut full, term.as_slice());
        assert(full@ =~= stub@ + stub_terminator());
        NeedAlias { stub: full, signature: self.signature }
    }
}

/// The second stage: the alias, or the global metadata with an empty alias.
pub struct NeedAlias {
    pub stub: Vec<u8>,
    pub signature: Signature,
}

impl NeedAlias {
    /// Sets the alias.
    pub fn alias(self, alias: &[u8]) -> (r: Result<NeedGlobMeta, Write>)
        ensures
            alias@.len() > u32::MAX ==> r == Err::<NeedGlobMeta, Write>(Write::AliasTooLong),
            alias@.len() <= u32::MAX ==> (r matches Ok(n) && n.stub@ == self.stub@ && n.alias@ == alias@
                && n.signature@ == self.signature@),
    {
        if alias.len() as u64 > 0xffff_ffff {
            return Err(Write::AliasTooLong);
        }
        let alias = copy_range(alias, 0, alias.len());
        Ok(NeedGlobMeta { stub: self.stub, alias, signature: self.signature })
    }

    /// Sets the global metadata, leaving the alias empty.
    pub fn metadata(self, metadata: &[u8]) -> (r: Result<NeedEntries, Write>)
        ensures
            metadata@.len() > u32::MAX ==> r == Err::<NeedEntries, Write>(Write::MetadataTooLong),
            metadata@.len() <= u32::MAX && 18 + metadata@.len() > MANIFEST_MAX ==> r == Err::<NeedEntries, Write>(
                Write::ManifestTooLarge,
            ),
            18 + metadata@.len() <= MANIFEST_MAX ==> (r matches Ok(n) && n.wf() && n.stub() == self.stub@
                && n.alias() == Seq::<u8>::empty() && n.metadata() == metadata@ && n.kind() == self.signature@.0
                && n.declared().len() == 0 && n.global_flags() == FLAG_SIGNED && n.manifest_size() == 18
                + metadata@.len()),
    {
        let empty: Vec<u8> = Vec::new();
        match self.alias(empty.as_slice()) {
            Ok(n) => n.metadata(metadata),
            Err(e) => Err(e),
        }
    }
}

/// The third stage: the global metadata is next.
pub struct NeedGlobMeta {
    pub stub: Vec<u8>,
    pub alias: Vec<u8>,
    pub signature: Signature,
}

impl NeedGlobMeta {
    /// Sets the global metadata.
    pub fn metadata(self, metadata: &[u8]) -> (r: Result<NeedEntries, Write>)
        requires
            self.alias@.len() <= u32::MAX,
        ensures
            metadata@.len() > u32::MAX ==> r == Err::<NeedEntries, Write>(Write::MetadataTooLong),
            metadata@.len() <= u32::MAX && 18 + self.alias@.len() + metadata@.len() > MANIFEST_MAX ==> r == Err::<
                NeedEntries,
                Write,
            >(Write::ManifestTooLarge),
            18 + self.alias@.len() + metadata@.len() <= MANIFEST_MAX ==> (r matches Ok(n) && n.wf() && n.stub()
                == self.stub@ && n.alias() == self.alias@ && n.metadata() == metadata@ && n.kind()
                == self.signature@.0 && n.declared().len() == 0 && n.global_flags() == FLAG_SIGNED
                && n.manifest_size() == 18 + self.alias@.len() + metadata@.len()),
    {
        if metadata.len() as u64 > 0xffff_ffff {
            return Err(Write::MetadataTooLong);
        }
        let metadata = copy_range(metadata, 0, metadata.len());
        let manifest_len = 18 + self.alias.len() as u64 + metadata.len() as u64;
        if manifest_len > MANIFEST_MAX as u64 {
            return Err(Write::ManifestTooLarge);
        }
        let n = NeedEntries {
            stub: self.stub,
            alias: self.alias,
            metadata,
            signature: self.signature,
            entries: Vec::new(),
            global_flags: FLAG_SIGNED,
            manifest_len,
        };
        proof {
            assert(declared_models(n.entries@) =~= Seq::<EntryModel>::empty());
            assert(entries_len(Seq::<EntryModel>::empty()) == 0);
        }
        Ok(n)
    }
}

/// A declared entry: what is known of it before its content.
pub struct WriteEntry {
    pub name: Vec<u8>,
    pub metadata: Vec<u8>,
    pub timestamp: u32,
    pub flags: u32,
    pub compression: Compression,
}

impl WriteEntry {
    /// The manifest entry once content of the given sizes and checksum is
    /// known.
    pub open spec fn model(&self, original_size: u32, compressed_size: u32, crc32: u32) -> EntryModel {
        EntryModel {
            name: self.name@,
            original_size,
            time: self.timestamp,
            compressed_size,
            crc32,
            flags: self.flags,
            metadata: self.metadata@,
        }
    }
}

/// The fourth stage: entries are declared, then contents are fed.
pub struct NeedEntries {
    stub: Vec<u8>,
    alias: Vec<u8>,
    metadata: Vec<u8>,
    signature: Signature,
    entries: Vec<WriteEntry>,
    global_flags: u32,
    manifest_len: u64,
}

/// The number of manifest bytes of a run of entries.
pub open spec fn entries_len(es: Seq<EntryModel>) -> nat
    decreases es.len(),
{
    if es.len() == 0 {
        0
    } else {
        entries_len(es.drop_last()) + 28 + es.last().name.len() + es.last().metadata.len()
    }
}

/// The manifest bytes of entries are as many as `entries_len` says.
proof fn lemma_entries_len(es: Seq<EntryModel>)
    ensures
        entries_bytes(es).len() == entries_len(es),
    decreases es.len(),
{
    reveal(entry_bytes);
    if es.len() > 0 {
        lemma_entries_len(es.drop_last());
        let e = es.last();
        assert(entry_bytes(e).len() == 28 + e.name.len() + e.metadata.len());
    }
}

/// Entries with the same names and metadata take as many manifest bytes.
proof fn lemma_entries_len_same(a: Seq<EntryModel>, b: Seq<EntryModel>)
    requires
        a.len() == b.len(),
        forall|i: int| 0 <= i < a.len() ==> (#[trigger] a[i]).name.len() == b[i].name.len() && a[i].metadata.len() == b[i].metadata.len(),
    ensures
        entries_len(a) == entries_len(b),
    decreases a.len(),
{
    if a.len() > 0 {
        assert forall|i: int| 0 <= i < a.len() - 1 implies (#[trigger] a.drop_last()[i]).name.len() == b.drop_last()[i].name.len()
            && a.drop_last()[i].metadata.len() == b.drop_last()[i].metadata.len() by {
            assert(a.drop_last()[i] == a[i]);
            assert(b.drop_last()[i] == b[i]);
        }
        lemma_entries_len_same(a.drop_last(), b.drop_last());
    }
}

/// Declared entries as manifest entries with zero sizes and checksum.
pub open spec fn declared_models(ws: Seq<WriteEntry>) -> Seq<EntryModel> {
    Seq::new(ws.len(), |i: int| ws[i].model(0, 0, 0))
}

impl NeedEntries {
    /// The stub, terminator included.
    pub closed spec fn stub(&self) -> Seq<u8> {
        self.stub@
    }

    /// The alias.
    pub closed spec fn alias(&self) -> Seq<u8> {
        self.alias@
    }

    /// The global metadata.
    pub closed spec fn metadata(&self) -> Seq<u8> {
        self.metadata@
    }

    /// The signature kind.
    pub closed spec fn kind(&self) -> SignatureType {
        self.signature@.0
    }

    /// The entries declared so far.
    pub closed spec fn declared(&self) -> Seq<WriteEntry> {
        self.entries@
    }

    /// The global flags: signed, with the bit of every compression used.
    pub closed spec fn global_flags(&self) -> u32 {
        self.global_flags
    }

    /// The manifest length with the entries declared so far.
    pub closed spec fn manifest_size(&self) -> nat {
        self.manifest_len as nat
    }

    /// The manifest, with the given entries.
    pub closed spec fn manifest_model(&self, es: Seq<EntryModel>) -> ManifestModel {
        ManifestModel {
            num_files: self.entries@.len() as u32,
            api: API_VERSION,
            flags: self.global_flags,
            alias: self.alias@,
            metadata: self.metadata@,
            entries: es,
        }
    }

    /// Whether the sizes fit: every byte string within a `u32` length, and
    /// the manifest within the 1 MiB that a reader accepts.
    pub closed spec fn wf(&self) -> bool {
        &&& self.alias@.len() <= u32::MAX
        &&& self.metadata@.len() <= u32::MAX
        &&& forall|i: int|
            0 <= i < self.entries@.len() ==> (#[trigger] self.entries@[i]).name@.len() <= u32::MAX
                && self.entries@[i].metadata@.len() <= u32::MAX && self.entries@[i].compression.level_ok()
                && self.entries@[i].flags & !MODE_MASK == self.entries@[i].compression.flag()
        &&& self.manifest_len == 18 + self.alias@.len() + self.metadata@.len() + entries_len(
            declared_models(self.entries@),
        )
        &&& self.manifest_len <= MANIFEST_MAX
    }

    /// Declares the next entry: its name, metadata, timestamp, permission
    /// bits (the low nine bits of `mode`) and compression. Fails, changing
    /// nothing, where a length does not fit its field or the compression
    /// level is out of range, or where the manifest would pass 1 MiB.
    pub fn entry(&mut self, name: &[u8], metadata: &[u8], timestamp: u32, mode: u32, compression: Compression) -> (r:
        Result<(), Write>)
        requires
            old(self).wf(),
        ensures
            final(self).wf(),
            name@.len() > u32::MAX ==> r == Err::<(), Write>(Write::NameTooLong),
            name@.len() <= u32::MAX && metadata@.len() > u32::MAX ==> r == Err::<(), Write>(Write::MetadataTooLong),
            name@.len() <= u32::MAX && metadata@.len() <= u32::MAX && !compression.level_ok() ==> r == Err::<
                (),
                Write,
            >(Write::UnsupportedCompression),
            name@.len() <= u32::MAX && metadata@.len() <= u32::MAX && compression.level_ok() ==> (r == Err::<
                (),
                Write,
            >(Write::ManifestTooLarge) <==> old(self).manifest_size() + 28 + name@.len() + metadata@.len()
                > MANIFEST_MAX),
            name@.len() <= u32::MAX && metadata@.len() <= u32::MAX && compression.level_ok()
                && old(self).manifest_size() + 28 + name@.len() + metadata@.len() <= MANIFEST_MAX ==> r is Ok,
            r is Ok ==> final(self).manifest_size() == old(self).manifest_size() + 28 + name@.len()
                + metadata@.len(),
            r is Err ==> *final(self) == *old(self),
            r is Ok ==> {
                &&& final(self).declared().len() == old(self).declared().len() + 1
                &&& forall|i: int|
                    0 <= i < old(self).declared().len() ==> #[trigger] final(self).declared()[i] == old(self).declared()[i]
                &&& final(self).declared().last().name@ == name@
                &&& final(self).declared().last().metadata@ == metadata@
                &&& final(self).declared().last().timestamp == timestamp
                &&& final(self).declared().last().flags == (mode & MODE_MASK) | compression.flag()
                &&& final(self).declared().last().compression == compression
                &&& final(self).global_flags() == old(self).global_flags() | compression.flag()
                &&& final(self).stub() == old(self).stub()
                &&& final(self).alias() == old(self).alias()
                &&& final(self).metadata() == old(self).metadata()
                &&& final(self).kind() == old(self).kind()
            },
    {
        if name.len() as u64 > 0xffff_ffff {
            return Err(Write::NameTooLong);
        }
        if metadata.len() as u64 > 0xffff_ffff {
            return Err(Write::MetadataTooLong);
        }
        let level_ok = match compression {
            Compression::Stored => true,
            Compression::Zlib(l) => l <= 9,
            Compression::Bzip(l) => 1 <= l && l <= 9,
        };
        if !level_ok {
            return Err(Write::UnsupportedCompression);
        }
        let added = 28 + name.len() as u64 + metadata.len() as u64;
        if self.manifest_len + added > MANIFEST_MAX as u64 {
            return Err(Write::ManifestTooLarge);
        }
        let bit = compression.bit();
        let mut flags = FileFlags(bit);
        flags.set_mode(mode);
        let flags = flags.0;
        assert(flags == (mode & MODE_MASK) | bit && flags & !MODE_MASK == bit) by {
            assert(bit == 0 || bit == 0x1000 || bit == 0x2000);
            assert(bit == 0 ==> (bit & !0x1ffu32) | (mode & 0x1ffu32) == (mode & 0x1ffu32) | bit
                && ((mode & 0x1ffu32) | bit) & !0x1ffu32 == bit) by (bit_vector);
            assert(bit == 0x1000 ==> (bit & !0x1ffu32) | (mode & 0x1ffu32) == (mode & 0x1ffu32) | bit
                && ((mode & 0x1ffu32) | bit) & !0x1ffu32 == bit) by (bit_vector);
            assert(bit == 0x2000 ==> (bit & !0x1ffu32) | (mode & 0x1ffu32) == (mode & 0x1ffu32) | bit
                && ((mode & 0x1ffu32) | bit) & !0x1ffu32 == bit) by (bit_vector);
        }
        let w = WriteEntry {
            name: copy_range(name, 0, name.len()),
            metadata: copy_range(metadata, 0, metadata.len()),
            timestamp,
            flags,
            compression,
        };
        let ghost old_models = declared_models(self.entries@);
        self.entries.push(w);
        self.global_flags = self.global_flags | bit;
        self.manifest_len = self.manifest_len + added;
        proof {
            let new_models = declared_models(self.entries@);
            assert(new_models.drop_last() =~= old_models);
        }
        Ok(())
    }
}

/// Completed entries as manifest entries.
pub open spec fn written_models(done: Seq<FileEntry>) -> Seq<EntryModel> {
    Seq::new(done.len(), |i: int| done[i].model())
}

/// Appends the manifest bytes after the length field.
fn write_manifest(
    out: &mut Vec<u8>,
    num_files: u32,
    flags: u32,
    alias: &Vec<u8>,
    metadata: &Vec<u8>,
    done: &Vec<FileEntry>,
)
    requires
        alias@.len() <= u32::MAX,
        metadata@.len() <= u32::MAX,
        forall|i: int| 0 <= i < done@.len() ==> (#[trigger] done@[i]).name@.len() <= u32::MAX && done@[i].metadata@.len() <= u32::MAX,
    ensures
        final(out)@ == old(out)@ + manifest_bytes(
            ManifestModel {
                num_files,
                api: API_VERSION,
                flags,
                alias: alias@,
                metadata: metadata@,
                entries: written_models(done@),
            },
        ),
{
    let ghost before = out@;
    push_u32(out, num_files);
    push_u16(out, API_VERSION);
    push_u32(out, flags);
    write_bstr(out, alias.as_slice());
    write_bstr(out, metadata.as_slice());
    let ghost head = out@;
    let ghost es = written_models(done@);
    let mut i: usize = 0;
    assert(es.take(0) =~= Seq::<EntryModel>::empty());
    while i < done.len()
        invariant
            i <= done@.len(),
            es == written_models(done@),
            forall|k: int| 0 <= k < done@.len() ==> (#[trigger] done@[k]).name@.len() <= u32::MAX && done@[k].metadata@.len() <= u32::MAX,
            out@ == head + entries_bytes(es.take(i as int)),
        decreases done@.len() - i,
    {
        done[i].write(out);
        proof {
            assert(es.take(i + 1).drop_last() =~= es.take(i as int));
            assert(es.take(i + 1).last() == done@[i as int].model());
        }
        i = i + 1;
        assert(out@ =~= head + entries_bytes(es.take(i as int)));
    }
    assert(es.take(i as int) =~= es);
    proof {
        reveal(manifest_bytes);
    }
    assert(final(out)@ =~= before + manifest_bytes(
        ManifestModel { num_files, api: API_VERSION, flags, alias: alias@, metadata: metadata@, entries: es },
    ));
}

/// The last stage: contents are fed in the order the entries were declared.
/// Once the last is fed the archive is signed and complete.
pub struct Contents {
    stub: Vec<u8>,
    alias: Vec<u8>,
    metadata: Vec<u8>,
    kind: SignatureType,
    entries: Vec<WriteEntry>,
    global_flags: u32,
    manifest_len: u64,
    done: Vec<FileEntry>,
    payload: Vec<u8>,
    poisoned: bool,
    output: Option<Vec<u8>>,
    fed: Ghost<Seq<Seq<u8>>>,
}

impl Contents {
    /// The stub, terminator included.
    pub closed spec fn stub(&self) -> Seq<u8> {
        self.stub@
    }

    /// The signature kind.
    pub closed spec fn kind(&self) -> SignatureType {
        self.kind
    }

    /// The declared entries.
    pub closed spec fn declared(&self) -> Seq<WriteEntry> {
        self.entries@
    }

    /// The manifest entries of the contents fed so far.
    pub closed spec fn written(&self) -> Seq<EntryModel> {
        written_models(self.done@)
    }

    /// The stored (compressed) contents fed so far, back to back.
    pub closed spec fn payload(&self) -> Seq<u8> {
        self.payload@
    }

    /// Whether a `feed` has failed.
    pub closed spec fn poisoned(&self) -> bool {
        self.poisoned
    }

    /// The complete archive, once every content is fed.
    pub closed spec fn output(&self) -> Option<Seq<u8>> {
        match self.output {
            Some(v) => Some(v@),
            None => None,
        }
    }

    /// The manifest with the entries written so far.
    pub closed spec fn manifest(&self) -> ManifestModel {
        ManifestModel {
            num_files: self.entries@.len() as u32,
            api: API_VERSION,
            flags: self.global_flags,
            alias: self.alias@,
            metadata: self.metadata@,
            entries: self.written(),
        }
    }

    /// Whether the fields agree: sizes fit, each written entry is its
    /// declaration with sizes and checksum, and the output is the archive.
    pub closed spec fn wf(&self) -> bool {
        &&& self.alias@.len() <= u32::MAX
        &&& self.metadata@.len() <= u32::MAX
        &&& forall|i: int|
            0 <= i < self.entries@.len() ==> (#[trigger] self.entries@[i]).name@.len() <= u32::MAX
                && self.entries@[i].metadata@.len() <= u32::MAX && self.entries@[i].compression.level_ok()
        &&& self.manifest_len == 18 + self.alias@.len() + self.metadata@.len() + entries_len(
            declared_models(self.entries@),
        )
        &&& self.manifest_len <= MANIFEST_MAX
        &&& self.done@.len() <= self.entries@.len()
        &&& forall|i: int|
            0 <= i < self.done@.len() ==> (#[trigger] self.done@[i]).model() == self.entries@[i].model(
                self.done@[i].original_size,
                self.done@[i].compressed_size,
                self.done@[i].crc32,
            )
        &&& self.payload@.len() == content_len(self.written())
        &&& self.fed@.len() == self.done@.len()
        &&& self.payload@ == stored_concat(self.entries@, self.fed@, self.fed@.len())
        &&& forall|i: int|
            0 <= i < self.done@.len() ==> (#[trigger] self.done@[i]).compressed_size == self.entries@[i].compression.encoded(
                self.fed@[i],
            )->Some_0.len() && self.done@[i].original_size == self.fed@[i].len() && self.done@[i].crc32 == crc32_of(self.fed@[i])
        &&& forall|i: int|
            0 <= i < self.fed@.len() ==> (#[trigger] self.entries@[i].compression.encoded(self.fed@[i])) is Some
        &&& forall|i: int|
            0 <= i < self.entries@.len() ==> (#[trigger] self.entries@[i]).flags & !MODE_MASK
                == self.entries@[i].compression.flag()
        &&& self.output is Some <==> self.done@.len() == self.entries@.len()
        &&& self.output matches Some(o) ==> o@ == archive_bytes(self.stub@, self.manifest(), self.payload@, self.kind)
        &&& self.output is Some ==> self.kind.digest(signed_bytes(self.stub@, self.manifest(), self.payload@)).len()
            == self.kind.len()
    }

    /// The complete archive, once every content is fed.
    pub fn into_bytes(self) -> (r: Option<Vec<u8>>)
        ensures
            match r {
                Some(v) => self.output() == Some(v@),
                None => self.output() is None,
            },
    {
        self.output
    }

    /// Builds and signs the archive from everything written.
    /// The manifest is as long as the writer counted.
    proof fn lemma_manifest_len(&self)
        requires
            self.alias@.len() <= u32::MAX,
            self.metadata@.len() <= u32::MAX,
            forall|i: int|
                0 <= i < self.entries@.len() ==> (#[trigger] self.entries@[i]).name@.len() <= u32::MAX
                    && self.entries@[i].metadata@.len() <= u32::MAX,
            self.manifest_len == 18 + self.alias@.len() + self.metadata@.len() + entries_len(
                declared_models(self.entries@),
            ),
            self.done@.len() == self.entries@.len(),
            forall|i: int|
                0 <= i < self.done@.len() ==> (#[trigger] self.done@[i]).model() == self.entries@[i].model(
                    self.done@[i].original_size,
                    self.done@[i].compressed_size,
                    self.done@[i].crc32,
                ),
        ensures
            manifest_bytes(self.manifest()).len() == self.manifest_len,
            self.manifest().entries.len() == self.entries@.len(),
            forall|i: int| 0 <= i < self.manifest().entries.len() ==> entry_fits(#[trigger] self.manifest().entries[i]),
    {
        let m = self.manifest();
        assert forall|i: int| 0 <= i < self.done@.len() implies (#[trigger] self.done@[i]).name@.len() <= u32::MAX
            && self.done@[i].metadata@.len() <= u32::MAX by {
            assert(self.done@[i].model() == self.entries@[i].model(
                self.done@[i].original_size,
                self.done@[i].compressed_size,
                self.done@[i].crc32,
            ));
        }
        let a = written_models(self.done@);
        let b = declared_models(self.entries@);
        assert forall|i: int| 0 <= i < a.len() implies (#[trigger] a[i]).name.len() == b[i].name.len()
            && a[i].metadata.len() == b[i].metadata.len() by {
            assert(self.done@[i].model() == self.entries@[i].model(
                self.done@[i].original_size,
                self.done@[i].compressed_size,
                self.done@[i].crc32,
            ));
        }
        lemma_entries_len_same(a, b);
        lemma_entries_len(a);
        reveal(manifest_bytes);
        assert(manifest_bytes(m).len() == self.manifest_len);
        assert forall|i: int| 0 <= i < m.entries.len() implies entry_fits(#[trigger] m.entries[i]) by {
            assert(self.done@[i].model() == self.entries@[i].model(
                self.done@[i].original_size,
                self.done@[i].compressed_size,
                self.done@[i].crc32,
            ));
        }
    }

    fn sign(&self) -> (r: Vec<u8>)
        requires
            self.alias@.len() <= u32::MAX,
            self.metadata@.len() <= u32::MAX,
            forall|i: int|
                0 <= i < self.entries@.len() ==> (#[trigger] self.entries@[i]).name@.len() <= u32::MAX
                    && self.entries@[i].metadata@.len() <= u32::MAX,
            self.manifest_len == 18 + self.alias@.len() + self.metadata@.len() + entries_len(
                declared_models(self.entries@),
            ),
            self.done@.len() == self.entries@.len(),
            forall|i: int|
                0 <= i < self.done@.len() ==> (#[trigger] self.done@[i]).model() == self.entries@[i].model(
                    self.done@[i].original_size,
                    self.done@[i].compressed_size,
                    self.done@[i].crc32,
                ),
        ensures
            r@ == archive_bytes(self.stub@, self.manifest(), self.payload@, self.kind),
            self.kind.digest(signed_bytes(self.stub@, self.manifest(), self.payload@)).len() == self.kind.len(),
    {
        let ghost m = self.manifest();
        proof {
            self.lemma_manifest_len();
        }
        let mut out = copy_range(self.stub.as_slice(), 0, self.stub.len());
        push_u32(&mut out, self.manifest_len as u32);
        write_manifest(
            &mut out,
            self.entries.len() as u32,
            self.global_flags,
            &self.alias,
            &self.metadata,
            &self.done,
        );
        push_all(&mut out, self.payload.as_slice());
        assert(out@ =~= signed_bytes(self.stub@, m, self.payload@));
        let mut sig = Signature::new(self.kind);
        sig.write(out.as_slice());
        let digest = sig.finalize();
        push_all(&mut out, digest.as_slice());
        push_u32(&mut out, self.kind.to_save_id());
        push_all(&mut out, &[0x47u8, 0x42, 0x4d, 0x42]);
        assert(out@ =~= archive_bytes(self.stub@, m, self.payload@, self.kind));
        out
    }
}

impl NeedEntries {
    /// Ends the declarations. With no entry declared the archive is signed
    /// and complete at once.
    pub fn contents(self) -> (r: Contents)
        requires
            self.wf(),
        ensures
            r.wf(),
            r.stub() == self.stub(),
            r.kind() == self.kind(),
            r.declared() == self.declared(),
            r.declared().len() <= u32::MAX,
            r.manifest() == (ManifestModel {
                num_files: self.declared().len() as u32,
                api: API_VERSION,
                flags: self.global_flags(),
                alias: self.alias(),
                metadata: self.metadata(),
                entries: r.written(),
            }),
            r.written().len() == 0,
            r.payload().len() == 0,
            r.fed().len() == 0,
            !r.poisoned(),
            r.output() is Some <==> r.declared().len() == 0,
            r.output() matches Some(o) ==> o == archive_bytes(r.stub(), r.manifest(), r.payload(), r.kind()),
    {
        let c = Contents {
            stub: self.stub,
            alias: self.alias,
            metadata: self.metadata,
            kind: self.signature.kind(),
            entries: self.entries,
            global_flags: self.global_flags,
            manifest_len: self.manifest_len,
            done: Vec::new(),
            payload: Vec::new(),
            poisoned: false,
            output: None,
            fed: Ghost(Seq::empty()),
        };
        assert(written_models(c.done@) =~= Seq::<EntryModel>::empty());
        assert(c.payload@ =~= stored_concat(c.entries@, c.fed@, 0));
        proof {
            lemma_entries_len_min(declared_models(c.entries@));
        }
        if c.entries.len() == 0 {
            let out = c.sign();
            Contents { output: Some(out), ..c }
        } else {
            c
        }
    }
}

impl Contents {
    /// Feeds the content of the next declared entry: it is compressed as
    /// declared, its sizes and checksum are recorded, and after the last
    /// entry the archive is signed. Any failure poisons the writer, and
    /// every later call fails with `FeedAfterError`; an archive that was
    /// already complete stays complete.
    pub fn feed(&mut self, content: &[u8]) -> (r: Result<(), Write>)
        requires
            old(self).wf(),
        ensures
            final(self).wf(),
            final(self).stub() == old(self).stub(),
            final(self).kind() == old(self).kind(),
            final(self).declared() == old(self).declared(),
            final(self).manifest() == (ManifestModel { entries: final(self).written(), ..old(self).manifest() }),
            old(self).poisoned() ==> r == Err::<(), Write>(Write::FeedAfterError) && final(self).poisoned(),
            !old(self).poisoned() && old(self).written().len() == old(self).declared().len() ==> r == Err::<(), Write>(
                Write::FeedTooMany,
            ) && final(self).poisoned(),
            !old(self).poisoned() && old(self).written().len() < old(self).declared().len() ==> {
                let w = old(self).declared()[old(self).written().len() as int];
                let encoded = w.compression.encoded(content@);
                let stored = encoded->Some_0;
                &&& (r is Ok <==> content@.len() <= u32::MAX && encoded is Some && stored.len() <= u32::MAX)
                &&& match r {
                    Ok(()) => {
                        &&& content@.len() <= u32::MAX
                        &&& stored.len() <= u32::MAX
                        &&& final(self).written() == old(self).written().push(
                            w.model(content@.len() as u32, stored.len() as u32, crc32_of(content@)),
                        )
                        &&& final(self).payload() == old(self).payload() + stored
                        &&& final(self).fed() == old(self).fed().push(content@)
                        &&& !final(self).poisoned()
                    },
                    Err(e) => {
                        &&& final(self).poisoned()
                        &&& content@.len() > u32::MAX ==> e == Write::ContentTooLarge
                        &&& content@.len() <= u32::MAX && encoded is None ==> e == Write::Io
                        &&& content@.len() <= u32::MAX && encoded is Some ==> e == Write::ContentTooLarge
                    },
                }
            },
            r is Err ==> final(self).written() == old(self).written() && final(self).payload() == old(self).payload()
                && final(self).fed() == old(self).fed() && final(self).output() == old(self).output(),
            final(self).output() is Some <==> final(self).written().len() == final(self).declared().len(),
            final(self).output() matches Some(o) ==> o == archive_bytes(
                final(self).stub(),
                final(self).manifest(),
                final(self).payload(),
                final(self).kind(),
            ),
    {
        if self.poisoned {
            return Err(Write::FeedAfterError);
        }
        let i = self.done.len();
        if i >= self.entries.len() {
            self.poisoned = true;
            return Err(Write::FeedTooMany);
        }
        if content.len() as u64 > 0xffff_ffff {
            self.poisoned = true;
            return Err(Write::ContentTooLarge);
        }
        let compression = self.entries[i].compression;
        let stored = match compression.encode(content) {
            Ok(v) => v,
            Err(e) => {
                self.poisoned = true;
                return Err(e);
            },
        };
        if stored.len() as u64 > 0xffff_ffff {
            self.poisoned = true;
            return Err(Write::ContentTooLarge);
        }
        let crc = crc32(content);
        let w = &self.entries[i];
        let entry = FileEntry {
            name: copy_range(w.name.as_slice(), 0, w.name.len()),
            original_size: content.len() as u32,
            timestamp: w.timestamp,
            compressed_size: stored.len() as u32,
            crc32: crc,
            flags: FileFlags(w.flags),
            metadata: copy_range(w.metadata.as_slice(), 0, w.metadata.len()),
        };
        assert(entry.name@ =~= w.name@);
        assert(entry.metadata@ =~= w.metadata@);
        assert(entry.model() == w.model(entry.original_size, entry.compressed_size, entry.crc32));
        let ghost old_written = self.written();
        let ghost old_done = self.done@;
        let ghost old_fed = self.fed@;
        self.done.push(entry);
        push_all(&mut self.payload, stored.as_slice());
        self.fed = Ghost(self.fed@.push(content@));
        proof {
            lemma_stored_concat_prefix(self.entries@, old_fed, self.fed@, old_fed.len());
            assert forall|k: int| 0 <= k < self.done@.len() implies (#[trigger] self.done@[k]).compressed_size
                == self.entries@[k].compression.encoded(self.fed@[k])->Some_0.len() && self.done@[k].original_size
                == self.fed@[k].len() && self.done@[k].crc32 == crc32_of(self.fed@[k]) by {
                if k < old_done.len() {
                    assert(self.done@[k] == old_done[k]);
                    assert(self.fed@[k] == old_fed[k]);
                }
            }
            assert forall|k: int| 0 <= k < self.fed@.len() implies (#[trigger] self.entries@[k].compression.encoded(
                self.fed@[k],
            )) is Some by {
                if k < old_fed.len() {
                    assert(self.fed@[k] == old_fed[k]);
                }
            }
        }
        proof {
            let nw = written_models(self.done@);
            assert(nw =~= old_written.push(entry.model()));
            assert(nw.drop_last() =~= old_written);
            assert forall|k: int| 0 <= k < self.done@.len() implies (#[trigger] self.done@[k]).model() == self.entries@[k].model(
                self.done@[k].original_size,
                self.done@[k].compressed_size,
                self.done@[k].crc32,
            ) by {
                if k < old_done.len() {
                    assert(self.done@[k] == old_done[k]);
                }
            }
        }
        if self.done.len() == self.entries.len() {
            let out = self.sign();
            self.output = Some(out);
        }
        Ok(())
    }
}

/// Each entry takes at least 28 manifest bytes.
proof fn lemma_entries_len_min(es: Seq<EntryModel>)
    ensures
        entries_len(es) >= 28 * es.len(),
    decreases es.len(),
{
    if es.len() > 0 {
        lemma_entries_len_min(es.drop_last());
    }
}

/// An archive that the writer completed reads back: with or without
/// signature verification, whether or not entries are scanned, the reader
/// finds the stub, the alias, the global metadata and every entry as
/// written (name, metadata, timestamp, flags with the permission bits,
/// sizes and checksum), with the stored contents back to back from the
/// content start. The stub must hold no terminator before its end (see
/// `laws::lemma_stub_ok_of_input` for a stub given to `NeedStub::stub`).
pub proof fn lemma_written_archive_reads_back(c: Contents, verify: bool, scan: bool)
    requires
        c.wf(),
        c.output() is Some,
        crate::laws::stub_ok(c.stub()),
    ensures
        crate::format::parse_archive(c.output()->Some_0, verify, scan) == Ok::<crate::format::ArchiveModel, crate::error::Open>(
            crate::format::ArchiveModel {
                stub: c.stub(),
                manifest: crate::laws::as_scanned(c.manifest(), scan),
                content_start: c.stub().len() + 4 + manifest_bytes(c.manifest()).len(),
            },
        ),
        c.manifest().num_files == c.declared().len(),
        c.manifest().entries.len() == c.declared().len(),
        c.payload().len() == content_len(c.manifest().entries),
        forall|i: int|
            0 <= i < c.declared().len() ==> #[trigger] c.manifest().entries[i] == c.declared()[i].model(
                c.fed()[i].len() as u32,
                c.declared()[i].compression.encoded(c.fed()[i])->Some_0.len() as u32,
                crc32_of(c.fed()[i]),
            ),
{
    let m = c.manifest();
    lemma_entries_len_min(declared_models(c.entries@));
    assert(c.entries@.len() <= u32::MAX);
    c.lemma_manifest_len();
    assert forall|i: int| 0 <= i < c.declared().len() implies #[trigger] c.manifest().entries[i] == c.declared()[i].model(
        c.fed()[i].len() as u32,
        c.declared()[i].compression.encoded(c.fed()[i])->Some_0.len() as u32,
        crc32_of(c.fed()[i]),
    ) by {
        assert(c.done@[i].model() == c.entries@[i].model(
            c.done@[i].original_size,
            c.done@[i].compressed_size,
            c.done@[i].crc32,
        ));
    }
    crate::laws::lemma_round_trip(c.stub@, m, c.payload@, c.kind, verify, scan);
}

/// The stored contents of the first `n` fed contents, back to back.
pub open spec fn stored_concat(ws: Seq<WriteEntry>, fed: Seq<Seq<u8>>, n: nat) -> Seq<u8>
    decreases n,
{
    if n == 0 {
        Seq::empty()
    } else {
        stored_concat(ws, fed, (n - 1) as nat) + ws[n - 1].compression.encoded(fed[n - 1])->Some_0
    }
}

/// The concatenation only reads the first `n` contents.
proof fn lemma_stored_concat_prefix(ws: Seq<WriteEntry>, a: Seq<Seq<u8>>, b: Seq<Seq<u8>>, n: nat)
    requires
        n <= a.len(),
        n <= b.len(),
        forall|i: int| 0 <= i < n ==> a[i] == b[i],
    ensures
        stored_concat(ws, a, n) == stored_concat(ws, b, n),
    decreases n,
{
    if n > 0 {
        lemma_stored_concat_prefix(ws, a, b, (n - 1) as nat);
    }
}

impl Contents {
    /// The contents fed so far, as given.
    pub closed spec fn fed(&self) -> Seq<Seq<u8>> {
        self.fed@
    }

    /// Within the stored contents, entry `i` is its fed content as its
    /// declared compression stores it.
    proof fn lemma_payload_slices(&self, i: int, n: nat)
        requires
            self.wf(),
            0 <= i < n <= self.done@.len(),
        ensures
            content_len(self.written().take(n as int)) == stored_concat(self.entries@, self.fed@, n).len(),
            stored_concat(self.entries@, self.fed@, n).subrange(
                content_len(self.written().take(i)) as int,
                content_len(self.written().take(i + 1)) as int,
            ) == self.entries@[i].compression.encoded(self.fed@[i])->Some_0,
        decreases n,
    {
        let es = self.written();
        let prev = stored_concat(self.entries@, self.fed@, (n - 1) as nat);
        let last = self.entries@[n - 1].compression.encoded(self.fed@[n - 1])->Some_0;
        crate::format::lemma_content_len_step(es, n - 1);
        assert(es[n - 1] == self.done@[n - 1].model());
        if n - 1 > 0 {
            self.lemma_payload_slices(0, (n - 1) as nat);
        } else {
            assert(es.take(0) =~= Seq::<EntryModel>::empty());
        }
        if i < n - 1 {
            self.lemma_payload_slices(i, (n - 1) as nat);
            crate::index::lemma_content_len_prefix(es.take(n - 1), i + 1);
            assert(es.take(n - 1).take(i + 1) =~= es.take(i + 1));
            crate::format::lemma_content_len_step(es, i);
            assert(content_len(es.take(i + 1)) <= prev.len());
            assert((prev + last).subrange(
                content_len(es.take(i)) as int,
                content_len(es.take(i + 1)) as int,
            ) =~= prev.subrange(content_len(es.take(i)) as int, content_len(es.take(i + 1)) as int));
        } else {
            assert((prev + last).subrange(prev.len() as int, (prev + last).len() as int) =~= last);
        }
    }
}

/// Each entry of an archive that the writer completed reads back as its fed
/// content: a reader finds its stored bytes exactly where its manifest entry
/// says, and decodes them with the compression its flags name. A stored
/// (uncompressed) entry gives back exactly the content fed.
pub proof fn lemma_written_contents_read_back(c: Contents, i: int)
    requires
        c.wf(),
        c.output() is Some,
        0 <= i < c.declared().len(),
    ensures
        crate::format::entry_content(
            c.output()->Some_0,
            c.manifest().entries,
            c.stub().len() + 4 + manifest_bytes(c.manifest()).len(),
            i,
        ) == c.declared()[i].compression.decoded(c.declared()[i].compression.encoded(c.fed()[i])->Some_0),
        c.declared()[i].compression == Compression::Stored ==> crate::format::entry_content(
            c.output()->Some_0,
            c.manifest().entries,
            c.stub().len() + 4 + manifest_bytes(c.manifest()).len(),
            i,
        ) == Some(c.fed()[i]),
{
    let es = c.written();
    let n = c.done@.len();
    let cs = c.stub().len() + 4 + manifest_bytes(c.manifest()).len();
    let d = c.output()->Some_0;
    c.lemma_payload_slices(i, n);
    assert(es.take(n as int) =~= es);
    crate::index::lemma_content_len_prefix(es, i + 1);
    crate::format::lemma_content_len_step(es, i);
    let s = signed_bytes(c.stub@, c.manifest(), c.payload@);
    let pre = c.stub@ + le_u32(manifest_bytes(c.manifest()).len() as u32) + manifest_bytes(c.manifest());
    assert(pre.len() == cs);
    assert(d =~= pre + c.payload@ + (c.kind.digest(s) + le_u32(c.kind.id()) + magic()));
    let a = content_len(es.take(i));
    let b = content_len(es.take(i + 1));
    assert(d.subrange((cs + a) as int, (cs + b) as int) =~= c.payload@.subrange(a as int, b as int));
    let w = c.entries@[i];
    let f = w.flags;
    assert(es[i] == c.done@[i].model());
    assert(f & !MODE_MASK == w.compression.flag());
    assert(f & !0x1ffu32 == 0x1000u32 ==> f & 0x1000u32 != 0) by (bit_vector);
    assert(f & !0x1ffu32 == 0x2000u32 ==> f & 0x1000u32 == 0 && f & 0x2000u32 != 0) by (bit_vector);
    assert(f & !0x1ffu32 == 0u32 ==> f & 0x1000u32 == 0 && f & 0x2000u32 == 0) by (bit_vector);
}

} // verus!
