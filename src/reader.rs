//! Opening an archive: stub scan, signature check, manifest parse and
//! index building, then access to stub, alias, metadata and files.
use vstd::prelude::*;

use crate::bytes::{bytes_eq, copy_range, find_end, read_u32};
use crate::entry::Entry;
use crate::error::Open;
use crate::format::{
    clip, content_len, entry_content, entry_end, entry_error, entry_start, is_last,
    lemma_content_len_step, magic, parse_archive,
    parse_body, shown, stub_terminator, take_entries, take_entry, take_manifest, ArchiveModel,
    EntryModel, MANIFEST_MAX,
};
use crate::index::{FileIndex, IndexKind};
use crate::section::{read_u16_in, read_u32_in, Section};
use crate::signature::{Signature, SignatureType};

verus! {

/// The bytes of the stub terminator.
pub fn stub_terminator_bytes() -> (r: Vec<u8>)
    ensures
        r@ == stub_terminator(),
{
    let r = vec![
        0x5fu8, 0x5f, 0x48, 0x41, 0x4c, 0x54, 0x5f, 0x43, 0x4f, 0x4d, 0x50, 0x49, 0x4c, 0x45,
        0x52, 0x28, 0x29, 0x3b, 0x20, 0x3f, 0x3e, 0x0d, 0x0a,
    ];
    assert(r@ =~= stub_terminator());
    r
}

/// How a reader treats an archive.
pub struct Options {
    /// Whether the stub is held in memory.
    pub cache_stub: bool,
    /// Whether the alias is held in memory.
    pub cache_alias: bool,
    /// Whether the global metadata is held in memory.
    pub cache_metadata: bool,
    /// Whether the signature is checked.
    pub verify_signature: bool,
}

impl Options {
    /// Everything held in memory, and the signature checked.
    pub fn new() -> (r: Self)
        ensures
            r.cache_stub && r.cache_alias && r.cache_metadata && r.verify_signature,
    {
        Options { cache_stub: true, cache_alias: true, cache_metadata: true, verify_signature: true }
    }
}

impl Default for Options {
    fn default() -> (r: Self)
        ensures
            r.cache_stub && r.cache_alias && r.cache_metadata && r.verify_signature,
    {
        Options::new()
    }
}

/// No run of `n` entries decodes where a shorter one does not.
pub proof fn lemma_take_entries_none(d: Seq<u8>, i: nat, n: nat)
    requires
        i <= n,
        take_entries(d, i) is None,
    ensures
        take_entries(d, n) is None,
    decreases n - i,
{
    if i < n {
        lemma_take_entries_none(d, i + 1, n);
    }
}

/// What the stub and manifest parse gives, before the signature check.
struct Body {
    stub: Section,
    num_files: u32,
    api: u16,
    flags: u32,
    alias: Section,
    metadata: Section,
    file_index: FileIndex,
    content_start: u64,
}

impl Body {
    spec fn holds(&self, d: Seq<u8>, a: ArchiveModel, kind: IndexKind) -> bool {
        &&& self.stub.within(d) && self.stub.bytes(d) == a.stub
        &&& self.alias.within(d) && self.alias.bytes(d) == a.manifest.alias
        &&& self.metadata.within(d) && self.metadata.bytes(d) == a.manifest.metadata
        &&& self.num_files == a.manifest.num_files
        &&& self.api == a.manifest.api
        &&& self.flags == a.manifest.flags
        &&& self.content_start == a.content_start
        &&& self.file_index.kind() == kind
        &&& self.file_index.holds(d, a.manifest.entries, a.content_start)
        &&& a.content_start + content_len(a.manifest.entries) <= u64::MAX
        &&& a.manifest.entries.len() == if kind.scans() { a.manifest.num_files as nat } else { 0 }
    }
}

/// Parses `num_files` entries in `d[start..end]` into the index.
fn read_entries(d: &[u8], start: usize, end: usize, num_files: u32, kind: IndexKind, file_index: &mut FileIndex)
    -> (r: bool)
    requires
        start <= end <= d@.len(),
        end - start <= MANIFEST_MAX,
        kind.scans(),
        old(file_index).kind() == kind,
        old(file_index).holds(d@, Seq::empty(), 0),
    ensures
        final(file_index).kind() == kind,
        match take_entries(d@.subrange(start as int, end as int), num_files as nat) {
            Some((es, _)) => r && final(file_index).holds(d@, es, 0) && content_len(es) <= 0x100000
                * 0xffff_ffff,
            None => !r,
        },
{
    let need_name = kind.requires_name();
    let need_meta = kind.requires_metadata();
    let ghost mut es: Seq<EntryModel> = Seq::empty();
    let mut p = start;
    let mut i: u32 = 0;
    assert(take_entries(d@.subrange(start as int, end as int), 0) == Some(
        (Seq::<EntryModel>::empty(), d@.subrange(start as int, end as int)),
    ));
    while i < num_files
        invariant
            start <= p <= end <= d@.len(),
            end - start <= MANIFEST_MAX,
            p - start >= 28 * i,
            i <= num_files,
            es.len() == i,
            content_len(es) <= i * 0xffff_ffff,
            need_name == kind.needs_name(),
            need_meta == kind.needs_metadata(),
            kind.scans(),
            file_index.kind() == kind,
            file_index.holds(d@, es, 0),
            take_entries(d@.subrange(start as int, end as int), i as nat) == Some(
                (es, d@.subrange(p as int, end as int)),
            ),
        decreases num_files - i,
    {
        let ghost before = es;
        match Entry::parse(d, p, end, need_name, need_meta) {
            Some((entry, q)) => {
                assert(take_entries(d@.subrange(start as int, end as int), (i + 1) as nat) == Some(
                    (es.push(entry.model(d@)), d@.subrange(q as int, end as int)),
                ));
                assert(content_len(es) + entry.compressed_file_size <= u64::MAX) by {
                    assert(i * 0xffff_ffff <= 0x100000 * 0xffff_ffff) by (nonlinear_arith)
                        requires
                            28 * i <= 0x100000,
                    ;
                }
                proof {
                    assert(es.push(entry.model(d@)).drop_last() =~= es);
                }
                file_index.feed_entry(entry, Ghost(d@), Ghost(es));
                proof {
                    es = es.push(entry.model(d@));
                    assert(content_len(es) <= (i + 1) * 0xffff_ffff) by (nonlinear_arith)
                        requires
                            content_len(es) <= content_len(before) + 0xffff_ffff,
                            content_len(before) <= i * 0xffff_ffff,
                    ;
                }
                p = q;
                i = i + 1;
            },
            None => {
                proof {
                    assert(take_entry(d@.subrange(p as int, end as int)) is None);
                    assert(take_entries(d@.subrange(start as int, end as int), (i + 1) as nat) is None);
                    lemma_take_entries_none(d@.subrange(start as int, end as int), (i + 1) as nat, num_files as nat);
                }
                return false;
            },
        }
    }
    assert(content_len(es) <= 0x100000 * 0xffff_ffff) by (nonlinear_arith)
        requires
            content_len(es) <= i * 0xffff_ffff,
            28 * i <= 0x100000,
    ;
    true
}

/// Parses the manifest region `d[start..end]`.
fn read_manifest(d: &[u8], start: usize, end: usize, options: &Options, kind: IndexKind) -> (r: Option<Body>)
    requires
        start <= end <= d@.len(),
        end - start <= MANIFEST_MAX,
    ensures
        match take_manifest(d@.subrange(start as int, end as int), kind.scans()) {
            Some(m) => r matches Some(b) && {
                &&& b.alias.within(d@) && b.alias.bytes(d@) == m.alias
                &&& b.metadata.within(d@) && b.metadata.bytes(d@) == m.metadata
                &&& b.num_files == m.num_files
                &&& b.api == m.api
                &&& b.flags == m.flags
                &&& b.file_index.kind() == kind
                &&& b.file_index.holds(d@, m.entries, 0)
                &&& content_len(m.entries) <= 0x100000 * 0xffff_ffff
                &&& m.entries.len() == if kind.scans() { m.num_files as nat } else { 0 }
            },
            None => r is None,
        },
{
    proof {
        reveal(take_manifest);
    }
    let num_files = match read_u32_in(d, start, end) {
        Some(v) => v,
        None => return None,
    };
    let api = match read_u16_in(d, start + 4, end) {
        Some(v) => v,
        None => return None,
    };
    let flags = match read_u32_in(d, start + 6, end) {
        Some(v) => v,
        None => return None,
    };
    let (alias, after_alias) = match Section::read_bstr(d, start + 10, end, options.cache_alias) {
        Some(x) => x,
        None => return None,
    };
    let (metadata, after_meta) = match Section::read_bstr(d, after_alias, end, options.cache_metadata) {
        Some(x) => x,
        None => return None,
    };
    proof {
        crate::format::lemma_take_entries_len(d@.subrange(after_meta as int, end as int), num_files as nat);
    }
    let mut file_index = FileIndex::new(kind);
    if kind.scan_files() {
        if !read_entries(d, after_meta, end, num_files, kind, &mut file_index) {
            return None;
        }
    }
    Some(
        Body {
            stub: Section::Offset(0, 0),
            num_files,
            api,
            flags,
            alias,
            metadata,
            file_index,
            content_start: 0,
        },
    )
}

/// Parses the stub and the manifest.
fn read_body(d: &[u8], options: &Options, kind: IndexKind) -> (r: Result<Body, Open>)
    requires
        d@.len() <= 0x7fff_ffff_ffff_ffff,
    ensures
        match parse_body(d@, kind.scans()) {
            Ok(a) => r matches Ok(b) && b.holds(d@, a, kind),
            Err(e) => r == Err::<Body, Open>(e),
        },
{
    proof {
        reveal(parse_body);
    }
    let len = d.len();
    let term = stub_terminator_bytes();
    let n = match find_end(d, term.as_slice()) {
        Some(n) => n,
        None => return Err(Open::NoHaltCompiler),
    };
    proof {
        crate::bytes::lemma_first_end(d@, term@);
    }
    let stub = if options.cache_stub {
        Section::Cached(copy_range(d, 0, n))
    } else {
        Section::Offset(0, n as u64)
    };
    let mlen = match read_u32_in(d, n, len) {
        Some(v) => v,
        None => return Err(Open::UnexpectedEof),
    };
    if mlen > MANIFEST_MAX {
        return Err(Open::ManifestTooLong);
    }
    let mstart = n + 4;
    let mend = if len - mstart >= mlen as usize {
        mstart + mlen as usize
    } else {
        len
    };
    assert(d@.subrange(n as int, len as int).subrange(4, len - n) =~= d@.subrange(mstart as int, len as int));
    assert(clip(d@.subrange(mstart as int, len as int), mlen as nat) =~= d@.subrange(mstart as int, mend as int));
    let body = match read_manifest(d, mstart, mend, options, kind) {
        Some(b) => b,
        None => return Err(Open::UnexpectedEof),
    };
    let content_start: u64 = n as u64 + 4 + mlen as u64;
    let Body { num_files, api, flags, alias, metadata, mut file_index, .. } = body;
    let ghost m = take_manifest(d@.subrange(mstart as int, mend as int), kind.scans())->Some_0;
    file_index.end_of_header(content_start, Ghost(d@), Ghost(m.entries));
    Ok(Body { stub, num_files, api, flags, alias, metadata, file_index, content_start })
}

/// An opened archive: its bytes, the stub, alias and metadata sections,
/// the manifest header and the file index.
pub struct Reader {
    data: Vec<u8>,
    stub: Section,
    num_files: u32,
    api: u16,
    flags: u32,
    alias: Section,
    metadata: Section,
    file_index: FileIndex,
    content_start: u64,
    archive: Ghost<ArchiveModel>,
}

impl Reader {
    /// The bytes of the archive.
    pub closed spec fn data(&self) -> Seq<u8> {
        self.data@
    }

    /// What was read from the archive.
    pub closed spec fn archive(&self) -> ArchiveModel {
        self.archive@
    }

    /// The kind of index kept.
    pub closed spec fn kind(&self) -> IndexKind {
        self.file_index.kind()
    }

    /// Whether the sections and the index agree with what was read.
    pub closed spec fn wf(&self) -> bool {
        Body {
            stub: self.stub,
            num_files: self.num_files,
            api: self.api,
            flags: self.flags,
            alias: self.alias,
            metadata: self.metadata,
            file_index: self.file_index,
            content_start: self.content_start,
        }.holds(self.data@, self.archive@, self.file_index.kind())
    }

    /// Opens the archive `data`: finds the stub, parses the manifest, builds
    /// an index of the given kind and, when `options` say so, checks the
    /// signature. Fails with the first error that `parse_archive` names.
    /// The archive is at most `isize::MAX` bytes, as any `Vec` is.
    pub fn read(data: Vec<u8>, options: Options, kind: IndexKind) -> (r: Result<Reader, Open>)
        requires
            data@.len() <= 0x7fff_ffff_ffff_ffff,
        ensures
            match parse_archive(data@, options.verify_signature, kind.scans()) {
                Ok(a) => r matches Ok(rd) && rd.wf() && rd.data() == data@ && rd.archive() == a && rd.kind()
                    == kind,
                Err(e) => r == Err::<Reader, Open>(e),
            },
    {
        proof {
            reveal(parse_archive);
        }
        let d = data.as_slice();
        let len = d.len();
        let mut check: Option<(SignatureType, usize)> = None;
        if options.verify_signature {
            if len < 4 {
                return Err(Open::UnexpectedEof);
            }
            if !(d[len - 4] == 0x47 && d[len - 3] == 0x42 && d[len - 2] == 0x4d && d[len - 1] == 0x42) {
                assert(d@.subrange(len - 4, len as int) != magic()) by {
                    if d@.subrange(len - 4, len as int) == magic() {
                        assert(d@.subrange(len - 4, len as int)[0] == d@[len - 4]);
                        assert(d@.subrange(len - 4, len as int)[1] == d@[len - 3]);
                        assert(d@.subrange(len - 4, len as int)[2] == d@[len - 2]);
                        assert(d@.subrange(len - 4, len as int)[3] == d@[len - 1]);
                    }
                }
                return Err(Open::BrokenSignature);
            }
            assert(d@.subrange(len - 4, len as int) =~= magic());
            if len < 8 {
                return Err(Open::UnexpectedEof);
            }
            let id = match read_u32(d, len - 8) {
                Some(v) => v,
                None => return Err(Open::UnexpectedEof),
            };
            let kind_of_sig = match SignatureType::from_save_id(id) {
                Some(k) => k,
                None => return Err(Open::UnknownSignatureKind),
            };
            let size = kind_of_sig.to_save_length() as usize;
            if len - 8 < size {
                return Err(Open::UnexpectedEof);
            }
            check = Some((kind_of_sig, len - 8 - size));
        }
        let body = match read_body(d, &options, kind) {
            Ok(b) => b,
            Err(e) => return Err(e),
        };
        let ghost a = parse_body(d@, kind.scans())->Ok_0;
        if let Some((sig_kind, sig_start)) = check {
            let fits = if kind.scan_files() {
                content_end(&body.file_index, body.content_start, Ghost(d@), Ghost(a.manifest.entries))
                    == sig_start as u64
            } else {
                body.content_start <= sig_start as u64
            };
            if !fits {
                return Err(Open::ContentTooLong);
            }
            let mut sig = Signature::new(sig_kind);
            let signed = copy_range(d, 0, sig_start);
            sig.write(signed.as_slice());
            let digest = sig.finalize();
            let expected = copy_range(d, sig_start, len - 8);
            if !bytes_eq(digest.as_slice(), expected.as_slice()) {
                return Err(Open::BrokenSignature);
            }
        }
        let Body { stub, num_files, api, flags, alias, metadata, file_index, content_start } = body;
        Ok(
            Reader {
                data,
                stub,
                num_files,
                api,
                flags,
                alias,
                metadata,
                file_index,
                content_start,
                archive: Ghost(a),
            },
        )
    }
}

impl Reader {
    /// The entries that walking the files visits, in order: all of them for
    /// `OffsetOnly`, and for the maps those that no later entry of the same
    /// name hides.
    pub open spec fn listed(&self) -> Seq<int> {
        let es = self.archive().manifest.entries;
        if self.kind() == IndexKind::OffsetOnly {
            Seq::new(es.len(), |i: int| i)
        } else if self.kind().needs_name() {
            shown(es)
        } else {
            Seq::empty()
        }
    }

    /// Whether walking the files visits entry `i`.
    pub open spec fn is_listed(&self, i: int) -> bool {
        let es = self.archive().manifest.entries;
        &&& 0 <= i < es.len()
        &&& self.kind() == IndexKind::OffsetOnly || is_last(es, i, es[i].name)
    }

    /// The stub, terminator included.
    pub fn stub_bytes(&self) -> (r: Vec<u8>)
        requires
            self.wf(),
        ensures
            r@ == self.archive().stub,
    {
        self.stub.as_memory(self.data.as_slice())
    }

    /// The alias.
    pub fn alias_bytes(&self) -> (r: Vec<u8>)
        requires
            self.wf(),
        ensures
            r@ == self.archive().manifest.alias,
    {
        self.alias.as_memory(self.data.as_slice())
    }

    /// The global metadata.
    pub fn metadata_bytes(&self) -> (r: Vec<u8>)
        requires
            self.wf(),
        ensures
            r@ == self.archive().manifest.metadata,
    {
        self.metadata.as_memory(self.data.as_slice())
    }

    /// The declared number of entries.
    pub fn num_files(&self) -> (r: u32)
        requires
            self.wf(),
        ensures
            r == self.archive().manifest.num_files,
    {
        self.num_files
    }

    /// The API version field.
    pub fn api(&self) -> (r: u16)
        requires
            self.wf(),
        ensures
            r == self.archive().manifest.api,
    {
        self.api
    }

    /// The global flags.
    pub fn flags(&self) -> (r: u32)
        requires
            self.wf(),
        ensures
            r == self.archive().manifest.flags,
    {
        self.flags
    }

    /// The offset of the first content byte.
    pub fn content_start(&self) -> (r: u64)
        requires
            self.wf(),
        ensures
            r == self.archive().content_start,
    {
        self.content_start
    }

    /// Walks the files that the index lists: each name with its content
    /// decompressed. Fails at the first listed file that runs past the
    /// archive or does not decode.
    pub fn files(&self) -> (r: Result<Vec<(Vec<u8>, Vec<u8>)>, Open>)
        requires
            self.wf(),
            self.kind().scans(),
        ensures
            match r {
                Ok(v) => v@.len() == self.listed().len() && forall|k: int|
                    0 <= k < v@.len() ==> (#[trigger] v@[k]).0@ == self.archive().manifest.entries[self.listed()[k]].name
                        && entry_content(
                        self.data(),
                        self.archive().manifest.entries,
                        self.archive().content_start,
                        self.listed()[k],
                    ) == Some(v@[k].1@),
                Err(e) => exists|i: int|
                    self.is_listed(i) && entry_content(
                        self.data(),
                        self.archive().manifest.entries,
                        self.archive().content_start,
                        i,
                    ) is None && e == entry_error(
                        self.data(),
                        self.archive().manifest.entries,
                        self.archive().content_start,
                        i,
                    ),
            },
            (forall|i: int|
                self.is_listed(i) ==> (#[trigger] entry_content(
                    self.data(),
                    self.archive().manifest.entries,
                    self.archive().content_start,
                    i,
                )) is Some) ==> r is Ok,
    {
        let ghost es = self.archive().manifest.entries;
        let ghost cs = self.archive().content_start;
        let d = self.data.as_slice();
        match &self.file_index {
            FileIndex::OffsetOnly(x) => {
                let r = x.files(d, Ghost(es), Ghost(cs));
                proof {
                    if r is Err {
                        let i = choose|i: int|
                            0 <= i < es.len() && entry_content(d@, es, cs, i) is None && r->Err_0 == entry_error(
                                d@,
                                es,
                                cs,
                                i,
                            );
                        assert(self.is_listed(i));
                    }
                    assert(self.listed() =~= Seq::new(es.len(), |i: int| i));
                    assert forall|k: int| 0 <= k < es.len() implies self.listed()[k] == k by {}
                    assert forall|i: int| self.is_listed(i) <==> 0 <= i < es.len() by {}
                }
                r
            },
            FileIndex::NameMap(x) => {
                assert(self.listed() == shown(es));
                let r = x.files(d, Ghost(es), Ghost(cs));
                proof {
                    if r is Err {
                        let i = choose|i: int|
                            is_last(es, i, es[i].name) && entry_content(d@, es, cs, i) is None && r->Err_0
                                == entry_error(d@, es, cs, i);
                        assert(self.is_listed(i));
                    }
                }
                r
            },
            FileIndex::MetadataMap(x) => {
                assert(self.listed() == shown(es));
                let r = x.files(d, Ghost(es), Ghost(cs));
                proof {
                    if r is Err {
                        let i = choose|i: int|
                            is_last(es, i, es[i].name) && entry_content(d@, es, cs, i) is None && r->Err_0
                                == entry_error(d@, es, cs, i);
                        assert(self.is_listed(i));
                    }
                }
                r
            },
            FileIndex::NoIndex(_) => Ok(Vec::new()),
        }
    }

    /// The byte range in the archive of the stored content of the last entry
    /// named `name`; its length is that entry's compressed size. None where
    /// no entry has that name, or the index is no map.
    pub fn lookup(&self, name: &[u8]) -> (r: Option<(u64, u64)>)
        requires
            self.wf(),
        ensures
            !self.kind().needs_name() ==> r is None,
            self.kind().needs_name() ==> match r {
                Some((s, e)) => exists|i: int|
                    is_last(self.archive().manifest.entries, i, name@) && s == entry_start(
                        self.archive().manifest.entries,
                        self.archive().content_start,
                        i,
                    ) && e == entry_end(self.archive().manifest.entries, self.archive().content_start, i) && e - s
                        == self.archive().manifest.entries[i].compressed_size,
                None => forall|i: int|
                    0 <= i < self.archive().manifest.entries.len() ==> (#[trigger] self.archive().manifest.entries[i]).name
                        != name@,
            },
    {
        let ghost es = self.archive().manifest.entries;
        let ghost cs = self.archive().content_start;
        let found = match &self.file_index {
            FileIndex::NameMap(x) => x.read_file(name, Ghost(es), Ghost(cs)),
            FileIndex::MetadataMap(x) => x.read_file(name, Ghost(self.data@), Ghost(es), Ghost(cs)),
            _ => return None,
        };
        match found {
            Some((s, e)) => {
                let ghost i = choose|i: int|
                    is_last(es, i, name@) && s == content_len(es.take(i)) && e == content_len(es.take(i + 1));
                proof {
                    lemma_content_len_step(es, i);
                    crate::index::lemma_content_len_prefix(es, i + 1);
                }
                let rs = self.content_start + s;
                let re = self.content_start + e;
                assert(is_last(es, i, name@) && rs == entry_start(es, cs, i) && re == entry_end(es, cs, i) && re - rs
                    == es[i].compressed_size);
                Some((rs, re))
            },
            None => None,
        }
    }
}

/// Where the content of the indexed entries ends.
fn content_end(file_index: &FileIndex, content_start: u64, Ghost(d): Ghost<Seq<u8>>, Ghost(es): Ghost<Seq<EntryModel>>) -> (r: u64)
    requires
        file_index.holds(d, es, content_start as nat),
        file_index.kind().scans(),
        content_start + content_len(es) <= u64::MAX,
    ensures
        r == content_start + content_len(es),
{
    file_index.content_len(Ghost(d), Ghost(es), Ghost(content_start as nat)) + content_start
}

/// Walking the files of an archive lists exactly its declared number of
/// entries, for every index that walks: `OffsetOnly` always, and the maps
/// where no two entries share a name (a later entry hides an earlier one of
/// the same name).
pub proof fn lemma_listed_count(rd: &Reader)
    requires
        rd.wf(),
        rd.kind().scans(),
        rd.kind().needs_name() ==> crate::format::names_distinct(rd.archive().manifest.entries),
    ensures
        rd.listed().len() == rd.archive().manifest.num_files,
{
    let es = rd.archive().manifest.entries;
    if rd.kind().needs_name() {
        crate::format::lemma_shown_distinct(es, 0);
    }
}

} // verus!
