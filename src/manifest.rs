//! A manifest parsed whole, every entry held in memory.
use vstd::prelude::*;

use crate::entry::{Entry, FileEntry, FileFlags};
use crate::error::Open;
use crate::format::{take_entries, take_entry, take_manifest, EntryModel, ManifestModel};
use crate::section::{read_u16_in, read_u32_in, Section};

verus! {

/// The manifest fields, with every entry.
pub struct Parsed {
    pub num_files: u32,
    pub api: u16,
    pub flags: u32,
    pub alias: Vec<u8>,
    pub metadata: Vec<u8>,
    pub entries: Vec<FileEntry>,
}

impl Parsed {
    /// The manifest as the layout sees it.
    pub open spec fn model(&self) -> ManifestModel {
        ManifestModel {
            num_files: self.num_files,
            api: self.api,
            flags: self.flags,
            alias: self.alias@,
            metadata: self.metadata@,
            entries: Seq::new(self.entries@.len(), |i: int| self.entries@[i].model()),
        }
    }
}

/// The bytes of a section held in memory.
fn into_bytes(s: Section, Ghost(d): Ghost<Seq<u8>>) -> (r: Vec<u8>)
    requires
        s is Cached,
    ensures
        r@ == s.bytes(d),
{
    match s {
        Section::Cached(v) => v,
        Section::Offset(_, _) => Vec::new(),
    }
}

/// Parses the manifest region `d`, entries included.
pub fn read(d: &[u8]) -> (r: Result<Parsed, Open>)
    ensures
        match take_manifest(d@, true) {
            Some(m) => r matches Ok(p) && p.model() == m,
            None => r == Err::<Parsed, Open>(Open::UnexpectedEof),
        },
{
    proof {
        reveal(take_manifest);
    }
    let end = d.len();
    assert(d@.subrange(0, end as int) =~= d@);
    let num_files = match read_u32_in(d, 0, end) {
        Some(v) => v,
        None => return Err(Open::UnexpectedEof),
    };
    let api = match read_u16_in(d, 4, end) {
        Some(v) => v,
        None => return Err(Open::UnexpectedEof),
    };
    let flags = match read_u32_in(d, 6, end) {
        Some(v) => v,
        None => return Err(Open::UnexpectedEof),
    };
    let (alias, after_alias) = match Section::read_bstr(d, 10, end, true) {
        Some(x) => x,
        None => return Err(Open::UnexpectedEof),
    };
    let (metadata, after_meta) = match Section::read_bstr(d, after_alias, end, true) {
        Some(x) => x,
        None => return Err(Open::UnexpectedEof),
    };
    let alias = into_bytes(alias, Ghost(d@));
    let metadata = into_bytes(metadata, Ghost(d@));
    let entries = match read_file_entries(d, after_meta, end, num_files) {
        Some(v) => v,
        None => return Err(Open::UnexpectedEof),
    };
    let parsed = Parsed { num_files, api, flags, alias, metadata, entries };
    assert(parsed.model().entries =~= take_entries(d@.subrange(after_meta as int, end as int), num_files as nat)->Some_0.0);
    Ok(parsed)
}

/// Parses `num_files` entries in `d[start..end]`, every field in memory.
fn read_file_entries(d: &[u8], start: usize, end: usize, num_files: u32) -> (r: Option<Vec<FileEntry>>)
    requires
        start <= end <= d@.len(),
    ensures
        match take_entries(d@.subrange(start as int, end as int), num_files as nat) {
            Some((es, _)) => r matches Some(v) && v@.len() == es.len() && forall|k: int|
                0 <= k < es.len() ==> (#[trigger] v@[k]).model() == es[k],
            None => r is None,
        },
{
    let first = start;
    let mut entries: Vec<FileEntry> = Vec::new();
    let ghost mut es: Seq<EntryModel> = Seq::empty();
    let mut p = first;
    let mut i: u32 = 0;
    assert(take_entries(d@.subrange(first as int, end as int), 0) == Some(
        (Seq::<EntryModel>::empty(), d@.subrange(first as int, end as int)),
    ));
    while i < num_files
        invariant
            first == start,
            first <= p <= end <= d@.len(),
            i <= num_files,
            es.len() == i,
            entries@.len() == i,
            forall|k: int| 0 <= k < i ==> (#[trigger] entries@[k]).model() == es[k],
            take_entries(d@.subrange(first as int, end as int), i as nat) == Some(
                (es, d@.subrange(p as int, end as int)),
            ),
        decreases num_files - i,
    {
        match Entry::parse(d, p, end, true, true) {
            Some((entry, q)) => {
                let ghost m = entry.model(d@);
                let Entry {
                    name,
                    original_file_size,
                    time,
                    compressed_file_size,
                    original_crc32,
                    flags,
                    metadata,
                } = entry;
                let fe = FileEntry {
                    name: into_bytes(name, Ghost(d@)),
                    original_size: original_file_size,
                    timestamp: time,
                    compressed_size: compressed_file_size,
                    crc32: original_crc32,
                    flags: FileFlags(flags),
                    metadata: into_bytes(metadata, Ghost(d@)),
                };
                assert(fe.model() == m);
                entries.push(fe);
                proof {
                    es = es.push(m);
                }
                p = q;
                i = i + 1;
            },
            None => {
                proof {
                    assert(take_entry(d@.subrange(p as int, end as int)) is None);
                    assert(take_entries(d@.subrange(first as int, end as int), (i + 1) as nat) is None);
                    crate::reader::lemma_take_entries_none(
                        d@.subrange(first as int, end as int),
                        (i + 1) as nat,
                        num_files as nat,
                    );
                }
                return None;
            },
        }
    }
    Some(entries)
}

} // verus!
