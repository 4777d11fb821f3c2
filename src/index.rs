//! File indexes: what a reader keeps of the manifest entries, from nothing
//! to every field, and how it finds and walks the files.
use vstd::prelude::*;

use crate::bytes::{bytes_eq, copy_range};
use crate::compression::Compression;
use crate::entry::Entry;
use crate::error::Open;
use crate::section::Section;
use crate::format::{
    content_len, entry_content, entry_end, entry_error, entry_start, is_last, lemma_content_len_step,
    shown, shown_from, EntryModel,
};

verus! {

/// The content of the entry that spans `start..end` of `d`, decompressed
/// as `flags` say.
fn read_content(d: &[u8], start: u64, end: u64, flags: u32) -> (r: Result<Vec<u8>, Open>)
    requires
        start <= end,
    ensures
        end <= d@.len() ==> match Compression::of_flags(flags).decoded(d@.subrange(start as int, end as int)) {
            Some(c) => r matches Ok(v) && v@ == c,
            None => r == Err::<Vec<u8>, Open>(Open::BrokenContent),
        },
        end > d@.len() ==> r == Err::<Vec<u8>, Open>(Open::UnexpectedEof),
{
    let n = d.len();
    if end > n as u64 {
        return Err(Open::UnexpectedEof);
    }
    let stored = copy_range(d, start as usize, end as usize);
    match Compression::from_bit(flags).decode(stored.as_slice()) {
        Some(v) => Ok(v),
        None => Err(Open::BrokenContent),
    }
}

/// Keeps nothing of the entries; the reader then skips them.
pub struct NoIndex;

/// One entry of an `OffsetOnly` index.
pub struct OffsetOnlyEntry {
    name: Section,
    flags: u32,
    end_offset_from_co: u64,
}

/// Keeps each entry's name (in memory or as offsets), flags and where its
/// content ends; walks the files in archive order.
pub struct OffsetOnly {
    content_offset: u64,
    entries: Vec<OffsetOnlyEntry>,
}

impl OffsetOnly {
    /// Whether the index holds the entries `es` of the archive `d`, whose
    /// content starts at `cs`.
    pub closed spec fn holds(&self, d: Seq<u8>, es: Seq<EntryModel>, cs: nat) -> bool {
        &&& self.content_offset == cs
        &&& self.entries@.len() == es.len()
        &&& forall|i: int|
            0 <= i < es.len() ==> {
                &&& (#[trigger] self.entries@[i]).name.within(d)
                &&& self.entries@[i].name.bytes(d) == es[i].name
                &&& self.entries@[i].flags == es[i].flags
                &&& self.entries@[i].end_offset_from_co == content_len(es.take(i + 1))
            }
    }

    /// An empty index.
    pub fn new() -> (r: Self)
        ensures
            forall|d: Seq<u8>| r.holds(d, Seq::empty(), 0),
    {
        OffsetOnly { content_offset: 0, entries: Vec::new() }
    }

    /// Adds the next entry.
    pub fn feed_entry(&mut self, entry: Entry, Ghost(d): Ghost<Seq<u8>>, Ghost(es): Ghost<Seq<EntryModel>>)
        requires
            old(self).holds(d, es, 0),
            entry.within(d),
            content_len(es) + entry.compressed_file_size <= u64::MAX,
        ensures
            final(self).holds(d, es.push(entry.model(d)), 0),
    {
        let ghost es2 = es.push(entry.model(d));
        let prev: u64 = if self.entries.len() == 0 {
            0
        } else {
            self.entries[self.entries.len() - 1].end_offset_from_co
        };
        proof {
            assert(es2.take(es.len() as int) =~= es);
            if es.len() > 0 {
                assert(es.take(es.len() as int) =~= es);
            }
            lemma_content_len_step(es2, es.len() as int);
        }
        self.entries.push(
            OffsetOnlyEntry {
                name: entry.name,
                flags: entry.flags,
                end_offset_from_co: prev + entry.compressed_file_size as u64,
            },
        );
        proof {
            assert forall|i: int| 0 <= i < es.len() implies #[trigger] content_len(es2.take(i + 1)) == content_len(
                es.take(i + 1),
            ) by {
                assert(es2.take(i + 1) =~= es.take(i + 1));
            }
        }
    }

    /// Records where the content starts.
    pub fn end_of_header(&mut self, offset: u64, Ghost(d): Ghost<Seq<u8>>, Ghost(es): Ghost<Seq<EntryModel>>)
        requires
            old(self).holds(d, es, 0),
        ensures
            final(self).holds(d, es, offset as nat),
    {
        self.content_offset = offset;
    }

    /// The total compressed size of the entries.
    pub fn content_len(&self, Ghost(d): Ghost<Seq<u8>>, Ghost(es): Ghost<Seq<EntryModel>>, Ghost(cs): Ghost<nat>) -> (r: u64)
        requires
            self.holds(d, es, cs),
        ensures
            r == content_len(es),
    {
        if self.entries.len() == 0 {
            0
        } else {
            assert(es.take(es.len() as int) =~= es);
            self.entries[self.entries.len() - 1].end_offset_from_co
        }
    }

    /// Every file in archive order: its name, and its content decompressed.
    /// Fails at the first file that runs past the archive or does not decode.
    pub fn files(&self, d: &[u8], Ghost(es): Ghost<Seq<EntryModel>>, Ghost(cs): Ghost<nat>) -> (r: Result<
        Vec<(Vec<u8>, Vec<u8>)>,
        Open,
    >)
        requires
            self.holds(d@, es, cs),
            cs + content_len(es) <= u64::MAX,
        ensures
            match r {
                Ok(v) => v@.len() == es.len() && forall|i: int|
                    0 <= i < es.len() ==> (#[trigger] v@[i]).0@ == es[i].name && entry_content(d@, es, cs, i)
                        == Some(v@[i].1@),
                Err(e) => exists|i: int|
                    0 <= i < es.len() && entry_content(d@, es, cs, i) is None && e == entry_error(d@, es, cs, i),
            },
            (forall|i: int| 0 <= i < es.len() ==> (#[trigger] entry_content(d@, es, cs, i)) is Some) ==> r is Ok,
    {
        let mut out: Vec<(Vec<u8>, Vec<u8>)> = Vec::new();
        let mut start: u64 = self.content_offset;
        let mut i: usize = 0;
        while i < self.entries.len()
            invariant
                self.holds(d@, es, cs),
                cs + content_len(es) <= u64::MAX,
                i <= es.len(),
                start == entry_start(es, cs, i as int),
                out@.len() == i,
                forall|k: int|
                    0 <= k < i ==> (#[trigger] out@[k]).0@ == es[k].name && entry_content(d@, es, cs, k) == Some(
                        out@[k].1@,
                    ),
            decreases es.len() - i,
        {
            proof {
                lemma_content_len_step(es, i as int);
                lemma_content_len_prefix(es, i as int + 1);
            }
            let e = &self.entries[i];
            let end = self.content_offset + e.end_offset_from_co;
            assert(end == entry_end(es, cs, i as int));
            let content = match read_content(d, start, end, e.flags) {
                Ok(c) => c,
                Err(err) => {
                    assert(e.flags == es[i as int].flags);
                    assert(entry_content(d@, es, cs, i as int) is None);
                    assert(err == entry_error(d@, es, cs, i as int));
                    return Err(err);
                },
            };
            let name = e.name.as_memory(d);
            out.push((name, content));
            start = end;
            i = i + 1;
            proof {
                assert(es.take(i as int) =~= es.take(i as int));
            }
        }
        Ok(out)
    }
}

/// The content length of a prefix is at most that of the whole.
pub proof fn lemma_content_len_prefix(es: Seq<EntryModel>, i: int)
    requires
        0 <= i <= es.len(),
    ensures
        content_len(es.take(i)) <= content_len(es),
    decreases es.len() - i,
{
    if i < es.len() {
        lemma_content_len_step(es, i);
        lemma_content_len_prefix(es, i + 1);
    } else {
        assert(es.take(i) =~= es);
    }
}

/// One entry of a `NameMap` index.
pub struct NameMapEntry {
    name: Vec<u8>,
    flags: u32,
    start: u64,
    end: u64,
}

/// Keeps each entry's name, flags and content range, for lookup by name.
/// Where names repeat, the last entry of a name wins.
///
/// The entries are kept in a `Vec` in manifest order and looked up from the
/// end, so that lookups and walks are proved: vstd specifies `HashMap` and
/// `BTreeMap` for keys whose equality and hashing it models, which a byte
/// string key is not. Walks therefore visit files in manifest order.
pub struct NameMap {
    map: Vec<NameMapEntry>,
    last_offset: u64,
    content_offset: u64,
}

impl NameMap {
    /// Whether the index holds the entries `es`, whose content starts at `cs`.
    pub closed spec fn holds(&self, es: Seq<EntryModel>, cs: nat) -> bool {
        &&& self.content_offset == cs
        &&& self.last_offset == content_len(es)
        &&& self.map@.len() == es.len()
        &&& forall|i: int|
            0 <= i < es.len() ==> {
                &&& (#[trigger] self.map@[i]).name@ == es[i].name
                &&& self.map@[i].flags == es[i].flags
                &&& self.map@[i].start == content_len(es.take(i))
                &&& self.map@[i].end == content_len(es.take(i + 1))
            }
    }

    /// An empty index.
    pub fn new() -> (r: Self)
        ensures
            r.holds(Seq::empty(), 0),
    {
        NameMap { map: Vec::new(), last_offset: 0, content_offset: 0 }
    }

    /// Adds the next entry, whose name is in memory.
    pub fn feed_entry(&mut self, entry: Entry, Ghost(d): Ghost<Seq<u8>>, Ghost(es): Ghost<Seq<EntryModel>>)
        requires
            old(self).holds(es, 0),
            entry.name is Cached,
            content_len(es) + entry.compressed_file_size <= u64::MAX,
        ensures
            final(self).holds(es.push(entry.model(d)), 0),
    {
        let ghost m = entry.model(d);
        let name = match entry.name {
            Section::Cached(v) => v,
            Section::Offset(_, _) => Vec::new(),
        };
        self.push(name, entry.flags, entry.compressed_file_size, Ghost(es), Ghost(m));
    }

    /// Adds the next entry, given by its name, flags and compressed size.
    fn push(&mut self, name: Vec<u8>, flags: u32, size: u32, Ghost(es): Ghost<Seq<EntryModel>>, Ghost(m): Ghost<EntryModel>)
        requires
            old(self).holds(es, 0),
            name@ == m.name,
            flags == m.flags,
            size == m.compressed_size,
            content_len(es) + size <= u64::MAX,
        ensures
            final(self).holds(es.push(m), 0),
    {
        let ghost es2 = es.push(m);
        proof {
            assert(es2.take(es.len() as int) =~= es);
            lemma_content_len_step(es2, es.len() as int);
            assert forall|i: int| 0 <= i < es.len() implies #[trigger] content_len(es2.take(i + 1)) == content_len(
                es.take(i + 1),
            ) && content_len(es2.take(i)) == content_len(es.take(i)) by {
                assert(es2.take(i + 1) =~= es.take(i + 1));
                assert(es2.take(i) =~= es.take(i));
            }
            assert(es2.take(es2.len() as int) =~= es2);
        }
        let start = self.last_offset;
        let end = start + size as u64;
        self.last_offset = end;
        self.map.push(NameMapEntry { name, flags, start, end });
        assert forall|i: int| 0 <= i < es2.len() implies {
            &&& (#[trigger] self.map@[i]).name@ == es2[i].name
            &&& self.map@[i].flags == es2[i].flags
            &&& self.map@[i].start == content_len(es2.take(i))
            &&& self.map@[i].end == content_len(es2.take(i + 1))
        } by {
            if i < es.len() {
                assert(self.map@[i] == old(self).map@[i]);
            }
        }
    }

    /// Records where the content starts.
    pub fn end_of_header(&mut self, offset: u64, Ghost(es): Ghost<Seq<EntryModel>>)
        requires
            old(self).holds(es, 0),
        ensures
            final(self).holds(es, offset as nat),
    {
        self.content_offset = offset;
    }

    /// The total compressed size of the entries.
    pub fn content_len(&self, Ghost(es): Ghost<Seq<EntryModel>>, Ghost(cs): Ghost<nat>) -> (r: u64)
        requires
            self.holds(es, cs),
        ensures
            r == content_len(es),
    {
        self.last_offset
    }

    /// The content range, from the content start, of the last entry named
    /// `name`; none if no entry has that name.
    pub fn read_file(&self, name: &[u8], Ghost(es): Ghost<Seq<EntryModel>>, Ghost(cs): Ghost<nat>) -> (r: Option<(u64, u64)>)
        requires
            self.holds(es, cs),
        ensures
            match r {
                Some((s, e)) => exists|i: int|
                    is_last(es, i, name@) && s == content_len(es.take(i)) && e == content_len(es.take(i + 1)),
                None => forall|i: int| 0 <= i < es.len() ==> (#[trigger] es[i]).name != name@,
            },
    {
        match self.find_last(name, Ghost(es), Ghost(cs)) {
            Some(i) => Some((self.map[i].start, self.map[i].end)),
            None => None,
        }
    }

    /// The position of the last entry named `name`.
    fn find_last(&self, name: &[u8], Ghost(es): Ghost<Seq<EntryModel>>, Ghost(cs): Ghost<nat>) -> (r: Option<usize>)
        requires
            self.holds(es, cs),
        ensures
            match r {
                Some(i) => is_last(es, i as int, name@),
                None => forall|i: int| 0 <= i < es.len() ==> (#[trigger] es[i]).name != name@,
            },
    {
        let mut k: usize = self.map.len();
        while k > 0
            invariant
                self.holds(es, cs),
                k <= es.len(),
                forall|j: int| k <= j < es.len() ==> (#[trigger] es[j]).name != name@,
            decreases k,
        {
            k = k - 1;
            assert(self.map@[k as int].name@ == es[k as int].name);
            if bytes_eq(self.map[k].name.as_slice(), name) {
                return Some(k);
            }
        }
        None
    }

    /// Whether no later entry has the name of the entry at `i`.
    fn is_shown(&self, i: usize, Ghost(es): Ghost<Seq<EntryModel>>, Ghost(cs): Ghost<nat>) -> (r: bool)
        requires
            self.holds(es, cs),
            i < es.len(),
        ensures
            r == is_last(es, i as int, es[i as int].name),
    {
        let n = self.map.len();
        let mut j: usize = i + 1;
        assert(self.map@[i as int].name@ == es[i as int].name);
        while j < n
            invariant
                self.holds(es, cs),
                n == es.len(),
                i < j <= es.len(),
                forall|k: int| i < k < j ==> (#[trigger] es[k]).name != es[i as int].name,
            decreases es.len() - j,
        {
            assert(self.map@[j as int].name@ == es[j as int].name);
            if bytes_eq(self.map[j].name.as_slice(), self.map[i].name.as_slice()) {
                return false;
            }
            j = j + 1;
        }
        true
    }

    /// Every file that no later file of the same name hides, in archive
    /// order: its name, and its content decompressed. Fails at the first
    /// such file that runs past the archive or does not decode.
    pub fn files(&self, d: &[u8], Ghost(es): Ghost<Seq<EntryModel>>, Ghost(cs): Ghost<nat>) -> (r: Result<
        Vec<(Vec<u8>, Vec<u8>)>,
        Open,
    >)
        requires
            self.holds(es, cs),
            cs + content_len(es) <= u64::MAX,
        ensures
            match r {
                Ok(v) => v@.len() == shown(es).len() && forall|k: int|
                    0 <= k < v@.len() ==> (#[trigger] v@[k]).0@ == es[shown(es)[k]].name && entry_content(
                        d@,
                        es,
                        cs,
                        shown(es)[k],
                    ) == Some(v@[k].1@),
                Err(e) => exists|i: int|
                    is_last(es, i, es[i].name) && entry_content(d@, es, cs, i) is None && e == entry_error(
                        d@,
                        es,
                        cs,
                        i,
                    ),
            },
            (forall|i: int| is_last(es, i, es[i].name) ==> (#[trigger] entry_content(d@, es, cs, i)) is Some)
                ==> r is Ok,
    {
        let mut out: Vec<(Vec<u8>, Vec<u8>)> = Vec::new();
        let ghost mut idx: Seq<int> = Seq::empty();
        let mut i: usize = 0;
        while i < self.map.len()
            invariant
                self.holds(es, cs),
                cs + content_len(es) <= u64::MAX,
                i <= es.len(),
                shown(es) == idx + shown_from(es, i as nat),
                out@.len() == idx.len(),
                forall|k: int|
                    0 <= k < idx.len() ==> (#[trigger] out@[k]).0@ == es[idx[k]].name && entry_content(
                        d@,
                        es,
                        cs,
                        idx[k],
                    ) == Some(out@[k].1@),
            decreases es.len() - i,
        {
            if self.is_shown(i, Ghost(es), Ghost(cs)) {
                proof {
                    lemma_content_len_step(es, i as int);
                    lemma_content_len_prefix(es, i as int + 1);
                }
                let e = &self.map[i];
                let start = self.content_offset + e.start;
                let end = self.content_offset + e.end;
                let content = match read_content(d, start, end, e.flags) {
                    Ok(c) => c,
                    Err(err) => {
                        assert(entry_content(d@, es, cs, i as int) is None);
                        assert(err == entry_error(d@, es, cs, i as int));
                        return Err(err);
                    },
                };
                let name = copy_range(e.name.as_slice(), 0, e.name.len());
                assert(name@ =~= es[i as int].name);
                out.push((name, content));
                proof {
                    assert(shown_from(es, i as nat) == seq![i as int] + shown_from(es, (i + 1) as nat));
                    assert(idx + shown_from(es, i as nat) =~= idx.push(i as int) + shown_from(es, (i + 1) as nat));
                    idx = idx.push(i as int);
                }
            } else {
                assert(shown_from(es, i as nat) == shown_from(es, (i + 1) as nat));
            }
            i = i + 1;
        }
        assert(shown_from(es, i as nat) =~= Seq::<int>::empty());
        assert(idx + Seq::<int>::empty() =~= idx);
        Ok(out)
    }
}

/// Keeps every field of each entry besides its content range, for lookup
/// by name. Where names repeat, the last entry of a name wins. Like
/// `NameMap`, on which it is built, it walks files in manifest order.
pub struct MetadataMap {
    map: NameMap,
    entries: Vec<Entry>,
}

impl MetadataMap {
    /// Whether the index holds the entries `es` of the archive `d`, whose
    /// content starts at `cs`.
    pub closed spec fn holds(&self, d: Seq<u8>, es: Seq<EntryModel>, cs: nat) -> bool {
        &&& self.map.holds(es, cs)
        &&& self.entries@.len() == es.len()
        &&& forall|i: int|
            0 <= i < es.len() ==> (#[trigger] self.entries@[i]).model(d) == es[i] && self.entries@[i].within(d)
    }

    /// An empty index.
    pub fn new() -> (r: Self)
        ensures
            forall|d: Seq<u8>| r.holds(d, Seq::empty(), 0),
    {
        MetadataMap { map: NameMap::new(), entries: Vec::new() }
    }

    /// Adds the next entry, whose name and metadata are in memory.
    pub fn feed_entry(&mut self, entry: Entry, Ghost(d): Ghost<Seq<u8>>, Ghost(es): Ghost<Seq<EntryModel>>)
        requires
            old(self).holds(d, es, 0),
            entry.name is Cached,
            entry.metadata is Cached,
            entry.within(d),
            content_len(es) + entry.compressed_file_size <= u64::MAX,
        ensures
            final(self).holds(d, es.push(entry.model(d)), 0),
    {
        let ghost m = entry.model(d);
        let name = match &entry.name {
            Section::Cached(v) => copy_range(v.as_slice(), 0, v.len()),
            Section::Offset(_, _) => Vec::new(),
        };
        assert(name@ =~= m.name);
        self.map.push(name, entry.flags, entry.compressed_file_size, Ghost(es), Ghost(m));
        self.entries.push(entry);
        assert(forall|i: int| 0 <= i < es.len() ==> (#[trigger] es.push(m)[i]) == es[i]);
    }

    /// Records where the content starts.
    pub fn end_of_header(&mut self, offset: u64, Ghost(d): Ghost<Seq<u8>>, Ghost(es): Ghost<Seq<EntryModel>>)
        requires
            old(self).holds(d, es, 0),
        ensures
            final(self).holds(d, es, offset as nat),
    {
        self.map.end_of_header(offset, Ghost(es));
    }

    /// The total compressed size of the entries.
    pub fn content_len(&self, Ghost(d): Ghost<Seq<u8>>, Ghost(es): Ghost<Seq<EntryModel>>, Ghost(cs): Ghost<nat>) -> (r: u64)
        requires
            self.holds(d, es, cs),
        ensures
            r == content_len(es),
    {
        self.map.content_len(Ghost(es), Ghost(cs))
    }

    /// The content range, from the content start, of the last entry named
    /// `name`; none if no entry has that name.
    pub fn read_file(&self, name: &[u8], Ghost(d): Ghost<Seq<u8>>, Ghost(es): Ghost<Seq<EntryModel>>, Ghost(cs): Ghost<nat>) -> (r: Option<(u64, u64)>)
        requires
            self.holds(d, es, cs),
        ensures
            match r {
                Some((s, e)) => exists|i: int|
                    is_last(es, i, name@) && s == content_len(es.take(i)) && e == content_len(es.take(i + 1)),
                None => forall|i: int| 0 <= i < es.len() ==> (#[trigger] es[i]).name != name@,
            },
    {
        self.map.read_file(name, Ghost(es), Ghost(cs))
    }

    /// The last entry named `name`, with every field; none if no entry has
    /// that name.
    pub fn entry(&self, name: &[u8], Ghost(d): Ghost<Seq<u8>>, Ghost(es): Ghost<Seq<EntryModel>>, Ghost(cs): Ghost<nat>) -> (r: Option<&Entry>)
        requires
            self.holds(d, es, cs),
        ensures
            match r {
                Some(en) => exists|i: int| is_last(es, i, name@) && en.model(d) == es[i] && en.within(d),
                None => forall|i: int| 0 <= i < es.len() ==> (#[trigger] es[i]).name != name@,
            },
    {
        match self.map.find_last(name, Ghost(es), Ghost(cs)) {
            Some(i) => Some(&self.entries[i]),
            None => None,
        }
    }

    /// Every file that no later file of the same name hides, in archive
    /// order, as `NameMap::files` gives them.
    pub fn files(&self, d: &[u8], Ghost(es): Ghost<Seq<EntryModel>>, Ghost(cs): Ghost<nat>) -> (r: Result<
        Vec<(Vec<u8>, Vec<u8>)>,
        Open,
    >)
        requires
            self.holds(d@, es, cs),
            cs + content_len(es) <= u64::MAX,
        ensures
            match r {
                Ok(v) => v@.len() == shown(es).len() && forall|k: int|
                    0 <= k < v@.len() ==> (#[trigger] v@[k]).0@ == es[shown(es)[k]].name && entry_content(
                        d@,
                        es,
                        cs,
                        shown(es)[k],
                    ) == Some(v@[k].1@),
                Err(e) => exists|i: int|
                    is_last(es, i, es[i].name) && entry_content(d@, es, cs, i) is None && e == entry_error(
                        d@,
                        es,
                        cs,
                        i,
                    ),
            },
            (forall|i: int| is_last(es, i, es[i].name) ==> (#[trigger] entry_content(d@, es, cs, i)) is Some)
                ==> r is Ok,
    {
        self.map.files(d, Ghost(es), Ghost(cs))
    }
}

/// Which index a reader builds.
#[derive(Debug, Clone, Copy, PartialEq, Eq, Structural)]
pub enum IndexKind {
    /// `NoIndex`: the entries are skipped.
    NoIndex,
    /// `OffsetOnly`: names and ranges, walked in order.
    OffsetOnly,
    /// `NameMap`: names and ranges, looked up by name.
    NameMap,
    /// `MetadataMap`: whole entries, looked up by name.
    MetadataMap,
}

impl IndexKind {
    /// Whether the reader parses the entries for this index.
    pub open spec fn scans(self) -> bool {
        self != IndexKind::NoIndex
    }

    /// Whether this index needs names in memory.
    pub open spec fn needs_name(self) -> bool {
        self == IndexKind::NameMap || self == IndexKind::MetadataMap
    }

    /// Whether this index needs entry metadata in memory.
    pub open spec fn needs_metadata(self) -> bool {
        self == IndexKind::MetadataMap
    }

    /// Whether the reader parses the entries for this index.
    pub fn scan_files(self) -> (r: bool)
        ensures
            r == self.scans(),
    {
        !matches!(self, IndexKind::NoIndex)
    }

    /// Whether this index needs names in memory.
    pub fn requires_name(self) -> (r: bool)
        ensures
            r == self.needs_name(),
    {
        matches!(self, IndexKind::NameMap | IndexKind::MetadataMap)
    }

    /// Whether this index needs entry metadata in memory.
    pub fn requires_metadata(self) -> (r: bool)
        ensures
            r == self.needs_metadata(),
    {
        matches!(self, IndexKind::MetadataMap)
    }
}

/// The index that a reader keeps, of one of the four kinds.
pub enum FileIndex {
    NoIndex(NoIndex),
    OffsetOnly(OffsetOnly),
    NameMap(NameMap),
    MetadataMap(MetadataMap),
}

impl FileIndex {
    /// The kind of this index.
    pub open spec fn kind(&self) -> IndexKind {
        match self {
            FileIndex::NoIndex(_) => IndexKind::NoIndex,
            FileIndex::OffsetOnly(_) => IndexKind::OffsetOnly,
            FileIndex::NameMap(_) => IndexKind::NameMap,
            FileIndex::MetadataMap(_) => IndexKind::MetadataMap,
        }
    }

    /// Whether the index holds the entries `es` of the archive `d`, whose
    /// content starts at `cs`; `NoIndex` holds none.
    pub open spec fn holds(&self, d: Seq<u8>, es: Seq<EntryModel>, cs: nat) -> bool {
        match self {
            FileIndex::NoIndex(_) => es.len() == 0,
            FileIndex::OffsetOnly(x) => x.holds(d, es, cs),
            FileIndex::NameMap(x) => x.holds(es, cs),
            FileIndex::MetadataMap(x) => x.holds(d, es, cs),
        }
    }

    /// An empty index of the given kind.
    pub fn new(kind: IndexKind) -> (r: Self)
        ensures
            r.kind() == kind,
            forall|d: Seq<u8>| r.holds(d, Seq::empty(), 0),
    {
        match kind {
            IndexKind::NoIndex => FileIndex::NoIndex(NoIndex),
            IndexKind::OffsetOnly => FileIndex::OffsetOnly(OffsetOnly::new()),
            IndexKind::NameMap => FileIndex::NameMap(NameMap::new()),
            IndexKind::MetadataMap => FileIndex::MetadataMap(MetadataMap::new()),
        }
    }

    /// Adds the next entry, parsed with what the kind needs in memory.
    pub fn feed_entry(&mut self, entry: Entry, Ghost(d): Ghost<Seq<u8>>, Ghost(es): Ghost<Seq<EntryModel>>)
        requires
            old(self).holds(d, es, 0),
            old(self).kind().scans(),
            old(self).kind().needs_name() ==> entry.name is Cached,
            old(self).kind().needs_metadata() ==> entry.metadata is Cached,
            entry.within(d),
            content_len(es) + entry.compressed_file_size <= u64::MAX,
        ensures
            final(self).holds(d, es.push(entry.model(d)), 0),
            final(self).kind() == old(self).kind(),
    {
        match self {
            FileIndex::NoIndex(_) => {},
            FileIndex::OffsetOnly(x) => x.feed_entry(entry, Ghost(d), Ghost(es)),
            FileIndex::NameMap(x) => x.feed_entry(entry, Ghost(d), Ghost(es)),
            FileIndex::MetadataMap(x) => x.feed_entry(entry, Ghost(d), Ghost(es)),
        }
    }

    /// Records where the content starts.
    pub fn end_of_header(&mut self, offset: u64, Ghost(d): Ghost<Seq<u8>>, Ghost(es): Ghost<Seq<EntryModel>>)
        requires
            old(self).holds(d, es, 0),
        ensures
            final(self).holds(d, es, offset as nat),
            final(self).kind() == old(self).kind(),
    {
        match self {
            FileIndex::NoIndex(_) => {},
            FileIndex::OffsetOnly(x) => x.end_of_header(offset, Ghost(d), Ghost(es)),
            FileIndex::NameMap(x) => x.end_of_header(offset, Ghost(es)),
            FileIndex::MetadataMap(x) => x.end_of_header(offset, Ghost(d), Ghost(es)),
        }
    }

    /// The total compressed size of the entries.
    pub fn content_len(&self, Ghost(d): Ghost<Seq<u8>>, Ghost(es): Ghost<Seq<EntryModel>>, Ghost(cs): Ghost<nat>) -> (r: u64)
        requires
            self.holds(d, es, cs),
            self.kind().scans(),
        ensures
            r == content_len(es),
    {
        match self {
            FileIndex::NoIndex(_) => 0,
            FileIndex::OffsetOnly(x) => x.content_len(Ghost(d), Ghost(es), Ghost(cs)),
            FileIndex::NameMap(x) => x.content_len(Ghost(es), Ghost(cs)),
            FileIndex::MetadataMap(x) => x.content_len(Ghost(d), Ghost(es), Ghost(cs)),
        }
    }
}

} // verus!
