//! Manifest entries: the record that a writer declares, and the record that
//! a reader parses.
use vstd::prelude::*;

use crate::bytes::{write_bstr, push_u32};
use crate::format::{entry_bytes, take_entry, EntryModel};
use crate::section::{read_u32_in, Section};

verus! {

/// The zlib bit of entry flags.
pub const FLAG_HAS_ZLIB: u32 = 0x1000;

/// The bzip2 bit of entry flags.
pub const FLAG_HAS_BZIP: u32 = 0x2000;

/// The permission bits of entry flags.
pub const MODE_MASK: u32 = 0x1ff;

/// The flags word of an entry.
pub struct FileFlags(pub u32);

impl FileFlags {
    /// Whether the zlib bit is set.
    pub fn has_zlib(&self) -> (r: bool)
        ensures
            r == (self.0 & FLAG_HAS_ZLIB != 0),
    {
        self.0 & FLAG_HAS_ZLIB != 0
    }

    /// Sets or clears the zlib bit, keeping the others.
    pub fn set_has_zlib(&mut self, value: bool)
        ensures
            final(self).0 == if value {
                old(self).0 | FLAG_HAS_ZLIB
            } else {
                old(self).0 & !FLAG_HAS_ZLIB
            },
            (final(self).0 & FLAG_HAS_ZLIB != 0) == value,
            final(self).0 & !FLAG_HAS_ZLIB == old(self).0 & !FLAG_HAS_ZLIB,
    {
        let x = self.0;
        if value {
            self.0 = x | FLAG_HAS_ZLIB;
            assert((x | 0x1000u32) & 0x1000u32 != 0 && (x | 0x1000u32) & !0x1000u32 == x & !0x1000u32)
                by (bit_vector);
        } else {
            self.0 = x & !FLAG_HAS_ZLIB;
            assert((x & !0x1000u32) & 0x1000u32 == 0 && (x & !0x1000u32) & !0x1000u32 == x & !0x1000u32)
                by (bit_vector);
        }
    }

    /// Whether the bzip2 bit is set.
    pub fn has_bzip(&self) -> (r: bool)
        ensures
            r == (self.0 & FLAG_HAS_BZIP != 0),
    {
        self.0 & FLAG_HAS_BZIP != 0
    }

    /// Sets or clears the bzip2 bit, keeping the others.
    pub fn set_has_bzip(&mut self, value: bool)
        ensures
            final(self).0 == if value {
                old(self).0 | FLAG_HAS_BZIP
            } else {
                old(self).0 & !FLAG_HAS_BZIP
            },
            (final(self).0 & FLAG_HAS_BZIP != 0) == value,
            final(self).0 & !FLAG_HAS_BZIP == old(self).0 & !FLAG_HAS_BZIP,
    {
        let x = self.0;
        if value {
            self.0 = x | FLAG_HAS_BZIP;
            assert((x | 0x2000u32) & 0x2000u32 != 0 && (x | 0x2000u32) & !0x2000u32 == x & !0x2000u32)
                by (bit_vector);
        } else {
            self.0 = x & !FLAG_HAS_BZIP;
            assert((x & !0x2000u32) & 0x2000u32 == 0 && (x & !0x2000u32) & !0x2000u32 == x & !0x2000u32)
                by (bit_vector);
        }
    }

    /// The permission bits.
    pub fn mode(&self) -> (r: u32)
        ensures
            r == self.0 & MODE_MASK,
    {
        self.0 & MODE_MASK
    }

    /// Replaces the permission bits by the low nine bits of `mode`,
    /// keeping the others.
    pub fn set_mode(&mut self, mode: u32)
        ensures
            final(self).0 == (old(self).0 & !MODE_MASK) | (mode & MODE_MASK),
            final(self).0 & MODE_MASK == mode & MODE_MASK,
            final(self).0 & !MODE_MASK == old(self).0 & !MODE_MASK,
    {
        let x = self.0;
        self.0 = (x & !MODE_MASK) | (mode & MODE_MASK);
        assert(((x & !0x1ffu32) | (mode & 0x1ffu32)) & 0x1ffu32 == mode & 0x1ffu32
            && ((x & !0x1ffu32) | (mode & 0x1ffu32)) & !0x1ffu32 == x & !0x1ffu32) by (bit_vector);
    }
}

/// A manifest entry with every field in memory.
pub struct FileEntry {
    pub name: Vec<u8>,
    pub original_size: u32,
    pub timestamp: u32,
    pub compressed_size: u32,
    pub crc32: u32,
    pub flags: FileFlags,
    pub metadata: Vec<u8>,
}

impl FileEntry {
    /// The entry as the layout sees it.
    pub open spec fn model(&self) -> EntryModel {
        EntryModel {
            name: self.name@,
            original_size: self.original_size,
            time: self.timestamp,
            compressed_size: self.compressed_size,
            crc32: self.crc32,
            flags: self.flags.0,
            metadata: self.metadata@,
        }
    }

    /// Appends the manifest bytes of the entry.
    pub fn write(&self, out: &mut Vec<u8>)
        requires
            self.name@.len() <= u32::MAX,
            self.metadata@.len() <= u32::MAX,
        ensures
            final(out)@ == old(out)@ + entry_bytes(self.model()),
    {
        write_bstr(out, self.name.as_slice());
        push_u32(out, self.original_size);
        push_u32(out, self.timestamp);
        push_u32(out, self.compressed_size);
        push_u32(out, self.crc32);
        push_u32(out, self.flags.0);
        write_bstr(out, self.metadata.as_slice());
        proof {
            reveal(entry_bytes);
        }
        assert(final(out)@ =~= old(out)@ + entry_bytes(self.model()));
    }
}

/// A manifest entry as a reader parses it: name and metadata may be left
/// in the archive.
pub struct Entry {
    pub name: Section,
    pub original_file_size: u32,
    pub time: u32,
    pub compressed_file_size: u32,
    pub original_crc32: u32,
    pub flags: u32,
    pub metadata: Section,
}

impl Entry {
    /// The entry as the layout sees it, in the archive `d`.
    pub open spec fn model(&self, d: Seq<u8>) -> EntryModel {
        EntryModel {
            name: self.name.bytes(d),
            original_size: self.original_file_size,
            time: self.time,
            compressed_size: self.compressed_file_size,
            crc32: self.original_crc32,
            flags: self.flags,
            metadata: self.metadata.bytes(d),
        }
    }

    /// Whether name and metadata lie in the archive `d`.
    pub open spec fn within(&self, d: Seq<u8>) -> bool {
        self.name.within(d) && self.metadata.within(d)
    }

    /// Parses the entry at `pos` of the archive `d`, before `end`; gives the
    /// position after it. Name and metadata are held in memory when asked.
    pub fn parse(d: &[u8], pos: usize, end: usize, cache_name: bool, cache_metadata: bool) -> (r:
        Option<(Entry, usize)>)
        requires
            pos <= end <= d@.len(),
        ensures
            match take_entry(d@.subrange(pos as int, end as int)) {
                Some((e, rest)) => r matches Some((en, p)) && en.model(d@) == e && en.within(d@)
                    && pos + 28 <= p <= end && rest == d@.subrange(p as int, end as int)
                    && (cache_name <==> en.name is Cached) && (cache_metadata <==> en.metadata is Cached)
                    && p == pos + 28 + e.name.len() + e.metadata.len()
                    && (!cache_name ==> en.name == Section::Offset((pos + 4) as u64, (pos + 4 + e.name.len()) as u64))
                    && (!cache_metadata ==> en.metadata == Section::Offset(
                        (pos + 28 + e.name.len()) as u64,
                        (pos + 28 + e.name.len() + e.metadata.len()) as u64,
                    )),
                None => r is None,
            },
    {
        proof {
            reveal(take_entry);
        }
        let (name, p) = match Section::read_bstr(d, pos, end, cache_name) {
            Some(x) => x,
            None => return None,
        };
        let original_file_size = match read_u32_in(d, p, end) {
            Some(v) => v,
            None => return None,
        };
        let time = match read_u32_in(d, p + 4, end) {
            Some(v) => v,
            None => return None,
        };
        let compressed_file_size = match read_u32_in(d, p + 8, end) {
            Some(v) => v,
            None => return None,
        };
        let original_crc32 = match read_u32_in(d, p + 12, end) {
            Some(v) => v,
            None => return None,
        };
        let flags = match read_u32_in(d, p + 16, end) {
            Some(v) => v,
            None => return None,
        };
        let (metadata, q) = match Section::read_bstr(d, p + 20, end, cache_metadata) {
            Some(x) => x,
            None => return None,
        };
        Some(
            (
                Entry {
                    name,
                    original_file_size,
                    time,
                    compressed_file_size,
                    original_crc32,
                    flags,
                    metadata,
                },
                q,
            ),
        )
    }
}

} // verus!
