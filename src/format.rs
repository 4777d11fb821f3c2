//! The phar layout as mathematics: what the bytes of an archive are, and
//! what a parse of them gives.
use vstd::prelude::*;

use crate::bytes::{bstr, first_end, le_u16, le_u32, take_bstr, take_u16, take_u32, u32_of};
use crate::error::Open;
use crate::compression::Compression;
use crate::signature::SignatureType;

verus! {

/// The largest manifest that a reader accepts: 1 MiB.
pub const MANIFEST_MAX: u32 = 0x100000;

/// The global flag that marks a signed archive.
pub const FLAG_SIGNED: u32 = 0x10000;

/// The API version that a writer stores.
pub const API_VERSION: u16 = 0x11;

/// The literal that ends a stub: `__HALT_COMPILER(); ?>\r\n`.
pub open spec fn stub_terminator() -> Seq<u8> {
    seq![
        0x5f, 0x5f, 0x48, 0x41, 0x4c, 0x54, 0x5f, 0x43, 0x4f, 0x4d, 0x50, 0x49, 0x4c, 0x45,
        0x52, 0x28, 0x29, 0x3b, 0x20, 0x3f, 0x3e, 0x0d, 0x0a,
    ]
}

/// The magic at the very end of a signed archive: `GBMB`.
pub open spec fn magic() -> Seq<u8> {
    seq![0x47, 0x42, 0x4d, 0x42]
}

/// One entry of a manifest, field by field.
pub struct EntryModel {
    pub name: Seq<u8>,
    pub original_size: u32,
    pub time: u32,
    pub compressed_size: u32,
    pub crc32: u32,
    pub flags: u32,
    pub metadata: Seq<u8>,
}

/// The fields of a manifest.
pub struct ManifestModel {
    pub num_files: u32,
    pub api: u16,
    pub flags: u32,
    pub alias: Seq<u8>,
    pub metadata: Seq<u8>,
    pub entries: Seq<EntryModel>,
}

/// What a reader finds in an archive.
pub struct ArchiveModel {
    pub stub: Seq<u8>,
    pub manifest: ManifestModel,
    /// The offset of the first content byte.
    pub content_start: nat,
}

/// Whether every byte string of an entry fits a `u32` length.
pub open spec fn entry_fits(e: EntryModel) -> bool {
    e.name.len() <= u32::MAX && e.metadata.len() <= u32::MAX
}

/// The bytes of one manifest entry.
#[verifier::opaque]
pub open spec fn entry_bytes(e: EntryModel) -> Seq<u8> {
    bstr(e.name) + le_u32(e.original_size) + le_u32(e.time) + le_u32(e.compressed_size)
        + le_u32(e.crc32) + le_u32(e.flags) + bstr(e.metadata)
}

/// The bytes of a run of manifest entries.
pub open spec fn entries_bytes(es: Seq<EntryModel>) -> Seq<u8>
    decreases es.len(),
{
    if es.len() == 0 {
        Seq::empty()
    } else {
        entries_bytes(es.drop_last()) + entry_bytes(es.last())
    }
}

/// The bytes of a manifest, after its length field.
#[verifier::opaque]
pub open spec fn manifest_bytes(m: ManifestModel) -> Seq<u8> {
    le_u32(m.num_files) + le_u16(m.api) + le_u32(m.flags) + bstr(m.alias) + bstr(m.metadata)
        + entries_bytes(m.entries)
}

/// The sum of the compressed sizes of entries.
pub open spec fn content_len(es: Seq<EntryModel>) -> nat
    decreases es.len(),
{
    if es.len() == 0 {
        0
    } else {
        (content_len(es.drop_last()) + es.last().compressed_size) as nat
    }
}

/// The signed region of an archive: stub, manifest length, manifest, content.
pub open spec fn signed_bytes(stub: Seq<u8>, m: ManifestModel, content: Seq<u8>) -> Seq<u8> {
    stub + le_u32(manifest_bytes(m).len() as u32) + manifest_bytes(m) + content
}

/// A whole signed archive.
pub open spec fn archive_bytes(
    stub: Seq<u8>,
    m: ManifestModel,
    content: Seq<u8>,
    kind: SignatureType,
) -> Seq<u8> {
    let s = signed_bytes(stub, m, content);
    s + kind.digest(s) + le_u32(kind.id()) + magic()
}

/// Decodes one manifest entry from the front of `d`, giving the rest.
#[verifier::opaque]
pub open spec fn take_entry(d: Seq<u8>) -> Option<(EntryModel, Seq<u8>)> {
    match take_bstr(d) {
        None => None,
        Some((name, r1)) => match take_u32(r1) {
            None => None,
            Some((original_size, r2)) => match take_u32(r2) {
                None => None,
                Some((time, r3)) => match take_u32(r3) {
                    None => None,
                    Some((compressed_size, r4)) => match take_u32(r4) {
                        None => None,
                        Some((crc32, r5)) => match take_u32(r5) {
                            None => None,
                            Some((flags, r6)) => match take_bstr(r6) {
                                None => None,
                                Some((metadata, r7)) => Some(
                                    (
                                        EntryModel {
                                            name,
                                            original_size,
                                            time,
                                            compressed_size,
                                            crc32,
                                            flags,
                                            metadata,
                                        },
                                        r7,
                                    ),
                                ),
                            },
                        },
                    },
                },
            },
        },
    }
}

/// Decodes `n` manifest entries from the front of `d`, giving the rest.
pub open spec fn take_entries(d: Seq<u8>, n: nat) -> Option<(Seq<EntryModel>, Seq<u8>)>
    decreases n,
{
    if n == 0 {
        Some((Seq::empty(), d))
    } else {
        match take_entries(d, (n - 1) as nat) {
            None => None,
            Some((es, r)) => match take_entry(r) {
                None => None,
                Some((e, r2)) => Some((es.push(e), r2)),
            },
        }
    }
}

/// Decodes a manifest region; its entries only when `scan` is set.
#[verifier::opaque]
pub open spec fn take_manifest(d: Seq<u8>, scan: bool) -> Option<ManifestModel> {
    match take_u32(d) {
        None => None,
        Some((num_files, r1)) => match take_u16(r1) {
            None => None,
            Some((api, r2)) => match take_u32(r2) {
                None => None,
                Some((flags, r3)) => match take_bstr(r3) {
                    None => None,
                    Some((alias, r4)) => match take_bstr(r4) {
                        None => None,
                        Some((metadata, r5)) => if !scan {
                            Some(
                                ManifestModel {
                                    num_files,
                                    api,
                                    flags,
                                    alias,
                                    metadata,
                                    entries: Seq::empty(),
                                },
                            )
                        } else {
                            match take_entries(r5, num_files as nat) {
                                None => None,
                                Some((entries, _)) => Some(
                                    ManifestModel { num_files, api, flags, alias, metadata, entries },
                                ),
                            }
                        },
                    },
                },
            },
        },
    }
}

/// The manifest region: at most `len` bytes of `d`.
pub open spec fn clip(d: Seq<u8>, len: nat) -> Seq<u8> {
    if len <= d.len() {
        d.subrange(0, len as int)
    } else {
        d
    }
}

/// Parses stub and manifest, without looking at any signature.
#[verifier::opaque]
pub open spec fn parse_body(d: Seq<u8>, scan: bool) -> Result<ArchiveModel, Open> {
    match first_end(d, stub_terminator()) {
        None => Err(Open::NoHaltCompiler),
        Some(n) => match take_u32(d.subrange(n as int, d.len() as int)) {
            None => Err(Open::UnexpectedEof),
            Some((mlen, r)) => if mlen > MANIFEST_MAX {
                Err(Open::ManifestTooLong)
            } else {
                match take_manifest(clip(r, mlen as nat), scan) {
                    None => Err(Open::UnexpectedEof),
                    Some(m) => Ok(
                        ArchiveModel { stub: d.subrange(0, n as int), manifest: m, content_start: (n + 4 + mlen) as nat },
                    ),
                }
            },
        },
    }
}

/// Whether the content region of `a` ends at `sig_start`.
pub open spec fn content_fits(a: ArchiveModel, scan: bool, sig_start: int) -> bool {
    if scan {
        a.content_start + content_len(a.manifest.entries) == sig_start
    } else {
        a.content_start <= sig_start
    }
}

/// What opening the bytes `d` gives: the archive, or the first error met.
#[verifier::opaque]
pub open spec fn parse_archive(d: Seq<u8>, verify: bool, scan: bool) -> Result<ArchiveModel, Open> {
    let len = d.len() as int;
    if !verify {
        parse_body(d, scan)
    } else if len < 4 {
        Err(Open::UnexpectedEof)
    } else if d.subrange(len - 4, len) != magic() {
        Err(Open::BrokenSignature)
    } else if len < 8 {
        Err(Open::UnexpectedEof)
    } else {
        match SignatureType::from_id(u32_of(d[len - 8], d[len - 7], d[len - 6], d[len - 5])) {
            None => Err(Open::UnknownSignatureKind),
            Some(k) => if len < 8 + k.len() {
                Err(Open::UnexpectedEof)
            } else {
                let sig_start = len - 8 - k.len();
                match parse_body(d, scan) {
                    Err(e) => Err(e),
                    Ok(a) => if !content_fits(a, scan, sig_start) {
                        Err(Open::ContentTooLong)
                    } else if k.digest(d.subrange(0, sig_start)) != d.subrange(sig_start, len - 8) {
                        Err(Open::BrokenSignature)
                    } else {
                        Ok(a)
                    }
                }
            },
        }
    }
}

} // verus!

verus! {

/// Where the content of entry `i` starts, for content starting at `cs`.
pub open spec fn entry_start(es: Seq<EntryModel>, cs: nat, i: int) -> nat {
    cs + content_len(es.take(i))
}

/// Where the content of entry `i` ends, for content starting at `cs`.
pub open spec fn entry_end(es: Seq<EntryModel>, cs: nat, i: int) -> nat {
    cs + content_len(es.take(i + 1))
}

/// The content of entry `i`, decompressed, if it lies in `d` and decodes.
pub open spec fn entry_content(d: Seq<u8>, es: Seq<EntryModel>, cs: nat, i: int) -> Option<Seq<u8>> {
    if entry_end(es, cs, i) <= d.len() {
        Compression::of_flags(es[i].flags).decoded(
            d.subrange(entry_start(es, cs, i) as int, entry_end(es, cs, i) as int),
        )
    } else {
        None
    }
}

/// Why entry `i` has no content: it runs past `d`, or it does not decode.
pub open spec fn entry_error(d: Seq<u8>, es: Seq<EntryModel>, cs: nat, i: int) -> Open {
    if entry_end(es, cs, i) <= d.len() {
        Open::BrokenContent
    } else {
        Open::UnexpectedEof
    }
}

/// Whether entry `i` is the last one named `name`.
pub open spec fn is_last(es: Seq<EntryModel>, i: int, name: Seq<u8>) -> bool {
    &&& 0 <= i < es.len()
    &&& es[i].name == name
    &&& forall|j: int| i < j < es.len() ==> es[j].name != name
}

/// The entries from `i` on that no later entry of the same name hides, in order.
pub open spec fn shown_from(es: Seq<EntryModel>, i: nat) -> Seq<int>
    decreases es.len() - i,
{
    if i >= es.len() {
        Seq::empty()
    } else if is_last(es, i as int, es[i as int].name) {
        seq![i as int] + shown_from(es, i + 1)
    } else {
        shown_from(es, i + 1)
    }
}

/// The entries that no later entry of the same name hides, in order.
pub open spec fn shown(es: Seq<EntryModel>) -> Seq<int> {
    shown_from(es, 0)
}

/// Whether no two entries have the same name.
pub open spec fn names_distinct(es: Seq<EntryModel>) -> bool {
    forall|i: int, j: int| 0 <= i < j < es.len() ==> es[i].name != es[j].name
}

/// One more entry adds its compressed size to the content length.
pub proof fn lemma_content_len_step(es: Seq<EntryModel>, i: int)
    requires
        0 <= i < es.len(),
    ensures
        content_len(es.take(i + 1)) == content_len(es.take(i)) + es[i].compressed_size,
{
    assert(es.take(i + 1).drop_last() =~= es.take(i));
}

/// A decoded run of `n` entries has `n` entries.
pub proof fn lemma_take_entries_len(d: Seq<u8>, n: nat)
    ensures
        take_entries(d, n) matches Some((es, _)) ==> es.len() == n,
    decreases n,
{
    if n > 0 {
        lemma_take_entries_len(d, (n - 1) as nat);
    }
}

/// With distinct names every entry is shown.
pub proof fn lemma_shown_distinct(es: Seq<EntryModel>, i: nat)
    requires
        names_distinct(es),
        i <= es.len(),
    ensures
        shown_from(es, i).len() == es.len() - i,
    decreases es.len() - i,
{
    if i < es.len() {
        assert(is_last(es, i as int, es[i as int].name));
        lemma_shown_distinct(es, i + 1);
    }
}

} // verus!
