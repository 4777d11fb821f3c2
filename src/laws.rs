//! What holds of the layout: writing an archive and reading it back gives
//! what was written.
use vstd::prelude::*;

use crate::bytes::{
    bstr, ends_at, first_end, first_end_from, le_u16, le_u32, lemma_take_bstr, lemma_take_u16,
    lemma_take_u32, lemma_u32_round,
};
use crate::error::Open;
use crate::format::{
    archive_bytes, clip, content_len, entries_bytes, entry_bytes, entry_fits, magic, manifest_bytes,
    parse_archive, parse_body, signed_bytes, stub_terminator, take_entries, take_entry, take_manifest,
    ArchiveModel, EntryModel, ManifestModel, MANIFEST_MAX,
};
use crate::signature::SignatureType;

verus! {

/// Decoding the bytes of an entry gives the entry.
pub proof fn lemma_take_entry(e: EntryModel, rest: Seq<u8>)
    requires
        entry_fits(e),
    ensures
        take_entry(entry_bytes(e) + rest) == Some((e, rest)),
{
    reveal(entry_bytes);
    reveal(take_entry);
    let r7 = rest;
    let r6 = bstr(e.metadata) + r7;
    let r5 = le_u32(e.flags) + r6;
    let r4 = le_u32(e.crc32) + r5;
    let r3 = le_u32(e.compressed_size) + r4;
    let r2 = le_u32(e.time) + r3;
    let r1 = le_u32(e.original_size) + r2;
    assert(entry_bytes(e) + rest =~= bstr(e.name) + r1);
    lemma_take_bstr(e.name, r1);
    lemma_take_u32(e.original_size, r2);
    lemma_take_u32(e.time, r3);
    lemma_take_u32(e.compressed_size, r4);
    lemma_take_u32(e.crc32, r5);
    lemma_take_u32(e.flags, r6);
    lemma_take_bstr(e.metadata, r7);
}

/// Decoding the bytes of a run of entries gives the run.
pub proof fn lemma_take_entries(es: Seq<EntryModel>, rest: Seq<u8>)
    requires
        forall|i: int| 0 <= i < es.len() ==> entry_fits(#[trigger] es[i]),
    ensures
        take_entries(entries_bytes(es) + rest, es.len()) == Some((es, rest)),
    decreases es.len(),
{
    if es.len() == 0 {
        assert(entries_bytes(es) + rest =~= rest);
    } else {
        let init = es.drop_last();
        let r1 = entry_bytes(es.last()) + rest;
        assert(entries_bytes(es) + rest =~= entries_bytes(init) + r1);
        assert forall|i: int| 0 <= i < init.len() implies entry_fits(#[trigger] init[i]) by {
            assert(init[i] == es[i]);
        }
        lemma_take_entries(init, r1);
        lemma_take_entry(es.last(), rest);
        assert(init.push(es.last()) =~= es);
    }
}

/// Whether every byte string of a manifest fits a `u32` length, and its
/// entry count is its number of entries.
pub open spec fn manifest_fits(m: ManifestModel) -> bool {
    &&& m.alias.len() <= u32::MAX
    &&& m.metadata.len() <= u32::MAX
    &&& m.num_files == m.entries.len()
    &&& forall|i: int| 0 <= i < m.entries.len() ==> entry_fits(#[trigger] m.entries[i])
}

/// `m` as a reader sees it: without entries unless it scans them.
pub open spec fn as_scanned(m: ManifestModel, scan: bool) -> ManifestModel {
    if scan {
        m
    } else {
        ManifestModel { entries: Seq::empty(), ..m }
    }
}

/// Decoding the bytes of a manifest gives the manifest.
pub proof fn lemma_take_manifest(m: ManifestModel, rest: Seq<u8>, scan: bool)
    requires
        manifest_fits(m),
    ensures
        take_manifest(manifest_bytes(m) + rest, scan) == Some(as_scanned(m, scan)),
{
    reveal(manifest_bytes);
    reveal(take_manifest);
    let r5 = entries_bytes(m.entries) + rest;
    let r4 = bstr(m.metadata) + r5;
    let r3 = bstr(m.alias) + r4;
    let r2 = le_u32(m.flags) + r3;
    let r1 = le_u16(m.api) + r2;
    assert(manifest_bytes(m) + rest =~= le_u32(m.num_files) + r1);
    lemma_take_u32(m.num_files, r1);
    lemma_take_u16(m.api, r2);
    lemma_take_u32(m.flags, r3);
    lemma_take_bstr(m.alias, r4);
    lemma_take_bstr(m.metadata, r5);
    lemma_take_entries(m.entries, rest);
}

/// Whether a stub ends with the terminator and holds no earlier one.
pub open spec fn stub_ok(stub: Seq<u8>) -> bool {
    first_end(stub, stub_terminator()) == Some(stub.len())
}

proof fn lemma_first_end_from_prefix(a: Seq<u8>, x: Seq<u8>, t: Seq<u8>, n: nat)
    requires
        n <= a.len(),
        first_end_from(a, t, n) == Some(a.len()),
    ensures
        first_end_from(a + x, t, n) == Some(a.len()),
    decreases a.len() - n,
{
    let ax = a + x;
    if n >= t.len() {
        assert(ax.subrange(n - t.len(), n as int) =~= a.subrange(n - t.len(), n as int));
    }
    assert(ends_at(ax, t, n as int) == ends_at(a, t, n as int));
    if !ends_at(a, t, n as int) {
        assert(first_end_from(a, t, n) == first_end_from(a, t, n + 1));
        if n + 1 > a.len() {
            assert(first_end_from(a, t, n + 1) is None);
        }
        lemma_first_end_from_prefix(a, x, t, n + 1);
    }
}

/// Bytes after a stub do not move where the stub ends.
pub proof fn lemma_stub_prefix(stub: Seq<u8>, x: Seq<u8>)
    requires
        stub_ok(stub),
    ensures
        first_end(stub + x, stub_terminator()) == Some(stub.len()),
{
    lemma_first_end_from_prefix(stub, x, stub_terminator(), 0);
}

/// Whether an archive can be written and read back: its stub ends with the
/// terminator and holds no earlier one, its fields fit their length fields,
/// the manifest is at most 1 MiB, the content is as long as the entries
/// declare, and the digest has the length of its kind.
pub open spec fn writable(stub: Seq<u8>, m: ManifestModel, content: Seq<u8>, kind: SignatureType) -> bool {
    &&& stub_ok(stub)
    &&& manifest_fits(m)
    &&& manifest_bytes(m).len() <= MANIFEST_MAX
    &&& content.len() == content_len(m.entries)
    &&& kind.digest(signed_bytes(stub, m, content)).len() == kind.len()
}

proof fn lemma_parse_body_written(stub: Seq<u8>, m: ManifestModel, x: Seq<u8>, scan: bool)
    requires
        stub_ok(stub),
        manifest_fits(m),
        manifest_bytes(m).len() <= MANIFEST_MAX,
    ensures
        parse_body(stub + le_u32(manifest_bytes(m).len() as u32) + manifest_bytes(m) + x, scan)
            == Ok::<ArchiveModel, Open>(
            ArchiveModel {
                stub,
                manifest: as_scanned(m, scan),
                content_start: stub.len() + 4 + manifest_bytes(m).len(),
            },
        ),
{
    let mb = manifest_bytes(m);
    let mlen = mb.len() as u32;
    let d = stub + le_u32(mlen) + mb + x;
    reveal(parse_body);
    let after_stub = le_u32(mlen) + (mb + x);
    assert(d =~= stub + after_stub);
    lemma_stub_prefix(stub, after_stub);
    assert(d.subrange(stub.len() as int, d.len() as int) =~= after_stub);
    lemma_take_u32(mlen, mb + x);
    assert(clip(mb + x, mlen as nat) =~= mb + Seq::<u8>::empty());
    lemma_take_manifest(m, Seq::<u8>::empty(), scan);
    assert(d.subrange(0, stub.len() as int) =~= stub);
}

/// Reading a written archive gives back its stub, manifest and content
/// start, with or without signature verification, and whether or not the
/// entries are scanned; so it never fails, in particular not with a broken
/// signature.
pub proof fn lemma_round_trip(
    stub: Seq<u8>,
    m: ManifestModel,
    content: Seq<u8>,
    kind: SignatureType,
    verify: bool,
    scan: bool,
)
    requires
        writable(stub, m, content, kind),
    ensures
        parse_archive(archive_bytes(stub, m, content, kind), verify, scan) == Ok::<ArchiveModel, Open>(
            ArchiveModel {
                stub,
                manifest: as_scanned(m, scan),
                content_start: stub.len() + 4 + manifest_bytes(m).len(),
            },
        ),
        parse_archive(archive_bytes(stub, m, content, kind), verify, scan) != Err::<ArchiveModel, Open>(
            Open::BrokenSignature,
        ),
{
    let mb = manifest_bytes(m);
    let s = signed_bytes(stub, m, content);
    let dg = kind.digest(s);
    let tail = dg + le_u32(kind.id()) + magic();
    let d = archive_bytes(stub, m, content, kind);
    assert(d =~= stub + le_u32(mb.len() as u32) + mb + (content + tail));
    lemma_parse_body_written(stub, m, content + tail, scan);
    reveal(parse_archive);
    if verify {
        let len = d.len() as int;
        assert(d.subrange(len - 4, len) =~= magic());
        let id = kind.id();
        lemma_u32_round(id);
        assert(d[len - 8] == le_u32(id)[0]);
        assert(d[len - 7] == le_u32(id)[1]);
        assert(d[len - 6] == le_u32(id)[2]);
        assert(d[len - 5] == le_u32(id)[3]);
        assert(SignatureType::from_id(id) == Some(kind));
        let sig_start = len - 8 - kind.len();
        assert(sig_start == s.len());
        assert(d.subrange(0, sig_start) =~= s);
        assert(d.subrange(sig_start, len - 8) =~= dg);
    }
}

/// Whatever opens, its stub ends with the terminator `__HALT_COMPILER(); ?>\r\n`.
pub proof fn lemma_stub_ends_with_terminator(d: Seq<u8>, verify: bool, scan: bool)
    ensures
        parse_archive(d, verify, scan) matches Ok(a) ==> a.stub.len() >= stub_terminator().len() && a.stub.subrange(
            a.stub.len() - stub_terminator().len(),
            a.stub.len() as int,
        ) == stub_terminator(),
{
    reveal(parse_archive);
    reveal(parse_body);
    crate::bytes::lemma_first_end(d, stub_terminator());
    if let Some(n) = first_end(d, stub_terminator()) {
        let t = stub_terminator();
        assert(d.subrange(0, n as int).subrange(n - t.len(), n as int) =~= d.subrange(n - t.len(), n as int));
    }
}

/// An archive whose last byte is changed no longer opens with signature
/// verification: it fails with a broken signature.
pub proof fn lemma_flipped_last_byte(d: Seq<u8>, x: u8, scan: bool)
    requires
        d.len() >= 4,
        d.subrange(d.len() - 4, d.len() as int) == magic(),
        x != d[d.len() - 1],
    ensures
        parse_archive(d.update(d.len() - 1, x), true, scan) == Err::<ArchiveModel, Open>(Open::BrokenSignature),
{
    reveal(parse_archive);
    let d2 = d.update(d.len() - 1, x);
    let len = d.len() as int;
    assert(d.subrange(len - 4, len)[3] == d[len - 1]);
    assert(d2.subrange(len - 4, len)[3] == x);
    assert(d2.subrange(len - 4, len) != magic());
}

/// The terminator holds a line feed only as its last byte.
proof fn lemma_terminator_line_feed(k: int)
    requires
        0 <= k < 22,
    ensures
        stub_terminator()[k] != 0x0a,
{
}

/// A needle whose last byte occurs nowhere else in it, appended to a text
/// that does not hold it, first ends at the end.
proof fn lemma_no_overlap(text: Seq<u8>, t: Seq<u8>)
    requires
        t.len() > 0,
        forall|k: int| 0 <= k < t.len() - 1 ==> #[trigger] t[k] != t[t.len() - 1],
        first_end(text, t) is None,
    ensures
        first_end(text + t, t) == Some((text + t).len()),
{
    let n = t.len() as int;
    let full = text + t;
    crate::bytes::lemma_first_end(text, t);
    crate::bytes::lemma_first_end(full, t);
    assert(full.subrange(full.len() - n, full.len() as int) =~= t);
    assert(ends_at(full, t, full.len() as int));
    assert forall|m: int| 0 <= m < full.len() implies !ends_at(full, t, m) by {
        if ends_at(full, t, m) {
            if m <= text.len() {
                assert(full.subrange(m - n, m) =~= text.subrange(m - n, m));
                assert(ends_at(text, t, m));
            } else {
                let j = m - text.len();
                assert(full.subrange(m - n, m)[n - 1] == full[m - 1]);
                assert(full[m - 1] == t[j - 1]);
            }
        }
    }
}

/// A stub given without any terminator ends, once the terminator is
/// appended, exactly there: the terminator cannot overlap its own end.
pub proof fn lemma_stub_ok_of_input(stub: Seq<u8>)
    requires
        first_end(stub, stub_terminator()) is None,
    ensures
        stub_ok(stub + stub_terminator()),
{
    let t = stub_terminator();
    assert forall|k: int| 0 <= k < t.len() - 1 implies #[trigger] t[k] != t[t.len() - 1] by {
        lemma_terminator_line_feed(k);
    }
    lemma_no_overlap(stub, t);
}

} // verus!
