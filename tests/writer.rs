use phar::entry::FileFlags;
use phar::writer::timestamp_secs;
use phar::{create, Compression, IndexKind, Options, Reader, Signature, SignatureType, Write};

fn write_two(signature: Signature, compression: [Compression; 2]) -> Vec<u8> {
    let mut writer = create(signature).stub(&b"<?php "[..]).metadata(&b""[..]).unwrap();
    writer.entry(&b"foo"[..], &b""[..], 1_600_000_000, 0o664, compression[0]).unwrap();
    writer.entry(&b"qux"[..], &b""[..], 1_600_000_000, 0o664, compression[1]).unwrap();
    let mut contents = writer.contents();
    contents.feed(&b"bar"[..]).unwrap();
    contents.feed(&b"corge"[..]).unwrap();
    contents.into_bytes().unwrap()
}

fn read_back(bytes: Vec<u8>) -> Vec<(Vec<u8>, Vec<u8>)> {
    let reader = Reader::read(bytes, Options::new(), IndexKind::OffsetOnly).unwrap();
    reader.files().unwrap()
}

fn expected() -> Vec<(Vec<u8>, Vec<u8>)> {
    vec![(b"foo".to_vec(), b"bar".to_vec()), (b"qux".to_vec(), b"corge".to_vec())]
}

#[test]
pub fn test_plain() {
    let bytes = write_two(Signature::sha512(), [Compression::Stored, Compression::Stored]);
    assert_eq!(&bytes[bytes.len() - 4..], b"GBMB");
    assert_eq!(&bytes[bytes.len() - 8..bytes.len() - 4], &8u32.to_le_bytes());
    assert_eq!(read_back(bytes), expected());
}

#[test]
pub fn test_zlib() {
    let bytes = write_two(Signature::sha256(), [Compression::Zlib(9), Compression::Zlib(9)]);
    assert_eq!(read_back(bytes), expected());
}

#[test]
pub fn test_bzip() {
    let bytes = write_two(Signature::sha256(), [Compression::Bzip(9), Compression::Bzip(9)]);
    assert_eq!(read_back(bytes), expected());
}

#[test]
pub fn test_mixed() {
    let bytes = write_two(Signature::sha256(), [Compression::Zlib(9), Compression::Bzip(9)]);
    assert_eq!(read_back(bytes), expected());
}

#[test]
fn round_trip_every_signature_kind() {
    for signature in [Signature::md5(), Signature::sha1(), Signature::sha256(), Signature::sha512()] {
        let id = signature.to_u32();
        let bytes = write_two(signature, [Compression::Stored, Compression::Zlib(6)]);
        assert_eq!(&bytes[bytes.len() - 8..bytes.len() - 4], &id.to_le_bytes());
        for kind in [IndexKind::OffsetOnly, IndexKind::NameMap, IndexKind::MetadataMap] {
            let reader = Reader::read(bytes.clone(), Options::new(), kind).unwrap();
            assert_eq!(reader.files().unwrap(), expected());
            assert_eq!(reader.num_files(), 2);
        }
    }
}

#[test]
fn writer_discipline() {
    let mut writer = create(Signature::sha256()).stub(b"<?php ").metadata(b"").unwrap();
    writer.entry(b"a", b"", 0, 0o644, Compression::Stored).unwrap();
    writer.entry(b"b", b"", 0, 0o644, Compression::Stored).unwrap();
    let mut contents = writer.contents();
    assert_eq!(contents.feed(b"1"), Ok(()));
    assert_eq!(contents.feed(b"2"), Ok(()));
    assert_eq!(contents.feed(b"3"), Err(Write::FeedTooMany));
    assert_eq!(contents.feed(b"4"), Err(Write::FeedAfterError));
    assert!(contents.into_bytes().is_some());
}

#[test]
fn unsupported_compression_level() {
    let mut writer = create(Signature::sha256()).stub(b"<?php ").metadata(b"").unwrap();
    assert_eq!(writer.entry(b"a", b"", 0, 0o644, Compression::Bzip(0)), Err(Write::UnsupportedCompression));
    assert_eq!(writer.entry(b"a", b"", 0, 0o644, Compression::Zlib(10)), Err(Write::UnsupportedCompression));
    assert_eq!(writer.entry(b"a", b"", 0, 0o644, Compression::Bzip(1)), Ok(()));
}

#[test]
fn empty_alias_and_metadata_round_trip() {
    let writer = create(Signature::sha1()).stub(b"<?php ").alias(b"").unwrap();
    let mut writer = writer.metadata(b"").unwrap();
    writer.entry(b"x", b"", 0, 0o600, Compression::Stored).unwrap();
    let mut contents = writer.contents();
    contents.feed(b"y").unwrap();
    let reader = Reader::read(contents.into_bytes().unwrap(), Options::new(), IndexKind::MetadataMap).unwrap();
    assert_eq!(reader.alias_bytes(), Vec::<u8>::new());
    assert_eq!(reader.metadata_bytes(), Vec::<u8>::new());
}

#[test]
fn alias_and_entry_metadata_round_trip() {
    let writer = create(Signature::sha1()).stub(b"#!/usr/bin/env php\n<?php ").alias(b"app.phar").unwrap();
    let mut writer = writer.metadata(b"a:0:{}").unwrap();
    writer.entry(b"dir/x.php", b"s:1:\"m\";", 7, 0o1755, Compression::Stored).unwrap();
    let mut contents = writer.contents();
    contents.feed(b"<?php echo 1;").unwrap();
    let bytes = contents.into_bytes().unwrap();
    let reader = Reader::read(bytes, Options::new(), IndexKind::MetadataMap).unwrap();
    assert_eq!(reader.alias_bytes(), b"app.phar".to_vec());
    assert_eq!(reader.metadata_bytes(), b"a:0:{}".to_vec());
    assert_eq!(reader.stub_bytes(), b"#!/usr/bin/env php\n<?php __HALT_COMPILER(); ?>\r\n".to_vec());
}

#[test]
fn zero_entry_archive_round_trips() {
    let writer = create(Signature::sha256()).stub(b"<?php ").metadata(b"m").unwrap();
    let contents = writer.contents();
    let bytes = contents.into_bytes().unwrap();
    for kind in [IndexKind::NoIndex, IndexKind::OffsetOnly, IndexKind::NameMap, IndexKind::MetadataMap] {
        let reader = Reader::read(bytes.clone(), Options::new(), kind).unwrap();
        assert_eq!(reader.num_files(), 0);
        assert_eq!(reader.metadata_bytes(), b"m".to_vec());
    }
    let reader = Reader::read(bytes, Options::new(), IndexKind::OffsetOnly).unwrap();
    assert_eq!(reader.files().unwrap(), Vec::new());
}

#[test]
fn empty_file_round_trips_for_each_compression() {
    for compression in [Compression::Stored, Compression::Zlib(9), Compression::Bzip(9)] {
        let mut writer = create(Signature::sha256()).stub(b"<?php ").metadata(b"").unwrap();
        writer.entry(b"empty", b"", 0, 0o644, compression).unwrap();
        let mut contents = writer.contents();
        contents.feed(b"").unwrap();
        let bytes = contents.into_bytes().unwrap();
        let reader = Reader::read(bytes, Options::new(), IndexKind::OffsetOnly).unwrap();
        assert_eq!(reader.files().unwrap(), vec![(b"empty".to_vec(), Vec::new())]);
    }
}

#[test]
fn stored_entries_carry_sizes_and_checksum() {
    let bytes = write_two(Signature::sha256(), [Compression::Stored, Compression::Zlib(9)]);
    let stub_len = b"<?php __HALT_COMPILER(); ?>\r\n".len();
    let mlen = u32::from_le_bytes(bytes[stub_len..stub_len + 4].try_into().unwrap()) as usize;
    let parsed = phar::manifest::read(&bytes[stub_len + 4..stub_len + 4 + mlen]).unwrap();
    assert_eq!(parsed.num_files, 2);
    assert_eq!(parsed.api, 0x11);
    assert_eq!(parsed.flags, 0x0001_1000);
    let foo = &parsed.entries[0];
    assert_eq!(foo.name, b"foo".to_vec());
    assert_eq!(foo.original_size, 3);
    assert_eq!(foo.compressed_size, 3);
    assert_eq!(foo.timestamp, 1_600_000_000);
    assert_eq!(foo.crc32, 0x76ff8caa);
    assert_eq!(foo.flags.0, 0o664);
    let qux = &parsed.entries[1];
    assert_eq!(qux.original_size, 5);
    assert_ne!(qux.compressed_size, 5);
    assert_eq!(qux.flags.0, 0o664 | 0x1000);
    assert_eq!(mlen, 18 + 2 * (28 + 3));
}

#[test]
fn mode_keeps_low_nine_bits() {
    let mut writer = create(Signature::sha256()).stub(b"<?php ").metadata(b"").unwrap();
    writer.entry(b"m", b"", 0, 0o7777, Compression::Bzip(5)).unwrap();
    let mut contents = writer.contents();
    contents.feed(b"z").unwrap();
    let bytes = contents.into_bytes().unwrap();
    let stub_len = b"<?php __HALT_COMPILER(); ?>\r\n".len();
    let parsed = phar::manifest::read(&bytes[stub_len + 4..]).unwrap();
    assert_eq!(parsed.entries[0].flags.0, 0o777 | 0x2000);
    assert_eq!(parsed.flags, 0x0001_2000);
}

#[test]
fn timestamps_wrap() {
    assert_eq!(timestamp_secs(true, 5), 5);
    assert_eq!(timestamp_secs(true, 0x1_0000_0005), 5);
    assert_eq!(timestamp_secs(false, 1), 0xffff_ffff);
    assert_eq!(timestamp_secs(false, 0), 0);
}

#[test]
fn file_flags() {
    let mut f = FileFlags(0o644);
    assert!(!f.has_zlib());
    f.set_has_zlib(true);
    assert!(f.has_zlib());
    assert_eq!(f.0, 0o644 | 0x1000);
    f.set_has_bzip(true);
    assert!(f.has_bzip());
    f.set_has_zlib(false);
    assert_eq!(f.0, 0o644 | 0x2000);
    f.set_mode(0o1700);
    assert_eq!(f.mode(), 0o700);
    assert_eq!(f.0, 0o700 | 0x2000);
    f.set_has_bzip(false);
    assert_eq!(f.0, 0o700);
}

#[test]
fn signature_kinds() {
    assert_eq!(SignatureType::from_save_id(1), Some(SignatureType::Md5));
    assert_eq!(SignatureType::from_save_id(2), Some(SignatureType::Sha1));
    assert_eq!(SignatureType::from_save_id(4), Some(SignatureType::Sha256));
    assert_eq!(SignatureType::from_save_id(8), Some(SignatureType::Sha512));
    assert_eq!(SignatureType::from_save_id(3), None);
    assert_eq!(SignatureType::Sha512.to_save_id(), 8);
    assert_eq!(SignatureType::Sha1.to_save_length(), 20);
    assert_eq!(SignatureType::Sha512.to_save_length(), 64);
    assert!(Signature::from_u32(16).is_none());
    assert_eq!(Signature::from_u32(4).unwrap().size(), 32);
}

fn hex(b: &[u8]) -> String {
    b.iter().map(|x| format!("{:02x}", x)).collect()
}

#[test]
fn digests_of_abc() {
    let cases = [
        (Signature::md5(), "900150983cd24fb0d6963f7d28e17f72"),
        (Signature::sha1(), "a9993e364706816aba3e25717850c26c9cd0d89d"),
        (Signature::sha256(), "ba7816bf8f01cfea414140de5dae2223b00361a396177a9cb410ff61f20015ad"),
        (
            Signature::sha512(),
            "ddaf35a193617abacc417349ae20413112e6fa4e89a97ea20a9eeee64b55d39a2192992a274fc1a836ba3c23a3feebbd454d4423643ce80e2a9ac94fa54ca49f",
        ),
    ];
    for (mut sig, want) in cases {
        sig.write(b"a");
        sig.write(b"bc");
        assert_eq!(hex(&sig.finalize()), want);
    }
}

#[test]
fn crc32_of_check_string() {
    let mut writer = create(Signature::md5()).stub(b"<?php ").metadata(b"").unwrap();
    writer.entry(b"c", b"", 0, 0, Compression::Stored).unwrap();
    let mut contents = writer.contents();
    contents.feed(b"123456789").unwrap();
    let bytes = contents.into_bytes().unwrap();
    let stub_len = b"<?php __HALT_COMPILER(); ?>\r\n".len();
    let parsed = phar::manifest::read(&bytes[stub_len + 4..]).unwrap();
    assert_eq!(parsed.entries[0].crc32, 0xcbf4_3926);
}

#[test]
fn compression_codecs() {
    let data = b"hello hello hello hello hello hello".to_vec();
    for c in [Compression::Zlib(9), Compression::Bzip(9)] {
        let packed = c.encode(&data).unwrap();
        assert_ne!(packed, data);
        assert_eq!(c.decode(&packed), Some(data.clone()));
        assert_eq!(c.decode(b"not compressed"), None);
    }
    assert_eq!(Compression::Stored.encode(&data).unwrap(), data);
    assert_eq!(Compression::from_bit(0x1000 | 0o644), Compression::Zlib(0));
    assert_eq!(Compression::from_bit(0x2000), Compression::Bzip(0));
    assert_eq!(Compression::from_bit(0x3000), Compression::Zlib(0));
    assert_eq!(Compression::from_bit(0o777), Compression::Stored);
    assert_eq!(Compression::Bzip(3).bit(), 0x2000);
}

#[test]
fn manifest_over_one_mebibyte_is_refused() {
    let big = vec![b'm'; 0x10_0000];
    let writer = create(Signature::sha256()).stub(b"<?php ");
    assert_eq!(writer.metadata(&big).err(), Some(Write::ManifestTooLarge));
    let mut writer = create(Signature::sha256()).stub(b"<?php ").metadata(b"").unwrap();
    let name = vec![b'n'; 0x10_0000 - 18 - 28];
    assert_eq!(writer.entry(&name, b"", 0, 0, Compression::Stored), Ok(()));
    assert_eq!(writer.entry(b"x", b"", 0, 0, Compression::Stored), Err(Write::ManifestTooLarge));
    let mut contents = writer.contents();
    contents.feed(b"").unwrap();
    let reader = Reader::read(contents.into_bytes().unwrap(), Options::new(), IndexKind::NameMap).unwrap();
    assert_eq!(reader.num_files(), 1);
}

#[test]
fn plain_archive_layout() {
    let mut writer = create(Signature::sha256()).stub(b"<?php ").metadata(br#"s:3:"met";"#).unwrap();
    writer.entry(b"foo", b"", 0, 0o664, Compression::Stored).unwrap();
    writer.entry(b"qux", b"", 0, 0o664, Compression::Stored).unwrap();
    let mut contents = writer.contents();
    contents.feed(b"bar").unwrap();
    contents.feed(b"corge").unwrap();
    let s = contents.into_bytes().unwrap();
    let u32_at = |i: usize| u32::from_le_bytes(s[i..i + 4].try_into().unwrap());
    assert_eq!(s.len(), 171);
    assert_eq!(&s[0..29], b"<?php __HALT_COMPILER(); ?>\r\n");
    assert_eq!(u32_at(29), 90);
    assert_eq!(u32_at(33), 2);
    assert_eq!(&s[37..39], &[0x11, 0]);
    assert_eq!(u32_at(39), 0x10000);
    assert_eq!(u32_at(43), 0);
    assert_eq!(u32_at(47), 10);
    assert_eq!(&s[51..61], br#"s:3:"met";"#);
    assert_eq!(&s[123..131], b"barcorge");
    let mut sig = Signature::sha256();
    sig.write(&s[0..131]);
    assert_eq!(&s[131..163], &sig.finalize()[..]);
    assert_eq!(u32_at(163), 4);
    assert_eq!(&s[167..171], b"GBMB");
}
