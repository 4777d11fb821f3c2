use phar::section::Section;
use phar::stub::read_find_bstr;
use phar::{create, Compression, IndexKind, Open, Options, Reader, Signature};

fn std_archive(signature: Signature, compression: [Compression; 2]) -> Vec<u8> {
    let mut writer = create(signature)
        .stub(&b"<?php "[..])
        .metadata(&br#"s:3:"met";"#[..])
        .unwrap();
    writer.entry(b"foo", b"", 0, 0o664, compression[0]).unwrap();
    writer.entry(b"qux", b"", 0, 0o664, compression[1]).unwrap();
    let mut contents = writer.contents();
    contents.feed(b"bar").unwrap();
    contents.feed(b"corge").unwrap();
    contents.into_bytes().unwrap()
}

fn verify_std_header(reader: &Reader) {
    assert_eq!(reader.stub_bytes(), b"<?php __HALT_COMPILER(); ?>\r\n".to_vec());
    assert_eq!(reader.metadata_bytes(), br#"s:3:"met";"#.to_vec());
}

fn verify_std_contents(reader: &Reader) {
    verify_std_header(reader);
    let files = reader.files().expect("Failed reading phar contents");
    assert_eq!(files.len(), 2);
    assert!(files.contains(&(b"foo".to_vec(), b"bar".to_vec())));
    assert!(files.contains(&(b"qux".to_vec(), b"corge".to_vec())));
}

fn plain() -> Vec<u8> {
    std_archive(Signature::sha256(), [Compression::Stored, Compression::Stored])
}

fn zip() -> Vec<u8> {
    std_archive(Signature::sha256(), [Compression::Zlib(9), Compression::Zlib(9)])
}

#[test]
fn read_until_bstr() {
    let haystack = b"mississippi";
    for len in 1..=7 {
        for needle in haystack.windows(len) {
            let offset = haystack
                .windows(needle.len())
                .position(|substr| substr == needle)
                .expect("needle was extracted from haystack");
            let mut section = Section::Cached(Vec::with_capacity(haystack.len()));
            read_find_bstr(&haystack[..], &mut section, needle)
                .unwrap_or_else(|_| panic!("Failed to find needle {}", String::from_utf8_lossy(needle)));
            let buf = match section {
                Section::Cached(buf) => buf,
                _ => unreachable!(),
            };
            assert_eq!(haystack.get(0..offset + needle.len()), Some(&buf[..]));
        }
    }
}

#[test]
fn test_plain_no_index() {
    let reader = Reader::read(plain(), Options::new(), IndexKind::NoIndex).unwrap();
    verify_std_header(&reader);
    assert_eq!(reader.num_files(), 2);
}

#[test]
fn test_plain_offset_only() {
    let reader = Reader::read(plain(), Options::new(), IndexKind::OffsetOnly).unwrap();
    verify_std_contents(&reader);
}

#[test]
fn test_zip_offset_only() {
    let reader = Reader::read(zip(), Options::new(), IndexKind::OffsetOnly).unwrap();
    verify_std_contents(&reader);
}

#[test]
fn test_zip_name_map() {
    let reader = Reader::read(zip(), Options::new(), IndexKind::NameMap).unwrap();
    verify_std_contents(&reader);
}

#[test]
fn test_zip_metadata_map() {
    let reader = Reader::read(zip(), Options::new(), IndexKind::MetadataMap).unwrap();
    verify_std_contents(&reader);
}

#[test]
fn uncached_sections_read_the_same() {
    let options = Options { cache_stub: false, cache_alias: false, cache_metadata: false, verify_signature: true };
    let reader = Reader::read(plain(), options, IndexKind::OffsetOnly).unwrap();
    verify_std_contents(&reader);
    assert_eq!(reader.alias_bytes(), Vec::<u8>::new());
}

#[test]
fn scenario_plain_archive() {
    let bytes = plain();
    let reader = Reader::read(bytes, Options::new(), IndexKind::OffsetOnly).unwrap();
    let files = reader.files().unwrap();
    assert_eq!(files, vec![(b"foo".to_vec(), b"bar".to_vec()), (b"qux".to_vec(), b"corge".to_vec())]);
    assert_eq!(reader.metadata_bytes(), br#"s:3:"met";"#.to_vec());
    assert_eq!(reader.api(), 0x11);
    assert_eq!(reader.flags(), 0x0001_0000);
}

#[test]
fn scenario_zlib_archive() {
    let reader = Reader::read(zip(), Options::new(), IndexKind::MetadataMap).unwrap();
    assert_eq!(reader.flags() & 0x1000, 0x1000);
    let files = reader.files().unwrap();
    assert_eq!(files, vec![(b"foo".to_vec(), b"bar".to_vec()), (b"qux".to_vec(), b"corge".to_vec())]);
    let parsed = phar::manifest::read(&reader_manifest(&zip())).unwrap();
    for e in &parsed.entries {
        assert_eq!(e.flags.0 & 0x1000, 0x1000);
        assert!(e.flags.has_zlib());
        assert_eq!(e.flags.mode(), 0o664);
    }
}

fn reader_manifest(bytes: &[u8]) -> Vec<u8> {
    let stub_len = b"<?php __HALT_COMPILER(); ?>\r\n".len();
    let mlen = u32::from_le_bytes([bytes[stub_len], bytes[stub_len + 1], bytes[stub_len + 2], bytes[stub_len + 3]]) as usize;
    bytes[stub_len + 4..stub_len + 4 + mlen].to_vec()
}

#[test]
fn scenario_mixed_compression() {
    let bytes = std_archive(Signature::sha256(), [Compression::Zlib(9), Compression::Bzip(9)]);
    let reader = Reader::read(bytes, Options::new(), IndexKind::NameMap).unwrap();
    assert_eq!(reader.flags() & 0x3000, 0x3000);
    let files = reader.files().unwrap();
    assert_eq!(files, vec![(b"foo".to_vec(), b"bar".to_vec()), (b"qux".to_vec(), b"corge".to_vec())]);
}

#[test]
fn scenario_signature_mismatch() {
    let mut bytes = plain();
    let reader = Reader::read(bytes.clone(), Options::new(), IndexKind::OffsetOnly).unwrap();
    let at = reader.content_start() as usize;
    bytes[at] ^= 0x01;
    assert_eq!(
        Reader::read(bytes.clone(), Options::new(), IndexKind::OffsetOnly).err(),
        Some(Open::BrokenSignature)
    );
    let options = Options { verify_signature: false, ..Options::new() };
    let reader = Reader::read(bytes, options, IndexKind::OffsetOnly).unwrap();
    let files = reader.files().unwrap();
    assert_eq!(files[0], (b"foo".to_vec(), b"car".to_vec()));
    assert_eq!(files[1], (b"qux".to_vec(), b"corge".to_vec()));
}

#[test]
fn scenario_manifest_size_cap() {
    let mut bytes = b"<?php __HALT_COMPILER(); ?>\r\n".to_vec();
    bytes.extend_from_slice(&0x0010_0001u32.to_le_bytes());
    bytes.extend_from_slice(&[0u8; 64]);
    let options = Options { verify_signature: false, ..Options::new() };
    assert_eq!(Reader::read(bytes, options, IndexKind::OffsetOnly).err(), Some(Open::ManifestTooLong));
}

#[test]
fn manifest_of_exactly_one_mebibyte_is_read() {
    let mut bytes = b"<?php __HALT_COMPILER(); ?>\r\n".to_vec();
    bytes.extend_from_slice(&0x0010_0000u32.to_le_bytes());
    bytes.extend_from_slice(&[0u8; 18]);
    let options = Options { verify_signature: false, ..Options::new() };
    let reader = Reader::read(bytes, options, IndexKind::OffsetOnly).unwrap();
    assert_eq!(reader.num_files(), 0);
}

#[test]
fn flipped_last_byte_breaks_the_signature() {
    let mut bytes = plain();
    let last = bytes.len() - 1;
    bytes[last] ^= 0xff;
    assert_eq!(Reader::read(bytes, Options::new(), IndexKind::NoIndex).err(), Some(Open::BrokenSignature));
}

#[test]
fn missing_terminator() {
    let options = Options { verify_signature: false, ..Options::new() };
    assert_eq!(
        Reader::read(b"<?php echo 1;".to_vec(), options, IndexKind::OffsetOnly).err(),
        Some(Open::NoHaltCompiler)
    );
}

#[test]
fn truncated_manifest() {
    let bytes = plain();
    let options = Options { verify_signature: false, ..Options::new() };
    let cut = b"<?php __HALT_COMPILER(); ?>\r\n".len() + 10;
    assert_eq!(
        Reader::read(bytes[..cut].to_vec(), options, IndexKind::OffsetOnly).err(),
        Some(Open::UnexpectedEof)
    );
    assert_eq!(Reader::read(b"GB".to_vec(), Options::new(), IndexKind::OffsetOnly).err(), Some(Open::UnexpectedEof));
}

#[test]
fn unknown_signature_kind() {
    let mut bytes = plain();
    let at = bytes.len() - 8;
    bytes[at] = 3;
    assert_eq!(Reader::read(bytes, Options::new(), IndexKind::OffsetOnly).err(), Some(Open::UnknownSignatureKind));
}

#[test]
fn content_too_long() {
    let mut bytes = plain();
    // the compressed size of "foo": stub, manifest length, 18 header bytes and the
    // 10 metadata bytes, name, then two u32
    let at = b"<?php __HALT_COMPILER(); ?>\r\n".len() + 4 + 18 + 10 + 4 + 3 + 8;
    assert_eq!(&bytes[at..at + 4], &3u32.to_le_bytes());
    bytes[at] = 4;
    assert_eq!(Reader::read(bytes.clone(), Options::new(), IndexKind::OffsetOnly).err(), Some(Open::ContentTooLong));
    assert_eq!(Reader::read(bytes, Options::new(), IndexKind::NoIndex).err(), Some(Open::BrokenSignature));
}

#[test]
fn broken_content() {
    let mut bytes = plain();
    // the flags of "foo"
    let at = b"<?php __HALT_COMPILER(); ?>\r\n".len() + 4 + 18 + 10 + 4 + 3 + 16 + 1;
    bytes[at] |= 0x10;
    let options = Options { verify_signature: false, ..Options::new() };
    let reader = Reader::read(bytes, options, IndexKind::OffsetOnly).unwrap();
    assert_eq!(reader.files().err(), Some(Open::BrokenContent));
}

#[test]
fn lookup_gives_the_stored_range() {
    let bytes = zip();
    let reader = Reader::read(bytes.clone(), Options::new(), IndexKind::NameMap).unwrap();
    let (s, e) = reader.lookup(b"qux").unwrap();
    let parsed = phar::manifest::read(&reader_manifest(&bytes)).unwrap();
    assert_eq!(e - s, parsed.entries[1].compressed_size as u64);
    assert_eq!(reader.lookup(b"nope"), None);
    let offsets = Reader::read(bytes, Options::new(), IndexKind::OffsetOnly).unwrap();
    assert_eq!(offsets.lookup(b"qux"), None);
}

#[test]
fn duplicate_names_last_wins() {
    let mut writer = create(Signature::md5()).stub(b"<?php ").metadata(b"").unwrap();
    writer.entry(b"a", b"", 0, 0o644, Compression::Stored).unwrap();
    writer.entry(b"a", b"", 0, 0o644, Compression::Stored).unwrap();
    let mut contents = writer.contents();
    contents.feed(b"first").unwrap();
    contents.feed(b"second!").unwrap();
    let bytes = contents.into_bytes().unwrap();
    let map = Reader::read(bytes.clone(), Options::new(), IndexKind::NameMap).unwrap();
    assert_eq!(map.files().unwrap(), vec![(b"a".to_vec(), b"second!".to_vec())]);
    let (s, e) = map.lookup(b"a").unwrap();
    assert_eq!(e - s, 7);
    let all = Reader::read(bytes, Options::new(), IndexKind::OffsetOnly).unwrap();
    assert_eq!(all.files().unwrap().len(), 2);
}

#[test]
fn incorrect_stub_start() {
    assert_eq!(phar::stub::read(b"hello __HALT_COMPILER(); ?>\r\n").err(), Some(Open::IncorrectStubStart));
    assert_eq!(phar::stub::read(b"<?php nothing").err(), Some(Open::NoHaltCompiler));
    assert_eq!(
        phar::stub::read(b"<?php __HALT_COMPILER(); ?>\r\nrest").unwrap(),
        b"<?php __HALT_COMPILER(); ?>\r\n".to_vec()
    );
}
