use archiv::{
    ZstdBuilder, ZstdDict, footer, header, parse_header, read_archive, stats, train, Compress, CompressOptions,
    DecoderDictionary, EncoderDictionary, Error, Expand, ExpandOptions, Expander, Kinds, Sampler,
    DEFAULT_MAX_ITEM_SIZE, FOOTER_VALUE, MAX_ITEM_SIZE,
};

fn plain_archive(items: &[&[u8]]) -> Vec<u8> {
    let mut w = CompressOptions::default().stream_compress(Vec::new()).unwrap();
    for item in items {
        w.write_item(item).unwrap();
    }
    w.finish().unwrap()
}

fn item_archive(opts: &CompressOptions, items: &[&[u8]]) -> Vec<u8> {
    let mut w = opts.item_compress(Vec::new()).unwrap();
    for item in items {
        w.write_item(item).unwrap();
    }
    w.finish().unwrap()
}

fn read_items(mut r: Expander) -> Vec<Vec<u8>> {
    let mut out = Vec::new();
    while let Some(_) = r.next_item().unwrap() {
        out.push(r.read_to_end().unwrap());
    }
    out
}

fn many_items() -> Vec<Vec<u8>> {
    (0..400u32)
        .map(|i| {
            format!(
                "{{\"id\": {}, \"name\": \"document number {}\", \"tags\": [\"alpha\", \"beta{}\"], \"score\": {}}}",
                i,
                i * 7,
                i % 13,
                (i * 31) % 1000
            )
            .into_bytes()
        })
        .collect()
}

#[test]
fn header_bytes_and_kinds() {
    assert_eq!(header(Kinds::Plain), [0x29, 0xb6, b'a', b'r', b'c', 0, 0, 0]);
    assert_eq!(header(Kinds::ItemCompressed), [0x29, 0xb6, b'a', b'r', b'c', 0, 0, 1]);
    assert!(matches!(parse_header(&header(Kinds::Plain)), Ok(Kinds::Plain)));
    assert!(matches!(parse_header(&header(Kinds::ItemCompressed)), Ok(Kinds::ItemCompressed)));
}

#[test]
fn parse_header_errors() {
    let mut h = header(Kinds::Plain);
    h[7] = 2;
    assert!(matches!(parse_header(&h), Err(Error::MagicUnrecognised)));
    let mut h = header(Kinds::Plain);
    h[2] = b'x';
    assert!(matches!(parse_header(&h), Err(Error::MagicMissing)));
}

#[test]
fn footer_is_the_sentinel() {
    assert_eq!(footer(), 0xffff_ffff_ffff_fff0u64.to_le_bytes());
    assert_eq!(u64::from_le_bytes(footer()), FOOTER_VALUE);
}

#[test]
fn sentinel_lies_above_every_ceiling() {
    assert!(FOOTER_VALUE >= MAX_ITEM_SIZE);
    assert!(DEFAULT_MAX_ITEM_SIZE < MAX_ITEM_SIZE);
    assert_eq!(DEFAULT_MAX_ITEM_SIZE, 2 * 1024 * 1024 * 1024);
}

#[test]
fn stats_of_two_items() {
    let archive = plain_archive(&[b"hello world", b"bruises"]);
    let s = stats(archive).unwrap();
    assert_eq!(s.items, 2);
    assert_eq!(s.bytes, 18);
    assert_eq!(s.mean(), 9);
}

#[test]
fn empty_archive_is_exhausted_at_once() {
    let archive = plain_archive(&[]);
    let mut r = ExpandOptions::default().stream(archive).unwrap();
    assert!(matches!(r.next_item(), Ok(None)));
    assert!(matches!(r.next_item(), Ok(None)));
}

#[test]
fn item_mode_same_content_other_size() {
    let plain = plain_archive(&[b"hello world", b"bruises"]);
    let items = item_archive(&CompressOptions::default(), &[b"hello world", b"bruises"]);
    assert_ne!(plain.len(), items.len());
    assert_eq!(&items[..8], &header(Kinds::ItemCompressed));
    assert_eq!(&items[items.len() - 8..], &footer());
    let a = read_archive(plain).unwrap();
    let b = read_archive(items).unwrap();
    assert_eq!(a, b);
    assert_eq!(a, vec![b"hello world".to_vec(), b"bruises".to_vec()]);
}

#[test]
fn corrupt_length_is_invalid_item() {
    for kind in [Kinds::Plain, Kinds::ItemCompressed] {
        let mut data = header(kind).to_vec();
        data.extend_from_slice(&[0xff; 8]);
        let mut r = ExpandOptions::default().stream(data).unwrap();
        assert!(matches!(r.next_item(), Err(Error::InvalidItem)));
    }
}

#[test]
fn ceiling_is_enforced() {
    let archive = plain_archive(&[b"hello world"]);
    let mut r = ExpandOptions::default().with_max_item_size(10).stream(archive.clone()).unwrap();
    assert!(matches!(r.next_item(), Err(Error::InvalidItem)));
    let mut r = ExpandOptions::default().with_max_item_size(11).stream(archive).unwrap();
    assert!(matches!(r.next_item(), Ok(Some(11))));
}

#[test]
fn draining_in_pieces_does_not_poison() {
    let archive = plain_archive(&[b"hello world", b"bruises"]);
    let mut r = ExpandOptions::default().stream(archive).unwrap();
    assert!(matches!(r.next_item(), Ok(Some(11))));
    assert_eq!(r.read(5), b"hello");
    assert_eq!(r.read(100), b" world");
    assert_eq!(r.read(100), b"");
    assert!(matches!(r.next_item(), Ok(Some(7))));
    assert_eq!(r.read_to_end().unwrap(), b"bruises");
    assert!(matches!(r.next_item(), Ok(None)));
}

#[test]
fn poisoning_latches() {
    let archive = plain_archive(&[b"hello world", b"bruises"]);
    let mut r = ExpandOptions::default().stream(archive).unwrap();
    assert!(matches!(r.next_item(), Ok(Some(11))));
    assert_eq!(r.read(3), b"hel");
    assert!(matches!(r.next_item(), Err(Error::ApiMisuse)));
    assert!(matches!(r.next_item(), Err(Error::ApiMisuse)));
}

#[test]
fn item_mode_skips_unread_items() {
    let archive = item_archive(&CompressOptions::default(), &[b"hello world", b"bruises"]);
    let mut r = ExpandOptions::default().stream(archive).unwrap();
    assert!(matches!(r.next_item(), Ok(Some(11))));
    assert_eq!(r.read(1), b"h");
    assert!(matches!(r.next_item(), Ok(Some(7))));
    assert_eq!(r.read_to_end().unwrap(), b"bruises");
    assert!(matches!(r.next_item(), Ok(None)));
}

#[test]
fn outer_layer_is_transparent() {
    let items: [&[u8]; 2] = [b"hello world", b"bruises"];
    for archive in [plain_archive(&items), item_archive(&CompressOptions::default(), &items)] {
        let wrapped = zstd::bulk::compress(&archive, 3).unwrap();
        assert_eq!(wrapped[0], 0x28);
        assert_eq!(read_archive(wrapped).unwrap(), read_archive(archive).unwrap());
    }
}

#[test]
fn plain_archive_is_compressed() {
    let archive = plain_archive(&[b"hello world"]);
    assert_eq!(&archive[..4], &[0x28, 0xb5, 0x2f, 0xfd]);
    let inner = zstd::stream::decode_all(&archive[..]).unwrap();
    assert_eq!(&inner[..8], &header(Kinds::Plain));
    assert_eq!(&inner[8..16], &11u64.to_le_bytes());
    assert_eq!(&inner[16..27], b"hello world");
    assert_eq!(&inner[27..], &footer());
}

#[test]
fn uncompressed_plain_container_reads() {
    let mut data = header(Kinds::Plain).to_vec();
    data.extend_from_slice(&3u64.to_le_bytes());
    data.extend_from_slice(b"abc");
    data.extend_from_slice(&footer());
    assert_eq!(read_archive(data).unwrap(), vec![b"abc".to_vec()]);
}

#[test]
fn truncated_input_is_an_io_error() {
    let mut data = header(Kinds::Plain).to_vec();
    data.extend_from_slice(&30u64.to_le_bytes());
    data.extend_from_slice(b"abc");
    let mut r = ExpandOptions::default().stream(data).unwrap();
    assert!(matches!(r.next_item(), Err(Error::Io { .. })));
    let r = ExpandOptions::default().stream(header(Kinds::Plain)[..5].to_vec());
    assert!(matches!(r, Err(Error::Io { .. })));
}

#[test]
fn missing_magic() {
    assert!(matches!(ExpandOptions::default().stream(Vec::new()), Err(Error::MagicMissing)));
    assert!(matches!(
        ExpandOptions::default().stream(b"not an archive".to_vec()),
        Err(Error::MagicMissing)
    ));
    let mut h = header(Kinds::Plain).to_vec();
    h[7] = 9;
    assert!(matches!(ExpandOptions::default().stream(h), Err(Error::MagicUnrecognised)));
}

#[test]
fn stream_offsets() {
    let mut w = CompressOptions::default().stream_compress(Vec::new()).unwrap();
    assert_eq!(w.write_item(b"hello world").unwrap(), 27);
    assert_eq!(w.write_item(b"bruises").unwrap(), 42);
    let parts: [&[u8]; 2] = [b"hello ", b"world"];
    assert_eq!(w.write_item_vectored(&parts).unwrap(), 61);
    assert_eq!(w.write_item(b"").unwrap(), 69);
    let out = w.finish().unwrap();
    assert_eq!(
        read_archive(out).unwrap(),
        vec![b"hello world".to_vec(), b"bruises".to_vec(), b"hello world".to_vec(), Vec::new()]
    );
}

#[test]
fn item_offsets() {
    let mut w = CompressOptions::default().item_compress(Vec::new()).unwrap();
    assert_eq!(w.write_item(b"hello world").unwrap(), 8);
    let end_of_first = w.get_mut().len() as u64;
    assert!(end_of_first > 16);
    assert_eq!(w.write_item(b"bruises").unwrap(), end_of_first);
    let end_of_second = w.get_mut().len() as u64;
    assert!(end_of_second > end_of_first + 8);
    let out = w.finish().unwrap();
    assert_eq!(out.len() as u64, end_of_second + 8);
}

#[test]
fn sink_prefix_is_kept() {
    let mut w = CompressOptions::default().item_compress(b"xyz".to_vec()).unwrap();
    w.write_item(b"hello").unwrap();
    let out = w.finish().unwrap();
    assert_eq!(&out[..3], b"xyz");
    assert_eq!(&out[3..11], &header(Kinds::ItemCompressed));
}

#[test]
fn stream_explicit_reads_plain_only() {
    let archive = plain_archive(&[b"hello world"]);
    let mut s = ExpandOptions::default().stream_explicit(archive).unwrap();
    assert!(matches!(s.next_item(), Ok(Some(11))));
    assert_eq!(s.read_to_end().unwrap(), b"hello world");
    let items = item_archive(&CompressOptions::default(), &[b"hello world"]);
    assert!(matches!(ExpandOptions::default().stream_explicit(items), Err(Error::MagicMissing)));
    let wrapped = zstd::bulk::compress(&item_archive(&CompressOptions::default(), &[b"x"]), 3).unwrap();
    assert!(matches!(ExpandOptions::default().stream_explicit(wrapped), Err(Error::MagicMissing)));
}

#[test]
fn frames_can_be_skipped_undecoded() {
    let archive = item_archive(&CompressOptions::default(), &[b"hello world"]);
    let mut r = match ExpandOptions::default().stream(archive).unwrap() {
        Expander::Item(r) => r,
        Expander::Stream(_) => panic!("expected an item archive"),
    };
    let frame = r.next_frame().unwrap().unwrap();
    assert_eq!(zstd::stream::decode_all(&frame[..]).unwrap(), b"hello world");
    assert!(r.next_frame().unwrap().is_none());
}

#[test]
fn sampler_replaces_by_running_value() {
    let mut s = Sampler::new(2);
    s.add(b"a".to_vec());
    s.add(b"bb".to_vec());
    s.add(b"ccc".to_vec());
    // (0 + 1) * 37 = 37; (37 + 2) * 37 = 1443; (1443 + 3) * 37 = 53502, and 53502 % 2 == 0
    assert_eq!(s.samples(), &vec![b"ccc".to_vec(), b"bb".to_vec()]);
    s.add(b"d".to_vec());
    // (53502 + 1) * 37 = 1979611, odd
    assert_eq!(s.samples(), &vec![b"ccc".to_vec(), b"d".to_vec()]);
}

#[test]
fn training_is_deterministic() {
    let docs = many_items();
    let refs: Vec<&[u8]> = docs.iter().map(|d| &d[..]).collect();
    let sources = vec![plain_archive(&refs[..200]), item_archive(&CompressOptions::default(), &refs[200..])];
    let a = train(&sources, 300).unwrap();
    let b = train(&sources, 300).unwrap();
    assert!(!a.is_empty());
    assert!(a.len() <= 112640);
    assert_eq!(a, b);
}

#[test]
fn raw_dictionary_round_trip() {
    let docs = many_items();
    let refs: Vec<&[u8]> = docs.iter().map(|d| &d[..]).collect();
    let dict = train(&vec![plain_archive(&refs)], 10000).unwrap();
    let opts = CompressOptions::default().with_raw_dict(dict.clone());
    let archive = item_archive(&opts, &refs[..5]);
    let plain = item_archive(&CompressOptions::default(), &refs[..5]);
    assert!(archive.len() < plain.len());
    let r = ExpandOptions::default().with_raw_dict(dict).stream(archive.clone()).unwrap();
    assert_eq!(read_items(r), docs[..5].to_vec());
    let mut r = ExpandOptions::default().stream(archive).unwrap();
    assert!(matches!(r.next_item(), Err(Error::Io { .. })));
}

#[test]
fn prepared_dictionary_round_trip() {
    let docs = many_items();
    let refs: Vec<&[u8]> = docs.iter().map(|d| &d[..]).collect();
    let dict = train(&vec![plain_archive(&refs)], 10000).unwrap();
    let enc = EncoderDictionary::copy(&dict, 3);
    let dec = DecoderDictionary::copy(&dict);
    let opts = CompressOptions::default().with_dict(&enc);
    let archive = item_archive(&opts, &refs[..5]);
    let r = ExpandOptions::default().with_dict(&dec).stream(archive).unwrap();
    assert_eq!(read_items(r), docs[..5].to_vec());

    let mut w = opts.stream_compress(Vec::new()).unwrap();
    w.write_item(&refs[0]).unwrap();
    let out = w.finish().unwrap();
    let r = ExpandOptions::default().with_dict(&dec).stream(out).unwrap();
    assert_eq!(read_items(r), docs[..1].to_vec());
}

#[test]
fn raw_and_level_settings_compress() {
    let data = b"hello hello hello hello hello hello hello hello".to_vec();
    let mut w = CompressOptions::default().with_level(19).stream_compress(Vec::new()).unwrap();
    w.write_item(&data).unwrap();
    let out = w.finish().unwrap();
    assert_eq!(read_archive(out).unwrap(), vec![data]);
}

#[test]
fn builder_frames_decode_back() {
    let data = b"hello world, hello world, hello world".to_vec();
    let frame = ZstdBuilder::default().encode(&data).unwrap();
    assert_ne!(frame, data);
    assert_eq!(&frame[..4], &[0x28, 0xb5, 0x2f, 0xfd]);
    let back = ZstdDict::<DecoderDictionary<'static>>::default().decode(&frame).unwrap();
    assert_eq!(back, data);
    assert!(matches!(
        ZstdDict::<DecoderDictionary<'static>>::default().decode(b"garbage"),
        Err(Error::Io { .. })
    ));
}

#[test]
fn vectored_matches_single_write() {
    let mut a = CompressOptions::default().stream_compress(Vec::new()).unwrap();
    let mut b = CompressOptions::default().stream_compress(Vec::new()).unwrap();
    let parts: [&[u8]; 3] = [b"hel", b"", b"lo world"];
    assert_eq!(a.write_item_vectored(&parts).unwrap(), b.write_item(b"hello world").unwrap());
    let empty: [&[u8]; 0] = [];
    assert_eq!(a.write_item_vectored(&empty).unwrap(), b.write_item(b"").unwrap());
    assert_eq!(a.finish().unwrap(), b.finish().unwrap());
}

#[test]
fn unreadable_source_fails_training() {
    let good = plain_archive(&[b"hello world"]);
    assert!(matches!(train(&vec![good.clone(), b"junk".to_vec()], 10), Err(Error::MagicMissing)));
    assert!(matches!(train(&vec![Vec::new(), good], 10), Err(Error::MagicMissing)));
}

#[test]
fn stats_of_unreadable_input() {
    assert!(matches!(stats(b"junk".to_vec()), Err(Error::MagicMissing)));
    assert!(matches!(stats(vec![0x28, 0xb5, 0x2f, 0xfd, 0, 0]), Err(Error::Io { .. })));
}
