use archiv::{Compress, CompressOptions, Error, Expand, ExpandOptions};

fn test_round_trip<C: Compress<Vec<u8>>>(mut archiv: C, originals: &[&str]) -> Result<(), Error> {
    for item in originals {
        archiv.write_item(item.as_bytes())?;
    }
    let file = archiv.finish()?;

    let mut items = Vec::with_capacity(originals.len());
    let mut archiv = ExpandOptions::default().stream(file)?;

    while let Some(_) = archiv.next_item()? {
        let buf = archiv.read_to_end()?;
        items.push(String::from_utf8(buf).unwrap());
    }

    assert_eq!(originals, items);
    Ok(())
}

#[test]
fn round_trip_stream() -> Result<(), Error> {
    test_round_trip(
        CompressOptions::default().stream_compress(Vec::new())?,
        &["hello world", "bruises"],
    )?;
    test_round_trip(
        CompressOptions::default().stream_compress(Vec::new())?,
        &["hello world"],
    )?;
    test_round_trip(CompressOptions::default().stream_compress(Vec::new())?, &[])?;
    Ok(())
}

#[test]
fn round_trip_items() -> Result<(), Error> {
    test_round_trip(
        CompressOptions::default().item_compress(Vec::new())?,
        &["hello world", "bruises"],
    )?;
    test_round_trip(
        CompressOptions::default().item_compress(Vec::new())?,
        &["hello world"],
    )?;
    test_round_trip(CompressOptions::default().item_compress(Vec::new())?, &[])?;
    Ok(())
}

#[test]
fn api_misuse() -> Result<(), Error> {
    let archiv = CompressOptions::default().with_level(7);
    let mut archiv = archiv.stream_compress(Vec::new())?;
    archiv.write_item(b"hello world")?;
    let out = archiv.finish()?;
    let mut archiv = ExpandOptions::default().stream(out)?;
    let len = archiv.next_item()?.expect(">1 items present");
    assert_eq!(11, len);
    assert_eq!(1, archiv.read(1).len());
    // this is illegal, it hasn't been fully read:
    assert!(matches!(archiv.next_item(), Err(Error::ApiMisuse)));
    Ok(())
}

#[test]
fn compress_opts_lifetime() -> Result<(), Error> {
    let opts = CompressOptions::default().with_level(7);
    let mut archiv = opts.stream_compress(Vec::new())?;
    drop(opts);
    archiv.write_item(b"hello world")?;
    archiv.finish()?;
    Ok(())
}
