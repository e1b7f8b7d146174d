use vstd::prelude::*;

use zstd::dict::EncoderDictionary;

use crate::error::{Error, Result};
use crate::header::{
    append_bytes, append_prefix, archive_bytes, footer, footer_bytes, frame_all, frame_item, header,
    header_bytes, lemma_frame_all_push, lemma_frame_item_len, prefix_bytes, Kinds,
    GLOBAL_MARKER_LEN, MAX_ITEM_SIZE,
};
use crate::zbuild::{encodes_to, encoding, DictChoice, ZstdBuilder, ZstdDict};

verus! {

/// Entry point for compression (writing).
pub struct CompressOptions<'d> {
    zstd: ZstdBuilder<'d>,
}

/// The common surface of the two writers.
pub trait Compress<W>: Sized {
    /// The writer's own consistency.
    spec fn wf(&self) -> bool;

    /// Appends an item to the archive.
    fn write_item(&mut self, item: &[u8]) -> (r: Result<u64>)
        requires
            old(self).wf(),
        ensures
            final(self).wf(),
    ;

    /// Closes the archive and hands back the sink.
    fn finish(self) -> (r: Result<W>)
        requires
            self.wf(),
    ;

    /// Makes sure that nothing accepted so far is held back.
    fn flush(&mut self) -> (r: Result<()>)
        requires
            old(self).wf(),
        ensures
            final(self).wf(),
    ;
}

/// The writer of a Plain archive: the whole archive is one compression stream.
pub struct CompressStream<'d> {
    off: u64,
    inner: Vec<u8>,
    body: Vec<u8>,
    zstd: ZstdBuilder<'d>,
    items: Ghost<Seq<Seq<u8>>>,
}

/// The writer of an ItemCompressed archive: each item is its own compression frame.
pub struct CompressItem<'d> {
    off: u64,
    inner: Vec<u8>,
    zstd: ZstdBuilder<'d>,
    frames: Ghost<Seq<Seq<u8>>>,
}

/// The parts of a vectored item, joined.
pub open spec fn joined(parts: Seq<&[u8]>) -> Seq<u8> {
    parts.map_values(|s: &[u8]| s@).flatten()
}

proof fn lemma_flatten_step(parts: Seq<Seq<u8>>, i: int)
    requires
        0 <= i < parts.len(),
    ensures
        parts.subrange(0, i + 1).flatten() == parts.subrange(0, i).flatten() + parts[i],
{
    parts.subrange(0, i + 1).lemma_flatten_and_flatten_alt_are_equivalent();
    parts.subrange(0, i).lemma_flatten_and_flatten_alt_are_equivalent();
    assert(parts.subrange(0, i + 1).drop_last() =~= parts.subrange(0, i));
}

proof fn lemma_flatten_prefix_le(parts: Seq<Seq<u8>>, k: int)
    requires
        0 <= k <= parts.len(),
    ensures
        parts.subrange(0, k).flatten().len() <= parts.flatten().len(),
    decreases parts.len() - k,
{
    if k == parts.len() {
        assert(parts.subrange(0, k) =~= parts);
    } else {
        lemma_flatten_step(parts, k);
        lemma_flatten_prefix_le(parts, k + 1);
    }
}

impl<'d> CompressStream<'d> {
    /// The sink, as it was handed over.
    pub closed spec fn sink(&self) -> Seq<u8> {
        self.inner@
    }

    /// The items accepted so far.
    pub closed spec fn items(&self) -> Seq<Seq<u8>> {
        self.items@
    }

    /// The logical offset: the bytes of the archive so far, before compression.
    pub closed spec fn offset(&self) -> u64 {
        self.off
    }

    pub closed spec fn level(&self) -> i32 {
        self.zstd.level
    }

    pub closed spec fn dict(&self) -> DictChoice {
        self.zstd.dict@
    }

    pub closed spec fn inv(&self) -> bool {
        &&& self.body@ == header_bytes(Kinds::Plain) + frame_all(self.items@)
        &&& self.off == self.body@.len()
    }

    /// Appends one item made of the given parts, one after another, and returns the new logical
    /// offset, as `write_item` does for the joined parts.
    pub fn write_item_vectored(&mut self, item: &[&[u8]]) -> (r: Result<u64>)
        requires
            old(self).inv(),
        ensures
            final(self).inv(),
            final(self).sink() == old(self).sink(),
            final(self).level() == old(self).level(),
            final(self).dict() == old(self).dict(),
            ({
                let whole = joined(item@);
                if old(self).offset() + 8 + whole.len() > u64::MAX {
                    r == Err::<u64, Error>(Error::LengthOverflow) && final(self).items() == old(
                        self,
                    ).items() && final(self).offset() == old(self).offset()
                } else if whole.len() >= MAX_ITEM_SIZE {
                    r == Err::<u64, Error>(Error::InvalidItem) && final(self).items() == old(
                        self,
                    ).items() && final(self).offset() == old(self).offset()
                } else {
                    &&& r == Ok::<u64, Error>(final(self).offset())
                    &&& final(self).items() == old(self).items().push(whole)
                    &&& final(self).offset() == old(self).offset() + 8 + whole.len()
                }
            }),
    {
        let ghost parts = item@.map_values(|s: &[u8]| s@);
        let mut len: u64 = 0;
        let mut i: usize = 0;
        while i < item.len()
            invariant
                i <= item@.len(),
                parts == item@.map_values(|s: &[u8]| s@),
                len == parts.subrange(0, i as int).flatten().len(),
                len + self.off <= u64::MAX,
                *self == *old(self),
                old(self).inv(),
            decreases item@.len() - i,
        {
            proof {
                lemma_flatten_step(parts, i as int);
            }
            let n = item[i].len() as u64;
            if n > u64::MAX - len || n + len > u64::MAX - self.off {
                proof { lemma_flatten_prefix_le(parts, i + 1); }
                return Err(Error::LengthOverflow);
            }
            len = len + n;
            i = i + 1;
        }
        assert(parts.subrange(0, i as int) =~= parts);
        assert(parts.subrange(0, 0) =~= Seq::<Seq<u8>>::empty());
        if len > u64::MAX - self.off || 8 > u64::MAX - self.off - len {
            return Err(Error::LengthOverflow);
        }
        if len >= MAX_ITEM_SIZE {
            return Err(Error::InvalidItem);
        }
        let start = self.off;
        let ghost old_body = self.body@;
        assert(parts.subrange(0, 0).flatten() =~= Seq::<u8>::empty());
        append_prefix(&mut self.body, len);
        let mut j: usize = 0;
        while j < item.len()
            invariant
                j <= item@.len(),
                parts == item@.map_values(|s: &[u8]| s@),
                self.body@ == old_body + prefix_bytes(len) + parts.subrange(0, j as int).flatten(),
                self.inner == old(self).inner,
                self.off == old(self).off,
                self.items == old(self).items,
                self.zstd == old(self).zstd,
                old_body == old(self).body@,
                old(self).inv(),
            decreases item@.len() - j,
        {
            append_bytes(&mut self.body, item[j]);
            proof {
                lemma_flatten_step(parts, j as int);
            }
            j = j + 1;
        }
        proof {
            let whole = parts.flatten();
            assert(parts.subrange(0, j as int) =~= parts);
            assert(len == whole.len());
            assert(self.body@ =~= old_body + frame_item(whole));
            lemma_frame_all_push(self.items@, whole);
            lemma_frame_item_len(whole);
            self.items@ = self.items@.push(whole);
            assert(self.body@ =~= header_bytes(Kinds::Plain) + frame_all(self.items@));
        }
        self.off = start + 8 + len;
        Ok(self.off)
    }

    /// The sink that the compressed archive will be appended to.
    pub fn get_mut(&mut self) -> (r: &mut Vec<u8>)
        ensures
            r@ == old(self).sink(),
            final(self).sink() == final(r)@,
            final(self).items() == old(self).items(),
            final(self).offset() == old(self).offset(),
            final(self).level() == old(self).level(),
            final(self).dict() == old(self).dict(),
            old(self).inv() ==> final(self).inv(),
    {
        &mut self.inner
    }
}

impl<'d> Compress<Vec<u8>> for CompressStream<'d> {
    open spec fn wf(&self) -> bool {
        self.inv()
    }

    /// Appends the item's length prefix and bytes to the stream, and returns the new logical
    /// offset.
    fn write_item(&mut self, item: &[u8]) -> (r: Result<u64>)
        ensures
            final(self).sink() == old(self).sink(),
            final(self).level() == old(self).level(),
            final(self).dict() == old(self).dict(),
            old(self).offset() + 8 + item@.len() > u64::MAX ==> {
                &&& r == Err::<u64, Error>(Error::LengthOverflow)
                &&& final(self).items() == old(self).items()
                &&& final(self).offset() == old(self).offset()
            },
            old(self).offset() + 8 + item@.len() <= u64::MAX && item@.len() >= MAX_ITEM_SIZE ==> {
                &&& r == Err::<u64, Error>(Error::InvalidItem)
                &&& final(self).items() == old(self).items()
                &&& final(self).offset() == old(self).offset()
            },
            old(self).offset() + 8 + item@.len() <= u64::MAX && item@.len() < MAX_ITEM_SIZE ==> {
                &&& r == Ok::<u64, Error>(final(self).offset())
                &&& final(self).items() == old(self).items().push(item@)
                &&& final(self).offset() == old(self).offset() + 8 + item@.len()
            },
    {
        let len = item.len() as u64;
        if len > u64::MAX - self.off || 8 > u64::MAX - self.off - len {
            return Err(Error::LengthOverflow);
        }
        if len >= MAX_ITEM_SIZE {
            return Err(Error::InvalidItem);
        }
        let ghost old_body = self.body@;
        append_prefix(&mut self.body, len);
        append_bytes(&mut self.body, item);
        proof {
            lemma_frame_all_push(self.items@, item@);
            lemma_frame_item_len(item@);
            assert(self.body@ =~= old_body + frame_item(item@));
            self.items@ = self.items@.push(item@);
            assert(self.body@ =~= header_bytes(Kinds::Plain) + frame_all(self.items@));
        }
        self.off = self.off + 8 + len;
        Ok(self.off)
    }

    /// Closes the stream with the footer, compresses it as one frame, and returns the sink with
    /// that frame appended.
    fn finish(self) -> (r: Result<Vec<u8>>)
        ensures
            r matches Ok(out) ==> {
                &&& out@.len() >= self.sink().len()
                &&& out@.subrange(0, self.sink().len() as int) == self.sink()
                &&& encodes_to(
                    self.level(),
                    self.dict(),
                    archive_bytes(Kinds::Plain, self.items()),
                    out@.subrange(self.sink().len() as int, out@.len() as int),
                )
            },
            r is Err ==> (r matches Err(Error::Io { .. })),
            !(self.dict() is Prepared) ==> match encoding(
                self.level(),
                self.dict(),
                archive_bytes(Kinds::Plain, self.items()),
            ) {
                Some(c) => r matches Ok(out) && out@ == self.sink() + c,
                None => r is Err,
            },
    {
        let mut body = self.body;
        let f = footer();
        append_bytes(&mut body, &f);
        let compressed = self.zstd.encode(body.as_slice())?;
        let mut out = self.inner;
        let ghost sink = out@;
        append_bytes(&mut out, compressed.as_slice());
        assert(out@.subrange(0, sink.len() as int) =~= sink);
        assert(out@.subrange(sink.len() as int, out@.len() as int) =~= compressed@);
        assert(out@ =~= sink + compressed@);
        Ok(out)
    }

    /// Nothing is held back: the stream is compressed when it is finished.
    fn flush(&mut self) -> (r: Result<()>)
        ensures
            r is Ok,
            *final(self) == *old(self),
    {
        Ok(())
    }
}

impl<'d> CompressItem<'d> {
    /// The sink: the header, and each item's frame as it was written.
    pub closed spec fn sink(&self) -> Seq<u8> {
        self.inner@
    }

    /// The compressed frames written so far.
    pub closed spec fn frames(&self) -> Seq<Seq<u8>> {
        self.frames@
    }

    /// The logical offset: the bytes of the archive so far.
    pub closed spec fn offset(&self) -> u64 {
        self.off
    }

    pub closed spec fn level(&self) -> i32 {
        self.zstd.level
    }

    pub closed spec fn dict(&self) -> DictChoice {
        self.zstd.dict@
    }

    pub closed spec fn inv(&self) -> bool {
        self.off == header_bytes(Kinds::ItemCompressed).len() + frame_all(self.frames@).len()
    }

    /// Appends one already compressed frame with its length prefix, and returns the offset at
    /// which it starts.
    pub fn write_frame(&mut self, frame: &[u8]) -> (r: Result<u64>)
        requires
            old(self).wf(),
        ensures
            final(self).wf(),
            frame_written(*old(self), *final(self), frame@, r),
    {
        let len = frame.len() as u64;
        if len > u64::MAX - self.off || 8 > u64::MAX - self.off - len {
            return Err(Error::LengthOverflow);
        }
        if len >= MAX_ITEM_SIZE {
            return Err(Error::InvalidItem);
        }
        let start = self.off;
        let ghost old_inner = self.inner@;
        append_prefix(&mut self.inner, len);
        append_bytes(&mut self.inner, frame);
        proof {
            lemma_frame_all_push(self.frames@, frame@);
            lemma_frame_item_len(frame@);
            assert(self.inner@ =~= old_inner + frame_item(frame@));
            self.frames@ = self.frames@.push(frame@);
        }
        self.off = start + 8 + len;
        Ok(start)
    }

    /// The sink that the archive is written to.
    pub fn get_mut(&mut self) -> (r: &mut Vec<u8>)
        ensures
            r@ == old(self).sink(),
            final(self).sink() == final(r)@,
            final(self).frames() == old(self).frames(),
            final(self).offset() == old(self).offset(),
            final(self).level() == old(self).level(),
            final(self).dict() == old(self).dict(),
            old(self).inv() ==> final(self).inv(),
    {
        &mut self.inner
    }
}

/// The outcome of appending `frame` to an ItemCompressed writer.
pub open spec fn frame_written(a: CompressItem, b: CompressItem, frame: Seq<u8>, r: Result<u64>) -> bool {
    &&& b.level() == a.level()
    &&& b.dict() == a.dict()
    &&& if a.offset() + 8 + frame.len() > u64::MAX {
        r == Err::<u64, Error>(Error::LengthOverflow) && b == a
    } else if frame.len() >= MAX_ITEM_SIZE {
        r == Err::<u64, Error>(Error::InvalidItem) && b == a
    } else {
        &&& r == Ok::<u64, Error>(a.offset())
        &&& b.sink() == a.sink() + frame_item(frame)
        &&& b.frames() == a.frames().push(frame)
        &&& b.offset() == a.offset() + 8 + frame.len()
    }
}

impl<'d> Compress<Vec<u8>> for CompressItem<'d> {
    open spec fn wf(&self) -> bool {
        self.inv()
    }

    /// Compresses the item into a frame of its own, appends the frame with its length prefix,
    /// and returns the offset at which it starts.
    fn write_item(&mut self, item: &[u8]) -> (r: Result<u64>)
        ensures
            !(old(self).dict() is Prepared) ==> match encoding(
                old(self).level(),
                old(self).dict(),
                item@,
            ) {
                Some(frame) => frame_written(*old(self), *final(self), frame, r),
                None => (r matches Err(Error::Io { .. })) && *final(self) == *old(self),
            },
            r is Ok ==> {
                let frame = final(self).frames().last();
                &&& encodes_to(old(self).level(), old(self).dict(), item@, frame)
                &&& frame_written(*old(self), *final(self), frame, r)
            },
            r is Err ==> *final(self) == *old(self),
    {
        let frame = self.zstd.encode(item)?;
        let r = self.write_frame(frame.as_slice());
        if r.is_ok() {
            assert(self.frames@.last() == frame@);
        }
        r
    }

    /// Closes the archive with the footer and returns the sink.
    fn finish(self) -> (r: Result<Vec<u8>>)
        ensures
            r matches Ok(out) && out@ == self.sink() + footer_bytes(),
    {
        let mut out = self.inner;
        let f = footer();
        append_bytes(&mut out, &f);
        Ok(out)
    }

    /// Nothing is held back: each item is in the sink once written.
    fn flush(&mut self) -> (r: Result<()>)
        ensures
            r is Ok,
            *final(self) == *old(self),
    {
        Ok(())
    }
}

impl<'d> CompressOptions<'d> {
    pub closed spec fn level(&self) -> i32 {
        self.zstd.level
    }

    pub closed spec fn dict(&self) -> DictChoice {
        self.zstd.dict@
    }

    /// Starts a Plain archive that will be appended to `inner`.
    pub fn stream_compress(&self, inner: Vec<u8>) -> (r: Result<CompressStream<'d>>)
        ensures
            r matches Ok(w) && {
                &&& w.wf()
                &&& w.sink() == inner@
                &&& w.items() == Seq::<Seq<u8>>::empty()
                &&& w.offset() == GLOBAL_MARKER_LEN
                &&& w.level() == self.level()
                &&& w.dict() == self.dict()
            },
    {
        let h = header(Kinds::Plain);
        let mut body: Vec<u8> = Vec::new();
        append_bytes(&mut body, &h);
        assert(body@ =~= header_bytes(Kinds::Plain) + frame_all(Seq::<Seq<u8>>::empty()));
        Ok(CompressStream {
            off: GLOBAL_MARKER_LEN,
            inner,
            body,
            zstd: self.zstd.duplicate(),
            items: Ghost(Seq::empty()),
        })
    }

    /// Starts an ItemCompressed archive: writes its header to `inner`.
    pub fn item_compress(&self, inner: Vec<u8>) -> (r: Result<CompressItem<'d>>)
        ensures
            r matches Ok(w) && {
                &&& w.wf()
                &&& w.sink() == inner@ + header_bytes(Kinds::ItemCompressed)
                &&& w.frames() == Seq::<Seq<u8>>::empty()
                &&& w.offset() == GLOBAL_MARKER_LEN
                &&& w.level() == self.level()
                &&& w.dict() == self.dict()
            },
    {
        let mut inner = inner;
        let h = header(Kinds::ItemCompressed);
        append_bytes(&mut inner, &h);
        Ok(CompressItem {
            off: GLOBAL_MARKER_LEN,
            inner,
            zstd: self.zstd.duplicate(),
            frames: Ghost(Seq::empty()),
        })
    }

    /// Compresses at `val`, without a dictionary.
    pub fn with_level(self, val: i32) -> (r: Self)
        ensures
            r.level() == val,
            r.dict() == DictChoice::NoDict,
    {
        CompressOptions { zstd: ZstdBuilder { level: val, dict: ZstdDict::NoDict } }
    }

    /// Compresses with a digested dictionary, which carries its own level.
    pub fn with_dict(self, dict: &'d EncoderDictionary<'static>) -> (r: Self)
        ensures
            r.level() == self.level(),
            r.dict() == DictChoice::Prepared,
    {
        CompressOptions { zstd: ZstdBuilder { level: self.zstd.level, dict: ZstdDict::Prepared(dict) } }
    }

    /// Compresses at the current level with a raw dictionary, digested on each use.
    pub fn with_raw_dict(self, dict: Vec<u8>) -> (r: Self)
        ensures
            r.level() == self.level(),
            r.dict() == DictChoice::Raw(dict@),
    {
        CompressOptions { zstd: ZstdBuilder { level: self.zstd.level, dict: ZstdDict::Raw(dict) } }
    }
}

impl<'d> Default for CompressOptions<'d> {
    /// Level 3, without a dictionary.
    fn default() -> (r: Self)
        ensures
            r.level() == 3,
            r.dict() == DictChoice::NoDict,
    {
        CompressOptions { zstd: ZstdBuilder::default() }
    }
}

} // verus!
