use vstd::prelude::*;

use zstd::dict::DecoderDictionary;

use crate::error::{Error, Result};
use crate::header::{
    parse_header, parse_header_spec, prefix_at, Kinds, FOOTER_VALUE, HEADER_MAGIC_FIRST,
    MAX_ITEM_SIZE, ZSTD_MAGIC_FIRST,
};
use crate::zbuild::{decodes_to, decoding, unexpected_eof, views, DictChoice, ZstdDict};

verus! {

/// The default ceiling on item lengths: two gibibytes.
pub const DEFAULT_MAX_ITEM_SIZE: u64 = 2 * 1024 * 1024 * 1024;

/// How many layers of outer compression are unwrapped before giving up with `MagicMissing`.
///
/// A compressed frame can decode to another compressed frame, so an input could ask for
/// unwrapping without end; the bound makes opening an archive terminate on every input. A Plain
/// archive takes one layer, and wrapping it once more takes two.
pub const MAX_LAYERS: u32 = 16;

/// What the eight bytes at `pos` announce.
pub enum Step {
    /// The footer: the archive ends here.
    Footer,
    /// An item of this many bytes, all of them present.
    Item(u64),
    /// A length over the ceiling.
    TooLarge,
    /// The input ends before the prefix or the item does.
    Truncated,
}

pub open spec fn step_at(data: Seq<u8>, pos: int, ceiling: u64) -> Step {
    if pos < 0 || pos + 8 > data.len() {
        Step::Truncated
    } else if prefix_at(data, pos) == FOOTER_VALUE {
        Step::Footer
    } else if prefix_at(data, pos) > ceiling {
        Step::TooLarge
    } else if pos + 8 + prefix_at(data, pos) > data.len() {
        Step::Truncated
    } else {
        Step::Item(prefix_at(data, pos))
    }
}

/// The payloads framed in `data` from `pos` up to the footer, if the framing is sound.
pub open spec fn framed_items(data: Seq<u8>, pos: int, ceiling: u64) -> Option<Seq<Seq<u8>>>
    decreases data.len() - pos,
{
    if pos < 0 || pos + 8 > data.len() {
        None
    } else if prefix_at(data, pos) == FOOTER_VALUE {
        Some(Seq::empty())
    } else if prefix_at(data, pos) > ceiling {
        None
    } else if pos + 8 + prefix_at(data, pos) > data.len() {
        None
    } else {
        let next = pos + 8 + prefix_at(data, pos);
        match framed_items(data, next, ceiling) {
            Some(rest) => Some(seq![data.subrange(pos + 8, next)] + rest),
            None => None,
        }
    }
}

pub open spec fn starts_zstd(data: Seq<u8>) -> bool {
    data.len() > 0 && data[0] == ZSTD_MAGIC_FIRST
}

/// Whether each layer but the last is a compressed frame that decodes to the next one.
pub open spec fn layered(dict: DictChoice, layers: Seq<Seq<u8>>) -> bool {
    &&& layers.len() >= 1
    &&& forall|i: int|
        0 <= i < layers.len() - 1 ==> starts_zstd(#[trigger] layers[i]) && decodes_to(
            dict,
            layers[i],
            layers[i + 1],
        )
}

/// Entry point for expansion (reading).
pub struct ExpandOptions<'d> {
    max_item_size: u64,
    zstd: ZstdDict<'d, DecoderDictionary<'static>>,
}

/// The reader of a Plain archive, once the outer compression is undone.
pub struct ExpandStream {
    inner: Vec<u8>,
    pos: usize,
    max_item_size: u64,
    poisoned: bool,
    remaining: u64,
    done: bool,
}

/// The reader of an ItemCompressed archive.
pub struct ExpandItem<'d> {
    inner: Vec<u8>,
    pos: usize,
    max_item_size: u64,
    zstd: ZstdDict<'d, DecoderDictionary<'static>>,
    current: Vec<u8>,
    cur: usize,
    done: bool,
}

/// A reader of either kind, as the header chose it.
pub enum Expander<'d> {
    Stream(ExpandStream),
    Item(ExpandItem<'d>),
}

impl ExpandStream {
    /// The archive's bytes, without outer compression.
    pub closed spec fn data(&self) -> Seq<u8> {
        self.inner@
    }

    /// Where the next unread byte lies.
    pub closed spec fn pos(&self) -> int {
        self.pos as int
    }

    pub closed spec fn ceiling(&self) -> u64 {
        self.max_item_size
    }

    pub closed spec fn poisoned(&self) -> bool {
        self.poisoned
    }

    /// The unread bytes of the current item.
    pub closed spec fn remaining(&self) -> u64 {
        self.remaining
    }

    /// Whether the footer has been reached.
    pub closed spec fn done(&self) -> bool {
        self.done
    }

    /// What `size_hint` returns.
    pub open spec fn size_hint_spec(&self) -> Option<usize> {
        if self.remaining() <= usize::MAX {
            Some(self.remaining() as usize)
        } else {
            None
        }
    }

    /// Whether the two readers read the same bytes under the same ceiling.
    pub open spec fn same_source(&self, other: &Self) -> bool {
        &&& other.data() == self.data()
        &&& other.ceiling() == self.ceiling()
    }

    /// Appends up to `max` bytes of the current item to `out`.
    fn read_into(&mut self, max: usize, out: &mut Vec<u8>)
        ensures
            old(self).same_source(final(self)),
            exists|got: Seq<u8>|
                final(out)@ == old(out)@ + got && stream_read(*old(self), *final(self), max as int, got),
    {
        let mut n: u64 = self.remaining;
        if (max as u64) < n {
            n = max as u64;
        }
        let avail: usize = if self.pos <= self.inner.len() {
            self.inner.len() - self.pos
        } else {
            0
        };
        if (avail as u64) < n {
            n = avail as u64;
        }
        let n: usize = n as usize;
        if n == 0 {
            assert(out@ =~= old(out)@ + Seq::<u8>::empty());
            return;
        }
        append_range(out, &self.inner, self.pos, n);
        self.pos = self.pos + n;
        self.remaining = self.remaining - n as u64;
    }

    /// The bytes this reader reads from.
    pub fn get_ref(&self) -> (r: &Vec<u8>)
        ensures
            r@ == self.data(),
    {
        &self.inner
    }

    /// The bytes this reader reads from, for changing them.
    pub fn get_mut(&mut self) -> (r: &mut Vec<u8>)
        ensures
            r@ == old(self).data(),
            final(self).data() == final(r)@,
            final(self).pos() == old(self).pos(),
            final(self).ceiling() == old(self).ceiling(),
            final(self).poisoned() == old(self).poisoned(),
            final(self).remaining() == old(self).remaining(),
            final(self).done() == old(self).done(),
    {
        &mut self.inner
    }
}

/// A Plain reader's position is never negative, and its bytes fit in memory.
pub proof fn lemma_stream_bounds(x: ExpandStream)
    ensures
        x.pos() >= 0,
        x.data().len() <= usize::MAX,
{
    assert(x.inner@.len() == x.inner.len());
}

/// An ItemCompressed reader's position is never negative, and its bytes fit in memory.
pub proof fn lemma_item_bounds(x: ExpandItem)
    ensures
        x.pos() >= 0,
        x.data().len() <= usize::MAX,
        x.current().len() <= usize::MAX,
{
    assert(x.inner@.len() == x.inner.len());
    assert(x.current@.len() == x.current.len());
}

impl<'d> ExpandItem<'d> {
    /// The archive's bytes.
    pub closed spec fn data(&self) -> Seq<u8> {
        self.inner@
    }

    /// Where the next length prefix lies.
    pub closed spec fn pos(&self) -> int {
        self.pos as int
    }

    pub closed spec fn ceiling(&self) -> u64 {
        self.max_item_size
    }

    pub closed spec fn dict(&self) -> DictChoice {
        self.zstd@
    }

    /// The decompressed content of the current item.
    pub closed spec fn current(&self) -> Seq<u8> {
        self.current@
    }

    /// How much of the current item has been read.
    pub closed spec fn cur(&self) -> int {
        self.cur as int
    }

    /// Whether the footer has been reached.
    pub closed spec fn done(&self) -> bool {
        self.done
    }

    pub open spec fn same_source(&self, other: &Self) -> bool {
        &&& other.data() == self.data()
        &&& other.ceiling() == self.ceiling()
        &&& other.dict() == self.dict()
    }

    pub closed spec fn inv(&self) -> bool {
        self.cur <= self.current@.len()
    }

    /// Steps over the next item without decompressing it, and returns its compressed frame;
    /// `None` once the footer is reached.
    pub fn next_frame(&mut self) -> (r: Result<Option<Vec<u8>>>)
        requires
            old(self).inv(),
        ensures
            final(self).inv(),
            old(self).same_source(final(self)),
            item_skip(*old(self), *final(self), r),
    {
        if self.done {
            return Ok(None);
        }
        match read_step(&self.inner, self.pos, self.max_item_size) {
            Step::Truncated => Err(Error::Io { source: unexpected_eof() }),
            Step::Footer => {
                self.pos = self.pos + 8;
                self.done = true;
                self.current = Vec::new();
                self.cur = 0;
                Ok(None)
            },
            Step::TooLarge => Err(Error::InvalidItem),
            Step::Item(len) => {
                let start = self.pos + 8;
                let frame = copy_range(&self.inner, start, len as usize);
                self.pos = start + len as usize;
                self.current = Vec::new();
                self.cur = 0;
                Ok(Some(frame))
            },
        }
    }

}

/// The common surface of the readers.
pub trait Expand: Sized {
    /// The reader's own consistency.
    spec fn wf(&self) -> bool;

    /// Opens the next item; `None` once the footer is reached.
    fn next_item(&mut self) -> (r: Result<Option<u64>>)
        requires
            old(self).wf(),
        ensures
            final(self).wf(),
    ;

    /// Reads up to `max` bytes of the current item.
    fn read(&mut self, max: usize) -> (r: Vec<u8>)
        requires
            old(self).wf(),
        ensures
            final(self).wf(),
            r@.len() <= max,
    ;

    /// Reads the rest of the current item.
    fn read_to_end(&mut self) -> (r: Result<Vec<u8>>)
        requires
            old(self).wf(),
        ensures
            final(self).wf(),
    ;
}

/// A reader that can tell how much of the current item is left.
pub trait Item {
    /// The bytes of the current item that are left to read, where that is known.
    fn size_hint(&self) -> (r: Option<usize>);
}

impl Item for ExpandStream {
    fn size_hint(&self) -> (r: Option<usize>)
        ensures
            r == self.size_hint_spec(),
    {
        if self.remaining <= usize::MAX as u64 {
            Some(self.remaining as usize)
        } else {
            None
        }
    }
}

impl<'d> Item for ExpandItem<'d> {
    fn size_hint(&self) -> (r: Option<usize>)
        ensures
            self.inv() ==> r == Some((self.current().len() - self.cur()) as usize),
    {
        if self.cur <= self.current.len() {
            Some(self.current.len() - self.cur)
        } else {
            None
        }
    }
}

impl<'d> Item for Expander<'d> {
    fn size_hint(&self) -> (r: Option<usize>)
        ensures
            match self {
                Expander::Stream(x) => r == x.size_hint_spec(),
                Expander::Item(x) => x.inv() ==> r == Some((x.current().len() - x.cur()) as usize),
            },
    {
        match self {
            Expander::Stream(x) => x.size_hint(),
            Expander::Item(x) => x.size_hint(),
        }
    }
}

impl Expand for ExpandStream {
    open spec fn wf(&self) -> bool {
        true
    }

    /// Opens the next item, and returns its length; `None` once the footer is reached.
    fn next_item(&mut self) -> (r: Result<Option<u64>>)
        ensures
            old(self).same_source(final(self)),
            stream_next(*old(self), *final(self), r),
    {
        if self.poisoned || self.remaining != 0 {
            self.poisoned = true;
            return Err(Error::ApiMisuse);
        }
        if self.done {
            return Ok(None);
        }
        match read_step(&self.inner, self.pos, self.max_item_size) {
            Step::Truncated => Err(Error::Io { source: unexpected_eof() }),
            Step::Footer => {
                self.pos = self.pos + 8;
                self.done = true;
                Ok(None)
            },
            Step::TooLarge => Err(Error::InvalidItem),
            Step::Item(len) => {
                self.pos = self.pos + 8;
                self.remaining = len;
                Ok(Some(len))
            },
        }
    }

    /// Reads up to `max` bytes of the current item.
    fn read(&mut self, max: usize) -> (r: Vec<u8>)
        ensures
            old(self).same_source(final(self)),
            stream_read(*old(self), *final(self), max as int, r@),
    {
        let mut out: Vec<u8> = Vec::new();
        self.read_into(max, &mut out);
        assert(out@ =~= Seq::<u8>::empty() + out@);
        out
    }

    /// Reads the rest of the current item, reserving room for it first.
    fn read_to_end(&mut self) -> (r: Result<Vec<u8>>)
        ensures
            old(self).same_source(final(self)),
            r matches Ok(out) ==> stream_read(*old(self), *final(self), usize::MAX as int, out@),
            r is Err ==> (r matches Err(Error::TryReserve { .. })) && *final(self) == *old(self),
    {
        let mut n: usize = usize::MAX;
        if (self.remaining as u128) < (n as u128) {
            n = self.remaining as usize;
        }
        let mut out: Vec<u8> = Vec::new();
        if let Err(e) = out.try_reserve(n) {
            return Err(Error::TryReserve { source: e });
        }
        let ghost reserved = out@;
        self.read_into(usize::MAX, &mut out);
        assert(reserved =~= Seq::<u8>::empty());
        proof {
            let got = choose|got: Seq<u8>|
                out@ == reserved + got && stream_read(*old(self), *self, usize::MAX as int, got);
            assert(out@ =~= got);
        }
        Ok(out)
    }

}

impl<'d> Expand for ExpandItem<'d> {
    open spec fn wf(&self) -> bool {
        self.inv()
    }

    /// Opens the next item, decompressing its frame, and returns its length; `None` once the
    /// footer is reached.
    fn next_item(&mut self) -> (r: Result<Option<u64>>)
        ensures
            old(self).same_source(final(self)),
            item_next(*old(self), *final(self), r),
    {
        let frame = match self.next_frame() {
            Err(e) => return Err(e),
            Ok(None) => return Ok(None),
            Ok(Some(f)) => f,
        };
        let content = self.zstd.decode(frame.as_slice())?;
        let n = content.len() as u64;
        self.current = content;
        Ok(Some(n))
    }

    /// Reads up to `max` bytes of the current item.
    fn read(&mut self, max: usize) -> (r: Vec<u8>)
        ensures
            old(self).same_source(final(self)),
            item_read(*old(self), *final(self), max as int, r@),
    {
        let mut n: usize = self.current.len() - self.cur;
        if max < n {
            n = max;
        }
        let out = copy_range(&self.current, self.cur, n);
        self.cur = self.cur + n;
        out
    }

    /// Reads the rest of the current item, reserving room for it first.
    fn read_to_end(&mut self) -> (r: Result<Vec<u8>>)
        ensures
            old(self).same_source(final(self)),
            r matches Ok(out) ==> item_read(*old(self), *final(self), usize::MAX as int, out@),
            r is Err ==> (r matches Err(Error::TryReserve { .. })) && *final(self) == *old(self),
    {
        let n: usize = self.current.len() - self.cur;
        let mut out: Vec<u8> = Vec::new();
        if let Err(e) = out.try_reserve(n) {
            return Err(Error::TryReserve { source: e });
        }
        append_range(&mut out, &self.current, self.cur, n);
        self.cur = self.cur + n;
        assert(out@ =~= self.current@.subrange(old(self).cur as int, old(self).cur + n));
        Ok(out)
    }
}

/// The outcome of stepping over the next item of an ItemCompressed reader.
pub open spec fn item_skip(a: ExpandItem, b: ExpandItem, r: Result<Option<Vec<u8>>>) -> bool {
    if a.done() {
        r matches Ok(None) && b == a
    } else {
        match step_at(a.data(), a.pos(), a.ceiling()) {
            Step::Truncated => r matches Err(Error::Io { .. }) && b == a,
            Step::TooLarge => r matches Err(Error::InvalidItem) && b == a,
            Step::Footer => {
                &&& r matches Ok(None)
                &&& b.done() && b.pos() == a.pos() + 8
                &&& b.current() == Seq::<u8>::empty() && b.cur() == 0
            },
            Step::Item(len) => {
                &&& r matches Ok(Some(f)) && f@ == a.data().subrange(a.pos() + 8, a.pos() + 8 + len)
                &&& !b.done() && b.pos() == a.pos() + 8 + len
                &&& b.current() == Seq::<u8>::empty() && b.cur() == 0
            },
        }
    }
}

/// The outcome of opening the next item of an ItemCompressed reader.
pub open spec fn item_next(a: ExpandItem, b: ExpandItem, r: Result<Option<u64>>) -> bool {
    if a.done() {
        r == Ok::<Option<u64>, Error>(None) && b == a
    } else {
        match step_at(a.data(), a.pos(), a.ceiling()) {
            Step::Truncated => r matches Err(Error::Io { .. }) && b == a,
            Step::TooLarge => r == Err::<Option<u64>, Error>(Error::InvalidItem) && b == a,
            Step::Footer => {
                &&& r == Ok::<Option<u64>, Error>(None)
                &&& b.done() && b.pos() == a.pos() + 8
                &&& b.current() == Seq::<u8>::empty() && b.cur() == 0
            },
            Step::Item(len) => {
                &&& !b.done() && b.pos() == a.pos() + 8 + len && b.cur() == 0
                &&& r is Ok ==> {
                    &&& r == Ok::<Option<u64>, Error>(Some(b.current().len() as u64))
                    &&& decodes_to(
                        a.dict(),
                        a.data().subrange(a.pos() + 8, a.pos() + 8 + len),
                        b.current(),
                    )
                }
                &&& r is Err ==> (r matches Err(Error::Io { .. })) && b.current() == Seq::<u8>::empty()
                &&& !(a.dict() is Prepared) ==> (r is Ok <==> decoding(
                    a.dict(),
                    a.data().subrange(a.pos() + 8, a.pos() + 8 + len),
                ) is Some)
            },
        }
    }
}

/// The outcome of reading up to `max` bytes from an ItemCompressed reader.
pub open spec fn item_read(a: ExpandItem, b: ExpandItem, max: int, out: Seq<u8>) -> bool {
    let n = vstd::math::min(max, a.current().len() - a.cur());
    &&& out == a.current().subrange(a.cur(), a.cur() + n)
    &&& b.cur() == a.cur() + n
    &&& b.pos() == a.pos()
    &&& b.current() == a.current()
    &&& b.done() == a.done()
}

/// The outcome of opening the next item of a Plain reader.
pub open spec fn stream_next(a: ExpandStream, b: ExpandStream, r: Result<Option<u64>>) -> bool {
    if a.poisoned() || a.remaining() != 0 {
        &&& r == Err::<Option<u64>, Error>(Error::ApiMisuse)
        &&& b.poisoned()
        &&& b.pos() == a.pos() && b.remaining() == a.remaining() && b.done() == a.done()
    } else if a.done() {
        r == Ok::<Option<u64>, Error>(None) && b == a
    } else {
        match step_at(a.data(), a.pos(), a.ceiling()) {
            Step::Truncated => r matches Err(Error::Io { .. }) && b == a,
            Step::TooLarge => r == Err::<Option<u64>, Error>(Error::InvalidItem) && b == a,
            Step::Footer => {
                &&& r == Ok::<Option<u64>, Error>(None)
                &&& b.done() && b.pos() == a.pos() + 8
                &&& !b.poisoned() && b.remaining() == 0
            },
            Step::Item(len) => {
                &&& r == Ok::<Option<u64>, Error>(Some(len))
                &&& !b.done() && b.pos() == a.pos() + 8
                &&& !b.poisoned() && b.remaining() == len
            },
        }
    }
}

/// The bytes of the current item that are there to read, at most `max` of them.
pub open spec fn stream_take(a: ExpandStream, max: int) -> int {
    let avail = if a.pos() <= a.data().len() { a.data().len() - a.pos() } else { 0 };
    vstd::math::min(vstd::math::min(max, a.remaining() as int), avail)
}

/// The outcome of reading up to `max` bytes from a Plain reader.
pub open spec fn stream_read(a: ExpandStream, b: ExpandStream, max: int, out: Seq<u8>) -> bool {
    let n = stream_take(a, max);
    &&& out == (if n > 0 {
        a.data().subrange(a.pos(), a.pos() + n)
    } else {
        Seq::empty()
    })
    &&& b.pos() == a.pos() + n
    &&& b.remaining() == a.remaining() - n
    &&& b.poisoned() == a.poisoned()
    &&& b.done() == a.done()
}

/// Reads the eight bytes at `pos` and tells what they announce.
fn read_step(data: &Vec<u8>, pos: usize, ceiling: u64) -> (r: Step)
    ensures
        r == step_at(data@, pos as int, ceiling),
        data@.len() <= usize::MAX,
{
    if pos > data.len() || 8 > data.len() - pos {
        return Step::Truncated;
    }
    let v = vstd::bytes::u64_from_le_bytes(&data.as_slice()[pos..pos + 8]);
    if v == FOOTER_VALUE {
        Step::Footer
    } else if v > ceiling {
        Step::TooLarge
    } else if v > (data.len() - pos - 8) as u64 {
        Step::Truncated
    } else {
        Step::Item(v)
    }
}

/// Appends the `n` bytes of `data` that start at `pos` to `out`.
fn append_range(out: &mut Vec<u8>, data: &Vec<u8>, pos: usize, n: usize)
    requires
        pos + n <= data@.len(),
    ensures
        final(out)@ == old(out)@ + data@.subrange(pos as int, pos + n),
{
    let mut i: usize = 0;
    while i < n
        invariant
            i <= n,
            pos + n <= data.len(),
            out@ == old(out)@ + data@.subrange(pos as int, pos + i),
        decreases n - i,
    {
        out.push(data[pos + i]);
        i = i + 1;
        assert(out@ =~= old(out)@ + data@.subrange(pos as int, pos + i));
    }
}

/// A copy of the `n` bytes of `data` that start at `pos`.
fn copy_range(data: &Vec<u8>, pos: usize, n: usize) -> (r: Vec<u8>)
    requires
        pos + n <= data@.len(),
    ensures
        r@ == data@.subrange(pos as int, pos + n),
{
    let mut out: Vec<u8> = Vec::new();
    append_range(&mut out, data, pos, n);
    assert(out@ =~= data@.subrange(pos as int, pos + n));
    out
}

/// The outcome of opening the next item of a reader of either kind.
pub open spec fn expander_next(a: Expander, b: Expander, r: Result<Option<u64>>) -> bool {
    match (a, b) {
        (Expander::Stream(x), Expander::Stream(y)) => x.same_source(&y) && stream_next(x, y, r),
        (Expander::Item(x), Expander::Item(y)) => x.same_source(&y) && item_next(x, y, r),
        _ => false,
    }
}

/// The outcome of reading up to `max` bytes from a reader of either kind.
pub open spec fn expander_read(a: Expander, b: Expander, max: int, out: Seq<u8>) -> bool {
    match (a, b) {
        (Expander::Stream(x), Expander::Stream(y)) => x.same_source(&y) && stream_read(
            x,
            y,
            max,
            out,
        ),
        (Expander::Item(x), Expander::Item(y)) => x.same_source(&y) && item_read(x, y, max, out),
        _ => false,
    }
}

impl<'d> Expand for Expander<'d> {
    open spec fn wf(&self) -> bool {
        match self {
            Expander::Stream(x) => x.wf(),
            Expander::Item(x) => x.wf(),
        }
    }

    fn next_item(&mut self) -> (r: Result<Option<u64>>)
        ensures
            expander_next(*old(self), *final(self), r),
    {
        match self {
            Expander::Stream(x) => x.next_item(),
            Expander::Item(x) => x.next_item(),
        }
    }

    fn read(&mut self, max: usize) -> (r: Vec<u8>)
        ensures
            expander_read(*old(self), *final(self), max as int, r@),
    {
        match self {
            Expander::Stream(x) => x.read(max),
            Expander::Item(x) => x.read(max),
        }
    }

    fn read_to_end(&mut self) -> (r: Result<Vec<u8>>)
        ensures
            r matches Ok(out) ==> expander_read(*old(self), *final(self), usize::MAX as int, out@),
            r is Err ==> (r matches Err(Error::TryReserve { .. })) && *final(self) == *old(self),
    {
        match self {
            Expander::Stream(x) => x.read_to_end(),
            Expander::Item(x) => x.read_to_end(),
        }
    }
}

/// A Plain reader over `data`, at its first item.
pub open spec fn fresh_stream(opts: ExpandOptions, data: Seq<u8>, x: ExpandStream) -> bool {
    &&& x.data() == data && x.pos() == 8 && x.ceiling() == opts.ceiling()
    &&& !x.poisoned() && x.remaining() == 0 && !x.done()
}

/// The Plain reader that `opts` makes of `data`, an archive without outer compression; an
/// ItemCompressed archive is refused with `MagicMissing`.
pub open spec fn opened_plain(opts: ExpandOptions, data: Seq<u8>, r: Result<ExpandStream>) -> bool {
    if data.len() == 0 || data[0] != HEADER_MAGIC_FIRST {
        r == Err::<ExpandStream, Error>(Error::MagicMissing)
    } else if data.len() < 8 {
        r matches Err(Error::Io { .. })
    } else {
        match parse_header_spec(data.subrange(0, 8)) {
            Err(e) => r == Err::<ExpandStream, Error>(e),
            Ok(Kinds::Plain) => r matches Ok(x) && fresh_stream(opts, data, x),
            Ok(Kinds::ItemCompressed) => r == Err::<ExpandStream, Error>(Error::MagicMissing),
        }
    }
}

/// The reader that `opts` makes of `data`, an archive without outer compression.
pub open spec fn opened(opts: ExpandOptions, data: Seq<u8>, r: Result<Expander>) -> bool {
    if data.len() == 0 || data[0] != HEADER_MAGIC_FIRST {
        r == Err::<Expander, Error>(Error::MagicMissing)
    } else if data.len() < 8 {
        r matches Err(Error::Io { .. })
    } else {
        match parse_header_spec(data.subrange(0, 8)) {
            Err(e) => r == Err::<Expander, Error>(e),
            Ok(Kinds::Plain) => r matches Ok(Expander::Stream(x)) && fresh_stream(opts, data, x),
            Ok(Kinds::ItemCompressed) => r matches Ok(Expander::Item(x)) && {
                &&& x.data() == data && x.pos() == 8 && x.ceiling() == opts.ceiling()
                &&& x.dict() == opts.dict() && x.wf() && !x.done()
                &&& x.current() == Seq::<u8>::empty() && x.cur() == 0
            },
        }
    }
}

impl<'d> ExpandOptions<'d> {
    /// The ceiling on item lengths.
    pub closed spec fn ceiling(&self) -> u64 {
        self.max_item_size
    }

    pub closed spec fn dict(&self) -> DictChoice {
        self.zstd@
    }

    /// The ceiling lies below the footer threshold.
    pub open spec fn wf(&self) -> bool {
        self.ceiling() < MAX_ITEM_SIZE
    }

    /// Reads without a dictionary.
    pub fn without_dict(self) -> (r: Self)
        ensures
            r.ceiling() == self.ceiling(),
            r.dict() == DictChoice::NoDict,
    {
        ExpandOptions { max_item_size: self.max_item_size, zstd: ZstdDict::NoDict }
    }

    /// Reads with a digested dictionary.
    pub fn with_dict(self, dict: &'d DecoderDictionary<'static>) -> (r: Self)
        ensures
            r.ceiling() == self.ceiling(),
            r.dict() == DictChoice::Prepared,
    {
        ExpandOptions { max_item_size: self.max_item_size, zstd: ZstdDict::Prepared(dict) }
    }

    /// Reads with a raw dictionary, digested on each use.
    pub fn with_raw_dict(self, dict: Vec<u8>) -> (r: Self)
        ensures
            r.ceiling() == self.ceiling(),
            r.dict() == DictChoice::Raw(dict@),
    {
        ExpandOptions { max_item_size: self.max_item_size, zstd: ZstdDict::Raw(dict) }
    }

    /// Rejects items longer than `max`.
    pub fn with_max_item_size(self, max: u64) -> (r: Self)
        requires
            max < MAX_ITEM_SIZE,
        ensures
            r.ceiling() == max,
            r.dict() == self.dict(),
    {
        ExpandOptions { max_item_size: max, zstd: self.zstd }
    }

    /// Opens an archive that carries no outer compression: checks the header and picks the
    /// reader that its kind calls for.
    pub fn open_container(&self, data: Vec<u8>) -> (r: Result<Expander<'d>>)
        ensures
            opened(*self, data@, r),
    {
        if data.len() == 0 || data[0] != HEADER_MAGIC_FIRST {
            return Err(Error::MagicMissing);
        }
        if data.len() < 8 {
            return Err(Error::Io { source: unexpected_eof() });
        }
        let buf: [u8; 8] = [data[0], data[1], data[2], data[3], data[4], data[5], data[6], data[7]];
        assert(buf@ =~= data@.subrange(0, 8));
        let kind = parse_header(&buf)?;
        match kind {
            Kinds::Plain => Ok(
                Expander::Stream(
                    ExpandStream {
                        inner: data,
                        pos: 8,
                        max_item_size: self.max_item_size,
                        poisoned: false,
                        remaining: 0,
                        done: false,
                    },
                ),
            ),
            Kinds::ItemCompressed => Ok(
                Expander::Item(
                    ExpandItem {
                        inner: data,
                        pos: 8,
                        max_item_size: self.max_item_size,
                        zstd: self.zstd.duplicate(),
                        current: Vec::new(),
                        cur: 0,
                        done: false,
                    },
                ),
            ),
        }
    }

    /// Opens an archive: undoes the outer compression layers, then reads the header.
    pub fn stream(&self, data: Vec<u8>) -> (r: Result<Expander<'d>>)
        ensures
            !starts_zstd(data@) ==> opened(*self, data@, r),
            !(self.dict() is Prepared) ==> match unwrap_layers(
                self.dict(),
                data@,
                MAX_LAYERS as nat,
            ) {
                Some(inner) => opened(*self, inner, r),
                None => r is Err,
            },
            starts_zstd(data@) ==> (r is Ok ==> exists|layers: Seq<Seq<u8>>|
                #[trigger] layered(self.dict(), layers) && layers[0] == data@ && 2 <= layers.len()
                    <= MAX_LAYERS + 1 && !starts_zstd(layers.last()) && opened(
                    *self,
                    layers.last(),
                    r,
                )),
    {
        let ghost orig = data@;
        let ghost mut layers: Seq<Seq<u8>> = seq![data@];
        let mut cur = data;
        let mut depth: u32 = 0;
        while cur.len() > 0 && cur[0] == ZSTD_MAGIC_FIRST
            invariant
                depth <= MAX_LAYERS,
                layered(self.dict(), layers),
                layers.len() == depth + 1,
                layers[0] == orig,
                orig == data@,
                layers.last() == cur@,
                !(self.dict() is Prepared) ==> unwrap_layers(self.dict(), cur@, (MAX_LAYERS - depth) as nat) == unwrap_layers(
                    self.dict(),
                    orig,
                    MAX_LAYERS as nat,
                ),
            decreases MAX_LAYERS - depth,
        {
            proof {
                if depth > 0 {
                    assert(starts_zstd(layers[0]));
                }
                assert(starts_zstd(orig));
            }
            if depth == MAX_LAYERS {
                return Err(Error::MagicMissing);
            }
            let next = self.zstd.decode(cur.as_slice())?;
            proof {
                let old_layers = layers;
                layers = layers.push(next@);
                assert forall|i: int| 0 <= i < layers.len() - 1 implies starts_zstd(
                    #[trigger] layers[i],
                ) && decodes_to(self.dict(), layers[i], layers[i + 1]) by {
                    if i < old_layers.len() - 1 {
                        assert(layers[i] == old_layers[i] && layers[i + 1] == old_layers[i + 1]);
                    }
                }
            }
            proof {
                assert((MAX_LAYERS - depth) as nat - 1 == (MAX_LAYERS - (depth + 1)) as nat);
            }
            cur = next;
            depth = depth + 1;
        }
        let r = self.open_container(cur);
        proof {
            if starts_zstd(orig) && r is Ok {
                assert(layered(self.dict(), layers));
            }
        }
        r
    }

    /// Opens an archive that is known to be a Plain one: undoes one layer of compression, then
    /// reads the header, which must announce a Plain archive.
    pub fn stream_explicit(&self, data: Vec<u8>) -> (r: Result<ExpandStream>)
        ensures
            !starts_zstd(data@) ==> r == Err::<ExpandStream, Error>(Error::MagicMissing),
            starts_zstd(data@) && !(self.dict() is Prepared) ==> match decoding(
                self.dict(),
                data@,
            ) {
                Some(inner) => opened_plain(*self, inner, r),
                None => r matches Err(Error::Io { .. }),
            },
            starts_zstd(data@) && self.dict() is Prepared ==> (r matches Err(Error::Io { .. })
                || exists|inner: Seq<u8>| opened_plain(*self, inner, r)),
    {
        if data.len() == 0 || data[0] != ZSTD_MAGIC_FIRST {
            return Err(Error::MagicMissing);
        }
        let inner = self.zstd.decode(data.as_slice())?;
        let ghost inner_view = inner@;
        let r = match self.open_container(inner) {
            Ok(Expander::Stream(x)) => Ok(x),
            Ok(Expander::Item(_)) => Err(Error::MagicMissing),
            Err(e) => Err(e),
        };
        assert(opened_plain(*self, inner_view, r));
        r
    }
}

impl<'d> Default for ExpandOptions<'d> {
    /// A ceiling of two gibibytes, without a dictionary.
    fn default() -> (r: Self)
        ensures
            r.ceiling() == DEFAULT_MAX_ITEM_SIZE,
            r.dict() == DictChoice::NoDict,
            r.wf(),
    {
        ExpandOptions { max_item_size: DEFAULT_MAX_ITEM_SIZE, zstd: ZstdDict::default() }
    }
}

/// What reading a Plain reader to its footer gives, for a reader between items.
pub open spec fn stream_read_all(a: ExpandStream, r: Result<Vec<Vec<u8>>>) -> bool {
    if a.poisoned() || a.remaining() != 0 {
        r == Err::<Vec<Vec<u8>>, Error>(Error::ApiMisuse)
    } else if a.done() {
        r matches Ok(v) && v@.len() == 0
    } else {
        match framed_items(a.data(), a.pos(), a.ceiling()) {
            Some(items) => r matches Ok(v) && views(v@) == items,
            None => r is Err,
        }
    }
}

/// What reading an ItemCompressed reader to its footer gives: each frame, decoded.
pub open spec fn item_read_all(a: ExpandItem, r: Result<Vec<Vec<u8>>>) -> bool {
    if a.done() {
        r matches Ok(v) && v@.len() == 0
    } else {
        &&& framed_items(a.data(), a.pos(), a.ceiling()) is None ==> r is Err
        &&& r matches Ok(v) ==> framed_items(a.data(), a.pos(), a.ceiling()) matches Some(frames)
            && frames.len() == v@.len() && forall|i: int|
            0 <= i < frames.len() ==> decodes_to(a.dict(), frames[i], #[trigger] v@[i]@)
        &&& !(a.dict() is Prepared) ==> match framed_items(a.data(), a.pos(), a.ceiling()) {
            Some(frames) => match decode_all(a.dict(), frames) {
                Some(items) => r matches Ok(v) && views(v@) == items,
                None => r is Err,
            },
            None => r is Err,
        }
    }
}

/// Each frame decoded, in order; `None` if one of them does not decode.
pub open spec fn decode_all(dict: DictChoice, frames: Seq<Seq<u8>>) -> Option<Seq<Seq<u8>>>
    decreases frames.len(),
{
    if frames.len() == 0 {
        Some(Seq::empty())
    } else {
        match (decode_all(dict, frames.drop_last()), decoding(dict, frames.last())) {
            (Some(a), Some(b)) => Some(a.push(b)),
            _ => None,
        }
    }
}

/// A frame that does not decode spoils every longer list of frames.
proof fn lemma_decode_all_none(dict: DictChoice, a: Seq<Seq<u8>>, b: Seq<Seq<u8>>)
    requires
        decode_all(dict, a) is None,
    ensures
        decode_all(dict, a + b) is None,
    decreases b.len(),
{
    if b.len() == 0 {
        assert(a + b =~= a);
    } else {
        lemma_decode_all_none(dict, a, b.drop_last());
        assert((a + b).drop_last() =~= a + b.drop_last());
    }
}

proof fn lemma_views_push(v: Seq<Vec<u8>>, x: Vec<u8>)
    ensures
        views(v.push(x)) == views(v).push(x@),
{
    assert(views(v.push(x)) =~= views(v).push(x@));
}

impl ExpandStream {
    /// Reads every item up to the footer.
    pub fn read_all(&mut self) -> (r: Result<Vec<Vec<u8>>>)
        ensures
            stream_read_all(*old(self), r),
    {
        if self.poisoned || self.remaining != 0 {
            return Err(Error::ApiMisuse);
        }
        let mut items: Vec<Vec<u8>> = Vec::new();
        if self.done {
            return Ok(items);
        }
        let ghost p0 = self.pos as int;
        let ghost data = self.inner@;
        let ghost c = self.max_item_size;
        assert(views(items@) =~= Seq::<Seq<u8>>::empty());
        loop
            invariant
                self.inner@ == data,
                self.max_item_size == c,
                !self.poisoned && self.remaining == 0 && !self.done,
                p0 == old(self).pos,
                data == old(self).inner@,
                c == old(self).max_item_size,
                !old(self).poisoned && old(self).remaining == 0 && !old(self).done,
                framed_items(data, p0, c) == (match framed_items(data, self.pos as int, c) {
                    Some(rest) => Some(views(items@) + rest),
                    None => None,
                }),
            decreases data.len() - self.pos,
        {
            let ghost before = *self;
            let ghost old_items = items@;
            match self.next_item() {
                Err(e) => {
                    return Err(e);
                },
                Ok(None) => {
                    assert(views(items@) + Seq::<Seq<u8>>::empty() =~= views(items@));
                    return Ok(items);
                },
                Ok(Some(len)) => {
                    let dl = self.inner.len();
                    assert(before.pos + 8 + len <= dl);
                    let v = self.read(len as usize);
                    proof {
                        let p = before.pos as int;
                        let next = p + 8 + len;
                        assert(self.pos == next);
                        assert(v@ == data.subrange(p + 8, next));
                    }
                    items.push(v);
                    proof {
                        lemma_views_push(old_items, v);
                        let p = before.pos as int;
                        let next = p + 8 + len;
                        match framed_items(data, next, c) {
                            Some(rest) => {
                                assert(views(old_items) + (seq![v@] + rest) =~= views(items@)
                                    + rest);
                            },
                            None => {},
                        }
                    }
                },
            }
        }
    }
}

impl<'d> ExpandItem<'d> {
    /// Reads and decompresses every item up to the footer.
    pub fn read_all(&mut self) -> (r: Result<Vec<Vec<u8>>>)
        requires
            old(self).inv(),
        ensures
            final(self).inv(),
            item_read_all(*old(self), r),
    {
        let mut items: Vec<Vec<u8>> = Vec::new();
        if self.done {
            return Ok(items);
        }
        let ghost p0 = self.pos as int;
        let ghost data = self.inner@;
        let ghost c = self.max_item_size;
        let ghost dict = self.zstd@;
        let ghost mut frames: Seq<Seq<u8>> = Seq::empty();
        loop
            invariant
                self.inv(),
                self.inner@ == data,
                self.max_item_size == c,
                self.zstd@ == dict,
                !self.done,
                p0 == old(self).pos,
                data == old(self).inner@,
                c == old(self).max_item_size,
                dict == old(self).zstd@,
                !old(self).done,
                framed_items(data, p0, c) == (match framed_items(data, self.pos as int, c) {
                    Some(rest) => Some(frames + rest),
                    None => None,
                }),
                frames.len() == items@.len(),
                forall|i: int| 0 <= i < frames.len() ==> decodes_to(dict, frames[i], #[trigger] items@[i]@),
                !(dict is Prepared) ==> decode_all(dict, frames) == Some(views(items@)),
            decreases data.len() - self.pos,
        {
            let ghost before = *self;
            match self.next_item() {
                Err(e) => {
                    proof {
                        let p = before.pos as int;
                        if !(dict is Prepared) {
                            if let Step::Item(len) = step_at(data, p, c) {
                                let f = data.subrange(p + 8, p + 8 + len);
                                assert(frames.push(f).drop_last() =~= frames);
                                if let Some(rest) = framed_items(data, p + 8 + len, c) {
                                    lemma_decode_all_none(dict, frames.push(f), rest);
                                    assert(frames + (seq![f] + rest) =~= frames.push(f) + rest);
                                }
                            }
                        }
                    }
                    return Err(e);
                },
                Ok(None) => {
                    assert(frames + Seq::<Seq<u8>>::empty() =~= frames);
                    return Ok(items);
                },
                Ok(Some(_)) => {
                    let ghost old_items = items@;
                    let cl = self.current.len();
                    assert(self.current@.len() == cl);
                    let v = self.read(usize::MAX);
                    proof {
                        let p = before.pos as int;
                        let len = prefix_at(data, p);
                        let f = data.subrange(p + 8, p + 8 + len);
                        assert(v@ =~= self.current@);
                        match framed_items(data, p + 8 + len, c) {
                            Some(rest) => {
                                assert(frames + (seq![f] + rest) =~= frames.push(f) + rest);
                            },
                            None => {},
                        }
                        assert(frames.push(f).drop_last() =~= frames);
                        frames = frames.push(f);
                    }
                    items.push(v);
                    proof {
                        lemma_views_push(old_items, v);
                        assert forall|i: int| 0 <= i < frames.len() implies decodes_to(
                            dict,
                            frames[i],
                            #[trigger] items@[i]@,
                        ) by {
                            if i < frames.len() - 1 {
                                assert(items@[i] == old_items[i]);
                            }
                        }
                    }
                },
            }
        }
    }
}

impl<'d> Expander<'d> {
    /// Reads every item up to the footer.
    pub fn read_all(&mut self) -> (r: Result<Vec<Vec<u8>>>)
        requires
            old(self).wf(),
        ensures
            final(self).wf(),
            match *old(self) {
                Expander::Stream(x) => stream_read_all(x, r),
                Expander::Item(x) => item_read_all(x, r),
            },
    {
        match self {
            Expander::Stream(x) => x.read_all(),
            Expander::Item(x) => x.read_all(),
        }
    }
}

/// What unwrapping the outer layers with the dictionary gives: decode while a compressed frame
/// starts the input, at most `fuel` times; `None` where a decode fails or the fuel runs out.
pub open spec fn unwrap_layers(dict: DictChoice, data: Seq<u8>, fuel: nat) -> Option<Seq<u8>>
    decreases fuel,
{
    if !starts_zstd(data) {
        Some(data)
    } else if fuel == 0 {
        None
    } else {
        match decoding(dict, data) {
            Some(next) => unwrap_layers(dict, next, (fuel - 1) as nat),
            None => None,
        }
    }
}

/// The items that the default reader finds in an archive without outer compression.
pub open spec fn container_items(inner: Seq<u8>) -> Option<Seq<Seq<u8>>> {
    if inner.len() < 8 || inner[0] != HEADER_MAGIC_FIRST {
        None
    } else {
        match parse_header_spec(inner.subrange(0, 8)) {
            Ok(Kinds::Plain) => framed_items(inner, 8, DEFAULT_MAX_ITEM_SIZE),
            Ok(Kinds::ItemCompressed) => match framed_items(inner, 8, DEFAULT_MAX_ITEM_SIZE) {
                Some(frames) => decode_all(DictChoice::NoDict, frames),
                None => None,
            },
            Err(_) => None,
        }
    }
}

/// The items that the default reader finds in an archive.
pub open spec fn archive_items(data: Seq<u8>) -> Option<Seq<Seq<u8>>> {
    match unwrap_layers(DictChoice::NoDict, data, MAX_LAYERS as nat) {
        Some(inner) => container_items(inner),
        None => None,
    }
}

/// Whether the input begins with neither a compressed frame nor the container magic.
pub open spec fn lacks_magic(data: Seq<u8>) -> bool {
    data.len() == 0 || (data[0] != ZSTD_MAGIC_FIRST && data[0] != HEADER_MAGIC_FIRST)
}

/// Reads every item of an archive with the default options.
pub fn read_archive(data: Vec<u8>) -> (r: Result<Vec<Vec<u8>>>)
    ensures
        match archive_items(data@) {
            Some(items) => r matches Ok(v) && views(v@) == items,
            None => r is Err,
        },
        lacks_magic(data@) ==> r == Err::<Vec<Vec<u8>>, Error>(Error::MagicMissing),
{
    let opts = ExpandOptions::default();
    let mut reader = opts.stream(data)?;
    reader.read_all()
}

} // verus!
