use vstd::bytes::{spec_u64_from_le_bytes, spec_u64_to_le_bytes};
use vstd::prelude::*;

use crate::error::{Error, Result};

verus! {

/// Size of the header, of every length prefix and of the footer.
pub const GLOBAL_MARKER_LEN: u64 = 8;

/// Every legal item length lies strictly below this threshold.
pub const MAX_ITEM_SIZE: u64 = 0xf000_0000_0000_0000;

/// The value stored in the footer, in place of a length prefix.
pub const FOOTER_VALUE: u64 = 0xffff_ffff_ffff_fff0;

/// First byte of the container magic.
pub const HEADER_MAGIC_FIRST: u8 = 0x29;

/// First byte of a Zstandard frame.
pub const ZSTD_MAGIC_FIRST: u8 = 0x28;

/// The format variant recorded in the header.
#[derive(Copy, Clone, Debug, PartialEq, Eq, Structural)]
pub enum Kinds {
    /// The whole archive is one compression stream.
    Plain,
    /// Each item is an independent compression frame.
    ItemCompressed,
}

pub open spec fn kind_byte(kind: Kinds) -> u8 {
    match kind {
        Kinds::Plain => 0,
        Kinds::ItemCompressed => 1,
    }
}

/// The seven bytes that open every archive.
pub open spec fn magic() -> Seq<u8> {
    seq![0x29u8, 0xb6u8, 0x61u8, 0x72u8, 0x63u8, 0u8, 0u8]
}

pub open spec fn header_bytes(kind: Kinds) -> Seq<u8> {
    magic().push(kind_byte(kind))
}

pub open spec fn footer_bytes() -> Seq<u8> {
    spec_u64_to_le_bytes(FOOTER_VALUE)
}

/// The eight-byte little-endian length prefix.
pub open spec fn prefix_bytes(len: u64) -> Seq<u8> {
    spec_u64_to_le_bytes(len)
}

/// The value of the eight bytes of `data` that start at `pos`.
pub open spec fn prefix_at(data: Seq<u8>, pos: int) -> u64 {
    spec_u64_from_le_bytes(data.subrange(pos, pos + 8))
}

/// Whether the first seven bytes are the magic.
pub open spec fn has_magic(buf: Seq<u8>) -> bool {
    &&& buf.len() >= 7
    &&& buf[0] == 0x29 && buf[1] == 0xb6 && buf[2] == 0x61 && buf[3] == 0x72
    &&& buf[4] == 0x63 && buf[5] == 0 && buf[6] == 0
}

pub open spec fn parse_header_spec(buf: Seq<u8>) -> Result<Kinds> {
    if !has_magic(buf) {
        Err(Error::MagicMissing)
    } else if buf[7] == 0 {
        Ok(Kinds::Plain)
    } else if buf[7] == 1 {
        Ok(Kinds::ItemCompressed)
    } else {
        Err(Error::MagicUnrecognised)
    }
}

/// One item as it stands in an archive: its length prefix, then its bytes.
pub open spec fn frame_item(payload: Seq<u8>) -> Seq<u8> {
    prefix_bytes(payload.len() as u64) + payload
}

/// The items one after another, each framed.
pub open spec fn frame_all(items: Seq<Seq<u8>>) -> Seq<u8>
    decreases items.len(),
{
    if items.len() == 0 {
        Seq::empty()
    } else {
        frame_all(items.drop_last()) + frame_item(items.last())
    }
}

/// A complete archive before any compression: header, framed items, footer.
pub open spec fn archive_bytes(kind: Kinds, items: Seq<Seq<u8>>) -> Seq<u8> {
    header_bytes(kind) + frame_all(items) + footer_bytes()
}

/// The header that opens an archive of the given kind.
pub fn header(kind: Kinds) -> (r: [u8; 8])
    ensures
        r@ == header_bytes(kind),
{
    let k: u8 = match kind {
        Kinds::Plain => 0,
        Kinds::ItemCompressed => 1,
    };
    let r: [u8; 8] = [0x29, 0xb6, 0x61, 0x72, 0x63, 0, 0, k];
    assert(r@ =~= header_bytes(kind));
    r
}

/// Reads the kind out of a header, checking the magic first.
pub fn parse_header(buf: &[u8; 8]) -> (r: Result<Kinds>)
    ensures
        r == parse_header_spec(buf@),
{
    let ok = buf[0] == 0x29 && buf[1] == 0xb6 && buf[2] == 0x61 && buf[3] == 0x72 && buf[4] == 0x63
        && buf[5] == 0 && buf[6] == 0;
    if !ok {
        return Err(Error::MagicMissing);
    }
    match buf[7] {
        0 => Ok(Kinds::Plain),
        1 => Ok(Kinds::ItemCompressed),
        _ => Err(Error::MagicUnrecognised),
    }
}

/// The footer that closes every archive.
pub fn footer() -> (r: [u8; 8])
    ensures
        r@ == footer_bytes(),
{
    let v = vstd::bytes::u64_to_le_bytes(FOOTER_VALUE);
    let r: [u8; 8] = [v[0], v[1], v[2], v[3], v[4], v[5], v[6], v[7]];
    assert(r@ =~= v@);
    r
}

} // verus!

verus! {

/// Appends the bytes of `src` to `dst`.
pub(crate) fn append_bytes(dst: &mut Vec<u8>, src: &[u8])
    ensures
        final(dst)@ == old(dst)@ + src@,
{
    let mut i: usize = 0;
    while i < src.len()
        invariant
            i <= src@.len(),
            dst@ == old(dst)@ + src@.subrange(0, i as int),
        decreases src@.len() - i,
    {
        dst.push(src[i]);
        i = i + 1;
        assert(dst@ =~= old(dst)@ + src@.subrange(0, i as int));
    }
    assert(src@.subrange(0, i as int) =~= src@);
}

/// Appends the length prefix of an item of `len` bytes to `dst`.
pub(crate) fn append_prefix(dst: &mut Vec<u8>, len: u64)
    ensures
        final(dst)@ == old(dst)@ + prefix_bytes(len),
{
    let p = vstd::bytes::u64_to_le_bytes(len);
    append_bytes(dst, p.as_slice());
}

/// Framing one more item appends its frame.
pub proof fn lemma_frame_all_push(items: Seq<Seq<u8>>, item: Seq<u8>)
    ensures
        frame_all(items.push(item)) == frame_all(items) + frame_item(item),
{
    assert(items.push(item).drop_last() =~= items);
}

/// A frame is its payload and eight bytes of prefix.
pub proof fn lemma_frame_item_len(payload: Seq<u8>)
    ensures
        frame_item(payload).len() == payload.len() + 8,
{
    vstd::bytes::lemma_auto_spec_u64_to_from_le_bytes();
}

} // verus!
