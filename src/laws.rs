use vstd::prelude::*;

use crate::error::Error;
use crate::header::{
    archive_bytes, footer_bytes, frame_all, frame_item, header_bytes, lemma_frame_item_len,
    prefix_at, prefix_bytes, Kinds, FOOTER_VALUE, MAX_ITEM_SIZE,
};
use crate::read::{
    archive_items, decode_all, expander_next, framed_items, item_read_all, Expander, starts_zstd, stream_next, stream_read,
    stream_read_all, unwrap_layers, ExpandItem, ExpandOptions, ExpandStream, MAX_LAYERS,
};
use crate::zbuild::{decodes_to, views, zstd_decoded, DictChoice};

verus! {

/// Framing several items, seen from the front: the first item's frame, then the others.
proof fn lemma_frame_all_front(items: Seq<Seq<u8>>)
    requires
        items.len() > 0,
    ensures
        frame_all(items) == frame_item(items[0]) + frame_all(items.drop_first()),
    decreases items.len(),
{
    if items.len() == 1 {
        assert(items.drop_last() =~= Seq::<Seq<u8>>::empty());
        assert(items.drop_first() =~= Seq::<Seq<u8>>::empty());
        assert(frame_all(items) =~= frame_item(items[0]) + frame_all(items.drop_first()));
    } else {
        lemma_frame_all_front(items.drop_last());
        assert(items.drop_last().drop_first() =~= items.drop_first().drop_last());
        assert(items.drop_last()[0] == items[0]);
        assert(items.drop_first().last() == items.last());
        assert(frame_all(items) =~= frame_item(items[0]) + frame_all(items.drop_first()));
    }
}

/// Parsing from `pos`, where the framed items and then the footer stand, gives the items.
proof fn lemma_parse_framed(pre: Seq<u8>, items: Seq<Seq<u8>>, ceiling: u64)
    requires
        ceiling < MAX_ITEM_SIZE,
        forall|i: int| 0 <= i < items.len() ==> (#[trigger] items[i]).len() <= ceiling,
    ensures
        framed_items(pre + frame_all(items) + footer_bytes(), pre.len() as int, ceiling) == Some(
            items,
        ),
    decreases items.len(),
{
    vstd::bytes::lemma_auto_spec_u64_to_from_le_bytes();
    let data = pre + frame_all(items) + footer_bytes();
    let p = pre.len() as int;
    if items.len() == 0 {
        assert(frame_all(items) =~= Seq::<u8>::empty());
        assert(data.subrange(p, p + 8) =~= footer_bytes());
        assert(prefix_at(data, p) == FOOTER_VALUE);
    } else {
        let x = items[0];
        let rest = items.drop_first();
        lemma_frame_all_front(items);
        lemma_frame_item_len(x);
        let pre2 = pre + frame_item(x);
        assert(data =~= pre2 + frame_all(rest) + footer_bytes());
        assert(data.subrange(p, p + 8) =~= prefix_bytes(x.len() as u64));
        assert(prefix_at(data, p) == x.len());
        assert(x.len() <= ceiling);
        assert(data.subrange(p + 8, p + 8 + x.len()) =~= x);
        assert forall|i: int| 0 <= i < rest.len() implies (#[trigger] rest[i]).len() <= ceiling by {
            assert(rest[i] == items[i + 1]);
        }
        lemma_parse_framed(pre2, rest, ceiling);
        assert(seq![x] + rest =~= items);
    }
}

/// Round trip: the items framed into an archive of either kind, each within the ceiling, are
/// what reading the archive from its first item finds, in the same order.
pub proof fn lemma_round_trip(kind: Kinds, items: Seq<Seq<u8>>, ceiling: u64)
    requires
        ceiling < MAX_ITEM_SIZE,
        forall|i: int| 0 <= i < items.len() ==> (#[trigger] items[i]).len() <= ceiling,
    ensures
        framed_items(archive_bytes(kind, items), 8, ceiling) == Some(items),
{
    lemma_parse_framed(header_bytes(kind), items, ceiling);
}

/// Round trip through a Plain reader: a fresh reader over a Plain archive reads back exactly the
/// items written, in order.
pub proof fn lemma_plain_round_trip(
    x: ExpandStream,
    items: Seq<Seq<u8>>,
    r: crate::error::Result<Vec<Vec<u8>>>,
)
    requires
        x.data() == archive_bytes(Kinds::Plain, items),
        x.pos() == 8,
        x.ceiling() < MAX_ITEM_SIZE,
        !x.poisoned() && x.remaining() == 0 && !x.done(),
        forall|i: int| 0 <= i < items.len() ==> (#[trigger] items[i]).len() <= x.ceiling(),
        stream_read_all(x, r),
    ensures
        r matches Ok(v) && views(v@) == items,
{
    lemma_round_trip(Kinds::Plain, items, x.ceiling());
}

/// Round trip through an ItemCompressed reader: a fresh reader over an archive of frames hands
/// each frame, in order, to the decoder, and returns what it decoded.
pub proof fn lemma_item_round_trip(
    x: ExpandItem,
    frames: Seq<Seq<u8>>,
    r: crate::error::Result<Vec<Vec<u8>>>,
)
    requires
        x.data() == archive_bytes(Kinds::ItemCompressed, frames),
        x.pos() == 8,
        x.ceiling() < MAX_ITEM_SIZE,
        !x.done(),
        forall|i: int| 0 <= i < frames.len() ==> (#[trigger] frames[i]).len() <= x.ceiling(),
        item_read_all(x, r),
    ensures
        r matches Ok(v) ==> v@.len() == frames.len() && forall|i: int|
            0 <= i < frames.len() ==> decodes_to(x.dict(), frames[i], #[trigger] v@[i]@),
        !(x.dict() is Prepared) ==> match decode_all(x.dict(), frames) {
            Some(items) => r matches Ok(v) && views(v@) == items,
            None => r is Err,
        },
{
    lemma_round_trip(Kinds::ItemCompressed, frames, x.ceiling());
}

proof fn lemma_unwrap_more_fuel(data: Seq<u8>, fuel: nat)
    requires
        unwrap_layers(DictChoice::NoDict, data, fuel) is Some,
    ensures
        unwrap_layers(DictChoice::NoDict, data, fuel + 1) == unwrap_layers(
            DictChoice::NoDict,
            data,
            fuel,
        ),
    decreases fuel,
{
    if starts_zstd(data) && fuel > 0 {
        if let Some(next) = zstd_decoded(data) {
            lemma_unwrap_more_fuel(next, (fuel - 1) as nat);
            assert(((fuel + 1) - 1) as nat == ((fuel - 1) as nat) + 1);
        }
    }
}

/// Outer-layer transparency: an archive, wrapped once more in a compressed frame, reads as the
/// archive itself, while the archive needs fewer layers than the reader unwraps.
pub proof fn lemma_outer_layer(wrapped: Seq<u8>, archive: Seq<u8>)
    requires
        starts_zstd(wrapped),
        zstd_decoded(wrapped) == Some(archive),
        unwrap_layers(DictChoice::NoDict, archive, (MAX_LAYERS - 1) as nat) is Some,
    ensures
        archive_items(wrapped) == archive_items(archive),
{
    lemma_unwrap_more_fuel(archive, (MAX_LAYERS - 1) as nat);
    assert(unwrap_layers(DictChoice::NoDict, wrapped, MAX_LAYERS as nat) == unwrap_layers(
        DictChoice::NoDict,
        archive,
        (MAX_LAYERS - 1) as nat,
    ));
}

/// Poisoning: asking for the next item while the current one is partly unread fails with
/// `ApiMisuse`, and so does every later request.
pub proof fn lemma_abandoned_item_poisons(
    a: ExpandStream,
    b: ExpandStream,
    c: ExpandStream,
    r1: crate::error::Result<Option<u64>>,
    r2: crate::error::Result<Option<u64>>,
)
    requires
        a.remaining() > 0,
        stream_next(a, b, r1),
        stream_next(b, c, r2),
    ensures
        r1 == Err::<Option<u64>, Error>(Error::ApiMisuse),
        r2 == Err::<Option<u64>, Error>(Error::ApiMisuse),
        c.poisoned(),
{
}

/// Draining an item to its end never poisons: once reads have taken every remaining byte of an
/// item of an unpoisoned reader, the next item can be asked for.
pub proof fn lemma_drained_item_does_not_poison(
    a: ExpandStream,
    b: ExpandStream,
    c: ExpandStream,
    max: int,
    out: Seq<u8>,
    r: crate::error::Result<Option<u64>>,
)
    requires
        !a.poisoned(),
        stream_read(a, b, max, out),
        b.remaining() == 0,
        stream_next(b, c, r),
    ensures
        !b.poisoned(),
        r != Err::<Option<u64>, Error>(Error::ApiMisuse),
        !c.poisoned(),
{
}

/// Ceiling enforcement: a declared length over the ceiling, other than the footer, is refused
/// with `InvalidItem`, and the reader is left as it was: nothing of the item is taken or copied.
pub proof fn lemma_ceiling_enforced(
    a: Expander,
    b: Expander,
    r: crate::error::Result<Option<u64>>,
)
    requires
        expander_next(a, b, r),
        match a {
            Expander::Stream(x) => !x.poisoned() && x.remaining() == 0 && !x.done() && x.pos()
                >= 0 && x.pos() + 8 <= x.data().len() && prefix_at(x.data(), x.pos()) != FOOTER_VALUE
                && prefix_at(x.data(), x.pos()) > x.ceiling(),
            Expander::Item(x) => !x.done() && x.pos() + 8 <= x.data().len() && x.pos() >= 0
                && prefix_at(x.data(), x.pos()) != FOOTER_VALUE && prefix_at(x.data(), x.pos())
                > x.ceiling(),
        },
    ensures
        r == Err::<Option<u64>, Error>(Error::InvalidItem),
        b == a,
{
}

/// Sentinel distinctness: no length within a reader's ceiling equals the footer's value, nor
/// does its prefix equal the footer's bytes.
pub proof fn lemma_sentinel_distinct(opts: ExpandOptions, len: u64)
    requires
        opts.wf(),
        len <= opts.ceiling(),
    ensures
        len != FOOTER_VALUE,
        prefix_bytes(len) != footer_bytes(),
{
    vstd::bytes::lemma_auto_spec_u64_to_from_le_bytes();
    assert(vstd::bytes::spec_u64_from_le_bytes(prefix_bytes(len)) == len);
    assert(vstd::bytes::spec_u64_from_le_bytes(footer_bytes()) == FOOTER_VALUE);
}

} // verus!
