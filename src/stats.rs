use vstd::prelude::*;

use crate::error::{Error, Result};
use crate::read::{archive_items, lacks_magic, read_archive};

verus! {

/// The total length of the items.
pub open spec fn total_len(items: Seq<Seq<u8>>) -> nat
    decreases items.len(),
{
    if items.len() == 0 {
        0
    } else {
        total_len(items.drop_last()) + items.last().len()
    }
}

/// How many items an archive holds, and how many bytes they hold together.
pub struct ArchiveStats {
    pub items: u64,
    pub bytes: u64,
}

impl ArchiveStats {
    /// The mean item size, rounded down.
    pub fn mean(&self) -> (r: u64)
        requires
            self.items > 0,
        ensures
            r == self.bytes / self.items,
    {
        self.bytes / self.items
    }
}

/// Counts the items of an archive, read with the default options, and their bytes.
pub fn stats(archive: Vec<u8>) -> (r: Result<ArchiveStats>)
    ensures
        match archive_items(archive@) {
            Some(items) => if total_len(items) <= u64::MAX {
                r matches Ok(s) && s.items == items.len() && s.bytes == total_len(items)
            } else {
                r == Err::<ArchiveStats, Error>(Error::LengthOverflow)
            },
            None => r is Err,
        },
        lacks_magic(archive@) ==> r == Err::<ArchiveStats, Error>(Error::MagicMissing),
{
    let ghost a = archive@;
    let items = read_archive(archive)?;
    let ghost all = crate::zbuild::views(items@);
    let mut count: u64 = 0;
    let mut bytes: u64 = 0;
    let mut i: usize = 0;
    while i < items.len()
        invariant
            i <= items@.len(),
            all == crate::zbuild::views(items@),
            a == archive@,
            archive_items(a) == Some(all),
            !lacks_magic(a),
            count == i,
            bytes == total_len(all.subrange(0, i as int)),
        decreases items@.len() - i,
    {
        let n = items[i].len() as u64;
        proof {
            assert(all.subrange(0, i + 1).drop_last() =~= all.subrange(0, i as int));
            lemma_total_len_prefix(all, i + 1);
        }
        if n > u64::MAX - bytes {
            return Err(Error::LengthOverflow);
        }
        bytes = bytes + n;
        count = count + 1;
        i = i + 1;
    }
    assert(all.subrange(0, i as int) =~= all);
    Ok(ArchiveStats { items: count, bytes })
}

/// The items of a prefix hold no more bytes than all of them.
proof fn lemma_total_len_prefix(items: Seq<Seq<u8>>, k: int)
    requires
        0 <= k <= items.len(),
    ensures
        total_len(items.subrange(0, k)) <= total_len(items),
    decreases items.len() - k,
{
    if k < items.len() {
        assert(items.subrange(0, k + 1).drop_last() =~= items.subrange(0, k));
        lemma_total_len_prefix(items, k + 1);
    } else {
        assert(items.subrange(0, k) =~= items);
    }
}

} // verus!
