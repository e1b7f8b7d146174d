use vstd::prelude::*;

use crate::error::{Error, Result};
use crate::read::{archive_items, lacks_magic, read_archive};
use crate::zbuild::{train_from_samples, trained_dictionary, views};

verus! {

/// The size asked of a trained dictionary.
pub const TARGET_DICT_SIZE: usize = 112640;

/// The running value that picks the slot an item replaces: `(acc + len) * 37`, wrapping.
pub open spec fn mix(acc: u64, len: u64) -> u64 {
    vstd::wrapping::u64_specs::wrapping_mul(vstd::wrapping::u64_specs::wrapping_add(acc, len), 37)
}

/// The samples kept, and the running value, after one more item.
pub open spec fn sample_step(state: (Seq<Seq<u8>>, u64), item: Seq<u8>, limit: nat) -> (Seq<
    Seq<u8>,
>, u64) {
    let acc = mix(state.1, item.len() as u64);
    if state.0.len() < limit {
        (state.0.push(item), acc)
    } else {
        (state.0.update((acc as nat % limit) as int, item), acc)
    }
}

/// The samples kept, and the running value, after the items in order.
pub open spec fn sampled(items: Seq<Seq<u8>>, limit: nat) -> (Seq<Seq<u8>>, u64)
    decreases items.len(),
{
    if items.len() == 0 {
        (Seq::empty(), 0)
    } else {
        sample_step(sampled(items.drop_last(), limit), items.last(), limit)
    }
}

/// Every item of the archives, in order; `None` if one of them cannot be read.
pub open spec fn sources_items(sources: Seq<Seq<u8>>) -> Option<Seq<Seq<u8>>>
    decreases sources.len(),
{
    if sources.len() == 0 {
        Some(Seq::empty())
    } else {
        match (sources_items(sources.drop_last()), archive_items(sources.last())) {
            (Some(a), Some(b)) => Some(a + b),
            _ => None,
        }
    }
}

/// The dictionary trained on samples picked, with `limit`, from the items of the archives in
/// order; `None` where an archive cannot be read or training fails.
pub open spec fn training_result(sources: Seq<Seq<u8>>, limit: nat) -> Option<Seq<u8>> {
    match sources_items(sources) {
        Some(items) => trained_dictionary(sampled(items, limit).0, TARGET_DICT_SIZE),
        None => None,
    }
}

/// What training over the archives returns.
pub open spec fn training_outcome(sources: Seq<Seq<u8>>, limit: nat, r: Result<Vec<u8>>) -> bool {
    match training_result(sources, limit) {
        Some(d) => r matches Ok(x) && x@ == d,
        None => r is Err,
    }
}

/// Training determinism: two trainings over the same archives, in the same order and with the
/// same limit, both fail or both give the same dictionary, trained on the same samples.
pub proof fn lemma_training_deterministic(
    sources: Seq<Seq<u8>>,
    limit: nat,
    r1: Result<Vec<u8>>,
    r2: Result<Vec<u8>>,
)
    requires
        training_outcome(sources, limit, r1),
        training_outcome(sources, limit, r2),
    ensures
        r1 is Ok <==> r2 is Ok,
        r1 matches Ok(d1) ==> (r2 matches Ok(d2) && d1@ == d2@),
{
}

/// Once an archive of a prefix cannot be read, no longer prefix can be.
proof fn lemma_sources_none_grows(s: Seq<Seq<u8>>, j: int, k: int)
    requires
        0 <= j <= k <= s.len(),
        sources_items(s.subrange(0, j)) is None,
    ensures
        sources_items(s.subrange(0, k)) is None,
    decreases k - j,
{
    if j < k {
        assert(s.subrange(0, j + 1).drop_last() =~= s.subrange(0, j));
        lemma_sources_none_grows(s, j + 1, k);
    }
}

/// A bounded, reproducible selection of sample items for dictionary training.
pub struct Sampler {
    samples: Vec<Vec<u8>>,
    acc: u64,
    limit: usize,
    seen: Ghost<Seq<Seq<u8>>>,
}

impl Sampler {
    /// Every item offered so far, in order.
    pub closed spec fn seen(&self) -> Seq<Seq<u8>> {
        self.seen@
    }

    pub closed spec fn limit(&self) -> nat {
        self.limit as nat
    }

    /// The samples kept.
    pub closed spec fn kept(&self) -> Seq<Seq<u8>> {
        views(self.samples@)
    }

    pub closed spec fn wf(&self) -> bool {
        &&& self.limit > 0
        &&& (views(self.samples@), self.acc) == sampled(self.seen@, self.limit as nat)
        &&& self.samples@.len() <= self.limit
    }

    /// An empty selection that keeps at most `limit` samples.
    pub fn new(limit: usize) -> (r: Self)
        requires
            limit > 0,
        ensures
            r.wf(),
            r.limit() == limit,
            r.seen() == Seq::<Seq<u8>>::empty(),
            r.kept() == Seq::<Seq<u8>>::empty(),
    {
        let r = Sampler { samples: Vec::new(), acc: 0, limit, seen: Ghost(Seq::empty()) };
        assert(views(r.samples@) =~= Seq::<Seq<u8>>::empty());
        r
    }

    /// The samples kept.
    pub fn samples(&self) -> (r: &Vec<Vec<u8>>)
        ensures
            views(r@) == self.kept(),
    {
        &self.samples
    }

    /// Offers one item: kept while there is room, else it takes the slot that the running value
    /// picks.
    pub fn add(&mut self, item: Vec<u8>)
        requires
            old(self).wf(),
        ensures
            final(self).wf(),
            final(self).limit() == old(self).limit(),
            final(self).seen() == old(self).seen().push(item@),
            final(self).kept() == sampled(final(self).seen(), final(self).limit()).0,
    {
        let ghost old_samples = self.samples@;
        let ghost iv = item@;
        self.acc = self.acc.wrapping_add(item.len() as u64).wrapping_mul(37);
        if self.samples.len() < self.limit {
            self.samples.push(item);
            proof {
                assert(views(self.samples@) =~= views(old_samples).push(iv));
            }
        } else {
            let slot = (self.acc % (self.limit as u64)) as usize;
            self.samples.set(slot, item);
            proof {
                assert(views(self.samples@) =~= views(old_samples).update(slot as int, iv));
            }
        }
        proof {
            let seen = self.seen@.push(iv);
            assert(seen.drop_last() =~= self.seen@);
            self.seen@ = seen;
        }
    }

    /// Offers every item of an archive, read with the default options.
    pub fn add_archive(&mut self, archive: Vec<u8>) -> (r: Result<()>)
        requires
            old(self).wf(),
        ensures
            final(self).wf(),
            final(self).limit() == old(self).limit(),
            r is Ok <==> archive_items(archive@) is Some,
            r is Ok ==> (archive_items(archive@) matches Some(items) && final(self).seen()
                == old(self).seen() + items),
            r is Err ==> final(self).seen() == old(self).seen(),
            lacks_magic(archive@) ==> r == Err::<(), Error>(Error::MagicMissing),
            final(self).kept() == sampled(final(self).seen(), final(self).limit()).0,
    {
        let ghost a = archive@;
        let items = read_archive(archive)?;
        let ghost start = self.seen@;
        let mut items = items;
        let ghost all = views(items@);
        let mut rest: Vec<Vec<u8>> = Vec::new();
        // the items are moved out from the back, so they are first turned around
        while items.len() > 0
            invariant
                self.wf(),
                self.limit() == old(self).limit(),
                self.seen() == start,
                views(items@) + views(rest@).reverse() == all,
            decreases items.len(),
        {
            let ghost before = items@;
            let it = items.pop().unwrap();
            rest.push(it);
            proof {
                assert(views(items@) + views(rest@).reverse() =~= all) by {
                    assert(before =~= items@.push(it));
                    assert(views(rest@).reverse() =~= seq![it@] + views(rest@.drop_last()).reverse());
                    assert(rest@.drop_last() =~= rest@.subrange(0, rest@.len() - 1));
                }
            }
        }
        assert(views(items@) =~= Seq::<Seq<u8>>::empty());
        assert(views(rest@).reverse() =~= all);
        while rest.len() > 0
            invariant
                self.wf(),
                self.limit() == old(self).limit(),
                self.seen() + views(rest@).reverse() == start + all,
            decreases rest.len(),
        {
            let ghost before = rest@;
            let it = rest.pop().unwrap();
            let ghost seen_before = self.seen();
            self.add(it);
            proof {
                assert(before =~= rest@.push(it));
                assert(views(before).reverse() =~= seq![it@] + views(rest@).reverse());
                assert(self.seen() + views(rest@).reverse() =~= seen_before + views(before).reverse());
            }
        }
        assert(views(rest@).reverse() =~= Seq::<Seq<u8>>::empty());
        assert(self.seen() =~= start + all);
        Ok(())
    }

    /// Trains a dictionary of at most `TARGET_DICT_SIZE` bytes on the samples kept.
    pub fn finish(self) -> (r: Result<Vec<u8>>)
        requires
            self.wf(),
        ensures
            match trained_dictionary(sampled(self.seen(), self.limit()).0, TARGET_DICT_SIZE) {
                Some(d) => r matches Ok(x) && x@ == d,
                None => r matches Err(Error::Io { .. }),
            },
    {
        match train_from_samples(&self.samples, TARGET_DICT_SIZE) {
            Ok(d) => Ok(d),
            Err(e) => Err(Error::Io { source: e }),
        }
    }
}

/// Trains a dictionary on samples picked from the items of the archives, in order.
pub fn train(sources: &Vec<Vec<u8>>, limit: usize) -> (r: Result<Vec<u8>>)
    requires
        limit > 0,
    ensures
        training_outcome(views(sources@), limit as nat, r),
        forall|j: int|
            0 <= j < sources@.len() && sources_items(views(sources@.subrange(0, j))) is Some
                && lacks_magic(#[trigger] sources@[j]@) ==> r == Err::<Vec<u8>, Error>(
                Error::MagicMissing,
            ),
{
    let mut sampler = Sampler::new(limit);
    let mut i: usize = 0;
    while i < sources.len()
        invariant
            i <= sources@.len(),
            sampler.wf(),
            sampler.limit() == limit,
            sources_items(views(sources@.subrange(0, i as int))) == Some(sampler.seen()),
        decreases sources@.len() - i,
    {
        let ghost prefix = views(sources@.subrange(0, i as int));
        let ghost next = views(sources@.subrange(0, i + 1));
        proof {
            assert(next.drop_last() =~= prefix);
            assert(next.last() == sources@[i as int]@);
        }
        let res = sampler.add_archive(sources[i].clone());
        if let Err(e) = res {
            proof {
                let vs = views(sources@);
                assert(vs.subrange(0, i + 1) =~= next);
                assert(vs.subrange(0, vs.len() as int) =~= vs);
                lemma_sources_none_grows(vs, i + 1, vs.len() as int);
                assert forall|j: int|
                    0 <= j < sources@.len() && sources_items(views(sources@.subrange(0, j))) is Some
                        && lacks_magic(#[trigger] sources@[j]@) implies Err::<Vec<u8>, Error>(e)
                    == Err::<Vec<u8>, Error>(Error::MagicMissing) by {
                    assert(views(sources@.subrange(0, j)) =~= vs.subrange(0, j));
                    if j > i {
                        lemma_sources_none_grows(vs, i + 1, j);
                    } else if j < i {
                        assert(vs.subrange(0, j + 1).drop_last() =~= vs.subrange(0, j));
                        assert(vs[j] == sources@[j]@);
                        lemma_sources_none_grows(vs, j + 1, i as int);
                        assert(vs.subrange(0, i as int) =~= prefix);
                    } else {
                        assert(sources@[j]@ == sources@[i as int]@);
                    }
                }
            }
            return Err(e);
        }
        i = i + 1;
    }
    proof {
        let vs = views(sources@);
        assert(sources@.subrange(0, i as int) =~= sources@);
        assert forall|j: int|
            0 <= j < sources@.len() && sources_items(views(sources@.subrange(0, j))) is Some
                && lacks_magic(#[trigger] sources@[j]@) implies false by {
            assert(views(sources@.subrange(0, j)) =~= vs.subrange(0, j));
            assert(vs.subrange(0, j + 1).drop_last() =~= vs.subrange(0, j));
            assert(vs[j] == sources@[j]@);
            lemma_sources_none_grows(vs, j + 1, vs.len() as int);
            assert(vs.subrange(0, vs.len() as int) =~= vs);
        }
    }
    sampler.finish()
}

} // verus!
