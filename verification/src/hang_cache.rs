//! Which mounts hung a short while ago, so that they are not asked again at once.
use vstd::prelude::*;

use crate::archive::wire;
use crate::ordmap;
use crate::ordmap::{Key, OrdMap};

verus! {

/// Mounts that hung, with the time when each did.
pub struct HungCache {
    /// Times by path.
    pub entries: OrdMap<Vec<u8>, u64>,
}

impl View for HungCache {
    type V = Map<Seq<u8>, u64>;

    open spec fn view(&self) -> Map<Seq<u8>, u64> {
        self.entries@
    }
}

/// Whether a time is less than `ttl` ago; one that is still to come is.
pub open spec fn recent(t: u64, now: u64, ttl: u64) -> bool {
    if t >= now {
        ttl > 0
    } else {
        now - t < ttl
    }
}

fn is_recent(t: u64, now: u64, ttl: u64) -> (b: bool)
    ensures
        b == recent(t, now, ttl),
{
    if t >= now {
        ttl > 0
    } else {
        now - t < ttl
    }
}

/// Whether a mount hung less than `ttl` ago.
pub open spec fn hung(m: Map<Seq<u8>, u64>, key: Seq<u8>, now: u64, ttl: u64) -> bool {
    m.contains_key(key) && recent(m[key], now, ttl)
}

impl HungCache {
    /// No mount hung.
    pub fn new() -> (c: HungCache)
        ensures
            c@ == Map::<Seq<u8>, u64>::empty(),
    {
        HungCache { entries: OrdMap::new() }
    }

    /// Whether a mount is not to be asked, because it hung less than `ttl` ago.
    pub fn is_hung(&self, key: &Vec<u8>, now: u64, ttl: u64) -> (b: bool)
        ensures
            b == hung(self@, key@, now, ttl),
    {
        match self.entries.get(key) {
            Some(t) => is_recent(*t, now, ttl),
            None => false,
        }
    }

    /// Takes in that a mount answered.
    pub fn answered(&mut self, key: &Vec<u8>)
        ensures
            final(self)@ == old(self)@.remove(key@),
    {
        let _ = self.entries.remove(key);
    }

    /// Takes in that a mount hung; what hung longer than `ttl` ago is forgotten.
    pub fn timed_out(&mut self, key: Vec<u8>, now: u64, ttl: u64)
        ensures
            final(self)@ == Map::new(
                |k: Seq<u8>| hung(old(self)@, k, now, ttl),
                |k: Seq<u8>| old(self)@[k],
            ).insert(key@, now),
    {
        let ghost before = self@;
        let entries: &Vec<(Vec<u8>, u64)> = self.entries.entries();
        let ghost es = entries@;
        let mut kept: OrdMap<Vec<u8>, u64> = OrdMap::new();
        let mut i: usize = 0;
        while i < entries.len()
            invariant
                i <= es.len(),
                entries@ == es,
                ordmap::sorted(es),
                before == ordmap::as_map(es),
                forall|k: Seq<u8>| #[trigger]
                    kept@.contains_key(k) == (exists|j: int|
                        0 <= j < i && (#[trigger] es[j]).0@ == k && recent(es[j].1, now, ttl)),
                forall|k: Seq<u8>| #[trigger] kept@.contains_key(k) ==> kept@[k] == before[k],
            decreases es.len() - i,
        {
            let t: u64 = entries[i].1;
            let ghost so_far = kept@;
            proof {
                ordmap::entry_in_map(es, i as int);
                assert(es[i as int].0.key() == es[i as int].0@);
            }
            if is_recent(t, now, ttl) {
                let k: Vec<u8> = wire::copy_range(&entries[i].0, 0, entries[i].0.len());
                assert(k@ =~= es[i as int].0@);
                kept.insert(k, t);
            }
            proof {
                assert forall|k: Seq<u8>| #[trigger] kept@.contains_key(k) == (exists|j: int|
                    0 <= j < i + 1 && (#[trigger] es[j]).0@ == k && recent(es[j].1, now, ttl)) by {
                    if so_far.contains_key(k) {
                        let j = choose|j: int|
                            0 <= j < i && (#[trigger] es[j]).0@ == k && recent(es[j].1, now, ttl);
                        assert(es[j].0@ == k);
                    }
                    if recent(t, now, ttl) && es[i as int].0@ == k {
                        assert(kept@.contains_key(k));
                    }
                }
            }
            i = i + 1;
        }
        proof {
            let want = Map::new(|k: Seq<u8>| hung(before, k, now, ttl), |k: Seq<u8>| before[k]);
            assert forall|k: Seq<u8>| kept@.contains_key(k) == want.contains_key(k) by {
                if kept@.contains_key(k) {
                    let j = choose|j: int|
                        0 <= j < es.len() && (#[trigger] es[j]).0@ == k && recent(
                            es[j].1,
                            now,
                            ttl,
                        );
                    ordmap::entry_in_map(es, j);
                    assert(es[j].0.key() == k);
                }
                if want.contains_key(k) {
                    assert(ordmap::has_key(es, k));
                    let j = ordmap::index_of(es, k);
                    ordmap::entry_in_map(es, j);
                    assert(es[j].0@ == k);
                }
            }
            assert(kept@ =~= want);
        }
        kept.insert(key, now);
        self.entries = kept;
    }
}

/// A mount that hung is not asked again for a while, and one that answered is.
pub proof fn hung_mounts_rest(m: Map<Seq<u8>, u64>, key: Seq<u8>, now: u64, later: u64, ttl: u64)
    requires
        now <= later,
    ensures
        hung(m.insert(key, now), key, later, ttl) == (later - now < ttl),
        !hung(m.remove(key), key, later, ttl),
{
}

/// A mount rests for as long as was said from when it hung, and not a moment longer; a clock that
/// was set back does not end the rest, and a rest of no length is none. One that never hung is asked.
pub proof fn rest_is_as_long_as_was_said(
    m: Map<Seq<u8>, u64>,
    key: Seq<u8>,
    now: u64,
    ttl: u64,
)
    ensures
        !m.contains_key(key) ==> !hung(m, key, now, ttl),
        m.contains_key(key) ==> (hung(m, key, now, ttl) <==> ttl > 0 && now < m[key] + ttl),
        !hung(m, key, now, 0),
{
}

} // verus!
