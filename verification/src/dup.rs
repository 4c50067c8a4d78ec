//! The duplicate suppression cache: fingerprints mapped to insertion
//! timestamps, with lazy TTL expiry computed at lookup time.

use vstd::prelude::*;

use crate::bytes::bytes_eq;

verus! {

/// One cache entry: an account's message fingerprint and when it was seen.
#[derive(Debug)]
pub struct DupEntry {
    pub account: u64,
    pub fingerprint: Vec<u8>,
    pub stamp: u64,
}

/// A time-bounded key/timestamp store: an entry is live while
/// `stamp <= now < stamp + ttl`; expired entries are logically absent.
#[derive(Debug)]
pub struct DuplicateCache {
    pub ttl: u64,
    pub entries: Vec<DupEntry>,
}

/// The entry records this account/fingerprint pair.
pub open spec fn key_matches(e: DupEntry, account: u64, fp: Seq<u8>) -> bool {
    e.account == account && e.fingerprint@ == fp
}

/// No two entries share a key.
pub open spec fn unique_keys(s: Seq<DupEntry>) -> bool {
    forall|i: int, j: int|
        0 <= i < j < s.len() ==> !(s[i].account == s[j].account && s[i].fingerprint@
            == s[j].fingerprint@)
}

/// The mathematical value of the cache: a map from key to timestamp.
pub open spec fn map_of(s: Seq<DupEntry>) -> Map<(u64, Seq<u8>), u64>
    decreases s.len(),
{
    if s.len() == 0 {
        Map::empty()
    } else {
        map_of(s.drop_last()).insert((s.last().account, s.last().fingerprint@), s.last().stamp)
    }
}

/// An entry inserted at `stamp` is live at `now`.  A timestamp in the
/// future does not suppress anything.
pub open spec fn live(stamp: u64, ttl: u64, now: u64) -> bool {
    stamp <= now < stamp + ttl
}

/// The key has a live entry in the map.
pub open spec fn spec_has_live(
    m: Map<(u64, Seq<u8>), u64>,
    ttl: u64,
    account: u64,
    fp: Seq<u8>,
    now: u64,
) -> bool {
    m.contains_key((account, fp)) && live(m[(account, fp)], ttl, now)
}

/// What one duplicate check does to the map: a live entry is left alone
/// (and suppresses), otherwise a fresh timestamp is written.
pub open spec fn spec_check_effect(
    m: Map<(u64, Seq<u8>), u64>,
    ttl: u64,
    account: u64,
    fp: Seq<u8>,
    now: u64,
) -> Map<(u64, Seq<u8>), u64> {
    if spec_has_live(m, ttl, account, fp, now) {
        m
    } else {
        m.insert((account, fp), now)
    }
}

proof fn lemma_map_of_lookup(s: Seq<DupEntry>, account: u64, fp: Seq<u8>)
    requires
        unique_keys(s),
    ensures
        map_of(s).contains_key((account, fp)) == (exists|i: int|
            0 <= i < s.len() && key_matches(#[trigger] s[i], account, fp)),
        forall|i: int|
            0 <= i < s.len() && key_matches(#[trigger] s[i], account, fp)
                ==> map_of(s)[(account, fp)] == s[i].stamp,
    decreases s.len(),
{
    if s.len() > 0 {
        let d = s.drop_last();
        assert(unique_keys(d)) by {
            assert(forall|i: int| 0 <= i < d.len() ==> d[i] == s[i]);
        }
        lemma_map_of_lookup(d, account, fp);
        assert(forall|i: int| 0 <= i < d.len() ==> d[i] == s[i]);
        if key_matches(s.last(), account, fp) {
            assert(s[s.len() - 1] == s.last());
            assert forall|i: int|
                0 <= i < s.len() && key_matches(#[trigger] s[i], account, fp)
                implies map_of(s)[(account, fp)] == s[i].stamp by {
                if i < s.len() - 1 {
                    assert(!(s[i].account == s[s.len() - 1].account && s[i].fingerprint@
                        == s[s.len() - 1].fingerprint@));
                }
            }
        } else {
            assert((s.last().account, s.last().fingerprint@) != ((account, fp)));
        }
    }
}

proof fn lemma_map_of_update(s: Seq<DupEntry>, i: int, now: u64)
    requires
        unique_keys(s),
        0 <= i < s.len(),
    ensures
        map_of(s.update(i, DupEntry { stamp: now, ..s[i] })) == map_of(s).insert(
            (s[i].account, s[i].fingerprint@),
            now,
        ),
    decreases s.len(),
{
    let e = DupEntry { stamp: now, ..s[i] };
    let u = s.update(i, e);
    if i == s.len() - 1 {
        assert(u.drop_last() =~= s.drop_last());
        assert(u.last() == e);
        assert(map_of(u) == map_of(s.drop_last()).insert((s[i].account, s[i].fingerprint@), now));
        assert(map_of(s) == map_of(s.drop_last()).insert(
            (s[i].account, s[i].fingerprint@),
            s[i].stamp,
        ));
        assert(map_of(u) =~= map_of(s).insert((s[i].account, s[i].fingerprint@), now));
    } else {
        let d = s.drop_last();
        assert(unique_keys(d)) by {
            assert(forall|k: int| 0 <= k < d.len() ==> d[k] == s[k]);
        }
        assert(u.drop_last() =~= d.update(i, e));
        assert(u.last() == s.last());
        lemma_map_of_update(d, i, now);
        assert(map_of(u) == map_of(d).insert((s[i].account, s[i].fingerprint@), now).insert(
            (s.last().account, s.last().fingerprint@),
            s.last().stamp,
        ));
        assert(!(s[i].account == s.last().account && s[i].fingerprint@ == s.last().fingerprint@))
            by {
            assert(s[s.len() - 1] == s.last());
        }
        assert(map_of(u) =~= map_of(s).insert((s[i].account, s[i].fingerprint@), now));
    }
}

impl DuplicateCache {
    /// The cache's invariant: one entry per key.
    pub open spec fn wf(self) -> bool {
        unique_keys(self.entries@)
    }

    /// The cache's mathematical value.
    pub open spec fn view_map(self) -> Map<(u64, Seq<u8>), u64> {
        map_of(self.entries@)
    }

    /// An empty cache with the given TTL window.
    pub fn new(ttl: u64) -> (c: DuplicateCache)
        ensures
            c.wf(),
            c.ttl == ttl,
            c.view_map() == Map::<(u64, Seq<u8>), u64>::empty(),
    {
        DuplicateCache { ttl, entries: Vec::new() }
    }

    fn find_key(&self, account: u64, fp: &Vec<u8>) -> (r: Option<usize>)
        ensures
            match r {
                Option::Some(i) => i < self.entries@.len() && key_matches(
                    self.entries@[i as int],
                    account,
                    fp@,
                ),
                Option::None => forall|i: int|
                    0 <= i < self.entries@.len() ==> !key_matches(
                        #[trigger] self.entries@[i],
                        account,
                        fp@,
                    ),
            },
    {
        let mut i: usize = 0;
        while i < self.entries.len()
            invariant
                i <= self.entries@.len(),
                forall|k: int|
                    0 <= k < i ==> !key_matches(#[trigger] self.entries@[k], account, fp@),
            decreases self.entries@.len() - i,
        {
            let e = &self.entries[i];
            if e.account == account && bytes_eq(&e.fingerprint, fp) {
                return Some(i);
            }
            i += 1;
        }
        None
    }

    /// The atomic check-and-insert of one duplicate check: reports whether a
    /// live entry suppresses this delivery, and writes a fresh timestamp when
    /// none does.
    pub fn check_and_set(&mut self, account: u64, fp: Vec<u8>, now: u64) -> (suppressed: bool)
        requires
            old(self).wf(),
        ensures
            final(self).wf(),
            final(self).ttl == old(self).ttl,
            suppressed == spec_has_live(old(self).view_map(), old(self).ttl, account, fp@, now),
            final(self).view_map() == spec_check_effect(
                old(self).view_map(),
                old(self).ttl,
                account,
                fp@,
                now,
            ),
    {
        proof {
            lemma_map_of_lookup(self.entries@, account, fp@);
        }
        match self.find_key(account, &fp) {
            Some(i) => {
                let stamp = self.entries[i].stamp;
                if stamp <= now && now - stamp < self.ttl {
                    assert(spec_has_live(self.view_map(), self.ttl, account, fp@, now));
                    true
                } else {
                    assert(!live(stamp, self.ttl, now));
                    assert(!spec_has_live(self.view_map(), self.ttl, account, fp@, now));
                    let ghost orig = self.entries@;
                    self.entries[i].stamp = now;
                    proof {
                        assert(self.entries@ =~= orig.update(
                            i as int,
                            DupEntry { stamp: now, ..orig[i as int] },
                        ));
                        lemma_map_of_update(orig, i as int, now);
                        assert(unique_keys(self.entries@)) by {
                            assert(forall|k: int|
                                0 <= k < orig.len() ==> (#[trigger] self.entries@[k]).account
                                    == orig[k].account && self.entries@[k].fingerprint@
                                    == orig[k].fingerprint@);
                        }
                    }
                    false
                }
            },
            None => {
                assert(!spec_has_live(self.view_map(), self.ttl, account, fp@, now));
                let ghost orig = self.entries@;
                let e = DupEntry { account, fingerprint: fp, stamp: now };
                self.entries.push(e);
                proof {
                    assert(self.entries@.drop_last() =~= orig);
                    assert(unique_keys(self.entries@)) by {
                        assert(forall|k: int| 0 <= k < orig.len() ==> self.entries@[k] == orig[k]);
                        assert forall|i: int, j: int|
                            0 <= i < j < self.entries@.len() implies !(self.entries@[i].account
                            == self.entries@[j].account && self.entries@[i].fingerprint@
                            == self.entries@[j].fingerprint@) by {
                            if j == self.entries@.len() - 1 {
                                assert(!key_matches(orig[i], account, fp@));
                            }
                        }
                    }
                }
                false
            },
        }
    }
}

/// The suppression window: once a delivery at `t0` has recorded its
/// fingerprint, a second delivery at `t1` is suppressed exactly when it
/// falls inside the TTL window, and passes once the window has elapsed.
pub proof fn lemma_suppression_window(
    m: Map<(u64, Seq<u8>), u64>,
    ttl: u64,
    account: u64,
    fp: Seq<u8>,
    t0: u64,
    t1: u64,
)
    requires
        !spec_has_live(m, ttl, account, fp, t0),
        t0 <= t1,
    ensures
        spec_check_effect(m, ttl, account, fp, t0) == m.insert((account, fp), t0),
        spec_has_live(spec_check_effect(m, ttl, account, fp, t0), ttl, account, fp, t1) == (t1 < t0
            + ttl),
{
}

} // verus!
