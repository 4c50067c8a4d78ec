//! The mailbox store: mailboxes identified by slash-separated paths, with
//! idempotent auto-creation of every level of a path, and stored messages
//! with their mailbox memberships and keywords.

use vstd::prelude::*;

use crate::bytes::copy_bytes;

verus! {

/// A mailbox: its id is its index in the store, which never changes.
#[derive(Debug)]
pub struct Mailbox {
    pub id: u64,
    pub path: Vec<u8>,
}

/// A stored copy of a delivered message.
#[derive(Debug)]
pub struct StoredMessage {
    pub raw: Vec<u8>,
    pub mailbox_ids: Vec<u64>,
    pub keywords: Vec<Vec<u8>>,
}

/// The mailbox store.
#[derive(Debug)]
pub struct MailboxStore {
    pub mailboxes: Vec<Mailbox>,
    pub messages: Vec<StoredMessage>,
}

/// The separator of mailbox path segments.
pub open spec fn sep() -> u8 {
    47u8
}

/// The paths of the store's mailboxes, in creation order.
pub open spec fn paths_of(m: Seq<Mailbox>) -> Seq<Seq<u8>> {
    m.map_values(|mb: Mailbox| mb.path@)
}

/// Position `k` of `p` ends a path level: it is the end of `p` or a
/// separator.
pub open spec fn boundary(p: Seq<u8>, k: int) -> bool {
    k == p.len() || (0 <= k < p.len() && p[k] == sep())
}

/// A mailbox path is well formed: nonempty segments separated by single
/// separators.
pub open spec fn valid_path(p: Seq<u8>) -> bool {
    &&& p.len() > 0
    &&& p[0] != sep()
    &&& p[p.len() - 1] != sep()
    &&& forall|k: int| 0 < k < p.len() ==> !(p[k - 1] == sep() && #[trigger] p[k] == sep())
}

/// Creates one level if it does not exist yet; an existing path is reused.
pub open spec fn ensure_one(ps: Seq<Seq<u8>>, p: Seq<u8>) -> Seq<Seq<u8>> {
    if ps.contains(p) {
        ps
    } else {
        ps.push(p)
    }
}

/// Creates, from level boundary `k` on, every missing level of `p`.
pub open spec fn create_chain(ps: Seq<Seq<u8>>, p: Seq<u8>, k: int) -> Seq<Seq<u8>>
    decreases p.len() + 1 - k,
{
    if k < 0 || k > p.len() {
        ps
    } else if boundary(p, k) {
        create_chain(ensure_one(ps, p.take(k)), p, k + 1)
    } else {
        create_chain(ps, p, k + 1)
    }
}

/// Chain creation only appends: earlier mailboxes keep their position.
pub proof fn lemma_chain_extends(ps: Seq<Seq<u8>>, p: Seq<u8>, k: int)
    ensures
        create_chain(ps, p, k).len() >= ps.len(),
        forall|i: int| 0 <= i < ps.len() ==> create_chain(ps, p, k)[i] == ps[i],
    decreases p.len() + 1 - k,
{
    if k < 0 || k > p.len() {
    } else if boundary(p, k) {
        let ps1 = ensure_one(ps, p.take(k));
        lemma_chain_extends(ps1, p, k + 1);
        assert forall|i: int| 0 <= i < ps.len() implies create_chain(ps, p, k)[i] == ps[i] by {
            assert(create_chain(ps, p, k) == create_chain(ps1, p, k + 1));
            assert(create_chain(ps1, p, k + 1)[i] == ps1[i]);
            assert(ps1[i] == ps[i]);
        }
    } else {
        lemma_chain_extends(ps, p, k + 1);
    }
}

/// Membership in the paths is kept by chain creation.
pub proof fn lemma_chain_keeps(ps: Seq<Seq<u8>>, p: Seq<u8>, k: int, q: Seq<u8>)
    requires
        ps.contains(q),
    ensures
        create_chain(ps, p, k).contains(q),
{
    let i = choose|i: int| 0 <= i < ps.len() && ps[i] == q;
    lemma_chain_extends(ps, p, k);
    assert(create_chain(ps, p, k)[i] == q);
}

/// After chain creation every level of `p` from `k` on is present.
pub proof fn lemma_chain_has_all(ps: Seq<Seq<u8>>, p: Seq<u8>, k: int)
    requires
        0 <= k,
    ensures
        forall|b: int|
            k <= b <= p.len() && boundary(p, b) ==> create_chain(ps, p, k).contains(p.take(b)),
    decreases p.len() + 1 - k,
{
    if k < 0 || k > p.len() {
    } else if boundary(p, k) {
        let ps1 = ensure_one(ps, p.take(k));
        lemma_chain_has_all(ps1, p, k + 1);
        assert(ps1.contains(p.take(k))) by {
            if !ps.contains(p.take(k)) {
                assert(ps1[ps1.len() - 1] == p.take(k));
            }
        }
        lemma_chain_keeps(ps1, p, k + 1, p.take(k));
        assert forall|b: int|
            k <= b <= p.len() && boundary(p, b) implies create_chain(ps, p, k).contains(
            p.take(b),
        ) by {
            assert(create_chain(ps, p, k) == create_chain(ps1, p, k + 1));
            if b == k {
                assert(create_chain(ps1, p, k + 1).contains(p.take(k)));
            } else {
                assert(create_chain(ps1, p, k + 1).contains(p.take(b)));
            }
        }
    } else {
        lemma_chain_has_all(ps, p, k + 1);
        assert forall|b: int|
            k <= b <= p.len() && boundary(p, b) implies create_chain(ps, p, k).contains(
            p.take(b),
        ) by {
            assert(create_chain(ps, p, k) == create_chain(ps, p, k + 1));
            assert(b != k);
            assert(create_chain(ps, p, k + 1).contains(p.take(b)));
        }
    }
}

/// Once every level is present, chain creation changes nothing.
pub proof fn lemma_chain_noop(ps: Seq<Seq<u8>>, p: Seq<u8>, k: int)
    requires
        forall|b: int| k <= b <= p.len() && boundary(p, b) ==> ps.contains(p.take(b)),
    ensures
        create_chain(ps, p, k) == ps,
    decreases p.len() + 1 - k,
{
    if k < 0 || k > p.len() {
    } else if boundary(p, k) {
        assert(ps.contains(p.take(k)));
        assert(ensure_one(ps, p.take(k)) == ps);
        lemma_chain_noop(ps, p, k + 1);
    } else {
        lemma_chain_noop(ps, p, k + 1);
    }
}

/// Filing a path twice creates its mailboxes exactly once: the second
/// chain creation reuses every level the first one made.
pub proof fn lemma_chain_idempotent(ps: Seq<Seq<u8>>, p: Seq<u8>)
    ensures
        create_chain(create_chain(ps, p, 0), p, 0) == create_chain(ps, p, 0),
{
    lemma_chain_has_all(ps, p, 0);
    lemma_chain_noop(create_chain(ps, p, 0), p, 0);
}

/// Distinct paths stay distinct under chain creation: no duplicate mailbox
/// is ever created.
pub proof fn lemma_chain_distinct(ps: Seq<Seq<u8>>, p: Seq<u8>, k: int)
    requires
        forall|i: int, j: int| 0 <= i < j < ps.len() ==> ps[i] != ps[j],
    ensures
        forall|i: int, j: int|
            0 <= i < j < create_chain(ps, p, k).len() ==> create_chain(ps, p, k)[i] != create_chain(
                ps,
                p,
                k,
            )[j],
    decreases p.len() + 1 - k,
{
    if k < 0 || k > p.len() {
    } else if boundary(p, k) {
        let ps1 = ensure_one(ps, p.take(k));
        assert forall|i: int, j: int| 0 <= i < j < ps1.len() implies ps1[i] != ps1[j] by {
            if !ps.contains(p.take(k)) && j == ps1.len() - 1 && ps1.len() == ps.len() + 1 {
                assert(ps1[i] == ps[i]);
                assert(!ps.contains(ps1[j]));
            }
        }
        lemma_chain_distinct(ps1, p, k + 1);
        assert(create_chain(ps, p, k) == create_chain(ps1, p, k + 1));
    } else {
        lemma_chain_distinct(ps, p, k + 1);
        assert(create_chain(ps, p, k) == create_chain(ps, p, k + 1));
    }
}

impl MailboxStore {
    /// The store's invariant: a mailbox's id is its index, and no two
    /// mailboxes share a path.
    pub open spec fn wf(self) -> bool {
        &&& forall|i: int| 0 <= i < self.mailboxes@.len() ==> self.mailboxes@[i].id == i
        &&& forall|i: int, j: int|
            0 <= i < j < self.mailboxes@.len() ==> self.mailboxes@[i].path@
                != self.mailboxes@[j].path@
    }

    /// The paths of the store's mailboxes.
    pub open spec fn paths(self) -> Seq<Seq<u8>> {
        paths_of(self.mailboxes@)
    }

    /// An empty store.
    pub fn new() -> (m: MailboxStore)
        ensures
            m.wf(),
            m.mailboxes@.len() == 0,
            m.messages@.len() == 0,
    {
        MailboxStore { mailboxes: Vec::new(), messages: Vec::new() }
    }

    fn find_path_prefix(&self, p: &Vec<u8>, k: usize) -> (r: Option<usize>)
        requires
            k <= p@.len(),
        ensures
            match r {
                Option::Some(i) => i < self.mailboxes@.len() && self.mailboxes@[i as int].path@
                    == p@.take(k as int),
                Option::None => !self.paths().contains(p@.take(k as int)),
            },
    {
        let mut i: usize = 0;
        while i < self.mailboxes.len()
            invariant
                i <= self.mailboxes@.len(),
                k <= p@.len(),
                forall|t: int| 0 <= t < i ==> self.mailboxes@[t].path@ != p@.take(k as int),
            decreases self.mailboxes@.len() - i,
        {
            let mb = &self.mailboxes[i];
            if mb.path.len() == k {
                let mut same = true;
                let mut t: usize = 0;
                while t < k
                    invariant
                        t <= k,
                        k <= p@.len(),
                        i < self.mailboxes@.len(),
                        mb == self.mailboxes@[i as int],
                        mb.path@.len() == k,
                        same == (forall|u: int| 0 <= u < t ==> mb.path@[u] == p@[u]),
                    decreases k - t,
                {
                    if mb.path[t] != p[t] {
                        same = false;
                        assert(!(forall|u: int| 0 <= u < t + 1 ==> mb.path@[u] == p@[u]));
                        t = k;
                    } else {
                        proof {
                            if same {
                                assert(forall|u: int| 0 <= u < t + 1 ==> mb.path@[u] == p@[u]);
                            }
                        }
                        t += 1;
                    }
                }
                if same {
                    proof {
                        assert(mb.path@ =~= p@.take(k as int));
                    }
                    return Some(i);
                }
                proof {
                    assert(mb.path@ != p@.take(k as int)) by {
                        let u = choose|u: int| !(0 <= u < k ==> mb.path@[u] == p@[u]);
                        assert(p@.take(k as int)[u] == p@[u]);
                    }
                }
            } else {
                assert(self.mailboxes@[i as int].path@ != p@.take(k as int));
            }
            i += 1;
        }
        None
    }

    /// Creates the level `path[..k]` if it is missing; an existing level is
    /// reused.
    fn ensure_level(&mut self, path: &Vec<u8>, k: usize)
        requires
            old(self).wf(),
            k <= path@.len(),
        ensures
            final(self).wf(),
            final(self).messages@ == old(self).messages@,
            final(self).paths() == ensure_one(old(self).paths(), path@.take(k as int)),
            final(self).mailboxes@.len() >= old(self).mailboxes@.len(),
            forall|i: int|
                0 <= i < old(self).mailboxes@.len() ==> #[trigger] final(self).mailboxes@[i]
                    == old(self).mailboxes@[i],
            final(self).paths().contains(path@.take(k as int)),
    {
        let ghost before = self.paths();
        match self.find_path_prefix(path, k) {
            Some(i) => {
                proof {
                    assert(before[i as int] == path@.take(k as int));
                    assert(before.contains(path@.take(k as int)));
                    assert(ensure_one(before, path@.take(k as int)) == before);
                }
            },
            None => {
                let seg = copy_prefix(path, k);
                let id = self.mailboxes.len() as u64;
                let mb = Mailbox { id, path: seg };
                let ghost pre = self.mailboxes@;
                self.mailboxes.push(mb);
                proof {
                    assert(self.mailboxes@ == pre.push(mb));
                    assert forall|i: int|
                        0 <= i < pre.len() implies #[trigger] self.mailboxes@[i] == pre[i] by {
                        assert(pre.push(mb)[i] == pre[i]);
                    }
                    assert(self.paths() =~= before.push(path@.take(k as int)));
                    assert(ensure_one(before, path@.take(k as int)) == before.push(
                        path@.take(k as int),
                    ));
                    assert forall|i: int, j: int|
                        0 <= i < j < self.mailboxes@.len() implies self.mailboxes@[i].path@
                        != self.mailboxes@[j].path@ by {
                        if j == self.mailboxes@.len() - 1 {
                            assert(!before.contains(path@.take(k as int)));
                            assert(before[i] == self.mailboxes@[i].path@);
                        }
                    }
                    assert(self.paths()[self.paths().len() - 1] == path@.take(k as int));
                }
            },
        }
    }

    /// Resolves the mailbox chain of `path`, creating every missing level —
    /// `A/B/C` creates `A`, `A/B` and `A/B/C` as needed — and returns the id
    /// of the full path's mailbox.  Creation is idempotent: an existing
    /// level is reused, and its id is stable.
    pub fn file_path(&mut self, path: &Vec<u8>) -> (id: u64)
        requires
            old(self).wf(),
        ensures
            final(self).wf(),
            final(self).messages@ == old(self).messages@,
            final(self).paths() == create_chain(old(self).paths(), path@, 0),
            final(self).mailboxes@.len() >= old(self).mailboxes@.len(),
            forall|i: int|
                0 <= i < old(self).mailboxes@.len() ==> #[trigger] final(self).mailboxes@[i]
                    == old(self).mailboxes@[i],
            id < final(self).mailboxes@.len(),
            final(self).mailboxes@[id as int].path@ == path@,
    {
        let ghost orig = self.paths();
        let n = path.len();
        let mut k: usize = 0;
        while k < n
            invariant
                k <= n,
                n == path@.len(),
                self.wf(),
                self.messages@ == old(self).messages@,
                self.mailboxes@.len() >= old(self).mailboxes@.len(),
                forall|i: int|
                    0 <= i < old(self).mailboxes@.len() ==> #[trigger] self.mailboxes@[i] == old(
                        self,
                    ).mailboxes@[i],
                create_chain(orig, path@, 0) == create_chain(self.paths(), path@, k as int),
            decreases n - k,
        {
            if path[k] == 47u8 {
                let ghost before = self.paths();
                self.ensure_level(path, k);
                proof {
                    assert(boundary(path@, k as int));
                    assert(create_chain(before, path@, k as int) == create_chain(
                        self.paths(),
                        path@,
                        k as int + 1,
                    ));
                }
            } else {
                proof {
                    assert(!boundary(path@, k as int));
                    assert(create_chain(self.paths(), path@, k as int) == create_chain(
                        self.paths(),
                        path@,
                        k as int + 1,
                    ));
                }
            }
            k += 1;
        }
        let ghost before_last = self.paths();
        self.ensure_level(path, n);
        proof {
            assert(boundary(path@, n as int));
            assert(create_chain(before_last, path@, n as int) == create_chain(
                ensure_one(before_last, path@.take(n as int)),
                path@,
                n as int + 1,
            ));
            assert(create_chain(self.paths(), path@, n as int + 1) == self.paths());
            assert(self.paths() == create_chain(orig, path@, 0));
            assert(path@.take(n as int) =~= path@);
            assert(self.paths().contains(path@));
        }
        match self.find_path_prefix(path, n) {
            Some(i) => {
                proof {
                    assert(self.mailboxes@[i as int].path@ == path@.take(n as int));
                    assert(path@.take(n as int) =~= path@);
                    assert(self.mailboxes@[i as int].id == i);
                }
                self.mailboxes[i].id
            },
            None => {
                proof {
                    assert(path@.take(n as int) =~= path@);
                    assert(false);
                }
                0
            },
        }
    }

    /// Appends one stored copy of a message, with its mailbox memberships
    /// and keywords.
    pub fn append_message(&mut self, msg: StoredMessage)
        requires
            old(self).wf(),
        ensures
            final(self).wf(),
            final(self).mailboxes@ == old(self).mailboxes@,
            final(self).messages@ == old(self).messages@.push(msg),
    {
        self.messages.push(msg);
    }
}

/// An owned copy of the first `k` bytes of a byte string.
fn copy_prefix(a: &Vec<u8>, k: usize) -> (r: Vec<u8>)
    requires
        k <= a@.len(),
    ensures
        r@ == a@.take(k as int),
{
    let mut r: Vec<u8> = Vec::new();
    let mut i: usize = 0;
    while i < k
        invariant
            i <= k,
            k <= a@.len(),
            r@ == a@.take(i as int),
        decreases k - i,
    {
        r.push(a[i]);
        proof {
            assert(r@ =~= a@.take(i as int + 1));
        }
        i += 1;
    }
    r
}

} // verus!
