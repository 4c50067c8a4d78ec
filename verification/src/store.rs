//! The script store: per-account script records and the activation
//! invariant — for each account at most one script is active, an active
//! script cannot be destroyed.

use vstd::prelude::*;

use crate::ast::CompiledScript;
use crate::bytes::{bytes_eq, bytes_lt, copy_bytes, lemma_lex_total, lemma_lex_trans, lex_le, lex_lt};
use crate::errors::StoreError;

verus! {

/// One stored filter script of one account.
#[derive(Debug)]
pub struct Script {
    pub id: u64,
    pub account: u64,
    pub name: Vec<u8>,
    pub source: Vec<u8>,
    pub compiled: CompiledScript,
    pub active: bool,
}

/// The per-account script records, with fresh ids handed out from a counter.
#[derive(Debug)]
pub struct ScriptStore {
    pub scripts: Vec<Script>,
    pub next_id: u64,
}

/// No two records share an id.
pub open spec fn unique_ids(s: Seq<Script>) -> bool {
    forall|i: int, j: int| 0 <= i < j < s.len() ==> s[i].id != s[j].id
}

/// Within one account no two records share a name.
pub open spec fn unique_names(s: Seq<Script>) -> bool {
    forall|i: int, j: int|
        0 <= i < j < s.len() && s[i].account == s[j].account ==> s[i].name@ != s[j].name@
}

/// Within one account at most one record is active.
pub open spec fn unique_active(s: Seq<Script>) -> bool {
    forall|i: int, j: int|
        0 <= i < j < s.len() && s[i].account == s[j].account ==> !(s[i].active && s[j].active)
}

/// The account owns a script with this id.
pub open spec fn has_script(s: Seq<Script>, account: u64, id: u64) -> bool {
    exists|i: int| 0 <= i < s.len() && s[i].account == account && s[i].id == id
}

/// The account owns a script with this name.
pub open spec fn name_taken(s: Seq<Script>, account: u64, name: Seq<u8>) -> bool {
    exists|i: int| 0 <= i < s.len() && s[i].account == account && s[i].name@ == name
}

/// What activation does to one record: within the account, the target
/// becomes active and every other record inactive; other accounts are
/// untouched.
pub open spec fn set_active_one(sc: Script, account: u64, id: u64) -> Script {
    if sc.account == account {
        Script { active: sc.id == id, ..sc }
    } else {
        sc
    }
}

/// What activation does to the whole store.
pub open spec fn activate_effect(s: Seq<Script>, account: u64, id: u64) -> Seq<Script> {
    s.map_values(|sc: Script| set_active_one(sc, account, id))
}

/// What deactivation does to one record.
pub open spec fn clear_active_one(sc: Script, account: u64) -> Script {
    if sc.account == account {
        Script { active: false, ..sc }
    } else {
        sc
    }
}

/// What `deactivate_all` does to the whole store.
pub open spec fn deactivate_effect(s: Seq<Script>, account: u64) -> Seq<Script> {
    s.map_values(|sc: Script| clear_active_one(sc, account))
}

/// Whether a record matches a query: owned by the account and, when an
/// `is-active` filter is given, with that activation flag.
pub open spec fn query_matches(sc: Script, account: u64, active_filter: Option<bool>) -> bool {
    sc.account == account && match active_filter {
        Option::None => true,
        Option::Some(b) => sc.active == b,
    }
}

/// Some script below `upto` carries this id and name and matches the query.
pub open spec fn query_backed(
    s: Seq<Script>,
    upto: int,
    account: u64,
    f: Option<bool>,
    id: u64,
    name: Seq<u8>,
) -> bool {
    exists|t: int|
        0 <= t < upto && (#[trigger] s[t]).id == id && s[t].name@ == name && query_matches(
            s[t],
            account,
            f,
        )
}

/// Some script carries this id and matches the query.
pub open spec fn query_has(s: Seq<Script>, account: u64, f: Option<bool>, id: u64) -> bool {
    exists|t: int|
        0 <= t < s.len() && (#[trigger] s[t]).id == id && query_matches(s[t], account, f)
}

/// How many of the account's records are active.
pub open spec fn count_active(s: Seq<Script>, account: u64) -> nat
    decreases s.len(),
{
    if s.len() == 0 {
        0
    } else {
        count_active(s.drop_last(), account) + if s.last().account == account
            && s.last().active {
            1nat
        } else {
            0nat
        }
    }
}

proof fn lemma_count_pos_exists(s: Seq<Script>, account: u64)
    requires
        count_active(s, account) > 0,
    ensures
        exists|i: int| 0 <= i < s.len() && s[i].account == account && s[i].active,
    decreases s.len(),
{
    if s.last().account == account && s.last().active {
        assert(s[s.len() - 1].account == account && s[s.len() - 1].active);
    } else {
        lemma_count_pos_exists(s.drop_last(), account);
        let i = choose|i: int|
            0 <= i < s.drop_last().len() && s.drop_last()[i].account == account
                && s.drop_last()[i].active;
        assert(s[i].account == account && s[i].active);
    }
}

proof fn lemma_count_at_most_one(s: Seq<Script>, account: u64)
    requires
        unique_active(s),
    ensures
        count_active(s, account) <= 1,
    decreases s.len(),
{
    if s.len() > 0 {
        let d = s.drop_last();
        assert(unique_active(d)) by {
            assert(forall|i: int| 0 <= i < d.len() ==> d[i] == s[i]);
        }
        lemma_count_at_most_one(d, account);
        if s.last().account == account && s.last().active {
            if count_active(d, account) > 0 {
                lemma_count_pos_exists(d, account);
                let i = choose|i: int| 0 <= i < d.len() && d[i].account == account && d[i].active;
                assert(s[i].account == account && s[i].active);
                assert(!(s[i].active && s[s.len() - 1].active));
                assert(false);
            }
        }
    }
}

impl ScriptStore {
    /// The store's invariant: ids unique, names unique per account, at most
    /// one active script per account, every id below the counter.
    pub open spec fn wf(self) -> bool {
        &&& unique_ids(self.scripts@)
        &&& unique_names(self.scripts@)
        &&& unique_active(self.scripts@)
        &&& forall|i: int| 0 <= i < self.scripts@.len() ==> self.scripts@[i].id < self.next_id
    }

    /// An empty store.
    pub fn new() -> (s: ScriptStore)
        ensures
            s.wf(),
            s.scripts@.len() == 0,
            s.next_id == 0,
    {
        ScriptStore { scripts: Vec::new(), next_id: 0 }
    }

    /// For each account the number of active scripts is zero or one: the
    /// activation relation is a partial function from account to script.
    pub proof fn lemma_at_most_one_active(self, account: u64)
        requires
            self.wf(),
        ensures
            count_active(self.scripts@, account) <= 1,
    {
        lemma_count_at_most_one(self.scripts@, account);
    }

    fn find_by_id(&self, account: u64, id: u64) -> (r: Option<usize>)
        ensures
            match r {
                Option::Some(i) => i < self.scripts@.len() && self.scripts@[i as int].account
                    == account && self.scripts@[i as int].id == id,
                Option::None => !has_script(self.scripts@, account, id),
            },
    {
        let mut i: usize = 0;
        while i < self.scripts.len()
            invariant
                i <= self.scripts@.len(),
                forall|k: int|
                    0 <= k < i ==> !(self.scripts@[k].account == account && self.scripts@[k].id
                        == id),
            decreases self.scripts@.len() - i,
        {
            let sc = &self.scripts[i];
            if sc.account == account && sc.id == id {
                return Some(i);
            }
            i += 1;
        }
        None
    }

    fn name_in_use(&self, account: u64, name: &Vec<u8>) -> (r: bool)
        ensures
            r == name_taken(self.scripts@, account, name@),
    {
        let mut i: usize = 0;
        while i < self.scripts.len()
            invariant
                i <= self.scripts@.len(),
                forall|k: int|
                    0 <= k < i ==> !(self.scripts@[k].account == account && self.scripts@[k].name@
                        == name@),
            decreases self.scripts@.len() - i,
        {
            let sc = &self.scripts[i];
            if sc.account == account && bytes_eq(&sc.name, name) {
                return true;
            }
            i += 1;
        }
        false
    }

    /// Atomically makes `id` the account's only active script: one pass that
    /// sets the target and clears every other record of the account.
    fn set_only_active(&mut self, account: u64, id: u64)
        ensures
            final(self).scripts@ == activate_effect(old(self).scripts@, account, id),
            final(self).next_id == old(self).next_id,
    {
        let ghost orig = self.scripts@;
        let n = self.scripts.len();
        let mut i: usize = 0;
        while i < n
            invariant
                n == self.scripts@.len(),
                orig.len() == n,
                i <= n,
                self.next_id == old(self).next_id,
                forall|k: int| 0 <= k < i ==> self.scripts@[k] == set_active_one(orig[k], account, id),
                forall|k: int| i <= k < n ==> self.scripts@[k] == orig[k],
            decreases n - i,
        {
            if self.scripts[i].account == account {
                let b = self.scripts[i].id == id;
                self.scripts[i].active = b;
                assert(self.scripts@[i as int] == set_active_one(orig[i as int], account, id));
            }
            i += 1;
        }
        proof {
            assert(self.scripts@ =~= activate_effect(orig, account, id));
        }
    }

    /// Stores an already-compiled script under a fresh id; when `activate`
    /// is set, atomically swaps the account's active script to the new one.
    pub(crate) fn insert_script(
        &mut self,
        account: u64,
        name: Vec<u8>,
        source: Vec<u8>,
        compiled: CompiledScript,
        activate: bool,
    ) -> (r: Result<u64, StoreError>)
        requires
            old(self).wf(),
            old(self).next_id < u64::MAX,
        ensures
            final(self).wf(),
            match r {
                Result::Ok(id) => {
                    let added = Script {
                        id: old(self).next_id,
                        account,
                        name,
                        source,
                        compiled,
                        active: false,
                    };
                    &&& !name_taken(old(self).scripts@, account, name@)
                    &&& id == old(self).next_id
                    &&& final(self).next_id == old(self).next_id + 1
                    &&& final(self).scripts@ == if activate {
                        activate_effect(old(self).scripts@.push(added), account, id)
                    } else {
                        old(self).scripts@.push(added)
                    }
                },
                Result::Err(e) => {
                    &&& e == StoreError::ScriptNameInUse
                    &&& name_taken(old(self).scripts@, account, name@)
                    &&& *final(self) == *old(self)
                },
            },
    {
        if self.name_in_use(account, &name) {
            return Err(StoreError::ScriptNameInUse);
        }
        let id = self.next_id;
        let added = Script { id, account, name, source, compiled, active: false };
        self.scripts.push(added);
        self.next_id = id + 1;
        proof {
            let s = self.scripts@;
            assert(forall|k: int| 0 <= k < s.len() - 1 ==> s[k] == old(self).scripts@[k]);
            assert(s[s.len() - 1].id == id && s[s.len() - 1].active == false);
        }
        if activate {
            let ghost mid = *self;
            self.set_only_active(account, id);
            proof {
                lemma_activate_preserves_wf(mid.scripts@, account, id, self.next_id as u64);
            }
        }
        Ok(id)
    }

    /// Makes `id` the account's active script, clearing whichever script
    /// previously held the flag, in one atomic swap.  Activating the same id
    /// twice is a no-op with identical observable state.
    pub fn activate(&mut self, account: u64, id: u64) -> (r: Result<(), StoreError>)
        requires
            old(self).wf(),
        ensures
            final(self).wf(),
            final(self).next_id == old(self).next_id,
            match r {
                Result::Ok(()) => has_script(old(self).scripts@, account, id)
                    && final(self).scripts@ == activate_effect(old(self).scripts@, account, id),
                Result::Err(e) => e == StoreError::ScriptNotFound
                    && !has_script(old(self).scripts@, account, id)
                    && *final(self) == *old(self),
            },
    {
        match self.find_by_id(account, id) {
            Some(_) => {
                self.set_only_active(account, id);
                proof {
                    lemma_activate_preserves_wf(
                        old(self).scripts@,
                        account,
                        id,
                        self.next_id as u64,
                    );
                }
                Ok(())
            },
            None => Err(StoreError::ScriptNotFound),
        }
    }

    /// Clears the active flag on every script of the account; idempotent.
    pub fn deactivate_all(&mut self, account: u64)
        requires
            old(self).wf(),
        ensures
            final(self).wf(),
            final(self).next_id == old(self).next_id,
            final(self).scripts@ == deactivate_effect(old(self).scripts@, account),
    {
        let ghost orig = self.scripts@;
        let n = self.scripts.len();
        let mut i: usize = 0;
        while i < n
            invariant
                n == self.scripts@.len(),
                orig.len() == n,
                i <= n,
                self.next_id == old(self).next_id,
                forall|k: int| 0 <= k < i ==> self.scripts@[k] == clear_active_one(orig[k], account),
                forall|k: int| i <= k < n ==> self.scripts@[k] == orig[k],
            decreases n - i,
        {
            if self.scripts[i].account == account {
                self.scripts[i].active = false;
                assert(self.scripts@[i as int] == clear_active_one(orig[i as int], account));
            }
            i += 1;
        }
        proof {
            assert(self.scripts@ =~= deactivate_effect(orig, account));
            lemma_deactivate_preserves_wf(orig, account, self.next_id as u64);
        }
    }

    /// Removes the script permanently — unless it is the account's active
    /// script, which cannot be destroyed.
    pub fn destroy(&mut self, account: u64, id: u64) -> (r: Result<(), StoreError>)
        requires
            old(self).wf(),
        ensures
            final(self).wf(),
            final(self).next_id == old(self).next_id,
            match r {
                Result::Ok(()) => exists|i: int|
                    {
                        &&& 0 <= i < old(self).scripts@.len()
                        &&& old(self).scripts@[i].account == account
                        &&& old(self).scripts@[i].id == id
                        &&& !old(self).scripts@[i].active
                        &&& final(self).scripts@ == old(self).scripts@.remove(i)
                    },
                Result::Err(e) => *final(self) == *old(self) && match e {
                    StoreError::ScriptIsActive => exists|i: int|
                        {
                            &&& 0 <= i < old(self).scripts@.len()
                            &&& old(self).scripts@[i].account == account
                            &&& old(self).scripts@[i].id == id
                            &&& old(self).scripts@[i].active
                        },
                    StoreError::ScriptNotFound => !has_script(old(self).scripts@, account, id),
                    _ => false,
                },
            },
    {
        match self.find_by_id(account, id) {
            Some(i) => {
                if self.scripts[i].active {
                    Err(StoreError::ScriptIsActive)
                } else {
                    let ghost orig = self.scripts@;
                    self.scripts.remove(i);
                    proof {
                        lemma_remove_preserves_wf(orig, i as int, self.next_id as u64);
                    }
                    Ok(())
                }
            },
            None => Err(StoreError::ScriptNotFound),
        }
    }


    /// The name of the script with this id (for stating query order).
    pub open spec fn spec_name_of(self, id: u64) -> Seq<u8> {
        if exists|i: int| 0 <= i < self.scripts@.len() && self.scripts@[i].id == id {
            let i = choose|i: int| 0 <= i < self.scripts@.len() && self.scripts@[i].id == id;
            self.scripts@[i].name@
        } else {
            Seq::empty()
        }
    }

    /// The ids of the account's scripts that match the filter, ordered by
    /// script name.
    pub fn query(&self, account: u64, active_filter: Option<bool>) -> (r: Vec<u64>)
        requires
            self.wf(),
        ensures
            forall|k: int|
                0 <= k < r@.len() ==> query_has(
                    self.scripts@,
                    account,
                    active_filter,
                    #[trigger] r@[k],
                ),
            forall|i: int|
                0 <= i < self.scripts@.len() && query_matches(
                    #[trigger] self.scripts@[i],
                    account,
                    active_filter,
                ) ==> r@.contains(self.scripts@[i].id),
            forall|k1: int, k2: int| 0 <= k1 < k2 < r@.len() ==> r@[k1] != r@[k2],
            forall|k1: int, k2: int|
                0 <= k1 < k2 < r@.len() ==> lex_le(
                    self.spec_name_of(#[trigger] r@[k1]),
                    self.spec_name_of(#[trigger] r@[k2]),
                ),
    {
        let mut names: Vec<Vec<u8>> = Vec::new();
        let mut ids: Vec<u64> = Vec::new();
        let n = self.scripts.len();
        let mut i: usize = 0;
        while i < n
            invariant
                i <= n,
                n == self.scripts@.len(),
                self.wf(),
                names@.len() == ids@.len(),
                forall|k: int|
                    0 <= k < ids@.len() ==> query_backed(
                        self.scripts@,
                        i as int,
                        account,
                        active_filter,
                        #[trigger] ids@[k],
                        names@[k]@,
                    ),
                forall|t: int|
                    0 <= t < i && query_matches(
                        #[trigger] self.scripts@[t],
                        account,
                        active_filter,
                    ) ==> ids@.contains(self.scripts@[t].id),
                forall|k1: int, k2: int| 0 <= k1 < k2 < ids@.len() ==> ids@[k1] != ids@[k2],
                forall|k1: int, k2: int|
                    0 <= k1 < k2 < names@.len() ==> lex_le(names@[k1]@, names@[k2]@),
            decreases n - i,
        {
            let sc = &self.scripts[i];
            let matches = sc.account == account && match active_filter {
                Option::Some(b) => sc.active == b,
                Option::None => true,
            };
            if matches {
                // find the insertion position that keeps names sorted
                let mut p: usize = 0;
                while p < names.len() && !bytes_lt(&sc.name, &names[p])
                    invariant
                        p <= names@.len(),
                        i < self.scripts@.len(),
                        sc == self.scripts@[i as int],
                        forall|k: int| 0 <= k < p ==> !lex_lt(sc.name@, names@[k]@),
                    decreases names@.len() - p,
                {
                    p += 1;
                }
                let ghost old_names = names@;
                let ghost old_ids = ids@;
                names.insert(p, crate::bytes::copy_bytes(&sc.name));
                ids.insert(p, sc.id);
                proof {
                    assert(names@ == old_names.insert(p as int, names@[p as int]));
                    assert(names@[p as int]@ == sc.name@);
                    assert forall|k1: int, k2: int|
                        0 <= k1 < k2 < names@.len() implies lex_le(
                        names@[k1]@,
                        names@[k2]@,
                    ) by {
                        if k1 < p && k2 == p {
                            assert(names@[k1] == old_names[k1]);
                            assert(!lex_lt(sc.name@, old_names[k1]@));
                            lemma_lex_total(sc.name@, old_names[k1]@);
                        } else if k1 == p && k2 > p {
                            assert(names@[k2] == old_names[k2 - 1]);
                            if p < old_names.len() {
                                assert(!(!lex_lt(sc.name@, old_names[p as int]@)));
                                lemma_lex_trans(
                                    sc.name@,
                                    old_names[p as int]@,
                                    old_names[k2 - 1]@,
                                );
                            }
                        } else if k1 < p && k2 > p {
                            assert(names@[k1] == old_names[k1]);
                            assert(names@[k2] == old_names[k2 - 1]);
                        } else if k1 < p && k2 < p {
                            assert(names@[k1] == old_names[k1]);
                            assert(names@[k2] == old_names[k2]);
                        } else if k1 > p && k2 > p {
                            assert(names@[k1] == old_names[k1 - 1]);
                            assert(names@[k2] == old_names[k2 - 1]);
                        }
                    }
                    assert forall|k1: int, k2: int|
                        0 <= k1 < k2 < ids@.len() implies ids@[k1] != ids@[k2] by {
                        let v1 = if k1 < p {
                            old_ids[k1]
                        } else if k1 == p {
                            sc.id
                        } else {
                            old_ids[k1 - 1]
                        };
                        assert(ids@[k1] == v1);
                        let v2 = if k2 < p {
                            old_ids[k2]
                        } else if k2 == p {
                            sc.id
                        } else {
                            old_ids[k2 - 1]
                        };
                        assert(ids@[k2] == v2);
                        if k1 == p || k2 == p {
                            assert forall|k: int|
                                0 <= k < old_ids.len() implies old_ids[k] != sc.id by {
                                assert(query_backed(
                                    self.scripts@,
                                    i as int,
                                    account,
                                    active_filter,
                                    old_ids[k],
                                    old_names[k]@,
                                ));
                                let t = choose|t: int|
                                    0 <= t < i && (#[trigger] self.scripts@[t]).id == old_ids[k]
                                        && self.scripts@[t].name@ == old_names[k]@
                                        && query_matches(
                                        self.scripts@[t],
                                        account,
                                        active_filter,
                                    );
                                assert(self.scripts@[t].id != self.scripts@[i as int].id);
                            }
                        }
                    }
                    assert forall|k: int|
                        0 <= k < ids@.len() implies query_backed(
                        self.scripts@,
                        i as int + 1,
                        account,
                        active_filter,
                        ids@[k],
                        names@[k]@,
                    ) by {
                        if k == p {
                            assert((#[trigger] self.scripts@[i as int]).id == ids@[k]
                                && self.scripts@[i as int].name@ == names@[k]@);
                        } else {
                            let kk = if k < p {
                                k
                            } else {
                                k - 1
                            };
                            assert(ids@[k] == old_ids[kk] && names@[k] == old_names[kk]);
                            assert(query_backed(
                                self.scripts@,
                                i as int,
                                account,
                                active_filter,
                                old_ids[kk],
                                old_names[kk]@,
                            ));
                            let t = choose|t: int|
                                0 <= t < i && (#[trigger] self.scripts@[t]).id == old_ids[kk]
                                    && self.scripts@[t].name@ == old_names[kk]@ && query_matches(
                                    self.scripts@[t],
                                    account,
                                    active_filter,
                                );
                            assert((#[trigger] self.scripts@[t]).id == ids@[k]);
                        }
                    }
                    assert forall|t: int|
                        0 <= t < i + 1 && query_matches(
                            #[trigger] self.scripts@[t],
                            account,
                            active_filter,
                        ) implies ids@.contains(self.scripts@[t].id) by {
                        if t == i {
                            assert(ids@[p as int] == self.scripts@[t].id);
                        } else {
                            let k = choose|k: int|
                                0 <= k < old_ids.len() && old_ids[k] == self.scripts@[t].id;
                            if k < p {
                                assert(ids@[k] == self.scripts@[t].id);
                            } else {
                                assert(ids@[k + 1] == self.scripts@[t].id);
                            }
                        }
                    }
                }
            }
            i += 1;
        }
        proof {
            assert forall|k: int| 0 <= k < ids@.len() implies query_has(
                self.scripts@,
                account,
                active_filter,
                #[trigger] ids@[k],
            ) by {
                assert(query_backed(
                    self.scripts@,
                    i as int,
                    account,
                    active_filter,
                    ids@[k],
                    names@[k]@,
                ));
            }
            assert forall|k1: int, k2: int|
                0 <= k1 < k2 < ids@.len() implies lex_le(
                self.spec_name_of(#[trigger] ids@[k1]),
                self.spec_name_of(#[trigger] ids@[k2]),
            ) by {
                assert(query_backed(
                    self.scripts@,
                    i as int,
                    account,
                    active_filter,
                    ids@[k1],
                    names@[k1]@,
                ));
                assert(query_backed(
                    self.scripts@,
                    i as int,
                    account,
                    active_filter,
                    ids@[k2],
                    names@[k2]@,
                ));
                let t1 = choose|t: int|
                    0 <= t < i && (#[trigger] self.scripts@[t]).id == ids@[k1]
                        && self.scripts@[t].name@ == names@[k1]@ && query_matches(
                        self.scripts@[t],
                        account,
                        active_filter,
                    );
                let t2 = choose|t: int|
                    0 <= t < i && (#[trigger] self.scripts@[t]).id == ids@[k2]
                        && self.scripts@[t].name@ == names@[k2]@ && query_matches(
                        self.scripts@[t],
                        account,
                        active_filter,
                    );
                lemma_name_of(*self, t1);
                lemma_name_of(*self, t2);
            }
        }
        ids
    }

    /// Read access for the protocol layer: the script with this id, if the
    /// account owns it.
    pub fn get(&self, account: u64, id: u64) -> (r: Option<&Script>)
        ensures
            match r {
                Option::Some(sc) => exists|i: int|
                    0 <= i < self.scripts@.len() && *sc == (#[trigger] self.scripts@[i])
                        && sc.account == account && sc.id == id,
                Option::None => !has_script(self.scripts@, account, id),
            },
    {
        match self.find_by_id(account, id) {
            Some(i) => {
                let sc = &self.scripts[i];
                proof {
                    assert(*sc == self.scripts@[i as int]);
                }
                Some(sc)
            },
            None => None,
        }
    }

    /// A destroyed script is gone from every later query: no record with its
    /// id remains.
    pub proof fn lemma_destroyed_gone(self, s_old: Seq<Script>, i: int, id: u64)
        requires
            unique_ids(s_old),
            0 <= i < s_old.len(),
            s_old[i].id == id,
            self.scripts@ == s_old.remove(i),
        ensures
            forall|j: int| 0 <= j < self.scripts@.len() ==> self.scripts@[j].id != id,
    {
        assert forall|j: int| 0 <= j < self.scripts@.len() implies self.scripts@[j].id != id by {
            if j < i {
                assert(s_old.remove(i)[j] == s_old[j]);
            } else {
                assert(s_old.remove(i)[j] == s_old[j + 1]);
            }
        }
    }
}

/// Activation keeps every field but the active flags, and leaves the target
/// the account's only active script.
pub proof fn lemma_activate_shape(s: Seq<Script>, account: u64, id: u64)
    ensures
        activate_effect(s, account, id).len() == s.len(),
        forall|i: int|
            0 <= i < s.len() ==> {
                let sc = #[trigger] activate_effect(s, account, id)[i];
                &&& sc.id == s[i].id
                &&& sc.account == s[i].account
                &&& sc.name == s[i].name
                &&& sc.source == s[i].source
                &&& sc.compiled == s[i].compiled
                &&& sc.active == if s[i].account == account {
                    s[i].id == id
                } else {
                    s[i].active
                }
            },
{
    assert forall|i: int| 0 <= i < s.len() implies {
        let sc = #[trigger] activate_effect(s, account, id)[i];
        &&& sc.id == s[i].id
        &&& sc.account == s[i].account
        &&& sc.name == s[i].name
        &&& sc.source == s[i].source
        &&& sc.compiled == s[i].compiled
        &&& sc.active == if s[i].account == account {
            s[i].id == id
        } else {
            s[i].active
        }
    } by {
        assert(activate_effect(s, account, id)[i] == set_active_one(s[i], account, id));
    }
}

proof fn lemma_activate_preserves_wf(s: Seq<Script>, account: u64, id: u64, next_id: u64)
    requires
        unique_ids(s),
        unique_names(s),
        unique_active(s),
        forall|i: int| 0 <= i < s.len() ==> s[i].id < next_id,
    ensures
        unique_ids(activate_effect(s, account, id)),
        unique_names(activate_effect(s, account, id)),
        unique_active(activate_effect(s, account, id)),
        forall|i: int|
            0 <= i < activate_effect(s, account, id).len() ==> activate_effect(s, account, id)[i].id
                < next_id,
{
    lemma_activate_shape(s, account, id);
    let e = activate_effect(s, account, id);
    assert forall|i: int, j: int|
        0 <= i < j < e.len() && e[i].account == e[j].account implies !(e[i].active
        && e[j].active) by {
        if e[i].active && e[j].active {
            if s[i].account == account {
                assert(s[i].id == id && s[j].id == id);
            } else {
                assert(s[i].active && s[j].active && s[i].account == s[j].account);
            }
        }
    }
}

proof fn lemma_deactivate_preserves_wf(s: Seq<Script>, account: u64, next_id: u64)
    requires
        unique_ids(s),
        unique_names(s),
        unique_active(s),
        forall|i: int| 0 <= i < s.len() ==> s[i].id < next_id,
    ensures
        unique_ids(deactivate_effect(s, account)),
        unique_names(deactivate_effect(s, account)),
        unique_active(deactivate_effect(s, account)),
        forall|i: int|
            0 <= i < deactivate_effect(s, account).len() ==> deactivate_effect(s, account)[i].id
                < next_id,
{
    let e = deactivate_effect(s, account);
    assert(forall|i: int| 0 <= i < s.len() ==> e[i] == clear_active_one(s[i], account));
    assert forall|i: int, j: int|
        0 <= i < j < e.len() && e[i].account == e[j].account implies !(e[i].active
        && e[j].active) by {
        if e[i].active && e[j].active {
            assert(s[i].active && s[j].active && s[i].account == s[j].account);
        }
    }
}

proof fn lemma_remove_preserves_wf(s: Seq<Script>, r: int, next_id: u64)
    requires
        unique_ids(s),
        unique_names(s),
        unique_active(s),
        forall|i: int| 0 <= i < s.len() ==> s[i].id < next_id,
        0 <= r < s.len(),
    ensures
        unique_ids(s.remove(r)),
        unique_names(s.remove(r)),
        unique_active(s.remove(r)),
        forall|i: int| 0 <= i < s.remove(r).len() ==> s.remove(r)[i].id < next_id,
{
    let e = s.remove(r);
    assert forall|i: int| 0 <= i < e.len() implies #[trigger] e[i] == s[if i < r {
        i
    } else {
        i + 1
    }] by {}
}


/// Under unique ids, the name a query order speaks of is the script's own.
proof fn lemma_name_of(s: ScriptStore, i: int)
    requires
        unique_ids(s.scripts@),
        0 <= i < s.scripts@.len(),
    ensures
        s.spec_name_of(s.scripts@[i].id) == s.scripts@[i].name@,
{
    let id = s.scripts@[i].id;
    assert(exists|t: int| 0 <= t < s.scripts@.len() && s.scripts@[t].id == id);
    let t = choose|t: int| 0 <= t < s.scripts@.len() && s.scripts@[t].id == id;
    if t != i {
        assert(s.scripts@[t].id != s.scripts@[i].id);
    }
}

/// Activating a script twice in a row leaves exactly that script active and
/// no other: the second activation changes nothing.
pub proof fn lemma_activate_idempotent(s: Seq<Script>, account: u64, id: u64)
    ensures
        activate_effect(activate_effect(s, account, id), account, id) == activate_effect(
            s,
            account,
            id,
        ),
{
    let once = activate_effect(s, account, id);
    let twice = activate_effect(once, account, id);
    assert forall|i: int| 0 <= i < s.len() implies twice[i] == once[i] by {
        assert(once[i] == set_active_one(s[i], account, id));
        assert(twice[i] == set_active_one(once[i], account, id));
    }
    assert(twice =~= once);
}

/// Deactivating every script of an account is idempotent.
pub proof fn lemma_deactivate_idempotent(s: Seq<Script>, account: u64)
    ensures
        deactivate_effect(deactivate_effect(s, account), account) == deactivate_effect(s, account),
{
    let once = deactivate_effect(s, account);
    let twice = deactivate_effect(once, account);
    assert forall|i: int| 0 <= i < s.len() implies twice[i] == once[i] by {
        assert(once[i] == clear_active_one(s[i], account));
        assert(twice[i] == clear_active_one(once[i], account));
    }
    assert(twice =~= once);
}

} // verus!
