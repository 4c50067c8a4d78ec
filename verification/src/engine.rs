//! The engine: the per-account script store, the mailbox store and the
//! duplicate suppression cache behind one interface — script management
//! (validate, create, activate, deactivate, destroy, query) and message
//! delivery.

use vstd::prelude::*;

use crate::ast::{Action, ActionV, CompiledScript, actions_view};
use crate::bytes::{bytes_eq_ignore_case, copy_bytes, eq_ignore_case};
use crate::compiler::{block_view, compile, spec_compile, InstrV};
use crate::dup::DuplicateCache;
use crate::errors::{DeliverError, StoreError};
use crate::interp::{
    env_matches, eval_block, headers_view, recipients_view, run_block, state_of, EvalEnv,
    EvalState, MessageCtx,
};
use crate::mailbox::MailboxStore;
use crate::pipeline::{deep_view, execute_actions, executed_rel, DeliveryOutcome};
use crate::store::{activate_effect, has_script, name_taken, Script, ScriptStore};

verus! {

/// The header a message's duplicate-suppression fingerprint is taken from.
pub open spec fn msgid_name() -> Seq<u8> {
    seq![109u8, 101u8, 115u8, 115u8, 97u8, 103u8, 101u8, 45u8, 105u8, 100u8]
}

/// The value of the first `Message-ID` header (name compared up to ASCII
/// case), scanning from `i`; empty when the message has none.
pub open spec fn fp_from(h: Seq<(Seq<u8>, Seq<u8>)>, i: int) -> Seq<u8>
    decreases h.len() - i,
{
    if i < 0 || i >= h.len() {
        Seq::empty()
    } else if eq_ignore_case(h[i].0, msgid_name()) {
        h[i].1
    } else {
        fp_from(h, i + 1)
    }
}

/// The message's duplicate-suppression fingerprint.
pub open spec fn fingerprint_of(h: Seq<(Seq<u8>, Seq<u8>)>) -> Seq<u8> {
    fp_from(h, 0)
}

/// The compiled form of the account's active script, if any: the first —
/// under the store's invariant, the only — active record of the account.
pub open spec fn active_from(s: Seq<Script>, account: u64, i: int) -> Option<CompiledScript>
    decreases s.len() - i,
{
    if i < 0 || i >= s.len() {
        Option::None
    } else if s[i].account == account && s[i].active {
        Option::Some(s[i].compiled)
    } else {
        active_from(s, account, i + 1)
    }
}

/// The account's active script, if any.
pub open spec fn active_of(s: Seq<Script>, account: u64) -> Option<CompiledScript> {
    active_from(s, account, 0)
}

/// The names of the account's scripts, in store order: what an `include`
/// or a compilation may refer to.
pub open spec fn visible_names(s: Seq<Script>, account: u64) -> Seq<Seq<u8>>
    decreases s.len(),
{
    if s.len() == 0 {
        Seq::empty()
    } else if s.last().account == account {
        visible_names(s.drop_last(), account).push(s.last().name@)
    } else {
        visible_names(s.drop_last(), account)
    }
}

/// The whole mail-filtering engine.
#[derive(Debug)]
pub struct Engine {
    pub store: ScriptStore,
    pub mailboxes: MailboxStore,
    pub cache: DuplicateCache,
    pub default_mailbox: Vec<u8>,
}

fn compute_fingerprint(msg: &MessageCtx) -> (r: Vec<u8>)
    ensures
        r@ == fingerprint_of(headers_view(msg.headers@)),
{
    let needle: Vec<u8> = vec![109u8, 101u8, 115u8, 115u8, 97u8, 103u8, 101u8, 45u8, 105u8, 100u8];
    proof {
        assert(needle@ =~= msgid_name());
    }
    let ghost h = headers_view(msg.headers@);
    let mut i: usize = 0;
    while i < msg.headers.len()
        invariant
            i <= msg.headers@.len(),
            h == headers_view(msg.headers@),
            needle@ == msgid_name(),
            fp_from(h, 0) == fp_from(h, i as int),
        decreases msg.headers@.len() - i,
    {
        let hd = &msg.headers[i];
        proof {
            assert(h[i as int] == (hd.name@, hd.value@));
        }
        if bytes_eq_ignore_case(&hd.name, &needle) {
            assert(fp_from(h, i as int) == hd.value@);
            return copy_bytes(&hd.value);
        }
        proof {
            assert(fp_from(h, i as int) == fp_from(h, i as int + 1));
        }
        i += 1;
    }
    proof {
        assert(fp_from(h, i as int) =~= Seq::<u8>::empty());
    }
    Vec::new()
}

fn find_active(store: &ScriptStore, account: u64) -> (r: Option<usize>)
    ensures
        match r {
            Option::Some(i) => i < store.scripts@.len() && active_of(store.scripts@, account)
                == Option::Some(store.scripts@[i as int].compiled),
            Option::None => active_of(store.scripts@, account) == Option::<CompiledScript>::None,
        },
{
    let mut i: usize = 0;
    while i < store.scripts.len()
        invariant
            i <= store.scripts@.len(),
            active_from(store.scripts@, account, 0) == active_from(
                store.scripts@,
                account,
                i as int,
            ),
        decreases store.scripts@.len() - i,
    {
        let sc = &store.scripts[i];
        if sc.account == account && sc.active {
            proof {
                assert(active_from(store.scripts@, account, i as int) == Option::Some(
                    store.scripts@[i as int].compiled,
                ));
            }
            return Some(i);
        }
        proof {
            assert(active_from(store.scripts@, account, i as int) == active_from(
                store.scripts@,
                account,
                i as int + 1,
            ));
        }
        i += 1;
    }
    None
}

fn collect_visible(store: &ScriptStore, account: u64) -> (r: Vec<Vec<u8>>)
    ensures
        deep_view(r@) == visible_names(store.scripts@, account),
{
    let mut out: Vec<Vec<u8>> = Vec::new();
    let mut i: usize = 0;
    while i < store.scripts.len()
        invariant
            i <= store.scripts@.len(),
            deep_view(out@) == visible_names(store.scripts@.take(i as int), account),
        decreases store.scripts@.len() - i,
    {
        let ghost pre = store.scripts@.take(i as int);
        let ghost post = store.scripts@.take(i as int + 1);
        proof {
            assert(post.drop_last() =~= pre);
            assert(post.last() == store.scripts@[i as int]);
        }
        let sc = &store.scripts[i];
        if sc.account == account {
            out.push(copy_bytes(&sc.name));
            proof {
                assert(deep_view(out@) =~= visible_names(pre, account).push(sc.name@));
            }
        }
        i += 1;
    }
    proof {
        assert(store.scripts@.take(store.scripts@.len() as int) =~= store.scripts@);
    }
    out
}

impl Engine {
    /// The engine's invariant: every component well formed.
    pub open spec fn wf(self) -> bool {
        &&& self.store.wf()
        &&& self.mailboxes.wf()
        &&& self.cache.wf()
    }

    /// The ghost environment a delivery for this account runs in.
    pub open spec fn deliver_env(self, account: u64, msg: MessageCtx, now: u64) -> EvalEnv {
        EvalEnv {
            scripts: self.store.scripts@,
            account,
            sender: msg.sender@,
            recipients: recipients_view(msg.recipients@),
            headers: headers_view(msg.headers@),
            fingerprint: fingerprint_of(headers_view(msg.headers@)),
            ttl: self.cache.ttl,
            now,
        }
    }

    /// A fresh engine: no scripts, no mailboxes, an empty cache with the
    /// given duplicate-suppression TTL, and `INBOX` as the default mailbox.
    pub fn new(ttl: u64) -> (e: Engine)
        ensures
            e.wf(),
            e.store.scripts@.len() == 0,
            e.store.next_id == 0,
            e.mailboxes.mailboxes@.len() == 0,
            e.mailboxes.messages@.len() == 0,
            e.cache.ttl == ttl,
            e.cache.view_map() == Map::<(u64, Seq<u8>), u64>::empty(),
            e.default_mailbox@ == seq![73u8, 78u8, 66u8, 79u8, 88u8],
    {
        let default_mailbox: Vec<u8> = vec![73u8, 78u8, 66u8, 79u8, 88u8];
        proof {
            assert(default_mailbox@ =~= seq![73u8, 78u8, 66u8, 79u8, 88u8]);
        }
        Engine {
            store: ScriptStore::new(),
            mailboxes: MailboxStore::new(),
            cache: DuplicateCache::new(ttl),
            default_mailbox,
        }
    }

    /// Compile-only check of a script source against the account's visible
    /// script names; nothing is persisted.
    pub fn validate(&self, account: u64, source: &Vec<u8>) -> (r: Result<
        (),
        crate::errors::CompileFault,
    >)
        ensures
            match r {
                Result::Ok(()) => spec_compile(
                    source@,
                    visible_names(self.store.scripts@, account),
                ) is Ok,
                Result::Err(f) => spec_compile(source@, visible_names(self.store.scripts@, account))
                    == Result::<Seq<InstrV>, crate::errors::CompileFault>::Err(f),
            },
    {
        let visible = collect_visible(&self.store, account);
        match compile(source, &visible) {
            Ok(_) => Ok(()),
            Err(f) => Err(f),
        }
    }

    /// Compiles and stores a script under a fresh id; on `activate`, the
    /// new script atomically becomes the account's only active one.  On a
    /// compile fault or a name collision nothing is persisted.
    pub fn create(
        &mut self,
        account: u64,
        name: Vec<u8>,
        source: Vec<u8>,
        activate: bool,
    ) -> (r: Result<u64, StoreError>)
        requires
            old(self).wf(),
            old(self).store.next_id < u64::MAX,
        ensures
            final(self).wf(),
            final(self).mailboxes == old(self).mailboxes,
            final(self).cache == old(self).cache,
            final(self).default_mailbox == old(self).default_mailbox,
            match r {
                Result::Ok(id) => {
                    &&& id == old(self).store.next_id
                    &&& final(self).store.next_id == old(self).store.next_id + 1
                    &&& !name_taken(old(self).store.scripts@, account, name@)
                    &&& spec_compile(
                        source@,
                        visible_names(old(self).store.scripts@, account),
                    ) is Ok
                    &&& exists|c: CompiledScript|
                        {
                            let added = Script {
                                id: old(self).store.next_id,
                                account,
                                name,
                                source,
                                compiled: c,
                                active: false,
                            };
                            &&& spec_compile(
                                source@,
                                visible_names(old(self).store.scripts@, account),
                            ) == Result::<Seq<InstrV>, crate::errors::CompileFault>::Ok(
                                #[trigger] block_view(c.instrs@),
                            )
                            &&& final(self).store.scripts@ == if activate {
                                activate_effect(
                                    old(self).store.scripts@.push(added),
                                    account,
                                    id,
                                )
                            } else {
                                old(self).store.scripts@.push(added)
                            }
                        }
                },
                Result::Err(e) => *final(self) == *old(self) && match e {
                    StoreError::InvalidScript(f) => spec_compile(
                        source@,
                        visible_names(old(self).store.scripts@, account),
                    ) == Result::<Seq<InstrV>, crate::errors::CompileFault>::Err(f),
                    StoreError::ScriptNameInUse => name_taken(
                        old(self).store.scripts@,
                        account,
                        name@,
                    ),
                    _ => false,
                },
            },
    {
        let visible = collect_visible(&self.store, account);
        match compile(&source, &visible) {
            Err(f) => Err(StoreError::InvalidScript(f)),
            Ok(compiled) => {
                let ghost c = compiled;
                match self.store.insert_script(account, name, source, compiled, activate) {
                    Ok(id) => {
                        proof {
                            assert(spec_compile(
                                source@,
                                visible_names(old(self).store.scripts@, account),
                            ) == Result::<Seq<InstrV>, crate::errors::CompileFault>::Ok(
                                block_view(c.instrs@),
                            ));
                        }
                        Ok(id)
                    },
                    Err(e) => Err(e),
                }
            },
        }
    }

    /// Makes `id` the account's active script in one atomic swap.
    pub fn activate(&mut self, account: u64, id: u64) -> (r: Result<(), StoreError>)
        requires
            old(self).wf(),
        ensures
            final(self).wf(),
            final(self).mailboxes == old(self).mailboxes,
            final(self).cache == old(self).cache,
            final(self).default_mailbox == old(self).default_mailbox,
            final(self).store.next_id == old(self).store.next_id,
            match r {
                Result::Ok(()) => has_script(old(self).store.scripts@, account, id)
                    && final(self).store.scripts@ == activate_effect(
                    old(self).store.scripts@,
                    account,
                    id,
                ),
                Result::Err(e) => e == StoreError::ScriptNotFound && !has_script(
                    old(self).store.scripts@,
                    account,
                    id,
                ) && *final(self) == *old(self),
            },
    {
        self.store.activate(account, id)
    }

    /// Clears the active flag on every script of the account; idempotent.
    pub fn deactivate_all(&mut self, account: u64)
        requires
            old(self).wf(),
        ensures
            final(self).wf(),
            final(self).mailboxes == old(self).mailboxes,
            final(self).cache == old(self).cache,
            final(self).default_mailbox == old(self).default_mailbox,
            final(self).store.next_id == old(self).store.next_id,
            final(self).store.scripts@ == crate::store::deactivate_effect(
                old(self).store.scripts@,
                account,
            ),
    {
        self.store.deactivate_all(account)
    }

    /// Destroys the script — unless it is active, which is refused.
    pub fn destroy(&mut self, account: u64, id: u64) -> (r: Result<(), StoreError>)
        requires
            old(self).wf(),
        ensures
            final(self).wf(),
            final(self).mailboxes == old(self).mailboxes,
            final(self).cache == old(self).cache,
            final(self).default_mailbox == old(self).default_mailbox,
            final(self).store.next_id == old(self).store.next_id,
            match r {
                Result::Ok(()) => exists|i: int|
                    {
                        &&& 0 <= i < old(self).store.scripts@.len()
                        &&& old(self).store.scripts@[i].account == account
                        &&& old(self).store.scripts@[i].id == id
                        &&& !old(self).store.scripts@[i].active
                        &&& final(self).store.scripts@ == old(self).store.scripts@.remove(i)
                    },
                Result::Err(e) => *final(self) == *old(self) && match e {
                    StoreError::ScriptIsActive => exists|i: int|
                        {
                            &&& 0 <= i < old(self).store.scripts@.len()
                            &&& old(self).store.scripts@[i].account == account
                            &&& old(self).store.scripts@[i].id == id
                            &&& old(self).store.scripts@[i].active
                        },
                    StoreError::ScriptNotFound => !has_script(
                        old(self).store.scripts@,
                        account,
                        id,
                    ),
                    _ => false,
                },
            },
    {
        self.store.destroy(account, id)
    }

    /// Delivers one message for the account: the active script is resolved
    /// and evaluated, and the resulting actions are applied to the mailbox
    /// store.  With no active script the message simply goes to the default
    /// mailbox.  An `include` fault fails the delivery closed: nothing is
    /// stored.
    pub fn deliver(&mut self, account: u64, msg: &MessageCtx, now: u64) -> (r: Result<
        (Vec<Action>, DeliveryOutcome),
        DeliverError,
    >)
        requires
            old(self).wf(),
        ensures
            final(self).wf(),
            final(self).store == old(self).store,
            final(self).default_mailbox == old(self).default_mailbox,
            final(self).cache.ttl == old(self).cache.ttl,
            match active_of(old(self).store.scripts@, account) {
                Option::None => {
                    &&& r is Ok
                    &&& final(self).cache == old(self).cache
                    &&& actions_view(r->Ok_0.0@) == seq![ActionV::Keep]
                    &&& executed_rel(
                        old(self).mailboxes,
                        final(self).mailboxes,
                        seq![ActionV::Keep],
                        old(self).default_mailbox@,
                        msg.raw@,
                        r->Ok_0.1,
                    )
                },
                Option::Some(c) => {
                    let env = old(self).deliver_env(account, *msg, now);
                    let init = EvalState {
                        actions: Seq::empty(),
                        stopped: false,
                        cache: old(self).cache.view_map(),
                    };
                    let fuel = old(self).store.scripts@.len() as nat;
                    match eval_block(env, init, c.instrs@, 0, fuel) {
                        Result::Err(e) => r == Result::<
                            (Vec<Action>, DeliveryOutcome),
                            DeliverError,
                        >::Err(e) && final(self).mailboxes == old(self).mailboxes,
                        Result::Ok(st) => {
                            &&& r is Ok
                            &&& actions_view(r->Ok_0.0@) == st.actions
                            &&& final(self).cache.view_map() == st.cache
                            &&& executed_rel(
                                old(self).mailboxes,
                                final(self).mailboxes,
                                st.actions,
                                old(self).default_mailbox@,
                                msg.raw@,
                                r->Ok_0.1,
                            )
                        },
                    }
                },
            },
    {
        let fp = compute_fingerprint(msg);
        match find_active(&self.store, account) {
            None => {
                let mut actions: Vec<Action> = Vec::new();
                actions.push(Action::Keep);
                proof {
                    assert(actions_view(actions@) =~= seq![ActionV::Keep]);
                }
                let outcome = execute_actions(
                    &actions,
                    &mut self.mailboxes,
                    &self.default_mailbox,
                    &msg.raw,
                );
                Ok((actions, outcome))
            },
            Some(idx) => {
                let ghost env = self.deliver_env(account, *msg, now);
                let ghost init = EvalState {
                    actions: Seq::empty(),
                    stopped: false,
                    cache: self.cache.view_map(),
                };
                let fuel = self.store.scripts.len() as u64;
                let mut actions: Vec<Action> = Vec::new();
                let mut stopped = false;
                proof {
                    assert(env_matches(env, &self.store, account, msg, fp@, now, self.cache.ttl));
                    assert(actions_view(actions@) =~= Seq::<ActionV>::empty());
                    assert(state_of(actions@, stopped, self.cache) =~= init);
                }
                let result = run_block(
                    &self.store,
                    account,
                    msg,
                    &fp,
                    now,
                    &mut self.cache,
                    &mut actions,
                    &mut stopped,
                    &self.store.scripts[idx].compiled.instrs,
                    fuel,
                    Ghost(env),
                );
                match result {
                    Err(e) => Err(e),
                    Ok(()) => {
                        let outcome = execute_actions(
                            &actions,
                            &mut self.mailboxes,
                            &self.default_mailbox,
                            &msg.raw,
                        );
                        Ok((actions, outcome))
                    },
                }
            },
        }
    }
}

} // verus!
