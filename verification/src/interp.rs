//! The interpreter: executes a compiled script against one message,
//! walking control flow and producing the ordered action list, consulting
//! the duplicate suppression cache, and splicing in included scripts.
//!
//! The meaning of a script is given by the spec-level evaluator
//! [`eval_block`]; the executable interpreter is proved to return exactly
//! what the evaluator says.

use vstd::prelude::*;

use crate::ast::{Action, ActionV, CompiledScript, EnvelopePart, Instr, Test, actions_view};
use crate::bytes::{bytes_eq, bytes_eq_ignore_case, copy_bytes, eq_ignore_case};
use crate::dup::{spec_check_effect, spec_has_live, DuplicateCache};
use crate::errors::DeliverError;
use crate::store::{Script, ScriptStore};

verus! {

/// One message header, split into name and value.
#[derive(Debug)]
pub struct Header {
    pub name: Vec<u8>,
    pub value: Vec<u8>,
}

/// The context a script is evaluated against: envelope, raw message and
/// parsed headers.  Created per incoming message.
#[derive(Debug)]
pub struct MessageCtx {
    pub sender: Vec<u8>,
    pub recipients: Vec<Vec<u8>>,
    pub headers: Vec<Header>,
    pub raw: Vec<u8>,
}

/// The mathematical value of a header list.
pub open spec fn headers_view(h: Seq<Header>) -> Seq<(Seq<u8>, Seq<u8>)> {
    h.map_values(|hd: Header| (hd.name@, hd.value@))
}

/// The mathematical value of a recipient list.
pub open spec fn recipients_view(r: Seq<Vec<u8>>) -> Seq<Seq<u8>> {
    r.map_values(|v: Vec<u8>| v@)
}

/// Everything evaluation reads but never writes: the account's scripts
/// (for `include`), the message, the fingerprint, the clock and the TTL.
pub struct EvalEnv {
    pub scripts: Seq<Script>,
    pub account: u64,
    pub sender: Seq<u8>,
    pub recipients: Seq<Seq<u8>>,
    pub headers: Seq<(Seq<u8>, Seq<u8>)>,
    pub fingerprint: Seq<u8>,
    pub ttl: u64,
    pub now: u64,
}

/// What evaluation accumulates: the ordered action list, the stop flag and
/// the duplicate-cache contents.
#[verifier::ext_equal]
pub struct EvalState {
    pub actions: Seq<ActionV>,
    pub stopped: bool,
    pub cache: Map<(u64, Seq<u8>), u64>,
}

/// Some header with this name (up to ASCII case) has exactly this value.
pub open spec fn header_match(env: EvalEnv, name: Seq<u8>, value: Seq<u8>) -> bool {
    exists|i: int|
        0 <= i < env.headers.len() && eq_ignore_case(#[trigger] env.headers[i].0, name)
            && env.headers[i].1 == value
}

/// The envelope part equals the address; for recipients, any of them.
pub open spec fn envelope_match(env: EvalEnv, part: EnvelopePart, addr: Seq<u8>) -> bool {
    match part {
        EnvelopePart::Sender => env.sender == addr,
        EnvelopePart::Recipient => exists|i: int|
            0 <= i < env.recipients.len() && #[trigger] env.recipients[i] == addr,
    }
}

/// What one predicate evaluates to, and what it leaves in the cache.  Only
/// the duplicate check writes: a fresh fingerprint is recorded, a live one
/// suppresses (the predicate is true on a duplicate).
pub open spec fn eval_test(env: EvalEnv, cache: Map<(u64, Seq<u8>), u64>, t: Test) -> (
    bool,
    Map<(u64, Seq<u8>), u64>,
) {
    match t {
        Test::True => (true, cache),
        Test::False => (false, cache),
        Test::Header(name, value) => (header_match(env, name@, value@), cache),
        Test::Envelope(part, addr) => (envelope_match(env, part, addr@), cache),
        Test::Duplicate => (
            spec_has_live(cache, env.ttl, env.account, env.fingerprint, env.now),
            spec_check_effect(cache, env.ttl, env.account, env.fingerprint, env.now),
        ),
    }
}

/// The first script of the account with this name, scanning from `i`.
/// Activation does not matter here: an inactive script can be included.
pub open spec fn lookup_from(s: Seq<Script>, account: u64, name: Seq<u8>, i: int) -> Option<
    CompiledScript,
>
    decreases s.len() - i,
{
    if i < 0 || i >= s.len() {
        Option::None
    } else if s[i].account == account && s[i].name@ == name {
        Option::Some(s[i].compiled)
    } else {
        lookup_from(s, account, name, i + 1)
    }
}

/// The account's script with this name, if any.
pub open spec fn lookup_script(s: Seq<Script>, account: u64, name: Seq<u8>) -> Option<
    CompiledScript,
> {
    lookup_from(s, account, name, 0)
}

/// What one instruction does to the evaluation state.
pub open spec fn eval_instr(env: EvalEnv, st: EvalState, instr: Instr, fuel: nat) -> Result<
    EvalState,
    DeliverError,
>
    decreases fuel, instr, 0int,
{
    match instr {
        Instr::If(t, tb, eb) => {
            let c = eval_test(env, st.cache, t);
            let st2 = EvalState { cache: c.1, ..st };
            if c.0 {
                eval_block(env, st2, tb@, 0, fuel)
            } else {
                eval_block(env, st2, eb@, 0, fuel)
            }
        },
        Instr::FileInto(p) => Result::Ok(
            EvalState { actions: st.actions.push(ActionV::FileInto(p@)), ..st },
        ),
        Instr::AddKeyword(k) => Result::Ok(
            EvalState { actions: st.actions.push(ActionV::AddKeyword(k@)), ..st },
        ),
        Instr::Keep => Result::Ok(EvalState { actions: st.actions.push(ActionV::Keep), ..st }),
        Instr::Discard => Result::Ok(
            EvalState { actions: st.actions.push(ActionV::Discard), ..st },
        ),
        Instr::Reject(r) => Result::Ok(
            EvalState { actions: st.actions.push(ActionV::Reject(r@)), ..st },
        ),
        Instr::Redirect(a) => Result::Ok(
            EvalState { actions: st.actions.push(ActionV::Redirect(a@)), ..st },
        ),
        Instr::Notify(t, m) => Result::Ok(
            EvalState { actions: st.actions.push(ActionV::Notify(t@, m@)), ..st },
        ),
        Instr::Include(n) => match lookup_script(env.scripts, env.account, n@) {
            Option::None => Result::Err(DeliverError::IncludeNotFound),
            Option::Some(cs) => {
                if fuel == 0 {
                    Result::Err(DeliverError::IncludeLoop)
                } else {
                    eval_block(env, st, cs.instrs@, 0, (fuel - 1) as nat)
                }
            },
        },
        Instr::Stop => Result::Ok(
            EvalState { actions: st.actions.push(ActionV::Stop), stopped: true, ..st },
        ),
    }
}

/// What a block does from instruction `i` on.  A `stop` executed anywhere
/// — including inside an `include`d script — halts every enclosing block.
pub open spec fn eval_block(
    env: EvalEnv,
    st: EvalState,
    instrs: Seq<Instr>,
    i: int,
    fuel: nat,
) -> Result<EvalState, DeliverError>
    decreases fuel, instrs, instrs.len() - i + 1,
{
    if i < 0 || i >= instrs.len() {
        Result::Ok(st)
    } else if st.stopped {
        Result::Ok(st)
    } else {
        match eval_instr(env, st, instrs[i], fuel) {
            Result::Err(e) => Result::Err(e),
            Result::Ok(st2) => eval_block(env, st2, instrs, i + 1, fuel),
        }
    }
}

/// The evaluation state an exec interpreter run stands at.
pub open spec fn state_of(actions: Seq<Action>, stopped: bool, cache: DuplicateCache) -> EvalState {
    EvalState { actions: actions_view(actions), stopped, cache: cache.view_map() }
}

/// The ghost environment agrees with the exec values the interpreter holds.
pub open spec fn env_matches(
    env: EvalEnv,
    store: &ScriptStore,
    account: u64,
    msg: &MessageCtx,
    fp: Seq<u8>,
    now: u64,
    ttl: u64,
) -> bool {
    &&& env.scripts == store.scripts@
    &&& env.account == account
    &&& env.sender == msg.sender@
    &&& env.recipients == recipients_view(msg.recipients@)
    &&& env.headers == headers_view(msg.headers@)
    &&& env.fingerprint == fp
    &&& env.ttl == ttl
    &&& env.now == now
}

fn run_test(
    t: &Test,
    account: u64,
    msg: &MessageCtx,
    fp: &Vec<u8>,
    now: u64,
    cache: &mut DuplicateCache,
    Ghost(env): Ghost<EvalEnv>,
) -> (r: bool)
    requires
        old(cache).wf(),
        env.account == account,
        env.sender == msg.sender@,
        env.recipients == recipients_view(msg.recipients@),
        env.headers == headers_view(msg.headers@),
        env.fingerprint == fp@,
        env.ttl == old(cache).ttl,
        env.now == now,
    ensures
        final(cache).wf(),
        final(cache).ttl == old(cache).ttl,
        (r, final(cache).view_map()) == eval_test(env, old(cache).view_map(), *t),
{
    match t {
        Test::True => true,
        Test::False => false,
        Test::Header(name, value) => {
            let mut i: usize = 0;
            while i < msg.headers.len()
                invariant
                    i <= msg.headers@.len(),
                    *cache == *old(cache),
                    old(cache).wf(),
                    *t == Test::Header(*name, *value),
                    env.headers == headers_view(msg.headers@),
                    forall|k: int|
                        0 <= k < i ==> !(eq_ignore_case(#[trigger] env.headers[k].0, name@)
                            && env.headers[k].1 == value@),
                decreases msg.headers@.len() - i,
            {
                let hd = &msg.headers[i];
                assert(env.headers[i as int] == (hd.name@, hd.value@));
                if bytes_eq_ignore_case(&hd.name, name) && bytes_eq(&hd.value, value) {
                    assert(eq_ignore_case(env.headers[i as int].0, name@) && env.headers[i as int].1
                        == value@);
                    assert(header_match(env, name@, value@));
                    return true;
                }
                i += 1;
            }
            assert(!header_match(env, name@, value@));
            false
        },
        Test::Envelope(part, addr) => match *part {
            EnvelopePart::Sender => bytes_eq(&msg.sender, addr),
            EnvelopePart::Recipient => {
                let mut i: usize = 0;
                while i < msg.recipients.len()
                    invariant
                        i <= msg.recipients@.len(),
                        *cache == *old(cache),
                        old(cache).wf(),
                        *t == Test::Envelope(EnvelopePart::Recipient, *addr),
                        env.recipients == recipients_view(msg.recipients@),
                        forall|k: int| 0 <= k < i ==> #[trigger] env.recipients[k] != addr@,
                    decreases msg.recipients@.len() - i,
                {
                    assert(env.recipients[i as int] == msg.recipients@[i as int]@);
                    if bytes_eq(&msg.recipients[i], addr) {
                        assert(env.recipients[i as int] == addr@);
                        assert(envelope_match(env, EnvelopePart::Recipient, addr@));
                        return true;
                    }
                    i += 1;
                }
                assert(!envelope_match(env, *part, addr@));
                false
            },
        },
        Test::Duplicate => {
            let key = copy_bytes(fp);
            cache.check_and_set(account, key, now)
        },
    }
}

fn lookup_exec(store: &ScriptStore, account: u64, name: &Vec<u8>) -> (r: Option<usize>)
    ensures
        match r {
            Option::Some(i) => i < store.scripts@.len() && lookup_script(
                store.scripts@,
                account,
                name@,
            ) == Option::Some(store.scripts@[i as int].compiled),
            Option::None => lookup_script(store.scripts@, account, name@) == Option::<
                CompiledScript,
            >::None,
        },
{
    let mut i: usize = 0;
    while i < store.scripts.len()
        invariant
            i <= store.scripts@.len(),
            lookup_from(store.scripts@, account, name@, 0) == lookup_from(
                store.scripts@,
                account,
                name@,
                i as int,
            ),
        decreases store.scripts@.len() - i,
    {
        let sc = &store.scripts[i];
        if sc.account == account && bytes_eq(&sc.name, name) {
            proof {
                assert(store.scripts@[i as int].account == account && store.scripts@[i as int].name@
                    == name@);
                assert(lookup_from(store.scripts@, account, name@, i as int) == Option::Some(
                    store.scripts@[i as int].compiled,
                ));
                assert(lookup_script(store.scripts@, account, name@) == Option::Some(
                    store.scripts@[i as int].compiled,
                ));
            }
            return Some(i);
        }
        assert(lookup_from(store.scripts@, account, name@, i as int) == lookup_from(
            store.scripts@,
            account,
            name@,
            i as int + 1,
        ));
        i += 1;
    }
    None
}

fn run_instr(
    store: &ScriptStore,
    account: u64,
    msg: &MessageCtx,
    fp: &Vec<u8>,
    now: u64,
    cache: &mut DuplicateCache,
    actions: &mut Vec<Action>,
    stopped: &mut bool,
    instr: &Instr,
    fuel: u64,
    Ghost(env): Ghost<EvalEnv>,
) -> (r: Result<(), DeliverError>)
    requires
        old(cache).wf(),
        env_matches(env, store, account, msg, fp@, now, old(cache).ttl),
    ensures
        final(cache).wf(),
        final(cache).ttl == old(cache).ttl,
        match r {
            Result::Ok(()) => eval_instr(
                env,
                state_of(old(actions)@, *old(stopped), *old(cache)),
                *instr,
                fuel as nat,
            ) == Result::<EvalState, DeliverError>::Ok(
                state_of(final(actions)@, *final(stopped), *final(cache)),
            ),
            Result::Err(e) => eval_instr(
                env,
                state_of(old(actions)@, *old(stopped), *old(cache)),
                *instr,
                fuel as nat,
            ) == Result::<EvalState, DeliverError>::Err(e),
        },
    decreases fuel, instr, 0int,
{
    let ghost st0 = state_of(actions@, *stopped, *cache);
    match instr {
        Instr::If(t, tb, eb) => {
            let c = run_test(t, account, msg, fp, now, cache, Ghost(env));
            let ghost st2 = EvalState { cache: cache.view_map(), ..st0 };
            assert(eval_test(env, st0.cache, *t) == (c, st2.cache));
            if c {
                run_block(store, account, msg, fp, now, cache, actions, stopped, tb, fuel, Ghost(env))
            } else {
                run_block(store, account, msg, fp, now, cache, actions, stopped, eb, fuel, Ghost(env))
            }
        },
        Instr::FileInto(p) => {
            actions.push(Action::FileInto(copy_bytes(p)));
            proof {
                assert(actions_view(actions@) =~= st0.actions.push(ActionV::FileInto(p@)));
            }
            Ok(())
        },
        Instr::AddKeyword(k) => {
            actions.push(Action::AddKeyword(copy_bytes(k)));
            proof {
                assert(actions_view(actions@) =~= st0.actions.push(ActionV::AddKeyword(k@)));
            }
            Ok(())
        },
        Instr::Keep => {
            actions.push(Action::Keep);
            proof {
                assert(actions_view(actions@) =~= st0.actions.push(ActionV::Keep));
            }
            Ok(())
        },
        Instr::Discard => {
            actions.push(Action::Discard);
            proof {
                assert(actions_view(actions@) =~= st0.actions.push(ActionV::Discard));
            }
            Ok(())
        },
        Instr::Reject(reason) => {
            actions.push(Action::Reject(copy_bytes(reason)));
            proof {
                assert(actions_view(actions@) =~= st0.actions.push(ActionV::Reject(reason@)));
            }
            Ok(())
        },
        Instr::Redirect(addr) => {
            actions.push(Action::Redirect(copy_bytes(addr)));
            proof {
                assert(actions_view(actions@) =~= st0.actions.push(ActionV::Redirect(addr@)));
            }
            Ok(())
        },
        Instr::Notify(target, m) => {
            actions.push(Action::Notify(copy_bytes(target), copy_bytes(m)));
            proof {
                assert(actions_view(actions@) =~= st0.actions.push(ActionV::Notify(target@, m@)));
            }
            Ok(())
        },
        Instr::Include(n) => {
            match lookup_exec(store, account, n) {
                None => Err(DeliverError::IncludeNotFound),
                Some(idx) => {
                    if fuel == 0 {
                        Err(DeliverError::IncludeLoop)
                    } else {
                        let target = &store.scripts[idx].compiled.instrs;
                        run_block(
                            store,
                            account,
                            msg,
                            fp,
                            now,
                            cache,
                            actions,
                            stopped,
                            target,
                            fuel - 1,
                            Ghost(env),
                        )
                    }
                },
            }
        },
        Instr::Stop => {
            actions.push(Action::Stop);
            *stopped = true;
            proof {
                assert(actions_view(actions@) =~= st0.actions.push(ActionV::Stop));
            }
            Ok(())
        },
    }
}

/// Runs one block of instructions, threading the action list, the stop
/// flag and the duplicate cache; returns exactly what [`eval_block`] says.
pub(crate) fn run_block(
    store: &ScriptStore,
    account: u64,
    msg: &MessageCtx,
    fp: &Vec<u8>,
    now: u64,
    cache: &mut DuplicateCache,
    actions: &mut Vec<Action>,
    stopped: &mut bool,
    instrs: &Vec<Instr>,
    fuel: u64,
    Ghost(env): Ghost<EvalEnv>,
) -> (r: Result<(), DeliverError>)
    requires
        old(cache).wf(),
        env_matches(env, store, account, msg, fp@, now, old(cache).ttl),
    ensures
        final(cache).wf(),
        final(cache).ttl == old(cache).ttl,
        match r {
            Result::Ok(()) => eval_block(
                env,
                state_of(old(actions)@, *old(stopped), *old(cache)),
                instrs@,
                0,
                fuel as nat,
            ) == Result::<EvalState, DeliverError>::Ok(
                state_of(final(actions)@, *final(stopped), *final(cache)),
            ),
            Result::Err(e) => eval_block(
                env,
                state_of(old(actions)@, *old(stopped), *old(cache)),
                instrs@,
                0,
                fuel as nat,
            ) == Result::<EvalState, DeliverError>::Err(e),
        },
    decreases fuel, instrs@, instrs@.len() + 2,
{
    let ghost st0 = state_of(actions@, *stopped, *cache);
    let n = instrs.len();
    let mut i: usize = 0;
    while i < n
        invariant
            i <= n,
            n == instrs@.len(),
            cache.wf(),
            cache.ttl == old(cache).ttl,
            env_matches(env, store, account, msg, fp@, now, cache.ttl),
            st0 == state_of(old(actions)@, *old(stopped), *old(cache)),
            eval_block(env, st0, instrs@, 0, fuel as nat) == eval_block(
                env,
                state_of(actions@, *stopped, *cache),
                instrs@,
                i as int,
                fuel as nat,
            ),
        decreases n - i,
    {
        if *stopped {
            proof {
                assert(eval_block(
                    env,
                    state_of(actions@, *stopped, *cache),
                    instrs@,
                    i as int,
                    fuel as nat,
                ) == Result::<EvalState, DeliverError>::Ok(state_of(actions@, *stopped, *cache)));
            }
            return Ok(());
        }
        let ghost st_pre = state_of(actions@, *stopped, *cache);
        let r = run_instr(
            store,
            account,
            msg,
            fp,
            now,
            cache,
            actions,
            stopped,
            &instrs[i],
            fuel,
            Ghost(env),
        );
        match r {
            Err(e) => {
                proof {
                    assert(eval_instr(env, st_pre, instrs@[i as int], fuel as nat)
                        == Result::<EvalState, DeliverError>::Err(e));
                    assert(eval_block(env, st_pre, instrs@, i as int, fuel as nat)
                        == Result::<EvalState, DeliverError>::Err(e));
                }
                return Err(e);
            },
            Ok(()) => {
                proof {
                    assert(eval_instr(env, st_pre, instrs@[i as int], fuel as nat)
                        == Result::<EvalState, DeliverError>::Ok(
                        state_of(actions@, *stopped, *cache),
                    ));
                    assert(eval_block(env, st_pre, instrs@, i as int, fuel as nat) == eval_block(
                        env,
                        state_of(actions@, *stopped, *cache),
                        instrs@,
                        i as int + 1,
                        fuel as nat,
                    ));
                }
            },
        }
        i += 1;
    }
    proof {
        assert(eval_block(
            env,
            state_of(actions@, *stopped, *cache),
            instrs@,
            n as int,
            fuel as nat,
        ) == Result::<EvalState, DeliverError>::Ok(state_of(actions@, *stopped, *cache)));
    }
    Ok(())
}

/// A script that exists for the account — active or not — can be included:
/// its `include` never fails and evaluates exactly the included script's
/// instructions.  Activation only gates which script is the entry point.
pub proof fn lemma_include_runs_inactive(env: EvalEnv, st: EvalState, name: Seq<u8>, fuel: nat)
    requires
        lookup_script(env.scripts, env.account, name) is Some,
        fuel > 0,
    ensures
        forall|n: Vec<u8>|
            n@ == name ==> eval_instr(env, st, Instr::Include(n), fuel) == eval_block(
                env,
                st,
                lookup_script(env.scripts, env.account, name)->Some_0.instrs@,
                0,
                (fuel - 1) as nat,
            ),
{
}

/// An `include` of a script the account cannot see fails closed: the whole
/// evaluation reports the fault instead of silently continuing.
pub proof fn lemma_include_missing_fails(env: EvalEnv, st: EvalState, name: Seq<u8>, fuel: nat)
    requires
        lookup_script(env.scripts, env.account, name) is None,
    ensures
        forall|n: Vec<u8>|
            n@ == name ==> eval_instr(env, st, Instr::Include(n), fuel) == Result::<
                EvalState,
                DeliverError,
            >::Err(DeliverError::IncludeNotFound),
{
}

} // verus!
