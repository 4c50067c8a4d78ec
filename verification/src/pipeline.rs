//! The action executor / delivery pipeline: consumes the ordered action
//! list an evaluation produced and applies it to the mailbox store —
//! creating mailbox chains, storing at most one copy of the message with
//! its keywords and memberships, and reporting rejects, redirects and
//! notifications.  A list holding `Discard` or `Reject` never results in
//! local storage.

use vstd::prelude::*;

use crate::ast::{Action, ActionV, actions_view};
use crate::bytes::{bytes_eq, copy_bytes};
use crate::mailbox::{create_chain, MailboxStore, StoredMessage};

verus! {

/// The mathematical value of a list of byte strings.
pub open spec fn deep_view(s: Seq<Vec<u8>>) -> Seq<Seq<u8>> {
    s.map_values(|v: Vec<u8>| v@)
}

/// The mathematical value of a list of byte-string pairs.
pub open spec fn pairs_view(s: Seq<(Vec<u8>, Vec<u8>)>) -> Seq<(Seq<u8>, Seq<u8>)> {
    s.map_values(|p: (Vec<u8>, Vec<u8>)| (p.0@, p.1@))
}

/// The mathematical value of an optional byte string.
pub open spec fn opt_view(o: Option<Vec<u8>>) -> Option<Seq<u8>> {
    match o {
        Option::None => Option::None,
        Option::Some(v) => Option::Some(v@),
    }
}

/// The list holds a `Discard`.
pub open spec fn has_discard(av: Seq<ActionV>) -> bool
    decreases av.len(),
{
    if av.len() == 0 {
        false
    } else {
        has_discard(av.drop_last()) || av.last() is Discard
    }
}

/// The list holds a `Reject`.
pub open spec fn has_reject(av: Seq<ActionV>) -> bool
    decreases av.len(),
{
    if av.len() == 0 {
        false
    } else {
        has_reject(av.drop_last()) || av.last() is Reject
    }
}

/// The list holds a `Keep`.
pub open spec fn has_keep(av: Seq<ActionV>) -> bool
    decreases av.len(),
{
    if av.len() == 0 {
        false
    } else {
        has_keep(av.drop_last()) || av.last() is Keep
    }
}

/// The list holds a `FileInto`.
pub open spec fn has_fileinto(av: Seq<ActionV>) -> bool
    decreases av.len(),
{
    if av.len() == 0 {
        false
    } else {
        has_fileinto(av.drop_last()) || av.last() is FileInto
    }
}

/// The list holds a `Redirect`.
pub open spec fn has_redirect(av: Seq<ActionV>) -> bool
    decreases av.len(),
{
    if av.len() == 0 {
        false
    } else {
        has_redirect(av.drop_last()) || av.last() is Redirect
    }
}

/// `Discard` and `Reject` are terminal for storage: no copy is stored.
pub open spec fn suppress_storage(av: Seq<ActionV>) -> bool {
    has_discard(av) || has_reject(av)
}

/// The reason of the first `Reject`, if any.
pub open spec fn first_reject(av: Seq<ActionV>) -> Option<Seq<u8>>
    decreases av.len(),
{
    if av.len() == 0 {
        Option::None
    } else {
        match first_reject(av.drop_last()) {
            Option::Some(r) => Option::Some(r),
            Option::None => match av.last() {
                ActionV::Reject(r) => Option::Some(r),
                _ => Option::None,
            },
        }
    }
}

/// The paths of the `FileInto` actions, in order.
pub open spec fn fileintos(av: Seq<ActionV>) -> Seq<Seq<u8>>
    decreases av.len(),
{
    if av.len() == 0 {
        Seq::empty()
    } else {
        match av.last() {
            ActionV::FileInto(p) => fileintos(av.drop_last()).push(p),
            _ => fileintos(av.drop_last()),
        }
    }
}

/// The addresses of the `Redirect` actions, in order.
pub open spec fn redirects(av: Seq<ActionV>) -> Seq<Seq<u8>>
    decreases av.len(),
{
    if av.len() == 0 {
        Seq::empty()
    } else {
        match av.last() {
            ActionV::Redirect(a) => redirects(av.drop_last()).push(a),
            _ => redirects(av.drop_last()),
        }
    }
}

/// The `Notify` targets and messages, in order.
pub open spec fn notifications(av: Seq<ActionV>) -> Seq<(Seq<u8>, Seq<u8>)>
    decreases av.len(),
{
    if av.len() == 0 {
        Seq::empty()
    } else {
        match av.last() {
            ActionV::Notify(t, m) => notifications(av.drop_last()).push((t, m)),
            _ => notifications(av.drop_last()),
        }
    }
}

/// The names of the `AddKeyword` actions, in order.
pub open spec fn keywords_raw(av: Seq<ActionV>) -> Seq<Seq<u8>>
    decreases av.len(),
{
    if av.len() == 0 {
        Seq::empty()
    } else {
        match av.last() {
            ActionV::AddKeyword(k) => keywords_raw(av.drop_last()).push(k),
            _ => keywords_raw(av.drop_last()),
        }
    }
}

/// First occurrences, in order: duplicates collapse.
pub open spec fn dedup_first(s: Seq<Seq<u8>>) -> Seq<Seq<u8>>
    decreases s.len(),
{
    if s.len() == 0 {
        Seq::empty()
    } else {
        let d = dedup_first(s.drop_last());
        if d.contains(s.last()) {
            d
        } else {
            d.push(s.last())
        }
    }
}

/// No action directed the message anywhere: the default mailbox takes it.
pub open spec fn wants_default(av: Seq<ActionV>) -> bool {
    !has_fileinto(av) && !has_keep(av) && !has_discard(av) && !has_reject(av) && !has_redirect(av)
}

/// The distinct mailbox paths the message is filed into: every `FileInto`
/// path, the default mailbox on an explicit `Keep`, and the default
/// mailbox alone when no action directed the message anywhere.
pub open spec fn targets(av: Seq<ActionV>, default: Seq<u8>) -> Seq<Seq<u8>> {
    if has_keep(av) || wants_default(av) {
        dedup_first(fileintos(av).push(default))
    } else {
        dedup_first(fileintos(av))
    }
}

/// The distinct keywords assigned to the stored copy.
pub open spec fn kw_list(av: Seq<ActionV>) -> Seq<Seq<u8>> {
    dedup_first(keywords_raw(av))
}

/// Mailbox-chain creation for each target path in turn.
pub open spec fn multi_chain(ps: Seq<Seq<u8>>, ts: Seq<Seq<u8>>, j: int) -> Seq<Seq<u8>>
    decreases ts.len() - j,
{
    if j < 0 || j >= ts.len() {
        ps
    } else {
        multi_chain(create_chain(ps, ts[j], 0), ts, j + 1)
    }
}

/// What the pipeline reports back to the transport layer.
#[derive(Debug, PartialEq, Eq)]
pub struct DeliveryOutcome {
    /// A copy of the message was stored locally.
    pub stored: bool,
    /// The recorded reason of the first `Reject`, surfaced to the peer.
    pub rejected: Option<Vec<u8>>,
    /// Addresses handed to the outbound relay, in order.
    pub redirects: Vec<Vec<u8>>,
    /// Notification targets and texts handed to the relay, in order.
    pub notifications: Vec<(Vec<u8>, Vec<u8>)>,
}

/// The executor's contract: how the outcome and the new mailbox store
/// relate to the old store and the action list.
pub open spec fn executed_rel(
    old_mbs: MailboxStore,
    new_mbs: MailboxStore,
    av: Seq<ActionV>,
    default: Seq<u8>,
    raw: Seq<u8>,
    outcome: DeliveryOutcome,
) -> bool {
    &&& outcome.stored == !suppress_storage(av)
    &&& opt_view(outcome.rejected) == first_reject(av)
    &&& deep_view(outcome.redirects@) == redirects(av)
    &&& pairs_view(outcome.notifications@) == notifications(av)
    &&& if suppress_storage(av) {
        new_mbs.mailboxes@ == old_mbs.mailboxes@ && new_mbs.messages@ == old_mbs.messages@
    } else {
        &&& new_mbs.paths() == multi_chain(old_mbs.paths(), targets(av, default), 0)
        &&& forall|i: int|
            0 <= i < old_mbs.mailboxes@.len() ==> #[trigger] new_mbs.mailboxes@[i]
                == old_mbs.mailboxes@[i]
        &&& new_mbs.messages@.len() == old_mbs.messages@.len() + 1
        &&& forall|i: int|
            0 <= i < old_mbs.messages@.len() ==> #[trigger] new_mbs.messages@[i]
                == old_mbs.messages@[i]
        &&& {
            let m = new_mbs.messages@.last();
            &&& m.raw@ == raw
            &&& deep_view(m.keywords@) == kw_list(av)
            &&& m.mailbox_ids@.len() == targets(av, default).len()
            &&& forall|j: int|
                0 <= j < m.mailbox_ids@.len() ==> #[trigger] m.mailbox_ids@[j]
                    < new_mbs.mailboxes@.len() && new_mbs.mailboxes@[m.mailbox_ids@[j] as int].path@
                    == targets(av, default)[j]
        }
    }
}

/// Reject and Discard never coexist with a stored copy: whenever the
/// action list holds either, the executor leaves every mailbox and every
/// stored message exactly as it found them.
pub proof fn lemma_no_storage_on_discard_or_reject(
    old_mbs: MailboxStore,
    new_mbs: MailboxStore,
    av: Seq<ActionV>,
    default: Seq<u8>,
    raw: Seq<u8>,
    outcome: DeliveryOutcome,
)
    requires
        executed_rel(old_mbs, new_mbs, av, default, raw, outcome),
        has_discard(av) || has_reject(av),
    ensures
        new_mbs.messages@ == old_mbs.messages@,
        new_mbs.mailboxes@ == old_mbs.mailboxes@,
        !outcome.stored,
{
}

pub(crate) fn contains_bytes(v: &Vec<Vec<u8>>, x: &Vec<u8>) -> (r: bool)
    ensures
        r == deep_view(v@).contains(x@),
{
    let mut i: usize = 0;
    while i < v.len()
        invariant
            i <= v@.len(),
            forall|k: int| 0 <= k < i ==> deep_view(v@)[k] != x@,
        decreases v@.len() - i,
    {
        assert(deep_view(v@)[i as int] == v@[i as int]@);
        if bytes_eq(&v[i], x) {
            assert(deep_view(v@).contains(x@));
            return true;
        }
        i += 1;
    }
    assert forall|k: int| 0 <= k < deep_view(v@).len() implies deep_view(v@)[k] != x@ by {
        assert(deep_view(v@)[k] == v@[k]@);
    }
    false
}

/// Applies the ordered action list to the mailbox store and reports the
/// outcome.
pub fn execute_actions(
    actions: &Vec<Action>,
    mbs: &mut MailboxStore,
    default_path: &Vec<u8>,
    raw: &Vec<u8>,
) -> (outcome: DeliveryOutcome)
    requires
        old(mbs).wf(),
    ensures
        final(mbs).wf(),
        executed_rel(
            *old(mbs),
            *final(mbs),
            actions_view(actions@),
            default_path@,
            raw@,
            outcome,
        ),
{
    let ghost av = actions_view(actions@);
    let mut d = false;
    let mut rj = false;
    let mut kp = false;
    let mut hf = false;
    let mut hr = false;
    let mut rejected: Option<Vec<u8>> = None;
    let mut redirect_list: Vec<Vec<u8>> = Vec::new();
    let mut notify_list: Vec<(Vec<u8>, Vec<u8>)> = Vec::new();
    let mut files: Vec<Vec<u8>> = Vec::new();
    let mut kws: Vec<Vec<u8>> = Vec::new();
    let n = actions.len();
    let mut i: usize = 0;
    while i < n
        invariant
            i <= n,
            n == actions@.len(),
            av == actions_view(actions@),
            d == has_discard(av.take(i as int)),
            rj == has_reject(av.take(i as int)),
            kp == has_keep(av.take(i as int)),
            hf == has_fileinto(av.take(i as int)),
            hr == has_redirect(av.take(i as int)),
            opt_view(rejected) == first_reject(av.take(i as int)),
            deep_view(redirect_list@) == redirects(av.take(i as int)),
            pairs_view(notify_list@) == notifications(av.take(i as int)),
            deep_view(files@) == dedup_first(fileintos(av.take(i as int))),
            deep_view(kws@) == dedup_first(keywords_raw(av.take(i as int))),
        decreases n - i,
    {
        let ghost pre = av.take(i as int);
        let ghost post = av.take(i as int + 1);
        proof {
            assert(post.drop_last() =~= pre);
            assert(post.last() == av[i as int]);
            assert(av[i as int] == actions@[i as int]@);
        }
        match &actions[i] {
            Action::FileInto(p) => {
                if !contains_bytes(&files, p) {
                    files.push(copy_bytes(p));
                    proof {
                        assert(deep_view(files@) =~= dedup_first(fileintos(pre)).push(p@));
                        assert(fileintos(post) == fileintos(pre).push(p@));
                        assert(fileintos(post).drop_last() =~= fileintos(pre));
                    }
                } else {
                    proof {
                        assert(fileintos(post) == fileintos(pre).push(p@));
                        assert(fileintos(post).drop_last() =~= fileintos(pre));
                    }
                }
                hf = true;
            },
            Action::AddKeyword(k) => {
                if !contains_bytes(&kws, k) {
                    kws.push(copy_bytes(k));
                    proof {
                        assert(deep_view(kws@) =~= dedup_first(keywords_raw(pre)).push(k@));
                        assert(keywords_raw(post) == keywords_raw(pre).push(k@));
                        assert(keywords_raw(post).drop_last() =~= keywords_raw(pre));
                    }
                } else {
                    proof {
                        assert(keywords_raw(post) == keywords_raw(pre).push(k@));
                        assert(keywords_raw(post).drop_last() =~= keywords_raw(pre));
                    }
                }
            },
            Action::Keep => {
                kp = true;
            },
            Action::Discard => {
                d = true;
            },
            Action::Reject(r) => {
                if rejected.is_none() {
                    rejected = Some(copy_bytes(r));
                }
                rj = true;
            },
            Action::Redirect(a) => {
                redirect_list.push(copy_bytes(a));
                proof {
                    assert(pairs_view(notify_list@) == notifications(pre));
                    assert(deep_view(redirect_list@) =~= redirects(pre).push(a@));
                }
                hr = true;
            },
            Action::Notify(t, m) => {
                notify_list.push((copy_bytes(t), copy_bytes(m)));
                proof {
                    assert(pairs_view(notify_list@) =~= notifications(pre).push((t@, m@)));
                }
            },
            Action::Stop => {},
        }
        i += 1;
    }
    proof {
        assert(av.take(n as int) =~= av);
    }
    let suppress = d || rj;
    let outcome_stored = !suppress;
    if suppress {
        return DeliveryOutcome {
            stored: false,
            rejected,
            redirects: redirect_list,
            notifications: notify_list,
        };
    }
    // Assemble the distinct target paths: explicit fileinto paths, plus the
    // default mailbox on an explicit keep or when nothing else directed the
    // message.
    let use_default = kp || (!hf && !hr);
    proof {
        assert(wants_default(av) == (!hf && !kp && !hr && !d && !rj));
    }
    if use_default {
        if !contains_bytes(&files, default_path) {
            files.push(copy_bytes(default_path));
            proof {
                assert(deep_view(files@) =~= dedup_first(fileintos(av)).push(default_path@));
                assert(fileintos(av).push(default_path@).drop_last() =~= fileintos(av));
                assert(deep_view(files@) == dedup_first(fileintos(av).push(default_path@)));
            }
        } else {
            proof {
                assert(fileintos(av).push(default_path@).drop_last() =~= fileintos(av));
                assert(deep_view(files@) == dedup_first(fileintos(av).push(default_path@)));
            }
        }
        proof {
            assert(has_keep(av) || wants_default(av));
            assert(deep_view(files@) == targets(av, default_path@));
        }
    } else {
        proof {
            assert(!(has_keep(av) || wants_default(av)));
            assert(deep_view(files@) == targets(av, default_path@));
        }
    }
    let ghost tv = targets(av, default_path@);
    let ghost p_orig = mbs.paths();
    let ghost mb_orig = mbs.mailboxes@;
    let mut ids: Vec<u64> = Vec::new();
    let tn = files.len();
    let mut j: usize = 0;
    while j < tn
        invariant
            j <= tn,
            tn == files@.len(),
            deep_view(files@) == tv,
            mbs.wf(),
            mbs.messages@ == old(mbs).messages@,
            mb_orig == old(mbs).mailboxes@,
            p_orig == paths_of_store(*old(mbs)),
            mbs.mailboxes@.len() >= mb_orig.len(),
            forall|i: int| 0 <= i < mb_orig.len() ==> #[trigger] mbs.mailboxes@[i] == mb_orig[i],
            multi_chain(p_orig, tv, 0) == multi_chain(mbs.paths(), tv, j as int),
            ids@.len() == j,
            forall|q: int|
                0 <= q < j ==> #[trigger] ids@[q] < mbs.mailboxes@.len()
                    && mbs.mailboxes@[ids@[q] as int].path@ == tv[q],
        decreases tn - j,
    {
        let ghost mb_pre = mbs.mailboxes@;
        let ghost p_pre = mbs.paths();
        let id = mbs.file_path(&files[j]);
        ids.push(id);
        proof {
            assert(files@[j as int]@ == tv[j as int]);
            assert(mbs.paths() == create_chain(p_pre, tv[j as int], 0));
            assert(multi_chain(p_pre, tv, j as int) == multi_chain(mbs.paths(), tv, j as int + 1));
            assert forall|q: int|
                0 <= q < j + 1 implies #[trigger] ids@[q] < mbs.mailboxes@.len()
                && mbs.mailboxes@[ids@[q] as int].path@ == tv[q] by {
                if q < j {
                    assert(mbs.mailboxes@[ids@[q] as int] == mb_pre[ids@[q] as int]);
                }
            }
        }
        j += 1;
    }
    proof {
        assert(multi_chain(mbs.paths(), tv, tn as int) == mbs.paths());
    }
    let msg = StoredMessage { raw: copy_bytes(raw), mailbox_ids: ids, keywords: kws };
    mbs.append_message(msg);
    DeliveryOutcome {
        stored: outcome_stored,
        rejected,
        redirects: redirect_list,
        notifications: notify_list,
    }
}

/// The paths of a mailbox store (helper for stating loop invariants).
pub open spec fn paths_of_store(m: MailboxStore) -> Seq<Seq<u8>> {
    m.paths()
}

} // verus!
