//! The notification cache logic: which fetched notifications are genuinely
//! new, and what the persisted set becomes after a cycle.
//!
//! A fetched notification counts as already seen iff some saved notification
//! shares both its last-updated timestamp and its subject title; that pair,
//! not the unique identifier, is the notification's identity here. Merging
//! keys on the same identity: a cycle persists exactly the unseen subset of
//! the fetched batch, followed by everything that was already saved. So the
//! persisted set never shrinks, everything displayed in a cycle is persisted
//! by that cycle, and after a successful write every fetched notification is
//! represented in the persisted set under the identity the dedupe reads.

use vstd::prelude::*;

use crate::data::Notification;
use crate::data::NotificationView;
use crate::data::Notifications;
use crate::data::bytes_eq;

verus! {

/// The dedupe identity: same last-updated timestamp and same subject title.
pub open spec fn same_identity(a: NotificationView, b: NotificationView) -> bool {
    a.updated_at == b.updated_at && a.subject.title == b.subject.title
}

/// `n` is represented in `saved` under the dedupe identity.
pub open spec fn seen_in(n: NotificationView, saved: Seq<NotificationView>) -> bool {
    exists|i: int| 0 <= i < saved.len() && same_identity(n, saved[i])
}

/// The subsequence of `batch` that is unseen: every notification whose
/// (timestamp, title) pair matches no entry of `saved`, in batch order.
pub open spec fn unseen_of(
    batch: Seq<NotificationView>,
    saved: Seq<NotificationView>,
) -> Seq<NotificationView>
    decreases batch.len(),
{
    if batch.len() == 0 {
        Seq::empty()
    } else {
        let rest = unseen_of(batch.drop_last(), saved);
        if seen_in(batch.last(), saved) {
            rest
        } else {
            rest.push(batch.last())
        }
    }
}

/// What one cycle persists: the fetched notifications not already
/// represented in the saved set, followed by everything previously saved.
pub open spec fn merged_of(
    fresh: Seq<NotificationView>,
    saved: Seq<NotificationView>,
) -> Seq<NotificationView> {
    unseen_of(fresh, saved) + saved
}

/// Whether `a` and `b` share the dedupe identity.
pub fn matches_identity(a: &Notification, b: &Notification) -> (r: bool)
    ensures
        r == same_identity(a@, b@),
{
    bytes_eq(&a.updated_at, &b.updated_at) && bytes_eq(&a.subject.title, &b.subject.title)
}

/// Whether `n` is already represented in `saved` under the dedupe identity.
pub fn is_seen(n: &Notification, saved: &Notifications) -> (r: bool)
    ensures
        r == seen_in(n@, saved@),
{
    let mut i: usize = 0;
    while i < saved.list.len()
        invariant
            i <= saved.list.len(),
            forall|j: int| 0 <= j < i ==> !same_identity(n@, saved@[j]),
        decreases saved.list.len() - i,
    {
        if matches_identity(n, &saved.list[i]) {
            assert(same_identity(n@, saved@[i as int]));
            return true;
        }
        i += 1;
    }
    false
}

/// The fetched notifications that are genuinely new: exactly those whose
/// (timestamp, title) pair matches no entry of `saved`, in batch order.
pub fn filter_unseen(batch: &Notifications, saved: &Notifications) -> (r: Notifications)
    ensures
        r@ == unseen_of(batch@, saved@),
{
    let mut out: Vec<Notification> = Vec::new();
    let ghost bv = batch@;
    let mut i: usize = 0;
    while i < batch.list.len()
        invariant
            i <= batch.list.len(),
            bv == batch@,
            bv.len() == batch.list.len(),
            out@.map_values(|n: Notification| n@) == unseen_of(bv.take(i as int), saved@),
        decreases batch.list.len() - i,
    {
        proof {
            assert(bv.take(i + 1).drop_last() =~= bv.take(i as int));
            assert(bv.take(i + 1).last() == bv[i as int]);
        }
        if !is_seen(&batch.list[i], saved) {
            let n = batch.list[i].clone();
            out.push(n);
            proof {
                assert(out@.map_values(|n: Notification| n@) =~= unseen_of(
                    bv.take(i + 1),
                    saved@,
                ));
            }
        }
        i += 1;
    }
    proof {
        assert(bv.take(batch.list.len() as int) =~= bv);
    }
    Notifications { list: out }
}

/// What one cycle persists: the unseen subset of the fetched batch,
/// followed by everything previously saved.
pub fn merge(fresh: &Notifications, saved: &Notifications) -> (r: Notifications)
    ensures
        r@ == merged_of(fresh@, saved@),
{
    let mut out: Vec<Notification> = Vec::new();
    let ghost fv = fresh@;
    let mut i: usize = 0;
    while i < fresh.list.len()
        invariant
            i <= fresh.list.len(),
            fv == fresh@,
            fv.len() == fresh.list.len(),
            out@.map_values(|n: Notification| n@) == unseen_of(fv.take(i as int), saved@),
        decreases fresh.list.len() - i,
    {
        proof {
            assert(fv.take(i + 1).drop_last() =~= fv.take(i as int));
            assert(fv.take(i + 1).last() == fv[i as int]);
        }
        if !is_seen(&fresh.list[i], saved) {
            let n = fresh.list[i].clone();
            out.push(n);
            proof {
                assert(out@.map_values(|n: Notification| n@) =~= unseen_of(
                    fv.take(i + 1),
                    saved@,
                ));
            }
        }
        i += 1;
    }
    proof {
        assert(fv.take(fresh.list.len() as int) =~= fv);
    }
    let ghost before = out@.map_values(|n: Notification| n@);
    let mut j: usize = 0;
    while j < saved.list.len()
        invariant
            j <= saved.list.len(),
            before == unseen_of(fresh@, saved@),
            saved@.len() == saved.list.len(),
            out@.map_values(|n: Notification| n@) == before + saved@.take(j as int),
        decreases saved.list.len() - j,
    {
        proof {
            assert(saved@[j as int] == saved.list@[j as int]@);
            assert(saved@.take(j + 1) =~= saved@.take(j as int).push(saved@[j as int]));
        }
        let n = saved.list[j].clone();
        let ghost prev = out@;
        let ghost nv = n@;
        out.push(n);
        proof {
            prev.lemma_push_map_commute(|n: Notification| n@, out@[prev.len() as int]);
            assert(out@.map_values(|n: Notification| n@) =~= prev.map_values(
                |n: Notification| n@,
            ).push(nv));
            assert(out@.map_values(|n: Notification| n@) =~= before + saved@.take(j + 1));
        }
        j += 1;
    }
    proof {
        assert(saved@.take(saved.list.len() as int) =~= saved@);
        assert(out@.map_values(|n: Notification| n@) == merged_of(fresh@, saved@));
    }
    Notifications { list: out }
}

/// The saved set a cycle works against: what a successful load returned, or
/// the empty set when the cache was missing or unreadable.
pub fn saved_or_empty(loaded: Option<Notifications>) -> (r: Notifications)
    ensures
        match loaded {
            Some(s) => r@ == s@,
            None => r@ == Seq::<NotificationView>::empty(),
        },
{
    match loaded {
        Some(s) => s,
        None => {
            let r = Notifications { list: Vec::new() };
            proof {
                assert(r@ =~= Seq::<NotificationView>::empty());
            }
            r
        },
    }
}

/// Dedupe identity law: the unseen subset of a batch holds exactly the
/// batch's notifications whose (timestamp, title) pair matches no saved
/// entry.
pub proof fn lemma_unseen_exact(batch: Seq<NotificationView>, saved: Seq<NotificationView>)
    ensures
        forall|n: NotificationView|
            unseen_of(batch, saved).contains(n) <==> (batch.contains(n) && !seen_in(n, saved)),
    decreases batch.len(),
{
    if batch.len() == 0 {
        assert forall|n: NotificationView| !batch.contains(n) by {}
    } else {
        lemma_unseen_exact(batch.drop_last(), saved);
        let rest = unseen_of(batch.drop_last(), saved);
        assert forall|n: NotificationView|
            unseen_of(batch, saved).contains(n) <==> (batch.contains(n) && !seen_in(
                n,
                saved,
            )) by {
            if batch.contains(n) && !seen_in(n, saved) {
                let i = choose|i: int| 0 <= i < batch.len() && batch[i] == n;
                if i < batch.len() - 1 {
                    assert(batch.drop_last().contains(n)) by {
                        assert(batch.drop_last()[i] == n);
                    }
                    assert(rest.contains(n));
                    if !seen_in(batch.last(), saved) {
                        let k = choose|k: int| 0 <= k < rest.len() && rest[k] == n;
                        assert(rest.push(batch.last())[k] == n);
                    }
                } else {
                    assert(batch.last() == n);
                    assert(rest.push(n)[rest.len() as int] == n);
                }
            }
            if unseen_of(batch, saved).contains(n) {
                if seen_in(batch.last(), saved) {
                    assert(rest.contains(n));
                } else {
                    let k = choose|k: int|
                        0 <= k < rest.push(batch.last()).len() && rest.push(batch.last())[k] == n;
                    if k < rest.len() {
                        assert(rest[k] == n);
                        assert(rest.contains(n));
                    } else {
                        assert(n == batch.last());
                        assert(batch[batch.len() - 1] == n);
                        assert(batch.contains(n));
                    }
                }
                if rest.contains(n) {
                    assert(batch.drop_last().contains(n));
                    let i = choose|i: int|
                        0 <= i < batch.drop_last().len() && batch.drop_last()[i] == n;
                    assert(batch[i] == n);
                    assert(batch.contains(n));
                }
            }
        }
    }
}

/// Merge monotonicity: every notification saved before a cycle is still
/// present in what the cycle persists.
pub proof fn lemma_merge_monotonic(fresh: Seq<NotificationView>, saved: Seq<NotificationView>)
    ensures
        forall|n: NotificationView|
            saved.contains(n) ==> #[trigger] merged_of(fresh, saved).contains(n),
{
    assert forall|n: NotificationView| saved.contains(n) implies #[trigger] merged_of(
        fresh,
        saved,
    ).contains(n) by {
        let i = choose|i: int| 0 <= i < saved.len() && saved[i] == n;
        assert(merged_of(fresh, saved)[unseen_of(fresh, saved).len() + i] == n);
    }
}

/// Everything a cycle displays, the same cycle persists: the unseen subset
/// stands at the front of the merged set.
pub proof fn lemma_displayed_is_persisted(
    fresh: Seq<NotificationView>,
    saved: Seq<NotificationView>,
)
    ensures
        forall|n: NotificationView|
            unseen_of(fresh, saved).contains(n) ==> #[trigger] merged_of(fresh, saved).contains(n),
{
    assert forall|n: NotificationView| unseen_of(fresh, saved).contains(n) implies #[trigger] merged_of(
        fresh,
        saved,
    ).contains(n) by {
        let i = choose|i: int|
            0 <= i < unseen_of(fresh, saved).len() && unseen_of(fresh, saved)[i] == n;
        assert(merged_of(fresh, saved)[i] == n);
    }
}

/// After a cycle, every fetched notification is represented in the
/// persisted set under the dedupe identity.
pub proof fn lemma_batch_represented(fresh: Seq<NotificationView>, saved: Seq<NotificationView>)
    ensures
        forall|j: int| 0 <= j < fresh.len() ==> seen_in(fresh[j], merged_of(fresh, saved)),
{
    let m = merged_of(fresh, saved);
    lemma_unseen_exact(fresh, saved);
    assert forall|j: int| 0 <= j < fresh.len() implies seen_in(fresh[j], m) by {
        if seen_in(fresh[j], saved) {
            let i = choose|i: int| 0 <= i < saved.len() && same_identity(fresh[j], saved[i]);
            assert(m[unseen_of(fresh, saved).len() + i] == saved[i]);
            assert(same_identity(fresh[j], m[unseen_of(fresh, saved).len() + i]));
        } else {
            assert(fresh.contains(fresh[j]));
            assert(unseen_of(fresh, saved).contains(fresh[j]));
            let k = choose|k: int|
                0 <= k < unseen_of(fresh, saved).len() && unseen_of(fresh, saved)[k] == fresh[j];
            assert(m[k] == fresh[j]);
            assert(same_identity(fresh[j], m[k]));
        }
    }
}

/// Idempotent re-merge: merging the same batch into what it already
/// produced changes nothing.
pub proof fn lemma_merge_idempotent(fresh: Seq<NotificationView>, saved: Seq<NotificationView>)
    ensures
        merged_of(fresh, merged_of(fresh, saved)) == merged_of(fresh, saved),
{
    let m = merged_of(fresh, saved);
    lemma_batch_represented(fresh, saved);
    lemma_unseen_empty(fresh, m);
    assert(merged_of(fresh, m) =~= m);
}

/// When every fetched notification is already represented, nothing is
/// added.
proof fn lemma_unseen_empty(fresh: Seq<NotificationView>, saved: Seq<NotificationView>)
    requires
        forall|j: int| 0 <= j < fresh.len() ==> seen_in(fresh[j], saved),
    ensures
        unseen_of(fresh, saved) == Seq::<NotificationView>::empty(),
    decreases fresh.len(),
{
    if fresh.len() == 0 {
    } else {
        lemma_unseen_empty(fresh.drop_last(), saved);
        assert(seen_in(fresh[fresh.len() - 1], saved));
    }
}

} // verus!
