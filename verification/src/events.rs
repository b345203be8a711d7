//! Change events: what a commit tells, and the registry of those who want to
//! hear it.
//!
//! The registry decides who is told and in which order; calling the callbacks
//! is left to the caller, who does so with the registry out of hand.

use crate::text::same;
use vstd::prelude::*;

verus! {

/// What a committed mutation tells its subscribers.
#[derive(Debug, Clone)]
pub struct VaultChangedEvent {
    pub vault: String,
    /// The head after the commit.
    pub head: String,
    /// The head that was known before; empty where none was.
    pub previous: String,
    pub n_commits: u32,
}

impl VaultChangedEvent {
    /// Whether the event tells of one commit from `previous` to `head`.
    pub open spec fn tells(&self, vault: Seq<char>, head: Seq<char>, previous: Seq<char>) -> bool {
        self.vault@ == vault && self.head@ == head && self.previous@ == previous && self.n_commits
            == 1
    }
}

/// One subscription.
pub struct Subscriber<C> {
    pub id: u64,
    pub vault: String,
    pub callback: C,
}

/// The subscribers of every vault, in the order in which they registered.
pub struct SubscriberRegistry<C> {
    pub next_id: u64,
    pub subscribers: Vec<Subscriber<C>>,
}

/// The callbacks of one vault, in the order in which they registered.
pub open spec fn callbacks_of<C>(s: Seq<Subscriber<C>>, vault: Seq<char>) -> Seq<C>
    decreases s.len(),
{
    if s.len() == 0 {
        Seq::empty()
    } else {
        let head = callbacks_of(s.drop_last(), vault);
        if s.last().vault@ == vault {
            head.push(s.last().callback)
        } else {
            head
        }
    }
}

/// The subscribers without those of `vault` under `id`.
pub open spec fn without_subscriber<C>(
    s: Seq<Subscriber<C>>,
    vault: Seq<char>,
    id: u64,
) -> Seq<Subscriber<C>>
    decreases s.len(),
{
    if s.len() == 0 {
        s
    } else {
        let head = without_subscriber(s.drop_last(), vault, id);
        if s.last().vault@ == vault && s.last().id == id {
            head
        } else {
            head.push(s.last())
        }
    }
}

/// Whether the ids ascend, up to `last`.
pub open spec fn ids_ascend<C>(s: Seq<Subscriber<C>>, last: u64) -> bool {
    &&& forall|i: int, j: int|
        #![trigger s[i], s[j]]
        0 <= i < j < s.len() ==> s[i].id < s[j].id
    &&& forall|i: int| 0 <= i < s.len() ==> (#[trigger] s[i]).id <= last
}

impl<C> SubscriberRegistry<C> {
    /// Ids ascend, and each in use has been handed out.
    pub open spec fn wf(&self) -> bool {
        ids_ascend(self.subscribers@, self.next_id)
    }

    /// A registry without subscribers.
    pub fn new() -> (r: SubscriberRegistry<C>)
        ensures
            r.wf(),
            r.next_id == 0,
            r.subscribers@ == Seq::<Subscriber<C>>::empty(),
    {
        SubscriberRegistry { next_id: 0, subscribers: Vec::new() }
    }

    /// Register `callback` under `vault`; the id that comes back is new.
    pub fn register(&mut self, vault: String, callback: C) -> (id: u64)
        requires
            old(self).wf(),
            old(self).next_id < u64::MAX,
        ensures
            final(self).wf(),
            id == old(self).next_id + 1,
            final(self).next_id == id,
            final(self).subscribers@ == old(self).subscribers@.push(
                (Subscriber { id, vault, callback }),
            ),
    {
        self.next_id = self.next_id + 1;
        let id = self.next_id;
        self.subscribers.push(Subscriber { id, vault, callback });
        id
    }

    /// Drop the subscription `(vault, id)`; nothing happens where there is
    /// none.
    pub fn remove(&mut self, vault: &str, id: u64)
        ensures
            old(self).wf() ==> final(self).wf(),
            final(self).next_id == old(self).next_id,
            final(self).subscribers@ == without_subscriber(old(self).subscribers@, vault@, id),
    {
        let ghost all = self.subscribers@;
        let mut kept: Vec<Subscriber<C>> = Vec::new();
        let mut rest: Vec<Subscriber<C>> = Vec::new();
        std::mem::swap(&mut rest, &mut self.subscribers);
        let ghost mut done: Seq<Subscriber<C>> = Seq::empty();
        assert(done + rest@ =~= all);
        while rest.len() > 0
            invariant
                done + rest@ == all,
                kept@ == without_subscriber(done, vault@, id),
            decreases rest@.len(),
        {
            let s = rest.remove(0);
            let ghost now = done.push(s);
            proof {
                assert(now.drop_last() =~= done);
                assert(now + rest@ =~= all);
                done = now;
            }
            if !(same(&s.vault, vault) && s.id == id) {
                kept.push(s);
            }
        }
        assert(done =~= all);
        self.subscribers = kept;
        proof {
            if ids_ascend(all, self.next_id) {
                lemma_remove_keeps_order(all, vault@, id, self.next_id);
            }
        }
    }
}

impl<C: Clone> SubscriberRegistry<C> {
    /// Clones of the callbacks of `vault`, in the order in which they
    /// registered.
    pub fn snapshot(&self, vault: &str) -> (r: Vec<C>)
        ensures
            r@.len() == callbacks_of(self.subscribers@, vault@).len(),
            forall|i: int|
                0 <= i < r@.len() ==> cloned(
                    callbacks_of(self.subscribers@, vault@)[i],
                    #[trigger] r@[i],
                ),
    {
        let mut out: Vec<C> = Vec::new();
        let ghost all = self.subscribers@;
        for i in 0..self.subscribers.len()
            invariant
                all == self.subscribers@,
                out@.len() == callbacks_of(all.take(i as int), vault@).len(),
                forall|k: int|
                    0 <= k < out@.len() ==> cloned(
                        callbacks_of(all.take(i as int), vault@)[k],
                        #[trigger] out@[k],
                    ),
        {
            assert(all.take(i + 1).drop_last() =~= all.take(i as int));
            if same(&self.subscribers[i].vault, vault) {
                out.push(self.subscribers[i].callback.clone());
            }
        }
        assert(all.take(all.len() as int) =~= all);
        out
    }
}

/// The hold on one subscription.
#[derive(Debug)]
pub struct SubscriptionHandle {
    pub id: u64,
    pub vault_name: String,
}

impl SubscriptionHandle {
    /// The hold on the subscription `id` of `vault`.
    pub(crate) fn new(id: u64, vault: String) -> (r: SubscriptionHandle)
        ensures
            r.id == id,
            r.vault_name == vault,
    {
        SubscriptionHandle { id, vault_name: vault }
    }

    /// The vault that the subscription is bound to.
    pub fn vault(&self) -> (r: &str)
        ensures
            r@ == self.vault_name@,
    {
        self.vault_name.as_str()
    }

    /// Release the subscription: its callback is told nothing more.
    pub fn unsubscribe<C>(self, registry: &mut SubscriberRegistry<C>)
        ensures
            old(registry).wf() ==> final(registry).wf(),
            final(registry).next_id == old(registry).next_id,
            final(registry).subscribers@ == without_subscriber(
                old(registry).subscribers@,
                self.vault_name@,
                self.id,
            ),
    {
        registry.remove(&self.vault_name, self.id);
    }
}

/// Registering adds one callback, at the end of its own vault's list and of
/// no other.
pub proof fn law_register_reaches_its_vault_alone<C>(
    s: Seq<Subscriber<C>>,
    sub: Subscriber<C>,
    other: Seq<char>,
)
    ensures
        callbacks_of(s.push(sub), sub.vault@) == callbacks_of(s, sub.vault@).push(sub.callback),
        other != sub.vault@ ==> callbacks_of(s.push(sub), other) == callbacks_of(s, other),
{
    assert(s.push(sub).drop_last() =~= s);
}

/// Where no subscriber has the id, removing changes nothing.
pub proof fn law_remove_unknown_is_a_no_op<C>(s: Seq<Subscriber<C>>, vault: Seq<char>, id: u64)
    requires
        forall|i: int|
            0 <= i < s.len() ==> !((#[trigger] s[i]).vault@ == vault && s[i].id == id),
    ensures
        without_subscriber(s, vault, id) == s,
    decreases s.len(),
{
    if s.len() > 0 {
        assert forall|i: int| 0 <= i < s.drop_last().len() implies !((
        #[trigger] s.drop_last()[i]).vault@ == vault && s.drop_last()[i].id == id) by {
            assert(s.drop_last()[i] == s[i]);
        }
        law_remove_unknown_is_a_no_op(s.drop_last(), vault, id);
        assert(s =~= s.drop_last().push(s.last()));
    }
}

/// Removing what was just registered gives back the list as it was.
pub proof fn law_remove_undoes_register<C>(
    s: Seq<Subscriber<C>>,
    sub: Subscriber<C>,
)
    requires
        forall|i: int| 0 <= i < s.len() ==> (#[trigger] s[i]).id < sub.id,
    ensures
        without_subscriber(s.push(sub), sub.vault@, sub.id) == s,
{
    assert(s.push(sub).drop_last() =~= s);
    law_remove_unknown_is_a_no_op(s, sub.vault@, sub.id);
}

/// Removing from one vault leaves the callbacks of every other as they were.
pub proof fn law_remove_leaves_other_vaults<C>(
    s: Seq<Subscriber<C>>,
    vault: Seq<char>,
    id: u64,
    other: Seq<char>,
)
    requires
        other != vault,
    ensures
        callbacks_of(without_subscriber(s, vault, id), other) == callbacks_of(s, other),
    decreases s.len(),
{
    if s.len() > 0 {
        law_remove_leaves_other_vaults(s.drop_last(), vault, id, other);
        let head = without_subscriber(s.drop_last(), vault, id);
        assert(head.push(s.last()).drop_last() =~= head);
    }
}

/// After removing, nobody of the vault has the id.
pub proof fn law_removed_is_gone<C>(s: Seq<Subscriber<C>>, vault: Seq<char>, id: u64)
    ensures
        forall|i: int|
            0 <= i < without_subscriber(s, vault, id).len() ==> !((
            #[trigger] without_subscriber(s, vault, id)[i]).vault@ == vault
                && without_subscriber(s, vault, id)[i].id == id),
    decreases s.len(),
{
    if s.len() > 0 {
        law_removed_is_gone(s.drop_last(), vault, id);
        let head = without_subscriber(s.drop_last(), vault, id);
        let all = without_subscriber(s, vault, id);
        assert forall|i: int| 0 <= i < all.len() implies !((#[trigger] all[i]).vault@ == vault
            && all[i].id == id) by {
            if i < head.len() {
                assert(all[i] == head[i]);
            }
        }
    }
}

/// Removing keeps the ids in ascending order and within those handed out.
proof fn lemma_remove_keeps_order<C>(
    s: Seq<Subscriber<C>>,
    vault: Seq<char>,
    id: u64,
    last: u64,
)
    requires
        ids_ascend(s, last),
    ensures
        ids_ascend(without_subscriber(s, vault, id), last),
        s.len() > 0 ==> ids_ascend(without_subscriber(s, vault, id), s.last().id),
    decreases s.len(),
{
    if s.len() > 0 {
        let head = s.drop_last();
        assert forall|i: int, j: int|
            #![trigger head[i], head[j]]
            0 <= i < j < head.len() implies head[i].id < head[j].id by {
            assert(head[i] == s[i] && head[j] == s[j]);
        }
        assert forall|i: int| 0 <= i < head.len() implies (#[trigger] head[i]).id <= last by {
            assert(head[i] == s[i]);
        }
        lemma_remove_keeps_order(head, vault, id, last);
        if head.len() > 0 {
            assert(head.last() == s[s.len() - 2]);
            assert(s[s.len() - 2].id < s[s.len() - 1].id);
        }
    }
}

} // verus!
