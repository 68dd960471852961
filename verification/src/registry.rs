//! The set of chat destinations that receive matched feed items.

use vstd::prelude::*;

verus! {

/// The subscriber registry: a set of chat identifiers. Membership changes
/// only through explicit subscribe and unsubscribe commands, with set
/// semantics: subscribing twice is subscribing once, and unsubscribing an
/// absent chat is a no-op.
pub struct Registry {
    ids: Vec<i64>,
}

impl View for Registry {
    type V = Set<i64>;

    closed spec fn view(&self) -> Set<i64> {
        self.ids@.to_set()
    }
}

impl Registry {
    /// The registry holds each subscriber once.
    pub closed spec fn wf(&self) -> bool {
        self.ids@.no_duplicates()
    }

    /// An empty registry.
    pub fn new() -> (r: Registry)
        ensures
            r.wf(),
            r@ == Set::<i64>::empty(),
    {
        let r = Registry { ids: Vec::new() };
        proof {
            assert(r@ =~= Set::<i64>::empty());
        }
        r
    }

    /// Build a registry from stored identifiers, keeping each one once.
    pub fn from_ids(ids: Vec<i64>) -> (r: Registry)
        ensures
            r.wf(),
            r@ == ids@.to_set(),
    {
        let mut r = Registry::new();
        let mut i: usize = 0;
        proof {
            assert(ids@.take(0) =~= Seq::<i64>::empty());
            assert(r@ =~= ids@.take(0).to_set());
        }
        while i < ids.len()
            invariant
                i <= ids.len(),
                r.wf(),
                r@ == ids@.take(i as int).to_set(),
            decreases ids.len() - i,
        {
            r.subscribe(ids[i]);
            proof {
                broadcast use vstd::prelude::Seq::lemma_push_to_set_commute;

                assert(ids@.take(i + 1) =~= ids@.take(i as int).push(ids@[i as int]));
            }
            i += 1;
        }
        proof {
            assert(ids@.take(ids.len() as int) =~= ids@);
        }
        r
    }

    /// Is this chat subscribed?
    pub fn contains(&self, chat_id: i64) -> (r: bool)
        ensures
            r == self@.contains(chat_id),
    {
        let mut i: usize = 0;
        while i < self.ids.len()
            invariant
                i <= self.ids.len(),
                forall|j: int| 0 <= j < i ==> self.ids@[j] != chat_id,
            decreases self.ids.len() - i,
        {
            if self.ids[i] == chat_id {
                assert(self.ids@.contains(chat_id));
                return true;
            }
            i += 1;
        }
        assert(!self.ids@.contains(chat_id));
        false
    }

    /// How many chats are subscribed.
    pub fn count(&self) -> (n: usize)
        requires
            self.wf(),
        ensures
            n == self@.len(),
    {
        proof {
            self.ids@.unique_seq_to_set();
        }
        self.ids.len()
    }

    /// The subscribed chats — each once, in a well-formed registry — for
    /// fan-out.
    pub fn ids(&self) -> (r: &Vec<i64>)
        ensures
            r@.to_set() == self@,
            self.wf() ==> r@.no_duplicates(),
            forall|j: int| 0 <= j < r@.len() ==> self@.contains(#[trigger] r@[j]),
    {
        proof {
            assert forall|j: int| 0 <= j < self.ids@.len() implies self@.contains(
                #[trigger] self.ids@[j],
            ) by {
                assert(self.ids@.contains(self.ids@[j]));
            }
        }
        &self.ids
    }

    /// Add a chat to the registry.
    pub fn subscribe(&mut self, chat_id: i64)
        requires
            old(self).wf(),
        ensures
            final (self).wf(),
            final (self)@ == old(self)@.insert(chat_id),
    {
        broadcast use vstd::prelude::Seq::lemma_push_to_set_commute;

        if !self.contains(chat_id) {
            assert(!self.ids@.contains(chat_id));
            self.ids.push(chat_id);
        } else {
            proof {
                assert(self@.insert(chat_id) =~= self@);
            }
        }
    }

    /// Remove a chat from the registry.
    pub fn unsubscribe(&mut self, chat_id: i64)
        requires
            old(self).wf(),
        ensures
            final (self).wf(),
            final (self)@ == old(self)@.remove(chat_id),
    {
        let mut i: usize = 0;
        while i < self.ids.len()
            invariant
                i <= self.ids.len(),
                self == old(self),
                self.wf(),
                forall|j: int| 0 <= j < i ==> self.ids@[j] != chat_id,
            decreases self.ids.len() - i,
        {
            if self.ids[i] == chat_id {
                let ghost pre = self.ids@;
                self.ids.remove(i);
                proof {
                    lemma_remove_found(pre, self.ids@, i as int, chat_id);
                }
                return ;
            }
            i += 1;
        }
        proof {
            assert(!self.ids@.contains(chat_id));
            assert(old(self)@.remove(chat_id) =~= old(self)@);
        }
    }
}

/// Removing the one index that holds `x` from a duplicate-free sequence
/// removes exactly `x` from the set of its elements.
proof fn lemma_remove_found(pre: Seq<i64>, post: Seq<i64>, i: int, x: i64)
    requires
        pre.no_duplicates(),
        0 <= i < pre.len(),
        pre[i] == x,
        post == pre.remove(i),
    ensures
        post.no_duplicates(),
        post.to_set() == pre.to_set().remove(x),
{
    assert forall|a: i64| post.to_set().contains(a) implies pre.to_set().remove(x).contains(a) by {
        let k = choose|k: int| 0 <= k < post.len() && post[k] == a;
        if k < i {
            assert(pre[k] == a);
            assert(pre.contains(a));
        } else {
            assert(pre[k + 1] == a);
            assert(pre.contains(a));
        }
        assert(a != x);
    }
    assert forall|a: i64| pre.to_set().remove(x).contains(a) implies post.to_set().contains(a) by {
        let k = choose|k: int| 0 <= k < pre.len() && pre[k] == a;
        if k < i {
            assert(post[k] == a);
            assert(post.contains(a));
        } else {
            assert(k > i);
            assert(post[k - 1] == a);
            assert(post.contains(a));
        }
    }
    assert(post.to_set() =~= pre.to_set().remove(x));
}

/// Subscribing the same chat twice leaves the registry as subscribing it
/// once did: insertion is idempotent.
pub proof fn lemma_subscribe_idempotent(s: Set<i64>, chat_id: i64)
    ensures
        s.insert(chat_id).insert(chat_id) == s.insert(chat_id),
{
    assert(s.insert(chat_id).insert(chat_id) =~= s.insert(chat_id));
}

/// Unsubscribing a chat that is not subscribed is a no-op, not an error.
pub proof fn lemma_unsubscribe_absent(s: Set<i64>, chat_id: i64)
    requires
        !s.contains(chat_id),
    ensures
        s.remove(chat_id) == s,
{
    assert(s.remove(chat_id) =~= s);
}

} // verus!
