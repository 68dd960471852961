//! One cycle over the inbound chat channel: interpret subscribe and
//! unsubscribe commands, collect acknowledgements, advance the offset.

use vstd::prelude::*;

use crate::registry::Registry;

verus! {

/// What one inbound chat update carries: a text message, or anything else.
pub enum UpdateKind {
    Message { chat_id: i64, text: Option<String> },
    Other,
}

/// One inbound chat update, with the channel's monotonically increasing
/// update identifier.
pub struct ChatUpdate {
    pub update_id: i64,
    pub kind: UpdateKind,
}

/// The outcome of one fetch of inbound updates, as the caller saw it.
pub enum ChatFetch {
    Updates(Vec<ChatUpdate>),
    TransientError,
}

/// A message the caller must send to one chat.
pub struct Outgoing {
    pub chat_id: i64,
    pub text: String,
}

/// The text that subscribes the sending chat.
pub open spec fn subscribe_cmd() -> Seq<char> {
    "/subscribe"@
}

/// The text that unsubscribes the sending chat.
pub open spec fn unsubscribe_cmd() -> Seq<char> {
    "/unsubscribe"@
}

/// The fixed acknowledgement for a subscription.
pub open spec fn subscribe_ack() -> Seq<char> {
    "Subscribed to mechmarket"@
}

/// The fixed acknowledgement for an unsubscription.
pub open spec fn unsubscribe_ack() -> Seq<char> {
    "Unsubscribed from mechmarket"@
}

/// What one update does to the subscriber set: exactly "/subscribe" inserts
/// the sender, exactly "/unsubscribe" removes it, anything else is ignored.
pub open spec fn apply_update(s: Set<i64>, u: ChatUpdate) -> Set<i64> {
    match u.kind {
        UpdateKind::Message { chat_id, text } => match text {
            Some(t) => if t@ == subscribe_cmd() {
                s.insert(chat_id)
            } else if t@ == unsubscribe_cmd() {
                s.remove(chat_id)
            } else {
                s
            },
            None => s,
        },
        UpdateKind::Other => s,
    }
}

/// The subscriber set after a batch of updates, applied in order.
pub open spec fn apply_updates(s: Set<i64>, us: Seq<ChatUpdate>) -> Set<i64>
    decreases us.len(),
{
    if us.len() == 0 {
        s
    } else {
        apply_update(apply_updates(s, us.drop_last()), us.last())
    }
}

/// The acknowledgement one update owes: one fixed reply to the sender for
/// each recognized command, nothing otherwise.
pub open spec fn ack_of(u: ChatUpdate) -> Seq<(i64, Seq<char>)> {
    match u.kind {
        UpdateKind::Message { chat_id, text } => match text {
            Some(t) => if t@ == subscribe_cmd() {
                seq![(chat_id, subscribe_ack())]
            } else if t@ == unsubscribe_cmd() {
                seq![(chat_id, unsubscribe_ack())]
            } else {
                Seq::empty()
            },
            None => Seq::empty(),
        },
        UpdateKind::Other => Seq::empty(),
    }
}

/// The acknowledgements a batch owes, in order.
pub open spec fn acks_spec(us: Seq<ChatUpdate>) -> Seq<(i64, Seq<char>)>
    decreases us.len(),
{
    if us.len() == 0 {
        Seq::empty()
    } else {
        acks_spec(us.drop_last()) + ack_of(us.last())
    }
}

/// The chat identifier and text of each outgoing message.
pub open spec fn outgoing_views(s: Seq<Outgoing>) -> Seq<(i64, Seq<char>)> {
    s.map_values(|o: Outgoing| (o.chat_id, o.text@))
}

/// A batch as the chat source returns it for an offset: update identifiers
/// at or above the offset, in ascending order, each leaving room to advance.
pub open spec fn batch_wf(offset: i64, us: Seq<ChatUpdate>) -> bool {
    (forall|j: int| 0 <= j < us.len() ==> offset <= #[trigger] us[j].update_id < i64::MAX)
        && (forall|j: int, k: int|
        0 <= j < k < us.len() ==> #[trigger] us[j].update_id <= #[trigger] us[k].update_id)
}

/// The offset after a batch: one past the last update seen, or the old
/// offset where the batch was empty.
pub open spec fn next_offset(offset: i64, us: Seq<ChatUpdate>) -> i64 {
    if us.len() == 0 {
        offset
    } else {
        (us.last().update_id + 1) as i64
    }
}

proof fn lemma_apply_updates_push(s: Set<i64>, us: Seq<ChatUpdate>, u: ChatUpdate)
    ensures
        apply_updates(s, us.push(u)) == apply_update(apply_updates(s, us), u),
{
    assert(us.push(u).drop_last() =~= us);
    assert(us.push(u).last() == u);
}

proof fn lemma_acks_spec_push(us: Seq<ChatUpdate>, u: ChatUpdate)
    ensures
        acks_spec(us.push(u)) == acks_spec(us) + ack_of(u),
{
    assert(us.push(u).drop_last() =~= us);
    assert(us.push(u).last() == u);
}

/// One chat cycle: interpret each fetched update in order, mutate the
/// registry on the recognized commands, collect one acknowledgement per
/// command, and return the next offset with those acknowledgements. A
/// failed fetch leaves the offset and the registry as they were.
pub fn chat_cycle(offset: i64, fetch: &ChatFetch, reg: &mut Registry) -> (r: (i64, Vec<Outgoing>))
    requires
        old(reg).wf(),
        match fetch {
            ChatFetch::Updates(b) => batch_wf(offset, b@),
            ChatFetch::TransientError => true,
        },
    ensures
        final (reg).wf(),
        offset <= r.0,
        match fetch {
            ChatFetch::Updates(b) => r.0 == next_offset(offset, b@) && final (reg)@
                == apply_updates(old(reg)@, b@) && outgoing_views(r.1@) == acks_spec(b@),
            ChatFetch::TransientError => r.0 == offset && final (reg)@ == old(reg)@ && r.1@
                == Seq::<Outgoing>::empty(),
        },
{
    match fetch {
        ChatFetch::TransientError => (offset, Vec::new()),
        ChatFetch::Updates(batch) => {
            let subscribe_text = "/subscribe".to_owned();
            let unsubscribe_text = "/unsubscribe".to_owned();
            let mut new_offset = offset;
            let mut acks: Vec<Outgoing> = Vec::new();
            let mut i: usize = 0;
            proof {
                assert(batch@.take(0) =~= Seq::<ChatUpdate>::empty());
                assert(outgoing_views(acks@) =~= acks_spec(batch@.take(0)));
            }
            while i < batch.len()
                invariant
                    i <= batch.len(),
                    reg.wf(),
                    batch_wf(offset, batch@),
                    subscribe_text@ == subscribe_cmd(),
                    unsubscribe_text@ == unsubscribe_cmd(),
                    reg@ == apply_updates(old(reg)@, batch@.take(i as int)),
                    outgoing_views(acks@) == acks_spec(batch@.take(i as int)),
                    new_offset == next_offset(offset, batch@.take(i as int)),
                    offset <= new_offset,
                decreases batch.len() - i,
            {
                let u = &batch[i];
                let ghost pre_acks = acks@;
                match &u.kind {
                    UpdateKind::Message { chat_id, text } => {
                        match text {
                            Some(t) => {
                                if t.eq(&subscribe_text) {
                                    reg.subscribe(*chat_id);
                                    acks.push(
                                        Outgoing {
                                            chat_id: *chat_id,
                                            text: "Subscribed to mechmarket".to_owned(),
                                        },
                                    );
                                } else if t.eq(&unsubscribe_text) {
                                    reg.unsubscribe(*chat_id);
                                    acks.push(
                                        Outgoing {
                                            chat_id: *chat_id,
                                            text: "Unsubscribed from mechmarket".to_owned(),
                                        },
                                    );
                                }
                            },
                            None => {},
                        }
                    },
                    UpdateKind::Other => {},
                }
                new_offset = u.update_id + 1;
                proof {
                    assert(batch@.take(i + 1) =~= batch@.take(i as int).push(batch@[i as int]));
                    lemma_apply_updates_push(old(reg)@, batch@.take(i as int), batch@[i as int]);
                    lemma_acks_spec_push(batch@.take(i as int), batch@[i as int]);
                    assert(batch@.take(i + 1).last() == batch@[i as int]);
                    assert(outgoing_views(acks@) =~= acks_spec(batch@.take(i + 1)));
                }
                i += 1;
            }
            proof {
                assert(batch@.take(batch.len() as int) =~= batch@);
            }
            (new_offset, acks)
        },
    }
}

/// The offset never moves backward: after one cycle over a batch the source
/// could have returned for this offset, the new offset is at least the old one.
pub proof fn lemma_offset_monotone(offset: i64, us: Seq<ChatUpdate>)
    requires
        batch_wf(offset, us),
    ensures
        offset <= next_offset(offset, us),
{
}

/// The offset after a run of fetch cycles, each batch folded in order.
pub open spec fn offset_after(offset: i64, batches: Seq<Seq<ChatUpdate>>) -> i64
    decreases batches.len(),
{
    if batches.len() == 0 {
        offset
    } else {
        next_offset(offset_after(offset, batches.drop_last()), batches.last())
    }
}

/// Over any run of fetch cycles in which each batch is one the source could
/// return for the offset then current, the offset after each cycle is at
/// least the offset after the one before it.
pub proof fn lemma_offset_monotone_over_cycles(offset: i64, batches: Seq<Seq<ChatUpdate>>)
    requires
        forall|n: int|
            0 <= n < batches.len() ==> batch_wf(
                offset_after(offset, batches.take(n)),
                #[trigger] batches[n],
            ),
    ensures
        forall|n: int|
            0 <= n < batches.len() ==> offset_after(offset, #[trigger] batches.take(n))
                <= offset_after(offset, batches.take(n + 1)),
{
    assert forall|n: int| 0 <= n < batches.len() implies offset_after(
        offset,
        #[trigger] batches.take(n),
    ) <= offset_after(offset, batches.take(n + 1)) by {
        assert(batches.take(n + 1).drop_last() =~= batches.take(n));
        assert(batches.take(n + 1).last() == batches[n]);
        assert(offset_after(offset, batches.take(n + 1)) == next_offset(
            offset_after(offset, batches.take(n)),
            batches[n],
        ));
    }
}

} // verus!
