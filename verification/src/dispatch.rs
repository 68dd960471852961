//! Composing the outgoing text for a matched item and fanning it out to
//! every current subscriber.

use vstd::prelude::*;
use vstd::string::StringExecFns;

use crate::chat::Outgoing;
use crate::feed::FeedItem;

verus! {

/// The text sent for an item: its title, then — when it has a URL — a line
/// break and the URL.
pub open spec fn message_of(title: Seq<char>, url: Option<Seq<char>>) -> Seq<char> {
    match url {
        Some(u) => title + seq!['\n'] + u,
        None => title,
    }
}

/// The URL an item carries, as a spec value.
pub open spec fn url_view(it: FeedItem) -> Option<Seq<char>> {
    match it.url {
        Some(u) => Some(u@),
        None => None,
    }
}

/// The text sent for this item.
pub open spec fn item_message(it: FeedItem) -> Seq<char> {
    message_of(it.title@, url_view(it))
}

/// Compose the message for one item.
pub fn compose_message(it: &FeedItem) -> (r: String)
    ensures
        r@ == item_message(*it),
{
    let mut m = it.title.as_str().to_owned();
    match &it.url {
        Some(u) => {
            proof {
                reveal_strlit("\n");
                assert("\n"@ =~= seq!['\n']);
            }
            m.append("\n");
            m.append(u.as_str());
        },
        None => {},
    }
    m
}

/// One message per subscriber for one matched item: the same composed text,
/// addressed to each subscriber in turn. Per-recipient delivery failures are
/// the caller's affair and never change what is owed to the others.
pub fn fan_out(it: &FeedItem, subscribers: &Vec<i64>) -> (r: Vec<Outgoing>)
    ensures
        r@.len() == subscribers@.len(),
        forall|j: int|
            0 <= j < r@.len() ==> (#[trigger] r@[j]).chat_id == subscribers@[j] && r@[j].text@
                == item_message(*it),
{
    let text = compose_message(it);
    let mut out: Vec<Outgoing> = Vec::new();
    let mut i: usize = 0;
    while i < subscribers.len()
        invariant
            i <= subscribers.len(),
            out@.len() == i,
            text@ == item_message(*it),
            forall|j: int|
                0 <= j < i ==> (#[trigger] out@[j]).chat_id == subscribers@[j] && out@[j].text@
                    == item_message(*it),
        decreases subscribers.len() - i,
    {
        out.push(Outgoing { chat_id: subscribers[i], text: text.clone() });
        i += 1;
    }
    out
}

} // verus!
