//! One poll cycle over the content feed: deduplication against a marker,
//! keyword filtering, and computation of the next marker.

use vstd::prelude::*;

use crate::filter::{any_keyword_matches, text_matches};

verus! {

/// One item fetched from the feed source. The `id` is the source-native
/// identifier; its sort key is the byte sequence it decodes to in base 36.
pub struct FeedItem {
    pub id: String,
    pub title: String,
    pub body: String,
    pub url: Option<String>,
}

impl Clone for FeedItem {
    fn clone(&self) -> (r: Self)
        ensures
            r == *self,
    {
        FeedItem {
            id: self.id.clone(),
            title: self.title.clone(),
            body: self.body.clone(),
            url: match &self.url {
                Some(u) => Some(u.clone()),
                None => None,
            },
        }
    }
}

/// The outcome of one fetch from the feed source, as the caller saw it.
pub enum FeedFetch {
    Items(Vec<FeedItem>),
    TransientError,
}

/// The byte sequence that an identifier decodes to in base 36, when it
/// decodes at all.
pub uninterp spec fn decode36_of(s: Seq<char>) -> Option<Seq<u8>>;

/// Relies on `base36::decode`: the decoded bytes depend on the characters of
/// the identifier alone.
#[verifier::external_body]
fn decode36(s: &str) -> (r: Option<Vec<u8>>)
    ensures
        match r {
            Some(v) => decode36_of(s@) == Some(v@),
            None => decode36_of(s@) == None::<Seq<u8>>,
        },
{
    base36::decode(s).ok()
}

/// Strict lexicographic order on byte sequences, as byte vectors compare.
pub open spec fn lex_lt(a: Seq<u8>, b: Seq<u8>) -> bool
    decreases a.len(),
{
    if b.len() == 0 {
        false
    } else if a.len() == 0 {
        true
    } else if a[0] < b[0] {
        true
    } else if a[0] > b[0] {
        false
    } else {
        lex_lt(a.drop_first(), b.drop_first())
    }
}

pub open spec fn lex_le(a: Seq<u8>, b: Seq<u8>) -> bool {
    a == b || lex_lt(a, b)
}

/// Decides `lex_lt` on byte vectors.
pub fn lex_lt_exec(a: &Vec<u8>, b: &Vec<u8>) -> (r: bool)
    ensures
        r == lex_lt(a@, b@),
{
    let mut i: usize = 0;
    proof {
        assert(a@.skip(0) =~= a@);
        assert(b@.skip(0) =~= b@);
    }
    while i < a.len() && i < b.len()
        invariant
            i <= a.len(),
            i <= b.len(),
            lex_lt(a@, b@) == lex_lt(a@.skip(i as int), b@.skip(i as int)),
        decreases a.len() - i,
    {
        if a[i] < b[i] {
            return true;
        }
        if a[i] > b[i] {
            return false;
        }
        proof {
            assert(a@.skip(i as int).drop_first() =~= a@.skip(i + 1));
            assert(b@.skip(i as int).drop_first() =~= b@.skip(i + 1));
        }
        i += 1;
    }
    proof {
        if i == a.len() {
            assert(a@.skip(i as int).len() == 0);
        } else {
            assert(b@.skip(i as int).len() == 0);
        }
    }
    a.len() < b.len()
}

/// The decoded sort key of an identifier, the empty sequence where it does
/// not decode.
pub open spec fn decoded_or_empty(s: Seq<char>) -> Seq<u8> {
    match decode36_of(s) {
        Some(v) => v,
        None => Seq::empty(),
    }
}

/// The item lies strictly above the marker (everything does when there is
/// no marker yet).
pub open spec fn newer_than(marker: Option<Seq<u8>>, it: FeedItem) -> bool {
    match marker {
        None => true,
        Some(m) => lex_lt(m, decoded_or_empty(it.id@)),
    }
}

/// The item's title or body contains some keyword, case-insensitively.
pub open spec fn item_text_matches(it: FeedItem, kws: Seq<Seq<char>>) -> bool {
    any_keyword_matches(it.title@, kws) || any_keyword_matches(it.body@, kws)
}

/// Does the item's title or body contain some keyword, case-insensitively?
pub fn item_matches(it: &FeedItem, keywords: &Vec<String>) -> (r: bool)
    ensures
        r == item_text_matches(*it, keywords.deep_view()),
{
    text_matches(it.title.as_str(), keywords) || text_matches(it.body.as_str(), keywords)
}

/// An item is emitted when it lies above the marker and matches a keyword.
pub open spec fn emit_pred(marker: Option<Seq<u8>>, kws: Seq<Seq<char>>, it: FeedItem) -> bool {
    newer_than(marker, it) && item_text_matches(it, kws)
}

/// The items one poll cycle emits, in arrival order.
pub open spec fn emitted_spec(
    marker: Option<Seq<u8>>,
    kws: Seq<Seq<char>>,
    batch: Seq<FeedItem>,
) -> Seq<FeedItem> {
    batch.filter(|it: FeedItem| emit_pred(marker, kws, it))
}

/// The decoded sort keys of the batch, for the items whose identifiers decode.
pub open spec fn decoded_ids(batch: Seq<FeedItem>) -> Seq<Seq<u8>> {
    batch.filter(|it: FeedItem| decode36_of(it.id@) is Some).map_values(
        |it: FeedItem| decode36_of(it.id@).unwrap(),
    )
}

/// The lexicographic maximum of a non-empty sequence of byte sequences.
pub open spec fn lex_max(s: Seq<Seq<u8>>) -> Seq<u8>
    recommends
        s.len() > 0,
    decreases s.len(),
{
    if s.len() <= 1 {
        s[0]
    } else {
        let m = lex_max(s.drop_last());
        if lex_lt(m, s.last()) {
            s.last()
        } else {
            m
        }
    }
}

/// The marker after a cycle over `batch`: the maximum decoded key of the
/// batch, or the old marker where nothing in the batch decodes.
pub open spec fn marker_after(marker: Option<Seq<u8>>, batch: Seq<FeedItem>) -> Option<Seq<u8>> {
    if decoded_ids(batch).len() == 0 {
        marker
    } else {
        Some(lex_max(decoded_ids(batch)))
    }
}

/// The marker a vector holds, as a spec value.
pub open spec fn marker_view(m: Option<Vec<u8>>) -> Option<Seq<u8>> {
    match m {
        Some(v) => Some(v@),
        None => None,
    }
}

proof fn lemma_emitted_push(mv: Option<Seq<u8>>, kws: Seq<Seq<char>>, s: Seq<FeedItem>, x: FeedItem)
    ensures
        emitted_spec(mv, kws, s.push(x)) == (if emit_pred(mv, kws, x) {
            emitted_spec(mv, kws, s).push(x)
        } else {
            emitted_spec(mv, kws, s)
        }),
{
    broadcast use vstd::prelude::Seq::lemma_filter_push;

}

proof fn lemma_decoded_ids_push(s: Seq<FeedItem>, x: FeedItem)
    ensures
        decoded_ids(s.push(x)) == (if decode36_of(x.id@) is Some {
            decoded_ids(s).push(decode36_of(x.id@).unwrap())
        } else {
            decoded_ids(s)
        }),
{
    broadcast use vstd::prelude::Seq::lemma_filter_push;

    if decode36_of(x.id@) is Some {
        assert(decoded_ids(s.push(x)) =~= decoded_ids(s).push(decode36_of(x.id@).unwrap()));
    } else {
        assert(decoded_ids(s.push(x)) =~= decoded_ids(s));
    }
}

/// One poll cycle: given the dedup marker and the outcome of one fetch,
/// return the next marker and the items to forward. A transient fetch error
/// changes nothing and emits nothing.
pub fn poll_cycle(marker: Option<Vec<u8>>, fetch: &FeedFetch, keywords: &Vec<String>) -> (r: (
    Option<Vec<u8>>,
    Vec<FeedItem>,
))
    ensures
        match fetch {
            FeedFetch::Items(batch) => marker_view(r.0) == marker_after(
                marker_view(marker),
                batch@,
            ) && r.1@ == emitted_spec(marker_view(marker), keywords.deep_view(), batch@),
            FeedFetch::TransientError => marker_view(r.0) == marker_view(marker) && r.1@
                == Seq::<FeedItem>::empty(),
        },
{
    match fetch {
        FeedFetch::TransientError => (marker, Vec::new()),
        FeedFetch::Items(batch) => {
            let emitted = select_emitted(&marker, batch, keywords);
            let new_marker = max_decoded(marker, batch);
            (new_marker, emitted)
        },
    }
}

/// The items of the batch that lie above the marker and match a keyword.
fn select_emitted(marker: &Option<Vec<u8>>, batch: &Vec<FeedItem>, keywords: &Vec<String>) -> (r:
    Vec<FeedItem>)
    ensures
        r@ == emitted_spec(marker_view(*marker), keywords.deep_view(), batch@),
{
    broadcast use vstd::prelude::Seq::lemma_filter_push;

    let ghost mv = marker_view(*marker);
    let ghost kws = keywords.deep_view();
    let mut out: Vec<FeedItem> = Vec::new();
    let mut i: usize = 0;
    proof {
        reveal(Seq::filter);
        assert(batch@.take(0) =~= Seq::<FeedItem>::empty());
    }
    while i < batch.len()
        invariant
            i <= batch.len(),
            mv == marker_view(*marker),
            kws == keywords.deep_view(),
            out@ == emitted_spec(mv, kws, batch@.take(i as int)),
        decreases batch.len() - i,
    {
        let it = &batch[i];
        let newer: bool = match marker {
            None => true,
            Some(m) => {
                let d = decode36(it.id.as_str());
                let dec: Vec<u8> = match d {
                    Some(v) => v,
                    None => Vec::new(),
                };
                lex_lt_exec(m, &dec)
            },
        };
        let keep = if newer {
            item_matches(it, keywords)
        } else {
            false
        };
        proof {
            assert(keep == emit_pred(mv, kws, batch@[i as int]));
            assert(batch@.take(i + 1) =~= batch@.take(i as int).push(batch@[i as int]));
            lemma_emitted_push(mv, kws, batch@.take(i as int), batch@[i as int]);
        }
        if keep {
            out.push(it.clone());
        }
        i += 1;
    }
    proof {
        assert(batch@.take(batch.len() as int) =~= batch@);
    }
    out
}

/// The maximum decoded key of the batch, or the old marker where nothing
/// decodes.
fn max_decoded(marker: Option<Vec<u8>>, batch: &Vec<FeedItem>) -> (r: Option<Vec<u8>>)
    ensures
        marker_view(r) == marker_after(marker_view(marker), batch@),
{
    broadcast use vstd::prelude::Seq::lemma_filter_push;

    let mut best: Option<Vec<u8>> = None;
    let mut i: usize = 0;
    proof {
        reveal(Seq::filter);
        assert(batch@.take(0) =~= Seq::<FeedItem>::empty());
        assert(decoded_ids(batch@.take(0)).len() == 0);
    }
    while i < batch.len()
        invariant
            i <= batch.len(),
            match best {
                None => decoded_ids(batch@.take(i as int)).len() == 0,
                Some(b) => decoded_ids(batch@.take(i as int)).len() > 0 && b@ == lex_max(
                    decoded_ids(batch@.take(i as int)),
                ),
            },
        decreases batch.len() - i,
    {
        let it = &batch[i];
        let d = decode36(it.id.as_str());
        proof {
            assert(batch@.take(i + 1) =~= batch@.take(i as int).push(batch@[i as int]));
            lemma_decoded_ids_push(batch@.take(i as int), batch@[i as int]);
        }
        match d {
            Some(v) => {
                let replace: bool = match &best {
                    None => true,
                    Some(b) => lex_lt_exec(b, &v),
                };
                proof {
                    let dpre = decoded_ids(batch@.take(i as int));
                    let dpost = decoded_ids(batch@.take(i + 1));
                    if dpre.len() > 0 {
                        assert(dpost.drop_last() =~= dpre);
                        assert(dpost.last() == v@);
                    }
                }
                if replace {
                    best = Some(v);
                }
            },
            None => {},
        }
        i += 1;
    }
    proof {
        assert(batch@.take(batch.len() as int) =~= batch@);
    }
    match best {
        None => marker,
        Some(v) => Some(v),
    }
}

/// Lexicographic order is connex: two keys are equal or one lies below the other.
proof fn lemma_lex_connex(a: Seq<u8>, b: Seq<u8>)
    ensures
        lex_lt(a, b) || lex_lt(b, a) || a == b,
    decreases a.len(),
{
    if b.len() == 0 {
        if a.len() == 0 {
            assert(a =~= b);
        }
    } else if a.len() == 0 {
    } else if a[0] < b[0] {
    } else if a[0] > b[0] {
    } else {
        lemma_lex_connex(a.drop_first(), b.drop_first());
        if a.drop_first() == b.drop_first() {
            assert(a.drop_first().len() == a.len() - 1);
            assert(b.drop_first().len() == b.len() - 1);
            assert(a.len() == b.len());
            assert forall|j: int| 0 <= j < a.len() implies a[j] == b[j] by {
                if j > 0 {
                    assert(a[j] == a.drop_first()[j - 1]);
                    assert(b[j] == b.drop_first()[j - 1]);
                }
            }
            assert(a =~= b);
        }
    }
}

/// Lexicographic order is transitive.
proof fn lemma_lex_lt_trans(a: Seq<u8>, b: Seq<u8>, c: Seq<u8>)
    requires
        lex_lt(a, b),
        lex_lt(b, c),
    ensures
        lex_lt(a, c),
    decreases a.len(),
{
    if a.len() == 0 {
    } else {
        if a[0] == b[0] && b[0] == c[0] {
            lemma_lex_lt_trans(a.drop_first(), b.drop_first(), c.drop_first());
        }
    }
}

/// The maximum of a non-empty key sequence is one of its elements, and every
/// element lies at or below it.
proof fn lemma_lex_max_props(s: Seq<Seq<u8>>)
    requires
        s.len() > 0,
    ensures
        s.contains(lex_max(s)),
        forall|i: int| 0 <= i < s.len() ==> lex_le(#[trigger] s[i], lex_max(s)),
    decreases s.len(),
{
    if s.len() == 1 {
        assert(s[0] == lex_max(s));
        assert(s.contains(s[0]));
    } else {
        let d = s.drop_last();
        lemma_lex_max_props(d);
        let m = lex_max(d);
        let l = s.last();
        if lex_lt(m, l) {
            assert(lex_max(s) == l);
            assert(s[s.len() - 1] == l);
            assert(s.contains(l));
            assert forall|i: int| 0 <= i < s.len() implies lex_le(#[trigger] s[i], lex_max(s)) by {
                if i < s.len() - 1 {
                    assert(d[i] == s[i]);
                    assert(lex_le(s[i], m));
                    if s[i] == m {
                    } else {
                        lemma_lex_lt_trans(s[i], m, l);
                    }
                }
            }
        } else {
            lemma_lex_connex(m, l);
            assert(lex_max(s) == m);
            let j = choose|j: int| 0 <= j < d.len() && d[j] == m;
            assert(s[j] == m);
            assert(s.contains(m));
            assert forall|i: int| 0 <= i < s.len() implies lex_le(#[trigger] s[i], lex_max(s)) by {
                if i < s.len() - 1 {
                    assert(d[i] == s[i]);
                }
            }
        }
    }
}

/// Every emitted item comes out of the batch and satisfies the emission
/// predicate: it lies above the marker and matches a keyword.
pub proof fn lemma_emitted_subset(mv: Option<Seq<u8>>, kws: Seq<Seq<char>>, batch: Seq<FeedItem>)
    ensures
        forall|j: int|
            0 <= j < emitted_spec(mv, kws, batch).len() ==> batch.contains(
                #[trigger] emitted_spec(mv, kws, batch)[j],
            ) && emit_pred(mv, kws, emitted_spec(mv, kws, batch)[j]),
    decreases batch.len(),
{
    reveal(Seq::filter);
    if batch.len() == 0 {
    } else {
        let d = batch.drop_last();
        lemma_emitted_subset(mv, kws, d);
        assert(d.push(batch.last()) =~= batch);
        lemma_emitted_push(mv, kws, d, batch.last());
        let e = emitted_spec(mv, kws, batch);
        let ed = emitted_spec(mv, kws, d);
        assert forall|j: int| 0 <= j < e.len() implies batch.contains(#[trigger] e[j])
            && emit_pred(mv, kws, e[j]) by {
            if j < ed.len() {
                assert(e[j] == ed[j]);
                let k = choose|k: int| 0 <= k < d.len() && d[k] == ed[j];
                assert(batch[k] == e[j]);
            } else {
                assert(e[j] == batch.last());
                assert(batch[batch.len() - 1] == e[j]);
            }
        }
    }
}

/// After one poll cycle over a fetched batch the marker is unchanged when
/// nothing in the batch decodes (in particular when the batch is empty);
/// otherwise it is the greatest decoded key of the whole batch — a key that
/// occurs in the batch and that every key of the batch lies at or below,
/// whether or not the item matched. Every emitted item comes out of the
/// batch, lies strictly above the old marker, and matches a keyword.
pub proof fn lemma_poll_cycle_law(
    marker: Option<Seq<u8>>,
    kws: Seq<Seq<char>>,
    batch: Seq<FeedItem>,
)
    ensures
        decoded_ids(batch).len() == 0 ==> marker_after(marker, batch) == marker,
        decoded_ids(batch).len() > 0 ==> {
            let m = lex_max(decoded_ids(batch));
            marker_after(marker, batch) == Some(m) && decoded_ids(batch).contains(m) && (forall|
                i: int,
            |
                0 <= i < decoded_ids(batch).len() ==> lex_le(#[trigger] decoded_ids(batch)[i], m))
        },
        forall|j: int|
            0 <= j < emitted_spec(marker, kws, batch).len() ==> batch.contains(
                #[trigger] emitted_spec(marker, kws, batch)[j],
            ) && emit_pred(marker, kws, emitted_spec(marker, kws, batch)[j]),
{
    if decoded_ids(batch).len() > 0 {
        lemma_lex_max_props(decoded_ids(batch));
    }
    lemma_emitted_subset(marker, kws, batch);
}

/// A cycle over an empty fetch result emits nothing and leaves the marker
/// unchanged, so re-running it changes nothing either: one such cycle and
/// two in a row end in the same state.
pub proof fn lemma_empty_cycle_idempotent(marker: Option<Seq<u8>>, kws: Seq<Seq<char>>)
    ensures
        marker_after(marker, Seq::<FeedItem>::empty()) == marker,
        emitted_spec(marker, kws, Seq::<FeedItem>::empty()) == Seq::<FeedItem>::empty(),
        marker_after(marker_after(marker, Seq::<FeedItem>::empty()), Seq::<FeedItem>::empty())
            == marker,
{
    reveal(Seq::filter);
    assert(decoded_ids(Seq::<FeedItem>::empty()).len() == 0);
    assert(emitted_spec(marker, kws, Seq::<FeedItem>::empty()) =~= Seq::<FeedItem>::empty());
}

} // verus!
