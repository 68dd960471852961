use feed_relay::feed::{poll_cycle, FeedFetch, FeedItem};

fn item(id: &str, title: &str) -> FeedItem {
    FeedItem {
        id: id.to_string(),
        title: title.to_string(),
        body: String::new(),
        url: None,
    }
}

#[test]
fn first_cycle_emits_matches_and_advances_marker_to_batch_max() {
    let batch = vec![item("3", "WTS keyboard"), item("5", "random")];
    let kws = vec!["wts".to_string()];
    let (marker, emitted) = poll_cycle(None, &FeedFetch::Items(batch), &kws);
    assert_eq!(emitted.len(), 1);
    assert_eq!(emitted[0].id, "3");
    // the marker is the maximum of the whole batch, not of the matches
    assert_eq!(marker, Some(vec![5u8]));
}

#[test]
fn transient_error_changes_nothing() {
    let kws = vec!["wts".to_string()];
    let before = Some(vec![9u8]);
    let (marker, emitted) = poll_cycle(before.clone(), &FeedFetch::TransientError, &kws);
    assert_eq!(marker, before);
    assert!(emitted.is_empty());
}

#[test]
fn empty_batch_is_idempotent() {
    let kws = vec!["wts".to_string()];
    let before = Some(vec![7u8]);
    let (marker, emitted) = poll_cycle(before.clone(), &FeedFetch::Items(vec![]), &kws);
    assert_eq!(marker, before);
    assert!(emitted.is_empty());
    let (marker2, emitted2) = poll_cycle(marker, &FeedFetch::Items(vec![]), &kws);
    assert_eq!(marker2, before);
    assert!(emitted2.is_empty());
}

#[test]
fn marker_advances_even_when_nothing_matches() {
    let batch = vec![item("z", "nothing of note")];
    let kws = vec!["wts".to_string()];
    let (marker, emitted) = poll_cycle(None, &FeedFetch::Items(batch), &kws);
    assert!(emitted.is_empty());
    assert_eq!(marker, Some(vec![35u8]));
}

#[test]
fn items_at_or_below_marker_are_not_emitted_again() {
    let kws = vec!["wts".to_string()];
    let batch = vec![item("3", "WTS keyboard")];
    let (marker, emitted) = poll_cycle(None, &FeedFetch::Items(batch), &kws);
    assert_eq!(emitted.len(), 1);
    let batch_again = vec![item("3", "WTS keyboard")];
    let (marker2, emitted2) = poll_cycle(marker.clone(), &FeedFetch::Items(batch_again), &kws);
    assert!(emitted2.is_empty());
    assert_eq!(marker2, marker);
}

#[test]
fn marker_uses_the_decoded_order() {
    // "10" decodes to 36, "z" to 35: the two-digit id is the greater key
    let batch = vec![item("z", "a"), item("10", "b")];
    let kws = vec!["wts".to_string()];
    let (marker, _) = poll_cycle(None, &FeedFetch::Items(batch), &kws);
    assert_eq!(marker, Some(vec![36u8]));
}

#[test]
fn body_matches_count_too() {
    let mut it = item("4", "no signal here");
    it.body = "selling KEYCAPS".to_string();
    let kws = vec!["keycap".to_string()];
    let (_, emitted) = poll_cycle(None, &FeedFetch::Items(vec![it]), &kws);
    assert_eq!(emitted.len(), 1);
}

#[test]
fn emission_keeps_arrival_order() {
    let batch = vec![item("5", "WTS one"), item("3", "WTS two")];
    let kws = vec!["wts".to_string()];
    let (marker, emitted) = poll_cycle(None, &FeedFetch::Items(batch), &kws);
    assert_eq!(emitted.len(), 2);
    assert_eq!(emitted[0].id, "5");
    assert_eq!(emitted[1].id, "3");
    assert_eq!(marker, Some(vec![5u8]));
}

#[test]
fn items_above_the_marker_are_emitted() {
    let kws = vec!["wts".to_string()];
    let (marker, _) = poll_cycle(None, &FeedFetch::Items(vec![item("3", "quiet")]), &kws);
    assert_eq!(marker, Some(vec![3u8]));
    let batch = vec![item("5", "WTS board")];
    let (marker2, emitted) = poll_cycle(marker, &FeedFetch::Items(batch), &kws);
    assert_eq!(emitted.len(), 1);
    assert_eq!(emitted[0].id, "5");
    assert_eq!(marker2, Some(vec![5u8]));
}
