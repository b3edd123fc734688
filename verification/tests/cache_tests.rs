use mailcore::cache::MessageCollection;
use mailcore::error::MailError;
use mailcore::message::{Contact, Message};

fn header(id: usize) -> Message {
    Message {
        id,
        subject: format!("message {}", id),
        from: Contact { name: None, email: "a@b.c".to_string() },
        to: None,
        cc: None,
        bcc: None,
        read: false,
    }
}

fn page_ids(cache: &MessageCollection) -> Vec<usize> {
    let (start, end) = cache.get_current_page().unwrap();
    let mut ids: Vec<usize> = Vec::new();
    let mut i = start;
    while i < end {
        ids.push(cache.message_at(i).id);
        i += 1;
    }
    ids
}

#[test]
fn lazy_fetch_plans_next_older_range() {
    let cache = MessageCollection::new(2);
    // empty cache: fetch starts one below the mailbox total
    assert_eq!(cache.next_fetch_range(10), Some((8, 9)));
}

#[test]
fn pagination_keeps_descending_order() {
    let mut cache = MessageCollection::new(2);
    let (lo, hi) = cache.next_fetch_range(10).unwrap();
    assert_eq!((lo, hi), (8, 9));
    // the server returns the requested range oldest first
    cache.extend_with_batch(vec![header(8), header(9)]).unwrap();
    assert_eq!(page_ids(&cache), vec![9, 8]);
    cache.next_page();
    let (lo, hi) = cache.next_fetch_range(10).unwrap();
    assert_eq!((lo, hi), (6, 7));
    cache.extend_with_batch(vec![header(6), header(7)]).unwrap();
    assert_eq!(page_ids(&cache), vec![7, 6]);
    // the cached sequence is strictly descending with no gaps
    let mut i = 0;
    while i < cache.cached_len() {
        assert_eq!(cache.message_at(i).id, 9 - i);
        i += 1;
    }
}

#[test]
fn current_page_is_idempotent() {
    let mut cache = MessageCollection::new(2);
    cache.extend_with_batch(vec![header(8), header(9)]).unwrap();
    let first = page_ids(&cache);
    // a second read plans no further fetch and sees the same content
    assert_eq!(cache.next_fetch_range(10), None);
    let second = page_ids(&cache);
    assert_eq!(first, second);
    assert_eq!(cache.next_fetch_range(10), None);
}

#[test]
fn exhausted_mailbox_stops_fetching() {
    let mut cache = MessageCollection::new(4);
    assert_eq!(cache.next_fetch_range(3), Some((1, 2)));
    cache.extend_with_batch(vec![header(1), header(2)]).unwrap();
    // the oldest message is cached; nothing older can be asked for
    assert_eq!(cache.next_fetch_range(3), None);
    assert!(cache.get_current_page().is_none());
}

#[test]
fn misordered_batch_is_rejected_whole() {
    let mut cache = MessageCollection::new(2);
    cache.extend_with_batch(vec![header(8), header(9)]).unwrap();
    let res = cache.extend_with_batch(vec![header(5), header(6)]);
    assert!(matches!(res, Err(MailError::Parse)));
    // nothing was appended
    assert_eq!(cache.cached_len(), 2);
    let res = cache.extend_with_batch(vec![header(7), header(6)]);
    assert!(matches!(res, Err(MailError::Parse)));
    assert_eq!(cache.cached_len(), 2);
}

#[test]
fn page_navigation_saturates_at_zero() {
    let mut cache = MessageCollection::new(2);
    cache.prev_page();
    assert_eq!(cache.current_page, 0);
    cache.next_page();
    assert_eq!(cache.current_page, 1);
    cache.prev_page();
    assert_eq!(cache.current_page, 0);
}

#[test]
fn message_id_lookup_within_page() {
    let mut cache = MessageCollection::new(2);
    cache.extend_with_batch(vec![header(8), header(9)]).unwrap();
    assert_eq!(cache.message_id_at(0), Some(9));
    assert_eq!(cache.message_id_at(1), Some(8));
    assert_eq!(cache.message_id_at(2), None);
}
