use discord_statistics::scan::ScanState;
use discord_statistics::store::{StatsStore, StoreMessage};

fn msg(id: u64, channel: u64, author: u64, time: i64) -> StoreMessage {
    StoreMessage {
        message_id: id,
        time,
        content: String::new(),
        channel_id: channel,
        guild_id: None,
        author_id: author,
    }
}

/// A channel's full history, newest first, as the transport serves it.
fn history(n: u64) -> Vec<StoreMessage> {
    (0..n).map(|k| msg(n - k, 7, 9, (n - k) as i64)).collect()
}

/// Serves one page request against a fixed history: up to `limit`
/// messages strictly older (smaller id) than `before`.
fn fetch(chan: &[StoreMessage], before: Option<u64>, limit: u64) -> Vec<StoreMessage> {
    chan.iter()
        .filter(|m| match before {
            Some(b) => m.message_id < b,
            None => true,
        })
        .take(limit as usize)
        .cloned()
        .collect()
}

/// Drives one channel's scan to completion; how many page requests it
/// issued.
fn drive(store: &mut StatsStore, chan: &[StoreMessage], max_count: u64) -> u64 {
    let mut state = ScanState::new(max_count);
    let mut requests = 0u64;
    while let Some(req) = state.next_request() {
        requests += 1;
        let page = fetch(chan, req.before, req.limit);
        state.on_page(store, None, &page);
    }
    requests
}

#[test]
fn page_size_is_capped_by_transport_and_budget() {
    assert_eq!(ScanState::new(5).page_size, 5);
    assert_eq!(ScanState::new(100).page_size, 100);
    assert_eq!(ScanState::new(1000).page_size, 100);
}

#[test]
fn no_request_once_budget_is_spent_or_scan_failed() {
    let state = ScanState::new(0);
    assert!(state.next_request().is_none());
    let mut state = ScanState::new(10);
    assert!(state.next_request().is_some());
    state.on_error();
    assert!(state.next_request().is_none());
}

#[test]
fn first_request_has_no_cursor_then_follows_the_oldest_seen() {
    let mut store = StatsStore::new();
    let chan = history(7);
    let mut state = ScanState::new(200);
    let req = state.next_request().unwrap();
    assert_eq!(req.before, None);
    assert_eq!(req.limit, 100);
    let page = fetch(&chan, req.before, req.limit);
    state.on_page(&mut store, None, &page);
    let req = state.next_request().unwrap();
    assert_eq!(req.before, Some(1)); // ids 7..1 were served; 1 is the oldest
}

#[test]
fn exact_budget_scans_in_ceil_pages() {
    // 5 messages, budget 5: page size 5, one request, 5 rows
    let mut store = StatsStore::new();
    let chan = history(5);
    assert_eq!(drive(&mut store, &chan, 5), 1);
    assert_eq!(store.get_msg_count().unwrap(), 5);

    // 250 messages, budget 250: page size 100, ceil(250/100) = 3 requests
    let mut store = StatsStore::new();
    let chan = history(250);
    assert_eq!(drive(&mut store, &chan, 250), 3);
    assert_eq!(store.get_msg_count().unwrap(), 250);
}

#[test]
fn an_oversized_budget_costs_one_extra_empty_page() {
    // 5 messages, budget 1000: one page of 5, then the empty page that
    // reveals the channel start
    let mut store = StatsStore::new();
    let chan = history(5);
    assert_eq!(drive(&mut store, &chan, 1000), 2);
    assert_eq!(store.get_msg_count().unwrap(), 5);
}

#[test]
fn rescanning_collapses_duplicates() {
    let mut store = StatsStore::new();
    let chan = history(12);
    drive(&mut store, &chan, 12);
    assert_eq!(store.get_msg_count().unwrap(), 12);
    // a second scan over the same channel inserts nothing new
    drive(&mut store, &chan, 12);
    assert_eq!(store.get_msg_count().unwrap(), 12);
}

#[test]
fn scanned_rows_carry_the_scans_guild() {
    let mut store = StatsStore::new();
    let chan = history(2);
    let mut state = ScanState::new(2);
    let req = state.next_request().unwrap();
    let page = fetch(&chan, req.before, req.limit);
    state.on_page(&mut store, Some(77), &page);
    assert_eq!(store.get_message_with_channel_id(7, 1).unwrap().guild_id, Some(77));
    assert_eq!(store.get_guilds().unwrap(), vec![77]);
}

#[test]
fn an_empty_page_ends_the_channel() {
    let mut store = StatsStore::new();
    let mut state = ScanState::new(10);
    state.on_page(&mut store, None, &Vec::new());
    assert!(state.next_request().is_none());
    assert_eq!(store.get_msg_count().unwrap(), 0);
}
