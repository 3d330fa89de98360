use discord_statistics::event_handler::Handler;
use discord_statistics::store::{MessageUpdate, StatsStore, StoreMessage};

fn msg(id: u64, channel: u64, guild: Option<u64>, author: u64, content: &str, time: i64) -> StoreMessage {
    StoreMessage {
        message_id: id,
        time,
        content: content.to_string(),
        channel_id: channel,
        guild_id: guild,
        author_id: author,
    }
}

#[test]
fn nothing_is_accepted_before_ready() {
    let h = Handler::new(StatsStore::new(), vec![(Some(1), 2)]);
    assert!(!h.should_handle(9, Some(1), 2));
    assert!(!h.should_handle(9, None, 2));
    assert!(!h.should_handle_no_guild(9));
}

#[test]
fn filter_accepts_author_or_allowlisted_channel() {
    let mut h = Handler::new(StatsStore::new(), vec![(Some(1), 2), (None, 3)]);
    h.ready(9);
    // author matches the tracked identity
    assert!(h.should_handle(9, None, 999));
    assert!(h.should_handle_no_guild(9));
    // (guild, channel) on the allowlist, any author
    assert!(h.should_handle(5, Some(1), 2));
    assert!(h.should_handle(5, None, 3));
    // neither
    assert!(!h.should_handle(5, Some(1), 3));
    assert!(!h.should_handle(5, None, 2));
    assert!(!h.should_handle(5, Some(2), 2));
    assert!(!h.should_handle_no_guild(5));
}

#[test]
fn messages_are_recorded_only_when_accepted() {
    let mut h = Handler::new(StatsStore::new(), Vec::new());
    h.message(&msg(1, 1, None, 9, "early", 1));
    assert_eq!(h.store().get_msg_count().unwrap(), 0);
    h.ready(9);
    h.message(&msg(1, 1, None, 9, "mine", 2));
    h.message(&msg(2, 1, None, 8, "not mine", 3));
    assert_eq!(h.store().get_msg_count().unwrap(), 1);
    assert_eq!(h.store().get_message_with_channel_id(1, 1).unwrap().content, "mine");
}

#[test]
fn a_storage_rejection_never_disturbs_the_session() {
    let mut h = Handler::new(StatsStore::new(), Vec::new());
    h.ready(9);
    h.message(&msg(1, 1, None, 9, "first", 1));
    h.message(&msg(1, 1, None, 9, "replayed", 2));
    assert_eq!(h.store().get_msg_count().unwrap(), 1);
    assert_eq!(h.store().get_message_with_channel_id(1, 1).unwrap().content, "first");
}

#[test]
fn ready_refreshes_the_tracked_identity() {
    let mut h = Handler::new(StatsStore::new(), Vec::new());
    h.ready(9);
    h.message(&msg(1, 1, None, 9, "a", 1));
    h.ready(10); // reconnect as someone else
    h.message(&msg(2, 1, None, 10, "b", 2));
    h.message(&msg(3, 1, None, 9, "c", 3));
    assert_eq!(h.store().get_msg_count().unwrap(), 2);
    assert_eq!(h.store().get_user_msg_count().unwrap(), 1);
}

#[test]
fn updates_without_an_author_are_dropped() {
    let mut h = Handler::new(StatsStore::new(), Vec::new());
    h.ready(9);
    h.message_update(
        None,
        None,
        &MessageUpdate {
            message_id: 1,
            channel_id: 1,
            author_id: None,
            time: Some(5),
            content: Some("x".to_string()),
        },
    );
    assert_eq!(h.store().get_edit_count().unwrap(), 0);
}

#[test]
fn updates_take_the_guild_from_the_snapshots() {
    // the allowlist names (guild 1, channel 2); the update alone has no
    // guild, the new snapshot supplies it
    let mut h = Handler::new(StatsStore::new(), vec![(Some(1), 2)]);
    h.ready(9);
    let snapshot = msg(1, 2, Some(1), 5, "old text", 1);
    h.message_update(
        None,
        Some(&snapshot),
        &MessageUpdate {
            message_id: 1,
            channel_id: 2,
            author_id: Some(5),
            time: Some(10),
            content: Some("new text".to_string()),
        },
    );
    assert_eq!(h.store().get_edit_count().unwrap(), 1);
    let (times, contents) = h.store().get_edit_record(1).unwrap();
    assert_eq!(times, vec![Some(10)]);
    assert_eq!(contents, vec![Some("new text".to_string())]);
}

#[test]
fn rejected_updates_leave_the_log_alone() {
    let mut h = Handler::new(StatsStore::new(), Vec::new());
    h.ready(9);
    h.message_update(
        None,
        None,
        &MessageUpdate {
            message_id: 1,
            channel_id: 1,
            author_id: Some(5),
            time: Some(10),
            content: Some("x".to_string()),
        },
    );
    assert_eq!(h.store().get_edit_count().unwrap(), 0);
}

#[test]
fn deletions_are_attributed_through_the_stored_message() {
    let mut h = Handler::new(StatsStore::new(), Vec::new());
    h.ready(9);
    h.message(&msg(100, 5, None, 9, "hi", 1));
    // unknown message: silently dropped
    h.message_delete(5, 101);
    assert_eq!(h.store().get_deletions().len(), 0);
    // known and attributed
    h.message_delete(5, 100);
    let dels = h.store().get_deletions();
    assert_eq!(dels.len(), 1);
    assert_eq!(dels[0].channel_id, 5);
    assert_eq!(dels[0].message_id, 100);
}

#[test]
fn foreign_deletions_are_dropped() {
    let mut h = Handler::new(StatsStore::new(), vec![(None, 3)]);
    h.ready(9);
    // recorded because channel 3 is allowlisted, though author 8 is foreign
    h.message(&msg(200, 3, None, 8, "theirs", 1));
    h.ready(10); // now channel 3 still allowlisted: deletion attributes
    h.message_delete(3, 200);
    assert_eq!(h.store().get_deletions().len(), 1);

    let mut h2 = Handler::new(StatsStore::new(), Vec::new());
    h2.ready(9);
    h2.message(&msg(1, 1, None, 9, "mine", 1));
    h2.ready(10); // identity changed, no allowlist: deletion no longer attributable
    h2.message_delete(1, 1);
    assert_eq!(h2.store().get_deletions().len(), 0);
}

#[test]
fn bulk_deletion_attempts_each_id_independently() {
    let mut h = Handler::new(StatsStore::new(), Vec::new());
    h.ready(9);
    h.message(&msg(1, 4, None, 9, "a", 1));
    h.message(&msg(2, 4, None, 9, "b", 2));
    h.message(&msg(3, 4, None, 8, "not mine", 3));
    h.message_delete_bulk(4, &vec![1, 999, 3, 2]);
    let dels = h.store().get_deletions();
    // 999 is unknown and 3 is foreign; 1 and 2 land, in order
    assert_eq!(dels.len(), 2);
    assert_eq!(dels[0].message_id, 1);
    assert_eq!(dels[1].message_id, 2);
}
