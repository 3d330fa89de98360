use discord_statistics::error::StoreError;
use discord_statistics::store::{Channel, MessageUpdate, StatsStore, StoreMessage};

fn msg(id: u64, channel: u64, guild: Option<u64>, author: u64, content: &str, time: i64) -> StoreMessage {
    StoreMessage {
        message_id: id,
        time,
        content: content.to_string(),
        channel_id: channel,
        guild_id: guild,
        author_id: author,
    }
}

#[test]
fn insert_message_then_count_and_channels() {
    // insert message (id=100, channel=5, guild=None, author=9, content="hi", time=1000)
    let mut st = StatsStore::new();
    st.insert_msg(&msg(100, 5, None, 9, "hi", 1000)).unwrap();
    assert_eq!(st.get_msg_count().unwrap(), 1);
    assert_eq!(
        st.get_channels().unwrap(),
        vec![Channel { channel_id: 5, guild_id: None }]
    );
}

#[test]
fn duplicate_insert_is_rejected_and_changes_nothing() {
    let mut st = StatsStore::new();
    assert_eq!(st.insert_msg(&msg(100, 5, None, 9, "hi", 1000)), Ok(1));
    // same (message, channel) key, different content: no-op
    assert_eq!(
        st.insert_msg(&msg(100, 5, Some(7), 10, "changed", 2000)),
        Err(StoreError::AlreadyExists)
    );
    assert_eq!(st.get_msg_count().unwrap(), 1);
    let stored = st.get_message_with_channel_id(5, 100).unwrap();
    assert_eq!(stored.content, "hi");
    assert_eq!(stored.time, 1000);
    assert_eq!(stored.author_id, 9);
    assert_eq!(stored.guild_id, None);
}

#[test]
fn same_message_id_in_another_channel_is_a_new_row() {
    let mut st = StatsStore::new();
    assert_eq!(st.insert_msg(&msg(100, 5, None, 9, "a", 1)), Ok(1));
    assert_eq!(st.insert_msg(&msg(100, 6, None, 9, "b", 2)), Ok(1));
    assert_eq!(st.get_msg_count().unwrap(), 2);
}

#[test]
fn lookup_miss_is_not_found() {
    let st = StatsStore::new();
    assert_eq!(
        st.get_message_with_channel_id(5, 100).unwrap_err(),
        StoreError::NotFound
    );
}

#[test]
fn lookup_returns_exact_stored_row() {
    let mut st = StatsStore::new();
    st.insert_msg(&msg(1, 2, Some(3), 4, "exact", 77)).unwrap();
    st.insert_msg(&msg(9, 2, Some(3), 4, "other", 78)).unwrap();
    let m = st.get_message_with_channel_id(2, 1).unwrap();
    assert_eq!(m.message_id, 1);
    assert_eq!(m.channel_id, 2);
    assert_eq!(m.guild_id, Some(3));
    assert_eq!(m.author_id, 4);
    assert_eq!(m.content, "exact");
    assert_eq!(m.time, 77);
}

#[test]
fn first_edit_creates_then_second_extends() {
    // insert_edit with content="bye", time=1001 creates times=[1001],
    // contents=["bye"]; content="cya", time=1002 extends both.
    let mut st = StatsStore::new();
    st.insert_edit(&MessageUpdate {
        message_id: 100,
        channel_id: 5,
        author_id: Some(9),
        time: Some(1001),
        content: Some("bye".to_string()),
    })
    .unwrap();
    let (times, contents) = st.get_edit_record(100).unwrap();
    assert_eq!(times, vec![Some(1001)]);
    assert_eq!(contents, vec![Some("bye".to_string())]);

    st.insert_edit(&MessageUpdate {
        message_id: 100,
        channel_id: 5,
        author_id: Some(9),
        time: Some(1002),
        content: Some("cya".to_string()),
    })
    .unwrap();
    let (times, contents) = st.get_edit_record(100).unwrap();
    assert_eq!(times, vec![Some(1001), Some(1002)]);
    assert_eq!(contents, vec![Some("bye".to_string()), Some("cya".to_string())]);
    assert_eq!(st.get_edit_count().unwrap(), 2);
}

#[test]
fn edit_sequences_stay_aligned_when_a_part_is_absent() {
    let mut st = StatsStore::new();
    st.insert_edit(&MessageUpdate {
        message_id: 7,
        channel_id: 1,
        author_id: Some(2),
        time: None,
        content: Some("only content".to_string()),
    })
    .unwrap();
    st.insert_edit(&MessageUpdate {
        message_id: 7,
        channel_id: 1,
        author_id: Some(2),
        time: Some(50),
        content: None,
    })
    .unwrap();
    let (times, contents) = st.get_edit_record(7).unwrap();
    assert_eq!(times.len(), contents.len());
    assert_eq!(times, vec![None, Some(50)]);
    assert_eq!(contents, vec![Some("only content".to_string()), None]);
}

#[test]
fn edits_never_create_a_second_row() {
    let mut st = StatsStore::new();
    for k in 0..3 {
        st.insert_edit(&MessageUpdate {
            message_id: 42,
            channel_id: 8,
            author_id: Some(1),
            time: Some(k),
            content: None,
        })
        .unwrap();
    }
    let (times, _) = st.get_edit_record(42).unwrap();
    assert_eq!(times, vec![Some(0), Some(1), Some(2)]);
    assert_eq!(st.get_edit_count().unwrap(), 3);
    assert!(st.get_edit_record(43).is_none());
}

#[test]
fn edit_rows_are_stored_json_encoded() {
    let mut st = StatsStore::new();
    st.insert_edit(&MessageUpdate {
        message_id: 100,
        channel_id: 5,
        author_id: Some(9),
        time: Some(1001),
        content: Some("bye".to_string()),
    })
    .unwrap();
    let (times_json, contents_json) = st.get_edit_row_json(100).unwrap();
    assert_eq!(times_json, "[1001]");
    assert_eq!(contents_json, "[\"bye\"]");

    st.insert_edit(&MessageUpdate {
        message_id: 100,
        channel_id: 5,
        author_id: Some(9),
        time: None,
        content: None,
    })
    .unwrap();
    let (times_json, contents_json) = st.get_edit_row_json(100).unwrap();
    assert_eq!(times_json, "[1001,null]");
    assert_eq!(contents_json, "[\"bye\",null]");
}

#[test]
fn stored_edit_rows_decode_back() {
    let mut st = StatsStore::new();
    st.insert_edit(&MessageUpdate {
        message_id: 100,
        channel_id: 5,
        author_id: Some(9),
        time: Some(1001),
        content: Some("bye".to_string()),
    })
    .unwrap();
    let (times_json, contents_json) = st.get_edit_row_json(100).unwrap();
    let (times, contents) =
        discord_statistics::codec::decode_edit_sequences(&times_json, &contents_json).unwrap();
    let (t2, c2) = st.get_edit_record(100).unwrap();
    assert_eq!(times, t2);
    assert_eq!(contents, c2);
}

#[test]
fn malformed_rows_are_reported() {
    assert_eq!(
        discord_statistics::codec::decode_edit_sequences("not json", "[]").unwrap_err(),
        StoreError::Malformed
    );
    assert_eq!(
        discord_statistics::codec::decode_edit_sequences("[1]", "{").unwrap_err(),
        StoreError::Malformed
    );
}

#[test]
fn repeated_deletions_are_two_rows() {
    // insert_deletion("5","100") twice: two rows, append-only
    let mut st = StatsStore::new();
    st.insert_deletion(5, 100).unwrap();
    st.insert_deletion(5, 100).unwrap();
    let dels = st.get_deletions();
    assert_eq!(dels.len(), 2);
    assert_eq!(dels[0].message_id, 100);
    assert_eq!(dels[0].channel_id, 5);
    assert_eq!(dels[1].message_id, 100);
    assert_eq!(dels[1].channel_id, 5);
}

#[test]
fn deletions_keep_their_timestamps_in_order() {
    let mut st = StatsStore::new();
    st.insert_deletion_at(5, 100, 10).unwrap();
    st.insert_deletion_at(6, 200, 20).unwrap();
    let dels = st.get_deletions();
    assert_eq!(dels.len(), 2);
    assert_eq!((dels[0].channel_id, dels[0].message_id, dels[0].time), (5, 100, 10));
    assert_eq!((dels[1].channel_id, dels[1].message_id, dels[1].time), (6, 200, 20));
}

#[test]
fn user_count_follows_the_tracked_identity() {
    let mut st = StatsStore::new();
    st.insert_msg(&msg(1, 1, None, 9, "a", 1)).unwrap();
    st.insert_msg(&msg(2, 1, None, 8, "b", 2)).unwrap();
    st.insert_msg(&msg(3, 1, None, 9, "c", 3)).unwrap();
    // before the identity is known, the zero identifier is counted
    assert_eq!(st.get_user_msg_count().unwrap(), 0);
    st.set_current_user(9);
    assert_eq!(st.get_user_msg_count().unwrap(), 2);
    assert_eq!(st.get_msg_count().unwrap(), 3);
}

#[test]
fn unset_identity_counts_the_zero_author() {
    let mut st = StatsStore::new();
    st.insert_msg(&msg(1, 1, None, 0, "zero", 1)).unwrap();
    st.insert_msg(&msg(2, 1, None, 9, "nine", 2)).unwrap();
    assert_eq!(st.get_user_msg_count().unwrap(), 1);
}

#[test]
fn channels_and_guilds_are_distinct_in_first_seen_order() {
    let mut st = StatsStore::new();
    st.insert_msg(&msg(1, 10, Some(100), 9, "", 1)).unwrap();
    st.insert_msg(&msg(2, 11, None, 9, "", 2)).unwrap();
    st.insert_msg(&msg(3, 10, Some(100), 9, "", 3)).unwrap();
    st.insert_msg(&msg(4, 12, Some(200), 9, "", 4)).unwrap();
    assert_eq!(
        st.get_channels().unwrap(),
        vec![
            Channel { channel_id: 10, guild_id: Some(100) },
            Channel { channel_id: 11, guild_id: None },
            Channel { channel_id: 12, guild_id: Some(200) },
        ]
    );
    assert_eq!(st.get_guilds().unwrap(), vec![100, 200]);
}

#[test]
fn empty_store_reports_empty_aggregates() {
    let st = StatsStore::new();
    assert_eq!(st.get_msg_count().unwrap(), 0);
    assert_eq!(st.get_edit_count().unwrap(), 0);
    assert_eq!(st.get_channels().unwrap(), Vec::new());
    assert_eq!(st.get_guilds().unwrap(), Vec::<u64>::new());
    assert_eq!(st.get_total_msgs_per_day().unwrap(), Vec::new());
    assert!(st.get_deletions().is_empty());
}

#[test]
fn total_per_day_groups_and_orders_ascending() {
    let mut st = StatsStore::new();
    // two messages on 1970-01-02 (one guild, one direct), one on 1970-01-01
    st.insert_msg(&msg(1, 1, Some(7), 9, "", 86_400)).unwrap();
    st.insert_msg(&msg(2, 1, None, 9, "", 86_500)).unwrap();
    st.insert_msg(&msg(3, 1, None, 9, "", 0)).unwrap();
    let rows = st.get_total_msgs_per_day().unwrap();
    assert_eq!(
        rows,
        vec![
            ("1970-01-01".to_string(), 0, 1),
            ("1970-01-02".to_string(), 1, 1),
        ]
    );
}

#[test]
fn user_per_day_is_recent_only_and_descending() {
    let mut st = StatsStore::new();
    let now = chrono::Utc::now().timestamp();
    let yesterday = now - 86_400;
    st.insert_msg(&msg(1, 1, Some(7), 9, "", now)).unwrap();
    st.insert_msg(&msg(2, 1, None, 9, "", yesterday)).unwrap();
    st.insert_msg(&msg(3, 1, None, 9, "", 0)).unwrap(); // far past the week window
    st.insert_msg(&msg(4, 1, None, 8, "", now)).unwrap(); // other author
    st.set_current_user(9);
    let rows = st.get_user_msgs_per_day().unwrap();
    let today_str = chrono::DateTime::from_timestamp(now, 0)
        .unwrap()
        .date_naive()
        .to_string();
    let yesterday_str = chrono::DateTime::from_timestamp(yesterday, 0)
        .unwrap()
        .date_naive()
        .to_string();
    assert_eq!(
        rows,
        vec![(today_str, 1, 0), (yesterday_str, 0, 1)]
    );
}

#[test]
fn filtered_per_day_restricts_by_author_and_cutoff() {
    let mut st = StatsStore::new();
    st.insert_msg(&msg(1, 1, Some(7), 9, "", 0)).unwrap(); // 1970-01-01
    st.insert_msg(&msg(2, 1, None, 9, "", 86_400)).unwrap(); // 1970-01-02
    st.insert_msg(&msg(3, 1, None, 8, "", 172_800)).unwrap(); // 1970-01-03, other author
    let cutoff = "1970-01-01".to_string();
    let rows = st.msgs_per_day_filtered(Some(9), Some(&cutoff));
    assert_eq!(rows, vec![("1970-01-02".to_string(), 0, 1)]);
}
