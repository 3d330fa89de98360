//! The persistence store: three in-memory tables (messages, edits,
//! deletions) with the uniqueness and alignment invariants the
//! storage schema demands, and the insert / lookup operations of the
//! logger.

use vstd::prelude::*;

use crate::codec::contents_json_of;
use crate::codec::decode_edit_sequences;
use crate::codec::encode_contents;
use crate::codec::encode_times;
use crate::codec::times_json_of;
use crate::error::StoreError;
use crate::time::now_epoch;

verus! {

/// One observed chat message, as the store keeps it.
#[derive(Clone, Debug)]
pub struct StoreMessage {
    pub message_id: u64,
    pub time: i64,
    pub content: String,
    pub channel_id: u64,
    pub guild_id: Option<u64>,
    pub author_id: u64,
}

/// Mathematical model of a stored message.
pub struct MessageModel {
    pub message_id: u64,
    pub time: i64,
    pub content: Seq<char>,
    pub channel_id: u64,
    pub guild_id: Option<u64>,
    pub author_id: u64,
}

impl View for StoreMessage {
    type V = MessageModel;

    open spec fn view(&self) -> MessageModel {
        MessageModel {
            message_id: self.message_id,
            time: self.time,
            content: self.content@,
            channel_id: self.channel_id,
            guild_id: self.guild_id,
            author_id: self.author_id,
        }
    }
}

impl DeepView for StoreMessage {
    type V = MessageModel;

    open spec fn deep_view(&self) -> MessageModel {
        self.view()
    }
}

/// One edit-history row, kept exactly as the storage schema keeps it:
/// the parallel sequences of edit timestamps and content snapshots are
/// stored JSON-encoded, one array each, oldest entry first. An absent
/// timestamp or content is kept as `null`, so the two sequences always
/// stay the same length.
pub struct EditRecord {
    message_id: u64,
    channel_id: u64,
    times_json: String,
    contents_json: String,
    times: Ghost<Seq<Option<i64>>>,
    contents: Ghost<Seq<Option<Seq<char>>>>,
}

/// Mathematical model of an edit-history row.
pub struct EditModel {
    pub message_id: u64,
    pub channel_id: u64,
    pub times: Seq<Option<i64>>,
    pub contents: Seq<Option<Seq<char>>>,
}

impl View for EditRecord {
    type V = EditModel;

    closed spec fn view(&self) -> EditModel {
        EditModel {
            message_id: self.message_id,
            channel_id: self.channel_id,
            times: self.times@,
            contents: self.contents@,
        }
    }
}

impl DeepView for EditRecord {
    type V = EditModel;

    open spec fn deep_view(&self) -> EditModel {
        self.view()
    }
}

impl EditRecord {
    /// Every row carries, at all times, exactly the JSON renderings of
    /// its two model sequences: what is stored is what was encoded.
    #[verifier::type_invariant]
    spec fn encoding_linked(self) -> bool {
        self.times_json@ == times_json_of(self.times@) && self.contents_json@
            == contents_json_of(self.contents@)
    }
}

/// One entry of the append-only deletion log.
#[derive(Clone, Copy, Debug, PartialEq, Eq, Structural)]
pub struct DeletionRecord {
    pub message_id: u64,
    pub channel_id: u64,
    pub time: i64,
}

impl DeepView for DeletionRecord {
    type V = DeletionRecord;

    open spec fn deep_view(&self) -> DeletionRecord {
        *self
    }
}

/// A distinct (channel, optional guild) pair observed across messages.
#[derive(Clone, Copy, Debug, PartialEq, Eq, Structural)]
pub struct Channel {
    pub channel_id: u64,
    pub guild_id: Option<u64>,
}

/// One observed message-updated event, reduced to what the edit log
/// records: the edit's timestamp and the new content, either of which
/// the gateway may omit, plus the identifiers needed for filtering.
pub struct MessageUpdate {
    pub message_id: u64,
    pub channel_id: u64,
    pub author_id: Option<u64>,
    pub time: Option<i64>,
    pub content: Option<String>,
}

/// Mathematical model of a message-updated event.
pub struct UpdateModel {
    pub message_id: u64,
    pub channel_id: u64,
    pub author_id: Option<u64>,
    pub time: Option<i64>,
    pub content: Option<Seq<char>>,
}

impl View for MessageUpdate {
    type V = UpdateModel;

    open spec fn view(&self) -> UpdateModel {
        UpdateModel {
            message_id: self.message_id,
            channel_id: self.channel_id,
            author_id: self.author_id,
            time: self.time,
            content: self.content.deep_view(),
        }
    }
}

/// Mathematical model of the whole store.
pub struct StoreModel {
    pub messages: Seq<MessageModel>,
    pub edits: Seq<EditModel>,
    pub deletions: Seq<DeletionRecord>,
    pub current_user: Option<u64>,
}

/// Whether a message sequence holds a row under the (channel,
/// message) key.
pub open spec fn msgs_has_key(msgs: Seq<MessageModel>, channel_id: u64, message_id: u64) -> bool {
    exists|i: int|
        0 <= i < msgs.len() && msgs[i].channel_id == channel_id && msgs[i].message_id
            == message_id
}

/// Whether the model holds a message under the (channel, message) key.
pub open spec fn has_message(s: StoreModel, channel_id: u64, message_id: u64) -> bool {
    msgs_has_key(s.messages, channel_id, message_id)
}

/// The index of the message stored under the (channel, message) key.
pub open spec fn message_index(s: StoreModel, channel_id: u64, message_id: u64) -> int {
    choose|i: int|
        0 <= i < s.messages.len() && s.messages[i].channel_id == channel_id
            && s.messages[i].message_id == message_id
}

/// The message stored under the (channel, message) key.
pub open spec fn message_at(s: StoreModel, channel_id: u64, message_id: u64) -> MessageModel {
    s.messages[message_index(s, channel_id, message_id)]
}

/// Whether the model holds an edit record for the message.
pub open spec fn has_edit(s: StoreModel, message_id: u64) -> bool {
    exists|i: int| 0 <= i < s.edits.len() && s.edits[i].message_id == message_id
}

/// The index of the edit record of the message.
pub open spec fn edit_index(s: StoreModel, message_id: u64) -> int {
    choose|i: int| 0 <= i < s.edits.len() && s.edits[i].message_id == message_id
}

/// The edit record of the message.
pub open spec fn edit_at(s: StoreModel, message_id: u64) -> EditModel {
    s.edits[edit_index(s, message_id)]
}

/// Well-formedness of a store model: the (message, channel) key is
/// unique among messages, edit records are unique per message, and
/// each edit record's two sequences are index-aligned.
pub open spec fn store_model_wf(s: StoreModel) -> bool {
    &&& forall|i: int, j: int|
        0 <= i < j < s.messages.len() ==> !(s.messages[i].message_id == s.messages[j].message_id
            && s.messages[i].channel_id == s.messages[j].channel_id)
    &&& forall|i: int, j: int|
        0 <= i < j < s.edits.len() ==> s.edits[i].message_id != s.edits[j].message_id
    &&& forall|i: int|
        0 <= i < s.edits.len() ==> #[trigger] s.edits[i].times.len() == s.edits[i].contents.len()
}

/// The message table after one insert: unchanged when the (channel,
/// message) key is already stored, extended by the row otherwise.
pub open spec fn messages_after_insert(msgs: Seq<MessageModel>, m: MessageModel) -> Seq<
    MessageModel,
> {
    if msgs_has_key(msgs, m.channel_id, m.message_id) {
        msgs
    } else {
        msgs.push(m)
    }
}

/// Replay is idempotent: only the first insert under a (channel,
/// message) key lands. A second insert under the same key, whatever
/// content it carries, leaves the stored rows exactly as the first
/// one left them.
pub proof fn lemma_insert_msg_idempotent(
    msgs: Seq<MessageModel>,
    m1: MessageModel,
    m2: MessageModel,
)
    requires
        m2.channel_id == m1.channel_id,
        m2.message_id == m1.message_id,
    ensures
        messages_after_insert(messages_after_insert(msgs, m1), m2) == messages_after_insert(
            msgs,
            m1,
        ),
{
    let after = messages_after_insert(msgs, m1);
    if !msgs_has_key(msgs, m1.channel_id, m1.message_id) {
        assert(after[msgs.len() as int] == m1);
        assert(msgs_has_key(after, m2.channel_id, m2.message_id));
    }
}

/// The edit table after one recorded update: the message's existing
/// row extended by one entry on each sequence, or a fresh one-entry
/// row appended for a first edit.
pub open spec fn edits_after_insert(s: StoreModel, u: UpdateModel, new_edits: Seq<EditModel>) -> bool {
    if has_edit(s, u.message_id) {
        new_edits == s.edits.update(
            edit_index(s, u.message_id),
            (EditModel {
                message_id: edit_at(s, u.message_id).message_id,
                channel_id: edit_at(s, u.message_id).channel_id,
                times: edit_at(s, u.message_id).times.push(u.time),
                contents: edit_at(s, u.message_id).contents.push(u.content),
            }),
        )
    } else {
        new_edits == s.edits.push(
            (EditModel {
                message_id: u.message_id,
                channel_id: u.channel_id,
                times: seq![u.time],
                contents: seq![u.content],
            }),
        )
    }
}

/// The edit log is append-only and index-aligned: recording an update
/// never drops or reorders an entry. The affected row's two sequences
/// are exactly the old ones with the update's timestamp and content
/// appended (a first edit starts both at one entry), every other row
/// is untouched, and every row's two sequences keep the same length.
pub proof fn lemma_edit_log_append_only(s: StoreModel, u: UpdateModel, new_edits: Seq<EditModel>)
    requires
        store_model_wf(s),
        edits_after_insert(s, u, new_edits),
    ensures
        forall|i: int|
            0 <= i < new_edits.len() ==> #[trigger] new_edits[i].times.len()
                == new_edits[i].contents.len(),
        has_edit(s, u.message_id) ==> new_edits.len() == s.edits.len() && new_edits[edit_index(
            s,
            u.message_id,
        )].times == s.edits[edit_index(s, u.message_id)].times.push(u.time)
            && new_edits[edit_index(s, u.message_id)].contents == s.edits[edit_index(
            s,
            u.message_id,
        )].contents.push(u.content) && (forall|i: int|
            0 <= i < s.edits.len() && i != edit_index(s, u.message_id)
                ==> #[trigger] new_edits[i] == s.edits[i]),
        !has_edit(s, u.message_id) ==> new_edits == s.edits.push(
            (EditModel {
                message_id: u.message_id,
                channel_id: u.channel_id,
                times: seq![u.time],
                contents: seq![u.content],
            }),
        ),
{
    if has_edit(s, u.message_id) {
        let k = edit_index(s, u.message_id);
        assert(0 <= k < s.edits.len() && s.edits[k].message_id == u.message_id);
        assert forall|i: int|
            0 <= i < new_edits.len() implies #[trigger] new_edits[i].times.len()
            == new_edits[i].contents.len() by {
            if i != k {
                assert(new_edits[i] == s.edits[i]);
            } else {
                assert(s.edits[k].times.len() == s.edits[k].contents.len());
            }
        }
    } else {
        assert forall|i: int|
            0 <= i < new_edits.len() implies #[trigger] new_edits[i].times.len()
            == new_edits[i].contents.len() by {
            if i < s.edits.len() {
                assert(new_edits[i] == s.edits[i]);
            } else {
                assert(new_edits[i].times == seq![u.time]);
                assert(new_edits[i].contents == seq![u.content]);
            }
        }
    }
}

/// The store owning the three tables and the tracked identity.
pub struct StatsStore {
    messages: Vec<StoreMessage>,
    edits: Vec<EditRecord>,
    deletions: Vec<DeletionRecord>,
    current_user: Option<u64>,
}

impl View for StatsStore {
    type V = StoreModel;

    closed spec fn view(&self) -> StoreModel {
        StoreModel {
            messages: self.messages.deep_view(),
            edits: self.edits.deep_view(),
            deletions: self.deletions@,
            current_user: self.current_user,
        }
    }
}

impl StatsStore {
    /// Well-formedness of the store, as `store_model_wf` states it of
    /// its model.
    pub open spec fn wf(&self) -> bool {
        store_model_wf(self@)
    }

    /// A fresh store: all three tables empty, no tracked identity yet.
    pub fn new() -> (r: StatsStore)
        ensures
            r.wf(),
            r@.messages == Seq::<MessageModel>::empty(),
            r@.edits == Seq::<EditModel>::empty(),
            r@.deletions == Seq::<DeletionRecord>::empty(),
            r@.current_user is None,
    {
        let r = StatsStore {
            messages: Vec::new(),
            edits: Vec::new(),
            deletions: Vec::new(),
            current_user: None,
        };
        proof {
            assert(r@.messages =~= Seq::<MessageModel>::empty());
            assert(r@.edits =~= Seq::<EditModel>::empty());
        }
        r
    }

    /// Replaces the tracked identity; refreshed once per session.
    pub fn set_current_user(&mut self, user_id: u64)
        requires
            old(self).wf(),
        ensures
            final(self).wf(),
            final(self)@.current_user == Some(user_id),
            final(self)@.messages == old(self)@.messages,
            final(self)@.edits == old(self)@.edits,
            final(self)@.deletions == old(self)@.deletions,
    {
        self.current_user = Some(user_id);
        proof {
            assert(self@.messages == old(self)@.messages);
            assert(self@.edits == old(self)@.edits);
            assert(self.wf());
        }
    }

    /// Inserts one message row. A duplicate (message, channel) key is
    /// rejected with the distinguished `AlreadyExists` outcome and leaves
    /// every stored row unchanged; a fresh key appends exactly one row.
    #[verifier::loop_isolation(false)]
    pub fn insert_msg(&mut self, msg: &StoreMessage) -> (r: Result<usize, StoreError>)
        requires
            old(self).wf(),
        ensures
            final(self).wf(),
            final(self)@.edits == old(self)@.edits,
            final(self)@.deletions == old(self)@.deletions,
            final(self)@.current_user == old(self)@.current_user,
            final(self)@.messages == messages_after_insert(old(self)@.messages, msg@),
            has_message(old(self)@, msg.channel_id, msg.message_id) ==> r == Err::<
                usize,
                StoreError,
            >(StoreError::AlreadyExists),
            !has_message(old(self)@, msg.channel_id, msg.message_id) ==> r == Ok::<
                usize,
                StoreError,
            >(1usize),
    {
        let n = self.messages.len();
        let mut i: usize = 0;
        while i < n
            invariant
                i <= n,
                n == self.messages.len(),
                forall|k: int|
                    0 <= k < i ==> !(#[trigger] self.messages@[k].message_id == msg.message_id
                        && self.messages@[k].channel_id == msg.channel_id),
                *self == *old(self),
            decreases n - i,
        {
            if self.messages[i].message_id == msg.message_id && self.messages[i].channel_id
                == msg.channel_id {
                proof {
                    assert(self@.messages[i as int].message_id == msg.message_id
                        && self@.messages[i as int].channel_id == msg.channel_id);
                }
                return Err(StoreError::AlreadyExists);
            }
            i += 1;
        }
        proof {
            assert(forall|k: int|
                0 <= k < self@.messages.len() ==> !(#[trigger] self@.messages[k].message_id
                    == msg.message_id && self@.messages[k].channel_id == msg.channel_id));
            assert(!has_message(self@, msg.channel_id, msg.message_id));
        }
        let row = StoreMessage {
            message_id: msg.message_id,
            time: msg.time,
            content: msg.content.clone(),
            channel_id: msg.channel_id,
            guild_id: msg.guild_id,
            author_id: msg.author_id,
        };
        self.messages.push(row);
        proof {
            assert(self@.messages =~= old(self)@.messages.push(msg@));
            assert(self@.edits == old(self)@.edits);
            assert(self@.deletions == old(self)@.deletions);
            assert(forall|i: int, j: int|
                0 <= i < j < self@.messages.len() ==> !(self@.messages[i].message_id
                    == self@.messages[j].message_id && self@.messages[i].channel_id
                    == self@.messages[j].channel_id));
            assert(self.wf());
        }
        Ok(1)
    }

    /// Point lookup by (channel, message) key: the stored row when the
    /// pair was inserted, the routine `NotFound` outcome when it never was.
    #[verifier::loop_isolation(false)]
    pub fn get_message_with_channel_id(&self, channel_id: u64, message_id: u64) -> (r: Result<
        StoreMessage,
        StoreError,
    >)
        requires
            self.wf(),
        ensures
            (match r {
                Ok(m) => has_message(self@, channel_id, message_id) && m@ == message_at(
                    self@,
                    channel_id,
                    message_id,
                ),
                Err(e) => e == StoreError::NotFound && !has_message(
                    self@,
                    channel_id,
                    message_id,
                ),
            }),
    {
        let n = self.messages.len();
        let mut i: usize = 0;
        while i < n
            invariant
                i <= n,
                n == self.messages.len(),
                self.wf(),
                forall|k: int|
                    0 <= k < i ==> !(#[trigger] self.messages@[k].message_id == message_id
                        && self.messages@[k].channel_id == channel_id),
            decreases n - i,
        {
            if self.messages[i].message_id == message_id && self.messages[i].channel_id
                == channel_id {
                let m = &self.messages[i];
                let row = StoreMessage {
                    message_id: m.message_id,
                    time: m.time,
                    content: m.content.clone(),
                    channel_id: m.channel_id,
                    guild_id: m.guild_id,
                    author_id: m.author_id,
                };
                proof {
                    assert(self@.messages[i as int].message_id == message_id
                        && self@.messages[i as int].channel_id == channel_id);
                    assert(has_message(self@, channel_id, message_id));
                    assert(message_index(self@, channel_id, message_id) == i as int);
                }
                return Ok(row);
            }
            i += 1;
        }
        proof {
            assert(forall|k: int|
                0 <= k < self@.messages.len() ==> !(#[trigger] self@.messages[k].message_id
                    == message_id && self@.messages[k].channel_id == channel_id));
        }
        Err(StoreError::NotFound)
    }

    /// The append-style upsert of the edit log. The first observed edit
    /// of a message creates its row with one-element sequences; every
    /// later edit decodes the stored sequences, appends one entry to
    /// each (the event's timestamp and content, absent ones as `null`),
    /// and re-encodes the row in place. No prior entry is ever lost or
    /// reordered, and no second row is ever created for a message.
    #[verifier::loop_isolation(false)]
    pub fn insert_edit(&mut self, update: &MessageUpdate) -> (r: Result<(), StoreError>)
        requires
            old(self).wf(),
        ensures
            final(self).wf(),
            r == Ok::<(), StoreError>(()),
            final(self)@.messages == old(self)@.messages,
            final(self)@.deletions == old(self)@.deletions,
            final(self)@.current_user == old(self)@.current_user,
            edits_after_insert(old(self)@, update@, final(self)@.edits),
    {
        let n = self.edits.len();
        let mut i: usize = 0;
        while i < n
            invariant
                i <= n,
                n == self.edits.len(),
                forall|k: int| 0 <= k < i ==> self@.edits[k].message_id != update.message_id,
                *self == *old(self),
            decreases n - i,
        {
            if self.edits[i].message_id == update.message_id {
                proof {
                    assert(self@.edits[i as int].message_id == update.message_id);
                    assert(has_edit(self@, update.message_id));
                    assert(edit_index(old(self)@, update.message_id) == i as int) by {
                        let j = edit_index(old(self)@, update.message_id);
                        assert(0 <= j < self@.edits.len() && self@.edits[j].message_id
                            == update.message_id);
                    }
                }
                let row = self.edits.remove(i);
                proof {
                    use_type_invariant(&row);
                    assert(row@ == old(self)@.edits[i as int]);
                }
                let decoded = decode_edit_sequences(
                    row.times_json.as_str(),
                    row.contents_json.as_str(),
                );
                let (mut ts, mut cs) = match decoded {
                    Ok(p) => p,
                    Err(_) => vstd::pervasive::unreached(),
                };
                ts.push(update.time);
                cs.push(clone_opt_string(&update.content));
                let times_json = encode_times(&ts);
                let contents_json = encode_contents(&cs);
                let new_row = EditRecord {
                    message_id: row.message_id,
                    channel_id: row.channel_id,
                    times_json,
                    contents_json,
                    times: Ghost(ts@),
                    contents: Ghost(cs.deep_view()),
                };
                self.edits.insert(i, new_row);
                proof {
                    assert(new_row@.times == old(self)@.edits[i as int].times.push(update.time));
                    assert(cs.deep_view() =~= old(self)@.edits[i as int].contents.push(
                        update@.content,
                    ));
                    assert(self@.edits =~= old(self)@.edits.update(i as int, new_row@));
                    assert(self@.messages == old(self)@.messages);
                    assert(self@.deletions == old(self)@.deletions);
                    assert(self.wf());
                }
                return Ok(());
            }
            i += 1;
        }
        proof {
            assert(forall|k: int|
                0 <= k < self@.edits.len() ==> #[trigger] self@.edits[k].message_id
                    != update.message_id);
            assert(!has_edit(self@, update.message_id));
        }
        let mut ts: Vec<Option<i64>> = Vec::new();
        ts.push(update.time);
        let mut cs: Vec<Option<String>> = Vec::new();
        cs.push(clone_opt_string(&update.content));
        let times_json = encode_times(&ts);
        let contents_json = encode_contents(&cs);
        let row = EditRecord {
            message_id: update.message_id,
            channel_id: update.channel_id,
            times_json,
            contents_json,
            times: Ghost(ts@),
            contents: Ghost(cs.deep_view()),
        };
        self.edits.push(row);
        proof {
            assert(row@.times =~= seq![update.time]);
            assert(row@.contents =~= seq![update@.content]);
            assert(self@.edits =~= old(self)@.edits.push(row@));
            assert(self@.messages == old(self)@.messages);
            assert(self@.deletions == old(self)@.deletions);
            assert(forall|i: int, j: int|
                0 <= i < j < self@.edits.len() ==> self@.edits[i].message_id
                    != self@.edits[j].message_id);
            assert forall|i: int| 0 <= i < self@.edits.len() implies #[trigger] self@.edits[i].times.len()
                == self@.edits[i].contents.len() by {
                if i < old(self)@.edits.len() {
                    assert(self@.edits[i] == old(self)@.edits[i]);
                    assert(old(self)@.edits[i].times.len() == old(self)@.edits[i].contents.len());
                } else {
                    assert(self@.edits[i] == row@);
                }
            }
            assert(store_model_wf(self@));
        }
        Ok(())
    }

    /// The decoded edit history of a message: its timestamp sequence and
    /// content-snapshot sequence, index-aligned, oldest first; `None`
    /// for a message that was never edited.
    #[verifier::loop_isolation(false)]
    pub fn get_edit_record(&self, message_id: u64) -> (r: Option<
        (Vec<Option<i64>>, Vec<Option<String>>),
    >)
        requires
            self.wf(),
        ensures
            has_edit(self@, message_id) ==> (r matches Some(p) && p.0@ == edit_at(
                self@,
                message_id,
            ).times && p.1.deep_view() == edit_at(self@, message_id).contents),
            !has_edit(self@, message_id) ==> r is None,
    {
        let n = self.edits.len();
        let mut i: usize = 0;
        while i < n
            invariant
                i <= n,
                n == self.edits.len(),
                forall|k: int| 0 <= k < i ==> self@.edits[k].message_id != message_id,
            decreases n - i,
        {
            if self.edits[i].message_id == message_id {
                let row = &self.edits[i];
                proof {
                    use_type_invariant(row);
                    assert(self@.edits[i as int].message_id == message_id);
                    assert(has_edit(self@, message_id));
                    assert(edit_index(self@, message_id) == i as int) by {
                        let j = edit_index(self@, message_id);
                        assert(0 <= j < self@.edits.len() && self@.edits[j].message_id
                            == message_id);
                    }
                }
                let decoded = decode_edit_sequences(
                    row.times_json.as_str(),
                    row.contents_json.as_str(),
                );
                let p = match decoded {
                    Ok(p) => p,
                    Err(_) => vstd::pervasive::unreached(),
                };
                return Some(p);
            }
            i += 1;
        }
        proof {
            assert(forall|k: int|
                0 <= k < self@.edits.len() ==> #[trigger] self@.edits[k].message_id != message_id);
        }
        None
    }

    /// The stored, JSON-encoded form of a message's edit row, as the
    /// storage schema keeps it: the timestamp array and the content
    /// array.
    #[verifier::loop_isolation(false)]
    pub fn get_edit_row_json(&self, message_id: u64) -> (r: Option<(String, String)>)
        requires
            self.wf(),
        ensures
            has_edit(self@, message_id) ==> (r matches Some(p) && p.0@ == times_json_of(
                edit_at(self@, message_id).times,
            ) && p.1@ == contents_json_of(edit_at(self@, message_id).contents)),
            !has_edit(self@, message_id) ==> r is None,
    {
        let n = self.edits.len();
        let mut i: usize = 0;
        while i < n
            invariant
                i <= n,
                n == self.edits.len(),
                forall|k: int| 0 <= k < i ==> self@.edits[k].message_id != message_id,
            decreases n - i,
        {
            if self.edits[i].message_id == message_id {
                let row = &self.edits[i];
                proof {
                    use_type_invariant(row);
                    assert(self@.edits[i as int].message_id == message_id);
                    assert(has_edit(self@, message_id));
                    assert(edit_index(self@, message_id) == i as int) by {
                        let j = edit_index(self@, message_id);
                        assert(0 <= j < self@.edits.len() && self@.edits[j].message_id
                            == message_id);
                    }
                }
                return Some((row.times_json.clone(), row.contents_json.clone()));
            }
            i += 1;
        }
        proof {
            assert(forall|k: int|
                0 <= k < self@.edits.len() ==> #[trigger] self@.edits[k].message_id != message_id);
        }
        None
    }

    /// Appends one deletion-log entry stamped with the given instant.
    /// Always an insert, never an upsert: repeated deletions of the same
    /// message each leave their own entry.
    pub fn insert_deletion_at(&mut self, channel_id: u64, message_id: u64, time: i64) -> (r:
        Result<(), StoreError>)
        requires
            old(self).wf(),
        ensures
            final(self).wf(),
            r == Ok::<(), StoreError>(()),
            final(self)@.messages == old(self)@.messages,
            final(self)@.edits == old(self)@.edits,
            final(self)@.current_user == old(self)@.current_user,
            final(self)@.deletions == old(self)@.deletions.push(
                (DeletionRecord { message_id, channel_id, time }),
            ),
    {
        self.deletions.push(DeletionRecord { message_id, channel_id, time });
        proof {
            assert(self@.messages == old(self)@.messages);
            assert(self@.edits == old(self)@.edits);
            assert(self.wf());
        }
        Ok(())
    }

    /// The deletion log as stored: one entry per recorded deletion
    /// event, in arrival order, never deduplicated.
    #[verifier::loop_isolation(false)]
    pub fn get_deletions(&self) -> (r: Vec<DeletionRecord>)
        ensures
            r@ == self@.deletions,
    {
        let n = self.deletions.len();
        let mut out: Vec<DeletionRecord> = Vec::new();
        let mut i: usize = 0;
        while i < n
            invariant
                i <= n,
                out@ == self@.deletions.subrange(0, i as int),
            decreases n - i,
        {
            out.push(self.deletions[i]);
            proof {
                assert(out@ =~= self@.deletions.subrange(0, i + 1));
            }
            i += 1;
        }
        proof {
            assert(self@.deletions.subrange(0, n as int) =~= self@.deletions);
        }
        out
    }

    /// Appends one deletion-log entry stamped with the current time.
    pub fn insert_deletion(&mut self, channel_id: u64, message_id: u64) -> (r: Result<
        (),
        StoreError,
    >)
        requires
            old(self).wf(),
        ensures
            final(self).wf(),
            r == Ok::<(), StoreError>(()),
            final(self)@.messages == old(self)@.messages,
            final(self)@.edits == old(self)@.edits,
            final(self)@.current_user == old(self)@.current_user,
            exists|t: i64|
                final(self)@.deletions == old(self)@.deletions.push(
                    (DeletionRecord { message_id, channel_id, time: t }),
                ),
    {
        let t = now_epoch();
        let r = self.insert_deletion_at(channel_id, message_id, t);
        proof {
            assert(self@.deletions == old(self)@.deletions.push(
                (DeletionRecord { message_id, channel_id, time: t }),
            ));
        }
        r
    }
}

impl StatsStore {
    /// Row count of the message table.
    pub(crate) fn message_table_len(&self) -> (n: usize)
        ensures
            n == self@.messages.len(),
    {
        self.messages.len()
    }

    /// Row count of the edit table.
    pub(crate) fn edit_table_len(&self) -> (n: usize)
        ensures
            n == self@.edits.len(),
    {
        self.edits.len()
    }

    /// The tracked identity, if one has been set.
    pub(crate) fn current_user_value(&self) -> (u: Option<u64>)
        ensures
            u == self@.current_user,
    {
        self.current_user
    }

    /// The author of the message row at the given index.
    pub(crate) fn message_author_at(&self, i: usize) -> (a: u64)
        requires
            i < self@.messages.len(),
        ensures
            a == self@.messages[i as int].author_id,
    {
        self.messages[i].author_id
    }

    /// The timestamp of the message row at the given index.
    pub(crate) fn message_time_at(&self, i: usize) -> (t: i64)
        requires
            i < self@.messages.len(),
        ensures
            t == self@.messages[i as int].time,
    {
        self.messages[i].time
    }

    /// The guild of the message row at the given index, if any.
    pub(crate) fn message_guild_at(&self, i: usize) -> (g: Option<u64>)
        requires
            i < self@.messages.len(),
        ensures
            g == self@.messages[i as int].guild_id,
    {
        self.messages[i].guild_id
    }

    /// The (channel, guild) pair of the message row at the given index.
    pub(crate) fn message_channel_at(&self, i: usize) -> (c: Channel)
        requires
            i < self@.messages.len(),
        ensures
            c.channel_id == self@.messages[i as int].channel_id,
            c.guild_id == self@.messages[i as int].guild_id,
    {
        Channel { channel_id: self.messages[i].channel_id, guild_id: self.messages[i].guild_id }
    }

    /// The number of entries of the edit row at the given index, read
    /// back from its stored content array.
    pub(crate) fn edit_entry_count_at(&self, i: usize) -> (n: usize)
        requires
            i < self@.edits.len(),
        ensures
            n == self@.edits[i as int].contents.len(),
    {
        let row = &self.edits[i];
        proof {
            use_type_invariant(row);
        }
        let decoded = crate::codec::decode_contents(row.contents_json.as_str());
        match decoded {
            Some(v) => v.len(),
            None => vstd::pervasive::unreached(),
        }
    }
}

/// Clones an optional content string, preserving its model.
fn clone_opt_string(o: &Option<String>) -> (r: Option<String>)
    ensures
        r.deep_view() == o.deep_view(),
{
    match o {
        Some(s) => Some(s.clone()),
        None => None,
    }
}

} // verus!
