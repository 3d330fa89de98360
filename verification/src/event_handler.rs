//! The event router and identity filter: decides which gateway events
//! concern the tracked account or an explicitly tracked channel, and
//! forwards the accepted ones to the persistence store it owns.

use vstd::prelude::*;

use crate::stats::opt_u64_eq;
use crate::store::has_message;
use crate::store::message_at;
use crate::store::MessageModel;
use crate::store::MessageUpdate;
use crate::store::StatsStore;
use crate::store::StoreMessage;
use crate::store::StoreModel;

verus! {

/// Mathematical model of the router: the session identity (unknown
/// until the ready event), the configured tracked-channel allowlist,
/// and the store's model.
pub struct HandlerModel {
    pub user: Option<u64>,
    pub additional_channels: Seq<(Option<u64>, u64)>,
    pub store: StoreModel,
}

/// The router bound to one store and one allowlist.
pub struct Handler {
    store: StatsStore,
    user: Option<u64>,
    additional_channels: Vec<(Option<u64>, u64)>,
}

impl View for Handler {
    type V = HandlerModel;

    closed spec fn view(&self) -> HandlerModel {
        HandlerModel {
            user: self.user,
            additional_channels: self.additional_channels@,
            store: self.store@,
        }
    }
}

/// The identity filter: an event is accepted exactly when a session
/// identity is known and either the author is that identity or the
/// (guild, channel) pair is on the allowlist. Before the ready event
/// every event is rejected.
pub open spec fn accepts(
    h: HandlerModel,
    user_id: u64,
    guild_id: Option<u64>,
    channel_id: u64,
) -> bool {
    match h.user {
        Some(current) => current == user_id || h.additional_channels.contains(
            (guild_id, channel_id),
        ),
        None => false,
    }
}

/// Whether a deletion of the given (channel, message) pair can be
/// attributed to the tracked identity: the message must be stored, and
/// its recorded author, guild and channel must pass the filter.
pub open spec fn delete_attributed(
    h: HandlerModel,
    channel_id: u64,
    message_id: u64,
) -> bool {
    &&& has_message(h.store, channel_id, message_id)
    &&& accepts(
        h,
        message_at(h.store, channel_id, message_id).author_id,
        message_at(h.store, channel_id, message_id).guild_id,
        message_at(h.store, channel_id, message_id).channel_id,
    )
}

/// The guild an update event is judged against: the new snapshot's
/// guild if the transport sent one, otherwise the old snapshot's.
pub open spec fn effective_guild(
    old_snapshot: Option<MessageModel>,
    new_snapshot: Option<MessageModel>,
) -> Option<u64> {
    match new_snapshot {
        Some(m) => m.guild_id,
        None => match old_snapshot {
            Some(m) => m.guild_id,
            None => None,
        },
    }
}

/// The ids among a bulk deletion that the router records, in order.
pub open spec fn attributed_ids(
    h: HandlerModel,
    channel_id: u64,
    ids: Seq<u64>,
) -> Seq<u64>
    decreases ids.len(),
{
    if ids.len() == 0 {
        Seq::empty()
    } else {
        let prev = attributed_ids(h, channel_id, ids.drop_last());
        if delete_attributed(h, channel_id, ids.last()) {
            prev.push(ids.last())
        } else {
            prev
        }
    }
}

/// What a bulk deletion leaves in the deletion log: the old log as a
/// prefix, then one record per attributed id, in order, each on this
/// channel. The timestamps come from the clock, so nothing is said of
/// them.
pub open spec fn bulk_deletions_ok(
    h: HandlerModel,
    channel_id: u64,
    ids: Seq<u64>,
    new_deletions: Seq<crate::store::DeletionRecord>,
) -> bool {
    &&& new_deletions.len() == h.store.deletions.len() + attributed_ids(h, channel_id, ids).len()
    &&& forall|k: int|
        0 <= k < h.store.deletions.len() ==> new_deletions[k] == h.store.deletions[k]
    &&& forall|k: int|
        0 <= k < attributed_ids(h, channel_id, ids).len() ==> new_deletions[h.store.deletions.len()
            + k].message_id == (#[trigger] attributed_ids(h, channel_id, ids)[k])
            && new_deletions[h.store.deletions.len() + k].channel_id == channel_id
}

impl Handler {
    /// Well-formedness: the owned store is well-formed.
    pub open spec fn wf(&self) -> bool {
        crate::store::store_model_wf(self@.store)
    }

    /// Binds a router to a store and a tracked-channel allowlist; no
    /// session identity is known yet, so nothing is accepted.
    pub fn new(store: StatsStore, additional_channels: Vec<(Option<u64>, u64)>) -> (h: Handler)
        requires
            store.wf(),
        ensures
            h.wf(),
            h@.user is None,
            h@.additional_channels == additional_channels@,
            h@.store == store@,
    {
        Handler { store, user: None, additional_channels }
    }

    /// Read access to the owned store, for the query surface.
    pub fn store(&self) -> (s: &StatsStore)
        ensures
            s@ == self@.store,
            self.wf() ==> s.wf(),
    {
        &self.store
    }

    /// The identity filter (see `accepts`).
    #[verifier::loop_isolation(false)]
    pub fn should_handle(&self, user_id: u64, guild_id: Option<u64>, channel_id: u64) -> (r:
        bool)
        ensures
            r == accepts(self@, user_id, guild_id, channel_id),
    {
        match self.user {
            None => false,
            Some(current) => {
                if current == user_id {
                    return true;
                }
                let n = self.additional_channels.len();
                let mut i: usize = 0;
                while i < n
                    invariant
                        i <= n,
                        forall|k: int|
                            0 <= k < i ==> self@.additional_channels[k] != (guild_id, channel_id),
                    decreases n - i,
                {
                    let entry = self.additional_channels[i];
                    if opt_u64_eq(entry.0, guild_id) && entry.1 == channel_id {
                        proof {
                            assert(self@.additional_channels[i as int] == (guild_id, channel_id));
                        }
                        return true;
                    }
                    i += 1;
                }
                proof {
                    assert(!self@.additional_channels.contains((guild_id, channel_id))) by {
                        if self@.additional_channels.contains((guild_id, channel_id)) {
                            let k = choose|k: int|
                                0 <= k < self@.additional_channels.len()
                                    && self@.additional_channels[k] == (guild_id, channel_id);
                        }
                    }
                }
                false
            },
        }
    }

    /// The identity filter reduced to authorship alone.
    pub fn should_handle_no_guild(&self, user_id: u64) -> (r: bool)
        ensures
            r == (self@.user matches Some(current) && current == user_id),
    {
        match self.user {
            Some(current) => current == user_id,
            None => false,
        }
    }

    /// A message-created event: record the message if the filter
    /// accepts it. A storage rejection (the duplicate-key outcome)
    /// never disturbs the session; the store is left as it was.
    pub fn message(&mut self, m: &StoreMessage)
        requires
            old(self).wf(),
        ensures
            final(self).wf(),
            final(self)@.user == old(self)@.user,
            final(self)@.additional_channels == old(self)@.additional_channels,
            final(self)@.store.edits == old(self)@.store.edits,
            final(self)@.store.deletions == old(self)@.store.deletions,
            final(self)@.store.current_user == old(self)@.store.current_user,
            accepts(old(self)@, m.author_id, m.guild_id, m.channel_id)
                ==> final(self)@.store.messages == crate::store::messages_after_insert(
                old(self)@.store.messages,
                m@,
            ),
            !accepts(old(self)@, m.author_id, m.guild_id, m.channel_id)
                ==> final(self)@.store.messages == old(self)@.store.messages,
    {
        if self.should_handle(m.author_id, m.guild_id, m.channel_id) {
            let _ = self.store.insert_msg(m);
        }
    }

    /// A message-updated event: resolve the author and guild (the
    /// update may omit them; the accompanying snapshots fill in the
    /// guild), filter, and append to the edit log if accepted. An
    /// update without an author is dropped.
    pub fn message_update(
        &mut self,
        old_snapshot: Option<&StoreMessage>,
        new_snapshot: Option<&StoreMessage>,
        update: &MessageUpdate,
    )
        requires
            old(self).wf(),
        ensures
            final(self).wf(),
            final(self)@.user == old(self)@.user,
            final(self)@.additional_channels == old(self)@.additional_channels,
            final(self)@.store.messages == old(self)@.store.messages,
            final(self)@.store.deletions == old(self)@.store.deletions,
            final(self)@.store.current_user == old(self)@.store.current_user,
            ({
                let guild = effective_guild(
                    (match old_snapshot {
                        Some(m) => Some(m@),
                        None => None,
                    }),
                    (match new_snapshot {
                        Some(m) => Some(m@),
                        None => None,
                    }),
                );
                match update.author_id {
                    Some(author) => {
                        if accepts(old(self)@, author, guild, update.channel_id) {
                            crate::store::edits_after_insert(
                                old(self)@.store,
                                update@,
                                final(self)@.store.edits,
                            )
                        } else {
                            final(self)@.store.edits == old(self)@.store.edits
                        }
                    },
                    None => final(self)@.store.edits == old(self)@.store.edits,
                }
            }),
    {
        if let Some(author) = update.author_id {
            let guild = match new_snapshot {
                Some(m) => m.guild_id,
                None => match old_snapshot {
                    Some(m) => m.guild_id,
                    None => None,
                },
            };
            if self.should_handle(author, guild, update.channel_id) {
                let _ = self.store.insert_edit(update);
            }
        }
    }

    /// A message-deleted event: attribute the deletion through the
    /// stored message, filter, and append a deletion-log entry if
    /// accepted. A deletion of an unknown message is silently dropped.
    pub fn message_delete(&mut self, channel_id: u64, message_id: u64)
        requires
            old(self).wf(),
        ensures
            final(self).wf(),
            final(self)@.user == old(self)@.user,
            final(self)@.additional_channels == old(self)@.additional_channels,
            final(self)@.store.messages == old(self)@.store.messages,
            final(self)@.store.edits == old(self)@.store.edits,
            final(self)@.store.current_user == old(self)@.store.current_user,
            !delete_attributed(old(self)@, channel_id, message_id) ==> final(self)@.store.deletions
                == old(self)@.store.deletions,
            delete_attributed(old(self)@, channel_id, message_id) ==> exists|t: i64|
                final(self)@.store.deletions == old(self)@.store.deletions.push(
                    (crate::store::DeletionRecord { message_id, channel_id, time: t }),
                ),
    {
        match self.store.get_message_with_channel_id(channel_id, message_id) {
            Ok(msg) => {
                if self.should_handle(msg.author_id, msg.guild_id, msg.channel_id) {
                    let _ = self.store.insert_deletion(channel_id, message_id);
                }
            },
            Err(_) => {},
        }
    }

    /// A bulk deletion: each id is attempted independently, in order,
    /// exactly as single deletions; one unattributable id never blocks
    /// the rest.
    #[verifier::loop_isolation(false)]
    pub fn message_delete_bulk(&mut self, channel_id: u64, message_ids: &Vec<u64>)
        requires
            old(self).wf(),
        ensures
            final(self).wf(),
            final(self)@.user == old(self)@.user,
            final(self)@.additional_channels == old(self)@.additional_channels,
            final(self)@.store.messages == old(self)@.store.messages,
            final(self)@.store.edits == old(self)@.store.edits,
            final(self)@.store.current_user == old(self)@.store.current_user,
            bulk_deletions_ok(old(self)@, channel_id, message_ids@, final(self)@.store.deletions),
    {
        let ghost h0 = old(self)@;
        let ghost base = old(self)@.store.deletions;
        let n = message_ids.len();
        let mut i: usize = 0;
        while i < n
            invariant
                i <= n,
                self.wf(),
                self@.user == h0.user,
                self@.additional_channels == h0.additional_channels,
                self@.store.messages == h0.store.messages,
                self@.store.edits == h0.store.edits,
                self@.store.current_user == h0.store.current_user,
                bulk_deletions_ok(
                    h0,
                    channel_id,
                    message_ids@.subrange(0, i as int),
                    self@.store.deletions,
                ),
            decreases n - i,
        {
            let ghost pre_ids = message_ids@.subrange(0, i as int);
            let ghost ext_ids = message_ids@.subrange(0, i as int + 1);
            let ghost pre_dels = self@.store.deletions;
            proof {
                assert(ext_ids.drop_last() =~= pre_ids);
                assert(ext_ids.last() == message_ids@[i as int]);
                assert(delete_attributed(self@, channel_id, message_ids@[i as int])
                    == delete_attributed(h0, channel_id, message_ids@[i as int]));
            }
            let id = message_ids[i];
            self.message_delete(channel_id, id);
            proof {
                let att_pre = attributed_ids(h0, channel_id, pre_ids);
                let att_ext = attributed_ids(h0, channel_id, ext_ids);
                if delete_attributed(h0, channel_id, message_ids@[i as int]) {
                    assert(att_ext == att_pre.push(message_ids@[i as int]));
                    let t = choose|t: i64|
                        self@.store.deletions == pre_dels.push(
                            (crate::store::DeletionRecord {
                                message_id: message_ids@[i as int],
                                channel_id,
                                time: t,
                            }),
                        );
                    assert(self@.store.deletions == pre_dels.push(
                        (crate::store::DeletionRecord {
                            message_id: message_ids@[i as int],
                            channel_id,
                            time: t,
                        }),
                    ));
                    assert forall|k: int| 0 <= k < base.len() implies self@.store.deletions[k]
                        == base[k] by {
                        assert(self@.store.deletions[k] == pre_dels[k]);
                    }
                    assert forall|k: int|
                        0 <= k < att_ext.len() implies self@.store.deletions[base.len()
                        + k].message_id == (#[trigger] att_ext[k])
                        && self@.store.deletions[base.len() + k].channel_id == channel_id by {
                        if k < att_pre.len() {
                            assert(att_ext[k] == att_pre[k]);
                            assert(self@.store.deletions[base.len() + k] == pre_dels[base.len()
                                + k]);
                        } else {
                            assert(att_ext[k] == message_ids@[i as int]);
                            assert(base.len() + k == pre_dels.len());
                        }
                    }
                } else {
                    assert(att_ext == att_pre);
                    assert(self@.store.deletions == pre_dels);
                }
                assert(bulk_deletions_ok(h0, channel_id, ext_ids, self@.store.deletions));
            }
            i += 1;
        }
        proof {
            assert(message_ids@.subrange(0, n as int) =~= message_ids@);
            assert(bulk_deletions_ok(h0, channel_id, message_ids@, self@.store.deletions));
        }
    }

    /// The session-ready event: refresh the tracked identity, for both
    /// the filter and the store's per-identity queries. The caller then
    /// moves the live presence to invisible; that is transport work and
    /// happens outside.
    pub fn ready(&mut self, user_id: u64)
        requires
            old(self).wf(),
        ensures
            final(self).wf(),
            final(self)@.user == Some(user_id),
            final(self)@.additional_channels == old(self)@.additional_channels,
            final(self)@.store.messages == old(self)@.store.messages,
            final(self)@.store.edits == old(self)@.store.edits,
            final(self)@.store.deletions == old(self)@.store.deletions,
            final(self)@.store.current_user == Some(user_id),
    {
        self.store.set_current_user(user_id);
        self.user = Some(user_id);
    }
}

} // verus!
