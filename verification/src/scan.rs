//! The history scanner: backfills a channel's past messages through
//! the same insert path live events use. It walks backward from the
//! most recent message in pages bounded by the transport's cap, with
//! exactly one cursor — the oldest message seen so far — until the
//! requested count is covered or a page comes back empty. The caller
//! performs the fetches; every decision and every insertion is here.

use vstd::prelude::*;

use crate::store::msgs_has_key;
use crate::store::MessageModel;
use crate::store::StatsStore;
use crate::store::StoreMessage;

verus! {

/// A message as the scan stores it: the fetched payload under the
/// scanned channel's guild.
pub open spec fn with_guild(m: MessageModel, guild_id: Option<u64>) -> MessageModel {
    MessageModel {
        message_id: m.message_id,
        time: m.time,
        content: m.content,
        channel_id: m.channel_id,
        guild_id,
        author_id: m.author_id,
    }
}

/// The message table after inserting one page in order: each entry is
/// appended under the scan's guild unless its key is already present.
pub open spec fn insert_page(
    msgs: Seq<MessageModel>,
    page: Seq<MessageModel>,
    guild_id: Option<u64>,
) -> Seq<MessageModel>
    decreases page.len(),
{
    if page.len() == 0 {
        msgs
    } else {
        let prev = insert_page(msgs, page.drop_last(), guild_id);
        let m = with_guild(page.last(), guild_id);
        if msgs_has_key(prev, m.channel_id, m.message_id) {
            prev
        } else {
            prev.push(m)
        }
    }
}

/// Saturating addition, as the page counters use it.
pub open spec fn sat_add(a: u64, b: u64) -> u64 {
    if a + b > u64::MAX {
        u64::MAX
    } else {
        (a + b) as u64
    }
}

/// One page request: up to `limit` messages strictly older than
/// `before`, or the newest ones when no cursor is set yet.
pub struct PageRequest {
    pub before: Option<u64>,
    pub limit: u64,
}

/// The pagination state of one channel's scan.
pub struct ScanState {
    pub max_count: u64,
    pub page_size: u64,
    pub searched: u64,
    pub collected: u64,
    pub last_seen: Option<u64>,
    pub done: bool,
}

impl ScanState {
    /// A fresh scan: the page size is the transport's cap, tightened
    /// by the requested maximum.
    pub fn new(max_count: u64) -> (s: ScanState)
        ensures
            s.max_count == max_count,
            s.page_size == (if max_count < 100 {
                max_count
            } else {
                100u64
            }),
            s.searched == 0,
            s.collected == 0,
            s.last_seen is None,
            !s.done,
    {
        ScanState {
            max_count,
            page_size: if max_count < 100 {
                max_count
            } else {
                100
            },
            searched: 0,
            collected: 0,
            last_seen: None,
            done: false,
        }
    }

    /// The next page to fetch, while the budget is open and the scan
    /// has neither reached the channel's start nor failed.
    pub fn next_request(&self) -> (r: Option<PageRequest>)
        ensures
            (if !self.done && self.searched < self.max_count {
                r == Some(PageRequest { before: self.last_seen, limit: self.page_size })
            } else {
                r is None
            }),
    {
        if !self.done && self.searched < self.max_count {
            Some(PageRequest { before: self.last_seen, limit: self.page_size })
        } else {
            None
        }
    }

    /// A fetched page: every message is inserted under the scan's
    /// guild — a duplicate key collapses against the store's
    /// constraint and is treated as success — the cursor moves to the
    /// page's last (oldest) message, and one page counts against the
    /// budget. An empty page means the channel's start and ends the
    /// scan.
    #[verifier::loop_isolation(false)]
    pub fn on_page(
        &mut self,
        store: &mut StatsStore,
        guild_id: Option<u64>,
        msgs: &Vec<StoreMessage>,
    )
        requires
            old(store).wf(),
        ensures
            final(store).wf(),
            final(store)@.messages == insert_page(
                old(store)@.messages,
                msgs.deep_view(),
                guild_id,
            ),
            final(store)@.edits == old(store)@.edits,
            final(store)@.deletions == old(store)@.deletions,
            final(store)@.current_user == old(store)@.current_user,
            final(self).max_count == old(self).max_count,
            final(self).page_size == old(self).page_size,
            msgs@.len() == 0 ==> final(self).done && final(self).searched == old(self).searched
                && final(self).collected == old(self).collected && final(self).last_seen == old(
                self,
            ).last_seen,
            msgs@.len() > 0 ==> final(self).done == old(self).done && final(self).searched
                == sat_add(old(self).searched, old(self).page_size) && final(self).collected
                == sat_add(old(self).collected, msgs@.len() as u64) && final(self).last_seen
                == Some(msgs@[msgs@.len() - 1].message_id),
    {
        let n = msgs.len();
        if n == 0 {
            self.done = true;
            proof {
                assert(msgs.deep_view().len() == 0);
                assert(insert_page(store@.messages, msgs.deep_view(), guild_id)
                    == store@.messages);
            }
            return ;
        }
        let ghost page = msgs.deep_view();
        let mut i: usize = 0;
        while i < n
            invariant
                i <= n,
                n == msgs@.len(),
                store.wf(),
                store@.messages == insert_page(
                    old(store)@.messages,
                    page.subrange(0, i as int),
                    guild_id,
                ),
                store@.edits == old(store)@.edits,
                store@.deletions == old(store)@.deletions,
                store@.current_user == old(store)@.current_user,
                *self == *old(self),
            decreases n - i,
        {
            proof {
                assert(page.subrange(0, i + 1).drop_last() =~= page.subrange(0, i as int));
                assert(page.subrange(0, i + 1).last() == page[i as int]);
            }
            let src = &msgs[i];
            let row = StoreMessage {
                message_id: src.message_id,
                time: src.time,
                content: src.content.clone(),
                channel_id: src.channel_id,
                guild_id,
                author_id: src.author_id,
            };
            proof {
                assert(row@ == with_guild(page[i as int], guild_id));
            }
            let _ = store.insert_msg(&row);
            i += 1;
        }
        proof {
            assert(page.subrange(0, n as int) =~= page);
        }
        self.collected = self.collected.saturating_add(n as u64);
        self.last_seen = Some(msgs[n - 1].message_id);
        self.searched = self.searched.saturating_add(self.page_size);
        proof {
            assert(msgs@[n - 1].message_id == page[n - 1].message_id);
        }
    }

    /// A failed page fetch: abandon this channel's scan; the caller
    /// moves on to the next target.
    pub fn on_error(&mut self)
        ensures
            final(self).done,
            final(self).max_count == old(self).max_count,
            final(self).page_size == old(self).page_size,
            final(self).searched == old(self).searched,
            final(self).collected == old(self).collected,
            final(self).last_seen == old(self).last_seen,
    {
        self.done = true;
    }
}

/// How many pages cover `n` messages at `page_size` per page: the
/// rounded-up quotient, written out by repeated subtraction.
pub open spec fn pages_for(n: nat, page_size: nat) -> nat
    decreases n,
    when page_size >= 1
{
    if n == 0 {
        0nat
    } else if n <= page_size {
        1nat
    } else {
        1 + pages_for((n - page_size) as nat, page_size)
    }
}

/// How many page requests a scan issues from a given position, when
/// the channel still holds `remaining` unseen messages: one per page
/// while the budget is open, plus the empty request that reveals an
/// exhausted channel while budget remains.
pub open spec fn scan_requests(
    searched: int,
    max_count: int,
    page_size: int,
    remaining: nat,
) -> nat
    decreases remaining,
    when page_size >= 1
{
    if searched >= max_count {
        0nat
    } else if remaining == 0 {
        1nat
    } else if remaining <= page_size {
        1 + scan_requests(searched + page_size, max_count, page_size, 0)
    } else {
        1 + scan_requests(
            searched + page_size,
            max_count,
            page_size,
            (remaining - page_size) as nat,
        )
    }
}

/// The request-count half of the pagination law, from any reached
/// position: while the budget still covers the remaining messages and
/// runs out no later than their last page, the scan issues exactly
/// one request per remaining page.
proof fn lemma_scan_request_count_rec(searched: int, max_count: int, page_size: int, rem: nat)
    requires
        page_size >= 1,
        rem >= 1,
        searched < max_count,
        rem <= max_count - searched,
        max_count <= searched + pages_for(rem, page_size as nat) * page_size,
    ensures
        scan_requests(searched, max_count, page_size, rem) == pages_for(rem, page_size as nat),
    decreases rem,
{
    if rem <= page_size {
        assert(pages_for(rem, page_size as nat) == 1);
        assert(pages_for(rem, page_size as nat) * page_size == page_size) by (nonlinear_arith)
            requires
                pages_for(rem, page_size as nat) == 1,
        ;
        assert(max_count <= searched + page_size);
        assert(scan_requests(searched + page_size, max_count, page_size, 0) == 0);
    } else {
        let rest = (rem - page_size) as nat;
        assert(pages_for(rem, page_size as nat) == 1 + pages_for(rest, page_size as nat));
        assert((1 + pages_for(rest, page_size as nat)) * page_size == page_size + pages_for(
            rest,
            page_size as nat,
        ) * page_size) by (nonlinear_arith);
        lemma_scan_request_count_rec(searched + page_size, max_count, page_size, rest);
    }
}

/// Pagination terminates on the page budget: a channel holding
/// exactly `n` messages, scanned with a budget of at least `n` that
/// the last page's quota covers, costs exactly the rounded-up
/// quotient of `n` over the page size in page requests.
pub proof fn lemma_scan_request_count(n: nat, max_count: nat)
    requires
        1 <= n <= max_count,
        max_count <= pages_for(n, if max_count < 100 { max_count } else { 100nat }) * (
        if max_count < 100 {
            max_count
        } else {
            100nat
        }),
    ensures
        scan_requests(
            0,
            max_count as int,
            (if max_count < 100 {
                max_count
            } else {
                100nat
            }) as int,
            n,
        ) == pages_for(
            n,
            if max_count < 100 {
                max_count
            } else {
                100nat
            },
        ),
{
    let ps = if max_count < 100 {
        max_count
    } else {
        100nat
    };
    lemma_scan_request_count_rec(0, max_count as int, ps as int, n);
}

/// The message table a whole scan of one channel leaves behind:
/// page after page of the channel's history, front first.
pub open spec fn scan_inserted(
    msgs: Seq<MessageModel>,
    chan: Seq<MessageModel>,
    page_size: nat,
    guild_id: Option<u64>,
) -> Seq<MessageModel>
    decreases chan.len(),
    when page_size >= 1
{
    if chan.len() == 0 {
        msgs
    } else {
        let take_n = if chan.len() <= page_size {
            chan.len()
        } else {
            page_size
        };
        scan_inserted(
            insert_page(msgs, chan.take(take_n as int), guild_id),
            chan.skip(take_n as int),
            page_size,
            guild_id,
        )
    }
}

/// Inserting one page of fresh, pairwise-distinct keys appends every
/// entry, and afterwards exactly the old and the page's keys are
/// present.
proof fn lemma_insert_page_fresh(
    msgs: Seq<MessageModel>,
    page: Seq<MessageModel>,
    guild_id: Option<u64>,
)
    requires
        forall|i: int, j: int|
            0 <= i < j < page.len() ==> !(page[i].message_id == page[j].message_id
                && page[i].channel_id == page[j].channel_id),
        forall|i: int|
            0 <= i < page.len() ==> !msgs_has_key(
                msgs,
                page[i].channel_id,
                #[trigger] page[i].message_id,
            ),
    ensures
        insert_page(msgs, page, guild_id).len() == msgs.len() + page.len(),
        forall|c: u64, m: u64|
            #[trigger] msgs_has_key(insert_page(msgs, page, guild_id), c, m) <==> (msgs_has_key(
                msgs,
                c,
                m,
            ) || msgs_has_key(page, c, m)),
    decreases page.len(),
{
    if page.len() == 0 {
        assert forall|c: u64, m: u64|
            #[trigger] msgs_has_key(insert_page(msgs, page, guild_id), c, m) <==> (msgs_has_key(
                msgs,
                c,
                m,
            ) || msgs_has_key(page, c, m)) by {
            if msgs_has_key(page, c, m) {
                let i = choose|i: int|
                    0 <= i < page.len() && page[i].channel_id == c && page[i].message_id == m;
            }
        }
    } else {
        let rest = page.drop_last();
        let last = page.last();
        let lm = with_guild(last, guild_id);
        assert forall|i: int|
            0 <= i < rest.len() implies !msgs_has_key(
            msgs,
            rest[i].channel_id,
            #[trigger] rest[i].message_id,
        ) by {
            assert(rest[i] == page[i]);
        }
        lemma_insert_page_fresh(msgs, rest, guild_id);
        let prev = insert_page(msgs, rest, guild_id);
        assert(!msgs_has_key(prev, lm.channel_id, lm.message_id)) by {
            assert(!msgs_has_key(msgs, last.channel_id, last.message_id)) by {
                assert(page[page.len() - 1].message_id == last.message_id);
            }
            assert(!msgs_has_key(rest, last.channel_id, last.message_id)) by {
                if msgs_has_key(rest, last.channel_id, last.message_id) {
                    let i = choose|i: int|
                        0 <= i < rest.len() && rest[i].channel_id == last.channel_id
                            && rest[i].message_id == last.message_id;
                    assert(page[i].message_id == page[page.len() - 1].message_id && page[i].channel_id
                        == page[page.len() - 1].channel_id);
                }
            }
        }
        assert(insert_page(msgs, page, guild_id) == prev.push(lm));
        assert forall|c: u64, m: u64|
            #[trigger] msgs_has_key(insert_page(msgs, page, guild_id), c, m) <==> (msgs_has_key(
                msgs,
                c,
                m,
            ) || msgs_has_key(page, c, m)) by {
            let cur = prev.push(lm);
            if msgs_has_key(cur, c, m) {
                let i = choose|i: int|
                    0 <= i < cur.len() && cur[i].channel_id == c && cur[i].message_id == m;
                if i < prev.len() {
                    assert(prev[i] == cur[i]);
                    assert(msgs_has_key(prev, c, m));
                } else {
                    assert(cur[i] == lm);
                    assert(page[page.len() - 1].channel_id == c && page[page.len()
                        - 1].message_id == m);
                    assert(msgs_has_key(page, c, m));
                }
            }
            if msgs_has_key(msgs, c, m) {
                assert(msgs_has_key(prev, c, m));
                let i = choose|i: int|
                    0 <= i < prev.len() && prev[i].channel_id == c && prev[i].message_id == m;
                assert(cur[i] == prev[i]);
                assert(msgs_has_key(cur, c, m));
            }
            if msgs_has_key(page, c, m) {
                let i = choose|i: int|
                    0 <= i < page.len() && page[i].channel_id == c && page[i].message_id == m;
                if i < page.len() - 1 {
                    assert(rest[i] == page[i]);
                    assert(msgs_has_key(rest, c, m));
                    assert(msgs_has_key(prev, c, m));
                    let j = choose|j: int|
                        0 <= j < prev.len() && prev[j].channel_id == c && prev[j].message_id == m;
                    assert(cur[j] == prev[j]);
                    assert(msgs_has_key(cur, c, m));
                } else {
                    assert(cur[prev.len() as int] == lm);
                    assert(msgs_has_key(cur, c, m));
                }
            }
        }
    }
}

/// The insertion half of the pagination law: a channel none of whose
/// messages is stored yet, with pairwise-distinct keys, is inserted
/// in full — the scan adds exactly one row per channel message, and
/// no message is skipped or revisited.
pub proof fn lemma_scan_inserts_all(
    msgs: Seq<MessageModel>,
    chan: Seq<MessageModel>,
    page_size: nat,
    guild_id: Option<u64>,
)
    requires
        page_size >= 1,
        forall|i: int, j: int|
            0 <= i < j < chan.len() ==> !(chan[i].message_id == chan[j].message_id
                && chan[i].channel_id == chan[j].channel_id),
        forall|i: int|
            0 <= i < chan.len() ==> !msgs_has_key(
                msgs,
                chan[i].channel_id,
                #[trigger] chan[i].message_id,
            ),
    ensures
        scan_inserted(msgs, chan, page_size, guild_id).len() == msgs.len() + chan.len(),
    decreases chan.len(),
{
    if chan.len() > 0 {
        let take_n = if chan.len() <= page_size {
            chan.len()
        } else {
            page_size
        };
        let page = chan.take(take_n as int);
        let rest = chan.skip(take_n as int);
        assert forall|i: int, j: int| 0 <= i < j < page.len() implies !(page[i].message_id
            == page[j].message_id && page[i].channel_id == page[j].channel_id) by {
            assert(page[i] == chan[i] && page[j] == chan[j]);
        }
        assert forall|i: int|
            0 <= i < page.len() implies !msgs_has_key(
            msgs,
            page[i].channel_id,
            #[trigger] page[i].message_id,
        ) by {
            assert(page[i] == chan[i]);
        }
        lemma_insert_page_fresh(msgs, page, guild_id);
        let next = insert_page(msgs, page, guild_id);
        assert forall|i: int, j: int| 0 <= i < j < rest.len() implies !(rest[i].message_id
            == rest[j].message_id && rest[i].channel_id == rest[j].channel_id) by {
            assert(rest[i] == chan[i + take_n] && rest[j] == chan[j + take_n]);
        }
        assert forall|i: int|
            0 <= i < rest.len() implies !msgs_has_key(
            next,
            rest[i].channel_id,
            #[trigger] rest[i].message_id,
        ) by {
            assert(rest[i] == chan[i + take_n]);
            assert(!msgs_has_key(msgs, chan[i + take_n].channel_id, chan[i + take_n].message_id));
            assert(!msgs_has_key(page, chan[i + take_n].channel_id, chan[i + take_n].message_id))
                by {
                if msgs_has_key(page, chan[i + take_n].channel_id, chan[i + take_n].message_id) {
                    let k = choose|k: int|
                        0 <= k < page.len() && page[k].channel_id == chan[i + take_n].channel_id
                            && page[k].message_id == chan[i + take_n].message_id;
                    assert(chan[k].message_id == chan[i + take_n].message_id && chan[k].channel_id
                        == chan[i + take_n].channel_id);
                }
            }
        }
        lemma_scan_inserts_all(next, rest, page_size, guild_id);
    }
}

} // verus!
