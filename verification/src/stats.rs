//! Aggregate read operations of the store: totals, per-identity counts,
//! edit totals, and the distinct channel and guild projections. All are
//! full-table scans over the model, with exact contracts.

use vstd::prelude::*;

use crate::error::StoreError;
use crate::store::Channel;
use crate::store::EditModel;
use crate::store::MessageModel;
use crate::store::StatsStore;
use crate::text::lemma_lex_lt_total;
use crate::text::lemma_lex_lt_trans;
use crate::text::lex_lt;
use crate::text::str_lt;
use crate::time::date_str_of;
use crate::time::date_string_of;
use crate::time::now_epoch;

verus! {

/// A count reported through the `i64`-valued query surface: the exact
/// value, clamped at `i64::MAX`.
pub open spec fn clamp_count(n: nat) -> int {
    if n > i64::MAX {
        i64::MAX as int
    } else {
        n as int
    }
}

/// The identity the per-identity queries count for: the tracked user,
/// or the zero identifier while none is known.
pub open spec fn effective_user(current_user: Option<u64>) -> u64 {
    match current_user {
        Some(u) => u,
        None => 0u64,
    }
}

/// How many messages the given author has among the stored rows.
pub open spec fn user_msg_count(msgs: Seq<MessageModel>, author: u64) -> nat
    decreases msgs.len(),
{
    if msgs.len() == 0 {
        0nat
    } else {
        user_msg_count(msgs.drop_last(), author) + (if msgs.last().author_id == author {
            1nat
        } else {
            0nat
        })
    }
}

/// The total number of recorded edit entries: the sum of the content
/// sequence lengths over all edit rows.
pub open spec fn edit_count(edits: Seq<EditModel>) -> nat
    decreases edits.len(),
{
    if edits.len() == 0 {
        0nat
    } else {
        edit_count(edits.drop_last()) + edits.last().contents.len()
    }
}

/// The distinct (channel, guild) pairs of the stored messages, in order
/// of first occurrence.
pub open spec fn channel_list(msgs: Seq<MessageModel>) -> Seq<Channel>
    decreases msgs.len(),
{
    if msgs.len() == 0 {
        Seq::empty()
    } else {
        let prev = channel_list(msgs.drop_last());
        let c = (Channel {
            channel_id: msgs.last().channel_id,
            guild_id: msgs.last().guild_id,
        });
        if prev.contains(c) {
            prev
        } else {
            prev.push(c)
        }
    }
}

/// The distinct guild identifiers of the stored messages (direct
/// messages carry none and add nothing), in order of first occurrence.
pub open spec fn guild_list(msgs: Seq<MessageModel>) -> Seq<u64>
    decreases msgs.len(),
{
    if msgs.len() == 0 {
        Seq::empty()
    } else {
        let prev = guild_list(msgs.drop_last());
        match msgs.last().guild_id {
            Some(g) => if prev.contains(g) {
                prev
            } else {
                prev.push(g)
            },
            None => prev,
        }
    }
}

/// The spec view of an optional date cutoff handed in by reference.
pub open spec fn cut_view(after: Option<&String>) -> Option<Seq<char>> {
    match after {
        Some(s) => Some(s@),
        None => None,
    }
}

/// Whether a stored message passes the author filter and falls strictly
/// after the date cutoff, when either is given.
pub open spec fn msg_selected(m: MessageModel, author: Option<u64>, after: Option<Seq<char>>) -> bool {
    (match author {
        Some(a) => m.author_id == a,
        None => true,
    }) && (match after {
        Some(cut) => lex_lt(cut, date_str_of(m.time)),
        None => true,
    })
}

/// How many selected messages fall on the given date inside a guild.
pub open spec fn day_guild_count(
    msgs: Seq<MessageModel>,
    author: Option<u64>,
    after: Option<Seq<char>>,
    d: Seq<char>,
) -> nat
    decreases msgs.len(),
{
    if msgs.len() == 0 {
        0nat
    } else {
        day_guild_count(msgs.drop_last(), author, after, d) + (if msg_selected(
            msgs.last(),
            author,
            after,
        ) && date_str_of(msgs.last().time) == d && msgs.last().guild_id is Some {
            1nat
        } else {
            0nat
        })
    }
}

/// How many selected messages fall on the given date as direct messages.
pub open spec fn day_direct_count(
    msgs: Seq<MessageModel>,
    author: Option<u64>,
    after: Option<Seq<char>>,
    d: Seq<char>,
) -> nat
    decreases msgs.len(),
{
    if msgs.len() == 0 {
        0nat
    } else {
        day_direct_count(msgs.drop_last(), author, after, d) + (if msg_selected(
            msgs.last(),
            author,
            after,
        ) && date_str_of(msgs.last().time) == d && msgs.last().guild_id is None {
            1nat
        } else {
            0nat
        })
    }
}

/// Whether any selected message falls on the given date.
pub open spec fn day_present(
    msgs: Seq<MessageModel>,
    author: Option<u64>,
    after: Option<Seq<char>>,
    d: Seq<char>,
) -> bool {
    exists|i: int|
        0 <= i < msgs.len() && msg_selected(#[trigger] msgs[i], author, after) && date_str_of(
            msgs[i].time,
        ) == d
}

/// What the per-day rows report, in ascending date order: one row per
/// date any selected message falls on, dates strictly increasing, each
/// row carrying that date's guild-message and direct-message tallies.
pub open spec fn day_rows_ok(
    rows: Seq<(String, i64, i64)>,
    msgs: Seq<MessageModel>,
    author: Option<u64>,
    after: Option<Seq<char>>,
) -> bool {
    &&& forall|i: int, j: int|
        0 <= i < j < rows.len() ==> lex_lt(#[trigger] rows[i].0@, #[trigger] rows[j].0@)
    &&& forall|i: int|
        0 <= i < rows.len() ==> day_present(msgs, author, after, #[trigger] rows[i].0@)
    &&& forall|d: Seq<char>|
        #[trigger] day_present(msgs, author, after, d) ==> exists|i: int|
            0 <= i < rows.len() && (#[trigger] rows[i].0@) == d
    &&& forall|i: int|
        0 <= i < rows.len() ==> (#[trigger] rows[i].1) == clamp_count(
            day_guild_count(msgs, author, after, rows[i].0@),
        )
    &&& forall|i: int|
        0 <= i < rows.len() ==> (#[trigger] rows[i].2) == clamp_count(
            day_direct_count(msgs, author, after, rows[i].0@),
        )
}

/// The same report in descending date order.
pub open spec fn day_rows_ok_desc(
    rows: Seq<(String, i64, i64)>,
    msgs: Seq<MessageModel>,
    author: Option<u64>,
    after: Option<Seq<char>>,
) -> bool {
    &&& forall|i: int, j: int|
        0 <= i < j < rows.len() ==> lex_lt(#[trigger] rows[j].0@, #[trigger] rows[i].0@)
    &&& forall|i: int|
        0 <= i < rows.len() ==> day_present(msgs, author, after, #[trigger] rows[i].0@)
    &&& forall|d: Seq<char>|
        #[trigger] day_present(msgs, author, after, d) ==> exists|i: int|
            0 <= i < rows.len() && (#[trigger] rows[i].0@) == d
    &&& forall|i: int|
        0 <= i < rows.len() ==> (#[trigger] rows[i].1) == clamp_count(
            day_guild_count(msgs, author, after, rows[i].0@),
        )
    &&& forall|i: int|
        0 <= i < rows.len() ==> (#[trigger] rows[i].2) == clamp_count(
            day_direct_count(msgs, author, after, rows[i].0@),
        )
}

/// What the tracked-identity per-day report says: the rows are the
/// descending-date report of the user's messages past some date cutoff
/// (the cutoff comes from the clock, so only its existence is stated).
pub open spec fn user_day_rows_ok(
    rows: Seq<(String, i64, i64)>,
    msgs: Seq<MessageModel>,
    user: u64,
) -> bool {
    exists|cut: Seq<char>| day_rows_ok_desc(rows, msgs, Some(user), Some(cut))
}

/// Extending the scanned prefix by one message raises each per-day
/// tally by exactly that message's contribution, and makes a date
/// present exactly when it was present before or is that message's.
proof fn lemma_day_step(
    msgs: Seq<MessageModel>,
    i: int,
    author: Option<u64>,
    after: Option<Seq<char>>,
)
    requires
        0 <= i < msgs.len(),
    ensures
        forall|d: Seq<char>|
            #[trigger] day_guild_count(msgs.subrange(0, i + 1), author, after, d)
                == day_guild_count(msgs.subrange(0, i), author, after, d) + (if msg_selected(
                msgs[i],
                author,
                after,
            ) && date_str_of(msgs[i].time) == d && msgs[i].guild_id is Some {
                1nat
            } else {
                0nat
            }),
        forall|d: Seq<char>|
            #[trigger] day_direct_count(msgs.subrange(0, i + 1), author, after, d)
                == day_direct_count(msgs.subrange(0, i), author, after, d) + (if msg_selected(
                msgs[i],
                author,
                after,
            ) && date_str_of(msgs[i].time) == d && msgs[i].guild_id is None {
                1nat
            } else {
                0nat
            }),
        forall|d: Seq<char>|
            #[trigger] day_present(msgs.subrange(0, i + 1), author, after, d) <==> (day_present(
                msgs.subrange(0, i),
                author,
                after,
                d,
            ) || (msg_selected(msgs[i], author, after) && date_str_of(msgs[i].time) == d)),
{
    let pre = msgs.subrange(0, i);
    let ext = msgs.subrange(0, i + 1);
    assert(ext.drop_last() =~= pre);
    assert(ext.last() == msgs[i]);
    assert forall|d: Seq<char>| #[trigger] day_present(ext, author, after, d) implies (
    day_present(pre, author, after, d) || (msg_selected(msgs[i], author, after) && date_str_of(
        msgs[i].time,
    ) == d)) by {
        let k = choose|k: int|
            0 <= k < ext.len() && msg_selected(#[trigger] ext[k], author, after) && date_str_of(
                ext[k].time,
            ) == d;
        if k < i {
            assert(pre[k] == ext[k]);
            assert(day_present(pre, author, after, d));
        } else {
            assert(ext[k] == msgs[i]);
        }
    }
    assert forall|d: Seq<char>|
        day_present(pre, author, after, d) || (msg_selected(msgs[i], author, after)
            && date_str_of(msgs[i].time) == d) implies #[trigger] day_present(
        ext,
        author,
        after,
        d,
    ) by {
        if day_present(pre, author, after, d) {
            let k = choose|k: int|
                0 <= k < pre.len() && msg_selected(#[trigger] pre[k], author, after)
                    && date_str_of(pre[k].time) == d;
            assert(ext[k] == pre[k]);
            assert(msg_selected(ext[k], author, after) && date_str_of(ext[k].time) == d);
        } else {
            assert(ext[i] == msgs[i]);
            assert(msg_selected(ext[i], author, after) && date_str_of(ext[i].time) == d);
        }
    }
}

/// A date no selected message falls on tallies zero on both sides.
proof fn lemma_absent_day_zero(
    msgs: Seq<MessageModel>,
    author: Option<u64>,
    after: Option<Seq<char>>,
    d: Seq<char>,
)
    requires
        !day_present(msgs, author, after, d),
    ensures
        day_guild_count(msgs, author, after, d) == 0,
        day_direct_count(msgs, author, after, d) == 0,
    decreases msgs.len(),
{
    if msgs.len() > 0 {
        let pre = msgs.drop_last();
        assert(!day_present(pre, author, after, d)) by {
            if day_present(pre, author, after, d) {
                let k = choose|k: int|
                    0 <= k < pre.len() && msg_selected(#[trigger] pre[k], author, after)
                        && date_str_of(pre[k].time) == d;
                assert(msgs[k] == pre[k]);
                assert(msg_selected(msgs[k], author, after) && date_str_of(msgs[k].time) == d);
                assert(day_present(msgs, author, after, d));
            }
        }
        assert(!(msg_selected(msgs.last(), author, after) && date_str_of(msgs.last().time) == d))
            by {
            if msg_selected(msgs.last(), author, after) && date_str_of(msgs.last().time) == d {
                let j = msgs.len() - 1;
                assert(msgs[j] == msgs.last());
                assert(msg_selected(msgs[j], author, after) && date_str_of(msgs[j].time) == d);
                assert(day_present(msgs, author, after, d));
            }
        }
        lemma_absent_day_zero(pre, author, after, d);
    }
}

/// Raises a clamped tally by one, saturating at the clamp bound.
fn bump_count(c: i64) -> (r: i64)
    requires
        c >= 0,
    ensures
        c < i64::MAX ==> r == c + 1,
        c == i64::MAX ==> r == i64::MAX,
{
    if c == i64::MAX {
        c
    } else {
        c + 1
    }
}

/// Copies the per-day rows in reverse order.
#[verifier::loop_isolation(false)]
fn reverse_rows(v: &Vec<(String, i64, i64)>) -> (r: Vec<(String, i64, i64)>)
    ensures
        r@.len() == v@.len(),
        forall|k: int|
            0 <= k < v@.len() ==> (#[trigger] r@[k]).0@ == v@[v@.len() - 1 - k].0@ && r@[k].1
                == v@[v@.len() - 1 - k].1 && r@[k].2 == v@[v@.len() - 1 - k].2,
{
    let n = v.len();
    let mut out: Vec<(String, i64, i64)> = Vec::new();
    let mut i: usize = 0;
    while i < n
        invariant
            i <= n,
            out@.len() == i,
            forall|k: int|
                0 <= k < i ==> (#[trigger] out@[k]).0@ == v@[n - 1 - k].0@ && out@[k].1 == v@[n - 1
                    - k].1 && out@[k].2 == v@[n - 1 - k].2,
        decreases n - i,
    {
        let src = &v[n - 1 - i];
        out.push((src.0.clone(), src.1, src.2));
        i += 1;
    }
    out
}

/// Compares two optional guild identifiers.
pub(crate) fn opt_u64_eq(a: Option<u64>, b: Option<u64>) -> (r: bool)
    ensures
        r == (a == b),
{
    match (a, b) {
        (None, None) => true,
        (Some(x), Some(y)) => x == y,
        _ => false,
    }
}

/// Clamps an exact `u64` tally onto the `i64`-valued query surface.
fn clamp_to_i64(n: u64) -> (r: i64)
    ensures
        r == clamp_count(n as nat),
{
    if n > i64::MAX as u64 {
        i64::MAX
    } else {
        n as i64
    }
}

impl StatsStore {
    /// The total number of stored messages.
    pub fn get_msg_count(&self) -> (r: Result<i64, StoreError>)
        requires
            self.wf(),
        ensures
            r matches Ok(c) && c == clamp_count(self@.messages.len()),
    {
        let n = self.message_table_len();
        Ok(clamp_to_i64(n as u64))
    }

    /// The number of stored messages whose author is the tracked
    /// identity (the zero identifier while none has been set).
    #[verifier::loop_isolation(false)]
    pub fn get_user_msg_count(&self) -> (r: Result<i64, StoreError>)
        requires
            self.wf(),
        ensures
            r matches Ok(c) && c == clamp_count(
                user_msg_count(self@.messages, effective_user(self@.current_user)),
            ),
    {
        let author = match self.current_user_value() {
            Some(u) => u,
            None => 0,
        };
        let n = self.message_table_len();
        let mut count: u64 = 0;
        let mut i: usize = 0;
        while i < n
            invariant
                i <= n,
                count <= i,
                count == user_msg_count(self@.messages.subrange(0, i as int), author),
            decreases n - i,
        {
            proof {
                assert(self@.messages.subrange(0, i + 1).drop_last() =~= self@.messages.subrange(
                    0,
                    i as int,
                ));
                assert(self@.messages.subrange(0, i + 1).last() == self@.messages[i as int]);
            }
            if self.message_author_at(i) == author {
                count = count + 1;
            }
            i += 1;
        }
        proof {
            assert(self@.messages.subrange(0, n as int) =~= self@.messages);
        }
        Ok(clamp_to_i64(count))
    }

    /// The total number of recorded edit entries, as the storage keeps
    /// them: the summed lengths of the rows' content arrays.
    #[verifier::loop_isolation(false)]
    pub fn get_edit_count(&self) -> (r: Result<i64, StoreError>)
        requires
            self.wf(),
        ensures
            r matches Ok(c) && c == clamp_count(edit_count(self@.edits)),
    {
        let n = self.edit_table_len();
        let lim: u64 = i64::MAX as u64;
        let mut count: u64 = 0;
        let mut i: usize = 0;
        while i < n
            invariant
                i <= n,
                count == clamp_count(edit_count(self@.edits.subrange(0, i as int))) as u64,
                count <= lim,
            decreases n - i,
        {
            proof {
                assert(self@.edits.subrange(0, i + 1).drop_last() =~= self@.edits.subrange(
                    0,
                    i as int,
                ));
                assert(self@.edits.subrange(0, i + 1).last() == self@.edits[i as int]);
            }
            let entries: u64 = self.edit_entry_count_at(i) as u64;
            let add = if entries > lim {
                lim
            } else {
                entries
            };
            count = if add > lim - count {
                lim
            } else {
                count + add
            };
            i += 1;
        }
        proof {
            assert(self@.edits.subrange(0, n as int) =~= self@.edits);
        }
        Ok(clamp_to_i64(count))
    }

    /// One row per date that any message selected by the filters falls
    /// on, in ascending date order: the date, the guild-message tally
    /// and the direct-message tally of that date. `author` restricts
    /// the scan to one author; `after` keeps only dates strictly past
    /// the cutoff string.
    #[verifier::loop_isolation(false)]
    pub fn msgs_per_day_filtered(&self, author: Option<u64>, after: Option<&String>) -> (r: Vec<
        (String, i64, i64),
    >)
        requires
            self.wf(),
        ensures
            day_rows_ok(r@, self@.messages, author, cut_view(after)),
    {
        let ghost cutv = cut_view(after);
        let ghost msgs = self@.messages;
        let n = self.message_table_len();
        let mut out: Vec<(String, i64, i64)> = Vec::new();
        let mut i: usize = 0;
        while i < n
            invariant
                i <= n,
                day_rows_ok(out@, msgs.subrange(0, i as int), author, cutv),
            decreases n - i,
        {
            let ghost pre = msgs.subrange(0, i as int);
            let ghost ext = msgs.subrange(0, i as int + 1);
            let ghost mi = msgs[i as int];
            let ghost old_out = out@;
            let t = self.message_time_at(i);
            let g = self.message_guild_at(i);
            let au = self.message_author_at(i);
            let d = date_string_of(t);
            let sel_author = match author {
                Some(a) => au == a,
                None => true,
            };
            let sel_after = match after {
                Some(cut) => str_lt(cut.as_str(), d.as_str()),
                None => true,
            };
            proof {
                lemma_day_step(msgs, i as int, author, cutv);
                assert((sel_author && sel_after) == msg_selected(mi, author, cutv));
            }
            if sel_author && sel_after {
                let m = out.len();
                let mut j: usize = 0;
                #[verifier::loop_isolation(true)]
                loop
                    invariant
                        j <= m,
                        m == out.len(),
                        out@ == old_out,
                        forall|k: int| 0 <= k < j ==> lex_lt(#[trigger] out@[k].0@, d@),
                    ensures
                        j <= m,
                        out@ == old_out,
                        forall|k: int| 0 <= k < j ==> lex_lt(#[trigger] out@[k].0@, d@),
                        j == m || !lex_lt(out@[j as int].0@, d@),
                    decreases m - j,
                {
                    if j == m {
                        break ;
                    }
                    if !str_lt(out[j].0.as_str(), d.as_str()) {
                        break ;
                    }
                    j += 1;
                }
                let matched = if j < m {
                    out[j].0 == d
                } else {
                    false
                };
                if matched {
                    let e = out.remove(j);
                    let g1 = if g.is_some() {
                        bump_count(e.1)
                    } else {
                        e.1
                    };
                    let d1 = if g.is_none() {
                        bump_count(e.2)
                    } else {
                        e.2
                    };
                    out.insert(j, (e.0, g1, d1));
                    proof {
                        assert(out@.len() == old_out.len());
                        assert(e.0@ == d@);
                        assert forall|k: int| 0 <= k < out@.len() implies (#[trigger] out@[k]).0@
                            == old_out[k].0@ by {}
                        // keys other than this row's differ from the date
                        assert forall|k: int|
                            0 <= k < out@.len() && k != j implies (#[trigger] out@[k]).0@ != d@ by {
                            if k < j {
                                lemma_lex_lt_total(old_out[k].0@, d@);
                            } else {
                                lemma_lex_lt_total(d@, old_out[k].0@);
                            }
                        }
                        assert forall|k: int, l: int| 0 <= k < l < out@.len() implies lex_lt(
                            (#[trigger] out@[k]).0@,
                            (#[trigger] out@[l]).0@,
                        ) by {
                            assert(lex_lt(old_out[k].0@, old_out[l].0@));
                        }
                        assert forall|k: int| 0 <= k < out@.len() implies day_present(
                            ext,
                            author,
                            cutv,
                            (#[trigger] out@[k]).0@,
                        ) by {
                            assert(day_present(pre, author, cutv, old_out[k].0@));
                        }
                        assert forall|dd: Seq<char>|
                            #[trigger] day_present(ext, author, cutv, dd) implies exists|x: int|
                            0 <= x < out@.len() && (#[trigger] out@[x].0@) == dd by {
                            if day_present(pre, author, cutv, dd) {
                                let x = choose|x: int|
                                    0 <= x < old_out.len() && (#[trigger] old_out[x].0@) == dd;
                                assert(out@[x].0@ == dd);
                            } else {
                                assert(dd == d@);
                                assert(out@[j as int].0@ == dd);
                            }
                        }
                        assert forall|k: int| 0 <= k < out@.len() implies (#[trigger] out@[k]).1
                            == clamp_count(day_guild_count(ext, author, cutv, out@[k].0@)) && (
                        out@[k]).2 == clamp_count(day_direct_count(ext, author, cutv, out@[k].0@))
                            by {
                            if k != j {
                                assert(out@[k] == old_out[k]);
                                assert(day_guild_count(ext, author, cutv, out@[k].0@)
                                    == day_guild_count(pre, author, cutv, out@[k].0@));
                                assert(day_direct_count(ext, author, cutv, out@[k].0@)
                                    == day_direct_count(pre, author, cutv, out@[k].0@));
                            } else {
                                assert(old_out[j as int].1 == clamp_count(
                                    day_guild_count(pre, author, cutv, d@),
                                ));
                                assert(old_out[j as int].2 == clamp_count(
                                    day_direct_count(pre, author, cutv, d@),
                                ));
                            }
                        }
                        assert(day_rows_ok(out@, ext, author, cutv));
                    }
                } else {
                    let g1: i64 = if g.is_some() {
                        1
                    } else {
                        0
                    };
                    let d1: i64 = if g.is_none() {
                        1
                    } else {
                        0
                    };
                    out.insert(j, (d, g1, d1));
                    proof {
                        assert(out@.len() == old_out.len() + 1);
                        assert(out@[j as int].0@ == d@);
                        // the new date was not among the old keys
                        assert(!day_present(pre, author, cutv, d@)) by {
                            if day_present(pre, author, cutv, d@) {
                                let x = choose|x: int|
                                    0 <= x < old_out.len() && (#[trigger] old_out[x].0@) == d@;
                                if x < j {
                                    lemma_lex_lt_total(old_out[x].0@, d@);
                                } else if x == j {
                                } else {
                                    assert(lex_lt(old_out[j as int].0@, old_out[x].0@));
                                    lemma_lex_lt_total(d@, old_out[j as int].0@);
                                }
                            }
                        }
                        lemma_absent_day_zero(pre, author, cutv, d@);
                        // every position right of the insertion point follows the new date
                        assert forall|k: int| j < k < out@.len() implies lex_lt(
                            d@,
                            (#[trigger] out@[k]).0@,
                        ) by {
                            assert(out@[k] == old_out[k - 1]);
                            lemma_lex_lt_total(d@, old_out[j as int].0@);
                            if k - 1 > j {
                                assert(lex_lt(old_out[j as int].0@, old_out[k - 1].0@));
                                lemma_lex_lt_trans(d@, old_out[j as int].0@, old_out[k - 1].0@);
                            }
                        }
                        assert forall|k: int, l: int| 0 <= k < l < out@.len() implies lex_lt(
                            (#[trigger] out@[k]).0@,
                            (#[trigger] out@[l]).0@,
                        ) by {
                            if k < j && l < j {
                                assert(out@[k] == old_out[k] && out@[l] == old_out[l]);
                            } else if k < j && l == j {
                                assert(out@[k] == old_out[k]);
                            } else if k < j && l > j {
                                assert(out@[k] == old_out[k] && out@[l] == old_out[l - 1]);
                            } else if k == j {
                            } else {
                                assert(out@[k] == old_out[k - 1] && out@[l] == old_out[l - 1]);
                            }
                        }
                        assert forall|k: int| 0 <= k < out@.len() implies day_present(
                            ext,
                            author,
                            cutv,
                            (#[trigger] out@[k]).0@,
                        ) by {
                            if k < j {
                                assert(out@[k] == old_out[k]);
                                assert(day_present(pre, author, cutv, old_out[k].0@));
                            } else if k == j {
                                assert(msg_selected(mi, author, cutv) && date_str_of(mi.time)
                                    == d@);
                            } else {
                                assert(out@[k] == old_out[k - 1]);
                                assert(day_present(pre, author, cutv, old_out[k - 1].0@));
                            }
                        }
                        assert forall|dd: Seq<char>|
                            #[trigger] day_present(ext, author, cutv, dd) implies exists|x: int|
                            0 <= x < out@.len() && (#[trigger] out@[x].0@) == dd by {
                            if day_present(pre, author, cutv, dd) {
                                let x = choose|x: int|
                                    0 <= x < old_out.len() && (#[trigger] old_out[x].0@) == dd;
                                if x < j {
                                    assert(out@[x].0@ == dd);
                                } else {
                                    assert(out@[x + 1].0@ == dd);
                                }
                            } else {
                                assert(dd == d@);
                                assert(out@[j as int].0@ == dd);
                            }
                        }
                        assert forall|k: int| 0 <= k < out@.len() implies (#[trigger] out@[k]).1
                            == clamp_count(day_guild_count(ext, author, cutv, out@[k].0@)) && (
                        out@[k]).2 == clamp_count(day_direct_count(ext, author, cutv, out@[k].0@))
                            by {
                            if k == j {
                                assert(day_guild_count(ext, author, cutv, d@) == day_guild_count(
                                    pre,
                                    author,
                                    cutv,
                                    d@,
                                ) + (if mi.guild_id is Some {
                                    1nat
                                } else {
                                    0nat
                                }));
                            } else {
                                let x = if k < j {
                                    k
                                } else {
                                    k - 1
                                };
                                assert(out@[k] == old_out[x]);
                                assert(out@[k].0@ != d@) by {
                                    if x < j {
                                        lemma_lex_lt_total(old_out[x].0@, d@);
                                    } else {
                                        lemma_lex_lt_total(d@, old_out[x].0@);
                                    }
                                }
                                assert(day_guild_count(ext, author, cutv, out@[k].0@)
                                    == day_guild_count(pre, author, cutv, out@[k].0@));
                                assert(day_direct_count(ext, author, cutv, out@[k].0@)
                                    == day_direct_count(pre, author, cutv, out@[k].0@));
                            }
                        }
                        assert(day_rows_ok(out@, ext, author, cutv));
                    }
                }
            } else {
                proof {
                    assert(!msg_selected(mi, author, cutv));
                    assert forall|dd: Seq<char>|
                        #[trigger] day_present(ext, author, cutv, dd) implies day_present(
                        pre,
                        author,
                        cutv,
                        dd,
                    ) by {}
                    assert(day_rows_ok(out@, ext, author, cutv));
                }
            }
            i += 1;
        }
        proof {
            assert(msgs.subrange(0, n as int) =~= msgs);
        }
        out
    }

    /// Per-day message tallies over every stored message, split into
    /// guild and direct buckets, in ascending date order.
    pub fn get_total_msgs_per_day(&self) -> (r: Result<Vec<(String, i64, i64)>, StoreError>)
        requires
            self.wf(),
        ensures
            r matches Ok(v) && day_rows_ok(v@, self@.messages, None::<u64>, None::<Seq<char>>),
    {
        Ok(self.msgs_per_day_filtered(None, None))
    }

    /// Per-day tallies of the tracked identity's messages over the
    /// trailing week (dates strictly past a cutoff derived from the
    /// current clock), split into guild and direct buckets, in
    /// descending date order.
    #[verifier::rlimit(30)]
    pub fn get_user_msgs_per_day(&self) -> (r: Result<Vec<(String, i64, i64)>, StoreError>)
        requires
            self.wf(),
        ensures
            r matches Ok(v) && user_day_rows_ok(
                v@,
                self@.messages,
                effective_user(self@.current_user),
            ),
    {
        let author = match self.current_user_value() {
            Some(u) => u,
            None => 0,
        };
        let now = now_epoch();
        let week_ago = if now >= i64::MIN + 604800 {
            now - 604800
        } else {
            i64::MIN
        };
        let cut = date_string_of(week_ago);
        let asc = self.msgs_per_day_filtered(Some(author), Some(&cut));
        let desc = reverse_rows(&asc);
        proof {
            let msgs = self@.messages;
            let a = Some(author);
            let c = Some(cut@);
            let n = asc@.len() as int;
            assert forall|i: int, j: int| 0 <= i < j < desc@.len() implies lex_lt(
                (#[trigger] desc@[j]).0@,
                (#[trigger] desc@[i]).0@,
            ) by {
                assert(desc@[j].0@ == asc@[n - 1 - j].0@);
                assert(desc@[i].0@ == asc@[n - 1 - i].0@);
                assert(lex_lt(asc@[n - 1 - j].0@, asc@[n - 1 - i].0@));
            }
            assert forall|i: int| 0 <= i < desc@.len() implies day_present(
                msgs,
                a,
                c,
                (#[trigger] desc@[i]).0@,
            ) && desc@[i].1 == clamp_count(day_guild_count(msgs, a, c, desc@[i].0@)) && desc@[i].2
                == clamp_count(day_direct_count(msgs, a, c, desc@[i].0@)) by {
                assert(desc@[i].0@ == asc@[n - 1 - i].0@);
                assert(desc@[i].1 == asc@[n - 1 - i].1);
                assert(desc@[i].2 == asc@[n - 1 - i].2);
            }
            assert forall|dd: Seq<char>| #[trigger] day_present(msgs, a, c, dd) implies exists|
                x: int,
            |
                0 <= x < desc@.len() && (#[trigger] desc@[x].0@) == dd by {
                let x = choose|x: int| 0 <= x < asc@.len() && (#[trigger] asc@[x].0@) == dd;
                assert(desc@[n - 1 - x].0@ == asc@[x].0@);
            }
            assert(day_rows_ok_desc(desc@, msgs, a, c));
            assert(author == effective_user(self@.current_user));
            assert(user_day_rows_ok(desc@, msgs, author)) by {
                assert(day_rows_ok_desc(desc@, msgs, Some(author), Some(cut@)));
            }
        }
        Ok(desc)
    }

    /// The distinct (channel, guild) pairs observed across all stored
    /// messages, in order of first occurrence.
    #[verifier::loop_isolation(false)]
    pub fn get_channels(&self) -> (r: Result<Vec<Channel>, StoreError>)
        requires
            self.wf(),
        ensures
            r matches Ok(v) && v@ == channel_list(self@.messages),
    {
        let n = self.message_table_len();
        let mut out: Vec<Channel> = Vec::new();
        let mut i: usize = 0;
        while i < n
            invariant
                i <= n,
                out@ == channel_list(self@.messages.subrange(0, i as int)),
            decreases n - i,
        {
            proof {
                assert(self@.messages.subrange(0, i + 1).drop_last() =~= self@.messages.subrange(
                    0,
                    i as int,
                ));
                assert(self@.messages.subrange(0, i + 1).last() == self@.messages[i as int]);
            }
            let c = self.message_channel_at(i);
            let mut found = false;
            let m = out.len();
            let mut j: usize = 0;
            while j < m
                invariant
                    j <= m,
                    m == out.len(),
                    found == exists|k: int|
                        0 <= k < j && out@[k].channel_id == c.channel_id && out@[k].guild_id
                            == c.guild_id,
                decreases m - j,
            {
                if out[j].channel_id == c.channel_id && opt_u64_eq(out[j].guild_id, c.guild_id) {
                    found = true;
                }
                j += 1;
            }
            proof {
                assert(found == channel_list(self@.messages.subrange(0, i as int)).contains(c))
                    by {
                    if found {
                        let k = choose|k: int|
                            0 <= k < out@.len() && out@[k].channel_id == c.channel_id
                                && out@[k].guild_id == c.guild_id;
                        assert(out@[k] == c);
                    } else {
                        if out@.contains(c) {
                            let k = choose|k: int| 0 <= k < out@.len() && out@[k] == c;
                            assert(out@[k].channel_id == c.channel_id && out@[k].guild_id
                                == c.guild_id);
                        }
                    }
                }
            }
            if !found {
                out.push(c);
            }
            i += 1;
        }
        proof {
            assert(self@.messages.subrange(0, n as int) =~= self@.messages);
        }
        Ok(out)
    }

    /// The distinct guild identifiers observed across all stored
    /// messages, in order of first occurrence; direct messages carry
    /// none and contribute nothing.
    #[verifier::loop_isolation(false)]
    pub fn get_guilds(&self) -> (r: Result<Vec<u64>, StoreError>)
        requires
            self.wf(),
        ensures
            r matches Ok(v) && v@ == guild_list(self@.messages),
    {
        let n = self.message_table_len();
        let mut out: Vec<u64> = Vec::new();
        let mut i: usize = 0;
        while i < n
            invariant
                i <= n,
                out@ == guild_list(self@.messages.subrange(0, i as int)),
            decreases n - i,
        {
            proof {
                assert(self@.messages.subrange(0, i + 1).drop_last() =~= self@.messages.subrange(
                    0,
                    i as int,
                ));
                assert(self@.messages.subrange(0, i + 1).last() == self@.messages[i as int]);
            }
            if let Some(g) = self.message_guild_at(i) {
                let mut found = false;
                let m = out.len();
                let mut j: usize = 0;
                while j < m
                    invariant
                        j <= m,
                        m == out.len(),
                        found == exists|k: int| 0 <= k < j && out@[k] == g,
                    decreases m - j,
                {
                    if out[j] == g {
                        found = true;
                    }
                    j += 1;
                }
                proof {
                    assert(found == guild_list(self@.messages.subrange(0, i as int)).contains(g));
                }
                if !found {
                    out.push(g);
                }
            }
            i += 1;
        }
        proof {
            assert(self@.messages.subrange(0, n as int) =~= self@.messages);
        }
        Ok(out)
    }
}

} // verus!
