//! Resolution of human-readable guild and channel names to their
//! identifiers, as the tracking command uses it: names are matched
//! case-insensitively, and only conversation-capable channels count.
//! The caller fetches the listings; the matching is decided here.

use vstd::prelude::*;

use crate::text::eq_ignore_case;
use crate::text::lower_of;

verus! {

/// The kinds a guild channel can have; only the first four take part
/// in name resolution.
#[derive(Clone, Copy, Debug, PartialEq, Eq, Structural)]
pub enum ChannelKind {
    Text,
    Private,
    Group,
    News,
    Other,
}

/// One guild channel, as the caller lists it.
pub struct ChannelInfo {
    pub channel_id: u64,
    pub name: String,
    pub kind: ChannelKind,
}

/// One named conversation partner or channel, as the caller lists it.
pub struct NamedChannel {
    pub channel_id: u64,
    pub name: String,
}

/// Whether a channel takes part in name resolution.
pub open spec fn kind_relevant(k: ChannelKind) -> bool {
    k is Text || k is Private || k is Group || k is News
}

/// Whether a guild channel answers to the queried name.
pub open spec fn channel_matches(c: ChannelInfo, query: Seq<char>) -> bool {
    kind_relevant(c.kind) && lower_of(c.name@) == lower_of(query)
}

/// Whether a named channel answers to the queried name.
pub open spec fn named_matches(c: NamedChannel, query: Seq<char>) -> bool {
    lower_of(c.name@) == lower_of(query)
}

/// Whether two names match case-insensitively.
pub fn name_matches(a: &str, b: &str) -> (r: bool)
    ensures
        r == (lower_of(a@) == lower_of(b@)),
{
    eq_ignore_case(a, b)
}

/// The first listed conversation-capable channel answering to the
/// queried name, if any.
#[verifier::loop_isolation(false)]
pub fn find_channel_by_name(channels: &Vec<ChannelInfo>, query: &str) -> (r: Option<u64>)
    ensures
        (match r {
            Some(id) => exists|i: int|
                0 <= i < channels@.len() && channel_matches(#[trigger] channels@[i], query@)
                    && channels@[i].channel_id == id && (forall|k: int|
                    0 <= k < i ==> !channel_matches(#[trigger] channels@[k], query@)),
            None => forall|i: int|
                0 <= i < channels@.len() ==> !channel_matches(#[trigger] channels@[i], query@),
        }),
{
    let n = channels.len();
    let mut i: usize = 0;
    while i < n
        invariant
            i <= n,
            forall|k: int| 0 <= k < i ==> !channel_matches(#[trigger] channels@[k], query@),
        decreases n - i,
    {
        let c = &channels[i];
        let relevant = match c.kind {
            ChannelKind::Text => true,
            ChannelKind::Private => true,
            ChannelKind::Group => true,
            ChannelKind::News => true,
            ChannelKind::Other => false,
        };
        if relevant && name_matches(c.name.as_str(), query) {
            proof {
                assert(channel_matches(channels@[i as int], query@));
            }
            return Some(c.channel_id);
        }
        i += 1;
    }
    None
}

/// The first listed named channel answering to the queried name, if
/// any; how the tracking command resolves a direct-message partner.
#[verifier::loop_isolation(false)]
pub fn find_named_channel(channels: &Vec<NamedChannel>, query: &str) -> (r: Option<u64>)
    ensures
        (match r {
            Some(id) => exists|i: int|
                0 <= i < channels@.len() && named_matches(#[trigger] channels@[i], query@)
                    && channels@[i].channel_id == id && (forall|k: int|
                    0 <= k < i ==> !named_matches(#[trigger] channels@[k], query@)),
            None => forall|i: int|
                0 <= i < channels@.len() ==> !named_matches(#[trigger] channels@[i], query@),
        }),
{
    let n = channels.len();
    let mut i: usize = 0;
    while i < n
        invariant
            i <= n,
            forall|k: int| 0 <= k < i ==> !named_matches(#[trigger] channels@[k], query@),
        decreases n - i,
    {
        let c = &channels[i];
        if name_matches(c.name.as_str(), query) {
            proof {
                assert(named_matches(channels@[i as int], query@));
            }
            return Some(c.channel_id);
        }
        i += 1;
    }
    None
}

} // verus!
