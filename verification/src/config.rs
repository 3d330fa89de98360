//! The configuration the process starts from: the credential token and
//! the tracked-channel specifiers, each `guildId|channelId` or a bare
//! `channelId` for a direct-message channel. Loading and saving the
//! on-disk file is the caller's business; the parsing is here.

use vstd::prelude::*;
use vstd::string::StrSliceExecFns;

use crate::error::ConfigError;
use crate::text::dec_of;
use crate::text::is_digit;
use crate::text::lemma_dec_round_trip;
use crate::text::parse_u64;
use crate::text::parse_u64_ok;
use crate::text::parse_u64_value;
use crate::text::u64_to_dec;

verus! {

/// Index of the first pipe separator in a specifier, if any.
pub open spec fn first_pipe(s: Seq<char>) -> Option<int>
    decreases s.len(),
{
    if s.len() == 0 {
        None
    } else if s[0] == '|' {
        Some(0int)
    } else {
        match first_pipe(s.skip(1)) {
            Some(j) => Some(j + 1),
            None => None,
        }
    }
}

/// What one tracked-channel specifier denotes: `guild|channel` (text
/// past a second separator is ignored), or a bare direct-message
/// channel; each part must parse as a 64-bit integer.
pub open spec fn spec_parse_channel(s: Seq<char>) -> Result<(Option<u64>, u64), ConfigError> {
    match first_pipe(s) {
        None => if parse_u64_ok(s) {
            Ok((None, parse_u64_value(s) as u64))
        } else {
            Err(ConfigError::InvalidChannelFormat)
        },
        Some(p) => {
            let guild = s.take(p);
            let rest = s.skip(p + 1);
            let chan = match first_pipe(rest) {
                Some(q) => rest.take(q),
                None => rest,
            };
            if !parse_u64_ok(guild) {
                Err(ConfigError::InvalidChannelFormat)
            } else if !parse_u64_ok(chan) {
                Err(ConfigError::InvalidChannelFormat)
            } else {
                Ok((Some(parse_u64_value(guild) as u64), parse_u64_value(chan) as u64))
            }
        },
    }
}

/// What the whole tracked-channel list denotes: every specifier in
/// order, or the first rejection.
pub open spec fn spec_tracked_channels(list: Seq<Seq<char>>) -> Result<
    Seq<(Option<u64>, u64)>,
    ConfigError,
>
    decreases list.len(),
{
    if list.len() == 0 {
        Ok(Seq::empty())
    } else {
        match spec_tracked_channels(list.drop_last()) {
            Err(e) => Err(e),
            Ok(prev) => match spec_parse_channel(list.last()) {
                Ok(c) => Ok(prev.push(c)),
                Err(e) => Err(e),
            },
        }
    }
}

/// A pipe at `p` with none before it is the first pipe.
proof fn lemma_first_pipe_at(s: Seq<char>, p: int)
    requires
        0 <= p < s.len(),
        s[p] == '|',
        forall|k: int| 0 <= k < p ==> s[k] != '|',
    ensures
        first_pipe(s) == Some(p),
    decreases p,
{
    if p > 0 {
        assert forall|k: int| 0 <= k < p - 1 implies s.skip(1)[k] != '|' by {
            assert(s.skip(1)[k] == s[k + 1]);
        }
        assert(s.skip(1)[p - 1] == s[p]);
        lemma_first_pipe_at(s.skip(1), p - 1);
    }
}

/// A sequence without a pipe has no first pipe.
proof fn lemma_first_pipe_none(s: Seq<char>)
    requires
        forall|k: int| 0 <= k < s.len() ==> s[k] != '|',
    ensures
        first_pipe(s) is None,
    decreases s.len(),
{
    if s.len() > 0 {
        assert forall|k: int| 0 <= k < s.len() - 1 implies s.skip(1)[k] != '|' by {
            assert(s.skip(1)[k] == s[k + 1]);
        }
        lemma_first_pipe_none(s.skip(1));
    }
}

/// A rejection among the first specifiers decides the whole list.
proof fn lemma_tracked_error_persists(list: Seq<Seq<char>>, j: int)
    requires
        0 <= j <= list.len(),
        spec_tracked_channels(list.take(j)) is Err,
    ensures
        spec_tracked_channels(list) == spec_tracked_channels(list.take(j)),
    decreases list.len() - j,
{
    if j == list.len() {
        assert(list.take(j) =~= list);
    } else {
        assert(list.take(j + 1).drop_last() =~= list.take(j));
        lemma_tracked_error_persists(list, j + 1);
    }
}

/// The first pipe at or after `from`, by scan.
#[verifier::loop_isolation(false)]
fn find_pipe_from(s: &str, from: usize) -> (r: Option<usize>)
    requires
        from <= s@.len(),
    ensures
        (match r {
            Some(p) => from <= p < s@.len() && s@[p as int] == '|' && forall|k: int|
                from <= k < p ==> s@[k] != '|',
            None => forall|k: int| from <= k < s@.len() ==> s@[k] != '|',
        }),
{
    let n = s.unicode_len();
    let mut i = from;
    while i < n
        invariant
            from <= i <= n,
            forall|k: int| from <= k < i ==> s@[k] != '|',
        decreases n - i,
    {
        if s.get_char(i) == '|' {
            return Some(i);
        }
        i += 1;
    }
    None
}

/// Parses one tracked-channel specifier.
pub fn parse_channel_spec(s: &str) -> (r: Result<(Option<u64>, u64), ConfigError>)
    ensures
        r == spec_parse_channel(s@),
{
    match find_pipe_from(s, 0) {
        None => {
            proof {
                lemma_first_pipe_none(s@);
            }
            match parse_u64(s) {
                Some(v) => Ok((None, v)),
                None => Err(ConfigError::InvalidChannelFormat),
            }
        },
        Some(p) => {
            proof {
                lemma_first_pipe_at(s@, p as int);
            }
            let guild_str = s.substring_char(0, p);
            let n = s.unicode_len();
            let second = find_pipe_from(s, p + 1);
            let end = match second {
                Some(x) => x,
                None => n,
            };
            let chan_str = s.substring_char(p + 1, end);
            proof {
                let rest = s@.skip(p + 1);
                assert(guild_str@ =~= s@.take(p as int));
                match second {
                    Some(x) => {
                        assert forall|k: int| 0 <= k < x - p - 1 implies rest[k] != '|' by {
                            assert(rest[k] == s@[k + p + 1]);
                        }
                        assert(rest[x - p - 1] == s@[x as int]);
                        lemma_first_pipe_at(rest, x - p - 1);
                        assert(chan_str@ =~= rest.take(x - p - 1));
                    },
                    None => {
                        assert forall|k: int| 0 <= k < rest.len() implies rest[k] != '|' by {
                            assert(rest[k] == s@[k + p + 1]);
                        }
                        lemma_first_pipe_none(rest);
                        assert(chan_str@ =~= rest);
                    },
                }
            }
            match parse_u64(guild_str) {
                None => Err(ConfigError::InvalidChannelFormat),
                Some(g) => match parse_u64(chan_str) {
                    None => Err(ConfigError::InvalidChannelFormat),
                    Some(c) => Ok((Some(g), c)),
                },
            }
        },
    }
}

/// Renders a tracked-channel specifier from its identifiers:
/// `guild|channel`, or the bare channel id for a direct-message
/// channel. Formatting then parsing gives the pair back.
pub fn format_channel_spec(guild_id: Option<u64>, channel_id: u64) -> (r: String)
    ensures
        spec_parse_channel(r@) == Ok::<(Option<u64>, u64), ConfigError>((guild_id, channel_id)),
{
    match guild_id {
        None => {
            let s = u64_to_dec(channel_id);
            proof {
                lemma_dec_round_trip(channel_id);
                assert forall|k: int| 0 <= k < s@.len() implies s@[k] != '|' by {
                    assert(is_digit(s@[k]));
                    if s@[k] == '|' {
                        assert(s@[k] as u32 == 124) by {
                            assert('|' as u32 == 124);
                        }
                    }
                }
                lemma_first_pipe_none(s@);
            }
            s
        },
        Some(g) => {
            let mut s = u64_to_dec(g);
            let ghost gpart = s@;
            s.append("|");
            let chan = u64_to_dec(channel_id);
            s.append(chan.as_str());
            proof {
                reveal_strlit("|");
                lemma_dec_round_trip(g);
                lemma_dec_round_trip(channel_id);
                let p = gpart.len() as int;
                assert(s@ =~= gpart + seq!['|'] + dec_of(channel_id as nat));
                assert(s@[p] == '|');
                assert forall|k: int| 0 <= k < p implies s@[k] != '|' by {
                    assert(s@[k] == gpart[k]);
                    assert(is_digit(gpart[k]));
                    if s@[k] == '|' {
                        assert(s@[k] as u32 == 124) by {
                            assert('|' as u32 == 124);
                        }
                    }
                }
                lemma_first_pipe_at(s@, p);
                assert(s@.take(p) =~= gpart);
                let rest = s@.skip(p + 1);
                assert(rest =~= dec_of(channel_id as nat));
                assert forall|k: int| 0 <= k < rest.len() implies rest[k] != '|' by {
                    assert(is_digit(rest[k]));
                    if rest[k] == '|' {
                        assert(rest[k] as u32 == 124) by {
                            assert('|' as u32 == 124);
                        }
                    }
                }
                lemma_first_pipe_none(rest);
            }
            s
        },
    }
}

/// The bot's configuration, as the on-disk file holds it.
pub struct Config {
    pub discord_token: String,
    pub tracked_channels: Vec<String>,
}

impl Default for Config {
    /// An empty configuration: no token, nothing tracked.
    fn default() -> (c: Config)
        ensures
            c.discord_token@ == Seq::<char>::empty(),
            c.tracked_channels@ == Seq::<String>::empty(),
    {
        let c = Config { discord_token: String::new(), tracked_channels: Vec::new() };
        proof {
            assert(c.tracked_channels@ =~= Seq::<String>::empty());
        }
        c
    }
}

impl Config {
    /// The (guild, channel) allowlist the specifiers denote, or the
    /// first rejection among them.
    #[verifier::loop_isolation(false)]
    pub fn tracked_channels(&self) -> (r: Result<Vec<(Option<u64>, u64)>, ConfigError>)
        ensures
            (spec_tracked_channels(self.tracked_channels.deep_view()) matches Ok(v) ==> r matches Ok(
                out,
            ) && out@ == v),
            (spec_tracked_channels(self.tracked_channels.deep_view()) matches Err(e) ==> r == Err::<
                Vec<(Option<u64>, u64)>,
                ConfigError,
            >(e)),
    {
        let ghost list = self.tracked_channels.deep_view();
        let n = self.tracked_channels.len();
        let mut out: Vec<(Option<u64>, u64)> = Vec::new();
        let mut i: usize = 0;
        while i < n
            invariant
                i <= n,
                n == list.len(),
                spec_tracked_channels(list.take(i as int)) == Ok::<
                    Seq<(Option<u64>, u64)>,
                    ConfigError,
                >(out@),
            decreases n - i,
        {
            proof {
                assert(list.take(i + 1).drop_last() =~= list.take(i as int));
                assert(list.take(i + 1).last() == list[i as int]);
            }
            let spec_str = self.tracked_channels[i].as_str();
            proof {
                assert(spec_str@ == list[i as int]);
            }
            match parse_channel_spec(spec_str) {
                Ok(c) => {
                    out.push(c);
                },
                Err(e) => {
                    proof {
                        lemma_tracked_error_persists(list, i + 1);
                    }
                    return Err(e);
                },
            }
            i += 1;
        }
        proof {
            assert(list.take(n as int) =~= list);
        }
        Ok(out)
    }
}

} // verus!
