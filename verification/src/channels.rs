//! Adding and removing a roost's channels, from the command line, the
//! console of a running roost, and the moderation protocol, and working out
//! which gossip subscriptions a new channel list needs.

use vstd::prelude::*;
use vstd::string::StringSliceAdditionalSpecFns;

use crate::error::{error_message, RoostError};
use crate::naming::{is_valid_name, is_valid_name_str};
use crate::store::Store;
use crate::text::{contains_str, position_str, str_eq, string_views};

verus! {

/// Why a channel could not be added or removed.
#[derive(Clone, Copy, Debug, PartialEq, Eq, Structural)]
pub enum ChannelError {
    /// The requester lacks the permission to manage channels.
    NotAllowed,
    /// The name is not a valid channel name.
    InvalidName,
    /// A channel of that name already exists.
    AlreadyExists,
    /// The roost already has the maximum number of channels.
    TooMany,
    /// The `general` channel cannot be removed.
    CannotRemoveGeneral,
    /// No channel of that name exists.
    NotFound,
    /// The channel's secret could not be minted.
    Secret(RoostError),
}

/// The verdict text of each refusal.
pub open spec fn channel_verdict(e: ChannelError) -> Seq<char> {
    match e {
        ChannelError::NotAllowed => "not allowed"@,
        ChannelError::InvalidName => "invalid channel name"@,
        ChannelError::AlreadyExists => "channel already exists"@,
        ChannelError::TooMany => "too many channels"@,
        ChannelError::CannotRemoveGeneral => "cannot remove the general channel"@,
        ChannelError::NotFound => "channel not found"@,
        ChannelError::Secret(e) => error_message(e),
    }
}

impl ChannelError {
    /// The verdict text that the moderation protocol sends back.
    pub fn verdict_message(&self) -> (r: &'static str)
        ensures
            r@ == channel_verdict(*self),
    {
        match self {
            ChannelError::NotAllowed => "not allowed",
            ChannelError::InvalidName => "invalid channel name",
            ChannelError::AlreadyExists => "channel already exists",
            ChannelError::TooMany => "too many channels",
            ChannelError::CannotRemoveGeneral => "cannot remove the general channel",
            ChannelError::NotFound => "channel not found",
            ChannelError::Secret(e) => e.message(),
        }
    }
}

/// Adds a channel while the roost is not running: the name must be valid,
/// new, and the roost must have room for it.
pub fn add_channel_offline(channels: &mut Vec<String>, channel: &str, max_channels: usize) -> (r: Result<(), ChannelError>)
    ensures
        ({
            let names = string_views(old(channels)@);
            let valid = is_valid_name(channel.spec_bytes());
            match r {
                Ok(()) => {
                    &&& valid
                    &&& !names.contains(channel@)
                    &&& names.len() < max_channels
                    &&& string_views(final(channels)@) == names.push(channel@)
                },
                Err(ChannelError::InvalidName) => !valid && final(channels)@ == old(channels)@,
                Err(ChannelError::AlreadyExists) => valid && names.contains(channel@)
                    && final(channels)@ == old(channels)@,
                Err(ChannelError::TooMany) => {
                    &&& valid
                    &&& !names.contains(channel@)
                    &&& names.len() >= max_channels
                    &&& final(channels)@ == old(channels)@
                },
                Err(_) => false,
            }
        }),
{
    if !is_valid_name_str(channel) {
        return Err(ChannelError::InvalidName);
    }
    if contains_str(channels, channel) {
        return Err(ChannelError::AlreadyExists);
    }
    if channels.len() >= max_channels {
        return Err(ChannelError::TooMany);
    }
    channels.push(channel.to_owned());
    assert(string_views(channels@) =~= string_views(old(channels)@).push(channel@));
    Ok(())
}

/// Removes a channel while the roost is not running: its first occurrence,
/// never `general`.
pub fn remove_channel_offline(channels: &mut Vec<String>, channel: &str) -> (r: Result<(), ChannelError>)
    ensures
        match r {
            Ok(()) => {
                &&& channel@ != "general"@
                &&& exists|i: int|
                    0 <= i < old(channels)@.len() && old(channels)@[i]@ == channel@ && (forall|j: int|
                        0 <= j < i ==> old(channels)@[j]@ != channel@) && final(channels)@ == old(
                        channels,
                    )@.remove(i)
            },
            Err(ChannelError::CannotRemoveGeneral) => channel@ == "general"@ && final(channels)@
                == old(channels)@,
            Err(ChannelError::NotFound) => channel@ != "general"@ && !string_views(
                old(channels)@,
            ).contains(channel@) && final(channels)@ == old(channels)@,
            Err(_) => false,
        },
{
    if str_eq(channel, "general") {
        return Err(ChannelError::CannotRemoveGeneral);
    }
    match position_str(channels, channel) {
        Some(pos) => {
            channels.remove(pos);
            Ok(())
        },
        None => Err(ChannelError::NotFound),
    }
}

/// The strings of `s` that are not equal to `x`, in order.
pub open spec fn without(s: Seq<Seq<char>>, x: Seq<char>) -> Seq<Seq<char>>
    decreases s.len(),
{
    if s.len() == 0 {
        Seq::empty()
    } else if s.last() == x {
        without(s.drop_last(), x)
    } else {
        without(s.drop_last(), x).push(s.last())
    }
}

/// Adds a channel from the console of a running roost: the name must be
/// valid, the roost must have room, the channel must be new, and its secret
/// is minted before the channel is listed, so that its gossip task can
/// subscribe at once.
pub fn add_channel_console(
    channels: &mut Vec<String>,
    store: &mut Store,
    channel: &str,
    max_channels: usize,
) -> (r: Result<(), ChannelError>)
    ensures
        ({
            let names = string_views(old(channels)@);
            let valid = is_valid_name(channel.spec_bytes());
            match r {
                Ok(()) => {
                    &&& valid
                    &&& names.len() < max_channels
                    &&& !names.contains(channel@)
                    &&& string_views(final(channels)@) == names.push(channel@)
                },
                Err(ChannelError::InvalidName) => !valid && final(channels)@ == old(channels)@
                    && final(store)@ == old(store)@,
                Err(ChannelError::TooMany) => valid && names.len() >= max_channels
                    && final(channels)@ == old(channels)@ && final(store)@ == old(store)@,
                Err(ChannelError::AlreadyExists) => {
                    &&& valid
                    &&& names.len() < max_channels
                    &&& names.contains(channel@)
                    &&& final(channels)@ == old(channels)@
                    &&& final(store)@ == old(store)@
                },
                Err(ChannelError::Secret(_)) => {
                    &&& valid
                    &&& names.len() < max_channels
                    &&& !names.contains(channel@)
                    &&& final(channels)@ == old(channels)@
                },
                Err(_) => false,
            }
        }),
{
    if !is_valid_name_str(channel) {
        return Err(ChannelError::InvalidName);
    }
    if channels.len() >= max_channels {
        return Err(ChannelError::TooMany);
    }
    if contains_str(channels, channel) {
        return Err(ChannelError::AlreadyExists);
    }
    match store.channel_secret(channel) {
        Ok(_) => {},
        Err(e) => {
            return Err(ChannelError::Secret(e));
        },
    }
    channels.push(channel.to_owned());
    assert(string_views(channels@) =~= string_views(old(channels)@).push(channel@));
    Ok(())
}

/// Removes a channel from the console of a running roost: every entry of
/// that name, never `general`.
pub fn remove_channel_console(channels: &mut Vec<String>, channel: &str) -> (r: Result<(), ChannelError>)
    ensures
        match r {
            Ok(()) => {
                &&& channel@ != "general"@
                &&& string_views(old(channels)@).contains(channel@)
                &&& string_views(final(channels)@) == without(string_views(old(channels)@), channel@)
            },
            Err(ChannelError::CannotRemoveGeneral) => channel@ == "general"@ && final(channels)@
                == old(channels)@,
            Err(ChannelError::NotFound) => channel@ != "general"@ && !string_views(
                old(channels)@,
            ).contains(channel@) && final(channels)@ == old(channels)@,
            Err(_) => false,
        },
{
    if str_eq(channel, "general") {
        return Err(ChannelError::CannotRemoveGeneral);
    }
    if !contains_str(channels, channel) {
        return Err(ChannelError::NotFound);
    }
    let mut kept: Vec<String> = Vec::new();
    let n = channels.len();
    let mut i: usize = 0;
    while i < n
        invariant
            n == channels@.len(),
            channels@ == old(channels)@,
            i <= n,
            string_views(kept@) == without(string_views(channels@).subrange(0, i as int), channel@),
        decreases n - i,
    {
        let ghost si = string_views(channels@).subrange(0, i + 1);
        proof {
            assert(si.drop_last() =~= string_views(channels@).subrange(0, i as int));
            assert(si.last() == channels@[i as int]@);
        }
        if !str_eq(channels[i].as_str(), channel) {
            kept.push(channels[i].clone());
            assert(string_views(kept@) =~= without(si.drop_last(), channel@).push(si.last()));
        }
        i = i + 1;
    }
    assert(string_views(channels@).subrange(0, n as int) =~= string_views(channels@));
    *channels = kept;
    Ok(())
}

/// Adds a channel on a moderation request: the requester must be allowed to
/// manage channels, the name valid and new, and the roost must have room.
pub fn moderate_add_channel(
    channels: &mut Vec<String>,
    allowed: bool,
    channel: &str,
    max_channels: usize,
) -> (r: Result<(), ChannelError>)
    ensures
        ({
            let names = string_views(old(channels)@);
            let valid = is_valid_name(channel.spec_bytes());
            match r {
                Ok(()) => {
                    &&& allowed
                    &&& valid
                    &&& !names.contains(channel@)
                    &&& names.len() < max_channels
                    &&& string_views(final(channels)@) == names.push(channel@)
                },
                Err(ChannelError::NotAllowed) => !allowed && final(channels)@ == old(channels)@,
                Err(ChannelError::InvalidName) => allowed && !valid && final(channels)@ == old(
                    channels,
                )@,
                Err(ChannelError::AlreadyExists) => allowed && valid && names.contains(channel@)
                    && final(channels)@ == old(channels)@,
                Err(ChannelError::TooMany) => {
                    &&& allowed
                    &&& valid
                    &&& !names.contains(channel@)
                    &&& names.len() >= max_channels
                    &&& final(channels)@ == old(channels)@
                },
                Err(_) => false,
            }
        }),
{
    if !allowed {
        return Err(ChannelError::NotAllowed);
    }
    add_channel_offline(channels, channel, max_channels)
}

/// Removes a channel on a moderation request: the requester must be allowed
/// to manage channels; `general` is never removed; the first entry of that
/// name goes.
pub fn moderate_remove_channel(channels: &mut Vec<String>, allowed: bool, channel: &str) -> (r: Result<
    (),
    ChannelError,
>)
    ensures
        match r {
            Ok(()) => {
                &&& allowed
                &&& channel@ != "general"@
                &&& exists|i: int|
                    0 <= i < old(channels)@.len() && old(channels)@[i]@ == channel@ && (forall|j: int|
                        0 <= j < i ==> old(channels)@[j]@ != channel@) && final(channels)@ == old(
                        channels,
                    )@.remove(i)
            },
            Err(ChannelError::NotAllowed) => !allowed && final(channels)@ == old(channels)@,
            Err(ChannelError::CannotRemoveGeneral) => allowed && channel@ == "general"@
                && final(channels)@ == old(channels)@,
            Err(ChannelError::NotFound) => allowed && channel@ != "general"@ && !string_views(
                old(channels)@,
            ).contains(channel@) && final(channels)@ == old(channels)@,
            Err(_) => false,
        },
{
    if !allowed {
        return Err(ChannelError::NotAllowed);
    }
    remove_channel_offline(channels, channel)
}

/// The strings of `s` that do not occur in `other`, in order.
pub open spec fn missing_from(s: Seq<Seq<char>>, other: Seq<Seq<char>>) -> Seq<Seq<char>>
    decreases s.len(),
{
    if s.len() == 0 {
        Seq::empty()
    } else if other.contains(s.last()) {
        missing_from(s.drop_last(), other)
    } else {
        missing_from(s.drop_last(), other).push(s.last())
    }
}


/// A string is missing from `other` exactly when it occurs in `s` and not
/// in `other`, wherever it stands in `s`.
pub proof fn law_missing_from_members(s: Seq<Seq<char>>, other: Seq<Seq<char>>, x: Seq<char>)
    ensures
        missing_from(s, other).contains(x) <==> s.contains(x) && !other.contains(x),
    decreases s.len(),
{
    if s.len() > 0 {
        let p = s.drop_last();
        law_missing_from_members(p, other, x);
        assert(s =~= p.push(s.last()));
        if s.contains(x) && x != s.last() {
            let k = choose|k: int| 0 <= k < s.len() && s[k] == x;
            assert(k < p.len());
            assert(p[k] == x);
        }
        if p.contains(x) {
            let k = choose|k: int| 0 <= k < p.len() && p[k] == x;
            assert(s[k] == x);
        }
        if !other.contains(s.last()) {
            let m = missing_from(p, other);
            assert(missing_from(s, other) == m.push(s.last()));
            if m.contains(x) {
                let k = choose|k: int| 0 <= k < m.len() && m[k] == x;
                assert(m.push(s.last())[k] == x);
            }
            if m.push(s.last()).contains(x) && x != s.last() {
                let k = choose|k: int| 0 <= k < m.len() + 1 && m.push(s.last())[k] == x;
                assert(k < m.len());
                assert(m[k] == x);
            }
            assert(m.push(s.last())[m.len() as int] == s.last());
        }
    }
}

/// The strings of `s` that do not occur in `other`, in order.
pub fn strings_missing_from(s: &Vec<String>, other: &Vec<String>) -> (r: Vec<String>)
    ensures
        string_views(r@) == missing_from(string_views(s@), string_views(other@)),
        forall|x: Seq<char>|
            #[trigger] string_views(r@).contains(x) <==> string_views(s@).contains(x) && !string_views(
                other@,
            ).contains(x),
{
    proof {
        assert forall|x: Seq<char>| #[trigger] missing_from(string_views(s@), string_views(other@)).contains(x)
            <==> string_views(s@).contains(x) && !string_views(other@).contains(x) by {
            law_missing_from_members(string_views(s@), string_views(other@), x);
        }
    }
    let mut out: Vec<String> = Vec::new();
    let n = s.len();
    let mut i: usize = 0;
    while i < n
        invariant
            n == s@.len(),
            i <= n,
            string_views(out@) == missing_from(string_views(s@).subrange(0, i as int), string_views(other@)),
        decreases n - i,
    {
        let ghost si = string_views(s@).subrange(0, i + 1);
        proof {
            assert(si.drop_last() =~= string_views(s@).subrange(0, i as int));
            assert(si.last() == s@[i as int]@);
        }
        if !contains_str(other, s[i].as_str()) {
            out.push(s[i].clone());
            assert(string_views(out@) =~= missing_from(si.drop_last(), string_views(other@)).push(
                si.last(),
            ));
        }
        i = i + 1;
    }
    assert(string_views(s@).subrange(0, n as int) =~= string_views(s@));
    out
}

/// Which gossip subscriptions a new channel list needs: the channels not yet
/// subscribed (to subscribe, in list order) and the subscribed channels no
/// longer listed (to tear down).
pub fn channel_changes(channels: &Vec<String>, subscribed: &Vec<String>) -> (r: (Vec<String>, Vec<String>))
    ensures
        string_views(r.0@) == missing_from(string_views(channels@), string_views(subscribed@)),
        string_views(r.1@) == missing_from(string_views(subscribed@), string_views(channels@)),
        forall|x: Seq<char>|
            #[trigger] string_views(r.0@).contains(x) <==> string_views(channels@).contains(x) && !string_views(
                subscribed@,
            ).contains(x),
        forall|x: Seq<char>|
            #[trigger] string_views(r.1@).contains(x) <==> string_views(subscribed@).contains(x)
                && !string_views(channels@).contains(x),
{
    let added = strings_missing_from(channels, subscribed);
    let removed = strings_missing_from(subscribed, channels);
    (added, removed)
}

} // verus!
