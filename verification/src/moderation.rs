//! Verdicts of the moderation protocol on message deletion; adding and
//! removing channels is in `channels`.

use vstd::prelude::*;
use vstd::string::StringSliceAdditionalSpecFns;

use crate::error::{error_message, RoostError};
use crate::naming::is_valid_name;
use crate::store::{delete_outcome, stored_history, Store};

verus! {

/// Why a deletion request was refused.
#[derive(Clone, Copy, Debug, PartialEq, Eq, Structural)]
pub enum DeleteRefusal {
    /// The requester lacks the permission to manage messages.
    NotAllowed,
    /// No message of the channel has that id.
    MessageNotFound,
    /// The store failed or refused the request.
    Store(RoostError),
}

/// The verdict text of each refusal.
pub open spec fn delete_verdict(e: DeleteRefusal) -> Seq<char> {
    match e {
        DeleteRefusal::NotAllowed => "not allowed"@,
        DeleteRefusal::MessageNotFound => "message not found"@,
        DeleteRefusal::Store(e) => error_message(e),
    }
}

impl DeleteRefusal {
    /// The verdict text that the moderation protocol sends back.
    pub fn verdict_message(&self) -> (r: &'static str)
        ensures
            r@ == delete_verdict(*self),
    {
        match self {
            DeleteRefusal::NotAllowed => "not allowed",
            DeleteRefusal::MessageNotFound => "message not found",
            DeleteRefusal::Store(e) => e.message(),
        }
    }
}

/// Deletes a message on a moderation request: only a requester allowed to
/// manage messages may, and only the roost's stored copy goes.
pub fn moderate_delete_message(store: &mut Store, allowed: bool, channel: &str, id: &str) -> (r: Result<(), DeleteRefusal>)
    ensures
        ({
            let outcome = delete_outcome(stored_history(old(store)@, channel.spec_bytes()), id.spec_bytes());
            match r {
                Ok(()) => allowed && is_valid_name(channel.spec_bytes()) && outcome is Found
                    && final(store)@ == old(store)@.remove(outcome->Found_0),
                Err(DeleteRefusal::NotAllowed) => !allowed && final(store)@ == old(store)@,
                Err(DeleteRefusal::MessageNotFound) => allowed && is_valid_name(channel.spec_bytes())
                    && outcome is NotFound && final(store)@ == old(store)@,
                Err(DeleteRefusal::Store(RoostError::InvalidChannel)) => allowed && !is_valid_name(
                    channel.spec_bytes(),
                ) && final(store)@ == old(store)@,
                Err(DeleteRefusal::Store(RoostError::Decode)) => allowed && is_valid_name(
                    channel.spec_bytes(),
                ) && outcome is Undecodable && final(store)@ == old(store)@,
                Err(DeleteRefusal::Store(RoostError::Storage)) => allowed && is_valid_name(
                    channel.spec_bytes(),
                ),
                Err(_) => false,
            }
        }),
{
    if !allowed {
        return Err(DeleteRefusal::NotAllowed);
    }
    match store.delete_message(channel, id) {
        Ok(true) => Ok(()),
        Ok(false) => Err(DeleteRefusal::MessageNotFound),
        Err(e) => Err(DeleteRefusal::Store(e)),
    }
}

} // verus!
