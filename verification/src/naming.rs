//! Roost and channel names. A name is 1 to 64 bytes drawn from ASCII letters,
//! digits, `-` and `_`, so it can never climb out of a directory or run into
//! another sled key namespace.

use vstd::prelude::*;
use vstd::string::StringSliceAdditionalSpecFns;

use crate::error::RoostError;

verus! {

/// The bytes that a roost or channel name may hold.
pub open spec fn is_name_byte(b: u8) -> bool {
    ||| (0x30 <= b && b <= 0x39)
    ||| (0x41 <= b && b <= 0x5a)
    ||| (0x61 <= b && b <= 0x7a)
    ||| b == 0x2d
    ||| b == 0x5f
}

/// A valid roost or channel name, given by its UTF-8 bytes.
pub open spec fn is_valid_name(bytes: Seq<u8>) -> bool {
    &&& 0 < bytes.len() <= 64
    &&& forall|i: int| 0 <= i < bytes.len() ==> is_name_byte(#[trigger] bytes[i])
}

fn is_name_byte_exec(b: u8) -> (r: bool)
    ensures
        r == is_name_byte(b),
{
    (b >= 0x30 && b <= 0x39) || (b >= 0x41 && b <= 0x5a) || (b >= 0x61 && b <= 0x7a) || b == 0x2d
        || b == 0x5f
}

/// Whether `name` is a valid roost or channel name.
pub fn is_valid_name_str(name: &str) -> (r: bool)
    ensures
        r == is_valid_name(name.spec_bytes()),
{
    let bytes = name.as_bytes();
    let n = bytes.len();
    if n == 0 || n > 64 {
        return false;
    }
    let mut i: usize = 0;
    while i < n
        invariant
            n == bytes@.len(),
            bytes@ == name.spec_bytes(),
            i <= n,
            forall|j: int| 0 <= j < i ==> is_name_byte(#[trigger] bytes@[j]),
        decreases n - i,
    {
        if !is_name_byte_exec(bytes[i]) {
            return false;
        }
        i = i + 1;
    }
    true
}

} // verus!

verus! {

/// Checks a roost name before any path is built from it.
pub fn validate_roost_name(name: &str) -> (r: Result<(), RoostError>)
    ensures
        match r {
            Ok(()) => is_valid_name(name.spec_bytes()),
            Err(e) => !is_valid_name(name.spec_bytes()) && e == RoostError::InvalidRoostName,
        },
{
    if is_valid_name_str(name) {
        Ok(())
    } else {
        Err(RoostError::InvalidRoostName)
    }
}

/// Checks a channel name before any sled key is built from it.
pub fn validate_channel(channel: &str) -> (r: Result<(), RoostError>)
    ensures
        match r {
            Ok(()) => is_valid_name(channel.spec_bytes()),
            Err(e) => !is_valid_name(channel.spec_bytes()) && e == RoostError::InvalidChannel,
        },
{
    if is_valid_name_str(channel) {
        Ok(())
    } else {
        Err(RoostError::InvalidChannel)
    }
}

/// The 16-byte channel id of a channel name: its first 16 bytes, padded
/// with zeros.
pub open spec fn channel_id_spec(name: Seq<u8>) -> Seq<u8> {
    Seq::new(16, |i: int| if i < name.len() { name[i] } else { 0u8 })
}

/// Derives the channel id under which history membership of a channel is
/// looked up, without storing a manifest.
pub fn channel_id_from_name(name: &str) -> (id: [u8; 16])
    ensures
        id@ == channel_id_spec(name.spec_bytes()),
{
    let bytes = name.as_bytes();
    let mut id: [u8; 16] = [0u8; 16];
    let len: usize = if bytes.len() < 16 { bytes.len() } else { 16 };
    let mut i: usize = 0;
    while i < len
        invariant
            len <= 16,
            len <= bytes@.len(),
            bytes@ == name.spec_bytes(),
            i <= len,
            id@.len() == 16,
            forall|j: int| 0 <= j < i ==> id@[j] == bytes@[j],
            forall|j: int| i <= j < 16 ==> id@[j] == 0u8,
        decreases len - i,
    {
        id[i] = bytes[i];
        i = i + 1;
    }
    assert(id@ =~= channel_id_spec(name.spec_bytes()));
    id
}

} // verus!
