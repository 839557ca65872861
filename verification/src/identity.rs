//! A roost's identity: the 32-byte secret key in its data directory, from
//! which its endpoint id (and so its roost id and invite code) follows.

use vstd::prelude::*;

use crate::backend::{ed25519_public_key, public_key_of, random_secret};
use crate::error::RoostError;

verus! {

/// Mints a new random identity key for a roost being created.
pub fn generate_identity() -> (r: [u8; 32]) {
    random_secret()
}

/// The endpoint id of the roost whose identity key file holds `file`: the
/// file must hold exactly 32 bytes, the secret key.
pub fn identity_endpoint_id(file: &[u8]) -> (r: Result<[u8; 32], RoostError>)
    ensures
        match r {
            Ok(id) => file@.len() == 32 && id@ == ed25519_public_key(file@),
            Err(e) => file@.len() != 32 && e == RoostError::InvalidIdentityKey,
        },
{
    if file.len() != 32 {
        return Err(RoostError::InvalidIdentityKey);
    }
    let mut secret: [u8; 32] = [0u8; 32];
    let mut i: usize = 0;
    while i < 32
        invariant
            file@.len() == 32,
            secret@.len() == 32,
            i <= 32,
            forall|j: int| 0 <= j < i ==> secret@[j] == file@[j],
        decreases 32 - i,
    {
        secret[i] = file[i];
        i = i + 1;
    }
    assert(secret@ =~= file@);
    Ok(public_key_of(&secret))
}

} // verus!
