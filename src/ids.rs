//! Anchor identities.
use vstd::prelude::*;
use crate::path::{Path, id_used};

verus! {

/// Relies on `uuid::Uuid::new_v4`, read as a number by `Uuid::as_u128`: a
/// random id whose version nibble (bits 76 to 79) is 4 and whose variant bits
/// (62 and 63) are `10`. Nothing else is known of it; two calls may agree.
#[verifier::external_body]
fn random_id() -> (r: u128)
    ensures
        (r >> 76u128) & 0xfu128 == 4,
        (r >> 62u128) & 0x3u128 == 2,
{
    uuid::Uuid::new_v4().as_u128()
}

/// How many random ids `fresh_id` draws before it gives up.
pub const ID_ATTEMPTS: u32 = 4;

impl Path {
    /// A random id that no anchor of the path uses, or `None` when every draw
    /// collided with one in use. An empty path has no id to collide with, so
    /// it always gets one.
    pub fn fresh_id(&self) -> (r: Option<u128>)
        ensures
            r matches Some(id) ==> !id_used(self.points@, id),
            self.points@.len() == 0 ==> r is Some,
    {
        let mut tries: u32 = 0;
        while tries < ID_ATTEMPTS
            invariant
                tries > 0 ==> self.points@.len() > 0,
            decreases ID_ATTEMPTS - tries,
        {
            let id = random_id();
            if !self.has_id(id) {
                return Some(id);
            }
            tries = tries + 1;
        }
        None
    }
}

} // verus!
