//! Identifiers of assets: 64-bit hashes of their names.
//!
//! The hash is the one of `std`'s `DefaultHasher` with its fixed keys. It is
//! not cryptographic: two names can share an identifier, and the odds of that
//! grow with the number of assets. An archive is looked up by identifier, so
//! of two names that collide only one can be resolved.

use std::collections::hash_map::DefaultHasher;
use std::hash::{Hash, Hasher};
use vstd::prelude::*;
use vstd::std_specs::hash::DefaultHasherAdditionalSpecFns;

verus! {

/// What a hasher has been fed once a string slice has been hashed into it,
/// given what it had been fed before.
pub uninterp spec fn str_hash_feed(before: Seq<Seq<u8>>, s: Seq<char>) -> Seq<Seq<u8>>;

/// Feeds `s` to `state` through `std`'s `impl Hash for str`. The contract
/// claims only that what the hasher has taken in afterwards is determined by
/// what it had taken in before and by the characters of `s`.
#[verifier::external_body]
fn feed_str(state: &mut DefaultHasher, s: &str)
    ensures
        final(state)@ == str_hash_feed(old(state)@, s@),
{
    s.hash(state)
}

/// The identifier that belongs to `name`.
pub open spec fn name_hash(name: Seq<char>) -> u64 {
    DefaultHasher::spec_finish(str_hash_feed(Seq::empty(), name))
}

/// The key under which an asset is stored and found.
#[derive(Debug, Clone, Copy, PartialEq, Eq, Structural, Hash)]
pub struct AssetId(pub u64);

impl AssetId {
    /// Hashes an asset's name into its identifier. The same name always gives
    /// the same identifier.
    pub fn from_str(str: &str) -> (id: AssetId)
        ensures
            id.0 == name_hash(str@),
    {
        let mut hasher = DefaultHasher::new();
        feed_str(&mut hasher, str);
        AssetId(hasher.finish())
    }

    /// The identifier as a plain number.
    pub fn raw(&self) -> (r: u64)
        ensures
            r == self.0,
    {
        self.0
    }
}

/// Equal names have equal identifiers.
pub proof fn lemma_name_hash_deterministic(a: Seq<char>, b: Seq<char>)
    requires
        a == b,
    ensures
        name_hash(a) == name_hash(b),
{
}

} // verus!
