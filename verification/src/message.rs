//! The envelope in which a typed message crosses a byte stream: a number that
//! stands for the type, and the serialized value.

use std::any::TypeId;
use std::collections::hash_map::DefaultHasher;
use std::hash::Hash;
use std::hash::Hasher;
use vstd::prelude::*;
use vstd::std_specs::hash::DefaultHasherAdditionalSpecFns;

verus! {

/// What a default hasher has been fed once `TypeId`'s `Hash::hash` has fed
/// the identifier `tid` into one that had been fed `written`.
pub uninterp spec fn type_id_fed(written: Seq<Seq<u8>>, tid: TypeId) -> Seq<Seq<u8>>;

/// `TypeId`'s `Hash::hash`: feeds the identifier into `hasher`. What is fed
/// is private to the standard library; that it depends on the identifier and
/// on nothing else is what `Hash` asks of every type that is `Eq` as well:
/// equal keys give equal hashes.
#[verifier::external_body]
fn feed_type_id(tid: &TypeId, hasher: &mut DefaultHasher)
    ensures
        final(hasher)@ == type_id_fed(old(hasher)@, *tid),
{
    tid.hash(hasher);
}

/// The hash that a freshly made default hasher gives once it has been fed
/// the identifier `tid` and nothing else.
pub open spec fn type_id_hash(tid: TypeId) -> u64 {
    DefaultHasher::spec_finish(type_id_fed(Seq::empty(), tid))
}

/// A message as it travels: the hash of the type's identifier and the
/// serialized value.
pub struct StitchMessage {
    pub type_id: u64,
    pub bytes: Vec<u8>,
}

impl StitchMessage {
    /// The identifier of `T`.
    pub fn type_id<T: 'static>() -> (id: TypeId) {
        TypeId::of::<T>()
    }

    /// The hash of a type's identifier, by a freshly made default hasher.
    pub fn hash_type_id(tid: TypeId) -> (hash: u64)
        ensures
            hash == type_id_hash(tid),
    {
        let mut hasher = DefaultHasher::new();
        feed_type_id(&tid, &mut hasher);
        hasher.finish()
    }

    /// The hash of the identifier of `T`: what `hash_type_id` gives for what
    /// `type_id` gives.
    pub fn hash_type<T: 'static>() -> (hash: u64)
        ensures
            exists|id: TypeId| hash == type_id_hash(id),
    {
        Self::hash_type_id(Self::type_id::<T>())
    }
}

} // verus!
