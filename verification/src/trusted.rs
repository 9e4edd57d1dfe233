//! Contracts assumed of the `uuid` crate and of `std::sync::Arc`.
//!
//! Entry identifiers and subscription-channel identifiers are `uuid::Uuid`
//! values, as the public types require; events are shared between
//! subscription queues through `Arc` envelopes.

use std::sync::Arc;
use vstd::prelude::*;

verus! {

/// `uuid::Uuid` appears in signatures and fields of this crate; its values
/// are opaque here and only compared for equality.
#[verifier::external_type_specification]
#[verifier::external_body]
pub struct ExUuid(uuid::Uuid);

/// Relies on `uuid::Uuid::new_v4`: a freshly generated random identifier.
/// The value depends on a random number generator, so nothing is promised
/// of it.
#[verifier::external_body]
pub(crate) fn new_uuid() -> uuid::Uuid {
    uuid::Uuid::new_v4()
}

/// Relies on `uuid::Uuid`'s derived `PartialEq`: equality of the sixteen
/// held bytes, which is equality of the identifiers.
#[verifier::external_body]
pub(crate) fn uuid_eq(a: &uuid::Uuid, b: &uuid::Uuid) -> (r: bool)
    ensures
        r == (a == b),
{
    a == b
}

/// Relies on `uuid::Uuid`'s derived `Clone`: the type is `Copy`, so the
/// clone is the same value.
pub assume_specification[ <uuid::Uuid as Clone>::clone ](a: &uuid::Uuid) -> (r: uuid::Uuid)
    ensures
        r == *a,
;

/// Relies on `PhantomData`'s `Clone`: the type has a single value.
pub assume_specification<T: core::marker::PointeeSized>[ <core::marker::PhantomData<T> as Clone>::clone ](
    a: &core::marker::PhantomData<T>,
) -> (r: core::marker::PhantomData<T>)
    ensures
        r == *a,
;

/// Relies on `Arc::clone` as std documents it: the clone is a new handle on
/// the same shared value.
#[verifier::external_body]
pub(crate) fn arc_clone<T>(a: &Arc<T>) -> (r: Arc<T>)
    ensures
        r == *a,
{
    Arc::clone(a)
}

} // verus!
