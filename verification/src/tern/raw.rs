//! Functions on a conditional value given as a `Result` whose variant is decided by
//! whether a [`Uint`] condition is zero: `Ok` when it is nonzero, `Err` otherwise.
use vstd::prelude::*;
use crate::uint::Uint;

verus! {

/// Turns a reference to a conditional value into a conditional value of a reference.
pub fn as_ref<T, F>(tern: &Result<T, F>) -> (r: Result<&T, &F>)
    ensures
        r == match *tern {
            Ok(t) => Ok::<&T, &F>(&t),
            Err(f) => Err::<&T, &F>(&f),
        },
{
    match tern {
        Ok(t) => Ok(t),
        Err(f) => Err(f),
    }
}

/// Turns a mutable reference to a conditional value into a conditional value of a mutable
/// reference, of the same variant.
pub fn as_mut<T, F>(tern: &mut Result<T, F>) -> (r: Result<&mut T, &mut F>)
    ensures
        (*old(tern)) is Ok ==> r is Ok && *r->Ok_0 == (*old(tern))->Ok_0 && *final(tern) == Ok::<T, F>(*final(r->Ok_0)),
        (*old(tern)) is Err ==> r is Err && *r->Err_0 == (*old(tern))->Err_0 && *final(tern) == Err::<T, F>(*final(r->Err_0)),
    no_unwind
{
    match tern {
        Ok(t) => Ok(t),
        Err(f) => Err(f),
    }
}

/// Unwraps the `True` value. The condition must be nonzero.
pub fn expect_true<T, F>(cond: &Uint, tern: Result<T, F>) -> (r: T)
    requires
        cond@ != 0,
        tern is Ok,
    ensures
        tern == Ok::<T, F>(r),
{
    match tern {
        Ok(t) => t,
        Err(_) => vstd::pervasive::unreached(),
    }
}

/// Wraps the `True` value. The condition must be nonzero.
pub fn wrap_true<T, F>(cond: &Uint, t: T) -> (r: Result<T, F>)
    requires
        cond@ != 0,
    ensures
        r == Ok::<T, F>(t),
{
    Ok(t)
}

/// Unwraps the `False` value. The condition must be zero.
pub fn expect_false<T, F>(cond: &Uint, tern: Result<T, F>) -> (r: F)
    requires
        cond@ == 0,
        tern is Err,
    ensures
        tern == Err::<T, F>(r),
{
    match tern {
        Err(f) => f,
        Ok(_) => vstd::pervasive::unreached(),
    }
}

/// Wraps the `False` value. The condition must be zero.
pub fn wrap_false<T, F>(cond: &Uint, f: F) -> (r: Result<T, F>)
    requires
        cond@ == 0,
    ensures
        r == Err::<T, F>(f),
{
    Err(f)
}

} // verus!
