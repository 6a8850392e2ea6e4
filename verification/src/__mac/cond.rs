//! Evidence of whether a [`Uint`] condition is zero, used to build and take apart
//! conditional values.
use vstd::prelude::*;
use crate::uint::Uint;
use crate::condty::{CondResult, CondOption};

verus! {

/// Evidence that a condition is nonzero (`COND == true`) or zero (`COND == false`).
///
/// Values are only made by [`hold`], which checks the condition.
pub struct CtxCond<const COND: bool> {
    cond: Ghost<nat>,
}

impl<const COND: bool> CtxCond<COND> {
    /// The value of the condition this is evidence about.
    pub closed spec fn cond_value(&self) -> nat {
        self.cond@
    }

    /// The evidence is correct.
    pub closed spec fn wf(&self) -> bool {
        COND == (self.cond@ != 0)
    }
}

/// Checks whether `c` is nonzero, and returns the matching evidence.
pub fn hold(c: &Uint) -> (r: Result<CtxCond<true>, CtxCond<false>>)
    ensures
        (r is Ok) == (c@ != 0),
        r matches Ok(t) ==> t.wf() && t.cond_value() == c@,
        r matches Err(f) ==> f.wf() && f.cond_value() == c@,
{
    if c.is_nonzero() {
        Ok(CtxCond { cond: Ghost(c@) })
    } else {
        Err(CtxCond { cond: Ghost(c@) })
    }
}

impl CtxCond<true> {
    /// Creates the `True` variant of a conditional value.
    pub fn new_true<T, F>(&self, t: T) -> (r: Result<T, F>)
        ensures
            r == Ok::<T, F>(t),
    {
        Ok(t)
    }

    /// Creates an ok [`CondResult`].
    pub fn new_ok<T, E>(&self, ok: T) -> (r: CondResult<T, E>)
        requires
            self.wf(),
        ensures
            r.is_ok_spec(),
            r.direct_spec() == Ok::<T, E>(ok),
    {
        let one = Uint::one();
        CondResult::make_ok(&one, ok)
    }

    /// Creates a some [`CondOption`].
    pub fn new_some<T>(&self, some: T) -> (r: CondOption<T>)
        requires
            self.wf(),
        ensures
            r.is_some_spec(),
            r.direct_spec() == Some(some),
    {
        let one = Uint::one();
        CondOption::make_some(&one, some)
    }

    /// Unwraps the `True` variant of a conditional value.
    pub fn unwrap_true<T, F>(&self, t: Result<T, F>) -> (r: T)
        requires
            t is Ok,
        ensures
            t == Ok::<T, F>(r),
    {
        crate::condty::direct::unwrap_true(&Uint::one(), t)
    }

    /// Unwraps an ok [`CondResult`].
    pub fn unwrap_ok<T, E>(&self, ok: CondResult<T, E>) -> (r: T)
        requires
            ok.is_ok_spec(),
        ensures
            ok.direct_spec() == Ok::<T, E>(r),
    {
        ok.unwrap()
    }

    /// Unwraps a some [`CondOption`].
    pub fn unwrap_some<T>(&self, some: CondOption<T>) -> (r: T)
        requires
            some.is_some_spec(),
        ensures
            some.direct_spec() == Some(r),
    {
        some.into_direct().unwrap()
    }
}

impl CtxCond<false> {
    /// Creates the `False` variant of a conditional value.
    pub fn new_false<T, F>(&self, f: F) -> (r: Result<T, F>)
        ensures
            r == Err::<T, F>(f),
    {
        Err(f)
    }

    /// Creates an error [`CondResult`].
    pub fn new_err<T, E>(&self, err: E) -> (r: CondResult<T, E>)
        requires
            self.wf(),
        ensures
            !r.is_ok_spec(),
            r.direct_spec() == Err::<T, E>(err),
    {
        let zero = Uint::zero();
        CondResult::make_err(&zero, err)
    }

    /// Creates an empty [`CondOption`].
    pub fn new_none<T>(&self) -> (r: CondOption<T>)
        requires
            self.wf(),
        ensures
            !r.is_some_spec(),
            r.direct_spec() == None::<T>,
    {
        let zero = Uint::zero();
        CondOption::make_none(&zero)
    }

    /// Unwraps the `False` variant of a conditional value.
    pub fn unwrap_false<T, F>(&self, f: Result<T, F>) -> (r: F)
        requires
            f is Err,
        ensures
            f == Err::<T, F>(r),
    {
        crate::condty::direct::unwrap_false(&Uint::zero(), f)
    }

    /// Unwraps an error [`CondResult`].
    pub fn unwrap_err<T, E>(&self, err: CondResult<T, E>) -> (r: E)
        requires
            !err.is_ok_spec(),
        ensures
            err.direct_spec() == Err::<T, E>(r),
    {
        err.unwrap_err()
    }

    /// Discards an empty [`CondOption`].
    pub fn drop_none<T>(&self, none: CondOption<T>)
        requires
            !none.is_some_spec(),
    {
        let _ = none.into_direct();
    }
}

} // verus!
