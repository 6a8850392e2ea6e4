//! Values whose type is decided by whether a [`Uint`] condition is zero.
//!
//! A [`TernRes`] holds an ok value exactly when its condition is nonzero.
use vstd::prelude::*;
use crate::uint::Uint;

pub mod raw;

verus! {

/// A `Result`-like value that is ok exactly when its condition is nonzero.
pub struct TernRes<T, E> {
    cond: bool,
    raw: Result<T, E>,
}

impl<T, E> TernRes<T, E> {
    #[verifier::type_invariant]
    closed spec fn inv(self) -> bool {
        (self.raw is Ok) == self.cond
    }

    /// Whether the condition is nonzero, i.e. whether this is ok.
    pub closed spec fn is_ok_spec(&self) -> bool {
        self.cond
    }

    /// The value held, as a `Result`.
    pub closed spec fn raw_spec(&self) -> Result<T, E> {
        self.raw
    }

    /// Wraps `raw`, whose variant must match the condition `cond`.
    pub fn from_raw(cond: &Uint, raw: Result<T, E>) -> (r: Self)
        requires
            (raw is Ok) == (cond@ != 0),
        ensures
            r.is_ok_spec() == (cond@ != 0),
            r.raw_spec() == raw,
    {
        TernRes { cond: cond.is_nonzero(), raw }
    }

    /// Whether instances of this type are ok.
    pub fn is_ok(&self) -> (r: bool)
        ensures
            r == self.is_ok_spec(),
    {
        self.cond
    }

    /// Unwraps into the held value.
    pub fn into_raw(self) -> (r: Result<T, E>)
        ensures
            r == self.raw_spec(),
            (r is Ok) == self.is_ok_spec(),
    {
        proof {
            use_type_invariant(&self);
        }
        self.raw
    }

    /// Equivalent of `Result::as_ref`.
    pub fn as_ref(&self) -> (r: TernRes<&T, &E>)
        ensures
            r.is_ok_spec() == self.is_ok_spec(),
            r.raw_spec() == match self.raw_spec() {
                Ok(t) => Ok::<&T, &E>(&t),
                Err(e) => Err::<&T, &E>(&e),
            },
    {
        proof {
            use_type_invariant(self);
        }
        TernRes { cond: self.cond, raw: raw::as_ref(&self.raw) }
    }

    /// Equivalent of `Result::as_mut`.
    pub fn as_mut(&mut self) -> (r: TernRes<&mut T, &mut E>)
        ensures
            r.is_ok_spec() == old(self).is_ok_spec(),
            final(self).is_ok_spec() == old(self).is_ok_spec(),
            old(self).raw_spec() is Ok ==> r.raw_spec() is Ok && *r.raw_spec()->Ok_0
                == old(self).raw_spec()->Ok_0 && final(self).raw_spec() == Ok::<T, E>(
                *final(r.raw_spec()->Ok_0),
            ),
            old(self).raw_spec() is Err ==> r.raw_spec() is Err && *r.raw_spec()->Err_0
                == old(self).raw_spec()->Err_0 && final(self).raw_spec() == Err::<T, E>(
                *final(r.raw_spec()->Err_0),
            ),
    {
        proof {
            use_type_invariant(&*self);
        }
        let cond = self.cond;
        let raw = raw::as_mut(&mut self.raw);
        TernRes { cond, raw }
    }

    /// Turns this into a regular `Result`.
    pub fn into_result(self) -> (r: Result<T, E>)
        ensures
            r == self.raw_spec(),
            (r is Ok) == self.is_ok_spec(),
    {
        self.into_raw()
    }

    /// Wraps `ok`; the condition `cond` must be nonzero.
    pub fn make_ok(cond: &Uint, ok: T) -> (r: Self)
        requires
            cond@ != 0,
        ensures
            r.is_ok_spec(),
            r.raw_spec() == Ok::<T, E>(ok),
    {
        TernRes { cond: true, raw: raw::wrap_true(cond, ok) }
    }

    /// Wraps `err`; the condition `cond` must be zero.
    pub fn make_err(cond: &Uint, err: E) -> (r: Self)
        requires
            cond@ == 0,
        ensures
            !r.is_ok_spec(),
            r.raw_spec() == Err::<T, E>(err),
    {
        TernRes { cond: false, raw: raw::wrap_false(cond, err) }
    }

    /// Turns this into a regular `Result` whose variants are wrapped in `ManuallyDrop`.
    pub fn into_man_drop_result(self) -> (r: Result<
        core::mem::ManuallyDrop<T>,
        core::mem::ManuallyDrop<E>,
    >)
        ensures
            (r is Ok) == self.is_ok_spec(),
            r matches Ok(t) ==> self.raw_spec() == Ok::<T, E>(t@),
            r matches Err(e) ==> self.raw_spec() == Err::<T, E>(e@),
    {
        match self.into_raw() {
            Ok(t) => Ok(core::mem::ManuallyDrop::new(t)),
            Err(e) => Err(core::mem::ManuallyDrop::new(e)),
        }
    }

    /// The ok value; this must be ok.
    pub fn unwrap(self) -> (r: T)
        requires
            self.is_ok_spec(),
        ensures
            self.raw_spec() == Ok::<T, E>(r),
    {
        proof {
            use_type_invariant(&self);
        }
        let cond = Uint::one();
        raw::expect_true(&cond, self.raw)
    }

    /// The error value; this must be an error.
    pub fn unwrap_err(self) -> (r: E)
        requires
            !self.is_ok_spec(),
        ensures
            self.raw_spec() == Err::<T, E>(r),
    {
        proof {
            use_type_invariant(&self);
        }
        let cond = Uint::zero();
        raw::expect_false(&cond, self.raw)
    }
}

impl<T> TernRes<T, T> {
    /// A result where both variants have the same type.
    pub fn new_trivial(cond: &Uint, x: T) -> (r: Self)
        ensures
            r.is_ok_spec() == (cond@ != 0),
            r.raw_spec() == if cond@ != 0 { Ok::<T, T>(x) } else { Err::<T, T>(x) },
    {
        if cond.is_nonzero() {
            TernRes { cond: true, raw: Ok(x) }
        } else {
            TernRes { cond: false, raw: Err(x) }
        }
    }

    /// The value of a result where both variants have the same type.
    pub fn into_trivial(self) -> (r: T)
        ensures
            self.raw_spec() == Ok::<T, T>(r) || self.raw_spec() == Err::<T, T>(r),
    {
        match self.raw {
            Ok(t) => t,
            Err(e) => e,
        }
    }
}

} // verus!
