//! Values whose variant is decided by whether a [`Uint`] is zero.
//!
//! A [`CondResult`] is ok exactly when its condition is nonzero, and an error
//! otherwise; a [`CondOption`] is some exactly when its condition is nonzero.
use vstd::prelude::*;
use crate::uint::Uint;

pub mod direct;

verus! {

/// A `Result`-like value that is ok exactly when its condition is nonzero.
pub struct CondResult<T, E> {
    cond: bool,
    direct: Result<T, E>,
}

impl<T, E> CondResult<T, E> {
    #[verifier::type_invariant]
    closed spec fn inv(self) -> bool {
        (self.direct is Ok) == self.cond
    }

    /// Whether the condition is nonzero, i.e. whether this is ok.
    pub closed spec fn is_ok_spec(&self) -> bool {
        self.cond
    }

    /// The value held, as a `Result`.
    pub closed spec fn direct_spec(&self) -> Result<T, E> {
        self.direct
    }

    /// Wraps `direct`, whose variant must match the condition `cond`.
    pub fn from_direct(cond: &Uint, direct: Result<T, E>) -> (r: Self)
        requires
            (direct is Ok) == (cond@ != 0),
        ensures
            r.is_ok_spec() == (cond@ != 0),
            r.direct_spec() == direct,
    {
        CondResult { cond: cond.is_nonzero(), direct }
    }

    /// Whether instances of this type are ok.
    pub fn is_ok(&self) -> (r: bool)
        ensures
            r == self.is_ok_spec(),
    {
        self.cond
    }

    /// Whether instances of this type are errors.
    pub fn is_err(&self) -> (r: bool)
        ensures
            r == !self.is_ok_spec(),
    {
        !self.cond
    }

    /// Unwraps into the held value.
    pub fn into_raw(self) -> (r: Result<T, E>)
        ensures
            r == self.direct_spec(),
            (r is Ok) == self.is_ok_spec(),
    {
        proof {
            use_type_invariant(&self);
        }
        self.direct
    }

    /// Turns this into a regular `Result`.
    pub fn into_result(self) -> (r: Result<T, E>)
        ensures
            r == self.direct_spec(),
            (r is Ok) == self.is_ok_spec(),
    {
        self.into_raw()
    }

    /// Equivalent of `Result::as_ref`.
    pub fn as_ref(&self) -> (r: CondResult<&T, &E>)
        ensures
            r.is_ok_spec() == self.is_ok_spec(),
            r.direct_spec() == match self.direct_spec() {
                Ok(t) => Ok::<&T, &E>(&t),
                Err(e) => Err::<&T, &E>(&e),
            },
    {
        proof {
            use_type_invariant(self);
        }
        let direct = match &self.direct {
            Ok(t) => Ok(t),
            Err(e) => Err(e),
        };
        CondResult { cond: self.cond, direct }
    }

    /// Equivalent of `Result::as_mut`.
    pub fn as_mut(&mut self) -> (r: CondResult<&mut T, &mut E>)
        ensures
            r.is_ok_spec() == old(self).is_ok_spec(),
            final(self).is_ok_spec() == old(self).is_ok_spec(),
            old(self).direct_spec() is Ok ==> r.direct_spec() is Ok && *r.direct_spec()->Ok_0
                == old(self).direct_spec()->Ok_0 && final(self).direct_spec() == Ok::<T, E>(
                *final(r.direct_spec()->Ok_0),
            ),
            old(self).direct_spec() is Err ==> r.direct_spec() is Err && *r.direct_spec()->Err_0
                == old(self).direct_spec()->Err_0 && final(self).direct_spec() == Err::<T, E>(
                *final(r.direct_spec()->Err_0),
            ),
    {
        proof {
            use_type_invariant(&*self);
        }
        let cond = self.cond;
        let direct = direct::as_mut(&mut self.direct);
        CondResult { cond, direct }
    }

    /// The same value with both variants wrapped in `ManuallyDrop`.
    pub fn into_manual_drop(self) -> (r: CondResult<
        core::mem::ManuallyDrop<T>,
        core::mem::ManuallyDrop<E>,
    >)
        ensures
            r.is_ok_spec() == self.is_ok_spec(),
            r.direct_spec() matches Ok(t) ==> self.direct_spec() == Ok::<T, E>(t@),
            r.direct_spec() matches Err(e) ==> self.direct_spec() == Err::<T, E>(e@),
    {
        let cond = self.cond;
        let direct = match self.into_raw() {
            Ok(t) => Ok(core::mem::ManuallyDrop::new(t)),
            Err(e) => Err(core::mem::ManuallyDrop::new(e)),
        };
        CondResult { cond, direct }
    }

    /// Wraps `ok`; the condition `cond` must be nonzero.
    pub fn make_ok(cond: &Uint, ok: T) -> (r: Self)
        requires
            cond@ != 0,
        ensures
            r.is_ok_spec(),
            r.direct_spec() == Ok::<T, E>(ok),
    {
        CondResult { cond: cond.is_nonzero(), direct: Ok(ok) }
    }

    /// Wraps `err`; the condition `cond` must be zero.
    pub fn make_err(cond: &Uint, err: E) -> (r: Self)
        requires
            cond@ == 0,
        ensures
            !r.is_ok_spec(),
            r.direct_spec() == Err::<T, E>(err),
    {
        CondResult { cond: cond.is_nonzero(), direct: Err(err) }
    }

    /// The ok value; this must be ok.
    pub fn unwrap(self) -> (r: T)
        requires
            self.is_ok_spec(),
        ensures
            self.direct_spec() == Ok::<T, E>(r),
    {
        proof {
            use_type_invariant(&self);
        }
        match self.direct {
            Ok(t) => t,
            Err(_) => {
                vstd::pervasive::unreached()
            },
        }
    }

    /// The error value; this must be an error.
    pub fn unwrap_err(self) -> (r: E)
        requires
            !self.is_ok_spec(),
        ensures
            self.direct_spec() == Err::<T, E>(r),
    {
        proof {
            use_type_invariant(&self);
        }
        match self.direct {
            Err(e) => e,
            Ok(_) => {
                vstd::pervasive::unreached()
            },
        }
    }
}

impl<T> CondResult<T, T> {
    /// A result where both variants have the same type.
    pub fn new_trivial(cond: &Uint, x: T) -> (r: Self)
        ensures
            r.is_ok_spec() == (cond@ != 0),
            r.direct_spec() == if cond@ != 0 { Ok::<T, T>(x) } else { Err::<T, T>(x) },
    {
        if cond.is_nonzero() {
            CondResult { cond: true, direct: Ok(x) }
        } else {
            CondResult { cond: false, direct: Err(x) }
        }
    }

    /// The value of a result where both variants have the same type.
    pub fn unwrap_trivial(self) -> (r: T)
        ensures
            self.direct_spec() == Ok::<T, T>(r) || self.direct_spec() == Err::<T, T>(r),
    {
        match self.direct {
            Ok(t) => t,
            Err(e) => e,
        }
    }
}

/// An `Option`-like value that is some exactly when its condition is nonzero.
pub struct CondOption<T> {
    cond: bool,
    direct: Option<T>,
}

impl<T> CondOption<T> {
    #[verifier::type_invariant]
    closed spec fn inv(self) -> bool {
        (self.direct is Some) == self.cond
    }

    /// Whether the condition is nonzero, i.e. whether this is some.
    pub closed spec fn is_some_spec(&self) -> bool {
        self.cond
    }

    /// The value held, as an `Option`.
    pub closed spec fn direct_spec(&self) -> Option<T> {
        self.direct
    }

    /// Wraps `some`; the condition `cond` must be nonzero.
    pub fn make_some(cond: &Uint, some: T) -> (r: Self)
        requires
            cond@ != 0,
        ensures
            r.is_some_spec(),
            r.direct_spec() == Some(some),
    {
        CondOption { cond: cond.is_nonzero(), direct: Some(some) }
    }

    /// The empty value; the condition `cond` must be zero.
    pub fn make_none(cond: &Uint) -> (r: Self)
        requires
            cond@ == 0,
        ensures
            !r.is_some_spec(),
            r.direct_spec() == None::<T>,
    {
        CondOption { cond: cond.is_nonzero(), direct: None }
    }

    /// Turns this into a regular `Option`.
    pub fn into_direct(self) -> (r: Option<T>)
        ensures
            r == self.direct_spec(),
            (r is Some) == self.is_some_spec(),
    {
        proof {
            use_type_invariant(&self);
        }
        self.direct
    }
}

} // verus!
