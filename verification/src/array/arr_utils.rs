//! Index arithmetic for arrays used as ring buffers.
use vstd::prelude::*;

verus! {

/// The physical index in an array of length `cap` of a logical index that may run
/// past the end once: `logical` minus `cap` if it is at least `cap`.
pub fn phys_idx(logical: usize, cap: usize) -> (r: usize)
    requires
        logical == 0 || logical < 2 * cap,
    ensures
        r == if logical >= cap { logical - cap } else { logical as int },
        r == 0 || r < cap,
        cap > 0 ==> r == logical % cap,
{
    proof {
        if cap > 0 {
            if logical >= cap {
                vstd::arithmetic::div_mod::lemma_fundamental_div_mod_converse(
                    logical as int,
                    cap as int,
                    1,
                    logical - cap,
                );
            } else {
                vstd::arithmetic::div_mod::lemma_fundamental_div_mod_converse(
                    logical as int,
                    cap as int,
                    0,
                    logical as int,
                );
            }
        }
    }
    if logical >= cap {
        logical - cap
    } else {
        logical
    }
}

} // verus!

verus! {

/// Exchanges the items at positions `i` and `j`, where `i < j`.
pub fn swap_items<T>(s: &mut [T], i: usize, j: usize)
    requires
        i < j < old(s)@.len(),
    ensures
        final(s)@ == old(s)@.update(i as int, old(s)@[j as int]).update(j as int, old(s)@[i as int]),
{
    let ghost before = s@;
    let (a, b) = s.split_at_mut(j);
    let (_, a2) = a.split_at_mut(i);
    let x = a2.first_mut().unwrap();
    let y = b.first_mut().unwrap();
    core::mem::swap(x, y);
    proof {
        assert(s@ =~= before.update(i as int, before[j as int]).update(j as int, before[i as int]));
    }
}

} // verus!
