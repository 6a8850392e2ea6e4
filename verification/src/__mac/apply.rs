//! Reading the attribute of the `apply` macro: a macro path, optionally followed by `!` and
//! arguments.
use vstd::prelude::*;

verus! {

/// The position of the first `!` among the attribute's tokens, given as whether each token
/// is a `!`; the tokens after it are the macro's arguments. `None` where there is no `!`.
pub fn first_bang(is_bang: &[bool]) -> (r: Option<usize>)
    ensures
        r is None <==> forall|i: int| 0 <= i < is_bang@.len() ==> !#[trigger] is_bang@[i],
        r matches Some(i) ==> i < is_bang@.len() && is_bang@[i as int] && forall|j: int|
            0 <= j < i ==> !#[trigger] is_bang@[j],
{
    let mut i: usize = 0;
    while i < is_bang.len()
        invariant
            i <= is_bang@.len(),
            forall|j: int| 0 <= j < i ==> !#[trigger] is_bang@[j],
        decreases is_bang@.len() - i,
    {
        if is_bang[i] {
            return Some(i);
        }
        i = i + 1;
    }
    None
}

} // verus!
