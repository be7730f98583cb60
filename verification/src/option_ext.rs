//! Small extensions for [`Option`].

use vstd::prelude::*;

verus! {

/// Returns `true` if the option is `None` or the value inside of it
/// matches the predicate.
pub fn is_none_or<T, F: FnOnce(T) -> bool>(opt: Option<T>, f: F) -> (r: bool)
    requires
        opt matches Some(x) ==> call_requires(f, (x,)),
    ensures
        opt is None ==> r,
        opt matches Some(x) ==> call_ensures(f, (x,), r),
{
    match opt {
        None => true,
        Some(x) => f(x),
    }
}

} // verus!
