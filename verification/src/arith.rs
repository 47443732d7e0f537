use vstd::prelude::*;

verus! {

/// A binary operation on scalars, supplied by the caller as a closure, is usable by the
/// engine when it accepts every pair of arguments and is a function: the same arguments
/// always give the same result.
pub open spec fn is_operation<T, F: Fn(T, T) -> T>(f: F) -> bool {
    &&& forall|x: T, y: T| #[trigger] f.requires((x, y))
    &&& forall|x: T, y: T, r: T, s: T|
        #![trigger f.ensures((x, y), r), f.ensures((x, y), s)]
        f.ensures((x, y), r) && f.ensures((x, y), s) ==> r == s
}

/// The result of the operation `f` on `x` and `y`.
pub open spec fn apply<T, F: Fn(T, T) -> T>(f: F, x: T, y: T) -> T {
    choose|r: T| f.ensures((x, y), r)
}

/// Runs the operation `f` on `x` and `y`.
pub fn operate<T, F: Fn(T, T) -> T>(f: &F, x: T, y: T) -> (r: T)
    requires
        is_operation(*f),
    ensures
        r == apply(*f, x, y),
{
    let r = f(x, y);
    assert(f.ensures((x, y), r));
    r
}

} // verus!
