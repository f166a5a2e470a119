use vstd::prelude::*;
use vstd::std_specs::cmp::PartialEqSpec;

verus! {

/// Whether every value after the first equals the first one; true for an
/// empty slice.
pub fn is_all_same<T: PartialEq>(el: &[T]) -> (r: bool)
    ensures
        <T as PartialEqSpec>::obeys_eq_spec() ==> (r == (forall|i: int|
            1 <= i < el@.len() ==> (#[trigger] el@[i]).eq_spec(&el@[0]))),
{
    if el.len() == 0 {
        return true;
    }
    let mut k: usize = 1;
    while k < el.len()
        invariant
            1 <= k <= el@.len(),
            <T as PartialEqSpec>::obeys_eq_spec() ==> forall|i: int|
                1 <= i < k ==> (#[trigger] el@[i]).eq_spec(&el@[0]),
        decreases el@.len() - k,
    {
        if !(el[k] == el[0]) {
            return false;
        }
        k = k + 1;
    }
    true
}

} // verus!
