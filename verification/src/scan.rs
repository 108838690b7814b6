use vstd::prelude::*;

verus! {

/// Finds the next space-delimited entry of a points text: hands back the
/// given start together with the position of the first space at or after
/// it. Some space must follow, else there is no entry to find.
pub fn get_next_entry(s: &Vec<u8>, start: usize) -> (r: (usize, usize))
    requires
        exists|k: int| start <= k < s@.len() && s@[k] == 32u8,
    ensures
        r.0 == start,
        start <= r.1 < s@.len(),
        s@[r.1 as int] == 32u8,
        forall|k: int| start <= k < r.1 ==> s@[k] != 32u8,
{
    let n = s.len();
    let mut end: usize = start;
    while s[end] != 32u8
        invariant
            n == s@.len(),
            start <= end < n,
            exists|k: int| end <= k < s@.len() && s@[k] == 32u8,
            forall|k: int| start <= k < end ==> s@[k] != 32u8,
        decreases s@.len() - end,
    {
        proof {
            let k = choose|k: int| end <= k < s@.len() && s@[k] == 32u8;
            assert(end + 1 <= k < s@.len() && s@[k] == 32u8);
        }
        end = end + 1;
    }
    (start, end)
}

} // verus!
