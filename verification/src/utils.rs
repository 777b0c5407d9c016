//! Helpers around share lists and error results.

use vstd::prelude::*;

use crate::error::SsssError;

verus! {

/// Remove and return the entry at `idx`, shifting the rest down.
pub fn remove_idx<T>(idx: usize, vec: &mut Vec<T>) -> (t: T)
    requires
        idx < old(vec)@.len(),
    ensures
        t == old(vec)@[idx as int],
        final(vec)@ == old(vec)@.remove(idx as int),
{
    vec.remove(idx)
}

/// Remove one uniformly random entry from the vector; an empty vector is
/// left unchanged.
pub fn remove_random_entry<T>(rng: &mut rand::rngs::ThreadRng, vec: &mut Vec<T>)
    ensures
        old(vec)@.len() == 0 ==> final(vec)@ == old(vec)@,
        old(vec)@.len() > 0 ==> exists|i: int|
            0 <= i < old(vec)@.len() && final(vec)@ == #[trigger] old(vec)@.remove(i),
{
    match crate::rng::choose_index(rng, vec.len()) {
        Some(idx) => {
            let _ = remove_idx(idx, vec);
        },
        None => {},
    }
}

/// Check that a result is an error carrying the expected message: `Ok` when
/// it is, otherwise an error describing text that did not match.
pub fn check_err_result<T>(result: Result<T, SsssError>, expected: &str) -> (r: Result<
    (),
    String,
>)
    ensures
        match result {
            Err(e) => r is Ok <==> e.spec_message() == expected@,
            Ok(_) => r is Err,
        },
{
    match result {
        Ok(_) => Err(String::from_str("the result is not an error")),
        Err(e) => {
            let m = e.message();
            let exp = String::from_str(expected);
            if m == exp {
                Ok(())
            } else {
                Err(m)
            }
        },
    }
}

} // verus!
