//! The one indicator kernel that computes over plain booleans.
//!
//! The numeric indicator kernels work in floating point over the host's
//! arrays and stay with the host; the repeat kernel is pure boolean window
//! logic, so its computation lives here with a contract. The host hands in
//! the values and takes the flags back.

use vstd::prelude::*;

verus! {

/// Does a run of `repeat` true values end at index `i`?
pub open spec fn spec_repeat_at(data: Seq<bool>, repeat: int, i: int) -> bool {
    &&& i + 1 >= repeat
    &&& forall|j: int| i + 1 - repeat <= j <= i ==> data[j]
}

/// For each index, whether the condition has held there and at the
/// `repeat - 1` indices before it. The first `repeat - 1` positions have
/// no full window and are false.
pub fn calc_repeat(data: &Vec<bool>, repeat: usize) -> (r: Vec<bool>)
    requires
        repeat >= 1,
    ensures
        r@.len() == data@.len(),
        forall|i: int| 0 <= i < data@.len() ==> r@[i] == spec_repeat_at(
            data@,
            repeat as int,
            i,
        ),
{
    let n = data.len();
    let mut result: Vec<bool> = Vec::new();
    let mut i: usize = 0;
    while i < n
        invariant
            0 <= i <= n,
            n == data@.len(),
            repeat >= 1,
            result@.len() == i,
            forall|k: int| 0 <= k < i ==> result@[k] == spec_repeat_at(
                data@,
                repeat as int,
                k,
            ),
        decreases n - i,
    {
        if i + 1 < repeat {
            result.push(false);
        } else {
            let start = i + 1 - repeat;
            let mut all_true = true;
            let mut j: usize = start;
            while j <= i && all_true
                invariant
                    start <= j <= i + 1,
                    i < n == data@.len(),
                    all_true == (forall|k: int| start <= k < j ==> data@[k]),
                decreases i + 1 - j,
            {
                if !data[j] {
                    all_true = false;
                }
                j = j + 1;
            }
            proof {
                if all_true {
                    assert(j == i + 1);
                }
            }
            result.push(all_true);
        }
        i = i + 1;
    }
    result
}

} // verus!
