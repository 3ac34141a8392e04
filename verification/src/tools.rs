use vstd::prelude::*;
use crate::fixed::Fixed;

verus! {

/// What `argmax` returns on `s`: index 0 when every entry is absent,
/// otherwise the index of the first occurrence of the largest present
/// value (absent entries are skipped, exactly as the scan skips them).
pub open spec fn argmax_ok(s: Seq<Option<Fixed>>, r: int) -> bool {
    if forall|i: int| 0 <= i < s.len() ==> (#[trigger] s[i]) is None {
        r == 0
    } else {
        &&& 0 <= r < s.len()
        &&& s[r] is Some
        &&& forall|i: int|
            0 <= i < s.len() && (#[trigger] s[i]) is Some ==> s[i].unwrap().v
                <= s[r].unwrap().v
        &&& forall|i: int|
            0 <= i < r && (#[trigger] s[i]) is Some ==> s[i].unwrap().v < s[r].unwrap().v
    }
}

/// Index of the maximum present value, skipping absent entries; ties go
/// to the earliest index, and a sequence with no present entry gives 0.
pub fn argmax(vector: &Vec<Option<Fixed>>) -> (r: usize)
    requires
        vector@.len() > 0,
    ensures
        argmax_ok(vector@, r as int),
{
    let n = vector.len();
    let mut max_index: usize = 0;
    let mut max_value: Option<Fixed> = None;
    let mut i: usize = 0;
    while i < n
        invariant
            n == vector@.len(),
            i <= n,
            match max_value {
                None => max_index == 0 && forall|j: int|
                    0 <= j < i ==> (#[trigger] vector@[j]) is None,
                Some(m) => {
                    &&& max_index < i
                    &&& vector@[max_index as int] == Some(m)
                    &&& forall|j: int|
                        0 <= j < i && (#[trigger] vector@[j]) is Some ==> vector@[j].unwrap().v
                            <= m.v
                    &&& forall|j: int|
                        0 <= j < max_index && (#[trigger] vector@[j]) is Some
                            ==> vector@[j].unwrap().v < m.v
                },
            },
        decreases n - i,
    {
        match vector[i] {
            None => {},
            Some(value) => {
                match max_value {
                    None => {
                        max_value = Some(value);
                        max_index = i;
                    },
                    Some(m) => {
                        if value.v > m.v {
                            max_value = Some(value);
                            max_index = i;
                        }
                    },
                }
            },
        }
        i += 1;
    }
    max_index
}

/// A row of `n` zeros.
pub fn fx_zeros(n: usize) -> (r: Vec<Fixed>)
    ensures
        r@.len() == n,
        forall|i: int| 0 <= i < n ==> (#[trigger] r@[i]).v == 0,
{
    let mut row: Vec<Fixed> = Vec::new();
    let mut i: usize = 0;
    while i < n
        invariant
            i <= n,
            row@.len() == i,
            forall|j: int| 0 <= j < i ==> (#[trigger] row@[j]).v == 0,
        decreases n - i,
    {
        row.push(Fixed { v: 0 });
        i += 1;
    }
    row
}

/// A row of `n` entries holding `val` at `idx` and zero elsewhere.
pub fn fx_one_hot(n: usize, idx: usize, val: Fixed) -> (r: Vec<Fixed>)
    requires
        idx < n,
    ensures
        r@.len() == n,
        forall|i: int|
            0 <= i < n ==> (#[trigger] r@[i]).v == if i == idx {
                val.v
            } else {
                0
            },
{
    let mut row = fx_zeros(n);
    row[idx] = val;
    row
}

} // verus!
