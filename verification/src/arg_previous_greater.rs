//! For each row of a column of numbers, the row before it that holds a greater number.

use vstd::prelude::*;

verus! {

/// Whether row `j` comes before row `i` and holds a greater number.
pub open spec fn is_greater_before(values: Seq<Option<i128>>, i: int, j: int) -> bool {
    0 <= j < i && values[j] is Some && values[j].unwrap() > values[i].unwrap()
}

/// Whether row `j` is the last row before row `i` that holds a greater number.
pub open spec fn is_previous_greater(values: Seq<Option<i128>>, i: int, j: int) -> bool {
    &&& is_greater_before(values, i, j)
    &&& forall|k: int| j < k < i ==> !#[trigger] is_greater_before(values, i, k)
}

/// Whether no row before row `i` holds a greater number.
pub open spec fn none_greater_before(values: Seq<Option<i128>>, i: int) -> bool {
    forall|k: int| 0 <= k < i ==> !#[trigger] is_greater_before(values, i, k)
}

/// Whether some row before row `i` holds a number.
pub open spec fn has_number_before(values: Seq<Option<i128>>, i: int) -> bool {
    exists|k: int| 0 <= k < i && (#[trigger] values[k]) is Some
}

/// What belongs in row `i` of the result: nothing if the row holds no number or no row
/// before it holds one; else the last row before it with a greater number, or `i` itself
/// if no row before it holds a greater number.
pub open spec fn is_answer(values: Seq<Option<i128>>, i: int, answer: Option<u32>) -> bool {
    if values[i] is None || !has_number_before(values, i) {
        answer is None
    } else if none_greater_before(values, i) {
        answer == Some(i as u32)
    } else {
        answer is Some && is_previous_greater(values, i, answer.unwrap() as int)
    }
}

/// What the link of row `k` says: -1 for a row without a number or without a greater
/// number before it, else the last row before it with a greater number.
pub open spec fn is_link(values: Seq<Option<i128>>, k: int, link: int) -> bool {
    if values[k] is None {
        link == -1
    } else if link == -1 {
        none_greater_before(values, k)
    } else {
        is_previous_greater(values, k, link)
    }
}

/// For each row, the index of the last row before it that holds a greater number: the
/// rows are taken in order, and the search for a row goes from the nearest number before
/// it along the links of the rows already done, each of which leads to the last greater
/// number before its row.
pub fn arg_previous_greater(values: &Vec<Option<i128>>) -> (out: Vec<Option<u32>>)
    requires
        values.len() <= i32::MAX,
    ensures
        out.len() == values.len(),
        forall|i: int| 0 <= i < out.len() ==> is_answer(values@, i, #[trigger] out@[i]),
{
    let mut idx: Vec<i32> = Vec::with_capacity(values.len());
    let mut out: Vec<Option<u32>> = Vec::with_capacity(values.len());
    let mut i_curr: usize = 0;
    while i_curr < values.len()
        invariant
            values.len() <= i32::MAX,
            i_curr <= values.len(),
            idx.len() == i_curr,
            out.len() == i_curr,
            forall|k: int| 0 <= k < i_curr ==> is_link(values@, k, #[trigger] idx@[k] as int),
            forall|k: int| 0 <= k < i_curr ==> -1 <= #[trigger] idx@[k] < k,
            forall|k: int| 0 <= k < i_curr ==> is_answer(values@, k, #[trigger] out@[k]),
        decreases values.len() - i_curr,
    {
        let answer = match values[i_curr] {
            None => {
                idx.push(-1);
                None
            },
            Some(value) => {
                // look at the rows before, from the nearest on
                let mut i: i32 = i_curr as i32 - 1;
                while i >= 0 && values[i as usize].is_none()
                    invariant
                        -1 <= i < i_curr <= values.len() <= i32::MAX,
                        forall|k: int| i < k < i_curr ==> (#[trigger] values@[k]) is None,
                    decreases i + 1,
                {
                    i -= 1;
                }
                if i < 0 {
                    idx.push(-1);
                    assert(!has_number_before(values@, i_curr as int));
                    None
                } else {
                    assert(values@[i as int] is Some);
                    assert(has_number_before(values@, i_curr as int));
                    while i != -1 && value >= values[i as usize].unwrap()
                        invariant
                            -1 <= i < i_curr < values.len() <= i32::MAX,
                            idx.len() == i_curr,
                            values@[i_curr as int] == Some(value),
                            i != -1 ==> values@[i as int] is Some,
                            forall|k: int|
                                0 <= k < i_curr ==> is_link(values@, k, #[trigger] idx@[k] as int),
                            forall|k: int| 0 <= k < i_curr ==> -1 <= #[trigger] idx@[k] < k,
                            forall|k: int|
                                i < k < i_curr ==> !#[trigger] is_greater_before(
                                    values@,
                                    i_curr as int,
                                    k,
                                ),
                        decreases i + 1,
                    {
                        let link = idx[i as usize];
                        proof {
                            let row = i as int;
                            assert(is_link(values@, row, idx@[row] as int));
                            assert forall|k: int| link < k < i_curr implies !#[trigger] is_greater_before(
                                values@,
                                i_curr as int,
                                k,
                            ) by {
                                if k < row {
                                    assert(!is_greater_before(values@, row, k));
                                }
                            }
                        }
                        i = link;
                    }
                    if i == -1 {
                        idx.push(-1);
                        Some(i_curr as u32)
                    } else {
                        idx.push(i);
                        assert(is_greater_before(values@, i_curr as int, i as int));
                        Some(i as u32)
                    }
                }
            },
        };
        out.push(answer);
        i_curr += 1;
    }
    out
}

} // verus!
