use vstd::prelude::*;

verus! {

/// `v` brought into the range from `min` to `max`.
pub open spec fn clamped(v: int, min: int, max: int) -> int {
    if v < min {
        min
    } else if v > max {
        max
    } else {
        v
    }
}

/// Brings `v` into the range from `min` to `max`.
pub fn clamp_u32(v: u32, min: u32, max: u32) -> (r: u32)
    requires
        min <= max,
    ensures
        r == clamped(v as int, min as int, max as int),
        min <= r <= max,
{
    if v < min {
        min
    } else if v > max {
        max
    } else {
        v
    }
}

/// `at` is the place of the first of the largest entries of `values`.
pub open spec fn is_first_largest(values: Seq<i64>, at: int) -> bool {
    &&& 0 <= at < values.len()
    &&& forall|i: int| 0 <= i < values.len() ==> values[i] <= values[at]
    &&& forall|i: int| 0 <= i < at ==> values[i] < values[at]
}

/// Finds the first of the largest entries of a list: the row that elimination
/// with partial pivoting pivots on, when the list holds the ordinals of the
/// sizes of a column's entries.
pub fn first_largest(values: &Vec<i64>) -> (at: usize)
    requires
        values@.len() > 0,
    ensures
        is_first_largest(values@, at as int),
{
    let mut at: usize = 0;
    let mut i: usize = 1;
    while i < values.len()
        invariant
            1 <= i <= values@.len(),
            is_first_largest(values@.subrange(0, i as int), at as int),
        decreases values@.len() - i,
    {
        let ghost seen = values@.subrange(0, i as int);
        let ghost next = values@.subrange(0, i + 1);
        proof {
            assert forall|k: int| 0 <= k < i implies next[k] == seen[k] by {}
            assert(next[i as int] == values@[i as int]);
            assert(seen[at as int] == values@[at as int]);
        }
        if values[i] > values[at] {
            at = i;
        }
        i += 1;
    }
    proof {
        assert(values@.subrange(0, i as int) =~= values@);
    }
    at
}

/// A list has one such place only.
pub proof fn lemma_first_largest_unique(values: Seq<i64>, a: int, b: int)
    requires
        is_first_largest(values, a),
        is_first_largest(values, b),
    ensures
        a == b,
{
    if a < b {
        assert(values[a] < values[b]);
        assert(values[b] <= values[a]);
    } else if b < a {
        assert(values[b] < values[a]);
        assert(values[a] <= values[b]);
    }
}

} // verus!
