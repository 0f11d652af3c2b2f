use vstd::prelude::*;

verus! {

/// `picks` names each of the positions below `n` exactly once.
pub open spec fn is_arrangement(picks: Seq<usize>, n: nat) -> bool {
    &&& picks.len() == n
    &&& forall|t: int| 0 <= t < picks.len() ==> #[trigger] picks[t] < n
    &&& picks.no_duplicates()
}

/// `x` may stand before `y` in descending order, going by what `at_least`
/// said of the two: that `x` is at least `y`, or that `y` is not at least `x`.
pub open spec fn may_precede<T, F: Fn(T, T) -> bool>(at_least: F, x: T, y: T) -> bool {
    at_least.ensures((x, y), true) || at_least.ensures((y, x), false)
}

/// The value that `picks` names at `t` may stand before the one that it names
/// next.
pub open spec fn step_descends<T, F: Fn(T, T) -> bool>(
    at_least: F,
    values: Seq<T>,
    picks: Seq<usize>,
    t: int,
) -> bool {
    may_precede(at_least, values[picks[t] as int], values[picks[t + 1] as int])
}

/// Taken in the order of `picks`, each value may stand before the next.
pub open spec fn descends<T, F: Fn(T, T) -> bool>(
    at_least: F,
    values: Seq<T>,
    picks: Seq<usize>,
) -> bool {
    forall|t: int|
        0 <= t < picks.len() - 1 ==> #[trigger] step_descends(at_least, values, picks, t)
}

/// The value at `t` may stand before the one after it.
pub open spec fn neighbours_descend<T, F: Fn(T, T) -> bool>(
    at_least: F,
    values: Seq<T>,
    t: int,
) -> bool {
    may_precede(at_least, values[t], values[t + 1])
}

/// Each value may stand before the next.
pub open spec fn values_descend<T, F: Fn(T, T) -> bool>(at_least: F, values: Seq<T>) -> bool {
    forall|t: int| 0 <= t < values.len() - 1 ==> #[trigger] neighbours_descend(at_least, values, t)
}

/// The positions of `values` in descending order: every position once, and
/// each value followed by one that it may precede. A value is moved in front
/// of another only when `at_least` says that the other is not at least as
/// large, so values that `at_least` takes for equal keep their order.
pub fn descending_order<T: Copy, F: Fn(T, T) -> bool>(values: &Vec<T>, at_least: &F) -> (picks:
    Vec<usize>)
    requires
        forall|x: T, y: T| at_least.requires((x, y)),
    ensures
        is_arrangement(picks@, values@.len()),
        descends(*at_least, values@, picks@),
{
    let n: usize = values.len();
    let mut picks: Vec<usize> = Vec::new();
    let mut i: usize = 0;
    while i < n
        invariant
            i <= n,
            n == values@.len(),
            forall|x: T, y: T| at_least.requires((x, y)),
            picks@.len() == i,
            forall|t: int| 0 <= t < picks@.len() ==> #[trigger] picks@[t] < i,
            picks@.no_duplicates(),
            descends(*at_least, values@, picks@),
        decreases n - i,
    {
        let x: T = values[i];
        let mut j: usize = i;
        let mut placed: bool = false;
        while j > 0 && !placed
            invariant
                j <= i,
                i < n,
                n == values@.len(),
                x == values@[i as int],
                forall|x: T, y: T| at_least.requires((x, y)),
                picks@.len() == i,
                forall|t: int| 0 <= t < picks@.len() ==> #[trigger] picks@[t] < i,
                forall|t: int|
                    j <= t < i ==> at_least.ensures(
                        (values@[#[trigger] picks@[t] as int], x),
                        false,
                    ),
                placed ==> j > 0 && at_least.ensures((values@[picks@[j - 1] as int], x), true),
            decreases 2 * j + (if placed { 0int } else { 1int }),
        {
            let y: T = values[picks[j - 1]];
            let settled: bool = at_least(y, x);
            if settled {
                placed = true;
            } else {
                j = j - 1;
            }
        }
        let ghost before = picks@;
        picks.insert(j, i);
        proof {
            let after = picks@;
            assert forall|t: int| 0 <= t < after.len() implies #[trigger] after[t] == (if t < j {
                before[t]
            } else if t == j {
                i
            } else {
                before[t - 1]
            }) by {}
            assert forall|t: int| 0 <= t < after.len() implies #[trigger] after[t] < i + 1 by {
                if t < j {
                    assert(before[t] < i);
                } else if t > j {
                    assert(before[t - 1] < i);
                }
            }
            assert forall|s: int, t: int|
                0 <= s < after.len() && 0 <= t < after.len() && s != t implies after[s]
                != after[t] by {
                let s0 = if s < j { s } else { s - 1 };
                let t0 = if t < j { t } else { t - 1 };
                if s != j && t != j {
                    assert(before[s0] != before[t0]);
                } else if s == j {
                    assert(before[t0] < i);
                } else {
                    assert(before[s0] < i);
                }
            }
            assert forall|t: int| 0 <= t < after.len() - 1 implies #[trigger] step_descends(
                *at_least,
                values@,
                after,
                t,
            ) by {
                if t + 1 < j {
                    assert(step_descends(*at_least, values@, before, t));
                } else if t + 1 == j {
                    assert(placed);
                    assert(at_least.ensures((values@[before[j - 1] as int], x), true));
                } else if t == j {
                    assert(at_least.ensures((values@[before[j as int] as int], x), false));
                } else {
                    assert(step_descends(*at_least, values@, before, t - 1));
                }
            }
        }
        i = i + 1;
    }
    picks
}

} // verus!
