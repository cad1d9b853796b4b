//! Which run was the last one.
use vstd::prelude::*;
use vstd::string::*;

use crate::text;

verus! {

/// Whether the time of a run is later: as a number where both are numbers, else as a text.
pub open spec fn later(a: Seq<char>, b: Seq<char>) -> bool {
    match (text::number(a), text::number(b)) {
        (Some(x), Some(y)) => x > y,
        _ => text::text_lt(b, a),
    }
}

/// Whether the time of a run is later.
pub fn ts_greater(a: &str, b: &str) -> (g: bool)
    ensures
        g == later(a@, b@),
{
    match (text::parse_number(a), text::parse_number(b)) {
        (Some(x), Some(y)) => x > y,
        _ => text::str_less(b, a),
    }
}

/// The latest of the first `n` runs; of two that are alike, the one that comes later in the list
/// only where it is later.
pub open spec fn latest_of(runs: Seq<Seq<char>>, n: int) -> Option<Seq<char>>
    decreases n,
{
    if n <= 0 {
        None
    } else {
        match latest_of(runs, n - 1) {
            Some(best) => if later(runs[n - 1], best) {
                Some(runs[n - 1])
            } else {
                Some(best)
            },
            None => Some(runs[n - 1]),
        }
    }
}

/// The latest run of those that there are.
pub fn latest_generation(runs: &Vec<String>) -> (best: Option<String>)
    ensures
        match best {
            Some(ts) => latest_of(text::texts(runs@), runs@.len() as int) == Some(ts@),
            None => latest_of(text::texts(runs@), runs@.len() as int) is None,
        },
{
    let ghost rs = text::texts(runs@);
    let mut best: Option<String> = None;
    let mut i: usize = 0;
    while i < runs.len()
        invariant
            i <= runs@.len(),
            rs == text::texts(runs@),
            match best {
                Some(ts) => latest_of(rs, i as int) == Some(ts@),
                None => latest_of(rs, i as int) is None,
            },
        decreases runs@.len() - i,
    {
        assert(rs[i as int] == runs@[i as int]@);
        let ts: &String = &runs[i];
        best = match best {
            Some(cur) => if ts_greater(ts.as_str(), cur.as_str()) {
                Some(ts.clone())
            } else {
                Some(cur)
            },
            None => Some(ts.clone()),
        };
        i = i + 1;
    }
    best
}

/// Of runs whose times are numbers, none is later than the latest, which is one of them.
pub proof fn none_is_later(runs: Seq<Seq<char>>, n: int)
    requires
        0 < n <= runs.len(),
        forall|i: int| 0 <= i < n ==> text::number(#[trigger] runs[i]) is Some,
    ensures
        ({
            let best = latest_of(runs, n);
            &&& best is Some
            &&& exists|i: int| 0 <= i < n && #[trigger] runs[i] == best->0
            &&& forall|i: int| 0 <= i < n ==> !later(#[trigger] runs[i], best->0)
        }),
    decreases n,
{
    if n > 1 {
        none_is_later(runs, n - 1);
        let before = latest_of(runs, n - 1)->0;
        let k = choose|i: int| 0 <= i < n - 1 && #[trigger] runs[i] == before;
        assert(text::number(runs[k]) is Some);
        assert(text::number(runs[n - 1]) is Some);
        let best = latest_of(runs, n)->0;
        assert forall|i: int| 0 <= i < n implies !later(#[trigger] runs[i], best) by {
            assert(text::number(runs[i]) is Some);
            if i < n - 1 {
                assert(!later(runs[i], before));
            }
        }
        assert(runs[n - 1] == best || runs[k] == best);
    } else {
        assert(latest_of(runs, 0) is None);
        assert(runs[0] == latest_of(runs, n)->0);
    }
}

/// Of two runs whose times are numbers the later one is that with the greater number, however the
/// numbers are written.
pub proof fn greater_number_is_later(a: Seq<char>, b: Seq<char>)
    requires
        text::number(a) is Some,
        text::number(b) is Some,
    ensures
        later(a, b) <==> text::number(a)->0 > text::number(b)->0,
{
}

/// Where one of two times is no number, they are ordered as texts.
pub proof fn other_times_are_ordered_as_texts(a: Seq<char>, b: Seq<char>)
    requires
        text::number(a) is None || text::number(b) is None,
    ensures
        later(a, b) <==> text::text_lt(b, a),
{
}

/// The latest of runs whose times are numbers has the greatest number of all, and is one of them.
pub proof fn latest_has_the_greatest_number(runs: Seq<Seq<char>>)
    requires
        runs.len() > 0,
        forall|i: int| 0 <= i < runs.len() ==> text::number(#[trigger] runs[i]) is Some,
    ensures
        ({
            let best = latest_of(runs, runs.len() as int);
            &&& best is Some
            &&& runs.contains(best->0)
            &&& text::number(best->0) is Some
            &&& forall|i: int|
                0 <= i < runs.len() ==> text::number(#[trigger] runs[i])->0 <= text::number(
                    best->0,
                )->0
        }),
{
    let n = runs.len() as int;
    none_is_later(runs, n);
    let best = latest_of(runs, n)->0;
    let k = choose|i: int| 0 <= i < n && #[trigger] runs[i] == best;
    assert(text::number(runs[k]) is Some);
    assert forall|i: int| 0 <= i < n implies text::number(#[trigger] runs[i])->0 <= text::number(
        best,
    )->0 by {
        assert(!later(runs[i], best));
        greater_number_is_later(runs[i], best);
    }
}

/// The latest of some runs is one of them, and there is none only where there are no runs.
pub proof fn latest_is_one_of_them(runs: Seq<Seq<char>>, n: int)
    requires
        0 <= n <= runs.len(),
    ensures
        latest_of(runs, n) is None <==> n == 0,
        latest_of(runs, n) matches Some(best) ==> exists|i: int|
            0 <= i < n && #[trigger] runs[i] == best,
    decreases n,
{
    if n > 0 {
        latest_is_one_of_them(runs, n - 1);
        match latest_of(runs, n - 1) {
            Some(best) => {
                if later(runs[n - 1], best) {
                    assert(runs[n - 1] == latest_of(runs, n)->0);
                }
            },
            None => {
                assert(runs[n - 1] == latest_of(runs, n)->0);
            },
        }
    }
}

} // verus!
