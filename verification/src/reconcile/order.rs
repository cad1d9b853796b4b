//! The order of merged records: by time, and by place where the times are equal.
use vstd::prelude::*;
use vstd::string::*;

use super::record;
use crate::text;

verus! {

/// Order of times: none comes first, the others by their UTF-8 bytes.
pub open spec fn time_lt(a: Option<Seq<char>>, b: Option<Seq<char>>) -> bool {
    match (a, b) {
        (None, Some(_)) => true,
        (Some(x), Some(y)) => text::text_lt(x, y),
        (_, None) => false,
    }
}

/// Order of places: by time, and by place where the times are equal.
pub open spec fn item_lt(times: Seq<Option<Seq<char>>>, i: int, j: int) -> bool {
    time_lt(times[i], times[j]) || (times[i] == times[j] && i < j)
}

/// Of two places that differ, exactly one comes first.
pub proof fn item_lt_total(times: Seq<Option<Seq<char>>>, i: int, j: int)
    ensures
        !(item_lt(times, i, j) && item_lt(times, j, i)),
        !item_lt(times, i, i),
        i != j ==> item_lt(times, i, j) || item_lt(times, j, i),
{
    let (a, b) = (times[i], times[j]);
    if a is Some && b is Some {
        text::bytes_lt_total(text::utf8(a->0), text::utf8(b->0));
        if text::utf8(a->0) == text::utf8(b->0) {
            text::utf8_injective(a->0, b->0);
        }
    }
    if a is Some {
        text::bytes_lt_total(text::utf8(a->0), text::utf8(a->0));
    }
}

/// The order of places is transitive.
pub proof fn item_lt_transitive(times: Seq<Option<Seq<char>>>, i: int, j: int, k: int)
    requires
        item_lt(times, i, j),
        item_lt(times, j, k),
    ensures
        item_lt(times, i, k),
{
    let (a, b, c) = (times[i], times[j], times[k]);
    if time_lt(a, b) && time_lt(b, c) && a is Some {
        text::bytes_lt_transitive(text::utf8(a->0), text::utf8(b->0), text::utf8(c->0));
    }
}

/// The places stand in order.
pub open spec fn in_order(times: Seq<Option<Seq<char>>>, v: Seq<usize>) -> bool {
    forall|k: int, l: int|
        0 <= k < l < v.len() ==> item_lt(times, #[trigger] v[k] as int, #[trigger] v[l] as int)
}

/// The texts of optional strings.
pub open spec fn opt_texts(v: Seq<Option<String>>) -> Seq<Option<Seq<char>>> {
    Seq::new(v.len(), |i: int| record::opt_text(v[i]))
}

fn item_less(times: &Vec<Option<String>>, i: usize, j: usize) -> (less: bool)
    requires
        i < times@.len(),
        j < times@.len(),
    ensures
        less == item_lt(opt_texts(times@), i as int, j as int),
{
    match (&times[i], &times[j]) {
        (None, Some(_)) => true,
        (Some(_), None) => false,
        (None, None) => i < j,
        (Some(a), Some(b)) => {
            if text::str_less(a, b) {
                true
            } else {
                text::same_str(a, b) && i < j
            }
        },
    }
}

/// Merges two lists of places that stand in order and share none.
fn merge_sorted(times: &Vec<Option<String>>, a: Vec<usize>, b: Vec<usize>) -> (r: Vec<usize>)
    requires
        in_order(opt_texts(times@), a@),
        in_order(opt_texts(times@), b@),
        forall|k: int| 0 <= k < a@.len() ==> #[trigger] a@[k] < times@.len(),
        forall|k: int| 0 <= k < b@.len() ==> #[trigger] b@[k] < times@.len(),
        forall|k: int, l: int|
            0 <= k < a@.len() && 0 <= l < b@.len() ==> #[trigger] a@[k] != #[trigger] b@[l],
    ensures
        in_order(opt_texts(times@), r@),
        forall|x: usize| r@.contains(x) <==> a@.contains(x) || b@.contains(x),
{
    let ghost times_v = opt_texts(times@);
    let mut r: Vec<usize> = Vec::new();
    let mut i: usize = 0;
    let mut j: usize = 0;
    while i < a.len() || j < b.len()
        invariant
            i <= a@.len(),
            j <= b@.len(),
            times_v == opt_texts(times@),
            in_order(times_v, a@),
            in_order(times_v, b@),
            in_order(times_v, r@),
            forall|k: int| 0 <= k < a@.len() ==> #[trigger] a@[k] < times@.len(),
            forall|k: int| 0 <= k < b@.len() ==> #[trigger] b@[k] < times@.len(),
            forall|k: int, l: int|
                0 <= k < a@.len() && 0 <= l < b@.len() ==> #[trigger] a@[k] != #[trigger] b@[l],
            forall|k: int, l: int|
                0 <= k < r@.len() && i <= l < a@.len() ==> item_lt(
                    times_v,
                    #[trigger] r@[k] as int,
                    #[trigger] a@[l] as int,
                ),
            forall|k: int, l: int|
                0 <= k < r@.len() && j <= l < b@.len() ==> item_lt(
                    times_v,
                    #[trigger] r@[k] as int,
                    #[trigger] b@[l] as int,
                ),
            forall|k: int|
                0 <= k < r@.len() ==> a@.contains(#[trigger] r@[k]) || b@.contains(r@[k]),
            forall|k: int| 0 <= k < i ==> r@.contains(#[trigger] a@[k]),
            forall|k: int| 0 <= k < j ==> r@.contains(#[trigger] b@[k]),
        decreases a@.len() + b@.len() - i - j,
    {
        let ghost before = r@;
        let take_a: bool = if i == a.len() {
            false
        } else if j == b.len() {
            true
        } else {
            item_less(times, a[i], b[j])
        };
        proof {
            if i < a@.len() && j < b@.len() {
                item_lt_total(times_v, a@[i as int] as int, b@[j as int] as int);
                assert(a@[i as int] != b@[j as int]);
            }
            assert forall|l: int| take_a && j <= l < b@.len() implies item_lt(
                times_v,
                a@[i as int] as int,
                #[trigger] b@[l] as int,
            ) by {
                if l > j {
                    item_lt_transitive(
                        times_v,
                        a@[i as int] as int,
                        b@[j as int] as int,
                        b@[l] as int,
                    );
                }
            }
            assert forall|l: int| !take_a && i <= l < a@.len() implies item_lt(
                times_v,
                b@[j as int] as int,
                #[trigger] a@[l] as int,
            ) by {
                if l > i {
                    item_lt_transitive(
                        times_v,
                        b@[j as int] as int,
                        a@[i as int] as int,
                        a@[l] as int,
                    );
                }
            }
        }
        if take_a {
            r.push(a[i]);
            i = i + 1;
        } else {
            r.push(b[j]);
            j = j + 1;
        }
        proof {
            assert(r@[before.len() as int] == r@.last());
            assert forall|x: usize| before.contains(x) implies r@.contains(x) by {
                let k = choose|k: int| 0 <= k < before.len() && before[k] == x;
                assert(r@[k] == x);
            }
            assert forall|k: int| 0 <= k < before.len() implies #[trigger] r@[k] == before[k] by {}
        }
    }
    assert forall|x: usize| r@.contains(x) <==> a@.contains(x) || b@.contains(x) by {
        if r@.contains(x) {
            let k = choose|k: int| 0 <= k < r@.len() && r@[k] == x;
            assert(a@.contains(r@[k]) || b@.contains(r@[k]));
        }
    }
    r
}

/// Puts places into order.
pub fn sort_items(times: &Vec<Option<String>>, v: Vec<usize>) -> (r: Vec<usize>)
    requires
        v@.no_duplicates(),
        forall|k: int| 0 <= k < v@.len() ==> #[trigger] v@[k] < times@.len(),
    ensures
        in_order(opt_texts(times@), r@),
        forall|x: usize| r@.contains(x) <==> v@.contains(x),
    decreases v@.len(),
{
    if v.len() < 2 {
        return v;
    }
    let half: usize = v.len() / 2;
    let mut left: Vec<usize> = v;
    let right: Vec<usize> = left.split_off(half);
    let ghost (l, rt) = (left@, right@);
    assert(v@ =~= l + rt);
    proof {
        assert forall|x: usize| v@.contains(x) <==> l.contains(x) || rt.contains(x) by {
            if v@.contains(x) {
                let k = choose|k: int| 0 <= k < v@.len() && v@[k] == x;
                if k < half {
                    assert(l[k] == x);
                } else {
                    assert(rt[k - half] == x);
                }
            }
            if l.contains(x) {
                let k = choose|k: int| 0 <= k < l.len() && l[k] == x;
                assert(v@[k] == x);
            }
            if rt.contains(x) {
                let k = choose|k: int| 0 <= k < rt.len() && rt[k] == x;
                assert(v@[k + half] == x);
            }
        }
        assert forall|k: int| 0 <= k < rt.len() implies #[trigger] rt[k] < times@.len() by {
            assert(rt[k] == v@[k + half]);
        }
        assert forall|k: int, m: int| 0 <= k < l.len() && 0 <= m < rt.len() implies l[k]
            != rt[m] by {
            assert(v@[k] != v@[m + half]);
        }
    }
    let left: Vec<usize> = sort_items(times, left);
    let right: Vec<usize> = sort_items(times, right);
    proof {
        assert forall|k: int| 0 <= k < left@.len() implies #[trigger] left@[k] < times@.len() by {
            assert(left@.contains(left@[k]));
            assert(l.contains(left@[k]));
        }
        assert forall|k: int| 0 <= k < right@.len() implies #[trigger] right@[k]
            < times@.len() by {
            assert(right@.contains(right@[k]));
            assert(rt.contains(right@[k]));
        }
        assert forall|k: int, m: int|
            0 <= k < left@.len() && 0 <= m < right@.len() implies #[trigger] left@[k]
            != #[trigger] right@[m] by {
            assert(left@.contains(left@[k]) && right@.contains(right@[m]));
            assert(l.contains(left@[k]) && rt.contains(right@[m]));
        }
    }
    merge_sorted(times, left, right)
}

/// Records without a time come first, then those with one in the order of their times; records of the
/// same time, or of none, stay in the order that they had.
pub proof fn earlier_time_comes_first(times: Seq<Option<Seq<char>>>, i: int, j: int)
    ensures
        times[i] is None && times[j] is Some ==> item_lt(times, i, j),
        times[i] is Some && times[j] is None ==> !item_lt(times, i, j),
        times[i] == times[j] ==> (item_lt(times, i, j) <==> i < j),
        times[i] is Some && times[j] is Some && times[i] != times[j] ==> (item_lt(times, i, j)
            <==> text::text_lt(times[i]->0, times[j]->0)),
{
    if times[i] == times[j] && times[i] is Some {
        text::bytes_lt_total(text::utf8(times[i]->0), text::utf8(times[i]->0));
    }
}

} // verus!
