//! Lists of strings: what they hold, and what taking an entry out does.

use vstd::prelude::*;

verus! {

/// What a list of strings holds, string by string.
pub open spec fn names(list: Seq<String>) -> Seq<Seq<char>> {
    list.map_values(|s: String| s@)
}

/// `list` without the entries that equal `x`, the others in the order they
/// had.
pub open spec fn without(list: Seq<Seq<char>>, x: Seq<char>) -> Seq<Seq<char>>
    decreases list.len(),
{
    if list.len() == 0 {
        Seq::empty()
    } else if list.last() == x {
        without(list.drop_last(), x)
    } else {
        without(list.drop_last(), x).push(list.last())
    }
}

/// Whether `list` holds `x`.
pub fn holds(list: &Vec<String>, x: &String) -> (r: bool)
    ensures
        r == names(list@).contains(x@),
{
    let mut i: usize = 0;
    while i < list.len()
        invariant
            0 <= i <= list@.len(),
            forall|j: int| 0 <= j < i ==> names(list@)[j] != x@,
        decreases list@.len() - i,
    {
        if list[i] == *x {
            assert(names(list@)[i as int] == x@);
            return true;
        }
        i += 1;
    }
    false
}

/// Whether `list` holds nothing twice.
pub fn no_repeats(list: &Vec<String>) -> (r: bool)
    ensures
        r == names(list@).no_duplicates(),
{
    let ghost all = names(list@);
    let mut i: usize = 0;
    while i < list.len()
        invariant
            0 <= i <= list@.len(),
            all == names(list@),
            forall|j: int, k: int| 0 <= k < j < i ==> all[k] != all[j],
        decreases list@.len() - i,
    {
        let mut k: usize = 0;
        while k < i
            invariant
                0 <= k <= i < list@.len(),
                all == names(list@),
                forall|m: int| 0 <= m < k ==> all[m] != all[i as int],
            decreases i - k,
        {
            if list[k] == list[i] {
                assert(all[k as int] == all[i as int]);
                return false;
            }
            k += 1;
        }
        i += 1;
    }
    assert forall|j: int, k: int| 0 <= j < all.len() && 0 <= k < all.len() && j != k implies all[j] != all[k] by {
        if k < j {
            assert(all[k] != all[j]);
        } else {
            assert(all[j] != all[k]);
        }
    }
    true
}

/// What `without` keeps: every entry but `x`, each as often as before. So a
/// list without duplicates stays one, gets shorter by one if it held `x`,
/// and stays as it is if it did not.
pub proof fn lemma_without(list: Seq<Seq<char>>, x: Seq<char>)
    ensures
        forall|y: Seq<char>| #[trigger] without(list, x).contains(y) <==> list.contains(y) && y != x,
        list.no_duplicates() ==> without(list, x).no_duplicates(),
        list.no_duplicates() && list.contains(x) ==> without(list, x).len() == list.len() - 1,
        !list.contains(x) ==> without(list, x) == list,
    decreases list.len(),
{
    if list.len() > 0 {
        let rest = list.drop_last();
        let last = list.last();
        lemma_without(rest, x);
        assert(list =~= rest.push(last));
        assert forall|y: Seq<char>| list.contains(y) <==> rest.contains(y) || y == last by {
            if list.contains(y) {
                let i = choose|i: int| 0 <= i < list.len() && list[i] == y;
                if i < rest.len() {
                    assert(rest[i] == y);
                }
            }
            if rest.contains(y) {
                let i = choose|i: int| 0 <= i < rest.len() && rest[i] == y;
                assert(list[i] == y);
            }
            if y == last {
                assert(list[list.len() - 1] == y);
            }
        }
        let kept = without(rest, x);
        assert forall|y: Seq<char>| #[trigger] without(list, x).contains(y) <==> list.contains(y) && y != x by {
            if last != x {
                assert(without(list, x) == kept.push(last));
                if kept.push(last).contains(y) {
                    let i = choose|i: int| 0 <= i < kept.push(last).len() && kept.push(last)[i] == y;
                    if i < kept.len() {
                        assert(kept[i] == y);
                        assert(kept.contains(y));
                    }
                }
                if kept.contains(y) {
                    let i = choose|i: int| 0 <= i < kept.len() && kept[i] == y;
                    assert(kept.push(last)[i] == y);
                }
                if y == last {
                    assert(kept.push(last)[kept.len() as int] == y);
                }
            }
        }
        if list.no_duplicates() {
            assert(rest.no_duplicates()) by {
                assert forall|i: int, j: int| 0 <= i < rest.len() && 0 <= j < rest.len() && i != j implies rest[i]
                    != rest[j] by {
                    assert(list[i] != list[j]);
                }
            }
            assert(!rest.contains(last)) by {
                if rest.contains(last) {
                    let i = choose|i: int| 0 <= i < rest.len() && rest[i] == last;
                    assert(list[i] == list[list.len() - 1]);
                }
            }
            if last != x {
                assert(!kept.contains(last));
                assert(kept.push(last).no_duplicates()) by {
                    assert forall|i: int, j: int|
                        0 <= i < kept.push(last).len() && 0 <= j < kept.push(last).len() && i != j implies kept.push(
                        last,
                    )[i] != kept.push(last)[j] by {
                        if i < kept.len() && j < kept.len() {
                            assert(kept[i] != kept[j]);
                        } else if i < kept.len() {
                            assert(kept.contains(kept[i]));
                        } else {
                            assert(kept.contains(kept[j]));
                        }
                    }
                }
            }
        }
        if !list.contains(x) {
            assert(!rest.contains(x));
            assert(last != x);
        }
    } else {
        assert(!list.contains(x));
    }
}

/// What a list holds once `x`, which it did not hold, is added at its end.
pub proof fn lemma_push_fresh(list: Seq<Seq<char>>, x: Seq<char>)
    ensures
        forall|y: Seq<char>| #[trigger] list.push(x).contains(y) <==> list.contains(y) || y == x,
        list.no_duplicates() && !list.contains(x) ==> list.push(x).no_duplicates(),
{
    let more = list.push(x);
    assert forall|y: Seq<char>| #[trigger] more.contains(y) <==> list.contains(y) || y == x by {
        if more.contains(y) {
            let i = choose|i: int| 0 <= i < more.len() && more[i] == y;
            if i < list.len() {
                assert(list[i] == y);
            }
        }
        if list.contains(y) {
            let i = choose|i: int| 0 <= i < list.len() && list[i] == y;
            assert(more[i] == y);
        }
        if y == x {
            assert(more[list.len() as int] == y);
        }
    }
    if list.no_duplicates() && !list.contains(x) {
        assert forall|i: int, j: int| 0 <= i < more.len() && 0 <= j < more.len() && i != j implies more[i]
            != more[j] by {
            if i < list.len() && j < list.len() {
                assert(list[i] != list[j]);
            } else if i < list.len() {
                assert(list.contains(list[i]));
            } else {
                assert(list.contains(list[j]));
            }
        }
    }
}

} // verus!
