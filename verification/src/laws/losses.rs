//! What becomes of events that cannot be kept.

use vstd::prelude::*;

use crate::laws::layout::{is_joined, law_join_lays_out_every_part, lemma_joined_push};
use crate::sink::{combined, failure_noted, warned};

verus! {

/// The warnings after several writes: those before them, and one for each write that
/// failed, in order.
pub open spec fn warned_of_all(
    before: Seq<Seq<char>>,
    results: Seq<Result<(), String>>,
) -> Seq<Seq<char>>
    decreases results.len(),
{
    if results.len() == 0 {
        before
    } else {
        warned(warned_of_all(before, results.drop_last()), results.last())
    }
}

/// Whether `places` are all the places of `results` where a write failed, in order.
pub open spec fn are_failures(results: Seq<Result<(), String>>, places: Seq<int>) -> bool {
    &&& forall|k: int|
        0 <= k < places.len() ==> 0 <= #[trigger] places[k] < results.len()
            && results[places[k]] is Err
    &&& forall|k: int, l: int| 0 <= k < l < places.len() ==> places[k] < places[l]
    &&& forall|i: int|
        0 <= i < results.len() && #[trigger] results[i] is Err ==> places.contains(i)
}

/// Whether `after` is `before` with one warning more for each of the failures at
/// `places`, in order, that holds what was said of it.
pub open spec fn are_told_of(
    before: Seq<Seq<char>>,
    after: Seq<Seq<char>>,
    results: Seq<Result<(), String>>,
    places: Seq<int>,
) -> bool {
    &&& after.len() == before.len() + places.len()
    &&& forall|i: int| 0 <= i < before.len() ==> #[trigger] after[i] == before[i]
    &&& forall|k: int|
        0 <= k < places.len() ==> is_joined(
            after[before.len() + k],
            seq![
                "warning: failed to record exchange event: "@,
                results[#[trigger] places[k]]->Err_0@,
            ],
            seq![],
        )
}

proof fn lemma_told_of(message: Seq<char>, warning: Seq<char>)
    requires
        warning == "warning: failed to record exchange event: "@ + message,
    ensures
        is_joined(
            warning,
            seq!["warning: failed to record exchange event: "@, message],
            seq![],
        ),
{
    let lead = "warning: failed to record exchange event: "@;
    let none: Seq<char> = seq![];
    let parts: Seq<Seq<char>> = seq![];
    law_join_lays_out_every_part(parts, none);
    lemma_joined_push(seq![], parts, none, lead);
    lemma_joined_push(lead, parts.push(lead), none, message);
    assert(parts.push(lead).push(message) =~= seq![lead, message]);
    assert(warning =~= lead + none + message);
}

/// Each event that could not be kept is warned of once, in order, with what was said of
/// it; an event that was kept is not warned of, and no warning is lost.
pub proof fn law_every_lost_event_is_warned_of(
    before: Seq<Seq<char>>,
    results: Seq<Result<(), String>>,
)
    ensures
        exists|places: Seq<int>| #[trigger]
            are_failures(results, places) && are_told_of(
                before,
                warned_of_all(before, results),
                results,
                places,
            ),
    decreases results.len(),
{
    let after = warned_of_all(before, results);
    if results.len() == 0 {
        let none: Seq<int> = seq![];
        assert(are_failures(results, none));
        assert(are_told_of(before, after, results, none));
    } else {
        let front = results.drop_last();
        law_every_lost_event_is_warned_of(before, front);
        let middle = warned_of_all(before, front);
        let places = choose|places: Seq<int>| #[trigger]
            are_failures(front, places) && are_told_of(before, middle, front, places);
        let n = results.len() - 1;
        let all = if results[n] is Err {
            places.push(n)
        } else {
            places
        };
        assert forall|i: int| 0 <= i < results.len() && #[trigger] results[i] is Err implies
            all.contains(i) by {
            if i < n {
                assert(front[i] == results[i]);
                assert(places.contains(i));
                let k = places.index_of(i);
                assert(all[k] == i);
            } else {
                assert(all[places.len() as int] == n);
            }
        }
        assert forall|k: int| 0 <= k < all.len() implies 0 <= #[trigger] all[k] < results.len()
            && results[all[k]] is Err by {
            if k < places.len() {
                assert(all[k] == places[k]);
                assert(front[places[k]] == results[places[k]]);
            }
        }
        assert(are_failures(results, all));
        assert forall|k: int| 0 <= k < all.len() implies is_joined(
            after[before.len() + k],
            seq![
                "warning: failed to record exchange event: "@,
                results[#[trigger] all[k]]->Err_0@,
            ],
            seq![],
        ) by {
            if k < places.len() {
                assert(all[k] == places[k]);
                assert(front[places[k]] == results[places[k]]);
                assert(after[before.len() + k] == middle[before.len() + k]);
            } else {
                lemma_told_of(results[n]->Err_0@, after[before.len() + k]);
            }
        }
        assert(are_told_of(before, after, results, all));
    }
}

/// Writing to two places goes well where both writes do, and else fails as the first of
/// them that failed.
pub proof fn law_both_writes_have_to_go_well(
    first: Result<(), String>,
    second: Result<(), String>,
)
    ensures
        combined(first, second) is Ok <==> first is Ok && second is Ok,
        first is Err ==> combined(first, second) is Err && combined(first, second)->Err_0
            == first->Err_0,
        first is Ok && second is Err ==> combined(first, second) is Err && combined(
            first,
            second,
        )->Err_0 == second->Err_0,
{
}

/// The failure noted after several writes.
pub open spec fn noted_of_all(results: Seq<Result<(), String>>) -> Option<Seq<char>>
    decreases results.len(),
{
    if results.len() == 0 {
        None
    } else {
        failure_noted(noted_of_all(results.drop_last()), results.last())
    }
}

/// What is noted of several writes is what was said of the first that failed, and
/// nothing where none did.
pub proof fn law_the_first_failure_is_noted(results: Seq<Result<(), String>>)
    ensures
        noted_of_all(results) is None ==> forall|i: int|
            0 <= i < results.len() ==> #[trigger] results[i] is Ok,
        noted_of_all(results) matches Some(message) ==> exists|i: int|
            {
                &&& 0 <= i < results.len()
                &&& #[trigger] results[i] is Err
                &&& results[i]->Err_0@ == message
                &&& forall|k: int| 0 <= k < i ==> #[trigger] results[k] is Ok
            },
    decreases results.len(),
{
    if results.len() > 0 {
        let front = results.drop_last();
        let n = results.len() - 1;
        law_the_first_failure_is_noted(front);
        assert forall|k: int| 0 <= k < n implies #[trigger] results[k] == front[k] by {}
        if let Some(message) = noted_of_all(front) {
            let i = choose|i: int|
                {
                    &&& 0 <= i < front.len()
                    &&& #[trigger] front[i] is Err
                    &&& front[i]->Err_0@ == message
                    &&& forall|k: int| 0 <= k < i ==> #[trigger] front[k] is Ok
                };
            assert(results[i] == front[i]);
            assert(results[i] is Err);
            assert forall|k: int| 0 <= k < i implies #[trigger] results[k] is Ok by {
                assert(front[k] is Ok);
            }
        } else {
            assert forall|k: int| 0 <= k < n implies #[trigger] results[k] is Ok by {
                assert(front[k] is Ok);
            }
            assert(results[n] is Err || results[n] is Ok);
        }
    }
}

} // verus!
