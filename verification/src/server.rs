//! The sessions that a tunnel server keeps: whenever a new one comes, those that carry no stream
//! any more make room.

use vstd::prelude::*;

verus! {

/// Whether a session that carries `count` streams may go.
pub fn is_idle(count: usize) -> (idle: bool)
    ensures
        idle == (count == 0),
{
    count == 0
}

/// The places at which no stream is left, in ascending order.
pub open spec fn idle_places(counts: Seq<usize>) -> Seq<usize>
    decreases counts.len(),
{
    if counts.len() == 0 {
        Seq::empty()
    } else {
        let front = idle_places(counts.drop_last());
        if counts.last() == 0 {
            front.push((counts.len() - 1) as usize)
        } else {
            front
        }
    }
}

/// The items at whose place a stream is left, in the order in which they stand.
pub open spec fn busy<T>(items: Seq<T>, counts: Seq<usize>) -> Seq<T>
    decreases counts.len(),
{
    if counts.len() == 0 {
        Seq::empty()
    } else {
        let front = busy(items, counts.drop_last());
        if counts.last() == 0 {
            front
        } else {
            front.push(items[counts.len() - 1])
        }
    }
}

/// `items` without the one at `place`, whose place the last one takes.
pub open spec fn swap_out<T>(items: Seq<T>, place: int) -> Seq<T> {
    items.update(place, items.last()).drop_last()
}

/// `items` without those at `places`, taken out one by one from the last place to the first.
pub open spec fn swap_out_all<T>(items: Seq<T>, places: Seq<usize>) -> Seq<T>
    decreases places.len(),
{
    if places.len() == 0 {
        items
    } else {
        swap_out_all(swap_out(items, places.last() as int), places.drop_last())
    }
}

/// Whether `places` are places among `len` items, in ascending order and none twice.
pub open spec fn ascending_places(places: Seq<usize>, len: nat) -> bool {
    &&& forall|i: int| 0 <= i < places.len() ==> #[trigger] places[i] < len
    &&& forall|i: int, j: int| 0 <= i < j < places.len() ==> places[i] < places[j]
}

/// The idle places are exactly those with no stream, in ascending order and none twice.
pub proof fn law_idle_places_are_those_without_streams(counts: Seq<usize>)
    requires
        counts.len() <= usize::MAX,
    ensures
        ascending_places(idle_places(counts), counts.len()),
        forall|place: usize|
            idle_places(counts).contains(place) <==> place < counts.len() && counts[place as int]
                == 0,
        idle_places(counts).len() <= counts.len(),
    decreases counts.len(),
{
    if counts.len() > 0 {
        let front = counts.drop_last();
        let last = (counts.len() - 1) as usize;
        law_idle_places_are_those_without_streams(front);
        let before = idle_places(front);
        let all = idle_places(counts);
        assert forall|place: usize|
            all.contains(place) <==> place < counts.len() && counts[place as int] == 0 by {
            if counts.last() == 0 {
                assert(all[before.len() as int] == last);
                if before.contains(place) {
                    let i = choose|i: int| 0 <= i < before.len() && before[i] == place;
                    assert(all[i] == place);
                }
                if all.contains(place) && place != last {
                    let i = choose|i: int| 0 <= i < all.len() && all[i] == place;
                    assert(before[i] == place);
                }
            }
            if place < last {
                assert(front[place as int] == counts[place as int]);
            }
        }
    }
}

/// Which of the sessions carry no stream, given how many each of them carries.
pub fn idle_sessions(counts: &Vec<usize>) -> (idle: Vec<usize>)
    ensures
        idle@ == idle_places(counts@),
{
    let mut idle: Vec<usize> = Vec::with_capacity(counts.len());
    let mut i: usize = 0;
    assert(counts@.take(0) =~= Seq::<usize>::empty());
    while i < counts.len()
        invariant
            i <= counts.len(),
            idle@ == idle_places(counts@.take(i as int)),
        decreases counts.len() - i,
    {
        assert(counts@.take(i + 1).drop_last() =~= counts@.take(i as int));
        if is_idle(counts[i]) {
            idle.push(i);
        }
        i = i + 1;
    }
    assert(counts@.take(i as int) =~= counts@);
    idle
}

/// Takes the sessions at `places` out, from the last place to the first; the last session takes
/// the place of each one that goes.
pub fn remove_sessions<T>(sessions: &mut Vec<T>, places: &Vec<usize>)
    requires
        ascending_places(places@, old(sessions)@.len()),
    ensures
        final(sessions)@ == swap_out_all(old(sessions)@, places@),
        final(sessions)@.len() == old(sessions)@.len() - places@.len(),
{
    let mut left: usize = places.len();
    assert(places@.take(left as int) =~= places@);
    while left > 0
        invariant
            left <= places.len(),
            ascending_places(places@.take(left as int), sessions@.len()),
            swap_out_all(sessions@, places@.take(left as int)) == swap_out_all(
                old(sessions)@,
                places@,
            ),
            sessions@.len() == old(sessions)@.len() - (places.len() - left),
        decreases left,
    {
        let ghost before = places@.take(left as int);
        let ghost rest = places@.take(left - 1);
        left = left - 1;
        proof {
            assert(before.drop_last() =~= rest);
            assert(before.last() == places@[left as int]);
            assert forall|i: int| 0 <= i < rest.len() implies #[trigger] rest[i] < sessions@.len()
                - 1 by {
                assert(before[i] < before[left as int]);
            }
            assert forall|i: int, j: int| 0 <= i < j < rest.len() implies rest[i] < rest[j] by {
                assert(before[i] < before[j]);
            }
        }
        sessions.swap_remove(places[left]);
    }
    assert(places@.take(0) =~= Seq::<usize>::empty());
}

/// Takes in a new session: those that carry no stream leave, and the new one comes last.
pub fn take_in<T>(sessions: &mut Vec<T>, counts: &Vec<usize>, fresh: T)
    requires
        counts@.len() == old(sessions)@.len(),
    ensures
        final(sessions)@ == swap_out_all(old(sessions)@, idle_places(counts@)).push(fresh),
{
    let idle = idle_sessions(counts);
    proof {
        assert(counts@.len() == counts.len());
        law_idle_places_are_those_without_streams(counts@);
    }
    remove_sessions(sessions, &idle);
    sessions.push(fresh);
}

/// The items at `places`, in the order of the places.
pub open spec fn picked<T>(items: Seq<T>, places: Seq<usize>) -> Seq<T> {
    places.map_values(|place: usize| items[place as int])
}

/// Taking one item out takes out that one and no other.
proof fn lemma_swap_out<T>(items: Seq<T>, place: int)
    requires
        0 <= place < items.len(),
    ensures
        swap_out(items, place).to_multiset() == items.to_multiset().remove(items[place]),
        swap_out(items, place).len() == items.len() - 1,
        forall|i: int| 0 <= i < place ==> #[trigger] swap_out(items, place)[i] == items[i],
{
    broadcast use {
        vstd::seq_lib::group_to_multiset_ensures,
        vstd::seq_lib::to_multiset_update,
        vstd::multiset::group_multiset_axioms,
    };

    let moved = items.update(place, items.last());
    let last = items.len() - 1;
    assert(moved.drop_last() =~= moved.remove(last));
    assert(moved[last] == items.last());
    assert(items.contains(items[place]) && items.contains(items.last())) by {
        assert(items[last] == items.last());
    }
    assert(swap_out(items, place).to_multiset() =~= items.to_multiset().remove(items[place]));
}

/// Taking out the items at ascending places takes out those and no others.
proof fn lemma_swap_out_all<T>(items: Seq<T>, places: Seq<usize>)
    requires
        ascending_places(places, items.len()),
    ensures
        swap_out_all(items, places).to_multiset().add(picked(items, places).to_multiset())
            == items.to_multiset(),
        swap_out_all(items, places).len() == items.len() - places.len(),
    decreases places.len(),
{
    broadcast use {
        vstd::seq_lib::group_to_multiset_ensures,
        vstd::multiset::group_multiset_axioms,
    };

    if places.len() == 0 {
        assert(picked(items, places) =~= Seq::<T>::empty());
        assert(swap_out_all(items, places).to_multiset().add(picked(items, places).to_multiset())
            =~= items.to_multiset());
    } else {
        let place = places.last() as int;
        let rest = places.drop_last();
        let left = swap_out(items, place);
        lemma_swap_out(items, place);
        assert(ascending_places(rest, left.len())) by {
            assert forall|i: int| 0 <= i < rest.len() implies #[trigger] rest[i] < left.len() by {
                assert(places[i] < places[places.len() - 1]);
            }
            assert forall|i: int, j: int| 0 <= i < j < rest.len() implies rest[i] < rest[j] by {
                assert(places[i] < places[j]);
            }
        }
        lemma_swap_out_all(left, rest);
        assert(picked(left, rest) =~= picked(items, rest)) by {
            assert forall|i: int| 0 <= i < rest.len() implies left[rest[i] as int]
                == items[rest[i] as int] by {
                assert(places[i] < places[places.len() - 1]);
            }
        }
        assert(picked(items, places) =~= picked(items, rest).push(items[place]));
        assert(items.contains(items[place]));
        let kept = swap_out_all(items, places).to_multiset();
        let before = picked(items, rest).to_multiset();
        assert(kept.add(before) == items.to_multiset().remove(items[place]));
        assert forall|item: T| kept.add(before.insert(items[place])).count(item)
            == items.to_multiset().count(item) by {
            assert(kept.add(before).count(item) == items.to_multiset().remove(items[place]).count(
                item,
            ));
        }
        assert(kept.add(picked(items, places).to_multiset()) =~= items.to_multiset());
    }
}

/// Every item is either busy or at an idle place.
proof fn lemma_busy_or_idle<T>(items: Seq<T>, counts: Seq<usize>)
    requires
        counts.len() <= items.len(),
        counts.len() <= usize::MAX,
    ensures
        busy(items, counts).to_multiset().add(picked(items, idle_places(counts)).to_multiset())
            == items.take(counts.len() as int).to_multiset(),
    decreases counts.len(),
{
    broadcast use {
        vstd::seq_lib::group_to_multiset_ensures,
        vstd::multiset::group_multiset_axioms,
    };

    let head = items.take(counts.len() as int);
    if counts.len() == 0 {
        assert(picked(items, idle_places(counts)) =~= Seq::<T>::empty());
        assert(head =~= Seq::<T>::empty());
        assert(busy(items, counts).to_multiset().add(
            picked(items, idle_places(counts)).to_multiset(),
        ) =~= head.to_multiset());
    } else {
        let front = counts.drop_last();
        let item = items[counts.len() - 1];
        lemma_busy_or_idle(items, front);
        assert(head =~= items.take(front.len() as int).push(item));
        if counts.last() == 0 {
            assert(picked(items, idle_places(counts)) =~= picked(items, idle_places(front)).push(
                item,
            ));
        }
        assert(busy(items, counts).to_multiset().add(
            picked(items, idle_places(counts)).to_multiset(),
        ) =~= head.to_multiset());
    }
}

/// When a new session is taken in, the sessions that carry a stream all stay, those that carry
/// none all go, and the new one is the last.
pub proof fn law_busy_sessions_stay<T>(sessions: Seq<T>, counts: Seq<usize>, fresh: T)
    requires
        counts.len() == sessions.len(),
        counts.len() <= usize::MAX,
    ensures
        ({
            let after = swap_out_all(sessions, idle_places(counts)).push(fresh);
            &&& after.last() == fresh
            &&& after.drop_last().to_multiset() == busy(sessions, counts).to_multiset()
            &&& after.len() == busy(sessions, counts).len() + 1
        }),
{
    broadcast use {
        vstd::seq_lib::group_to_multiset_ensures,
        vstd::multiset::group_multiset_axioms,
    };

    let idle = idle_places(counts);
    let kept = swap_out_all(sessions, idle);
    law_idle_places_are_those_without_streams(counts);
    lemma_swap_out_all(sessions, idle);
    lemma_busy_or_idle(sessions, counts);
    assert(sessions.take(counts.len() as int) =~= sessions);
    assert(kept.push(fresh).drop_last() =~= kept);
    let gone = picked(sessions, idle).to_multiset();
    assert forall|item: T| kept.to_multiset().count(item) == busy(
        sessions,
        counts,
    ).to_multiset().count(item) by {
        assert(kept.to_multiset().add(gone).count(item) == busy(
            sessions,
            counts,
        ).to_multiset().add(gone).count(item));
    }
    assert(kept.to_multiset() =~= busy(sessions, counts).to_multiset());
    assert(kept.len() == kept.to_multiset().len());
    assert(busy(sessions, counts).len() == busy(sessions, counts).to_multiset().len());
}

/// What is left of the sessions when a new one is taken in, together with those that stood at a
/// place without streams, is what there was: none is lost, none comes twice, and which of them go
/// is decided by how many streams they carry and by nothing else.
pub proof fn law_only_sessions_without_streams_go<T>(
    sessions: Seq<T>,
    counts: Seq<usize>,
    fresh: T,
)
    requires
        counts.len() == sessions.len(),
        counts.len() <= usize::MAX,
    ensures
        ({
            let after = swap_out_all(sessions, idle_places(counts)).push(fresh);
            let gone = idle_places(counts).map_values(|place: usize| sessions[place as int]);
            &&& after.drop_last().to_multiset().add(gone.to_multiset()) == sessions.to_multiset()
            &&& after.len() + idle_places(counts).len() == sessions.len() + 1
        }),
        forall|place: usize|
            place < counts.len() ==> (counts[place as int] == 0 <==> #[trigger] idle_places(
                counts,
            ).contains(place)),
        forall|i: int|
            0 <= i < idle_places(counts).len() ==> (#[trigger] idle_places(counts)[i])
                < counts.len(),
        forall|i: int, j: int|
            0 <= i < j < idle_places(counts).len() ==> (#[trigger] idle_places(counts)[i]) < (
            #[trigger] idle_places(counts)[j]),
{
    let idle = idle_places(counts);
    let kept = swap_out_all(sessions, idle);
    law_idle_places_are_those_without_streams(counts);
    lemma_swap_out_all(sessions, idle);
    assert(kept.push(fresh).drop_last() =~= kept);
    assert(picked(sessions, idle) == idle.map_values(|place: usize| sessions[place as int]));
}

/// Taking out nothing leaves all as it is. Taking out a place behind all the others comes first,
/// and moves the last session there; all in front of it keep their places, so the other places are
/// still theirs.
pub proof fn law_the_last_place_goes_first<T>(sessions: Seq<T>, places: Seq<usize>, place: usize)
    requires
        place < sessions.len(),
    ensures
        swap_out_all(sessions, Seq::empty()) == sessions,
        swap_out_all(sessions, places.push(place)) == swap_out_all(
            sessions.update(place as int, sessions.last()).drop_last(),
            places,
        ),
{
    assert(places.push(place).drop_last() =~= places);
}

/// The sessions in front of the first place that is taken out keep their places.
pub proof fn law_sessions_in_front_keep_their_places<T>(
    sessions: Seq<T>,
    places: Seq<usize>,
    first: int,
)
    requires
        ascending_places(places, sessions.len()),
        0 <= first <= sessions.len(),
        forall|i: int| 0 <= i < places.len() ==> first <= #[trigger] places[i],
    ensures
        first <= swap_out_all(sessions, places).len(),
        forall|i: int| 0 <= i < first ==> #[trigger] swap_out_all(sessions, places)[i] == sessions[i],
    decreases places.len(),
{
    if places.len() > 0 {
        let place = places.last() as int;
        let rest = places.drop_last();
        let left = swap_out(sessions, place);
        assert(places[places.len() - 1] == place);
        assert(ascending_places(rest, left.len())) by {
            assert forall|i: int| 0 <= i < rest.len() implies #[trigger] rest[i] < left.len() by {
                assert(places[i] < places[places.len() - 1]);
            }
            assert forall|i: int, j: int| 0 <= i < j < rest.len() implies rest[i] < rest[j] by {
                assert(places[i] < places[j]);
            }
        }
        assert forall|i: int| 0 <= i < rest.len() implies first <= #[trigger] rest[i] by {
            assert(rest[i] == places[i]);
        }
        law_sessions_in_front_keep_their_places(left, rest, first);
        assert forall|i: int| 0 <= i < first implies #[trigger] swap_out_all(sessions, places)[i]
            == sessions[i] by {
            assert(swap_out_all(left, rest)[i] == left[i]);
            assert(left[i] == sessions[i]);
        }
    }
}

/// Places are fit to be taken out exactly where each is a place of a session and each is smaller
/// than the one that follows it.
pub proof fn law_which_places_can_be_taken_out(places: Seq<usize>, len: nat)
    ensures
        ascending_places(places, len) <==> {
            &&& forall|i: int, j: int|
                0 <= i && j == i + 1 && j < places.len() ==> #[trigger] places[i]
                    < #[trigger] places[j]
            &&& places.len() > 0 ==> places.last() < len
        },
{
    if places.len() > 0 {
        assert(places.last() == places[places.len() - 1]);
    }
    if (forall|i: int, j: int|
        0 <= i && j == i + 1 && j < places.len() ==> #[trigger] places[i] < #[trigger] places[j])
        && (places.len() > 0 ==> places.last() < len) {
        assert forall|i: int, j: int| 0 <= i < j < places.len() implies places[i] < places[j] by {
            lemma_ascends(places, i, j);
        }
        assert forall|i: int| 0 <= i < places.len() implies #[trigger] places[i] < len by {
            if i < places.len() - 1 {
                assert(places[i] < places[places.len() - 1]);
            }
        }
    }
}

proof fn lemma_ascends(places: Seq<usize>, i: int, j: int)
    requires
        forall|i: int, j: int|
            0 <= i && j == i + 1 && j < places.len() ==> #[trigger] places[i]
                < #[trigger] places[j],
        0 <= i < j < places.len(),
    ensures
        places[i] < places[j],
    decreases j - i,
{
    assert(places[j - 1] < places[j]);
    if i < j - 1 {
        lemma_ascends(places, i, j - 1);
    }
}

/// Where every session carries a stream, all of them keep their places and the new one is added.
pub proof fn law_nothing_moves_while_all_are_busy<T>(
    sessions: Seq<T>,
    counts: Seq<usize>,
    fresh: T,
)
    requires
        counts.len() == sessions.len(),
        forall|i: int| 0 <= i < counts.len() ==> counts[i] != 0,
    ensures
        swap_out_all(sessions, idle_places(counts)).push(fresh) == sessions.push(fresh),
{
    lemma_no_idle_places(counts);
}

proof fn lemma_no_idle_places(counts: Seq<usize>)
    requires
        forall|i: int| 0 <= i < counts.len() ==> counts[i] != 0,
    ensures
        idle_places(counts).len() == 0,
    decreases counts.len(),
{
    if counts.len() > 0 {
        lemma_no_idle_places(counts.drop_last());
    }
}

} // verus!
