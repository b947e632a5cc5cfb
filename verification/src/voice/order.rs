use std::collections::HashMap;
use vstd::prelude::*;

verus! {

broadcast use vstd::std_specs::hash::group_hash_axioms;

/// What places a channel among its siblings: `order` is the id of the sibling
/// before it, zero for the first.
#[derive(Clone, Copy)]
pub struct Place {
    pub id: u64,
    pub parent: u64,
    pub order: u64,
}

/// The channels below one parent.
pub open spec fn siblings(channels: Seq<Place>, parent: u64) -> Seq<Place>
    decreases channels.len(),
{
    if channels.len() == 0 {
        Seq::empty()
    } else {
        let before = siblings(channels.drop_last(), parent);
        if channels.last().parent == parent {
            before.push(channels.last())
        } else {
            before
        }
    }
}

/// The first channel that comes after the given one.
pub open spec fn successor(channels: Seq<Place>, previous: u64) -> Option<int>
    decreases channels.len(),
{
    if channels.len() == 0 {
        None
    } else if channels[0].order == previous {
        Some(0)
    } else {
        match successor(channels.skip(1), previous) {
            Some(at) => Some(at + 1),
            None => None,
        }
    }
}

/// Siblings in sequence: each is followed by the one that names it. Where the
/// chain breaks, the rest follows as it stands.
pub open spec fn sequenced(channels: Seq<Place>, previous: u64) -> Seq<Place>
    decreases channels.len(),
{
    match successor(channels, previous) {
        Some(at) => if 0 <= at < channels.len() {
            seq![channels[at]] + sequenced(channels.remove(at), channels[at].id)
        } else {
            channels
        },
        None => channels,
    }
}

/// The place of a channel among its siblings, from zero.
pub open spec fn is_place(channels: Seq<Place>, channel: Place, index: int) -> bool {
    let row = sequenced(siblings(channels, channel.parent), 0);
    0 <= index < row.len() && row[index] == channel
}

pub open spec fn distinct_ids(channels: Seq<Place>) -> bool {
    forall|i: int, j: int|
        0 <= i < j < channels.len() ==> #[trigger] channels[i].id != #[trigger] channels[j].id
}

proof fn lemma_successor(channels: Seq<Place>, previous: u64)
    ensures
        match successor(channels, previous) {
            Some(at) => 0 <= at < channels.len() && channels[at].order == previous && forall|i: int|
                0 <= i < at ==> (#[trigger] channels[i]).order != previous,
            None => forall|i: int|
                0 <= i < channels.len() ==> (#[trigger] channels[i]).order != previous,
        },
    decreases channels.len(),
{
    if channels.len() > 0 && channels[0].order != previous {
        let rest = channels.skip(1);
        lemma_successor(rest, previous);
        assert forall|i: int| 0 < i < channels.len() implies channels[i] == #[trigger] rest[i
            - 1] by {}
        assert forall|i: int|
            0 <= i < channels.len() && (successor(channels, previous) is None || i < successor(
                channels,
                previous,
            ).unwrap()) implies (#[trigger] channels[i]).order != previous by {
            if i > 0 {
                assert(rest[i - 1].order != previous);
            }
        }
    }
}

fn find_successor(channels: &Vec<Place>, previous: u64) -> (r: Option<usize>)
    ensures
        match r {
            Some(at) => successor(channels@, previous) == Some(at as int) && at < channels.len(),
            None => successor(channels@, previous) is None,
        },
{
    let mut i: usize = 0;
    proof {
        lemma_successor(channels@, previous);
    }
    while i < channels.len()
        invariant
            i <= channels.len(),
            forall|j: int| 0 <= j < i ==> (#[trigger] channels@[j]).order != previous,
            match successor(channels@, previous) {
                Some(at) => 0 <= at < channels@.len() && channels@[at].order == previous
                    && forall|i: int|
                    0 <= i < at ==> (#[trigger] channels@[i]).order != previous,
                None => forall|i: int|
                    0 <= i < channels@.len() ==> (#[trigger] channels@[i]).order != previous,
            },
        decreases channels.len() - i,
    {
        if channels[i].order == previous {
            assert(channels@[i as int].order == previous);
            return Some(i);
        }
        i += 1;
    }
    None
}

/// Puts siblings in sequence.
#[verifier::loop_isolation(false)]
fn sequence(channels: Vec<Place>) -> (r: Vec<Place>)
    ensures
        r@ == sequenced(channels@, 0),
{
    let ghost all = channels@;
    let mut channels = channels;
    let mut r: Vec<Place> = Vec::new();
    let mut previous: u64 = 0;
    assert(r@ + sequenced(channels@, previous) =~= sequenced(all, 0));
    while channels.len() > 0
        invariant
            r@ + sequenced(channels@, previous) == sequenced(all, 0),
        decreases channels.len(),
    {
        let ghost before = r@;
        match find_successor(&channels, previous) {
            Some(at) => {
                let ghost left = channels@;
                let ghost after = previous;
                let channel = channels.remove(at);
                r.push(channel);
                previous = channel.id;
                assert(sequenced(left, after) == seq![left[at as int]] + sequenced(
                    left.remove(at as int),
                    left[at as int].id,
                ));
                assert(r@ + sequenced(channels@, previous) =~= before + sequenced(left, after));
            },
            None => {
                let ghost left = channels@;
                let mut i: usize = 0;
                while i < channels.len()
                    invariant
                        i <= channels.len(),
                        left == channels@,
                        r@ == before + left.take(i as int),
                    decreases channels.len() - i,
                {
                    r.push(channels[i]);
                    i += 1;
                    assert(left.take(i as int) =~= left.take(i - 1).push(left[i - 1]));
                }
                assert(left.take(left.len() as int) =~= left);
                return r;
            },
        }
    }
    assert(channels@ =~= Seq::<Place>::empty());
    assert(sequenced(channels@, previous) =~= Seq::<Place>::empty());
    assert(r@ =~= sequenced(all, 0));
    r
}

fn siblings_of(channels: &Vec<Place>, parent: u64) -> (r: Vec<Place>)
    ensures
        r@ == siblings(channels@, parent),
{
    let mut r: Vec<Place> = Vec::new();
    let mut i: usize = 0;
    while i < channels.len()
        invariant
            i <= channels.len(),
            r@ == siblings(channels@.take(i as int), parent),
        decreases channels.len() - i,
    {
        assert(channels@.take(i + 1).drop_last() =~= channels@.take(i as int));
        if channels[i].parent == parent {
            r.push(channels[i]);
        }
        i += 1;
    }
    assert(channels@.take(channels@.len() as int) =~= channels@);
    r
}

proof fn lemma_siblings(channels: Seq<Place>, parent: u64)
    ensures
        forall|c: Place| #[trigger]
            siblings(channels, parent).contains(c) <==> channels.contains(c) && c.parent == parent,
        distinct_ids(channels) ==> distinct_ids(siblings(channels, parent)),
        siblings(channels, parent).len() <= channels.len(),
    decreases channels.len(),
{
    let s = siblings(channels, parent);
    if channels.len() > 0 {
        let front = channels.drop_last();
        let last = channels.last();
        lemma_siblings(front, parent);
        let b = siblings(front, parent);
        assert(channels =~= front.push(last));
        assert forall|c: Place| #[trigger]
            s.contains(c) <==> channels.contains(c) && c.parent == parent by {
            crate::text::list::lemma_push_contains(front, last, c);
            crate::text::list::lemma_push_contains(b, last, c);
            assert(b.contains(c) <==> front.contains(c) && c.parent == parent);
        }
        if distinct_ids(channels) {
            assert(distinct_ids(front));
            assert forall|i: int, j: int| 0 <= i < j < s.len() implies #[trigger] s[i].id
                != #[trigger] s[j].id by {
                if j == b.len() {
                    assert(b.contains(b[i]));
                    let k = choose|k: int| 0 <= k < front.len() && front[k] == b[i];
                    assert(channels[k].id != channels[channels.len() - 1].id);
                }
            }
        }
    }
}

proof fn lemma_sequenced(channels: Seq<Place>, previous: u64)
    ensures
        sequenced(channels, previous).to_multiset() == channels.to_multiset(),
        sequenced(channels, previous).len() == channels.len(),
    decreases channels.len(),
{
    broadcast use vstd::seq_lib::group_to_multiset_ensures;

    lemma_successor(channels, previous);
    match successor(channels, previous) {
        Some(at) => {
            let rest = channels.remove(at);
            let tail = sequenced(rest, channels[at].id);
            lemma_sequenced(rest, channels[at].id);
            let row = seq![channels[at]] + tail;
            assert(row.remove(0) =~= tail);
            assert(row.to_multiset().remove(row[0]) == tail.to_multiset());
            assert(channels.to_multiset().remove(channels[at]) == rest.to_multiset());
            assert(row.to_multiset().count(row[0]) > 0) by {
                assert(row.contains(row[0]));
            }
            assert(channels.to_multiset().count(channels[at]) > 0) by {
                assert(channels.contains(channels[at]));
            }
            assert(row.to_multiset() =~= row.to_multiset().remove(row[0]).insert(row[0]));
            assert(channels.to_multiset() =~= channels.to_multiset().remove(channels[at]).insert(
                channels[at],
            ));
        },
        None => {},
    }
}

/// Rows made of the same channels with distinct ids hold each of them once.
proof fn lemma_row(channels: Seq<Place>, previous: u64)
    ensures
        forall|c: Place| #[trigger]
            sequenced(channels, previous).contains(c) <==> channels.contains(c),
        distinct_ids(channels) ==> distinct_ids(sequenced(channels, previous)),
{
    broadcast use vstd::seq_lib::group_to_multiset_ensures;

    let row = sequenced(channels, previous);
    lemma_sequenced(channels, previous);
    assert forall|c: Place| #[trigger] row.contains(c) <==> channels.contains(c) by {
        assert(row.to_multiset().count(c) > 0 <==> row.contains(c));
        assert(channels.to_multiset().count(c) > 0 <==> channels.contains(c));
    }
    if distinct_ids(channels) {
        assert(channels.no_duplicates()) by {
            assert forall|i: int, j: int| 0 <= i < j < channels.len() implies channels[i]
                != channels[j] by {
                assert(channels[i].id != channels[j].id);
            }
        }
        channels.lemma_multiset_has_no_duplicates();
        row.lemma_multiset_has_no_duplicates_conv();
        assert forall|i: int, j: int| 0 <= i < j < row.len() implies #[trigger] row[i].id
            != #[trigger] row[j].id by {
            assert(row.contains(row[i]));
            assert(row.contains(row[j]));
            let k = choose|k: int| 0 <= k < channels.len() && channels[k] == row[i];
            let l = choose|l: int| 0 <= l < channels.len() && channels[l] == row[j];
            if k < l {
                assert(channels[k].id != channels[l].id);
            } else if l < k {
                assert(channels[l].id != channels[k].id);
            }
        }
    }
}

/// Whether one of the first channels is below the parent.
spec fn seen(channels: Seq<Place>, n: int, parent: u64) -> bool {
    exists|k: int| 0 <= k < n && (#[trigger] channels[k]).parent == parent
}

/// Whether a row holds the id.
spec fn in_row(row: Seq<Place>, n: int, id: u64) -> bool {
    exists|k: int| 0 <= k < n && (#[trigger] row[k]).id == id
}

/// Whether a channel with the id has the place.
pub open spec fn has_place(channels: Seq<Place>, id: u64, index: int) -> bool {
    exists|i: int|
        0 <= i < channels.len() && (#[trigger] channels[i]).id == id && is_place(
            channels,
            channels[i],
            index,
        )
}

/// Whether the channels of every parent seen so far, and no others, have their
/// places.
spec fn placed(channels: Seq<Place>, n: int, places: Map<u64, u64>) -> bool {
    &&& forall|i: int|
        0 <= i < channels.len() && seen(channels, n, (#[trigger] channels[i]).parent)
            ==> places.contains_key(channels[i].id)
    &&& forall|id: u64| #[trigger]
        places.contains_key(id) ==> has_place(channels, id, places[id] as int)
}

/// Whether every channel, and nothing else, has its place. Of channels that
/// share an id one has it.
pub open spec fn is_order(channels: Seq<Place>, places: Map<u64, u64>) -> bool {
    &&& forall|i: int|
        0 <= i < channels.len() ==> places.contains_key((#[trigger] channels[i]).id)
    &&& forall|id: u64| #[trigger]
        places.contains_key(id) ==> has_place(channels, id, places[id] as int)
}

/// A channel that shares its id with no other has its own place.
pub proof fn lemma_own_place(channels: Seq<Place>, i: int, index: int)
    requires
        distinct_ids(channels),
        0 <= i < channels.len(),
        has_place(channels, channels[i].id, index),
    ensures
        is_place(channels, channels[i], index),
{
    let k = choose|k: int|
        0 <= k < channels.len() && (#[trigger] channels[k]).id == channels[i].id && is_place(
            channels,
            channels[k],
            index,
        );
    if k < i {
        assert(channels[k].id != channels[i].id);
    } else if i < k {
        assert(channels[i].id != channels[k].id);
    }
}

/// Resolves the chains of channels into places among siblings, from zero.
pub fn resolve_order(channels: &Vec<Place>) -> (r: HashMap<u64, u64>)
    ensures
        is_order(channels@, r@),
{
    let ghost all = channels@;
    let mut r: HashMap<u64, u64> = HashMap::new();
    let mut n: usize = 0;
    while n < channels.len()
        invariant
            n <= channels.len(),
            all == channels@,
            placed(all, n as int, r@),
        decreases channels.len() - n,
    {
        let ghost before = r@;
        let parent: u64 = channels[n].parent;
        let row = sequence(siblings_of(channels, parent));
        let ghost places = row@;
        proof {
            lemma_row_places(all, parent);
        }
        let mut i: usize = 0;
        while i < row.len()
            invariant
                i <= row.len(),
                places == row@,
                places == sequenced(siblings(all, parent), 0),
                forall|k: int|
                    0 <= k < places.len() ==> has_place(all, (#[trigger] places[k]).id, k),
                placed(all, n as int, before),
                forall|id: u64| #[trigger]
                    r@.contains_key(id) <==> before.contains_key(id) || in_row(
                        places,
                        i as int,
                        id,
                    ),
                forall|id: u64| #[trigger]
                    r@.contains_key(id) ==> has_place(all, id, r@[id] as int),
            decreases row.len() - i,
        {
            let ghost m = r@;
            let id: u64 = row[i].id;
            r.insert(id, i as u64);
            assert(r@ == m.insert(id, i as u64));
            assert(places[i as int].id == id);
            assert forall|x: u64| #[trigger] in_row(places, i + 1, x) <==> in_row(
                places,
                i as int,
                x,
            ) || x == id by {
                if in_row(places, i + 1, x) {
                    let k = choose|k: int| 0 <= k < i + 1 && (#[trigger] places[k]).id == x;
                    assert(places[k].id == x);
                }
                if in_row(places, i as int, x) {
                    let k = choose|k: int| 0 <= k < i && (#[trigger] places[k]).id == x;
                    assert(places[k].id == x);
                }
            }
            i += 1;
        }
        proof {
            lemma_placed(all, n as int, before, r@);
        }
        n += 1;
    }
    proof {
        assert forall|i: int| 0 <= i < all.len() implies r@.contains_key(
            (#[trigger] all[i]).id,
        ) by {
            assert(all[i].parent == all[i].parent);
            assert(seen(all, all.len() as int, all[i].parent));
        }
    }
    r
}

/// Who stands in a row has the place where it stands.
proof fn lemma_row_places(channels: Seq<Place>, parent: u64)
    ensures
        ({
            let row = sequenced(siblings(channels, parent), 0);
            &&& forall|k: int|
                0 <= k < row.len() ==> has_place(channels, (#[trigger] row[k]).id, k)
            &&& forall|i: int|
                0 <= i < channels.len() && channels[i].parent == parent ==> in_row(
                    row,
                    row.len() as int,
                    (#[trigger] channels[i]).id,
                )
        }),
{
    let s = siblings(channels, parent);
    let row = sequenced(s, 0);
    lemma_siblings(channels, parent);
    lemma_row(s, 0);
    assert forall|k: int| 0 <= k < row.len() implies has_place(
        channels,
        (#[trigger] row[k]).id,
        k,
    ) by {
        assert(row.contains(row[k]));
        assert(s.contains(row[k]));
        assert(channels.contains(row[k]));
        let i = choose|i: int| 0 <= i < channels.len() && channels[i] == row[k];
        assert(channels[i].id == row[k].id && is_place(channels, channels[i], k));
    }
    assert forall|i: int| 0 <= i < channels.len() && channels[i].parent == parent implies in_row(
        row,
        row.len() as int,
        (#[trigger] channels[i]).id,
    ) by {
        assert(channels.contains(channels[i]));
        assert(s.contains(channels[i]));
        assert(row.contains(channels[i]));
        let k = choose|k: int| 0 <= k < row.len() && row[k] == channels[i];
        assert(row[k].id == channels[i].id);
    }
}

proof fn lemma_placed(channels: Seq<Place>, n: int, before: Map<u64, u64>, after: Map<u64, u64>)
    requires
        0 <= n < channels.len(),
        placed(channels, n, before),
        ({
            let row = sequenced(siblings(channels, channels[n].parent), 0);
            forall|id: u64| #[trigger]
                after.contains_key(id) <==> before.contains_key(id) || in_row(
                    row,
                    row.len() as int,
                    id,
                )
        }),
        forall|id: u64| #[trigger]
            after.contains_key(id) ==> has_place(channels, id, after[id] as int),
    ensures
        placed(channels, n + 1, after),
{
    let parent = channels[n].parent;
    let row = sequenced(siblings(channels, parent), 0);
    lemma_row_places(channels, parent);
    assert forall|i: int|
        0 <= i < channels.len() && seen(
            channels,
            n + 1,
            (#[trigger] channels[i]).parent,
        ) implies after.contains_key(channels[i].id) by {
        if channels[i].parent == parent {
            assert(in_row(row, row.len() as int, channels[i].id));
        } else {
            let k = choose|k: int|
                0 <= k < n + 1 && (#[trigger] channels[k]).parent == channels[i].parent;
            assert(channels[k].parent == channels[i].parent);
            assert(seen(channels, n, channels[i].parent));
            assert(before.contains_key(channels[i].id));
        }
    }
}

/// Whether some channel below the parent has the place.
pub open spec fn is_taken(channels: Seq<Place>, parent: u64, index: int) -> bool {
    exists|i: int|
        0 <= i < channels.len() && channels[i].parent == parent && #[trigger] is_place(
            channels,
            channels[i],
            index,
        )
}

/// Siblings get the places from zero on without a gap, each its own.
pub proof fn law_places_are_a_sequence(channels: Seq<Place>, parent: u64)
    requires
        distinct_ids(channels),
    ensures
        forall|index: int|
            #[trigger] is_taken(channels, parent, index) <==> 0 <= index < siblings(
                channels,
                parent,
            ).len(),
        forall|i: int, j: int, index: int|
            0 <= i < channels.len() && 0 <= j < channels.len() && channels[i].parent == parent
                && channels[j].parent == parent && #[trigger] is_place(channels, channels[i], index)
                && #[trigger] is_place(channels, channels[j], index) ==> i == j,
{
    let s = siblings(channels, parent);
    let row = sequenced(s, 0);
    lemma_siblings(channels, parent);
    lemma_sequenced(s, 0);
    lemma_row(s, 0);
    assert forall|index: int| 0 <= index < s.len() implies #[trigger] is_taken(
        channels,
        parent,
        index,
    ) by {
        assert(row.contains(row[index]));
        assert(s.contains(row[index]));
        assert(channels.contains(row[index]));
        let i = choose|i: int| 0 <= i < channels.len() && channels[i] == row[index];
        assert(channels[i].parent == parent && is_place(channels, channels[i], index));
    }
    assert forall|i: int, j: int, index: int|
        0 <= i < channels.len() && 0 <= j < channels.len() && channels[i].parent == parent
            && channels[j].parent == parent && #[trigger] is_place(channels, channels[i], index)
            && #[trigger] is_place(channels, channels[j], index) implies i == j by {
        if i < j {
            assert(channels[i].id != channels[j].id);
        } else if j < i {
            assert(channels[j].id != channels[i].id);
        }
    }
}

/// Whether a row is an unbroken chain: its first channel follows `previous`,
/// each later one the one before it.
pub open spec fn is_chain(row: Seq<Place>, previous: u64) -> bool
    decreases row.len(),
{
    row.len() > 0 ==> row[0].order == previous && is_chain(row.skip(1), row[0].id)
}

proof fn lemma_chain(row: Seq<Place>, previous: u64, i: int)
    requires
        is_chain(row, previous),
        0 <= i < row.len(),
    ensures
        row[i].order == if i == 0 {
            previous
        } else {
            row[i - 1].id
        },
    decreases row.len(),
{
    if i > 0 {
        lemma_chain(row.skip(1), row[0].id, i - 1);
    }
}

/// An unbroken chain of siblings is put in the order of the chain, in whatever
/// order they are listed. No channel has the id zero, and none the id of
/// another.
pub proof fn law_chain_is_followed(row: Seq<Place>, listed: Seq<Place>, previous: u64)
    requires
        is_chain(row, previous),
        distinct_ids(row),
        forall|i: int| 0 <= i < row.len() ==> (#[trigger] row[i]).id != previous,
        listed.to_multiset() == row.to_multiset(),
    ensures
        sequenced(listed, previous) == row,
    decreases row.len(),
{
    broadcast use vstd::seq_lib::group_to_multiset_ensures;

    assert(listed.len() == listed.to_multiset().len());
    assert(row.len() == row.to_multiset().len());
    if row.len() == 0 {
        assert(listed =~= row);
    } else {
        let first = row[0];
        let rest = row.skip(1);
        lemma_chain(row, previous, 0);
        assert(row.contains(first));
        assert(listed.to_multiset().count(first) > 0);
        assert(listed.contains(first));
        let at = choose|at: int| 0 <= at < listed.len() && listed[at] == first;
        lemma_successor(listed, previous);
        let found = successor(listed, previous).unwrap();
        assert(listed.contains(listed[found]));
        assert(row.to_multiset().count(listed[found]) > 0);
        assert(row.contains(listed[found]));
        let k = choose|k: int| 0 <= k < row.len() && row[k] == listed[found];
        lemma_chain(row, previous, k);
        if k > 0 {
            assert(row[k - 1].id != previous);
        }
        assert(listed[found] == first);
        let left = listed.remove(found);
        assert(row.remove(0) =~= rest);
        assert(left.to_multiset() == listed.to_multiset().remove(first));
        assert(rest.to_multiset() == row.to_multiset().remove(first));
        assert forall|i: int, j: int| 0 <= i < j < rest.len() implies #[trigger] rest[i].id
            != #[trigger] rest[j].id by {
            assert(row[i + 1].id != row[j + 1].id);
        }
        assert forall|i: int| 0 <= i < rest.len() implies (#[trigger] rest[i]).id != first.id by {
            assert(row[0].id != row[i + 1].id);
        }
        law_chain_is_followed(rest, left, first.id);
        assert(row =~= seq![first] + rest);
    }
}

proof fn lemma_siblings_filter(channels: Seq<Place>, parent: u64)
    ensures
        siblings(channels, parent) == channels.filter(|c: Place| c.parent == parent),
    decreases channels.len(),
{
    reveal(Seq::filter);
    if channels.len() > 0 {
        lemma_siblings_filter(channels.drop_last(), parent);
    }
}

/// The siblings are the channels below the parent, as they are listed.
pub proof fn law_siblings_share_their_parent(channels: Seq<Place>, parent: u64)
    ensures
        siblings(channels, parent) == channels.filter(|c: Place| c.parent == parent),
{
    lemma_siblings_filter(channels, parent);
}

/// Where no channel follows, the rest stands as it is listed; where one does,
/// the first listed of those that do comes next.
pub proof fn law_next_channel_is_first_that_follows(
    channels: Seq<Place>,
    previous: u64,
    at: int,
)
    ensures
        (forall|i: int| 0 <= i < channels.len() ==> (#[trigger] channels[i]).order != previous)
            ==> sequenced(channels, previous) == channels,
        0 <= at < channels.len() && channels[at].order == previous && (forall|i: int|
            0 <= i < at ==> (#[trigger] channels[i]).order != previous) ==> sequenced(
            channels,
            previous,
        ) == seq![channels[at]] + sequenced(channels.remove(at), channels[at].id),
{
    lemma_successor(channels, previous);
}

/// Channels below one parent that make an unbroken chain have the places in
/// which the chain leads through them, from zero, wherever they are listed.
pub proof fn law_chain_gives_places(
    channels: Seq<Place>,
    parent: u64,
    row: Seq<Place>,
    k: int,
    index: int,
)
    requires
        is_chain(row, 0),
        distinct_ids(row),
        forall|i: int|
            0 <= i < row.len() ==> (#[trigger] row[i]).id != 0 && row[i].parent == parent,
        siblings(channels, parent).to_multiset() == row.to_multiset(),
        0 <= k < row.len(),
    ensures
        is_place(channels, row[k], index) <==> index == k,
{
    law_chain_is_followed(row, siblings(channels, parent), 0);
    assert(row[k].parent == parent);
    if is_place(channels, row[k], index) {
        assert(row[index] == row[k]);
        if index != k {
            assert(row[index].id == row[k].id);
        }
    }
}

} // verus!
