use vstd::prelude::*;

verus! {

/// A sequence with two places exchanged.
pub open spec fn exchanged<T>(s: Seq<T>, i: int, j: int) -> Seq<T> {
    s.update(i, s[j]).update(j, s[i])
}

/// Draws for the shuffle of `size` items: the first below `size`, each later
/// one below one less, down to two.
pub open spec fn fair_draws(draws: Seq<usize>, size: nat) -> bool {
    &&& draws.len() == (if size < 2 {
        0
    } else {
        size - 1
    })
    &&& forall|k: int| 0 <= k < draws.len() ==> #[trigger] draws[k] < size - k
}

/// The items after the first `k` exchanges: from the last place down, each
/// place takes the item at the drawn one.
pub open spec fn shuffled_until<T>(s: Seq<T>, draws: Seq<usize>, k: nat) -> Seq<T>
    decreases k,
{
    if k == 0 {
        s
    } else {
        exchanged(
            shuffled_until(s, draws, (k - 1) as nat),
            s.len() - k,
            draws[k - 1] as int,
        )
    }
}

/// The items in the order that the draws bring about.
pub open spec fn shuffled<T>(s: Seq<T>, draws: Seq<usize>) -> Seq<T> {
    shuffled_until(s, draws, draws.len())
}

/// Exchanges two places of a list.
pub fn exchange<T>(items: &mut Vec<T>, i: usize, j: usize)
    requires
        i < old(items).len(),
        j < old(items).len(),
    ensures
        final(items)@ == exchanged(old(items)@, i as int, j as int),
{
    let ghost s = items@;
    if i == j {
        assert(exchanged(s, i as int, j as int) == s);
        return;
    }
    let low: usize = if i < j {
        i
    } else {
        j
    };
    let high: usize = if i < j {
        j
    } else {
        i
    };
    let b = items.remove(high);
    let a = items.remove(low);
    items.insert(low, b);
    items.insert(high, a);
    assert(items@ == exchanged(s, i as int, j as int));
}

/// Shuffles the items with the given draws.
pub fn secure_shuffle<T>(items: &mut Vec<T>, draws: &Vec<usize>)
    requires
        fair_draws(draws@, old(items)@.len()),
    ensures
        final(items)@ == shuffled(old(items)@, draws@),
{
    let ghost s = items@;
    let mut k: usize = 0;
    while k < draws.len()
        invariant
            k <= draws.len(),
            s.len() == items.len(),
            fair_draws(draws@, s.len()),
            items@ == shuffled_until(s, draws@, k as nat),
        decreases draws.len() - k,
    {
        let index: usize = items.len() - 1 - k;
        let drawn: usize = draws[k];
        exchange(items, index, drawn);
        k += 1;
    }
}

/// The largest multiple of the bound that 64 random bits stay below; words
/// from there on are drawn again.
pub open spec fn acceptance_limit(upper_bound: nat) -> int {
    u64::MAX - (u64::MAX as int % upper_bound as int)
}

/// The index that a random word stands for: none where the word must be
/// drawn again.
pub open spec fn index_of_word(word: int, upper_bound: nat) -> Option<int> {
    if word < acceptance_limit(upper_bound) {
        Some(word % upper_bound as int)
    } else {
        None
    }
}

/// Turns a random word into an index below the bound, or rejects the word.
pub fn random_index(word: u64, upper_bound: usize) -> (r: Option<usize>)
    requires
        upper_bound > 0,
    ensures
        match r {
            Some(i) => index_of_word(word as int, upper_bound as nat) == Some(i as int) && i
                < upper_bound,
            None => index_of_word(word as int, upper_bound as nat) is None,
        },
{
    let bound: u64 = upper_bound as u64;
    let limit: u64 = u64::MAX - (u64::MAX % bound);
    if word < limit {
        let i: u64 = word % bound;
        Some(i as usize)
    } else {
        None
    }
}

/// The upper bounds of the draws that a shuffle of `size` items needs, in
/// order.
pub fn draw_bounds(size: usize) -> (r: Vec<usize>)
    ensures
        r@.len() == (if size < 2 {
            0
        } else {
            size - 1
        }),
        forall|k: int| 0 <= k < r@.len() ==> #[trigger] r@[k] == size - k,
{
    let mut r: Vec<usize> = Vec::new();
    let mut bound: usize = size;
    while bound > 1
        invariant
            bound <= size,
            r@.len() == size - bound,
            forall|k: int| 0 <= k < r@.len() ==> #[trigger] r@[k] == size - k,
            size >= 1 ==> bound >= 1,
        decreases bound,
    {
        r.push(bound);
        bound -= 1;
    }
    r
}

pub proof fn lemma_exchanged_items<T>(s: Seq<T>, i: int, j: int)
    requires
        0 <= i < s.len(),
        0 <= j < s.len(),
    ensures
        exchanged(s, i, j).to_multiset() == s.to_multiset(),
{
    broadcast use vstd::seq_lib::group_to_multiset_ensures;
    broadcast use vstd::multiset::group_multiset_axioms;

    if i == j {
        assert(exchanged(s, i, j) =~= s);
    } else {
        let low = if i < j {
            i
        } else {
            j
        };
        let high = if i < j {
            j
        } else {
            i
        };
        let t = exchanged(s, i, j);
        let a = s.remove(high).remove(low);
        assert(t.remove(high).remove(low) =~= a);
        assert(a.to_multiset() == s.to_multiset().remove(s[high]).remove(s[low])) by {
            assert(s.remove(high)[low] == s[low]);
        }
        assert(a.to_multiset() == t.to_multiset().remove(t[high]).remove(t[low])) by {
            assert(t.remove(high)[low] == t[low]);
        }
        assert(t[high] == s[low] && t[low] == s[high]);
        assert(s.to_multiset().count(s[high]) > 0);
        assert(t.to_multiset().count(t[high]) > 0);
        assert(s.remove(high).contains(s.remove(high)[low]));
        assert(t.remove(high).contains(t.remove(high)[low]));
        assert(s.to_multiset() =~= a.to_multiset().insert(s[low]).insert(s[high]));
        assert(t.to_multiset() =~= a.to_multiset().insert(t[low]).insert(t[high]));
        assert(s.to_multiset() =~= t.to_multiset());
    }
}

proof fn lemma_shuffled_until_items<T>(s: Seq<T>, draws: Seq<usize>, k: nat)
    requires
        fair_draws(draws, s.len()),
        k <= draws.len(),
    ensures
        shuffled_until(s, draws, k).len() == s.len(),
        shuffled_until(s, draws, k).to_multiset() == s.to_multiset(),
    decreases k,
{
    if k > 0 {
        lemma_shuffled_until_items(s, draws, (k - 1) as nat);
        assert(draws[k - 1] < s.len() - (k - 1));
        lemma_exchanged_items(
            shuffled_until(s, draws, (k - 1) as nat),
            s.len() - k,
            draws[k - 1] as int,
        );
    }
}

/// A shuffle loses no item, adds none and doubles none.
pub proof fn law_shuffle_keeps_items<T>(s: Seq<T>, draws: Seq<usize>)
    requires
        fair_draws(draws, s.len()),
    ensures
        shuffled(s, draws).len() == s.len(),
        shuffled(s, draws).to_multiset() == s.to_multiset(),
{
    lemma_shuffled_until_items(s, draws, draws.len());
}

/// Once a place has been filled, later exchanges leave it alone.
proof fn lemma_place_stays<T>(s: Seq<T>, draws: Seq<usize>, k: nat, later: nat, place: int)
    requires
        fair_draws(draws, s.len()),
        k <= later <= draws.len(),
        s.len() - k <= place < s.len(),
    ensures
        shuffled_until(s, draws, later)[place] == shuffled_until(s, draws, k)[place],
    decreases later,
{
    if k < later {
        lemma_place_stays(s, draws, k, (later - 1) as nat, place);
        lemma_shuffled_until_items(s, draws, (later - 1) as nat);
        assert(draws[later - 1] < s.len() - (later - 1));
    }
}

proof fn lemma_draws_agree<T>(s: Seq<T>, a: Seq<usize>, b: Seq<usize>, k: nat)
    requires
        s.no_duplicates(),
        fair_draws(a, s.len()),
        fair_draws(b, s.len()),
        shuffled(s, a) == shuffled(s, b),
        k <= a.len(),
    ensures
        forall|i: int| 0 <= i < k ==> a[i] == b[i],
        shuffled_until(s, a, k) == shuffled_until(s, b, k),
    decreases k,
{
    if k > 0 {
        let before = (k - 1) as nat;
        lemma_draws_agree(s, a, b, before);
        let t = shuffled_until(s, a, before);
        lemma_shuffled_until_items(s, a, before);
        s.lemma_multiset_has_no_duplicates();
        t.lemma_multiset_has_no_duplicates_conv();
        assert(a[k - 1] < s.len() - (k - 1));
        assert(b[k - 1] < s.len() - (k - 1));
        let place = s.len() - k;
        lemma_place_stays(s, a, k, a.len(), place);
        lemma_place_stays(s, b, k, b.len(), place);
        assert(exchanged(t, place, a[k - 1] as int)[place] == t[a[k - 1] as int]);
        assert(exchanged(t, place, b[k - 1] as int)[place] == t[b[k - 1] as int]);
        assert(t[a[k - 1] as int] == t[b[k - 1] as int]);
        assert(a[k - 1] == b[k - 1]);
    }
}

/// Different draws put different items in different orders: no order is
/// favoured by being reached in two ways.
pub proof fn law_orders_come_from_one_draw<T>(s: Seq<T>, a: Seq<usize>, b: Seq<usize>)
    requires
        s.no_duplicates(),
        fair_draws(a, s.len()),
        fair_draws(b, s.len()),
        shuffled(s, a) == shuffled(s, b),
    ensures
        a == b,
{
    lemma_draws_agree(s, a, b, a.len());
    assert(a =~= b);
}

/// Every index below the bound is stood for by equally many random words: the
/// words accepted for it are `index`, `index + bound`, and so on, as many of
/// them for one index as for another.
pub proof fn law_indices_are_equally_likely(upper_bound: nat, index: int, word: int, turn: int)
    requires
        0 < upper_bound <= u64::MAX,
        0 <= index < upper_bound,
        0 <= word <= u64::MAX,
    ensures
        acceptance_limit(upper_bound) % upper_bound as int == 0,
        0 <= turn < acceptance_limit(upper_bound) / upper_bound as int ==> index_of_word(
            turn * upper_bound + index,
            upper_bound,
        ) == Some(index),
        index_of_word(word, upper_bound) == Some(index) ==> {
            &&& word == (word / upper_bound as int) * upper_bound + index
            &&& 0 <= word / (upper_bound as int) < acceptance_limit(upper_bound)
                / upper_bound as int
        },
{
    let b = upper_bound as int;
    let m = u64::MAX as int;
    let limit = acceptance_limit(upper_bound);
    vstd::arithmetic::div_mod::lemma_fundamental_div_mod(m, b);
    let q = m / b;
    assert(limit == b * q);
    vstd::arithmetic::div_mod::lemma_mod_multiples_basic(q, b);
    assert(q * b == b * q) by (nonlinear_arith);
    assert(limit % b == 0);
    assert(limit / b == q) by {
        vstd::arithmetic::div_mod::lemma_div_multiples_vanish(q, b);
    }
    if 0 <= turn < q {
        assert(turn * b + index < b * q) by (nonlinear_arith)
            requires
                0 <= turn,
                turn + 1 <= q,
                0 <= index < b,
        ;
        vstd::arithmetic::div_mod::lemma_fundamental_div_mod_converse(
            turn * b + index,
            b,
            turn,
            index,
        );
    }
    if index_of_word(word, upper_bound) == Some(index) {
        vstd::arithmetic::div_mod::lemma_fundamental_div_mod(word, b);
        let w = word / b;
        assert(b * w == w * b) by (nonlinear_arith);
        assert(w < q) by (nonlinear_arith)
            requires
                word == b * w + index,
                word < b * q,
                0 <= index,
                b > 0,
        ;
        assert(0 <= w) by {
            vstd::arithmetic::div_mod::lemma_div_pos_is_pos(word, b);
        }
    }
}

/// The first draw fills the last place, and the rest is shuffled by the later
/// draws among the places before it.
pub proof fn law_first_draw_fills_last_place<T>(s: Seq<T>, draws: Seq<usize>)
    requires
        fair_draws(draws, s.len()),
        s.len() > 1,
    ensures
        shuffled(s, draws).last() == s[draws[0] as int],
{
    lemma_place_stays(s, draws, 1, draws.len(), s.len() - 1);
    lemma_shuffled_until_items(s, draws, draws.len());
    reveal_with_fuel(shuffled_until, 2);
    assert(shuffled_until(s, draws, 1) == exchanged(s, s.len() - 1, draws[0] as int));
}

/// As few random words as possible are drawn again: fewer than the bound.
pub proof fn law_few_words_are_rejected(upper_bound: nat, word: int)
    requires
        0 < upper_bound <= u64::MAX,
        0 <= word <= u64::MAX - upper_bound,
    ensures
        index_of_word(word, upper_bound) is Some,
        index_of_word(word, upper_bound) == Some(word % upper_bound as int),
{
    let rest = u64::MAX as int % upper_bound as int;
    assert(0 <= rest < upper_bound) by (nonlinear_arith)
        requires
            rest == u64::MAX as int % upper_bound as int,
            upper_bound > 0,
    ;
}

} // verus!
