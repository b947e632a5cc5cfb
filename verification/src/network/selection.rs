use vstd::prelude::*;

use crate::network::profile;
use crate::network::profile::ValidatedProfile;
use crate::network::provider::Provider;
use crate::network::shuffle;
use crate::network::state::Pool;
use crate::network::state::ProviderRotationState;
use crate::network::state::RotationState;
use crate::text::list;

verus! {

/// The profile that a rotation selects, and the state to keep once it is live.
pub struct ProfileSelection {
    pub profile: ValidatedProfile,
    pub proposed_state: RotationState,
}

/// A remembered name, forgotten where no such profile exists any more.
pub open spec fn kept(name: Option<Seq<char>>, found: Seq<Seq<char>>) -> Option<Seq<char>> {
    match name {
        Some(n) => if found.contains(n) {
            name
        } else {
            None
        },
        None => None,
    }
}

/// The names that still exist, each once and in order, without `except`.
pub open spec fn retained(
    list: Seq<Seq<char>>,
    found: Seq<Seq<char>>,
    except: Option<Seq<char>>,
) -> Seq<Seq<char>>
    decreases list.len(),
{
    if list.len() == 0 {
        Seq::empty()
    } else {
        let before = retained(list.drop_last(), found, except);
        let name = list.last();
        if except != Some(name) && found.contains(name) && !before.contains(name) {
            before.push(name)
        } else {
            before
        }
    }
}

/// A pool without the profiles that no longer exist.
pub open spec fn cleaned(pool: Pool, found: Seq<Seq<char>>) -> Pool {
    let active = kept(pool.active, found);
    Pool {
        active,
        last: kept(pool.last, found),
        remaining: retained(pool.remaining, found, active),
        cycle: retained(pool.cycle, found, None),
    }
}

/// A pool with the profiles that its cycle does not know yet: each joins the
/// cycle and, unless it is active, waits for its turn.
pub open spec fn admitted(pool: Pool, found: Seq<Seq<char>>) -> Pool
    decreases found.len(),
{
    if found.len() == 0 {
        pool
    } else {
        let p = admitted(pool, found.drop_last());
        let name = found.last();
        if p.cycle.contains(name) {
            p
        } else {
            Pool {
                cycle: p.cycle.push(name),
                remaining: if p.active != Some(name) && !p.remaining.contains(name) {
                    p.remaining.push(name)
                } else {
                    p.remaining
                },
                ..p
            }
        }
    }
}

/// Whether a profile has appeared that the cycle does not know.
pub open spec fn has_new(cycle: Seq<Seq<char>>, found: Seq<Seq<char>>) -> bool {
    exists|i: int| 0 <= i < found.len() && !cycle.contains(#[trigger] found[i])
}

/// The pool that the next profile is taken from: once every profile has had
/// its turn, a new cycle begins with all of them.
pub open spec fn reconciled(pool: Pool, found: Seq<Seq<char>>) -> Pool {
    let p = admitted(cleaned(pool, found), found);
    if p.remaining.len() == 0 {
        Pool { remaining: found, cycle: found, ..p }
    } else {
        p
    }
}

/// Whether the waiting profiles are shuffled: where new ones joined or a new
/// cycle begins.
pub open spec fn must_shuffle(pool: Pool, found: Seq<Seq<char>>) -> bool {
    let p = cleaned(pool, found);
    has_new(p.cycle, found) || admitted(p, found).remaining.len() == 0
}

/// The first place that holds another name.
pub open spec fn first_other(list: Seq<Seq<char>>, name: Seq<char>) -> int
    decreases list.len(),
{
    if list.len() == 0 || list[0] != name {
        0
    } else {
        1 + first_other(list.skip(1), name)
    }
}

/// A shuffled list whose end is not the profile selected last, where there is
/// another one.
pub open spec fn set_apart(list: Seq<Seq<char>>, last: Option<Seq<char>>) -> Seq<Seq<char>> {
    if list.len() > 1 && last == Some(list.last()) {
        shuffle::exchanged(list, list.len() - 1, first_other(list, list.last()))
    } else {
        list
    }
}

/// The waiting profiles in the order in which they will be taken, from the
/// end.
pub open spec fn arranged(pool: Pool, found: Seq<Seq<char>>, draws: Seq<usize>) -> Seq<Seq<char>> {
    let p = reconciled(pool, found);
    if must_shuffle(pool, found) {
        set_apart(shuffle::shuffled(p.remaining, draws), p.last)
    } else {
        p.remaining
    }
}

/// How many profiles the next selection shuffles.
pub open spec fn shuffle_count(pool: Pool, found: Seq<Seq<char>>) -> nat {
    if must_shuffle(pool, found) {
        reconciled(pool, found).remaining.len()
    } else {
        0
    }
}

/// The profile that is next.
pub open spec fn next_name(pool: Pool, found: Seq<Seq<char>>, draws: Seq<usize>) -> Seq<char> {
    arranged(pool, found, draws).last()
}

/// The pool once that profile has been taken.
pub open spec fn next_pool(pool: Pool, found: Seq<Seq<char>>, draws: Seq<usize>) -> Pool {
    let name = next_name(pool, found, draws);
    Pool {
        active: Some(name),
        last: Some(name),
        remaining: arranged(pool, found, draws).drop_last(),
        cycle: reconciled(pool, found).cycle,
    }
}

fn keep(name: &Option<String>, found: &Vec<String>) -> (r: Option<String>)
    ensures
        list::text_of(r) == kept(list::text_of(*name), list::texts(found@)),
{
    match name {
        Some(n) => if list::holds(found, n.as_str()) {
            Some(n.clone())
        } else {
            None
        },
        None => None,
    }
}

fn is_name(o: &Option<String>, name: &String) -> (r: bool)
    ensures
        r == (list::text_of(*o) == Some(name@)),
{
    match o {
        Some(n) => *n == *name,
        None => false,
    }
}

fn retain(list: &Vec<String>, found: &Vec<String>, except: &Option<String>) -> (r: Vec<String>)
    ensures
        list::texts(r@) == retained(
            list::texts(list@),
            list::texts(found@),
            list::text_of(*except),
        ),
{
    let ghost all = list::texts(list@);
    let mut r: Vec<String> = Vec::new();
    let mut i: usize = 0;
    assert(list::texts(r@) == retained(all.take(0), list::texts(found@), list::text_of(*except)));
    while i < list.len()
        invariant
            i <= list.len(),
            all == list::texts(list@),
            list::texts(r@) == retained(
                all.take(i as int),
                list::texts(found@),
                list::text_of(*except),
            ),
        decreases list.len() - i,
    {
        assert(all.take(i + 1).drop_last() == all.take(i as int));
        assert(all.take(i + 1).last() == list@[i as int]@);
        let ghost before = r@;
        if !is_name(except, &list[i]) && list::holds(found, list[i].as_str()) && !list::holds(
            &r,
            list[i].as_str(),
        ) {
            r.push(list[i].clone());
            assert(list::texts(r@) == list::texts(before).push(list@[i as int]@));
        }
        i += 1;
    }
    assert(all.take(all.len() as int) == all);
    r
}

fn profile_names(profiles: &Vec<ValidatedProfile>) -> (r: Vec<String>)
    ensures
        list::texts(r@) == profile::names(profiles@),
{
    let mut r: Vec<String> = Vec::new();
    let mut i: usize = 0;
    while i < profiles.len()
        invariant
            i <= profiles.len(),
            r@.len() == i,
            forall|j: int| 0 <= j < i ==> (#[trigger] r@[j])@ == profiles@[j]@.basename,
        decreases profiles.len() - i,
    {
        r.push(profiles[i].basename.clone());
        i += 1;
    }
    assert(list::texts(r@) == profile::names(profiles@));
    r
}

/// Brings a provider's state up to date with the profiles found, and says
/// whether the waiting ones are to be shuffled.
fn reconcile(state: &ProviderRotationState, found: &Vec<String>) -> (r: (
    ProviderRotationState,
    bool,
))
    ensures
        r.0@ == reconciled(state@, list::texts(found@)),
        r.1 == must_shuffle(state@, list::texts(found@)),
{
    let ghost all = list::texts(found@);
    let active = keep(&state.active_profile, found);
    let last = keep(&state.last_profile, found);
    let none: Option<String> = None;
    let cycle = retain(&state.cycle_profiles, found, &none);
    let remaining = retain(&state.remaining_profiles, found, &active);
    let mut p = ProviderRotationState {
        active_profile: active,
        last_profile: last,
        remaining_profiles: remaining,
        cycle_profiles: cycle,
    };
    let ghost start = p@;
    assert(start == cleaned(state@, all));
    let mut reshuffle: bool = false;
    let mut i: usize = 0;
    assert(p@ == admitted(start, all.take(0)));
    while i < found.len()
        invariant
            i <= found.len(),
            all == list::texts(found@),
            p@ == admitted(start, all.take(i as int)),
            reshuffle == has_new(start.cycle, all.take(i as int)),
        decreases found.len() - i,
    {
        let ghost q = p@;
        let ghost now = all.take(i + 1);
        assert(now.drop_last() == all.take(i as int));
        assert(now.last() == found@[i as int]@);
        proof {
            lemma_admitted_cycle(start, all.take(i as int));
        }
        if !list::holds(&p.cycle_profiles, found[i].as_str()) {
            assert(now[i as int] == found@[i as int]@);
            assert(!admitted(start, all.take(i as int)).cycle.contains(found@[i as int]@));
            assert(!start.cycle.contains(now[i as int]));
            let ghost c = p.cycle_profiles@;
            p.cycle_profiles.push(found[i].clone());
            assert(list::texts(p.cycle_profiles@) == list::texts(c).push(found@[i as int]@));
            if !is_name(&p.active_profile, &found[i]) && !list::holds(
                &p.remaining_profiles,
                found[i].as_str(),
            ) {
                let ghost m = p.remaining_profiles@;
                p.remaining_profiles.push(found[i].clone());
                assert(list::texts(p.remaining_profiles@) == list::texts(m).push(
                    found@[i as int]@,
                ));
            }
            reshuffle = true;
        } else {
            proof {
                lemma_has_new_extends(start.cycle, all.take(i as int), found@[i as int]@, q.cycle);
            }
            assert(all.take(i as int).push(found@[i as int]@) == now);
        }
        i += 1;
    }
    assert(all.take(all.len() as int) == all);
    if p.remaining_profiles.len() == 0 {
        p.cycle_profiles = list::copied(found);
        p.remaining_profiles = list::copied(found);
        reshuffle = true;
    }
    (p, reshuffle)
}

proof fn lemma_exchanged_texts(s: Seq<String>, i: int, j: int)
    requires
        0 <= i < s.len(),
        0 <= j < s.len(),
    ensures
        list::texts(shuffle::exchanged(s, i, j)) == shuffle::exchanged(list::texts(s), i, j),
{
    assert(list::texts(shuffle::exchanged(s, i, j)) =~= shuffle::exchanged(list::texts(s), i, j));
}

proof fn lemma_shuffled_texts(s: Seq<String>, draws: Seq<usize>, k: nat)
    requires
        shuffle::fair_draws(draws, s.len()),
        k <= draws.len(),
    ensures
        list::texts(shuffle::shuffled_until(s, draws, k)) == shuffle::shuffled_until(
            list::texts(s),
            draws,
            k,
        ),
        shuffle::shuffled_until(s, draws, k).len() == s.len(),
    decreases k,
{
    if k > 0 {
        lemma_shuffled_texts(s, draws, (k - 1) as nat);
        let before = shuffle::shuffled_until(s, draws, (k - 1) as nat);
        assert(draws[k - 1] < s.len() - (k - 1));
        lemma_exchanged_texts(before, s.len() - k, draws[k - 1] as int);
    }
}

/// Moves the profile selected last away from the end of the list.
fn separate(list: &mut Vec<String>, last: &Option<String>)
    requires
        list::texts(old(list)@).no_duplicates(),
    ensures
        list::texts(final(list)@) == set_apart(list::texts(old(list)@), list::text_of(*last)),
{
    let ghost t = list::texts(list@);
    let n: usize = list.len();
    if n > 1 && is_name(last, &list[n - 1]) {
        // No name occurs twice, so the first place holds another one.
        proof {
            assert(t[0] != t[n - 1]);
            assert(first_other(t, t.last()) == 0);
            lemma_exchanged_texts(list@, n - 1, 0);
        }
        shuffle::exchange(list, n - 1, 0);
    }
}

/// How many waiting profiles the next selection shuffles; the draws for it
/// come from outside.
pub fn shuffle_size(
    provider: Provider,
    discovered: &Result<Vec<ValidatedProfile>, String>,
    state: &Result<RotationState, String>,
) -> (r: usize)
    ensures
        r == match (discovered, state) {
            (Ok(profiles), Ok(s)) => match s.pool(provider) {
                Some(pool) => shuffle_count(pool, profile::names(profiles@)),
                None => 0,
            },
            _ => 0,
        },
{
    let profiles = match discovered {
        Ok(p) => p,
        Err(_) => return 0,
    };
    let state = match state {
        Ok(s) => s,
        Err(_) => return 0,
    };
    match state.provider_state(provider) {
        Some(s) => {
            let found = profile_names(profiles);
            let (pool, reshuffle) = reconcile(s, &found);
            if reshuffle {
                assert(pool@.remaining.len() == pool.remaining_profiles@.len());
                pool.remaining_profiles.len()
            } else {
                0
            }
        },
        None => 0,
    }
}

/// Takes the next profile from a provider's pool.
fn advance(state: &mut ProviderRotationState, found: &Vec<String>, draws: &Vec<usize>) -> (r:
    String)
    requires
        found@.len() > 0,
        list::texts(found@).no_duplicates(),
        shuffle::fair_draws(draws@, shuffle_count(old(state)@, list::texts(found@))),
    ensures
        r@ == next_name(old(state)@, list::texts(found@), draws@),
        final(state)@ == next_pool(old(state)@, list::texts(found@), draws@),
        list::texts(found@).contains(r@),
{
    let ghost pool = state@;
    let ghost all = list::texts(found@);
    let (mut p, reshuffle) = reconcile(state, found);
    proof {
        lemma_reconciled(pool, all);
    }
    let ghost waiting = p@.remaining;
    if reshuffle {
        proof {
            lemma_shuffled_texts(p.remaining_profiles@, draws@, draws@.len());
            shuffle::law_shuffle_keeps_items(waiting, draws@);
            lemma_same_items(waiting, shuffle::shuffled(waiting, draws@));
        }
        let ghost before = p.remaining_profiles@;
        shuffle::secure_shuffle(&mut p.remaining_profiles, draws);
        let ghost mixed = list::texts(p.remaining_profiles@);
        assert(mixed == shuffle::shuffled(waiting, draws@));
        separate(&mut p.remaining_profiles, &p.last_profile);
        proof {
            lemma_set_apart(mixed, p@.last);
        }
    }
    let ghost order = arranged(pool, all, draws@);
    assert(list::texts(p.remaining_profiles@) == order);
    assert(order.len() == waiting.len());
    assert(order.len() > 0);
    assert(forall|n: Seq<char>| #[trigger] order.contains(n) ==> waiting.contains(n));
    let ghost list = p.remaining_profiles@;
    let name = p.remaining_profiles.pop().unwrap();
    assert(list::texts(p.remaining_profiles@) == order.drop_last());
    assert(name@ == order.last());
    assert(order.contains(order[order.len() - 1]));
    p.active_profile = Some(name.clone());
    p.last_profile = Some(name.clone());
    assert(p@ =~= next_pool(pool, all, draws@));
    *state = p;
    name
}

/// What a selection comes to: the profile and the states to keep, or why there
/// is none.
pub open spec fn selects(
    provider: Provider,
    discovered: Result<Vec<ValidatedProfile>, String>,
    state: Result<RotationState, String>,
    draws: Result<Vec<usize>, String>,
    r: Result<ProfileSelection, String>,
) -> bool {
    match (discovered, state) {
        _ if provider == Provider::Direct => r matches Err(e) && e@
            == "Direct mode has no profile settings"@,
        (Err(reason), _) => r matches Err(e) && e@ == reason@,
        (Ok(profiles), _) if profiles@.len() == 0 => r matches Err(e) && e@
            == "no valid WireGuard profiles were found"@,
        (Ok(_), Err(reason)) => r matches Err(e) && e@ == reason@,
        (Ok(profiles), Ok(s)) => {
            let found = profile::names(profiles@);
            let pool = s.pool(provider).unwrap();
            if shuffle_count(pool, found) < 2 {
                selects_from(provider, profiles@, s, Seq::empty(), r)
            } else {
                match draws {
                    Err(reason) => r matches Err(e) && e@ == reason@,
                    Ok(d) => selects_from(provider, profiles@, s, d@, r),
                }
            }
        },
    }
}

/// A selection with given draws: only the state of the provider changes.
pub open spec fn selects_from(
    provider: Provider,
    profiles: Seq<ValidatedProfile>,
    state: RotationState,
    draws: Seq<usize>,
    r: Result<ProfileSelection, String>,
) -> bool {
    let found = profile::names(profiles);
    let pool = state.pool(provider).unwrap();
    &&& r matches Ok(s)
    &&& profile::named(profiles, next_name(pool, found, draws)) == Some(s.profile@)
    &&& s.proposed_state.pool(provider) == Some(next_pool(pool, found, draws))
    &&& forall|other: Provider|
        other != provider ==> #[trigger] s.proposed_state.pool(other) == state.pool(other)
}

/// Selects the profile to rotate to, and the state to keep once it is live.
///
/// `draws` are the random places for the shuffle; none are asked for where
/// [`shuffle_size`] is below two.
pub fn choose_next_profile(
    provider: Provider,
    discovered: &Result<Vec<ValidatedProfile>, String>,
    state: Result<RotationState, String>,
    draws: &Result<Vec<usize>, String>,
) -> (r: Result<ProfileSelection, String>)
    requires
        discovered matches Ok(profiles) ==> profile::names(profiles@).no_duplicates(),
        match (discovered, state, draws) {
            (Ok(profiles), Ok(s), Ok(d)) => match s.pool(provider) {
                Some(pool) => {
                    let count = shuffle_count(pool, profile::names(profiles@));
                    count >= 2 ==> shuffle::fair_draws(d@, count)
                },
                None => true,
            },
            _ => true,
        },
    ensures
        selects(provider, *discovered, state, *draws, r),
{
    if provider == Provider::Direct {
        return Err("Direct mode has no profile settings".to_owned());
    }
    let profiles = match discovered {
        Ok(p) => p,
        Err(reason) => return Err(reason.clone()),
    };
    if profiles.len() == 0 {
        return Err("no valid WireGuard profiles were found".to_owned());
    }
    let size: usize = shuffle_size(provider, discovered, &state);
    let mut state = match state {
        Ok(s) => s,
        Err(reason) => return Err(reason),
    };
    let none: Vec<usize> = Vec::new();
    let draws = if size < 2 {
        &none
    } else {
        match draws {
            Ok(d) => d,
            Err(reason) => return Err(reason.clone()),
        }
    };
    let found = profile_names(profiles);
    assert(found@.len() == list::texts(found@).len());
    match state.provider_state_mut(provider) {
        None => Err("Direct mode has no profile settings".to_owned()),
        Some(s) => {
            let name = advance(s, &found, draws);
            proof {
                profile::lemma_named(profiles@, name@);
            }
            let profile = profile::find_profile(profiles, name.as_str());
            match profile {
                Some(profile) => Ok(ProfileSelection { profile, proposed_state: state }),
                None => Err("selected profile disappeared during discovery".to_owned()),
            }
        },
    }
}

/// Nothing waits but profiles that exist, each once; there is always one.
proof fn lemma_reconciled(pool: Pool, found: Seq<Seq<char>>)
    requires
        found.len() > 0,
        found.no_duplicates(),
    ensures
        reconciled(pool, found).remaining.len() > 0,
        reconciled(pool, found).remaining.no_duplicates(),
        forall|n: Seq<char>| #[trigger]
            reconciled(pool, found).remaining.contains(n) ==> found.contains(n),
{
    let p = cleaned(pool, found);
    lemma_retained(pool.remaining, found, p.active);
    lemma_admitted_remaining(p, found, found);
}

proof fn lemma_retained(list: Seq<Seq<char>>, found: Seq<Seq<char>>, except: Option<Seq<char>>)
    ensures
        retained(list, found, except).no_duplicates(),
        forall|n: Seq<char>| #[trigger]
            retained(list, found, except).contains(n) <==> (list.contains(n) && found.contains(n)
                && except != Some(n)),
    decreases list.len(),
{
    let r = retained(list, found, except);
    if list.len() > 0 {
        let l = list.drop_last();
        let name = list.last();
        lemma_retained(l, found, except);
        let b = retained(l, found, except);
        assert(list == l.push(name));
        assert forall|n: Seq<char>| #[trigger]
            r.contains(n) <==> (list.contains(n) && found.contains(n) && except != Some(n)) by {
            list::lemma_push_contains(l, name, n);
            list::lemma_push_contains(b, name, n);
            assert(b.contains(n) <==> (l.contains(n) && found.contains(n) && except != Some(n)));
            assert(b.contains(name) <==> (l.contains(name) && found.contains(name) && except
                != Some(name)));
        }
    }
}

proof fn lemma_admitted_remaining(pool: Pool, part: Seq<Seq<char>>, found: Seq<Seq<char>>)
    requires
        pool.remaining.no_duplicates(),
        forall|n: Seq<char>| #[trigger] pool.remaining.contains(n) ==> found.contains(n),
        forall|n: Seq<char>| #[trigger] part.contains(n) ==> found.contains(n),
    ensures
        admitted(pool, part).remaining.no_duplicates(),
        forall|n: Seq<char>| #[trigger]
            admitted(pool, part).remaining.contains(n) ==> found.contains(n),
        admitted(pool, part).active == pool.active,
        admitted(pool, part).last == pool.last,
        forall|n: Seq<char>| #[trigger]
            admitted(pool, part).remaining.contains(n) ==> pool.remaining.contains(n)
                || pool.active != Some(n),
    decreases part.len(),
{
    if part.len() > 0 {
        let f = part.drop_last();
        let name = part.last();
        assert(part == f.push(name));
        assert forall|n: Seq<char>| #[trigger] f.contains(n) implies found.contains(n) by {
            list::lemma_push_contains(f, name, n);
            assert(part.contains(n));
        }
        lemma_admitted_remaining(pool, f, found);
        let q = admitted(pool, f);
        assert(part.contains(name)) by {
            list::lemma_push_contains(f, name, name);
        }
        assert forall|n: Seq<char>| #[trigger]
            admitted(pool, part).remaining.contains(n) implies found.contains(n) && (
        pool.remaining.contains(n) || pool.active != Some(n)) by {
            list::lemma_push_contains(q.remaining, name, n);
            if q.remaining.contains(n) {
            }
        }
    }
}

/// Lists with the same items hold the same names, each as often.
proof fn lemma_same_items(a: Seq<Seq<char>>, b: Seq<Seq<char>>)
    requires
        a.to_multiset() == b.to_multiset(),
    ensures
        a.len() == b.len(),
        forall|n: Seq<char>| #[trigger] b.contains(n) <==> a.contains(n),
        a.no_duplicates() <==> b.no_duplicates(),
{
    broadcast use vstd::seq_lib::group_to_multiset_ensures;

    assert(a.len() == a.to_multiset().len());
    assert(b.len() == b.to_multiset().len());
    assert forall|n: Seq<char>| #[trigger] b.contains(n) <==> a.contains(n) by {
        assert(a.contains(n) <==> a.to_multiset().count(n) > 0);
        assert(b.contains(n) <==> b.to_multiset().count(n) > 0);
    }
    if a.no_duplicates() {
        a.lemma_multiset_has_no_duplicates();
        b.lemma_multiset_has_no_duplicates_conv();
    }
    if b.no_duplicates() {
        b.lemma_multiset_has_no_duplicates();
        a.lemma_multiset_has_no_duplicates_conv();
    }
}

proof fn lemma_set_apart(list: Seq<Seq<char>>, last: Option<Seq<char>>)
    requires
        list.no_duplicates(),
    ensures
        set_apart(list, last).to_multiset() == list.to_multiset(),
        set_apart(list, last).len() == list.len(),
        forall|n: Seq<char>| #[trigger]
            set_apart(list, last).contains(n) <==> list.contains(n),
        list.len() > 1 ==> last != Some(set_apart(list, last).last()),
{
    if list.len() > 1 && last == Some(list.last()) {
        assert(list[0] != list[list.len() - 1]);
        assert(first_other(list, list.last()) == 0);
        shuffle::lemma_exchanged_items(list, list.len() - 1, 0);
    }
    lemma_same_items(list, set_apart(list, last));
}

/// The cycle of a pool that took profiles in holds the names it held before
/// and the ones taken in.
proof fn lemma_admitted_cycle(pool: Pool, found: Seq<Seq<char>>)
    ensures
        forall|n: Seq<char>|
            #![trigger admitted(pool, found).cycle.contains(n)]
            admitted(pool, found).cycle.contains(n) <==> pool.cycle.contains(n) || found.contains(
                n,
            ),
    decreases found.len(),
{
    if found.len() > 0 {
        let f = found.drop_last();
        let name = found.last();
        lemma_admitted_cycle(pool, f);
        let c = admitted(pool, f).cycle;
        assert forall|n: Seq<char>|
            #![trigger admitted(pool, found).cycle.contains(n)]
            admitted(pool, found).cycle.contains(n) <==> pool.cycle.contains(n) || found.contains(
                n,
            ) by {
            assert(found == f.push(name));
            assert(f.push(name).contains(n) <==> f.contains(n) || n == name) by {
                list::lemma_push_contains(f, name, n);
            }
            list::lemma_push_contains(c, name, n);
            assert(c.contains(n) <==> pool.cycle.contains(n) || f.contains(n));
            assert(c.contains(name) <==> pool.cycle.contains(name) || f.contains(name));
        }
    }
}

proof fn lemma_has_new_extends(
    cycle: Seq<Seq<char>>,
    found: Seq<Seq<char>>,
    name: Seq<char>,
    grown: Seq<Seq<char>>,
)
    requires
        grown.contains(name),
        forall|n: Seq<char>|
            #![trigger grown.contains(n)]
            grown.contains(n) <==> cycle.contains(n) || found.contains(n),
    ensures
        has_new(cycle, found.push(name)) == has_new(cycle, found),
{
    let more = found.push(name);
    if has_new(cycle, more) {
        let i = choose|i: int| 0 <= i < more.len() && !cycle.contains(#[trigger] more[i]);
        if i == found.len() {
            assert(found.contains(name));
            let j = choose|j: int| 0 <= j < found.len() && found[j] == name;
            assert(!cycle.contains(found[j]));
        } else {
            assert(!cycle.contains(found[i]));
        }
    }
    if has_new(cycle, found) {
        let i = choose|i: int| 0 <= i < found.len() && !cycle.contains(#[trigger] found[i]);
        assert(!cycle.contains(more[i]));
    }
}

/// What is waiting in the order it will be taken: the same profiles, whatever
/// the draws.
proof fn lemma_arranged(pool: Pool, found: Seq<Seq<char>>, draws: Seq<usize>)
    requires
        found.len() > 0,
        found.no_duplicates(),
        shuffle::fair_draws(draws, shuffle_count(pool, found)),
    ensures
        arranged(pool, found, draws).to_multiset() == reconciled(pool, found).remaining.to_multiset(),
        arranged(pool, found, draws).no_duplicates(),
        arranged(pool, found, draws).len() > 0,
        forall|n: Seq<char>| #[trigger]
            arranged(pool, found, draws).contains(n) <==> reconciled(
                pool,
                found,
            ).remaining.contains(n),
{
    lemma_reconciled(pool, found);
    let waiting = reconciled(pool, found).remaining;
    if must_shuffle(pool, found) {
        shuffle::law_shuffle_keeps_items(waiting, draws);
        let mixed = shuffle::shuffled(waiting, draws);
        lemma_same_items(waiting, mixed);
        lemma_set_apart(mixed, reconciled(pool, found).last);
    }
    lemma_same_items(waiting, arranged(pool, found, draws));
}

/// The profile used last does not come again at once while there is another.
pub proof fn law_no_immediate_repeat(pool: Pool, found: Seq<Seq<char>>, draws: Seq<usize>)
    requires
        found.no_duplicates(),
        found.len() > 1,
        pool.active == pool.last,
        shuffle::fair_draws(draws, shuffle_count(pool, found)),
    ensures
        pool.last != Some(next_name(pool, found, draws)),
{
    lemma_reconciled(pool, found);
    lemma_arranged(pool, found, draws);
    let order = arranged(pool, found, draws);
    let name = order.last();
    assert(order.contains(order[order.len() - 1]));
    assert(reconciled(pool, found).remaining.contains(name));
    assert(found.contains(name));
    if pool.last == Some(name) {
        let p = cleaned(pool, found);
        lemma_retained(pool.remaining, found, p.active);
        lemma_admitted_remaining(p, found, found);
        let q = admitted(p, found);
        if q.remaining.len() == 0 {
            shuffle::law_shuffle_keeps_items(found, draws);
            let mixed = shuffle::shuffled(found, draws);
            lemma_same_items(found, mixed);
            lemma_set_apart(mixed, q.last);
        } else {
            assert(!p.remaining.contains(name));
            assert(q.remaining.contains(name));
        }
    }
}

/// A pool that a selection left behind, with the profiles still as they were.
pub open spec fn settled(pool: Pool, found: Seq<Seq<char>>) -> bool {
    &&& pool.active == pool.last
    &&& pool.active matches Some(name) && found.contains(name) && !pool.remaining.contains(name)
    &&& pool.remaining.no_duplicates()
    &&& forall|n: Seq<char>| #[trigger] pool.remaining.contains(n) ==> found.contains(n)
    &&& pool.cycle.no_duplicates()
    &&& forall|n: Seq<char>| #[trigger] pool.cycle.contains(n) <==> found.contains(n)
}

/// Every selection leaves a settled pool behind, whatever state it began in.
pub proof fn law_selection_settles(pool: Pool, found: Seq<Seq<char>>, draws: Seq<usize>)
    requires
        found.no_duplicates(),
        found.len() > 0,
        shuffle::fair_draws(draws, shuffle_count(pool, found)),
    ensures
        settled(next_pool(pool, found, draws), found),
{
    lemma_reconciled(pool, found);
    lemma_arranged(pool, found, draws);
    let order = arranged(pool, found, draws);
    let name = order.last();
    let rest = order.drop_last();
    assert(order.contains(order[order.len() - 1]));
    assert(found.contains(name));
    assert forall|n: Seq<char>| #[trigger] rest.contains(n) implies found.contains(n) && n
        != name by {
        let i = choose|i: int| 0 <= i < rest.len() && rest[i] == n;
        assert(order[i] == n);
        assert(order.contains(n));
        assert(reconciled(pool, found).remaining.contains(n));
    }
    lemma_retained(pool.cycle, found, None);
    lemma_admitted_cycle(cleaned(pool, found), found);
    lemma_admitted_cycle_distinct(cleaned(pool, found), found);
}

proof fn lemma_admitted_cycle_distinct(pool: Pool, found: Seq<Seq<char>>)
    requires
        pool.cycle.no_duplicates(),
    ensures
        admitted(pool, found).cycle.no_duplicates(),
    decreases found.len(),
{
    if found.len() > 0 {
        lemma_admitted_cycle_distinct(pool, found.drop_last());
    }
}

proof fn lemma_retained_all(list: Seq<Seq<char>>, found: Seq<Seq<char>>, except: Option<Seq<char>>)
    requires
        list.no_duplicates(),
        forall|n: Seq<char>| #[trigger] list.contains(n) ==> found.contains(n) && except != Some(n),
    ensures
        retained(list, found, except) == list,
    decreases list.len(),
{
    if list.len() > 0 {
        let l = list.drop_last();
        let name = list.last();
        assert(list[list.len() - 1] == name);
        assert(list.contains(name));
        assert forall|n: Seq<char>| #[trigger] l.contains(n) implies found.contains(n) && except
            != Some(n) by {
            let i = choose|i: int| 0 <= i < l.len() && l[i] == n;
            assert(list[i] == n);
            assert(list.contains(n));
        }
        lemma_retained_all(l, found, except);
        assert(!l.contains(name));
        assert(l.push(name) == list);
    } else {
        assert(retained(list, found, except) =~= list);
    }
}

proof fn lemma_admitted_none(pool: Pool, found: Seq<Seq<char>>)
    requires
        forall|n: Seq<char>| #[trigger] found.contains(n) ==> pool.cycle.contains(n),
    ensures
        admitted(pool, found) == pool,
    decreases found.len(),
{
    if found.len() > 0 {
        let f = found.drop_last();
        assert(found.contains(found[found.len() - 1]));
        assert forall|n: Seq<char>| #[trigger] f.contains(n) implies pool.cycle.contains(n) by {
            let i = choose|i: int| 0 <= i < f.len() && f[i] == n;
            assert(found[i] == n);
            assert(found.contains(n));
        }
        lemma_admitted_none(pool, f);
    }
}

/// Within a cycle, with the profiles unchanged, nothing is shuffled: the
/// selection takes the next waiting profile and changes nothing else.
pub proof fn law_cycle_goes_on(pool: Pool, found: Seq<Seq<char>>)
    requires
        settled(pool, found),
        pool.remaining.len() > 0,
    ensures
        shuffle_count(pool, found) == 0,
        next_name(pool, found, seq![]) == pool.remaining.last(),
        next_pool(pool, found, seq![]) == (Pool {
            active: Some(pool.remaining.last()),
            last: Some(pool.remaining.last()),
            remaining: pool.remaining.drop_last(),
            cycle: pool.cycle,
        }),
{
    lemma_retained_all(pool.remaining, found, pool.active);
    lemma_retained_all(pool.cycle, found, None);
    assert(cleaned(pool, found) == pool);
    assert forall|n: Seq<char>| #[trigger] found.contains(n) implies pool.cycle.contains(n) by {}
    lemma_admitted_none(pool, found);
    assert(!has_new(pool.cycle, found)) by {
        if has_new(pool.cycle, found) {
            let i = choose|i: int| 0 <= i < found.len() && !pool.cycle.contains(#[trigger] found[i]);
            assert(found.contains(found[i]));
        }
    }
}

/// The profiles that `n` selections in a row take, with the profiles
/// unchanged and draws only for the first.
pub open spec fn taken(
    pool: Pool,
    found: Seq<Seq<char>>,
    draws: Seq<usize>,
    n: nat,
) -> Seq<Seq<char>>
    decreases n,
{
    if n == 0 {
        Seq::empty()
    } else {
        seq![next_name(pool, found, draws)] + taken(
            next_pool(pool, found, draws),
            found,
            seq![],
            (n - 1) as nat,
        )
    }
}

proof fn lemma_taken_from_settled(pool: Pool, found: Seq<Seq<char>>)
    requires
        settled(pool, found),
        found.no_duplicates(),
    ensures
        taken(pool, found, seq![], pool.remaining.len()) == pool.remaining.reverse(),
    decreases pool.remaining.len(),
{
    let r = pool.remaining;
    if r.len() > 0 {
        law_cycle_goes_on(pool, found);
        let next = next_pool(pool, found, seq![]);
        assert(found.len() > 0) by {
            assert(r.contains(r[0]));
            assert(found.contains(r[0]));
        }
        law_selection_settles(pool, found, seq![]);
        lemma_taken_from_settled(next, found);
        assert(r.reverse() =~= seq![r.last()] + r.drop_last().reverse());
    } else {
        assert(r.reverse() =~= Seq::<Seq<char>>::empty());
    }
}

/// Whether every profile is waiting for its turn.
pub open spec fn all_wait(pool: Pool, found: Seq<Seq<char>>) -> bool {
    forall|n: Seq<char>| #[trigger]
        found.contains(n) ==> reconciled(pool, found).remaining.contains(n)
}

/// A cycle selects every profile exactly once.
pub proof fn law_cycle_takes_each_once(pool: Pool, found: Seq<Seq<char>>, draws: Seq<usize>)
    requires
        found.no_duplicates(),
        found.len() > 0,
        all_wait(pool, found),
        shuffle::fair_draws(draws, shuffle_count(pool, found)),
    ensures
        taken(pool, found, draws, found.len()).to_multiset() == found.to_multiset(),
        taken(pool, found, draws, found.len()).no_duplicates(),
{
    lemma_reconciled(pool, found);
    lemma_arranged(pool, found, draws);
    law_selection_settles(pool, found, draws);
    let waiting = reconciled(pool, found).remaining;
    let order = arranged(pool, found, draws);
    lemma_same_set_items(waiting, found);
    lemma_same_items(waiting, order);
    let next = next_pool(pool, found, draws);
    assert(order.len() == found.len());
    lemma_taken_from_settled(next, found);
    let t = taken(pool, found, draws, found.len());
    assert(order.reverse() =~= seq![order.last()] + order.drop_last().reverse());
    assert(t == order.reverse());
    order.lemma_reverse_to_multiset();
    lemma_same_items(found, t);
}

/// Lists without doubles that hold the same names have the same items.
proof fn lemma_same_set_items(a: Seq<Seq<char>>, b: Seq<Seq<char>>)
    requires
        a.no_duplicates(),
        b.no_duplicates(),
        forall|n: Seq<char>| #[trigger] a.contains(n) ==> b.contains(n),
        forall|n: Seq<char>| #[trigger] b.contains(n) ==> a.contains(n),
    ensures
        a.to_multiset() == b.to_multiset(),
        a.len() == b.len(),
{
    broadcast use vstd::seq_lib::group_to_multiset_ensures;

    a.lemma_multiset_has_no_duplicates();
    b.lemma_multiset_has_no_duplicates();
    assert forall|n: Seq<char>| a.to_multiset().count(n) == b.to_multiset().count(n) by {
        assert(a.contains(n) <==> a.to_multiset().count(n) > 0);
        assert(b.contains(n) <==> b.to_multiset().count(n) > 0);
        if a.contains(n) {
            assert(a.to_multiset().contains(n));
            assert(b.to_multiset().contains(n));
        } else {
            assert(!b.contains(n));
        }
    }
    assert(a.to_multiset() =~= b.to_multiset());
    assert(a.len() == a.to_multiset().len());
    assert(b.len() == b.to_multiset().len());
}

/// A new cycle waits for every profile: at the very beginning, and once all
/// have had their turn.
pub proof fn law_new_cycle_waits_for_all(pool: Pool, found: Seq<Seq<char>>)
    requires
        pool == crate::network::state::fresh_pool() || (settled(pool, found)
            && pool.remaining.len() == 0),
    ensures
        all_wait(pool, found),
{
    if pool == crate::network::state::fresh_pool() {
        let p = cleaned(pool, found);
        assert(p.remaining =~= Seq::<Seq<char>>::empty());
        assert(p.cycle =~= Seq::<Seq<char>>::empty());
        assert forall|n: Seq<char>| #[trigger] found.contains(n) implies reconciled(
            pool,
            found,
        ).remaining.contains(n) by {
            lemma_admitted_waits(p, found, n);
        }
    } else {
        lemma_retained_all(pool.remaining, found, pool.active);
        lemma_retained_all(pool.cycle, found, None);
        assert(cleaned(pool, found) == pool);
        lemma_admitted_none(pool, found);
    }
}

/// A profile that the cycle does not know waits once it is taken in, unless
/// it is active.
proof fn lemma_admitted_waits(pool: Pool, found: Seq<Seq<char>>, name: Seq<char>)
    ensures
        admitted(pool, found).active == pool.active,
        pool.remaining.contains(name) ==> admitted(pool, found).remaining.contains(name),
        found.contains(name) && !pool.cycle.contains(name) && pool.active != Some(name) ==> admitted(
            pool,
            found,
        ).remaining.contains(name),
        !pool.remaining.contains(name) && pool.cycle.contains(name) ==> !admitted(
            pool,
            found,
        ).remaining.contains(name),
    decreases found.len(),
{
    if found.len() > 0 {
        let f = found.drop_last();
        lemma_admitted_waits(pool, f, name);
        lemma_admitted_cycle(pool, f);
        let q = admitted(pool, f);
        assert(found == f.push(found.last()));
        list::lemma_push_contains(f, found.last(), name);
        list::lemma_push_contains(q.remaining, found.last(), name);
        assert(q.cycle.contains(name) <==> pool.cycle.contains(name) || f.contains(name));
        assert(q.cycle.contains(found.last()) <==> pool.cycle.contains(found.last()) || f.contains(
            found.last(),
        ));
    }
}

/// A profile that appears in the middle of a cycle can still be selected in
/// it.
pub proof fn law_new_profile_joins_cycle(pool: Pool, found: Seq<Seq<char>>, name: Seq<char>)
    requires
        found.contains(name),
        !pool.cycle.contains(name),
        pool.active != Some(name),
    ensures
        reconciled(pool, found).remaining.contains(name),
{
    lemma_retained(pool.cycle, found, None);
    assert(!cleaned(pool, found).cycle.contains(name));
    lemma_admitted_waits(cleaned(pool, found), found, name);
}

/// Whether a profile still has its turn before it in the cycle that a stored
/// state describes: it exists, it is not in use, and it was waiting or is new.
pub open spec fn has_turn_left(pool: Pool, found: Seq<Seq<char>>, n: Seq<char>) -> bool {
    &&& found.contains(n)
    &&& pool.active != Some(n)
    &&& pool.remaining.contains(n) || !pool.cycle.contains(n)
}

/// Whether some profile has its turn before it.
pub open spec fn goes_on(pool: Pool, found: Seq<Seq<char>>) -> bool {
    exists|n: Seq<char>| has_turn_left(pool, found, n)
}

/// Whether a profile has appeared since the cycle began.
pub open spec fn brings_news(pool: Pool, found: Seq<Seq<char>>) -> bool {
    exists|n: Seq<char>| #[trigger] found.contains(n) && !pool.cycle.contains(n)
}

proof fn lemma_turns(pool: Pool, found: Seq<Seq<char>>)
    ensures
        forall|n: Seq<char>|
            #![trigger admitted(cleaned(pool, found), found).remaining.contains(n)]
            admitted(cleaned(pool, found), found).remaining.contains(n) <==> has_turn_left(
                pool,
                found,
                n,
            ),
        admitted(cleaned(pool, found), found).remaining.len() > 0 <==> goes_on(pool, found),
        has_new(cleaned(pool, found).cycle, found) <==> brings_news(pool, found),
{
    let p = cleaned(pool, found);
    let q = admitted(p, found);
    lemma_retained(pool.cycle, found, None);
    lemma_retained(pool.remaining, found, p.active);
    lemma_admitted_remaining(p, found, found);
    assert forall|n: Seq<char>|
        #![trigger q.remaining.contains(n)]
        q.remaining.contains(n) <==> has_turn_left(pool, found, n) by {
        lemma_admitted_waits(p, found, n);
        assert(p.remaining.contains(n) <==> pool.remaining.contains(n) && found.contains(n)
            && p.active != Some(n));
        assert(p.cycle.contains(n) <==> pool.cycle.contains(n) && found.contains(n));
        if found.contains(n) {
            assert(p.active == Some(n) <==> pool.active == Some(n));
        }
    }
    if q.remaining.len() > 0 {
        assert(q.remaining.contains(q.remaining[0]));
        assert(has_turn_left(pool, found, q.remaining[0]));
    }
    if goes_on(pool, found) {
        let n = choose|n: Seq<char>| has_turn_left(pool, found, n);
        assert(q.remaining.contains(n));
    }
    if has_new(p.cycle, found) {
        let i = choose|i: int| 0 <= i < found.len() && !p.cycle.contains(#[trigger] found[i]);
        assert(found.contains(found[i]));
        assert(!pool.cycle.contains(found[i]));
    }
    if brings_news(pool, found) {
        let n = choose|n: Seq<char>| #[trigger] found.contains(n) && !pool.cycle.contains(n);
        let i = choose|i: int| 0 <= i < found.len() && found[i] == n;
        assert(!p.cycle.contains(found[i]));
    }
}

/// Whatever the stored state, the names that wait once it is brought up to date
/// are the existing ones, other than the one in use, that it had waiting or
/// that are new to its cycle; where there are none of these, all that exist.
pub proof fn law_waiting_names_come_from_stored_state(
    pool: Pool,
    found: Seq<Seq<char>>,
    n: Seq<char>,
)
    ensures
        reconciled(pool, found).remaining.contains(n) <==> if goes_on(pool, found) {
            found.contains(n) && pool.active != Some(n) && (pool.remaining.contains(n)
                || !pool.cycle.contains(n))
        } else {
            found.contains(n)
        },
        found.contains(n) && pool.active != Some(n) && pool.remaining.contains(n) ==> goes_on(
            pool,
            found,
        ),
{
    lemma_turns(pool, found);
    assert(admitted(cleaned(pool, found), found).remaining.contains(n) <==> has_turn_left(
        pool,
        found,
        n,
    ));
}

/// What waits is the profile selected and those left for later. As long as one
/// has its turn before it, these are exactly the existing profiles, other than
/// the one in use, that the stored state had waiting or that are new to its
/// cycle; otherwise they are all the profiles there are.
pub proof fn law_selection_is_among_those_with_a_turn(
    pool: Pool,
    found: Seq<Seq<char>>,
    draws: Seq<usize>,
    n: Seq<char>,
)
    requires
        found.no_duplicates(),
        found.len() > 0,
        shuffle::fair_draws(draws, shuffle_count(pool, found)),
    ensures
        (n == next_name(pool, found, draws) || next_pool(pool, found, draws).remaining.contains(n))
            <==> if goes_on(pool, found) {
            has_turn_left(pool, found, n)
        } else {
            found.contains(n)
        },
        !next_pool(pool, found, draws).remaining.contains(next_name(pool, found, draws)),
        next_pool(pool, found, draws).remaining.no_duplicates(),
{
    lemma_turns(pool, found);
    lemma_reconciled(pool, found);
    lemma_arranged(pool, found, draws);
    let order = arranged(pool, found, draws);
    let rest = order.drop_last();
    let name = order.last();
    assert(order == rest.push(name));
    list::lemma_push_contains(rest, name, n);
    assert(order.contains(n) <==> reconciled(pool, found).remaining.contains(n));
    if goes_on(pool, found) {
        assert(admitted(cleaned(pool, found), found).remaining.contains(n) <==> has_turn_left(
            pool,
            found,
            n,
        ));
    }
    if rest.contains(name) {
        let i = choose|i: int| 0 <= i < rest.len() && rest[i] == name;
        assert(order[i] == order[order.len() - 1]);
    }
}

/// Profiles are shuffled where the cycle begins anew or a profile is new to
/// it, and then all that wait; in the middle of a cycle nothing is.
pub proof fn law_shuffle_is_for_new_profiles_and_cycles(
    pool: Pool,
    found: Seq<Seq<char>>,
    draws: Seq<usize>,
)
    requires
        found.no_duplicates(),
        found.len() > 0,
        shuffle::fair_draws(draws, shuffle_count(pool, found)),
    ensures
        shuffle_count(pool, found) == if brings_news(pool, found) || !goes_on(pool, found) {
            next_pool(pool, found, draws).remaining.len() + 1
        } else {
            0
        },
{
    lemma_turns(pool, found);
    lemma_reconciled(pool, found);
    lemma_arranged(pool, found, draws);
    lemma_same_items(arranged(pool, found, draws), reconciled(pool, found).remaining);
}

/// In the middle of a cycle the waiting profiles keep their order: what is
/// lost is only what no longer exists, and the last of the rest is taken.
pub proof fn law_order_is_kept_within_cycle(pool: Pool, found: Seq<Seq<char>>)
    requires
        found.no_duplicates(),
        pool.remaining.no_duplicates(),
        goes_on(pool, found),
        !brings_news(pool, found),
    ensures
        ({
            let waiting = pool.remaining.filter(
                |n: Seq<char>| found.contains(n) && pool.active != Some(n),
            );
            &&& waiting.len() > 0
            &&& next_name(pool, found, seq![]) == waiting.last()
            &&& next_pool(pool, found, seq![]).remaining == waiting.drop_last()
        }),
{
    let p = cleaned(pool, found);
    lemma_turns(pool, found);
    lemma_retained(pool.cycle, found, None);
    assert forall|n: Seq<char>| #[trigger] found.contains(n) implies p.cycle.contains(n) by {
        assert(pool.cycle.contains(n));
    }
    lemma_admitted_none(p, found);
    lemma_retained_is_filter(pool.remaining, pool, found);
}

proof fn lemma_retained_is_filter(list: Seq<Seq<char>>, pool: Pool, found: Seq<Seq<char>>)
    requires
        list.no_duplicates(),
    ensures
        retained(list, found, kept(pool.active, found)) == list.filter(
            |n: Seq<char>| found.contains(n) && pool.active != Some(n),
        ),
    decreases list.len(),
{
    reveal(Seq::filter);
    let except = kept(pool.active, found);
    if list.len() > 0 {
        let l = list.drop_last();
        let name = list.last();
        lemma_retained_is_filter(l, pool, found);
        lemma_retained(l, found, except);
        if l.contains(name) {
            let i = choose|i: int| 0 <= i < l.len() && l[i] == name;
            assert(list[i] == list[list.len() - 1]);
        }
        assert(retained(l, found, except).contains(name) ==> l.contains(name));
    }
}

/// No two ways to draw come to the same order, as long as the profile used
/// last need not be kept from the front: every draw counts.
pub proof fn law_every_draw_counts(
    pool: Pool,
    found: Seq<Seq<char>>,
    a: Seq<usize>,
    b: Seq<usize>,
)
    requires
        found.no_duplicates(),
        found.len() > 0,
        shuffle::fair_draws(a, shuffle_count(pool, found)),
        shuffle::fair_draws(b, shuffle_count(pool, found)),
        pool.last matches Some(n) ==> !found.contains(n) || (goes_on(pool, found)
            && !has_turn_left(pool, found, n)),
        next_name(pool, found, a) == next_name(pool, found, b),
        next_pool(pool, found, a).remaining == next_pool(pool, found, b).remaining,
    ensures
        a == b,
{
    lemma_turns(pool, found);
    lemma_reconciled(pool, found);
    lemma_arranged(pool, found, a);
    lemma_arranged(pool, found, b);
    let x = arranged(pool, found, a);
    let y = arranged(pool, found, b);
    assert(x =~= x.drop_last().push(x.last()));
    assert(y =~= y.drop_last().push(y.last()));
    assert(x == y);
    let p = reconciled(pool, found);
    if must_shuffle(pool, found) {
        lemma_admitted_remaining_last(cleaned(pool, found), found);
        let s = shuffle::shuffled(p.remaining, a);
        let t = shuffle::shuffled(p.remaining, b);
        shuffle::law_shuffle_keeps_items(p.remaining, a);
        shuffle::law_shuffle_keeps_items(p.remaining, b);
        lemma_same_items(p.remaining, s);
        lemma_same_items(p.remaining, t);
        assert(s.contains(s[s.len() - 1]));
        assert(t.contains(t[t.len() - 1]));
        match pool.last {
            Some(n) => {
                assert(!p.remaining.contains(n)) by {
                    if goes_on(pool, found) {
                        assert(admitted(cleaned(pool, found), found).remaining.contains(n)
                            <==> has_turn_left(pool, found, n));
                    }
                }
            },
            None => {},
        }
        shuffle::law_orders_come_from_one_draw(p.remaining, a, b);
    } else {
        assert(a =~= b);
    }
}

proof fn lemma_admitted_remaining_last(pool: Pool, found: Seq<Seq<char>>)
    ensures
        admitted(pool, found).last == pool.last,
    decreases found.len(),
{
    if found.len() > 0 {
        lemma_admitted_remaining_last(pool, found.drop_last());
    }
}

/// A shuffle of more than one never puts the profile used last in front,
/// whichever profile the state calls active.
pub proof fn law_shuffle_sets_last_apart(pool: Pool, found: Seq<Seq<char>>, draws: Seq<usize>)
    requires
        found.no_duplicates(),
        found.len() > 0,
        shuffle::fair_draws(draws, shuffle_count(pool, found)),
        shuffle_count(pool, found) > 1,
    ensures
        pool.last != Some(next_name(pool, found, draws)),
{
    lemma_reconciled(pool, found);
    lemma_arranged(pool, found, draws);
    let p = reconciled(pool, found);
    lemma_admitted_remaining_last(cleaned(pool, found), found);
    shuffle::law_shuffle_keeps_items(p.remaining, draws);
    let mixed = shuffle::shuffled(p.remaining, draws);
    lemma_same_items(p.remaining, mixed);
    lemma_set_apart(mixed, p.last);
    let order = arranged(pool, found, draws);
    assert(order.contains(order[order.len() - 1]));
    assert(p.remaining.contains(order.last()));
    assert(found.contains(order.last()));
}

/// A profile that had its turn is not selected again before the others in the
/// cycle have had theirs.
pub proof fn law_used_profile_waits_for_next_cycle(
    pool: Pool,
    found: Seq<Seq<char>>,
    name: Seq<char>,
)
    requires
        pool.cycle.contains(name),
        found.contains(name),
        !pool.remaining.contains(name),
        admitted(cleaned(pool, found), found).remaining.len() > 0,
    ensures
        !reconciled(pool, found).remaining.contains(name),
{
    let p = cleaned(pool, found);
    lemma_retained(pool.cycle, found, None);
    lemma_retained(pool.remaining, found, p.active);
    assert(p.cycle.contains(name));
    assert(!p.remaining.contains(name));
    lemma_admitted_waits(p, found, name);
}

/// As long as a profile has its turn before it, none that had its turn in the
/// cycle is taken or waits again.
pub proof fn law_used_profile_is_not_taken_again(
    pool: Pool,
    found: Seq<Seq<char>>,
    draws: Seq<usize>,
    name: Seq<char>,
)
    requires
        found.no_duplicates(),
        pool.cycle.contains(name),
        !pool.remaining.contains(name),
        goes_on(pool, found),
        shuffle::fair_draws(draws, shuffle_count(pool, found)),
    ensures
        next_name(pool, found, draws) != name,
        !next_pool(pool, found, draws).remaining.contains(name),
{
    let n = choose|n: Seq<char>| has_turn_left(pool, found, n);
    assert(found.contains(n));
    law_selection_is_among_those_with_a_turn(pool, found, draws, name);
}

/// Where all have had their turn, all the profiles there are make a new cycle,
/// shuffled; the one used last changes places with the one shuffled furthest
/// back where it would come first.
pub proof fn law_new_cycle_is_shuffled(pool: Pool, found: Seq<Seq<char>>, draws: Seq<usize>)
    requires
        found.no_duplicates(),
        found.len() > 0,
        !goes_on(pool, found),
        shuffle::fair_draws(draws, found.len()),
    ensures
        shuffle_count(pool, found) == found.len(),
        next_pool(pool, found, draws).cycle == found,
        ({
            let mixed = shuffle::shuffled(found, draws);
            let order = next_pool(pool, found, draws).remaining.push(
                next_name(pool, found, draws),
            );
            if found.len() > 1 && pool.last == Some(mixed.last()) {
                &&& order.len() == mixed.len()
                &&& order[0] == mixed.last()
                &&& order.last() == mixed[0]
                &&& forall|i: int| 0 < i < mixed.len() - 1 ==> #[trigger] order[i] == mixed[i]
            } else {
                order == mixed
            }
        }),
{
    lemma_turns(pool, found);
    let p = cleaned(pool, found);
    lemma_admitted_remaining_last(p, found);
    assert(admitted(p, found).remaining.len() == 0);
    let mixed = shuffle::shuffled(found, draws);
    shuffle::law_shuffle_keeps_items(found, draws);
    lemma_same_items(found, mixed);
    assert(mixed.contains(mixed[mixed.len() - 1]));
    assert(found.contains(mixed.last()));
    let order = arranged(pool, found, draws);
    assert(order == set_apart(mixed, p.last));
    assert(mixed.no_duplicates()) by {
        lemma_reconciled(pool, found);
        lemma_arranged(pool, found, draws);
        lemma_distinct(found, mixed);
    }
    if found.len() > 1 && pool.last == Some(mixed.last()) {
        assert(mixed[0] != mixed[mixed.len() - 1]);
        assert(first_other(mixed, mixed.last()) == 0);
    }
    assert(order.drop_last().push(order.last()) =~= order);
}

proof fn lemma_distinct(a: Seq<Seq<char>>, b: Seq<Seq<char>>)
    requires
        a.no_duplicates(),
        a.to_multiset() == b.to_multiset(),
    ensures
        b.no_duplicates(),
{
    a.lemma_multiset_has_no_duplicates();
    b.lemma_multiset_has_no_duplicates_conv();
}

/// The names that are new to a cycle and can wait in it.
pub open spec fn newcomers(pool: Pool, found: Seq<Seq<char>>) -> Seq<Seq<char>> {
    found.filter(
        |n: Seq<char>|
            !pool.cycle.contains(n) && pool.active != Some(n) && !pool.remaining.contains(n),
    )
}

proof fn lemma_newcomers(pool: Pool, found: Seq<Seq<char>>, part: Seq<Seq<char>>)
    requires
        part.no_duplicates(),
        forall|n: Seq<char>| #[trigger] part.contains(n) ==> found.contains(n),
    ensures
        admitted(cleaned(pool, found), part).remaining == cleaned(pool, found).remaining
            + newcomers(pool, part),
    decreases part.len(),
{
    reveal(Seq::filter);
    let p = cleaned(pool, found);
    if part.len() == 0 {
        assert(newcomers(pool, part) =~= Seq::empty());
        assert(p.remaining + newcomers(pool, part) =~= p.remaining);
    } else {
        let front = part.drop_last();
        let name = part.last();
        assert(part.contains(part[part.len() - 1]));
        assert forall|n: Seq<char>| #[trigger] front.contains(n) implies found.contains(n) by {
            let i = choose|i: int| 0 <= i < front.len() && front[i] == n;
            assert(part[i] == n);
            assert(part.contains(n));
        }
        lemma_newcomers(pool, found, front);
        lemma_admitted_cycle(p, front);
        lemma_admitted_waits(p, front, name);
        lemma_retained(pool.cycle, found, None);
        lemma_retained(pool.remaining, found, p.active);
        let q = admitted(p, front);
        let new = newcomers(pool, front);
        assert(!front.contains(name)) by {
            if front.contains(name) {
                let i = choose|i: int| 0 <= i < front.len() && front[i] == name;
                assert(part[i] == part[part.len() - 1]);
            }
        }
        assert(!new.contains(name)) by {
            lemma_newcomers_are_found(pool, front, name);
        }
        assert(q.cycle.contains(name) <==> p.cycle.contains(name) || front.contains(name));
        assert(p.cycle.contains(name) <==> pool.cycle.contains(name));
        assert(q.remaining.contains(name) <==> p.remaining.contains(name) || new.contains(name))
            by {
            let both = p.remaining + new;
            if both.contains(name) {
                let i = choose|i: int| 0 <= i < both.len() && both[i] == name;
                if i < p.remaining.len() {
                    assert(p.remaining[i] == name);
                } else {
                    assert(new[i - p.remaining.len()] == name);
                }
            }
            if p.remaining.contains(name) {
                let i = choose|i: int| 0 <= i < p.remaining.len() && p.remaining[i] == name;
                assert(both[i] == name);
            }
        }
        assert(p.remaining.contains(name) <==> pool.remaining.contains(name) && p.active != Some(
            name,
        ));
        assert(p.active == Some(name) <==> pool.active == Some(name));
        assert(admitted(p, part).remaining =~= p.remaining + newcomers(pool, part));
    }
}

proof fn lemma_newcomers_are_found(pool: Pool, part: Seq<Seq<char>>, name: Seq<char>)
    ensures
        newcomers(pool, part).contains(name) ==> part.contains(name),
    decreases part.len(),
{
    reveal(Seq::filter);
    if part.len() > 0 {
        let front = part.drop_last();
        lemma_newcomers_are_found(pool, front, name);
        assert(part == front.push(part.last()));
        list::lemma_push_contains(front, part.last(), name);
        list::lemma_push_contains(newcomers(pool, front), part.last(), name);
    }
}

/// Profiles that appear within a cycle join those that wait, behind them and
/// in the order in which they were found, and then all of them are shuffled.
pub proof fn law_newcomers_are_shuffled_in(pool: Pool, found: Seq<Seq<char>>, draws: Seq<usize>)
    requires
        found.no_duplicates(),
        pool.remaining.no_duplicates(),
        goes_on(pool, found),
        brings_news(pool, found),
    ensures
        ({
            let all = pool.remaining.filter(
                |n: Seq<char>| found.contains(n) && pool.active != Some(n),
            ) + newcomers(pool, found);
            &&& shuffle_count(pool, found) == all.len()
            &&& shuffle::fair_draws(draws, all.len()) && pool.last != Some(
                shuffle::shuffled(all, draws).last(),
            ) ==> next_pool(pool, found, draws).remaining.push(next_name(pool, found, draws))
                == shuffle::shuffled(all, draws)
        }),
{
    let p = cleaned(pool, found);
    let all = pool.remaining.filter(|n: Seq<char>| found.contains(n) && pool.active != Some(n))
        + newcomers(pool, found);
    lemma_turns(pool, found);
    lemma_retained_is_filter(pool.remaining, pool, found);
    lemma_newcomers(pool, found, found);
    lemma_admitted_remaining_last(p, found);
    assert(reconciled(pool, found).remaining == all);
    if shuffle::fair_draws(draws, all.len()) {
        let n = choose|n: Seq<char>| has_turn_left(pool, found, n);
        assert(found.contains(n));
        lemma_arranged(pool, found, draws);
        let order = arranged(pool, found, draws);
        assert(order.drop_last().push(order.last()) =~= order);
    }
}

/// What the cycle knows after a selection: in the middle of a cycle what it
/// knew and what still exists, and whatever is new.
pub proof fn law_cycle_knows_all_profiles(
    pool: Pool,
    found: Seq<Seq<char>>,
    draws: Seq<usize>,
    n: Seq<char>,
)
    ensures
        next_pool(pool, found, draws).cycle.contains(n) <==> found.contains(n),
        next_pool(pool, found, draws).active == Some(next_name(pool, found, draws)),
        next_pool(pool, found, draws).last == Some(next_name(pool, found, draws)),
{
    let p = cleaned(pool, found);
    lemma_retained(pool.cycle, found, None);
    lemma_admitted_cycle(p, found);
    assert(p.cycle.contains(n) ==> found.contains(n));
    assert(admitted(p, found).cycle.contains(n) <==> p.cycle.contains(n) || found.contains(n));
}

/// A selection takes one of the profiles that were found, with a turn left
/// where any has one, and changes the state of its own provider only.
pub proof fn law_selection_follows_stored_state(
    provider: Provider,
    profiles: Vec<ValidatedProfile>,
    state: RotationState,
    draws: Vec<usize>,
    r: Result<ProfileSelection, String>,
)
    requires
        provider != Provider::Direct,
        profiles@.len() > 0,
        profile::names(profiles@).no_duplicates(),
        ({
            let count = shuffle_count(
                state.pool(provider).unwrap(),
                profile::names(profiles@),
            );
            count >= 2 ==> shuffle::fair_draws(draws@, count)
        }),
        selects(provider, Ok(profiles), Ok(state), Ok(draws), r),
    ensures
        r matches Ok(s) && {
            let pool = if provider == Provider::NordVpn {
                state.nordvpn@
            } else {
                state.protonvpn@
            };
            let after = if provider == Provider::NordVpn {
                s.proposed_state.nordvpn@
            } else {
                s.proposed_state.protonvpn@
            };
            let found = profile::names(profiles@);
            let name = s.profile@.basename;
            &&& exists|i: int| 0 <= i < profiles@.len() && (#[trigger] profiles@[i])@ == s.profile@
            &&& goes_on(pool, found) ==> has_turn_left(pool, found, name)
            &&& after.active == Some(name) && after.last == Some(name)
            &&& !after.remaining.contains(name)
            &&& provider == Provider::NordVpn ==> s.proposed_state.protonvpn@ == state.protonvpn@
            &&& provider == Provider::ProtonVpn ==> s.proposed_state.nordvpn@ == state.nordvpn@
        },
{
    let found = profile::names(profiles@);
    let pool = state.pool(provider).unwrap();
    let count = shuffle_count(pool, found);
    let d = if count < 2 {
        Seq::<usize>::empty()
    } else {
        draws@
    };
    assert(selects_from(provider, profiles@, state, d, r));
    let s = r->Ok_0;
    let name = next_name(pool, found, d);
    profile::lemma_named(profiles@, name);
    law_selection_is_among_those_with_a_turn(pool, found, d, name);
    assert(s.proposed_state.pool(Provider::NordVpn) == Some(s.proposed_state.nordvpn@));
    assert(s.proposed_state.pool(Provider::ProtonVpn) == Some(s.proposed_state.protonvpn@));
    assert(state.pool(Provider::NordVpn) == Some(state.nordvpn@));
    assert(state.pool(Provider::ProtonVpn) == Some(state.protonvpn@));
}

/// Without profiles, without a state or without a draw that is needed there is
/// no selection, and the first of these reasons is given.
pub proof fn law_failed_selection_says_why(
    provider: Provider,
    discovered: Result<Vec<ValidatedProfile>, String>,
    state: Result<RotationState, String>,
    draws: Result<Vec<usize>, String>,
    r: Result<ProfileSelection, String>,
)
    requires
        provider != Provider::Direct,
        selects(provider, discovered, state, draws, r),
    ensures
        discovered matches Err(reason) ==> (r matches Err(e) && e@ == reason@),
        discovered matches Ok(profiles) ==> (profiles@.len() == 0 ==> (r matches Err(e) && e@
            == "no valid WireGuard profiles were found"@)),
        discovered matches Ok(profiles) ==> (profiles@.len() > 0 ==> (state matches Err(reason) ==> (
        r matches Err(e) && e@ == reason@))),
        (discovered matches Ok(profiles) && profiles@.len() > 0) && state is Ok && draws is Ok
            ==> r is Ok,
{
}

} // verus!
