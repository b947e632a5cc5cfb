use vstd::prelude::*;

use crate::text::chars;

verus! {

/// The text of an optional string.
pub open spec fn text_of(o: Option<String>) -> Option<Seq<char>> {
    match o {
        Some(s) => Some(s@),
        None => None,
    }
}

/// A text, empty where there is none.
pub open spec fn or_empty(o: Option<Seq<char>>) -> Seq<char> {
    match o {
        Some(s) => s,
        None => Seq::empty(),
    }
}

/// The string, or an empty one where there is none.
pub fn unwrap_text(o: &Option<String>) -> (r: String)
    ensures
        r@ == or_empty(text_of(*o)),
{
    match o {
        Some(s) => s.clone(),
        None => String::new(),
    }
}

/// The texts of several strings.
pub open spec fn texts(v: Seq<String>) -> Seq<Seq<char>> {
    v.map_values(|s: String| s@)
}

/// Whether the list holds the name.
pub fn holds(list: &Vec<String>, name: &str) -> (r: bool)
    ensures
        r == texts(list@).contains(name@),
{
    let ghost t = texts(list@);
    let mut i: usize = 0;
    while i < list.len()
        invariant
            i <= list.len(),
            t == texts(list@),
            forall|j: int| 0 <= j < i ==> t[j] != name@,
        decreases list.len() - i,
    {
        if chars::equal(list[i].as_str(), name) {
            assert(t[i as int] == name@);
            return true;
        }
        i += 1;
    }
    false
}

/// A copy of a list of strings.
pub fn copied(list: &Vec<String>) -> (r: Vec<String>)
    ensures
        texts(r@) == texts(list@),
{
    let mut r: Vec<String> = Vec::new();
    let mut i: usize = 0;
    while i < list.len()
        invariant
            i <= list.len(),
            r@.len() == i,
            forall|j: int| 0 <= j < i ==> (#[trigger] r@[j])@ == list@[j]@,
        decreases list.len() - i,
    {
        r.push(list[i].clone());
        i += 1;
    }
    assert(texts(r@) == texts(list@));
    r
}

pub proof fn lemma_push_contains<T>(s: Seq<T>, x: T, n: T)
    ensures
        s.push(x).contains(n) <==> s.contains(n) || n == x,
{
    let t = s.push(x);
    if t.contains(n) {
        let i = choose|i: int| 0 <= i < t.len() && t[i] == n;
        if i < s.len() {
            assert(s[i] == n);
        }
    }
    if s.contains(n) {
        let i = choose|i: int| 0 <= i < s.len() && s[i] == n;
        assert(t[i] == n);
    }
    assert(t[s.len() as int] == x);
}

} // verus!
