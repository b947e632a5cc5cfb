use vstd::prelude::*;
use vstd::slice::slice_subrange;

use crate::text::chars;

verus! {

/// Where `c` first stands in the text.
pub open spec fn position(s: Seq<char>, c: char) -> Option<int>
    decreases s.len(),
{
    if s.len() == 0 {
        None
    } else if s[0] == c {
        Some(0)
    } else {
        match position(s.skip(1), c) {
            Some(i) => Some(i + 1),
            None => None,
        }
    }
}

/// Where `c` last stands in the text.
pub open spec fn last_position(s: Seq<char>, c: char) -> Option<int>
    decreases s.len(),
{
    if s.len() == 0 {
        None
    } else if s.last() == c {
        Some(s.len() - 1)
    } else {
        last_position(s.drop_last(), c)
    }
}

pub proof fn lemma_position(s: Seq<char>, c: char)
    ensures
        match position(s, c) {
            Some(i) => {
                &&& 0 <= i < s.len()
                &&& s[i] == c
                &&& forall|j: int| 0 <= j < i ==> s[j] != c
            },
            None => forall|j: int| 0 <= j < s.len() ==> s[j] != c,
        },
    decreases s.len(),
{
    if s.len() > 0 && s[0] != c {
        lemma_position(s.skip(1), c);
        match position(s.skip(1), c) {
            Some(i) => {
                assert(s[i + 1] == s.skip(1)[i]);
                assert forall|j: int| 0 <= j < i + 1 implies s[j] != c by {
                    if j > 0 {
                        assert(s.skip(1)[j - 1] == s[j]);
                    }
                }
            },
            None => {
                assert forall|j: int| 0 <= j < s.len() implies s[j] != c by {
                    if j > 0 {
                        assert(s.skip(1)[j - 1] == s[j]);
                    }
                }
            },
        }
    }
}

pub proof fn lemma_position_is(s: Seq<char>, c: char, at: int)
    requires
        0 <= at < s.len(),
        s[at] == c,
        forall|j: int| 0 <= j < at ==> s[j] != c,
    ensures
        position(s, c) == Some(at),
{
    lemma_position(s, c);
    let i = position(s, c).unwrap();
    if i < at {
        assert(s[i] != c);
    }
}

pub proof fn lemma_position_absent(s: Seq<char>, c: char)
    requires
        forall|j: int| 0 <= j < s.len() ==> s[j] != c,
    ensures
        position(s, c) is None,
{
    lemma_position(s, c);
}

pub proof fn lemma_last_position(s: Seq<char>, c: char)
    ensures
        match last_position(s, c) {
            Some(i) => {
                &&& 0 <= i < s.len()
                &&& s[i] == c
                &&& forall|j: int| i < j < s.len() ==> s[j] != c
            },
            None => forall|j: int| 0 <= j < s.len() ==> s[j] != c,
        },
    decreases s.len(),
{
    if s.len() > 0 && s.last() != c {
        let t = s.drop_last();
        lemma_last_position(t, c);
        assert forall|j: int| 0 <= j < t.len() implies t[j] == s[j] by {}
        match last_position(t, c) {
            Some(i) => {
                assert forall|j: int| i < j < s.len() implies s[j] != c by {
                    if j < t.len() {
                        assert(t[j] != c);
                    }
                }
            },
            None => {
                assert forall|j: int| 0 <= j < s.len() implies s[j] != c by {
                    if j < t.len() {
                        assert(t[j] != c);
                    }
                }
            },
        }
    }
}

pub proof fn lemma_last_position_is(s: Seq<char>, c: char, at: int)
    requires
        0 <= at < s.len(),
        s[at] == c,
        forall|j: int| at < j < s.len() ==> s[j] != c,
    ensures
        last_position(s, c) == Some(at),
{
    lemma_last_position(s, c);
}

/// Finds the first place where `c` stands.
pub fn find(s: &[char], c: char) -> (r: Option<usize>)
    ensures
        match r {
            Some(i) => position(s@, c) == Some(i as int) && i < s.len(),
            None => position(s@, c) is None,
        },
{
    let mut i: usize = 0;
    while i < s.len()
        invariant
            i <= s.len(),
            forall|j: int| 0 <= j < i ==> s@[j] != c,
        decreases s.len() - i,
    {
        if s[i] == c {
            proof {
                lemma_position_is(s@, c, i as int);
            }
            return Some(i);
        }
        i += 1;
    }
    proof {
        lemma_position_absent(s@, c);
    }
    None
}

/// Finds the last place where `c` stands.
pub fn find_last(s: &[char], c: char) -> (r: Option<usize>)
    ensures
        match r {
            Some(i) => last_position(s@, c) == Some(i as int) && i < s.len(),
            None => last_position(s@, c) is None,
        },
{
    let mut i: usize = s.len();
    while i > 0
        invariant
            i <= s.len(),
            forall|j: int| i <= j < s.len() ==> s@[j] != c,
        decreases i,
    {
        i -= 1;
        if s[i] == c {
            proof {
                lemma_last_position_is(s@, c, i as int);
            }
            return Some(i);
        }
    }
    proof {
        lemma_last_position(s@, c);
    }
    None
}

/// The text before and after the first `c`.
pub open spec fn cut(s: Seq<char>, c: char) -> Option<(Seq<char>, Seq<char>)> {
    match position(s, c) {
        Some(i) => Some((s.take(i), s.skip(i + 1))),
        None => None,
    }
}

/// The text before and after the last `c`.
pub open spec fn cut_last(s: Seq<char>, c: char) -> Option<(Seq<char>, Seq<char>)> {
    match last_position(s, c) {
        Some(i) => Some((s.take(i), s.skip(i + 1))),
        None => None,
    }
}

/// Splits at the first `c`.
pub fn split_once(s: &[char], c: char) -> (r: Option<(&[char], &[char])>)
    ensures
        match r {
            Some(p) => cut(s@, c) == Some((p.0@, p.1@)),
            None => cut(s@, c) is None,
        },
{
    match find(s, c) {
        Some(i) => {
            assert(s@.subrange(0, i as int) == s@.take(i as int));
            assert(s@.subrange(i + 1, s@.len() as int) == s@.skip(i + 1));
            Some((slice_subrange(s, 0, i), slice_subrange(s, i + 1, s.len())))
        },
        None => None,
    }
}

/// Splits at the last `c`.
pub fn rsplit_once(s: &[char], c: char) -> (r: Option<(&[char], &[char])>)
    ensures
        match r {
            Some(p) => cut_last(s@, c) == Some((p.0@, p.1@)),
            None => cut_last(s@, c) is None,
        },
{
    match find_last(s, c) {
        Some(i) => {
            assert(s@.subrange(0, i as int) == s@.take(i as int));
            assert(s@.subrange(i + 1, s@.len() as int) == s@.skip(i + 1));
            Some((slice_subrange(s, 0, i), slice_subrange(s, i + 1, s.len())))
        },
        None => None,
    }
}

/// The pieces of a text between separators; there is always at least one.
pub open spec fn pieces(s: Seq<char>, sep: char) -> Seq<Seq<char>>
    decreases s.len(),
    via pieces_decreases
{
    match position(s, sep) {
        Some(i) => seq![s.take(i)] + pieces(s.skip(i + 1), sep),
        None => seq![s],
    }
}

#[via_fn]
proof fn pieces_decreases(s: Seq<char>, sep: char) {
    lemma_position(s, sep);
}

/// At most `n` pieces: the last one holds the rest of the text, separators
/// and all.
pub open spec fn first_pieces(s: Seq<char>, n: nat, sep: char) -> Seq<Seq<char>>
    decreases n,
{
    match position(s, sep) {
        Some(i) => if n <= 1 {
            seq![s]
        } else {
            seq![s.take(i)] + first_pieces(s.skip(i + 1), (n - 1) as nat, sep)
        },
        None => seq![s],
    }
}

/// The text of each of several runs of characters.
pub open spec fn runs(v: Seq<Vec<char>>) -> Seq<Seq<char>> {
    v.map_values(|p: Vec<char>| p@)
}

pub fn owned(s: &[char]) -> (v: Vec<char>)
    ensures
        v@ == s@,
{
    let mut v: Vec<char> = Vec::new();
    let mut i: usize = 0;
    while i < s.len()
        invariant
            i <= s.len(),
            v@ == s@.take(i as int),
        decreases s.len() - i,
    {
        v.push(s[i]);
        i += 1;
        assert(s@.take(i as int) == s@.take(i - 1).push(s@[i - 1]));
    }
    assert(s@.take(s@.len() as int) == s@);
    v
}

/// Splits at every separator.
pub fn split(s: &[char], sep: char) -> (r: Vec<Vec<char>>)
    ensures
        runs(r@) == pieces(s@, sep),
{
    let mut r: Vec<Vec<char>> = Vec::new();
    let mut from: usize = 0;
    assert(s@.skip(0) == s@);
    assert(runs(r@) + pieces(s@, sep) == pieces(s@, sep));
    loop
        invariant
            from <= s.len(),
            runs(r@) + pieces(s@.skip(from as int), sep) == pieces(s@, sep),
        decreases s.len() - from,
    {
        let rest = slice_subrange(s, from, s.len());
        assert(rest@ == s@.skip(from as int));
        let ghost before = runs(r@);
        match find(rest, sep) {
            Some(i) => {
                let piece = slice_subrange(rest, 0, i);
                assert(piece@ == rest@.take(i as int));
                r.push(owned(piece));
                assert(runs(r@) == before.push(piece@));
                assert(rest@.skip(i + 1) == s@.skip(from + i + 1));
                assert(before + (seq![piece@] + pieces(s@.skip(from + i + 1), sep)) == before.push(
                    piece@,
                ) + pieces(s@.skip(from + i + 1), sep));
                from = from + i + 1;
            },
            None => {
                r.push(owned(rest));
                assert(runs(r@) == before.push(rest@));
                assert(before + seq![rest@] == before.push(rest@));
                return r;
            },
        }
    }
}

/// Splits into at most `n` pieces.
pub fn splitn(s: &[char], n: usize, sep: char) -> (r: Vec<Vec<char>>)
    ensures
        runs(r@) == first_pieces(s@, n as nat, sep),
{
    let mut r: Vec<Vec<char>> = Vec::new();
    let mut from: usize = 0;
    let mut left: usize = n;
    assert(s@.skip(0) == s@);
    assert(runs(r@) + first_pieces(s@, n as nat, sep) == first_pieces(s@, n as nat, sep));
    loop
        invariant
            from <= s.len(),
            runs(r@) + first_pieces(s@.skip(from as int), left as nat, sep) == first_pieces(
                s@,
                n as nat,
                sep,
            ),
        decreases left,
    {
        let rest = slice_subrange(s, from, s.len());
        assert(rest@ == s@.skip(from as int));
        let ghost before = runs(r@);
        let found = find(rest, sep);
        if left > 1 && found.is_some() {
            let i: usize = found.unwrap();
            let piece = slice_subrange(rest, 0, i);
            assert(piece@ == rest@.take(i as int));
            r.push(owned(piece));
            assert(runs(r@) == before.push(piece@));
            assert(rest@.skip(i + 1) == s@.skip(from + i + 1));
            assert(before + (seq![piece@] + first_pieces(
                s@.skip(from + i + 1),
                (left - 1) as nat,
                sep,
            )) == before.push(piece@) + first_pieces(
                s@.skip(from + i + 1),
                (left - 1) as nat,
                sep,
            ));
            from = from + i + 1;
            left -= 1;
        } else {
            r.push(owned(rest));
            assert(runs(r@) == before.push(rest@));
            assert(before + seq![rest@] == before.push(rest@));
            return r;
        }
    }
}

/// A line without the carriage return that may end it.
pub open spec fn without_return(s: Seq<char>) -> Seq<char> {
    if s.len() > 0 && s.last() == '\r' {
        s.drop_last()
    } else {
        s
    }
}

/// The lines of a text. A line ends at a line feed, which may follow a
/// carriage return; nothing after the last line feed is no line.
pub open spec fn lines_of(s: Seq<char>) -> Seq<Seq<char>>
    decreases s.len(),
    via lines_of_decreases
{
    if s.len() == 0 {
        Seq::empty()
    } else {
        match position(s, '\n') {
            Some(i) => seq![without_return(s.take(i))] + lines_of(s.skip(i + 1)),
            None => seq![s],
        }
    }
}

#[via_fn]
proof fn lines_of_decreases(s: Seq<char>) {
    lemma_position(s, '\n');
}

/// Splits a text into its lines.
pub fn lines(s: &[char]) -> (r: Vec<Vec<char>>)
    ensures
        runs(r@) == lines_of(s@),
{
    let mut r: Vec<Vec<char>> = Vec::new();
    let mut from: usize = 0;
    assert(s@.skip(0) == s@);
    assert(runs(r@) + lines_of(s@) == lines_of(s@));
    while from < s.len()
        invariant
            from <= s.len(),
            runs(r@) + lines_of(s@.skip(from as int)) == lines_of(s@),
        decreases s.len() - from,
    {
        let rest = slice_subrange(s, from, s.len());
        assert(rest@ == s@.skip(from as int));
        let ghost before = runs(r@);
        match find(rest, '\n') {
            Some(i) => {
                let mut end: usize = i;
                if i > 0 && rest[i - 1] == '\r' {
                    end = i - 1;
                }
                let piece = slice_subrange(rest, 0, end);
                if i > 0 {
                    assert(rest@.take(i as int).drop_last() == rest@.subrange(0, i - 1));
                }
                assert(rest@.take(i as int) == rest@.subrange(0, i as int));
                assert(piece@ == without_return(rest@.take(i as int)));
                r.push(owned(piece));
                assert(runs(r@) == before.push(piece@));
                assert(rest@.skip(i + 1) == s@.skip(from + i + 1));
                assert(before + (seq![piece@] + lines_of(s@.skip(from + i + 1))) == before.push(
                    piece@,
                ) + lines_of(s@.skip(from + i + 1)));
                from = from + i + 1;
            },
            None => {
                r.push(owned(rest));
                assert(runs(r@) == before.push(rest@));
                assert(before + seq![rest@] == before.push(rest@));
                return r;
            },
        }
    }
    assert(s@.skip(from as int).len() == 0);
    assert(runs(r@) + Seq::<Seq<char>>::empty() == runs(r@));
    r
}

/// The words of a text: its longest runs without white space.
pub open spec fn words_of(s: Seq<char>) -> Seq<Seq<char>>
    decreases s.len(),
    via words_of_decreases
{
    let t = chars::trim_start(s);
    if t.len() == 0 {
        Seq::empty()
    } else {
        let n = word_length(t);
        seq![t.take(n)] + words_of(t.skip(n))
    }
}

/// How many characters stand before the first white space.
pub open spec fn word_length(s: Seq<char>) -> int
    decreases s.len(),
{
    if s.len() == 0 || chars::is_white_space(s[0]) {
        0
    } else {
        1 + word_length(s.skip(1))
    }
}

pub proof fn lemma_trim_start(s: Seq<char>)
    ensures
        chars::trim_start(s).len() <= s.len(),
        chars::trim_start(s) == s.skip(s.len() - chars::trim_start(s).len()),
        chars::trim_start(s).len() > 0 ==> !chars::is_white_space(chars::trim_start(s)[0]),
    decreases s.len(),
{
    if s.len() > 0 && chars::is_white_space(s[0]) {
        lemma_trim_start(s.skip(1));
        let t = chars::trim_start(s.skip(1));
        assert(s.skip(1).skip(s.skip(1).len() - t.len()) == s.skip(s.len() - t.len()));
    } else {
        assert(s.skip(0) == s);
    }
}

pub proof fn lemma_word_length(s: Seq<char>)
    ensures
        0 <= word_length(s) <= s.len(),
        s.len() > 0 && !chars::is_white_space(s[0]) ==> word_length(s) > 0,
    decreases s.len(),
{
    if s.len() > 0 && !chars::is_white_space(s[0]) {
        lemma_word_length(s.skip(1));
    }
}

#[via_fn]
proof fn words_of_decreases(s: Seq<char>) {
    lemma_trim_start(s);
    lemma_word_length(chars::trim_start(s));
}

/// Splits a text at white space.
pub fn words(s: &[char]) -> (r: Vec<Vec<char>>)
    ensures
        runs(r@) == words_of(s@),
{
    let mut r: Vec<Vec<char>> = Vec::new();
    let mut from: usize = 0;
    assert(s@.skip(0) == s@);
    assert(runs(r@) + words_of(s@) == words_of(s@));
    loop
        invariant
            from <= s.len(),
            runs(r@) + words_of(s@.skip(from as int)) == words_of(s@),
        decreases s.len() - from,
    {
        let ghost rest = s@.skip(from as int);
        let mut start: usize = from;
        assert(s@.skip(start as int) == rest);
        while start < s.len() && chars::white_space(s[start])
            invariant
                from <= start <= s.len(),
                chars::trim_start(rest) == chars::trim_start(s@.skip(start as int)),
            decreases s.len() - start,
        {
            assert(s@.skip(start as int).skip(1) == s@.skip(start + 1));
            start += 1;
        }
        let ghost t = s@.skip(start as int);
        assert(chars::trim_start(rest) == t);
        let ghost before = runs(r@);
        if start == s.len() {
            assert(t.len() == 0);
            assert(runs(r@) + Seq::<Seq<char>>::empty() == runs(r@));
            return r;
        }
        let mut end: usize = start;
        assert(t == s@.skip(end as int));
        while end < s.len() && !chars::white_space(s[end])
            invariant
                start <= end <= s.len(),
                word_length(t) == end - start + word_length(s@.skip(end as int)),
            decreases s.len() - end,
        {
            assert(s@.skip(end as int).skip(1) == s@.skip(end + 1));
            end += 1;
        }
        assert(word_length(s@.skip(end as int)) == 0);
        let piece = slice_subrange(s, start, end);
        assert(piece@ == t.take(end - start));
        r.push(owned(piece));
        assert(runs(r@) == before.push(piece@));
        assert(t.skip(end - start) == s@.skip(end as int));
        assert(before + (seq![piece@] + words_of(s@.skip(end as int))) == before.push(piece@)
            + words_of(s@.skip(end as int)));
        assert(end > start) by {
            lemma_word_length(t);
        }
        from = end;
    }
}

/// Where `a` directly followed by `b` first stands.
pub open spec fn pair_position(s: Seq<char>, a: char, b: char) -> Option<int>
    decreases s.len(),
{
    if s.len() < 2 {
        None
    } else if s[0] == a && s[1] == b {
        Some(0)
    } else {
        match pair_position(s.skip(1), a, b) {
            Some(i) => Some(i + 1),
            None => None,
        }
    }
}

/// The text before and after the first `a` with `b` behind it.
pub open spec fn cut_pair(s: Seq<char>, a: char, b: char) -> Option<(Seq<char>, Seq<char>)> {
    match pair_position(s, a, b) {
        Some(i) => Some((s.take(i), s.skip(i + 2))),
        None => None,
    }
}

/// Splits at the first `a` with `b` behind it.
pub fn split_pair(s: &[char], a: char, b: char) -> (r: Option<(&[char], &[char])>)
    ensures
        match r {
            Some(p) => cut_pair(s@, a, b) == Some((p.0@, p.1@)),
            None => cut_pair(s@, a, b) is None,
        },
{
    let mut i: usize = 0;
    assert(s@.skip(0) == s@);
    while s.len() - i >= 2
        invariant
            i <= s.len(),
            match pair_position(s@.skip(i as int), a, b) {
                Some(k) => pair_position(s@, a, b) == Some(k + i),
                None => pair_position(s@, a, b) is None,
            },
        decreases s.len() - i,
    {
        if s[i] == a && s[i + 1] == b {
            assert(pair_position(s@.skip(i as int), a, b) == Some(0int));
            assert(s@.subrange(0, i as int) == s@.take(i as int));
            assert(s@.subrange(i + 2, s@.len() as int) == s@.skip(i + 2));
            return Some((slice_subrange(s, 0, i), slice_subrange(s, i + 2, s.len())));
        }
        assert(s@.skip(i as int).skip(1) == s@.skip(i + 1));
        i += 1;
    }
    None
}

/// A text cut at its first separator.
pub proof fn lemma_cut(before: Seq<char>, sep: char, rest: Seq<char>)
    requires
        forall|j: int| 0 <= j < before.len() ==> before[j] != sep,
    ensures
        cut(before.push(sep) + rest, sep) == Some((before, rest)),
        forall|n: nat|
            n > 1 ==> #[trigger] first_pieces(before.push(sep) + rest, n, sep) == seq![before]
                + first_pieces(rest, (n - 1) as nat, sep),
{
    let s = before.push(sep) + rest;
    lemma_position_is(s, sep, before.len() as int);
    assert(s.take(before.len() as int) =~= before);
    assert(s.skip(before.len() as int + 1) =~= rest);
}

/// Parts with a separator between every two of them.
pub open spec fn joined(parts: Seq<Seq<char>>, sep: char) -> Seq<char>
    decreases parts.len(),
{
    if parts.len() == 0 {
        Seq::empty()
    } else if parts.len() == 1 {
        parts[0]
    } else {
        parts[0].push(sep) + joined(parts.skip(1), sep)
    }
}

/// Whether a character stands nowhere in a text.
pub open spec fn lacks(s: Seq<char>, c: char) -> bool {
    forall|j: int| 0 <= j < s.len() ==> #[trigger] s[j] != c
}

/// Splitting undoes joining, as long as no part holds the separator.
pub proof fn law_joined_parts_split_again(parts: Seq<Seq<char>>, sep: char)
    requires
        parts.len() > 0,
        forall|i: int| 0 <= i < parts.len() ==> lacks(#[trigger] parts[i], sep),
    ensures
        pieces(joined(parts, sep), sep) == parts,
    decreases parts.len(),
{
    let s = joined(parts, sep);
    assert(lacks(parts[0], sep));
    if parts.len() == 1 {
        lemma_position_absent(s, sep);
        assert(parts =~= seq![parts[0]]);
    } else {
        let rest = parts.skip(1);
        assert forall|i: int| 0 <= i < rest.len() implies lacks(#[trigger] rest[i], sep) by {
            assert(rest[i] == parts[i + 1]);
        }
        law_joined_parts_split_again(rest, sep);
        lemma_position_is(s, sep, parts[0].len() as int);
        assert(s.take(parts[0].len() as int) =~= parts[0]);
        assert(s.skip(parts[0].len() as int + 1) =~= joined(rest, sep));
        assert(parts =~= seq![parts[0]] + rest);
    }
}

/// Joining undoes splitting, and no piece holds the separator.
pub proof fn law_pieces_join_again(s: Seq<char>, sep: char)
    ensures
        pieces(s, sep).len() > 0,
        joined(pieces(s, sep), sep) == s,
        forall|i: int| 0 <= i < pieces(s, sep).len() ==> lacks(#[trigger] pieces(s, sep)[i], sep),
    decreases s.len(),
{
    let p = pieces(s, sep);
    lemma_position(s, sep);
    match position(s, sep) {
        Some(at) => {
            let rest = s.skip(at + 1);
            law_pieces_join_again(rest, sep);
            let q = pieces(rest, sep);
            assert(p.skip(1) =~= q);
            assert(p[0] == s.take(at));
            assert(s =~= s.take(at).push(sep) + rest);
            assert forall|i: int| 0 <= i < p.len() implies lacks(#[trigger] p[i], sep) by {
                if i > 0 {
                    assert(p[i] == q[i - 1]);
                }
            }
        },
        None => {},
    }
}

/// A text is cut where the separator first stands, and only there.
pub proof fn law_cut_is_at_first(s: Seq<char>, c: char)
    ensures
        match cut(s, c) {
            Some((before, after)) => s == before.push(c) + after && lacks(before, c),
            None => lacks(s, c),
        },
{
    lemma_position(s, c);
    match position(s, c) {
        Some(i) => {
            assert(s =~= s.take(i).push(c) + s.skip(i + 1));
        },
        None => {},
    }
}

/// A text is cut where the separator last stands, and only there.
pub proof fn law_cut_last_is_at_last(s: Seq<char>, c: char)
    ensures
        match cut_last(s, c) {
            Some((before, after)) => s == before.push(c) + after && lacks(after, c),
            None => lacks(s, c),
        },
{
    lemma_last_position(s, c);
    match last_position(s, c) {
        Some(i) => {
            assert(s =~= s.take(i).push(c) + s.skip(i + 1));
        },
        None => {},
    }
}

pub proof fn lemma_cut_last(before: Seq<char>, sep: char, rest: Seq<char>)
    requires
        lacks(rest, sep),
    ensures
        cut_last(before.push(sep) + rest, sep) == Some((before, rest)),
{
    let s = before.push(sep) + rest;
    let at = before.len() as int;
    assert forall|j: int| at < j < s.len() implies s[j] != sep by {
        assert(s[j] == rest[j - at - 1]);
    }
    lemma_last_position_is(s, sep, at);
    assert(s.take(at) =~= before);
    assert(s.skip(at + 1) =~= rest);
}

/// The first pieces join to the whole text again; there are no more than were
/// asked for, and fewer only where the separators gave out. None but the last
/// holds a separator.
pub proof fn law_first_pieces_join_again(s: Seq<char>, n: nat, sep: char)
    requires
        n > 0,
    ensures
        0 < first_pieces(s, n, sep).len() <= n,
        joined(first_pieces(s, n, sep), sep) == s,
        forall|i: int|
            0 <= i < first_pieces(s, n, sep).len() - 1 ==> lacks(
                #[trigger] first_pieces(s, n, sep)[i],
                sep,
            ),
        first_pieces(s, n, sep).len() < n ==> lacks(first_pieces(s, n, sep).last(), sep),
    decreases n,
{
    let p = first_pieces(s, n, sep);
    lemma_position(s, sep);
    match position(s, sep) {
        Some(at) => {
            if n > 1 {
                let rest = s.skip(at + 1);
                law_first_pieces_join_again(rest, (n - 1) as nat, sep);
                let q = first_pieces(rest, (n - 1) as nat, sep);
                assert(p.skip(1) =~= q);
                assert(p[0] == s.take(at));
                assert(p.last() == q.last());
                assert(s =~= s.take(at).push(sep) + rest);
                assert forall|i: int| 0 <= i < p.len() - 1 implies lacks(#[trigger] p[i], sep) by {
                    if i > 0 {
                        assert(p[i] == q[i - 1]);
                    }
                }
            }
        },
        None => {},
    }
}

/// A text cut where two characters first stand side by side.
pub proof fn lemma_cut_pair(before: Seq<char>, a: char, b: char, rest: Seq<char>)
    requires
        forall|j: int|
            0 <= j < before.len() ==> !(#[trigger] before[j] == a && (before + seq![a, b])[j + 1]
                == b),
    ensures
        cut_pair(before + seq![a, b] + rest, a, b) == Some((before, rest)),
{
    let s = before + seq![a, b] + rest;
    lemma_pair_position_is(s, a, b, before.len() as int);
    assert(s.take(before.len() as int) =~= before);
    assert(s.skip(before.len() as int + 2) =~= rest);
}

pub proof fn lemma_pair_position_is(s: Seq<char>, a: char, b: char, at: int)
    requires
        0 <= at < s.len() - 1,
        s[at] == a,
        s[at + 1] == b,
        forall|j: int| 0 <= j < at ==> !(#[trigger] s[j] == a && s[j + 1] == b),
    ensures
        pair_position(s, a, b) == Some(at),
    decreases s.len(),
{
    if at > 0 {
        assert(!(s[0] == a && s[1] == b));
        let t = s.skip(1);
        assert forall|j: int| 0 <= j < at - 1 implies !(#[trigger] t[j] == a && t[j + 1] == b) by {
            assert(t[j] == s[j + 1]);
            assert(t[j + 1] == s[j + 2]);
        }
        lemma_pair_position_is(t, a, b, at - 1);
    }
}

pub proof fn lemma_pair_position_absent(s: Seq<char>, a: char, b: char)
    requires
        forall|j: int| 0 <= j < s.len() - 1 ==> !(#[trigger] s[j] == a && s[j + 1] == b),
    ensures
        pair_position(s, a, b) is None,
    decreases s.len(),
{
    if s.len() >= 2 {
        assert(!(s[0] == a && s[1] == b));
        let t = s.skip(1);
        assert forall|j: int| 0 <= j < t.len() - 1 implies !(#[trigger] t[j] == a && t[j + 1]
            == b) by {
            assert(t[j] == s[j + 1]);
            assert(t[j + 1] == s[j + 2]);
        }
        lemma_pair_position_absent(t, a, b);
    }
}

/// Lines with an end of line behind each.
pub open spec fn ended(lines: Seq<Seq<char>>, end: Seq<char>) -> Seq<char>
    decreases lines.len(),
{
    if lines.len() == 0 {
        Seq::empty()
    } else {
        lines[0] + end + ended(lines.skip(1), end)
    }
}

/// A line that the end of a line cannot be mistaken in.
pub open spec fn is_plain_line(line: Seq<char>) -> bool {
    lacks(line, '\n') && lacks(line, '\r')
}

/// Lines are found again whether they end in a line feed or in a carriage
/// return and a line feed, and the end of the last line opens no other.
pub proof fn law_lines_are_found_again(lines: Seq<Seq<char>>, windows: bool)
    requires
        forall|i: int| 0 <= i < lines.len() ==> is_plain_line(#[trigger] lines[i]),
    ensures
        lines_of(
            ended(
                lines,
                if windows {
                    seq!['\r', '\n']
                } else {
                    seq!['\n']
                },
            ),
        ) == lines,
    decreases lines.len(),
{
    let end = if windows {
        seq!['\r', '\n']
    } else {
        seq!['\n']
    };
    let s = ended(lines, end);
    if lines.len() == 0 {
        assert(lines =~= Seq::empty());
    } else {
        let rest = lines.skip(1);
        assert forall|i: int| 0 <= i < rest.len() implies is_plain_line(#[trigger] rest[i]) by {
            assert(rest[i] == lines[i + 1]);
        }
        law_lines_are_found_again(rest, windows);
        let first = lines[0];
        assert(is_plain_line(first));
        let at = first.len() + end.len() - 1;
        assert(s[at] == '\n');
        assert forall|j: int| 0 <= j < at implies s[j] != '\n' by {
            if j < first.len() {
                assert(s[j] == first[j]);
            }
        }
        lemma_position_is(s, '\n', at);
        assert(s.skip(at + 1) =~= ended(rest, end));
        let line = s.take(at);
        if windows {
            assert(line =~= first.push('\r'));
            assert(line.drop_last() =~= first);
        } else {
            assert(line =~= first);
            if first.len() > 0 {
                assert(first[first.len() - 1] != '\r');
            }
        }
        assert(lines =~= seq![first] + rest);
    }
}

/// A run of characters without white space is one word, whatever white space
/// stands around it.
pub proof fn law_words_stand_between_white_space(
    lead: Seq<char>,
    word: Seq<char>,
    rest: Seq<char>,
)
    requires
        forall|i: int| 0 <= i < lead.len() ==> chars::is_white_space(#[trigger] lead[i]),
        forall|i: int| 0 <= i < word.len() ==> !chars::is_white_space(#[trigger] word[i]),
        word.len() > 0,
        rest.len() > 0 ==> chars::is_white_space(rest[0]),
    ensures
        words_of(lead + word + rest) == seq![word] + words_of(rest),
    decreases lead.len() + word.len(),
{
    lemma_leading_space(lead, word + rest);
    assert(lead + word + rest =~= lead + (word + rest));
    lemma_word_end(word, rest);
    let t = word + rest;
    assert(chars::trim_start(t) == t);
    assert(t.take(word.len() as int) =~= word);
    assert(t.skip(word.len() as int) =~= rest);
}

proof fn lemma_leading_space(lead: Seq<char>, t: Seq<char>)
    requires
        forall|i: int| 0 <= i < lead.len() ==> chars::is_white_space(#[trigger] lead[i]),
    ensures
        chars::trim_start(lead + t) == chars::trim_start(t),
    decreases lead.len(),
{
    if lead.len() == 0 {
        assert(lead + t =~= t);
    } else {
        let s = lead + t;
        assert(s[0] == lead[0]);
        assert(s.skip(1) =~= lead.skip(1) + t);
        lemma_leading_space(lead.skip(1), t);
    }
}

proof fn lemma_word_end(word: Seq<char>, rest: Seq<char>)
    requires
        forall|i: int| 0 <= i < word.len() ==> !chars::is_white_space(#[trigger] word[i]),
        rest.len() > 0 ==> chars::is_white_space(rest[0]),
    ensures
        word_length(word + rest) == word.len(),
    decreases word.len(),
{
    let s = word + rest;
    if word.len() > 0 {
        assert(s[0] == word[0]);
        assert(s.skip(1) =~= word.skip(1) + rest);
        lemma_word_end(word.skip(1), rest);
    } else {
        assert(s =~= rest);
    }
}

pub proof fn lemma_pair_position(s: Seq<char>, a: char, b: char)
    ensures
        match pair_position(s, a, b) {
            Some(i) => 0 <= i < s.len() - 1 && s[i] == a && s[i + 1] == b,
            None => forall|j: int| 0 <= j < s.len() - 1 ==> !(#[trigger] s[j] == a && s[j + 1] == b),
        },
    decreases s.len(),
{
    if s.len() >= 2 && !(s[0] == a && s[1] == b) {
        let t = s.skip(1);
        lemma_pair_position(t, a, b);
        match pair_position(t, a, b) {
            Some(i) => {
                assert(t[i] == s[i + 1]);
                assert(t[i + 1] == s[i + 2]);
            },
            None => {
                assert forall|j: int| 0 <= j < s.len() - 1 implies !(#[trigger] s[j] == a && s[j + 1]
                    == b) by {
                    if j > 0 {
                        assert(t[j - 1] == s[j]);
                        assert(t[j - 1 + 1] == s[j + 1]);
                    }
                }
            },
        }
    }
}

/// One carriage return belongs to the end of a line and no more than one; a
/// last line without an end counts as it is, and an empty one not at all.
pub proof fn law_lines_end_at_line_feeds(first: Seq<char>, rest: Seq<char>)
    requires
        lacks(first, '\n'),
    ensures
        lines_of(first + seq!['\r', '\n'] + rest) == seq![first] + lines_of(rest),
        first.len() == 0 || first.last() != '\r' ==> lines_of(first + seq!['\n'] + rest) == seq![
            first,
        ] + lines_of(rest),
        first.len() > 0 ==> lines_of(first) == seq![first],
        lines_of(Seq::empty()) == Seq::<Seq<char>>::empty(),
{
    let a = first + seq!['\r', '\n'] + rest;
    let n = first.len() as int;
    assert(a[n + 1] == '\n');
    assert forall|j: int| 0 <= j < n + 1 implies a[j] != '\n' by {
        if j < n {
            assert(a[j] == first[j]);
        }
    }
    lemma_position_is(a, '\n', n + 1);
    assert(a.take(n + 1) =~= first.push('\r'));
    assert(first.push('\r').drop_last() =~= first);
    assert(a.skip(n + 2) =~= rest);
    let b = first + seq!['\n'] + rest;
    assert(b[n] == '\n');
    assert forall|j: int| 0 <= j < n implies b[j] != '\n' by {
        assert(b[j] == first[j]);
    }
    lemma_position_is(b, '\n', n);
    assert(b.take(n) =~= first);
    assert(b.skip(n + 1) =~= rest);
    lemma_position_absent(first, '\n');
}

} // verus!
