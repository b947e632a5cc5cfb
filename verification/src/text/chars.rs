use vstd::prelude::*;
use vstd::slice::slice_subrange;

verus! {

/// `String::push`: appends one character to the end of the string.
pub assume_specification[ String::push ](s: &mut String, c: char)
    ensures
        final(s)@ == old(s)@.push(c),
;

/// The characters with the Unicode property `White_Space`.
pub open spec fn is_white_space(c: char) -> bool {
    ||| '\u{9}' <= c <= '\u{d}'
    ||| c == '\u{20}'
    ||| c == '\u{85}'
    ||| c == '\u{a0}'
    ||| c == '\u{1680}'
    ||| '\u{2000}' <= c <= '\u{200a}'
    ||| c == '\u{2028}'
    ||| c == '\u{2029}'
    ||| c == '\u{202f}'
    ||| c == '\u{205f}'
    ||| c == '\u{3000}'
}

pub fn white_space(c: char) -> (r: bool)
    ensures
        r == is_white_space(c),
{
    ('\u{9}' <= c && c <= '\u{d}') || c == '\u{20}' || c == '\u{85}' || c == '\u{a0}'
        || c == '\u{1680}' || ('\u{2000}' <= c && c <= '\u{200a}') || c == '\u{2028}'
        || c == '\u{2029}' || c == '\u{202f}' || c == '\u{205f}' || c == '\u{3000}'
}

pub open spec fn is_digit(c: char) -> bool {
    '0' <= c <= '9'
}

pub fn digit(c: char) -> (r: bool)
    ensures
        r == is_digit(c),
{
    '0' <= c && c <= '9'
}

pub open spec fn is_alphanumeric(c: char) -> bool {
    ||| 'a' <= c <= 'z'
    ||| 'A' <= c <= 'Z'
    ||| '0' <= c <= '9'
}

/// Whether `c` is an ASCII letter or an ASCII digit.
pub fn alphanumeric(c: char) -> (r: bool)
    ensures
        r == is_alphanumeric(c),
{
    ('a' <= c && c <= 'z') || ('A' <= c && c <= 'Z') || ('0' <= c && c <= '9')
}

/// The lower-case letter for an ASCII capital; every other character itself.
pub open spec fn lower_char(c: char) -> char {
    if 'A' <= c <= 'Z' {
        ((c as u32) + 32) as char
    } else {
        c
    }
}

pub open spec fn lower(s: Seq<char>) -> Seq<char> {
    s.map_values(|c: char| lower_char(c))
}

fn lowered(c: char) -> (r: char)
    ensures
        r == lower_char(c),
{
    if 'A' <= c && c <= 'Z' {
        ((c as u8) + 32) as char
    } else {
        c
    }
}

/// The characters of a string.
pub fn chars_of(s: &str) -> (v: Vec<char>)
    ensures
        v@ == s@,
{
    let mut v: Vec<char> = Vec::new();
    for c in it: s.chars()
        invariant
            it.seq() == s@,
            v@ == s@.take(it.index()),
    {
        v.push(c);
        assert(s@.take(it.index() + 1) == s@.take(it.index()).push(s@[it.index()]));
    }
    assert(s@.take(s@.len() as int) == s@);
    v
}

/// The string made of the given characters.
pub fn string_of(c: &[char]) -> (s: String)
    ensures
        s@ == c@,
{
    let mut s = String::new();
    let mut i: usize = 0;
    while i < c.len()
        invariant
            i <= c.len(),
            s@ == c@.take(i as int),
        decreases c.len() - i,
    {
        s.push(c[i]);
        i += 1;
        assert(c@.take(i as int) == c@.take(i - 1).push(c@[i - 1]));
    }
    assert(c@.take(c@.len() as int) == c@);
    s
}

/// ASCII capitals turned into small letters.
pub fn to_lower(c: &[char]) -> (r: Vec<char>)
    ensures
        r@ == lower(c@),
{
    let mut r: Vec<char> = Vec::new();
    let mut i: usize = 0;
    while i < c.len()
        invariant
            i <= c.len(),
            r@ == lower(c@.take(i as int)),
        decreases c.len() - i,
    {
        r.push(lowered(c[i]));
        i += 1;
        assert(lower(c@.take(i as int)) == lower(c@.take(i - 1)).push(lower_char(c@[i - 1])));
    }
    assert(c@.take(c@.len() as int) == c@);
    r
}

/// Whether two runs of characters are the same.
pub fn same(a: &[char], b: &[char]) -> (r: bool)
    ensures
        r == (a@ == b@),
{
    if a.len() != b.len() {
        return false;
    }
    let mut i: usize = 0;
    while i < a.len()
        invariant
            i <= a.len(),
            a.len() == b.len(),
            a@.take(i as int) == b@.take(i as int),
        decreases a.len() - i,
    {
        if a[i] != b[i] {
            assert(a@[i as int] != b@[i as int]);
            return false;
        }
        i += 1;
        assert(a@.take(i as int) == a@.take(i - 1).push(a@[i - 1]));
        assert(b@.take(i as int) == b@.take(i - 1).push(b@[i - 1]));
    }
    assert(a@.take(a@.len() as int) == a@);
    assert(b@.take(b@.len() as int) == b@);
    true
}

/// Whether the characters spell `word`.
pub fn spells(c: &[char], word: &str) -> (r: bool)
    ensures
        r == (c@ == word@),
{
    same(c, chars_of(word).as_slice())
}

/// Whether two strings are the same.
pub fn equal(a: &str, b: &str) -> (r: bool)
    ensures
        r == (a@ == b@),
{
    spells(chars_of(a).as_slice(), b)
}

pub open spec fn begins(s: Seq<char>, prefix: Seq<char>) -> bool {
    prefix.len() <= s.len() && s.take(prefix.len() as int) == prefix
}

pub open spec fn finishes(s: Seq<char>, suffix: Seq<char>) -> bool {
    suffix.len() <= s.len() && s.skip(s.len() - suffix.len()) == suffix
}

/// Whether `word` occurs in `s` at position `at`.
pub open spec fn occurs_at(s: Seq<char>, word: Seq<char>, at: int) -> bool {
    0 <= at && at + word.len() <= s.len() && s.subrange(at, at + word.len()) == word
}

pub open spec fn mentions(s: Seq<char>, word: Seq<char>) -> bool {
    exists|at: int| occurs_at(s, word, at)
}

pub fn starts_with(c: &[char], prefix: &str) -> (r: bool)
    ensures
        r == begins(c@, prefix@),
{
    let p = chars_of(prefix);
    if p.len() > c.len() {
        return false;
    }
    assert(c@.subrange(0, p@.len() as int) == c@.take(p@.len() as int));
    same(slice_subrange(c, 0, p.len()), p.as_slice())
}

pub fn ends_with(c: &[char], suffix: &str) -> (r: bool)
    ensures
        r == finishes(c@, suffix@),
{
    let p = chars_of(suffix);
    if p.len() > c.len() {
        return false;
    }
    assert(c@.subrange(c@.len() - p@.len(), c@.len() as int) == c@.skip(c@.len() - p@.len()));
    same(slice_subrange(c, c.len() - p.len(), c.len()), p.as_slice())
}

/// Whether `word` occurs anywhere in the characters.
pub fn contains(c: &[char], word: &str) -> (r: bool)
    ensures
        r == mentions(c@, word@),
{
    let p = chars_of(word);
    if p.len() > c.len() {
        assert forall|at: int| !occurs_at(c@, word@, at) by {}
        return false;
    }
    let last: usize = c.len() - p.len();
    let mut i: usize = 0;
    while i <= last
        invariant
            p@ == word@,
            last + p.len() == c.len(),
            i <= last + 1,
            forall|at: int| 0 <= at < i ==> !occurs_at(c@, word@, at),
        decreases last + 1 - i,
    {
        if same(slice_subrange(c, i, i + p.len()), p.as_slice()) {
            assert(occurs_at(c@, word@, i as int));
            return true;
        }
        if i == last {
            return false;
        }
        i += 1;
    }
    false
}

pub open spec fn trim_start(s: Seq<char>) -> Seq<char>
    decreases s.len(),
{
    if s.len() > 0 && is_white_space(s[0]) {
        trim_start(s.skip(1))
    } else {
        s
    }
}

pub open spec fn trim_end(s: Seq<char>) -> Seq<char>
    decreases s.len(),
{
    if s.len() > 0 && is_white_space(s.last()) {
        trim_end(s.drop_last())
    } else {
        s
    }
}

/// The text without white space at either end.
pub open spec fn trimmed(s: Seq<char>) -> Seq<char> {
    trim_end(trim_start(s))
}

/// The characters without white space at either end.
pub fn trim(c: &[char]) -> (r: &[char])
    ensures
        r@ == trimmed(c@),
{
    let mut from: usize = 0;
    assert(c@.skip(0) == c@);
    while from < c.len() && white_space(c[from])
        invariant
            from <= c.len(),
            trim_start(c@) == trim_start(c@.skip(from as int)),
        decreases c.len() - from,
    {
        assert(c@.skip(from as int).skip(1) == c@.skip(from + 1));
        from += 1;
    }
    let mut to: usize = c.len();
    assert(c@.subrange(from as int, to as int) == c@.skip(from as int));
    while to > from && white_space(c[to - 1])
        invariant
            from <= to <= c.len(),
            trimmed(c@) == trim_end(c@.subrange(from as int, to as int)),
        decreases to,
    {
        assert(c@.subrange(from as int, to as int).drop_last() == c@.subrange(
            from as int,
            to - 1,
        ));
        to -= 1;
    }
    slice_subrange(c, from, to)
}

/// A text without white space at its ends is trimmed already.
pub proof fn lemma_trimmed(s: Seq<char>)
    requires
        s.len() > 0,
        !is_white_space(s[0]),
        !is_white_space(s.last()),
    ensures
        trimmed(s) == s,
{
}

/// White space behind a trimmed text goes.
pub proof fn lemma_trimmed_tail(s: Seq<char>, tail: Seq<char>)
    requires
        s.len() > 0,
        !is_white_space(s[0]),
        !is_white_space(s.last()),
        forall|i: int| 0 <= i < tail.len() ==> is_white_space(#[trigger] tail[i]),
    ensures
        trimmed(s + tail) == s,
    decreases tail.len(),
{
    let t = s + tail;
    assert(t[0] == s[0]);
    if tail.len() == 0 {
        assert(t =~= s);
    } else {
        assert(t.last() == tail[tail.len() - 1]);
        assert(t.drop_last() =~= s + tail.drop_last());
        lemma_trimmed_tail(s, tail.drop_last());
    }
}

pub open spec fn all_white(s: Seq<char>) -> bool {
    forall|i: int| 0 <= i < s.len() ==> is_white_space(#[trigger] s[i])
}

/// Blanks, tabs and the ends of lines are white space, and so are the blanks
/// of typesetters; nothing that ASCII prints is.
pub proof fn law_white_space(c: char)
    ensures
        c == ' ' || c == '\t' || c == '\n' || c == '\r' || c == '\u{b}' || c == '\u{c}'
            ==> is_white_space(c),
        '!' <= c <= '~' ==> !is_white_space(c),
        c as u32 > 0x7f ==> (is_white_space(c) <==> c as u32 == 0x85 || c as u32 == 0xa0 || c as u32
            == 0x1680 || 0x2000 <= c as u32 <= 0x200a || c as u32 == 0x2028 || c as u32 == 0x2029
            || c as u32 == 0x202f || c as u32 == 0x205f || c as u32 == 0x3000),
{
}

/// Trimming takes white space off both ends, all of it and nothing else.
pub proof fn law_trimmed_is_what_stands_between(lead: Seq<char>, core: Seq<char>, tail: Seq<char>)
    requires
        all_white(lead),
        all_white(tail),
        core.len() > 0 ==> !is_white_space(core[0]) && !is_white_space(core.last()),
    ensures
        trimmed(lead + core + tail) == core,
    decreases lead.len() + tail.len(),
{
    let s = lead + core + tail;
    if lead.len() > 0 {
        assert(s[0] == lead[0]);
        assert(s.skip(1) =~= lead.skip(1) + core + tail);
        law_trimmed_is_what_stands_between(lead.skip(1), core, tail);
    } else if core.len() > 0 {
        assert(s =~= core + tail);
        lemma_trimmed_tail(core, tail);
    } else if tail.len() > 0 {
        assert(s[0] == tail[0]);
        assert(s.skip(1) =~= lead + core + tail.skip(1));
        law_trimmed_is_what_stands_between(lead, core, tail.skip(1));
    } else {
        assert(s =~= core);
    }
}

/// Only white space is lost by trimming, and none is left at either end.
pub proof fn law_trimming_loses_only_white_space(s: Seq<char>) -> (r: (Seq<char>, Seq<char>))
    ensures
        s == r.0 + trimmed(s) + r.1,
        all_white(r.0),
        all_white(r.1),
        trimmed(s).len() > 0 ==> !is_white_space(trimmed(s)[0]) && !is_white_space(
            trimmed(s).last(),
        ),
    decreases s.len(),
{
    if s.len() > 0 && is_white_space(s[0]) {
        let r = law_trimming_loses_only_white_space(s.skip(1));
        let lead = seq![s[0]] + r.0;
        assert(s =~= seq![s[0]] + s.skip(1));
        assert(seq![s[0]] + (r.0 + trimmed(s) + r.1) =~= lead + trimmed(s) + r.1);
        (lead, r.1)
    } else {
        let tail = lemma_trim_end(s);
        assert(s =~= Seq::<char>::empty() + trimmed(s) + tail);
        assert(trimmed(s).len() > 0 ==> trimmed(s)[0] == s[0]);
        (Seq::empty(), tail)
    }
}

proof fn lemma_trim_end(s: Seq<char>) -> (tail: Seq<char>)
    ensures
        s == trim_end(s) + tail,
        all_white(tail),
        trim_end(s).len() > 0 ==> !is_white_space(trim_end(s).last()),
    decreases s.len(),
{
    if s.len() > 0 && is_white_space(s.last()) {
        let t = lemma_trim_end(s.drop_last());
        assert(s =~= s.drop_last().push(s.last()));
        assert((trim_end(s) + t).push(s.last()) =~= trim_end(s) + t.push(s.last()));
        t.push(s.last())
    } else {
        assert(s =~= s + Seq::<char>::empty());
        Seq::empty()
    }
}

/// Small letters stand in for capital ones and nothing else changes.
pub proof fn law_lower_changes_capitals_only(s: Seq<char>, i: int)
    requires
        0 <= i < s.len(),
    ensures
        lower(s).len() == s.len(),
        'A' <= s[i] <= 'Z' ==> lower(s)[i] as int == s[i] as int + ('a' as int - 'A' as int),
        !('A' <= s[i] <= 'Z') ==> lower(s)[i] == s[i],
        lower(lower(s)) == lower(s),
{
    assert(lower(lower(s)) =~= lower(s));
}

/// A text begins and ends with what it was put together from, and mentions it.
pub proof fn law_parts_are_recognised(a: Seq<char>, b: Seq<char>, c: Seq<char>)
    ensures
        begins(a + b, a),
        finishes(a + b, b),
        mentions(a + b + c, b),
{
    assert((a + b).take(a.len() as int) =~= a);
    assert((a + b).skip(a.len() as int) =~= b);
    let s = a + b + c;
    assert(s.subrange(a.len() as int, (a.len() + b.len()) as int) =~= b);
    assert(occurs_at(s, b, a.len() as int));
}

/// What a text begins with, ends with or mentions is in it.
pub proof fn law_recognised_parts_are_there(s: Seq<char>, word: Seq<char>)
    ensures
        begins(s, word) ==> exists|rest: Seq<char>| s == #[trigger] (word + rest),
        finishes(s, word) ==> exists|rest: Seq<char>| s == #[trigger] (rest + word),
        mentions(s, word) ==> exists|a: Seq<char>, b: Seq<char>| s == #[trigger] (a + word + b),
{
    if begins(s, word) {
        assert(s =~= word + s.skip(word.len() as int));
    }
    if finishes(s, word) {
        assert(s =~= s.take(s.len() - word.len()) + word);
    }
    if mentions(s, word) {
        let at = choose|at: int| occurs_at(s, word, at);
        assert(s =~= s.take(at) + word + s.skip(at + word.len()));
    }
}

} // verus!
