use vstd::prelude::*;

use crate::text::chars;

verus! {

pub open spec fn digit_value(c: char) -> int {
    c as u32 - '0' as u32
}

pub open spec fn all_digits(s: Seq<char>) -> bool {
    forall|i: int| 0 <= i < s.len() ==> chars::is_digit(#[trigger] s[i])
}

/// The number that a run of decimal digits denotes.
pub open spec fn decimal_value(s: Seq<char>) -> int
    decreases s.len(),
{
    if s.len() == 0 {
        0
    } else {
        10 * decimal_value(s.drop_last()) + digit_value(s.last())
    }
}

/// The digits behind an optional plus sign.
pub open spec fn unsigned_digits(s: Seq<char>) -> Seq<char> {
    if s.len() > 0 && s[0] == '+' {
        s.skip(1)
    } else {
        s
    }
}

/// What an unsigned number of at most `max` reads as: at least one decimal
/// digit, with or without a plus sign in front.
pub open spec fn unsigned(s: Seq<char>, max: int) -> Option<int> {
    let d = unsigned_digits(s);
    if d.len() > 0 && all_digits(d) && decimal_value(d) <= max {
        Some(decimal_value(d))
    } else {
        None
    }
}

/// What a signed 32-bit number reads as.
pub open spec fn signed(s: Seq<char>) -> Option<int> {
    let negative = s.len() > 0 && s[0] == '-';
    let d = if negative {
        s.skip(1)
    } else {
        unsigned_digits(s)
    };
    let v = if negative {
        -decimal_value(d)
    } else {
        decimal_value(d)
    };
    if d.len() > 0 && all_digits(d) && i32::MIN <= v <= i32::MAX {
        Some(v)
    } else {
        None
    }
}

pub proof fn lemma_decimal_value_grows(s: Seq<char>, n: int)
    requires
        all_digits(s),
        0 <= n <= s.len(),
    ensures
        0 <= decimal_value(s.take(n)) <= decimal_value(s),
    decreases s.len(),
{
    if n == s.len() {
        assert(s.take(n) == s);
        lemma_decimal_value_nonnegative(s);
    } else {
        assert(all_digits(s.drop_last()));
        lemma_decimal_value_grows(s.drop_last(), n);
        assert(s.drop_last().take(n) == s.take(n));
        assert(chars::is_digit(s[s.len() - 1]));
    }
}

pub proof fn lemma_decimal_value_nonnegative(s: Seq<char>)
    requires
        all_digits(s),
    ensures
        0 <= decimal_value(s),
    decreases s.len(),
{
    if s.len() > 0 {
        assert(all_digits(s.drop_last()));
        lemma_decimal_value_nonnegative(s.drop_last());
        assert(chars::is_digit(s[s.len() - 1]));
    }
}

/// Reads digits from `from` on as a number of at most `max`.
fn parse_digits(s: &[char], from: usize, max: u64) -> (r: Option<u64>)
    requires
        from <= s.len(),
    ensures
        match r {
            Some(v) => {
                let d = s@.skip(from as int);
                d.len() > 0 && all_digits(d) && decimal_value(d) == v && v <= max
            },
            None => {
                let d = s@.skip(from as int);
                !(d.len() > 0 && all_digits(d) && decimal_value(d) <= max)
            },
        },
{
    let ghost d = s@.skip(from as int);
    if from == s.len() {
        return None;
    }
    let mut value: u64 = 0;
    let mut i: usize = from;
    assert(d.take(0).len() == 0);
    while i < s.len()
        invariant
            from <= i <= s.len(),
            d == s@.skip(from as int),
            all_digits(d.take(i - from)),
            decimal_value(d.take(i - from)) == value,
            value <= max,
        decreases s.len() - i,
    {
        let c = s[i];
        assert(d[i - from] == c);
        if !chars::digit(c) {
            assert(!all_digits(d));
            return None;
        }
        let n: u64 = (c as u32 - '0' as u32) as u64;
        let ghost next = d.take(i - from + 1);
        assert(next.drop_last() == d.take(i - from));
        assert(next.last() == c);
        assert(all_digits(next)) by {
            assert forall|k: int| 0 <= k < next.len() implies chars::is_digit(#[trigger] next[k]) by {
                if k < i - from {
                    assert(next[k] == d.take(i - from)[k]);
                }
            }
        }
        if n > max || value > (max - n) / 10 {
            proof {
                assert(decimal_value(next) > max);
                if all_digits(d) {
                    lemma_decimal_value_grows(d, i - from + 1);
                }
            }
            return None;
        }
        value = value * 10 + n;
        i += 1;
    }
    assert(d.take(i - from) == d);
    Some(value)
}

/// Reads an unsigned number of at most `max`.
pub fn parse_unsigned(s: &[char], max: u64) -> (r: Option<u64>)
    ensures
        match r {
            Some(v) => unsigned(s@, max as int) == Some(v as int),
            None => unsigned(s@, max as int) is None,
        },
{
    let from: usize = if s.len() > 0 && s[0] == '+' {
        1
    } else {
        0
    };
    assert(s@.skip(0) == s@);
    parse_digits(s, from, max)
}

/// Reads a signed 32-bit number.
pub fn parse_signed(s: &[char]) -> (r: Option<i32>)
    ensures
        match r {
            Some(v) => signed(s@) == Some(v as int),
            None => signed(s@) is None,
        },
{
    assert(s@.skip(0) == s@);
    if s.len() > 0 && s[0] == '-' {
        match parse_digits(s, 1, 2147483648) {
            Some(v) => Some((-(v as i64)) as i32),
            None => None,
        }
    } else {
        let from: usize = if s.len() > 0 && s[0] == '+' {
            1
        } else {
            0
        };
        proof {
            if all_digits(unsigned_digits(s@)) {
                lemma_decimal_value_nonnegative(unsigned_digits(s@));
            }
        }
        match parse_digits(s, from, 2147483647) {
            Some(v) => Some(v as i32),
            None => None,
        }
    }
}

/// The decimal digit for a number below ten.
pub open spec fn digit_char(n: int) -> char {
    (n + 48) as char
}

/// A number written with decimal digits, without leading zeros.
pub open spec fn decimal_text(n: nat) -> Seq<char>
    decreases n,
{
    if n < 10 {
        seq![digit_char(n as int)]
    } else {
        decimal_text(n / 10).push(digit_char((n % 10) as int))
    }
}

/// Writes a number with decimal digits.
pub fn decimal(n: u64) -> (r: String)
    ensures
        r@ == decimal_text(n as nat),
    decreases n,
{
    let c = ((n % 10) as u8 + 48) as char;
    if n < 10 {
        let mut s = String::new();
        s.push(c);
        assert(s@ == seq![digit_char(n as int)]);
        s
    } else {
        let mut s = decimal(n / 10);
        s.push(c);
        s
    }
}

/// A number written in decimal reads back as itself.
pub proof fn law_decimal_reads_back(n: nat, max: int)
    requires
        n <= max,
    ensures
        unsigned(decimal_text(n), max) == Some(n as int),
{
    lemma_decimal_text(n);
    assert(decimal_text(n)[0] != '+');
}

pub proof fn lemma_decimal_text(n: nat)
    ensures
        decimal_text(n).len() > 0,
        all_digits(decimal_text(n)),
        decimal_value(decimal_text(n)) == n,
    decreases n,
{
    let t = decimal_text(n);
    assert(digit_value(t.last()) == n % 10) by {
        assert(t.last() == digit_char((n % 10) as int));
    }
    if n < 10 {
        assert(t.drop_last().len() == 0);
        assert(decimal_value(t.drop_last()) == 0);
    } else {
        lemma_decimal_text(n / 10);
        assert(t.drop_last() == decimal_text(n / 10));
    }
}

/// A number above the bound is not read.
pub proof fn law_decimal_above_bound_is_refused(n: nat, max: int)
    requires
        n > max,
    ensures
        unsigned(decimal_text(n), max) is None,
{
    lemma_decimal_text(n);
}

/// A plus sign and leading zeros change nothing.
pub proof fn law_sign_and_zeros_do_not_count(s: Seq<char>, max: int)
    requires
        s.len() > 0,
        all_digits(s),
    ensures
        unsigned(seq!['+'] + s, max) == unsigned(s, max),
        unsigned(seq!['0'] + s, max) == unsigned(s, max),
{
    assert(chars::is_digit(s[0]));
    assert((seq!['+'] + s).skip(1) =~= s);
    let z = seq!['0'] + s;
    assert forall|i: int| 0 <= i < z.len() implies chars::is_digit(#[trigger] z[i]) by {
        if i > 0 {
            assert(z[i] == s[i - 1]);
        }
    }
    lemma_leading_zero(s);
}

proof fn lemma_leading_zero(s: Seq<char>)
    ensures
        decimal_value(seq!['0'] + s) == decimal_value(s),
    decreases s.len(),
{
    let z = seq!['0'] + s;
    if s.len() == 0 {
        assert(z.drop_last() =~= Seq::empty());
        assert(decimal_value(z.drop_last()) == 0);
    } else {
        assert(z.drop_last() =~= seq!['0'] + s.drop_last());
        lemma_leading_zero(s.drop_last());
    }
}

/// Nothing but a plus sign in front and decimal digits makes a number.
pub proof fn law_other_characters_make_no_number(s: Seq<char>, max: int, i: int)
    requires
        0 <= i < s.len(),
        !('0' <= s[i] <= '9'),
        i > 0 || s[0] != '+' || s.len() == 1,
    ensures
        unsigned(s, max) is None,
        unsigned(Seq::empty(), max) is None,
{
    let d = unsigned_digits(s);
    if s[0] == '+' {
        if s.len() > 1 {
            assert(d[i - 1] == s[i]);
        }
    } else {
        assert(d[i] == s[i]);
    }
}

/// Signed numbers read back as they are written, within 32 bits.
pub proof fn law_signed_reads_back(n: nat)
    ensures
        signed(decimal_text(n)) == if n <= 2147483647 {
            Some(n as int)
        } else {
            None
        },
        signed(seq!['-'] + decimal_text(n)) == if n <= 2147483648 {
            Some(-(n as int))
        } else {
            None
        },
{
    lemma_decimal_text(n);
    let t = decimal_text(n);
    assert(chars::is_digit(t[0]));
    assert((seq!['-'] + t).skip(1) =~= t);
}

/// Ten is the base: a digit behind a number is worth itself, and what stands
/// before it ten times as much.
pub proof fn law_digits_are_decimal(n: nat, d: nat)
    requires
        d < 10,
    ensures
        decimal_text(d) == seq![('0' as int + d) as char],
        n > 0 ==> decimal_text(10 * n + d) == decimal_text(n).push(('0' as int + d) as char),
{
    if n > 0 {
        assert((10 * n + d) / 10 == n);
        assert((10 * n + d) % 10 == d);
    }
}

} // verus!
