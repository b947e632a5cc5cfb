use vstd::prelude::*;

use crate::text::chars;
use crate::text::number;
use crate::text::split;
use crate::voice::encoding;

verus! {

/// The two kinds of internet addresses.
#[derive(Clone, Copy, Debug, PartialEq, Eq, Structural)]
pub enum IpKind {
    V4,
    V6,
}

/// One number of a dotted address: up to 255, without leading zeros.
pub open spec fn is_octet(s: Seq<char>) -> bool {
    &&& 1 <= s.len() <= 3
    &&& number::all_digits(s)
    &&& s.len() > 1 ==> s[0] != '0'
    &&& number::decimal_value(s) <= 255
}

/// An IPv4 address: four such numbers with dots between them.
pub open spec fn is_ipv4(s: Seq<char>) -> bool {
    let p = split::pieces(s, '.');
    p.len() == 4 && is_octet(p[0]) && is_octet(p[1]) && is_octet(p[2]) && is_octet(p[3])
}

pub open spec fn is_hex_digit(c: char) -> bool {
    ||| '0' <= c <= '9'
    ||| 'a' <= c <= 'f'
    ||| 'A' <= c <= 'F'
}

/// One group of an IPv6 address: up to four hexadecimal digits.
pub open spec fn is_group(s: Seq<char>) -> bool {
    &&& 1 <= s.len() <= 4
    &&& forall|i: int| 0 <= i < s.len() ==> is_hex_digit(#[trigger] s[i])
}

/// How many groups a part of an IPv6 address stands for: none where the part
/// is empty; a dotted address, where allowed at its end, counts for two.
pub open spec fn group_count(s: Seq<char>, dotted_end: bool) -> Option<int> {
    let p = split::pieces(s, ':');
    if s.len() == 0 {
        Some(0)
    } else if forall|i: int| 0 <= i < p.len() - 1 ==> is_group(#[trigger] p[i]) {
        if is_group(p.last()) {
            Some(p.len() as int)
        } else if dotted_end && is_ipv4(p.last()) {
            Some((p.len() + 1) as int)
        } else {
            None
        }
    } else {
        None
    }
}

/// An IPv6 address: eight groups, or fewer with a double colon in place of at
/// least one group of zeros.
pub open spec fn is_ipv6(s: Seq<char>) -> bool {
    match split::cut_pair(s, ':', ':') {
        Some((head, tail)) => match (group_count(head, false), group_count(tail, true)) {
            (Some(h), Some(t)) => h + t <= 7,
            _ => false,
        },
        None => group_count(s, true) == Some(8int),
    }
}

/// The kind of address that a text spells.
pub open spec fn ip_kind(s: Seq<char>) -> Option<IpKind> {
    if is_ipv4(s) {
        Some(IpKind::V4)
    } else if is_ipv6(s) {
        Some(IpKind::V6)
    } else {
        None
    }
}

fn octet(s: &[char]) -> (r: bool)
    ensures
        r == is_octet(s@),
{
    if s.len() < 1 || s.len() > 3 || s[0] == '+' {
        assert(s@.len() > 0 && s@[0] == '+' ==> !number::all_digits(s@)) by {
            if s@.len() > 0 && s@[0] == '+' {
                assert(!chars::is_digit(s@[0]));
            }
        }
        return false;
    }
    if s.len() > 1 && s[0] == '0' {
        return false;
    }
    number::parse_unsigned(s, 255).is_some()
}

/// Whether the text is an IPv4 address.
pub fn ipv4(s: &[char]) -> (r: bool)
    ensures
        r == is_ipv4(s@),
{
    let p = split::split(s, '.');
    let ghost q = split::pieces(s@, '.');
    assert(p@.len() == q.len());
    if p.len() != 4 {
        return false;
    }
    assert(p@[0]@ == q[0] && p@[1]@ == q[1] && p@[2]@ == q[2] && p@[3]@ == q[3]);
    octet(p[0].as_slice()) && octet(p[1].as_slice()) && octet(p[2].as_slice()) && octet(
        p[3].as_slice(),
    )
}

fn group(s: &[char]) -> (r: bool)
    ensures
        r == is_group(s@),
{
    if s.len() < 1 || s.len() > 4 {
        return false;
    }
    let mut i: usize = 0;
    while i < s.len()
        invariant
            i <= s.len(),
            forall|j: int| 0 <= j < i ==> is_hex_digit(#[trigger] s@[j]),
        decreases s.len() - i,
    {
        let c = s[i];
        if !(('0' <= c && c <= '9') || ('a' <= c && c <= 'f') || ('A' <= c && c <= 'F')) {
            assert(!is_hex_digit(s@[i as int]));
            return false;
        }
        i += 1;
    }
    true
}

fn count_groups(s: &[char], dotted_end: bool) -> (r: Option<usize>)
    ensures
        match r {
            Some(n) => group_count(s@, dotted_end) == Some(n as int),
            None => group_count(s@, dotted_end) is None || group_count(s@, dotted_end).unwrap() > 8,
        },
{
    if s.len() == 0 {
        return Some(0);
    }
    let p = split::split(s, ':');
    let ghost q = split::pieces(s@, ':');
    assert(p@.len() == q.len());
    assert(q.len() > 0);
    let n: usize = p.len();
    if n > 8 {
        return None;
    }
    let mut i: usize = 0;
    while i + 1 < n
        invariant
            n == p.len(),
            n > 0,
            i < n,
            q == split::runs(p@),
            q == split::pieces(s@, ':'),
            s@.len() > 0,
            forall|j: int| 0 <= j < i ==> is_group(#[trigger] q[j]),
        decreases n - i,
    {
        assert(q[i as int] == p@[i as int]@);
        if !group(p[i].as_slice()) {
            assert(!is_group(q[i as int]));
            return None;
        }
        i += 1;
    }
    assert(q.last() == p@[n - 1]@);
    if group(p[n - 1].as_slice()) {
        Some(n)
    } else if dotted_end && ipv4(p[n - 1].as_slice()) {
        Some(n + 1)
    } else {
        None
    }
}

/// Whether the text is an IPv6 address.
pub fn ipv6(s: &[char]) -> (r: bool)
    ensures
        r == is_ipv6(s@),
{
    match split::split_pair(s, ':', ':') {
        Some((head, tail)) => {
            proof {
                lemma_group_count_nonnegative(head@, false);
                lemma_group_count_nonnegative(tail@, true);
            }
            match (count_groups(head, false), count_groups(tail, true)) {
                (Some(h), Some(t)) => h <= 7 && t <= 7 && h + t <= 7,
                _ => false,
            }
        },
        None => match count_groups(s, true) {
            Some(n) => n == 8,
            None => false,
        },
    }
}

proof fn lemma_group_count_nonnegative(s: Seq<char>, dotted_end: bool)
    ensures
        group_count(s, dotted_end) matches Some(n) ==> n >= 0,
{
}

/// The kind of internet address that the text spells, if it spells one.
pub fn parse_ip(s: &[char]) -> (r: Option<IpKind>)
    ensures
        r == ip_kind(s@),
{
    if ipv4(s) {
        Some(IpKind::V4)
    } else if ipv6(s) {
        Some(IpKind::V6)
    } else {
        None
    }
}

/// An address range: an address, a slash and a prefix length that the kind of
/// address allows.
pub open spec fn is_range(s: Seq<char>) -> bool {
    match split::cut_last(s, '/') {
        Some((ip, prefix)) => match (
            ip_kind(chars::trimmed(ip)),
            number::unsigned(chars::trimmed(prefix), 255),
        ) {
            (Some(IpKind::V4), Some(n)) => n <= 32,
            (Some(IpKind::V6), Some(n)) => n <= 128,
            _ => false,
        },
        None => false,
    }
}

/// Address ranges with commas between them, at least one.
pub open spec fn is_range_list(s: Seq<char>) -> bool {
    let p = split::pieces(s, ',');
    forall|i: int| 0 <= i < p.len() ==> is_range(chars::trimmed(#[trigger] p[i]))
}

fn cidr(value: &[char]) -> (r: bool)
    ensures
        r == is_range(value@),
{
    match split::rsplit_once(value, '/') {
        None => false,
        Some((ip, prefix)) => match parse_ip(chars::trim(ip)) {
            None => false,
            Some(kind) => match number::parse_unsigned(chars::trim(prefix), 255) {
                None => false,
                Some(n) => match kind {
                    IpKind::V4 => n <= 32,
                    IpKind::V6 => n <= 128,
                },
            },
        },
    }
}

/// Whether the value is an address range in prefix notation.
pub fn is_cidr(value: &str) -> (r: bool)
    ensures
        r == is_range(value@),
{
    cidr(chars::chars_of(value).as_slice())
}

/// Whether the value lists address ranges in prefix notation.
pub fn is_cidr_list(value: &str) -> (r: bool)
    ensures
        r == is_range_list(value@),
{
    let v = chars::chars_of(value);
    let p = split::split(v.as_slice(), ',');
    let ghost q = split::pieces(value@, ',');
    let mut i: usize = 0;
    while i < p.len()
        invariant
            i <= p.len(),
            q == split::runs(p@),
            q == split::pieces(value@, ','),
            forall|j: int| 0 <= j < i ==> is_range(chars::trimmed(#[trigger] q[j])),
        decreases p.len() - i,
    {
        assert(q[i as int] == p@[i as int]@);
        let t = chars::trim(p[i].as_slice());
        if !cidr(t) {
            assert(!is_range(chars::trimmed(q[i as int])));
            return false;
        }
        i += 1;
    }
    assert(q.len() == p@.len());
    true
}

/// A label of a host name.
pub open spec fn is_label(s: Seq<char>) -> bool {
    &&& 1 <= s.len() <= 63
    &&& s[0] != '-'
    &&& s.last() != '-'
    &&& forall|i: int|
        0 <= i < s.len() ==> chars::is_alphanumeric(#[trigger] s[i]) || s[i] == '-'
}

/// A host name: labels with dots between them, 253 characters at most.
pub open spec fn is_hostname(s: Seq<char>) -> bool {
    let p = split::pieces(s, '.');
    &&& 1 <= s.len() <= 253
    &&& forall|i: int| 0 <= i < p.len() ==> is_label(#[trigger] p[i])
}

fn label(s: &[char]) -> (r: bool)
    ensures
        r == is_label(s@),
{
    if s.len() < 1 || s.len() > 63 || s[0] == '-' || s[s.len() - 1] == '-' {
        return false;
    }
    let mut i: usize = 0;
    while i < s.len()
        invariant
            i <= s.len(),
            forall|j: int|
                0 <= j < i ==> chars::is_alphanumeric(#[trigger] s@[j]) || s@[j] == '-',
        decreases s.len() - i,
    {
        if !(chars::alphanumeric(s[i]) || s[i] == '-') {
            assert(!(chars::is_alphanumeric(s@[i as int]) || s@[i as int] == '-'));
            return false;
        }
        i += 1;
    }
    true
}

fn hostname(host: &[char]) -> (r: bool)
    ensures
        r == is_hostname(host@),
{
    if host.len() < 1 || host.len() > 253 {
        return false;
    }
    let p = split::split(host, '.');
    let ghost q = split::pieces(host@, '.');
    let mut i: usize = 0;
    while i < p.len()
        invariant
            i <= p.len(),
            q == split::runs(p@),
            q == split::pieces(host@, '.'),
            forall|j: int| 0 <= j < i ==> is_label(#[trigger] q[j]),
        decreases p.len() - i,
    {
        assert(q[i as int] == p@[i as int]@);
        if !label(p[i].as_slice()) {
            assert(!is_label(q[i as int]));
            return false;
        }
        i += 1;
    }
    assert(q.len() == p@.len());
    true
}

/// Whether the text is a host name.
pub fn is_valid_hostname(host: &str) -> (r: bool)
    ensures
        r == is_hostname(host@),
{
    hostname(chars::chars_of(host).as_slice())
}

/// The host and the port of an endpoint: an IPv6 address stands in brackets,
/// any other host before the last colon.
pub open spec fn endpoint_parts(value: Seq<char>) -> Result<(Seq<char>, Seq<char>), Seq<char>> {
    let v = chars::trimmed(value);
    if v.len() > 0 && v[0] == '[' {
        match split::cut_pair(v.skip(1), ']', ':') {
            Some((host, port)) => if is_ipv6(host) {
                Ok((host, port))
            } else {
                Err("bracketed endpoint host is not an IPv6 address"@)
            },
            None => Err("endpoint must use host:port syntax"@),
        }
    } else {
        match split::cut_last(v, ':') {
            Some(parts) => Ok(parts),
            None => Err("endpoint must use host:port syntax"@),
        }
    }
}

pub open spec fn is_port(s: Seq<char>) -> bool {
    number::unsigned(s, 65535) matches Some(n) && n > 0
}

/// The host that an endpoint names, in small letters, or what is wrong with
/// the endpoint.
pub open spec fn endpoint_host(value: Seq<char>) -> Result<Seq<char>, Seq<char>> {
    match endpoint_parts(value) {
        Err(e) => Err(e),
        Ok((host, port)) => if host.len() == 0 || !is_port(port) {
            Err("endpoint host or port is invalid"@)
        } else if ip_kind(host) is None && !is_hostname(host) {
            Err("endpoint hostname is invalid"@)
        } else {
            Ok(chars::lower(host))
        },
    }
}

fn check_endpoint(host: &[char], port: &[char]) -> (r: Result<String, String>)
    ensures
        match r {
            Ok(h) => host@.len() > 0 && is_port(port@) && (ip_kind(host@) is Some || is_hostname(
                host@,
            )) && h@ == chars::lower(host@),
            Err(e) => if host@.len() == 0 || !is_port(port@) {
                e@ == "endpoint host or port is invalid"@
            } else {
                ip_kind(host@) is None && !is_hostname(host@) && e@
                    == "endpoint hostname is invalid"@
            },
        },
{
    let port_is_valid = match number::parse_unsigned(port, 65535) {
        Some(n) => n > 0,
        None => false,
    };
    if host.len() == 0 || !port_is_valid {
        return Err("endpoint host or port is invalid".to_owned());
    }
    if parse_ip(host).is_none() && !hostname(host) {
        return Err("endpoint hostname is invalid".to_owned());
    }
    Ok(chars::string_of(chars::to_lower(host).as_slice()))
}

/// Reads the host of an endpoint.
pub fn parse_endpoint_host(value: &str) -> (r: Result<String, String>)
    ensures
        match r {
            Ok(h) => endpoint_host(value@) == Ok::<Seq<char>, Seq<char>>(h@),
            Err(e) => endpoint_host(value@) == Err::<Seq<char>, Seq<char>>(e@),
        },
{
    let all = chars::chars_of(value);
    let v = chars::trim(all.as_slice());
    if v.len() > 0 && v[0] == '[' {
        let rest = vstd::slice::slice_subrange(v, 1, v.len());
        assert(rest@ == v@.skip(1));
        match split::split_pair(rest, ']', ':') {
            None => Err("endpoint must use host:port syntax".to_owned()),
            Some((host, port)) => {
                if !ipv6(host) {
                    return Err("bracketed endpoint host is not an IPv6 address".to_owned());
                }
                check_endpoint(host, port)
            },
        }
    } else {
        match split::rsplit_once(v, ':') {
            None => Err("endpoint must use host:port syntax".to_owned()),
            Some((host, port)) => check_endpoint(host, port),
        }
    }
}

/// A key of 32 bytes in base64: 43 symbols and one padding sign.
pub open spec fn is_key(s: Seq<char>) -> bool {
    &&& s.len() == 44
    &&& s[43] == '='
    &&& forall|i: int|
        0 <= i < 43 ==> chars::is_alphanumeric(#[trigger] s[i]) || s[i] == '+' || s[i] == '/'
}

/// Whether the value has the shape of a WireGuard key.
pub fn is_wireguard_key(value: &str) -> (r: bool)
    ensures
        r == is_key(value@),
{
    let v = chars::chars_of(value);
    if v.len() != 44 || v[43] != '=' {
        return false;
    }
    let mut i: usize = 0;
    while i < 43
        invariant
            i <= 43,
            v@ == value@,
            v@.len() == 44,
            forall|j: int|
                0 <= j < i ==> chars::is_alphanumeric(#[trigger] v@[j]) || v@[j] == '+' || v@[j]
                    == '/',
        decreases 43 - i,
    {
        if !(chars::alphanumeric(v[i]) || v[i] == '+' || v[i] == '/') {
            assert(!(chars::is_alphanumeric(value@[i as int]) || value@[i as int] == '+'
                || value@[i as int] == '/'));
            return false;
        }
        i += 1;
    }
    true
}

/// The base64 form of bytes is a key where there are 32 of them, and only
/// there.
pub proof fn law_key_is_32_bytes(bytes: Seq<u8>)
    ensures
        is_key(encoding::base64_text(bytes)) <==> bytes.len() == 32,
{
    let t = encoding::base64_text(bytes);
    encoding::law_base64_shape(bytes);
    if bytes.len() == 32 {
        assert forall|i: int| 0 <= i < 43 implies chars::is_alphanumeric(#[trigger] t[i]) || t[i]
            == '+' || t[i] == '/' by {
            assert(encoding::is_symbol(t[i]));
            encoding::lemma_is_symbol(t[i]);
        }
    } else if t.len() == 44 {
        let n = bytes.len();
        assert(n == 31 || n == 33);
        if n == 33 {
            assert(encoding::is_symbol(t[43]));
            encoding::lemma_is_symbol(t[43]);
        } else {
            assert(t[42] == '=');
        }
    }
}

/// Whether the first signs of a text are all of the base64 alphabet.
pub open spec fn begins_with_symbols(s: Seq<char>, n: int) -> bool {
    forall|i: int| 0 <= i < n ==> encoding::is_symbol(#[trigger] s[i])
}

/// A key is 43 signs of the base64 alphabet and a padding sign, whichever signs
/// these are.
pub proof fn law_key_is_base64(s: Seq<char>)
    ensures
        is_key(s) <==> s.len() == 44 && begins_with_symbols(s, 43) && s.last() == '=',
{
    if s.len() == 44 {
        assert forall|i: int|
            0 <= i < 43 implies #[trigger] encoding::is_symbol(s[i]) == (chars::is_alphanumeric(
            s[i],
        ) || s[i] == '+' || s[i] == '/') by {
            encoding::lemma_is_symbol(s[i]);
        }
        if is_key(s) {
            assert forall|i: int| 0 <= i < 43 implies encoding::is_symbol(#[trigger] s[i]) by {
                assert(chars::is_alphanumeric(s[i]) || s[i] == '+' || s[i] == '/');
            }
        }
        if begins_with_symbols(s, 43) {
            assert forall|i: int| 0 <= i < 43 implies chars::is_alphanumeric(#[trigger] s[i])
                || s[i] == '+' || s[i] == '/' by {
                assert(encoding::is_symbol(s[i]));
            }
        }
    }
}

/// Four numbers with dots between them.
pub open spec fn dotted(a: u8, b: u8, c: u8, d: u8) -> Seq<char> {
    split::joined(
        seq![
            number::decimal_text(a as nat),
            number::decimal_text(b as nat),
            number::decimal_text(c as nat),
            number::decimal_text(d as nat),
        ],
        '.',
    )
}

proof fn lemma_octet_text(n: u8)
    ensures
        is_octet(number::decimal_text(n as nat)),
        split::lacks(number::decimal_text(n as nat), '.'),
{
    let t = number::decimal_text(n as nat);
    number::lemma_decimal_text(n as nat);
    reveal_with_fuel(number::decimal_text, 4);
    assert forall|i: int| 0 <= i < t.len() implies #[trigger] t[i] != '.' by {
        assert(chars::is_digit(t[i]));
    }
}

proof fn lemma_octet(s: Seq<char>)
    requires
        is_octet(s),
    ensures
        0 <= number::decimal_value(s) <= 255,
        number::decimal_text(number::decimal_value(s) as nat) == s,
{
    reveal_with_fuel(number::decimal_text, 4);
    reveal_with_fuel(number::decimal_value, 5);
    let v = number::decimal_value(s);
    number::lemma_decimal_value_nonnegative(s);
    assert(chars::is_digit(s[0]));
    let none = Seq::<char>::empty();
    assert(number::decimal_value(none) == 0);
    if s.len() == 1 {
        assert(s.drop_last() =~= none);
        assert(s =~= seq![s[0]]);
    } else if s.len() == 2 {
        assert(chars::is_digit(s[1]));
        assert(s.drop_last() =~= seq![s[0]]);
        assert(seq![s[0]].drop_last() =~= none);
        assert(v / 10 == number::digit_value(s[0]));
        assert(v % 10 == number::digit_value(s[1]));
        assert(s =~= seq![s[0]].push(s[1]));
    } else {
        assert(chars::is_digit(s[1]));
        assert(chars::is_digit(s[2]));
        assert(s.drop_last() =~= seq![s[0], s[1]]);
        assert(seq![s[0], s[1]].drop_last() =~= seq![s[0]]);
        assert(seq![s[0]].drop_last() =~= none);
        assert(v / 10 == 10 * number::digit_value(s[0]) + number::digit_value(s[1]));
        assert(v / 10 / 10 == number::digit_value(s[0]));
        assert(v / 10 % 10 == number::digit_value(s[1]));
        assert(v % 10 == number::digit_value(s[2]));
        assert(s =~= seq![s[0]].push(s[1]).push(s[2]));
    }
}

/// The IPv4 addresses are four bytes each, written in decimal with dots
/// between them, and nothing else.
pub proof fn law_ipv4_is_four_bytes(s: Seq<char>)
    ensures
        is_ipv4(s) <==> exists|a: u8, b: u8, c: u8, d: u8| s == #[trigger] dotted(a, b, c, d),
{
    if is_ipv4(s) {
        let p = split::pieces(s, '.');
        lemma_octet(p[0]);
        lemma_octet(p[1]);
        lemma_octet(p[2]);
        lemma_octet(p[3]);
        split::law_pieces_join_again(s, '.');
        let a = number::decimal_value(p[0]) as u8;
        let b = number::decimal_value(p[1]) as u8;
        let c = number::decimal_value(p[2]) as u8;
        let d = number::decimal_value(p[3]) as u8;
        assert(p =~= seq![
            number::decimal_text(a as nat),
            number::decimal_text(b as nat),
            number::decimal_text(c as nat),
            number::decimal_text(d as nat),
        ]);
        assert(s == dotted(a, b, c, d));
    }
    if exists|a: u8, b: u8, c: u8, d: u8| s == #[trigger] dotted(a, b, c, d) {
        let (a, b, c, d) = choose|a: u8, b: u8, c: u8, d: u8| s == #[trigger] dotted(a, b, c, d);
        lemma_octet_text(a);
        lemma_octet_text(b);
        lemma_octet_text(c);
        lemma_octet_text(d);
        split::law_joined_parts_split_again(
            seq![
                number::decimal_text(a as nat),
                number::decimal_text(b as nat),
                number::decimal_text(c as nat),
                number::decimal_text(d as nat),
            ],
            '.',
        );
    }
}

/// Whether a text is one to four hexadecimal digits.
pub open spec fn is_hex(s: Seq<char>) -> bool {
    &&& s.len() == 1 || s.len() == 2 || s.len() == 3 || s.len() == 4
    &&& forall|i: int|
        0 <= i < s.len() ==> ('0' <= #[trigger] s[i] <= '9' || 'a' <= s[i] <= 'f' || 'A' <= s[i]
            <= 'F')
}

/// Whether a text can stand between colons.
pub open spec fn is_between_colons(s: Seq<char>) -> bool {
    s.len() > 0 && split::lacks(s, ':')
}

pub open spec fn all_hex(parts: Seq<Seq<char>>) -> bool {
    forall|i: int| 0 <= i < parts.len() ==> is_hex(#[trigger] parts[i])
}

pub open spec fn all_between_colons(parts: Seq<Seq<char>>) -> bool {
    forall|i: int| 0 <= i < parts.len() ==> is_between_colons(#[trigger] parts[i])
}

proof fn lemma_single_colons(parts: Seq<Seq<char>>)
    requires
        parts.len() > 0,
        all_between_colons(parts),
    ensures
        ({
            let s = split::joined(parts, ':');
            &&& s.len() > 0
            &&& s[0] != ':'
            &&& s.last() != ':'
            &&& forall|j: int| 0 <= j < s.len() - 1 ==> !(#[trigger] s[j] == ':' && s[j + 1] == ':')
        }),
    decreases parts.len(),
{
    let s = split::joined(parts, ':');
    let first = parts[0];
    assert(is_between_colons(first));
    assert(first[0] != ':');
    if parts.len() == 1 {
        assert(first[first.len() - 1] != ':');
    } else {
        let rest = parts.skip(1);
        assert forall|i: int| 0 <= i < rest.len() implies is_between_colons(#[trigger] rest[i]) by {
            assert(rest[i] == parts[i + 1]);
        }
        lemma_single_colons(rest);
        let t = split::joined(rest, ':');
        assert(s == first.push(':') + t);
        let n = first.len() as int;
        assert forall|j: int| 0 <= j < s.len() - 1 implies !(#[trigger] s[j] == ':' && s[j + 1]
            == ':') by {
            if j < n {
                assert(s[j] == first[j]);
            } else if j == n {
                assert(s[j + 1] == t[0]);
            } else {
                assert(s[j] == t[j - n - 1]);
                assert(s[j + 1] == t[j - n]);
            }
        }
        assert(s.last() == t.last());
    }
}

proof fn lemma_groups(parts: Seq<Seq<char>>, dotted_end: bool)
    requires
        all_between_colons(parts),
    ensures
        group_count(split::joined(parts, ':'), dotted_end) == if all_hex(parts) {
            Some(parts.len() as int)
        } else if dotted_end && all_hex(parts.drop_last()) && is_ipv4(parts.last()) {
            Some(parts.len() as int + 1)
        } else {
            None
        },
{
    let s = split::joined(parts, ':');
    if parts.len() > 0 {
        lemma_single_colons(parts);
        assert forall|i: int| 0 <= i < parts.len() implies split::lacks(
            #[trigger] parts[i],
            ':',
        ) by {
            assert(is_between_colons(parts[i]));
        }
        split::law_joined_parts_split_again(parts, ':');
        assert forall|x: Seq<char>| #[trigger] is_group(x) == is_hex(x) by {
            if is_group(x) {
                assert forall|i: int| 0 <= i < x.len() implies ('0' <= #[trigger] x[i] <= '9' || 'a'
                    <= x[i] <= 'f' || 'A' <= x[i] <= 'F') by {
                    assert(is_hex_digit(x[i]));
                }
            }
        }
        let front = parts.drop_last();
        assert(all_hex(front) <==> forall|i: int|
            0 <= i < parts.len() - 1 ==> is_group(#[trigger] parts[i])) by {
            if all_hex(front) {
                assert forall|i: int| 0 <= i < parts.len() - 1 implies is_group(
                    #[trigger] parts[i],
                ) by {
                    assert(front[i] == parts[i]);
                }
            }
            if forall|i: int| 0 <= i < parts.len() - 1 ==> is_group(#[trigger] parts[i]) {
                assert forall|i: int| 0 <= i < front.len() implies is_hex(#[trigger] front[i]) by {
                    assert(front[i] == parts[i]);
                    assert(is_group(parts[i]));
                }
            }
        }
        assert(all_hex(parts) <==> all_hex(front) && is_group(parts.last())) by {
            if all_hex(parts) {
                assert forall|i: int| 0 <= i < front.len() implies is_hex(#[trigger] front[i]) by {
                    assert(front[i] == parts[i]);
                }
                assert(is_hex(parts[parts.len() - 1]));
            }
            if all_hex(front) && is_group(parts.last()) {
                assert forall|i: int| 0 <= i < parts.len() implies is_hex(#[trigger] parts[i]) by {
                    if i < front.len() {
                        assert(front[i] == parts[i]);
                    }
                }
            }
        }
    }
}

proof fn lemma_dotted_is_no_group(s: Seq<char>)
    requires
        is_hex(s),
    ensures
        !is_ipv4(s),
{
    split::lemma_position(s, '.');
}

/// An IPv6 address without a double colon has eight groups of hexadecimal
/// digits, the last two of which a dotted address may stand for.
pub proof fn law_ipv6_has_eight_groups(parts: Seq<Seq<char>>)
    requires
        parts.len() > 0,
        all_between_colons(parts),
    ensures
        is_ipv6(split::joined(parts, ':')) <==> (parts.len() == 8 && all_hex(parts)) || (
        parts.len() == 7 && all_hex(parts.drop_last()) && is_ipv4(parts.last())),
{
    let s = split::joined(parts, ':');
    lemma_single_colons(parts);
    split::lemma_pair_position_absent(s, ':', ':');
    lemma_groups(parts, true);
    if all_hex(parts) {
        assert(is_hex(parts[parts.len() - 1]));
        lemma_dotted_is_no_group(parts.last());
    }
}

/// A double colon stands for one group at least, wherever it stands; a dotted
/// address may stand only at the very end.
pub proof fn law_ipv6_may_be_shortened(head: Seq<Seq<char>>, tail: Seq<Seq<char>>)
    requires
        all_between_colons(head),
        all_between_colons(tail),
    ensures
        is_ipv6(split::joined(head, ':') + seq![':', ':'] + split::joined(tail, ':')) <==> all_hex(
            head,
        ) && ((all_hex(tail) && head.len() + tail.len() <= 7) || (tail.len() > 0 && all_hex(
            tail.drop_last(),
        ) && is_ipv4(tail.last()) && head.len() + tail.len() <= 6)),
{
    let before = split::joined(head, ':');
    let after = split::joined(tail, ':');
    if head.len() > 0 {
        lemma_single_colons(head);
    }
    let both = before + seq![':', ':'];
    assert forall|j: int| 0 <= j < before.len() implies !(#[trigger] before[j] == ':' && both[j + 1]
        == ':') by {
        if j == before.len() - 1 {
            assert(before[j] == before.last());
        } else {
            assert(both[j + 1] == before[j + 1]);
        }
    }
    split::lemma_cut_pair(before, ':', ':', after);
    lemma_groups(head, false);
    lemma_groups(tail, true);
    if tail.len() > 0 && all_hex(tail) {
        assert(is_hex(tail[tail.len() - 1]));
        lemma_dotted_is_no_group(tail.last());
    }
}

/// A range is an address and the length of a prefix no longer than such an
/// address; an address of neither kind begins none.
pub proof fn law_range_prefix_fits_address(ip: Seq<char>, n: nat)
    ensures
        is_range(ip + seq!['/'] + number::decimal_text(n)) <==> match ip_kind(chars::trimmed(ip)) {
            Some(IpKind::V4) => n <= 32,
            Some(IpKind::V6) => n <= 128,
            None => false,
        },
{
    let t = number::decimal_text(n);
    number::lemma_decimal_text(n);
    assert forall|i: int| 0 <= i < t.len() implies #[trigger] t[i] != '/' by {
        assert(chars::is_digit(t[i]));
    }
    assert(chars::is_digit(t[0]));
    assert(chars::is_digit(t[t.len() - 1]));
    chars::lemma_trimmed(t);
    split::lemma_cut_last(ip, '/', t);
    assert(ip + seq!['/'] + t =~= ip.push('/') + t);
    if n <= 255 {
        number::law_decimal_reads_back(n, 255);
    } else {
        number::law_decimal_above_bound_is_refused(n, 255);
    }
}

/// An address alone is no range.
pub proof fn law_range_needs_prefix(s: Seq<char>)
    requires
        split::lacks(s, '/'),
    ensures
        !is_range(s),
{
    split::lemma_last_position(s, '/');
}

/// A list of ranges is as good as every one of them, white space around each
/// apart.
pub proof fn law_range_list_is_as_good_as_each(parts: Seq<Seq<char>>)
    requires
        parts.len() > 0,
        forall|i: int| 0 <= i < parts.len() ==> split::lacks(#[trigger] parts[i], ','),
    ensures
        is_range_list(split::joined(parts, ',')) <==> forall|i: int|
            0 <= i < parts.len() ==> is_range(chars::trimmed(#[trigger] parts[i])),
{
    split::law_joined_parts_split_again(parts, ',');
}

/// No ranges at all are no list.
pub proof fn law_empty_range_list_is_refused()
    ensures
        !is_range_list(Seq::empty()),
{
    let s = Seq::<char>::empty();
    let p = split::pieces(s, ',');
    assert(p =~= seq![s]);
    assert(chars::trimmed(p[0]) == s);
    law_range_needs_prefix(s);
}

/// Whether a text is one to 63 letters, digits and hyphens, with no hyphen at
/// either end.
pub open spec fn is_host_part(s: Seq<char>) -> bool {
    &&& 0 < s.len() < 64
    &&& s[0] != '-' && s.last() != '-'
    &&& forall|i: int|
        0 <= i < s.len() ==> ('0' <= #[trigger] s[i] <= '9' || 'a' <= s[i] <= 'z' || 'A' <= s[i]
            <= 'Z' || s[i] == '-')
}

/// A host name is parts of letters, digits and inner hyphens with dots between
/// them, 253 characters in all.
pub proof fn law_hostname_is_host_parts(parts: Seq<Seq<char>>)
    requires
        parts.len() > 0,
        forall|i: int| 0 <= i < parts.len() ==> split::lacks(#[trigger] parts[i], '.'),
    ensures
        is_hostname(split::joined(parts, '.')) <==> split::joined(parts, '.').len() <= 253
            && forall|i: int| 0 <= i < parts.len() ==> is_host_part(#[trigger] parts[i]),
{
    split::law_joined_parts_split_again(parts, '.');
    assert forall|x: Seq<char>| #[trigger] is_label(x) == is_host_part(x) by {
        if is_label(x) {
            assert forall|i: int| 0 <= i < x.len() implies ('0' <= #[trigger] x[i] <= '9' || 'a'
                <= x[i] <= 'z' || 'A' <= x[i] <= 'Z' || x[i] == '-') by {
                assert(chars::is_alphanumeric(x[i]) || x[i] == '-');
            }
        }
        if is_host_part(x) {
            assert forall|i: int| 0 <= i < x.len() implies chars::is_alphanumeric(#[trigger] x[i])
                || x[i] == '-' by {}
        }
    }
    if is_label(parts[0]) {
        assert(split::joined(parts, '.').len() > 0);
    }
    assert(is_hostname(split::joined(parts, '.')) ==> forall|i: int|
        0 <= i < parts.len() ==> is_host_part(#[trigger] parts[i])) by {
        if is_hostname(split::joined(parts, '.')) {
            assert forall|i: int| 0 <= i < parts.len() implies is_host_part(
                #[trigger] parts[i]
            ) by {
                assert(is_label(parts[i]));
            }
        }
    }
    if (forall|i: int| 0 <= i < parts.len() ==> is_host_part(#[trigger] parts[i])) {
        assert forall|i: int| 0 <= i < parts.len() implies is_label(#[trigger] parts[i]) by {
            assert(is_host_part(parts[i]));
        }
    }
}

proof fn lemma_port(port: nat)
    ensures
        is_port(number::decimal_text(port)) <==> 1 <= port <= 65535,
        split::lacks(number::decimal_text(port), ':'),
        number::decimal_text(port).len() > 0,
        !chars::is_white_space(number::decimal_text(port).last()),
{
    let t = number::decimal_text(port);
    number::lemma_decimal_text(port);
    assert forall|i: int| 0 <= i < t.len() implies #[trigger] t[i] != ':' by {
        assert(chars::is_digit(t[i]));
    }
    assert(chars::is_digit(t[t.len() - 1]));
    if port <= 65535 {
        number::law_decimal_reads_back(port, 65535);
    } else {
        number::law_decimal_above_bound_is_refused(port, 65535);
    }
}

/// An endpoint of a host and a port names the host, in small letters, where
/// the host is an address or a host name and the port is one; white space
/// around the endpoint does not count.
pub proof fn law_endpoint_names_its_host(
    lead: Seq<char>,
    host: Seq<char>,
    port: nat,
    tail: Seq<char>,
)
    requires
        host.len() > 0,
        host[0] != '[',
        !chars::is_white_space(host[0]),
        chars::all_white(lead),
        chars::all_white(tail),
    ensures
        endpoint_host(lead + (host + seq![':'] + number::decimal_text(port)) + tail) == if port == 0
            || port > 65535 {
            Err::<Seq<char>, Seq<char>>("endpoint host or port is invalid"@)
        } else if ip_kind(host) is None && !is_hostname(host) {
            Err("endpoint hostname is invalid"@)
        } else {
            Ok(chars::lower(host))
        },
{
    let t = number::decimal_text(port);
    let v = host + seq![':'] + t;
    lemma_port(port);
    assert(v[0] == host[0]);
    assert(v.last() == t.last());
    chars::law_trimmed_is_what_stands_between(lead, v, tail);
    assert(v =~= host.push(':') + t);
    split::lemma_cut_last(host, ':', t);
}

/// An address in brackets names itself, and only an IPv6 address may stand in
/// them.
pub proof fn law_bracketed_endpoint_is_ipv6(host: Seq<char>, port: nat)
    requires
        split::lacks(host, ']'),
    ensures
        endpoint_host(seq!['['] + host + seq![']', ':'] + number::decimal_text(port))
            == if !is_ipv6(host) {
            Err::<Seq<char>, Seq<char>>("bracketed endpoint host is not an IPv6 address"@)
        } else if port == 0 || port > 65535 {
            Err("endpoint host or port is invalid"@)
        } else {
            Ok(chars::lower(host))
        },
{
    let t = number::decimal_text(port);
    let v = seq!['['] + host + seq![']', ':'] + t;
    lemma_port(port);
    assert(v[0] == '[');
    assert(v.last() == t.last());
    chars::lemma_trimmed(v);
    assert(v.skip(1) =~= host + seq![']', ':'] + t);
    split::lemma_cut_pair(host, ']', ':', t);
    if host.len() == 0 {
        split::lemma_pair_position_absent(host, ':', ':');
    }
}

/// An endpoint without a port is none.
pub proof fn law_endpoint_needs_port(host: Seq<char>)
    requires
        host.len() > 0,
        host[0] != '[',
        !chars::is_white_space(host[0]),
        !chars::is_white_space(host.last()),
        split::lacks(host, ':'),
    ensures
        endpoint_host(host) == Err::<Seq<char>, Seq<char>>("endpoint must use host:port syntax"@),
{
    chars::lemma_trimmed(host);
    split::lemma_last_position(host, ':');
}

/// Whether a text is groups with a colon between every two.
pub open spec fn is_full_form(s: Seq<char>) -> bool {
    exists|parts: Seq<Seq<char>>|
        parts.len() > 0 && all_between_colons(parts) && s == #[trigger] split::joined(parts, ':')
}

/// Whether a text is groups, a double colon, and groups again.
pub open spec fn is_short_form(s: Seq<char>, head: Seq<Seq<char>>, tail: Seq<Seq<char>>) -> bool {
    &&& all_between_colons(head)
    &&& all_between_colons(tail)
    &&& s == split::joined(head, ':') + seq![':', ':'] + split::joined(tail, ':')
}

proof fn lemma_counted_groups(s: Seq<char>, dotted_end: bool) -> (parts: Seq<Seq<char>>)
    requires
        group_count(s, dotted_end) is Some,
    ensures
        all_between_colons(parts),
        s == split::joined(parts, ':'),
        s.len() > 0 ==> parts.len() > 0,
{
    if s.len() == 0 {
        let none = Seq::<Seq<char>>::empty();
        assert(s =~= split::joined(none, ':'));
        none
    } else {
        let p = split::pieces(s, ':');
        split::law_pieces_join_again(s, ':');
        assert forall|i: int| 0 <= i < p.len() implies is_between_colons(#[trigger] p[i]) by {
            assert(split::lacks(p[i], ':'));
            if i < p.len() - 1 {
                assert(is_group(p[i]));
            } else {
                assert(p[i] == p.last());
                if p[i].len() == 0 {
                    assert(!is_group(p[i]));
                    split::lemma_position(p[i], '.');
                }
            }
        }
        p
    }
}

/// Every IPv6 address is of one of the two forms: groups between single
/// colons, or such groups on both sides of one double colon.
pub proof fn law_ipv6_has_one_of_two_forms(s: Seq<char>)
    requires
        is_ipv6(s),
    ensures
        is_full_form(s) || exists|head: Seq<Seq<char>>, tail: Seq<Seq<char>>|
            #[trigger] is_short_form(s, head, tail),
{
    match split::pair_position(s, ':', ':') {
        Some(i) => {
            split::lemma_pair_position(s, ':', ':');
            let head = lemma_counted_groups(s.take(i), false);
            let tail = lemma_counted_groups(s.skip(i + 2), true);
            assert(s =~= s.take(i) + seq![':', ':'] + s.skip(i + 2));
            assert(is_short_form(s, head, tail));
        },
        None => {
            let parts = lemma_counted_groups(s, true);
            assert(s.len() > 0);
            assert(s == split::joined(parts, ':'));
        },
    }
}

/// What follows the last slash of a range must be a number.
pub proof fn law_range_prefix_is_number(ip: Seq<char>, prefix: Seq<char>, i: int)
    requires
        split::lacks(prefix, '/'),
        0 <= i < chars::trimmed(prefix).len(),
        !('0' <= chars::trimmed(prefix)[i] <= '9'),
        i > 0 || chars::trimmed(prefix)[0] != '+',
    ensures
        !is_range(ip + seq!['/'] + prefix),
{
    split::lemma_cut_last(ip, '/', prefix);
    assert(ip + seq!['/'] + prefix =~= ip.push('/') + prefix);
    number::law_other_characters_make_no_number(chars::trimmed(prefix), 255, i);
}

} // verus!
