use vstd::prelude::*;

use crate::network::profile::ProfileView;
use crate::network::profile::ValidatedProfile;
use crate::network::provider::Provider;
use crate::text::chars;
use crate::text::join;
use crate::text::split;

verus! {

/// How one character is written between the double quotes of a YAML string.
pub open spec fn escape(c: char) -> Seq<char> {
    if c == '\\' {
        seq!['\\', '\\']
    } else if c == '"' {
        seq!['\\', '"']
    } else if c == '\n' {
        seq!['\\', 'n']
    } else if c == '\r' {
        seq!['\\', 'r']
    } else if c == '\t' {
        seq!['\\', 't']
    } else {
        seq![c]
    }
}

pub open spec fn escaped(s: Seq<char>) -> Seq<char>
    decreases s.len(),
{
    if s.len() == 0 {
        Seq::empty()
    } else {
        escaped(s.drop_last()) + escape(s.last())
    }
}

/// A value as a double-quoted YAML string.
pub open spec fn quoted(s: Seq<char>) -> Seq<char> {
    seq!['"'] + escaped(s) + seq!['"']
}

/// Writes a value as a double-quoted YAML string.
pub fn yaml_double_quoted(value: &str) -> (r: String)
    ensures
        r@ == quoted(value@),
{
    let v = chars::chars_of(value);
    let mut r = String::new();
    r.push('"');
    assert(r@ == seq!['"'] + escaped(v@.take(0)));
    let mut i: usize = 0;
    while i < v.len()
        invariant
            i <= v.len(),
            r@ == seq!['"'] + escaped(v@.take(i as int)),
        decreases v.len() - i,
    {
        let c = v[i];
        assert(v@.take(i + 1).drop_last() == v@.take(i as int));
        let ghost before = r@;
        if c == '\\' {
            r.push('\\');
            r.push('\\');
        } else if c == '"' {
            r.push('\\');
            r.push('"');
        } else if c == '\n' {
            r.push('\\');
            r.push('n');
        } else if c == '\r' {
            r.push('\\');
            r.push('r');
        } else if c == '\t' {
            r.push('\\');
            r.push('t');
        } else {
            r.push(c);
        }
        assert(r@ =~= before + escape(c));
        assert(r@ =~= seq!['"'] + escaped(v@.take(i + 1)));
        i += 1;
    }
    assert(v@.take(v@.len() as int) == v@);
    let ghost before = r@;
    r.push('"');
    assert(r@ =~= before + seq!['"']);
    r
}

/// The character that a YAML escape stands for.
pub open spec fn unescape(c: char) -> char {
    if c == 'n' {
        '\n'
    } else if c == 'r' {
        '\r'
    } else if c == 't' {
        '\t'
    } else {
        c
    }
}

/// What the text between the quotes of a YAML string stands for; none where a
/// quote would end it early or a backslash stands alone at its end.
pub open spec fn unescaped(s: Seq<char>) -> Option<Seq<char>>
    decreases s.len(),
{
    if s.len() == 0 {
        Some(Seq::empty())
    } else if s[0] == '"' {
        None
    } else if s[0] == '\\' {
        if s.len() < 2 {
            None
        } else {
            match unescaped(s.skip(2)) {
                Some(rest) => Some(seq![unescape(s[1])] + rest),
                None => None,
            }
        }
    } else {
        match unescaped(s.skip(1)) {
            Some(rest) => Some(seq![s[0]] + rest),
            None => None,
        }
    }
}

proof fn lemma_unescaped_prefix(c: char, rest: Seq<char>)
    ensures
        unescaped(escape(c) + rest) == match unescaped(rest) {
            Some(t) => Some(seq![c] + t),
            None => None,
        },
{
    let s = escape(c) + rest;
    if escape(c).len() == 2 {
        assert(s.skip(2) =~= rest);
    } else {
        assert(s.skip(1) =~= rest);
    }
}

proof fn lemma_unescaped_before(s: Seq<char>, rest: Seq<char>)
    ensures
        unescaped(escaped(s) + rest) == match unescaped(rest) {
            Some(t) => Some(s + t),
            None => None,
        },
    decreases s.len(),
{
    if s.len() == 0 {
        assert(escaped(s) + rest =~= rest);
        match unescaped(rest) {
            Some(t) => assert(s + t =~= t),
            None => {},
        }
    } else {
        let more = escape(s.last()) + rest;
        lemma_unescaped_before(s.drop_last(), more);
        lemma_unescaped_prefix(s.last(), rest);
        assert(escaped(s) + rest =~= escaped(s.drop_last()) + more);
        match unescaped(rest) {
            Some(t) => assert(s.drop_last() + (seq![s.last()] + t) =~= s + t),
            None => {},
        }
    }
}

/// A quoted value reads back as itself: no value can end its string early or
/// turn into another one.
pub proof fn law_quoted_value_reads_back(s: Seq<char>)
    ensures
        quoted(s).len() >= 2,
        quoted(s)[0] == '"',
        quoted(s).last() == '"',
        unescaped(quoted(s).subrange(1, quoted(s).len() - 1)) == Some(s),
{
    let q = quoted(s);
    assert(q.subrange(1, q.len() - 1) =~= escaped(s));
    lemma_unescaped_before(s, Seq::empty());
    assert(escaped(s) + Seq::<char>::empty() =~= escaped(s));
    assert(s + Seq::<char>::empty() =~= s);
}

/// The lines of a quoted value: there is only one.
pub proof fn law_quoted_value_stays_on_its_line(s: Seq<char>)
    ensures
        forall|i: int|
            0 <= i < quoted(s).len() ==> (#[trigger] quoted(s)[i]) != '\n' && quoted(s)[i] != '\r',
{
    lemma_escaped_has_no_line_end(s);
    let e = escaped(s);
    assert forall|i: int| 0 <= i < quoted(s).len() implies (#[trigger] quoted(s)[i]) != '\n'
        && quoted(s)[i] != '\r' by {
        if 0 < i < quoted(s).len() - 1 {
            assert(quoted(s)[i] == e[i - 1]);
        }
    }
}

proof fn lemma_escaped_has_no_line_end(s: Seq<char>)
    ensures
        forall|i: int|
            0 <= i < escaped(s).len() ==> (#[trigger] escaped(s)[i]) != '\n' && escaped(s)[i]
                != '\r',
    decreases s.len(),
{
    if s.len() > 0 {
        lemma_escaped_has_no_line_end(s.drop_last());
        let head = escaped(s.drop_last());
        assert forall|i: int| 0 <= i < escaped(s).len() implies (#[trigger] escaped(s)[i]) != '\n'
            && escaped(s)[i] != '\r' by {
            if i < head.len() {
                assert(escaped(s)[i] == head[i]);
            }
        }
    }
}

/// The compose overlay that makes a profile take effect.
pub open spec fn overlay_of(provider: Provider, profile: ProfileView) -> Result<
    Seq<char>,
    Seq<char>,
> {
    match provider {
        Provider::NordVpn => match profile.endpoint_hostname {
            Some(host) => Ok(
                "services:\n  vpn_gateway:\n    environment:\n      SERVER_COUNTRIES: \"\"\n      SERVER_HOSTNAMES: "@
                    + quoted(host) + "\n"@,
            ),
            None => Err("NordVPN profile did not yield a hostname"@),
        },
        Provider::ProtonVpn => Ok(
            "services:\n  vpn_gateway:\n    environment:\n      SERVER_COUNTRIES: \"\"\n    volumes:\n      - "@
                + quoted(profile.path + ":/gluetun/wireguard/wg0.conf:ro"@) + "\n"@,
        ),
        Provider::Direct => Err("Direct mode has no VPN profile overlay"@),
    }
}

/// Writes the compose overlay that makes a profile take effect: one provider
/// selects the server by its host name, the other mounts the profile itself.
pub fn profile_overlay(provider: Provider, profile: &ValidatedProfile) -> (r: Result<
    String,
    String,
>)
    ensures
        match r {
            Ok(s) => overlay_of(provider, profile@) == Ok::<Seq<char>, Seq<char>>(s@),
            Err(e) => overlay_of(provider, profile@) == Err::<Seq<char>, Seq<char>>(e@),
        },
{
    match provider {
        Provider::NordVpn => match &profile.endpoint_hostname {
            Some(host) => Ok(
                join::plus3(
                    "services:\n  vpn_gateway:\n    environment:\n      SERVER_COUNTRIES: \"\"\n      SERVER_HOSTNAMES: ",
                    yaml_double_quoted(host.as_str()).as_str(),
                    "\n",
                ),
            ),
            None => Err("NordVPN profile did not yield a hostname".to_owned()),
        },
        Provider::ProtonVpn => {
            let mount = join::plus(profile.path.as_str(), ":/gluetun/wireguard/wg0.conf:ro");
            Ok(
                join::plus3(
                    "services:\n  vpn_gateway:\n    environment:\n      SERVER_COUNTRIES: \"\"\n    volumes:\n      - ",
                    yaml_double_quoted(mount.as_str()).as_str(),
                    "\n",
                ),
            )
        },
        Provider::Direct => Err("Direct mode has no VPN profile overlay".to_owned()),
    }
}

/// The overlay for a profile whose server is selected by its host: five lines,
/// the last of which names the host.
pub proof fn law_overlay_selects_host(profile: ProfileView, host: Seq<char>)
    requires
        profile.endpoint_hostname == Some(host),
    ensures
        overlay_of(Provider::NordVpn, profile) matches Ok(text) && text == split::ended(
            seq![
                "services:"@,
                "  vpn_gateway:"@,
                "    environment:"@,
                "      SERVER_COUNTRIES: \"\""@,
                "      SERVER_HOSTNAMES: "@ + quoted(host),
            ],
            seq!['\n'],
        ),
{
    let a = "services:"@;
    let b = "  vpn_gateway:"@;
    let c = "    environment:"@;
    let d = "      SERVER_COUNTRIES: \"\""@;
    let e = "      SERVER_HOSTNAMES: "@ + quoted(host);
    let n = seq!['\n'];
    reveal_strlit("services:");
    reveal_strlit("  vpn_gateway:");
    reveal_strlit("    environment:");
    reveal_strlit("      SERVER_COUNTRIES: \"\"");
    reveal_strlit("      SERVER_HOSTNAMES: ");
    reveal_strlit("\n");
    reveal_strlit(
        "services:\n  vpn_gateway:\n    environment:\n      SERVER_COUNTRIES: \"\"\n      SERVER_HOSTNAMES: ",
    );
    lemma_five_lines(a, b, c, d, e);
    assert("services:\n  vpn_gateway:\n    environment:\n      SERVER_COUNTRIES: \"\"\n      SERVER_HOSTNAMES: "@
        =~= a + n + b + n + c + n + d + n + "      SERVER_HOSTNAMES: "@);
    assert("\n"@ =~= n);
    assert(overlay_of(Provider::NordVpn, profile)->Ok_0 =~= a + n + b + n + c + n + d + n + e + n);
}

proof fn lemma_five_lines(
    a: Seq<char>,
    b: Seq<char>,
    c: Seq<char>,
    d: Seq<char>,
    e: Seq<char>,
)
    ensures
        split::ended(seq![a, b, c, d, e], seq!['\n']) == a + seq!['\n'] + b + seq!['\n'] + c + seq![
            '\n',
        ] + d + seq!['\n'] + e + seq!['\n'],
{
    let n = seq!['\n'];
    reveal_with_fuel(split::ended, 7);
    assert(seq![a, b, c, d, e].skip(1) =~= seq![b, c, d, e]);
    assert(seq![b, c, d, e].skip(1) =~= seq![c, d, e]);
    assert(seq![c, d, e].skip(1) =~= seq![d, e]);
    assert(seq![d, e].skip(1) =~= seq![e]);
    assert(seq![e].skip(1) =~= Seq::<Seq<char>>::empty());
    assert(split::ended(seq![a, b, c, d, e], n) =~= a + n + b + n + c + n + d + n + e + n);
}

/// The overlay for a profile that is mounted: six lines, the last of which
/// names the file and the place where the gateway reads it, read only.
pub proof fn law_overlay_mounts_profile(profile: ProfileView)
    ensures
        overlay_of(Provider::ProtonVpn, profile) matches Ok(text) && text == split::ended(
            seq![
                "services:"@,
                "  vpn_gateway:"@,
                "    environment:"@,
                "      SERVER_COUNTRIES: \"\""@,
                "    volumes:"@,
            ],
            seq!['\n'],
        ) + "      - "@ + quoted(profile.path + ":/gluetun/wireguard/wg0.conf:ro"@) + seq!['\n'],
{
    let a = "services:"@;
    let b = "  vpn_gateway:"@;
    let c = "    environment:"@;
    let d = "      SERVER_COUNTRIES: \"\""@;
    let e = "    volumes:"@;
    let n = seq!['\n'];
    reveal_strlit("services:");
    reveal_strlit("  vpn_gateway:");
    reveal_strlit("    environment:");
    reveal_strlit("      SERVER_COUNTRIES: \"\"");
    reveal_strlit("    volumes:");
    reveal_strlit("      - ");
    reveal_strlit("\n");
    reveal_strlit(
        "services:\n  vpn_gateway:\n    environment:\n      SERVER_COUNTRIES: \"\"\n    volumes:\n      - ",
    );
    lemma_five_lines(a, b, c, d, e);
    assert("services:\n  vpn_gateway:\n    environment:\n      SERVER_COUNTRIES: \"\"\n    volumes:\n      - "@
        =~= a + n + b + n + c + n + d + n + e + n + "      - "@);
    assert("\n"@ =~= n);
}

/// There is no overlay for the direct connection, nor for a profile that does
/// not say which host to select.
pub proof fn law_overlay_needs_profile(profile: ProfileView)
    ensures
        overlay_of(Provider::Direct, profile) == Err::<Seq<char>, Seq<char>>(
            "Direct mode has no VPN profile overlay"@,
        ),
        profile.endpoint_hostname is None ==> overlay_of(Provider::NordVpn, profile) == Err::<
            Seq<char>,
            Seq<char>,
        >("NordVPN profile did not yield a hostname"@),
{
}

/// A value without backslashes, quotes, tabs and ends of lines stands between
/// the quotes as it is.
pub proof fn law_plain_value_is_quoted_as_it_is(s: Seq<char>)
    requires
        split::lacks(s, '\\'),
        split::lacks(s, '"'),
        split::lacks(s, '\n'),
        split::lacks(s, '\r'),
        split::lacks(s, '\t'),
    ensures
        quoted(s) == seq!['"'] + s + seq!['"'],
{
    lemma_plain_value(s);
}

proof fn lemma_plain_value(s: Seq<char>)
    requires
        split::lacks(s, '\\'),
        split::lacks(s, '"'),
        split::lacks(s, '\n'),
        split::lacks(s, '\r'),
        split::lacks(s, '\t'),
    ensures
        escaped(s) == s,
    decreases s.len(),
{
    if s.len() > 0 {
        let front = s.drop_last();
        assert forall|c: char| split::lacks(s, c) implies #[trigger] split::lacks(front, c) by {
            assert forall|j: int| 0 <= j < front.len() implies #[trigger] front[j] != c by {
                assert(front[j] == s[j]);
            }
        }
        lemma_plain_value(front);
        let c = s[s.len() - 1];
        assert(c != '\\' && c != '"' && c != '\n' && c != '\r' && c != '\t');
        assert(escaped(s) =~= s);
    } else {
        assert(escaped(s) =~= s);
    }
}

} // verus!
