use vstd::prelude::*;

use crate::network::address;
use crate::network::profile;
use crate::network::profile::ProfileView;
use crate::network::profile::ValidatedProfile;
use crate::network::provider::Provider;
use crate::text::chars;
use crate::text::join;
use crate::text::number;
use crate::text::split;
use crate::voice::encoding;

verus! {

/// The sections of a WireGuard profile.
#[derive(Clone, Copy, Debug, PartialEq, Eq, Structural)]
pub enum Section {
    Interface,
    Peer,
}

impl Section {
    pub open spec fn title(self) -> Seq<char> {
        match self {
            Section::Interface => "Interface"@,
            Section::Peer => "Peer"@,
        }
    }

    pub fn name(self) -> (r: &'static str)
        ensures
            r@ == self.title(),
    {
        match self {
            Section::Interface => "Interface",
            Section::Peer => "Peer",
        }
    }
}

/// One setting of a profile.
pub struct Setting {
    pub section: Section,
    pub key: String,
    pub value: String,
}

/// The settings by section and key; a later one replaces an earlier one.
pub open spec fn table(settings: Seq<Setting>) -> Map<(Section, Seq<char>), Seq<char>>
    decreases settings.len(),
{
    if settings.len() == 0 {
        Map::empty()
    } else {
        let s = settings.last();
        table(settings.drop_last()).insert((s.section, s.key@), s.value@)
    }
}

/// What the lines of a profile have said so far.
#[verifier::ext_equal]
pub struct Reading {
    pub interface_seen: bool,
    pub peer_seen: bool,
    pub section: Option<Section>,
    pub values: Map<(Section, Seq<char>), Seq<char>>,
}

/// A complaint about one line, counted from one.
pub open spec fn on_line(problem: Seq<char>, index: int) -> Seq<char> {
    problem + " on line "@ + number::decimal_text((index + 1) as nat)
}

/// A line that opens a section.
pub open spec fn read_header(so_far: Reading, index: int, line: Seq<char>) -> Result<
    Reading,
    Seq<char>,
> {
    if line == "[Interface]"@ {
        if so_far.interface_seen {
            Err("duplicate section"@)
        } else {
            Ok(Reading { interface_seen: true, section: Some(Section::Interface), ..so_far })
        }
    } else if line == "[Peer]"@ {
        if so_far.peer_seen {
            Err("duplicate section"@)
        } else {
            Ok(Reading { peer_seen: true, section: Some(Section::Peer), ..so_far })
        }
    } else {
        Err(on_line("unsupported section"@, index))
    }
}

/// A line that gives a setting.
pub open spec fn read_setting(so_far: Reading, index: int, line: Seq<char>) -> Result<
    Reading,
    Seq<char>,
> {
    match so_far.section {
        None => Err(on_line("setting before a section"@, index)),
        Some(section) => match split::cut(line, '=') {
            None => Err(on_line("malformed setting"@, index)),
            Some((left, right)) => {
                let key = chars::trimmed(left);
                let value = chars::trimmed(right);
                if key.len() == 0 || value.len() == 0 {
                    Err(on_line("empty setting"@, index))
                } else if so_far.values.contains_key((section, key)) {
                    Err(on_line("duplicate setting"@, index))
                } else {
                    Ok(Reading { values: so_far.values.insert((section, key), value), ..so_far })
                }
            },
        },
    }
}

/// What one more line adds: nothing, where it is blank or a comment.
pub open spec fn read_line(so_far: Reading, index: int, original: Seq<char>) -> Result<
    Reading,
    Seq<char>,
> {
    let line = chars::trimmed(original);
    if line.len() == 0 || line[0] == '#' || line[0] == ';' {
        Ok(so_far)
    } else if line[0] == '[' && line.last() == ']' {
        read_header(so_far, index, line)
    } else {
        read_setting(so_far, index, line)
    }
}

pub open spec fn nothing_read() -> Reading {
    Reading { interface_seen: false, peer_seen: false, section: None, values: Map::empty() }
}

/// What the lines of a profile say, or the first thing wrong with them.
pub open spec fn read_lines(lines: Seq<Seq<char>>) -> Result<Reading, Seq<char>>
    decreases lines.len(),
{
    if lines.len() == 0 {
        Ok(nothing_read())
    } else {
        match read_lines(lines.drop_last()) {
            Ok(so_far) => read_line(so_far, lines.len() - 1, lines.last()),
            Err(e) => Err(e),
        }
    }
}

/// A setting that must be there.
pub open spec fn required(
    values: Map<(Section, Seq<char>), Seq<char>>,
    section: Section,
    key: Seq<char>,
) -> Result<Seq<char>, Seq<char>> {
    if values.contains_key((section, key)) {
        Ok(values[(section, key)])
    } else {
        Err("missing required "@ + section.title() + "."@ + key)
    }
}

/// The first required setting that is missing.
pub open spec fn missing(values: Map<(Section, Seq<char>), Seq<char>>) -> Option<Seq<char>> {
    if required(values, Section::Interface, "PrivateKey"@) is Err {
        Some(required(values, Section::Interface, "PrivateKey"@)->Err_0)
    } else if required(values, Section::Interface, "Address"@) is Err {
        Some(required(values, Section::Interface, "Address"@)->Err_0)
    } else if required(values, Section::Peer, "PublicKey"@) is Err {
        Some(required(values, Section::Peer, "PublicKey"@)->Err_0)
    } else if required(values, Section::Peer, "AllowedIPs"@) is Err {
        Some(required(values, Section::Peer, "AllowedIPs"@)->Err_0)
    } else if required(values, Section::Peer, "Endpoint"@) is Err {
        Some(required(values, Section::Peer, "Endpoint"@)->Err_0)
    } else {
        None
    }
}

/// The endpoint host of complete and valid settings, or the first thing wrong
/// with them.
pub open spec fn checked(values: Map<(Section, Seq<char>), Seq<char>>) -> Result<
    Seq<char>,
    Seq<char>,
> {
    match missing(values) {
        Some(e) => Err(e),
        None => if !address::is_key(values[(Section::Interface, "PrivateKey"@)])
            || !address::is_key(values[(Section::Peer, "PublicKey"@)]) {
            Err("WireGuard key is not a 32-byte base64 key"@)
        } else if !address::is_range_list(values[(Section::Interface, "Address"@)])
            || !address::is_range_list(values[(Section::Peer, "AllowedIPs"@)]) {
            Err("interface address or allowed IP range is invalid"@)
        } else {
            address::endpoint_host(values[(Section::Peer, "Endpoint"@)])
        },
    }
}

/// The host by which a provider selects the profile's server.
pub open spec fn selection_host(provider: Provider, host: Seq<char>) -> Result<
    Option<Seq<char>>,
    Seq<char>,
> {
    if provider == Provider::NordVpn {
        if address::ip_kind(host) is Some {
            Err("NordVPN endpoint must be a hostname for Gluetun server selection"@)
        } else {
            Ok(Some(host))
        }
    } else {
        Ok(None)
    }
}

/// The profile that a file holds, or why the file is not one.
pub open spec fn profile_of(
    provider: Provider,
    path: Seq<char>,
    name: Option<Seq<char>>,
    contents: Option<Seq<char>>,
) -> Result<ProfileView, Seq<char>> {
    match contents {
        None => Err("profile is not valid UTF-8 text"@),
        Some(text) => match read_lines(split::lines_of(text)) {
            Err(e) => Err(e),
            Ok(reading) => if !reading.interface_seen || !reading.peer_seen {
                Err("[Interface] and [Peer] sections are both required"@)
            } else {
                match checked(reading.values) {
                    Err(e) => Err(e),
                    Ok(host) => match selection_host(provider, host) {
                        Err(e) => Err(e),
                        Ok(endpoint_hostname) => match name {
                            Some(basename) => if profile::is_basename(basename) {
                                Ok(ProfileView { basename, path, endpoint_hostname })
                            } else {
                                Err("profile filename is not a safe UTF-8 basename"@)
                            },
                            None => Err("profile filename is not a safe UTF-8 basename"@),
                        },
                    },
                }
            },
        },
    }
}

/// The settings of a profile as read so far.
pub struct ProfileReader {
    pub interface_seen: bool,
    pub peer_seen: bool,
    pub section: Option<Section>,
    pub settings: Vec<Setting>,
}

impl View for ProfileReader {
    type V = Reading;

    open spec fn view(&self) -> Reading {
        Reading {
            interface_seen: self.interface_seen,
            peer_seen: self.peer_seen,
            section: self.section,
            values: table(self.settings@),
        }
    }
}

fn lookup<'a>(settings: &'a Vec<Setting>, section: Section, key: &[char]) -> (r: Option<&'a String>)
    ensures
        match r {
            Some(v) => table(settings@).contains_key((section, key@)) && table(
                settings@,
            )[(section, key@)] == v@,
            None => !table(settings@).contains_key((section, key@)),
        },
{
    let mut i: usize = settings.len();
    assert(settings@.take(i as int) == settings@);
    while i > 0
        invariant
            i <= settings.len(),
            table(settings@).contains_key((section, key@)) == table(
                settings@.take(i as int),
            ).contains_key((section, key@)),
            table(settings@)[(section, key@)] == table(settings@.take(i as int))[(section, key@)],
        decreases i,
    {
        i -= 1;
        let ghost now = settings@.take(i + 1);
        assert(now.drop_last() == settings@.take(i as int));
        assert(now.last() == settings@[i as int]);
        if settings[i].section == section && chars::spells(key, settings[i].key.as_str()) {
            return Some(&settings[i].value);
        }
    }
    None
}

fn complain(problem: &str, index: usize) -> (r: String)
    requires
        index < usize::MAX,
    ensures
        r@ == on_line(problem@, index as int),
{
    join::plus3(problem, " on line ", number::decimal((index + 1) as u64).as_str())
}

impl ProfileReader {
    fn header(&mut self, index: usize, line: &[char]) -> (r: Result<(), String>)
        requires
            index < usize::MAX,
        ensures
            match r {
                Ok(_) => read_header(old(self)@, index as int, line@) == Ok::<Reading, Seq<char>>(
                    final(self)@,
                ),
                Err(e) => read_header(old(self)@, index as int, line@) == Err::<Reading, Seq<char>>(
                    e@,
                ),
            },
    {
        if chars::spells(line, "[Interface]") {
            if self.interface_seen {
                return Err("duplicate section".to_owned());
            }
            self.interface_seen = true;
            self.section = Some(Section::Interface);
            Ok(())
        } else if chars::spells(line, "[Peer]") {
            if self.peer_seen {
                return Err("duplicate section".to_owned());
            }
            self.peer_seen = true;
            self.section = Some(Section::Peer);
            Ok(())
        } else {
            Err(complain("unsupported section", index))
        }
    }

    fn setting(&mut self, index: usize, line: &[char]) -> (r: Result<(), String>)
        requires
            index < usize::MAX,
        ensures
            match r {
                Ok(_) => read_setting(old(self)@, index as int, line@) == Ok::<Reading, Seq<char>>(
                    final(self)@,
                ),
                Err(e) => read_setting(old(self)@, index as int, line@) == Err::<
                    Reading,
                    Seq<char>,
                >(e@),
            },
    {
        match self.section {
            None => Err(complain("setting before a section", index)),
            Some(section) => match split::split_once(line, '=') {
                None => Err(complain("malformed setting", index)),
                Some((left, right)) => {
                    let key = chars::trim(left);
                    let value = chars::trim(right);
                    if key.len() == 0 || value.len() == 0 {
                        return Err(complain("empty setting", index));
                    }
                    if lookup(&self.settings, section, key).is_some() {
                        return Err(complain("duplicate setting", index));
                    }
                    let ghost before = self.settings@;
                    self.settings.push(
                        Setting {
                            section,
                            key: chars::string_of(key),
                            value: chars::string_of(value),
                        },
                    );
                    assert(self.settings@.drop_last() == before);
                    Ok(())
                },
            },
        }
    }

    fn line(&mut self, index: usize, original: &[char]) -> (r: Result<(), String>)
        requires
            index < usize::MAX,
        ensures
            match r {
                Ok(_) => read_line(old(self)@, index as int, original@) == Ok::<
                    Reading,
                    Seq<char>,
                >(final(self)@),
                Err(e) => read_line(old(self)@, index as int, original@) == Err::<
                    Reading,
                    Seq<char>,
                >(e@),
            },
    {
        let line = chars::trim(original);
        if line.len() == 0 || line[0] == '#' || line[0] == ';' {
            return Ok(());
        }
        if line[0] == '[' && line[line.len() - 1] == ']' {
            self.header(index, line)
        } else {
            self.setting(index, line)
        }
    }
}

fn read_profile(contents: &str) -> (r: Result<ProfileReader, String>)
    ensures
        match r {
            Ok(p) => read_lines(split::lines_of(contents@)) == Ok::<Reading, Seq<char>>(p@),
            Err(e) => read_lines(split::lines_of(contents@)) == Err::<Reading, Seq<char>>(e@),
        },
{
    let c = chars::chars_of(contents);
    let lines = split::lines(c.as_slice());
    let ghost all = split::lines_of(contents@);
    assert(all.len() == lines@.len());
    let mut reader = ProfileReader {
        interface_seen: false,
        peer_seen: false,
        section: None,
        settings: Vec::new(),
    };
    assert(reader@ == nothing_read());
    let mut i: usize = 0;
    assert(all.take(0).len() == 0);
    while i < lines.len()
        invariant
            i <= lines.len(),
            all == split::runs(lines@),
            all == split::lines_of(contents@),
            read_lines(all.take(i as int)) == Ok::<Reading, Seq<char>>(reader@),
        decreases lines.len() - i,
    {
        assert(all.take(i + 1).drop_last() == all.take(i as int));
        assert(all.take(i + 1).last() == lines@[i as int]@);
        let step = reader.line(i, lines[i].as_slice());
        match step {
            Ok(_) => {},
            Err(e) => {
                proof {
                    lemma_first_error_stays(all, i + 1);
                }
                return Err(e);
            },
        }
        i += 1;
    }
    assert(all.take(all.len() as int) == all);
    Ok(reader)
}

proof fn lemma_first_error_stays(lines: Seq<Seq<char>>, n: int)
    requires
        0 <= n <= lines.len(),
        read_lines(lines.take(n)) is Err,
    ensures
        read_lines(lines) == read_lines(lines.take(n)),
    decreases lines.len(),
{
    if n == lines.len() {
        assert(lines.take(n) == lines);
    } else {
        assert(lines.drop_last().take(n) == lines.take(n));
        lemma_first_error_stays(lines.drop_last(), n);
    }
}

/// Looks up a setting that must be there.
pub fn required_profile_field<'a>(
    settings: &'a Vec<Setting>,
    section: Section,
    key: &str,
) -> (r: Result<&'a str, String>)
    ensures
        match r {
            Ok(v) => required(table(settings@), section, key@) == Ok::<Seq<char>, Seq<char>>(v@),
            Err(e) => required(table(settings@), section, key@) == Err::<Seq<char>, Seq<char>>(e@),
        },
{
    let k = chars::chars_of(key);
    match lookup(settings, section, k.as_slice()) {
        Some(v) => Ok(v.as_str()),
        None => {
            let mut e = "missing required ".to_owned();
            e.append(section.name());
            e.append(".");
            e.append(key);
            Err(e)
        },
    }
}

fn check_settings(settings: &Vec<Setting>) -> (r: Result<String, String>)
    ensures
        match r {
            Ok(h) => checked(table(settings@)) == Ok::<Seq<char>, Seq<char>>(h@),
            Err(e) => checked(table(settings@)) == Err::<Seq<char>, Seq<char>>(e@),
        },
{
    let private_key = match required_profile_field(settings, Section::Interface, "PrivateKey") {
        Ok(v) => v,
        Err(e) => return Err(e),
    };
    let interface_address = match required_profile_field(settings, Section::Interface, "Address") {
        Ok(v) => v,
        Err(e) => return Err(e),
    };
    let public_key = match required_profile_field(settings, Section::Peer, "PublicKey") {
        Ok(v) => v,
        Err(e) => return Err(e),
    };
    let allowed_ips = match required_profile_field(settings, Section::Peer, "AllowedIPs") {
        Ok(v) => v,
        Err(e) => return Err(e),
    };
    let endpoint = match required_profile_field(settings, Section::Peer, "Endpoint") {
        Ok(v) => v,
        Err(e) => return Err(e),
    };
    if !address::is_wireguard_key(private_key) || !address::is_wireguard_key(public_key) {
        return Err("WireGuard key is not a 32-byte base64 key".to_owned());
    }
    if !address::is_cidr_list(interface_address) || !address::is_cidr_list(allowed_ips) {
        return Err("interface address or allowed IP range is invalid".to_owned());
    }
    address::parse_endpoint_host(endpoint)
}

/// Validates a WireGuard profile.
///
/// `name` is the file's name and `contents` its text; `None` stands for what
/// is not valid UTF-8, or could not be read as such.
pub fn validate_wireguard_profile(
    provider: Provider,
    path: &str,
    name: Option<&str>,
    contents: Option<&str>,
) -> (r: Result<ValidatedProfile, String>)
    ensures
        ({
            let n = match name {
                Some(n) => Some(n@),
                None => None,
            };
            let c = match contents {
                Some(c) => Some(c@),
                None => None,
            };
            match r {
                Ok(p) => profile_of(provider, path@, n, c) == Ok::<ProfileView, Seq<char>>(p@),
                Err(e) => profile_of(provider, path@, n, c) == Err::<ProfileView, Seq<char>>(e@),
            }
        }),
{
    let text = match contents {
        Some(c) => c,
        None => return Err("profile is not valid UTF-8 text".to_owned()),
    };
    let reader = match read_profile(text) {
        Ok(p) => p,
        Err(e) => return Err(e),
    };
    if !reader.interface_seen || !reader.peer_seen {
        return Err("[Interface] and [Peer] sections are both required".to_owned());
    }
    let host = match check_settings(&reader.settings) {
        Ok(h) => h,
        Err(e) => return Err(e),
    };
    let endpoint_hostname = match provider {
        Provider::NordVpn => {
            if address::parse_ip(chars::chars_of(host.as_str()).as_slice()).is_some() {
                return Err(
                    "NordVPN endpoint must be a hostname for Gluetun server selection".to_owned(),
                );
            }
            Some(host)
        },
        Provider::ProtonVpn | Provider::Direct => None,
    };
    let basename = match name {
        Some(n) => profile::safe_basename(n),
        None => None,
    };
    match basename {
        Some(basename) => Ok(
            ValidatedProfile { basename, path: path.to_owned(), endpoint_hostname },
        ),
        None => Err("profile filename is not a safe UTF-8 basename".to_owned()),
    }
}

/// A text that trimming leaves alone and that stands on one line.
pub open spec fn is_entry(s: Seq<char>) -> bool {
    &&& s.len() > 0
    &&& !chars::is_white_space(s[0])
    &&& !chars::is_white_space(s.last())
    &&& split::is_plain_line(s)
}

/// A text that can name a setting.
pub open spec fn is_setting_name(s: Seq<char>) -> bool {
    &&& is_entry(s)
    &&& split::lacks(s, '=')
    &&& s[0] != '[' && s[0] != '#' && s[0] != ';'
}

proof fn lemma_joined_white(a: Seq<char>, b: Seq<char>)
    requires
        chars::all_white(a),
        chars::all_white(b),
    ensures
        chars::all_white(a + b),
{
    assert forall|i: int| 0 <= i < (a + b).len() implies chars::is_white_space(
        #[trigger] (a + b)[i],
    ) by {
        if i < a.len() {
            assert((a + b)[i] == a[i]);
        } else {
            assert((a + b)[i] == b[i - a.len()]);
        }
    }
}

/// A setting in a section is remembered under its name, whatever white space
/// stands around the name and the value; the same name again in the section is
/// an error, and so is a setting before any section.
pub proof fn law_setting_is_remembered(
    so_far: Reading,
    index: int,
    key: Seq<char>,
    value: Seq<char>,
    space: Seq<Seq<char>>,
)
    requires
        is_setting_name(key),
        is_entry(value),
        space.len() == 4,
        forall|i: int| 0 <= i < 4 ==> chars::all_white(#[trigger] space[i]),
    ensures
        read_line(
            so_far,
            index,
            space[0] + (key + space[1] + seq!['='] + space[2] + value) + space[3],
        ) == match so_far.section {
            None => Err(
                "setting before a section"@ + " on line "@ + number::decimal_text(
                    (index + 1) as nat,
                ),
            ),
            Some(section) => if so_far.values.contains_key((section, key)) {
                Err(
                    "duplicate setting"@ + " on line "@ + number::decimal_text((index + 1) as nat),
                )
            } else {
                Ok(
                    Reading {
                        interface_seen: so_far.interface_seen,
                        peer_seen: so_far.peer_seen,
                        section: Some(section),
                        values: so_far.values.insert((section, key), value),
                    },
                )
            },
        },
{
    let line = key + space[1] + seq!['='] + space[2] + value;
    assert(chars::all_white(space[0]));
    assert(chars::all_white(space[1]));
    assert(chars::all_white(space[2]));
    assert(chars::all_white(space[3]));
    assert(line[0] == key[0]);
    assert(line.last() == value.last());
    chars::law_trimmed_is_what_stands_between(space[0], line, space[3]);
    let left = key + space[1];
    let right = space[2] + value;
    let none = Seq::<char>::empty();
    assert(line =~= left.push('=') + right);
    assert forall|j: int| 0 <= j < left.len() implies left[j] != '=' by {
        if j < key.len() {
            assert(left[j] == key[j]);
        } else {
            assert(left[j] == space[1][j - key.len()]);
            assert(chars::is_white_space(space[1][j - key.len()]));
        }
    }
    split::lemma_cut(left, '=', right);
    chars::law_trimmed_is_what_stands_between(none, key, space[1]);
    assert(none + key + space[1] =~= left);
    chars::law_trimmed_is_what_stands_between(space[2], value, none);
    assert(space[2] + value + none =~= right);
}

/// Blank lines, and lines that begin with a number sign or a semicolon, say
/// nothing, whatever else stands in them.
pub proof fn law_comments_say_nothing(
    so_far: Reading,
    index: int,
    lead: Seq<char>,
    comment: Seq<char>,
)
    requires
        chars::all_white(lead),
    ensures
        read_line(so_far, index, lead) == Ok::<Reading, Seq<char>>(so_far),
        read_line(so_far, index, lead + seq!['#'] + comment) == Ok::<Reading, Seq<char>>(so_far),
        read_line(so_far, index, lead + seq![';'] + comment) == Ok::<Reading, Seq<char>>(so_far),
{
    let none = Seq::<char>::empty();
    chars::law_trimmed_is_what_stands_between(lead, none, none);
    assert(lead + none + none =~= lead);
    lemma_comment(lead, '#', comment);
    lemma_comment(lead, ';', comment);
}

proof fn lemma_comment(lead: Seq<char>, c: char, comment: Seq<char>)
    requires
        chars::all_white(lead),
        !chars::is_white_space(c),
    ensures
        chars::trimmed(lead + seq![c] + comment).len() > 0,
        chars::trimmed(lead + seq![c] + comment)[0] == c,
{
    let s = lead + seq![c] + comment;
    let (a, b) = chars::law_trimming_loses_only_white_space(s);
    let t = chars::trimmed(s);
    let at = lead.len() as int;
    assert(s[at] == c);
    if t.len() == 0 {
        assert(s =~= a + b);
        lemma_joined_white(a, b);
        assert(chars::is_white_space(s[at]));
    } else {
        if a.len() < at {
            assert(s[a.len() as int] == t[0]);
            assert(s[a.len() as int] == lead[a.len() as int]);
        } else if a.len() > at {
            assert(s[at] == a[at]);
        }
        assert(s[a.len() as int] == t[0]);
    }
}

/// Each section may be opened once, and no other section at all.
pub proof fn law_sections_open_once(so_far: Reading, index: int, title: Seq<char>)
    requires
        split::is_plain_line(title),
    ensures
        read_line(so_far, index, seq!['['] + title + seq![']']) == if title == "Interface"@ {
            if so_far.interface_seen {
                Err("duplicate section"@)
            } else {
                Ok(
                    Reading {
                        interface_seen: true,
                        peer_seen: so_far.peer_seen,
                        section: Some(Section::Interface),
                        values: so_far.values,
                    },
                )
            }
        } else if title == "Peer"@ {
            if so_far.peer_seen {
                Err("duplicate section"@)
            } else {
                Ok(
                    Reading {
                        interface_seen: so_far.interface_seen,
                        peer_seen: true,
                        section: Some(Section::Peer),
                        values: so_far.values,
                    },
                )
            }
        } else {
            Err("unsupported section"@ + " on line "@ + number::decimal_text((index + 1) as nat))
        },
{
    let line = seq!['['] + title + seq![']'];
    assert(line[0] == '[' && line.last() == ']');
    chars::lemma_trimmed(line);
    reveal_strlit("Interface");
    reveal_strlit("Peer");
    reveal_strlit("[Interface]");
    reveal_strlit("[Peer]");
    assert("[Interface]"@ =~= seq!['['] + "Interface"@ + seq![']']);
    assert("[Peer]"@ =~= seq!['['] + "Peer"@ + seq![']']);
    assert(line.subrange(1, line.len() - 1) =~= title);
    assert("[Interface]"@.subrange(1, 10) =~= "Interface"@);
    assert("[Peer]"@.subrange(1, 5) =~= "Peer"@);
    assert("Peer"@.len() == 4 && "Interface"@.len() == 9);
}

/// A line of a profile that gives a setting.
pub open spec fn setting_line(key: Seq<char>, value: Seq<char>) -> Seq<char> {
    key + " = "@ + value
}

proof fn lemma_setting_line(so_far: Reading, index: int, key: Seq<char>, value: Seq<char>)
    requires
        is_setting_name(key),
        is_entry(value),
        so_far.section is Some,
        !so_far.values.contains_key((so_far.section.unwrap(), key)),
    ensures
        read_line(so_far, index, setting_line(key, value)) == Ok::<Reading, Seq<char>>(
            Reading {
                values: so_far.values.insert((so_far.section.unwrap(), key), value),
                ..so_far
            },
        ),
        split::is_plain_line(setting_line(key, value)),
{
    reveal_strlit(" = ");
    let none = Seq::<char>::empty();
    let space = seq![none, seq![' '], seq![' '], none];
    law_setting_is_remembered(so_far, index, key, value, space);
    let line = setting_line(key, value);
    assert(line =~= none + (key + seq![' '] + seq!['='] + seq![' '] + value) + none);
    assert forall|i: int| 0 <= i < line.len() implies line[i] != '\n' && line[i] != '\r' by {
        if i < key.len() {
            assert(line[i] == key[i]);
        } else if i >= key.len() + 3 {
            assert(line[i] == value[i - key.len() - 3]);
        }
    }
}

/// The lines of a profile with all the settings it needs.
pub open spec fn profile_lines(
    private_key: Seq<char>,
    ip: Seq<char>,
    public_key: Seq<char>,
    allowed: Seq<char>,
    endpoint: Seq<char>,
) -> Seq<Seq<char>> {
    seq![
        "[Interface]"@,
        setting_line("PrivateKey"@, private_key),
        setting_line("Address"@, ip),
        "[Peer]"@,
        setting_line("PublicKey"@, public_key),
        setting_line("AllowedIPs"@, allowed),
        setting_line("Endpoint"@, endpoint),
    ]
}

proof fn lemma_read_next(lines: Seq<Seq<char>>, i: int)
    requires
        0 <= i < lines.len(),
    ensures
        read_lines(lines.take(i + 1)) == match read_lines(lines.take(i)) {
            Ok(so_far) => read_line(so_far, i, lines[i]),
            Err(e) => Err(e),
        },
{
    let now = lines.take(i + 1);
    assert(now.drop_last() =~= lines.take(i));
    assert(now.last() == lines[i]);
}

proof fn lemma_names()
    ensures
        is_setting_name("PrivateKey"@),
        is_setting_name("Address"@),
        is_setting_name("PublicKey"@),
        is_setting_name("AllowedIPs"@),
        is_setting_name("Endpoint"@),
        "PrivateKey"@ != "Address"@,
        "PublicKey"@ != "AllowedIPs"@,
        "PublicKey"@ != "Endpoint"@,
        "AllowedIPs"@ != "Endpoint"@,
        split::is_plain_line("[Interface]"@),
        split::is_plain_line("[Peer]"@),
{
    reveal_strlit("PrivateKey");
    reveal_strlit("Address");
    reveal_strlit("PublicKey");
    reveal_strlit("AllowedIPs");
    reveal_strlit("Endpoint");
    reveal_strlit("[Interface]");
    reveal_strlit("[Peer]");
    assert("PrivateKey"@.len() == 10 && "AllowedIPs"@.len() == 10);
    assert("PublicKey"@.len() == 9 && "Endpoint"@.len() == 8 && "Address"@.len() == 7);
}

proof fn lemma_header_line(so_far: Reading, index: int)
    ensures
        !so_far.interface_seen ==> read_line(so_far, index, "[Interface]"@) == Ok::<
            Reading,
            Seq<char>,
        >(Reading { interface_seen: true, section: Some(Section::Interface), ..so_far }),
        !so_far.peer_seen ==> read_line(so_far, index, "[Peer]"@) == Ok::<Reading, Seq<char>>(
            Reading { peer_seen: true, section: Some(Section::Peer), ..so_far },
        ),
{
    reveal_strlit("[Interface]");
    reveal_strlit("[Peer]");
    assert("[Interface]"@.len() == 11 && "[Peer]"@.len() == 6);
    chars::lemma_trimmed("[Interface]"@);
    chars::lemma_trimmed("[Peer]"@);
}

proof fn lemma_profile_lines(
    private_key: Seq<char>,
    ip: Seq<char>,
    public_key: Seq<char>,
    allowed: Seq<char>,
    endpoint: Seq<char>,
)
    requires
        is_entry(private_key),
        is_entry(ip),
        is_entry(public_key),
        is_entry(allowed),
        is_entry(endpoint),
    ensures
        forall|i: int|
            0 <= i < 7 ==> split::is_plain_line(
                #[trigger] profile_lines(private_key, ip, public_key, allowed, endpoint)[i],
            ),
        read_lines(profile_lines(private_key, ip, public_key, allowed, endpoint)) matches Ok(r)
            && r.interface_seen && r.peer_seen && r.values == Map::<
            (Section, Seq<char>),
            Seq<char>,
        >::empty().insert((Section::Interface, "PrivateKey"@), private_key).insert(
            (Section::Interface, "Address"@),
            ip,
        ).insert((Section::Peer, "PublicKey"@), public_key).insert(
            (Section::Peer, "AllowedIPs"@),
            allowed,
        ).insert((Section::Peer, "Endpoint"@), endpoint),
{
    let lines = profile_lines(private_key, ip, public_key, allowed, endpoint);
    lemma_names();
    assert(lines.take(0) =~= Seq::empty());
    let r0 = nothing_read();
    assert(read_lines(lines.take(0)) == Ok::<Reading, Seq<char>>(r0));
    lemma_read_next(lines, 0);
    lemma_header_line(r0, 0);
    let r1 = Reading { interface_seen: true, section: Some(Section::Interface), ..r0 };
    lemma_read_next(lines, 1);
    lemma_setting_line(r1, 1, "PrivateKey"@, private_key);
    let r2 = Reading {
        values: r1.values.insert((Section::Interface, "PrivateKey"@), private_key),
        ..r1
    };
    lemma_read_next(lines, 2);
    lemma_setting_line(r2, 2, "Address"@, ip);
    let r3 = Reading { values: r2.values.insert((Section::Interface, "Address"@), ip), ..r2 };
    lemma_read_next(lines, 3);
    lemma_header_line(r3, 3);
    let r4 = Reading { peer_seen: true, section: Some(Section::Peer), ..r3 };
    lemma_read_next(lines, 4);
    lemma_setting_line(r4, 4, "PublicKey"@, public_key);
    let r5 = Reading { values: r4.values.insert((Section::Peer, "PublicKey"@), public_key), ..r4 };
    lemma_read_next(lines, 5);
    lemma_setting_line(r5, 5, "AllowedIPs"@, allowed);
    let r6 = Reading { values: r5.values.insert((Section::Peer, "AllowedIPs"@), allowed), ..r5 };
    lemma_read_next(lines, 6);
    lemma_setting_line(r6, 6, "Endpoint"@, endpoint);
    assert(lines.take(7) =~= lines);
    let r7 = Reading { values: r6.values.insert((Section::Peer, "Endpoint"@), endpoint), ..r6 };
    assert(read_lines(lines) == Ok::<Reading, Seq<char>>(r7));
    assert forall|i: int| 0 <= i < 7 implies split::is_plain_line(#[trigger] lines[i]) by {
        assert(i == 0 || i == 1 || i == 2 || i == 3 || i == 4 || i == 5 || i == 6);
    }
}

/// A profile with all its settings is accepted exactly where both keys are
/// keys, the addresses and the allowed addresses are ranges and the endpoint
/// names a host; for NordVPN that host must not be an address, and the profile
/// is selected by it.
pub proof fn law_profile_is_as_good_as_its_settings(
    provider: Provider,
    path: Seq<char>,
    basename: Seq<char>,
    private_key: Seq<char>,
    ip: Seq<char>,
    public_key: Seq<char>,
    allowed: Seq<char>,
    endpoint: Seq<char>,
)
    requires
        is_entry(private_key),
        is_entry(ip),
        is_entry(public_key),
        is_entry(allowed),
        is_entry(endpoint),
        profile::is_basename(basename),
    ensures
        profile_of(
            provider,
            path,
            Some(basename),
            Some(
                split::ended(
                    profile_lines(private_key, ip, public_key, allowed, endpoint),
                    seq!['\n'],
                ),
            ),
        ) == if !address::is_key(private_key) || !address::is_key(public_key) {
            Err("WireGuard key is not a 32-byte base64 key"@)
        } else if !address::is_range_list(ip) || !address::is_range_list(allowed) {
            Err("interface address or allowed IP range is invalid"@)
        } else {
            match address::endpoint_host(endpoint) {
                Err(e) => Err(e),
                Ok(host) => match provider {
                    Provider::NordVpn => if address::ip_kind(host) is Some {
                        Err("NordVPN endpoint must be a hostname for Gluetun server selection"@)
                    } else {
                        Ok(ProfileView { basename, path, endpoint_hostname: Some(host) })
                    },
                    _ => Ok(ProfileView { basename, path, endpoint_hostname: None }),
                },
            }
        },
{
    let lines = profile_lines(private_key, ip, public_key, allowed, endpoint);
    lemma_profile_lines(private_key, ip, public_key, allowed, endpoint);
    split::law_lines_are_found_again(lines, false);
    lemma_names();
    let values = read_lines(lines)->Ok_0.values;
    assert(values.contains_key((Section::Interface, "PrivateKey"@)));
    assert(values.contains_key((Section::Interface, "Address"@)));
    assert(values.contains_key((Section::Peer, "PublicKey"@)));
    assert(values.contains_key((Section::Peer, "AllowedIPs"@)));
    assert(values.contains_key((Section::Peer, "Endpoint"@)));
    assert(values[(Section::Interface, "PrivateKey"@)] == private_key);
    assert(values[(Section::Interface, "Address"@)] == ip);
    assert(values[(Section::Peer, "PublicKey"@)] == public_key);
    assert(values[(Section::Peer, "AllowedIPs"@)] == allowed);
    assert(values[(Section::Peer, "Endpoint"@)] == endpoint);
}

/// A profile with the base64 form of 32 bytes for each key, a range for its
/// address and one for the allowed addresses, and a host and a port for its
/// endpoint is accepted.
pub proof fn law_valid_profile_is_accepted(
    provider: Provider,
    path: Seq<char>,
    basename: Seq<char>,
    private_key: Seq<u8>,
    ip: Seq<char>,
    public_key: Seq<u8>,
    allowed: Seq<char>,
    host: Seq<char>,
    port: nat,
)
    requires
        profile::is_basename(basename),
        private_key.len() == 32,
        public_key.len() == 32,
        is_entry(ip),
        is_entry(allowed),
        address::is_range_list(ip),
        address::is_range_list(allowed),
        is_entry(host),
        host[0] != '[',
        address::is_hostname(host),
        address::ip_kind(chars::lower(host)) is None,
        1 <= port <= 65535,
    ensures
        profile_of(
            provider,
            path,
            Some(basename),
            Some(
                split::ended(
                    profile_lines(
                        encoding::base64_text(private_key),
                        ip,
                        encoding::base64_text(public_key),
                        allowed,
                        host + seq![':'] + number::decimal_text(port),
                    ),
                    seq!['\n'],
                ),
            ),
        ) == Ok::<ProfileView, Seq<char>>(
            ProfileView {
                basename,
                path,
                endpoint_hostname: if provider == Provider::NordVpn {
                    Some(chars::lower(host))
                } else {
                    None
                },
            },
        ),
{
    let endpoint = host + seq![':'] + number::decimal_text(port);
    let none = Seq::<char>::empty();
    lemma_key_entry(private_key);
    lemma_key_entry(public_key);
    address::law_key_is_32_bytes(private_key);
    address::law_key_is_32_bytes(public_key);
    address::law_endpoint_names_its_host(none, host, port, none);
    assert(none + endpoint + none =~= endpoint);
    let t = number::decimal_text(port);
    number::lemma_decimal_text(port);
    assert forall|i: int| 0 <= i < endpoint.len() implies endpoint[i] != '\n' && endpoint[i]
        != '\r' by {
        if i < host.len() {
            assert(endpoint[i] == host[i]);
        } else if i > host.len() {
            assert(endpoint[i] == t[i - host.len() - 1]);
            assert(chars::is_digit(t[i - host.len() - 1]));
        }
    }
    assert(endpoint.last() == t[t.len() - 1]);
    assert(chars::is_digit(t[t.len() - 1]));
    assert(endpoint[0] == host[0]);
    law_profile_is_as_good_as_its_settings(
        provider,
        path,
        basename,
        encoding::base64_text(private_key),
        ip,
        encoding::base64_text(public_key),
        allowed,
        endpoint,
    );
}

proof fn lemma_key_entry(bytes: Seq<u8>)
    requires
        bytes.len() > 0,
    ensures
        is_entry(encoding::base64_text(bytes)),
{
    let t = encoding::base64_text(bytes);
    encoding::lemma_base64_text(bytes);
    assert(!chars::is_white_space(t[0]));
    assert(!chars::is_white_space(t[t.len() - 1]));
    assert forall|i: int| 0 <= i < t.len() implies t[i] != '\n' && t[i] != '\r' by {
        assert(!chars::is_white_space(t[i]));
    }
}

/// Whether a setting is one of those that every profile must give.
pub open spec fn is_needed(section: Section, key: Seq<char>) -> bool {
    match section {
        Section::Interface => key == "PrivateKey"@ || key == "Address"@,
        Section::Peer => key == "PublicKey"@ || key == "AllowedIPs"@ || key == "Endpoint"@,
    }
}

/// A profile without one of the settings it needs is refused, and any other
/// setting makes no difference.
pub proof fn law_only_needed_settings_count(
    values: Map<(Section, Seq<char>), Seq<char>>,
    section: Section,
    key: Seq<char>,
    value: Seq<char>,
)
    ensures
        is_needed(section, key) && !values.contains_key((section, key)) ==> checked(values) is Err,
        !is_needed(section, key) ==> checked(values.insert((section, key), value)) == checked(
            values,
        ),
{
    let more = values.insert((section, key), value);
    if !is_needed(section, key) {
        assert(missing(more) == missing(values));
    }
}

/// A profile with the name of a setting that is missing says which.
pub proof fn law_first_missing_setting_is_named(
    values: Map<(Section, Seq<char>), Seq<char>>,
)
    requires
        values.contains_key((Section::Interface, "PrivateKey"@)),
        values.contains_key((Section::Interface, "Address"@)),
        values.contains_key((Section::Peer, "PublicKey"@)),
        values.contains_key((Section::Peer, "AllowedIPs"@)),
        !values.contains_key((Section::Peer, "Endpoint"@)),
    ensures
        checked(values) == Err::<Seq<char>, Seq<char>>("missing required Peer.Endpoint"@),
{
    reveal_strlit("missing required ");
    reveal_strlit("Peer");
    reveal_strlit(".");
    reveal_strlit("Endpoint");
    reveal_strlit("missing required Peer.Endpoint");
    assert("missing required "@ + "Peer"@ + "."@ + "Endpoint"@
        =~= "missing required Peer.Endpoint"@);
}

/// A text that ends after its first section is no profile, and neither are
/// bytes that are no text.
pub proof fn law_both_sections_are_needed(
    provider: Provider,
    path: Seq<char>,
    name: Option<Seq<char>>,
    text: Seq<char>,
)
    requires
        read_lines(split::lines_of(text)) matches Ok(r) && !(r.interface_seen && r.peer_seen),
    ensures
        profile_of(provider, path, name, Some(text)) == Err::<ProfileView, Seq<char>>(
            "[Interface] and [Peer] sections are both required"@,
        ),
        profile_of(provider, path, name, None) == Err::<ProfileView, Seq<char>>(
            "profile is not valid UTF-8 text"@,
        ),
{
}

/// A line that is wrong makes the whole profile wrong, whatever follows.
pub proof fn law_wrong_line_refuses_profile(lines: Seq<Seq<char>>, n: int)
    requires
        0 <= n <= lines.len(),
        read_lines(lines.take(n)) is Err,
    ensures
        read_lines(lines) == read_lines(lines.take(n)),
    decreases lines.len() - n,
{
    if n == lines.len() {
        assert(lines.take(n) =~= lines);
    } else {
        lemma_read_next(lines, n);
        law_wrong_line_refuses_profile(lines, n + 1);
    }
}

/// A line of a section that is no comment and gives no setting is an error,
/// and so is a setting without a name or without a value; the line is told.
pub proof fn law_malformed_lines_are_told(
    so_far: Reading,
    index: int,
    text: Seq<char>,
    key: Seq<char>,
    value: Seq<char>,
)
    requires
        so_far.section is Some,
        is_setting_name(text),
        is_setting_name(key),
        is_entry(value),
    ensures
        read_line(so_far, index, text) == Err::<Reading, Seq<char>>(
            "malformed setting"@ + " on line "@ + number::decimal_text((index + 1) as nat),
        ),
        read_line(so_far, index, key + seq!['=']) == Err::<Reading, Seq<char>>(
            "empty setting"@ + " on line "@ + number::decimal_text((index + 1) as nat),
        ),
        read_line(so_far, index, seq!['='] + value) == Err::<Reading, Seq<char>>(
            "empty setting"@ + " on line "@ + number::decimal_text((index + 1) as nat),
        ),
{
    let none = Seq::<char>::empty();
    chars::lemma_trimmed(text);
    split::lemma_position_absent(text, '=');
    let a = key + seq!['='];
    assert(a[0] == key[0]);
    chars::lemma_trimmed(a);
    split::lemma_cut(key, '=', none);
    assert(a =~= key.push('=') + none);
    chars::lemma_trimmed(key);
    assert(chars::trimmed(none) == none);
    let b = seq!['='] + value;
    assert(b.last() == value.last());
    chars::lemma_trimmed(b);
    split::lemma_cut(none, '=', value);
    assert(b =~= none.push('=') + value);
}

} // verus!
