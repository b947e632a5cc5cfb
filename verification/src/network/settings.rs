use vstd::prelude::*;

use crate::network::provider::Provider;
use crate::text::chars;
use crate::text::join;
use crate::text::list;
use crate::text::split;

verus! {

/// Where a provider's profiles are and which files count as profiles.
pub struct ProfileSettings {
    pub directory: String,
    /// File extensions in small letters, each with its dot; none occurs twice.
    pub extensions: Vec<String>,
}

/// A value without the quotes around it, where it has a pair of them.
pub open spec fn unquoted(s: Seq<char>) -> Seq<char> {
    if s.len() >= 2 && ((s[0] == '"' && s.last() == '"') || (s[0] == '\'' && s.last() == '\'')) {
        s.subrange(1, s.len() - 1)
    } else {
        s
    }
}

fn unquote(v: &[char]) -> (r: &[char])
    ensures
        r@ == unquoted(v@),
{
    if v.len() >= 2 && ((v[0] == '"' && v[v.len() - 1] == '"') || (v[0] == '\'' && v[v.len() - 1]
        == '\'')) {
        vstd::slice::slice_subrange(v, 1, v.len() - 1)
    } else {
        v
    }
}

/// Takes the quotes off an environment value.
pub fn unquote_env_value(value: &str) -> (r: String)
    ensures
        r@ == unquoted(value@),
{
    chars::string_of(unquote(chars::chars_of(value).as_slice()))
}

/// The value that one line of an environment file gives to a key.
pub open spec fn line_value(original: Seq<char>, key: Seq<char>) -> Option<Seq<char>> {
    let line = chars::trimmed(original);
    if line.len() == 0 || line[0] == '#' {
        None
    } else {
        match split::cut(line, '=') {
            Some((k, v)) => if chars::trimmed(k) == key {
                Some(unquoted(chars::trimmed(v)))
            } else {
                None
            },
            None => None,
        }
    }
}

/// The value that the lines of an environment file give to a key: the last one
/// counts.
pub open spec fn lines_value(lines: Seq<Seq<char>>, key: Seq<char>) -> Option<Seq<char>>
    decreases lines.len(),
{
    if lines.len() == 0 {
        None
    } else {
        match line_value(lines.last(), key) {
            Some(v) => Some(v),
            None => lines_value(lines.drop_last(), key),
        }
    }
}

pub open spec fn setting(contents: Seq<char>, key: Seq<char>) -> Option<Seq<char>> {
    lines_value(split::lines_of(contents), key)
}

fn value_on_line(original: &[char], key: &str) -> (r: Option<String>)
    ensures
        list::text_of(r) == line_value(original@, key@),
{
    let line = chars::trim(original);
    if line.len() == 0 || line[0] == '#' {
        return None;
    }
    match split::split_once(line, '=') {
        Some((k, v)) => if chars::spells(chars::trim(k), key) {
            Some(chars::string_of(unquote(chars::trim(v))))
        } else {
            None
        },
        None => None,
    }
}

/// Reads one setting from the text of an environment file, and nothing else
/// of it.
pub fn read_dotenv_setting(contents: &str, requested_key: &str) -> (r: Option<String>)
    ensures
        list::text_of(r) == setting(contents@, requested_key@),
{
    let c = chars::chars_of(contents);
    let lines = split::lines(c.as_slice());
    let ghost all = split::lines_of(contents@);
    assert(all.len() == lines@.len());
    let mut i: usize = lines.len();
    assert(all.take(i as int) == all);
    while i > 0
        invariant
            i <= lines.len(),
            all == split::runs(lines@),
            setting(contents@, requested_key@) == lines_value(all.take(i as int), requested_key@),
        decreases i,
    {
        i -= 1;
        assert(all.take(i + 1).drop_last() == all.take(i as int));
        assert(all.take(i + 1).last() == lines@[i as int]@);
        match value_on_line(lines[i].as_slice(), requested_key) {
            Some(v) => return Some(v),
            None => {},
        }
    }
    None
}

/// A file extension: a dot and at least one ASCII letter or digit.
pub open spec fn is_extension(s: Seq<char>) -> bool {
    &&& s.len() > 1
    &&& s[0] == '.'
    &&& forall|i: int| 1 <= i < s.len() ==> chars::is_alphanumeric(#[trigger] s[i])
}

fn extension_is_valid(c: &[char]) -> (r: bool)
    ensures
        r == is_extension(c@),
{
    if c.len() < 2 || c[0] != '.' {
        return false;
    }
    let mut i: usize = 1;
    while i < c.len()
        invariant
            1 <= i <= c.len(),
            forall|j: int| 1 <= j < i ==> chars::is_alphanumeric(#[trigger] c@[j]),
        decreases c.len() - i,
    {
        if !chars::alphanumeric(c[i]) {
            assert(!chars::is_alphanumeric(c@[i as int]));
            return false;
        }
        i += 1;
    }
    true
}

/// Whether the text is a file extension with its dot.
pub fn is_valid_extension(extension: &str) -> (r: bool)
    ensures
        r == is_extension(extension@),
{
    extension_is_valid(chars::chars_of(extension).as_slice())
}

/// The extensions among comma-separated pieces: what is not blank, in small
/// letters.
pub open spec fn listed(parts: Seq<Seq<char>>) -> Seq<Seq<char>>
    decreases parts.len(),
{
    if parts.len() == 0 {
        Seq::empty()
    } else {
        let before = listed(parts.drop_last());
        let part = chars::trimmed(parts.last());
        if part.len() == 0 {
            before
        } else {
            before.push(chars::lower(part))
        }
    }
}

pub open spec fn all_extensions(list: Seq<Seq<char>>) -> bool {
    forall|i: int| 0 <= i < list.len() ==> is_extension(#[trigger] list[i])
}

/// What the settings of a provider are, up to the order of the extensions, or
/// what is wrong with them.
pub open spec fn settings_of(provider: Provider, contents: Result<Seq<char>, Seq<char>>) -> Result<
    (Seq<char>, Seq<Seq<char>>),
    Seq<char>,
> {
    match (provider.directory_key(), provider.extensions_key()) {
        (Some(directory_key), Some(extensions_key)) => match contents {
            Err(e) => Err("could not read .env: "@ + e),
            Ok(text) => {
                let directory = setting(text, directory_key);
                let raw = setting(text, extensions_key);
                if directory is None || directory.unwrap().len() == 0 {
                    Err(directory_key + " is not configured in .env"@)
                } else if raw is None || raw.unwrap().len() == 0 {
                    Err(extensions_key + " is not configured in .env"@)
                } else {
                    let list = listed(split::pieces(raw.unwrap(), ','));
                    if !all_extensions(list) {
                        Err(extensions_key + " contains an invalid extension"@)
                    } else if list.len() == 0 {
                        Err(extensions_key + " has no usable extensions"@)
                    } else {
                        Ok((directory.unwrap(), list))
                    }
                }
            },
        },
        _ => Err("Direct mode has no profile settings"@),
    }
}

/// Whether a list holds exactly the names of another, each once.
pub open spec fn same_names(list: Seq<Seq<char>>, names: Seq<Seq<char>>) -> bool {
    &&& list.no_duplicates()
    &&& forall|n: Seq<char>| #[trigger] list.contains(n) <==> names.contains(n)
}

/// Reads the extensions; `None` where one is invalid.
fn read_extensions(raw: &str) -> (r: Option<Vec<String>>)
    ensures
        match r {
            Some(v) => all_extensions(listed(split::pieces(raw@, ','))) && same_names(
                list::texts(v@),
                listed(split::pieces(raw@, ',')),
            ),
            None => !all_extensions(listed(split::pieces(raw@, ','))),
        },
{
    let c = chars::chars_of(raw);
    let parts = split::split(c.as_slice(), ',');
    let ghost all = split::pieces(raw@, ',');
    let mut r: Vec<String> = Vec::new();
    let mut i: usize = 0;
    assert(list::texts(r@) =~= Seq::<Seq<char>>::empty());
    assert(listed(all.take(0)) =~= Seq::<Seq<char>>::empty());
    while i < parts.len()
        invariant
            i <= parts.len(),
            all == split::runs(parts@),
            all == split::pieces(raw@, ','),
            all_extensions(listed(all.take(i as int))),
            same_names(list::texts(r@), listed(all.take(i as int))),
        decreases parts.len() - i,
    {
        let ghost before = listed(all.take(i as int));
        assert(all.take(i + 1).drop_last() == all.take(i as int));
        assert(all.take(i + 1).last() == parts@[i as int]@);
        let part = chars::trim(parts[i].as_slice());
        if part.len() > 0 {
            let extension = chars::to_lower(part);
            let ghost now = listed(all.take(i + 1));
            assert(now == before.push(extension@));
            if !extension_is_valid(extension.as_slice()) {
                proof {
                    lemma_listed_grows(all, i + 1);
                    let whole = listed(all);
                    assert(now[before.len() as int] == extension@);
                    assert(!is_extension(whole[before.len() as int]));
                }
                return None;
            }
            let text = chars::string_of(extension.as_slice());
            let ghost t = list::texts(r@);
            if !list::holds(&r, text.as_str()) {
                r.push(text);
                assert(list::texts(r@) == t.push(extension@));
            }
            assert forall|n: Seq<char>| #[trigger] list::texts(r@).contains(n) <==> now.contains(
                n,
            ) by {
                list::lemma_push_contains(t, extension@, n);
                list::lemma_push_contains(before, extension@, n);
                assert(t.contains(n) <==> before.contains(n));
            }
            assert(list::texts(r@).no_duplicates());
        }
        i += 1;
    }
    assert(all.take(all.len() as int) == all);
    Some(r)
}

proof fn lemma_listed_grows(parts: Seq<Seq<char>>, n: int)
    requires
        0 <= n <= parts.len(),
    ensures
        listed(parts.take(n)).len() <= listed(parts).len(),
        forall|i: int|
            0 <= i < listed(parts.take(n)).len() ==> listed(parts)[i] == #[trigger] listed(
                parts.take(n),
            )[i],
    decreases parts.len(),
{
    if n == parts.len() {
        assert(parts.take(n) == parts);
    } else {
        lemma_listed_grows(parts.drop_last(), n);
        assert(parts.drop_last().take(n) == parts.take(n));
    }
}

/// Reads the settings of a provider from the text of the environment file, or
/// from the error that reading the file ended in.
pub fn profile_settings(provider: Provider, contents: &Result<String, String>) -> (r: Result<
    ProfileSettings,
    String,
>)
    ensures
        ({
            let text = match contents {
                Ok(t) => Ok(t@),
                Err(e) => Err(e@),
            };
            match r {
                Ok(s) => settings_of(provider, text) matches Ok(expected) && s.directory@
                    == expected.0 && same_names(list::texts(s.extensions@), expected.1),
                Err(e) => settings_of(provider, text) == Err::<
                    (Seq<char>, Seq<Seq<char>>),
                    Seq<char>,
                >(e@),
            }
        }),
{
    let directory_key = match provider.profile_directory_key() {
        Some(k) => k,
        None => return Err("Direct mode has no profile settings".to_owned()),
    };
    let extensions_key = match provider.profile_extensions_key() {
        Some(k) => k,
        None => return Err("Direct mode has no profile settings".to_owned()),
    };
    let text = match contents {
        Ok(t) => t,
        Err(e) => return Err(join::plus("could not read .env: ", e.as_str())),
    };
    let directory = match read_dotenv_setting(text.as_str(), directory_key) {
        Some(d) => d,
        None => return Err(join::plus(directory_key, " is not configured in .env")),
    };
    if directory.as_str().is_empty() {
        return Err(join::plus(directory_key, " is not configured in .env"));
    }
    let raw = match read_dotenv_setting(text.as_str(), extensions_key) {
        Some(d) => d,
        None => return Err(join::plus(extensions_key, " is not configured in .env")),
    };
    if raw.as_str().is_empty() {
        return Err(join::plus(extensions_key, " is not configured in .env"));
    }
    match read_extensions(raw.as_str()) {
        None => Err(join::plus(extensions_key, " contains an invalid extension")),
        Some(extensions) => {
            let ghost list = listed(split::pieces(raw@, ','));
            proof {
                let t = list::texts(extensions@);
                if list.len() > 0 {
                    assert(list.contains(list[0]));
                    assert(t.contains(list[0]));
                }
                if t.len() > 0 {
                    assert(t.contains(t[0]));
                    assert(list.contains(t[0]));
                }
            }
            if extensions.len() == 0 {
                return Err(join::plus(extensions_key, " has no usable extensions"));
            }
            Ok(ProfileSettings { directory, extensions })
        },
    }
}

/// A pair of quotes comes off a value, whatever stands between them; other
/// values stay as they are.
pub proof fn law_quotes_come_off_in_pairs(v: Seq<char>)
    ensures
        unquoted(seq!['"'] + v + seq!['"']) == v,
        unquoted(seq!['\''] + v + seq!['\'']) == v,
        v.len() < 2 ==> unquoted(v) == v,
        v.len() > 0 && v[0] != '"' && v[0] != '\'' ==> unquoted(v) == v,
        v.len() > 0 && v[0] != v.last() ==> unquoted(v) == v,
{
    let a = seq!['"'] + v + seq!['"'];
    let b = seq!['\''] + v + seq!['\''];
    assert(a.subrange(1, a.len() - 1) =~= v);
    assert(b.subrange(1, b.len() - 1) =~= v);
}

/// Whether a text is one that trimming leaves alone and that can stand on one
/// line.
pub open spec fn is_env_text(s: Seq<char>) -> bool {
    &&& s.len() > 0
    &&& !chars::is_white_space(s[0])
    &&& !chars::is_white_space(s.last())
    &&& split::is_plain_line(s)
}

/// Whether a text can name a setting.
pub open spec fn is_env_key(s: Seq<char>) -> bool {
    is_env_text(s) && split::lacks(s, '=') && s[0] != '#'
}

/// A line gives its value to its key and to no other, whatever white space
/// stands around them; the value may hold equals signs.
pub proof fn law_line_gives_value_to_its_key(
    key: Seq<char>,
    value: Seq<char>,
    space: Seq<Seq<char>>,
    asked: Seq<char>,
)
    requires
        is_env_key(key),
        is_env_text(value),
        space.len() == 4,
        forall|i: int| 0 <= i < 4 ==> chars::all_white(#[trigger] space[i]),
    ensures
        line_value(space[0] + (key + space[1] + seq!['='] + space[2] + value) + space[3], asked)
            == if asked == key {
            Some(unquoted(value))
        } else {
            None
        },
{
    let line = key + space[1] + seq!['='] + space[2] + value;
    assert(chars::all_white(space[0]));
    assert(chars::all_white(space[1]));
    assert(chars::all_white(space[2]));
    assert(chars::all_white(space[3]));
    assert(line[0] == key[0]);
    assert(line.last() == value.last());
    chars::law_trimmed_is_what_stands_between(space[0], line, space[3]);
    let left = key + space[1];
    let right = space[2] + value;
    let none = Seq::<char>::empty();
    assert(line =~= left.push('=') + right);
    assert forall|j: int| 0 <= j < left.len() implies left[j] != '=' by {
        if j < key.len() {
            assert(left[j] == key[j]);
        } else {
            assert(left[j] == space[1][j - key.len()]);
            assert(chars::is_white_space(space[1][j - key.len()]));
        }
    }
    split::lemma_cut(left, '=', right);
    chars::law_trimmed_is_what_stands_between(none, key, space[1]);
    assert(none + key + space[1] =~= left);
    chars::law_trimmed_is_what_stands_between(space[2], value, none);
    assert(space[2] + value + none =~= right);
}

/// A comment gives no value, and neither does a line without an equals sign.
pub proof fn law_comments_give_no_value(
    lead: Seq<char>,
    comment: Seq<char>,
    plain: Seq<char>,
    key: Seq<char>,
)
    requires
        chars::all_white(lead),
        split::lacks(plain, '='),
    ensures
        line_value(lead + seq!['#'] + comment, key) is None,
        line_value(plain, key) is None,
{
    let s = lead + seq!['#'] + comment;
    let (a, b) = chars::law_trimming_loses_only_white_space(s);
    let t = chars::trimmed(s);
    let at = lead.len() as int;
    assert(s[at] == '#');
    if t.len() > 0 {
        if a.len() < at {
            assert(s[a.len() as int] == t[0]);
            assert(s[a.len() as int] == lead[a.len() as int]);
        } else if a.len() > at {
            assert(s[at] == a[at]);
        }
        assert(s[a.len() as int] == t[0]);
    }
    let (c, d) = chars::law_trimming_loses_only_white_space(plain);
    let u = chars::trimmed(plain);
    assert forall|j: int| 0 <= j < u.len() implies u[j] != '=' by {
        assert(plain[c.len() + j] == u[j]);
    }
    split::lemma_position_absent(u, '=');
}

/// The last line that gives a key a value counts, and what stands before it
/// does not.
pub proof fn law_last_value_counts(
    before: Seq<Seq<char>>,
    line: Seq<char>,
    after: Seq<Seq<char>>,
    key: Seq<char>,
)
    requires
        line_value(line, key) is Some,
        forall|i: int| 0 <= i < after.len() ==> line_value(#[trigger] after[i], key) is None,
    ensures
        lines_value(before + seq![line] + after, key) == line_value(line, key),
    decreases after.len(),
{
    let all = before + seq![line] + after;
    if after.len() == 0 {
        assert(all.last() == line);
    } else {
        assert(all.last() == after[after.len() - 1]);
        assert(all.drop_last() =~= before + seq![line] + after.drop_last());
        law_last_value_counts(before, line, after.drop_last(), key);
    }
}

/// A setting that no line gives has no value.
pub proof fn law_absent_setting_has_no_value(lines: Seq<Seq<char>>, key: Seq<char>)
    requires
        forall|i: int| 0 <= i < lines.len() ==> line_value(#[trigger] lines[i], key) is None,
    ensures
        lines_value(lines, key) is None,
    decreases lines.len(),
{
    if lines.len() > 0 {
        assert(line_value(lines[lines.len() - 1], key) is None);
        assert forall|i: int| 0 <= i < lines.drop_last().len() implies line_value(
            #[trigger] lines.drop_last()[i],
            key,
        ) is None by {
            assert(lines.drop_last()[i] == lines[i]);
        }
        law_absent_setting_has_no_value(lines.drop_last(), key);
    }
}

/// An extension is a dot and one letter or digit at least, and nothing else.
pub proof fn law_extension_is_dot_and_word(word: Seq<char>)
    ensures
        is_extension(seq!['.'] + word) <==> word.len() > 0 && forall|i: int|
            0 <= i < word.len() ==> ('0' <= #[trigger] word[i] <= '9' || 'a' <= word[i] <= 'z'
                || 'A' <= word[i] <= 'Z'),
        word.len() > 0 && word[0] != '.' ==> !is_extension(word),
{
    let s = seq!['.'] + word;
    if is_extension(s) {
        assert forall|i: int| 0 <= i < word.len() implies ('0' <= #[trigger] word[i] <= '9' || 'a'
            <= word[i] <= 'z' || 'A' <= word[i] <= 'Z') by {
            assert(s[i + 1] == word[i]);
            assert(chars::is_alphanumeric(s[i + 1]));
        }
    }
    if word.len() > 0 && forall|i: int|
        0 <= i < word.len() ==> ('0' <= #[trigger] word[i] <= '9' || 'a' <= word[i] <= 'z' || 'A'
            <= word[i] <= 'Z') {
        assert forall|i: int| 1 <= i < s.len() implies chars::is_alphanumeric(#[trigger] s[i]) by {
            assert(s[i] == word[i - 1]);
        }
    }
}

/// Whether a part of a list names an extension, in whatever case and with
/// whatever white space around it.
pub open spec fn names_extension(part: Seq<char>, n: Seq<char>) -> bool {
    chars::trimmed(part).len() > 0 && n == chars::lower(chars::trimmed(part))
}

/// The extensions listed are those that the parts name, and no others; blank
/// parts name none.
pub proof fn law_listed_extensions_are_those_named(parts: Seq<Seq<char>>, n: Seq<char>)
    ensures
        listed(parts).contains(n) <==> exists|i: int|
            0 <= i < parts.len() && names_extension(#[trigger] parts[i], n),
    decreases parts.len(),
{
    if parts.len() > 0 {
        let front = parts.drop_last();
        law_listed_extensions_are_those_named(front, n);
        let before = listed(front);
        list::lemma_push_contains(before, chars::lower(chars::trimmed(parts.last())), n);
        if before.contains(n) {
            let i = choose|i: int| 0 <= i < front.len() && names_extension(#[trigger] front[i], n);
            assert(parts[i] == front[i]);
        }
        if names_extension(parts.last(), n) {
            assert(names_extension(parts[parts.len() - 1], n));
        }
        if exists|i: int| 0 <= i < parts.len() && names_extension(#[trigger] parts[i], n) {
            let i = choose|i: int| 0 <= i < parts.len() && names_extension(#[trigger] parts[i], n);
            if i < front.len() {
                assert(front[i] == parts[i]);
            }
        }
    }
}

/// A setting on a line of its own.
pub open spec fn env_line(key: Seq<char>, value: Seq<char>) -> Seq<char> {
    key + seq!['='] + value
}

proof fn lemma_env_line(key: Seq<char>, value: Seq<char>, asked: Seq<char>)
    requires
        is_env_key(key),
        is_env_text(value),
    ensures
        line_value(env_line(key, value), asked) == if asked == key {
            Some(unquoted(value))
        } else {
            None
        },
        split::is_plain_line(env_line(key, value)),
{
    let none = Seq::<char>::empty();
    law_line_gives_value_to_its_key(key, value, seq![none, none, none, none], asked);
    let line = env_line(key, value);
    assert(line =~= none + (key + none + seq!['='] + none + value) + none);
    assert forall|i: int| 0 <= i < line.len() implies line[i] != '\n' && line[i] != '\r' by {
        if i < key.len() {
            assert(line[i] == key[i]);
        } else if i > key.len() {
            assert(line[i] == value[i - key.len() - 1]);
        }
    }
}

/// The names of the two settings of a provider that has profiles.
pub open spec fn keys_of(provider: Provider) -> (Seq<char>, Seq<char>) {
    if provider == Provider::NordVpn {
        ("NORDVPN_PROFILE_DIRECTORY"@, "NORDVPN_PROFILE_EXTENSIONS"@)
    } else {
        ("PROTONVPN_PROFILE_DIRECTORY"@, "PROTONVPN_PROFILE_EXTENSIONS"@)
    }
}

proof fn lemma_keys()
    ensures
        is_env_key("NORDVPN_PROFILE_DIRECTORY"@),
        is_env_key("NORDVPN_PROFILE_EXTENSIONS"@),
        is_env_key("PROTONVPN_PROFILE_DIRECTORY"@),
        is_env_key("PROTONVPN_PROFILE_EXTENSIONS"@),
        "NORDVPN_PROFILE_DIRECTORY"@ != "NORDVPN_PROFILE_EXTENSIONS"@,
        "PROTONVPN_PROFILE_DIRECTORY"@ != "PROTONVPN_PROFILE_EXTENSIONS"@,
{
    reveal_strlit("NORDVPN_PROFILE_DIRECTORY");
    reveal_strlit("NORDVPN_PROFILE_EXTENSIONS");
    reveal_strlit("PROTONVPN_PROFILE_DIRECTORY");
    reveal_strlit("PROTONVPN_PROFILE_EXTENSIONS");
    assert("NORDVPN_PROFILE_DIRECTORY"@.len() == 25);
    assert("NORDVPN_PROFILE_EXTENSIONS"@.len() == 26);
    assert("PROTONVPN_PROFILE_DIRECTORY"@.len() == 27);
    assert("PROTONVPN_PROFILE_EXTENSIONS"@.len() == 28);
}

/// A directory and a list of extensions are read from the lines that set them;
/// one extension that is none spoils the list, and without a directory there
/// are no settings.
pub proof fn law_settings_are_read(
    provider: Provider,
    directory: Seq<char>,
    extensions: Seq<char>,
)
    requires
        provider != Provider::Direct,
        is_env_text(directory),
        is_env_text(extensions),
        unquoted(directory).len() > 0,
        unquoted(extensions).len() > 0,
    ensures
        ({
            let (directory_key, extensions_key) = keys_of(provider);
            let first = env_line(directory_key, directory);
            let second = env_line(extensions_key, extensions);
            let names = listed(split::pieces(unquoted(extensions), ','));
            &&& settings_of(provider, Ok(split::ended(seq![first, second], seq!['\n'])))
                == if !all_extensions(names) {
                Err(extensions_key + " contains an invalid extension"@)
            } else if names.len() == 0 {
                Err(extensions_key + " has no usable extensions"@)
            } else {
                Ok((unquoted(directory), names))
            }
            &&& settings_of(provider, Ok(split::ended(seq![first], seq!['\n']))) == Err::<
                (Seq<char>, Seq<Seq<char>>),
                Seq<char>,
            >(extensions_key + " is not configured in .env"@)
            &&& settings_of(provider, Ok(split::ended(seq![second], seq!['\n']))) == Err::<
                (Seq<char>, Seq<Seq<char>>),
                Seq<char>,
            >(directory_key + " is not configured in .env"@)
        }),
{
    let (directory_key, extensions_key) = keys_of(provider);
    let first = env_line(directory_key, directory);
    let second = env_line(extensions_key, extensions);
    lemma_keys();
    lemma_env_line(directory_key, directory, directory_key);
    lemma_env_line(directory_key, directory, extensions_key);
    lemma_env_line(extensions_key, extensions, directory_key);
    lemma_env_line(extensions_key, extensions, extensions_key);
    let both = seq![first, second];
    let none = Seq::<Seq<char>>::empty();
    split::law_lines_are_found_again(both, false);
    split::law_lines_are_found_again(seq![first], false);
    split::law_lines_are_found_again(seq![second], false);
    law_last_value_counts(none, first, seq![second], directory_key);
    assert(none + seq![first] + seq![second] =~= both);
    law_last_value_counts(seq![first], second, none, extensions_key);
    assert(seq![first] + seq![second] + none =~= both);
    law_last_value_counts(none, first, none, directory_key);
    assert(none + seq![first] + none =~= seq![first]);
    law_absent_setting_has_no_value(seq![first], extensions_key);
    law_absent_setting_has_no_value(seq![second], directory_key);
}

/// The direct connection has no settings, and a file that cannot be read has
/// none either.
pub proof fn law_settings_need_profiles_and_file(
    provider: Provider,
    contents: Result<Seq<char>, Seq<char>>,
    error: Seq<char>,
)
    ensures
        settings_of(Provider::Direct, contents) == Err::<(Seq<char>, Seq<Seq<char>>), Seq<char>>(
            "Direct mode has no profile settings"@,
        ),
        provider != Provider::Direct ==> settings_of(provider, Err(error)) == Err::<
            (Seq<char>, Seq<Seq<char>>),
            Seq<char>,
        >("could not read .env: "@ + error),
{
}

} // verus!
