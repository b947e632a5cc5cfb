use vstd::prelude::*;

use crate::text::chars;
use crate::text::join;
use crate::text::number;
use crate::text::split;

verus! {

/// How the server shows its message.
#[derive(Clone, Copy, Debug, PartialEq, Eq, Structural)]
pub enum HostMessageMode {
    Hidden,
    Log,
    Modal,
    Modalquit,
}

/// How the server's banner is fitted.
#[derive(Clone, Copy, Debug, PartialEq, Eq, Structural)]
pub enum HostBannerMode {
    NoAdjust,
    AdjustIgnoreAspect,
    AdjustKeepAspect,
}

/// Whether voice is encrypted.
#[derive(Clone, Copy, Debug, PartialEq, Eq, Structural)]
pub enum CodecEncryptionMode {
    PerChannel,
    ForcedOff,
    ForcedOn,
}

/// Whether a word spells another one, in whatever case.
pub open spec fn spelled(s: Seq<char>, word: Seq<char>) -> bool {
    chars::lower(s) == word
}

/// The mode of the server's message that a word stands for, in whatever case.
pub open spec fn host_message_mode(word: Seq<char>) -> Option<HostMessageMode> {
    if spelled(word, "none"@) {
        Some(HostMessageMode::Hidden)
    } else if spelled(word, "log"@) {
        Some(HostMessageMode::Log)
    } else if spelled(word, "modal"@) {
        Some(HostMessageMode::Modal)
    } else if spelled(word, "modalquit"@) {
        Some(HostMessageMode::Modalquit)
    } else {
        None
    }
}

/// Reads a mode of the server's message; case does not matter.
pub fn parse_host_message_mode(s: &str) -> (r: Option<HostMessageMode>)
    ensures
        r == host_message_mode(s@),
{
    let c = chars::chars_of(s);
    let word = chars::to_lower(c.as_slice());
    let word = word.as_slice();
    if chars::spells(word, "none") {
        Some(HostMessageMode::Hidden)
    } else if chars::spells(word, "log") {
        Some(HostMessageMode::Log)
    } else if chars::spells(word, "modal") {
        Some(HostMessageMode::Modal)
    } else if chars::spells(word, "modalquit") {
        Some(HostMessageMode::Modalquit)
    } else {
        None
    }
}

/// The mode of the server's banner that a word stands for, in whatever case.
pub open spec fn host_banner_mode(word: Seq<char>) -> Option<HostBannerMode> {
    if spelled(word, "noadjust"@) {
        Some(HostBannerMode::NoAdjust)
    } else if spelled(word, "adjustignoreaspect"@) {
        Some(HostBannerMode::AdjustIgnoreAspect)
    } else if spelled(word, "adjustkeepaspect"@) {
        Some(HostBannerMode::AdjustKeepAspect)
    } else {
        None
    }
}

/// Reads a mode of the server's banner; case does not matter.
pub fn parse_host_banner_mode(s: &str) -> (r: Option<HostBannerMode>)
    ensures
        r == host_banner_mode(s@),
{
    let c = chars::chars_of(s);
    let word = chars::to_lower(c.as_slice());
    let word = word.as_slice();
    if chars::spells(word, "noadjust") {
        Some(HostBannerMode::NoAdjust)
    } else if chars::spells(word, "adjustignoreaspect") {
        Some(HostBannerMode::AdjustIgnoreAspect)
    } else if chars::spells(word, "adjustkeepaspect") {
        Some(HostBannerMode::AdjustKeepAspect)
    } else {
        None
    }
}

/// The encryption that a word stands for, in whatever case.
pub open spec fn codec_encryption_mode(word: Seq<char>) -> Option<CodecEncryptionMode> {
    if spelled(word, "perchannel"@) {
        Some(CodecEncryptionMode::PerChannel)
    } else if spelled(word, "forcedoff"@) {
        Some(CodecEncryptionMode::ForcedOff)
    } else if spelled(word, "forcedon"@) {
        Some(CodecEncryptionMode::ForcedOn)
    } else {
        None
    }
}

/// Reads whether voice is encrypted; case does not matter.
pub fn parse_codec_encryption_mode(s: &str) -> (r: Option<CodecEncryptionMode>)
    ensures
        r == codec_encryption_mode(s@),
{
    let c = chars::chars_of(s);
    let word = chars::to_lower(c.as_slice());
    let word = word.as_slice();
    if chars::spells(word, "perchannel") {
        Some(CodecEncryptionMode::PerChannel)
    } else if chars::spells(word, "forcedoff") {
        Some(CodecEncryptionMode::ForcedOff)
    } else if chars::spells(word, "forcedon") {
        Some(CodecEncryptionMode::ForcedOn)
    } else {
        None
    }
}

/// Changes to the server's settings as they are asked for; what is absent
/// stays as it is.
pub struct ServerEditPayload {
    pub name: Option<String>,
    pub welcome_message: Option<String>,
    pub password: Option<String>,
    pub max_clients: Option<u16>,
    pub hostmessage: Option<String>,
    pub hostmessage_mode: Option<String>,
    pub hostbanner_url: Option<String>,
    pub hostbanner_gfx_url: Option<String>,
    pub hostbanner_gfx_interval_secs: Option<i64>,
    pub hostbanner_mode: Option<String>,
    pub hostbutton_tooltip: Option<String>,
    pub hostbutton_url: Option<String>,
    pub hostbutton_gfx_url: Option<String>,
    pub nickname: Option<String>,
    pub phonetic_name: Option<String>,
    pub codec_encryption_mode: Option<String>,
}

/// What happens to a password.
pub enum PasswordChange {
    Keep,
    Clear,
    Replace(String),
}

/// The settings of a change that are given by a word, and the password.
pub struct ServerEditChoices {
    pub password: PasswordChange,
    pub hostmessage_mode: Option<HostMessageMode>,
    pub hostbanner_mode: Option<HostBannerMode>,
    pub codec_encryption_mode: Option<CodecEncryptionMode>,
}

/// Decides what a change does to the password and the modes: an empty password
/// clears it, and a word that stands for no mode leaves the mode as it is.
pub fn server_edit_choices(payload: &ServerEditPayload) -> (r: ServerEditChoices)
    ensures
        match payload.password {
            Some(p) => if p@.len() == 0 {
                r.password is Clear
            } else {
                r.password matches PasswordChange::Replace(q) && q@ == p@
            },
            None => r.password is Keep,
        },
        r.hostmessage_mode == match payload.hostmessage_mode {
            Some(word) => host_message_mode(word@),
            None => None,
        },
        r.hostbanner_mode == match payload.hostbanner_mode {
            Some(word) => host_banner_mode(word@),
            None => None,
        },
        r.codec_encryption_mode == match payload.codec_encryption_mode {
            Some(word) => codec_encryption_mode(word@),
            None => None,
        },
        r.password is Clear <==> (payload.password matches Some(p) && p@.len() == 0),
        r.password is Keep <==> payload.password is None,
        payload.hostmessage_mode is None ==> r.hostmessage_mode is None,
        payload.hostbanner_mode is None ==> r.hostbanner_mode is None,
        payload.codec_encryption_mode is None ==> r.codec_encryption_mode is None,
{
    let password = match &payload.password {
        Some(p) => if chars::chars_of(p.as_str()).len() == 0 {
            PasswordChange::Clear
        } else {
            PasswordChange::Replace(p.clone())
        },
        None => PasswordChange::Keep,
    };
    ServerEditChoices {
        password,
        hostmessage_mode: match &payload.hostmessage_mode {
            Some(s) => parse_host_message_mode(s.as_str()),
            None => None,
        },
        hostbanner_mode: match &payload.hostbanner_mode {
            Some(s) => parse_host_banner_mode(s.as_str()),
            None => None,
        },
        codec_encryption_mode: match &payload.codec_encryption_mode {
            Some(s) => parse_codec_encryption_mode(s.as_str()),
            None => None,
        },
    }
}

/// Whether a server's version is one of GreenTeaSpeak: at least three numbers
/// between dots. TeaSpeak writes its name before them, and classic TeamSpeak
/// is at 3.
pub open spec fn is_greenteaspeak(version: Seq<char>) -> bool {
    let v = chars::trimmed(version);
    let p = split::pieces(v, '.');
    &&& v.len() > 0
    &&& !chars::begins(chars::lower(v), "teaspeak"@)
    &&& !chars::begins(chars::lower(v), "3."@)
    &&& p.len() >= 3
    &&& p[0].len() > 0 && number::all_digits(p[0])
    &&& p[1].len() > 0 && number::all_digits(p[1])
    &&& p[2].len() > 0 && chars::is_digit(p[2][0])
}

fn only_digits(s: &Vec<char>) -> (r: bool)
    ensures
        r == (s@.len() > 0 && number::all_digits(s@)),
{
    let mut i: usize = 0;
    while i < s.len()
        invariant
            i <= s.len(),
            forall|j: int| 0 <= j < i ==> chars::is_digit(#[trigger] s@[j]),
        decreases s.len() - i,
    {
        if !chars::digit(s[i]) {
            assert(!chars::is_digit(s@[i as int]));
            return false;
        }
        i += 1;
    }
    s.len() > 0
}

/// Whether a server's version is one of GreenTeaSpeak.
pub fn is_greenteaspeak_server_version(version: &str) -> (r: bool)
    ensures
        r == is_greenteaspeak(version@),
{
    let c = chars::chars_of(version);
    let v = chars::trim(c.as_slice());
    if v.len() == 0 {
        return false;
    }
    let lower = chars::to_lower(v);
    if chars::starts_with(lower.as_slice(), "teaspeak") || chars::starts_with(
        lower.as_slice(),
        "3.",
    ) {
        return false;
    }
    let p = split::split(v, '.');
    let ghost q = split::pieces(v@, '.');
    assert(split::runs(p@) == q);
    assert(p@.len() == q.len());
    if p.len() < 3 {
        return false;
    }
    assert(q[0] == p@[0]@ && q[1] == p@[1]@ && q[2] == p@[2]@);
    only_digits(&p[0]) && only_digits(&p[1]) && p[2].len() > 0 && chars::digit(p[2][0])
}

/// A server's license.
#[derive(Clone, Copy, Debug, PartialEq, Eq, Structural)]
pub enum LicenseType {
    NoLicense,
    Offline,
    Sdk,
    SdkOffline,
    Npl,
    Athp,
    Aal,
    DefaultSlots,
    Gamer,
    Sponsorship,
    Commercial,
}

/// The number of a license.
pub fn license_id(license: LicenseType) -> (r: u8)
    ensures
        r == match license {
            LicenseType::NoLicense => 0u8,
            LicenseType::Offline => 1u8,
            LicenseType::Sdk => 2u8,
            LicenseType::SdkOffline => 3u8,
            LicenseType::Npl => 4u8,
            LicenseType::Athp => 5u8,
            LicenseType::Aal => 6u8,
            LicenseType::DefaultSlots => 7u8,
            LicenseType::Gamer => 8u8,
            LicenseType::Sponsorship => 9u8,
            LicenseType::Commercial => 10u8,
        },
{
    match license {
        LicenseType::NoLicense => 0,
        LicenseType::Offline => 1,
        LicenseType::Sdk => 2,
        LicenseType::SdkOffline => 3,
        LicenseType::Npl => 4,
        LicenseType::Athp => 5,
        LicenseType::Aal => 6,
        LicenseType::DefaultSlots => 7,
        LicenseType::Gamer => 8,
        LicenseType::Sponsorship => 9,
        LicenseType::Commercial => 10,
    }
}

/// What a license is called: the kinds of server number them differently.
pub open spec fn license_name(license: LicenseType, version: Seq<char>) -> Seq<char> {
    if is_greenteaspeak(version) {
        match license {
            LicenseType::Offline => "Private"@,
            LicenseType::Sdk => "Premium"@,
            LicenseType::SdkOffline => "Authorized GreenTeaSpeak Host Provider"@,
            _ => "Keine Lizenz"@,
        }
    } else if chars::begins(chars::lower(chars::trimmed(version)), "teaspeak"@) {
        "Kein GreenTeaSpeak-Server"@
    } else {
        match license {
            LicenseType::NoLicense => "No License"@,
            LicenseType::Offline => "Offline / LAN"@,
            LicenseType::Sdk => "SDK"@,
            LicenseType::SdkOffline => "SDK Offline"@,
            LicenseType::Npl => "NPL"@,
            LicenseType::Athp => "ATHP"@,
            LicenseType::Aal => "AAL"@,
            LicenseType::DefaultSlots => "Default"@,
            LicenseType::Gamer => "Gamer"@,
            LicenseType::Sponsorship => "Sponsorship"@,
            LicenseType::Commercial => "Commercial"@,
        }
    }
}

/// What a server's license is called.
pub fn format_server_license(license: LicenseType, version: &str) -> (r: String)
    ensures
        r@ == license_name(license, version@),
{
    if is_greenteaspeak_server_version(version) {
        return match license {
            LicenseType::Offline => "Private".to_owned(),
            LicenseType::Sdk => "Premium".to_owned(),
            LicenseType::SdkOffline => "Authorized GreenTeaSpeak Host Provider".to_owned(),
            _ => "Keine Lizenz".to_owned(),
        };
    }
    let c = chars::chars_of(version);
    let lower = chars::to_lower(chars::trim(c.as_slice()));
    if chars::starts_with(lower.as_slice(), "teaspeak") {
        return "Kein GreenTeaSpeak-Server".to_owned();
    }
    match license {
        LicenseType::NoLicense => "No License".to_owned(),
        LicenseType::Offline => "Offline / LAN".to_owned(),
        LicenseType::Sdk => "SDK".to_owned(),
        LicenseType::SdkOffline => "SDK Offline".to_owned(),
        LicenseType::Npl => "NPL".to_owned(),
        LicenseType::Athp => "ATHP".to_owned(),
        LicenseType::Aal => "AAL".to_owned(),
        LicenseType::DefaultSlots => "Default".to_owned(),
        LicenseType::Gamer => "Gamer".to_owned(),
        LicenseType::Sponsorship => "Sponsorship".to_owned(),
        LicenseType::Commercial => "Commercial".to_owned(),
    }
}

/// Classic TeamSpeak 3 and classic TeaSpeak servers never get the labels of
/// GreenTeaSpeak, whatever else their versions hold.
pub proof fn law_classic_servers_keep_their_labels(license: LicenseType, version: Seq<char>)
    requires
        chars::begins(chars::lower(chars::trimmed(version)), "teaspeak"@) || chars::begins(
            chars::lower(chars::trimmed(version)),
            "3."@,
        ),
    ensures
        !is_greenteaspeak(version),
        chars::begins(chars::lower(chars::trimmed(version)), "teaspeak"@) ==> license_name(
            license,
            version,
        ) == "Kein GreenTeaSpeak-Server"@,
{
}

/// Why a connection failed, as far as it decides what is said of it.
pub enum ConnectFailure {
    /// The server refused it, for this reason.
    Rejected(String),
    /// The server did not finish the login.
    LoginTimeout,
    Other,
}

/// Whether an error says that the server rejects this kind of client.
pub open spec fn rejects_client(raw: Seq<char>) -> bool {
    chars::mentions(raw, "client\\stype\\sis\\snot\\sallowed"@) || chars::mentions(
        raw,
        "client type is not allowed"@,
    ) || chars::mentions(raw, "id=533"@)
}

/// What is said of a connection that failed; `raw` is the error in full.
pub open spec fn connect_message(
    address: Seq<char>,
    raw: Seq<char>,
    failure: ConnectFailure,
) -> Seq<char> {
    if rejects_client(raw) {
        "Could not connect to \""@ + address
            + "\": this server rejects this client type (error 533). GreenTeaSpeak public servers often only allow the official GreenTeaSpeak desktop client. Try a self-hosted TeaSpeak with TeamSpeak-compat enabled, or use GreenTeaSpeak 2 for ts.greenteaspeak.de."@
    } else {
        match failure {
            ConnectFailure::Rejected(reason) => "The server rejected the connection: "@ + reason@,
            ConnectFailure::LoginTimeout =>
                "The server did not finish logging us in within the timeout - please try again"@,
            ConnectFailure::Other => if chars::mentions(raw, "Timeout"@) {
                "Could not reach \""@ + address
                    + "\": connection timed out. Check the address/port and that the server is reachable."@
            } else {
                "Could not connect to \""@ + address + "\": "@ + raw
            },
        }
    }
}

/// What to say of a connection that failed, in words that help.
pub fn friendly_connect_error(address: &str, raw: &str, failure: &ConnectFailure) -> (r: String)
    ensures
        r@ == connect_message(address@, raw@, *failure),
{
    let c = chars::chars_of(raw);
    let text = c.as_slice();
    if chars::contains(text, "client\\stype\\sis\\snot\\sallowed") || chars::contains(
        text,
        "client type is not allowed",
    ) || chars::contains(text, "id=533") {
        return join::plus3(
            "Could not connect to \"",
            address,
            "\": this server rejects this client type (error 533). GreenTeaSpeak public servers often only allow the official GreenTeaSpeak desktop client. Try a self-hosted TeaSpeak with TeamSpeak-compat enabled, or use GreenTeaSpeak 2 for ts.greenteaspeak.de.",
        );
    }
    match failure {
        ConnectFailure::Rejected(reason) => join::plus(
            "The server rejected the connection: ",
            reason.as_str(),
        ),
        ConnectFailure::LoginTimeout =>
            "The server did not finish logging us in within the timeout - please try again".to_owned(),
        ConnectFailure::Other => if chars::contains(text, "Timeout") {
            join::plus3(
                "Could not reach \"",
                address,
                "\": connection timed out. Check the address/port and that the server is reachable.",
            )
        } else {
            let mut message = join::plus3("Could not connect to \"", address, "\": ");
            message.append(raw);
            message
        },
    }
}

/// Seconds to wait for the login.
pub const CONNECT_TIMEOUT_SECS: u64 = 15;

/// What to say where the login took too long.
pub fn login_timeout_message(address: &str) -> (r: String)
    ensures
        r@ == "Could not reach \""@ + address@ + "\": connection timed out after "@
            + number::decimal_text(CONNECT_TIMEOUT_SECS as nat)
            + "s. Check the address/port and that the server is reachable."@,
{
    let mut message = join::plus3(
        "Could not reach \"",
        address,
        "\": connection timed out after ",
    );
    message.append(number::decimal(CONNECT_TIMEOUT_SECS).as_str());
    message.append("s. Check the address/port and that the server is reachable.");
    message
}

/// The kind of server to expect.
#[derive(Clone, Copy, Debug, PartialEq, Eq, Structural)]
pub enum ServerType {
    Auto,
    Teamspeak,
    Teaspeak,
}

/// The kind of server that a word names; it is found out where the word names
/// none.
pub fn server_type(word: &str) -> (r: ServerType)
    ensures
        r == if word@ == "teaspeak"@ {
            ServerType::Teaspeak
        } else if word@ == "teamspeak"@ {
            ServerType::Teamspeak
        } else {
            ServerType::Auto
        },
{
    if chars::equal(word, "teaspeak") {
        ServerType::Teaspeak
    } else if chars::equal(word, "teamspeak") {
        ServerType::Teamspeak
    } else {
        ServerType::Auto
    }
}

/// The state of the generator after one step.
pub open spec fn next_seed(seed: int) -> int {
    (seed * 6364136223846793005 + 1) % 0x1_0000_0000_0000_0000
}

/// The state of the generator after several steps.
pub open spec fn seed_after(seed: int, n: nat) -> int
    decreases n,
{
    if n == 0 {
        seed
    } else {
        next_seed(seed_after(seed, (n - 1) as nat))
    }
}

pub open spec fn hex_digit(n: int) -> char {
    if n < 10 {
        ('0' as int + n) as char
    } else {
        ('a' as int + (n - 10)) as char
    }
}

/// The byte that a state of the generator gives.
pub open spec fn seed_byte(seed: int) -> int {
    seed / 0x1_0000_0000 % 256
}

/// The hardware id that `n` steps of the generator write.
pub open spec fn hardware_text(seed: int, n: nat) -> Seq<char>
    decreases n,
{
    if n == 0 {
        Seq::empty()
    } else {
        let b = seed_byte(seed_after(seed, n));
        hardware_text(seed, (n - 1) as nat).push(hex_digit(b / 16)).push(hex_digit(b % 16))
    }
}

fn hex(n: u8) -> (r: char)
    requires
        n < 16,
    ensures
        r == hex_digit(n as int),
{
    if n < 10 {
        (0x30u8 + n) as char
    } else {
        (0x61u8 + (n - 10)) as char
    }
}

/// A hardware id made from a seed: 32 hexadecimal digits.
pub fn hardware_id(seed: u64) -> (r: String)
    ensures
        r@ == hardware_text(seed as int, 16),
{
    let mut r = String::new();
    let mut state: u64 = seed;
    let mut i: usize = 0;
    while i < 16
        invariant
            i <= 16,
            state == seed_after(seed as int, i as nat),
            r@ == hardware_text(seed as int, i as nat),
        decreases 16 - i,
    {
        let product: u128 = (state as u128) * 6364136223846793005u128 + 1u128;
        state = (product % 0x1_0000_0000_0000_0000u128) as u64;
        let byte: u8 = (state / 0x1_0000_0000 % 256) as u8;
        r.push(hex(byte / 16));
        r.push(hex(byte % 16));
        i += 1;
    }
    r
}

/// A version of three numbers or more is one of GreenTeaSpeak, unless the
/// first is 3; what follows the first digit of the third part does not matter.
pub proof fn law_numbered_versions_are_greenteaspeak(
    major: nat,
    minor: nat,
    lead: Seq<char>,
    rest: Seq<char>,
    tail: Seq<char>,
)
    requires
        chars::all_white(lead),
        chars::all_white(tail),
        rest.len() > 0,
        chars::is_digit(rest[0]),
        !chars::is_white_space(rest.last()),
    ensures
        is_greenteaspeak(
            lead + (number::decimal_text(major) + seq!['.'] + number::decimal_text(minor) + seq![
                '.',
            ] + rest) + tail,
        ) <==> major != 3,
{
    let a = number::decimal_text(major);
    let b = number::decimal_text(minor);
    let v = a + seq!['.'] + b + seq!['.'] + rest;
    number::lemma_decimal_text(major);
    number::lemma_decimal_text(minor);
    assert(chars::is_digit(a[0]));
    assert(v[0] == a[0]);
    assert(v.last() == rest.last());
    chars::law_trimmed_is_what_stands_between(lead, v, tail);
    assert forall|j: int| 0 <= j < a.len() implies a[j] != '.' by {
        assert(chars::is_digit(a[j]));
    }
    assert forall|j: int| 0 <= j < b.len() implies b[j] != '.' by {
        assert(chars::is_digit(b[j]));
    }
    let after = b.push('.') + rest;
    assert(v =~= a.push('.') + after);
    split::lemma_cut(a, '.', after);
    split::lemma_cut(b, '.', rest);
    lemma_pieces_cut(a, after);
    lemma_pieces_cut(b, rest);
    let p = split::pieces(v, '.');
    split::lemma_position(rest, '.');
    let q = split::pieces(rest, '.');
    assert(q.len() > 0 && q[0].len() > 0 && q[0][0] == rest[0]);
    assert(p[0] == a && p[1] == b && p[2] == q[0]);
    let low = chars::lower(v);
    assert(low.len() == v.len());
    assert(low[0] == v[0]);
    reveal_strlit("teaspeak");
    reveal_strlit("3.");
    assert(!chars::begins(low, "teaspeak"@)) by {
        if chars::begins(low, "teaspeak"@) {
            assert(low.take(8)[0] == 't');
        }
    }
    lemma_begins_three(major, low, v, a, after);
}

proof fn lemma_begins_three(
    major: nat,
    low: Seq<char>,
    v: Seq<char>,
    a: Seq<char>,
    after: Seq<char>,
)
    requires
        a == number::decimal_text(major),
        v == a.push('.') + after,
        low == chars::lower(v),
    ensures
        chars::begins(low, "3."@) <==> major == 3,
{
    reveal_strlit("3.");
    number::lemma_decimal_text(major);
    assert(low.len() == v.len());
    assert(low[0] == chars::lower_char(v[0]));
    assert(chars::is_digit(a[0]));
    assert(v[0] == a[0]);
    assert(low[1] == chars::lower_char(v[1]));
    if major == 3 {
        assert(a =~= seq!['3']);
        assert(v[1] == '.');
        assert(low.take(2) =~= "3."@);
    }
    if chars::begins(low, "3."@) {
        assert(low.take(2)[0] == '3');
        assert(low.take(2)[1] == '.');
        if a.len() > 1 {
            assert(v[1] == a[1]);
            assert(chars::is_digit(a[1]));
        }
        assert(a =~= seq!['3']);
        assert(number::decimal_value(a) == 3) by {
            reveal_with_fuel(number::decimal_value, 2);
            assert(a.drop_last() =~= Seq::empty());
        }
    }
}

proof fn lemma_pieces_cut(before: Seq<char>, rest: Seq<char>)
    requires
        forall|j: int| 0 <= j < before.len() ==> before[j] != '.',
    ensures
        split::pieces(before.push('.') + rest, '.') == seq![before] + split::pieces(rest, '.'),
{
    let s = before.push('.') + rest;
    split::lemma_position_is(s, '.', before.len() as int);
    assert(s.take(before.len() as int) =~= before);
    assert(s.skip(before.len() as int + 1) =~= rest);
}

/// A version of fewer than three parts is not one of GreenTeaSpeak, and
/// neither is one whose parts are no numbers.
pub proof fn law_other_versions_are_not_greenteaspeak(version: Seq<char>)
    ensures
        split::pieces(chars::trimmed(version), '.').len() < 3 ==> !is_greenteaspeak(version),
        chars::trimmed(version).len() > 0 && !('0' <= chars::trimmed(version)[0] <= '9')
            ==> !is_greenteaspeak(version),
        chars::trimmed(version).len() == 0 ==> !is_greenteaspeak(version),
{
    let v = chars::trimmed(version);
    let p = split::pieces(v, '.');
    split::lemma_position(v, '.');
    if is_greenteaspeak(version) {
        assert(chars::is_digit(p[0][0]));
        assert(p[0][0] == v[0]);
    }
}

/// The three licenses of GreenTeaSpeak have names of their own, and classic
/// servers keep the classic names.
pub proof fn law_licenses_have_their_names(version: Seq<char>)
    ensures
        is_greenteaspeak(version) ==> license_name(LicenseType::Offline, version) == "Private"@
            && license_name(LicenseType::Sdk, version) == "Premium"@ && license_name(
            LicenseType::SdkOffline,
            version,
        ) == "Authorized GreenTeaSpeak Host Provider"@ && license_name(
            LicenseType::NoLicense,
            version,
        ) == "Keine Lizenz"@ && license_name(LicenseType::Commercial, version) == "Keine Lizenz"@
            && license_name(LicenseType::Npl, version) == "Keine Lizenz"@,
        !is_greenteaspeak(version) && !chars::begins(
            chars::lower(chars::trimmed(version)),
            "teaspeak"@,
        ) ==> license_name(LicenseType::NoLicense, version) == "No License"@ && license_name(
            LicenseType::Offline,
            version,
        ) == "Offline / LAN"@ && license_name(LicenseType::Sdk, version) == "SDK"@ && license_name(
            LicenseType::SdkOffline,
            version,
        ) == "SDK Offline"@ && license_name(LicenseType::Npl, version) == "NPL"@ && license_name(
            LicenseType::Athp,
            version,
        ) == "ATHP"@ && license_name(LicenseType::Aal, version) == "AAL"@ && license_name(
            LicenseType::DefaultSlots,
            version,
        ) == "Default"@ && license_name(LicenseType::Gamer, version) == "Gamer"@ && license_name(
            LicenseType::Sponsorship,
            version,
        ) == "Sponsorship"@ && license_name(LicenseType::Commercial, version) == "Commercial"@,
{
}

/// An error that names the rejected kind of client, wherever it does, is told
/// as such whatever else is known; otherwise the reason that is known is told.
pub proof fn law_connect_errors_are_told(
    address: Seq<char>,
    a: Seq<char>,
    b: Seq<char>,
    failure: ConnectFailure,
    raw: Seq<char>,
)
    ensures
        rejects_client(a + "id=533"@ + b),
        rejects_client(a + "client type is not allowed"@ + b),
        rejects_client(a + "client\\stype\\sis\\snot\\sallowed"@ + b),
        chars::begins(
            connect_message(address, a + "id=533"@ + b, failure),
            "Could not connect to \""@ + address,
        ),
        !rejects_client(raw) ==> match failure {
            ConnectFailure::Rejected(reason) => connect_message(address, raw, failure)
                == "The server rejected the connection: "@ + reason@,
            ConnectFailure::LoginTimeout => connect_message(address, raw, failure)
                == "The server did not finish logging us in within the timeout - please try again"@,
            ConnectFailure::Other => if chars::mentions(raw, "Timeout"@) {
                chars::begins(
                    connect_message(address, raw, failure),
                    "Could not reach \""@ + address + "\": connection timed out"@,
                )
            } else {
                connect_message(address, raw, failure) == "Could not connect to \""@ + address
                    + "\": "@ + raw
            },
        },
{
    chars::law_parts_are_recognised(a, "id=533"@, b);
    chars::law_parts_are_recognised(a, "client type is not allowed"@, b);
    chars::law_parts_are_recognised(a, "client\\stype\\sis\\snot\\sallowed"@, b);
    let told =
        "\": this server rejects this client type (error 533). GreenTeaSpeak public servers often only allow the official GreenTeaSpeak desktop client. Try a self-hosted TeaSpeak with TeamSpeak-compat enabled, or use GreenTeaSpeak 2 for ts.greenteaspeak.de."@;
    chars::law_parts_are_recognised("Could not connect to \""@ + address, told, Seq::empty());
    reveal_strlit("\": connection timed out");
    reveal_strlit(
        "\": connection timed out. Check the address/port and that the server is reachable.",
    );
    let start = "Could not reach \""@ + address + "\": connection timed out"@;
    let m = "Could not reach \""@ + address
        + "\": connection timed out. Check the address/port and that the server is reachable."@;
    assert(m.take(start.len() as int) =~= start);
}

/// Each mode is known by its word, in whatever case, and by no other.
pub proof fn law_modes_are_known_by_their_words(word: Seq<char>)
    ensures
        host_message_mode(word) == Some(HostMessageMode::Hidden) <==> chars::lower(word)
            == "none"@,
        host_message_mode(word) == Some(HostMessageMode::Log) <==> chars::lower(word) == "log"@,
        host_message_mode(word) == Some(HostMessageMode::Modal) <==> chars::lower(word)
            == "modal"@,
        host_message_mode(word) == Some(HostMessageMode::Modalquit) <==> chars::lower(word)
            == "modalquit"@,
        host_banner_mode(word) == Some(HostBannerMode::NoAdjust) <==> chars::lower(word)
            == "noadjust"@,
        host_banner_mode(word) == Some(HostBannerMode::AdjustIgnoreAspect) <==> chars::lower(word)
            == "adjustignoreaspect"@,
        host_banner_mode(word) == Some(HostBannerMode::AdjustKeepAspect) <==> chars::lower(word)
            == "adjustkeepaspect"@,
        codec_encryption_mode(word) == Some(CodecEncryptionMode::PerChannel) <==> chars::lower(
            word,
        ) == "perchannel"@,
        codec_encryption_mode(word) == Some(CodecEncryptionMode::ForcedOff) <==> chars::lower(word)
            == "forcedoff"@,
        codec_encryption_mode(word) == Some(CodecEncryptionMode::ForcedOn) <==> chars::lower(word)
            == "forcedon"@,
{
    reveal_strlit("none");
    reveal_strlit("log");
    reveal_strlit("modal");
    reveal_strlit("modalquit");
    reveal_strlit("noadjust");
    reveal_strlit("adjustignoreaspect");
    reveal_strlit("adjustkeepaspect");
    reveal_strlit("perchannel");
    reveal_strlit("forcedoff");
    reveal_strlit("forcedon");
    assert("none"@.len() == 4 && "log"@.len() == 3 && "modal"@.len() == 5 && "modalquit"@.len()
        == 9);
    assert("noadjust"@.len() == 8 && "adjustignoreaspect"@.len() == 18 && "adjustkeepaspect"@.len()
        == 16);
    assert("perchannel"@.len() == 10 && "forcedoff"@.len() == 9 && "forcedon"@.len() == 8);
}

/// A hardware id is as long as it has to be, two hexadecimal digits for every
/// step.
pub proof fn law_hardware_id_is_hexadecimal(seed: int, n: nat)
    ensures
        hardware_text(seed, n).len() == 2 * n,
        forall|i: int|
            0 <= i < hardware_text(seed, n).len() ==> ('0' <= #[trigger] hardware_text(
                seed,
                n,
            )[i] <= '9' || 'a' <= hardware_text(seed, n)[i] <= 'f'),
    decreases n,
{
    if n > 0 {
        law_hardware_id_is_hexadecimal(seed, (n - 1) as nat);
        let before = hardware_text(seed, (n - 1) as nat);
        let t = hardware_text(seed, n);
        assert forall|i: int| 0 <= i < t.len() implies ('0' <= #[trigger] t[i] <= '9' || 'a' <= t[i]
            <= 'f') by {
            if i < before.len() {
                assert(t[i] == before[i]);
            }
        }
    }
}

/// The generator steps by its multiplier from one state to the next, and
/// begins at one.
pub proof fn law_generator_steps(seed: int)
    ensures
        next_seed(0) == 1,
        (next_seed(seed + 1) - next_seed(seed) - 6364136223846793005) % 0x1_0000_0000_0000_0000
            == 0,
        0 <= next_seed(seed) < 0x1_0000_0000_0000_0000,
{
    let m = 0x1_0000_0000_0000_0000int;
    let k = 6364136223846793005int;
    let a = seed * k + 1;
    let b = (seed + 1) * k + 1;
    assert(b == a + k) by (nonlinear_arith)
        requires
            a == seed * k + 1,
            b == (seed + 1) * k + 1,
    ;
    assert((b % m - a % m - k) % m == 0) by (nonlinear_arith)
        requires
            b == a + k,
            m == 0x1_0000_0000_0000_0000int,
    ;
}

/// A part of a version that is no number, among the first two, and a third
/// that begins with no digit, make it another kind of server's.
pub proof fn law_version_parts_are_numbers(version: Seq<char>, k: int, i: int)
    requires
        0 <= k < split::pieces(chars::trimmed(version), '.').len(),
        0 <= i < split::pieces(chars::trimmed(version), '.')[k].len(),
        !('0' <= split::pieces(chars::trimmed(version), '.')[k][i] <= '9'),
        k < 2 || (k == 2 && i == 0),
    ensures
        !is_greenteaspeak(version),
{
    let p = split::pieces(chars::trimmed(version), '.');
    assert(!chars::is_digit(p[k][i]));
}

/// What a hexadecimal digit is worth.
pub open spec fn digit_worth(c: char) -> int {
    if '0' <= c <= '9' {
        c as int - '0' as int
    } else {
        c as int - 'a' as int + 10
    }
}

/// Each two digits of a hardware id spell the byte of one state of the
/// generator, the fifth of its eight bytes from below.
pub proof fn law_hardware_id_spells_states(seed: int, n: nat, i: int)
    requires
        0 <= i < n,
    ensures
        hardware_text(seed, n).len() == 2 * n,
        16 * digit_worth(hardware_text(seed, n)[2 * i]) + digit_worth(
            hardware_text(seed, n)[2 * i + 1],
        ) == seed_after(seed, (i + 1) as nat) / 0x1_0000_0000 % 256,
    decreases n,
{
    law_hardware_id_is_hexadecimal(seed, n);
    law_hardware_id_is_hexadecimal(seed, (n - 1) as nat);
    let before = hardware_text(seed, (n - 1) as nat);
    let t = hardware_text(seed, n);
    if i == n - 1 {
        let b = seed_byte(seed_after(seed, n));
        assert(t[2 * i] == hex_digit(b / 16));
        assert(t[2 * i + 1] == hex_digit(b % 16));
        assert(0 <= b < 256);
    } else {
        law_hardware_id_spells_states(seed, (n - 1) as nat, i);
        assert(t[2 * i] == before[2 * i]);
        assert(t[2 * i + 1] == before[2 * i + 1]);
    }
}

} // verus!
