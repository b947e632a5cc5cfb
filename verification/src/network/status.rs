use vstd::prelude::*;

use crate::network::profile;
use crate::network::profile::ValidatedProfile;
use crate::network::provider::Provider;
use crate::network::state::RotationState;
use crate::text::chars;
use crate::text::join;
use crate::text::list;

verus! {

/// What a probe says of an address: its trimmed output, if it succeeded and
/// said anything.
pub open spec fn probed(success: bool, output: Seq<char>) -> Seq<char> {
    let ip = chars::trimmed(output);
    if success && ip.len() > 0 {
        ip
    } else {
        "Unknown"@
    }
}

/// The address that a probe reports; `None` stands for a probe that could not
/// be run, otherwise whether it succeeded and what it printed.
pub fn reported_ip(probe: Option<(bool, &str)>) -> (r: String)
    ensures
        r@ == match probe {
            Some((success, output)) => probed(success, output@),
            None => "Unknown"@,
        },
{
    match probe {
        Some((success, output)) => {
            let c = chars::chars_of(output);
            let ip = chars::trim(c.as_slice());
            if success && ip.len() > 0 {
                chars::string_of(ip)
            } else {
                "Unknown".to_owned()
            }
        },
        None => "Unknown".to_owned(),
    }
}

/// Traffic may leak where an address is unknown or both are the same.
pub open spec fn leaks(host_ip: Seq<char>, vpn_ip: Seq<char>) -> bool {
    host_ip == "Unknown"@ || vpn_ip == "Unknown"@ || host_ip == vpn_ip
}

/// Whether traffic may leave by the host's own address.
pub fn is_leak(host_ip: &str, vpn_ip: &str) -> (r: bool)
    ensures
        r == leaks(host_ip@, vpn_ip@),
{
    chars::equal(host_ip, "Unknown") || chars::equal(vpn_ip, "Unknown") || chars::equal(
        host_ip,
        vpn_ip,
    )
}

/// What reading the saved rotation state came to.
pub enum StateRead {
    Parsed(RotationState),
    Invalid(String),
    Absent,
    Unreadable(String),
}

/// The rotation state to go on from: a fresh one where none was saved yet.
pub fn load_rotation_state(read: StateRead) -> (r: Result<RotationState, String>)
    ensures
        match read {
            StateRead::Parsed(s) => r == Ok::<RotationState, String>(s),
            StateRead::Invalid(e) => r matches Err(m) && m@ == "rotation state is invalid: "@ + e@,
            StateRead::Absent => r matches Ok(s) && s.nordvpn@
                == crate::network::state::fresh_pool() && s.protonvpn@
                == crate::network::state::fresh_pool(),
            StateRead::Unreadable(e) => r matches Err(m) && m@
                == "could not read rotation state: "@ + e@,
        },
{
    match read {
        StateRead::Parsed(s) => Ok(s),
        StateRead::Invalid(e) => Err(join::plus("rotation state is invalid: ", e.as_str())),
        StateRead::Absent => Ok(RotationState::default()),
        StateRead::Unreadable(e) => Err(join::plus("could not read rotation state: ", e.as_str())),
    }
}

/// The name of the file that a process writes the rotation state to before
/// moving it into place.
pub fn temporary_state_name(process: u32) -> (r: String)
    ensures
        r@ == ".profile-rotation-state-"@ + crate::text::number::decimal_text(process as nat)
            + ".tmp"@,
{
    join::plus3(
        ".profile-rotation-state-",
        crate::text::number::decimal(process as u64).as_str(),
        ".tmp",
    )
}

/// The profile that a state calls active, where its name is a plain file name.
pub open spec fn remembered(state: RotationState, provider: Provider) -> Option<Seq<char>> {
    match state.pool(provider) {
        Some(pool) => match pool.active {
            Some(name) => if profile::is_basename(name) {
                Some(name)
            } else {
                None
            },
            None => None,
        },
        None => None,
    }
}

/// The active profile that a state remembers for a provider.
pub fn remembered_profile(state: &RotationState, provider: Provider) -> (r: Option<String>)
    ensures
        list::text_of(r) == remembered(*state, provider),
{
    match state.provider_state(provider) {
        Some(s) => match &s.active_profile {
            Some(name) => profile::safe_basename(name.as_str()),
            None => None,
        },
        None => None,
    }
}

/// Whether a result is the saved profile of a provider: the one that the state
/// remembers, among those found.
pub open spec fn recalls(
    provider: Provider,
    state: Result<RotationState, String>,
    discovered: Result<Vec<ValidatedProfile>, String>,
    r: Result<Option<ValidatedProfile>, String>,
) -> bool {
    match state {
        Err(e) => r matches Err(m) && m@ == e@,
        Ok(s) => match (remembered(s, provider), discovered) {
            (None, _) => r matches Ok(None),
            (Some(_), Err(e)) => r matches Err(m) && m@ == e@,
            (Some(name), Ok(profiles)) => match r {
                Ok(Some(p)) => profile::named(profiles@, name) == Some(p@),
                Ok(None) => profile::named(profiles@, name) is None,
                Err(_) => false,
            },
        },
    }
}

/// The saved profile of a provider, as far as it still exists and is valid.
///
/// The profiles found count only where the state remembers one.
pub fn load_active_profile(
    provider: Provider,
    state: &Result<RotationState, String>,
    discovered: &Result<Vec<ValidatedProfile>, String>,
) -> (r: Result<Option<ValidatedProfile>, String>)
    ensures
        match state {
            Err(e) => r matches Err(m) && m@ == e@,
            Ok(s) => match remembered(*s, provider) {
                None => r matches Ok(None),
                Some(name) => match discovered {
                    Err(e) => r matches Err(m) && m@ == e@,
                    Ok(profiles) => r matches Ok(found) && profile::named(profiles@, name)
                        == match found {
                        Some(p) => Some(p@),
                        None => None,
                    },
                },
            },
        },
        recalls(provider, *state, *discovered, r),
{
    let state = match state {
        Ok(s) => s,
        Err(e) => return Err(e.clone()),
    };
    let name = match remembered_profile(state, provider) {
        Some(n) => n,
        None => return Ok(None),
    };
    let profiles = match discovered {
        Ok(p) => p,
        Err(e) => return Err(e.clone()),
    };
    Ok(profile::find_profile(profiles, name.as_str()))
}

/// The name of the profile to report as active: none for the direct
/// connection, nor where the saved profile could not be loaded.
pub fn active_profile(
    provider: Provider,
    loaded: &Result<Option<ValidatedProfile>, String>,
) -> (r: Option<String>)
    ensures
        list::text_of(r) == match loaded {
            Ok(Some(p)) => if provider == Provider::Direct {
                None
            } else {
                Some(p.basename@)
            },
            _ => None,
        },
{
    if provider == Provider::Direct {
        return None;
    }
    match loaded {
        Ok(Some(p)) => Some(p.basename.clone()),
        _ => None,
    }
}

/// The state of the network as reported to clients.
pub struct StatusResponse {
    pub provider: String,
    pub profile: Option<String>,
    pub ip: String,
    pub host_ip: String,
    pub vpn_ip: String,
    pub leak: bool,
}

/// Whether a status tells of the provider in use, of its profile and of the
/// addresses.
pub open spec fn tells_status(
    provider: Option<Provider>,
    host_ip: Seq<char>,
    vpn_ip: Seq<char>,
    loaded: Result<Option<ValidatedProfile>, String>,
    r: StatusResponse,
) -> bool {
    let direct = provider == Some(Provider::Direct);
    &&& r.provider@ == match provider {
        Some(p) => p.title(),
        None => "Unknown"@,
    }
    &&& list::text_of(r.profile) == match (provider, loaded) {
        (Some(_), Ok(Some(p))) => if direct {
            None
        } else {
            Some(p@.basename)
        },
        _ => None,
    }
    &&& r.ip@ == if direct {
        host_ip
    } else {
        vpn_ip
    }
    &&& r.host_ip@ == host_ip
    &&& r.vpn_ip@ == vpn_ip
    &&& r.leak == (!direct && leaks(host_ip, vpn_ip))
}

/// The status to report: on the direct connection the host's own address is
/// the right one and there is nothing to leak.
pub fn get_status(
    provider: Option<Provider>,
    host_ip: &str,
    vpn_ip: &str,
    loaded: &Result<Option<ValidatedProfile>, String>,
) -> (r: StatusResponse)
    ensures
        r.provider@ == match provider {
            Some(p) => p.title(),
            None => "Unknown"@,
        },
        list::text_of(r.profile) == match (provider, loaded) {
            (Some(p), Ok(Some(l))) => if p == Provider::Direct {
                None
            } else {
                Some(l.basename@)
            },
            _ => None,
        },
        r.ip@ == if provider == Some(Provider::Direct) {
            host_ip@
        } else {
            vpn_ip@
        },
        r.host_ip@ == host_ip@,
        r.vpn_ip@ == vpn_ip@,
        r.leak == (provider != Some(Provider::Direct) && leaks(host_ip@, vpn_ip@)),
        tells_status(provider, host_ip@, vpn_ip@, *loaded, r),
{
    let is_direct = match provider {
        Some(Provider::Direct) => true,
        _ => false,
    };
    let provider_name = match provider {
        Some(p) => p.display_name(),
        None => "Unknown",
    };
    let profile = match provider {
        Some(p) => active_profile(p, loaded),
        None => None,
    };
    StatusResponse {
        provider: provider_name.to_owned(),
        profile,
        ip: if is_direct {
            host_ip.to_owned()
        } else {
            vpn_ip.to_owned()
        },
        host_ip: host_ip.to_owned(),
        vpn_ip: vpn_ip.to_owned(),
        leak: !is_direct && is_leak(host_ip, vpn_ip),
    }
}

/// The outcome of a leak check.
pub struct LeakResponse {
    pub leak: bool,
    pub host_ip: String,
    pub vpn_ip: String,
}

/// Whether a report tells how a leak check came out.
pub open spec fn tells_leak(
    provider: Option<Provider>,
    host_ip: Seq<char>,
    vpn_ip: Seq<char>,
    r: LeakResponse,
) -> bool {
    if provider == Some(Provider::Direct) {
        !r.leak && r.host_ip@.len() == 0 && r.vpn_ip@.len() == 0
    } else {
        r.leak == leaks(host_ip, vpn_ip) && r.host_ip@ == host_ip && r.vpn_ip@ == vpn_ip
    }
}

/// The leak check to report; the direct connection is not probed.
pub fn verify_leak(provider: Option<Provider>, host_ip: &str, vpn_ip: &str) -> (r: LeakResponse)
    ensures
        provider == Some(Provider::Direct) ==> !r.leak && r.host_ip@ == ""@ && r.vpn_ip@ == ""@,
        provider != Some(Provider::Direct) ==> r.leak == leaks(host_ip@, vpn_ip@) && r.host_ip@
            == host_ip@ && r.vpn_ip@ == vpn_ip@,
        tells_leak(provider, host_ip@, vpn_ip@, r),
{
    proof {
        reveal_strlit("");
    }
    match provider {
        Some(Provider::Direct) => LeakResponse {
            leak: false,
            host_ip: "".to_owned(),
            vpn_ip: "".to_owned(),
        },
        _ => LeakResponse {
            leak: is_leak(host_ip, vpn_ip),
            host_ip: host_ip.to_owned(),
            vpn_ip: vpn_ip.to_owned(),
        },
    }
}

/// A probe that failed or said nothing counts as a leak, whatever the other
/// one found.
pub proof fn law_failed_probe_is_leak(success: bool, output: Seq<char>, other: Seq<char>)
    requires
        !success || chars::trimmed(output).len() == 0,
    ensures
        leaks(probed(success, output), other),
        leaks(other, probed(success, output)),
{
}

/// A probe that succeeded reports the address it printed, white space around
/// it apart.
pub proof fn law_probe_reports_address(lead: Seq<char>, ip: Seq<char>, tail: Seq<char>)
    requires
        chars::all_white(lead),
        chars::all_white(tail),
        ip.len() > 0,
        !chars::is_white_space(ip[0]),
        !chars::is_white_space(ip.last()),
    ensures
        probed(true, lead + ip + tail) == ip,
        probed(false, lead + ip + tail) == "Unknown"@,
{
    chars::law_trimmed_is_what_stands_between(lead, ip, tail);
}

/// Two known addresses leak exactly where they are the same, whichever is
/// whose.
pub proof fn law_leak_is_one_address(a: Seq<char>, b: Seq<char>)
    requires
        a != "Unknown"@,
        b != "Unknown"@,
    ensures
        leaks(a, b) <==> a == b,
        leaks(a, b) <==> leaks(b, a),
        leaks("Unknown"@, b),
        leaks(a, "Unknown"@),
{
}

/// The profile remembered for a provider is the one its own state calls
/// active; a name that leads out of the profile directory is not remembered,
/// and the direct connection has none.
pub proof fn law_remembered_profile_is_providers_own(state: RotationState, provider: Provider)
    ensures
        remembered(state, Provider::Direct) is None,
        remembered(state, Provider::NordVpn) matches Some(name) ==> state.nordvpn@.active == Some(
            name,
        ) && crate::text::split::lacks(name, '/') && name != ".."@,
        remembered(state, Provider::ProtonVpn) matches Some(name) ==> state.protonvpn@.active
            == Some(name) && crate::text::split::lacks(name, '/') && name != ".."@,
        state.nordvpn@.active matches Some(name) ==> (crate::text::split::lacks(name, '/')
            && name.len() > 2 ==> remembered(state, Provider::NordVpn) == Some(name)),
        state.protonvpn@.active matches Some(name) ==> (crate::text::split::lacks(name, '/')
            && name.len() > 2 ==> remembered(state, Provider::ProtonVpn) == Some(name)),
{
    reveal_strlit(".");
    reveal_strlit("..");
    assert("."@.len() == 1 && ".."@.len() == 2);
}

/// On the direct connection nothing leaks and the host's own address is the
/// one shown; otherwise it is that of the tunnel, and both reports agree on
/// whether anything leaks.
pub proof fn law_reports_agree_on_leaks(
    provider: Option<Provider>,
    host_ip: Seq<char>,
    vpn_ip: Seq<char>,
    loaded: Result<Option<ValidatedProfile>, String>,
    status: StatusResponse,
    check: LeakResponse,
)
    requires
        tells_status(provider, host_ip, vpn_ip, loaded, status),
        tells_leak(provider, host_ip, vpn_ip, check),
    ensures
        status.leak == check.leak,
        provider == Some(Provider::Direct) ==> !status.leak && status.ip@ == host_ip,
        provider != Some(Provider::Direct) ==> status.ip@ == vpn_ip && (host_ip == vpn_ip
            ==> status.leak) && (host_ip != vpn_ip && host_ip != "Unknown"@ && vpn_ip
            != "Unknown"@ ==> !status.leak),
        provider != Some(Provider::Direct) ==> check.host_ip@ == host_ip && check.vpn_ip@
            == vpn_ip,
        status.host_ip@ == host_ip && status.vpn_ip@ == vpn_ip,
{
}

/// A profile is named in the status of a tunnel where one was recalled, and
/// nowhere else.
pub proof fn law_status_names_recalled_profile(
    provider: Option<Provider>,
    host_ip: Seq<char>,
    vpn_ip: Seq<char>,
    loaded: Result<Option<ValidatedProfile>, String>,
    status: StatusResponse,
)
    requires
        tells_status(provider, host_ip, vpn_ip, loaded, status),
    ensures
        status.profile matches Some(name) ==> provider != Some(Provider::Direct) && provider is Some
            && (loaded matches Ok(Some(p)) && p.basename@ == name@),
        provider is Some && provider != Some(Provider::Direct) ==> (loaded matches Ok(Some(p)) ==> (
        status.profile matches Some(name) && name@ == p.basename@)),
        provider is None ==> status.provider@ == "Unknown"@,
        provider matches Some(p) ==> status.provider@ == p.title(),
{
}

/// A recalled profile is one of those found and bears the name that the state
/// of its provider calls active.
pub proof fn law_recalled_profile_exists(
    provider: Provider,
    state: RotationState,
    profiles: Vec<ValidatedProfile>,
    r: Result<Option<ValidatedProfile>, String>,
)
    requires
        recalls(provider, Ok(state), Ok(profiles), r),
    ensures
        r is Ok,
        r matches Ok(Some(p)) ==> (exists|i: int|
            0 <= i < profiles@.len() && (#[trigger] profiles@[i])@ == p@) && (provider
            == Provider::NordVpn && state.nordvpn@.active == Some(p@.basename) || provider
            == Provider::ProtonVpn && state.protonvpn@.active == Some(p@.basename)),
        r matches Ok(None) ==> (remembered(state, provider) matches Some(name) ==> forall|i: int|
            0 <= i < profiles@.len() ==> (#[trigger] profiles@[i])@.basename != name),
{
    match remembered(state, provider) {
        Some(name) => {
            profile::lemma_named(profiles@, name);
            let names = profile::names(profiles@);
            if r matches Ok(None) {
                assert forall|i: int| 0 <= i < profiles@.len() implies (
                #[trigger] profiles@[i])@.basename != name by {
                    assert(names[i] == profiles@[i]@.basename);
                    if names[i] == name {
                        assert(names.contains(name));
                    }
                }
            }
        },
        None => {},
    }
}

} // verus!
