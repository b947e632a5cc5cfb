use webspeak::network::provider::current_provider;
use webspeak::network::provider::Provider;
use webspeak::network::settings::is_valid_extension;
use webspeak::network::settings::profile_settings;
use webspeak::network::settings::read_dotenv_setting;
use webspeak::network::settings::unquote_env_value;
use webspeak::network::status::active_profile;
use webspeak::network::status::get_status;
use webspeak::network::status::is_leak;
use webspeak::network::status::load_active_profile;
use webspeak::network::status::load_rotation_state;
use webspeak::network::status::remembered_profile;
use webspeak::network::status::reported_ip;
use webspeak::network::status::temporary_state_name;
use webspeak::network::status::verify_leak;
use webspeak::network::status::StateRead;
use webspeak::network::profile::display_filename;
use webspeak::network::profile::safe_basename;
use webspeak::network::profile::ValidatedProfile;
use webspeak::network::state::RotationState;

fn profile(name: &str) -> ValidatedProfile {
    ValidatedProfile {
        basename: name.to_string(),
        path: format!("/profiles/{name}"),
        endpoint_hostname: None,
    }
}

#[test]
fn provider_names_are_read_in_any_case() {
    assert_eq!(Provider::from_request("direct"), Some(Provider::Direct));
    assert_eq!(Provider::from_request("NordVPN"), Some(Provider::NordVpn));
    assert_eq!(Provider::from_request("PROTONVPN"), Some(Provider::ProtonVpn));
    assert_eq!(Provider::from_request("mullvad"), None);
    assert_eq!(Provider::from_request(""), None);
    assert_eq!(Provider::from_request(" direct"), None);
}

#[test]
fn provider_keys_and_titles() {
    assert_eq!(Provider::Direct.compose_suffix(), "direct");
    assert_eq!(Provider::NordVpn.compose_suffix(), "nordvpn");
    assert_eq!(Provider::ProtonVpn.display_name(), "ProtonVPN");
    assert_eq!(Provider::Direct.profile_directory_key(), None);
    assert_eq!(
        Provider::NordVpn.profile_directory_key(),
        Some("NORDVPN_PROFILE_DIRECTORY")
    );
    assert_eq!(
        Provider::ProtonVpn.profile_extensions_key(),
        Some("PROTONVPN_PROFILE_EXTENSIONS")
    );
}

#[test]
fn link_target_names_the_provider() {
    assert_eq!(
        current_provider(Some("/srv/docker-compose.yml.protonvpn")),
        Some(Provider::ProtonVpn)
    );
    assert_eq!(
        current_provider(Some("/srv/docker-compose.yml.nordvpn")),
        Some(Provider::NordVpn)
    );
    assert_eq!(
        current_provider(Some("docker-compose.yml.direct")),
        Some(Provider::Direct)
    );
    assert_eq!(current_provider(Some("docker-compose.yml.other")), None);
    assert_eq!(current_provider(None), None);
}

#[test]
fn basenames_are_plain_file_names() {
    assert_eq!(safe_basename("de1.conf").as_deref(), Some("de1.conf"));
    assert_eq!(safe_basename(".hidden").as_deref(), Some(".hidden"));
    assert!(safe_basename("").is_none());
    assert!(safe_basename(".").is_none());
    assert!(safe_basename("..").is_none());
    assert!(safe_basename("a/b").is_none());
    assert!(safe_basename("a/").is_none());
    assert_eq!(display_filename(Some("x.conf")), "x.conf");
    assert_eq!(display_filename(None), "<non-UTF-8 filename>");
}

#[test]
fn probes_report_an_address_or_nothing() {
    assert_eq!(reported_ip(Some((true, " 1.2.3.4\n"))), "1.2.3.4");
    assert_eq!(reported_ip(Some((true, " \n"))), "Unknown");
    assert_eq!(reported_ip(Some((false, "1.2.3.4"))), "Unknown");
    assert_eq!(reported_ip(None), "Unknown");
}

#[test]
fn leaks_are_equal_or_unknown_addresses() {
    assert!(is_leak("Unknown", "5.6.7.8"));
    assert!(is_leak("1.2.3.4", "Unknown"));
    assert!(is_leak("1.2.3.4", "1.2.3.4"));
    assert!(!is_leak("1.2.3.4", "5.6.7.8"));
}

#[test]
fn status_of_direct_and_tunnelled_connections() {
    let none = Ok(None);
    let direct = get_status(Some(Provider::Direct), "1.1.1.1", "Unknown", &none);
    assert_eq!(direct.provider, "Direct");
    assert_eq!(direct.ip, "1.1.1.1");
    assert!(!direct.leak);
    assert!(direct.profile.is_none());
    let loaded = Ok(Some(profile("a.conf")));
    let nord = get_status(Some(Provider::NordVpn), "1.1.1.1", "2.2.2.2", &loaded);
    assert_eq!(nord.provider, "NordVPN");
    assert_eq!(nord.ip, "2.2.2.2");
    assert_eq!(nord.host_ip, "1.1.1.1");
    assert!(!nord.leak);
    assert_eq!(nord.profile.as_deref(), Some("a.conf"));
    let lost = get_status(None, "1.1.1.1", "Unknown", &Err("x".to_string()));
    assert_eq!(lost.provider, "Unknown");
    assert!(lost.leak);
    assert!(lost.profile.is_none());
}

#[test]
fn leak_check_does_not_probe_the_direct_connection() {
    let direct = verify_leak(Some(Provider::Direct), "1.1.1.1", "1.1.1.1");
    assert!(!direct.leak);
    assert_eq!(direct.host_ip, "");
    assert_eq!(direct.vpn_ip, "");
    let nord = verify_leak(Some(Provider::NordVpn), "1.1.1.1", "1.1.1.1");
    assert!(nord.leak);
    assert_eq!(nord.host_ip, "1.1.1.1");
}

#[test]
fn saved_state_is_loaded_or_begun_afresh() {
    assert!(load_rotation_state(StateRead::Absent).unwrap().nordvpn.active_profile.is_none());
    let mut state = RotationState::default();
    state.nordvpn.active_profile = Some("a.conf".to_string());
    let loaded = load_rotation_state(StateRead::Parsed(state)).unwrap();
    assert_eq!(loaded.nordvpn.active_profile.as_deref(), Some("a.conf"));
    assert_eq!(
        load_rotation_state(StateRead::Invalid("bad".to_string())).err().unwrap(),
        "rotation state is invalid: bad"
    );
    assert_eq!(
        load_rotation_state(StateRead::Unreadable("denied".to_string())).err().unwrap(),
        "could not read rotation state: denied"
    );
    assert_eq!(temporary_state_name(4711), ".profile-rotation-state-4711.tmp");
}

#[test]
fn saved_profile_counts_only_while_it_exists() {
    let mut state = RotationState::default();
    state.nordvpn.active_profile = Some("a.conf".to_string());
    assert_eq!(remembered_profile(&state, Provider::NordVpn).as_deref(), Some("a.conf"));
    assert!(remembered_profile(&state, Provider::ProtonVpn).is_none());
    let state = Ok(state);
    let found = load_active_profile(
        Provider::NordVpn,
        &state,
        &Ok(vec![profile("b.conf"), profile("a.conf")]),
    );
    assert_eq!(active_profile(Provider::NordVpn, &found).as_deref(), Some("a.conf"));
    let gone = load_active_profile(Provider::NordVpn, &state, &Ok(vec![profile("b.conf")]));
    assert!(gone.as_ref().unwrap().is_none());
    assert!(active_profile(Provider::NordVpn, &gone).is_none());
    let unread = load_active_profile(Provider::NordVpn, &state, &Err("no dir".to_string()));
    assert_eq!(unread.err().unwrap(), "no dir");
    let other = load_active_profile(Provider::ProtonVpn, &state, &Err("no dir".to_string()));
    assert!(other.unwrap().is_none());
    assert!(active_profile(Provider::Direct, &Ok(Some(profile("a.conf")))).is_none());
}

#[test]
fn unsafe_saved_name_is_forgotten() {
    let mut state = RotationState::default();
    state.protonvpn.active_profile = Some("../a.conf".to_string());
    assert!(remembered_profile(&state, Provider::ProtonVpn).is_none());
}

#[test]
fn environment_values_lose_their_quotes() {
    assert_eq!(unquote_env_value("\"a b\""), "a b");
    assert_eq!(unquote_env_value("'a'"), "a");
    assert_eq!(unquote_env_value("\"a'"), "\"a'");
    assert_eq!(unquote_env_value("\""), "\"");
    assert_eq!(unquote_env_value("''"), "");
}

#[test]
fn last_environment_setting_counts() {
    let text = "# A=0\nA = 'one'\nB=2\nnonsense\n A=\"two\" \n";
    assert_eq!(read_dotenv_setting(text, "A").as_deref(), Some("two"));
    assert_eq!(read_dotenv_setting(text, "B").as_deref(), Some("2"));
    assert!(read_dotenv_setting(text, "C").is_none());
}

#[test]
fn extensions_are_a_dot_and_letters_or_digits() {
    assert!(is_valid_extension(".conf"));
    assert!(is_valid_extension(".wg0"));
    assert!(!is_valid_extension("conf"));
    assert!(!is_valid_extension("."));
    assert!(!is_valid_extension(".a.b"));
    assert!(!is_valid_extension(".ä"));
}

#[test]
fn profile_settings_are_read_from_the_environment_file() {
    let text =
        "NORDVPN_PROFILE_DIRECTORY=/vpn/nord\nNORDVPN_PROFILE_EXTENSIONS=.Conf, .wg ,,.conf\n";
    let settings = profile_settings(Provider::NordVpn, &Ok(text.to_string())).unwrap();
    assert_eq!(settings.directory, "/vpn/nord");
    let mut extensions = settings.extensions;
    extensions.sort();
    assert_eq!(extensions, vec![".conf".to_string(), ".wg".to_string()]);
}

#[test]
fn profile_settings_say_what_is_wrong() {
    fn refusal(provider: Provider, text: &str) -> String {
        profile_settings(provider, &Ok(text.to_string())).err().unwrap()
    }
    assert_eq!(refusal(Provider::Direct, ""), "Direct mode has no profile settings");
    assert_eq!(
        refusal(Provider::NordVpn, "NORDVPN_PROFILE_DIRECTORY=\n"),
        "NORDVPN_PROFILE_DIRECTORY is not configured in .env"
    );
    assert_eq!(
        refusal(Provider::NordVpn, "NORDVPN_PROFILE_DIRECTORY=/x\n"),
        "NORDVPN_PROFILE_EXTENSIONS is not configured in .env"
    );
    assert_eq!(
        refusal(
            Provider::ProtonVpn,
            "PROTONVPN_PROFILE_DIRECTORY=/x\nPROTONVPN_PROFILE_EXTENSIONS=conf\n"
        ),
        "PROTONVPN_PROFILE_EXTENSIONS contains an invalid extension"
    );
    assert_eq!(
        refusal(
            Provider::ProtonVpn,
            "PROTONVPN_PROFILE_DIRECTORY=/x\nPROTONVPN_PROFILE_EXTENSIONS=, ,\n"
        ),
        "PROTONVPN_PROFILE_EXTENSIONS has no usable extensions"
    );
    assert_eq!(
        profile_settings(Provider::NordVpn, &Err("gone".to_string())).err().unwrap(),
        "could not read .env: gone"
    );
}
