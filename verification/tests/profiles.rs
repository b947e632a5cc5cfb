use webspeak::network::address::is_cidr;
use webspeak::network::address::is_cidr_list;
use webspeak::network::address::is_valid_hostname;
use webspeak::network::address::is_wireguard_key;
use webspeak::network::address::parse_endpoint_host;
use webspeak::network::discovery::discover_profiles;
use webspeak::network::discovery::is_candidate;
use webspeak::network::discovery::ListingError;
use webspeak::network::discovery::ProfileFile;
use webspeak::network::discovery::MAX_PROFILE_BYTES;
use webspeak::network::overlay::profile_overlay;
use webspeak::network::overlay::yaml_double_quoted;
use webspeak::network::profile::ValidatedProfile;
use webspeak::network::provider::Provider;
use webspeak::network::settings::ProfileSettings;
use webspeak::network::wireguard::required_profile_field;
use webspeak::network::wireguard::validate_wireguard_profile;
use webspeak::network::wireguard::Section;
use webspeak::network::wireguard::Setting;

const KEY: &str = "aGVsbG8gd29ybGQgaGVsbG8gd29ybGQgaGVsbG8gd28=";

fn text(endpoint: &str) -> String {
    format!(
        "# a profile\n[Interface]\nPrivateKey = {KEY}\nAddress = 10.5.0.2/32, fd00::2/128\n\n; peer\n[Peer]\nPublicKey={KEY}\nAllowedIPs=0.0.0.0/0,::/0\nEndpoint = {endpoint}\n"
    )
}

fn refusal(contents: &str) -> String {
    validate_wireguard_profile(Provider::NordVpn, "/p/a.conf", Some("a.conf"), Some(contents))
        .err()
        .unwrap()
}

fn settings() -> ProfileSettings {
    ProfileSettings {
        directory: "/p".to_string(),
        extensions: vec![".conf".to_string()],
    }
}

fn file(name: &str) -> ProfileFile {
    ProfileFile {
        name: Some(name.to_string()),
        path: format!("/p/{name}"),
        is_file: true,
        is_symlink: false,
        length: 100,
        contents: Some(text("DE1.example.com:51820")),
    }
}

#[test]
fn address_ranges_need_an_address_and_a_prefix() {
    assert!(is_cidr("10.0.0.1/32"));
    assert!(is_cidr("10.0.0.1 / 0"));
    assert!(!is_cidr("10.0.0.1/33"));
    assert!(!is_cidr("10.0.0.1"));
    assert!(!is_cidr("10.0.0.01/8"));
    assert!(!is_cidr("10.0.0.256/8"));
    assert!(!is_cidr("10.0.0/8"));
    assert!(is_cidr("::/0"));
    assert!(is_cidr("fe80::1/128"));
    assert!(!is_cidr("fe80::1/129"));
    assert!(is_cidr("::ffff:10.0.0.1/96"));
    assert!(!is_cidr("1:2:3:4:5:6:7:8:9/64"));
    assert!(!is_cidr("12345::/64"));
    assert!(is_cidr("1:2:3:4:5:6:7::/64"));
    assert!(!is_cidr("1::2::3/64"));
}

#[test]
fn range_lists_hold_ranges_only() {
    assert!(is_cidr_list("10.0.0.0/8, ::/0"));
    assert!(!is_cidr_list("10.0.0.0/8,"));
    assert!(!is_cidr_list(""));
}

#[test]
fn hostnames_are_labels_between_dots() {
    assert!(is_valid_hostname("de1.example.com"));
    assert!(is_valid_hostname("a"));
    assert!(!is_valid_hostname(""));
    assert!(!is_valid_hostname("a..b"));
    assert!(!is_valid_hostname("-a.b"));
    assert!(!is_valid_hostname("a-.b"));
    assert!(!is_valid_hostname("a_b"));
    assert!(!is_valid_hostname(&"a".repeat(64)));
    assert!(is_valid_hostname(&"a".repeat(63)));
    assert!(!is_valid_hostname(&format!("{}.a", vec!["a".repeat(63); 4].join("."))));
}

#[test]
fn keys_are_44_characters_of_base64() {
    assert!(is_wireguard_key(KEY));
    assert!(!is_wireguard_key(&KEY[1..]));
    assert!(!is_wireguard_key(&KEY.replace('=', "A")));
    assert!(!is_wireguard_key(&KEY.replace('a', "-")));
}

#[test]
fn endpoints_are_hosts_and_ports() {
    assert_eq!(parse_endpoint_host("DE1.Example.com:51820").unwrap(), "de1.example.com");
    assert_eq!(parse_endpoint_host(" 1.2.3.4:1 ").unwrap(), "1.2.3.4");
    assert_eq!(parse_endpoint_host("[FE80::1]:51820").unwrap(), "fe80::1");
    assert_eq!(
        parse_endpoint_host("example.com").err().unwrap(),
        "endpoint must use host:port syntax"
    );
    assert_eq!(
        parse_endpoint_host("[fe80::1]51820").err().unwrap(),
        "endpoint must use host:port syntax"
    );
    assert_eq!(
        parse_endpoint_host("[1.2.3.4]:51820").err().unwrap(),
        "bracketed endpoint host is not an IPv6 address"
    );
    assert_eq!(
        parse_endpoint_host("example.com:0").err().unwrap(),
        "endpoint host or port is invalid"
    );
    assert_eq!(
        parse_endpoint_host("example.com:65536").err().unwrap(),
        "endpoint host or port is invalid"
    );
    assert_eq!(
        parse_endpoint_host(":80").err().unwrap(),
        "endpoint host or port is invalid"
    );
    assert_eq!(
        parse_endpoint_host("exa_mple:80").err().unwrap(),
        "endpoint hostname is invalid"
    );
}

#[test]
fn valid_profile_yields_its_host_for_one_provider() {
    let contents = text("DE1.example.com:51820");
    let nord = validate_wireguard_profile(
        Provider::NordVpn,
        "/p/a.conf",
        Some("a.conf"),
        Some(&contents),
    )
    .unwrap();
    assert_eq!(nord.basename, "a.conf");
    assert_eq!(nord.path, "/p/a.conf");
    assert_eq!(nord.endpoint_hostname.as_deref(), Some("de1.example.com"));
    let proton = validate_wireguard_profile(
        Provider::ProtonVpn,
        "/p/a.conf",
        Some("a.conf"),
        Some(&text("1.2.3.4:51820")),
    )
    .unwrap();
    assert!(proton.endpoint_hostname.is_none());
}

#[test]
fn profile_refusals_name_the_line() {
    assert_eq!(
        validate_wireguard_profile(Provider::NordVpn, "/p/a", Some("a"), None).err().unwrap(),
        "profile is not valid UTF-8 text"
    );
    assert_eq!(refusal("[Interface]\n[Interface]\n"), "duplicate section");
    assert_eq!(refusal("[Peer]\n[Peer]\n"), "duplicate section");
    assert_eq!(refusal("\n[Other]\n"), "unsupported section on line 2");
    assert_eq!(refusal("A=1\n"), "setting before a section on line 1");
    assert_eq!(refusal("[Interface]\nPrivateKey\n"), "malformed setting on line 2");
    assert_eq!(refusal("[Interface]\nPrivateKey=\n"), "empty setting on line 2");
    assert_eq!(refusal("[Interface]\nA=1\nA=2\n"), "duplicate setting on line 3");
    assert_eq!(
        refusal("[Interface]\nA=1\n"),
        "[Interface] and [Peer] sections are both required"
    );
    assert_eq!(
        refusal("[Interface]\nA=1\n[Peer]\n"),
        "missing required Interface.PrivateKey"
    );
    assert_eq!(
        refusal(&text("a:1").replace("Endpoint", "Other")),
        "missing required Peer.Endpoint"
    );
    assert_eq!(
        refusal(&text("a:1").replace(KEY, "short")),
        "WireGuard key is not a 32-byte base64 key"
    );
    assert_eq!(
        refusal(&text("a:1").replace("::/0", "::/200")),
        "interface address or allowed IP range is invalid"
    );
    assert_eq!(
        refusal(&text("1.2.3.4:51820")),
        "NordVPN endpoint must be a hostname for Gluetun server selection"
    );
    assert_eq!(
        validate_wireguard_profile(
            Provider::ProtonVpn,
            "/p/..",
            Some(".."),
            Some(&text("a.b:1"))
        )
        .err()
        .unwrap(),
        "profile filename is not a safe UTF-8 basename"
    );
}

#[test]
fn required_fields_are_looked_up_by_section() {
    let settings = vec![Setting {
        section: Section::Peer,
        key: "Endpoint".to_string(),
        value: "a:1".to_string(),
    }];
    assert_eq!(required_profile_field(&settings, Section::Peer, "Endpoint").unwrap(), "a:1");
    assert_eq!(
        required_profile_field(&settings, Section::Interface, "Endpoint").err().unwrap(),
        "missing required Interface.Endpoint"
    );
}

#[test]
fn candidates_are_ordinary_files_with_an_extension() {
    let s = settings();
    assert!(is_candidate(&s, &file("a.CONF")));
    assert!(!is_candidate(&s, &file("a.txt")));
    assert!(!is_candidate(&s, &file(".conf")));
    assert!(!is_candidate(&s, &file("conf")));
    assert!(!is_candidate(&s, &ProfileFile { is_symlink: true, ..file("a.conf") }));
    assert!(!is_candidate(&s, &ProfileFile { is_file: false, ..file("a.conf") }));
    assert!(is_candidate(&s, &ProfileFile { length: MAX_PROFILE_BYTES, ..file("a.conf") }));
    assert!(!is_candidate(&s, &ProfileFile { length: MAX_PROFILE_BYTES + 1, ..file("a.conf") }));
    assert!(!is_candidate(&s, &ProfileFile { name: None, ..file("a.conf") }));
}

#[test]
fn discovery_finds_all_valid_profiles_in_order() {
    let broken = ProfileFile { contents: Some("nonsense".to_string()), ..file("b.conf") };
    let listing = Ok(vec![file("c.conf"), broken, file("a.conf"), file("d.txt"), file("B.conf")]);
    let found = discover_profiles(Provider::NordVpn, &settings(), &listing).unwrap();
    let names: Vec<&str> = found.iter().map(|p| p.basename.as_str()).collect();
    assert_eq!(names, vec!["B.conf", "a.conf", "c.conf"]);
}

#[test]
fn discovery_reports_an_unusable_directory() {
    let cases = [
        (
            ListingError::Unavailable("x".to_string()),
            "profile directory is unavailable: x",
        ),
        (
            ListingError::NotADirectory,
            "configured profile directory is not a directory",
        ),
        (
            ListingError::NotEnumerable("y".to_string()),
            "could not enumerate profile directory: y",
        ),
    ];
    for (error, message) in cases {
        assert_eq!(
            discover_profiles(Provider::NordVpn, &settings(), &Err(error)).err().unwrap(),
            message
        );
    }
}

#[test]
fn quoted_values_are_escaped() {
    assert_eq!(yaml_double_quoted("a\"b\\c\nd\re\tf"), "\"a\\\"b\\\\c\\nd\\re\\tf\"");
    assert_eq!(yaml_double_quoted(""), "\"\"");
}

#[test]
fn overlays_select_the_server_or_mount_the_profile() {
    let mut profile = ValidatedProfile {
        basename: "a.conf".to_string(),
        path: "/p/a.conf".to_string(),
        endpoint_hostname: Some("de1.example.com".to_string()),
    };
    assert_eq!(
        profile_overlay(Provider::NordVpn, &profile).unwrap(),
        "services:\n  vpn_gateway:\n    environment:\n      SERVER_COUNTRIES: \"\"\n      SERVER_HOSTNAMES: \"de1.example.com\"\n"
    );
    assert_eq!(
        profile_overlay(Provider::ProtonVpn, &profile).unwrap(),
        "services:\n  vpn_gateway:\n    environment:\n      SERVER_COUNTRIES: \"\"\n    volumes:\n      - \"/p/a.conf:/gluetun/wireguard/wg0.conf:ro\"\n"
    );
    assert_eq!(
        profile_overlay(Provider::Direct, &profile).err().unwrap(),
        "Direct mode has no VPN profile overlay"
    );
    profile.endpoint_hostname = None;
    assert_eq!(
        profile_overlay(Provider::NordVpn, &profile).err().unwrap(),
        "NordVPN profile did not yield a hostname"
    );
}
