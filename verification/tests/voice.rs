use webspeak::voice::book::sort_groups;
use webspeak::voice::book::Book;
use webspeak::voice::book::BookChannel;
use webspeak::voice::book::BookClient;
use webspeak::voice::book::ChannelLimit;
use webspeak::voice::book::GroupEntry;
use webspeak::voice::book::ServerCounts;
use webspeak::voice::encoding::decode_base64;
use webspeak::voice::encoding::decode_base64_string;
use webspeak::voice::log::log_book_event;
use webspeak::voice::log::reveals_channels;
use webspeak::voice::log::BookChange;
use webspeak::voice::log::ChannelProperty;
use webspeak::voice::log::ServerLogEntry;
use webspeak::voice::log::ServerProperty;
use webspeak::voice::order::resolve_order;
use webspeak::voice::order::Place;
use webspeak::voice::packet::collect_arguments;
use webspeak::voice::packet::encode_command;
use webspeak::voice::packet::parse_ts_args;
use webspeak::voice::packet::Arguments;
use webspeak::voice::packet::Command;
use webspeak::voice::packet::ReceivedItem;
use webspeak::voice::server::format_server_license;
use webspeak::voice::server::friendly_connect_error;
use webspeak::voice::server::hardware_id;
use webspeak::voice::server::is_greenteaspeak_server_version;
use webspeak::voice::server::license_id;
use webspeak::voice::server::login_timeout_message;
use webspeak::voice::server::parse_codec_encryption_mode;
use webspeak::voice::server::parse_host_banner_mode;
use webspeak::voice::server::parse_host_message_mode;
use webspeak::voice::server::server_edit_choices;
use webspeak::voice::server::server_type;
use webspeak::voice::server::CodecEncryptionMode;
use webspeak::voice::server::ConnectFailure;
use webspeak::voice::server::HostBannerMode;
use webspeak::voice::server::HostMessageMode;
use webspeak::voice::server::LicenseType;
use webspeak::voice::server::PasswordChange;
use webspeak::voice::server::ServerEditPayload;
use webspeak::voice::server::ServerType;
use webspeak::voice::snapshot::snapshot;
use webspeak::voice::sound::frame_samples;
use webspeak::voice::sound::pcm_text;
use webspeak::voice::sound::Talkers;
use webspeak::voice::sound::VoiceTarget;
use webspeak::voice::sound::WhisperList;
use webspeak::voice::transfers::download_text;
use webspeak::voice::transfers::upload_rest;
use webspeak::voice::transfers::FileListEntry;
use webspeak::voice::transfers::FileListing;
use webspeak::voice::transfers::Transfers;
use webspeak::voice::transfers::Upload;

fn place(id: u64, parent: u64, order: u64) -> Place {
    Place { id, parent, order }
}

fn channel(id: u64, order: u64, name: &str) -> BookChannel {
    BookChannel {
        id,
        parent: 0,
        order,
        name: name.to_string(),
        topic: None,
        codec: "OpusVoice".to_string(),
        max_clients: None,
        has_password: None,
        needed_talk_power: None,
    }
}

fn client(id: u16, channel: u64, name: &str) -> BookClient {
    BookClient {
        id,
        channel,
        name: name.to_string(),
        input_muted: false,
        output_muted: false,
        input_hardware_enabled: true,
        away_message: None,
        is_channel_commander: false,
        country: "DE".to_string(),
        uid: None,
        database_id: 100 + id as u64,
        channel_group: 8,
        server_groups: vec![6, 7],
        talk_power: 0,
        talk_power_granted: false,
        is_query: false,
        is_streaming: None,
    }
}

fn group(id: u64, name: &str) -> GroupEntry {
    GroupEntry { id, name: name.to_string(), icon_id: 0 }
}

fn book() -> Book {
    Book {
        channels: vec![channel(2, 1, "Second"), channel(1, 0, "First")],
        clients: vec![client(5, 1, "Me"), client(6, 2, "You")],
        channel_groups: vec![group(8, "Guest")],
        own_client: 5,
        max_clients: 32,
        counts: None,
    }
}

fn pairs(a: &Arguments) -> Vec<(&str, &str)> {
    a.entries.iter().map(|e| (e.name.as_str(), e.value.as_str())).collect()
}

#[test]
fn chains_of_channels_become_places() {
    let order = resolve_order(&vec![
        place(3, 0, 2),
        place(1, 0, 0),
        place(11, 1, 10),
        place(2, 0, 1),
        place(10, 1, 0),
    ]);
    assert_eq!(order.len(), 5);
    assert_eq!((order[&1], order[&2], order[&3]), (0, 1, 2));
    assert_eq!((order[&10], order[&11]), (0, 1));
}

#[test]
fn broken_chains_keep_the_listed_order() {
    let order = resolve_order(&vec![place(4, 0, 99), place(1, 0, 0), place(3, 0, 98)]);
    assert_eq!((order[&1], order[&4], order[&3]), (0, 1, 2));
    assert!(resolve_order(&Vec::new()).is_empty());
}

#[test]
fn snapshot_reports_channels_and_clients() {
    let mut b = book();
    b.channels[0].topic = Some("Topic".to_string());
    b.channels[0].max_clients = Some(ChannelLimit::Limited(4));
    b.channels[1].max_clients = Some(ChannelLimit::Inherited);
    b.channels[0].has_password = Some(true);
    b.clients[1].away_message = Some("brb".to_string());
    b.clients[1].uid = Some("uid".to_string());
    b.clients[1].is_streaming = Some(true);
    let s = snapshot(&b);
    assert_eq!(s.channels[0].id, 2);
    assert_eq!(s.channels[0].order, 1);
    assert_eq!(s.channels[0].topic, "Topic");
    assert_eq!(s.channels[0].max_clients, Some(4));
    assert!(s.channels[0].has_password);
    assert_eq!(s.channels[1].order, 0);
    assert_eq!(s.channels[1].topic, "");
    assert_eq!(s.channels[1].max_clients, None);
    assert!(!s.channels[1].has_password);
    assert_eq!(s.channels[1].codec, "OpusVoice");
    assert!(!s.clients[0].away);
    assert_eq!(s.clients[0].uid, "");
    assert!(s.clients[1].away);
    assert_eq!(s.clients[1].away_message, "brb");
    assert_eq!(s.clients[1].uid, "uid");
    assert!(s.clients[1].is_streaming);
    assert_eq!(s.clients[1].server_groups, vec![6, 7]);
    assert_eq!(s.clients[1].database_id, 106);
    assert_eq!(s.own_client_id, 5);
    assert_eq!(s.server_max_clients, 32);
    assert_eq!(s.server_clients_online, 2);
    assert_eq!(s.server_channels_online, 2);
}

#[test]
fn counts_are_never_below_what_is_seen() {
    let mut b = book();
    b.clients[1].is_query = true;
    assert_eq!(snapshot(&b).server_clients_online, 1);
    b.counts = Some(ServerCounts { clients: 10, channels: 20 });
    assert_eq!(snapshot(&b).server_clients_online, 9);
    assert_eq!(snapshot(&b).server_channels_online, 20);
    b.counts = Some(ServerCounts { clients: 0, channels: 0 });
    assert_eq!(snapshot(&b).server_clients_online, 1);
    assert_eq!(snapshot(&b).server_channels_online, 2);
}

#[test]
fn moderated_channels_ask_for_talk_power() {
    let mut b = book();
    assert!(snapshot(&b).clients[0].has_talk_power);
    b.channels[1].needed_talk_power = Some(50);
    assert!(!snapshot(&b).clients[0].has_talk_power);
    b.clients[0].talk_power = 50;
    assert!(snapshot(&b).clients[0].has_talk_power);
    b.clients[0].talk_power = 0;
    b.clients[0].talk_power_granted = true;
    assert!(snapshot(&b).clients[0].has_talk_power);
}

#[test]
fn log_tells_of_clients() {
    let b = book();
    assert!(matches!(
        log_book_event(&b, &BookChange::ClientAdded(6)),
        Some(ServerLogEntry::ClientJoin { client, channel }) if client == "You" && channel == "Second"
    ));
    assert!(log_book_event(&b, &BookChange::ClientAdded(99)).is_none());
    assert!(matches!(
        log_book_event(&b, &BookChange::ClientRemoved { name: "X".to_string() }),
        Some(ServerLogEntry::ClientLeave { client }) if client == "X"
    ));
    assert!(matches!(
        log_book_event(&b, &BookChange::ClientMoved { client: 6, from: 1 }),
        Some(ServerLogEntry::ClientChannelSwitch { client, from_channel, to_channel })
            if client == "You" && from_channel == "First" && to_channel == "Second"
    ));
    assert!(matches!(
        log_book_event(&b, &BookChange::ClientMoved { client: 6, from: 77 }),
        Some(ServerLogEntry::ClientChannelSwitch { from_channel, .. }) if from_channel.is_empty()
    ));
    assert!(matches!(
        log_book_event(&b, &BookChange::ChannelGroupChanged(5)),
        Some(ServerLogEntry::ClientChannelGroupAssigned { client, group }) if client == "Me" && group == "Guest"
    ));
}

#[test]
fn log_tells_of_channels_and_the_server() {
    let b = book();
    assert!(matches!(
        log_book_event(&b, &BookChange::ChannelAdded(1)),
        Some(ServerLogEntry::ChannelCreated { channel }) if channel == "First"
    ));
    assert!(matches!(
        log_book_event(&b, &BookChange::ChannelRemoved { name: "Old".to_string() }),
        Some(ServerLogEntry::ChannelDeleted { channel }) if channel == "Old"
    ));
    let changed = |property| BookChange::ChannelChanged { channel: 2, property };
    assert!(matches!(
        log_book_event(&b, &changed(ChannelProperty::Topic)),
        Some(ServerLogEntry::ChannelEdited { channel }) if channel == "Second"
    ));
    assert!(log_book_event(&b, &changed(ChannelProperty::Other)).is_none());
    assert!(matches!(
        log_book_event(&b, &BookChange::ServerChanged(ServerProperty::Icon)),
        Some(ServerLogEntry::ServerEdited)
    ));
    assert!(log_book_event(&b, &BookChange::ServerChanged(ServerProperty::Other)).is_none());
    assert!(log_book_event(&b, &BookChange::Other).is_none());
}

#[test]
fn own_group_changes_reveal_channels() {
    assert!(reveals_channels(5, &BookChange::ServerGroupAdded(5)));
    assert!(reveals_channels(5, &BookChange::ServerGroupRemoved(5)));
    assert!(!reveals_channels(5, &BookChange::ServerGroupAdded(6)));
    assert!(!reveals_channels(5, &BookChange::ClientAdded(5)));
}

#[test]
fn groups_are_sorted_by_id() {
    let sorted = sort_groups(vec![group(9, "c"), group(2, "a"), group(7, "b")]);
    let ids: Vec<u64> = sorted.iter().map(|g| g.id).collect();
    assert_eq!(ids, vec![2, 7, 9]);
    assert_eq!(sorted[1].name, "b");
}

#[test]
fn base64_is_read_strictly() {
    assert_eq!(decode_base64("").unwrap(), Vec::<u8>::new());
    assert_eq!(decode_base64("Zm9vYmFy").unwrap(), b"foobar".to_vec());
    assert_eq!(decode_base64("Zg==").unwrap(), b"f".to_vec());
    assert!(decode_base64("Zg").is_err());
    assert!(decode_base64("Zg=").is_err());
    assert!(decode_base64("Zh==").is_err());
    assert!(decode_base64("Zm9v\n").is_err());
    assert!(decode_base64("Zm 9v").is_err());
    assert!(decode_base64("-_8=").is_err());
    assert_eq!(decode_base64_string("w6Q=").as_deref(), Some("ä"));
    assert!(decode_base64_string("/w==").is_none());
}

#[test]
fn base64_reads_back_what_it_wrote() {
    let mut data: Vec<u8> = Vec::new();
    for i in 0..200u32 {
        assert_eq!(decode_base64(&download_text(&data)).unwrap(), data);
        data.push((i * 37 % 256) as u8);
    }
    assert_eq!(download_text(b"foob"), "Zm9vYg==");
    assert_eq!(download_text(&[251, 255]), "+/8=");
}

#[test]
fn commands_are_escaped() {
    let command = Command::new("cmd")
        .with("a", "x y|z/\\\t\r\n\u{b}\u{c}ä")
        .with("empty", "")
        .with_number("n", 18446744073709551615);
    let packet = encode_command(&command);
    assert_eq!(
        String::from_utf8(packet.0.content().to_vec()).unwrap(),
        "cmd a=x\\sy\\pz\\/\\\\\\t\\r\\n\\v\\fä empty n=18446744073709551615"
    );
}

#[test]
fn received_arguments_are_unescaped() {
    let a = parse_ts_args("notifystreamstarted id=s1 name=My\\sStream clid=4 flag id=s2|id=s3");
    assert_eq!(
        pairs(&a),
        vec![("clid", "4"), ("flag", ""), ("id", "s2"), ("name", "My Stream")]
    );
    assert!(parse_ts_args("channellistfinished").entries.is_empty());
}

#[test]
fn written_commands_read_back() {
    let value = "x y|z/\\\t\r\nä";
    let packet = encode_command(&Command::new("cmd").with("a", value).with("b", "1"));
    let text = String::from_utf8(packet.0.content().to_vec()).unwrap();
    assert_eq!(pairs(&parse_ts_args(&text)), vec![("a", value), ("b", "1")]);
}

#[test]
fn only_valid_text_of_the_first_part_counts() {
    let argument = |name: &[u8], value: Option<&str>| ReceivedItem::Argument {
        name: name.to_vec(),
        value: value.map(|v| v.to_string()),
    };
    let items = vec![
        argument(b"b", Some("1")),
        argument(b"\xff", Some("2")),
        argument(b"c", None),
        argument(b"a", Some("3")),
        argument(b"b", Some("4")),
        ReceivedItem::NextPart,
        argument(b"d", Some("5")),
    ];
    assert_eq!(pairs(&collect_arguments(&items)), vec![("a", "3"), ("b", "4")]);
}

#[test]
fn server_modes_are_read_in_any_case() {
    assert_eq!(parse_host_message_mode("None"), Some(HostMessageMode::Hidden));
    assert_eq!(parse_host_message_mode("log"), Some(HostMessageMode::Log));
    assert_eq!(parse_host_message_mode("MODAL"), Some(HostMessageMode::Modal));
    assert_eq!(parse_host_message_mode("modalquit"), Some(HostMessageMode::Modalquit));
    assert_eq!(parse_host_message_mode("loud"), None);
    assert_eq!(parse_host_banner_mode("NoAdjust"), Some(HostBannerMode::NoAdjust));
    assert_eq!(
        parse_host_banner_mode("adjustignoreaspect"),
        Some(HostBannerMode::AdjustIgnoreAspect)
    );
    assert_eq!(
        parse_host_banner_mode("adjustkeepaspect"),
        Some(HostBannerMode::AdjustKeepAspect)
    );
    assert_eq!(parse_host_banner_mode(""), None);
    assert_eq!(
        parse_codec_encryption_mode("perchannel"),
        Some(CodecEncryptionMode::PerChannel)
    );
    assert_eq!(parse_codec_encryption_mode("ForcedOff"), Some(CodecEncryptionMode::ForcedOff));
    assert_eq!(parse_codec_encryption_mode("forcedon"), Some(CodecEncryptionMode::ForcedOn));
    assert_eq!(parse_codec_encryption_mode("x"), None);
}

#[test]
fn server_edits_choose_password_and_modes() {
    let mut payload = ServerEditPayload {
        name: None,
        welcome_message: None,
        password: None,
        max_clients: None,
        hostmessage: None,
        hostmessage_mode: Some("modal".to_string()),
        hostbanner_url: None,
        hostbanner_gfx_url: None,
        hostbanner_gfx_interval_secs: None,
        hostbanner_mode: Some("?".to_string()),
        hostbutton_tooltip: None,
        hostbutton_url: None,
        hostbutton_gfx_url: None,
        nickname: None,
        phonetic_name: None,
        codec_encryption_mode: None,
    };
    let choices = server_edit_choices(&payload);
    assert!(matches!(choices.password, PasswordChange::Keep));
    assert_eq!(choices.hostmessage_mode, Some(HostMessageMode::Modal));
    assert_eq!(choices.hostbanner_mode, None);
    assert_eq!(choices.codec_encryption_mode, None);
    payload.password = Some(String::new());
    assert!(matches!(server_edit_choices(&payload).password, PasswordChange::Clear));
    payload.password = Some("pw".to_string());
    assert!(matches!(server_edit_choices(&payload).password, PasswordChange::Replace(p) if p == "pw"));
}

#[test]
fn versions_tell_servers_apart() {
    assert!(is_greenteaspeak_server_version("2.5.1 [Build: 1]"));
    assert!(is_greenteaspeak_server_version(" 10.0.0"));
    assert!(!is_greenteaspeak_server_version("TeaSpeak 1.4.21-beta [Build: 1]"));
    assert!(!is_greenteaspeak_server_version("3.13.8 [Build: 1]"));
    assert!(!is_greenteaspeak_server_version("2.5"));
    assert!(!is_greenteaspeak_server_version("2.x.1"));
    assert!(!is_greenteaspeak_server_version(""));
}

#[test]
fn licenses_are_named_by_the_kind_of_server() {
    let gts = "2.5.1 [Build: 1]";
    assert_eq!(format_server_license(LicenseType::Offline, gts), "Private");
    assert_eq!(format_server_license(LicenseType::Sdk, gts), "Premium");
    assert_eq!(
        format_server_license(LicenseType::SdkOffline, gts),
        "Authorized GreenTeaSpeak Host Provider"
    );
    assert_eq!(format_server_license(LicenseType::Gamer, gts), "Keine Lizenz");
    assert_eq!(
        format_server_license(LicenseType::Sdk, "TeaSpeak 1.4.21"),
        "Kein GreenTeaSpeak-Server"
    );
    let names = [
        (LicenseType::NoLicense, "No License"),
        (LicenseType::Offline, "Offline / LAN"),
        (LicenseType::Sdk, "SDK"),
        (LicenseType::SdkOffline, "SDK Offline"),
        (LicenseType::Npl, "NPL"),
        (LicenseType::Athp, "ATHP"),
        (LicenseType::Aal, "AAL"),
        (LicenseType::DefaultSlots, "Default"),
        (LicenseType::Gamer, "Gamer"),
        (LicenseType::Sponsorship, "Sponsorship"),
        (LicenseType::Commercial, "Commercial"),
    ];
    for (i, (license, name)) in names.into_iter().enumerate() {
        assert_eq!(format_server_license(license, "3.13.8"), name);
        assert_eq!(license_id(license) as usize, i);
    }
}

#[test]
fn connection_errors_are_put_in_words() {
    let other = ConnectFailure::Other;
    assert!(friendly_connect_error("a:1", "x id=533 y", &other)
        .starts_with("Could not connect to \"a:1\": this server rejects this client type (error 533). GreenTeaSpeak public"));
    assert!(friendly_connect_error("a", "client\\stype\\sis\\snot\\sallowed", &ConnectFailure::LoginTimeout)
        .ends_with("or use GreenTeaSpeak 2 for ts.greenteaspeak.de."));
    assert_eq!(
        friendly_connect_error("a", "raw", &ConnectFailure::Rejected("banned".to_string())),
        "The server rejected the connection: banned"
    );
    assert_eq!(
        friendly_connect_error("a", "raw", &ConnectFailure::LoginTimeout),
        "The server did not finish logging us in within the timeout - please try again"
    );
    assert_eq!(
        friendly_connect_error("a", "[Connect(TsProto(Timeout(..)))]", &other),
        "Could not reach \"a\": connection timed out. Check the address/port and that the server is reachable."
    );
    assert_eq!(friendly_connect_error("a", "raw", &other), "Could not connect to \"a\": raw");
    assert_eq!(
        login_timeout_message("a"),
        "Could not reach \"a\": connection timed out after 15s. Check the address/port and that the server is reachable."
    );
}

#[test]
fn server_types_have_names() {
    assert_eq!(server_type("teaspeak"), ServerType::Teaspeak);
    assert_eq!(server_type("teamspeak"), ServerType::Teamspeak);
    assert_eq!(server_type("auto"), ServerType::Auto);
}

#[test]
fn hardware_ids_come_from_a_seed() {
    for start in [0u64, 1, 1234567890123456789, u64::MAX] {
        let mut seed = start;
        let expected: String = (0..16)
            .map(|_| {
                seed = seed.wrapping_mul(6364136223846793005).wrapping_add(1);
                format!("{:02x}", (seed >> 32) as u8)
            })
            .collect();
        assert_eq!(hardware_id(start), expected);
    }
    assert_eq!(hardware_id(0).len(), 32);
}

#[test]
fn frames_hold_960_samples() {
    let mut bytes = vec![0u8; 1920];
    bytes[0] = 0xff;
    bytes[1] = 0x7f;
    bytes[2] = 0x00;
    bytes[3] = 0x80;
    let samples = frame_samples(&bytes).unwrap();
    assert_eq!(samples.len(), 960);
    assert_eq!((samples[0], samples[1], samples[2]), (32767, -32768, 0));
    bytes.push(0);
    assert!(frame_samples(&bytes).is_some());
    bytes.push(0);
    assert!(frame_samples(&bytes).is_none());
    assert!(frame_samples(&bytes[..1918]).is_none());
}

#[test]
fn samples_are_written_low_byte_first() {
    assert_eq!(decode_base64(&pcm_text(&vec![1, -1, -32768])).unwrap(), vec![1, 0, 255, 255, 0, 128]);
    let samples: Vec<i16> = (0..960).map(|i| (i * 31) as i16).collect();
    assert_eq!(frame_samples(&decode_base64(&pcm_text(&samples)).unwrap()).unwrap(), samples);
}

#[test]
fn voice_goes_to_the_channel_or_is_whispered() {
    assert!(matches!(WhisperList::new().target(), VoiceTarget::Channel));
    let list = WhisperList { channels: vec![], clients: vec![4] };
    assert!(matches!(
        list.target(),
        VoiceTarget::Whisper { channels, clients } if channels.is_empty() && clients == vec![4]
    ));
}

#[test]
fn talkers_are_counted_once() {
    let mut t = Talkers::new();
    assert!(t.start(4));
    assert!(!t.start(4));
    assert!(t.start(5));
    assert!(!t.stop(&vec![9]));
    assert!(t.stop(&vec![9, 4]));
    assert_eq!(t.list(), vec![5]);
    assert!(!t.stop(&vec![4]));
}

fn entry(name: &str) -> FileListEntry {
    FileListEntry {
        path: "/".to_string(),
        name: name.to_string(),
        size: 1,
        is_file: true,
        timestamp: "now".to_string(),
    }
}

#[test]
fn listings_are_gathered_until_they_end() {
    let mut l = FileListing::new();
    l.receive(vec![entry("early")]);
    assert!(l.finish().is_none());
    l.begin(3, "/a");
    l.receive(vec![entry("x")]);
    l.receive(vec![entry("y"), entry("z")]);
    let done = l.finish().unwrap();
    assert_eq!(done.channel, 3);
    assert_eq!(done.path, "/a");
    let names: Vec<&str> = done.entries.iter().map(|e| e.name.as_str()).collect();
    assert_eq!(names, vec!["x", "y", "z"]);
    assert!(l.finish().is_none());
    l.begin(3, "/b");
    assert!(l.finish().unwrap().entries.is_empty());
}

#[test]
fn transfers_are_remembered_until_they_end() {
    let mut t = Transfers::new();
    t.begin_download(1, 7, "/a".to_string());
    t.begin_upload(2, Upload { channel: 8, path: "/b".to_string(), data: vec![1, 2, 3] });
    assert_eq!(t.take_download(1), Some((7, "/a".to_string())));
    assert!(t.take_download(1).is_none());
    assert!(t.take_upload(1).is_none());
    assert!(t.fail(2));
    assert!(!t.fail(2));
    t.begin_upload(2, Upload { channel: 8, path: "/b".to_string(), data: vec![1] });
    t.begin_download(2, 7, "/a".to_string());
    assert!(t.fail(2));
    assert_eq!(t.take_upload(2).unwrap().data, vec![1]);
}

#[test]
fn uploads_go_on_where_they_stopped() {
    assert_eq!(upload_rest(&[1, 2, 3], 0), &[1, 2, 3]);
    assert_eq!(upload_rest(&[1, 2, 3], 2), &[3]);
    assert!(upload_rest(&[1, 2, 3], 3).is_empty());
    assert!(upload_rest(&[1, 2, 3], u64::MAX).is_empty());
}
