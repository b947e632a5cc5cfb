use webspeak::voice::grammar::parse_line;
use webspeak::voice::packet::encode_command;
use webspeak::voice::request::Delivery;
use webspeak::voice::request::Grant;
use webspeak::voice::request::KickPlace;
use webspeak::voice::request::Label;
use webspeak::voice::request::PermissionTarget;
use webspeak::voice::request::Request;
use webspeak::voice::request::TextTarget;

fn refusal(line: &str) -> String {
    match parse_line(line) {
        Request::Refused(m) => m,
        _ => panic!("not refused: {line}"),
    }
}

fn sent(line: &str) -> (String, Delivery) {
    match parse_line(line) {
        Request::Send { command, delivery } => {
            let packet = encode_command(&command);
            (String::from_utf8(packet.0.content().to_vec()).unwrap(), delivery)
        }
        _ => panic!("no command: {line}"),
    }
}

fn asked(line: &str) -> (String, Label) {
    let (text, delivery) = sent(line);
    assert!(!delivery.names_failure);
    (text, delivery.label.unwrap())
}

fn told(line: &str) -> String {
    let (text, delivery) = sent(line);
    assert!(delivery.names_failure);
    assert!(delivery.label.is_none());
    text
}

#[test]
fn unknown_lines_are_ignored() {
    for line in ["", "   ", "dance", "switchx 1", "switch", "chat", "unaway now", "banlist 1"] {
        assert!(matches!(parse_line(line), Request::Ignored), "{line}");
    }
}

#[test]
fn disconnect_with_and_without_a_message() {
    assert!(matches!(parse_line("disconnect\n"), Request::Disconnect(None)));
    assert!(matches!(parse_line(" disconnect   bye all "), Request::Disconnect(Some(m)) if m == "bye all"));
}

#[test]
fn switch_takes_a_channel_and_a_password() {
    assert!(matches!(parse_line("switch 5"), Request::Switch { channel: 5, password: None }));
    assert!(matches!(parse_line("switch +5"), Request::Switch { channel: 5, password: None }));
    assert!(matches!(
        parse_line("switch 5 aGkgdGhlcmU="),
        Request::Switch { channel: 5, password: Some(p) } if p == "hi there"
    ));
    assert!(matches!(
        parse_line("switch 5 ???"),
        Request::Switch { channel: 5, password: None }
    ));
    assert!(matches!(
        parse_line("switch 5 /w=="),
        Request::Switch { channel: 5, password: None }
    ));
    assert_eq!(refusal("switch five"), "Invalid channel id: five");
    assert_eq!(refusal("switch -1 x"), "Invalid channel id: -1");
    assert_eq!(
        refusal("switch 18446744073709551616"),
        "Invalid channel id: 18446744073709551616"
    );
}

#[test]
fn text_messages() {
    assert!(matches!(
        parse_line("chat  hello "),
        Request::Text { recipient: TextTarget::Channel, message } if message == " hello"
    ));
    assert!(matches!(
        parse_line("serverchat hello all"),
        Request::Text { recipient: TextTarget::Server, message } if message == "hello all"
    ));
    assert!(matches!(
        parse_line("pm 7 hello you"),
        Request::Text { recipient: TextTarget::Client(7), message } if message == "hello you"
    ));
    assert_eq!(refusal("pm 7"), "Malformed pm command");
    assert_eq!(refusal("pm x y"), "Invalid client id: x");
    assert_eq!(refusal("pm 65536 y"), "Invalid client id: 65536");
}

#[test]
fn pokes_may_be_silent() {
    assert!(matches!(parse_line("poke 7"), Request::Poke { client: 7, message } if message.is_empty()));
    assert!(matches!(parse_line("poke 7 wake up"), Request::Poke { client: 7, message } if message == "wake up"));
    assert_eq!(refusal("poke you"), "Invalid client id: you");
}

#[test]
fn clients_are_moved() {
    assert!(matches!(
        parse_line("moveclient 3 9"),
        Request::MoveClient { client: 3, channel: 9, password: None }
    ));
    assert!(matches!(
        parse_line("moveclient 3 9 cHc="),
        Request::MoveClient { client: 3, channel: 9, password: Some(p) } if p == "pw"
    ));
    assert!(matches!(
        parse_line("moveclient 3 9 YSBiCmM="),
        Request::MoveClient { client: 3, channel: 9, password: Some(p) } if p == "a b\nc"
    ));
    assert_eq!(refusal("moveclient 3"), "Malformed moveclient command: 3");
    assert_eq!(refusal("moveclient x 9"), "Malformed moveclient command: x 9");
}

#[test]
fn own_state() {
    assert!(matches!(parse_line("away"), Request::Away(Some(m)) if m.is_empty()));
    assert!(matches!(parse_line("away  lunch "), Request::Away(Some(m)) if m == "lunch"));
    assert!(matches!(parse_line("unaway"), Request::Away(None)));
    assert!(matches!(parse_line("muteinput 1"), Request::MuteInput(true)));
    assert!(matches!(parse_line("muteinput 0"), Request::MuteInput(false)));
    assert!(matches!(parse_line("muteoutput  1"), Request::MuteOutput(true)));
    assert!(matches!(parse_line("nickname  New Name "), Request::Nickname(n) if n == "New Name"));
}

#[test]
fn whispers_list_channels_and_clients() {
    match parse_line("whisper 5, x,6;12,13,99999") {
        Request::Whisper { channels, clients } => {
            assert_eq!(channels, vec![5, 6]);
            assert_eq!(clients, vec![12, 13]);
        }
        _ => panic!("no whisper"),
    }
    match parse_line("whisper ;12") {
        Request::Whisper { channels, clients } => {
            assert!(channels.is_empty());
            assert_eq!(clients, vec![12]);
        }
        _ => panic!("no whisper"),
    }
    assert!(matches!(
        parse_line("unwhisper"),
        Request::Whisper { channels, clients } if channels.is_empty() && clients.is_empty()
    ));
}

#[test]
fn requests_about_clients() {
    assert!(matches!(parse_line("clientconninfo 4"), Request::ClientInfo(4)));
    assert_eq!(refusal("clientconninfo  x"), "Invalid client id:  x");
    assert!(matches!(
        parse_line("kickchannel 4 too loud "),
        Request::Kick { client: 4, place: KickPlace::Channel, reason: Some(r) } if r == "too loud"
    ));
    assert!(matches!(
        parse_line("kickserver 4"),
        Request::Kick { client: 4, place: KickPlace::Server, reason: None }
    ));
    assert_eq!(refusal("kickserver a b"), "Invalid client id: a");
    assert_eq!(asked("banclient 4"), ("banclient clid=4".to_string(), Label::BanClient));
    assert_eq!(
        asked("banclient 4 60 bad words"),
        ("banclient clid=4 time=60 banreason=bad\\swords".to_string(), Label::BanClient)
    );
    assert_eq!(
        asked("banclient 4 soon off"),
        ("banclient clid=4 banreason=off".to_string(), Label::BanClient)
    );
    assert_eq!(refusal("banclient x"), "Invalid client id: x");
    assert!(matches!(parse_line("serveredit {\"a\":1}"), Request::ServerEdit(j) if j == "{\"a\":1}"));
    assert!(matches!(parse_line("serverconninfo"), Request::ServerInfo));
    assert!(matches!(parse_line("serverlog"), Request::ServerLog));
}

#[test]
fn requests_about_streams() {
    assert_eq!(told("streaminfo 4"), "requeststreaminfo clid=4");
    assert_eq!(refusal("streaminfo x"), "Invalid client id: x");
    assert!(matches!(parse_line("streamsetup {}"), Request::StreamSetup(j) if j == "{}"));
    assert!(matches!(parse_line("streamrespond {}"), Request::StreamRespond(j) if j == "{}"));
    assert_eq!(told("streamstop s1"), "stopstream id=s1 reason");
    assert_eq!(told("streamstop s1 all done"), "stopstream id=s1 reason=all\\sdone");
    assert_eq!(refusal("streamstop  x"), "Usage: streamstop <stream-id> [reason]");
    assert_eq!(told("streamjoin s1 4"), "joinstreamrequest id=s1 clid=4 msg is_remove=0");
    assert_eq!(
        told("streamleave s1 4 a|b"),
        "joinstreamrequest id=s1 clid=4 msg=a\\pb is_remove=1"
    );
    assert_eq!(refusal("streamjoin s1"), "Usage: streamjoin <stream-id> <clid> [msg]");
    assert_eq!(refusal("streamjoin  4 x"), "Usage: streamjoin <stream-id> <clid> [msg]");
    let (text, delivery) = sent("streamsignal s1 4 {\"a\": 1}");
    assert_eq!(text, "streamsignaling id=s1 clid=4 json={\"a\":\\s1}");
    assert_eq!(delivery.label, Some(Label::StreamSignaling));
    assert!(delivery.names_failure);
    assert_eq!(refusal("streamsignal s1 4"), "Usage: streamsignal <stream-id> <clid> <json>");
}

#[test]
fn requests_about_records() {
    assert_eq!(asked("banlist"), ("banlist".to_string(), Label::BanList));
    assert_eq!(asked("bandel 8"), ("bandel banid=8".to_string(), Label::DeleteBan));
    assert_eq!(refusal("bandel x"), "Invalid ban id: x");
    assert_eq!(asked("bandelall"), ("bandelall".to_string(), Label::DeleteAllBans));
    assert_eq!(asked("complainlist"), ("complainlist".to_string(), Label::ComplainList));
    assert_eq!(
        asked("complaindel 1 2"),
        ("complaindel tcldbid=1 fcldbid=2".to_string(), Label::DeleteComplaint)
    );
    assert_eq!(refusal("complaindel 1"), "Invalid complaindel args: 1");
    assert_eq!(
        asked("complaindelall 1"),
        ("complaindelall tcldbid=1".to_string(), Label::DeleteAllComplaints)
    );
    assert_eq!(refusal("complaindelall x"), "Invalid client db id: x");
    assert_eq!(asked("messagelist"), ("messagelist".to_string(), Label::OfflineMessageList));
    assert_eq!(asked("messageget 3"), ("messageget msgid=3".to_string(), Label::OfflineMessage));
    assert_eq!(refusal("messageget x"), "Invalid message id: x");
    assert_eq!(
        asked("messageadd uid=\tHello\tHow are you?"),
        (
            "messageadd cluid=uid= subject=Hello message=How\\sare\\syou?".to_string(),
            Label::SendOfflineMessage
        )
    );
    assert_eq!(
        asked("messagedel 3"),
        ("messagedel msgid=3".to_string(), Label::DeleteOfflineMessage)
    );
    assert_eq!(
        asked("messageupdateflag 3 1"),
        ("messageupdateflag msgid=3 flag=true".to_string(), Label::MarkOfflineMessage)
    );
    assert_eq!(
        asked("messageupdateflag 3"),
        ("messageupdateflag msgid=3 flag=false".to_string(), Label::MarkOfflineMessage)
    );
    assert_eq!(refusal("messageupdateflag x 1"), "Invalid message id: x 1");
}

#[test]
fn requests_about_groups() {
    assert_eq!(asked("channelgrouplist"), ("channelgrouplist".to_string(), Label::ChannelGroupList));
    assert_eq!(asked("servergrouplist"), ("servergrouplist".to_string(), Label::ServerGroupList));
    assert_eq!(
        asked("setchannelgroup 1 2 3"),
        ("setclientchannelgroup cgid=1 cid=2 cldbid=3".to_string(), Label::AssignChannelGroup)
    );
    assert_eq!(refusal("setchannelgroup 1 2"), "Invalid setchannelgroup args: 1 2");
    assert_eq!(
        asked("addservergroup 1 2"),
        ("servergroupaddclient sgid=1 cldbid=2".to_string(), Label::AssignServerGroup)
    );
    assert_eq!(refusal("addservergroup x 2"), "Invalid addservergroup args: x 2");
    assert_eq!(
        asked("delservergroup 1 2"),
        ("servergroupdelclient sgid=1 cldbid=2".to_string(), Label::RemoveServerGroup)
    );
    assert_eq!(refusal("delservergroup 1"), "Invalid delservergroup args: 1");
    assert_eq!(
        asked("serverquerylogin dXNlcg== cGFzcw=="),
        (
            "login client_login_name=user client_login_password=pass".to_string(),
            Label::ServerQueryLogin
        )
    );
    assert_eq!(
        asked("serverquerylogin dXNlcg== ").0,
        "login client_login_name=user client_login_password"
    );
    assert_eq!(refusal("serverquerylogin user pass!"), "Invalid serverquerylogin args");
}

#[test]
fn requests_about_files() {
    assert!(matches!(parse_line("ftlist 2"), Request::ListFiles { channel: 2, path } if path == "/"));
    assert!(matches!(parse_line("ftlist 2 /a b"), Request::ListFiles { channel: 2, path } if path == "/a b"));
    assert_eq!(refusal("ftlist x"), "Invalid channel id: x");
    assert!(matches!(parse_line("ftmkdir 2 /a"), Request::MakeDirectory { channel: 2, name } if name == "/a"));
    assert!(matches!(parse_line("ftdelete 2 /a"), Request::DeleteFile { channel: 2, name } if name == "/a"));
    assert!(matches!(parse_line("ftdownload 2 /a"), Request::Download { channel: 2, path } if path == "/a"));
    assert_eq!(refusal("ftmkdir x a"), "Invalid channel id: x");
    assert_eq!(refusal("ftdelete x a"), "Invalid channel id: x");
    assert_eq!(refusal("ftdownload x a"), "Invalid channel id: x");
    assert!(matches!(
        parse_line("ftrename 2\ta b\tc d"),
        Request::RenameFile { channel: 2, old_name, new_name } if old_name == "a b" && new_name == "c d"
    ));
    assert_eq!(refusal("ftrename x\ta\tb"), "Invalid ftrename args: x\ta\tb");
    assert!(matches!(
        parse_line("ftupload 2\t/a b\tAAH/"),
        Request::Upload { channel: 2, path, data } if path == "/a b" && data == vec![0, 1, 255]
    ));
    assert!(matches!(
        parse_line("ftupload 2\t/a b\t"),
        Request::Upload { channel: 2, path, data } if path == "/a b" && data.is_empty()
    ));
    assert_eq!(refusal("ftupload 2\t/a\t*"), "Invalid ftupload args");
    assert_eq!(refusal("ftupload x\t/a\tAAH/"), "Invalid ftupload args");
}

#[test]
fn requests_about_permissions() {
    assert!(matches!(parse_line("permoverview"), Request::PermissionOverview));
    assert!(matches!(parse_line("permissionlist"), Request::PermissionCatalog));
    let targets = [
        ("server 1", PermissionTarget::ServerGroup(1)),
        ("channelgroup 1", PermissionTarget::ChannelGroup(1)),
        ("channel 1", PermissionTarget::Channel(1)),
        ("client 1", PermissionTarget::Client(1)),
        ("channelclient 1  2", PermissionTarget::ChannelClient(1, 2)),
    ];
    for (words, target) in targets {
        assert!(matches!(
            parse_line(&format!("permlist {words}")),
            Request::ListPermissions(t) if t == target
        ));
        assert!(matches!(
            parse_line(&format!("permdel {words} 77")),
            Request::RemovePermission { target: t, permission: 77 } if t == target
        ));
        assert!(matches!(parse_line(&format!("permlist {words} 9 9")), Request::Refused(_)));
    }
    assert_eq!(refusal("permlist server"), "Invalid permlist args: server");
    assert_eq!(refusal("permlist group 1"), "Invalid permlist args: group 1");
    assert_eq!(refusal("permdel server 1 x"), "Invalid permdel args: server 1 x");
}

#[test]
fn granted_permissions() {
    let grant = |value, negated, skip| Grant { permission: 77, value, negated, skip };
    let cases = [
        ("server 1 77 -5 1 0", PermissionTarget::ServerGroup(1), grant(-5, true, false)),
        ("server 1 77 5 0 1", PermissionTarget::ServerGroup(1), grant(5, false, true)),
        ("channelgroup 1 77 5", PermissionTarget::ChannelGroup(1), grant(5, false, false)),
        ("channel 1 77 5", PermissionTarget::Channel(1), grant(5, false, false)),
        ("client 1 77 5 1", PermissionTarget::Client(1), grant(5, false, true)),
        ("channelclient 1 2 77 5", PermissionTarget::ChannelClient(1, 2), grant(5, false, false)),
    ];
    for (words, target, expected) in cases {
        assert!(matches!(
            parse_line(&format!("permadd {words}")),
            Request::AddPermission { target: t, grant } if t == target && grant == expected
        ), "{words}");
    }
    assert_eq!(refusal("permadd server 1 77 5"), "Invalid permadd args: server 1 77 5");
    assert_eq!(
        refusal("permadd channel 1 77 2147483648"),
        "Invalid permadd args: channel 1 77 2147483648"
    );
}

#[test]
fn audio_is_base64() {
    assert!(matches!(parse_line("audio AAH/"), Request::Audio(d) if d == vec![0, 1, 255]));
    assert_eq!(refusal("audio A*=="), "Invalid audio payload: Invalid symbol 42, offset 1.");
    assert_eq!(refusal("audio AAA"), "Invalid audio payload: Invalid padding");
}

#[test]
fn labels_are_words() {
    assert_eq!(Label::ChannelSwitch.text(), "Channel switch");
    assert_eq!(Label::DeleteAllComplaints.text(), "Delete all complaints for client");
    assert_eq!(PermissionTarget::ChannelClient(1, 2).scope(), "channelclient");
    assert_eq!(PermissionTarget::ChannelClient(1, 2).ids(), (1, Some(2)));
    assert_eq!(PermissionTarget::Channel(1).ids(), (1, None));
}
