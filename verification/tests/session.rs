use webspeak::voice::book::BookClient;
use webspeak::voice::book::GroupEntry;
use webspeak::voice::grammar::parse_line;
use webspeak::voice::log::ServerLogEntry;
use webspeak::voice::packet::encode_command;
use webspeak::voice::permissions::CatalogLine;
use webspeak::voice::permissions::CatalogStep;
use webspeak::voice::permissions::ListedPermission;
use webspeak::voice::permissions::PermissionBook;
use webspeak::voice::permissions::RawPermission;
use webspeak::voice::request::Delivery;
use webspeak::voice::request::Label;
use webspeak::voice::request::PermissionTarget;
use webspeak::voice::request::Request;
use webspeak::voice::session::check_client;
use webspeak::voice::session::check_switch;
use webspeak::voice::session::end_reason;
use webspeak::voice::session::is_stream_event;
use webspeak::voice::session::permission_names_command;
use webspeak::voice::session::permission_overview_command;
use webspeak::voice::session::report_message;
use webspeak::voice::session::request_label;
use webspeak::voice::session::send_failure;
use webspeak::voice::session::server_variables_command;
use webspeak::voice::session::stream_respond_request;
use webspeak::voice::session::stream_setup_request;
use webspeak::voice::session::traffic_total;
use webspeak::voice::session::Answer;
use webspeak::voice::session::Chat;
use webspeak::voice::session::End;
use webspeak::voice::session::Fault;
use webspeak::voice::session::MessageTarget;
use webspeak::voice::session::Notice;
use webspeak::voice::session::OfflineMessage;
use webspeak::voice::session::Poke;
use webspeak::voice::session::Reply;
use webspeak::voice::session::Session;
use webspeak::voice::session::Shown;
use webspeak::voice::session::StreamRespondPayload;
use webspeak::voice::session::StreamSetupPayload;
use webspeak::voice::session::TextMessage;
use webspeak::voice::session::Traffic;
use webspeak::voice::transfers::FileListEntry;

fn group(id: u64) -> GroupEntry {
    GroupEntry { id, name: format!("g{id}"), icon_id: 0 }
}

fn refused(wrong_password: bool, missing_permission: bool) -> Answer {
    Answer::Refused { wrong_password, missing_permission, text: "because".to_string() }
}

fn answer(s: &mut Session, handle: u16, a: &Answer) -> Reply {
    s.answer(handle, a, vec![group(3), group(1)], vec![group(4), group(2)])
}

fn line(name: &str) -> CatalogLine {
    CatalogLine { name: Some(name.to_string()), description: None }
}

fn raw(id: u32) -> RawPermission {
    RawPermission { id, value: 75, negated: false, skip: true }
}

fn listed(id: Option<u32>) -> ListedPermission {
    ListedPermission { id, value: 1, negated: true, skip: false }
}

fn bytes(r: &Request) -> String {
    match r {
        Request::Send { command, .. } => {
            String::from_utf8(encode_command(command).0.content().to_vec()).unwrap()
        }
        _ => panic!("no command"),
    }
}

fn person(id: u16, name: &str) -> BookClient {
    BookClient {
        id,
        channel: 1,
        name: name.to_string(),
        input_muted: false,
        output_muted: false,
        input_hardware_enabled: true,
        away_message: None,
        is_channel_commander: false,
        country: String::new(),
        uid: None,
        database_id: 0,
        channel_group: 0,
        server_groups: Vec::new(),
        talk_power: 0,
        talk_power_granted: false,
        is_query: false,
        is_streaming: None,
    }
}

#[test]
fn wrong_channel_password_is_asked_for() {
    let mut s = Session::new();
    s.sent(1, &parse_line("switch 9"));
    assert!(matches!(answer(&mut s, 1, &refused(true, true)), Reply::PasswordRequired(9)));
    assert!(matches!(answer(&mut s, 1, &refused(true, true)), Reply::Nothing));
}

#[test]
fn refusals_are_reported() {
    let mut s = Session::new();
    s.sent(1, &parse_line("switch 9"));
    assert!(matches!(answer(&mut s, 1, &refused(false, false)), Reply::Failed(m) if m == "Channel switch failed: because"));
    s.sent(2, &parse_line("poke 4"));
    assert!(matches!(answer(&mut s, 2, &refused(true, false)), Reply::Failed(m) if m == "Poke failed: because"));
    s.sent(3, &parse_line("kickserver 4"));
    assert!(matches!(
        answer(&mut s, 3, &refused(false, true)),
        Reply::Denied(ServerLogEntry::PermissionError { action }) if action == "Kick from server"
    ));
}

#[test]
fn answers_to_nothing_are_ignored() {
    let mut s = Session::new();
    s.sent(1, &parse_line("chat hi"));
    assert!(matches!(answer(&mut s, 2, &refused(false, false)), Reply::Nothing));
    assert!(matches!(answer(&mut s, 1, &Answer::Done), Reply::Nothing));
}

#[test]
fn requests_have_labels() {
    let labels = [
        ("chat x", Label::ChannelMessage),
        ("serverchat x", Label::ServerMessage),
        ("pm 1 x", Label::PrivateMessage),
        ("poke 1", Label::Poke),
        ("moveclient 1 2", Label::MoveClient),
        ("clientconninfo 1", Label::ConnectionInfo),
        ("kickchannel 1", Label::KickFromChannel),
        ("serveredit {}", Label::ServerEdit),
        ("serverconninfo", Label::ServerConnectionInfo),
        ("serverlog", Label::ServerLog),
        ("banlist", Label::BanList),
        ("permoverview", Label::PermissionOverview),
        ("permissionlist", Label::PermissionList),
        ("permlist channel 1", Label::PermissionListRequest),
        ("permadd channel 1 2 3", Label::AddPermission),
        ("permdel channel 1 2", Label::RemovePermission),
        ("ftlist 1", Label::FileList),
        ("ftmkdir 1 a", Label::CreateDirectory),
        ("ftdelete 1 a", Label::DeleteFile),
        ("ftrename 1\ta\tb", Label::RenameFile),
    ];
    for (text, label) in labels {
        assert_eq!(request_label(&parse_line(text)), Some(label));
    }
    assert_eq!(request_label(&parse_line("unaway")), None);
    assert_eq!(request_label(&parse_line("streaminfo 1")), None);
}

#[test]
fn group_lists_come_sorted_with_the_answer() {
    let mut s = Session::new();
    s.sent(1, &parse_line("channelgrouplist"));
    match answer(&mut s, 1, &Answer::Done) {
        Reply::ChannelGroups(g) => assert_eq!((g[0].id, g[1].id), (1, 3)),
        _ => panic!("no groups"),
    }
    s.sent(2, &parse_line("servergrouplist"));
    match answer(&mut s, 2, &Answer::Done) {
        Reply::ServerGroups(g) => assert_eq!((g[0].id, g[1].id), (2, 4)),
        _ => panic!("no groups"),
    }
    s.sent(3, &parse_line("servergrouplist"));
    s.sent(4, &parse_line("poke 1"));
    answer(&mut s, 4, &refused(false, false));
    assert!(matches!(answer(&mut s, 3, &Answer::Done), Reply::Nothing));
}

#[test]
fn group_lists_may_come_by_themselves() {
    let mut s = Session::new();
    assert!(matches!(s.notice(Notice::ChannelGroups(vec![group(1)])), Shown::Nothing));
    s.sent(1, &parse_line("channelgrouplist"));
    assert!(matches!(s.notice(Notice::ChannelGroups(vec![group(1)])), Shown::ChannelGroups(_)));
    assert!(matches!(answer(&mut s, 1, &Answer::Done), Reply::Nothing));
    s.sent(2, &parse_line("servergrouplist"));
    assert!(matches!(s.notice(Notice::ServerGroups(vec![group(1)])), Shown::ServerGroups(_)));
}

#[test]
fn lists_are_shown_once_and_only_when_asked_for() {
    let mut s = Session::new();
    assert!(matches!(s.notice(Notice::Bans(vec![])), Shown::Nothing));
    s.sent(1, &parse_line("banlist"));
    assert!(matches!(s.notice(Notice::Complaints(vec![])), Shown::Nothing));
    assert!(matches!(s.notice(Notice::Bans(vec![])), Shown::Bans(_)));
    assert!(matches!(s.notice(Notice::Bans(vec![])), Shown::Nothing));
    s.sent(2, &parse_line("complainlist"));
    assert!(matches!(s.notice(Notice::Complaints(vec![])), Shown::Complaints(_)));
    s.sent(3, &parse_line("messagelist"));
    assert!(matches!(s.notice(Notice::OfflineMessages(vec![])), Shown::OfflineMessages(_)));
    s.sent(4, &parse_line("serverlog"));
    assert!(matches!(
        s.notice(Notice::ServerLog(vec!["l".to_string()])),
        Shown::ServerLog(l) if l == vec!["l".to_string()]
    ));
    assert!(matches!(s.notice(Notice::Other), Shown::Nothing));
}

#[test]
fn first_offline_message_is_shown() {
    let message = |id| OfflineMessage {
        message_id: id,
        client_uid: String::new(),
        subject: String::new(),
        message: String::new(),
        timestamp: String::new(),
    };
    let mut s = Session::new();
    s.sent(1, &parse_line("messageget 5"));
    assert!(matches!(
        s.notice(Notice::OfflineMessage(vec![message(5), message(6)])),
        Shown::OfflineMessage(m) if m.message_id == 5
    ));
    s.sent(2, &parse_line("messageget 5"));
    assert!(matches!(s.notice(Notice::OfflineMessage(vec![])), Shown::Nothing));
    assert!(matches!(s.notice(Notice::OfflineMessage(vec![message(5)])), Shown::Nothing));
}

#[test]
fn pokes_are_always_shown() {
    let mut s = Session::new();
    let pokes = vec![Poke { from: "A".to_string(), message: None }];
    assert!(matches!(s.notice(Notice::Pokes(pokes)), Shown::Pokes(p) if p.len() == 1));
}

#[test]
fn file_lists_are_gathered() {
    let entry = FileListEntry {
        path: "/".to_string(),
        name: "f".to_string(),
        size: 1,
        is_file: true,
        timestamp: String::new(),
    };
    let mut s = Session::new();
    s.sent(1, &parse_line("ftlist 3 /d"));
    assert!(matches!(s.notice(Notice::Files(vec![entry])), Shown::Nothing));
    assert!(matches!(
        s.notice(Notice::FilesFinished),
        Shown::Files(l) if l.channel == 3 && l.path == "/d" && l.entries.len() == 1
    ));
    assert!(matches!(s.notice(Notice::FilesFinished), Shown::Nothing));
}

#[test]
fn permissions_wait_for_their_names() {
    let mut s = Session::new();
    assert!(s.permissions.needs_names());
    s.names_sent(1);
    assert!(!s.permissions.needs_names());
    s.sent(2, &parse_line("permoverview"));
    s.sent(3, &parse_line("permlist channel 8"));
    s.notice(Notice::Catalog(vec![line("zero")]));
    assert!(matches!(s.notice(Notice::Overview(vec![raw(1), raw(9)])), Shown::Nothing));
    assert!(matches!(
        s.notice(Notice::Permissions(vec![listed(Some(0)), listed(None)])),
        Shown::Nothing
    ));
    s.notice(Notice::Catalog(vec![line("one")]));
    match answer(&mut s, 1, &Answer::Done) {
        Reply::Catalog(done) => {
            let overview = done.overview.unwrap();
            assert_eq!(overview[0].name, "one");
            assert_eq!(overview[0].value, 75);
            assert!(overview[0].skip);
            assert_eq!(overview[1].name, "#9");
            assert_eq!(overview[1].description, "");
            let (target, entries) = done.list.unwrap();
            assert_eq!(target, PermissionTarget::Channel(8));
            assert_eq!(entries.len(), 1);
            assert_eq!(entries[0].name, "zero");
            assert!(entries[0].negated);
            assert!(done.catalog.is_none());
        }
        _ => panic!("no catalog"),
    }
    s.sent(4, &parse_line("permoverview"));
    assert!(matches!(
        s.notice(Notice::Overview(vec![raw(0)])),
        Shown::Overview(e) if e[0].name == "zero"
    ));
    s.sent(5, &parse_line("permlist client 8"));
    assert!(matches!(
        s.notice(Notice::Permissions(vec![listed(Some(1))])),
        Shown::Permissions(PermissionTarget::Client(8), e) if e[0].name == "one"
    ));
    assert!(matches!(s.notice(Notice::Permissions(vec![])), Shown::Nothing));
}

#[test]
fn catalog_is_fetched_once() {
    let mut b = PermissionBook::new();
    assert!(matches!(b.ask_catalog(), CatalogStep::Fetch));
    b.catalog_requested();
    assert!(matches!(b.ask_catalog(), CatalogStep::Wait));
    b.names_received(&vec![line("a"), line("b")]);
    let done = b.names_complete();
    let catalog = done.catalog.unwrap();
    assert_eq!((catalog[1].id, catalog[1].name.as_str()), (1, "b"));
    assert!(matches!(b.ask_catalog(), CatalogStep::Known(c) if c.len() == 2 && c[0].name == "a"));
    b.names_received(&vec![line("late")]);
    assert_eq!(b.names.len(), 2);
}

#[test]
fn catalog_request_joins_a_fetch_under_way() {
    let mut b = PermissionBook::new();
    b.names_asked();
    assert!(matches!(b.ask_catalog(), CatalogStep::Wait));
    b.names_received(&vec![line("a")]);
    assert_eq!(b.names_complete().catalog.unwrap().len(), 1);
    assert!(b.names_complete().catalog.is_none());
}

#[test]
fn connection_info_is_awaited() {
    let mut s = Session::new();
    assert_eq!(s.client_info_ready(true, true), None);
    s.sent(1, &parse_line("clientconninfo 7"));
    assert_eq!(s.client_info_ready(true, false), None);
    assert_eq!(s.client_info_ready(true, true), Some(7));
    assert_eq!(s.client_info_ready(true, true), None);
    s.sent(2, &parse_line("clientconninfo 7"));
    assert_eq!(s.client_info_ready(false, false), None);
    assert_eq!(s.client_info_ready(true, true), None);
    assert!(!s.server_info_ready(true));
    s.sent(3, &parse_line("serverconninfo"));
    assert!(!s.server_info_ready(false));
    assert!(s.server_info_ready(true));
    assert!(!s.server_info_ready(true));
}

#[test]
fn traffic_is_added_up() {
    let t = Traffic { speech: Some(1), keepalive: None, control: Some(3) };
    assert_eq!(traffic_total(&t), Some(4));
    let t = Traffic { speech: Some(u64::MAX), keepalive: Some(1), control: None };
    assert_eq!(traffic_total(&t), None);
}

#[test]
fn private_messages_name_the_partner() {
    let clients = vec![person(5, "Me"), person(6, "You")];
    let message = |target, invoker, name: &str| TextMessage {
        target,
        invoker,
        invoker_name: name.to_string(),
        message: "hi".to_string(),
    };
    let ours = report_message(5, &clients, &message(MessageTarget::Client(6), 5, "Me"));
    assert!(matches!(
        ours,
        Chat::Private { partner: 6, partner_name, from_self: true, message } if partner_name == "You" && message == "hi"
    ));
    let theirs = report_message(5, &clients, &message(MessageTarget::Client(5), 6, "You"));
    assert!(matches!(
        theirs,
        Chat::Private { partner: 6, partner_name, from_self: false, .. } if partner_name == "You"
    ));
    let lost = report_message(5, &clients, &message(MessageTarget::Client(9), 5, "Me"));
    assert!(matches!(lost, Chat::Private { partner: 9, partner_name, .. } if partner_name.is_empty()));
    assert!(matches!(
        report_message(5, &clients, &message(MessageTarget::Server, 6, "You")),
        Chat::Server { from, message } if from == "You" && message == "hi"
    ));
    assert!(matches!(
        report_message(5, &clients, &message(MessageTarget::Channel, 6, "You")),
        Chat::Channel { from, .. } if from == "You"
    ));
    assert!(matches!(
        report_message(5, &clients, &message(MessageTarget::Poke, 6, "You")),
        Chat::Poke { from, .. } if from == "You"
    ));
}

#[test]
fn stream_commands_are_told_by_name() {
    for name in [
        "notifystreamstarted",
        "notifystreamsignaling",
        "notifyjoinstreamrequest",
        "notifyrespondjoinstreamrequest",
    ] {
        assert!(is_stream_event(name));
    }
    assert!(!is_stream_event("notifyclientmoved"));
    assert!(!is_stream_event("stream"));
}

#[test]
fn streams_are_announced_and_answered() {
    let setup = stream_setup_request(&StreamSetupPayload {
        name: "My Stream".to_string(),
        kind: 3,
        bitrate: 4000,
        accessibility: 1,
        mode: 2,
        viewer_limit: 0,
        audio: true,
    });
    assert_eq!(
        bytes(&setup),
        "setupstream name=My\\sStream type=3 bitrate=4000 accessibility=1 mode=2 viewer_limit=0 audio=1"
    );
    assert_eq!(request_label(&setup), Some(Label::StartStream));
    let respond = stream_respond_request(&StreamRespondPayload {
        id: "s1".to_string(),
        clid: 4,
        msg: String::new(),
        offer: "v=0\r\n".to_string(),
        decision: 1,
    });
    assert_eq!(
        bytes(&respond),
        "respondjoinstreamrequest id=s1 clid=4 msg offer=v=0\\r\\n decision=1"
    );
    assert_eq!(request_label(&respond), Some(Label::StreamJoinResponse));
}

#[test]
fn fixed_commands() {
    let text = |c| String::from_utf8(encode_command(&c).0.content().to_vec()).unwrap();
    assert_eq!(text(server_variables_command()), "servergetvariables");
    assert_eq!(text(permission_names_command()), "permissionlist");
    assert_eq!(text(permission_overview_command(3, 4)), "permoverview cid=3 cldbid=4 permid=0");
}

#[test]
fn failures_are_put_in_words() {
    let delivery = |names_failure| Delivery { label: None, names_failure };
    assert_eq!(send_failure("stopstream", delivery(true), "x"), "stopstream failed: x");
    assert_eq!(send_failure("banlist", delivery(false), "x"), "x");
    assert_eq!(Fault::Switch.message("x"), "Channel switch failed: x");
    assert_eq!(Fault::Move.message("x"), "Move client failed: x");
    assert_eq!(Fault::ServerEditPayload.message("x"), "Invalid server edit payload: x");
    assert_eq!(Fault::StreamSetupPayload.message("x"), "Invalid streamsetup payload: x");
    assert_eq!(Fault::StreamRespondPayload.message("x"), "Invalid streamrespond payload: x");
    assert_eq!(Fault::Download.message("x"), "Download failed: x");
    assert_eq!(Fault::Upload.message("x"), "Upload failed: x");
    assert_eq!(Fault::Transfer.message("x"), "File transfer failed: x");
    assert_eq!(Fault::Encode.message("x"), "Opus encode failed: x");
    assert_eq!(
        Fault::Resubscribe.message("x"),
        "channelsubscribeall after perm change failed: x"
    );
    assert!(check_client(true, 4).is_ok());
    assert_eq!(check_client(false, 4).err().unwrap(), "Unknown client id: 4");
    assert!(check_switch(&Ok(true)).is_ok());
    assert_eq!(
        check_switch(&Ok(false)).err().unwrap(),
        "Channel switch failed: own client not in book state"
    );
    assert_eq!(check_switch(&Err("x".to_string())).err().unwrap(), "Channel switch failed: x");
    assert_eq!(end_reason(End::Requested), "client requested");
    assert_eq!(end_reason(End::InputClosed), "stdin closed");
    assert_eq!(end_reason(End::ServerClosed), "server closed connection");
}
