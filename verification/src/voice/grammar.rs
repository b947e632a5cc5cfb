use vstd::prelude::*;

use crate::text::chars;
use crate::text::list;
use crate::text::number;
use crate::text::split;
use crate::voice::encoding;
use crate::voice::packet::Command;
use crate::voice::packet::CommandView;
use crate::voice::request::Delivery;
use crate::voice::request::Grant;
use crate::voice::request::KickPlace;
use crate::voice::request::Label;
use crate::voice::request::PermissionTarget;
use crate::voice::request::Request;
use crate::voice::request::RequestView;
use crate::voice::request::TextTarget;

verus! {

/// The piece at an index, empty where there is none.
pub open spec fn nth(pieces: Seq<Seq<char>>, i: int) -> Seq<char> {
    if 0 <= i < pieces.len() {
        pieces[i]
    } else {
        Seq::empty()
    }
}

fn piece(pieces: &Vec<Vec<char>>, i: usize) -> (r: Vec<char>)
    ensures
        r@ == nth(split::runs(pieces@), i as int),
{
    if i < pieces.len() {
        assert(split::runs(pieces@)[i as int] == pieces@[i as int]@);
        split::owned(pieces[i].as_slice())
    } else {
        Vec::new()
    }
}

/// A text, where it is not empty.
pub open spec fn nonempty(s: Seq<char>) -> Option<Seq<char>> {
    if s.len() > 0 {
        Some(s)
    } else {
        None
    }
}

fn nonempty_text(s: &[char]) -> (r: Option<String>)
    ensures
        list::text_of(r) == nonempty(s@),
{
    if s.len() > 0 {
        Some(chars::string_of(s))
    } else {
        None
    }
}

pub open spec fn u64_of(s: Seq<char>) -> Option<u64> {
    match number::unsigned(s, u64::MAX as int) {
        Some(n) => Some(n as u64),
        None => None,
    }
}

pub open spec fn u32_of(s: Seq<char>) -> Option<u32> {
    match number::unsigned(s, u32::MAX as int) {
        Some(n) => Some(n as u32),
        None => None,
    }
}

pub open spec fn u16_of(s: Seq<char>) -> Option<u16> {
    match number::unsigned(s, u16::MAX as int) {
        Some(n) => Some(n as u16),
        None => None,
    }
}

pub open spec fn i32_of(s: Seq<char>) -> Option<i32> {
    match number::signed(s) {
        Some(n) => Some(n as i32),
        None => None,
    }
}

fn read_u64(s: &[char]) -> (r: Option<u64>)
    ensures
        r == u64_of(s@),
{
    number::parse_unsigned(s, u64::MAX)
}

fn read_u32(s: &[char]) -> (r: Option<u32>)
    ensures
        r == u32_of(s@),
{
    match number::parse_unsigned(s, u32::MAX as u64) {
        Some(n) => Some(n as u32),
        None => None,
    }
}

fn read_u16(s: &[char]) -> (r: Option<u16>)
    ensures
        r == u16_of(s@),
{
    match number::parse_unsigned(s, u16::MAX as u64) {
        Some(n) => Some(n as u16),
        None => None,
    }
}

fn read_i32(s: &[char]) -> (r: Option<i32>)
    ensures
        r == i32_of(s@),
{
    number::parse_signed(s)
}

/// The numbers among several pieces; what is no number does not count.
pub open spec fn u64s_of(pieces: Seq<Seq<char>>) -> Seq<u64>
    decreases pieces.len(),
{
    if pieces.len() == 0 {
        Seq::empty()
    } else {
        let before = u64s_of(pieces.drop_last());
        match u64_of(chars::trimmed(pieces.last())) {
            Some(n) => before.push(n),
            None => before,
        }
    }
}

pub open spec fn u16s_of(pieces: Seq<Seq<char>>) -> Seq<u16>
    decreases pieces.len(),
{
    if pieces.len() == 0 {
        Seq::empty()
    } else {
        let before = u16s_of(pieces.drop_last());
        match u16_of(chars::trimmed(pieces.last())) {
            Some(n) => before.push(n),
            None => before,
        }
    }
}

fn read_u64s(s: &[char]) -> (r: Vec<u64>)
    ensures
        r@ == u64s_of(split::pieces(s@, ',')),
{
    let pieces = split::split(s, ',');
    let ghost all = split::runs(pieces@);
    let mut r: Vec<u64> = Vec::new();
    let mut i: usize = 0;
    while i < pieces.len()
        invariant
            i <= pieces.len(),
            all == split::runs(pieces@),
            r@ == u64s_of(all.take(i as int)),
        decreases pieces.len() - i,
    {
        assert(all.take(i + 1).drop_last() =~= all.take(i as int));
        assert(all.take(i + 1).last() == pieces@[i as int]@);
        match read_u64(chars::trim(pieces[i].as_slice())) {
            Some(n) => r.push(n),
            None => {},
        }
        i += 1;
    }
    assert(all.take(all.len() as int) =~= all);
    r
}

fn read_u16s(s: &[char]) -> (r: Vec<u16>)
    ensures
        r@ == u16s_of(split::pieces(s@, ',')),
{
    let pieces = split::split(s, ',');
    let ghost all = split::runs(pieces@);
    let mut r: Vec<u16> = Vec::new();
    let mut i: usize = 0;
    while i < pieces.len()
        invariant
            i <= pieces.len(),
            all == split::runs(pieces@),
            r@ == u16s_of(all.take(i as int)),
        decreases pieces.len() - i,
    {
        assert(all.take(i + 1).drop_last() =~= all.take(i as int));
        assert(all.take(i + 1).last() == pieces@[i as int]@);
        match read_u16(chars::trim(pieces[i].as_slice())) {
            Some(n) => r.push(n),
            None => {},
        }
        i += 1;
    }
    assert(all.take(all.len() as int) =~= all);
    r
}

/// A refusal that quotes the input.
pub open spec fn refusal(reason: Seq<char>, quoted: Seq<char>) -> RequestView {
    RequestView::Refused(reason + quoted)
}

fn refuse(reason: &str, quoted: &[char]) -> (r: Request)
    ensures
        r@ == refusal(reason@, quoted@),
{
    Request::Refused(crate::text::join::plus(reason, chars::string_of(quoted).as_str()))
}

fn refuse_plainly(reason: &str) -> (r: Request)
    ensures
        r@ == RequestView::Refused(reason@),
{
    Request::Refused(reason.to_owned())
}

/// A command whose answer is awaited under a label.
pub open spec fn asked(command: CommandView, label: Label) -> RequestView {
    RequestView::Send { command, delivery: Delivery { label: Some(label), names_failure: false } }
}

fn ask(command: Command, label: Label) -> (r: Request)
    ensures
        r@ == asked(command@, label),
{
    Request::Send { command, delivery: Delivery { label: Some(label), names_failure: false } }
}

/// A command that nothing is awaited for.
pub open spec fn told(command: CommandView) -> RequestView {
    RequestView::Send { command, delivery: Delivery { label: None, names_failure: true } }
}

fn tell(command: Command) -> (r: Request)
    ensures
        r@ == told(command@),
{
    Request::Send { command, delivery: Delivery { label: None, names_failure: true } }
}

/// The password in a piece, if there is one: base64, so that it may hold
/// spaces.
pub open spec fn password_in(pieces: Seq<Seq<char>>, i: int) -> Option<Seq<char>> {
    if i < pieces.len() {
        encoding::base64_string(pieces[i])
    } else {
        None
    }
}

fn read_password(pieces: &Vec<Vec<char>>, i: usize) -> (r: Option<String>)
    ensures
        list::text_of(r) == password_in(split::runs(pieces@), i as int),
{
    if i < pieces.len() {
        assert(split::runs(pieces@)[i as int] == pieces@[i as int]@);
        encoding::decode_base64_string(chars::string_of(pieces[i].as_slice()).as_str())
    } else {
        None
    }
}

/// `switch <channel> [password]`
pub open spec fn switch_request(rest: Seq<char>) -> RequestView {
    let p = split::first_pieces(chars::trimmed(rest), 2, ' ');
    match u64_of(nth(p, 0)) {
        Some(channel) => RequestView::Switch { channel, password: password_in(p, 1) },
        None => refusal("Invalid channel id: "@, nth(p, 0)),
    }
}

fn parse_switch(rest: &[char]) -> (r: Request)
    ensures
        r@ == switch_request(rest@),
{
    let p = split::splitn(chars::trim(rest), 2, ' ');
    let id = piece(&p, 0);
    match read_u64(id.as_slice()) {
        Some(channel) => Request::Switch { channel, password: read_password(&p, 1) },
        None => refuse("Invalid channel id: ", id.as_slice()),
    }
}

/// `pm <client> <message>`
pub open spec fn pm_request(rest: Seq<char>) -> RequestView {
    match split::cut(chars::trimmed(rest), ' ') {
        Some((id, message)) => match u16_of(id) {
            Some(client) => RequestView::Text { recipient: TextTarget::Client(client), message },
            None => refusal("Invalid client id: "@, id),
        },
        None => RequestView::Refused("Malformed pm command"@),
    }
}

fn parse_pm(rest: &[char]) -> (r: Request)
    ensures
        r@ == pm_request(rest@),
{
    match split::split_once(chars::trim(rest), ' ') {
        Some((id, message)) => match read_u16(id) {
            Some(client) => Request::Text {
                recipient: TextTarget::Client(client),
                message: chars::string_of(message),
            },
            None => refuse("Invalid client id: ", id),
        },
        None => refuse_plainly("Malformed pm command"),
    }
}

/// `poke <client> [message]`
pub open spec fn poke_request(rest: Seq<char>) -> RequestView {
    let (id, message) = match split::cut(chars::trimmed(rest), ' ') {
        Some((id, message)) => (id, message),
        None => (chars::trimmed(rest), Seq::empty()),
    };
    match u16_of(id) {
        Some(client) => RequestView::Poke { client, message },
        None => refusal("Invalid client id: "@, id),
    }
}

fn poke_with(id: &[char], message: String) -> (r: Request)
    ensures
        r@ == match u16_of(id@) {
            Some(client) => RequestView::Poke { client, message: message@ },
            None => refusal("Invalid client id: "@, id@),
        },
{
    match read_u16(id) {
        Some(client) => Request::Poke { client, message },
        None => refuse("Invalid client id: ", id),
    }
}

fn parse_poke(rest: &[char]) -> (r: Request)
    ensures
        r@ == poke_request(rest@),
{
    let t = chars::trim(rest);
    match split::split_once(t, ' ') {
        Some((id, message)) => poke_with(id, chars::string_of(message)),
        None => poke_with(t, String::new()),
    }
}

/// `moveclient <client> <channel> [password]`
pub open spec fn move_request(rest: Seq<char>) -> RequestView {
    let p = split::first_pieces(chars::trimmed(rest), 3, ' ');
    match (u16_of(nth(p, 0)), u64_of(nth(p, 1))) {
        (Some(client), Some(channel)) => RequestView::MoveClient {
            client,
            channel,
            password: password_in(p, 2),
        },
        _ => refusal("Malformed moveclient command: "@, rest),
    }
}

fn parse_move(rest: &[char]) -> (r: Request)
    ensures
        r@ == move_request(rest@),
{
    let p = split::splitn(chars::trim(rest), 3, ' ');
    let client = piece(&p, 0);
    let channel = piece(&p, 1);
    match (read_u16(client.as_slice()), read_u64(channel.as_slice())) {
        (Some(client), Some(channel)) => Request::MoveClient {
            client,
            channel,
            password: read_password(&p, 2),
        },
        _ => refuse("Malformed moveclient command: ", rest),
    }
}

/// `whisper <channel,...>;<client,...>`, where either side may be empty
pub open spec fn whisper_request(rest: Seq<char>) -> RequestView {
    let p = split::first_pieces(rest, 2, ';');
    RequestView::Whisper {
        channels: u64s_of(split::pieces(nth(p, 0), ',')),
        clients: u16s_of(split::pieces(nth(p, 1), ',')),
    }
}

fn parse_whisper(rest: &[char]) -> (r: Request)
    ensures
        r@ == whisper_request(rest@),
{
    let p = split::splitn(rest, 2, ';');
    let channels = piece(&p, 0);
    let clients = piece(&p, 1);
    Request::Whisper {
        channels: read_u64s(channels.as_slice()),
        clients: read_u16s(clients.as_slice()),
    }
}

pub open spec fn is_on(s: Seq<char>) -> bool {
    chars::trimmed(s) == "1"@
}

fn read_switch_state(s: &[char]) -> (r: bool)
    ensures
        r == is_on(s@),
{
    chars::spells(chars::trim(s), "1")
}

/// Requests to talk, and about oneself.
pub open spec fn talk_request(word: Seq<char>, rest: Seq<char>) -> Option<RequestView> {
    if word == "disconnect"@ {
        Some(RequestView::Disconnect(nonempty(chars::trimmed(rest))))
    } else if word == "switch"@ {
        Some(switch_request(rest))
    } else if word == "chat"@ {
        Some(RequestView::Text { recipient: TextTarget::Channel, message: rest })
    } else if word == "serverchat"@ {
        Some(RequestView::Text { recipient: TextTarget::Server, message: rest })
    } else if word == "pm"@ {
        Some(pm_request(rest))
    } else if word == "poke"@ {
        Some(poke_request(rest))
    } else if word == "moveclient"@ {
        Some(move_request(rest))
    } else if word == "away"@ {
        Some(RequestView::Away(Some(chars::trimmed(rest))))
    } else if word == "muteinput"@ {
        Some(RequestView::MuteInput(is_on(rest)))
    } else if word == "muteoutput"@ {
        Some(RequestView::MuteOutput(is_on(rest)))
    } else if word == "nickname"@ {
        Some(RequestView::Nickname(chars::trimmed(rest)))
    } else if word == "whisper"@ {
        Some(whisper_request(rest))
    } else {
        None
    }
}

/// Whether an optional request is the given one.
pub open spec fn means(r: Option<Request>, request: Option<RequestView>) -> bool {
    match r {
        Some(r) => request == Some(r@),
        None => request is None,
    }
}

fn parse_talk(word: &[char], rest: &[char]) -> (r: Option<Request>)
    ensures
        means(r, talk_request(word@, rest@)),
{
    if chars::spells(word, "disconnect") {
        Some(Request::Disconnect(nonempty_text(chars::trim(rest))))
    } else if chars::spells(word, "switch") {
        Some(parse_switch(rest))
    } else if chars::spells(word, "chat") {
        Some(Request::Text { recipient: TextTarget::Channel, message: chars::string_of(rest) })
    } else if chars::spells(word, "serverchat") {
        Some(Request::Text { recipient: TextTarget::Server, message: chars::string_of(rest) })
    } else if chars::spells(word, "pm") {
        Some(parse_pm(rest))
    } else if chars::spells(word, "poke") {
        Some(parse_poke(rest))
    } else if chars::spells(word, "moveclient") {
        Some(parse_move(rest))
    } else if chars::spells(word, "away") {
        Some(Request::Away(Some(chars::string_of(chars::trim(rest)))))
    } else if chars::spells(word, "muteinput") {
        Some(Request::MuteInput(read_switch_state(rest)))
    } else if chars::spells(word, "muteoutput") {
        Some(Request::MuteOutput(read_switch_state(rest)))
    } else if chars::spells(word, "nickname") {
        Some(Request::Nickname(chars::string_of(chars::trim(rest))))
    } else if chars::spells(word, "whisper") {
        Some(parse_whisper(rest))
    } else {
        None
    }
}

/// `clientconninfo <client>`
pub open spec fn client_info_request(rest: Seq<char>) -> RequestView {
    match u16_of(chars::trimmed(rest)) {
        Some(client) => RequestView::ClientInfo(client),
        None => refusal("Invalid client id: "@, rest),
    }
}

/// `kickchannel <client> [reason]` and `kickserver <client> [reason]`
pub open spec fn kick_request(rest: Seq<char>, place: KickPlace) -> RequestView {
    let p = split::first_pieces(rest, 2, ' ');
    match u16_of(chars::trimmed(nth(p, 0))) {
        Some(client) => RequestView::Kick {
            client,
            place,
            reason: nonempty(chars::trimmed(nth(p, 1))),
        },
        None => refusal("Invalid client id: "@, nth(p, 0)),
    }
}

fn parse_kick(rest: &[char], place: KickPlace) -> (r: Request)
    ensures
        r@ == kick_request(rest@, place),
{
    let p = split::splitn(rest, 2, ' ');
    let id = piece(&p, 0);
    let reason = piece(&p, 1);
    match read_u16(chars::trim(id.as_slice())) {
        Some(client) => Request::Kick {
            client,
            place,
            reason: nonempty_text(chars::trim(reason.as_slice())),
        },
        None => refuse("Invalid client id: ", id.as_slice()),
    }
}

/// The command that bans a client: for good where the time is zero.
pub open spec fn ban_command(client: u16, seconds: u64, reason: Seq<char>) -> CommandView {
    let c = CommandView::named("banclient"@).and_number("clid"@, client as nat);
    let c = if seconds > 0 {
        c.and_number("time"@, seconds as nat)
    } else {
        c
    };
    if reason.len() > 0 {
        c.and("banreason"@, reason)
    } else {
        c
    }
}

/// `banclient <client> [seconds] [reason]`
pub open spec fn ban_request(rest: Seq<char>) -> RequestView {
    let p = split::first_pieces(rest, 3, ' ');
    let seconds = match u64_of(chars::trimmed(nth(p, 1))) {
        Some(n) => n,
        None => 0,
    };
    match u16_of(chars::trimmed(nth(p, 0))) {
        Some(client) => asked(
            ban_command(client, seconds, chars::trimmed(nth(p, 2))),
            Label::BanClient,
        ),
        None => refusal("Invalid client id: "@, nth(p, 0)),
    }
}

fn parse_ban(rest: &[char]) -> (r: Request)
    ensures
        r@ == ban_request(rest@),
{
    let p = split::splitn(rest, 3, ' ');
    let id = piece(&p, 0);
    let seconds_text = piece(&p, 1);
    let reason_text = piece(&p, 2);
    let seconds: u64 = match read_u64(chars::trim(seconds_text.as_slice())) {
        Some(n) => n,
        None => 0,
    };
    let reason = chars::trim(reason_text.as_slice());
    match read_u16(chars::trim(id.as_slice())) {
        Some(client) => {
            let mut command = Command::new("banclient").with_number("clid", client as u64);
            if seconds > 0 {
                command = command.with_number("time", seconds);
            }
            if reason.len() > 0 {
                command = command.with("banreason", chars::string_of(reason).as_str());
            }
            ask(command, Label::BanClient)
        },
        None => refuse("Invalid client id: ", id.as_slice()),
    }
}

/// Requests about clients and the server.
pub open spec fn client_request(word: Seq<char>, rest: Seq<char>) -> Option<RequestView> {
    if word == "clientconninfo"@ {
        Some(client_info_request(rest))
    } else if word == "kickchannel"@ {
        Some(kick_request(rest, KickPlace::Channel))
    } else if word == "kickserver"@ {
        Some(kick_request(rest, KickPlace::Server))
    } else if word == "banclient"@ {
        Some(ban_request(rest))
    } else if word == "serveredit"@ {
        Some(RequestView::ServerEdit(rest))
    } else {
        None
    }
}

fn parse_client(word: &[char], rest: &[char]) -> (r: Option<Request>)
    ensures
        means(r, client_request(word@, rest@)),
{
    if chars::spells(word, "clientconninfo") {
        match read_u16(chars::trim(rest)) {
            Some(client) => Some(Request::ClientInfo(client)),
            None => Some(refuse("Invalid client id: ", rest)),
        }
    } else if chars::spells(word, "kickchannel") {
        Some(parse_kick(rest, KickPlace::Channel))
    } else if chars::spells(word, "kickserver") {
        Some(parse_kick(rest, KickPlace::Server))
    } else if chars::spells(word, "banclient") {
        Some(parse_ban(rest))
    } else if chars::spells(word, "serveredit") {
        Some(Request::ServerEdit(chars::string_of(rest)))
    } else {
        None
    }
}

/// `streaminfo <client>`
pub open spec fn stream_info_request(rest: Seq<char>) -> RequestView {
    match u16_of(chars::trimmed(rest)) {
        Some(client) => told(
            CommandView::named("requeststreaminfo"@).and_number("clid"@, client as nat),
        ),
        None => refusal("Invalid client id: "@, rest),
    }
}

fn parse_stream_info(rest: &[char]) -> (r: Request)
    ensures
        r@ == stream_info_request(rest@),
{
    match read_u16(chars::trim(rest)) {
        Some(client) => tell(
            Command::new("requeststreaminfo").with_number("clid", client as u64),
        ),
        None => refuse("Invalid client id: ", rest),
    }
}

/// `streamstop <stream> [reason]`
pub open spec fn stream_stop_request(rest: Seq<char>) -> RequestView {
    let p = split::first_pieces(rest, 2, ' ');
    if nth(p, 0).len() > 0 {
        told(CommandView::named("stopstream"@).and("id"@, nth(p, 0)).and("reason"@, nth(p, 1)))
    } else {
        RequestView::Refused("Usage: streamstop <stream-id> [reason]"@)
    }
}

fn parse_stream_stop(rest: &[char]) -> (r: Request)
    ensures
        r@ == stream_stop_request(rest@),
{
    let p = split::splitn(rest, 2, ' ');
    let id = piece(&p, 0);
    let reason = piece(&p, 1);
    if id.len() > 0 {
        tell(
            Command::new("stopstream").with("id", chars::string_of(id.as_slice()).as_str()).with(
                "reason",
                chars::string_of(reason.as_slice()).as_str(),
            ),
        )
    } else {
        refuse_plainly("Usage: streamstop <stream-id> [reason]")
    }
}

/// The command that asks to be let into a stream, or leaves it.
pub open spec fn join_command(
    stream: Seq<char>,
    client: u16,
    message: Seq<char>,
    is_remove: bool,
) -> CommandView {
    CommandView::named("joinstreamrequest"@).and("id"@, stream).and_number(
        "clid"@,
        client as nat,
    ).and("msg"@, message).and_number(
        "is_remove"@,
        if is_remove {
            1
        } else {
            0
        },
    )
}

/// `streamjoin <stream> <client> [message]` and `streamleave` with the same
pub open spec fn join_stream_request(rest: Seq<char>, is_remove: bool) -> RequestView {
    let p = split::first_pieces(rest, 3, ' ');
    match u16_of(nth(p, 1)) {
        Some(client) if nth(p, 0).len() > 0 => told(
            join_command(nth(p, 0), client, nth(p, 2), is_remove),
        ),
        _ => RequestView::Refused("Usage: streamjoin <stream-id> <clid> [msg]"@),
    }
}

/// Reads a request to join a stream, or to leave it.
pub fn send_join_stream_request(rest: &[char], is_remove: bool) -> (r: Request)
    ensures
        r@ == join_stream_request(rest@, is_remove),
{
    let p = split::splitn(rest, 3, ' ');
    let id = piece(&p, 0);
    let clid = piece(&p, 1);
    let message = piece(&p, 2);
    match read_u16(clid.as_slice()) {
        Some(client) => {
            if id.len() == 0 {
                return refuse_plainly("Usage: streamjoin <stream-id> <clid> [msg]");
            }
            let removal: u64 = if is_remove {
                1
            } else {
                0
            };
            tell(
                Command::new("joinstreamrequest").with(
                    "id",
                    chars::string_of(id.as_slice()).as_str(),
                ).with_number("clid", client as u64).with(
                    "msg",
                    chars::string_of(message.as_slice()).as_str(),
                ).with_number("is_remove", removal),
            )
        },
        None => refuse_plainly("Usage: streamjoin <stream-id> <clid> [msg]"),
    }
}

/// `streamsignal <stream> <client> <json>`
pub open spec fn stream_signal_request(rest: Seq<char>) -> RequestView {
    let p = split::first_pieces(rest, 3, ' ');
    match u16_of(nth(p, 1)) {
        Some(client) if nth(p, 0).len() > 0 && nth(p, 2).len() > 0 => RequestView::Send {
            command: CommandView::named("streamsignaling"@).and("id"@, nth(p, 0)).and_number(
                "clid"@,
                client as nat,
            ).and("json"@, nth(p, 2)),
            delivery: Delivery { label: Some(Label::StreamSignaling), names_failure: true },
        },
        _ => RequestView::Refused("Usage: streamsignal <stream-id> <clid> <json>"@),
    }
}

fn parse_stream_signal(rest: &[char]) -> (r: Request)
    ensures
        r@ == stream_signal_request(rest@),
{
    let p = split::splitn(rest, 3, ' ');
    let id = piece(&p, 0);
    let clid = piece(&p, 1);
    let json = piece(&p, 2);
    match read_u16(clid.as_slice()) {
        Some(client) => {
            if id.len() == 0 || json.len() == 0 {
                return refuse_plainly("Usage: streamsignal <stream-id> <clid> <json>");
            }
            let command = Command::new("streamsignaling").with(
                "id",
                chars::string_of(id.as_slice()).as_str(),
            ).with_number("clid", client as u64).with(
                "json",
                chars::string_of(json.as_slice()).as_str(),
            );
            Request::Send {
                command,
                delivery: Delivery { label: Some(Label::StreamSignaling), names_failure: true },
            }
        },
        None => refuse_plainly("Usage: streamsignal <stream-id> <clid> <json>"),
    }
}

/// Requests about streams.
pub open spec fn stream_request(word: Seq<char>, rest: Seq<char>) -> Option<RequestView> {
    if word == "streaminfo"@ {
        Some(stream_info_request(rest))
    } else if word == "streamsetup"@ {
        Some(RequestView::StreamSetup(rest))
    } else if word == "streamrespond"@ {
        Some(RequestView::StreamRespond(rest))
    } else if word == "streamstop"@ {
        Some(stream_stop_request(rest))
    } else if word == "streamjoin"@ {
        Some(join_stream_request(rest, false))
    } else if word == "streamleave"@ {
        Some(join_stream_request(rest, true))
    } else if word == "streamsignal"@ {
        Some(stream_signal_request(rest))
    } else {
        None
    }
}

fn parse_stream(word: &[char], rest: &[char]) -> (r: Option<Request>)
    ensures
        means(r, stream_request(word@, rest@)),
{
    if chars::spells(word, "streaminfo") {
        Some(parse_stream_info(rest))
    } else if chars::spells(word, "streamsetup") {
        Some(Request::StreamSetup(chars::string_of(rest)))
    } else if chars::spells(word, "streamrespond") {
        Some(Request::StreamRespond(chars::string_of(rest)))
    } else if chars::spells(word, "streamstop") {
        Some(parse_stream_stop(rest))
    } else if chars::spells(word, "streamjoin") {
        Some(send_join_stream_request(rest, false))
    } else if chars::spells(word, "streamleave") {
        Some(send_join_stream_request(rest, true))
    } else if chars::spells(word, "streamsignal") {
        Some(parse_stream_signal(rest))
    } else {
        None
    }
}

/// A command about one thing with a 32-bit id.
pub open spec fn id_request(
    rest: Seq<char>,
    name: Seq<char>,
    argument: Seq<char>,
    label: Label,
    reason: Seq<char>,
) -> RequestView {
    match u32_of(chars::trimmed(rest)) {
        Some(id) => asked(CommandView::named(name).and_number(argument, id as nat), label),
        None => refusal(reason, rest),
    }
}

fn parse_id(rest: &[char], name: &str, argument: &str, label: Label, reason: &str) -> (r: Request)
    ensures
        r@ == id_request(rest@, name@, argument@, label, reason@),
{
    match read_u32(chars::trim(rest)) {
        Some(id) => ask(Command::new(name).with_number(argument, id as u64), label),
        None => refuse(reason, rest),
    }
}

/// `complaindel <target> <source>`
pub open spec fn complain_delete_request(rest: Seq<char>) -> RequestView {
    let p = split::first_pieces(chars::trimmed(rest), 2, ' ');
    match (u64_of(nth(p, 0)), u64_of(nth(p, 1))) {
        (Some(target), Some(source)) => asked(
            CommandView::named("complaindel"@).and_number("tcldbid"@, target as nat).and_number(
                "fcldbid"@,
                source as nat,
            ),
            Label::DeleteComplaint,
        ),
        _ => refusal("Invalid complaindel args: "@, rest),
    }
}

fn parse_complain_delete(rest: &[char]) -> (r: Request)
    ensures
        r@ == complain_delete_request(rest@),
{
    let p = split::splitn(chars::trim(rest), 2, ' ');
    let target = piece(&p, 0);
    let source = piece(&p, 1);
    match (read_u64(target.as_slice()), read_u64(source.as_slice())) {
        (Some(target), Some(source)) => ask(
            Command::new("complaindel").with_number("tcldbid", target).with_number(
                "fcldbid",
                source,
            ),
            Label::DeleteComplaint,
        ),
        _ => refuse("Invalid complaindel args: ", rest),
    }
}

/// `complaindelall <target>`
pub open spec fn complain_delete_all_request(rest: Seq<char>) -> RequestView {
    match u64_of(chars::trimmed(rest)) {
        Some(target) => asked(
            CommandView::named("complaindelall"@).and_number("tcldbid"@, target as nat),
            Label::DeleteAllComplaints,
        ),
        None => refusal("Invalid client db id: "@, rest),
    }
}

fn parse_complain_delete_all(rest: &[char]) -> (r: Request)
    ensures
        r@ == complain_delete_all_request(rest@),
{
    match read_u64(chars::trim(rest)) {
        Some(target) => ask(
            Command::new("complaindelall").with_number("tcldbid", target),
            Label::DeleteAllComplaints,
        ),
        None => refuse("Invalid client db id: ", rest),
    }
}

/// `messageadd <uid>\t<subject>\t<message>`
pub open spec fn message_add_request(rest: Seq<char>) -> RequestView {
    let p = split::first_pieces(rest, 3, '\t');
    asked(
        CommandView::named("messageadd"@).and("cluid"@, nth(p, 0)).and("subject"@, nth(p, 1)).and(
            "message"@,
            nth(p, 2),
        ),
        Label::SendOfflineMessage,
    )
}

fn parse_message_add(rest: &[char]) -> (r: Request)
    ensures
        r@ == message_add_request(rest@),
{
    let p = split::splitn(rest, 3, '\t');
    let client = chars::string_of(piece(&p, 0).as_slice());
    let subject = chars::string_of(piece(&p, 1).as_slice());
    let message = chars::string_of(piece(&p, 2).as_slice());
    ask(
        Command::new("messageadd").with("cluid", client.as_str()).with(
            "subject",
            subject.as_str(),
        ).with("message", message.as_str()),
        Label::SendOfflineMessage,
    )
}

/// `messageupdateflag <message> <0 or 1>`
pub open spec fn message_flag_request(rest: Seq<char>) -> RequestView {
    let p = split::first_pieces(chars::trimmed(rest), 2, ' ');
    match u32_of(nth(p, 0)) {
        Some(message) => asked(
            CommandView::named("messageupdateflag"@).and_number("msgid"@, message as nat).and(
                "flag"@,
                if is_on(nth(p, 1)) {
                    "true"@
                } else {
                    "false"@
                },
            ),
            Label::MarkOfflineMessage,
        ),
        None => refusal("Invalid message id: "@, rest),
    }
}

fn parse_message_flag(rest: &[char]) -> (r: Request)
    ensures
        r@ == message_flag_request(rest@),
{
    let p = split::splitn(chars::trim(rest), 2, ' ');
    let id = piece(&p, 0);
    let flag = piece(&p, 1);
    match read_u32(id.as_slice()) {
        Some(message) => {
            let value = if read_switch_state(flag.as_slice()) {
                "true"
            } else {
                "false"
            };
            ask(
                Command::new("messageupdateflag").with_number("msgid", message as u64).with(
                    "flag",
                    value,
                ),
                Label::MarkOfflineMessage,
            )
        },
        None => refuse("Invalid message id: ", rest),
    }
}

/// Requests about bans, complaints and offline messages.
pub open spec fn record_request(word: Seq<char>, rest: Seq<char>) -> Option<RequestView> {
    if word == "bandel"@ {
        Some(id_request(rest, "bandel"@, "banid"@, Label::DeleteBan, "Invalid ban id: "@))
    } else if word == "complaindel"@ {
        Some(complain_delete_request(rest))
    } else if word == "complaindelall"@ {
        Some(complain_delete_all_request(rest))
    } else if word == "messageget"@ {
        Some(
            id_request(
                rest,
                "messageget"@,
                "msgid"@,
                Label::OfflineMessage,
                "Invalid message id: "@,
            ),
        )
    } else if word == "messageadd"@ {
        Some(message_add_request(rest))
    } else if word == "messagedel"@ {
        Some(
            id_request(
                rest,
                "messagedel"@,
                "msgid"@,
                Label::DeleteOfflineMessage,
                "Invalid message id: "@,
            ),
        )
    } else if word == "messageupdateflag"@ {
        Some(message_flag_request(rest))
    } else {
        None
    }
}

fn parse_record(word: &[char], rest: &[char]) -> (r: Option<Request>)
    ensures
        means(r, record_request(word@, rest@)),
{
    if chars::spells(word, "bandel") {
        Some(parse_id(rest, "bandel", "banid", Label::DeleteBan, "Invalid ban id: "))
    } else if chars::spells(word, "complaindel") {
        Some(parse_complain_delete(rest))
    } else if chars::spells(word, "complaindelall") {
        Some(parse_complain_delete_all(rest))
    } else if chars::spells(word, "messageget") {
        Some(
            parse_id(rest, "messageget", "msgid", Label::OfflineMessage, "Invalid message id: "),
        )
    } else if chars::spells(word, "messageadd") {
        Some(parse_message_add(rest))
    } else if chars::spells(word, "messagedel") {
        Some(
            parse_id(
                rest,
                "messagedel",
                "msgid",
                Label::DeleteOfflineMessage,
                "Invalid message id: ",
            ),
        )
    } else if chars::spells(word, "messageupdateflag") {
        Some(parse_message_flag(rest))
    } else {
        None
    }
}

/// `setchannelgroup <group> <channel> <client>`
pub open spec fn channel_group_request(rest: Seq<char>) -> RequestView {
    let p = split::first_pieces(chars::trimmed(rest), 3, ' ');
    match (u64_of(nth(p, 0)), u64_of(nth(p, 1)), u64_of(nth(p, 2))) {
        (Some(group), Some(channel), Some(client)) => asked(
            CommandView::named("setclientchannelgroup"@).and_number(
                "cgid"@,
                group as nat,
            ).and_number("cid"@, channel as nat).and_number("cldbid"@, client as nat),
            Label::AssignChannelGroup,
        ),
        _ => refusal("Invalid setchannelgroup args: "@, rest),
    }
}

fn parse_channel_group(rest: &[char]) -> (r: Request)
    ensures
        r@ == channel_group_request(rest@),
{
    let p = split::splitn(chars::trim(rest), 3, ' ');
    let group = piece(&p, 0);
    let channel = piece(&p, 1);
    let client = piece(&p, 2);
    match (
        read_u64(group.as_slice()),
        read_u64(channel.as_slice()),
        read_u64(client.as_slice()),
    ) {
        (Some(group), Some(channel), Some(client)) => ask(
            Command::new("setclientchannelgroup").with_number("cgid", group).with_number(
                "cid",
                channel,
            ).with_number("cldbid", client),
            Label::AssignChannelGroup,
        ),
        _ => refuse("Invalid setchannelgroup args: ", rest),
    }
}

/// `addservergroup <group> <client>` and `delservergroup` with the same
pub open spec fn server_group_request(
    rest: Seq<char>,
    name: Seq<char>,
    label: Label,
    reason: Seq<char>,
) -> RequestView {
    let p = split::first_pieces(chars::trimmed(rest), 2, ' ');
    match (u64_of(nth(p, 0)), u64_of(nth(p, 1))) {
        (Some(group), Some(client)) => asked(
            CommandView::named(name).and_number("sgid"@, group as nat).and_number(
                "cldbid"@,
                client as nat,
            ),
            label,
        ),
        _ => refusal(reason, rest),
    }
}

fn parse_server_group(rest: &[char], name: &str, label: Label, reason: &str) -> (r: Request)
    ensures
        r@ == server_group_request(rest@, name@, label, reason@),
{
    let p = split::splitn(chars::trim(rest), 2, ' ');
    let group = piece(&p, 0);
    let client = piece(&p, 1);
    match (read_u64(group.as_slice()), read_u64(client.as_slice())) {
        (Some(group), Some(client)) => ask(
            Command::new(name).with_number("sgid", group).with_number("cldbid", client),
            label,
        ),
        _ => refuse(reason, rest),
    }
}

/// `serverquerylogin <name> <password>`, both in base64
pub open spec fn login_request(rest: Seq<char>) -> RequestView {
    let p = split::first_pieces(chars::trimmed(rest), 2, ' ');
    match (encoding::base64_string(nth(p, 0)), encoding::base64_string(nth(p, 1))) {
        (Some(name), Some(password)) => asked(
            CommandView::named("login"@).and("client_login_name"@, name).and(
                "client_login_password"@,
                password,
            ),
            Label::ServerQueryLogin,
        ),
        _ => RequestView::Refused("Invalid serverquerylogin args"@),
    }
}

fn parse_login(rest: &[char]) -> (r: Request)
    ensures
        r@ == login_request(rest@),
{
    let p = split::splitn(chars::trim(rest), 2, ' ');
    let name_text = chars::string_of(piece(&p, 0).as_slice());
    let password_text = chars::string_of(piece(&p, 1).as_slice());
    match (
        encoding::decode_base64_string(name_text.as_str()),
        encoding::decode_base64_string(password_text.as_str()),
    ) {
        (Some(name), Some(password)) => ask(
            Command::new("login").with("client_login_name", name.as_str()).with(
                "client_login_password",
                password.as_str(),
            ),
            Label::ServerQueryLogin,
        ),
        _ => refuse_plainly("Invalid serverquerylogin args"),
    }
}

/// Requests about groups and logins.
pub open spec fn group_request(word: Seq<char>, rest: Seq<char>) -> Option<RequestView> {
    if word == "setchannelgroup"@ {
        Some(channel_group_request(rest))
    } else if word == "addservergroup"@ {
        Some(
            server_group_request(
                rest,
                "servergroupaddclient"@,
                Label::AssignServerGroup,
                "Invalid addservergroup args: "@,
            ),
        )
    } else if word == "delservergroup"@ {
        Some(
            server_group_request(
                rest,
                "servergroupdelclient"@,
                Label::RemoveServerGroup,
                "Invalid delservergroup args: "@,
            ),
        )
    } else if word == "serverquerylogin"@ {
        Some(login_request(rest))
    } else {
        None
    }
}

fn parse_group(word: &[char], rest: &[char]) -> (r: Option<Request>)
    ensures
        means(r, group_request(word@, rest@)),
{
    if chars::spells(word, "setchannelgroup") {
        Some(parse_channel_group(rest))
    } else if chars::spells(word, "addservergroup") {
        Some(
            parse_server_group(
                rest,
                "servergroupaddclient",
                Label::AssignServerGroup,
                "Invalid addservergroup args: ",
            ),
        )
    } else if chars::spells(word, "delservergroup") {
        Some(
            parse_server_group(
                rest,
                "servergroupdelclient",
                Label::RemoveServerGroup,
                "Invalid delservergroup args: ",
            ),
        )
    } else if chars::spells(word, "serverquerylogin") {
        Some(parse_login(rest))
    } else {
        None
    }
}

/// The path to list: the root where none is given.
pub open spec fn listed_path(s: Seq<char>) -> Seq<char> {
    if chars::trimmed(s).len() == 0 {
        "/"@
    } else {
        chars::trimmed(s)
    }
}

/// `ftlist <channel> [path]`
pub open spec fn file_list_request(rest: Seq<char>) -> RequestView {
    let p = split::first_pieces(chars::trimmed(rest), 2, ' ');
    match u64_of(nth(p, 0)) {
        Some(channel) => RequestView::ListFiles { channel, path: listed_path(nth(p, 1)) },
        None => refusal("Invalid channel id: "@, nth(p, 0)),
    }
}

fn parse_file_list(rest: &[char]) -> (r: Request)
    ensures
        r@ == file_list_request(rest@),
{
    let p = split::splitn(chars::trim(rest), 2, ' ');
    let id = piece(&p, 0);
    let path_text = piece(&p, 1);
    let path = chars::trim(path_text.as_slice());
    match read_u64(id.as_slice()) {
        Some(channel) => Request::ListFiles {
            channel,
            path: if path.len() == 0 {
                "/".to_owned()
            } else {
                chars::string_of(path)
            },
        },
        None => refuse("Invalid channel id: ", id.as_slice()),
    }
}

/// A channel and a name, separated by a space.
pub open spec fn channel_and_name(rest: Seq<char>) -> Result<(u64, Seq<char>), Seq<char>> {
    let p = split::first_pieces(chars::trimmed(rest), 2, ' ');
    match u64_of(nth(p, 0)) {
        Some(channel) => Ok((channel, chars::trimmed(nth(p, 1)))),
        None => Err(nth(p, 0)),
    }
}

fn read_channel_and_name(rest: &[char]) -> (r: Result<(u64, String), Request>)
    ensures
        match r {
            Ok((channel, name)) => channel_and_name(rest@) == Ok::<(u64, Seq<char>), Seq<char>>(
                (channel, name@),
            ),
            Err(refused) => channel_and_name(rest@) is Err && refused@ == refusal(
                "Invalid channel id: "@,
                channel_and_name(rest@)->Err_0,
            ),
        },
{
    let p = split::splitn(chars::trim(rest), 2, ' ');
    let id = piece(&p, 0);
    let name = piece(&p, 1);
    match read_u64(id.as_slice()) {
        Some(channel) => Ok((channel, chars::string_of(chars::trim(name.as_slice())))),
        None => Err(refuse("Invalid channel id: ", id.as_slice())),
    }
}

/// `ftrename <channel>\t<old name>\t<new name>`
pub open spec fn rename_request(rest: Seq<char>) -> RequestView {
    let p = split::first_pieces(rest, 3, '\t');
    match u64_of(chars::trimmed(nth(p, 0))) {
        Some(channel) => RequestView::RenameFile {
            channel,
            old_name: nth(p, 1),
            new_name: nth(p, 2),
        },
        None => refusal("Invalid ftrename args: "@, rest),
    }
}

fn parse_rename(rest: &[char]) -> (r: Request)
    ensures
        r@ == rename_request(rest@),
{
    let p = split::splitn(rest, 3, '\t');
    let id = piece(&p, 0);
    let old_name = piece(&p, 1);
    let new_name = piece(&p, 2);
    match read_u64(chars::trim(id.as_slice())) {
        Some(channel) => Request::RenameFile {
            channel,
            old_name: chars::string_of(old_name.as_slice()),
            new_name: chars::string_of(new_name.as_slice()),
        },
        None => refuse("Invalid ftrename args: ", rest),
    }
}

/// `ftupload <channel>\t<path>\t<content in base64>`
pub open spec fn upload_request(rest: Seq<char>) -> RequestView {
    let p = split::first_pieces(rest, 3, '\t');
    match (
        u64_of(chars::trimmed(nth(p, 0))),
        encoding::base64_value(chars::trimmed(nth(p, 2))),
    ) {
        (Some(channel), Some(data)) => RequestView::Upload { channel, path: nth(p, 1), data },
        _ => RequestView::Refused("Invalid ftupload args"@),
    }
}

fn parse_upload(rest: &[char]) -> (r: Request)
    ensures
        r@ == upload_request(rest@),
{
    let p = split::splitn(rest, 3, '\t');
    let id = piece(&p, 0);
    let path = piece(&p, 1);
    let data = piece(&p, 2);
    let data_text = chars::string_of(chars::trim(data.as_slice()));
    match (read_u64(chars::trim(id.as_slice())), encoding::decode_base64(data_text.as_str())) {
        (Some(channel), Ok(data)) => Request::Upload {
            channel,
            path: chars::string_of(path.as_slice()),
            data,
        },
        _ => refuse_plainly("Invalid ftupload args"),
    }
}

/// Requests about files.
pub open spec fn file_request(word: Seq<char>, rest: Seq<char>) -> Option<RequestView> {
    if word == "ftlist"@ {
        Some(file_list_request(rest))
    } else if word == "ftmkdir"@ {
        Some(
            match channel_and_name(rest) {
                Ok((channel, name)) => RequestView::MakeDirectory { channel, name },
                Err(id) => refusal("Invalid channel id: "@, id),
            },
        )
    } else if word == "ftdelete"@ {
        Some(
            match channel_and_name(rest) {
                Ok((channel, name)) => RequestView::DeleteFile { channel, name },
                Err(id) => refusal("Invalid channel id: "@, id),
            },
        )
    } else if word == "ftrename"@ {
        Some(rename_request(rest))
    } else if word == "ftdownload"@ {
        Some(
            match channel_and_name(rest) {
                Ok((channel, path)) => RequestView::Download { channel, path },
                Err(id) => refusal("Invalid channel id: "@, id),
            },
        )
    } else if word == "ftupload"@ {
        Some(upload_request(rest))
    } else {
        None
    }
}

fn parse_file(word: &[char], rest: &[char]) -> (r: Option<Request>)
    ensures
        means(r, file_request(word@, rest@)),
{
    if chars::spells(word, "ftlist") {
        Some(parse_file_list(rest))
    } else if chars::spells(word, "ftmkdir") {
        match read_channel_and_name(rest) {
            Ok((channel, name)) => Some(Request::MakeDirectory { channel, name }),
            Err(refused) => Some(refused),
        }
    } else if chars::spells(word, "ftdelete") {
        match read_channel_and_name(rest) {
            Ok((channel, name)) => Some(Request::DeleteFile { channel, name }),
            Err(refused) => Some(refused),
        }
    } else if chars::spells(word, "ftrename") {
        Some(parse_rename(rest))
    } else if chars::spells(word, "ftdownload") {
        match read_channel_and_name(rest) {
            Ok((channel, path)) => Some(Request::Download { channel, path }),
            Err(refused) => Some(refused),
        }
    } else if chars::spells(word, "ftupload") {
        Some(parse_upload(rest))
    } else {
        None
    }
}

/// The target that the first words name: its kind, then its ids.
pub open spec fn target_of(words: Seq<Seq<char>>) -> Option<PermissionTarget> {
    let scope = nth(words, 0);
    if scope == "channelclient"@ {
        match (u64_of(nth(words, 1)), u64_of(nth(words, 2))) {
            (Some(channel), Some(client)) => Some(
                PermissionTarget::ChannelClient(channel, client),
            ),
            _ => None,
        }
    } else {
        match u64_of(nth(words, 1)) {
            Some(id) => if scope == "server"@ {
                Some(PermissionTarget::ServerGroup(id))
            } else if scope == "channelgroup"@ {
                Some(PermissionTarget::ChannelGroup(id))
            } else if scope == "channel"@ {
                Some(PermissionTarget::Channel(id))
            } else if scope == "client"@ {
                Some(PermissionTarget::Client(id))
            } else {
                None
            },
            None => None,
        }
    }
}

fn read_target(words: &Vec<Vec<char>>) -> (r: Option<PermissionTarget>)
    ensures
        r == target_of(split::runs(words@)),
{
    let scope = piece(words, 0);
    let first = piece(words, 1);
    let scope = scope.as_slice();
    if chars::spells(scope, "channelclient") {
        let second = piece(words, 2);
        return match (read_u64(first.as_slice()), read_u64(second.as_slice())) {
            (Some(channel), Some(client)) => Some(
                PermissionTarget::ChannelClient(channel, client),
            ),
            _ => None,
        };
    }
    match read_u64(first.as_slice()) {
        Some(id) => if chars::spells(scope, "server") {
            Some(PermissionTarget::ServerGroup(id))
        } else if chars::spells(scope, "channelgroup") {
            Some(PermissionTarget::ChannelGroup(id))
        } else if chars::spells(scope, "channel") {
            Some(PermissionTarget::Channel(id))
        } else if chars::spells(scope, "client") {
            Some(PermissionTarget::Client(id))
        } else {
            None
        },
        None => None,
    }
}

/// How many ids a target has.
pub open spec fn ids_of(target: PermissionTarget) -> int {
    if target is ChannelClient {
        2
    } else {
        1
    }
}

fn count_ids(target: PermissionTarget) -> (r: usize)
    ensures
        r == ids_of(target),
{
    match target {
        PermissionTarget::ChannelClient(_, _) => 2,
        _ => 1,
    }
}

/// `permlist <kind> <ids>`
pub open spec fn permission_list_request(rest: Seq<char>) -> RequestView {
    let words = split::words_of(rest);
    match target_of(words) {
        Some(target) if words.len() == 1 + ids_of(target) => RequestView::ListPermissions(target),
        _ => refusal("Invalid permlist args: "@, rest),
    }
}

fn parse_permission_list(rest: &[char]) -> (r: Request)
    ensures
        r@ == permission_list_request(rest@),
{
    let words = split::words(rest);
    assert(words@.len() == split::runs(words@).len());
    match read_target(&words) {
        Some(target) => if words.len() == 1 + count_ids(target) {
            Request::ListPermissions(target)
        } else {
            refuse("Invalid permlist args: ", rest)
        },
        None => refuse("Invalid permlist args: ", rest),
    }
}

/// How many words follow the value of a permission: whether it is negated and
/// whether it is skipped, for the kinds of targets that have these.
pub open spec fn flag_count(target: PermissionTarget) -> int {
    match target {
        PermissionTarget::ServerGroup(_) => 2,
        PermissionTarget::Client(_) => 1,
        _ => 0,
    }
}

/// The permission that the words behind the target assign.
pub open spec fn grant_of(words: Seq<Seq<char>>, target: PermissionTarget) -> Option<Grant> {
    let n = 1 + ids_of(target);
    match (u32_of(nth(words, n)), i32_of(nth(words, n + 1))) {
        (Some(permission), Some(value)) => if words.len() == n + 2 + flag_count(target) {
            Some(
                Grant {
                    permission,
                    value,
                    negated: target is ServerGroup && nth(words, n + 2) == "1"@,
                    skip: flag_count(target) > 0 && words.last() == "1"@,
                },
            )
        } else {
            None
        },
        _ => None,
    }
}

fn read_grant(words: &Vec<Vec<char>>, target: PermissionTarget) -> (r: Option<Grant>)
    ensures
        r == grant_of(split::runs(words@), target),
{
    let n: usize = 1 + count_ids(target);
    let flags: usize = match target {
        PermissionTarget::ServerGroup(_) => 2,
        PermissionTarget::Client(_) => 1,
        _ => 0,
    };
    let permission = piece(words, n);
    let value = piece(words, n + 1);
    assert(words@.len() == split::runs(words@).len());
    match (read_u32(permission.as_slice()), read_i32(value.as_slice())) {
        (Some(permission), Some(value)) => {
            if words.len() != n + 2 + flags {
                return None;
            }
            let negated_word = piece(words, n + 2);
            let negated = flags == 2 && chars::spells(negated_word.as_slice(), "1");
            let last_word = piece(words, words.len() - 1);
            let skip = flags > 0 && chars::spells(last_word.as_slice(), "1");
            Some(Grant { permission, value, negated, skip })
        },
        _ => None,
    }
}

/// `permadd <kind> <ids> <permission> <value> [negated] [skip]`
pub open spec fn permission_add_request(rest: Seq<char>) -> RequestView {
    let words = split::words_of(rest);
    match target_of(words) {
        Some(target) => match grant_of(words, target) {
            Some(grant) => RequestView::AddPermission { target, grant },
            None => refusal("Invalid permadd args: "@, rest),
        },
        None => refusal("Invalid permadd args: "@, rest),
    }
}

fn parse_permission_add(rest: &[char]) -> (r: Request)
    ensures
        r@ == permission_add_request(rest@),
{
    let words = split::words(rest);
    match read_target(&words) {
        Some(target) => match read_grant(&words, target) {
            Some(grant) => Request::AddPermission { target, grant },
            None => refuse("Invalid permadd args: ", rest),
        },
        None => refuse("Invalid permadd args: ", rest),
    }
}

/// `permdel <kind> <ids> <permission>`
pub open spec fn permission_delete_request(rest: Seq<char>) -> RequestView {
    let words = split::words_of(rest);
    match target_of(words) {
        Some(target) => match u32_of(nth(words, 1 + ids_of(target))) {
            Some(permission) if words.len() == 2 + ids_of(target) => RequestView::RemovePermission {
                target,
                permission,
            },
            _ => refusal("Invalid permdel args: "@, rest),
        },
        None => refusal("Invalid permdel args: "@, rest),
    }
}

fn parse_permission_delete(rest: &[char]) -> (r: Request)
    ensures
        r@ == permission_delete_request(rest@),
{
    let words = split::words(rest);
    assert(words@.len() == split::runs(words@).len());
    match read_target(&words) {
        Some(target) => {
            let n: usize = 1 + count_ids(target);
            let permission = piece(&words, n);
            match read_u32(permission.as_slice()) {
                Some(permission) => if words.len() == n + 1 {
                    Request::RemovePermission { target, permission }
                } else {
                    refuse("Invalid permdel args: ", rest)
                },
                None => refuse("Invalid permdel args: ", rest),
            }
        },
        None => refuse("Invalid permdel args: ", rest),
    }
}

/// `audio <samples in base64>`
pub open spec fn audio_request(rest: Seq<char>) -> RequestView {
    let text = chars::trimmed(rest);
    match encoding::base64_value(text) {
        Some(data) => RequestView::Audio(data),
        None => refusal("Invalid audio payload: "@, encoding::base64_fault(text)),
    }
}

fn parse_audio(rest: &[char]) -> (r: Request)
    ensures
        r@ == audio_request(rest@),
{
    let text = chars::string_of(chars::trim(rest));
    match encoding::decode_base64(text.as_str()) {
        Ok(data) => Request::Audio(data),
        Err(fault) => Request::Refused(
            crate::text::join::plus("Invalid audio payload: ", fault.as_str()),
        ),
    }
}

/// Requests about permissions, and sound.
pub open spec fn permission_request(word: Seq<char>, rest: Seq<char>) -> Option<RequestView> {
    if word == "permlist"@ {
        Some(permission_list_request(rest))
    } else if word == "permadd"@ {
        Some(permission_add_request(rest))
    } else if word == "permdel"@ {
        Some(permission_delete_request(rest))
    } else if word == "audio"@ {
        Some(audio_request(rest))
    } else {
        None
    }
}

fn parse_permission(word: &[char], rest: &[char]) -> (r: Option<Request>)
    ensures
        means(r, permission_request(word@, rest@)),
{
    if chars::spells(word, "permlist") {
        Some(parse_permission_list(rest))
    } else if chars::spells(word, "permadd") {
        Some(parse_permission_add(rest))
    } else if chars::spells(word, "permdel") {
        Some(parse_permission_delete(rest))
    } else if chars::spells(word, "audio") {
        Some(parse_audio(rest))
    } else {
        None
    }
}

/// What a line with arguments asks for.
pub open spec fn argument_request(word: Seq<char>, rest: Seq<char>) -> RequestView {
    match talk_request(word, rest) {
        Some(r) => r,
        None => match client_request(word, rest) {
            Some(r) => r,
            None => match stream_request(word, rest) {
                Some(r) => r,
                None => match record_request(word, rest) {
                    Some(r) => r,
                    None => match group_request(word, rest) {
                        Some(r) => r,
                        None => match file_request(word, rest) {
                            Some(r) => r,
                            None => match permission_request(word, rest) {
                                Some(r) => r,
                                None => RequestView::Ignored,
                            },
                        },
                    },
                },
            },
        },
    }
}

fn parse_argument(word: &[char], rest: &[char]) -> (r: Request)
    ensures
        r@ == argument_request(word@, rest@),
{
    match parse_talk(word, rest) {
        Some(r) => return r,
        None => {},
    }
    match parse_client(word, rest) {
        Some(r) => return r,
        None => {},
    }
    match parse_stream(word, rest) {
        Some(r) => return r,
        None => {},
    }
    match parse_record(word, rest) {
        Some(r) => return r,
        None => {},
    }
    match parse_group(word, rest) {
        Some(r) => return r,
        None => {},
    }
    match parse_file(word, rest) {
        Some(r) => return r,
        None => {},
    }
    match parse_permission(word, rest) {
        Some(r) => return r,
        None => {},
    }
    Request::Ignored
}

/// What a line of one word asks for.
pub open spec fn bare_request(word: Seq<char>) -> RequestView {
    if word == "disconnect"@ {
        RequestView::Disconnect(None)
    } else if word == "away"@ {
        RequestView::Away(Some(Seq::empty()))
    } else if word == "unaway"@ {
        RequestView::Away(None)
    } else if word == "unwhisper"@ {
        RequestView::Whisper { channels: Seq::empty(), clients: Seq::empty() }
    } else if word == "serverconninfo"@ {
        RequestView::ServerInfo
    } else if word == "serverlog"@ {
        RequestView::ServerLog
    } else if word == "banlist"@ {
        asked(CommandView::named("banlist"@), Label::BanList)
    } else if word == "bandelall"@ {
        asked(CommandView::named("bandelall"@), Label::DeleteAllBans)
    } else if word == "complainlist"@ {
        asked(CommandView::named("complainlist"@), Label::ComplainList)
    } else if word == "messagelist"@ {
        asked(CommandView::named("messagelist"@), Label::OfflineMessageList)
    } else if word == "channelgrouplist"@ {
        asked(CommandView::named("channelgrouplist"@), Label::ChannelGroupList)
    } else if word == "servergrouplist"@ {
        asked(CommandView::named("servergrouplist"@), Label::ServerGroupList)
    } else if word == "permoverview"@ {
        RequestView::PermissionOverview
    } else if word == "permissionlist"@ {
        RequestView::PermissionCatalog
    } else {
        RequestView::Ignored
    }
}

fn parse_bare(word: &[char]) -> (r: Request)
    ensures
        r@ == bare_request(word@),
{
    if chars::spells(word, "disconnect") {
        Request::Disconnect(None)
    } else if chars::spells(word, "away") {
        Request::Away(Some(String::new()))
    } else if chars::spells(word, "unaway") {
        Request::Away(None)
    } else if chars::spells(word, "unwhisper") {
        Request::Whisper { channels: Vec::new(), clients: Vec::new() }
    } else if chars::spells(word, "serverconninfo") {
        Request::ServerInfo
    } else if chars::spells(word, "serverlog") {
        Request::ServerLog
    } else if chars::spells(word, "banlist") {
        ask(Command::new("banlist"), Label::BanList)
    } else if chars::spells(word, "bandelall") {
        ask(Command::new("bandelall"), Label::DeleteAllBans)
    } else if chars::spells(word, "complainlist") {
        ask(Command::new("complainlist"), Label::ComplainList)
    } else if chars::spells(word, "messagelist") {
        ask(Command::new("messagelist"), Label::OfflineMessageList)
    } else if chars::spells(word, "channelgrouplist") {
        ask(Command::new("channelgrouplist"), Label::ChannelGroupList)
    } else if chars::spells(word, "servergrouplist") {
        ask(Command::new("servergrouplist"), Label::ServerGroupList)
    } else if chars::spells(word, "permoverview") {
        Request::PermissionOverview
    } else if chars::spells(word, "permissionlist") {
        Request::PermissionCatalog
    } else {
        Request::Ignored
    }
}

/// What a line of input asks for: the first word says what, the rest with
/// what arguments.
pub open spec fn request_of(line: Seq<char>) -> RequestView {
    let l = chars::trimmed(line);
    match split::cut(l, ' ') {
        Some((word, rest)) => argument_request(word, rest),
        None => bare_request(l),
    }
}

/// Reads a line of input.
pub fn parse_line(line: &str) -> (r: Request)
    ensures
        r@ == request_of(line@),
{
    let c = chars::chars_of(line);
    let l = chars::trim(c.as_slice());
    match split::split_once(l, ' ') {
        Some((word, rest)) => parse_argument(word, rest),
        None => parse_bare(l),
    }
}

/// The line that switches to a channel with a password.
pub open spec fn switch_line(channel: u64, password: Seq<char>) -> Seq<char> {
    "switch"@.push(' ') + (number::decimal_text(channel as nat).push(' ') + encoding::base64_text(
        vstd::utf8::encode_utf8(password),
    ))
}

/// A password reaches the server as it was typed, whatever characters it
/// holds: spaces and line ends too.
#[verifier::spinoff_prover]
#[verifier::rlimit(60)]
pub proof fn law_password_travels_whole(channel: u64, password: Seq<char>)
    requires
        password.len() > 0,
    ensures
        request_of(switch_line(channel, password)) == (RequestView::Switch {
            channel,
            password: Some(password),
        }),
{
    let bytes = vstd::utf8::encode_utf8(password);
    let digits = number::decimal_text(channel as nat);
    let secret = encoding::base64_text(bytes);
    let rest = digits.push(' ') + secret;
    let line = switch_line(channel, password);
    assert(bytes.len() > 0);
    reveal_strlit("switch");
    reveal_strlit("disconnect");
    encoding::lemma_base64_text(bytes);
    encoding::law_base64_string_reads_back(password);
    number::lemma_decimal_text(channel as nat);
    number::law_decimal_reads_back(channel as nat, u64::MAX as int);
    assert(line.last() == secret.last());
    assert(secret.last() == secret[secret.len() - 1]);
    assert(line[0] == 's');
    chars::lemma_trimmed(line);
    split::lemma_cut("switch"@, ' ', rest);
    assert("switch"@.len() != "disconnect"@.len());
    assert(rest[0] == digits[0]);
    assert(chars::is_digit(digits[0]));
    assert(rest.last() == secret.last());
    chars::lemma_trimmed(rest);
    assert forall|j: int| 0 <= j < digits.len() implies digits[j] != ' ' by {
        assert(chars::is_digit(digits[j]));
    }
    split::lemma_cut(digits, ' ', secret);
    let p = split::first_pieces(rest, 2, ' ');
    assert(p == seq![digits] + split::first_pieces(secret, 1, ' '));
    assert(split::first_pieces(secret, 1, ' ') == seq![secret]);
    assert(p[0] == digits && p[1] == secret && p.len() == 2);
}

/// The line that moves a client to a channel with a password.
pub open spec fn move_line(client: u16, channel: u64, password: Seq<char>) -> Seq<char> {
    "moveclient"@.push(' ') + (number::decimal_text(client as nat).push(' ') + (
    number::decimal_text(channel as nat).push(' ') + encoding::base64_text(
        vstd::utf8::encode_utf8(password),
    )))
}

/// The password that a client is moved with reaches the server as it was typed.
#[verifier::spinoff_prover]
#[verifier::rlimit(60)]
pub proof fn law_password_of_moved_client_travels_whole(
    client: u16,
    channel: u64,
    password: Seq<char>,
)
    requires
        password.len() > 0,
    ensures
        request_of(move_line(client, channel, password)) == (RequestView::MoveClient {
            client,
            channel,
            password: Some(password),
        }),
{
    let bytes = vstd::utf8::encode_utf8(password);
    let who = number::decimal_text(client as nat);
    let digits = number::decimal_text(channel as nat);
    let secret = encoding::base64_text(bytes);
    let tail = digits.push(' ') + secret;
    let rest = who.push(' ') + tail;
    let line = move_line(client, channel, password);
    assert(bytes.len() > 0);
    reveal_strlit("moveclient");
    reveal_strlit("disconnect");
    reveal_strlit("switch");
    reveal_strlit("chat");
    reveal_strlit("serverchat");
    reveal_strlit("pm");
    reveal_strlit("poke");
    encoding::lemma_base64_text(bytes);
    encoding::law_base64_string_reads_back(password);
    number::lemma_decimal_text(client as nat);
    number::law_decimal_reads_back(client as nat, u16::MAX as int);
    number::lemma_decimal_text(channel as nat);
    number::law_decimal_reads_back(channel as nat, u64::MAX as int);
    assert(secret.last() == secret[secret.len() - 1]);
    assert(line.last() == secret.last());
    assert(line[0] == 'm');
    chars::lemma_trimmed(line);
    assert forall|j: int| 0 <= j < "moveclient"@.len() implies "moveclient"@[j] != ' ' by {}
    split::lemma_cut("moveclient"@, ' ', rest);
    assert("moveclient"@[0] == 'm' && "disconnect"@[0] == 'd');
    assert(rest[0] == who[0]);
    assert(chars::is_digit(who[0]));
    assert(rest.last() == secret.last());
    chars::lemma_trimmed(rest);
    assert forall|j: int| 0 <= j < who.len() implies who[j] != ' ' by {
        assert(chars::is_digit(who[j]));
    }
    assert forall|j: int| 0 <= j < digits.len() implies digits[j] != ' ' by {
        assert(chars::is_digit(digits[j]));
    }
    split::lemma_cut(who, ' ', tail);
    split::lemma_cut(digits, ' ', secret);
    let p = split::first_pieces(rest, 3, ' ');
    assert(p == seq![who] + split::first_pieces(tail, 2, ' '));
    assert(split::first_pieces(tail, 2, ' ') == seq![digits] + split::first_pieces(
        secret,
        1,
        ' ',
    ));
    assert(split::first_pieces(secret, 1, ' ') == seq![secret]);
    assert(p[0] == who && p[1] == digits && p[2] == secret && p.len() == 3);
}

/// The line that uploads a file.
pub open spec fn upload_line(channel: u64, path: Seq<char>, data: Seq<u8>) -> Seq<char> {
    "ftupload"@.push(' ') + (number::decimal_text(channel as nat).push('\t') + (path.push('\t')
        + encoding::base64_text(data)))
}

/// A file is uploaded under its path with its content, byte for byte. A path
/// cannot hold a tab and, where the file is empty, cannot end in white space.
#[verifier::spinoff_prover]
#[verifier::rlimit(60)]
pub proof fn law_upload_travels_whole(channel: u64, path: Seq<char>, data: Seq<u8>)
    requires
        forall|j: int| 0 <= j < path.len() ==> path[j] != '\t',
        data.len() > 0 || path.len() == 0 || !chars::is_white_space(path.last()),
    ensures
        request_of(upload_line(channel, path, data)) == (RequestView::Upload {
            channel,
            path,
            data,
        }),
{
    let digits = number::decimal_text(channel as nat);
    let content = encoding::base64_text(data);
    let tail = path.push('\t') + content;
    let rest = digits.push('\t') + tail;
    let line = upload_line(channel, path, data);
    reveal_strlit("ftupload");
    lemma_file_word();
    encoding::lemma_base64_text(data);
    encoding::law_base64_reads_back(data);
    number::lemma_decimal_text(channel as nat);
    number::law_decimal_reads_back(channel as nat, u64::MAX as int);
    assert forall|j: int| 0 <= j < digits.len() implies digits[j] != '\t' by {
        assert(chars::is_digit(digits[j]));
    }
    assert(chars::is_digit(digits[0]));
    assert(digits.last() == digits[digits.len() - 1]);
    assert(chars::is_digit(digits.last()));
    chars::lemma_trimmed(digits);
    if data.len() > 0 {
        assert(content.last() == content[content.len() - 1]);
        assert(line.last() == content.last());
        chars::lemma_trimmed(line);
        split::lemma_cut("ftupload"@, ' ', rest);
        split::lemma_cut(digits, '\t', tail);
        split::lemma_cut(path, '\t', content);
        chars::lemma_trimmed(content);
        let p = split::first_pieces(rest, 3, '\t');
        assert(p == seq![digits] + split::first_pieces(tail, 2, '\t'));
        assert(split::first_pieces(tail, 2, '\t') == seq![path] + split::first_pieces(
            content,
            1,
            '\t',
        ));
        assert(split::first_pieces(content, 1, '\t') == seq![content]);
        assert(p[0] == digits && p[1] == path && p[2] == content && p.len() == 3);
    } else {
        lemma_empty_upload(channel, path, data);
    }
}

/// The tabs behind an empty file, and behind an empty path, are trimmed away.
#[verifier::spinoff_prover]
#[verifier::rlimit(60)]
proof fn lemma_empty_upload(channel: u64, path: Seq<char>, data: Seq<u8>)
    requires
        data.len() == 0,
        forall|j: int| 0 <= j < path.len() ==> path[j] != '\t',
        path.len() == 0 || !chars::is_white_space(path.last()),
    ensures
        request_of(upload_line(channel, path, data)) == (RequestView::Upload {
            channel,
            path,
            data,
        }),
{
    let digits = number::decimal_text(channel as nat);
    let content = encoding::base64_text(data);
    let line = upload_line(channel, path, data);
    let none = Seq::<char>::empty();
    reveal_strlit("ftupload");
    lemma_file_word();
    assert(content =~= none);
    encoding::law_base64_reads_back(data);
    assert(chars::trimmed(none) =~= none);
    number::lemma_decimal_text(channel as nat);
    number::law_decimal_reads_back(channel as nat, u64::MAX as int);
    assert(chars::is_digit(digits[0]));
    assert(digits.last() == digits[digits.len() - 1]);
    assert(chars::is_digit(digits.last()));
    chars::lemma_trimmed(digits);
    assert forall|j: int| 0 <= j < digits.len() implies digits[j] != '\t' by {
        assert(chars::is_digit(digits[j]));
    }
    let word = "ftupload"@.push(' ');
    let rest = if path.len() == 0 {
        digits
    } else {
        digits.push('\t') + path
    };
    let tabs = if path.len() == 0 {
        seq!['\t', '\t']
    } else {
        seq!['\t']
    };
    let kept = word + rest;
    assert(line =~= kept + tabs);
    assert(kept[0] == 'f');
    assert(kept.last() == rest.last());
    if path.len() > 0 {
        assert(rest.last() == path.last());
    }
    chars::lemma_trimmed_tail(kept, tabs);
    split::lemma_cut("ftupload"@, ' ', rest);
    let p = split::first_pieces(rest, 3, '\t');
    if path.len() == 0 {
        split::lemma_position(digits, '\t');
        assert(p =~= seq![digits]);
        assert(nth(p, 1) =~= path);
    } else {
        split::lemma_cut(digits, '\t', path);
        split::lemma_position(path, '\t');
        assert(split::first_pieces(path, 2, '\t') =~= seq![path]);
        assert(p =~= seq![digits, path]);
    }
    assert(nth(p, 2) =~= none);
    assert(data =~= Seq::<u8>::empty());
}

/// The line that logs in with a name and a password.
pub open spec fn login_line(name: Seq<char>, password: Seq<char>) -> Seq<char> {
    "serverquerylogin"@.push(' ') + (encoding::base64_text(vstd::utf8::encode_utf8(name)).push(' ')
        + encoding::base64_text(vstd::utf8::encode_utf8(password)))
}

/// A login is sent with the name and the password that were typed.
#[verifier::spinoff_prover]
#[verifier::rlimit(60)]
pub proof fn law_login_travels_whole(name: Seq<char>, password: Seq<char>)
    requires
        name.len() > 0,
    ensures
        request_of(login_line(name, password)) == asked(
            CommandView::named("login"@).and("client_login_name"@, name).and(
                "client_login_password"@,
                password,
            ),
            Label::ServerQueryLogin,
        ),
{
    let who_bytes = vstd::utf8::encode_utf8(name);
    let bytes = vstd::utf8::encode_utf8(password);
    let who = encoding::base64_text(who_bytes);
    let secret = encoding::base64_text(bytes);
    let line = login_line(name, password);
    let none = Seq::<char>::empty();
    let word = "serverquerylogin"@;
    assert(who_bytes.len() > 0);
    reveal_strlit("serverquerylogin");
    lemma_login_word();
    encoding::lemma_base64_text(who_bytes);
    encoding::lemma_base64_text(bytes);
    encoding::law_base64_string_reads_back(name);
    encoding::law_base64_string_reads_back(password);
    assert(who.last() == who[who.len() - 1]);
    assert forall|j: int| 0 <= j < who.len() implies who[j] != ' ' by {
        assert(!chars::is_white_space(who[j]));
    }
    if secret.len() > 0 {
        let rest = who.push(' ') + secret;
        assert(secret.last() == secret[secret.len() - 1]);
        assert(line.last() == secret.last());
        assert(line[0] == 's');
        chars::lemma_trimmed(line);
        split::lemma_cut(word, ' ', rest);
        assert(rest[0] == who[0]);
        assert(rest.last() == secret.last());
        chars::lemma_trimmed(rest);
        split::lemma_cut(who, ' ', secret);
        let p = split::first_pieces(rest, 2, ' ');
        assert(split::first_pieces(secret, 1, ' ') == seq![secret]);
        assert(p =~= seq![who, secret]);
    } else {
        let kept = word.push(' ') + who;
        assert(secret =~= none);
        assert(line =~= kept + seq![' ']);
        assert(kept[0] == 's');
        assert(kept.last() == who.last());
        chars::lemma_trimmed_tail(kept, seq![' ']);
        split::lemma_cut(word, ' ', who);
        chars::lemma_trimmed(who);
        split::lemma_position(who, ' ');
        let p = split::first_pieces(who, 2, ' ');
        assert(p =~= seq![who]);
        assert(nth(p, 1) =~= none);
    }
}

/// The word of a login begins no other request.
#[verifier::spinoff_prover]
#[verifier::rlimit(60)]
proof fn lemma_login_word()
    ensures
        forall|rest: Seq<char>|
            argument_request("serverquerylogin"@, rest) == #[trigger] login_request(rest),
{
    reveal_strlit("serverquerylogin");
    reveal_strlit("disconnect");
    reveal_strlit("switch");
    reveal_strlit("chat");
    reveal_strlit("serverchat");
    reveal_strlit("pm");
    reveal_strlit("poke");
    reveal_strlit("moveclient");
    reveal_strlit("away");
    reveal_strlit("muteinput");
    reveal_strlit("muteoutput");
    reveal_strlit("nickname");
    reveal_strlit("whisper");
    reveal_strlit("clientconninfo");
    reveal_strlit("kickchannel");
    reveal_strlit("kickserver");
    reveal_strlit("banclient");
    reveal_strlit("serveredit");
    reveal_strlit("streaminfo");
    reveal_strlit("streamsetup");
    reveal_strlit("streamrespond");
    reveal_strlit("streamstop");
    reveal_strlit("streamjoin");
    reveal_strlit("streamleave");
    reveal_strlit("streamsignal");
    reveal_strlit("bandel");
    reveal_strlit("complaindel");
    reveal_strlit("complaindelall");
    reveal_strlit("messageget");
    reveal_strlit("messageadd");
    reveal_strlit("messagedel");
    reveal_strlit("messageupdateflag");
    reveal_strlit("setchannelgroup");
    reveal_strlit("addservergroup");
    reveal_strlit("delservergroup");
    assert("serverquerylogin"@.len() == 16);
    assert("messageupdateflag"@.len() == 17);
}

/// The word of an upload begins no other request.
#[verifier::spinoff_prover]
#[verifier::rlimit(60)]
proof fn lemma_file_word()
    ensures
        forall|rest: Seq<char>|
            argument_request("ftupload"@, rest) == #[trigger] upload_request(rest),
{
    reveal_strlit("ftupload");
    reveal_strlit("disconnect");
    reveal_strlit("switch");
    reveal_strlit("chat");
    reveal_strlit("serverchat");
    reveal_strlit("pm");
    reveal_strlit("poke");
    reveal_strlit("moveclient");
    reveal_strlit("away");
    reveal_strlit("muteinput");
    reveal_strlit("muteoutput");
    reveal_strlit("nickname");
    reveal_strlit("whisper");
    reveal_strlit("clientconninfo");
    reveal_strlit("kickchannel");
    reveal_strlit("kickserver");
    reveal_strlit("banclient");
    reveal_strlit("serveredit");
    reveal_strlit("streaminfo");
    reveal_strlit("streamsetup");
    reveal_strlit("streamrespond");
    reveal_strlit("streamstop");
    reveal_strlit("streamjoin");
    reveal_strlit("streamleave");
    reveal_strlit("streamsignal");
    reveal_strlit("bandel");
    reveal_strlit("complaindel");
    reveal_strlit("complaindelall");
    reveal_strlit("messageget");
    reveal_strlit("messageadd");
    reveal_strlit("messagedel");
    reveal_strlit("messageupdateflag");
    reveal_strlit("setchannelgroup");
    reveal_strlit("addservergroup");
    reveal_strlit("delservergroup");
    reveal_strlit("serverquerylogin");
    reveal_strlit("ftlist");
    reveal_strlit("ftmkdir");
    reveal_strlit("ftdelete");
    reveal_strlit("ftrename");
    reveal_strlit("ftdownload");
    let w = "ftupload"@;
    assert(w[0] == 'f' && w[2] == 'u' && w.len() == 8);
    assert("disconnect"@[0] != 'f' && "switch"@[0] != 'f' && "chat"@[0] != 'f' && "serverchat"@[0]
        != 'f' && "pm"@[0] != 'f' && "poke"@[0] != 'f' && "moveclient"@[0] != 'f' && "away"@[0]
        != 'f' && "muteinput"@[0] != 'f' && "muteoutput"@[0] != 'f' && "nickname"@[0] != 'f'
        && "whisper"@[0] != 'f');
    assert("clientconninfo"@[0] != 'f' && "kickchannel"@[0] != 'f' && "kickserver"@[0] != 'f'
        && "banclient"@[0] != 'f' && "serveredit"@[0] != 'f');
    assert("streaminfo"@[0] != 'f' && "streamsetup"@[0] != 'f' && "streamrespond"@[0] != 'f'
        && "streamstop"@[0] != 'f' && "streamjoin"@[0] != 'f' && "streamleave"@[0] != 'f'
        && "streamsignal"@[0] != 'f');
    assert("bandel"@[0] != 'f' && "complaindel"@[0] != 'f' && "complaindelall"@[0] != 'f'
        && "messageget"@[0] != 'f' && "messageadd"@[0] != 'f' && "messagedel"@[0] != 'f'
        && "messageupdateflag"@[0] != 'f');
    assert("setchannelgroup"@[0] != 'f' && "addservergroup"@[0] != 'f' && "delservergroup"@[0]
        != 'f' && "serverquerylogin"@[0] != 'f');
    assert("ftlist"@[2] != 'u' && "ftmkdir"@[2] != 'u' && "ftdelete"@[2] != 'u' && "ftrename"@[2]
        != 'u' && "ftdownload"@[2] != 'u');
}

} // verus!
