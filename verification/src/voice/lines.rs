use vstd::prelude::*;

use crate::text::chars;
use crate::text::number;
use crate::text::split;
use crate::voice::encoding;
use crate::voice::grammar;
use crate::voice::grammar::request_of;
use crate::voice::packet::CommandView;
use crate::voice::request::Delivery;
use crate::voice::request::Grant;
use crate::voice::request::KickPlace;
use crate::voice::request::Label;
use crate::voice::request::PermissionTarget;
use crate::voice::request::RequestView;
use crate::voice::request::TextTarget;

verus! {

/// A line of several parts with a space between every two.
pub open spec fn line_of(parts: Seq<Seq<char>>) -> Seq<char> {
    split::joined(parts, ' ')
}

/// A text that trimming leaves alone.
pub open spec fn is_solid(s: Seq<char>) -> bool {
    &&& s.len() > 0
    &&& !chars::is_white_space(s[0])
    &&& !chars::is_white_space(s.last())
}

/// A text that stands for one argument.
pub open spec fn is_argument(s: Seq<char>) -> bool {
    is_solid(s) && split::lacks(s, ' ')
}

/// A command whose answer is awaited, and reported under the label.
pub open spec fn awaited(
    name: Seq<char>,
    arguments: Seq<(Seq<char>, Seq<char>)>,
    label: Label,
) -> RequestView {
    RequestView::Send {
        command: CommandView { name, arguments },
        delivery: Delivery { label: Some(label), names_failure: false },
    }
}

/// A command that is sent with nothing awaited.
pub open spec fn unawaited(
    name: Seq<char>,
    arguments: Seq<(Seq<char>, Seq<char>)>,
) -> RequestView {
    RequestView::Send {
        command: CommandView { name, arguments },
        delivery: Delivery { label: None, names_failure: true },
    }
}

pub open spec fn dec(n: nat) -> Seq<char> {
    number::decimal_text(n)
}

/// What a line asks for.
#[verifier::opaque]
spec fn read(line: Seq<char>) -> RequestView {
    request_of(line)
}

/// What a word asks for with the rest of its line.
#[verifier::opaque]
spec fn asked_by(word: Seq<char>, rest: Seq<char>) -> RequestView {
    grammar::argument_request(word, rest)
}

/// A number by which the first words of lines can be told apart.
spec fn mark(w: Seq<char>) -> int {
    w.len() + 20 * (w[0] as int) + 3 * (w[w.len() - 1] as int) + 100 * (w[w.len() - 2] as int)
}

proof fn lemma_words()
    ensures
        mark("disconnect"@) == 12258,
        mark("switch"@) == 12518,
        mark("chat"@) == 12032,
        mark("serverchat"@) == 12358,
        mark("pm"@) == 13769,
        mark("poke"@) == 13247,
        mark("moveclient"@) == 13538,
        mark("away"@) == 12007,
        mark("muteinput"@) == 14237,
        mark("muteoutput"@) == 14238,
        mark("nickname"@) == 13411,
        mark("whisper"@) == 12829,
        mark("clientconninfo"@) == 12527,
        mark("kickchannel"@) == 12575,
        mark("kickserver"@) == 12592,
        mark("banclient"@) == 13317,
        mark("serveredit"@) == 13158,
        mark("streaminfo"@) == 12843,
        mark("streamsetup"@) == 14347,
        mark("streamrespond"@) == 13613,
        mark("streamstop"@) == 13746,
        mark("streamjoin"@) == 13140,
        mark("streamleave"@) == 14414,
        mark("streamsignal"@) == 12336,
        mark("bandel"@) == 12390,
        mark("complaindel"@) == 12415,
        mark("complaindelall"@) == 13118,
        mark("messageget"@) == 12638,
        mark("messageadd"@) == 12490,
        mark("messagedel"@) == 12614,
        mark("messageupdateflag"@) == 12206,
        mark("setchannelgroup"@) == 14351,
        mark("addservergroup"@) == 13990,
        mark("delservergroup"@) == 14050,
        mark("serverquerylogin"@) == 13146,
        mark("ftlist"@) == 13894,
        mark("ftmkdir"@) == 12889,
        mark("ftdelete"@) == 13951,
        mark("ftrename"@) == 13251,
        mark("ftdownload"@) == 12050,
        mark("ftupload"@) == 12048,
        mark("permlist"@) == 14096,
        mark("permadd"@) == 12547,
        mark("permdel"@) == 12671,
        mark("audio"@) == 12778,
        mark("unaway"@) == 12409,
        mark("unwhisper"@) == 12791,
        mark("serverconninfo"@) == 12847,
        mark("serverlog"@) == 13718,
        mark("banlist"@) == 13815,
        mark("bandelall"@) == 13093,
        mark("complainlist"@) == 13840,
        mark("messagelist"@) == 14039,
        mark("channelgrouplist"@) == 13844,
        mark("servergrouplist"@) == 14163,
        mark("permoverview"@) == 12709,
        mark("permissionlist"@) == 14102,
{
    reveal_strlit("disconnect");
    reveal_strlit("switch");
    reveal_strlit("chat");
    reveal_strlit("serverchat");
    reveal_strlit("pm");
    reveal_strlit("poke");
    reveal_strlit("moveclient");
    reveal_strlit("away");
    reveal_strlit("muteinput");
    reveal_strlit("muteoutput");
    reveal_strlit("nickname");
    reveal_strlit("whisper");
    reveal_strlit("clientconninfo");
    reveal_strlit("kickchannel");
    reveal_strlit("kickserver");
    reveal_strlit("banclient");
    reveal_strlit("serveredit");
    reveal_strlit("streaminfo");
    reveal_strlit("streamsetup");
    reveal_strlit("streamrespond");
    reveal_strlit("streamstop");
    reveal_strlit("streamjoin");
    reveal_strlit("streamleave");
    reveal_strlit("streamsignal");
    reveal_strlit("bandel");
    reveal_strlit("complaindel");
    reveal_strlit("complaindelall");
    reveal_strlit("messageget");
    reveal_strlit("messageadd");
    reveal_strlit("messagedel");
    reveal_strlit("messageupdateflag");
    reveal_strlit("setchannelgroup");
    reveal_strlit("addservergroup");
    reveal_strlit("delservergroup");
    reveal_strlit("serverquerylogin");
    reveal_strlit("ftlist");
    reveal_strlit("ftmkdir");
    reveal_strlit("ftdelete");
    reveal_strlit("ftrename");
    reveal_strlit("ftdownload");
    reveal_strlit("ftupload");
    reveal_strlit("permlist");
    reveal_strlit("permadd");
    reveal_strlit("permdel");
    reveal_strlit("audio");
    reveal_strlit("unaway");
    reveal_strlit("unwhisper");
    reveal_strlit("serverconninfo");
    reveal_strlit("serverlog");
    reveal_strlit("banlist");
    reveal_strlit("bandelall");
    reveal_strlit("complainlist");
    reveal_strlit("messagelist");
    reveal_strlit("channelgrouplist");
    reveal_strlit("servergrouplist");
    reveal_strlit("permoverview");
    reveal_strlit("permissionlist");
}

proof fn lemma_first_pieces(parts: Seq<Seq<char>>, n: nat, sep: char)
    requires
        0 < parts.len() <= n,
        forall|i: int| 0 <= i < parts.len() - 1 ==> split::lacks(#[trigger] parts[i], sep),
        parts.len() < n ==> split::lacks(parts.last(), sep),
    ensures
        split::first_pieces(split::joined(parts, sep), n, sep) == parts,
    decreases parts.len(),
{
    let s = split::joined(parts, sep);
    if parts.len() == 1 {
        assert(parts =~= seq![parts[0]]);
        if n > 1 {
            split::lemma_position_absent(s, sep);
        }
    } else {
        let rest = parts.skip(1);
        assert forall|i: int| 0 <= i < rest.len() - 1 implies split::lacks(
            #[trigger] rest[i],
            sep,
        ) by {
            assert(rest[i] == parts[i + 1]);
        }
        assert(rest.last() == parts.last());
        lemma_first_pieces(rest, (n - 1) as nat, sep);
        assert(split::lacks(parts[0], sep));
        split::lemma_cut(parts[0], sep, split::joined(rest, sep));
        assert(parts =~= seq![parts[0]] + rest);
    }
}

/// A line of a word and arguments reads as that word with those arguments.
proof fn lemma_line(word: Seq<char>, arguments: Seq<Seq<char>>)
    requires
        is_argument(word),
        arguments.len() > 0,
        split::joined(arguments, ' ').len() > 0,
        !chars::is_white_space(split::joined(arguments, ' ').last()),
    ensures
        read(line_of(seq![word] + arguments)) == asked_by(word, split::joined(arguments, ' ')),
{
    reveal(read);
    reveal(asked_by);
    let rest = split::joined(arguments, ' ');
    let parts = seq![word] + arguments;
    let line = line_of(parts);
    assert(parts.skip(1) =~= arguments);
    assert(line == word.push(' ') + rest);
    assert(line[0] == word[0]);
    assert(line.last() == rest.last());
    chars::lemma_trimmed(line);
    split::lemma_cut(word, ' ', rest);
}

/// Unfolds a line of two, three or four parts.
proof fn lemma_joined(a: Seq<char>, b: Seq<char>, c: Seq<char>, sep: char)
    ensures
        split::joined(seq![a], sep) == a,
        split::joined(seq![a, b], sep) == a.push(sep) + b,
        split::joined(seq![a, b, c], sep) == a.push(sep) + (b.push(sep) + c),
{
    reveal_with_fuel(split::joined, 4);
    assert(seq![a, b].skip(1) =~= seq![b]);
    assert(seq![a, b, c].skip(1) =~= seq![b, c]);
    assert(seq![b, c].skip(1) =~= seq![c]);
}

proof fn lemma_argument(s: Seq<char>)
    requires
        is_solid(s),
    ensures
        chars::trimmed(s) == s,
{
    chars::lemma_trimmed(s);
}

/// How a number reads as an id of each width.
proof fn lemma_id(n: nat)
    ensures
        is_argument(dec(n)),
        split::lacks(dec(n), ','),
        split::lacks(dec(n), ';'),
        split::lacks(dec(n), '\t'),
        chars::trimmed(dec(n)) == dec(n),
        grammar::u16_of(dec(n)) == if n <= 65535 {
            Some(n as u16)
        } else {
            None
        },
        grammar::u32_of(dec(n)) == if n <= u32::MAX {
            Some(n as u32)
        } else {
            None
        },
        grammar::u64_of(dec(n)) == if n <= u64::MAX {
            Some(n as u64)
        } else {
            None
        },
{
    let t = dec(n);
    number::lemma_decimal_text(n);
    assert forall|i: int| 0 <= i < t.len() implies '0' <= #[trigger] t[i] <= '9' by {
        assert(chars::is_digit(t[i]));
    }
    assert('0' <= t[0] <= '9');
    assert('0' <= t[t.len() - 1] <= '9');
    chars::lemma_trimmed(t);
    if n <= 65535 {
        number::law_decimal_reads_back(n, 65535);
    } else {
        number::law_decimal_above_bound_is_refused(n, 65535);
    }
    if n <= u32::MAX {
        number::law_decimal_reads_back(n, u32::MAX as int);
    } else {
        number::law_decimal_above_bound_is_refused(n, u32::MAX as int);
    }
    if n <= u64::MAX {
        number::law_decimal_reads_back(n, u64::MAX as int);
    } else {
        number::law_decimal_above_bound_is_refused(n, u64::MAX as int);
    }
}

proof fn lemma_disconnect_word(rest: Seq<char>)
    ensures
        asked_by("disconnect"@, rest)
            == RequestView::Disconnect(grammar::nonempty(chars::trimmed(rest))),
{
    reveal(asked_by);
    lemma_words();
}

proof fn lemma_switch_word(rest: Seq<char>)
    ensures
        asked_by("switch"@, rest) == grammar::switch_request(rest),
{
    reveal(asked_by);
    lemma_words();
}

proof fn lemma_chat_word(rest: Seq<char>)
    ensures
        asked_by("chat"@, rest)
            == (RequestView::Text { recipient: TextTarget::Channel, message: rest }),
{
    reveal(asked_by);
    lemma_words();
}

proof fn lemma_serverchat_word(rest: Seq<char>)
    ensures
        asked_by("serverchat"@, rest)
            == (RequestView::Text { recipient: TextTarget::Server, message: rest }),
{
    reveal(asked_by);
    lemma_words();
}

proof fn lemma_pm_word(rest: Seq<char>)
    ensures
        asked_by("pm"@, rest) == grammar::pm_request(rest),
{
    reveal(asked_by);
    lemma_words();
}

proof fn lemma_poke_word(rest: Seq<char>)
    ensures
        asked_by("poke"@, rest) == grammar::poke_request(rest),
{
    reveal(asked_by);
    lemma_words();
}

proof fn lemma_moveclient_word(rest: Seq<char>)
    ensures
        asked_by("moveclient"@, rest) == grammar::move_request(rest),
{
    reveal(asked_by);
    lemma_words();
}

proof fn lemma_away_word(rest: Seq<char>)
    ensures
        asked_by("away"@, rest) == RequestView::Away(Some(chars::trimmed(rest))),
{
    reveal(asked_by);
    lemma_words();
}

proof fn lemma_muteinput_word(rest: Seq<char>)
    ensures
        asked_by("muteinput"@, rest) == RequestView::MuteInput(grammar::is_on(rest)),
{
    reveal(asked_by);
    lemma_words();
}

proof fn lemma_muteoutput_word(rest: Seq<char>)
    ensures
        asked_by("muteoutput"@, rest) == RequestView::MuteOutput(grammar::is_on(rest)),
{
    reveal(asked_by);
    lemma_words();
}

proof fn lemma_nickname_word(rest: Seq<char>)
    ensures
        asked_by("nickname"@, rest) == RequestView::Nickname(chars::trimmed(rest)),
{
    reveal(asked_by);
    lemma_words();
}

proof fn lemma_whisper_word(rest: Seq<char>)
    ensures
        asked_by("whisper"@, rest) == grammar::whisper_request(rest),
{
    reveal(asked_by);
    lemma_words();
}

proof fn lemma_clientconninfo_word(rest: Seq<char>)
    ensures
        asked_by("clientconninfo"@, rest) == grammar::client_info_request(rest),
{
    reveal(asked_by);
    lemma_words();
}

proof fn lemma_kickchannel_word(rest: Seq<char>)
    ensures
        asked_by("kickchannel"@, rest) == grammar::kick_request(rest, KickPlace::Channel),
{
    reveal(asked_by);
    lemma_words();
}

proof fn lemma_kickserver_word(rest: Seq<char>)
    ensures
        asked_by("kickserver"@, rest) == grammar::kick_request(rest, KickPlace::Server),
{
    reveal(asked_by);
    lemma_words();
}

proof fn lemma_banclient_word(rest: Seq<char>)
    ensures
        asked_by("banclient"@, rest) == grammar::ban_request(rest),
{
    reveal(asked_by);
    lemma_words();
}

proof fn lemma_serveredit_word(rest: Seq<char>)
    ensures
        asked_by("serveredit"@, rest) == RequestView::ServerEdit(rest),
{
    reveal(asked_by);
    lemma_words();
}

proof fn lemma_streaminfo_word(rest: Seq<char>)
    ensures
        asked_by("streaminfo"@, rest) == grammar::stream_info_request(rest),
{
    reveal(asked_by);
    lemma_words();
}

proof fn lemma_streamsetup_word(rest: Seq<char>)
    ensures
        asked_by("streamsetup"@, rest) == RequestView::StreamSetup(rest),
{
    reveal(asked_by);
    lemma_words();
}

proof fn lemma_streamrespond_word(rest: Seq<char>)
    ensures
        asked_by("streamrespond"@, rest) == RequestView::StreamRespond(rest),
{
    reveal(asked_by);
    lemma_words();
}

proof fn lemma_streamstop_word(rest: Seq<char>)
    ensures
        asked_by("streamstop"@, rest) == grammar::stream_stop_request(rest),
{
    reveal(asked_by);
    lemma_words();
}

proof fn lemma_streamjoin_word(rest: Seq<char>)
    ensures
        asked_by("streamjoin"@, rest) == grammar::join_stream_request(rest, false),
{
    reveal(asked_by);
    lemma_words();
}

proof fn lemma_streamleave_word(rest: Seq<char>)
    ensures
        asked_by("streamleave"@, rest) == grammar::join_stream_request(rest, true),
{
    reveal(asked_by);
    lemma_words();
}

proof fn lemma_streamsignal_word(rest: Seq<char>)
    ensures
        asked_by("streamsignal"@, rest) == grammar::stream_signal_request(rest),
{
    reveal(asked_by);
    lemma_words();
}

proof fn lemma_bandel_word(rest: Seq<char>)
    ensures
        asked_by("bandel"@, rest)
            == grammar::id_request(
                rest,
                "bandel"@,
                "banid"@,
                Label::DeleteBan,
                "Invalid ban id: "@,
            ),
{
    reveal(asked_by);
    lemma_words();
}

proof fn lemma_complaindel_word(rest: Seq<char>)
    ensures
        asked_by("complaindel"@, rest) == grammar::complain_delete_request(rest),
{
    reveal(asked_by);
    lemma_words();
}

proof fn lemma_complaindelall_word(rest: Seq<char>)
    ensures
        asked_by("complaindelall"@, rest) == grammar::complain_delete_all_request(rest),
{
    reveal(asked_by);
    lemma_words();
}

proof fn lemma_messageget_word(rest: Seq<char>)
    ensures
        asked_by("messageget"@, rest)
            == grammar::id_request(
                rest,
                "messageget"@,
                "msgid"@,
                Label::OfflineMessage,
                "Invalid message id: "@,
            ),
{
    reveal(asked_by);
    lemma_words();
}

proof fn lemma_messageadd_word(rest: Seq<char>)
    ensures
        asked_by("messageadd"@, rest) == grammar::message_add_request(rest),
{
    reveal(asked_by);
    lemma_words();
}

proof fn lemma_messagedel_word(rest: Seq<char>)
    ensures
        asked_by("messagedel"@, rest)
            == grammar::id_request(
                rest,
                "messagedel"@,
                "msgid"@,
                Label::DeleteOfflineMessage,
                "Invalid message id: "@,
            ),
{
    reveal(asked_by);
    lemma_words();
}

proof fn lemma_messageupdateflag_word(rest: Seq<char>)
    ensures
        asked_by("messageupdateflag"@, rest) == grammar::message_flag_request(rest),
{
    reveal(asked_by);
    lemma_words();
}

proof fn lemma_setchannelgroup_word(rest: Seq<char>)
    ensures
        asked_by("setchannelgroup"@, rest) == grammar::channel_group_request(rest),
{
    reveal(asked_by);
    lemma_words();
}

proof fn lemma_addservergroup_word(rest: Seq<char>)
    ensures
        asked_by("addservergroup"@, rest)
            == grammar::server_group_request(
                rest,
                "servergroupaddclient"@,
                Label::AssignServerGroup,
                "Invalid addservergroup args: "@,
            ),
{
    reveal(asked_by);
    lemma_words();
}

proof fn lemma_delservergroup_word(rest: Seq<char>)
    ensures
        asked_by("delservergroup"@, rest)
            == grammar::server_group_request(
                rest,
                "servergroupdelclient"@,
                Label::RemoveServerGroup,
                "Invalid delservergroup args: "@,
            ),
{
    reveal(asked_by);
    lemma_words();
}

proof fn lemma_ftlist_word(rest: Seq<char>)
    ensures
        asked_by("ftlist"@, rest) == grammar::file_list_request(rest),
{
    reveal(asked_by);
    lemma_words();
}

proof fn lemma_ftmkdir_word(rest: Seq<char>)
    ensures
        asked_by("ftmkdir"@, rest) == match grammar::channel_and_name(rest) {
            Ok((channel, name)) => RequestView::MakeDirectory { channel, name },
            Err(id) => grammar::refusal("Invalid channel id: "@, id),
        },
{
    reveal(asked_by);
    lemma_words();
}

proof fn lemma_ftdelete_word(rest: Seq<char>)
    ensures
        asked_by("ftdelete"@, rest) == match grammar::channel_and_name(rest) {
            Ok((channel, name)) => RequestView::DeleteFile { channel, name },
            Err(id) => grammar::refusal("Invalid channel id: "@, id),
        },
{
    reveal(asked_by);
    lemma_words();
}

proof fn lemma_ftrename_word(rest: Seq<char>)
    ensures
        asked_by("ftrename"@, rest) == grammar::rename_request(rest),
{
    reveal(asked_by);
    lemma_words();
}

proof fn lemma_ftdownload_word(rest: Seq<char>)
    ensures
        asked_by("ftdownload"@, rest) == match grammar::channel_and_name(rest) {
            Ok((channel, path)) => RequestView::Download { channel, path },
            Err(id) => grammar::refusal("Invalid channel id: "@, id),
        },
{
    reveal(asked_by);
    lemma_words();
}

proof fn lemma_permlist_word(rest: Seq<char>)
    ensures
        asked_by("permlist"@, rest) == grammar::permission_list_request(rest),
{
    reveal(asked_by);
    lemma_words();
}

proof fn lemma_permadd_word(rest: Seq<char>)
    ensures
        asked_by("permadd"@, rest) == grammar::permission_add_request(rest),
{
    reveal(asked_by);
    lemma_words();
}

proof fn lemma_permdel_word(rest: Seq<char>)
    ensures
        asked_by("permdel"@, rest) == grammar::permission_delete_request(rest),
{
    reveal(asked_by);
    lemma_words();
}

proof fn lemma_audio_word(rest: Seq<char>)
    ensures
        asked_by("audio"@, rest) == grammar::audio_request(rest),
{
    reveal(asked_by);
    lemma_words();
}


proof fn lemma_ban_line(client: nat, seconds: u64, reason: Seq<char>)
    requires
        is_solid(reason),
    ensures
        read(line_of(seq!["banclient"@, dec(client), dec(seconds as nat), reason])) == if client
            <= 65535 {
            awaited(
                "banclient"@,
                if seconds > 0 {
                    seq![
                        ("clid"@, dec(client)),
                        ("time"@, dec(seconds as nat)),
                        ("banreason"@, reason),
                    ]
                } else {
                    seq![("clid"@, dec(client)), ("banreason"@, reason)]
                },
                Label::BanClient,
            )
        } else {
            RequestView::Refused("Invalid client id: "@ + dec(client))
        },
{
    let word = "banclient"@;
    reveal_strlit("banclient");
    assert(is_argument(word));
    let arguments = seq![dec(client), dec(seconds as nat), reason];
    assert(seq![word] + arguments =~= seq![word, dec(client), dec(seconds as nat), reason]);
    let rest = split::joined(arguments, ' ');
    lemma_joined(dec(client), dec(seconds as nat), reason, ' ');
    lemma_id(client);
    lemma_id(seconds as nat);
    lemma_argument(reason);
    assert(rest.last() == reason.last());
    lemma_line(word, arguments);
    lemma_banclient_word(split::joined(arguments, ' '));
    lemma_first_pieces(arguments, 3, ' ');
    let p = split::first_pieces(rest, 3, ' ');
    assert(grammar::nth(p, 0) == dec(client));
    assert(grammar::nth(p, 1) == dec(seconds as nat));
    assert(grammar::nth(p, 2) == reason);
    if client <= 65535 {
        let command = grammar::ban_command(client as u16, seconds, reason);
        assert(command.arguments =~= if seconds > 0 {
            seq![
                ("clid"@, dec(client)),
                ("time"@, dec(seconds as nat)),
                ("banreason"@, reason),
            ]
        } else {
            seq![("clid"@, dec(client)), ("banreason"@, reason)]
        });
    }
}

/// A ban goes out with the client, the time where it is not zero and the reason,
/// all as they were typed.
pub proof fn law_ban_line(client: nat, seconds: u64, reason: Seq<char>)
    requires
        is_solid(reason),
    ensures
        request_of(line_of(seq!["banclient"@, dec(client), dec(seconds as nat), reason]))
            == if client
            <= 65535 {
            awaited(
                "banclient"@,
                if seconds > 0 {
                    seq![
                        ("clid"@, dec(client)),
                        ("time"@, dec(seconds as nat)),
                        ("banreason"@, reason),
                    ]
                } else {
                    seq![("clid"@, dec(client)), ("banreason"@, reason)]
                },
                Label::BanClient,
            )
        } else {
            RequestView::Refused("Invalid client id: "@ + dec(client))
        },
{
    lemma_ban_line(client, seconds, reason);
    reveal(read);
}

proof fn lemma_short_ban_line(client: u16, time: Seq<char>)
    requires
        is_argument(time),
        grammar::u64_of(time) is None,
    ensures
        read(line_of(seq!["banclient"@, dec(client as nat)]))
            == awaited("banclient"@, seq![("clid"@, dec(client as nat))], Label::BanClient),
        read(line_of(seq!["banclient"@, dec(client as nat), time]))
            == awaited("banclient"@, seq![("clid"@, dec(client as nat))], Label::BanClient),
{
    let word = "banclient"@;
    reveal_strlit("banclient");
    assert(is_argument(word));
    let arguments = seq![dec(client as nat)];
    assert(seq![word] + arguments =~= seq![word, dec(client as nat)]);
    let rest = split::joined(arguments, ' ');
    lemma_joined(dec(client as nat), word, word, ' ');
    assert(rest == dec(client as nat));
    lemma_id(client as nat);
    assert(rest.last() == dec(client as nat).last());
    lemma_line(word, arguments);
    lemma_banclient_word(split::joined(arguments, ' '));
    lemma_first_pieces(arguments, 3, ' ');
    let p = split::first_pieces(rest, 3, ' ');
    assert(p == arguments);
    assert(grammar::nth(p, 0) == dec(client as nat));
    assert(grammar::nth(p, 1) == Seq::<char>::empty());
    assert(chars::trimmed(Seq::<char>::empty()) == Seq::<char>::empty());
    assert(grammar::nth(p, 2) == Seq::<char>::empty());
    assert(chars::trimmed(Seq::<char>::empty()) == Seq::<char>::empty());
    number_of_nothing();
    assert(grammar::ban_command(client, 0, Seq::empty()).arguments =~= seq![
        ("clid"@, dec(client as nat)),
    ]);
    lemma_short_ban(client, time);
}

/// Without a time and a reason a ban is for good and gives none; with a reason
/// only behind a time, what stands in the place of the time is no reason.
pub proof fn law_short_ban_line(client: u16, time: Seq<char>)
    requires
        is_argument(time),
        grammar::u64_of(time) is None,
    ensures
        request_of(line_of(seq!["banclient"@, dec(client as nat)]))
            == awaited("banclient"@, seq![("clid"@, dec(client as nat))], Label::BanClient),
        request_of(line_of(seq!["banclient"@, dec(client as nat), time]))
            == awaited("banclient"@, seq![("clid"@, dec(client as nat))], Label::BanClient),
{
    lemma_short_ban_line(client, time);
    reveal(read);
}

proof fn number_of_nothing()
    ensures
        grammar::u64_of(Seq::empty()) is None,
        grammar::u16_of(Seq::empty()) is None,
        grammar::u32_of(Seq::empty()) is None,
        chars::trimmed(Seq::empty()) == Seq::<char>::empty(),
{
}

proof fn lemma_short_ban(client: u16, time: Seq<char>)
    requires
        is_argument(time),
        grammar::u64_of(time) is None,
    ensures
        read(line_of(seq!["banclient"@, dec(client as nat), time]))
            == awaited("banclient"@, seq![("clid"@, dec(client as nat))], Label::BanClient),
{
    let word = "banclient"@;
    reveal_strlit("banclient");
    assert(is_argument(word));
    let arguments = seq![dec(client as nat), time];
    assert(seq![word] + arguments =~= seq![word, dec(client as nat), time]);
    let rest = split::joined(arguments, ' ');
    lemma_joined(dec(client as nat), time, word, ' ');
    lemma_id(client as nat);
    lemma_argument(time);
    assert(rest.last() == time.last());
    lemma_line(word, arguments);
    lemma_banclient_word(split::joined(arguments, ' '));
    lemma_first_pieces(arguments, 3, ' ');
    let p = split::first_pieces(rest, 3, ' ');
    assert(p == arguments);
    assert(grammar::nth(p, 0) == dec(client as nat));
    assert(grammar::nth(p, 1) == time);
    assert(grammar::nth(p, 2) == Seq::<char>::empty());
    assert(chars::trimmed(Seq::<char>::empty()) == Seq::<char>::empty());
    assert(grammar::ban_command(client, 0, Seq::empty()).arguments =~= seq![
        ("clid"@, dec(client as nat)),
    ]);
}

proof fn lemma_disconnect_line(message: Seq<char>)
    requires
        is_solid(message),
    ensures
        read(line_of(seq!["disconnect"@, message])) == RequestView::Disconnect(Some(message)),
{
    let word = "disconnect"@;
    reveal_strlit("disconnect");
    assert(is_argument(word));
    let arguments = seq![message];
    assert(seq![word] + arguments =~= seq![word, message]);
    let rest = split::joined(arguments, ' ');
    lemma_joined(message, word, word, ' ');
    assert(rest == message);
    lemma_argument(message);
    assert(rest.last() == message.last());
    lemma_line(word, arguments);
    lemma_disconnect_word(split::joined(arguments, ' '));
}

/// Leaving passes the farewell on.
pub proof fn law_disconnect_line(message: Seq<char>)
    requires
        is_solid(message),
    ensures
        request_of(line_of(seq!["disconnect"@, message])) == RequestView::Disconnect(Some(message)),
{
    lemma_disconnect_line(message);
    reveal(read);
}

proof fn lemma_switch_line(channel: nat)
    ensures
        read(line_of(seq!["switch"@, dec(channel)])) == if channel <= u64::MAX {
            (RequestView::Switch { channel: channel as u64, password: None })
        } else {
            RequestView::Refused("Invalid channel id: "@ + dec(channel))
        },
{
    let word = "switch"@;
    reveal_strlit("switch");
    assert(is_argument(word));
    let arguments = seq![dec(channel)];
    assert(seq![word] + arguments =~= seq![word, dec(channel)]);
    let rest = split::joined(arguments, ' ');
    lemma_joined(dec(channel), word, word, ' ');
    assert(rest == dec(channel));
    lemma_id(channel);
    assert(rest.last() == dec(channel).last());
    lemma_line(word, arguments);
    lemma_switch_word(split::joined(arguments, ' '));
    assert(rest[0] == dec(channel)[0]);
    chars::lemma_trimmed(rest);
    lemma_first_pieces(arguments, 2, ' ');
    let p = split::first_pieces(rest, 2, ' ');
    assert(p == arguments);
    assert(grammar::nth(p, 0) == dec(channel));
    assert(grammar::nth(p, 1) == Seq::<char>::empty());
    assert(chars::trimmed(Seq::<char>::empty()) == Seq::<char>::empty());
}

/// A switch names the channel, up to the largest id there is; without a second
/// argument there is no password.
pub proof fn law_switch_line(channel: nat)
    ensures
        request_of(line_of(seq!["switch"@, dec(channel)])) == if channel <= u64::MAX {
            (RequestView::Switch { channel: channel as u64, password: None })
        } else {
            RequestView::Refused("Invalid channel id: "@ + dec(channel))
        },
{
    lemma_switch_line(channel);
    reveal(read);
}

proof fn lemma_chat_line(message: Seq<char>)
    requires
        message.len() > 0,
        !chars::is_white_space(message.last()),
    ensures
        read(line_of(seq!["chat"@, message]))
            == (RequestView::Text { recipient: TextTarget::Channel, message }),
{
    let word = "chat"@;
    reveal_strlit("chat");
    assert(is_argument(word));
    let arguments = seq![message];
    assert(seq![word] + arguments =~= seq![word, message]);
    let rest = split::joined(arguments, ' ');
    lemma_joined(message, word, word, ' ');
    assert(rest == message);
    assert(rest.last() == message.last());
    lemma_line(word, arguments);
    lemma_chat_word(split::joined(arguments, ' '));
}

/// What is said to the channel is said as it was typed, from the first space on.
pub proof fn law_chat_line(message: Seq<char>)
    requires
        message.len() > 0,
        !chars::is_white_space(message.last()),
    ensures
        request_of(line_of(seq!["chat"@, message]))
            == (RequestView::Text { recipient: TextTarget::Channel, message }),
{
    lemma_chat_line(message);
    reveal(read);
}

proof fn lemma_serverchat_line(message: Seq<char>)
    requires
        message.len() > 0,
        !chars::is_white_space(message.last()),
    ensures
        read(line_of(seq!["serverchat"@, message]))
            == (RequestView::Text { recipient: TextTarget::Server, message }),
{
    let word = "serverchat"@;
    reveal_strlit("serverchat");
    assert(is_argument(word));
    let arguments = seq![message];
    assert(seq![word] + arguments =~= seq![word, message]);
    let rest = split::joined(arguments, ' ');
    lemma_joined(message, word, word, ' ');
    assert(rest == message);
    assert(rest.last() == message.last());
    lemma_line(word, arguments);
    lemma_serverchat_word(split::joined(arguments, ' '));
}

/// What is said to the server is said as it was typed, from the first space on.
pub proof fn law_serverchat_line(message: Seq<char>)
    requires
        message.len() > 0,
        !chars::is_white_space(message.last()),
    ensures
        request_of(line_of(seq!["serverchat"@, message]))
            == (RequestView::Text { recipient: TextTarget::Server, message }),
{
    lemma_serverchat_line(message);
    reveal(read);
}

proof fn lemma_pm_line(client: nat, message: Seq<char>)
    requires
        message.len() > 0,
        !chars::is_white_space(message.last()),
    ensures
        read(line_of(seq!["pm"@, dec(client), message])) == if client <= 65535 {
            RequestView::Text {
                recipient: TextTarget::Client(client as u16),
                message,
            }
        } else {
            RequestView::Refused("Invalid client id: "@ + dec(client))
        },
{
    let word = "pm"@;
    reveal_strlit("pm");
    assert(is_argument(word));
    let arguments = seq![dec(client), message];
    assert(seq![word] + arguments =~= seq![word, dec(client), message]);
    let rest = split::joined(arguments, ' ');
    lemma_joined(dec(client), message, word, ' ');
    lemma_id(client);
    assert(rest.last() == message.last());
    lemma_line(word, arguments);
    lemma_pm_word(split::joined(arguments, ' '));
    assert(rest[0] == dec(client)[0]);
    chars::lemma_trimmed(rest);
    split::lemma_cut(dec(client), ' ', message);
}

/// A private message reaches the client it names with the rest of the line.
pub proof fn law_pm_line(client: nat, message: Seq<char>)
    requires
        message.len() > 0,
        !chars::is_white_space(message.last()),
    ensures
        request_of(line_of(seq!["pm"@, dec(client), message])) == if client <= 65535 {
            RequestView::Text {
                recipient: TextTarget::Client(client as u16),
                message,
            }
        } else {
            RequestView::Refused("Invalid client id: "@ + dec(client))
        },
{
    lemma_pm_line(client, message);
    reveal(read);
}

proof fn lemma_pm_needs_message(client: Seq<char>)
    requires
        is_argument(client),
    ensures
        read(line_of(seq!["pm"@, client])) == RequestView::Refused("Malformed pm command"@),
{
    let word = "pm"@;
    reveal_strlit("pm");
    assert(is_argument(word));
    let arguments = seq![client];
    assert(seq![word] + arguments =~= seq![word, client]);
    let rest = split::joined(arguments, ' ');
    lemma_joined(client, word, word, ' ');
    assert(rest == client);
    lemma_argument(client);
    assert(rest.last() == client.last());
    lemma_line(word, arguments);
    lemma_pm_word(split::joined(arguments, ' '));
    split::lemma_position_absent(client, ' ');
}

/// A private message without a text is none.
pub proof fn law_pm_needs_message(client: Seq<char>)
    requires
        is_argument(client),
    ensures
        request_of(line_of(seq!["pm"@, client])) == RequestView::Refused("Malformed pm command"@),
{
    lemma_pm_needs_message(client);
    reveal(read);
}

proof fn lemma_poke_line(client: nat, message: Seq<char>)
    requires
        message.len() > 0,
        !chars::is_white_space(message.last()),
    ensures
        read(line_of(seq!["poke"@, dec(client), message])) == if client <= 65535 {
            (RequestView::Poke { client: client as u16, message })
        } else {
            RequestView::Refused("Invalid client id: "@ + dec(client))
        },
{
    let word = "poke"@;
    reveal_strlit("poke");
    assert(is_argument(word));
    let arguments = seq![dec(client), message];
    assert(seq![word] + arguments =~= seq![word, dec(client), message]);
    let rest = split::joined(arguments, ' ');
    lemma_joined(dec(client), message, word, ' ');
    lemma_id(client);
    assert(rest.last() == message.last());
    lemma_line(word, arguments);
    lemma_poke_word(split::joined(arguments, ' '));
    assert(rest[0] == dec(client)[0]);
    chars::lemma_trimmed(rest);
    split::lemma_cut(dec(client), ' ', message);
}

/// A poke reaches the client it names, with a text or without.
pub proof fn law_poke_line(client: nat, message: Seq<char>)
    requires
        message.len() > 0,
        !chars::is_white_space(message.last()),
    ensures
        request_of(line_of(seq!["poke"@, dec(client), message])) == if client <= 65535 {
            (RequestView::Poke { client: client as u16, message })
        } else {
            RequestView::Refused("Invalid client id: "@ + dec(client))
        },
{
    lemma_poke_line(client, message);
    reveal(read);
}

proof fn lemma_bare_poke_line(client: nat)
    ensures
        read(line_of(seq!["poke"@, dec(client)])) == if client <= 65535 {
            (RequestView::Poke { client: client as u16, message: Seq::empty() })
        } else {
            RequestView::Refused("Invalid client id: "@ + dec(client))
        },
{
    let word = "poke"@;
    reveal_strlit("poke");
    assert(is_argument(word));
    let arguments = seq![dec(client)];
    assert(seq![word] + arguments =~= seq![word, dec(client)]);
    let rest = split::joined(arguments, ' ');
    lemma_joined(dec(client), word, word, ' ');
    assert(rest == dec(client));
    lemma_id(client);
    assert(rest.last() == dec(client).last());
    lemma_line(word, arguments);
    lemma_poke_word(split::joined(arguments, ' '));
    split::lemma_position_absent(dec(client), ' ');
}

/// A poke needs no text.
pub proof fn law_bare_poke_line(client: nat)
    ensures
        request_of(line_of(seq!["poke"@, dec(client)])) == if client <= 65535 {
            (RequestView::Poke { client: client as u16, message: Seq::empty() })
        } else {
            RequestView::Refused("Invalid client id: "@ + dec(client))
        },
{
    lemma_bare_poke_line(client);
    reveal(read);
}

proof fn lemma_move_line(client: nat, channel: nat)
    ensures
        read(line_of(seq!["moveclient"@, dec(client), dec(channel)]))
            == if client <= 65535 && channel <= u64::MAX {
            RequestView::MoveClient {
                client: client as u16,
                channel: channel as u64,
                password: None,
            }
        } else {
            RequestView::Refused(
                "Malformed moveclient command: "@ + (dec(client).push(' ') + dec(channel)),
            )
        },
{
    let word = "moveclient"@;
    reveal_strlit("moveclient");
    assert(is_argument(word));
    let arguments = seq![dec(client), dec(channel)];
    assert(seq![word] + arguments =~= seq![word, dec(client), dec(channel)]);
    let rest = split::joined(arguments, ' ');
    lemma_joined(dec(client), dec(channel), word, ' ');
    lemma_id(client);
    lemma_id(channel);
    assert(rest.last() == dec(channel).last());
    lemma_line(word, arguments);
    lemma_moveclient_word(split::joined(arguments, ' '));
    assert(rest[0] == dec(client)[0]);
    chars::lemma_trimmed(rest);
    lemma_first_pieces(arguments, 3, ' ');
    let p = split::first_pieces(rest, 3, ' ');
    assert(p == arguments);
    assert(grammar::nth(p, 0) == dec(client));
    assert(grammar::nth(p, 1) == dec(channel));
    assert(grammar::nth(p, 2) == Seq::<char>::empty());
    assert(chars::trimmed(Seq::<char>::empty()) == Seq::<char>::empty());
}

/// A client is moved to the channel named, both ids within their bounds; without
/// a third argument there is no password.
pub proof fn law_move_line(client: nat, channel: nat)
    ensures
        request_of(line_of(seq!["moveclient"@, dec(client), dec(channel)]))
            == if client <= 65535 && channel <= u64::MAX {
            RequestView::MoveClient {
                client: client as u16,
                channel: channel as u64,
                password: None,
            }
        } else {
            RequestView::Refused(
                "Malformed moveclient command: "@ + (dec(client).push(' ') + dec(channel)),
            )
        },
{
    lemma_move_line(client, channel);
    reveal(read);
}

proof fn lemma_away_line(message: Seq<char>)
    requires
        is_solid(message),
    ensures
        read(line_of(seq!["away"@, message])) == RequestView::Away(Some(message)),
{
    let word = "away"@;
    reveal_strlit("away");
    assert(is_argument(word));
    let arguments = seq![message];
    assert(seq![word] + arguments =~= seq![word, message]);
    let rest = split::joined(arguments, ' ');
    lemma_joined(message, word, word, ' ');
    assert(rest == message);
    lemma_argument(message);
    assert(rest.last() == message.last());
    lemma_line(word, arguments);
    lemma_away_word(split::joined(arguments, ' '));
}

/// Being away keeps the message.
pub proof fn law_away_line(message: Seq<char>)
    requires
        is_solid(message),
    ensures
        request_of(line_of(seq!["away"@, message])) == RequestView::Away(Some(message)),
{
    lemma_away_line(message);
    reveal(read);
}

proof fn lemma_nickname_line(name: Seq<char>)
    requires
        is_solid(name),
    ensures
        read(line_of(seq!["nickname"@, name])) == RequestView::Nickname(name),
{
    let word = "nickname"@;
    reveal_strlit("nickname");
    assert(is_argument(word));
    let arguments = seq![name];
    assert(seq![word] + arguments =~= seq![word, name]);
    let rest = split::joined(arguments, ' ');
    lemma_joined(name, word, word, ' ');
    assert(rest == name);
    lemma_argument(name);
    assert(rest.last() == name.last());
    lemma_line(word, arguments);
    lemma_nickname_word(split::joined(arguments, ' '));
}

/// A new name is taken as it was typed.
pub proof fn law_nickname_line(name: Seq<char>)
    requires
        is_solid(name),
    ensures
        request_of(line_of(seq!["nickname"@, name])) == RequestView::Nickname(name),
{
    lemma_nickname_line(name);
    reveal(read);
}

proof fn lemma_muteinput_line(flag: Seq<char>)
    requires
        is_solid(flag),
    ensures
        read(line_of(seq!["muteinput"@, flag])) == RequestView::MuteInput(flag == seq!['1']),
{
    let word = "muteinput"@;
    reveal_strlit("muteinput");
    assert(is_argument(word));
    let arguments = seq![flag];
    assert(seq![word] + arguments =~= seq![word, flag]);
    let rest = split::joined(arguments, ' ');
    lemma_joined(flag, word, word, ' ');
    assert(rest == flag);
    lemma_argument(flag);
    assert(rest.last() == flag.last());
    lemma_line(word, arguments);
    lemma_muteinput_word(split::joined(arguments, ' '));
    reveal_strlit("1");
    assert("1"@ =~= seq!['1']);
}

/// The microphone is muted by a one and by nothing else.
pub proof fn law_muteinput_line(flag: Seq<char>)
    requires
        is_solid(flag),
    ensures
        request_of(line_of(seq!["muteinput"@, flag])) == RequestView::MuteInput(flag == seq!['1']),
{
    lemma_muteinput_line(flag);
    reveal(read);
}

proof fn lemma_muteoutput_line(flag: Seq<char>)
    requires
        is_solid(flag),
    ensures
        read(line_of(seq!["muteoutput"@, flag])) == RequestView::MuteOutput(flag == seq!['1']),
{
    let word = "muteoutput"@;
    reveal_strlit("muteoutput");
    assert(is_argument(word));
    let arguments = seq![flag];
    assert(seq![word] + arguments =~= seq![word, flag]);
    let rest = split::joined(arguments, ' ');
    lemma_joined(flag, word, word, ' ');
    assert(rest == flag);
    lemma_argument(flag);
    assert(rest.last() == flag.last());
    lemma_line(word, arguments);
    lemma_muteoutput_word(split::joined(arguments, ' '));
    reveal_strlit("1");
    assert("1"@ =~= seq!['1']);
}

/// The speaker is muted by a one and by nothing else.
pub proof fn law_muteoutput_line(flag: Seq<char>)
    requires
        is_solid(flag),
    ensures
        request_of(line_of(seq!["muteoutput"@, flag]))
            == RequestView::MuteOutput(flag == seq!['1']),
{
    lemma_muteoutput_line(flag);
    reveal(read);
}

/// The numbers as texts.
pub open spec fn decs(numbers: Seq<u64>) -> Seq<Seq<char>> {
    numbers.map_values(|n: u64| dec(n as nat))
}

pub open spec fn short_decs(numbers: Seq<u16>) -> Seq<Seq<char>> {
    numbers.map_values(|n: u16| dec(n as nat))
}

proof fn lemma_numbers(numbers: Seq<u64>)
    ensures
        grammar::u64s_of(decs(numbers)) == numbers,
    decreases numbers.len(),
{
    let p = decs(numbers);
    if numbers.len() > 0 {
        lemma_numbers(numbers.drop_last());
        assert(p.drop_last() =~= decs(numbers.drop_last()));
        lemma_id(numbers.last() as nat);
        assert(p.last() == dec(numbers.last() as nat));
        assert(numbers =~= numbers.drop_last().push(numbers.last()));
    } else {
        assert(numbers =~= Seq::empty());
    }
}

proof fn lemma_short_numbers(numbers: Seq<u16>)
    ensures
        grammar::u16s_of(short_decs(numbers)) == numbers,
    decreases numbers.len(),
{
    let p = short_decs(numbers);
    if numbers.len() > 0 {
        lemma_short_numbers(numbers.drop_last());
        assert(p.drop_last() =~= short_decs(numbers.drop_last()));
        lemma_id(numbers.last() as nat);
        assert(p.last() == dec(numbers.last() as nat));
        assert(numbers =~= numbers.drop_last().push(numbers.last()));
    } else {
        assert(numbers =~= Seq::empty());
    }
}

/// Numbers with commas between them hold nothing but digits and commas.
proof fn lemma_listed(parts: Seq<Seq<char>>)
    requires
        forall|i: int|
            0 <= i < parts.len() ==> exists|n: nat| #[trigger] parts[i] == dec(n),
    ensures
        split::lacks(split::joined(parts, ','), ';'),
        parts.len() > 0 ==> is_solid(split::joined(parts, ',')),
        parts.len() == 0 ==> split::joined(parts, ',') == Seq::<char>::empty(),
        forall|i: int| 0 <= i < parts.len() ==> split::lacks(#[trigger] parts[i], ','),
    decreases parts.len(),
{
    assert forall|i: int| 0 <= i < parts.len() implies split::lacks(#[trigger] parts[i], ',') by {
        let n = choose|n: nat| parts[i] == dec(n);
        lemma_id(n);
    }
    if parts.len() > 0 {
        let n = choose|n: nat| parts[0] == dec(n);
        lemma_id(n);
        let rest = parts.skip(1);
        assert forall|i: int| 0 <= i < rest.len() implies exists|n: nat|
            #[trigger] rest[i] == dec(n) by {
            assert(rest[i] == parts[i + 1]);
        }
        lemma_listed(rest);
    }
}

proof fn lemma_whisper_line(channels: Seq<u64>, clients: Seq<u16>)
    ensures
        read(
            "whisper "@ + split::joined(decs(channels), ',') + ";"@ + split::joined(
                short_decs(clients),
                ',',
            ),
        ) == (RequestView::Whisper { channels, clients }),
{
    let a = split::joined(decs(channels), ',');
    let b = split::joined(short_decs(clients), ',');
    reveal_strlit("whisper ");
    reveal_strlit("whisper");
    reveal_strlit(";");
    let word = "whisper"@;
    assert(is_argument(word));
    let rest = a.push(';') + b;
    let arguments = seq![rest];
    assert(seq![word] + arguments =~= seq![word, rest]);
    lemma_joined(word, rest, rest, ' ');
    lemma_joined(rest, rest, rest, ' ');
    assert("whisper "@ + a + ";"@ + b =~= line_of(seq![word, rest]));
    assert forall|i: int| 0 <= i < decs(channels).len() implies exists|n: nat|
        #[trigger] decs(channels)[i] == dec(n) by {
        assert(decs(channels)[i] == dec(channels[i] as nat));
    }
    assert forall|i: int| 0 <= i < short_decs(clients).len() implies exists|n: nat|
        #[trigger] short_decs(clients)[i] == dec(n) by {
        assert(short_decs(clients)[i] == dec(clients[i] as nat));
    }
    lemma_listed(decs(channels));
    lemma_listed(short_decs(clients));
    if clients.len() > 0 {
        assert(rest.last() == b.last());
    } else {
        assert(rest.last() == ';');
    }
    lemma_line(word, arguments);
    lemma_whisper_word(rest);
    lemma_joined(a, b, b, ';');
    lemma_first_pieces(seq![a, b], 2, ';');
    lemma_numbers(channels);
    lemma_short_numbers(clients);
    if channels.len() > 0 {
        split::law_joined_parts_split_again(decs(channels), ',');
    } else {
        lemma_no_numbers(a);
        assert(channels =~= Seq::empty());
    }
    if clients.len() > 0 {
        split::law_joined_parts_split_again(short_decs(clients), ',');
    } else {
        lemma_no_numbers(b);
        assert(clients =~= Seq::empty());
    }
}

/// A whisper reaches the channels and the clients that it lists, each in its
/// order, and either list may be empty.
pub proof fn law_whisper_line(channels: Seq<u64>, clients: Seq<u16>)
    ensures
        request_of(
            "whisper "@ + split::joined(decs(channels), ',') + ";"@ + split::joined(
                short_decs(clients),
                ',',
            ),
        ) == (RequestView::Whisper { channels, clients }),
{
    lemma_whisper_line(channels, clients);
    reveal(read);
}

proof fn lemma_no_numbers(s: Seq<char>)
    requires
        s.len() == 0,
    ensures
        grammar::u64s_of(split::pieces(s, ',')) == Seq::<u64>::empty(),
        grammar::u16s_of(split::pieces(s, ',')) == Seq::<u16>::empty(),
{
    assert(s =~= Seq::empty());
    number_of_nothing();
    let p = split::pieces(s, ',');
    assert(p =~= seq![s]);
    assert(p.drop_last() =~= Seq::empty());
    assert(grammar::u64s_of(p.drop_last()) == Seq::<u64>::empty());
    assert(grammar::u16s_of(p.drop_last()) == Seq::<u16>::empty());
}

proof fn lemma_client_info_line(client: nat)
    ensures
        read(line_of(seq!["clientconninfo"@, dec(client)])) == if client <= 65535 {
            RequestView::ClientInfo(client as u16)
        } else {
            RequestView::Refused("Invalid client id: "@ + dec(client))
        },
{
    let word = "clientconninfo"@;
    reveal_strlit("clientconninfo");
    assert(is_argument(word));
    let arguments = seq![dec(client)];
    assert(seq![word] + arguments =~= seq![word, dec(client)]);
    let rest = split::joined(arguments, ' ');
    lemma_joined(dec(client), word, word, ' ');
    assert(rest == dec(client));
    lemma_id(client);
    assert(rest.last() == dec(client).last());
    lemma_line(word, arguments);
    lemma_clientconninfo_word(split::joined(arguments, ' '));
}

/// The client asked about is the one named.
pub proof fn law_client_info_line(client: nat)
    ensures
        request_of(line_of(seq!["clientconninfo"@, dec(client)])) == if client <= 65535 {
            RequestView::ClientInfo(client as u16)
        } else {
            RequestView::Refused("Invalid client id: "@ + dec(client))
        },
{
    lemma_client_info_line(client);
    reveal(read);
}

proof fn lemma_kickchannel_line(client: nat, reason: Seq<char>)
    requires
        is_solid(reason),
    ensures
        read(line_of(seq!["kickchannel"@, dec(client), reason])) == if client <= 65535 {
            RequestView::Kick {
                client: client as u16,
                place: KickPlace::Channel,
                reason: Some(reason),
            }
        } else {
            RequestView::Refused("Invalid client id: "@ + dec(client))
        },
{
    let word = "kickchannel"@;
    reveal_strlit("kickchannel");
    assert(is_argument(word));
    let arguments = seq![dec(client), reason];
    assert(seq![word] + arguments =~= seq![word, dec(client), reason]);
    let rest = split::joined(arguments, ' ');
    lemma_joined(dec(client), reason, word, ' ');
    lemma_id(client);
    lemma_argument(reason);
    assert(rest.last() == reason.last());
    lemma_line(word, arguments);
    lemma_kickchannel_word(split::joined(arguments, ' '));
    lemma_first_pieces(arguments, 2, ' ');
    let p = split::first_pieces(rest, 2, ' ');
    assert(p == arguments);
    assert(grammar::nth(p, 0) == dec(client));
    assert(grammar::nth(p, 1) == reason);
}

/// A client is kicked out of its channel, for the reason typed.
pub proof fn law_kickchannel_line(client: nat, reason: Seq<char>)
    requires
        is_solid(reason),
    ensures
        request_of(line_of(seq!["kickchannel"@, dec(client), reason])) == if client <= 65535 {
            RequestView::Kick {
                client: client as u16,
                place: KickPlace::Channel,
                reason: Some(reason),
            }
        } else {
            RequestView::Refused("Invalid client id: "@ + dec(client))
        },
{
    lemma_kickchannel_line(client, reason);
    reveal(read);
}

proof fn lemma_bare_kickchannel_line(client: nat)
    ensures
        read(line_of(seq!["kickchannel"@, dec(client)])) == if client <= 65535 {
            (RequestView::Kick { client: client as u16, place: KickPlace::Channel, reason: None })
        } else {
            RequestView::Refused("Invalid client id: "@ + dec(client))
        },
{
    let word = "kickchannel"@;
    reveal_strlit("kickchannel");
    assert(is_argument(word));
    let arguments = seq![dec(client)];
    assert(seq![word] + arguments =~= seq![word, dec(client)]);
    let rest = split::joined(arguments, ' ');
    lemma_joined(dec(client), word, word, ' ');
    assert(rest == dec(client));
    lemma_id(client);
    assert(rest.last() == dec(client).last());
    lemma_line(word, arguments);
    lemma_kickchannel_word(split::joined(arguments, ' '));
    lemma_first_pieces(arguments, 2, ' ');
    let p = split::first_pieces(rest, 2, ' ');
    assert(p == arguments);
    assert(grammar::nth(p, 0) == dec(client));
    assert(grammar::nth(p, 1) == Seq::<char>::empty());
    assert(chars::trimmed(Seq::<char>::empty()) == Seq::<char>::empty());
}

/// Kicking a client out of its channel needs no reason.
pub proof fn law_bare_kickchannel_line(client: nat)
    ensures
        request_of(line_of(seq!["kickchannel"@, dec(client)])) == if client <= 65535 {
            (RequestView::Kick { client: client as u16, place: KickPlace::Channel, reason: None })
        } else {
            RequestView::Refused("Invalid client id: "@ + dec(client))
        },
{
    lemma_bare_kickchannel_line(client);
    reveal(read);
}

proof fn lemma_kickserver_line(client: nat, reason: Seq<char>)
    requires
        is_solid(reason),
    ensures
        read(line_of(seq!["kickserver"@, dec(client), reason])) == if client <= 65535 {
            RequestView::Kick {
                client: client as u16,
                place: KickPlace::Server,
                reason: Some(reason),
            }
        } else {
            RequestView::Refused("Invalid client id: "@ + dec(client))
        },
{
    let word = "kickserver"@;
    reveal_strlit("kickserver");
    assert(is_argument(word));
    let arguments = seq![dec(client), reason];
    assert(seq![word] + arguments =~= seq![word, dec(client), reason]);
    let rest = split::joined(arguments, ' ');
    lemma_joined(dec(client), reason, word, ' ');
    lemma_id(client);
    lemma_argument(reason);
    assert(rest.last() == reason.last());
    lemma_line(word, arguments);
    lemma_kickserver_word(split::joined(arguments, ' '));
    lemma_first_pieces(arguments, 2, ' ');
    let p = split::first_pieces(rest, 2, ' ');
    assert(p == arguments);
    assert(grammar::nth(p, 0) == dec(client));
    assert(grammar::nth(p, 1) == reason);
}

/// A client is kicked out of the server, for the reason typed.
pub proof fn law_kickserver_line(client: nat, reason: Seq<char>)
    requires
        is_solid(reason),
    ensures
        request_of(line_of(seq!["kickserver"@, dec(client), reason])) == if client <= 65535 {
            RequestView::Kick {
                client: client as u16,
                place: KickPlace::Server,
                reason: Some(reason),
            }
        } else {
            RequestView::Refused("Invalid client id: "@ + dec(client))
        },
{
    lemma_kickserver_line(client, reason);
    reveal(read);
}

proof fn lemma_bare_kickserver_line(client: nat)
    ensures
        read(line_of(seq!["kickserver"@, dec(client)])) == if client <= 65535 {
            (RequestView::Kick { client: client as u16, place: KickPlace::Server, reason: None })
        } else {
            RequestView::Refused("Invalid client id: "@ + dec(client))
        },
{
    let word = "kickserver"@;
    reveal_strlit("kickserver");
    assert(is_argument(word));
    let arguments = seq![dec(client)];
    assert(seq![word] + arguments =~= seq![word, dec(client)]);
    let rest = split::joined(arguments, ' ');
    lemma_joined(dec(client), word, word, ' ');
    assert(rest == dec(client));
    lemma_id(client);
    assert(rest.last() == dec(client).last());
    lemma_line(word, arguments);
    lemma_kickserver_word(split::joined(arguments, ' '));
    lemma_first_pieces(arguments, 2, ' ');
    let p = split::first_pieces(rest, 2, ' ');
    assert(p == arguments);
    assert(grammar::nth(p, 0) == dec(client));
    assert(grammar::nth(p, 1) == Seq::<char>::empty());
    assert(chars::trimmed(Seq::<char>::empty()) == Seq::<char>::empty());
}

/// Kicking a client out of the server needs no reason.
pub proof fn law_bare_kickserver_line(client: nat)
    ensures
        request_of(line_of(seq!["kickserver"@, dec(client)])) == if client <= 65535 {
            (RequestView::Kick { client: client as u16, place: KickPlace::Server, reason: None })
        } else {
            RequestView::Refused("Invalid client id: "@ + dec(client))
        },
{
    lemma_bare_kickserver_line(client);
    reveal(read);
}

proof fn lemma_serveredit_line(json: Seq<char>)
    requires
        json.len() > 0,
        !chars::is_white_space(json.last()),
    ensures
        read(line_of(seq!["serveredit"@, json])) == RequestView::ServerEdit(json),
{
    let word = "serveredit"@;
    reveal_strlit("serveredit");
    assert(is_argument(word));
    let arguments = seq![json];
    assert(seq![word] + arguments =~= seq![word, json]);
    let rest = split::joined(arguments, ' ');
    lemma_joined(json, word, word, ' ');
    assert(rest == json);
    assert(rest.last() == json.last());
    lemma_line(word, arguments);
    lemma_serveredit_word(split::joined(arguments, ' '));
}

/// The settings of the server go on as typed.
pub proof fn law_serveredit_line(json: Seq<char>)
    requires
        json.len() > 0,
        !chars::is_white_space(json.last()),
    ensures
        request_of(line_of(seq!["serveredit"@, json])) == RequestView::ServerEdit(json),
{
    lemma_serveredit_line(json);
    reveal(read);
}

proof fn lemma_streamsetup_line(json: Seq<char>)
    requires
        json.len() > 0,
        !chars::is_white_space(json.last()),
    ensures
        read(line_of(seq!["streamsetup"@, json])) == RequestView::StreamSetup(json),
{
    let word = "streamsetup"@;
    reveal_strlit("streamsetup");
    assert(is_argument(word));
    let arguments = seq![json];
    assert(seq![word] + arguments =~= seq![word, json]);
    let rest = split::joined(arguments, ' ');
    lemma_joined(json, word, word, ' ');
    assert(rest == json);
    assert(rest.last() == json.last());
    lemma_line(word, arguments);
    lemma_streamsetup_word(split::joined(arguments, ' '));
}

/// The stream to announce goes on as typed.
pub proof fn law_streamsetup_line(json: Seq<char>)
    requires
        json.len() > 0,
        !chars::is_white_space(json.last()),
    ensures
        request_of(line_of(seq!["streamsetup"@, json])) == RequestView::StreamSetup(json),
{
    lemma_streamsetup_line(json);
    reveal(read);
}

proof fn lemma_streamrespond_line(json: Seq<char>)
    requires
        json.len() > 0,
        !chars::is_white_space(json.last()),
    ensures
        read(line_of(seq!["streamrespond"@, json])) == RequestView::StreamRespond(json),
{
    let word = "streamrespond"@;
    reveal_strlit("streamrespond");
    assert(is_argument(word));
    let arguments = seq![json];
    assert(seq![word] + arguments =~= seq![word, json]);
    let rest = split::joined(arguments, ' ');
    lemma_joined(json, word, word, ' ');
    assert(rest == json);
    assert(rest.last() == json.last());
    lemma_line(word, arguments);
    lemma_streamrespond_word(split::joined(arguments, ' '));
}

/// The reply to a viewer goes on as typed.
pub proof fn law_streamrespond_line(json: Seq<char>)
    requires
        json.len() > 0,
        !chars::is_white_space(json.last()),
    ensures
        request_of(line_of(seq!["streamrespond"@, json])) == RequestView::StreamRespond(json),
{
    lemma_streamrespond_line(json);
    reveal(read);
}

proof fn lemma_stream_info_line(client: nat)
    ensures
        read(line_of(seq!["streaminfo"@, dec(client)])) == if client <= 65535 {
            unawaited("requeststreaminfo"@, seq![("clid"@, dec(client))])
        } else {
            RequestView::Refused("Invalid client id: "@ + dec(client))
        },
{
    let word = "streaminfo"@;
    reveal_strlit("streaminfo");
    assert(is_argument(word));
    let arguments = seq![dec(client)];
    assert(seq![word] + arguments =~= seq![word, dec(client)]);
    let rest = split::joined(arguments, ' ');
    lemma_joined(dec(client), word, word, ' ');
    assert(rest == dec(client));
    lemma_id(client);
    assert(rest.last() == dec(client).last());
    lemma_line(word, arguments);
    lemma_streaminfo_word(split::joined(arguments, ' '));
    assert(CommandView::named("requeststreaminfo"@).and_number("clid"@, client).arguments =~= seq![
        ("clid"@, dec(client)),
    ]);
}

/// The client whose stream is asked about is the one named.
pub proof fn law_stream_info_line(client: nat)
    ensures
        request_of(line_of(seq!["streaminfo"@, dec(client)])) == if client <= 65535 {
            unawaited("requeststreaminfo"@, seq![("clid"@, dec(client))])
        } else {
            RequestView::Refused("Invalid client id: "@ + dec(client))
        },
{
    lemma_stream_info_line(client);
    reveal(read);
}

proof fn lemma_stream_stop_line(stream: Seq<char>, reason: Seq<char>)
    requires
        is_argument(stream),
        reason.len() > 0,
        !chars::is_white_space(reason.last()),
    ensures
        read(line_of(seq!["streamstop"@, stream, reason]))
            == unawaited("stopstream"@, seq![("id"@, stream), ("reason"@, reason)]),
{
    let word = "streamstop"@;
    reveal_strlit("streamstop");
    assert(is_argument(word));
    let arguments = seq![stream, reason];
    assert(seq![word] + arguments =~= seq![word, stream, reason]);
    let rest = split::joined(arguments, ' ');
    lemma_joined(stream, reason, word, ' ');
    assert(rest.last() == reason.last());
    lemma_line(word, arguments);
    lemma_streamstop_word(split::joined(arguments, ' '));
    lemma_first_pieces(arguments, 2, ' ');
    let p = split::first_pieces(rest, 2, ' ');
    assert(p == arguments);
    assert(grammar::nth(p, 0) == stream);
    assert(grammar::nth(p, 1) == reason);
    assert(CommandView::named("stopstream"@).and("id"@, stream).and("reason"@, reason).arguments
        =~= seq![("id"@, stream), ("reason"@, reason)]);
}

/// A stream is stopped for the reason typed.
pub proof fn law_stream_stop_line(stream: Seq<char>, reason: Seq<char>)
    requires
        is_argument(stream),
        reason.len() > 0,
        !chars::is_white_space(reason.last()),
    ensures
        request_of(line_of(seq!["streamstop"@, stream, reason]))
            == unawaited("stopstream"@, seq![("id"@, stream), ("reason"@, reason)]),
{
    lemma_stream_stop_line(stream, reason);
    reveal(read);
}

proof fn lemma_bare_stream_stop_line(stream: Seq<char>)
    requires
        is_argument(stream),
    ensures
        read(line_of(seq!["streamstop"@, stream]))
            == unawaited("stopstream"@, seq![("id"@, stream), ("reason"@, Seq::<char>::empty())]),
{
    let word = "streamstop"@;
    reveal_strlit("streamstop");
    assert(is_argument(word));
    let arguments = seq![stream];
    assert(seq![word] + arguments =~= seq![word, stream]);
    let rest = split::joined(arguments, ' ');
    lemma_joined(stream, word, word, ' ');
    assert(rest == stream);
    assert(rest.last() == stream.last());
    lemma_line(word, arguments);
    lemma_streamstop_word(split::joined(arguments, ' '));
    lemma_first_pieces(arguments, 2, ' ');
    let p = split::first_pieces(rest, 2, ' ');
    assert(p == arguments);
    assert(grammar::nth(p, 0) == stream);
    assert(grammar::nth(p, 1) == Seq::<char>::empty());
    assert(chars::trimmed(Seq::<char>::empty()) == Seq::<char>::empty());
    assert(CommandView::named("stopstream"@).and("id"@, stream).and("reason"@, Seq::empty()).arguments
        =~= seq![("id"@, stream), ("reason"@, Seq::<char>::empty())]);
}

/// Stopping a stream needs no reason.
pub proof fn law_bare_stream_stop_line(stream: Seq<char>)
    requires
        is_argument(stream),
    ensures
        request_of(line_of(seq!["streamstop"@, stream]))
            == unawaited("stopstream"@, seq![("id"@, stream), ("reason"@, Seq::<char>::empty())]),
{
    lemma_bare_stream_stop_line(stream);
    reveal(read);
}

proof fn lemma_streamjoin_line(stream: Seq<char>, client: nat, message: Seq<char>)
    requires
        is_argument(stream),
        message.len() > 0,
        !chars::is_white_space(message.last()),
    ensures
        read(line_of(seq!["streamjoin"@, stream, dec(client), message])) == if client <= 65535 {
            unawaited(
                "joinstreamrequest"@,
                seq![
                    ("id"@, stream),
                    ("clid"@, dec(client)),
                    ("msg"@, message),
                    ("is_remove"@, seq!['0']),
                ],
            )
        } else {
            RequestView::Refused("Usage: streamjoin <stream-id> <clid> [msg]"@)
        },
{
    let word = "streamjoin"@;
    reveal_strlit("streamjoin");
    assert(is_argument(word));
    let arguments = seq![stream, dec(client), message];
    assert(seq![word] + arguments =~= seq![word, stream, dec(client), message]);
    let rest = split::joined(arguments, ' ');
    lemma_joined(stream, dec(client), message, ' ');
    lemma_id(client);
    assert(rest.last() == message.last());
    lemma_line(word, arguments);
    lemma_streamjoin_word(split::joined(arguments, ' '));
    lemma_first_pieces(arguments, 3, ' ');
    let p = split::first_pieces(rest, 3, ' ');
    assert(p == arguments);
    assert(grammar::nth(p, 0) == stream);
    assert(grammar::nth(p, 1) == dec(client));
    assert(grammar::nth(p, 2) == message);
    lemma_digits();
    if client <= 65535 {
        assert(grammar::join_command(stream, client as u16, message, false).arguments =~= seq![
            ("id"@, stream),
            ("clid"@, dec(client)),
            ("msg"@, message),
            ("is_remove"@, seq!['0']),
        ]);
    }
}

/// Asking to be let into a stream names the stream, its client and the message.
pub proof fn law_streamjoin_line(stream: Seq<char>, client: nat, message: Seq<char>)
    requires
        is_argument(stream),
        message.len() > 0,
        !chars::is_white_space(message.last()),
    ensures
        request_of(line_of(seq!["streamjoin"@, stream, dec(client), message]))
            == if client <= 65535 {
            unawaited(
                "joinstreamrequest"@,
                seq![
                    ("id"@, stream),
                    ("clid"@, dec(client)),
                    ("msg"@, message),
                    ("is_remove"@, seq!['0']),
                ],
            )
        } else {
            RequestView::Refused("Usage: streamjoin <stream-id> <clid> [msg]"@)
        },
{
    lemma_streamjoin_line(stream, client, message);
    reveal(read);
}

proof fn lemma_streamleave_line(stream: Seq<char>, client: nat, message: Seq<char>)
    requires
        is_argument(stream),
        message.len() > 0,
        !chars::is_white_space(message.last()),
    ensures
        read(line_of(seq!["streamleave"@, stream, dec(client), message])) == if client <= 65535 {
            unawaited(
                "joinstreamrequest"@,
                seq![
                    ("id"@, stream),
                    ("clid"@, dec(client)),
                    ("msg"@, message),
                    ("is_remove"@, seq!['1']),
                ],
            )
        } else {
            RequestView::Refused("Usage: streamjoin <stream-id> <clid> [msg]"@)
        },
{
    let word = "streamleave"@;
    reveal_strlit("streamleave");
    assert(is_argument(word));
    let arguments = seq![stream, dec(client), message];
    assert(seq![word] + arguments =~= seq![word, stream, dec(client), message]);
    let rest = split::joined(arguments, ' ');
    lemma_joined(stream, dec(client), message, ' ');
    lemma_id(client);
    assert(rest.last() == message.last());
    lemma_line(word, arguments);
    lemma_streamleave_word(split::joined(arguments, ' '));
    lemma_first_pieces(arguments, 3, ' ');
    let p = split::first_pieces(rest, 3, ' ');
    assert(p == arguments);
    assert(grammar::nth(p, 0) == stream);
    assert(grammar::nth(p, 1) == dec(client));
    assert(grammar::nth(p, 2) == message);
    lemma_digits();
    if client <= 65535 {
        assert(grammar::join_command(stream, client as u16, message, true).arguments =~= seq![
            ("id"@, stream),
            ("clid"@, dec(client)),
            ("msg"@, message),
            ("is_remove"@, seq!['1']),
        ]);
    }
}

/// Leaving a stream names the stream, its client and the message.
pub proof fn law_streamleave_line(stream: Seq<char>, client: nat, message: Seq<char>)
    requires
        is_argument(stream),
        message.len() > 0,
        !chars::is_white_space(message.last()),
    ensures
        request_of(line_of(seq!["streamleave"@, stream, dec(client), message]))
            == if client <= 65535 {
            unawaited(
                "joinstreamrequest"@,
                seq![
                    ("id"@, stream),
                    ("clid"@, dec(client)),
                    ("msg"@, message),
                    ("is_remove"@, seq!['1']),
                ],
            )
        } else {
            RequestView::Refused("Usage: streamjoin <stream-id> <clid> [msg]"@)
        },
{
    lemma_streamleave_line(stream, client, message);
    reveal(read);
}

proof fn lemma_digits()
    ensures
        dec(0) == seq!['0'],
        dec(1) == seq!['1'],
{
}

proof fn lemma_stream_signal_line(stream: Seq<char>, client: nat, json: Seq<char>)
    requires
        is_argument(stream),
        json.len() > 0,
        !chars::is_white_space(json.last()),
    ensures
        read(line_of(seq!["streamsignal"@, stream, dec(client), json])) == if client <= 65535 {
            RequestView::Send {
                command: CommandView {
                    name: "streamsignaling"@,
                    arguments: seq![("id"@, stream), ("clid"@, dec(client)), ("json"@, json)],
                },
                delivery: Delivery { label: Some(Label::StreamSignaling), names_failure: true },
            }
        } else {
            RequestView::Refused("Usage: streamsignal <stream-id> <clid> <json>"@)
        },
{
    let word = "streamsignal"@;
    reveal_strlit("streamsignal");
    assert(is_argument(word));
    let arguments = seq![stream, dec(client), json];
    assert(seq![word] + arguments =~= seq![word, stream, dec(client), json]);
    let rest = split::joined(arguments, ' ');
    lemma_joined(stream, dec(client), json, ' ');
    lemma_id(client);
    assert(rest.last() == json.last());
    lemma_line(word, arguments);
    lemma_streamsignal_word(split::joined(arguments, ' '));
    lemma_first_pieces(arguments, 3, ' ');
    let p = split::first_pieces(rest, 3, ' ');
    assert(p == arguments);
    assert(grammar::nth(p, 0) == stream);
    assert(grammar::nth(p, 1) == dec(client));
    assert(grammar::nth(p, 2) == json);
    assert(CommandView::named("streamsignaling"@).and("id"@, stream).and_number("clid"@, client).and(
        "json"@,
        json,
    ).arguments =~= seq![("id"@, stream), ("clid"@, dec(client)), ("json"@, json)]);
}

/// A signal reaches the client of the stream as typed, and is awaited.
pub proof fn law_stream_signal_line(stream: Seq<char>, client: nat, json: Seq<char>)
    requires
        is_argument(stream),
        json.len() > 0,
        !chars::is_white_space(json.last()),
    ensures
        request_of(line_of(seq!["streamsignal"@, stream, dec(client), json]))
            == if client <= 65535 {
            RequestView::Send {
                command: CommandView {
                    name: "streamsignaling"@,
                    arguments: seq![("id"@, stream), ("clid"@, dec(client)), ("json"@, json)],
                },
                delivery: Delivery { label: Some(Label::StreamSignaling), names_failure: true },
            }
        } else {
            RequestView::Refused("Usage: streamsignal <stream-id> <clid> <json>"@)
        },
{
    lemma_stream_signal_line(stream, client, json);
    reveal(read);
}

proof fn lemma_bandel_line(id: nat)
    ensures
        read(line_of(seq!["bandel"@, dec(id)])) == if id <= u32::MAX {
            awaited("bandel"@, seq![("banid"@, dec(id))], Label::DeleteBan)
        } else {
            RequestView::Refused("Invalid ban id: "@ + dec(id))
        },
{
    let word = "bandel"@;
    reveal_strlit("bandel");
    assert(is_argument(word));
    let arguments = seq![dec(id)];
    assert(seq![word] + arguments =~= seq![word, dec(id)]);
    let rest = split::joined(arguments, ' ');
    lemma_joined(dec(id), word, word, ' ');
    assert(rest == dec(id));
    lemma_id(id);
    assert(rest.last() == dec(id).last());
    lemma_line(word, arguments);
    lemma_bandel_word(split::joined(arguments, ' '));
    assert(
        CommandView::named("bandel"@).and_number("banid"@, id).arguments
            =~= seq![("banid"@, dec(id))]
    );
}

/// A ban is lifted by its id, up to 32 bits.
pub proof fn law_bandel_line(id: nat)
    ensures
        request_of(line_of(seq!["bandel"@, dec(id)])) == if id <= u32::MAX {
            awaited("bandel"@, seq![("banid"@, dec(id))], Label::DeleteBan)
        } else {
            RequestView::Refused("Invalid ban id: "@ + dec(id))
        },
{
    lemma_bandel_line(id);
    reveal(read);
}

proof fn lemma_messageget_line(id: nat)
    ensures
        read(line_of(seq!["messageget"@, dec(id)])) == if id <= u32::MAX {
            awaited("messageget"@, seq![("msgid"@, dec(id))], Label::OfflineMessage)
        } else {
            RequestView::Refused("Invalid message id: "@ + dec(id))
        },
{
    let word = "messageget"@;
    reveal_strlit("messageget");
    assert(is_argument(word));
    let arguments = seq![dec(id)];
    assert(seq![word] + arguments =~= seq![word, dec(id)]);
    let rest = split::joined(arguments, ' ');
    lemma_joined(dec(id), word, word, ' ');
    assert(rest == dec(id));
    lemma_id(id);
    assert(rest.last() == dec(id).last());
    lemma_line(word, arguments);
    lemma_messageget_word(split::joined(arguments, ' '));
    assert(
        CommandView::named("messageget"@).and_number("msgid"@, id).arguments
            =~= seq![("msgid"@, dec(id))]
    );
}

/// An offline message is read by its id, up to 32 bits.
pub proof fn law_messageget_line(id: nat)
    ensures
        request_of(line_of(seq!["messageget"@, dec(id)])) == if id <= u32::MAX {
            awaited("messageget"@, seq![("msgid"@, dec(id))], Label::OfflineMessage)
        } else {
            RequestView::Refused("Invalid message id: "@ + dec(id))
        },
{
    lemma_messageget_line(id);
    reveal(read);
}

proof fn lemma_messagedel_line(id: nat)
    ensures
        read(line_of(seq!["messagedel"@, dec(id)])) == if id <= u32::MAX {
            awaited("messagedel"@, seq![("msgid"@, dec(id))], Label::DeleteOfflineMessage)
        } else {
            RequestView::Refused("Invalid message id: "@ + dec(id))
        },
{
    let word = "messagedel"@;
    reveal_strlit("messagedel");
    assert(is_argument(word));
    let arguments = seq![dec(id)];
    assert(seq![word] + arguments =~= seq![word, dec(id)]);
    let rest = split::joined(arguments, ' ');
    lemma_joined(dec(id), word, word, ' ');
    assert(rest == dec(id));
    lemma_id(id);
    assert(rest.last() == dec(id).last());
    lemma_line(word, arguments);
    lemma_messagedel_word(split::joined(arguments, ' '));
    assert(
        CommandView::named("messagedel"@).and_number("msgid"@, id).arguments
            =~= seq![("msgid"@, dec(id))]
    );
}

/// An offline message is deleted by its id, up to 32 bits.
pub proof fn law_messagedel_line(id: nat)
    ensures
        request_of(line_of(seq!["messagedel"@, dec(id)])) == if id <= u32::MAX {
            awaited("messagedel"@, seq![("msgid"@, dec(id))], Label::DeleteOfflineMessage)
        } else {
            RequestView::Refused("Invalid message id: "@ + dec(id))
        },
{
    lemma_messagedel_line(id);
    reveal(read);
}

proof fn lemma_complaindel_line(about: nat, by: nat)
    ensures
        read(line_of(seq!["complaindel"@, dec(about), dec(by)]))
            == if about <= u64::MAX && by <= u64::MAX {
            awaited(
                "complaindel"@,
                seq![("tcldbid"@, dec(about)), ("fcldbid"@, dec(by))],
                Label::DeleteComplaint,
            )
        } else {
            RequestView::Refused("Invalid complaindel args: "@ + (dec(about).push(' ') + dec(by)))
        },
{
    let word = "complaindel"@;
    reveal_strlit("complaindel");
    assert(is_argument(word));
    let arguments = seq![dec(about), dec(by)];
    assert(seq![word] + arguments =~= seq![word, dec(about), dec(by)]);
    let rest = split::joined(arguments, ' ');
    lemma_joined(dec(about), dec(by), word, ' ');
    lemma_id(about);
    lemma_id(by);
    assert(rest.last() == dec(by).last());
    lemma_line(word, arguments);
    lemma_complaindel_word(split::joined(arguments, ' '));
    assert(rest[0] == dec(about)[0]);
    chars::lemma_trimmed(rest);
    lemma_first_pieces(arguments, 2, ' ');
    let p = split::first_pieces(rest, 2, ' ');
    assert(p == arguments);
    assert(grammar::nth(p, 0) == dec(about));
    assert(grammar::nth(p, 1) == dec(by));
    assert(CommandView::named("complaindel"@).and_number("tcldbid"@, about).and_number("fcldbid"@, by).arguments
        =~= seq![("tcldbid"@, dec(about)), ("fcldbid"@, dec(by))]);
}

/// A complaint is deleted by whom it is about and who made it.
pub proof fn law_complaindel_line(about: nat, by: nat)
    ensures
        request_of(line_of(seq!["complaindel"@, dec(about), dec(by)]))
            == if about <= u64::MAX && by <= u64::MAX {
            awaited(
                "complaindel"@,
                seq![("tcldbid"@, dec(about)), ("fcldbid"@, dec(by))],
                Label::DeleteComplaint,
            )
        } else {
            RequestView::Refused("Invalid complaindel args: "@ + (dec(about).push(' ') + dec(by)))
        },
{
    lemma_complaindel_line(about, by);
    reveal(read);
}

proof fn lemma_complaindelall_line(about: nat)
    ensures
        read(line_of(seq!["complaindelall"@, dec(about)])) == if about <= u64::MAX {
            awaited("complaindelall"@, seq![("tcldbid"@, dec(about))], Label::DeleteAllComplaints)
        } else {
            RequestView::Refused("Invalid client db id: "@ + dec(about))
        },
{
    let word = "complaindelall"@;
    reveal_strlit("complaindelall");
    assert(is_argument(word));
    let arguments = seq![dec(about)];
    assert(seq![word] + arguments =~= seq![word, dec(about)]);
    let rest = split::joined(arguments, ' ');
    lemma_joined(dec(about), word, word, ' ');
    assert(rest == dec(about));
    lemma_id(about);
    assert(rest.last() == dec(about).last());
    lemma_line(word, arguments);
    lemma_complaindelall_word(split::joined(arguments, ' '));
    assert(CommandView::named("complaindelall"@).and_number("tcldbid"@, about).arguments =~= seq![
        ("tcldbid"@, dec(about)),
    ]);
}

/// All complaints about a client are deleted by its id.
pub proof fn law_complaindelall_line(about: nat)
    ensures
        request_of(line_of(seq!["complaindelall"@, dec(about)])) == if about <= u64::MAX {
            awaited("complaindelall"@, seq![("tcldbid"@, dec(about))], Label::DeleteAllComplaints)
        } else {
            RequestView::Refused("Invalid client db id: "@ + dec(about))
        },
{
    lemma_complaindelall_line(about);
    reveal(read);
}

proof fn lemma_messageadd_line(uid: Seq<char>, subject: Seq<char>, message: Seq<char>)
    requires
        split::lacks(uid, '\t'),
        split::lacks(subject, '\t'),
        message.len() > 0,
        !chars::is_white_space(message.last()),
    ensures
        read(
            line_of(seq!["messageadd"@, split::joined(seq![uid, subject, message], '\t')]),
        ) == awaited(
            "messageadd"@,
            seq![("cluid"@, uid), ("subject"@, subject), ("message"@, message)],
            Label::SendOfflineMessage,
        ),
{
    let typed = split::joined(seq![uid, subject, message], '\t');
    lemma_joined(uid, subject, message, '\t');
    assert(typed.last() == message.last());
    let word = "messageadd"@;
    reveal_strlit("messageadd");
    assert(is_argument(word));
    let arguments = seq![typed];
    assert(seq![word] + arguments =~= seq![word, typed]);
    let rest = split::joined(arguments, ' ');
    lemma_joined(typed, word, word, ' ');
    assert(rest == typed);
    assert(rest.last() == typed.last());
    lemma_line(word, arguments);
    lemma_messageadd_word(split::joined(arguments, ' '));
    lemma_first_pieces(seq![uid, subject, message], 3, '\t');
    assert(CommandView::named("messageadd"@).and("cluid"@, uid).and("subject"@, subject).and(
        "message"@,
        message,
    ).arguments =~= seq![("cluid"@, uid), ("subject"@, subject), ("message"@, message)]);
}

/// An offline message keeps its recipient, its subject and its text; the text
/// may hold tabs.
pub proof fn law_messageadd_line(uid: Seq<char>, subject: Seq<char>, message: Seq<char>)
    requires
        split::lacks(uid, '\t'),
        split::lacks(subject, '\t'),
        message.len() > 0,
        !chars::is_white_space(message.last()),
    ensures
        request_of(
            line_of(seq!["messageadd"@, split::joined(seq![uid, subject, message], '\t')]),
        ) == awaited(
            "messageadd"@,
            seq![("cluid"@, uid), ("subject"@, subject), ("message"@, message)],
            Label::SendOfflineMessage,
        ),
{
    lemma_messageadd_line(uid, subject, message);
    reveal(read);
}

proof fn lemma_messageupdateflag_line(id: nat, flag: Seq<char>)
    requires
        is_solid(flag),
    ensures
        read(line_of(seq!["messageupdateflag"@, dec(id), flag])) == if id <= u32::MAX {
            awaited(
                "messageupdateflag"@,
                seq![
                    ("msgid"@, dec(id)),
                    (
                        "flag"@,
                        if flag == seq!['1'] {
                            "true"@
                        } else {
                            "false"@
                        },
                    ),
                ],
                Label::MarkOfflineMessage,
            )
        } else {
            RequestView::Refused("Invalid message id: "@ + (dec(id).push(' ') + flag))
        },
{
    let word = "messageupdateflag"@;
    reveal_strlit("messageupdateflag");
    assert(is_argument(word));
    let arguments = seq![dec(id), flag];
    assert(seq![word] + arguments =~= seq![word, dec(id), flag]);
    let rest = split::joined(arguments, ' ');
    lemma_joined(dec(id), flag, word, ' ');
    lemma_id(id);
    lemma_argument(flag);
    assert(rest.last() == flag.last());
    lemma_line(word, arguments);
    lemma_messageupdateflag_word(split::joined(arguments, ' '));
    assert(rest[0] == dec(id)[0]);
    chars::lemma_trimmed(rest);
    lemma_first_pieces(arguments, 2, ' ');
    let p = split::first_pieces(rest, 2, ' ');
    assert(p == arguments);
    assert(grammar::nth(p, 0) == dec(id));
    assert(grammar::nth(p, 1) == flag);
    reveal_strlit("1");
    assert("1"@ =~= seq!['1']);
    let value = if flag == seq!['1'] {
        "true"@
    } else {
        "false"@
    };
    assert(CommandView::named("messageupdateflag"@).and_number("msgid"@, id).and(
        "flag"@,
        value,
    ).arguments =~= seq![("msgid"@, dec(id)), ("flag"@, value)]);
}

/// An offline message is marked as read by a one and as unread by anything else.
pub proof fn law_messageupdateflag_line(id: nat, flag: Seq<char>)
    requires
        is_solid(flag),
    ensures
        request_of(line_of(seq!["messageupdateflag"@, dec(id), flag])) == if id <= u32::MAX {
            awaited(
                "messageupdateflag"@,
                seq![
                    ("msgid"@, dec(id)),
                    (
                        "flag"@,
                        if flag == seq!['1'] {
                            "true"@
                        } else {
                            "false"@
                        },
                    ),
                ],
                Label::MarkOfflineMessage,
            )
        } else {
            RequestView::Refused("Invalid message id: "@ + (dec(id).push(' ') + flag))
        },
{
    lemma_messageupdateflag_line(id, flag);
    reveal(read);
}

proof fn lemma_setchannelgroup_line(group: nat, channel: nat, client: nat)
    ensures
        read(line_of(seq!["setchannelgroup"@, dec(group), dec(channel), dec(client)]))
            == if group <= u64::MAX && channel <= u64::MAX && client <= u64::MAX {
            awaited(
                "setclientchannelgroup"@,
                seq![("cgid"@, dec(group)), ("cid"@, dec(channel)), ("cldbid"@, dec(client))],
                Label::AssignChannelGroup,
            )
        } else {
            RequestView::Refused(
                "Invalid setchannelgroup args: "@ + split::joined(
                    seq![dec(group), dec(channel), dec(client)],
                    ' ',
                ),
            )
        },
{
    let word = "setchannelgroup"@;
    reveal_strlit("setchannelgroup");
    assert(is_argument(word));
    let arguments = seq![dec(group), dec(channel), dec(client)];
    assert(seq![word] + arguments =~= seq![word, dec(group), dec(channel), dec(client)]);
    let rest = split::joined(arguments, ' ');
    lemma_joined(dec(group), dec(channel), dec(client), ' ');
    lemma_id(group);
    lemma_id(channel);
    lemma_id(client);
    assert(rest.last() == dec(client).last());
    lemma_line(word, arguments);
    lemma_setchannelgroup_word(split::joined(arguments, ' '));
    assert(rest[0] == dec(group)[0]);
    chars::lemma_trimmed(rest);
    lemma_first_pieces(arguments, 3, ' ');
    let p = split::first_pieces(rest, 3, ' ');
    assert(p == arguments);
    assert(grammar::nth(p, 0) == dec(group));
    assert(grammar::nth(p, 1) == dec(channel));
    assert(grammar::nth(p, 2) == dec(client));
    assert(CommandView::named("setclientchannelgroup"@).and_number("cgid"@, group).and_number(
        "cid"@,
        channel,
    ).and_number("cldbid"@, client).arguments =~= seq![
        ("cgid"@, dec(group)),
        ("cid"@, dec(channel)),
        ("cldbid"@, dec(client)),
    ]);
}

/// A channel group is given by its id to the client in the channel.
pub proof fn law_setchannelgroup_line(group: nat, channel: nat, client: nat)
    ensures
        request_of(line_of(seq!["setchannelgroup"@, dec(group), dec(channel), dec(client)]))
            == if group <= u64::MAX && channel <= u64::MAX && client <= u64::MAX {
            awaited(
                "setclientchannelgroup"@,
                seq![("cgid"@, dec(group)), ("cid"@, dec(channel)), ("cldbid"@, dec(client))],
                Label::AssignChannelGroup,
            )
        } else {
            RequestView::Refused(
                "Invalid setchannelgroup args: "@ + split::joined(
                    seq![dec(group), dec(channel), dec(client)],
                    ' ',
                ),
            )
        },
{
    lemma_setchannelgroup_line(group, channel, client);
    reveal(read);
}

proof fn lemma_addservergroup_line(group: nat, client: nat)
    ensures
        read(line_of(seq!["addservergroup"@, dec(group), dec(client)]))
            == if group <= u64::MAX && client <= u64::MAX {
            awaited(
                "servergroupaddclient"@,
                seq![("sgid"@, dec(group)), ("cldbid"@, dec(client))],
                Label::AssignServerGroup,
            )
        } else {
            RequestView::Refused(
                "Invalid addservergroup args: "@ + (dec(group).push(' ') + dec(client)),
            )
        },
{
    let word = "addservergroup"@;
    reveal_strlit("addservergroup");
    assert(is_argument(word));
    let arguments = seq![dec(group), dec(client)];
    assert(seq![word] + arguments =~= seq![word, dec(group), dec(client)]);
    let rest = split::joined(arguments, ' ');
    lemma_joined(dec(group), dec(client), word, ' ');
    lemma_id(group);
    lemma_id(client);
    assert(rest.last() == dec(client).last());
    lemma_line(word, arguments);
    lemma_addservergroup_word(split::joined(arguments, ' '));
    assert(rest[0] == dec(group)[0]);
    chars::lemma_trimmed(rest);
    lemma_first_pieces(arguments, 2, ' ');
    let p = split::first_pieces(rest, 2, ' ');
    assert(p == arguments);
    assert(grammar::nth(p, 0) == dec(group));
    assert(grammar::nth(p, 1) == dec(client));
    assert(CommandView::named("servergroupaddclient"@).and_number("sgid"@, group).and_number("cldbid"@, client).arguments
        =~= seq![("sgid"@, dec(group)), ("cldbid"@, dec(client))]);
}

/// A server group is given to the client by their ids.
pub proof fn law_addservergroup_line(group: nat, client: nat)
    ensures
        request_of(line_of(seq!["addservergroup"@, dec(group), dec(client)]))
            == if group <= u64::MAX && client <= u64::MAX {
            awaited(
                "servergroupaddclient"@,
                seq![("sgid"@, dec(group)), ("cldbid"@, dec(client))],
                Label::AssignServerGroup,
            )
        } else {
            RequestView::Refused(
                "Invalid addservergroup args: "@ + (dec(group).push(' ') + dec(client)),
            )
        },
{
    lemma_addservergroup_line(group, client);
    reveal(read);
}

proof fn lemma_delservergroup_line(group: nat, client: nat)
    ensures
        read(line_of(seq!["delservergroup"@, dec(group), dec(client)]))
            == if group <= u64::MAX && client <= u64::MAX {
            awaited(
                "servergroupdelclient"@,
                seq![("sgid"@, dec(group)), ("cldbid"@, dec(client))],
                Label::RemoveServerGroup,
            )
        } else {
            RequestView::Refused(
                "Invalid delservergroup args: "@ + (dec(group).push(' ') + dec(client)),
            )
        },
{
    let word = "delservergroup"@;
    reveal_strlit("delservergroup");
    assert(is_argument(word));
    let arguments = seq![dec(group), dec(client)];
    assert(seq![word] + arguments =~= seq![word, dec(group), dec(client)]);
    let rest = split::joined(arguments, ' ');
    lemma_joined(dec(group), dec(client), word, ' ');
    lemma_id(group);
    lemma_id(client);
    assert(rest.last() == dec(client).last());
    lemma_line(word, arguments);
    lemma_delservergroup_word(split::joined(arguments, ' '));
    assert(rest[0] == dec(group)[0]);
    chars::lemma_trimmed(rest);
    lemma_first_pieces(arguments, 2, ' ');
    let p = split::first_pieces(rest, 2, ' ');
    assert(p == arguments);
    assert(grammar::nth(p, 0) == dec(group));
    assert(grammar::nth(p, 1) == dec(client));
    assert(CommandView::named("servergroupdelclient"@).and_number("sgid"@, group).and_number("cldbid"@, client).arguments
        =~= seq![("sgid"@, dec(group)), ("cldbid"@, dec(client))]);
}

/// A server group is taken from the client by their ids.
pub proof fn law_delservergroup_line(group: nat, client: nat)
    ensures
        request_of(line_of(seq!["delservergroup"@, dec(group), dec(client)]))
            == if group <= u64::MAX && client <= u64::MAX {
            awaited(
                "servergroupdelclient"@,
                seq![("sgid"@, dec(group)), ("cldbid"@, dec(client))],
                Label::RemoveServerGroup,
            )
        } else {
            RequestView::Refused(
                "Invalid delservergroup args: "@ + (dec(group).push(' ') + dec(client)),
            )
        },
{
    lemma_delservergroup_line(group, client);
    reveal(read);
}

proof fn lemma_ftlist_line(channel: nat, path: Seq<char>)
    requires
        is_solid(path),
    ensures
        read(line_of(seq!["ftlist"@, dec(channel), path])) == if channel <= u64::MAX {
            (RequestView::ListFiles { channel: channel as u64, path })
        } else {
            RequestView::Refused("Invalid channel id: "@ + dec(channel))
        },
{
    let word = "ftlist"@;
    reveal_strlit("ftlist");
    assert(is_argument(word));
    let arguments = seq![dec(channel), path];
    assert(seq![word] + arguments =~= seq![word, dec(channel), path]);
    let rest = split::joined(arguments, ' ');
    lemma_joined(dec(channel), path, word, ' ');
    lemma_id(channel);
    lemma_argument(path);
    assert(rest.last() == path.last());
    lemma_line(word, arguments);
    lemma_ftlist_word(split::joined(arguments, ' '));
    assert(rest[0] == dec(channel)[0]);
    chars::lemma_trimmed(rest);
    lemma_first_pieces(arguments, 2, ' ');
    let p = split::first_pieces(rest, 2, ' ');
    assert(p == arguments);
    assert(grammar::nth(p, 0) == dec(channel));
    assert(grammar::nth(p, 1) == path);
}

/// Files are listed at the path typed, spaces and all.
pub proof fn law_ftlist_line(channel: nat, path: Seq<char>)
    requires
        is_solid(path),
    ensures
        request_of(line_of(seq!["ftlist"@, dec(channel), path])) == if channel <= u64::MAX {
            (RequestView::ListFiles { channel: channel as u64, path })
        } else {
            RequestView::Refused("Invalid channel id: "@ + dec(channel))
        },
{
    lemma_ftlist_line(channel, path);
    reveal(read);
}

proof fn lemma_bare_ftlist_line(channel: u64)
    ensures
        read(line_of(seq!["ftlist"@, dec(channel as nat)]))
            == (RequestView::ListFiles { channel, path: seq!['/'] }),
{
    let word = "ftlist"@;
    reveal_strlit("ftlist");
    assert(is_argument(word));
    let arguments = seq![dec(channel as nat)];
    assert(seq![word] + arguments =~= seq![word, dec(channel as nat)]);
    let rest = split::joined(arguments, ' ');
    lemma_joined(dec(channel as nat), word, word, ' ');
    assert(rest == dec(channel as nat));
    lemma_id(channel as nat);
    assert(rest.last() == dec(channel as nat).last());
    lemma_line(word, arguments);
    lemma_ftlist_word(split::joined(arguments, ' '));
    assert(rest[0] == dec(channel as nat)[0]);
    chars::lemma_trimmed(rest);
    lemma_first_pieces(arguments, 2, ' ');
    let p = split::first_pieces(rest, 2, ' ');
    assert(p == arguments);
    assert(grammar::nth(p, 0) == dec(channel as nat));
    assert(grammar::nth(p, 1) == Seq::<char>::empty());
    assert(chars::trimmed(Seq::<char>::empty()) == Seq::<char>::empty());
    reveal_strlit("/");
    assert("/"@ =~= seq!['/']);
}

/// Without a path the root is listed.
pub proof fn law_bare_ftlist_line(channel: u64)
    ensures
        request_of(line_of(seq!["ftlist"@, dec(channel as nat)]))
            == (RequestView::ListFiles { channel, path: seq!['/'] }),
{
    lemma_bare_ftlist_line(channel);
    reveal(read);
}

proof fn lemma_ftmkdir_line(channel: nat, name: Seq<char>)
    requires
        is_solid(name),
    ensures
        read(line_of(seq!["ftmkdir"@, dec(channel), name])) == if channel <= u64::MAX {
            (RequestView::MakeDirectory { channel: channel as u64, name })
        } else {
            RequestView::Refused("Invalid channel id: "@ + dec(channel))
        },
{
    let word = "ftmkdir"@;
    reveal_strlit("ftmkdir");
    assert(is_argument(word));
    let arguments = seq![dec(channel), name];
    assert(seq![word] + arguments =~= seq![word, dec(channel), name]);
    let rest = split::joined(arguments, ' ');
    lemma_joined(dec(channel), name, word, ' ');
    lemma_id(channel);
    lemma_argument(name);
    assert(rest.last() == name.last());
    lemma_line(word, arguments);
    lemma_ftmkdir_word(split::joined(arguments, ' '));
    assert(rest[0] == dec(channel)[0]);
    chars::lemma_trimmed(rest);
    lemma_first_pieces(arguments, 2, ' ');
    let p = split::first_pieces(rest, 2, ' ');
    assert(p == arguments);
    assert(grammar::nth(p, 0) == dec(channel));
    assert(grammar::nth(p, 1) == name);
}

/// A directory is made under the name typed, spaces and all.
pub proof fn law_ftmkdir_line(channel: nat, name: Seq<char>)
    requires
        is_solid(name),
    ensures
        request_of(line_of(seq!["ftmkdir"@, dec(channel), name])) == if channel <= u64::MAX {
            (RequestView::MakeDirectory { channel: channel as u64, name })
        } else {
            RequestView::Refused("Invalid channel id: "@ + dec(channel))
        },
{
    lemma_ftmkdir_line(channel, name);
    reveal(read);
}

proof fn lemma_ftdelete_line(channel: nat, name: Seq<char>)
    requires
        is_solid(name),
    ensures
        read(line_of(seq!["ftdelete"@, dec(channel), name])) == if channel <= u64::MAX {
            (RequestView::DeleteFile { channel: channel as u64, name })
        } else {
            RequestView::Refused("Invalid channel id: "@ + dec(channel))
        },
{
    let word = "ftdelete"@;
    reveal_strlit("ftdelete");
    assert(is_argument(word));
    let arguments = seq![dec(channel), name];
    assert(seq![word] + arguments =~= seq![word, dec(channel), name]);
    let rest = split::joined(arguments, ' ');
    lemma_joined(dec(channel), name, word, ' ');
    lemma_id(channel);
    lemma_argument(name);
    assert(rest.last() == name.last());
    lemma_line(word, arguments);
    lemma_ftdelete_word(split::joined(arguments, ' '));
    assert(rest[0] == dec(channel)[0]);
    chars::lemma_trimmed(rest);
    lemma_first_pieces(arguments, 2, ' ');
    let p = split::first_pieces(rest, 2, ' ');
    assert(p == arguments);
    assert(grammar::nth(p, 0) == dec(channel));
    assert(grammar::nth(p, 1) == name);
}

/// A file is deleted under the name typed, spaces and all.
pub proof fn law_ftdelete_line(channel: nat, name: Seq<char>)
    requires
        is_solid(name),
    ensures
        request_of(line_of(seq!["ftdelete"@, dec(channel), name])) == if channel <= u64::MAX {
            (RequestView::DeleteFile { channel: channel as u64, name })
        } else {
            RequestView::Refused("Invalid channel id: "@ + dec(channel))
        },
{
    lemma_ftdelete_line(channel, name);
    reveal(read);
}

proof fn lemma_ftdownload_line(channel: nat, path: Seq<char>)
    requires
        is_solid(path),
    ensures
        read(line_of(seq!["ftdownload"@, dec(channel), path])) == if channel <= u64::MAX {
            (RequestView::Download { channel: channel as u64, path })
        } else {
            RequestView::Refused("Invalid channel id: "@ + dec(channel))
        },
{
    let word = "ftdownload"@;
    reveal_strlit("ftdownload");
    assert(is_argument(word));
    let arguments = seq![dec(channel), path];
    assert(seq![word] + arguments =~= seq![word, dec(channel), path]);
    let rest = split::joined(arguments, ' ');
    lemma_joined(dec(channel), path, word, ' ');
    lemma_id(channel);
    lemma_argument(path);
    assert(rest.last() == path.last());
    lemma_line(word, arguments);
    lemma_ftdownload_word(split::joined(arguments, ' '));
    assert(rest[0] == dec(channel)[0]);
    chars::lemma_trimmed(rest);
    lemma_first_pieces(arguments, 2, ' ');
    let p = split::first_pieces(rest, 2, ' ');
    assert(p == arguments);
    assert(grammar::nth(p, 0) == dec(channel));
    assert(grammar::nth(p, 1) == path);
}

/// A file is fetched under the name typed, spaces and all.
pub proof fn law_ftdownload_line(channel: nat, path: Seq<char>)
    requires
        is_solid(path),
    ensures
        request_of(line_of(seq!["ftdownload"@, dec(channel), path])) == if channel <= u64::MAX {
            (RequestView::Download { channel: channel as u64, path })
        } else {
            RequestView::Refused("Invalid channel id: "@ + dec(channel))
        },
{
    lemma_ftdownload_line(channel, path);
    reveal(read);
}

proof fn lemma_ftrename_line(channel: nat, from: Seq<char>, to: Seq<char>)
    requires
        split::lacks(from, '\t'),
        to.len() > 0,
        !chars::is_white_space(to.last()),
    ensures
        read(
            line_of(seq!["ftrename"@, split::joined(seq![dec(channel), from, to], '\t')]),
        ) == if channel <= u64::MAX {
            RequestView::RenameFile { channel: channel as u64, old_name: from, new_name: to }
        } else {
            RequestView::Refused(
                "Invalid ftrename args: "@ + split::joined(seq![dec(channel), from, to], '\t'),
            )
        },
{
    let typed = split::joined(seq![dec(channel), from, to], '\t');
    lemma_joined(dec(channel), from, to, '\t');
    assert(typed.last() == to.last());
    let word = "ftrename"@;
    reveal_strlit("ftrename");
    assert(is_argument(word));
    let arguments = seq![typed];
    assert(seq![word] + arguments =~= seq![word, typed]);
    let rest = split::joined(arguments, ' ');
    lemma_joined(typed, word, word, ' ');
    assert(rest == typed);
    lemma_id(channel);
    assert(rest.last() == typed.last());
    lemma_line(word, arguments);
    lemma_ftrename_word(split::joined(arguments, ' '));
    lemma_first_pieces(seq![dec(channel), from, to], 3, '\t');
}

/// A file is renamed from the one name to the other, spaces and all.
pub proof fn law_ftrename_line(channel: nat, from: Seq<char>, to: Seq<char>)
    requires
        split::lacks(from, '\t'),
        to.len() > 0,
        !chars::is_white_space(to.last()),
    ensures
        request_of(
            line_of(seq!["ftrename"@, split::joined(seq![dec(channel), from, to], '\t')]),
        ) == if channel <= u64::MAX {
            RequestView::RenameFile { channel: channel as u64, old_name: from, new_name: to }
        } else {
            RequestView::Refused(
                "Invalid ftrename args: "@ + split::joined(seq![dec(channel), from, to], '\t'),
            )
        },
{
    lemma_ftrename_line(channel, from, to);
    reveal(read);
}

proof fn lemma_audio_line(data: Seq<u8>)
    requires
        data.len() > 0,
    ensures
        read(line_of(seq!["audio"@, encoding::base64_text(data)])) == RequestView::Audio(data),
{
    let text = encoding::base64_text(data);
    encoding::lemma_base64_text(data);
    encoding::law_base64_reads_back(data);
    assert(!chars::is_white_space(text[0]));
    assert(!chars::is_white_space(text[text.len() - 1]));
    let word = "audio"@;
    reveal_strlit("audio");
    assert(is_argument(word));
    let arguments = seq![text];
    assert(seq![word] + arguments =~= seq![word, text]);
    let rest = split::joined(arguments, ' ');
    lemma_joined(text, word, word, ' ');
    assert(rest == text);
    lemma_argument(text);
    assert(rest.last() == text.last());
    lemma_line(word, arguments);
    lemma_audio_word(split::joined(arguments, ' '));
}

/// Sound is taken as the bytes that were sent.
pub proof fn law_audio_line(data: Seq<u8>)
    requires
        data.len() > 0,
    ensures
        request_of(line_of(seq!["audio"@, encoding::base64_text(data)]))
            == RequestView::Audio(data),
{
    lemma_audio_line(data);
    reveal(read);
}

proof fn lemma_bare_line(word: Seq<char>, lead: Seq<char>, tail: Seq<char>)
    requires
        is_argument(word),
        chars::all_white(lead),
        chars::all_white(tail),
    ensures
        read(lead + word + tail) == grammar::bare_request(word),
{
    reveal(read);
    chars::law_trimmed_is_what_stands_between(lead, word, tail);
    split::lemma_position_absent(word, ' ');
}

proof fn lemma_bare_lines(lead: Seq<char>, tail: Seq<char>)
    requires
        chars::all_white(lead),
        chars::all_white(tail),
    ensures
        read(lead + "disconnect"@ + tail) == RequestView::Disconnect(None),
        read(lead + "away"@ + tail) == RequestView::Away(Some(Seq::empty())),
        read(lead + "unaway"@ + tail) == RequestView::Away(None),
        read(lead + "unwhisper"@ + tail)
            == (RequestView::Whisper { channels: Seq::empty(), clients: Seq::empty() }),
        read(lead + "serverconninfo"@ + tail) == RequestView::ServerInfo,
        read(lead + "serverlog"@ + tail) == RequestView::ServerLog,
        read(lead + "banlist"@ + tail) == awaited("banlist"@, Seq::empty(), Label::BanList),
        read(lead + "bandelall"@ + tail)
            == awaited("bandelall"@, Seq::empty(), Label::DeleteAllBans),
        read(lead + "complainlist"@ + tail)
            == awaited("complainlist"@, Seq::empty(), Label::ComplainList),
        read(lead + "messagelist"@ + tail)
            == awaited("messagelist"@, Seq::empty(), Label::OfflineMessageList),
        read(lead + "channelgrouplist"@ + tail)
            == awaited("channelgrouplist"@, Seq::empty(), Label::ChannelGroupList),
        read(lead + "servergrouplist"@ + tail)
            == awaited("servergrouplist"@, Seq::empty(), Label::ServerGroupList),
        read(lead + "permoverview"@ + tail) == RequestView::PermissionOverview,
        read(lead + "permissionlist"@ + tail) == RequestView::PermissionCatalog,
{
    lemma_words();
    assert(is_argument("disconnect"@)) by {
        reveal_strlit("disconnect");
    }
    lemma_bare_line("disconnect"@, lead, tail);
    assert(is_argument("away"@)) by {
        reveal_strlit("away");
    }
    lemma_bare_line("away"@, lead, tail);
    assert(is_argument("unaway"@)) by {
        reveal_strlit("unaway");
    }
    lemma_bare_line("unaway"@, lead, tail);
    assert(is_argument("unwhisper"@)) by {
        reveal_strlit("unwhisper");
    }
    lemma_bare_line("unwhisper"@, lead, tail);
    assert(is_argument("serverconninfo"@)) by {
        reveal_strlit("serverconninfo");
    }
    lemma_bare_line("serverconninfo"@, lead, tail);
    assert(is_argument("serverlog"@)) by {
        reveal_strlit("serverlog");
    }
    lemma_bare_line("serverlog"@, lead, tail);
    assert(is_argument("banlist"@)) by {
        reveal_strlit("banlist");
    }
    lemma_bare_line("banlist"@, lead, tail);
    assert(is_argument("bandelall"@)) by {
        reveal_strlit("bandelall");
    }
    lemma_bare_line("bandelall"@, lead, tail);
    assert(is_argument("complainlist"@)) by {
        reveal_strlit("complainlist");
    }
    lemma_bare_line("complainlist"@, lead, tail);
    assert(is_argument("messagelist"@)) by {
        reveal_strlit("messagelist");
    }
    lemma_bare_line("messagelist"@, lead, tail);
    assert(is_argument("channelgrouplist"@)) by {
        reveal_strlit("channelgrouplist");
    }
    lemma_bare_line("channelgrouplist"@, lead, tail);
    assert(is_argument("servergrouplist"@)) by {
        reveal_strlit("servergrouplist");
    }
    lemma_bare_line("servergrouplist"@, lead, tail);
    assert(is_argument("permoverview"@)) by {
        reveal_strlit("permoverview");
    }
    lemma_bare_line("permoverview"@, lead, tail);
    assert(is_argument("permissionlist"@)) by {
        reveal_strlit("permissionlist");
    }
    lemma_bare_line("permissionlist"@, lead, tail);
}

/// A line of one word asks for what the word says, whatever white space stands
/// around it, and a word that is not known for nothing.
pub proof fn law_bare_lines(lead: Seq<char>, tail: Seq<char>)
    requires
        chars::all_white(lead),
        chars::all_white(tail),
    ensures
        request_of(lead + "disconnect"@ + tail) == RequestView::Disconnect(None),
        request_of(lead + "away"@ + tail) == RequestView::Away(Some(Seq::empty())),
        request_of(lead + "unaway"@ + tail) == RequestView::Away(None),
        request_of(lead + "unwhisper"@ + tail)
            == (RequestView::Whisper { channels: Seq::empty(), clients: Seq::empty() }),
        request_of(lead + "serverconninfo"@ + tail) == RequestView::ServerInfo,
        request_of(lead + "serverlog"@ + tail) == RequestView::ServerLog,
        request_of(lead + "banlist"@ + tail) == awaited("banlist"@, Seq::empty(), Label::BanList),
        request_of(lead + "bandelall"@ + tail)
            == awaited("bandelall"@, Seq::empty(), Label::DeleteAllBans),
        request_of(lead + "complainlist"@ + tail)
            == awaited("complainlist"@, Seq::empty(), Label::ComplainList),
        request_of(lead + "messagelist"@ + tail)
            == awaited("messagelist"@, Seq::empty(), Label::OfflineMessageList),
        request_of(lead + "channelgrouplist"@ + tail)
            == awaited("channelgrouplist"@, Seq::empty(), Label::ChannelGroupList),
        request_of(lead + "servergrouplist"@ + tail)
            == awaited("servergrouplist"@, Seq::empty(), Label::ServerGroupList),
        request_of(lead + "permoverview"@ + tail) == RequestView::PermissionOverview,
        request_of(lead + "permissionlist"@ + tail) == RequestView::PermissionCatalog,
{
    lemma_bare_lines(lead, tail);
    reveal(read);
}

proof fn lemma_lines_are_trimmed(lead: Seq<char>, line: Seq<char>, tail: Seq<char>)
    requires
        chars::all_white(lead),
        chars::all_white(tail),
        is_solid(line),
    ensures
        read(lead + line + tail) == read(line),
{
    reveal(read);
    chars::law_trimmed_is_what_stands_between(lead, line, tail);
    chars::lemma_trimmed(line);
}

/// White space around a line does not count.
pub proof fn law_lines_are_trimmed(lead: Seq<char>, line: Seq<char>, tail: Seq<char>)
    requires
        chars::all_white(lead),
        chars::all_white(tail),
        is_solid(line),
    ensures
        request_of(lead + line + tail) == request_of(line),
{
    lemma_lines_are_trimmed(lead, line, tail);
    reveal(read);
}

/// The words that name a target: its kind, then its ids.
pub open spec fn target_words(target: PermissionTarget) -> Seq<Seq<char>> {
    match target {
        PermissionTarget::ServerGroup(id) => seq!["server"@, dec(id as nat)],
        PermissionTarget::ChannelGroup(id) => seq!["channelgroup"@, dec(id as nat)],
        PermissionTarget::Channel(id) => seq!["channel"@, dec(id as nat)],
        PermissionTarget::Client(id) => seq!["client"@, dec(id as nat)],
        PermissionTarget::ChannelClient(channel, client) => seq![
            "channelclient"@,
            dec(channel as nat),
            dec(client as nat),
        ],
    }
}

/// A text without white space.
pub open spec fn is_one_word(s: Seq<char>) -> bool {
    s.len() > 0 && forall|i: int|
        0 <= i < s.len() ==> !chars::is_white_space(#[trigger] s[i])
}

proof fn lemma_words_of(words: Seq<Seq<char>>)
    requires
        words.len() > 0,
        forall|i: int| 0 <= i < words.len() ==> is_one_word(#[trigger] words[i]),
    ensures
        split::words_of(line_of(words)) == words,
        line_of(words).len() > 0,
        !chars::is_white_space(line_of(words).last()),
    decreases words.len(),
{
    let s = line_of(words);
    let none = Seq::<char>::empty();
    assert(is_one_word(words[0]));
    if words.len() == 1 {
        assert(none + words[0] + none =~= words[0]);
        split::law_words_stand_between_white_space(none, words[0], none);
        assert(split::words_of(none) =~= Seq::empty());
        assert(words =~= seq![words[0]]);
        assert(!chars::is_white_space(words[0][words[0].len() - 1]));
    } else {
        let tail = words.skip(1);
        assert forall|i: int| 0 <= i < tail.len() implies is_one_word(#[trigger] tail[i]) by {
            assert(tail[i] == words[i + 1]);
        }
        lemma_words_of(tail);
        let rest = line_of(tail);
        assert(s == words[0].push(' ') + rest);
        assert(s =~= none + words[0] + (seq![' '] + rest));
        assert(!chars::is_white_space(words[0][words[0].len() - 1]));
        split::law_words_stand_between_white_space(none, words[0], seq![' '] + rest);
        assert((seq![' '] + rest).skip(1) =~= rest);
        assert(chars::trim_start(seq![' '] + rest) == chars::trim_start(rest));
        assert(split::words_of(seq![' '] + rest) == split::words_of(rest));
        assert(words =~= seq![words[0]] + tail);
        assert(s.last() == rest.last());
    }
}

proof fn lemma_one_word(n: nat)
    ensures
        is_one_word(dec(n)),
{
    number::lemma_decimal_text(n);
    assert forall|i: int| 0 <= i < dec(n).len() implies !chars::is_white_space(
        #[trigger] dec(n)[i],
    ) by {
        assert(chars::is_digit(dec(n)[i]));
    }
}

proof fn lemma_target(target: PermissionTarget, more: Seq<Seq<char>>)
    ensures
        grammar::target_of(target_words(target) + more) == Some(target),
        target_words(target).len() == 1 + grammar::ids_of(target),
        forall|i: int|
            0 <= i < target_words(target).len() ==> is_one_word(
                #[trigger] target_words(target)[i],
            ),
{
    reveal_strlit("server");
    reveal_strlit("channelgroup");
    reveal_strlit("channel");
    reveal_strlit("client");
    reveal_strlit("channelclient");
    assert("server"@.len() == 6 && "client"@.len() == 6 && "server"@[0] == 's' && "client"@[0]
        == 'c' && "channel"@.len() == 7 && "channelgroup"@.len() == 12 && "channelclient"@.len()
        == 13);
    assert(is_one_word("server"@));
    assert(is_one_word("channelgroup"@));
    assert(is_one_word("channel"@));
    assert(is_one_word("client"@));
    assert(is_one_word("channelclient"@));
    let words = target_words(target) + more;
    match target {
        PermissionTarget::ServerGroup(id) => {
            lemma_id(id as nat);
            lemma_one_word(id as nat);
            assert(words[0] == "server"@ && words[1] == dec(id as nat));
        },
        PermissionTarget::ChannelGroup(id) => {
            lemma_id(id as nat);
            lemma_one_word(id as nat);
            assert(words[0] == "channelgroup"@ && words[1] == dec(id as nat));
        },
        PermissionTarget::Channel(id) => {
            lemma_id(id as nat);
            lemma_one_word(id as nat);
            assert(words[0] == "channel"@ && words[1] == dec(id as nat));
        },
        PermissionTarget::Client(id) => {
            lemma_id(id as nat);
            lemma_one_word(id as nat);
            assert(words[0] == "client"@ && words[1] == dec(id as nat));
        },
        PermissionTarget::ChannelClient(channel, client) => {
            lemma_id(channel as nat);
            lemma_id(client as nat);
            lemma_one_word(channel as nat);
            lemma_one_word(client as nat);
            assert(words[0] == "channelclient"@ && words[1] == dec(channel as nat) && words[2]
                == dec(client as nat));
        },
    }
}

proof fn lemma_permlist_line(target: PermissionTarget)
    ensures
        read(line_of(seq!["permlist"@] + target_words(target)))
            == RequestView::ListPermissions(target),
{
    let none = Seq::<Seq<char>>::empty();
    let arguments = target_words(target);
    lemma_target(target, none);
    assert(target_words(target) + none =~= target_words(target));
    lemma_words_of(arguments);
    reveal_strlit("permlist");
    lemma_line("permlist"@, arguments);
    lemma_permlist_word(line_of(arguments));
}

/// The permissions listed are those of the target named.
pub proof fn law_permlist_line(target: PermissionTarget)
    ensures
        request_of(line_of(seq!["permlist"@] + target_words(target)))
            == RequestView::ListPermissions(target),
{
    lemma_permlist_line(target);
    reveal(read);
}

proof fn lemma_permdel_line(target: PermissionTarget, permission: u32)
    ensures
        read(line_of(seq!["permdel"@] + (target_words(target) + seq![dec(permission as nat)])))
            == (RequestView::RemovePermission { target, permission }),
{
    let more = seq![dec(permission as nat)];
    let arguments = target_words(target) + more;
    lemma_target(target, more);
    lemma_id(permission as nat);
    lemma_one_word(permission as nat);
    assert forall|i: int| 0 <= i < arguments.len() implies is_one_word(#[trigger] arguments[i]) by {
        if i < target_words(target).len() {
            assert(arguments[i] == target_words(target)[i]);
        }
    }
    lemma_words_of(arguments);
    assert(arguments[1 + grammar::ids_of(target)] == dec(permission as nat));
    reveal_strlit("permdel");
    lemma_line("permdel"@, arguments);
    lemma_permdel_word(line_of(arguments));
}

/// A permission is taken from the target named.
pub proof fn law_permdel_line(target: PermissionTarget, permission: u32)
    ensures
        request_of(
            line_of(seq!["permdel"@] + (target_words(target) + seq![dec(permission as nat)])),
        )
            == (RequestView::RemovePermission { target, permission }),
{
    lemma_permdel_line(target, permission);
    reveal(read);
}

/// A value as text, with a minus sign where it is below zero.
pub open spec fn signed_text(value: i32) -> Seq<char> {
    if value < 0 {
        seq!['-'] + dec((-value) as nat)
    } else {
        dec(value as nat)
    }
}

pub open spec fn flag_text(on: bool) -> Seq<char> {
    if on {
        seq!['1']
    } else {
        seq!['0']
    }
}

/// The words that say what is granted: the permission, its value, and for the
/// kinds of targets that have them whether it is negated and skipped.
pub open spec fn grant_words(target: PermissionTarget, grant: Grant) -> Seq<Seq<char>> {
    let both = seq![dec(grant.permission as nat), signed_text(grant.value)];
    match target {
        PermissionTarget::ServerGroup(_) => both + seq![
            flag_text(grant.negated),
            flag_text(grant.skip),
        ],
        PermissionTarget::Client(_) => both + seq![flag_text(grant.skip)],
        _ => both,
    }
}

proof fn lemma_permadd_line(target: PermissionTarget, grant: Grant)
    requires
        grant.negated ==> target is ServerGroup,
        grant.skip ==> target is ServerGroup || target is Client,
    ensures
        read(line_of(seq!["permadd"@] + (target_words(target) + grant_words(target, grant))))
            == (RequestView::AddPermission { target, grant }),
{
    let more = grant_words(target, grant);
    let arguments = target_words(target) + more;
    let n = target_words(target).len() as int;
    lemma_target(target, more);
    lemma_id(grant.permission as nat);
    lemma_one_word(grant.permission as nat);
    lemma_signed(grant.value);
    assert(is_one_word(flag_text(true)) && is_one_word(flag_text(false)));
    assert forall|i: int| 0 <= i < arguments.len() implies is_one_word(#[trigger] arguments[i]) by {
        if i < n {
            assert(arguments[i] == target_words(target)[i]);
        } else {
            assert(arguments[i] == more[i - n]);
        }
    }
    lemma_words_of(arguments);
    assert(arguments[n] == more[0]);
    assert(arguments[n + 1] == more[1]);
    reveal_strlit("1");
    assert("1"@ =~= flag_text(true));
    assert("1"@[0] != flag_text(false)[0]);
    if grammar::flag_count(target) > 0 {
        assert(arguments[n + 2] == more[2]);
        assert(arguments.last() == more.last());
    }
    reveal_strlit("permadd");
    lemma_line("permadd"@, arguments);
    lemma_permadd_word(line_of(arguments));
    assert(grammar::grant_of(arguments, target) == Some(grant));
}

/// A permission is given to the target named with the value and the flags that
/// were typed; a kind of target that has no flags has none set.
pub proof fn law_permadd_line(target: PermissionTarget, grant: Grant)
    requires
        grant.negated ==> target is ServerGroup,
        grant.skip ==> target is ServerGroup || target is Client,
    ensures
        request_of(line_of(seq!["permadd"@] + (target_words(target) + grant_words(target, grant))))
            == (RequestView::AddPermission { target, grant }),
{
    lemma_permadd_line(target, grant);
    reveal(read);
}

proof fn lemma_signed(value: i32)
    ensures
        grammar::i32_of(signed_text(value)) == Some(value),
        is_one_word(signed_text(value)),
{
    if value < 0 {
        number::law_signed_reads_back((-value) as nat);
        lemma_one_word((-value) as nat);
        let t = signed_text(value);
        assert forall|i: int| 0 <= i < t.len() implies !chars::is_white_space(#[trigger] t[i]) by {
            if i > 0 {
                assert(t[i] == dec((-value) as nat)[i - 1]);
            }
        }
    } else {
        number::law_signed_reads_back(value as nat);
        lemma_one_word(value as nat);
    }
}

proof fn lemma_permissions_take_exact_words(
    target: PermissionTarget,
    permission: u32,
    word: Seq<char>,
)
    requires
        is_one_word(word),
    ensures
        read(line_of(seq!["permdel"@] + target_words(target))) == RequestView::Refused(
            "Invalid permdel args: "@ + line_of(target_words(target)),
        ),
        read(
            line_of(
                seq!["permdel"@] + (target_words(target) + seq![dec(permission as nat), word]),
            ),
        ) == RequestView::Refused(
            "Invalid permdel args: "@ + line_of(
                target_words(target) + seq![dec(permission as nat), word],
            ),
        ),
        read(line_of(seq!["permlist"@] + (target_words(target) + seq![word])))
            == RequestView::Refused(
            "Invalid permlist args: "@ + line_of(target_words(target) + seq![word]),
        ),
{
    let none = Seq::<Seq<char>>::empty();
    let first = target_words(target);
    let second = first + seq![dec(permission as nat), word];
    let third = first + seq![word];
    lemma_target(target, none);
    lemma_target(target, seq![dec(permission as nat), word]);
    lemma_target(target, seq![word]);
    assert(first + none =~= first);
    lemma_one_word(permission as nat);
    assert forall|i: int| 0 <= i < second.len() implies is_one_word(#[trigger] second[i]) by {
        if i < first.len() {
            assert(second[i] == first[i]);
        }
    }
    assert forall|i: int| 0 <= i < third.len() implies is_one_word(#[trigger] third[i]) by {
        if i < first.len() {
            assert(third[i] == first[i]);
        }
    }
    lemma_words_of(first);
    lemma_words_of(second);
    lemma_words_of(third);
    number_of_nothing();
    reveal_strlit("permdel");
    reveal_strlit("permlist");
    lemma_line("permdel"@, first);
    lemma_line("permdel"@, second);
    lemma_line("permlist"@, third);
    lemma_permdel_word(line_of(first));
    lemma_permdel_word(line_of(second));
    lemma_permlist_word(line_of(third));
}

/// What does not name a target and a permission in full is refused whole: a
/// word too many, and a word too few.
pub proof fn law_permissions_take_exact_words(
    target: PermissionTarget,
    permission: u32,
    word: Seq<char>,
)
    requires
        is_one_word(word),
    ensures
        request_of(line_of(seq!["permdel"@] + target_words(target))) == RequestView::Refused(
            "Invalid permdel args: "@ + line_of(target_words(target)),
        ),
        request_of(
            line_of(
                seq!["permdel"@] + (target_words(target) + seq![dec(permission as nat), word]),
            ),
        ) == RequestView::Refused(
            "Invalid permdel args: "@ + line_of(
                target_words(target) + seq![dec(permission as nat), word],
            ),
        ),
        request_of(line_of(seq!["permlist"@] + (target_words(target) + seq![word])))
            == RequestView::Refused(
            "Invalid permlist args: "@ + line_of(target_words(target) + seq![word]),
        ),
{
    lemma_permissions_take_exact_words(target, permission, word);
    reveal(read);
}

proof fn lemma_unreadable_password_is_none(channel: u64, client: u16, text: Seq<char>)
    requires
        is_argument(text),
        encoding::base64_string(text) is None,
    ensures
        read(line_of(seq!["switch"@, dec(channel as nat), text]))
            == (RequestView::Switch { channel, password: None }),
        read(line_of(seq!["moveclient"@, dec(client as nat), dec(channel as nat), text]))
            == (RequestView::MoveClient { client, channel, password: None }),
{
    let word = "switch"@;
    reveal_strlit("switch");
    assert(is_argument(word));
    let arguments = seq![dec(channel as nat), text];
    assert(seq![word] + arguments =~= seq![word, dec(channel as nat), text]);
    let rest = split::joined(arguments, ' ');
    lemma_joined(dec(channel as nat), text, word, ' ');
    lemma_id(channel as nat);
    lemma_argument(text);
    assert(rest.last() == text.last());
    lemma_line(word, arguments);
    lemma_switch_word(split::joined(arguments, ' '));
    assert(rest[0] == dec(channel as nat)[0]);
    chars::lemma_trimmed(rest);
    lemma_first_pieces(arguments, 2, ' ');
    let p = split::first_pieces(rest, 2, ' ');
    assert(p == arguments);
    assert(grammar::nth(p, 0) == dec(channel as nat));
    assert(grammar::nth(p, 1) == text);
    lemma_unreadable_move(client, channel, text);
}

/// A second argument that is no password in base64 counts as none.
pub proof fn law_unreadable_password_is_none(channel: u64, client: u16, text: Seq<char>)
    requires
        is_argument(text),
        encoding::base64_string(text) is None,
    ensures
        request_of(line_of(seq!["switch"@, dec(channel as nat), text]))
            == (RequestView::Switch { channel, password: None }),
        request_of(line_of(seq!["moveclient"@, dec(client as nat), dec(channel as nat), text]))
            == (RequestView::MoveClient { client, channel, password: None }),
{
    lemma_unreadable_password_is_none(channel, client, text);
    reveal(read);
}

proof fn lemma_unreadable_move(client: u16, channel: u64, text: Seq<char>)
    requires
        is_argument(text),
        encoding::base64_string(text) is None,
    ensures
        read(line_of(seq!["moveclient"@, dec(client as nat), dec(channel as nat), text]))
            == (RequestView::MoveClient { client, channel, password: None }),
{
    let word = "moveclient"@;
    reveal_strlit("moveclient");
    assert(is_argument(word));
    let arguments = seq![dec(client as nat), dec(channel as nat), text];
    assert(seq![word] + arguments =~= seq![word, dec(client as nat), dec(channel as nat), text]);
    let rest = split::joined(arguments, ' ');
    lemma_joined(dec(client as nat), dec(channel as nat), text, ' ');
    lemma_id(client as nat);
    lemma_id(channel as nat);
    lemma_argument(text);
    assert(rest.last() == text.last());
    lemma_line(word, arguments);
    lemma_moveclient_word(split::joined(arguments, ' '));
    assert(rest[0] == dec(client as nat)[0]);
    chars::lemma_trimmed(rest);
    lemma_first_pieces(arguments, 3, ' ');
    let p = split::first_pieces(rest, 3, ' ');
    assert(p == arguments);
    assert(grammar::nth(p, 0) == dec(client as nat));
    assert(grammar::nth(p, 1) == dec(channel as nat));
    assert(grammar::nth(p, 2) == text);
}

proof fn lemma_bare_stream_requests(stream: Seq<char>, client: nat)
    requires
        is_argument(stream),
    ensures
        read(line_of(seq!["streamjoin"@, stream, dec(client)])) == if client <= 65535 {
            unawaited(
                "joinstreamrequest"@,
                seq![
                    ("id"@, stream),
                    ("clid"@, dec(client)),
                    ("msg"@, Seq::<char>::empty()),
                    ("is_remove"@, seq!['0']),
                ],
            )
        } else {
            RequestView::Refused("Usage: streamjoin <stream-id> <clid> [msg]"@)
        },
        read(line_of(seq!["streamsignal"@, stream, dec(client)]))
            == RequestView::Refused("Usage: streamsignal <stream-id> <clid> <json>"@),
{
    let word = "streamjoin"@;
    reveal_strlit("streamjoin");
    assert(is_argument(word));
    let arguments = seq![stream, dec(client)];
    assert(seq![word] + arguments =~= seq![word, stream, dec(client)]);
    let rest = split::joined(arguments, ' ');
    lemma_joined(stream, dec(client), word, ' ');
    lemma_id(client);
    assert(rest.last() == dec(client).last());
    lemma_line(word, arguments);
    lemma_streamjoin_word(split::joined(arguments, ' '));
    lemma_first_pieces(arguments, 3, ' ');
    let p = split::first_pieces(rest, 3, ' ');
    assert(p == arguments);
    assert(grammar::nth(p, 0) == stream);
    assert(grammar::nth(p, 1) == dec(client));
    assert(grammar::nth(p, 2) == Seq::<char>::empty());
    assert(chars::trimmed(Seq::<char>::empty()) == Seq::<char>::empty());
    lemma_digits();
    if client <= 65535 {
        assert(grammar::join_command(stream, client as u16, Seq::empty(), false).arguments =~= seq![
            ("id"@, stream),
            ("clid"@, dec(client)),
            ("msg"@, Seq::<char>::empty()),
            ("is_remove"@, seq!['0']),
        ]);
    }
    lemma_bare_signal(stream, client);
}

/// A request to join or to leave a stream needs no message.
pub proof fn law_bare_stream_requests(stream: Seq<char>, client: nat)
    requires
        is_argument(stream),
    ensures
        request_of(line_of(seq!["streamjoin"@, stream, dec(client)])) == if client <= 65535 {
            unawaited(
                "joinstreamrequest"@,
                seq![
                    ("id"@, stream),
                    ("clid"@, dec(client)),
                    ("msg"@, Seq::<char>::empty()),
                    ("is_remove"@, seq!['0']),
                ],
            )
        } else {
            RequestView::Refused("Usage: streamjoin <stream-id> <clid> [msg]"@)
        },
        request_of(line_of(seq!["streamsignal"@, stream, dec(client)]))
            == RequestView::Refused("Usage: streamsignal <stream-id> <clid> <json>"@),
{
    lemma_bare_stream_requests(stream, client);
    reveal(read);
}

proof fn lemma_bare_signal(stream: Seq<char>, client: nat)
    requires
        is_argument(stream),
    ensures
        read(line_of(seq!["streamsignal"@, stream, dec(client)]))
            == RequestView::Refused("Usage: streamsignal <stream-id> <clid> <json>"@),
{
    let word = "streamsignal"@;
    reveal_strlit("streamsignal");
    assert(is_argument(word));
    let arguments = seq![stream, dec(client)];
    assert(seq![word] + arguments =~= seq![word, stream, dec(client)]);
    let rest = split::joined(arguments, ' ');
    lemma_joined(stream, dec(client), word, ' ');
    lemma_id(client);
    assert(rest.last() == dec(client).last());
    lemma_line(word, arguments);
    lemma_streamsignal_word(split::joined(arguments, ' '));
    lemma_first_pieces(arguments, 3, ' ');
    let p = split::first_pieces(rest, 3, ' ');
    assert(p == arguments);
    assert(grammar::nth(p, 0) == stream);
    assert(grammar::nth(p, 1) == dec(client));
    assert(grammar::nth(p, 2) == Seq::<char>::empty());
    assert(chars::trimmed(Seq::<char>::empty()) == Seq::<char>::empty());
}

proof fn lemma_unreadable_audio_is_refused(text: Seq<char>)
    requires
        is_argument(text),
        encoding::base64_value(text) is None,
    ensures
        read(line_of(seq!["audio"@, text]))
            == RequestView::Refused("Invalid audio payload: "@ + encoding::base64_fault(text)),
{
    let word = "audio"@;
    reveal_strlit("audio");
    assert(is_argument(word));
    let arguments = seq![text];
    assert(seq![word] + arguments =~= seq![word, text]);
    let rest = split::joined(arguments, ' ');
    lemma_joined(text, word, word, ' ');
    assert(rest == text);
    lemma_argument(text);
    assert(rest.last() == text.last());
    lemma_line(word, arguments);
    lemma_audio_word(split::joined(arguments, ' '));
}

/// Sound that is no base64 is refused, with what is wrong with it.
pub proof fn law_unreadable_audio_is_refused(text: Seq<char>)
    requires
        is_argument(text),
        encoding::base64_value(text) is None,
    ensures
        request_of(line_of(seq!["audio"@, text]))
            == RequestView::Refused("Invalid audio payload: "@ + encoding::base64_fault(text)),
{
    lemma_unreadable_audio_is_refused(text);
    reveal(read);
}

/// What is no number in a list does not count, and the rest keeps its order.
pub proof fn law_lists_keep_their_numbers(
    first: Seq<Seq<char>>,
    second: Seq<Seq<char>>,
    n: nat,
    text: Seq<char>,
)
    requires
        is_solid(text),
        !('0' <= text[0] <= '9'),
        text[0] != '+',
    ensures
        grammar::u64s_of(first + second) == grammar::u64s_of(first) + grammar::u64s_of(second),
        grammar::u16s_of(first + second) == grammar::u16s_of(first) + grammar::u16s_of(second),
        grammar::u64s_of(seq![dec(n)]) == if n <= u64::MAX {
            seq![n as u64]
        } else {
            Seq::empty()
        },
        grammar::u16s_of(seq![dec(n)]) == if n <= 65535 {
            seq![n as u16]
        } else {
            Seq::empty()
        },
        grammar::u64s_of(seq![text]) == Seq::<u64>::empty(),
        grammar::u16s_of(seq![text]) == Seq::<u16>::empty(),
    decreases second.len(),
{
    lemma_id(n);
    lemma_argument(text);
    number::law_other_characters_make_no_number(text, u64::MAX as int, 0);
    number::law_other_characters_make_no_number(text, u16::MAX as int, 0);
    let none = Seq::<Seq<char>>::empty();
    assert(seq![dec(n)].drop_last() =~= none);
    assert(seq![text].drop_last() =~= none);
    assert(grammar::u64s_of(none) =~= Seq::<u64>::empty());
    assert(grammar::u16s_of(none) =~= Seq::<u16>::empty());
    assert(grammar::u64s_of(seq![dec(n)]) =~= if n <= u64::MAX {
        seq![n as u64]
    } else {
        Seq::empty()
    });
    assert(grammar::u16s_of(seq![dec(n)]) =~= if n <= 65535 {
        seq![n as u16]
    } else {
        Seq::empty()
    });
    if second.len() == 0 {
        assert(first + second =~= first);
        assert(second =~= none);
        assert(
            grammar::u64s_of(first + second) =~= grammar::u64s_of(first) + grammar::u64s_of(second)
        );
        assert(
            grammar::u16s_of(first + second) =~= grammar::u16s_of(first) + grammar::u16s_of(second)
        );
    } else {
        law_lists_keep_their_numbers(first, second.drop_last(), n, text);
        assert((first + second).drop_last() =~= first + second.drop_last());
        assert((first + second).last() == second.last());
        assert(
            grammar::u64s_of(first + second) =~= grammar::u64s_of(first) + grammar::u64s_of(second)
        );
        assert(
            grammar::u16s_of(first + second) =~= grammar::u16s_of(first) + grammar::u16s_of(second)
        );
    }
}

proof fn lemma_unknown_lines_are_ignored(word: Seq<char>, rest: Seq<char>)
    requires
        is_argument(word),
        rest.len() > 0,
        !chars::is_white_space(rest.last()),
        word != "disconnect"@,
        word != "switch"@,
        word != "chat"@,
        word != "serverchat"@,
        word != "pm"@,
        word != "poke"@,
        word != "moveclient"@,
        word != "away"@,
        word != "muteinput"@,
        word != "muteoutput"@,
        word != "nickname"@,
        word != "whisper"@,
        word != "clientconninfo"@,
        word != "kickchannel"@,
        word != "kickserver"@,
        word != "banclient"@,
        word != "serveredit"@,
        word != "streaminfo"@,
        word != "streamsetup"@,
        word != "streamrespond"@,
        word != "streamstop"@,
        word != "streamjoin"@,
        word != "streamleave"@,
        word != "streamsignal"@,
        word != "bandel"@,
        word != "complaindel"@,
        word != "complaindelall"@,
        word != "messageget"@,
        word != "messageadd"@,
        word != "messagedel"@,
        word != "messageupdateflag"@,
        word != "setchannelgroup"@,
        word != "addservergroup"@,
        word != "delservergroup"@,
        word != "serverquerylogin"@,
        word != "ftlist"@,
        word != "ftmkdir"@,
        word != "ftdelete"@,
        word != "ftrename"@,
        word != "ftdownload"@,
        word != "ftupload"@,
        word != "permlist"@,
        word != "permadd"@,
        word != "permdel"@,
        word != "audio"@,
    ensures
        read(line_of(seq![word, rest])) is Ignored,
{
    let arguments = seq![rest];
    assert(seq![word] + arguments =~= seq![word, rest]);
    lemma_joined(rest, rest, rest, ' ');
    lemma_line(word, arguments);
    reveal(asked_by);
}

/// A line whose first word is not known asks for nothing.
pub proof fn law_unknown_lines_are_ignored(word: Seq<char>, rest: Seq<char>)
    requires
        is_argument(word),
        rest.len() > 0,
        !chars::is_white_space(rest.last()),
        word != "disconnect"@,
        word != "switch"@,
        word != "chat"@,
        word != "serverchat"@,
        word != "pm"@,
        word != "poke"@,
        word != "moveclient"@,
        word != "away"@,
        word != "muteinput"@,
        word != "muteoutput"@,
        word != "nickname"@,
        word != "whisper"@,
        word != "clientconninfo"@,
        word != "kickchannel"@,
        word != "kickserver"@,
        word != "banclient"@,
        word != "serveredit"@,
        word != "streaminfo"@,
        word != "streamsetup"@,
        word != "streamrespond"@,
        word != "streamstop"@,
        word != "streamjoin"@,
        word != "streamleave"@,
        word != "streamsignal"@,
        word != "bandel"@,
        word != "complaindel"@,
        word != "complaindelall"@,
        word != "messageget"@,
        word != "messageadd"@,
        word != "messagedel"@,
        word != "messageupdateflag"@,
        word != "setchannelgroup"@,
        word != "addservergroup"@,
        word != "delservergroup"@,
        word != "serverquerylogin"@,
        word != "ftlist"@,
        word != "ftmkdir"@,
        word != "ftdelete"@,
        word != "ftrename"@,
        word != "ftdownload"@,
        word != "ftupload"@,
        word != "permlist"@,
        word != "permadd"@,
        word != "permdel"@,
        word != "audio"@,
    ensures
        request_of(line_of(seq![word, rest])) is Ignored,
{
    lemma_unknown_lines_are_ignored(word, rest);
    reveal(read);
}

/// Whether two requests are the same, or both are refused.
pub open spec fn agree(a: RequestView, b: RequestView) -> bool {
    a == b || (a is Refused && b is Refused)
}

proof fn lemma_space_before_arguments(word: Seq<char>, lead: Seq<char>, rest: Seq<char>)
    requires
        chars::all_white(lead),
        is_solid(rest),
        word == "disconnect"@
            || word == "switch"@
            || word == "pm"@
            || word == "poke"@
            || word == "moveclient"@
            || word == "away"@
            || word == "muteinput"@
            || word == "muteoutput"@
            || word == "nickname"@
            || word == "clientconninfo"@
            || word == "streaminfo"@
            || word == "bandel"@
            || word == "complaindel"@
            || word == "complaindelall"@
            || word == "messageget"@
            || word == "messagedel"@
            || word == "messageupdateflag"@
            || word == "setchannelgroup"@
            || word == "addservergroup"@
            || word == "delservergroup"@
            || word == "ftlist"@
            || word == "ftmkdir"@
            || word == "ftdelete"@
            || word == "ftdownload"@
            || word == "audio"@,
    ensures
        agree(
            read(line_of(seq![word, lead + rest])),
            read(line_of(seq![word, rest])),
        ),
{
    let more = lead + rest;
    let none = Seq::<char>::empty();
    assert(lead + rest + none =~= more);
    chars::law_trimmed_is_what_stands_between(lead, rest, none);
    chars::lemma_trimmed(rest);
    lemma_known_word(word);
    assert(seq![word] + seq![more] =~= seq![word, more]);
    assert(seq![word] + seq![rest] =~= seq![word, rest]);
    lemma_joined(more, rest, rest, ' ');
    lemma_joined(rest, rest, rest, ' ');
    assert(more.last() == rest.last());
    lemma_line(word, seq![more]);
    lemma_line(word, seq![rest]);
    if word == "disconnect"@ {
        lemma_disconnect_word(more);
        lemma_disconnect_word(rest);
    }
    if word == "switch"@ {
        lemma_switch_word(more);
        lemma_switch_word(rest);
    }
    if word == "pm"@ {
        lemma_pm_word(more);
        lemma_pm_word(rest);
    }
    if word == "poke"@ {
        lemma_poke_word(more);
        lemma_poke_word(rest);
    }
    if word == "moveclient"@ {
        lemma_moveclient_word(more);
        lemma_moveclient_word(rest);
    }
    if word == "away"@ {
        lemma_away_word(more);
        lemma_away_word(rest);
    }
    if word == "muteinput"@ {
        lemma_muteinput_word(more);
        lemma_muteinput_word(rest);
    }
    if word == "muteoutput"@ {
        lemma_muteoutput_word(more);
        lemma_muteoutput_word(rest);
    }
    if word == "nickname"@ {
        lemma_nickname_word(more);
        lemma_nickname_word(rest);
    }
    if word == "clientconninfo"@ {
        lemma_clientconninfo_word(more);
        lemma_clientconninfo_word(rest);
    }
    if word == "streaminfo"@ {
        lemma_streaminfo_word(more);
        lemma_streaminfo_word(rest);
    }
    if word == "bandel"@ {
        lemma_bandel_word(more);
        lemma_bandel_word(rest);
    }
    if word == "complaindel"@ {
        lemma_complaindel_word(more);
        lemma_complaindel_word(rest);
    }
    if word == "complaindelall"@ {
        lemma_complaindelall_word(more);
        lemma_complaindelall_word(rest);
    }
    if word == "messageget"@ {
        lemma_messageget_word(more);
        lemma_messageget_word(rest);
    }
    if word == "messagedel"@ {
        lemma_messagedel_word(more);
        lemma_messagedel_word(rest);
    }
    if word == "messageupdateflag"@ {
        lemma_messageupdateflag_word(more);
        lemma_messageupdateflag_word(rest);
    }
    if word == "setchannelgroup"@ {
        lemma_setchannelgroup_word(more);
        lemma_setchannelgroup_word(rest);
    }
    if word == "addservergroup"@ {
        lemma_addservergroup_word(more);
        lemma_addservergroup_word(rest);
    }
    if word == "delservergroup"@ {
        lemma_delservergroup_word(more);
        lemma_delservergroup_word(rest);
    }
    if word == "ftlist"@ {
        lemma_ftlist_word(more);
        lemma_ftlist_word(rest);
    }
    if word == "ftmkdir"@ {
        lemma_ftmkdir_word(more);
        lemma_ftmkdir_word(rest);
    }
    if word == "ftdelete"@ {
        lemma_ftdelete_word(more);
        lemma_ftdelete_word(rest);
    }
    if word == "ftdownload"@ {
        lemma_ftdownload_word(more);
        lemma_ftdownload_word(rest);
    }
    if word == "audio"@ {
        lemma_audio_word(more);
        lemma_audio_word(rest);
    }
}

/// White space in front of the arguments does not count, for requests that do
/// not pass it on.
pub proof fn law_space_before_arguments(word: Seq<char>, lead: Seq<char>, rest: Seq<char>)
    requires
        chars::all_white(lead),
        is_solid(rest),
        word == "disconnect"@
            || word == "switch"@
            || word == "pm"@
            || word == "poke"@
            || word == "moveclient"@
            || word == "away"@
            || word == "muteinput"@
            || word == "muteoutput"@
            || word == "nickname"@
            || word == "clientconninfo"@
            || word == "streaminfo"@
            || word == "bandel"@
            || word == "complaindel"@
            || word == "complaindelall"@
            || word == "messageget"@
            || word == "messagedel"@
            || word == "messageupdateflag"@
            || word == "setchannelgroup"@
            || word == "addservergroup"@
            || word == "delservergroup"@
            || word == "ftlist"@
            || word == "ftmkdir"@
            || word == "ftdelete"@
            || word == "ftdownload"@
            || word == "audio"@,
    ensures
        agree(
            request_of(line_of(seq![word, lead + rest])),
            request_of(line_of(seq![word, rest])),
        ),
{
    lemma_space_before_arguments(word, lead, rest);
    reveal(read);
}

proof fn lemma_known_word(word: Seq<char>)
    requires
        word == "disconnect"@
            || word == "switch"@
            || word == "pm"@
            || word == "poke"@
            || word == "moveclient"@
            || word == "away"@
            || word == "muteinput"@
            || word == "muteoutput"@
            || word == "nickname"@
            || word == "clientconninfo"@
            || word == "streaminfo"@
            || word == "bandel"@
            || word == "complaindel"@
            || word == "complaindelall"@
            || word == "messageget"@
            || word == "messagedel"@
            || word == "messageupdateflag"@
            || word == "setchannelgroup"@
            || word == "addservergroup"@
            || word == "delservergroup"@
            || word == "ftlist"@
            || word == "ftmkdir"@
            || word == "ftdelete"@
            || word == "ftdownload"@
            || word == "audio"@,
    ensures
        is_argument(word),
{
    assert(is_argument("disconnect"@)) by {
        reveal_strlit("disconnect");
    }
    assert(is_argument("switch"@)) by {
        reveal_strlit("switch");
    }
    assert(is_argument("pm"@)) by {
        reveal_strlit("pm");
    }
    assert(is_argument("poke"@)) by {
        reveal_strlit("poke");
    }
    assert(is_argument("moveclient"@)) by {
        reveal_strlit("moveclient");
    }
    assert(is_argument("away"@)) by {
        reveal_strlit("away");
    }
    assert(is_argument("muteinput"@)) by {
        reveal_strlit("muteinput");
    }
    assert(is_argument("muteoutput"@)) by {
        reveal_strlit("muteoutput");
    }
    assert(is_argument("nickname"@)) by {
        reveal_strlit("nickname");
    }
    assert(is_argument("clientconninfo"@)) by {
        reveal_strlit("clientconninfo");
    }
    assert(is_argument("streaminfo"@)) by {
        reveal_strlit("streaminfo");
    }
    assert(is_argument("bandel"@)) by {
        reveal_strlit("bandel");
    }
    assert(is_argument("complaindel"@)) by {
        reveal_strlit("complaindel");
    }
    assert(is_argument("complaindelall"@)) by {
        reveal_strlit("complaindelall");
    }
    assert(is_argument("messageget"@)) by {
        reveal_strlit("messageget");
    }
    assert(is_argument("messagedel"@)) by {
        reveal_strlit("messagedel");
    }
    assert(is_argument("messageupdateflag"@)) by {
        reveal_strlit("messageupdateflag");
    }
    assert(is_argument("setchannelgroup"@)) by {
        reveal_strlit("setchannelgroup");
    }
    assert(is_argument("addservergroup"@)) by {
        reveal_strlit("addservergroup");
    }
    assert(is_argument("delservergroup"@)) by {
        reveal_strlit("delservergroup");
    }
    assert(is_argument("ftlist"@)) by {
        reveal_strlit("ftlist");
    }
    assert(is_argument("ftmkdir"@)) by {
        reveal_strlit("ftmkdir");
    }
    assert(is_argument("ftdelete"@)) by {
        reveal_strlit("ftdelete");
    }
    assert(is_argument("ftdownload"@)) by {
        reveal_strlit("ftdownload");
    }
    assert(is_argument("audio"@)) by {
        reveal_strlit("audio");
    }
}

proof fn lemma_kickchannel_takes_no_more_space(client: nat, reason: Seq<char>)
    requires
        is_solid(reason),
    ensures
        read(line_of(seq!["kickchannel"@, Seq::<char>::empty(), dec(client), reason]))
            == RequestView::Refused("Invalid client id: "@),
{
    let word = "kickchannel"@;
    reveal_strlit("kickchannel");
    assert(is_argument(word));
    let arguments = seq![Seq::<char>::empty(), dec(client), reason];
    assert(seq![word] + arguments =~= seq![word, Seq::<char>::empty(), dec(client), reason]);
    let rest = split::joined(arguments, ' ');
    let none = Seq::<char>::empty();
    lemma_joined(none, dec(client), reason, ' ');
    lemma_id(client);
    assert(rest.last() == reason.last());
    lemma_line(word, arguments);
    lemma_kickchannel_word(split::joined(arguments, ' '));
    let tail = dec(client).push(' ') + reason;
    lemma_joined(none, tail, tail, ' ');
    lemma_first_pieces(seq![none, tail], 2, ' ');
    number_of_nothing();
    assert("Invalid client id: "@ + none =~= "Invalid client id: "@);
}

/// The client stands right behind the first space.
pub proof fn law_kickchannel_takes_no_more_space(client: nat, reason: Seq<char>)
    requires
        is_solid(reason),
    ensures
        request_of(line_of(seq!["kickchannel"@, Seq::<char>::empty(), dec(client), reason]))
            == RequestView::Refused("Invalid client id: "@),
{
    lemma_kickchannel_takes_no_more_space(client, reason);
    reveal(read);
}

proof fn lemma_kickserver_takes_no_more_space(client: nat, reason: Seq<char>)
    requires
        is_solid(reason),
    ensures
        read(line_of(seq!["kickserver"@, Seq::<char>::empty(), dec(client), reason]))
            == RequestView::Refused("Invalid client id: "@),
{
    let word = "kickserver"@;
    reveal_strlit("kickserver");
    assert(is_argument(word));
    let arguments = seq![Seq::<char>::empty(), dec(client), reason];
    assert(seq![word] + arguments =~= seq![word, Seq::<char>::empty(), dec(client), reason]);
    let rest = split::joined(arguments, ' ');
    let none = Seq::<char>::empty();
    lemma_joined(none, dec(client), reason, ' ');
    lemma_id(client);
    assert(rest.last() == reason.last());
    lemma_line(word, arguments);
    lemma_kickserver_word(split::joined(arguments, ' '));
    let tail = dec(client).push(' ') + reason;
    lemma_joined(none, tail, tail, ' ');
    lemma_first_pieces(seq![none, tail], 2, ' ');
    number_of_nothing();
    assert("Invalid client id: "@ + none =~= "Invalid client id: "@);
}

/// The client stands right behind the first space.
pub proof fn law_kickserver_takes_no_more_space(client: nat, reason: Seq<char>)
    requires
        is_solid(reason),
    ensures
        request_of(line_of(seq!["kickserver"@, Seq::<char>::empty(), dec(client), reason]))
            == RequestView::Refused("Invalid client id: "@),
{
    lemma_kickserver_takes_no_more_space(client, reason);
    reveal(read);
}

proof fn lemma_banclient_takes_no_more_space(client: nat, reason: Seq<char>)
    requires
        is_solid(reason),
    ensures
        read(line_of(seq!["banclient"@, Seq::<char>::empty(), dec(client), reason]))
            == RequestView::Refused("Invalid client id: "@),
{
    let word = "banclient"@;
    reveal_strlit("banclient");
    assert(is_argument(word));
    let arguments = seq![Seq::<char>::empty(), dec(client), reason];
    assert(seq![word] + arguments =~= seq![word, Seq::<char>::empty(), dec(client), reason]);
    let rest = split::joined(arguments, ' ');
    let none = Seq::<char>::empty();
    lemma_joined(none, dec(client), reason, ' ');
    lemma_id(client);
    assert(rest.last() == reason.last());
    lemma_line(word, arguments);
    lemma_banclient_word(split::joined(arguments, ' '));
    lemma_first_pieces(arguments, 3, ' ');
    number_of_nothing();
    assert("Invalid client id: "@ + none =~= "Invalid client id: "@);
}

/// The client stands right behind the first space.
pub proof fn law_banclient_takes_no_more_space(client: nat, reason: Seq<char>)
    requires
        is_solid(reason),
    ensures
        request_of(line_of(seq!["banclient"@, Seq::<char>::empty(), dec(client), reason]))
            == RequestView::Refused("Invalid client id: "@),
{
    lemma_banclient_takes_no_more_space(client, reason);
    reveal(read);
}

} // verus!
