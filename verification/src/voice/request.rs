use vstd::prelude::*;

use crate::text::list;
use crate::voice::packet::Command;
use crate::voice::packet::CommandView;

verus! {

/// What a message to the server is about; its answer is reported under this
/// label.
#[derive(Clone, Copy, Debug, PartialEq, Eq, Structural)]
pub enum Label {
    ChannelSwitch,
    ChannelMessage,
    ServerMessage,
    PrivateMessage,
    Poke,
    MoveClient,
    ConnectionInfo,
    KickFromChannel,
    KickFromServer,
    BanClient,
    ServerEdit,
    ServerConnectionInfo,
    ServerLog,
    StartStream,
    StreamJoinResponse,
    StreamSignaling,
    BanList,
    DeleteBan,
    DeleteAllBans,
    ComplainList,
    DeleteComplaint,
    DeleteAllComplaints,
    OfflineMessageList,
    OfflineMessage,
    SendOfflineMessage,
    DeleteOfflineMessage,
    MarkOfflineMessage,
    ChannelGroupList,
    ServerGroupList,
    AssignChannelGroup,
    AssignServerGroup,
    RemoveServerGroup,
    ServerQueryLogin,
    PermissionList,
    PermissionOverview,
    FileList,
    CreateDirectory,
    DeleteFile,
    RenameFile,
    PermissionListRequest,
    AddPermission,
    RemovePermission,
}

impl Label {
    pub open spec fn words(self) -> Seq<char> {
        match self {
            Label::ChannelSwitch => "Channel switch"@,
            Label::ChannelMessage => "Channel message"@,
            Label::ServerMessage => "Server message"@,
            Label::PrivateMessage => "Private message"@,
            Label::Poke => "Poke"@,
            Label::MoveClient => "Move client"@,
            Label::ConnectionInfo => "Connection info"@,
            Label::KickFromChannel => "Kick from channel"@,
            Label::KickFromServer => "Kick from server"@,
            Label::BanClient => "Ban client"@,
            Label::ServerEdit => "Server edit"@,
            Label::ServerConnectionInfo => "Server connection info"@,
            Label::ServerLog => "Server log"@,
            Label::StartStream => "Start stream"@,
            Label::StreamJoinResponse => "Stream join response"@,
            Label::StreamSignaling => "Stream signaling"@,
            Label::BanList => "Ban list"@,
            Label::DeleteBan => "Delete ban"@,
            Label::DeleteAllBans => "Delete all bans"@,
            Label::ComplainList => "Complain list"@,
            Label::DeleteComplaint => "Delete complaint"@,
            Label::DeleteAllComplaints => "Delete all complaints for client"@,
            Label::OfflineMessageList => "Offline message list"@,
            Label::OfflineMessage => "Offline message"@,
            Label::SendOfflineMessage => "Send offline message"@,
            Label::DeleteOfflineMessage => "Delete offline message"@,
            Label::MarkOfflineMessage => "Mark offline message read"@,
            Label::ChannelGroupList => "Channel group list"@,
            Label::ServerGroupList => "Server group list"@,
            Label::AssignChannelGroup => "Assign channel group"@,
            Label::AssignServerGroup => "Assign server group"@,
            Label::RemoveServerGroup => "Remove server group"@,
            Label::ServerQueryLogin => "ServerQuery Login"@,
            Label::PermissionList => "Permission list"@,
            Label::PermissionOverview => "Permission overview"@,
            Label::FileList => "File list"@,
            Label::CreateDirectory => "Create directory"@,
            Label::DeleteFile => "Delete file"@,
            Label::RenameFile => "Rename file"@,
            Label::PermissionListRequest => "Permission list request"@,
            Label::AddPermission => "Add permission"@,
            Label::RemovePermission => "Remove permission"@,
        }
    }

    /// The label as shown to people.
    pub fn text(self) -> (r: &'static str)
        ensures
            r@ == self.words(),
    {
        match self {
            Label::ChannelSwitch => "Channel switch",
            Label::ChannelMessage => "Channel message",
            Label::ServerMessage => "Server message",
            Label::PrivateMessage => "Private message",
            Label::Poke => "Poke",
            Label::MoveClient => "Move client",
            Label::ConnectionInfo => "Connection info",
            Label::KickFromChannel => "Kick from channel",
            Label::KickFromServer => "Kick from server",
            Label::BanClient => "Ban client",
            Label::ServerEdit => "Server edit",
            Label::ServerConnectionInfo => "Server connection info",
            Label::ServerLog => "Server log",
            Label::StartStream => "Start stream",
            Label::StreamJoinResponse => "Stream join response",
            Label::StreamSignaling => "Stream signaling",
            Label::BanList => "Ban list",
            Label::DeleteBan => "Delete ban",
            Label::DeleteAllBans => "Delete all bans",
            Label::ComplainList => "Complain list",
            Label::DeleteComplaint => "Delete complaint",
            Label::DeleteAllComplaints => "Delete all complaints for client",
            Label::OfflineMessageList => "Offline message list",
            Label::OfflineMessage => "Offline message",
            Label::SendOfflineMessage => "Send offline message",
            Label::DeleteOfflineMessage => "Delete offline message",
            Label::MarkOfflineMessage => "Mark offline message read",
            Label::ChannelGroupList => "Channel group list",
            Label::ServerGroupList => "Server group list",
            Label::AssignChannelGroup => "Assign channel group",
            Label::AssignServerGroup => "Assign server group",
            Label::RemoveServerGroup => "Remove server group",
            Label::ServerQueryLogin => "ServerQuery Login",
            Label::PermissionList => "Permission list",
            Label::PermissionOverview => "Permission overview",
            Label::FileList => "File list",
            Label::CreateDirectory => "Create directory",
            Label::DeleteFile => "Delete file",
            Label::RenameFile => "Rename file",
            Label::PermissionListRequest => "Permission list request",
            Label::AddPermission => "Add permission",
            Label::RemovePermission => "Remove permission",
        }
    }
}

/// Whom a text message is for.
#[derive(Clone, Copy, Debug, PartialEq, Eq, Structural)]
pub enum TextTarget {
    Channel,
    Server,
    Client(u16),
}

/// What a client is kicked out of.
#[derive(Clone, Copy, Debug, PartialEq, Eq, Structural)]
pub enum KickPlace {
    Channel,
    Server,
}

/// Whose permissions are meant.
#[derive(Clone, Copy, Debug, PartialEq, Eq, Structural)]
pub enum PermissionTarget {
    ServerGroup(u64),
    ChannelGroup(u64),
    Channel(u64),
    Client(u64),
    ChannelClient(u64, u64),
}

impl PermissionTarget {
    /// The word for the kind of target.
    pub open spec fn scope_word(self) -> Seq<char> {
        match self {
            PermissionTarget::ServerGroup(_) => "server"@,
            PermissionTarget::ChannelGroup(_) => "channelgroup"@,
            PermissionTarget::Channel(_) => "channel"@,
            PermissionTarget::Client(_) => "client"@,
            PermissionTarget::ChannelClient(_, _) => "channelclient"@,
        }
    }

    pub fn scope(self) -> (r: &'static str)
        ensures
            r@ == self.scope_word(),
    {
        match self {
            PermissionTarget::ServerGroup(_) => "server",
            PermissionTarget::ChannelGroup(_) => "channelgroup",
            PermissionTarget::Channel(_) => "channel",
            PermissionTarget::Client(_) => "client",
            PermissionTarget::ChannelClient(_, _) => "channelclient",
        }
    }

    /// The first id, and the second where the target has one.
    pub fn ids(self) -> (r: (u64, Option<u64>))
        ensures
            r == match self {
                PermissionTarget::ServerGroup(id) => (id, None),
                PermissionTarget::ChannelGroup(id) => (id, None),
                PermissionTarget::Channel(id) => (id, None),
                PermissionTarget::Client(id) => (id, None),
                PermissionTarget::ChannelClient(channel, client) => (channel, Some(client)),
            },
    {
        match self {
            PermissionTarget::ServerGroup(id) => (id, None),
            PermissionTarget::ChannelGroup(id) => (id, None),
            PermissionTarget::Channel(id) => (id, None),
            PermissionTarget::Client(id) => (id, None),
            PermissionTarget::ChannelClient(channel, client) => (channel, Some(client)),
        }
    }
}

/// A permission to assign.
#[derive(Clone, Copy, Debug, PartialEq, Eq, Structural)]
pub struct Grant {
    pub permission: u32,
    pub value: i32,
    pub negated: bool,
    pub skip: bool,
}

/// How a command is sent: under which label its answer is awaited, if at all,
/// and whether a failure to send it names the command.
#[derive(Clone, Copy, Debug, PartialEq, Eq, Structural)]
pub struct Delivery {
    pub label: Option<Label>,
    pub names_failure: bool,
}

/// What a line of input asks for.
pub enum Request {
    /// Nothing that is known.
    Ignored,
    /// Nothing that can be done, for the reason given.
    Refused(String),
    Disconnect(Option<String>),
    Switch { channel: u64, password: Option<String> },
    MoveClient { client: u16, channel: u64, password: Option<String> },
    Text { recipient: TextTarget, message: String },
    Poke { client: u16, message: String },
    /// Away with a message, or back again.
    Away(Option<String>),
    MuteInput(bool),
    MuteOutput(bool),
    Nickname(String),
    /// Voice goes to these alone; to the own channel where there are none.
    Whisper { channels: Vec<u64>, clients: Vec<u16> },
    ClientInfo(u16),
    Kick { client: u16, place: KickPlace, reason: Option<String> },
    /// Settings of the server, as JSON.
    ServerEdit(String),
    ServerInfo,
    ServerLog,
    /// A stream to announce, as JSON.
    StreamSetup(String),
    /// The reply to a viewer, as JSON.
    StreamRespond(String),
    Send { command: Command, delivery: Delivery },
    PermissionOverview,
    PermissionCatalog,
    ListPermissions(PermissionTarget),
    AddPermission { target: PermissionTarget, grant: Grant },
    RemovePermission { target: PermissionTarget, permission: u32 },
    ListFiles { channel: u64, path: String },
    MakeDirectory { channel: u64, name: String },
    DeleteFile { channel: u64, name: String },
    RenameFile { channel: u64, old_name: String, new_name: String },
    Download { channel: u64, path: String },
    Upload { channel: u64, path: String, data: Vec<u8> },
    /// Sound from the microphone, 16-bit samples.
    Audio(Vec<u8>),
}

/// A request as plain values.
pub enum RequestView {
    Ignored,
    Refused(Seq<char>),
    Disconnect(Option<Seq<char>>),
    Switch { channel: u64, password: Option<Seq<char>> },
    MoveClient { client: u16, channel: u64, password: Option<Seq<char>> },
    Text { recipient: TextTarget, message: Seq<char> },
    Poke { client: u16, message: Seq<char> },
    Away(Option<Seq<char>>),
    MuteInput(bool),
    MuteOutput(bool),
    Nickname(Seq<char>),
    Whisper { channels: Seq<u64>, clients: Seq<u16> },
    ClientInfo(u16),
    Kick { client: u16, place: KickPlace, reason: Option<Seq<char>> },
    ServerEdit(Seq<char>),
    ServerInfo,
    ServerLog,
    StreamSetup(Seq<char>),
    StreamRespond(Seq<char>),
    Send { command: CommandView, delivery: Delivery },
    PermissionOverview,
    PermissionCatalog,
    ListPermissions(PermissionTarget),
    AddPermission { target: PermissionTarget, grant: Grant },
    RemovePermission { target: PermissionTarget, permission: u32 },
    ListFiles { channel: u64, path: Seq<char> },
    MakeDirectory { channel: u64, name: Seq<char> },
    DeleteFile { channel: u64, name: Seq<char> },
    RenameFile { channel: u64, old_name: Seq<char>, new_name: Seq<char> },
    Download { channel: u64, path: Seq<char> },
    Upload { channel: u64, path: Seq<char>, data: Seq<u8> },
    Audio(Seq<u8>),
}

impl View for Request {
    type V = RequestView;

    open spec fn view(&self) -> RequestView {
        match self {
            Request::Ignored => RequestView::Ignored,
            Request::Refused(m) => RequestView::Refused(m@),
            Request::Disconnect(m) => RequestView::Disconnect(list::text_of(*m)),
            Request::Switch { channel, password } => RequestView::Switch {
                channel: *channel,
                password: list::text_of(*password),
            },
            Request::MoveClient { client, channel, password } => RequestView::MoveClient {
                client: *client,
                channel: *channel,
                password: list::text_of(*password),
            },
            Request::Text { recipient, message } => RequestView::Text {
                recipient: *recipient,
                message: message@,
            },
            Request::Poke { client, message } => RequestView::Poke {
                client: *client,
                message: message@,
            },
            Request::Away(m) => RequestView::Away(list::text_of(*m)),
            Request::MuteInput(on) => RequestView::MuteInput(*on),
            Request::MuteOutput(on) => RequestView::MuteOutput(*on),
            Request::Nickname(name) => RequestView::Nickname(name@),
            Request::Whisper { channels, clients } => RequestView::Whisper {
                channels: channels@,
                clients: clients@,
            },
            Request::ClientInfo(client) => RequestView::ClientInfo(*client),
            Request::Kick { client, place, reason } => RequestView::Kick {
                client: *client,
                place: *place,
                reason: list::text_of(*reason),
            },
            Request::ServerEdit(json) => RequestView::ServerEdit(json@),
            Request::ServerInfo => RequestView::ServerInfo,
            Request::ServerLog => RequestView::ServerLog,
            Request::StreamSetup(json) => RequestView::StreamSetup(json@),
            Request::StreamRespond(json) => RequestView::StreamRespond(json@),
            Request::Send { command, delivery } => RequestView::Send {
                command: command@,
                delivery: *delivery,
            },
            Request::PermissionOverview => RequestView::PermissionOverview,
            Request::PermissionCatalog => RequestView::PermissionCatalog,
            Request::ListPermissions(target) => RequestView::ListPermissions(*target),
            Request::AddPermission { target, grant } => RequestView::AddPermission {
                target: *target,
                grant: *grant,
            },
            Request::RemovePermission { target, permission } => RequestView::RemovePermission {
                target: *target,
                permission: *permission,
            },
            Request::ListFiles { channel, path } => RequestView::ListFiles {
                channel: *channel,
                path: path@,
            },
            Request::MakeDirectory { channel, name } => RequestView::MakeDirectory {
                channel: *channel,
                name: name@,
            },
            Request::DeleteFile { channel, name } => RequestView::DeleteFile {
                channel: *channel,
                name: name@,
            },
            Request::RenameFile { channel, old_name, new_name } => RequestView::RenameFile {
                channel: *channel,
                old_name: old_name@,
                new_name: new_name@,
            },
            Request::Download { channel, path } => RequestView::Download {
                channel: *channel,
                path: path@,
            },
            Request::Upload { channel, path, data } => RequestView::Upload {
                channel: *channel,
                path: path@,
                data: data@,
            },
            Request::Audio(data) => RequestView::Audio(data@),
        }
    }
}

} // verus!
