use vstd::prelude::*;

use crate::voice::book;
use crate::voice::book::Book;

verus! {

/// A property of a channel that can change.
#[derive(Clone, Copy, Debug, PartialEq, Eq, Structural)]
pub enum ChannelProperty {
    Name,
    Topic,
    MaxClients,
    MaxFamilyClients,
    HasPassword,
    NeededTalkPower,
    Codec,
    CodecQuality,
    IsDefault,
    DeleteDelay,
    PhoneticName,
    IsPrivate,
    ForcedSilence,
    Order,
    Parent,
    Other,
}

/// A property of the server that can change.
#[derive(Clone, Copy, Debug, PartialEq, Eq, Structural)]
pub enum ServerProperty {
    Name,
    WelcomeMessage,
    Hostmessage,
    HostmessageMode,
    HostbannerUrl,
    HostbannerGfxUrl,
    HostbannerGfxInterval,
    HostbannerMode,
    HostbuttonTooltip,
    HostbuttonUrl,
    HostbuttonGfxUrl,
    PhoneticName,
    Icon,
    MaxClients,
    AskForPrivilegekey,
    DefaultServerGroup,
    DefaultChannelGroup,
    CodecEncryptionMode,
    TempChannelDefaultDeleteDelay,
    PrioritySpeakerDimmModificator,
    Other,
}

/// A change to what is known of the server.
pub enum BookChange {
    ClientAdded(u16),
    ClientRemoved { name: String },
    ChannelAdded(u64),
    ChannelRemoved { name: String },
    /// A client left the channel for the one it is in now.
    ClientMoved { client: u16, from: u64 },
    ChannelGroupChanged(u16),
    ChannelChanged { channel: u64, property: ChannelProperty },
    ServerChanged(ServerProperty),
    /// A client got a server group, or lost one.
    ServerGroupAdded(u16),
    ServerGroupRemoved(u16),
    Other,
}

/// An entry of the log that people read.
pub enum ServerLogEntry {
    ClientJoin { client: String, channel: String },
    ClientLeave { client: String },
    ClientChannelSwitch { client: String, from_channel: String, to_channel: String },
    ClientChannelGroupAssigned { client: String, group: String },
    ChannelCreated { channel: String },
    ChannelDeleted { channel: String },
    ChannelEdited { channel: String },
    ServerEdited,
    PermissionError { action: String },
}

/// An entry as plain text.
pub enum LogView {
    ClientJoin { client: Seq<char>, channel: Seq<char> },
    ClientLeave { client: Seq<char> },
    ClientChannelSwitch { client: Seq<char>, from_channel: Seq<char>, to_channel: Seq<char> },
    ClientChannelGroupAssigned { client: Seq<char>, group: Seq<char> },
    ChannelCreated { channel: Seq<char> },
    ChannelDeleted { channel: Seq<char> },
    ChannelEdited { channel: Seq<char> },
    ServerEdited,
    PermissionError { action: Seq<char> },
}

impl View for ServerLogEntry {
    type V = LogView;

    open spec fn view(&self) -> LogView {
        match self {
            ServerLogEntry::ClientJoin { client, channel } => LogView::ClientJoin {
                client: client@,
                channel: channel@,
            },
            ServerLogEntry::ClientLeave { client } => LogView::ClientLeave { client: client@ },
            ServerLogEntry::ClientChannelSwitch { client, from_channel, to_channel } =>
                LogView::ClientChannelSwitch {
                client: client@,
                from_channel: from_channel@,
                to_channel: to_channel@,
            },
            ServerLogEntry::ClientChannelGroupAssigned { client, group } =>
                LogView::ClientChannelGroupAssigned { client: client@, group: group@ },
            ServerLogEntry::ChannelCreated { channel } => LogView::ChannelCreated {
                channel: channel@,
            },
            ServerLogEntry::ChannelDeleted { channel } => LogView::ChannelDeleted {
                channel: channel@,
            },
            ServerLogEntry::ChannelEdited { channel } => LogView::ChannelEdited {
                channel: channel@,
            },
            ServerLogEntry::ServerEdited => LogView::ServerEdited,
            ServerLogEntry::PermissionError { action } => LogView::PermissionError {
                action: action@,
            },
        }
    }
}

/// What the log says of a change. A change to a client or channel that is no
/// longer known, and one that nobody would want to read about, is not logged.
pub open spec fn logged(book: Book, change: BookChange) -> Option<LogView> {
    let channels = book.channels@;
    match change {
        BookChange::ClientAdded(id) => match book::client_with(book.clients@, id) {
            Some(c) => Some(
                LogView::ClientJoin {
                    client: c.name@,
                    channel: book::channel_name(channels, c.channel),
                },
            ),
            None => None,
        },
        BookChange::ClientRemoved { name } => Some(LogView::ClientLeave { client: name@ }),
        BookChange::ChannelAdded(id) => match book::channel_with(channels, id) {
            Some(c) => Some(LogView::ChannelCreated { channel: c.name@ }),
            None => None,
        },
        BookChange::ChannelRemoved { name } => Some(LogView::ChannelDeleted { channel: name@ }),
        BookChange::ClientMoved { client, from } => match book::client_with(
            book.clients@,
            client,
        ) {
            Some(c) => Some(
                LogView::ClientChannelSwitch {
                    client: c.name@,
                    from_channel: book::channel_name(channels, from),
                    to_channel: book::channel_name(channels, c.channel),
                },
            ),
            None => None,
        },
        BookChange::ChannelGroupChanged(id) => match book::client_with(book.clients@, id) {
            Some(c) => Some(
                LogView::ClientChannelGroupAssigned {
                    client: c.name@,
                    group: match book::group_with(book.channel_groups@, c.channel_group) {
                        Some(g) => g.name@,
                        None => Seq::empty(),
                    },
                },
            ),
            None => None,
        },
        BookChange::ChannelChanged { channel, property } => if property
            == ChannelProperty::Other {
            None
        } else {
            match book::channel_with(channels, channel) {
                Some(c) => Some(LogView::ChannelEdited { channel: c.name@ }),
                None => None,
            }
        },
        BookChange::ServerChanged(property) => if property == ServerProperty::Other {
            None
        } else {
            Some(LogView::ServerEdited)
        },
        BookChange::ServerGroupAdded(_) => None,
        BookChange::ServerGroupRemoved(_) => None,
        BookChange::Other => None,
    }
}

/// Writes the log entry for a change, if it gets one.
pub fn log_book_event(book: &Book, change: &BookChange) -> (r: Option<ServerLogEntry>)
    ensures
        match r {
            Some(entry) => logged(*book, *change) == Some(entry@),
            None => logged(*book, *change) is None,
        },
{
    match change {
        BookChange::ClientAdded(id) => match book::find_client(&book.clients, *id) {
            Some(c) => Some(
                ServerLogEntry::ClientJoin {
                    client: c.name.clone(),
                    channel: book::name_of_channel(&book.channels, c.channel),
                },
            ),
            None => None,
        },
        BookChange::ClientRemoved { name } => Some(
            ServerLogEntry::ClientLeave { client: name.clone() },
        ),
        BookChange::ChannelAdded(id) => match book::find_channel(&book.channels, *id) {
            Some(c) => Some(ServerLogEntry::ChannelCreated { channel: c.name.clone() }),
            None => None,
        },
        BookChange::ChannelRemoved { name } => Some(
            ServerLogEntry::ChannelDeleted { channel: name.clone() },
        ),
        BookChange::ClientMoved { client, from } => match book::find_client(
            &book.clients,
            *client,
        ) {
            Some(c) => Some(
                ServerLogEntry::ClientChannelSwitch {
                    client: c.name.clone(),
                    from_channel: book::name_of_channel(&book.channels, *from),
                    to_channel: book::name_of_channel(&book.channels, c.channel),
                },
            ),
            None => None,
        },
        BookChange::ChannelGroupChanged(id) => match book::find_client(&book.clients, *id) {
            Some(c) => {
                let group = match book::find_group(&book.channel_groups, c.channel_group) {
                    Some(g) => g.name.clone(),
                    None => String::new(),
                };
                Some(
                    ServerLogEntry::ClientChannelGroupAssigned { client: c.name.clone(), group },
                )
            },
            None => None,
        },
        BookChange::ChannelChanged { channel, property } => {
            if *property == ChannelProperty::Other {
                return None;
            }
            match book::find_channel(&book.channels, *channel) {
                Some(c) => Some(ServerLogEntry::ChannelEdited { channel: c.name.clone() }),
                None => None,
            }
        },
        BookChange::ServerChanged(property) => {
            if *property == ServerProperty::Other {
                None
            } else {
                Some(ServerLogEntry::ServerEdited)
            }
        },
        BookChange::ServerGroupAdded(_) => None,
        BookChange::ServerGroupRemoved(_) => None,
        BookChange::Other => None,
    }
}

/// Milliseconds to wait before the channels are subscribed to again.
pub const RESUBSCRIBE_DELAY_MILLIS: u64 = 250;

/// Whether a change may have made channels visible: the own server groups
/// changed.
pub fn reveals_channels(own_client: u16, change: &BookChange) -> (r: bool)
    ensures
        r == match change {
            BookChange::ServerGroupAdded(id) => *id == own_client,
            BookChange::ServerGroupRemoved(id) => *id == own_client,
            _ => false,
        },
        r <==> *change == BookChange::ServerGroupAdded(own_client) || *change
            == BookChange::ServerGroupRemoved(own_client),
{
    match change {
        BookChange::ServerGroupAdded(id) => *id == own_client,
        BookChange::ServerGroupRemoved(id) => *id == own_client,
        _ => false,
    }
}

/// A known client that joins or moves is logged with its name and the names
/// of the channels, and one that is not known is not logged.
pub proof fn law_known_clients_are_logged(book: Book, id: u16, from: u64)
    ensures
        match book::client_with(book.clients@, id) {
            Some(c) => {
                &&& logged(book, BookChange::ClientAdded(id)) == Some(
                    LogView::ClientJoin {
                        client: c.name@,
                        channel: book::channel_name(book.channels@, c.channel),
                    },
                )
                &&& logged(book, BookChange::ClientMoved { client: id, from }) == Some(
                    LogView::ClientChannelSwitch {
                        client: c.name@,
                        from_channel: book::channel_name(book.channels@, from),
                        to_channel: book::channel_name(book.channels@, c.channel),
                    },
                )
                &&& logged(book, BookChange::ChannelGroupChanged(id)) matches Some(entry)
                    && entry matches LogView::ClientChannelGroupAssigned { client, group } && client
                    == c.name@ && (book::group_with(book.channel_groups@, c.channel_group) matches
                Some(g) ==> group == g.name@) && (book::group_with(
                    book.channel_groups@,
                    c.channel_group,
                ) is None ==> group.len() == 0)
            },
            None => {
                &&& logged(book, BookChange::ClientAdded(id)) is None
                &&& logged(book, BookChange::ClientMoved { client: id, from }) is None
                &&& logged(book, BookChange::ChannelGroupChanged(id)) is None
            },
        },
{
}

/// A known channel that is made or edited is logged with its name, for every
/// property that people read about; what is gone is logged by the name it had.
pub proof fn law_known_channels_are_logged(
    book: Book,
    id: u64,
    property: ChannelProperty,
    name: String,
)
    ensures
        logged(book, BookChange::ClientRemoved { name }) == Some(
            LogView::ClientLeave { client: name@ },
        ),
        logged(book, BookChange::ChannelRemoved { name }) == Some(
            LogView::ChannelDeleted { channel: name@ },
        ),
        match book::channel_with(book.channels@, id) {
            Some(c) => {
                &&& logged(book, BookChange::ChannelAdded(id)) == Some(
                    LogView::ChannelCreated { channel: c.name@ },
                )
                &&& property != ChannelProperty::Other ==> logged(
                    book,
                    BookChange::ChannelChanged { channel: id, property },
                ) == Some(LogView::ChannelEdited { channel: c.name@ })
            },
            None => {
                &&& logged(book, BookChange::ChannelAdded(id)) is None
                &&& logged(book, BookChange::ChannelChanged { channel: id, property }) is None
            },
        },
        logged(
            book,
            BookChange::ChannelChanged { channel: id, property: ChannelProperty::Other },
        ) is None,
{
}

/// The server's settings are logged where people read about them; groups that
/// come and go are not logged.
pub proof fn law_server_settings_are_logged(book: Book, property: ServerProperty, id: u16)
    ensures
        logged(book, BookChange::ServerChanged(property)) is Some <==> property
            != ServerProperty::Other,
        property != ServerProperty::Other ==> logged(book, BookChange::ServerChanged(property))
            == Some(LogView::ServerEdited),
        logged(book, BookChange::ServerGroupAdded(id)) is None,
        logged(book, BookChange::ServerGroupRemoved(id)) is None,
        logged(book, BookChange::Other) is None,
{
}

} // verus!
