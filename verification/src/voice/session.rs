use vstd::prelude::*;

use crate::text::chars;
use crate::text::join;
use crate::text::number;
use crate::voice::book;
use crate::voice::book::BookClient;
use crate::voice::book::GroupEntry;
use crate::voice::log::LogView;
use crate::voice::log::ServerLogEntry;
use crate::voice::packet::Command;
use crate::voice::packet::CommandView;
use crate::voice::pending::Pending;
use crate::voice::permissions;
use crate::voice::permissions::BookView;
use crate::voice::permissions::CatalogDone;
use crate::voice::permissions::CatalogLine;
use crate::voice::permissions::ListedPermission;
use crate::voice::permissions::PermissionBook;
use crate::voice::permissions::PermissionEntry;
use crate::voice::permissions::RawPermission;
use crate::voice::request::Delivery;
use crate::voice::request::KickPlace;
use crate::voice::request::Label;
use crate::voice::request::PermissionTarget;
use crate::voice::request::Request;
use crate::voice::request::RequestView;
use crate::voice::request::TextTarget;
use crate::voice::transfers::FileList;
use crate::voice::transfers::FileListEntry;
use crate::voice::transfers::FileListing;

verus! {

/// A ban.
pub struct BanListEntry {
    pub ban_id: u32,
    pub ip: String,
    pub name: String,
    pub uid: String,
    pub last_nickname: String,
    pub created: String,
    pub duration_secs: i64,
    pub invoker_name: String,
    pub reason: String,
    pub enforcements: u32,
}

/// A complaint.
pub struct ComplainListEntry {
    pub target_client_db_id: u64,
    pub target_name: String,
    pub from_client_db_id: u64,
    pub from_name: String,
    pub message: String,
    pub timestamp: String,
}

/// An offline message in a list.
pub struct OfflineMessageListEntry {
    pub message_id: u32,
    pub client_uid: String,
    pub subject: String,
    pub timestamp: String,
    pub is_read: bool,
}

/// An offline message.
pub struct OfflineMessage {
    pub message_id: u32,
    pub client_uid: String,
    pub subject: String,
    pub message: String,
    pub timestamp: String,
}

/// The lists that were asked for and have not come.
#[derive(Clone, Copy, Debug, PartialEq, Eq, Structural)]
pub struct Awaited {
    pub server_log: bool,
    pub bans: bool,
    pub complaints: bool,
    pub offline_messages: bool,
    pub offline_message: bool,
    pub channel_groups: bool,
    pub server_groups: bool,
    pub server_info: bool,
    pub client_info: Option<u16>,
}

impl Awaited {
    pub open spec fn nothing() -> Awaited {
        Awaited {
            server_log: false,
            bans: false,
            complaints: false,
            offline_messages: false,
            offline_message: false,
            channel_groups: false,
            server_groups: false,
            server_info: false,
            client_info: None,
        }
    }

    /// What is awaited once a message with the label was sent.
    pub open spec fn after(self, label: Label) -> Awaited {
        match label {
            Label::ServerLog => Awaited { server_log: true, ..self },
            Label::BanList => Awaited { bans: true, ..self },
            Label::ComplainList => Awaited { complaints: true, ..self },
            Label::OfflineMessageList => Awaited { offline_messages: true, ..self },
            Label::OfflineMessage => Awaited { offline_message: true, ..self },
            Label::ChannelGroupList => Awaited { channel_groups: true, ..self },
            Label::ServerGroupList => Awaited { server_groups: true, ..self },
            Label::ServerConnectionInfo => Awaited { server_info: true, ..self },
            _ => self,
        }
    }

    fn note(self, label: Label) -> (r: Awaited)
        ensures
            r == self.after(label),
    {
        match label {
            Label::ServerLog => Awaited { server_log: true, ..self },
            Label::BanList => Awaited { bans: true, ..self },
            Label::ComplainList => Awaited { complaints: true, ..self },
            Label::OfflineMessageList => Awaited { offline_messages: true, ..self },
            Label::OfflineMessage => Awaited { offline_message: true, ..self },
            Label::ChannelGroupList => Awaited { channel_groups: true, ..self },
            Label::ServerGroupList => Awaited { server_groups: true, ..self },
            Label::ServerConnectionInfo => Awaited { server_info: true, ..self },
            _ => self,
        }
    }
}

/// The label under which the answer to a request is awaited; none where no
/// answer is.
pub open spec fn label_of(request: Request) -> Option<Label> {
    match request {
        Request::Switch { .. } => Some(Label::ChannelSwitch),
        Request::MoveClient { .. } => Some(Label::MoveClient),
        Request::Text { recipient, .. } => Some(
            match recipient {
                TextTarget::Channel => Label::ChannelMessage,
                TextTarget::Server => Label::ServerMessage,
                TextTarget::Client(_) => Label::PrivateMessage,
            },
        ),
        Request::Poke { .. } => Some(Label::Poke),
        Request::ClientInfo(_) => Some(Label::ConnectionInfo),
        Request::Kick { place, .. } => Some(
            match place {
                KickPlace::Channel => Label::KickFromChannel,
                KickPlace::Server => Label::KickFromServer,
            },
        ),
        Request::ServerEdit(_) => Some(Label::ServerEdit),
        Request::ServerInfo => Some(Label::ServerConnectionInfo),
        Request::ServerLog => Some(Label::ServerLog),
        Request::Send { delivery, .. } => delivery.label,
        Request::PermissionOverview => Some(Label::PermissionOverview),
        Request::PermissionCatalog => Some(Label::PermissionList),
        Request::ListPermissions(_) => Some(Label::PermissionListRequest),
        Request::AddPermission { .. } => Some(Label::AddPermission),
        Request::RemovePermission { .. } => Some(Label::RemovePermission),
        Request::ListFiles { .. } => Some(Label::FileList),
        Request::MakeDirectory { .. } => Some(Label::CreateDirectory),
        Request::DeleteFile { .. } => Some(Label::DeleteFile),
        Request::RenameFile { .. } => Some(Label::RenameFile),
        _ => None,
    }
}

/// Finds the label under which the answer to a request is awaited.
pub fn request_label(request: &Request) -> (r: Option<Label>)
    ensures
        r == label_of(*request),
{
    match request {
        Request::Switch { .. } => Some(Label::ChannelSwitch),
        Request::MoveClient { .. } => Some(Label::MoveClient),
        Request::Text { recipient, .. } => match recipient {
            TextTarget::Channel => Some(Label::ChannelMessage),
            TextTarget::Server => Some(Label::ServerMessage),
            TextTarget::Client(_) => Some(Label::PrivateMessage),
        },
        Request::Poke { .. } => Some(Label::Poke),
        Request::ClientInfo(_) => Some(Label::ConnectionInfo),
        Request::Kick { place, .. } => match place {
            KickPlace::Channel => Some(Label::KickFromChannel),
            KickPlace::Server => Some(Label::KickFromServer),
        },
        Request::ServerEdit(_) => Some(Label::ServerEdit),
        Request::ServerInfo => Some(Label::ServerConnectionInfo),
        Request::ServerLog => Some(Label::ServerLog),
        Request::Send { delivery, .. } => delivery.label,
        Request::PermissionOverview => Some(Label::PermissionOverview),
        Request::PermissionCatalog => Some(Label::PermissionList),
        Request::ListPermissions(_) => Some(Label::PermissionListRequest),
        Request::AddPermission { .. } => Some(Label::AddPermission),
        Request::RemovePermission { .. } => Some(Label::RemovePermission),
        Request::ListFiles { .. } => Some(Label::FileList),
        Request::MakeDirectory { .. } => Some(Label::CreateDirectory),
        Request::DeleteFile { .. } => Some(Label::DeleteFile),
        Request::RenameFile { .. } => Some(Label::RenameFile),
        _ => None,
    }
}

/// The answer of the server to a message.
pub enum Answer {
    Done,
    Refused { wrong_password: bool, missing_permission: bool, text: String },
}

/// What an answer is reported as.
pub enum Reply {
    Nothing,
    /// A channel can be entered with its password only.
    PasswordRequired(u64),
    /// A permission was missing.
    Denied(ServerLogEntry),
    Failed(String),
    ChannelGroups(Vec<GroupEntry>),
    ServerGroups(Vec<GroupEntry>),
    /// The catalog of permissions is complete.
    Catalog(CatalogDone),
}

/// A poke.
pub struct Poke {
    pub from: String,
    pub message: Option<String>,
}

/// A message from the server.
pub enum Notice {
    Pokes(Vec<Poke>),
    ServerLog(Vec<String>),
    Bans(Vec<BanListEntry>),
    Complaints(Vec<ComplainListEntry>),
    OfflineMessages(Vec<OfflineMessageListEntry>),
    OfflineMessage(Vec<OfflineMessage>),
    ChannelGroups(Vec<GroupEntry>),
    ServerGroups(Vec<GroupEntry>),
    Catalog(Vec<CatalogLine>),
    Overview(Vec<RawPermission>),
    Permissions(Vec<ListedPermission>),
    Files(Vec<FileListEntry>),
    FilesFinished,
    Other,
}

/// What a message from the server is reported as.
pub enum Shown {
    Nothing,
    Pokes(Vec<Poke>),
    ServerLog(Vec<String>),
    Bans(Vec<BanListEntry>),
    Complaints(Vec<ComplainListEntry>),
    OfflineMessages(Vec<OfflineMessageListEntry>),
    OfflineMessage(OfflineMessage),
    ChannelGroups(Vec<GroupEntry>),
    ServerGroups(Vec<GroupEntry>),
    Overview(Vec<PermissionEntry>),
    Permissions(PermissionTarget, Vec<PermissionEntry>),
    Files(FileList),
}

/// What a session with the server awaits.
pub struct Session {
    pub pending: Pending,
    pub awaited: Awaited,
    pub permissions: PermissionBook,
    pub listing: FileListing,
}

/// What happens to the book of permissions when a request was sent.
pub open spec fn permissions_after(book: BookView, request: Request) -> BookView {
    match request {
        Request::PermissionOverview => BookView { overview_asked: true, ..book },
        Request::PermissionCatalog => BookView { fetching: true, catalog_asked: true, ..book },
        Request::ListPermissions(target) => BookView { listed: Some(target), ..book },
        _ => book,
    }
}

/// What is reported of a refusal.
pub open spec fn is_refusal(
    label: Label,
    channel: Option<u64>,
    wrong_password: bool,
    missing_permission: bool,
    text: Seq<char>,
    r: Reply,
) -> bool {
    let failed = label.words() + " failed: "@ + text;
    if label == Label::ChannelSwitch && wrong_password {
        match channel {
            Some(id) => r == Reply::PasswordRequired(id),
            None => r matches Reply::Failed(m) && m@ == failed,
        }
    } else if missing_permission {
        r matches Reply::Denied(entry) && entry@ == (LogView::PermissionError {
            action: label.words(),
        })
    } else {
        r matches Reply::Failed(m) && m@ == failed
    }
}

/// What is reported once the catalog is complete.
pub open spec fn shows_catalog(book: BookView, done: CatalogDone) -> bool {
    &&& permissions::entries_of(done.overview) == book.waiting_overview()
    &&& permissions::list_of(done.list) == book.waiting_list()
    &&& match done.catalog {
        Some(entries) => book.catalog_asked && permissions::is_catalog(book.names, entries@),
        None => !book.catalog_asked,
    }
}

/// Whether groups are reported in order, none left out.
pub open spec fn shows_groups(groups: Seq<GroupEntry>, shown: Seq<GroupEntry>) -> bool {
    book::sorted_by_id(shown) && shown.to_multiset() == groups.to_multiset()
}

/// What an answer changes and what it is reported as.
pub open spec fn answers(
    before: Session,
    handle: u16,
    answer: Answer,
    channel_groups: Seq<GroupEntry>,
    server_groups: Seq<GroupEntry>,
    after: Session,
    r: Reply,
) -> bool {
    let a = before.awaited;
    let p = before.permissions@;
    &&& after.pending@ == before.pending@.answered(handle)
    &&& after.listing == before.listing
    &&& match before.pending@.subject(handle) {
        None => r is Nothing && after.awaited == a && after.permissions@ == p,
        Some((label, channel)) => match answer {
            Answer::Refused { wrong_password, missing_permission, text } => {
                &&& is_refusal(label, channel, wrong_password, missing_permission, text@, r)
                &&& after.awaited == (Awaited {
                    channel_groups: false,
                    server_groups: false,
                    ..a
                })
                &&& after.permissions@ == p
            },
            Answer::Done => if label == Label::ChannelGroupList && a.channel_groups {
                &&& r matches Reply::ChannelGroups(shown)
                &&& shows_groups(channel_groups, shown@)
                &&& after.awaited == (Awaited { channel_groups: false, ..a })
                &&& after.permissions@ == p
            } else if label == Label::ServerGroupList && a.server_groups {
                &&& r matches Reply::ServerGroups(shown)
                &&& shows_groups(server_groups, shown@)
                &&& after.awaited == (Awaited { server_groups: false, ..a })
                &&& after.permissions@ == p
            } else if label == Label::PermissionList && p.fetching {
                &&& r matches Reply::Catalog(done)
                &&& shows_catalog(p, done)
                &&& after.awaited == a
                &&& after.permissions@ == p.completed()
            } else {
                r is Nothing && after.awaited == a && after.permissions@ == p
            },
        },
    }
}

/// What a message changes and what it is reported as: a list that nobody asked
/// for is dropped.
pub open spec fn notices(before: Session, notice: Notice, after: Session, r: Shown) -> bool {
    let a = before.awaited;
    let p = before.permissions@;
    &&& after.pending@ == before.pending@
    &&& match notice {
        Notice::Pokes(pokes) => r == Shown::Pokes(pokes) && after.awaited == a
            && after.permissions@ == p && after.listing == before.listing,
        Notice::ServerLog(lines) => {
            &&& r == if a.server_log {
                Shown::ServerLog(lines)
            } else {
                Shown::Nothing
            }
            &&& after.awaited == (Awaited { server_log: false, ..a })
            &&& after.permissions@ == p && after.listing == before.listing
        },
        Notice::Bans(entries) => {
            &&& r == if a.bans {
                Shown::Bans(entries)
            } else {
                Shown::Nothing
            }
            &&& after.awaited == (Awaited { bans: false, ..a })
            &&& after.permissions@ == p && after.listing == before.listing
        },
        Notice::Complaints(entries) => {
            &&& r == if a.complaints {
                Shown::Complaints(entries)
            } else {
                Shown::Nothing
            }
            &&& after.awaited == (Awaited { complaints: false, ..a })
            &&& after.permissions@ == p && after.listing == before.listing
        },
        Notice::OfflineMessages(entries) => {
            &&& r == if a.offline_messages {
                Shown::OfflineMessages(entries)
            } else {
                Shown::Nothing
            }
            &&& after.awaited == (Awaited { offline_messages: false, ..a })
            &&& after.permissions@ == p && after.listing == before.listing
        },
        Notice::OfflineMessage(messages) => {
            &&& r == if a.offline_message && messages@.len() > 0 {
                Shown::OfflineMessage(messages@[0])
            } else {
                Shown::Nothing
            }
            &&& after.awaited == (Awaited { offline_message: false, ..a })
            &&& after.permissions@ == p && after.listing == before.listing
        },
        Notice::ChannelGroups(entries) => {
            &&& r == if a.channel_groups {
                Shown::ChannelGroups(entries)
            } else {
                Shown::Nothing
            }
            &&& after.awaited == (Awaited { channel_groups: false, ..a })
            &&& after.permissions@ == p && after.listing == before.listing
        },
        Notice::ServerGroups(entries) => {
            &&& r == if a.server_groups {
                Shown::ServerGroups(entries)
            } else {
                Shown::Nothing
            }
            &&& after.awaited == (Awaited { server_groups: false, ..a })
            &&& after.permissions@ == p && after.listing == before.listing
        },
        Notice::Catalog(lines) => {
            &&& r is Nothing
            &&& after.awaited == a
            &&& after.permissions@ == p.with_lines(permissions::line_views(lines@))
            &&& after.listing == before.listing
        },
        Notice::Overview(raw) => {
            &&& match p.with_overview(raw@).1 {
                Some(entries) => r matches Shown::Overview(shown) && permissions::entry_views(
                    shown@,
                ) == entries,
                None => r is Nothing,
            }
            &&& after.awaited == a
            &&& after.permissions@ == p.with_overview(raw@).0
            &&& after.listing == before.listing
        },
        Notice::Permissions(listed) => {
            &&& match p.with_list(listed@).1 {
                Some((target, entries)) => r matches Shown::Permissions(t, shown) && t == target
                    && permissions::entry_views(shown@) == entries,
                None => r is Nothing,
            }
            &&& after.awaited == a
            &&& after.permissions@ == p.with_list(listed@).0
            &&& after.listing == before.listing
        },
        Notice::Files(entries) => {
            &&& r is Nothing
            &&& after.awaited == a
            &&& after.permissions@ == p
            &&& after.listing.asked == before.listing.asked
            &&& after.listing.entries@ == if before.listing.asked is Some {
                before.listing.entries@ + entries@
            } else {
                before.listing.entries@
            }
        },
        Notice::FilesFinished => {
            &&& match before.listing.asked {
                Some((channel, path)) => {
                    &&& r matches Shown::Files(l)
                    &&& l.channel == channel
                    &&& l.path == path
                    &&& l.entries@ == before.listing.entries@
                    &&& after.listing.asked is None
                    &&& after.listing.entries@.len() == 0
                },
                None => r is Nothing && after.listing == before.listing,
            }
            &&& after.awaited == a
            &&& after.permissions@ == p
        },
        Notice::Other => r is Nothing && after.awaited == a && after.permissions@ == p
            && after.listing == before.listing,
    }
}

/// What a request that was sent changes: its answer is awaited under its label
/// and whatever it asked for is awaited too.
pub open spec fn notes(before: Session, handle: u16, request: Request, after: Session) -> bool {
    &&& after.pending@ == match request {
        Request::Switch { channel, .. } => before.pending@.awaiting_switch(handle, channel),
        _ => match label_of(request) {
            Some(label) => before.pending@.awaiting(handle, label),
            None => before.pending@,
        },
    }
    &&& after.awaited == match request {
        Request::ClientInfo(client) => Awaited { client_info: Some(client), ..before.awaited },
        _ => match label_of(request) {
            Some(label) => before.awaited.after(label),
            None => before.awaited,
        },
    }
    &&& after.permissions@ == permissions_after(before.permissions@, request)
    &&& match request {
        Request::ListFiles { channel, path } => {
            &&& after.listing.asked matches Some((c, p)) && c == channel && p@ == path@
            &&& after.listing.entries@.len() == 0
        },
        _ => after.listing == before.listing,
    }
}

impl Session {
    pub open spec fn well_formed(self) -> bool {
        self.permissions.well_formed()
    }

    pub fn new() -> (r: Session)
        ensures
            r.well_formed(),
            r.pending@.labels == Map::<u16, Label>::empty(),
            r.pending@.switches == Map::<u16, u64>::empty(),
            r.awaited == Awaited::nothing(),
            r.permissions@ == (BookView {
                names: Seq::empty(),
                fetching: false,
                overview_asked: false,
                overview: None,
                listed: None,
                list: None,
                catalog_asked: false,
            }),
            r.listing.asked is None,
            r.listing.entries@.len() == 0,
    {
        Session {
            pending: Pending::new(),
            awaited: Awaited {
                server_log: false,
                bans: false,
                complaints: false,
                offline_messages: false,
                offline_message: false,
                channel_groups: false,
                server_groups: false,
                server_info: false,
                client_info: None,
            },
            permissions: PermissionBook::new(),
            listing: FileListing::new(),
        }
    }

    /// Notes that a request was sent, and under which handle.
    pub fn sent(&mut self, handle: u16, request: &Request)
        requires
            old(self).well_formed(),
        ensures
            final(self).well_formed(),
            final(self).pending@ == match *request {
                Request::Switch { channel, .. } => old(self).pending@.awaiting_switch(
                    handle,
                    channel,
                ),
                _ => match label_of(*request) {
                    Some(label) => old(self).pending@.awaiting(handle, label),
                    None => old(self).pending@,
                },
            },
            final(self).awaited == match *request {
                Request::ClientInfo(client) => Awaited {
                    client_info: Some(client),
                    ..old(self).awaited
                },
                _ => match label_of(*request) {
                    Some(label) => old(self).awaited.after(label),
                    None => old(self).awaited,
                },
            },
            final(self).permissions@ == permissions_after(old(self).permissions@, *request),
            match *request {
                Request::ListFiles { channel, path } => {
                    &&& final(self).listing.asked matches Some((c, p)) && c == channel && p@
                        == path@
                    &&& final(self).listing.entries@.len() == 0
                },
                _ => final(self).listing == old(self).listing,
            },
            notes(*old(self), handle, *request, *final(self)),
    {
        let label = request_label(request);
        match label {
            Some(l) => {
                self.awaited = self.awaited.note(l);
            },
            None => {},
        }
        match request {
            Request::Switch { channel, .. } => self.pending.expect_switch(handle, *channel),
            _ => match label {
                Some(l) => self.pending.expect(handle, l),
                None => {},
            },
        }
        match request {
            Request::ClientInfo(client) => {
                self.awaited = Awaited { client_info: Some(*client), ..self.awaited };
            },
            Request::PermissionOverview => self.permissions.overview_requested(),
            Request::PermissionCatalog => self.permissions.catalog_requested(),
            Request::ListPermissions(target) => self.permissions.list_requested(*target),
            Request::ListFiles { channel, path } => self.listing.begin(*channel, path.as_str()),
            _ => {},
        }
    }

    /// Notes that the catalog of permissions was asked for along with a
    /// request.
    pub fn names_sent(&mut self, handle: u16)
        requires
            old(self).well_formed(),
        ensures
            final(self).well_formed(),
            final(self).pending@ == old(self).pending@.awaiting(handle, Label::PermissionList),
            final(self).permissions@ == (BookView { fetching: true, ..old(self).permissions@ }),
            final(self).awaited == old(self).awaited,
            final(self).listing == old(self).listing,
    {
        self.pending.expect(handle, Label::PermissionList);
        self.permissions.names_asked();
    }

    /// Takes in the answer to a message; the groups are those known now.
    pub fn answer(
        &mut self,
        handle: u16,
        answer: &Answer,
        channel_groups: Vec<GroupEntry>,
        server_groups: Vec<GroupEntry>,
    ) -> (r: Reply)
        requires
            old(self).well_formed(),
        ensures
            final(self).well_formed(),
            answers(
                *old(self),
                handle,
                *answer,
                channel_groups@,
                server_groups@,
                *final(self),
                r,
            ),
    {
        let (label, channel) = match self.pending.take(handle) {
            Some(subject) => subject,
            None => return Reply::Nothing,
        };
        match answer {
            Answer::Refused { wrong_password, missing_permission, text } => {
                self.awaited = Awaited {
                    channel_groups: false,
                    server_groups: false,
                    ..self.awaited
                };
                if label == Label::ChannelSwitch && *wrong_password {
                    return match channel {
                        Some(id) => Reply::PasswordRequired(id),
                        None => Reply::Failed(
                            join::plus3(label.text(), " failed: ", text.as_str()),
                        ),
                    };
                }
                if *missing_permission {
                    Reply::Denied(
                        ServerLogEntry::PermissionError { action: label.text().to_owned() },
                    )
                } else {
                    Reply::Failed(join::plus3(label.text(), " failed: ", text.as_str()))
                }
            },
            Answer::Done => {
                if label == Label::ChannelGroupList && self.awaited.channel_groups {
                    self.awaited = Awaited { channel_groups: false, ..self.awaited };
                    Reply::ChannelGroups(book::sort_groups(channel_groups))
                } else if label == Label::ServerGroupList && self.awaited.server_groups {
                    self.awaited = Awaited { server_groups: false, ..self.awaited };
                    Reply::ServerGroups(book::sort_groups(server_groups))
                } else if label == Label::PermissionList && self.permissions.fetching {
                    Reply::Catalog(self.permissions.names_complete())
                } else {
                    Reply::Nothing
                }
            },
        }
    }

    /// Takes in a message from the server.
    pub fn notice(&mut self, notice: Notice) -> (r: Shown)
        requires
            old(self).well_formed(),
            notice matches Notice::Catalog(lines) ==> old(self).permissions.names@.len()
                + lines@.len() <= u32::MAX,
        ensures
            final(self).well_formed(),
            notices(*old(self), notice, *final(self), r),
    {
        let a = self.awaited;
        match notice {
            Notice::Pokes(pokes) => Shown::Pokes(pokes),
            Notice::ServerLog(lines) => {
                self.awaited = Awaited { server_log: false, ..a };
                if a.server_log {
                    Shown::ServerLog(lines)
                } else {
                    Shown::Nothing
                }
            },
            Notice::Bans(entries) => {
                self.awaited = Awaited { bans: false, ..a };
                if a.bans {
                    Shown::Bans(entries)
                } else {
                    Shown::Nothing
                }
            },
            Notice::Complaints(entries) => {
                self.awaited = Awaited { complaints: false, ..a };
                if a.complaints {
                    Shown::Complaints(entries)
                } else {
                    Shown::Nothing
                }
            },
            Notice::OfflineMessages(entries) => {
                self.awaited = Awaited { offline_messages: false, ..a };
                if a.offline_messages {
                    Shown::OfflineMessages(entries)
                } else {
                    Shown::Nothing
                }
            },
            Notice::OfflineMessage(messages) => {
                self.awaited = Awaited { offline_message: false, ..a };
                let mut messages = messages;
                if a.offline_message && messages.len() > 0 {
                    Shown::OfflineMessage(messages.remove(0))
                } else {
                    Shown::Nothing
                }
            },
            Notice::ChannelGroups(entries) => {
                self.awaited = Awaited { channel_groups: false, ..a };
                if a.channel_groups {
                    Shown::ChannelGroups(entries)
                } else {
                    Shown::Nothing
                }
            },
            Notice::ServerGroups(entries) => {
                self.awaited = Awaited { server_groups: false, ..a };
                if a.server_groups {
                    Shown::ServerGroups(entries)
                } else {
                    Shown::Nothing
                }
            },
            Notice::Catalog(lines) => {
                self.permissions.names_received(&lines);
                Shown::Nothing
            },
            Notice::Overview(raw) => match self.permissions.overview_received(raw) {
                Some(entries) => Shown::Overview(entries),
                None => Shown::Nothing,
            },
            Notice::Permissions(listed) => match self.permissions.list_received(&listed) {
                Some((target, entries)) => Shown::Permissions(target, entries),
                None => Shown::Nothing,
            },
            Notice::Files(entries) => {
                self.listing.receive(entries);
                Shown::Nothing
            },
            Notice::FilesFinished => match self.listing.finish() {
                Some(l) => Shown::Files(l),
                None => Shown::Nothing,
            },
            Notice::Other => Shown::Nothing,
        }
    }

    /// Looks whether the data about a client that were asked for are there:
    /// says so once, and gives up on a client that is gone.
    pub fn client_info_ready(&mut self, known: bool, has_data: bool) -> (r: Option<u16>)
        ensures
            r == if known && has_data {
                old(self).awaited.client_info
            } else {
                None
            },
            final(self).awaited == if !known || has_data {
                Awaited { client_info: None, ..old(self).awaited }
            } else {
                old(self).awaited
            },
            r is Some ==> known && has_data && final(self).awaited.client_info is None,
            known && !has_data ==> final(self).awaited.client_info == old(self).awaited.client_info,
            !known ==> final(self).awaited.client_info is None,
            final(self).pending == old(self).pending,
            final(self).permissions == old(self).permissions,
            final(self).listing == old(self).listing,
    {
        let a = self.awaited;
        if !known || has_data {
            self.awaited = Awaited { client_info: None, ..a };
        }
        if known && has_data {
            a.client_info
        } else {
            None
        }
    }

    /// Looks whether the data about the server that were asked for are there:
    /// says so once.
    pub fn server_info_ready(&mut self, has_data: bool) -> (r: bool)
        ensures
            r == (old(self).awaited.server_info && has_data),
            final(self).awaited == if has_data {
                Awaited { server_info: false, ..old(self).awaited }
            } else {
                old(self).awaited
            },
            r ==> has_data && !final(self).awaited.server_info,
            !has_data ==> *final(self) == *old(self),
            final(self).pending == old(self).pending,
            final(self).permissions == old(self).permissions,
            final(self).listing == old(self).listing,
    {
        let a = self.awaited;
        if has_data {
            self.awaited = Awaited { server_info: false, ..a };
        }
        a.server_info && has_data
    }
}

/// What a list message shows, it shows once: coming again unasked, it shows
/// nothing and changes nothing.
pub proof fn law_list_is_shown_once(
    before: Session,
    notice: Notice,
    between: Session,
    first: Shown,
    after: Session,
    second: Shown,
)
    requires
        notices(before, notice, between, first),
        notices(between, notice, after, second),
        !(notice is Pokes),
        !(notice is Catalog),
        !(notice is Files),
        !(notice is Permissions && before.permissions@.fetching),
    ensures
        second is Nothing,
        after.awaited == between.awaited,
        after.permissions@ == between.permissions@,
{
}

/// An answer that nobody awaits changes nothing at all and is not reported.
pub proof fn law_unknown_answer_is_ignored(
    before: Session,
    handle: u16,
    answer: Answer,
    channel_groups: Seq<GroupEntry>,
    server_groups: Seq<GroupEntry>,
    after: Session,
    r: Reply,
)
    requires
        answers(before, handle, answer, channel_groups, server_groups, after, r),
        before.pending@.subject(handle) is None,
    ensures
        r is Nothing,
        after.pending@ == before.pending@,
        after.awaited == before.awaited,
        after.permissions@ == before.permissions@,
        after.listing == before.listing,
{
}

/// A refused message never passes in silence.
pub proof fn law_refusal_is_reported(
    before: Session,
    handle: u16,
    answer: Answer,
    channel_groups: Seq<GroupEntry>,
    server_groups: Seq<GroupEntry>,
    after: Session,
    r: Reply,
)
    requires
        answers(before, handle, answer, channel_groups, server_groups, after, r),
        before.pending@.subject(handle) is Some,
        answer is Refused,
    ensures
        r is PasswordRequired || r is Denied || r is Failed,
{
}

/// The command that asks for the server's variables.
pub fn server_variables_command() -> (r: Command)
    ensures
        r@ == CommandView::named("servergetvariables"@),
{
    Command::new("servergetvariables")
}

/// The command that asks for the catalog of permissions.
pub fn permission_names_command() -> (r: Command)
    ensures
        r@ == CommandView::named("permissionlist"@),
{
    Command::new("permissionlist")
}

/// The command that asks for the permissions of a client in a channel; the
/// number zero stands for all of them.
pub fn permission_overview_command(channel: u64, client: u64) -> (r: Command)
    ensures
        r@ == CommandView::named("permoverview"@).and_number("cid"@, channel as nat).and_number(
            "cldbid"@,
            client as nat,
        ).and_number("permid"@, 0),
{
    Command::new("permoverview").with_number("cid", channel).with_number(
        "cldbid",
        client,
    ).with_number("permid", 0)
}

/// A stream to announce.
pub struct StreamSetupPayload {
    pub name: String,
    pub kind: u8,
    pub bitrate: u32,
    pub accessibility: u8,
    pub mode: u8,
    pub viewer_limit: u32,
    pub audio: bool,
}

/// The command that announces a stream.
pub open spec fn setup_command(s: StreamSetupPayload) -> CommandView {
    CommandView::named("setupstream"@).and("name"@, s.name@).and_number(
        "type"@,
        s.kind as nat,
    ).and_number("bitrate"@, s.bitrate as nat).and_number(
        "accessibility"@,
        s.accessibility as nat,
    ).and_number("mode"@, s.mode as nat).and_number(
        "viewer_limit"@,
        s.viewer_limit as nat,
    ).and_number(
        "audio"@,
        if s.audio {
            1
        } else {
            0
        },
    )
}

/// The request that announces a stream.
pub fn stream_setup_request(s: &StreamSetupPayload) -> (r: Request)
    ensures
        r@ == (RequestView::Send {
            command: setup_command(*s),
            delivery: Delivery { label: Some(Label::StartStream), names_failure: true },
        }),
{
    let audio: u64 = if s.audio {
        1
    } else {
        0
    };
    let command = Command::new("setupstream").with("name", s.name.as_str()).with_number(
        "type",
        s.kind as u64,
    ).with_number("bitrate", s.bitrate as u64).with_number(
        "accessibility",
        s.accessibility as u64,
    ).with_number("mode", s.mode as u64).with_number(
        "viewer_limit",
        s.viewer_limit as u64,
    ).with_number("audio", audio);
    Request::Send {
        command,
        delivery: Delivery { label: Some(Label::StartStream), names_failure: true },
    }
}

/// The reply to a viewer.
pub struct StreamRespondPayload {
    pub id: String,
    pub clid: u16,
    pub msg: String,
    pub offer: String,
    pub decision: u8,
}

/// The command that replies to a viewer.
pub open spec fn respond_command(s: StreamRespondPayload) -> CommandView {
    CommandView::named("respondjoinstreamrequest"@).and("id"@, s.id@).and_number(
        "clid"@,
        s.clid as nat,
    ).and("msg"@, s.msg@).and("offer"@, s.offer@).and_number("decision"@, s.decision as nat)
}

/// The request that replies to a viewer.
pub fn stream_respond_request(s: &StreamRespondPayload) -> (r: Request)
    ensures
        r@ == (RequestView::Send {
            command: respond_command(*s),
            delivery: Delivery { label: Some(Label::StreamJoinResponse), names_failure: true },
        }),
{
    let command = Command::new("respondjoinstreamrequest").with("id", s.id.as_str()).with_number(
        "clid",
        s.clid as u64,
    ).with("msg", s.msg.as_str()).with("offer", s.offer.as_str()).with_number(
        "decision",
        s.decision as u64,
    );
    Request::Send {
        command,
        delivery: Delivery { label: Some(Label::StreamJoinResponse), names_failure: true },
    }
}

/// What to say of a command that could not be sent.
pub fn send_failure(name: &str, delivery: Delivery, error: &str) -> (r: String)
    ensures
        r@ == if delivery.names_failure {
            name@ + " failed: "@ + error@
        } else {
            error@
        },
{
    if delivery.names_failure {
        join::plus3(name, " failed: ", error)
    } else {
        error.to_owned()
    }
}

/// Whether a command that is not known otherwise belongs to a stream: the
/// stream's own, and the requests to join and the replies to them.
pub open spec fn is_stream_command(name: Seq<char>) -> bool {
    chars::begins(name, "notifystream"@) || chars::finishes(name, "joinstreamrequest"@)
}

/// Whether a command is handed on as part of a stream.
pub fn is_stream_event(name: &str) -> (r: bool)
    ensures
        r == is_stream_command(name@),
{
    let c = chars::chars_of(name);
    chars::starts_with(c.as_slice(), "notifystream") || chars::ends_with(
        c.as_slice(),
        "joinstreamrequest",
    )
}

/// Both the requests of viewers and the replies to our own requests are handed
/// on, whatever stands before.
pub proof fn law_join_requests_are_handed_on(prefix: Seq<char>)
    ensures
        is_stream_command(prefix + "joinstreamrequest"@),
{
    let name = prefix + "joinstreamrequest"@;
    assert(name.skip(name.len() - "joinstreamrequest"@.len()) =~= "joinstreamrequest"@);
}

/// Whom a message was for.
#[derive(Clone, Copy, Debug, PartialEq, Eq, Structural)]
pub enum MessageTarget {
    Server,
    Channel,
    Client(u16),
    Poke,
}

/// A text message that arrived. The server also sends back what we wrote.
pub struct TextMessage {
    pub target: MessageTarget,
    pub invoker: u16,
    pub invoker_name: String,
    pub message: String,
}

/// A text message as reported.
pub enum Chat {
    Server { from: String, message: String },
    Channel { from: String, message: String },
    /// `partner` is the other side, whoever wrote.
    Private { partner: u16, partner_name: String, from_self: bool, message: String },
    Poke { from: String, message: String },
}

/// Whether a report tells of the message.
pub open spec fn tells(own: u16, clients: Seq<BookClient>, m: TextMessage, r: Chat) -> bool {
    match m.target {
        MessageTarget::Server => r matches Chat::Server { from, message } && from@
            == m.invoker_name@ && message@ == m.message@,
        MessageTarget::Channel => r matches Chat::Channel { from, message } && from@
            == m.invoker_name@ && message@ == m.message@,
        MessageTarget::Client(other) => {
            &&& r matches Chat::Private { partner, partner_name, from_self, message }
            &&& from_self == (m.invoker == own)
            &&& partner == (if from_self {
                other
            } else {
                m.invoker
            })
            &&& partner_name@ == (if from_self {
                match book::client_with(clients, other) {
                    Some(c) => c.name@,
                    None => Seq::empty(),
                }
            } else {
                m.invoker_name@
            })
            &&& message@ == m.message@
        },
        MessageTarget::Poke => r matches Chat::Poke { from, message } && from@ == m.invoker_name@
            && message@ == m.message@,
    }
}

/// Reports a text message.
pub fn report_message(own: u16, clients: &Vec<BookClient>, m: &TextMessage) -> (r: Chat)
    ensures
        tells(own, clients@, *m, r),
{
    let from = m.invoker_name.clone();
    let message = m.message.clone();
    match m.target {
        MessageTarget::Server => Chat::Server { from, message },
        MessageTarget::Channel => Chat::Channel { from, message },
        MessageTarget::Client(other) => {
            if m.invoker == own {
                let partner_name = match book::find_client(clients, other) {
                    Some(c) => c.name.clone(),
                    None => String::new(),
                };
                Chat::Private { partner: other, partner_name, from_self: true, message }
            } else {
                Chat::Private {
                    partner: m.invoker,
                    partner_name: from,
                    from_self: false,
                    message,
                }
            }
        },
        MessageTarget::Poke => Chat::Poke { from, message },
    }
}

/// Both sides of a private conversation are reported under the same partner.
pub proof fn law_conversation_has_one_partner(
    own: u16,
    clients: Seq<BookClient>,
    ours: TextMessage,
    theirs: TextMessage,
    partner: u16,
    first: Chat,
    second: Chat,
)
    requires
        partner != own,
        ours.invoker == own,
        ours.target == MessageTarget::Client(partner),
        theirs.invoker == partner,
        theirs.target == MessageTarget::Client(own),
        tells(own, clients, ours, first),
        tells(own, clients, theirs, second),
    ensures
        first matches Chat::Private { partner: a, from_self: true, .. } && a == partner,
        second matches Chat::Private { partner: b, from_self: false, .. } && b == partner,
{
}

/// What was sent and received over a connection, by purpose.
#[derive(Clone, Copy)]
pub struct Traffic {
    pub speech: Option<u64>,
    pub keepalive: Option<u64>,
    pub control: Option<u64>,
}

pub open spec fn amount(o: Option<u64>) -> int {
    match o {
        Some(n) => n as int,
        None => 0,
    }
}

impl Traffic {
    /// All of it together.
    pub open spec fn total(self) -> int {
        amount(self.speech) + amount(self.keepalive) + amount(self.control)
    }
}

/// Adds up what was sent or received; what is not known counts as nothing.
/// `None` where the sum is too large.
pub fn traffic_total(t: &Traffic) -> (r: Option<u64>)
    ensures
        match r {
            Some(n) => n == t.total(),
            None => t.total() > u64::MAX,
        },
{
    let speech: u64 = match t.speech {
        Some(n) => n,
        None => 0,
    };
    let keepalive: u64 = match t.keepalive {
        Some(n) => n,
        None => 0,
    };
    let control: u64 = match t.control {
        Some(n) => n,
        None => 0,
    };
    match speech.checked_add(keepalive) {
        Some(n) => n.checked_add(control),
        None => None,
    }
}

/// Something that failed, and is reported with the reason.
#[derive(Clone, Copy, Debug, PartialEq, Eq, Structural)]
pub enum Fault {
    Switch,
    Move,
    ServerEditPayload,
    StreamSetupPayload,
    StreamRespondPayload,
    Download,
    Upload,
    Transfer,
    Encode,
    Resubscribe,
}

impl Fault {
    pub open spec fn words(self) -> Seq<char> {
        match self {
            Fault::Switch => "Channel switch failed: "@,
            Fault::Move => "Move client failed: "@,
            Fault::ServerEditPayload => "Invalid server edit payload: "@,
            Fault::StreamSetupPayload => "Invalid streamsetup payload: "@,
            Fault::StreamRespondPayload => "Invalid streamrespond payload: "@,
            Fault::Download => "Download failed: "@,
            Fault::Upload => "Upload failed: "@,
            Fault::Transfer => "File transfer failed: "@,
            Fault::Encode => "Opus encode failed: "@,
            Fault::Resubscribe => "channelsubscribeall after perm change failed: "@,
        }
    }

    /// What to say of it.
    pub fn message(self, reason: &str) -> (r: String)
        ensures
            r@ == self.words() + reason@,
    {
        match self {
            Fault::Switch => join::plus("Channel switch failed: ", reason),
            Fault::Move => join::plus("Move client failed: ", reason),
            Fault::ServerEditPayload => join::plus("Invalid server edit payload: ", reason),
            Fault::StreamSetupPayload => join::plus("Invalid streamsetup payload: ", reason),
            Fault::StreamRespondPayload => join::plus("Invalid streamrespond payload: ", reason),
            Fault::Download => join::plus("Download failed: ", reason),
            Fault::Upload => join::plus("Upload failed: ", reason),
            Fault::Transfer => join::plus("File transfer failed: ", reason),
            Fault::Encode => join::plus("Opus encode failed: ", reason),
            Fault::Resubscribe => join::plus(
                "channelsubscribeall after perm change failed: ",
                reason,
            ),
        }
    }
}

/// Whether a request about a client can be carried out.
pub fn check_client(known: bool, client: u16) -> (r: Result<(), String>)
    ensures
        match r {
            Ok(_) => known,
            Err(e) => !known && e@ == "Unknown client id: "@ + number::decimal_text(client as nat),
        },
{
    if known {
        Ok(())
    } else {
        Err(join::plus("Unknown client id: ", number::decimal(client as u64).as_str()))
    }
}

/// Whether the own channel can be switched; `own_known` says whether the own
/// client is known, or why nothing is.
pub fn check_switch(own_known: &Result<bool, String>) -> (r: Result<(), String>)
    ensures
        match own_known {
            Ok(known) => if *known {
                r is Ok
            } else {
                r matches Err(e) && e@ == "Channel switch failed: own client not in book state"@
            },
            Err(reason) => r matches Err(e) && e@ == "Channel switch failed: "@ + reason@,
        },
{
    match own_known {
        Ok(known) => if *known {
            Ok(())
        } else {
            Err("Channel switch failed: own client not in book state".to_owned())
        },
        Err(reason) => Err(Fault::Switch.message(reason.as_str())),
    }
}

/// Why a session ended.
#[derive(Clone, Copy, Debug, PartialEq, Eq, Structural)]
pub enum End {
    Requested,
    InputClosed,
    ServerClosed,
}

/// Why a session ended, in words.
pub fn end_reason(end: End) -> (r: &'static str)
    ensures
        r@ == match end {
            End::Requested => "client requested"@,
            End::InputClosed => "stdin closed"@,
            End::ServerClosed => "server closed connection"@,
        },
{
    match end {
        End::Requested => "client requested",
        End::InputClosed => "stdin closed",
        End::ServerClosed => "server closed connection",
    }
}

/// A refused switch for want of the password asks for it, naming the channel,
/// whatever else the refusal says.
pub proof fn law_wrong_password_asks_for_it(
    before: Session,
    handle: u16,
    channel: u64,
    missing_permission: bool,
    text: String,
    channel_groups: Seq<GroupEntry>,
    server_groups: Seq<GroupEntry>,
    after: Session,
    r: Reply,
)
    requires
        before.pending@.subject(handle) == Some((Label::ChannelSwitch, Some(channel))),
        answers(
            before,
            handle,
            Answer::Refused { wrong_password: true, missing_permission, text },
            channel_groups,
            server_groups,
            after,
            r,
        ),
    ensures
        r == Reply::PasswordRequired(channel),
{
}

/// Any other refusal names what was refused: a missing permission goes to the
/// log, and what else went wrong is told in the server's own words.
pub proof fn law_refusal_names_what_failed(
    before: Session,
    handle: u16,
    label: Label,
    channel: Option<u64>,
    wrong_password: bool,
    missing_permission: bool,
    text: String,
    channel_groups: Seq<GroupEntry>,
    server_groups: Seq<GroupEntry>,
    after: Session,
    r: Reply,
)
    requires
        before.pending@.subject(handle) == Some((label, channel)),
        label != Label::ChannelSwitch || !wrong_password,
        answers(
            before,
            handle,
            Answer::Refused { wrong_password, missing_permission, text },
            channel_groups,
            server_groups,
            after,
            r,
        ),
    ensures
        missing_permission ==> (r matches Reply::Denied(entry) && entry@ == (
        LogView::PermissionError { action: label.words() })),
        !missing_permission ==> (r matches Reply::Failed(m) && m@ == label.words() + " failed: "@
            + text@),
{
}

/// Whether two sessions await the same, group lists apart.
pub open spec fn same_but_groups(a: Awaited, b: Awaited) -> bool {
    &&& a.server_log == b.server_log
    &&& a.bans == b.bans
    &&& a.complaints == b.complaints
    &&& a.offline_messages == b.offline_messages
    &&& a.offline_message == b.offline_message
    &&& a.server_info == b.server_info
    &&& a.client_info == b.client_info
}

/// An answer ends the wait for itself and for group lists only: every other
/// list that was asked for is still awaited, and so is every other answer.
pub proof fn law_answer_ends_no_other_wait(
    before: Session,
    handle: u16,
    answer: Answer,
    channel_groups: Seq<GroupEntry>,
    server_groups: Seq<GroupEntry>,
    after: Session,
    r: Reply,
    other: u16,
)
    requires
        answers(before, handle, answer, channel_groups, server_groups, after, r),
        other != handle,
    ensures
        same_but_groups(before.awaited, after.awaited),
        after.pending@.subject(other) == before.pending@.subject(other),
        after.pending@.subject(handle) is None,
        after.listing == before.listing,
{
}

/// The answer to a request for channel groups shows all of them, in the order
/// of their ids; the same holds of server groups.
pub proof fn law_asked_groups_are_shown(
    before: Session,
    handle: u16,
    channel: Option<u64>,
    channel_groups: Seq<GroupEntry>,
    server_groups: Seq<GroupEntry>,
    after: Session,
    r: Reply,
)
    requires
        answers(before, handle, Answer::Done, channel_groups, server_groups, after, r),
    ensures
        before.pending@.subject(handle) == Some((Label::ChannelGroupList, channel))
            && before.awaited.channel_groups ==> {
            &&& r matches Reply::ChannelGroups(shown)
            &&& shown@.to_multiset() == channel_groups.to_multiset()
            &&& forall|i: int, j: int|
                0 <= i < j < shown@.len() ==> (#[trigger] shown@[i]).id <= (
                #[trigger] shown@[j]).id
            &&& !after.awaited.channel_groups
        },
        before.pending@.subject(handle) == Some((Label::ServerGroupList, channel))
            && before.awaited.server_groups ==> {
            &&& r matches Reply::ServerGroups(shown)
            &&& shown@.to_multiset() == server_groups.to_multiset()
            &&& forall|i: int, j: int|
                0 <= i < j < shown@.len() ==> (#[trigger] shown@[i]).id <= (
                #[trigger] shown@[j]).id
            &&& !after.awaited.server_groups
        },
{
}

/// A list that was asked for is shown as it came, and one that was not is
/// passed over; either way it is awaited no longer.
pub proof fn law_lists_are_shown_to_those_who_asked(
    before: Session,
    notice: Notice,
    after: Session,
    r: Shown,
)
    requires
        notices(before, notice, after, r),
    ensures
        notice matches Notice::ServerLog(x) ==> r == (if before.awaited.server_log {
            Shown::ServerLog(x)
        } else {
            Shown::Nothing
        }) && !after.awaited.server_log,
        notice matches Notice::Bans(x) ==> r == (if before.awaited.bans {
            Shown::Bans(x)
        } else {
            Shown::Nothing
        }) && !after.awaited.bans,
        notice matches Notice::Complaints(x) ==> r == (if before.awaited.complaints {
            Shown::Complaints(x)
        } else {
            Shown::Nothing
        }) && !after.awaited.complaints,
        notice matches Notice::OfflineMessages(x) ==> r == (if before.awaited.offline_messages {
            Shown::OfflineMessages(x)
        } else {
            Shown::Nothing
        }) && !after.awaited.offline_messages,
        notice matches Notice::OfflineMessage(x) ==> r == (if before.awaited.offline_message
            && x@.len() > 0 {
            Shown::OfflineMessage(x@[0])
        } else {
            Shown::Nothing
        }) && !after.awaited.offline_message,
        notice matches Notice::ChannelGroups(x) ==> r == (if before.awaited.channel_groups {
            Shown::ChannelGroups(x)
        } else {
            Shown::Nothing
        }) && !after.awaited.channel_groups,
        notice matches Notice::ServerGroups(x) ==> r == (if before.awaited.server_groups {
            Shown::ServerGroups(x)
        } else {
            Shown::Nothing
        }) && !after.awaited.server_groups,
        notice matches Notice::Pokes(x) ==> r == Shown::Pokes(x),
        after.pending@ == before.pending@,
{
}

/// Each request for a list makes that list awaited and no other.
pub proof fn law_request_awaits_its_list(a: Awaited)
    ensures
        a.after(Label::ServerLog) == (Awaited { server_log: true, ..a }),
        a.after(Label::BanList) == (Awaited { bans: true, ..a }),
        a.after(Label::ComplainList) == (Awaited { complaints: true, ..a }),
        a.after(Label::OfflineMessageList) == (Awaited { offline_messages: true, ..a }),
        a.after(Label::OfflineMessage) == (Awaited { offline_message: true, ..a }),
        a.after(Label::ChannelGroupList) == (Awaited { channel_groups: true, ..a }),
        a.after(Label::ServerGroupList) == (Awaited { server_groups: true, ..a }),
        a.after(Label::ServerConnectionInfo) == (Awaited { server_info: true, ..a }),
        a.after(Label::DeleteBan) == a,
        a.after(Label::SendOfflineMessage) == a,
{
}

/// A directory listing gathers what arrives in between, in order, and is shown
/// whole at its end with the channel and the path that were asked for.
pub proof fn law_listing_is_gathered(
    before: Session,
    first: Vec<FileListEntry>,
    between: Session,
    second: Vec<FileListEntry>,
    last: Session,
    after: Session,
    a: Shown,
    b: Shown,
    c: Shown,
)
    requires
        before.listing.asked is Some,
        notices(before, Notice::Files(first), between, a),
        notices(between, Notice::Files(second), last, b),
        notices(last, Notice::FilesFinished, after, c),
    ensures
        a is Nothing && b is Nothing,
        c matches Shown::Files(l) && (l.channel, l.path) == before.listing.asked.unwrap()
            && l.entries@ == before.listing.entries@ + first@ + second@,
        after.listing.asked is None,
        after.listing.entries@.len() == 0,
{
}

/// Entries of a listing that nobody asked for are dropped, and so is its end.
pub proof fn law_unasked_listing_is_dropped(
    before: Session,
    entries: Vec<FileListEntry>,
    after: Session,
    a: Shown,
    b: Shown,
    ended: Session,
)
    requires
        before.listing.asked is None,
        notices(before, Notice::Files(entries), after, a),
        notices(before, Notice::FilesFinished, ended, b),
    ensures
        a is Nothing,
        b is Nothing,
        after.listing.entries@ == before.listing.entries@,
        ended.listing == before.listing,
{
}

/// Every request whose outcome is reported is awaited under the words that it
/// is reported with.
pub proof fn law_requests_are_reported_by_name(request: Request)
    ensures
        request is Switch ==> (label_of(request) matches Some(l) && l.words() == "Channel switch"@),
        request is MoveClient ==> (label_of(request) matches Some(l) && l.words() == "Move client"@),
        request is Poke ==> (label_of(request) matches Some(l) && l.words() == "Poke"@),
        request matches Request::Text { recipient: TextTarget::Channel, .. } ==> label_of(
            request,
        ) == Some(Label::ChannelMessage),
        request matches Request::Text { recipient: TextTarget::Server, .. } ==> label_of(request)
            == Some(Label::ServerMessage),
        request matches Request::Text { recipient: TextTarget::Client(_), .. } ==> label_of(
            request,
        ) == Some(Label::PrivateMessage),
        request matches Request::Kick { place: KickPlace::Channel, .. } ==> label_of(request)
            == Some(Label::KickFromChannel),
        request matches Request::Kick { place: KickPlace::Server, .. } ==> label_of(request)
            == Some(Label::KickFromServer),
        request matches Request::Send { delivery, .. } ==> label_of(request) == delivery.label,
        request is ListFiles ==> label_of(request) == Some(Label::FileList),
        request is MakeDirectory ==> label_of(request) == Some(Label::CreateDirectory),
        request is DeleteFile ==> label_of(request) == Some(Label::DeleteFile),
        request is RenameFile ==> label_of(request) == Some(Label::RenameFile),
        request is ListPermissions ==> label_of(request) == Some(Label::PermissionListRequest),
        request is AddPermission ==> label_of(request) == Some(Label::AddPermission),
        request is RemovePermission ==> label_of(request) == Some(Label::RemovePermission),
        request is PermissionOverview ==> label_of(request) == Some(Label::PermissionOverview),
        request is PermissionCatalog ==> label_of(request) == Some(Label::PermissionList),
        request is ServerEdit ==> label_of(request) == Some(Label::ServerEdit),
        request is ServerInfo ==> label_of(request) == Some(Label::ServerConnectionInfo),
        request is ServerLog ==> label_of(request) == Some(Label::ServerLog),
        request is ClientInfo ==> label_of(request) == Some(Label::ConnectionInfo),
        request is Ignored || request is Refused || request is Disconnect || request is Away
            || request is MuteInput || request is MuteOutput || request is Nickname || request
            is Whisper || request is Audio || request is Download || request is Upload
            ==> label_of(request) is None,
{
}

/// A stream is announced with everything that its description says.
pub proof fn law_stream_is_announced_whole(s: StreamSetupPayload)
    ensures
        setup_command(s) == (CommandView {
            name: "setupstream"@,
            arguments: seq![
                ("name"@, s.name@),
                ("type"@, number::decimal_text(s.kind as nat)),
                ("bitrate"@, number::decimal_text(s.bitrate as nat)),
                ("accessibility"@, number::decimal_text(s.accessibility as nat)),
                ("mode"@, number::decimal_text(s.mode as nat)),
                ("viewer_limit"@, number::decimal_text(s.viewer_limit as nat)),
                (
                    "audio"@,
                    if s.audio {
                        seq!['1']
                    } else {
                        seq!['0']
                    },
                ),
            ],
        }),
{
    assert(number::decimal_text(1) == seq!['1']);
    assert(number::decimal_text(0) == seq!['0']);
    assert(setup_command(s).arguments =~= seq![
        ("name"@, s.name@),
        ("type"@, number::decimal_text(s.kind as nat)),
        ("bitrate"@, number::decimal_text(s.bitrate as nat)),
        ("accessibility"@, number::decimal_text(s.accessibility as nat)),
        ("mode"@, number::decimal_text(s.mode as nat)),
        ("viewer_limit"@, number::decimal_text(s.viewer_limit as nat)),
        (
            "audio"@,
            if s.audio {
                seq!['1']
            } else {
                seq!['0']
            },
        ),
    ]);
}

/// A viewer is answered with everything that the reply says.
pub proof fn law_viewer_is_answered_whole(s: StreamRespondPayload)
    ensures
        respond_command(s) == (CommandView {
            name: "respondjoinstreamrequest"@,
            arguments: seq![
                ("id"@, s.id@),
                ("clid"@, number::decimal_text(s.clid as nat)),
                ("msg"@, s.msg@),
                ("offer"@, s.offer@),
                ("decision"@, number::decimal_text(s.decision as nat)),
            ],
        }),
{
    assert(respond_command(s).arguments =~= seq![
        ("id"@, s.id@),
        ("clid"@, number::decimal_text(s.clid as nat)),
        ("msg"@, s.msg@),
        ("offer"@, s.offer@),
        ("decision"@, number::decimal_text(s.decision as nat)),
    ]);
}

/// The commands of streams are handed on, whatever follows their common
/// beginning, and other notifications are not.
pub proof fn law_stream_commands_are_handed_on(suffix: Seq<char>, name: Seq<char>)
    ensures
        is_stream_command("notifystream"@ + suffix),
        is_stream_command(name) ==> (exists|rest: Seq<char>|
            name == #[trigger] ("notifystream"@ + rest)) || (exists|rest: Seq<char>|
            name == #[trigger] (rest + "joinstreamrequest"@)),
{
    chars::law_parts_are_recognised("notifystream"@, suffix, Seq::empty());
    chars::law_recognised_parts_are_there(name, "notifystream"@);
    chars::law_recognised_parts_are_there(name, "joinstreamrequest"@);
}

/// A message is told as it was written, with the name of who wrote it, and in
/// a private conversation with the name of the other side.
pub proof fn law_message_is_told_as_written(
    own: u16,
    clients: Seq<BookClient>,
    m: TextMessage,
    r: Chat,
)
    requires
        tells(own, clients, m, r),
    ensures
        m.target == MessageTarget::Server ==> (r matches Chat::Server { from, message } && from@
            == m.invoker_name@ && message@ == m.message@),
        m.target == MessageTarget::Channel ==> (r matches Chat::Channel { from, message } && from@
            == m.invoker_name@ && message@ == m.message@),
        m.target == MessageTarget::Poke ==> (r matches Chat::Poke { from, message } && from@
            == m.invoker_name@ && message@ == m.message@),
        m.target is Client && m.invoker != own ==> (r matches Chat::Private {
            partner,
            partner_name,
            from_self,
            message,
        } && partner == m.invoker && partner_name@ == m.invoker_name@ && !from_self && message@
            == m.message@),
        m.target is Client && m.invoker == own ==> (r matches Chat::Private {
            partner,
            partner_name,
            from_self,
            message,
        } && m.target == MessageTarget::Client(partner) && from_self && message@ == m.message@ && (
        book::client_with(clients, partner) matches Some(c) ==> partner_name@ == c.name@) && (
        book::client_with(clients, partner) is None ==> partner_name@.len() == 0)),
{
}

/// What was not counted adds nothing to the whole, and what was counted adds
/// itself.
pub proof fn law_traffic_adds_up(t: Traffic, n: u64)
    ensures
        (Traffic { speech: Some(n), ..t }).total() == (Traffic { speech: None, ..t }).total() + n,
        (Traffic { keepalive: Some(n), ..t }).total() == (Traffic { keepalive: None, ..t }).total()
            + n,
        (Traffic { control: Some(n), ..t }).total() == (Traffic { control: None, ..t }).total()
            + n,
        (Traffic { speech: None, keepalive: None, control: None }).total() == 0,
{
}

/// A switch that was sent and is refused for want of the password asks for the
/// password of the channel that it led to.
pub proof fn law_sent_switch_asks_for_password(
    before: Session,
    handle: u16,
    channel: u64,
    password: Option<String>,
    sent: Session,
    missing_permission: bool,
    text: String,
    channel_groups: Seq<GroupEntry>,
    server_groups: Seq<GroupEntry>,
    after: Session,
    r: Reply,
)
    requires
        notes(before, handle, Request::Switch { channel, password }, sent),
        answers(
            sent,
            handle,
            Answer::Refused { wrong_password: true, missing_permission, text },
            channel_groups,
            server_groups,
            after,
            r,
        ),
    ensures
        r == Reply::PasswordRequired(channel),
{
}

/// A request that was sent under a label and is refused is reported with the
/// words of the label, once; in between every other answer is awaited as
/// before.
pub proof fn law_sent_request_is_answered(
    before: Session,
    handle: u16,
    request: Request,
    label: Label,
    sent: Session,
    text: String,
    channel_groups: Seq<GroupEntry>,
    server_groups: Seq<GroupEntry>,
    after: Session,
    r: Reply,
    other: u16,
)
    requires
        label_of(request) == Some(label),
        notes(before, handle, request, sent),
        answers(
            sent,
            handle,
            Answer::Refused { wrong_password: false, missing_permission: false, text },
            channel_groups,
            server_groups,
            after,
            r,
        ),
        other != handle,
    ensures
        r matches Reply::Failed(m) && m@ == label.words() + " failed: "@ + text@,
        sent.pending@.subject(other) == before.pending@.subject(other),
        after.pending@.subject(handle) is None,
{
}

/// What was asked for by a command is shown when it comes.
pub proof fn law_sent_list_is_shown(
    before: Session,
    handle: u16,
    request: Request,
    sent: Session,
    notice: Notice,
    after: Session,
    r: Shown,
)
    requires
        notes(before, handle, request, sent),
        notices(sent, notice, after, r),
    ensures
        label_of(request) == Some(Label::BanList) ==> (notice matches Notice::Bans(x) ==> r
            == Shown::Bans(x)),
        label_of(request) == Some(Label::ComplainList) ==> (notice matches Notice::Complaints(x)
            ==> r == Shown::Complaints(x)),
        label_of(request) == Some(Label::OfflineMessageList) ==> (
        notice matches Notice::OfflineMessages(x) ==> r == Shown::OfflineMessages(x)),
        label_of(request) == Some(Label::ServerLog) ==> (notice matches Notice::ServerLog(x) ==> r
            == Shown::ServerLog(x)),
        label_of(request) == Some(Label::ChannelGroupList) ==> (
        notice matches Notice::ChannelGroups(x) ==> r == Shown::ChannelGroups(x)),
        label_of(request) == Some(Label::ServerGroupList) ==> (
        notice matches Notice::ServerGroups(x) ==> r == Shown::ServerGroups(x)),
        request matches Request::ListFiles { channel, path } ==> (notice is FilesFinished ==> (
        r matches Shown::Files(l) && l.channel == channel && l.path@ == path@
            && l.entries@.len() == 0)),
{
}

/// Permissions that were asked for are shown for the target named, once the
/// names are known.
pub proof fn law_sent_permission_requests_are_shown(
    before: Session,
    handle: u16,
    target: PermissionTarget,
    sent: Session,
    listed: Vec<ListedPermission>,
    after: Session,
    r: Shown,
)
    requires
        !before.permissions@.fetching,
        notes(before, handle, Request::ListPermissions(target), sent),
        notices(sent, Notice::Permissions(listed), after, r),
    ensures
        r matches Shown::Permissions(t, shown) && t == target && permissions::entry_views(shown@)
            == permissions::resolved(before.permissions@.names, permissions::numbered(listed@)),
        after.permissions@.listed is None,
{
}

/// An overview that was asked for is shown with the names known.
pub proof fn law_sent_overview_is_shown(
    before: Session,
    handle: u16,
    sent: Session,
    raw: Vec<RawPermission>,
    after: Session,
    r: Shown,
)
    requires
        !before.permissions@.fetching,
        notes(before, handle, Request::PermissionOverview, sent),
        notices(sent, Notice::Overview(raw), after, r),
    ensures
        r matches Shown::Overview(shown) && permissions::entry_views(shown@)
            == permissions::resolved(before.permissions@.names, raw@),
        !after.permissions@.overview_asked,
{
}

/// The catalog that was asked for is shown once it is answered for: every
/// line that came in between, numbered by its place.
pub proof fn law_sent_catalog_is_shown(
    before: Session,
    handle: u16,
    sent: Session,
    lines: Vec<CatalogLine>,
    between: Session,
    a: Shown,
    channel_groups: Seq<GroupEntry>,
    server_groups: Seq<GroupEntry>,
    after: Session,
    r: Reply,
)
    requires
        before.permissions@.names.len() == 0,
        notes(before, handle, Request::PermissionCatalog, sent),
        notices(sent, Notice::Catalog(lines), between, a),
        answers(between, handle, Answer::Done, channel_groups, server_groups, after, r),
    ensures
        a is Nothing,
        r matches Reply::Catalog(done) && done.catalog matches Some(entries) && entries@.len()
            == lines@.len() && forall|i: int|
            0 <= i < entries@.len() ==> (#[trigger] entries@[i]).id == i && (lines@[i].name matches
            Some(name) ==> entries@[i].name@ == name@),
        !after.permissions@.fetching,
{
    let views = permissions::line_views(lines@);
    let names = permissions::names_in(views);
    assert(before.permissions@.names + names =~= names);
    assert(between.permissions@.names == names);
    let done = r->Catalog_0;
    let entries = done.catalog->Some_0;
    assert forall|i: int| 0 <= i < entries@.len() implies (#[trigger] entries@[i]).id == i && (
    lines@[i].name matches Some(name) ==> entries@[i].name@ == name@) by {
        assert(views[i] == lines@[i]@);
        assert(names[i] == (
            crate::text::list::or_empty(views[i].0),
            crate::text::list::or_empty(views[i].1),
        ));
    }
}

/// Only requests about permissions change what is awaited of them, and each
/// only its own part.
pub proof fn law_other_requests_leave_permissions(
    before: Session,
    handle: u16,
    request: Request,
    after: Session,
)
    requires
        notes(before, handle, request, after),
    ensures
        !(request is PermissionOverview) && !(request is PermissionCatalog) && !(request
            is ListPermissions) ==> after.permissions@ == before.permissions@,
        after.permissions@.names == before.permissions@.names,
        request is PermissionOverview ==> after.permissions@.overview_asked
            && after.permissions@.listed == before.permissions@.listed,
        request is PermissionCatalog ==> after.permissions@.fetching
            && after.permissions@.catalog_asked,
        request matches Request::ListPermissions(target) ==> after.permissions@.listed == Some(
            target,
        ) && after.permissions@.overview_asked == before.permissions@.overview_asked,
        request matches Request::ClientInfo(client) ==> after.awaited.client_info == Some(client),
        !(request is ClientInfo) ==> after.awaited.client_info == before.awaited.client_info,
        !(request is ListFiles) ==> after.listing == before.listing,
{
}

} // verus!
