use vstd::prelude::*;

use crate::text::list;
use crate::voice::book;
use crate::voice::book::Book;
use crate::voice::book::BookChannel;
use crate::voice::book::BookClient;
use crate::voice::book::ChannelLimit;
use crate::voice::book::ServerCounts;
use crate::voice::order;
use crate::voice::order::Place;

verus! {

/// A channel as reported.
pub struct ChannelInfo {
    pub id: u64,
    pub parent: u64,
    /// The place among its siblings, from zero.
    pub order: u64,
    pub name: String,
    pub topic: String,
    pub codec: String,
    pub max_clients: Option<u16>,
    pub has_password: bool,
}

/// A client as reported.
pub struct ClientInfo {
    pub id: u16,
    pub channel: u64,
    pub name: String,
    pub input_muted: bool,
    pub output_muted: bool,
    pub input_hardware_enabled: bool,
    pub away: bool,
    pub away_message: String,
    pub is_channel_commander: bool,
    pub country: String,
    pub uid: String,
    pub database_id: u64,
    pub channel_group: u64,
    pub server_groups: Vec<u64>,
    pub has_talk_power: bool,
    pub is_query: bool,
    pub is_streaming: bool,
}

/// The channels and clients as reported.
pub struct Snapshot {
    pub channels: Vec<ChannelInfo>,
    pub clients: Vec<ClientInfo>,
    pub own_client_id: u16,
    pub server_max_clients: u16,
    pub server_clients_online: u16,
    pub server_channels_online: u64,
}

/// What places the channels among their siblings.
pub open spec fn places(channels: Seq<BookChannel>) -> Seq<Place> {
    channels.map_values(|c: BookChannel| place_of(c))
}

pub open spec fn place_of(c: BookChannel) -> Place {
    Place { id: c.id, parent: c.parent, order: c.order }
}

/// Whether a report describes the channel, but for its place.
pub open spec fn describes_channel(info: ChannelInfo, c: BookChannel) -> bool {
    &&& info.id == c.id
    &&& info.parent == c.parent
    &&& info.name@ == c.name@
    &&& info.topic@ == list::or_empty(list::text_of(c.topic))
    &&& info.codec@ == c.codec@
    &&& info.max_clients == match c.max_clients {
        Some(ChannelLimit::Limited(n)) => Some(n),
        _ => None,
    }
    &&& info.has_password == (c.has_password == Some(true))
}

/// Whether a client may talk in its channel: in a moderated one it needs the
/// power, or leave granted to it alone.
pub open spec fn may_talk(channels: Seq<BookChannel>, c: BookClient) -> bool {
    match book::channel_with(channels, c.channel) {
        Some(channel) => match channel.needed_talk_power {
            Some(needed) => c.talk_power_granted || c.talk_power >= needed,
            None => true,
        },
        None => true,
    }
}

/// Whether a report describes the client.
pub open spec fn describes_client(
    info: ClientInfo,
    channels: Seq<BookChannel>,
    c: BookClient,
) -> bool {
    &&& info.id == c.id
    &&& info.channel == c.channel
    &&& info.name@ == c.name@
    &&& info.input_muted == c.input_muted
    &&& info.output_muted == c.output_muted
    &&& info.input_hardware_enabled == c.input_hardware_enabled
    &&& info.away == (c.away_message is Some)
    &&& info.away_message@ == list::or_empty(list::text_of(c.away_message))
    &&& info.is_channel_commander == c.is_channel_commander
    &&& info.country@ == c.country@
    &&& info.uid@ == list::or_empty(list::text_of(c.uid))
    &&& info.database_id == c.database_id
    &&& info.channel_group == c.channel_group
    &&& info.server_groups@ == c.server_groups@
    &&& info.has_talk_power == may_talk(channels, c)
    &&& info.is_query == c.is_query
    &&& info.is_streaming == (c.is_streaming == Some(true))
}

fn describe_channel(c: &BookChannel, place: u64) -> (r: ChannelInfo)
    ensures
        describes_channel(r, *c),
        r.order == place,
{
    ChannelInfo {
        id: c.id,
        parent: c.parent,
        order: place,
        name: c.name.clone(),
        topic: list::unwrap_text(&c.topic),
        codec: c.codec.clone(),
        max_clients: match c.max_clients {
            Some(ChannelLimit::Limited(n)) => Some(n),
            _ => None,
        },
        has_password: match c.has_password {
            Some(b) => b,
            None => false,
        },
    }
}

fn describe_client(channels: &Vec<BookChannel>, c: &BookClient) -> (r: ClientInfo)
    ensures
        describes_client(r, channels@, *c),
{
    let has_talk_power = match book::find_channel(channels, c.channel) {
        Some(channel) => match channel.needed_talk_power {
            Some(needed) => c.talk_power_granted || c.talk_power >= needed,
            None => true,
        },
        None => true,
    };
    let server_groups = c.server_groups.clone();
    assert(server_groups@ =~= c.server_groups@);
    ClientInfo {
        id: c.id,
        channel: c.channel,
        name: c.name.clone(),
        input_muted: c.input_muted,
        output_muted: c.output_muted,
        input_hardware_enabled: c.input_hardware_enabled,
        away: c.away_message.is_some(),
        away_message: list::unwrap_text(&c.away_message),
        is_channel_commander: c.is_channel_commander,
        country: c.country.clone(),
        uid: list::unwrap_text(&c.uid),
        database_id: c.database_id,
        channel_group: c.channel_group,
        server_groups,
        has_talk_power,
        is_query: c.is_query,
        is_streaming: match c.is_streaming {
            Some(b) => b,
            None => false,
        },
    }
}

/// How many of the clients are query clients.
pub open spec fn query_clients(clients: Seq<BookClient>) -> nat
    decreases clients.len(),
{
    if clients.len() == 0 {
        0
    } else {
        query_clients(clients.drop_last()) + if clients.last().is_query {
            1nat
        } else {
            0
        }
    }
}

/// A count as far as 16 bits hold it.
pub open spec fn short(n: nat) -> int {
    n as int % 0x10000
}

pub open spec fn less(a: int, b: int) -> int {
    if a >= b {
        a - b
    } else {
        0
    }
}

pub open spec fn larger(a: int, b: int) -> int {
    if a >= b {
        a
    } else {
        b
    }
}

/// How many clients are online, query clients not counted: what the server
/// says, but never fewer than are seen.
pub open spec fn clients_online(clients: Seq<BookClient>, counts: Option<ServerCounts>) -> int {
    let queries = short(query_clients(clients));
    let seen = less(short(clients.len()), queries);
    match counts {
        Some(c) => larger(less(c.clients as int, queries), seen),
        None => seen,
    }
}

/// How many channels there are: what the server says, but never fewer than are
/// seen.
pub open spec fn channels_online(channels: Seq<BookChannel>, counts: Option<ServerCounts>) -> int {
    match counts {
        Some(c) => larger(c.channels as int, channels.len() as int),
        None => channels.len() as int,
    }
}

fn count_queries(clients: &Vec<BookClient>) -> (r: usize)
    ensures
        r == query_clients(clients@),
        r <= clients@.len(),
{
    let mut n: usize = 0;
    let mut i: usize = 0;
    while i < clients.len()
        invariant
            i <= clients.len(),
            n <= i,
            n == query_clients(clients@.take(i as int)),
        decreases clients.len() - i,
    {
        assert(clients@.take(i + 1).drop_last() =~= clients@.take(i as int));
        if clients[i].is_query {
            n += 1;
        }
        i += 1;
    }
    assert(clients@.take(clients@.len() as int) =~= clients@);
    n
}

/// Reports all channels and clients.
pub fn snapshot(book: &Book) -> (r: Snapshot)
    ensures
        r.channels@.len() == book.channels@.len(),
        forall|i: int|
            0 <= i < r.channels@.len() ==> describes_channel(
                #[trigger] r.channels@[i],
                book.channels@[i],
            ),
        forall|i: int|
            0 <= i < r.channels@.len() ==> order::has_place(
                places(book.channels@),
                book.channels@[i].id,
                (#[trigger] r.channels@[i]).order as int,
            ),
        order::distinct_ids(places(book.channels@)) ==> forall|i: int|
            0 <= i < r.channels@.len() ==> order::is_place(
                places(book.channels@),
                place_of(book.channels@[i]),
                (#[trigger] r.channels@[i]).order as int,
            ),
        r.clients@.len() == book.clients@.len(),
        forall|i: int|
            0 <= i < r.clients@.len() ==> describes_client(
                #[trigger] r.clients@[i],
                book.channels@,
                book.clients@[i],
            ),
        r.own_client_id == book.own_client,
        r.server_max_clients == book.max_clients,
        r.server_clients_online == clients_online(book.clients@, book.counts),
        r.server_channels_online == channels_online(book.channels@, book.counts),
{
    let ghost spots = places(book.channels@);
    let mut list: Vec<Place> = Vec::new();
    let mut i: usize = 0;
    while i < book.channels.len()
        invariant
            i <= book.channels.len(),
            spots == places(book.channels@),
            list@ == spots.take(i as int),
        decreases book.channels.len() - i,
    {
        let c = &book.channels[i];
        list.push(Place { id: c.id, parent: c.parent, order: c.order });
        assert(spots.take(i + 1) =~= spots.take(i as int).push(spots[i as int]));
        i += 1;
    }
    assert(spots.take(spots.len() as int) =~= spots);
    let order = order::resolve_order(&list);
    let mut channels: Vec<ChannelInfo> = Vec::new();
    let mut i: usize = 0;
    while i < book.channels.len()
        invariant
            i <= book.channels.len(),
            spots == places(book.channels@),
            order::is_order(spots, order@),
            channels@.len() == i,
            forall|j: int|
                0 <= j < i ==> describes_channel(#[trigger] channels@[j], book.channels@[j]),
            forall|j: int|
                0 <= j < i ==> order::has_place(
                    spots,
                    book.channels@[j].id,
                    (#[trigger] channels@[j]).order as int,
                ),
        decreases book.channels.len() - i,
    {
        broadcast use vstd::std_specs::hash::group_hash_axioms;

        let c = &book.channels[i];
        let place: u64 = match order.get(&c.id) {
            Some(n) => *n,
            None => 0,
        };
        assert(spots[i as int] == place_of(book.channels@[i as int]));
        channels.push(describe_channel(c, place));
        i += 1;
    }
    proof {
        if order::distinct_ids(spots) {
            assert forall|j: int| 0 <= j < channels@.len() implies order::is_place(
                spots,
                place_of(book.channels@[j]),
                (#[trigger] channels@[j]).order as int,
            ) by {
                assert(spots[j] == place_of(book.channels@[j]));
                order::lemma_own_place(spots, j, channels@[j].order as int);
            }
        }
    }
    let mut clients: Vec<ClientInfo> = Vec::new();
    let mut i: usize = 0;
    while i < book.clients.len()
        invariant
            i <= book.clients.len(),
            clients@.len() == i,
            forall|j: int|
                0 <= j < i ==> describes_client(
                    #[trigger] clients@[j],
                    book.channels@,
                    book.clients@[j],
                ),
        decreases book.clients.len() - i,
    {
        clients.push(describe_client(&book.channels, &book.clients[i]));
        i += 1;
    }
    let queries: u16 = (count_queries(&book.clients) % 0x10000) as u16;
    let seen: u16 = ((book.clients.len() % 0x10000) as u16).saturating_sub(queries);
    let visible: u64 = book.channels.len() as u64;
    let online: u16 = match book.counts {
        Some(c) => {
            let without: u16 = c.clients.saturating_sub(queries);
            if without >= seen {
                without
            } else {
                seen
            }
        },
        None => seen,
    };
    let channels_online: u64 = match book.counts {
        Some(c) => if c.channels >= visible {
            c.channels
        } else {
            visible
        },
        None => visible,
    };
    Snapshot {
        channels,
        clients,
        own_client_id: book.own_client,
        server_max_clients: book.max_clients,
        server_clients_online: online,
        server_channels_online: channels_online,
    }
}

/// The count of clients never stays behind the clients that are seen, query
/// clients apart.
pub proof fn law_count_covers_seen_clients(clients: Seq<BookClient>, counts: Option<ServerCounts>)
    requires
        clients.len() < 0x10000,
    ensures
        clients_online(clients, counts) >= clients.len() - query_clients(clients),
{
    lemma_query_clients(clients);
}

proof fn lemma_query_clients(clients: Seq<BookClient>)
    ensures
        query_clients(clients) <= clients.len(),
    decreases clients.len(),
{
    if clients.len() > 0 {
        lemma_query_clients(clients.drop_last());
    }
}

/// In a channel that is not moderated everyone may talk.
pub proof fn law_unmoderated_channel_lets_all_talk(channels: Seq<BookChannel>, c: BookClient)
    requires
        book::channel_with(channels, c.channel) matches Some(channel)
            && channel.needed_talk_power is None,
    ensures
        may_talk(channels, c),
{
}

/// Whether a channel is the one that a client is in: the first with the id.
pub open spec fn is_in(channels: Seq<BookChannel>, k: int, c: BookClient) -> bool {
    &&& 0 <= k < channels.len()
    &&& channels[k].id == c.channel
    &&& forall|j: int| 0 <= j < k ==> (#[trigger] channels[j]).id != c.channel
}

proof fn lemma_channel_of(channels: Seq<BookChannel>, k: int, c: BookClient)
    requires
        is_in(channels, k, c),
    ensures
        book::channel_with(channels, c.channel) == Some(channels[k]),
    decreases k,
{
    if k > 0 {
        assert(channels[0].id != c.channel);
        let rest = channels.skip(1);
        assert forall|j: int| 0 <= j < k - 1 implies (#[trigger] rest[j]).id != c.channel by {
            assert(rest[j] == channels[j + 1]);
        }
        lemma_channel_of(rest, k - 1, c);
    }
}

/// In a channel that needs talk power a client without leave of its own has
/// it in the report exactly from that power on; leave of its own is always
/// enough.
pub proof fn law_talk_power_is_reached_from_below(
    info: ClientInfo,
    channels: Seq<BookChannel>,
    k: int,
    c: BookClient,
)
    requires
        describes_client(info, channels, c),
        is_in(channels, k, c),
        channels[k].needed_talk_power is Some,
    ensures
        !c.talk_power_granted ==> (info.has_talk_power <==> channels[k].needed_talk_power.unwrap()
            <= c.talk_power),
        c.talk_power_granted ==> info.has_talk_power,
{
    lemma_channel_of(channels, k, c);
}

/// More talk power never takes the right to talk away.
pub proof fn law_more_talk_power_is_no_less(
    info: ClientInfo,
    other: ClientInfo,
    channels: Seq<BookChannel>,
    c: BookClient,
    power: i32,
)
    requires
        describes_client(info, channels, c),
        describes_client(other, channels, BookClient { talk_power: power, ..c }),
        c.talk_power <= power,
        info.has_talk_power,
    ensures
        other.has_talk_power,
{
}

/// A report of a client says of it what the book does: a client is away where
/// there is a message for it, even an empty one, and streams only where that
/// is known.
pub proof fn law_client_report_is_true(
    info: ClientInfo,
    channels: Seq<BookChannel>,
    c: BookClient,
)
    requires
        describes_client(info, channels, c),
    ensures
        info.id == c.id && info.channel == c.channel && info.name@ == c.name@,
        info.input_muted == c.input_muted && info.output_muted == c.output_muted,
        info.input_hardware_enabled == c.input_hardware_enabled,
        info.away <==> c.away_message is Some,
        c.away_message matches Some(m) ==> info.away_message@ == m@,
        c.away_message is None ==> info.away_message@.len() == 0,
        info.is_channel_commander == c.is_channel_commander,
        info.country@ == c.country@,
        c.uid matches Some(u) ==> info.uid@ == u@,
        c.uid is None ==> info.uid@.len() == 0,
        info.database_id == c.database_id && info.channel_group == c.channel_group,
        info.server_groups@ == c.server_groups@,
        info.is_query == c.is_query,
        info.is_streaming <==> c.is_streaming == Some(true),
{
}

/// A report of a channel says of it what the book does: a limit only where the
/// channel has one of its own, and a password only where that is known.
pub proof fn law_channel_report_is_true(info: ChannelInfo, c: BookChannel)
    requires
        describes_channel(info, c),
    ensures
        info.id == c.id && info.parent == c.parent,
        info.name@ == c.name@ && info.codec@ == c.codec@,
        c.topic matches Some(t) ==> info.topic@ == t@,
        c.topic is None ==> info.topic@.len() == 0,
        c.max_clients matches Some(ChannelLimit::Limited(n)) ==> info.max_clients == Some(n),
        !(c.max_clients matches Some(ChannelLimit::Limited(_))) ==> info.max_clients is None,
        info.has_password <==> c.has_password == Some(true),
{
}

/// The clients that are no query clients.
pub open spec fn people(clients: Seq<BookClient>) -> Seq<BookClient> {
    clients.filter(|c: BookClient| !c.is_query)
}

proof fn lemma_people(clients: Seq<BookClient>)
    ensures
        people(clients).len() + query_clients(clients) == clients.len(),
    decreases clients.len(),
{
    reveal(Seq::filter);
    if clients.len() > 0 {
        lemma_people(clients.drop_last());
    }
}

/// The count of clients is that of the people seen, and more only where the
/// server tells of more; query clients never count.
pub proof fn law_clients_are_counted(clients: Seq<BookClient>, counts: Option<ServerCounts>)
    requires
        clients.len() < 0x10000,
    ensures
        counts is None ==> clients_online(clients, counts) == people(clients).len(),
        counts matches Some(c) ==> {
            let told = c.clients - (clients.len() - people(clients).len());
            &&& clients_online(clients, counts) >= people(clients).len()
            &&& clients_online(clients, counts) >= told
            &&& clients_online(clients, counts) == people(clients).len() || clients_online(
                clients,
                counts,
            ) == told
        },
{
    lemma_people(clients);
}

/// The count of channels is that of the channels seen, and more only where
/// the server tells of more.
pub proof fn law_channels_are_counted(channels: Seq<BookChannel>, counts: Option<ServerCounts>)
    ensures
        counts is None ==> channels_online(channels, counts) == channels.len(),
        counts matches Some(c) ==> {
            &&& channels_online(channels, counts) >= channels.len()
            &&& channels_online(channels, counts) >= c.channels
            &&& channels_online(channels, counts) == channels.len() || channels_online(
                channels,
                counts,
            ) == c.channels
        },
{
}

} // verus!
