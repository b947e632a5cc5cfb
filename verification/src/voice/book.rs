use vstd::prelude::*;

verus! {

/// How many clients a channel takes.
#[derive(Clone, Copy, Debug, PartialEq, Eq, Structural)]
pub enum ChannelLimit {
    Unlimited,
    Inherited,
    Limited(u16),
}

/// What is known of a channel.
pub struct BookChannel {
    pub id: u64,
    pub parent: u64,
    /// The id of the sibling before it, zero for the first.
    pub order: u64,
    pub name: String,
    pub topic: Option<String>,
    pub codec: String,
    pub max_clients: Option<ChannelLimit>,
    pub has_password: Option<bool>,
    /// The talk power that a moderated channel asks for.
    pub needed_talk_power: Option<i32>,
}

/// What is known of a client.
pub struct BookClient {
    pub id: u16,
    pub channel: u64,
    pub name: String,
    pub input_muted: bool,
    pub output_muted: bool,
    pub input_hardware_enabled: bool,
    pub away_message: Option<String>,
    pub is_channel_commander: bool,
    pub country: String,
    pub uid: Option<String>,
    pub database_id: u64,
    pub channel_group: u64,
    pub server_groups: Vec<u64>,
    pub talk_power: i32,
    pub talk_power_granted: bool,
    pub is_query: bool,
    pub is_streaming: Option<bool>,
}

/// A channel group or a server group.
pub struct GroupEntry {
    pub id: u64,
    pub name: String,
    pub icon_id: u32,
}

/// How many clients and channels the server itself counts.
#[derive(Clone, Copy)]
pub struct ServerCounts {
    pub clients: u16,
    pub channels: u64,
}

/// What is known of the server.
pub struct Book {
    pub channels: Vec<BookChannel>,
    pub clients: Vec<BookClient>,
    pub channel_groups: Vec<GroupEntry>,
    pub own_client: u16,
    pub max_clients: u16,
    pub counts: Option<ServerCounts>,
}

/// The channel with an id, if there is one.
pub open spec fn channel_with(channels: Seq<BookChannel>, id: u64) -> Option<BookChannel>
    decreases channels.len(),
{
    if channels.len() == 0 {
        None
    } else if channels[0].id == id {
        Some(channels[0])
    } else {
        channel_with(channels.skip(1), id)
    }
}

/// The client with an id, if there is one.
pub open spec fn client_with(clients: Seq<BookClient>, id: u16) -> Option<BookClient>
    decreases clients.len(),
{
    if clients.len() == 0 {
        None
    } else if clients[0].id == id {
        Some(clients[0])
    } else {
        client_with(clients.skip(1), id)
    }
}

/// The group with an id, if there is one.
pub open spec fn group_with(groups: Seq<GroupEntry>, id: u64) -> Option<GroupEntry>
    decreases groups.len(),
{
    if groups.len() == 0 {
        None
    } else if groups[0].id == id {
        Some(groups[0])
    } else {
        group_with(groups.skip(1), id)
    }
}

pub fn find_channel(channels: &Vec<BookChannel>, id: u64) -> (r: Option<&BookChannel>)
    ensures
        match r {
            Some(c) => channel_with(channels@, id) == Some(*c),
            None => channel_with(channels@, id) is None,
        },
{
    let mut i: usize = 0;
    assert(channels@.skip(0) =~= channels@);
    while i < channels.len()
        invariant
            i <= channels.len(),
            channel_with(channels@, id) == channel_with(channels@.skip(i as int), id),
        decreases channels.len() - i,
    {
        if channels[i].id == id {
            return Some(&channels[i]);
        }
        assert(channels@.skip(i as int).skip(1) =~= channels@.skip(i + 1));
        i += 1;
    }
    None
}

pub fn find_client(clients: &Vec<BookClient>, id: u16) -> (r: Option<&BookClient>)
    ensures
        match r {
            Some(c) => client_with(clients@, id) == Some(*c),
            None => client_with(clients@, id) is None,
        },
{
    let mut i: usize = 0;
    assert(clients@.skip(0) =~= clients@);
    while i < clients.len()
        invariant
            i <= clients.len(),
            client_with(clients@, id) == client_with(clients@.skip(i as int), id),
        decreases clients.len() - i,
    {
        if clients[i].id == id {
            return Some(&clients[i]);
        }
        assert(clients@.skip(i as int).skip(1) =~= clients@.skip(i + 1));
        i += 1;
    }
    None
}

pub fn find_group(groups: &Vec<GroupEntry>, id: u64) -> (r: Option<&GroupEntry>)
    ensures
        match r {
            Some(g) => group_with(groups@, id) == Some(*g),
            None => group_with(groups@, id) is None,
        },
{
    let mut i: usize = 0;
    assert(groups@.skip(0) =~= groups@);
    while i < groups.len()
        invariant
            i <= groups.len(),
            group_with(groups@, id) == group_with(groups@.skip(i as int), id),
        decreases groups.len() - i,
    {
        if groups[i].id == id {
            return Some(&groups[i]);
        }
        assert(groups@.skip(i as int).skip(1) =~= groups@.skip(i + 1));
        i += 1;
    }
    None
}

/// The name of a channel, empty where it is not known.
pub open spec fn channel_name(channels: Seq<BookChannel>, id: u64) -> Seq<char> {
    match channel_with(channels, id) {
        Some(c) => c.name@,
        None => Seq::empty(),
    }
}

pub fn name_of_channel(channels: &Vec<BookChannel>, id: u64) -> (r: String)
    ensures
        r@ == channel_name(channels@, id),
{
    match find_channel(channels, id) {
        Some(c) => c.name.clone(),
        None => String::new(),
    }
}

/// Whether groups stand in the order of their ids.
pub open spec fn sorted_by_id(groups: Seq<GroupEntry>) -> bool {
    forall|i: int, j: int|
        0 <= i <= j < groups.len() ==> (#[trigger] groups[i]).id <= (#[trigger] groups[j]).id
}

/// Puts groups in the order of their ids.
#[verifier::loop_isolation(false)]
pub fn sort_groups(groups: Vec<GroupEntry>) -> (r: Vec<GroupEntry>)
    ensures
        sorted_by_id(r@),
        r@.to_multiset() == groups@.to_multiset(),
{
    broadcast use vstd::seq_lib::group_to_multiset_ensures;

    let ghost all = groups@.to_multiset();
    let mut left = groups;
    let mut r: Vec<GroupEntry> = Vec::new();
    assert(r@.to_multiset().add(left@.to_multiset()) =~= all) by {
        assert(r@.to_multiset() =~= vstd::multiset::Multiset::empty());
    }
    while left.len() > 0
        invariant
            sorted_by_id(r@),
            r@.to_multiset().add(left@.to_multiset()) == all,
        decreases left.len(),
    {
        let ghost s = r@;
        let ghost l = left@;
        let group = left.pop().unwrap();
        let mut at: usize = 0;
        while at < r.len() && r[at].id < group.id
            invariant
                at <= r.len(),
                forall|i: int| 0 <= i < at ==> (#[trigger] r@[i]).id < group.id,
            decreases r.len() - at,
        {
            at += 1;
        }
        r.insert(at, group);
        assert(r@ =~= s.insert(at as int, group));
        assert(left@ =~= l.remove(l.len() - 1));
        assert(l[l.len() - 1] == group);
        assert(l.to_multiset().count(group) > 0) by {
            assert(l.contains(l[l.len() - 1]));
        }
        assert(r@.to_multiset() == s.to_multiset().insert(group));
        assert(left@.to_multiset() == l.to_multiset().remove(group));
        assert(r@.to_multiset().add(left@.to_multiset()) =~= s.to_multiset().add(
            l.to_multiset(),
        ));
        assert forall|i: int, j: int| 0 <= i <= j < r@.len() implies (#[trigger] r@[i]).id <= (
        #[trigger] r@[j]).id by {
            let k = if i < at {
                i
            } else {
                i - 1
            };
            let m = if j < at {
                j
            } else {
                j - 1
            };
            if i == at && j > at {
                assert(s[at as int].id <= s[m].id);
            } else if i != at && j != at {
                assert(s[k].id <= s[m].id);
            }
        }
    }
    assert(left@.to_multiset() =~= vstd::multiset::Multiset::empty()) by {
        assert(left@ =~= Seq::empty());
    }
    assert(r@.to_multiset() =~= all);
    r
}

/// The channel with an id is the first that bears it, and there is none only
/// where no channel does.
pub proof fn law_channel_is_first_with_id(channels: Seq<BookChannel>, id: u64)
    ensures
        match channel_with(channels, id) {
            Some(c) => c.id == id && exists|k: int|
                #![trigger channels[k]]
                0 <= k < channels.len() && channels[k] == c && forall|j: int|
                    0 <= j < k ==> (#[trigger] channels[j]).id != id,
            None => forall|j: int| 0 <= j < channels.len() ==> (#[trigger] channels[j]).id != id,
        },
    decreases channels.len(),
{
    if channels.len() > 0 {
        if channels[0].id == id {
            assert(channels[0] == channel_with(channels, id).unwrap());
        } else {
            let rest = channels.skip(1);
            law_channel_is_first_with_id(rest, id);
            match channel_with(rest, id) {
                Some(c) => {
                    let k = choose|k: int|
                        #![trigger rest[k]]
                        0 <= k < rest.len() && rest[k] == c && forall|j: int|
                            0 <= j < k ==> (#[trigger] rest[j]).id != id;
                    assert(channels[k + 1] == c);
                    assert forall|j: int| 0 <= j < k + 1 implies (#[trigger] channels[j]).id
                        != id by {
                        if j > 0 {
                            assert(rest[j - 1] == channels[j]);
                        }
                    }
                },
                None => {
                    assert forall|j: int| 0 <= j < channels.len() implies (
                        #[trigger] channels[j]
                    ).id
                        != id by {
                        if j > 0 {
                            assert(rest[j - 1] == channels[j]);
                        }
                    }
                },
            }
        }
    }
}

/// The client with an id is the first that bears it.
pub proof fn law_client_is_first_with_id(clients: Seq<BookClient>, k: int)
    requires
        0 <= k < clients.len(),
        forall|j: int| 0 <= j < k ==> (#[trigger] clients[j]).id != clients[k].id,
    ensures
        client_with(clients, clients[k].id) == Some(clients[k]),
    decreases k,
{
    if k > 0 {
        assert(clients[0].id != clients[k].id);
        let rest = clients.skip(1);
        assert forall|j: int| 0 <= j < k - 1 implies (#[trigger] rest[j]).id != rest[k - 1].id by {
            assert(rest[j] == clients[j + 1]);
        }
        assert(rest[k - 1] == clients[k]);
        law_client_is_first_with_id(rest, k - 1);
    }
}

/// A client that no entry bears the id of is not known.
pub proof fn law_unknown_client_is_none(clients: Seq<BookClient>, id: u16)
    requires
        forall|j: int| 0 <= j < clients.len() ==> (#[trigger] clients[j]).id != id,
    ensures
        client_with(clients, id) is None,
    decreases clients.len(),
{
    if clients.len() > 0 {
        assert(clients[0].id != id);
        let rest = clients.skip(1);
        assert forall|j: int| 0 <= j < rest.len() implies (#[trigger] rest[j]).id != id by {
            assert(rest[j] == clients[j + 1]);
        }
        law_unknown_client_is_none(rest, id);
    }
}

/// The group with an id is the first that bears it, and there is none only
/// where no group does.
pub proof fn law_group_is_first_with_id(groups: Seq<GroupEntry>, id: u64, k: int)
    ensures
        0 <= k < groups.len() && groups[k].id == id && (forall|j: int|
            0 <= j < k ==> (#[trigger] groups[j]).id != id) ==> group_with(groups, id) == Some(
            groups[k],
        ),
        (forall|j: int| 0 <= j < groups.len() ==> (#[trigger] groups[j]).id != id) ==> group_with(
            groups,
            id,
        ) is None,
    decreases groups.len(),
{
    if groups.len() > 0 {
        let rest = groups.skip(1);
        law_group_is_first_with_id(rest, id, k - 1);
        assert(groups[0] == groups[0]);
        if 0 < k < groups.len() && (forall|j: int|
            0 <= j < k ==> (#[trigger] groups[j]).id != id) {
            assert(groups[0].id != id);
            assert forall|j: int| 0 <= j < k - 1 implies (#[trigger] rest[j]).id != id by {
                assert(rest[j] == groups[j + 1]);
            }
            assert(rest[k - 1] == groups[k]);
        }
        if (forall|j: int| 0 <= j < groups.len() ==> (#[trigger] groups[j]).id != id) {
            assert(groups[0].id != id);
            assert forall|j: int| 0 <= j < rest.len() implies (#[trigger] rest[j]).id != id by {
                assert(rest[j] == groups[j + 1]);
            }
        }
    }
}

} // verus!
