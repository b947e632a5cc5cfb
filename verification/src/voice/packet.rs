use tsproto_packets::commands::CommandItem;
use tsproto_packets::commands::CommandParser;
use tsproto_packets::packets::Direction;
use tsproto_packets::packets::Flags;
use tsproto_packets::packets::OutCommand;
use tsproto_packets::packets::PacketType;
use vstd::prelude::*;
use vstd::utf8::decode_utf8;
use vstd::utf8::encode_utf8;
use vstd::utf8::valid_utf8;

use crate::text::chars;
use crate::text::number;
use crate::text::order;
use crate::voice::encoding;

verus! {

/// An argument of a command to the voice server.
pub struct Argument {
    pub name: String,
    pub value: String,
}

impl View for Argument {
    type V = (Seq<char>, Seq<char>);

    open spec fn view(&self) -> (Seq<char>, Seq<char>) {
        (self.name@, self.value@)
    }
}

/// A command to the voice server.
pub struct Command {
    pub name: String,
    pub arguments: Vec<Argument>,
}

/// A command as plain text.
#[verifier::ext_equal]
pub struct CommandView {
    pub name: Seq<char>,
    pub arguments: Seq<(Seq<char>, Seq<char>)>,
}

/// The texts of several arguments.
pub open spec fn argument_texts(arguments: Seq<Argument>) -> Seq<(Seq<char>, Seq<char>)> {
    arguments.map_values(|a: Argument| a@)
}

impl View for Command {
    type V = CommandView;

    open spec fn view(&self) -> CommandView {
        CommandView { name: self.name@, arguments: argument_texts(self.arguments@) }
    }
}

impl CommandView {
    /// A command without arguments.
    pub open spec fn named(name: Seq<char>) -> CommandView {
        CommandView { name, arguments: Seq::empty() }
    }

    /// The command with one more argument.
    pub open spec fn and(self, name: Seq<char>, value: Seq<char>) -> CommandView {
        CommandView { name: self.name, arguments: self.arguments.push((name, value)) }
    }

    /// The command with one more argument, a number.
    pub open spec fn and_number(self, name: Seq<char>, value: nat) -> CommandView {
        self.and(name, number::decimal_text(value))
    }
}

impl Command {
    pub fn new(name: &str) -> (r: Command)
        ensures
            r@ == CommandView::named(name@),
    {
        let r = Command { name: name.to_owned(), arguments: Vec::new() };
        assert(r@ =~= CommandView::named(name@));
        r
    }

    /// Adds an argument at the end.
    pub fn with(self, name: &str, value: &str) -> (r: Command)
        ensures
            r@ == self@.and(name@, value@),
    {
        let ghost before = self@;
        let mut r = self;
        r.arguments.push(Argument { name: name.to_owned(), value: value.to_owned() });
        assert(r@ =~= before.and(name@, value@));
        r
    }

    /// Adds a number at the end.
    pub fn with_number(self, name: &str, value: u64) -> (r: Command)
        ensures
            r@ == self@.and_number(name@, value as nat),
    {
        let text = number::decimal(value);
        self.with(name, text.as_str())
    }
}

/// A byte as it stands in the value of an argument.
pub open spec fn escaped_byte(byte: u8) -> Seq<u8> {
    if byte == 0x0b {
        seq![0x5cu8, 0x76u8]
    } else if byte == 0x0c {
        seq![0x5cu8, 0x66u8]
    } else if byte == 0x5c {
        seq![0x5cu8, 0x5cu8]
    } else if byte == 0x09 {
        seq![0x5cu8, 0x74u8]
    } else if byte == 0x0d {
        seq![0x5cu8, 0x72u8]
    } else if byte == 0x0a {
        seq![0x5cu8, 0x6eu8]
    } else if byte == 0x7c {
        seq![0x5cu8, 0x70u8]
    } else if byte == 0x20 {
        seq![0x5cu8, 0x73u8]
    } else if byte == 0x2f {
        seq![0x5cu8, 0x2fu8]
    } else {
        seq![byte]
    }
}

/// The bytes of a value with whatever would end it escaped.
pub open spec fn escaped_bytes(bytes: Seq<u8>) -> Seq<u8>
    decreases bytes.len(),
{
    if bytes.len() == 0 {
        Seq::empty()
    } else {
        escaped_bytes(bytes.drop_last()) + escaped_byte(bytes.last())
    }
}

/// A command's text with one more argument: set off by a space from what
/// stands before it in its part, and without `=` where the value is empty.
pub open spec fn with_argument(written: Seq<u8>, name: Seq<u8>, value: Seq<u8>) -> Seq<u8> {
    let start = if written.len() > 0 && written.last() != 0x7c {
        written.push(0x20)
    } else {
        written
    };
    if value.len() == 0 {
        start + name
    } else {
        (start + name).push(0x3d) + escaped_bytes(value)
    }
}

/// The text of a command with its first `n` arguments.
pub open spec fn command_text(command: CommandView, n: nat) -> Seq<u8>
    decreases n,
{
    if n == 0 {
        encode_utf8(command.name)
    } else {
        let (name, value) = command.arguments[n - 1];
        with_argument(
            command_text(command, (n - 1) as nat),
            encode_utf8(name),
            encode_utf8(value),
        )
    }
}

/// A packet that carries a command, of `tsproto-packets`.
#[verifier::external_type_specification]
#[verifier::external_body]
pub struct ExOutCommand(tsproto_packets::packets::OutCommand);

/// The bytes that a packet holds behind its header.
pub uninterp spec fn packet_content(packet: OutCommand) -> Seq<u8>;

/// `OutCommand::new` of `tsproto-packets`: a packet from the client to the
/// server, without flags, that holds the name of the command.
#[verifier::external_body]
fn start_packet(name: &str) -> (r: OutCommand)
    ensures
        packet_content(r) == encode_utf8(name@),
{
    OutCommand::new(Direction::C2S, Flags::empty(), PacketType::Command, name)
}

/// `OutCommand::write_arg` of `tsproto-packets`: appends the argument with its
/// value escaped.
#[verifier::external_body]
fn extend_packet(packet: &mut OutCommand, name: &str, value: &str)
    ensures
        packet_content(*final(packet)) == with_argument(
            packet_content(*old(packet)),
            encode_utf8(name@),
            encode_utf8(value@),
        ),
{
    packet.write_arg(name, &value)
}

/// The packet to send for a command.
pub fn encode_command(command: &Command) -> (r: OutCommand)
    ensures
        packet_content(r) == command_text(command@, command@.arguments.len()),
{
    let mut packet = start_packet(command.name.as_str());
    let mut i: usize = 0;
    while i < command.arguments.len()
        invariant
            i <= command.arguments.len(),
            packet_content(packet) == command_text(command@, i as nat),
        decreases command.arguments.len() - i,
    {
        assert(command@.arguments[i as int] == command.arguments@[i as int]@);
        extend_packet(
            &mut packet,
            command.arguments[i].name.as_str(),
            command.arguments[i].value.as_str(),
        );
        i += 1;
    }
    packet
}

/// Whether a byte would end a value.
pub open spec fn is_special(byte: u8) -> bool {
    byte == 0x0b || byte == 0x0c || byte == 0x09 || byte == 0x0d || byte == 0x0a || byte == 0x7c
        || byte == 0x20
}

/// No value can end its argument, its part or its line early.
pub proof fn law_escaped_value_stays_whole(bytes: Seq<u8>)
    ensures
        forall|i: int| 0 <= i < escaped_bytes(bytes).len() ==> !is_special(
            #[trigger] escaped_bytes(bytes)[i],
        ),
    decreases bytes.len(),
{
    if bytes.len() > 0 {
        let head = escaped_bytes(bytes.drop_last());
        law_escaped_value_stays_whole(bytes.drop_last());
        assert forall|i: int| 0 <= i < escaped_bytes(bytes).len() implies !is_special(
            #[trigger] escaped_bytes(bytes)[i],
        ) by {
            if i < head.len() {
                assert(escaped_bytes(bytes)[i] == head[i]);
            } else {
                assert(escaped_bytes(bytes)[i] == escaped_byte(bytes.last())[i - head.len()]);
            }
        }
    }
}

proof fn lemma_escaped_byte_first(byte: u8)
    ensures
        escaped_byte(byte).len() == 1 || escaped_byte(byte).len() == 2,
        escaped_byte(byte).len() == 1 <==> escaped_byte(byte)[0] != 0x5c,
{
}

proof fn lemma_escaped_concat(a: Seq<u8>, b: Seq<u8>)
    ensures
        escaped_bytes(a + b) == escaped_bytes(a) + escaped_bytes(b),
    decreases b.len(),
{
    if b.len() == 0 {
        assert(a + b =~= a);
        assert(escaped_bytes(a) + escaped_bytes(b) =~= escaped_bytes(a));
    } else {
        assert((a + b).drop_last() =~= a + b.drop_last());
        lemma_escaped_concat(a, b.drop_last());
        assert(escaped_bytes(a + b) =~= escaped_bytes(a) + escaped_bytes(b));
    }
}

/// Different values are written differently.
pub proof fn law_escaping_keeps_values_apart(a: Seq<u8>, b: Seq<u8>)
    requires
        escaped_bytes(a) == escaped_bytes(b),
    ensures
        a == b,
    decreases a.len(),
{
    if a.len() == 0 || b.len() == 0 {
        assert(escaped_bytes(Seq::<u8>::empty()).len() == 0);
        if a.len() > 0 {
            assert(b =~= Seq::<u8>::empty());
            lemma_escaped_byte_first(a.last());
            assert(escaped_bytes(a).len() == escaped_bytes(a.drop_last()).len() + escaped_byte(
                a.last(),
            ).len());
        }
        if b.len() > 0 {
            assert(a =~= Seq::<u8>::empty());
            lemma_escaped_byte_first(b.last());
            assert(escaped_bytes(b).len() == escaped_bytes(b.drop_last()).len() + escaped_byte(
                b.last(),
            ).len());
        }
        assert(a =~= b);
    } else {
        let x = seq![a[0]];
        let y = seq![b[0]];
        assert(a =~= x + a.skip(1));
        assert(b =~= y + b.skip(1));
        lemma_escaped_concat(x, a.skip(1));
        lemma_escaped_concat(y, b.skip(1));
        assert(x.drop_last() =~= Seq::<u8>::empty());
        assert(y.drop_last() =~= Seq::<u8>::empty());
        assert(escaped_bytes(Seq::<u8>::empty()) =~= Seq::<u8>::empty());
        assert(escaped_bytes(x) =~= escaped_byte(a[0]));
        assert(escaped_bytes(y) =~= escaped_byte(b[0]));
        let s = escaped_bytes(a);
        let p = escaped_byte(a[0]);
        let q = escaped_byte(b[0]);
        lemma_escaped_byte_first(a[0]);
        lemma_escaped_byte_first(b[0]);
        assert(s[0] == p[0] && s[0] == q[0]);
        assert(p.len() == q.len());
        assert(s.take(p.len() as int) =~= p);
        assert(s.take(q.len() as int) =~= q);
        assert(a[0] == b[0]);
        assert(s.skip(p.len() as int) =~= escaped_bytes(a.skip(1)));
        assert(s.skip(q.len() as int) =~= escaped_bytes(b.skip(1)));
        law_escaping_keeps_values_apart(a.skip(1), b.skip(1));
    }
}

/// A piece of a command that arrived: an argument with the bytes of its name
/// and its value, where that is valid text, or the start of the next part.
pub enum ReceivedItem {
    Argument { name: Vec<u8>, value: Option<String> },
    NextPart,
}

impl View for ReceivedItem {
    type V = Option<(Seq<u8>, Option<Seq<char>>)>;

    open spec fn view(&self) -> Option<(Seq<u8>, Option<Seq<char>>)> {
        match self {
            ReceivedItem::Argument { name, value } => Some(
                (name@, crate::text::list::text_of(*value)),
            ),
            ReceivedItem::NextPart => None,
        }
    }
}

/// The pieces of several items.
pub open spec fn pieces_of(items: Seq<ReceivedItem>) -> Seq<Option<(Seq<u8>, Option<Seq<char>>)>> {
    items.map_values(|i: ReceivedItem| i@)
}

/// The pieces that the parser of `tsproto-packets` finds in a command behind
/// its name; `None` stands for the start of the next part.
pub uninterp spec fn received_pieces(content: Seq<char>) -> Seq<
    Option<(Seq<u8>, Option<Seq<char>>)>,
>;

/// Whether a text can name an argument: ASCII letters, digits and underscores.
pub open spec fn is_word(s: Seq<char>) -> bool {
    &&& s.len() > 0
    &&& forall|i: int| 0 <= i < s.len() ==> chars::is_alphanumeric(#[trigger] s[i]) || s[i] == '_'
}

/// Whether a command and its arguments have proper names.
pub open spec fn is_proper(command: CommandView) -> bool {
    &&& command.name.len() > 0
    &&& forall|i: int|
        0 <= i < command.name.len() ==> chars::is_alphanumeric(#[trigger] command.name[i])
    &&& forall|i: int|
        0 <= i < command.arguments.len() ==> is_word((#[trigger] command.arguments[i]).0)
}

/// Whether a text is what is sent for a command with proper names.
pub open spec fn is_text_of(content: Seq<char>, command: CommandView) -> bool {
    is_proper(command) && encode_utf8(content) == command_text(command, command.arguments.len())
}

/// The pieces that the arguments of a command are received as.
pub open spec fn argument_pieces(arguments: Seq<(Seq<char>, Seq<char>)>) -> Seq<
    Option<(Seq<u8>, Option<Seq<char>>)>,
> {
    arguments.map_values(|a: (Seq<char>, Seq<char>)| Some((encode_utf8(a.0), Some(a.1))))
}

/// `CommandParser` of `tsproto-packets`, with `name` and `get_str` of the
/// arguments that it yields: splits a command into its pieces, with the values
/// unescaped. Which pieces these are is a function of the text. Of a command
/// as `OutCommand` writes it they are the arguments, in order; an argument
/// without `=` has an empty value.
#[verifier::external_body]
fn receive(content: &str) -> (r: Vec<ReceivedItem>)
    ensures
        pieces_of(r@) == received_pieces(content@),
        forall|c: CommandView| #[trigger]
            is_text_of(content@, c) ==> pieces_of(r@) == argument_pieces(c.arguments),
{
    let (_, parser) = CommandParser::new(content.as_bytes());
    parser.map(|item| match item {
        CommandItem::Argument(a) => ReceivedItem::Argument {
            name: a.name().to_vec(),
            value: a.value().get_str().ok().map(|v| v.into_owned()),
        },
        CommandItem::NextCommand => ReceivedItem::NextPart,
    }).collect()
}

/// The pieces before the next part.
pub open spec fn first_part(pieces: Seq<Option<(Seq<u8>, Option<Seq<char>>)>>) -> Seq<
    Option<(Seq<u8>, Option<Seq<char>>)>,
>
    decreases pieces.len(),
{
    if pieces.len() == 0 || pieces[0] is None {
        Seq::empty()
    } else {
        seq![pieces[0]] + first_part(pieces.skip(1))
    }
}

/// The arguments of one part: a later one replaces an earlier one of the same
/// name; names and values that are not valid text do not count.
pub open spec fn collected(pieces: Seq<Option<(Seq<u8>, Option<Seq<char>>)>>) -> Map<
    Seq<char>,
    Seq<char>,
>
    decreases pieces.len(),
{
    if pieces.len() == 0 {
        Map::empty()
    } else {
        let before = collected(pieces.drop_last());
        match pieces.last() {
            Some((name, Some(value))) => if valid_utf8(name) {
                before.insert(decode_utf8(name), value)
            } else {
                before
            },
            _ => before,
        }
    }
}

/// The arguments of a received command, in the order of their names.
pub struct Arguments {
    pub entries: Vec<Argument>,
}

impl Arguments {
    /// Whether the names ascend, so that none occurs twice.
    pub open spec fn is_sorted(self) -> bool {
        forall|i: int, j: int|
            0 <= i < j < self.entries@.len() ==> order::precedes(
                #[trigger] self.entries@[i].name@,
                #[trigger] self.entries@[j].name@,
            )
    }

    /// Whether the entries are those of the map.
    pub open spec fn holds(self, map: Map<Seq<char>, Seq<char>>) -> bool {
        &&& forall|i: int|
            0 <= i < self.entries@.len() ==> map.contains_key(
                (#[trigger] self.entries@[i]).name@,
            ) && map[self.entries@[i].name@] == self.entries@[i].value@
        &&& forall|name: Seq<char>| #[trigger]
            map.contains_key(name) ==> exists|i: int|
                0 <= i < self.entries@.len() && (#[trigger] self.entries@[i]).name@ == name
    }

    fn insert(&mut self, name: String, value: String, Ghost(map): Ghost<Map<Seq<char>, Seq<char>>>)
        requires
            old(self).is_sorted(),
            old(self).holds(map),
        ensures
            final(self).is_sorted(),
            final(self).holds(map.insert(name@, value@)),
    {
        let ghost s = self.entries@;
        let ghost key = name@;
        let ghost after = map.insert(name@, value@);
        let mut at: usize = 0;
        while at < self.entries.len() && order::comes_before(
            self.entries[at].name.as_str(),
            name.as_str(),
        )
            invariant
                at <= self.entries.len(),
                s == self.entries@,
                key == name@,
                forall|i: int| 0 <= i < at ==> order::precedes((#[trigger] s[i]).name@, key),
            decreases self.entries.len() - at,
        {
            at += 1;
        }
        if at < self.entries.len() && self.entries[at].name == name {
            let entry = Argument { name, value };
            self.entries.remove(at);
            self.entries.insert(at, entry);
            let ghost t = self.entries@;
            proof {
                assert(t =~= s.update(at as int, entry));
                assert forall|n: Seq<char>| #[trigger] after.contains_key(n) implies exists|i: int|
                    0 <= i < t.len() && (#[trigger] t[i]).name@ == n by {
                    if n == key {
                        assert(t[at as int].name@ == n);
                    } else {
                        assert(map.contains_key(n));
                        let i = choose|i: int| 0 <= i < s.len() && (#[trigger] s[i]).name@ == n;
                        assert(t[i].name@ == n);
                    }
                }
                assert forall|i: int| 0 <= i < t.len() implies after.contains_key(
                    (#[trigger] t[i]).name@,
                ) && after[t[i].name@] == t[i].value@ by {
                    if i < at {
                        order::lemma_precedes_total(s[i].name@, key);
                        assert(order::precedes(s[i].name@, s[at as int].name@));
                    } else if i > at {
                        order::lemma_precedes_total(s[at as int].name@, s[i].name@);
                        assert(order::precedes(s[at as int].name@, s[i].name@));
                    }
                }
            }
        } else {
            let entry = Argument { name, value };
            proof {
                if at < s.len() {
                    order::lemma_precedes_total(s[at as int].name@, key);
                }
            }
            self.entries.insert(at, entry);
            let ghost t = self.entries@;
            proof {
                assert(t =~= s.insert(at as int, entry));
                assert forall|i: int| at <= i < s.len() implies order::precedes(
                    key,
                    (#[trigger] s[i]).name@,
                ) by {
                    if i > at {
                        order::lemma_precedes_transitive(key, s[at as int].name@, s[i].name@);
                    }
                }
                assert forall|i: int, j: int| 0 <= i < j < t.len() implies order::precedes(
                    #[trigger] t[i].name@,
                    #[trigger] t[j].name@,
                ) by {
                    let k = if i < at {
                        i
                    } else {
                        i - 1
                    };
                    let l = if j < at {
                        j
                    } else {
                        j - 1
                    };
                    if i != at && j != at {
                        assert(order::precedes(s[k].name@, s[l].name@));
                    } else if j == at {
                        assert(order::precedes(s[i].name@, key));
                    } else {
                        assert(order::precedes(key, s[l].name@));
                    }
                }
                assert forall|i: int| 0 <= i < t.len() implies after.contains_key(
                    (#[trigger] t[i]).name@,
                ) && after[t[i].name@] == t[i].value@ by {
                    if i < at {
                        assert(t[i] == s[i]);
                        order::lemma_precedes_total(s[i].name@, key);
                        assert(order::precedes(s[i].name@, key));
                        assert(s[i].name@ != key);
                    } else if i > at {
                        assert(t[i] == s[i - 1]);
                        assert(order::precedes(key, s[i - 1].name@));
                        order::lemma_precedes_total(key, s[i - 1].name@);
                        assert(s[i - 1].name@ != key);
                    }
                }
                assert forall|n: Seq<char>| #[trigger] after.contains_key(n) implies exists|i: int|
                    0 <= i < t.len() && (#[trigger] t[i]).name@ == n by {
                    if n == key {
                        assert(t[at as int].name@ == n);
                    } else {
                        assert(map.contains_key(n));
                        let i = choose|i: int| 0 <= i < s.len() && (#[trigger] s[i]).name@ == n;
                        if i < at {
                            assert(t[i].name@ == n);
                        } else {
                            assert(t[i + 1].name@ == n);
                        }
                    }
                }
            }
        }
    }
}

proof fn lemma_first_part(pieces: Seq<Option<(Seq<u8>, Option<Seq<char>>)>>, n: int)
    requires
        0 <= n <= pieces.len(),
        forall|i: int| 0 <= i < n ==> (#[trigger] pieces[i]) is Some,
        n < pieces.len() ==> pieces[n] is None,
    ensures
        first_part(pieces) == pieces.take(n),
    decreases n,
{
    if n == 0 {
        assert(pieces.take(0) =~= Seq::empty());
    } else {
        let rest = pieces.skip(1);
        assert forall|i: int| 0 <= i < n - 1 implies (#[trigger] rest[i]) is Some by {
            assert(rest[i] == pieces[i + 1]);
        }
        lemma_first_part(rest, n - 1);
        assert(pieces[0] is Some);
        assert(pieces.take(n) =~= seq![pieces[0]] + rest.take(n - 1));
    }
}

/// Collects the arguments of the first part of a received command.
pub fn collect_arguments(items: &Vec<ReceivedItem>) -> (r: Arguments)
    ensures
        r.is_sorted(),
        r.holds(collected(first_part(pieces_of(items@)))),
{
    let ghost pieces = pieces_of(items@);
    let mut r = Arguments { entries: Vec::new() };
    let mut i: usize = 0;
    assert(collected(pieces.take(0)) =~= Map::empty());
    while i < items.len()
        invariant
            i <= items.len(),
            pieces == pieces_of(items@),
            forall|j: int| 0 <= j < i ==> (#[trigger] pieces[j]) is Some,
            r.is_sorted(),
            r.holds(collected(pieces.take(i as int))),
        decreases items.len() - i,
    {
        assert(pieces[i as int] == items@[i as int]@);
        match &items[i] {
            ReceivedItem::Argument { name, value } => {
                let ghost map = collected(pieces.take(i as int));
                assert(pieces.take(i + 1).drop_last() =~= pieces.take(i as int));
                assert(pieces.take(i + 1).last() == pieces[i as int]);
                match value {
                    Some(value) => {
                        let bytes = name.clone();
                        assert(bytes@ =~= name@);
                        match encoding::utf8_text(bytes) {
                            Some(name) => r.insert(name, value.clone(), Ghost(map)),
                            None => {},
                        }
                    },
                    None => {},
                }
            },
            ReceivedItem::NextPart => {
                proof {
                    lemma_first_part(pieces, i as int);
                }
                return r;
            },
        }
        i += 1;
    }
    proof {
        lemma_first_part(pieces, i as int);
    }
    r
}

/// The arguments by their names; a later one replaces an earlier one of the
/// same name.
pub open spec fn by_name(arguments: Seq<(Seq<char>, Seq<char>)>) -> Map<Seq<char>, Seq<char>>
    decreases arguments.len(),
{
    if arguments.len() == 0 {
        Map::empty()
    } else {
        by_name(arguments.drop_last()).insert(arguments.last().0, arguments.last().1)
    }
}

proof fn lemma_arguments_are_collected(arguments: Seq<(Seq<char>, Seq<char>)>)
    ensures
        collected(first_part(argument_pieces(arguments))) == by_name(arguments),
    decreases arguments.len(),
{
    let pieces = argument_pieces(arguments);
    lemma_first_part(pieces, pieces.len() as int);
    assert(pieces.take(pieces.len() as int) =~= pieces);
    if arguments.len() > 0 {
        let head = arguments.drop_last();
        let name = arguments.last().0;
        lemma_arguments_are_collected(head);
        lemma_first_part(argument_pieces(head), head.len() as int);
        assert(argument_pieces(head).take(head.len() as int) =~= argument_pieces(head));
        assert(pieces.drop_last() =~= argument_pieces(head));
        vstd::utf8::encode_utf8_valid_utf8(name);
        vstd::utf8::encode_utf8_decode_utf8(name);
    }
}

/// The arguments of a received command, as far as its first part. What was
/// sent for a command is read back as its arguments.
pub fn parse_ts_args(content: &str) -> (r: Arguments)
    ensures
        r.is_sorted(),
        r.holds(collected(first_part(received_pieces(content@)))),
        forall|c: CommandView| #[trigger] is_text_of(content@, c) ==> r.holds(by_name(c.arguments)),
{
    let items = receive(content);
    proof {
        assert forall|c: CommandView| #[trigger] is_text_of(content@, c) implies collected(
            first_part(pieces_of(items@)),
        ) == by_name(c.arguments) by {
            lemma_arguments_are_collected(c.arguments);
        }
    }
    collect_arguments(&items)
}

/// The first part ends where the next begins.
pub proof fn law_first_part_ends_at_next(
    first: Seq<Option<(Seq<u8>, Option<Seq<char>>)>>,
    second: Seq<Option<(Seq<u8>, Option<Seq<char>>)>>,
)
    requires
        forall|i: int| 0 <= i < first.len() ==> (#[trigger] first[i]) is Some,
    ensures
        first_part(first) == first,
        first_part(first + seq![None::<(Seq<u8>, Option<Seq<char>>)>] + second) == first,
{
    lemma_first_part(first, first.len() as int);
    assert(first.take(first.len() as int) =~= first);
    let all = first + seq![None::<(Seq<u8>, Option<Seq<char>>)>] + second;
    assert forall|i: int| 0 <= i < first.len() implies (#[trigger] all[i]) is Some by {
        assert(all[i] == first[i]);
    }
    lemma_first_part(all, first.len() as int);
    assert(all.take(first.len() as int) =~= first);
}

/// The last value of an argument counts, and what stands in no valid text does
/// not count at all.
pub proof fn law_last_argument_counts(
    pieces: Seq<Option<(Seq<u8>, Option<Seq<char>>)>>,
    name: Seq<char>,
    value: Seq<char>,
    bytes: Seq<u8>,
)
    ensures
        collected(pieces.push(Some((encode_utf8(name), Some(value))))) == collected(pieces).insert(
            name,
            value,
        ),
        collected(pieces.push(Some((bytes, None)))) == collected(pieces),
        !valid_utf8(bytes) ==> collected(pieces.push(Some((bytes, Some(value))))) == collected(
            pieces,
        ),
        collected(Seq::empty()) == Map::<Seq<char>, Seq<char>>::empty(),
{
    vstd::utf8::encode_utf8_valid_utf8(name);
    vstd::utf8::encode_utf8_decode_utf8(name);
    let a = pieces.push(Some((encode_utf8(name), Some(value))));
    let b = pieces.push(Some((bytes, None)));
    let c = pieces.push(Some((bytes, Some(value))));
    assert(a.drop_last() =~= pieces);
    assert(b.drop_last() =~= pieces);
    assert(c.drop_last() =~= pieces);
}

/// A later argument replaces an earlier one of the same name and leaves the
/// others.
pub proof fn law_arguments_are_found_by_name(
    arguments: Seq<(Seq<char>, Seq<char>)>,
    name: Seq<char>,
    value: Seq<char>,
)
    ensures
        by_name(arguments.push((name, value))) == by_name(arguments).insert(name, value),
        by_name(Seq::empty()) == Map::<Seq<char>, Seq<char>>::empty(),
{
    assert(arguments.push((name, value)).drop_last() =~= arguments);
}

proof fn lemma_earlier_arguments(command: CommandView, name: Seq<char>, value: Seq<char>, n: nat)
    requires
        n <= command.arguments.len(),
    ensures
        command_text(command.and(name, value), n) == command_text(command, n),
    decreases n,
{
    if n > 0 {
        lemma_earlier_arguments(command, name, value, (n - 1) as nat);
        assert(command.and(name, value).arguments[n - 1] == command.arguments[n - 1]);
    }
}

/// A command is written as its name, and then each argument behind a space: its
/// name, an equals sign and the escaped value, or its name alone where the
/// value is empty.
pub proof fn law_arguments_are_written_in_order(
    command: CommandView,
    name: Seq<char>,
    value: Seq<char>,
)
    ensures
        command_text(CommandView { name, arguments: Seq::empty() }, 0) == encode_utf8(name),
        ({
            let before = command_text(command, command.arguments.len());
            let longer = CommandView {
                name: command.name,
                arguments: command.arguments.push((name, value)),
            };
            let after = command_text(longer, longer.arguments.len());
            before.len() > 0 && before.last() != 0x7c ==> after == before + seq![0x20u8]
                + encode_utf8(name) + if encode_utf8(value).len() == 0 {
                Seq::empty()
            } else {
                seq![0x3du8] + escaped_bytes(encode_utf8(value))
            }
        }),
{
    let n = command.arguments.len();
    let before = command_text(command, n);
    let longer = command.and(name, value);
    lemma_earlier_arguments(command, name, value, n);
    assert(longer.arguments.last() == (name, value));
    let after = command_text(longer, n + 1);
    if before.len() > 0 && before.last() != 0x7c {
        assert(after =~= before + seq![0x20u8] + encode_utf8(name) + if encode_utf8(value).len()
            == 0 {
            Seq::empty()
        } else {
            seq![0x3du8] + escaped_bytes(encode_utf8(value))
        });
    }
}

} // verus!
