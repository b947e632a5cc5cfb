use std::collections::HashMap;
use vstd::prelude::*;

use crate::voice::request::Label;

verus! {

broadcast use vstd::std_specs::hash::group_hash_axioms;

/// The messages to the server whose answers are awaited, by the handle under
/// which each was sent.
pub struct Pending {
    pub labels: HashMap<u16, Label>,
    /// The channels that switches lead to.
    pub switches: HashMap<u16, u64>,
}

/// The same as plain maps.
#[verifier::ext_equal]
pub struct PendingView {
    pub labels: Map<u16, Label>,
    pub switches: Map<u16, u64>,
}

impl View for Pending {
    type V = PendingView;

    open spec fn view(&self) -> PendingView {
        PendingView { labels: self.labels@, switches: self.switches@ }
    }
}

impl PendingView {
    pub open spec fn awaiting(self, handle: u16, label: Label) -> PendingView {
        PendingView { labels: self.labels.insert(handle, label), ..self }
    }

    pub open spec fn awaiting_switch(self, handle: u16, channel: u64) -> PendingView {
        PendingView {
            labels: self.labels.insert(handle, Label::ChannelSwitch),
            switches: self.switches.insert(handle, channel),
        }
    }

    /// What an answer is about: its label and, for a switch, the channel.
    pub open spec fn subject(self, handle: u16) -> Option<(Label, Option<u64>)> {
        if self.labels.contains_key(handle) {
            Some(
                (
                    self.labels[handle],
                    if self.switches.contains_key(handle) {
                        Some(self.switches[handle])
                    } else {
                        None
                    },
                ),
            )
        } else {
            None
        }
    }

    /// After an answer came; one that nobody awaits changes nothing.
    pub open spec fn answered(self, handle: u16) -> PendingView {
        if self.labels.contains_key(handle) {
            PendingView {
                labels: self.labels.remove(handle),
                switches: self.switches.remove(handle),
            }
        } else {
            self
        }
    }
}

impl Pending {
    pub fn new() -> (r: Pending)
        ensures
            r@ == (PendingView { labels: Map::empty(), switches: Map::empty() }),
    {
        Pending { labels: HashMap::new(), switches: HashMap::new() }
    }

    /// Awaits the answer to a message.
    pub fn expect(&mut self, handle: u16, label: Label)
        ensures
            final(self)@ == old(self)@.awaiting(handle, label),
    {
        self.labels.insert(handle, label);
    }

    /// Awaits the answer to a channel switch.
    pub fn expect_switch(&mut self, handle: u16, channel: u64)
        ensures
            final(self)@ == old(self)@.awaiting_switch(handle, channel),
    {
        self.labels.insert(handle, Label::ChannelSwitch);
        self.switches.insert(handle, channel);
    }

    /// Takes what an answer is about.
    pub fn take(&mut self, handle: u16) -> (r: Option<(Label, Option<u64>)>)
        ensures
            r == old(self)@.subject(handle),
            final(self)@ == old(self)@.answered(handle),
    {
        let ghost before = self@;
        match self.labels.remove(&handle) {
            Some(label) => {
                let channel = self.switches.remove(&handle);
                assert(self@ =~= before.answered(handle));
                Some((label, channel))
            },
            None => {
                assert(self@ =~= before.answered(handle));
                None
            },
        }
    }
}

/// An answer is reported once: a second one to the same message is about
/// nothing.
pub proof fn law_answer_is_taken_once(pending: PendingView, handle: u16)
    ensures
        pending.answered(handle).subject(handle) is None,
        forall|other: u16|
            other != handle ==> #[trigger] pending.answered(handle).subject(other)
                == pending.subject(other),
{
}

/// A switch remembers its channel until it is answered.
pub proof fn law_switch_remembers_channel(pending: PendingView, handle: u16, channel: u64)
    ensures
        pending.awaiting_switch(handle, channel).subject(handle) == Some(
            (Label::ChannelSwitch, Some(channel)),
        ),
{
}

/// A message is awaited under its own handle, and every other one as before.
pub proof fn law_message_is_awaited(pending: PendingView, handle: u16, label: Label, other: u16)
    requires
        other != handle,
    ensures
        pending.awaiting(handle, label).subject(handle) matches Some((l, _)) && l == label,
        pending.awaiting(handle, label).subject(other) == pending.subject(other),
        pending.awaiting_switch(handle, 0).subject(other) == pending.subject(other),
        !pending.switches.contains_key(handle) ==> pending.awaiting(handle, label).subject(handle)
            == Some((label, None::<u64>)),
{
}

} // verus!
