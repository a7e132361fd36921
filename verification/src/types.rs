//! Channel messages: what the adapter hands on, and what it is asked to send.

use vstd::prelude::*;

use crate::json::{member, Json, JsonTree};
use crate::outside::distinct_names;
use crate::text::{same_text, texts};

verus! {

/// A moment in time, in Coordinated Universal Time.
#[derive(Debug, Clone, Copy, PartialEq, Eq, Structural)]
pub struct Timestamp {
    /// Whole seconds since the beginning of 1970.
    pub seconds: i64,
    /// Nanoseconds beyond the whole seconds.
    pub nanos: u32,
}

/// The kind of service that a channel connects to.
#[derive(Debug, Clone, Copy, PartialEq, Eq, Structural)]
pub enum ChannelType {
    Matrix,
}

/// What a channel message says.
#[derive(Debug, PartialEq, Eq)]
pub enum ChannelContent {
    /// Plain text.
    Text(String),
    /// A command with its arguments.
    Command { name: String, args: Vec<String> },
}

/// The mathematical value of a [`ChannelContent`].
pub enum ContentView {
    Text(Seq<char>),
    Command { name: Seq<char>, args: Seq<Seq<char>> },
}

impl View for ChannelContent {
    type V = ContentView;

    open spec fn view(&self) -> ContentView {
        match *self {
            ChannelContent::Text(text) => ContentView::Text(text@),
            ChannelContent::Command { name, args } => ContentView::Command {
                name: name@,
                args: texts(args@),
            },
        }
    }
}

/// Who a message comes from or goes to.
#[derive(Debug, PartialEq, Eq)]
pub struct ChannelUser {
    /// The room, by its identifier.
    pub platform_id: String,
    /// The sender, by their user identifier.
    pub display_name: String,
    /// The account of this system that the sender is linked to.
    pub openfang_user: Option<String>,
}

/// The mathematical value of a [`ChannelUser`].
pub struct UserView {
    pub platform_id: Seq<char>,
    pub display_name: Seq<char>,
    pub openfang_user: Option<Seq<char>>,
}

/// The text that an optional string stands for.
pub open spec fn opt_text(s: Option<String>) -> Option<Seq<char>> {
    match s {
        Some(t) => Some(t@),
        None => None,
    }
}

impl View for ChannelUser {
    type V = UserView;

    open spec fn view(&self) -> UserView {
        UserView {
            platform_id: self.platform_id@,
            display_name: self.display_name@,
            openfang_user: opt_text(self.openfang_user),
        }
    }
}

/// Additional facts about a message, by name.
#[derive(Debug, PartialEq, Eq)]
pub struct Metadata {
    entries: Vec<(String, Json)>,
}

impl View for Metadata {
    type V = Map<Seq<char>, JsonTree>;

    closed spec fn view(&self) -> Map<Seq<char>, JsonTree> {
        facts(self.listed())
    }
}

/// The map that a list of named values stands for.
pub open spec fn facts(entries: Seq<(Seq<char>, JsonTree)>) -> Map<Seq<char>, JsonTree> {
    Map::new(
        |name: Seq<char>| member(entries, name) is Some,
        |name: Seq<char>| member(entries, name)->0,
    )
}

/// `member` finds the first entry of that name.
pub proof fn lemma_member_first(entries: Seq<(Seq<char>, JsonTree)>, name: Seq<char>, i: int)
    requires
        0 <= i < entries.len(),
        entries[i].0 == name,
        forall|k: int| 0 <= k < i ==> (#[trigger] entries[k]).0 != name,
    ensures
        member(entries, name) == Some(entries[i].1),
    decreases i,
{
    if i > 0 {
        assert(entries[0].0 != name);
        let rest = entries.skip(1);
        assert(rest[i - 1] == entries[i]);
        assert forall|k: int| 0 <= k < i - 1 implies (#[trigger] rest[k]).0 != name by {
            assert(rest[k] == entries[k + 1]);
        }
        lemma_member_first(rest, name, i - 1);
    }
}

/// `member` finds nothing where no entry has that name.
pub proof fn lemma_member_none(entries: Seq<(Seq<char>, JsonTree)>, name: Seq<char>)
    requires
        forall|k: int| 0 <= k < entries.len() ==> (#[trigger] entries[k]).0 != name,
    ensures
        member(entries, name) is None,
    decreases entries.len(),
{
    if entries.len() > 0 {
        assert(entries[0].0 != name);
        let rest = entries.skip(1);
        assert forall|k: int| 0 <= k < rest.len() implies (#[trigger] rest[k]).0 != name by {
            assert(rest[k] == entries[k + 1]);
        }
        lemma_member_none(rest, name);
    }
}

impl Metadata {
    /// The facts in the order in which they are listed.
    pub closed spec fn listed(self) -> Seq<(Seq<char>, JsonTree)> {
        self.entries@.map_values(|e: (String, Json)| (e.0@, e.1@))
    }

    /// No name is listed twice.
    pub open spec fn wf(self) -> bool {
        distinct_names(self.listed())
    }

    /// No facts.
    pub fn new() -> (metadata: Metadata)
        ensures
            metadata.wf(),
            metadata@ == Map::<Seq<char>, JsonTree>::empty(),
    {
        let metadata = Metadata { entries: Vec::new() };
        assert(metadata@ =~= Map::<Seq<char>, JsonTree>::empty());
        metadata
    }

    /// Sets the fact called `name`, whether or not it was set before.
    pub fn insert(&mut self, name: String, value: Json)
        requires
            old(self).wf(),
        ensures
            final(self).wf(),
            final(self)@ == old(self)@.insert(name@, value@),
    {
        let ghost before = self.listed();
        let ghost added = (name@, value@);
        let mut i: usize = 0;
        while i < self.entries.len()
            invariant
                i <= self.entries@.len(),
                *self == *old(self),
                before == self.listed(),
                added == (name@, value@),
                distinct_names(before),
                forall|k: int| 0 <= k < i ==> (#[trigger] before[k]).0 != name@,
            decreases self.entries@.len() - i,
        {
            if same_text(self.entries[i].0.as_str(), name.as_str()) {
                self.entries.set(i, (name, value));
                proof {
                    let after = self.listed();
                    assert(after =~= before.update(i as int, added));
                    assert forall|n: Seq<char>| #[trigger] member(after, n) == (if n == added.0 {
                        Some(added.1)
                    } else {
                        member(before, n)
                    }) by {
                        lemma_member_update(before, n, i as int, added);
                    }
                    assert(facts(after) =~= facts(before).insert(added.0, added.1));
                }
                return ;
            }
            assert(before[i as int].0 == self.entries@[i as int].0@);
            i += 1;
        }
        self.entries.push((name, value));
        proof {
            let after = self.listed();
            assert(after =~= before.push(added));
            assert forall|n: Seq<char>| #[trigger] member(after, n) == (if n == added.0 {
                Some(added.1)
            } else {
                member(before, n)
            }) by {
                lemma_member_push(before, n, added);
            }
            assert(facts(after) =~= facts(before).insert(added.0, added.1));
        }
    }

    /// The fact called `name`.
    pub fn get(&self, name: &str) -> (value: Option<&Json>)
        ensures
            match value {
                Some(v) => self@.dom().contains(name@) && self@[name@] == v@,
                None => !self@.dom().contains(name@),
            },
    {
        let ghost all = self.listed();
        let mut i: usize = 0;
        while i < self.entries.len()
            invariant
                i <= self.entries@.len(),
                all == self.listed(),
                forall|k: int| 0 <= k < i ==> (#[trigger] all[k]).0 != name@,
            decreases self.entries@.len() - i,
        {
            if same_text(self.entries[i].0.as_str(), name) {
                proof {
                    lemma_member_first(all, name@, i as int);
                }
                return Some(&self.entries[i].1);
            }
            assert(all[i as int].0 == self.entries@[i as int].0@);
            i += 1;
        }
        proof {
            lemma_member_none(all, name@);
        }
        None
    }

    /// All facts, each name once.
    pub fn entries(&self) -> (entries: &Vec<(String, Json)>)
        ensures
            entries@.map_values(|e: (String, Json)| (e.0@, e.1@)) == self.listed(),
            facts(self.listed()) == self@,
    {
        &self.entries
    }
}

/// A new last entry is found exactly where its name is new.
proof fn lemma_member_push(
    entries: Seq<(Seq<char>, JsonTree)>,
    name: Seq<char>,
    added: (Seq<char>, JsonTree),
)
    requires
        forall|k: int| 0 <= k < entries.len() ==> (#[trigger] entries[k]).0 != added.0,
    ensures
        member(entries.push(added), name) == (if name == added.0 {
            Some(added.1)
        } else {
            member(entries, name)
        }),
    decreases entries.len(),
{
    let all = entries.push(added);
    if entries.len() == 0 {
        assert(all.skip(1) =~= Seq::empty());
        assert(all[0] == added);
    } else {
        assert(all[0] == entries[0]);
        let rest = entries.skip(1);
        assert(all.skip(1) =~= rest.push(added));
        assert forall|k: int| 0 <= k < rest.len() implies (#[trigger] rest[k]).0 != added.0 by {
            assert(rest[k] == entries[k + 1]);
        }
        lemma_member_push(rest, name, added);
    }
}

/// Replacing the first entry of a name changes what that name finds, and
/// nothing else.
proof fn lemma_member_update(
    entries: Seq<(Seq<char>, JsonTree)>,
    name: Seq<char>,
    i: int,
    added: (Seq<char>, JsonTree),
)
    requires
        0 <= i < entries.len(),
        entries[i].0 == added.0,
        forall|k: int| 0 <= k < i ==> (#[trigger] entries[k]).0 != added.0,
    ensures
        member(entries.update(i, added), name) == (if name == added.0 {
            Some(added.1)
        } else {
            member(entries, name)
        }),
    decreases entries.len(),
{
    let all = entries.update(i, added);
    if i == 0 {
        assert(all.skip(1) =~= entries.skip(1));
    } else {
        assert(all[0] == entries[0]);
        let rest = entries.skip(1);
        assert(all.skip(1) =~= rest.update(i - 1, added));
        assert(rest[i - 1] == entries[i]);
        assert forall|k: int| 0 <= k < i - 1 implies (#[trigger] rest[k]).0 != added.0 by {
            assert(rest[k] == entries[k + 1]);
        }
        lemma_member_update(rest, name, i - 1, added);
    }
}

/// A message received on a channel.
#[derive(Debug, PartialEq, Eq)]
pub struct ChannelMessage {
    pub channel: ChannelType,
    /// The event that the message came in.
    pub platform_message_id: String,
    pub sender: ChannelUser,
    pub content: ChannelContent,
    /// The agent that the message is for, where that is settled already.
    pub target_agent: Option<String>,
    pub timestamp: Timestamp,
    /// Whether more than two people share the room.
    pub is_group: bool,
    pub thread_id: Option<String>,
    pub metadata: Metadata,
}

/// The mathematical value of a [`ChannelMessage`].
pub struct MessageView {
    pub channel: ChannelType,
    pub platform_message_id: Seq<char>,
    pub sender: UserView,
    pub content: ContentView,
    pub target_agent: Option<Seq<char>>,
    pub timestamp: Timestamp,
    pub is_group: bool,
    pub thread_id: Option<Seq<char>>,
    pub metadata: Map<Seq<char>, JsonTree>,
}

impl View for ChannelMessage {
    type V = MessageView;

    open spec fn view(&self) -> MessageView {
        MessageView {
            channel: self.channel,
            platform_message_id: self.platform_message_id@,
            sender: self.sender@,
            content: self.content@,
            target_agent: opt_text(self.target_agent),
            timestamp: self.timestamp,
            is_group: self.is_group,
            thread_id: opt_text(self.thread_id),
            metadata: self.metadata@,
        }
    }
}

} // verus!
