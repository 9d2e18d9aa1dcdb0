//! The log entries rebuilt from the game client's files.
use vstd::prelude::*;
use vstd::string::*;

use crate::text::{grouped_decimal, format_count_ja};

verus! {

/// A point in time with the UTC offset it was read in. Two timestamps are
/// ordered by the instant alone: `secs` since the Unix epoch, then `nanos`.
#[derive(Clone, Copy, Debug, PartialEq, Eq, Structural)]
pub struct Timestamp {
    pub secs: i64,
    pub nanos: u32,
    pub offset: i32,
}

/// `a` is not later than `b`.
pub open spec fn ts_le(a: Timestamp, b: Timestamp) -> bool {
    a.secs < b.secs || (a.secs == b.secs && a.nanos <= b.nanos)
}

impl Timestamp {
    /// `self` is strictly later than `other`.
    pub fn is_after(&self, other: &Timestamp) -> (r: bool)
        ensures
            r == !ts_le(*self, *other),
    {
        self.secs > other.secs || (self.secs == other.secs && self.nanos > other.nanos)
    }
}

/// The chat channel of an entry.
#[derive(Clone, Copy, Debug, PartialEq, Eq, Structural)]
pub enum NgsLogChannel {
    Public,
    Party,
    Guild,
    Reply,
    Group,
}

/// Where an item entry came from.
#[derive(Clone, Copy, Debug, PartialEq, Eq, Structural)]
pub enum ItemCategory {
    Pickup,
    Reward,
}

#[derive(Clone, Debug)]
pub struct ChatLog {
    pub datetime: Timestamp,
    pub log_id: u16,
    pub channel: NgsLogChannel,
    pub player_id: u32,
    pub name: String,
    pub body: String,
}

#[derive(Clone, Debug)]
pub struct ItemLog {
    pub datetime: Timestamp,
    pub log_id: u16,
    pub category: ItemCategory,
    pub player_id: u32,
    pub name: String,
    pub item: String,
    pub count: u32,
}

#[derive(Clone, Debug)]
pub enum NgsLog {
    ChatLog(ChatLog),
    ItemLog(ItemLog),
}

pub struct ChatLogView {
    pub datetime: Timestamp,
    pub log_id: u16,
    pub channel: NgsLogChannel,
    pub player_id: u32,
    pub name: Seq<char>,
    pub body: Seq<char>,
}

pub struct ItemLogView {
    pub datetime: Timestamp,
    pub log_id: u16,
    pub category: ItemCategory,
    pub player_id: u32,
    pub name: Seq<char>,
    pub item: Seq<char>,
    pub count: u32,
}

/// What an entry holds, with its text as character sequences.
pub enum NgsLogView {
    Chat(ChatLogView),
    Item(ItemLogView),
}

impl View for ChatLog {
    type V = ChatLogView;

    open spec fn view(&self) -> ChatLogView {
        ChatLogView {
            datetime: self.datetime,
            log_id: self.log_id,
            channel: self.channel,
            player_id: self.player_id,
            name: self.name@,
            body: self.body@,
        }
    }
}

impl View for ItemLog {
    type V = ItemLogView;

    open spec fn view(&self) -> ItemLogView {
        ItemLogView {
            datetime: self.datetime,
            log_id: self.log_id,
            category: self.category,
            player_id: self.player_id,
            name: self.name@,
            item: self.item@,
            count: self.count,
        }
    }
}

impl View for NgsLog {
    type V = NgsLogView;

    open spec fn view(&self) -> NgsLogView {
        match self {
            NgsLog::ChatLog(l) => NgsLogView::Chat(l@),
            NgsLog::ItemLog(l) => NgsLogView::Item(l@),
        }
    }
}

/// The name that entries print for a channel.
pub open spec fn channel_name(c: NgsLogChannel) -> Seq<char> {
    match c {
        NgsLogChannel::Public => "Public"@,
        NgsLogChannel::Party => "Party"@,
        NgsLogChannel::Guild => "Guild"@,
        NgsLogChannel::Reply => "Reply"@,
        NgsLogChannel::Group => "Group"@,
    }
}

/// The name that entries print for an item category.
pub open spec fn category_name(c: ItemCategory) -> Seq<char> {
    match c {
        ItemCategory::Pickup => "Pickup"@,
        ItemCategory::Reward => "Reward"@,
    }
}

impl NgsLogView {
    pub open spec fn datetime(self) -> Timestamp {
        match self {
            NgsLogView::Chat(l) => l.datetime,
            NgsLogView::Item(l) => l.datetime,
        }
    }

    pub open spec fn name(self) -> Seq<char> {
        match self {
            NgsLogView::Chat(l) => l.name,
            NgsLogView::Item(l) => l.name,
        }
    }

    /// The body of a chat entry, the item of an item entry: what keyword
    /// and pattern filters look at.
    pub open spec fn body_or_item(self) -> Seq<char> {
        match self {
            NgsLogView::Chat(l) => l.body,
            NgsLogView::Item(l) => l.item,
        }
    }

    /// The chat body with `s` added as a new line; item entries stay as they are.
    pub open spec fn appended(self, s: Seq<char>) -> NgsLogView {
        match self {
            NgsLogView::Chat(l) => NgsLogView::Chat(ChatLogView { body: l.body + seq!['\n'] + s, ..l }),
            NgsLogView::Item(l) => self,
        }
    }

    /// The text shown after the name: the body, or the item with its count.
    pub open spec fn body_or_item_with_count(self) -> Seq<char> {
        match self {
            NgsLogView::Chat(l) => l.body,
            NgsLogView::Item(l) => l.item + " × "@ + grouped_decimal(l.count as nat),
        }
    }

    pub open spec fn channel_or_category_name(self) -> Seq<char> {
        match self {
            NgsLogView::Chat(l) => channel_name(l.channel),
            NgsLogView::Item(l) => category_name(l.category),
        }
    }
}

impl NgsLog {
    pub fn get_datetime(&self) -> (r: &Timestamp)
        ensures
            *r == self@.datetime(),
    {
        match self {
            NgsLog::ChatLog(log) => &log.datetime,
            NgsLog::ItemLog(log) => &log.datetime,
        }
    }

    pub fn get_channel(&self) -> (r: Option<&NgsLogChannel>)
        ensures
            match self@ {
                NgsLogView::Chat(l) => r == Some(&l.channel),
                NgsLogView::Item(_) => r is None,
            },
    {
        match self {
            NgsLog::ChatLog(log) => Some(&log.channel),
            NgsLog::ItemLog(_) => None,
        }
    }

    pub fn get_channel_or_category_string(&self) -> (r: String)
        ensures
            r@ == self@.channel_or_category_name(),
    {
        proof {
            reveal_strlit("Public");
            reveal_strlit("Party");
            reveal_strlit("Guild");
            reveal_strlit("Reply");
            reveal_strlit("Group");
            reveal_strlit("Pickup");
            reveal_strlit("Reward");
        }
        let s = match self {
            NgsLog::ChatLog(log) => match log.channel {
                NgsLogChannel::Public => "Public",
                NgsLogChannel::Party => "Party",
                NgsLogChannel::Guild => "Guild",
                NgsLogChannel::Reply => "Reply",
                NgsLogChannel::Group => "Group",
            },
            NgsLog::ItemLog(log) => match log.category {
                ItemCategory::Pickup => "Pickup",
                ItemCategory::Reward => "Reward",
            },
        };
        String::from_str(s)
    }

    pub fn get_name(&self) -> (r: &String)
        ensures
            r@ == self@.name(),
    {
        match self {
            NgsLog::ChatLog(log) => &log.name,
            NgsLog::ItemLog(log) => &log.name,
        }
    }

    /// Adds `s` to a chat body as a new line; an item entry has no body and
    /// is left as it is.
    pub fn append_body(&mut self, s: &str) -> (r: Option<()>)
        ensures
            final(self)@ == old(self)@.appended(s@),
            r is Some <==> old(self)@ is Chat,
    {
        match self {
            NgsLog::ChatLog(log) => {
                proof {
                    reveal_strlit("\n");
                }
                let ghost b0 = log.body@;
                log.body.append("\n");
                log.body.append(s);
                assert(log.body@ =~= b0 + seq!['\n'] + s@);
                Some(())
            },
            NgsLog::ItemLog(_) => None,
        }
    }

    pub fn get_body_or_item(&self) -> (r: &String)
        ensures
            r@ == self@.body_or_item(),
    {
        match self {
            NgsLog::ChatLog(log) => &log.body,
            NgsLog::ItemLog(log) => &log.item,
        }
    }

    pub fn get_body_or_item_with_count(&self) -> (r: String)
        ensures
            r@ == self@.body_or_item_with_count(),
    {
        match self {
            NgsLog::ChatLog(log) => log.body.clone(),
            NgsLog::ItemLog(log) => {
                let mut s = log.item.clone();
                s.append(" × ");
                let n = format_count_ja(log.count);
                s.append(n.as_str());
                s
            },
        }
    }
}

} // verus!
