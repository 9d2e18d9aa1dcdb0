//! The rule list and display options, as read from the configuration.
use vstd::prelude::*;
use vstd::string::*;

use crate::ngs_log::{NgsLog, NgsLogChannel, NgsLogView};

verus! {

/// The whole configuration: display options and the ordered rule list.
pub struct Conf {
    pub global: Option<Global>,
    pub rules: Option<Vec<If>>,
}

/// Display options; each has a default when absent.
pub struct Global {
    pub show_action_pattern: Option<bool>,
    pub datetime_format: Option<String>,
    pub show_channel: Option<bool>,
    pub column_separator: Option<String>,
    pub name_padding_width: Option<u8>,
    pub channel_padding_width: Option<u8>,
    pub color_public: Option<u8>,
    pub color_party: Option<u8>,
    pub color_guild: Option<u8>,
    pub color_group: Option<u8>,
    pub color_reply: Option<u8>,
    pub color_item: Option<u8>,
    pub color_system: Option<u8>,
}

/// A rule: filters that an entry must pass, optional item-count triggers,
/// and the actions to fire.
pub struct If {
    pub names: Option<Vec<String>>,
    pub channels: Option<Vec<NgsLogChannel>>,
    pub keywords: Option<Vec<String>>,
    pub regex: Option<String>,
    pub ignore_names: Option<Vec<String>>,
    pub ignore_keywords: Option<Vec<String>>,
    pub ignore_regex: Option<String>,
    pub action: Option<Action>,
    pub target: Option<Target>,
    pub item_counts: Option<Vec<ItemCount>>,
}

/// A trigger on the item counts: fires when an item's count passes a
/// multiple of `every` and its name passes the filters.
pub struct ItemCount {
    pub keywords: Option<Vec<String>>,
    pub regex: Option<String>,
    pub every: Option<u32>,
}

/// The actions a rule fires.
pub struct Action {
    pub show: Option<bool>,
    pub command: Option<Vec<String>>,
    pub get: Option<String>,
    pub post: Option<String>,
    pub sound: Option<String>,
    pub count: Option<bool>,
    pub show_item_counts: Option<bool>,
    pub reset_item_counts: Option<bool>,
}

#[derive(Clone, Copy, Debug, PartialEq, Eq, Structural)]
pub enum ActionType {
    Show,
    Command,
    Get,
    Post,
    Sound,
    Count,
    ShowItemCounts,
    ResetItemCounts,
}

#[derive(Clone, Copy, Debug, PartialEq, Eq, Structural)]
pub enum Target {
    Chat,
    Item,
}

pub const DC_PUBLIC: u8 = 15;
pub const DC_PARTY: u8 = 14;
pub const DC_GUILD: u8 = 172;
pub const DC_GROUP: u8 = 41;
pub const DC_REPLY: u8 = 13;
pub const DC_ITEM: u8 = 227;
pub const DC_SYSTEM: u8 = 8;

/// The configured value, or the default when it or the options are absent.
pub open spec fn option_or(g: Option<Global>, f: spec_fn(Global) -> Option<u8>, d: u8) -> u8 {
    match g {
        Some(g) => match f(g) {
            Some(v) => v,
            None => d,
        },
        None => d,
    }
}

pub open spec fn color_of(g: Option<Global>, log: NgsLogView) -> u8 {
    match log {
        NgsLogView::Chat(l) => match l.channel {
            NgsLogChannel::Public => option_or(g, |x: Global| x.color_public, DC_PUBLIC),
            NgsLogChannel::Party => option_or(g, |x: Global| x.color_party, DC_PARTY),
            NgsLogChannel::Guild => option_or(g, |x: Global| x.color_guild, DC_GUILD),
            NgsLogChannel::Group => option_or(g, |x: Global| x.color_group, DC_GROUP),
            NgsLogChannel::Reply => option_or(g, |x: Global| x.color_reply, DC_REPLY),
        },
        NgsLogView::Item(_) => option_or(g, |x: Global| x.color_item, DC_ITEM),
    }
}

fn u8_or(v: Option<u8>, d: u8) -> (r: u8)
    ensures
        r == (match v {
            Some(x) => x,
            None => d,
        }),
{
    match v {
        Some(x) => x,
        None => d,
    }
}

impl Conf {
    pub fn get_color_ansi256_system(&self) -> (r: u8)
        ensures
            r == option_or(self.global, |x: Global| x.color_system, DC_SYSTEM),
    {
        match &self.global {
            Some(g) => u8_or(g.color_system, DC_SYSTEM),
            None => DC_SYSTEM,
        }
    }

    pub fn get_color_ansi256_item(&self) -> (r: u8)
        ensures
            r == option_or(self.global, |x: Global| x.color_item, DC_ITEM),
    {
        match &self.global {
            Some(g) => u8_or(g.color_item, DC_ITEM),
            None => DC_ITEM,
        }
    }

    /// The color of an entry: by its channel, or the item color.
    pub fn get_color_ansi256(&self, ngs_log: &NgsLog) -> (r: u8)
        ensures
            r == color_of(self.global, ngs_log@),
    {
        match &self.global {
            None => match ngs_log {
                NgsLog::ChatLog(l) => match l.channel {
                    NgsLogChannel::Public => DC_PUBLIC,
                    NgsLogChannel::Party => DC_PARTY,
                    NgsLogChannel::Guild => DC_GUILD,
                    NgsLogChannel::Group => DC_GROUP,
                    NgsLogChannel::Reply => DC_REPLY,
                },
                NgsLog::ItemLog(_) => DC_ITEM,
            },
            Some(g) => match ngs_log {
                NgsLog::ChatLog(l) => match l.channel {
                    NgsLogChannel::Public => u8_or(g.color_public, DC_PUBLIC),
                    NgsLogChannel::Party => u8_or(g.color_party, DC_PARTY),
                    NgsLogChannel::Guild => u8_or(g.color_guild, DC_GUILD),
                    NgsLogChannel::Group => u8_or(g.color_group, DC_GROUP),
                    NgsLogChannel::Reply => u8_or(g.color_reply, DC_REPLY),
                },
                NgsLog::ItemLog(_) => u8_or(g.color_item, DC_ITEM),
            },
        }
    }

    /// Whether shown lines name the action that printed them; off by default.
    pub fn is_show_action_pattern(&self) -> (r: bool)
        ensures
            r == (self.global matches Some(g) && g.show_action_pattern == Some(true)),
    {
        match &self.global {
            Some(g) => match g.show_action_pattern {
                Some(b) => b,
                None => false,
            },
            None => false,
        }
    }

    /// The text between columns; a single space by default.
    pub fn get_column_separator(&self) -> (r: String)
        ensures
            r@ == (match self.global {
                Some(g) => match g.column_separator {
                    Some(s) => s@,
                    None => " "@,
                },
                None => " "@,
            }),
    {
        match &self.global {
            Some(g) => match &g.column_separator {
                Some(s) => s.clone(),
                None => String::from_str(" "),
            },
            None => String::from_str(" "),
        }
    }
}

} // verus!
