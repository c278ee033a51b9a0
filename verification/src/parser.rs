//! The map-style parser of the command text, in which channels are separated
//! by ` | `, and the channel-list parser with its own channel and category
//! records.
pub mod channel_list;
pub mod parser;

pub use self::parser::parse_input;

use vstd::prelude::*;
use crate::text::{copy_strings, strs_of};
use crate::parse::parser::opt_strs;

verus! {

/// A category as the channel-list parser records it.
#[derive(Debug)]
pub struct CategoryInfo {
    category: String,
    roles: Vec<String>,
    private: bool,
}

/// What such a category is: its name, its roles and whether it is private.
pub struct LegacyCategoryView {
    pub category: Seq<char>,
    pub roles: Seq<Seq<char>>,
    pub private: bool,
}

impl View for CategoryInfo {
    type V = LegacyCategoryView;

    closed spec fn view(&self) -> LegacyCategoryView {
        LegacyCategoryView {
            category: self.category@,
            roles: strs_of(self.roles@),
            private: self.private,
        }
    }
}

/// A channel as the channel-list parser records it.
#[derive(Debug)]
pub struct ChannelInfo {
    category: CategoryInfo,
    channel: String,
    roles: Option<Vec<String>>,
    private: Option<bool>,
}

/// What such a channel is.
pub struct LegacyChannelView {
    pub category: LegacyCategoryView,
    pub channel: Seq<char>,
    pub roles: Option<Seq<Seq<char>>>,
    pub private: Option<bool>,
}

impl View for ChannelInfo {
    type V = LegacyChannelView;

    closed spec fn view(&self) -> LegacyChannelView {
        LegacyChannelView {
            category: self.category@,
            channel: self.channel@,
            roles: opt_strs(self.roles),
            private: self.private,
        }
    }
}

impl ChannelInfo {
    /// A channel in a category, with no roles or privacy flag of its own.
    pub fn new(category: CategoryInfo, channel: String) -> (r: Self)
        ensures
            r@ == (LegacyChannelView {
                category: category@,
                channel: channel@,
                roles: None,
                private: None,
            }),
    {
        ChannelInfo { category: category, channel: channel, roles: None, private: None }
    }
}

impl CategoryInfo {
    /// The category named `None`, with no roles, not private.
    pub fn default() -> (r: Self)
        ensures
            r@ == (LegacyCategoryView { category: "None"@, roles: seq![], private: false }),
    {
        let r = CategoryInfo { category: "None".to_string(), roles: Vec::new(), private: false };
        assert(strs_of(r.roles@) =~= seq![]);
        r
    }

    pub fn update_name(&mut self, name: String)
        ensures
            final(self)@ == (LegacyCategoryView { category: name@, ..old(self)@ }),
    {
        self.category = name;
    }

    pub fn update_roles(&mut self, roles: Vec<String>)
        ensures
            final(self)@ == (LegacyCategoryView { roles: strs_of(roles@), ..old(self)@ }),
    {
        self.roles = roles;
    }

    pub fn update_private(&mut self, private: bool)
        ensures
            final(self)@ == (LegacyCategoryView { private: private, ..old(self)@ }),
    {
        self.private = private;
    }

    /// A copy of the category.
    pub fn duplicate(&self) -> (r: Self)
        ensures
            r@ == self@,
    {
        CategoryInfo {
            category: self.category.clone(),
            roles: copy_strings(&self.roles),
            private: self.private,
        }
    }
}

} // verus!
