//! Channels and categories as the `/create` command describes them.
use vstd::prelude::*;
use crate::text::{chars_eq, chars_of, copy_strings, strs_of};
use crate::parse::parser::{opt_str, opt_strs};

verus! {

/// The kind of a channel to create.
#[derive(Clone, Copy, Debug, PartialEq, Eq, Structural)]
pub enum ChannelKind {
    Text,
    Voice,
    News,
}

/// What a category is: its name, the roles given access and whether it is private.
pub struct CategoryView {
    pub category: Seq<char>,
    pub roles: Option<Seq<Seq<char>>>,
    pub private: bool,
}

/// What a channel is.
pub struct ChannelView {
    pub category: Option<CategoryView>,
    pub channel: Seq<char>,
    pub roles: Option<Seq<Seq<char>>>,
    pub channel_type: ChannelKind,
    pub private: Option<bool>,
}

#[derive(Debug)]
pub struct CategoryInfo {
    pub category: String,
    roles: Option<Vec<String>>,
    private: bool,
}

#[derive(Debug)]
pub struct ChannelInfo {
    pub category: Option<CategoryInfo>,
    pub channel: String,
    pub roles: Option<Vec<String>>,
    pub channel_type: ChannelKind,
    pub private: Option<bool>,
}

impl View for CategoryInfo {
    type V = CategoryView;

    closed spec fn view(&self) -> CategoryView {
        CategoryView {
            category: self.category@,
            roles: opt_strs(self.roles),
            private: self.private,
        }
    }
}

pub open spec fn opt_category(c: Option<CategoryInfo>) -> Option<CategoryView> {
    match c {
        Some(c) => Some(c@),
        None => None,
    }
}

impl View for ChannelInfo {
    type V = ChannelView;

    open spec fn view(&self) -> ChannelView {
        ChannelView {
            category: opt_category(self.category),
            channel: self.channel@,
            roles: opt_strs(self.roles),
            channel_type: self.channel_type,
            private: self.private,
        }
    }
}

pub open spec fn text_word() -> Seq<char> {
    seq!['t', 'e', 'x', 't']
}

pub open spec fn voice_word() -> Seq<char> {
    seq!['v', 'o', 'i', 'c', 'e']
}

pub open spec fn ann_word() -> Seq<char> {
    seq!['a', 'n', 'n']
}

/// The channel kind a `-t` value names, if any.
pub open spec fn kind_of(t: Seq<char>) -> Option<ChannelKind> {
    if t == text_word() {
        Some(ChannelKind::Text)
    } else if t == voice_word() {
        Some(ChannelKind::Voice)
    } else if t == ann_word() {
        Some(ChannelKind::News)
    } else {
        None
    }
}

/// An optional list of strings, copied.
pub fn copy_opt_strings(v: &Option<Vec<String>>) -> (r: Option<Vec<String>>)
    ensures
        opt_strs(r) == opt_strs(*v),
{
    match v {
        Some(list) => Some(copy_strings(list)),
        None => None,
    }
}

impl CategoryInfo {
    /// The category named `None`, with no roles, not private.
    pub fn default() -> (r: Self)
        ensures
            r@ == (CategoryView { category: "None"@, roles: None, private: false }),
    {
        CategoryInfo { category: "None".to_string(), roles: None, private: false }
    }

    pub fn update_name(&mut self, name: &str)
        ensures
            final(self)@ == (CategoryView { category: name@, ..old(self)@ }),
    {
        self.category = name.to_string();
    }

    pub fn update_roles(&mut self, roles: Vec<String>)
        ensures
            final(self)@ == (CategoryView { roles: Some(strs_of(roles@)), ..old(self)@ }),
    {
        self.roles = Some(roles);
    }

    pub fn update_private(&mut self)
        ensures
            final(self)@ == (CategoryView { private: true, ..old(self)@ }),
    {
        self.private = true;
    }

    /// A copy of the category.
    pub fn duplicate(&self) -> (r: Self)
        ensures
            r@ == self@,
    {
        CategoryInfo {
            category: self.category.clone(),
            roles: copy_opt_strings(&self.roles),
            private: self.private,
        }
    }

    /// The roles given access to the category.
    pub fn roles(&self) -> (r: &Option<Vec<String>>)
        ensures
            opt_strs(*r) == self@.roles,
    {
        &self.roles
    }

    /// Whether the category is private.
    pub fn private(&self) -> (r: bool)
        ensures
            r == self@.private,
    {
        self.private
    }
}

/// An optional category, copied.
pub fn copy_opt_category(c: &Option<CategoryInfo>) -> (r: Option<CategoryInfo>)
    ensures
        opt_category(r) == opt_category(*c),
{
    match c {
        Some(c) => Some(c.duplicate()),
        None => None,
    }
}

impl ChannelInfo {
    /// A text channel with an empty name, no category, no roles and no privacy flag.
    pub fn default() -> (r: Self)
        ensures
            r@ == (ChannelView {
                category: None,
                channel: seq![],
                roles: None,
                channel_type: ChannelKind::Text,
                private: None,
            }),
    {
        ChannelInfo {
            category: None,
            channel: String::new(),
            roles: None,
            channel_type: ChannelKind::Text,
            private: None,
        }
    }

    pub fn update(&mut self, category: Option<CategoryInfo>, channel: String, roles: Option<Vec<String>>)
        ensures
            final(self)@ == (ChannelView {
                category: opt_category(category),
                channel: channel@,
                roles: opt_strs(roles),
                ..old(self)@
            }),
    {
        self.category = category;
        self.channel = channel;
        self.roles = roles;
    }

    pub fn update_private(&mut self)
        ensures
            final(self)@ == (ChannelView { private: Some(true), ..old(self)@ }),
    {
        self.private = Some(true);
    }

    pub fn update_name_category(&mut self, name: String, category: Option<CategoryInfo>)
        ensures
            final(self)@ == (ChannelView {
                channel: name@,
                category: opt_category(category),
                ..old(self)@
            }),
    {
        self.channel = name;
        self.category = category;
    }

    /// Sets the kind from a `-t` value: `text`, `voice` or `ann`; any other value
    /// leaves the kind as it is.
    pub fn update_channel_type(&mut self, ch_type: &str)
        ensures
            final(self)@ == (ChannelView {
                channel_type: match kind_of(ch_type@) {
                    Some(k) => k,
                    None => old(self)@.channel_type,
                },
                ..old(self)@
            }),
    {
        let t = chars_of(ch_type);
        let text = vec!['t', 'e', 'x', 't'];
        let voice = vec!['v', 'o', 'i', 'c', 'e'];
        let ann = vec!['a', 'n', 'n'];
        assert(text@ =~= text_word());
        assert(voice@ =~= voice_word());
        assert(ann@ =~= ann_word());
        if chars_eq(&t, &text) {
            self.channel_type = ChannelKind::Text;
        } else if chars_eq(&t, &voice) {
            self.channel_type = ChannelKind::Voice;
        } else if chars_eq(&t, &ann) {
            self.channel_type = ChannelKind::News;
        }
    }

    pub fn get_category_name(&self) -> (r: Option<&str>)
        ensures
            opt_text(r) == (match self@.category {
                Some(c) => Some(c.category),
                None => None,
            }),
    {
        match &self.category {
            Some(category) => Some(category.category.as_str()),
            None => None,
        }
    }

    pub fn get_category_roles(&self) -> (r: &Option<Vec<String>>)
        ensures
            opt_strs(*r) == (match self@.category {
                Some(c) => c.roles,
                None => None,
            }),
    {
        match &self.category {
            Some(category) => category.roles(),
            None => &None,
        }
    }

    pub fn get_category_private(&self) -> (r: bool)
        ensures
            r == (match self@.category {
                Some(c) => c.private,
                None => false,
            }),
    {
        match &self.category {
            Some(category) => category.private(),
            None => false,
        }
    }
}

pub open spec fn opt_text(o: Option<&str>) -> Option<Seq<char>> {
    match o {
        Some(s) => Some(s@),
        None => None,
    }
}

} // verus!
