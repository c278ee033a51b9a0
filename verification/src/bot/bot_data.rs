//! Per-user data that the bot keeps between interactions.
use vstd::prelude::*;
use std::collections::HashMap;
use crate::bot::channel_data::{ChannelInfo, ChannelView};
use crate::parse::parse_to_channel::channel_views;

verus! {

broadcast use vstd::std_specs::hash::group_hash_axioms;

/// The channels that each user's last `/create` described, keyed by user id,
/// waiting for the user to accept or reject them.
pub struct ParsedData {
    data: HashMap<u64, Vec<ChannelInfo>>,
}

impl View for ParsedData {
    type V = Map<u64, Seq<ChannelView>>;

    closed spec fn view(&self) -> Map<u64, Seq<ChannelView>> {
        Map::new(|k: u64| self.data@.contains_key(k), |k: u64| channel_views(self.data@[k]@))
    }
}

impl ParsedData {
    /// No user has pending channels.
    pub fn new() -> (r: Self)
        ensures
            r@ == Map::<u64, Seq<ChannelView>>::empty(),
    {
        let r = ParsedData { data: HashMap::new() };
        assert(r@ =~= Map::<u64, Seq<ChannelView>>::empty());
        r
    }

    /// Stores a user's channels, replacing what was stored for the user.
    pub fn insert(&mut self, user_id: u64, channels: Vec<ChannelInfo>)
        ensures
            final(self)@ == old(self)@.insert(user_id, channel_views(channels@)),
    {
        self.data.insert(user_id, channels);
        assert(self@ =~= old(self)@.insert(user_id, channel_views(channels@)));
    }

    /// Whether a user has stored channels.
    pub fn contains_key(&self, user_id: u64) -> (r: bool)
        ensures
            r == self@.contains_key(user_id),
    {
        self.data.contains_key(&user_id)
    }

    /// A user's stored channels.
    pub fn get(&self, user_id: u64) -> (r: Option<&Vec<ChannelInfo>>)
        ensures
            match r {
                Some(v) => self@.contains_key(user_id) && self@[user_id] == channel_views(v@),
                None => !self@.contains_key(user_id),
            },
    {
        self.data.get(&user_id)
    }

    /// Forgets a user's stored channels.
    pub fn remove(&mut self, user_id: u64)
        ensures
            final(self)@ == old(self)@.remove(user_id),
    {
        self.data.remove(&user_id);
        assert(self@ =~= old(self)@.remove(user_id));
    }
}

/// Reading a user's channels after storing them gives them back, and storing
/// them leaves every other user's channels as they were.
pub proof fn lemma_parsed_data_read_after_write(
    m: Map<u64, Seq<ChannelView>>,
    user_id: u64,
    channels: Seq<ChannelView>,
    other: u64,
)
    requires
        other != user_id,
    ensures
        m.insert(user_id, channels).contains_key(user_id),
        m.insert(user_id, channels)[user_id] == channels,
        m.insert(user_id, channels).contains_key(other) == m.contains_key(other),
        m.contains_key(other) ==> m.insert(user_id, channels)[other] == m[other],
{
}

/// After a user's channels are removed (a rejected `/create`), none are stored
/// for the user, and the other users keep theirs.
pub proof fn lemma_parsed_data_remove(m: Map<u64, Seq<ChannelView>>, user_id: u64, other: u64)
    requires
        other != user_id,
    ensures
        !m.remove(user_id).contains_key(user_id),
        m.remove(user_id).contains_key(other) == m.contains_key(other),
        m.contains_key(other) ==> m.remove(user_id)[other] == m[other],
{
}

/// The permissions that `/setup` records for one user: what to allow and deny
/// on public and on private channels.
#[derive(Clone, Copy, Debug, PartialEq, Eq, Structural)]
pub struct PermissionSetup {
    pub public_allow: u64,
    pub public_deny: u64,
    pub private_allow: u64,
    pub private_deny: u64,
}

/// Reading a user's permissions after recording them gives them back, and the
/// other users' stay as they were.
pub proof fn lemma_permission_data_read_after_write(
    m: Map<u64, PermissionSetup>,
    user_id: u64,
    setup: PermissionSetup,
    other: u64,
)
    requires
        other != user_id,
    ensures
        m.insert(user_id, setup).contains_key(user_id),
        m.insert(user_id, setup)[user_id] == setup,
        m.insert(user_id, setup).contains_key(other) == m.contains_key(other),
        m.contains_key(other) ==> m.insert(user_id, setup)[other] == m[other],
{
}

/// The permissions that each user set up with `/setup`, keyed by user id.
pub struct PermissionData {
    data: HashMap<u64, PermissionSetup>,
}

impl View for PermissionData {
    type V = Map<u64, PermissionSetup>;

    closed spec fn view(&self) -> Map<u64, PermissionSetup> {
        self.data@
    }
}

impl PermissionData {
    /// No user has set up permissions.
    pub fn new() -> (r: Self)
        ensures
            r@ == Map::<u64, PermissionSetup>::empty(),
    {
        PermissionData { data: HashMap::new() }
    }

    /// Records a user's permissions, replacing earlier ones.
    pub fn insert(&mut self, user_id: u64, setup: PermissionSetup)
        ensures
            final(self)@ == old(self)@.insert(user_id, setup),
    {
        self.data.insert(user_id, setup);
    }

    /// A user's recorded permissions.
    pub fn get(&self, user_id: u64) -> (r: Option<PermissionSetup>)
        ensures
            match r {
                Some(p) => self@.contains_key(user_id) && self@[user_id] == p,
                None => !self@.contains_key(user_id),
            },
    {
        match self.data.get(&user_id) {
            Some(p) => Some(*p),
            None => None,
        }
    }
}

} // verus!
