//! What accepting a `/create` reply does to a guild: which roles get which
//! permission overwrites on the new categories and channels.
use vstd::prelude::*;
use crate::bot::bot_data::PermissionSetup;
use crate::commands::setup::{apply_reply_spec, lemma_reply_meanings};
use crate::bot::channel_data::{ChannelInfo, ChannelView};
use crate::text::{chars_eq, chars_of, strs_of};
use crate::utility::permissions::{
    CONNECT, CREATE_PRIVATE_THREADS, CREATE_PUBLIC_THREADS, MANAGE_CHANNELS, MANAGE_GUILD,
    MANAGE_MESSAGES, MANAGE_ROLES, MENTION_EVERYONE, READ_MESSAGE_HISTORY, SEND_MESSAGES,
    VIEW_CHANNEL,
};

verus! {

/// A role of the guild.
#[derive(Debug)]
pub struct GuildRole {
    pub id: u64,
    pub name: String,
}

/// The permissions one role is given, or refused, on a channel.
#[derive(Clone, Copy, Debug, PartialEq, Eq, Structural)]
pub struct PermissionOverwrite {
    pub allow: u64,
    pub deny: u64,
    pub role: u64,
}

/// What a public channel allows its roles when `/setup` was not used.
pub open spec fn default_public_allow() -> u64 {
    SEND_MESSAGES | VIEW_CHANNEL | READ_MESSAGE_HISTORY
}

/// What a public channel refuses its roles when `/setup` was not used.
pub open spec fn default_public_deny() -> u64 {
    MENTION_EVERYONE | MANAGE_CHANNELS | MANAGE_MESSAGES | MANAGE_GUILD | MANAGE_ROLES
        | CREATE_PUBLIC_THREADS | CREATE_PRIVATE_THREADS
}

/// Denies view permission to make a channel or category private.
pub fn do_private(role: u64) -> (r: Vec<PermissionOverwrite>)
    ensures
        r@ == seq![PermissionOverwrite { allow: 0, deny: VIEW_CHANNEL | CONNECT, role: role }],
{
    let r = vec![PermissionOverwrite { allow: 0, deny: VIEW_CHANNEL | CONNECT, role: role }];
    assert(r@ =~= seq![PermissionOverwrite { allow: 0, deny: VIEW_CHANNEL | CONNECT, role: role }]);
    r
}

/// Takes @everyone role id and removes all permissions
pub fn remove_all_permissions(role: u64) -> (r: Vec<PermissionOverwrite>)
    ensures
        r@ == seq![PermissionOverwrite { allow: 0, deny: 0, role: role }],
{
    let r = vec![PermissionOverwrite { allow: 0, deny: 0, role: role }];
    assert(r@ =~= seq![PermissionOverwrite { allow: 0, deny: 0, role: role }]);
    r
}

/// The id of the last role named `@everyone`.
pub open spec fn everyone_spec(roles: Seq<GuildRole>) -> Option<u64>
    decreases roles.len(),
{
    if roles.len() == 0 {
        None
    } else if roles.last().name@ == "@everyone"@ {
        Some(roles.last().id)
    } else {
        everyone_spec(roles.drop_last())
    }
}

/// Finds the guild's `@everyone` role.
pub fn everyone_role(roles: &Vec<GuildRole>) -> (r: Option<u64>)
    ensures
        r == everyone_spec(roles@),
{
    let everyone = chars_of("@everyone");
    let mut found: Option<u64> = None;
    let mut i: usize = 0;
    assert(roles@.take(0) =~= seq![]);
    while i < roles.len()
        invariant
            everyone@ == "@everyone"@,
            i <= roles.len(),
            found == everyone_spec(roles@.take(i as int)),
        decreases roles.len() - i,
    {
        assert(roles@.take(i + 1).drop_last() =~= roles@.take(i as int));
        if chars_eq(&chars_of(roles[i].name.as_str()), &everyone) {
            found = Some(roles[i].id);
        }
        i += 1;
    }
    assert(roles@.take(roles.len() as int) =~= roles@);
    found
}

/// The ids of the roles whose name is among `names`, in the order of `roles`.
pub open spec fn ids_named(roles: Seq<GuildRole>, names: Seq<Seq<char>>) -> Seq<u64>
    decreases roles.len(),
{
    if roles.len() == 0 {
        seq![]
    } else {
        let p = ids_named(roles.drop_last(), names);
        if names.contains(roles.last().name@) {
            p.push(roles.last().id)
        } else {
            p
        }
    }
}

fn contains_name(names: &Vec<String>, name: &String) -> (r: bool)
    ensures
        r == strs_of(names@).contains(name@),
{
    let mut i: usize = 0;
    while i < names.len()
        invariant
            i <= names.len(),
            forall|k: int| 0 <= k < i ==> strs_of(names@)[k] != name@,
        decreases names.len() - i,
    {
        if names[i] == *name {
            assert(strs_of(names@)[i as int] == name@);
            return true;
        }
        i += 1;
    }
    false
}

/// The ids of the guild roles named in `names`.
pub fn role_ids_named(roles: &Vec<GuildRole>, names: &Vec<String>) -> (r: Vec<u64>)
    ensures
        r@ == ids_named(roles@, strs_of(names@)),
{
    let mut ids: Vec<u64> = Vec::new();
    let mut i: usize = 0;
    assert(roles@.take(0) =~= seq![]);
    while i < roles.len()
        invariant
            i <= roles.len(),
            ids@ == ids_named(roles@.take(i as int), strs_of(names@)),
        decreases roles.len() - i,
    {
        assert(roles@.take(i + 1).drop_last() =~= roles@.take(i as int));
        if contains_name(names, &roles[i].name) {
            ids.push(roles[i].id);
        }
        i += 1;
    }
    assert(roles@.take(roles.len() as int) =~= roles@);
    ids
}

/// The allow and deny sets for the roles of a channel: those the user set up
/// with `/setup`, else the defaults (public: read and send, no management;
/// private: read and send, nothing refused).
pub open spec fn permission_sets(saved: Option<PermissionSetup>, private: bool) -> (u64, u64) {
    match saved {
        Some(p) => if private {
            (p.private_allow, p.private_deny)
        } else {
            (p.public_allow, p.public_deny)
        },
        None => if private {
            (default_public_allow(), 0)
        } else {
            (default_public_allow(), default_public_deny())
        },
    }
}

/// The overwrites that give each role the channel's permission sets.
pub fn overwrites_for(role_ids: &Vec<u64>, private: bool, saved: Option<PermissionSetup>) -> (r: Vec<
    PermissionOverwrite,
>)
    ensures
        r@.len() == role_ids@.len(),
        forall|k: int|
            0 <= k < r@.len() ==> #[trigger] r@[k] == (PermissionOverwrite {
                allow: permission_sets(saved, private).0,
                deny: permission_sets(saved, private).1,
                role: role_ids@[k],
            }),
{
    let (allow, deny) = match saved {
        Some(p) => if private {
            (p.private_allow, p.private_deny)
        } else {
            (p.public_allow, p.public_deny)
        },
        None => if private {
            (SEND_MESSAGES | VIEW_CHANNEL | READ_MESSAGE_HISTORY, 0)
        } else {
            (
                SEND_MESSAGES | VIEW_CHANNEL | READ_MESSAGE_HISTORY,
                MENTION_EVERYONE | MANAGE_CHANNELS | MANAGE_MESSAGES | MANAGE_GUILD | MANAGE_ROLES
                    | CREATE_PUBLIC_THREADS | CREATE_PRIVATE_THREADS,
            )
        },
    };
    let mut r: Vec<PermissionOverwrite> = Vec::new();
    let mut i: usize = 0;
    while i < role_ids.len()
        invariant
            i <= role_ids.len(),
            (allow, deny) == permission_sets(saved, private),
            r@.len() == i,
            forall|k: int|
                0 <= k < i ==> #[trigger] r@[k] == (PermissionOverwrite {
                    allow: allow,
                    deny: deny,
                    role: role_ids@[k],
                }),
        decreases role_ids.len() - i,
    {
        r.push(PermissionOverwrite { allow, deny, role: role_ids[i] });
        i += 1;
    }
    r
}

/// What accepting does for one channel.
#[derive(Debug)]
pub struct ChannelPlan {
    /// The roles that get permissions on the channel's category.
    pub category_roles: Vec<u64>,
    /// Whether the category gets private permissions.
    pub category_private: bool,
    /// Whether `@everyone` loses all permissions first (the channel names its own roles).
    pub reset_permissions: bool,
    /// Whether the channel is made private.
    pub private: bool,
    /// The roles that get permissions on the channel.
    pub channel_roles: Vec<u64>,
}

/// The plan for a channel, given the guild's roles.
pub open spec fn plan_spec(c: ChannelView, roles: Seq<GuildRole>) -> (Seq<u64>, bool, bool, bool, Seq<u64>) {
    let cat_roles = match c.category {
        Some(cat) => match cat.roles {
            Some(rs) => ids_named(roles, rs),
            None => seq![],
        },
        None => seq![],
    };
    let cat_private = match c.category {
        Some(cat) => cat.private,
        None => false,
    };
    (
        cat_roles,
        cat_private,
        c.roles is Some,
        c.private == Some(true) || cat_private,
        match c.roles {
            Some(rs) => ids_named(roles, rs),
            None => cat_roles,
        },
    )
}

/// Plans the permission changes for one channel.
pub fn plan_channel(channel: &ChannelInfo, roles: &Vec<GuildRole>) -> (r: ChannelPlan)
    ensures
        plan_spec(channel@, roles@) == (
            r.category_roles@,
            r.category_private,
            r.reset_permissions,
            r.private,
            r.channel_roles@,
        ),
{
    let category_roles = match channel.get_category_roles() {
        Some(names) => role_ids_named(roles, names),
        None => {
            let v: Vec<u64> = Vec::new();
            assert(v@ =~= seq![]);
            v
        },
    };
    let category_private = channel.get_category_private();
    let channel_roles = match &channel.roles {
        Some(names) => role_ids_named(roles, names),
        None => {
            let mut copy: Vec<u64> = Vec::new();
            let mut i: usize = 0;
            while i < category_roles.len()
                invariant
                    i <= category_roles.len(),
                    copy@ == category_roles@.take(i as int),
                decreases category_roles.len() - i,
            {
                copy.push(category_roles[i]);
                assert(copy@ =~= category_roles@.take(i + 1));
                i += 1;
            }
            assert(category_roles@.take(category_roles.len() as int) =~= category_roles@);
            copy
        },
    };
    let private = match channel.private {
        Some(p) => p,
        None => false,
    };
    let r = ChannelPlan {
        category_roles,
        category_private,
        reset_permissions: channel.roles.is_some(),
        private: private || category_private,
        channel_roles,
    };
    r
}

/// The id that the last category recorded under `name` has, if any.
pub open spec fn known_id(entries: Seq<(Seq<char>, u64)>, name: Seq<char>) -> Option<u64>
    decreases entries.len(),
{
    if entries.len() == 0 {
        None
    } else if entries.last().0 == name {
        Some(entries.last().1)
    } else {
        known_id(entries.drop_last(), name)
    }
}

/// The categories of a guild, by name, as they are found or created; a later
/// one of the same name takes the place of an earlier one.
pub struct KnownCategories {
    entries: Vec<(String, u64)>,
}

impl View for KnownCategories {
    type V = Seq<(Seq<char>, u64)>;

    closed spec fn view(&self) -> Seq<(Seq<char>, u64)> {
        self.entries@.map_values(|e: (String, u64)| (e.0@, e.1))
    }
}

/// Where a channel goes: in no category, in a category that exists, or in one
/// to be created.
#[derive(Clone, Copy, Debug, PartialEq, Eq, Structural)]
pub enum CategoryStep {
    NoCategory,
    Existing(u64),
    Create,
}

impl KnownCategories {
    /// No category known yet.
    pub fn new() -> (r: Self)
        ensures
            r@ == Seq::<(Seq<char>, u64)>::empty(),
    {
        let r = KnownCategories { entries: Vec::new() };
        assert(r@ =~= Seq::<(Seq<char>, u64)>::empty());
        r
    }

    /// Records a category found in the guild or just created.
    pub fn record(&mut self, name: &str, id: u64)
        ensures
            final(self)@ == old(self)@.push((name@, id)),
    {
        let ghost before = self@;
        self.entries.push((name.to_string(), id));
        assert(self@ =~= before.push((name@, id)));
    }

    /// Where a channel with the given category name goes: a category of that
    /// name that is known is used again, and one that is not is created.
    pub fn step(&self, name: Option<&str>) -> (r: CategoryStep)
        ensures
            r == (match name {
                None => CategoryStep::NoCategory,
                Some(n) => match known_id(self@, n@) {
                    Some(id) => CategoryStep::Existing(id),
                    None => CategoryStep::Create,
                },
            }),
    {
        match name {
            None => CategoryStep::NoCategory,
            Some(n) => {
                let nc = chars_of(n);
                let mut i = self.entries.len();
                assert(self@.take(i as int) =~= self@);
                while i > 0
                    invariant
                        i <= self.entries.len(),
                        self@.len() == self.entries.len(),
                        nc@ == n@,
                        name == Some(n),
                        known_id(self@, n@) == known_id(self@.take(i as int), n@),
                    decreases i,
                {
                    let ghost t = self@.take(i as int);
                    assert(t.drop_last() =~= self@.take(i - 1));
                    assert(t.last() == (self.entries@[i - 1].0@, self.entries@[i - 1].1));
                    let here = chars_of(self.entries[i - 1].0.as_str());
                    if chars_eq(&here, &nc) {
                        assert(t.last().0 == n@);
                        assert(known_id(t, n@) == Some(t.last().1));
                        return CategoryStep::Existing(self.entries[i - 1].1);
                    }
                    i -= 1;
                }
                CategoryStep::Create
            },
        }
    }
}

/// Once a category is recorded, a channel with its name goes into it: each
/// missing category is created once.
pub proof fn lemma_recorded_category_is_used(
    entries: Seq<(Seq<char>, u64)>,
    name: Seq<char>,
    id: u64,
)
    ensures
        known_id(entries.push((name, id)), name) == Some(id),
{
    assert(entries.push((name, id)).last() == (name, id));
}

/// The overwrites that give each role the channel's permission sets.
pub open spec fn overwrites_spec(role_ids: Seq<u64>, private: bool, saved: Option<PermissionSetup>) -> Seq<
    PermissionOverwrite,
> {
    role_ids.map_values(
        |r: u64|
            PermissionOverwrite {
                allow: permission_sets(saved, private).0,
                deny: permission_sets(saved, private).1,
                role: r,
            },
    )
}

/// One request to the guild while a channel is created.
#[derive(Debug)]
pub enum Request {
    /// Create the channel's category, with these overwrites.
    CreateCategory(Vec<PermissionOverwrite>),
    /// Give the channel's category these overwrites.
    CategoryOverwrites(Vec<PermissionOverwrite>),
    /// Create the channel, in its category if it has one.
    CreateChannel,
    /// Set the channel's permissions to these overwrites.
    SetChannelPermissions(Vec<PermissionOverwrite>),
    /// Give the channel these overwrites.
    ChannelOverwrites(Vec<PermissionOverwrite>),
}

/// A request as a value of the specification.
pub enum RequestView {
    CreateCategory(Seq<PermissionOverwrite>),
    CategoryOverwrites(Seq<PermissionOverwrite>),
    CreateChannel,
    SetChannelPermissions(Seq<PermissionOverwrite>),
    ChannelOverwrites(Seq<PermissionOverwrite>),
}

impl View for Request {
    type V = RequestView;

    open spec fn view(&self) -> RequestView {
        match self {
            Request::CreateCategory(v) => RequestView::CreateCategory(v@),
            Request::CategoryOverwrites(v) => RequestView::CategoryOverwrites(v@),
            Request::CreateChannel => RequestView::CreateChannel,
            Request::SetChannelPermissions(v) => RequestView::SetChannelPermissions(v@),
            Request::ChannelOverwrites(v) => RequestView::ChannelOverwrites(v@),
        }
    }
}

pub open spec fn requests_view(v: Seq<Request>) -> Seq<RequestView> {
    v.map_values(|r: Request| r@)
}

/// The requests, in order, that create one channel: its category when it does
/// not exist yet (private to `@everyone` when the plan says so), the category's
/// role overwrites when it has a category, the channel itself, then the reset of
/// `@everyone` when the channel names its own roles, its privacy, and its role
/// overwrites.
pub open spec fn requests_spec(
    step: CategoryStep,
    plan: (Seq<u64>, bool, bool, bool, Seq<u64>),
    everyone: u64,
    saved: Option<PermissionSetup>,
) -> Seq<RequestView> {
    let (cat_roles, cat_private, reset, private, ch_roles) = plan;
    let hidden = seq![PermissionOverwrite { allow: 0, deny: VIEW_CHANNEL | CONNECT, role: everyone }];
    (match step {
        CategoryStep::Create => seq![
            RequestView::CreateCategory(if cat_private { hidden } else { seq![] }),
        ],
        _ => seq![],
    }) + (match step {
        CategoryStep::NoCategory => seq![],
        _ => seq![RequestView::CategoryOverwrites(overwrites_spec(cat_roles, cat_private, saved))],
    }) + seq![RequestView::CreateChannel] + (if reset {
        seq![
            RequestView::SetChannelPermissions(
                seq![PermissionOverwrite { allow: 0, deny: 0, role: everyone }],
            ),
        ]
    } else {
        seq![]
    }) + (if private {
        seq![RequestView::SetChannelPermissions(hidden)]
    } else {
        seq![]
    }) + seq![RequestView::ChannelOverwrites(overwrites_spec(ch_roles, private, saved))]
}

fn overwrites_of(role_ids: &Vec<u64>, private: bool, saved: Option<PermissionSetup>) -> (r: Vec<
    PermissionOverwrite,
>)
    ensures
        r@ == overwrites_spec(role_ids@, private, saved),
{
    let r = overwrites_for(role_ids, private, saved);
    assert(r@ =~= overwrites_spec(role_ids@, private, saved));
    r
}

/// The requests that create one channel, in the order they are made.
pub fn channel_requests(
    step: CategoryStep,
    plan: &ChannelPlan,
    everyone: u64,
    saved: Option<PermissionSetup>,
) -> (r: Vec<Request>)
    ensures
        requests_view(r@) == requests_spec(
            step,
            (
                plan.category_roles@,
                plan.category_private,
                plan.reset_permissions,
                plan.private,
                plan.channel_roles@,
            ),
            everyone,
            saved,
        ),
{
    let ghost hidden = seq![PermissionOverwrite { allow: 0, deny: VIEW_CHANNEL | CONNECT, role: everyone }];
    let mut r: Vec<Request> = Vec::new();
    let ghost mut want: Seq<RequestView> = seq![];
    match step {
        CategoryStep::Create => {
            let o = if plan.category_private {
                do_private(everyone)
            } else {
                Vec::new()
            };
            r.push(Request::CreateCategory(o));
            proof {
                want = seq![RequestView::CreateCategory(if plan.category_private { hidden } else { seq![] })];
            }
        },
        _ => {},
    }
    assert(requests_view(r@) =~= want);
    match step {
        CategoryStep::NoCategory => {},
        _ => {
            r.push(Request::CategoryOverwrites(overwrites_of(&plan.category_roles, plan.category_private, saved)));
            proof {
                want = want + seq![RequestView::CategoryOverwrites(overwrites_spec(plan.category_roles@, plan.category_private, saved))];
            }
        },
    }
    assert(requests_view(r@) =~= want);
    r.push(Request::CreateChannel);
    proof {
        want = want + seq![RequestView::CreateChannel];
    }
    assert(requests_view(r@) =~= want);
    if plan.reset_permissions {
        r.push(Request::SetChannelPermissions(remove_all_permissions(everyone)));
        proof {
            want = want + seq![RequestView::SetChannelPermissions(seq![PermissionOverwrite { allow: 0, deny: 0, role: everyone }])];
        }
    }
    assert(requests_view(r@) =~= want);
    if plan.private {
        r.push(Request::SetChannelPermissions(do_private(everyone)));
        proof {
            want = want + seq![RequestView::SetChannelPermissions(hidden)];
        }
    }
    assert(requests_view(r@) =~= want);
    r.push(Request::ChannelOverwrites(overwrites_of(&plan.channel_roles, plan.private, saved)));
    proof {
        want = want + seq![RequestView::ChannelOverwrites(overwrites_spec(plan.channel_roles@, plan.private, saved))];
    }
    assert(requests_view(r@) =~= want);
    assert(want =~= requests_spec(
        step,
        (plan.category_roles@, plan.category_private, plan.reset_permissions, plan.private, plan.channel_roles@),
        everyone,
        saved,
    ));
    r
}

/// A channel is made private exactly when it is marked private itself or its
/// category is: a channel marked `-p` is private whatever its category.
pub proof fn lemma_private_plan(c: ChannelView, roles: Seq<GuildRole>)
    ensures
        c.private == Some(true) ==> plan_spec(c, roles).3,
        (c.category matches Some(k) && k.private) ==> plan_spec(c, roles).3,
        plan_spec(c, roles).3 ==> c.private == Some(true) || (c.category matches Some(k)
            && k.private),
{
}

/// With a saved `/setup`, the roles of a channel get what the user allowed and
/// are refused what the user denied, for the channel's kind.
pub proof fn lemma_saved_sets(p: PermissionSetup)
    ensures
        permission_sets(Some(p), false) == (p.public_allow, p.public_deny),
        permission_sets(Some(p), true) == (p.private_allow, p.private_deny),
{
}

proof fn lemma_or_has(a: u64, b: u64)
    by (bit_vector)
    ensures
        (a | b) & b == b,
{
}

/// An answer to `/setup` reaches the channels it names: after allowing a
/// permission for public (private) channels, the overwrites of public
/// (private) channels allow it, and what they refuse stays as it was; after
/// denying it, they refuse it, and what they allow stays as it was.
pub proof fn lemma_answers_reach_overwrites(s: PermissionSetup, perm: u64)
    ensures
        permission_sets(Some(apply_reply_spec(s, "Allow For Public"@, perm)), false).0 & perm == perm,
        permission_sets(Some(apply_reply_spec(s, "Allow For Public"@, perm)), false).1
            == permission_sets(Some(s), false).1,
        permission_sets(Some(apply_reply_spec(s, "Deny For Public"@, perm)), false).1 & perm == perm,
        permission_sets(Some(apply_reply_spec(s, "Deny For Public"@, perm)), false).0
            == permission_sets(Some(s), false).0,
        permission_sets(Some(apply_reply_spec(s, "Allow For Private"@, perm)), true).0 & perm == perm,
        permission_sets(Some(apply_reply_spec(s, "Allow For Private"@, perm)), true).1
            == permission_sets(Some(s), true).1,
        permission_sets(Some(apply_reply_spec(s, "Deny For Private"@, perm)), true).1 & perm == perm,
        permission_sets(Some(apply_reply_spec(s, "Deny For Private"@, perm)), true).0
            == permission_sets(Some(s), true).0,
{
    lemma_reply_meanings(s, perm);
    lemma_or_has(s.public_allow, perm);
    lemma_or_has(s.public_deny, perm);
    lemma_or_has(s.private_allow, perm);
    lemma_or_has(s.private_deny, perm);
}

} // verus!
