//! `/setup`: asks, permission by permission, what to allow and deny on public
//! and private channels.
use vstd::prelude::*;
use crate::commands::{CommandDataOption, CommandSpec};
use crate::bot::bot_data::PermissionSetup;
use crate::text::{chars_eq, chars_of};
use crate::utility::sub_func::{get_perm_list, perm_list_spec};

verus! {

pub const SETUP_TEXT: &'static str = "A series of messages will be sent. Click on the appropriate button for permission confirmation";

pub fn register(command: &mut CommandSpec)
    ensures
        final(command).name@ == "setup"@,
        final(command).description@ == "Setup the default permissions for channels"@,
        final(command).dm_permission == Some(false),
        final(command).options@ == old(command).options@,
{
    command.name = "setup".to_string();
    command.description = "Setup the default permissions for channels".to_string();
    command.dm_permission = Some(false);
}

pub fn run(_options: &[CommandDataOption]) -> (r: String)
    ensures
        r@ == SETUP_TEXT@,
{
    SETUP_TEXT.to_string()
}

/// Nothing allowed or denied yet.
pub fn empty_setup() -> (r: PermissionSetup)
    ensures
        r == (PermissionSetup { public_allow: 0, public_deny: 0, private_allow: 0, private_deny: 0 }),
{
    PermissionSetup { public_allow: 0, public_deny: 0, private_allow: 0, private_deny: 0 }
}

/// What the answer `reply` for permission `perm` makes of the permissions
/// collected so far: the permission is added to the sets the answer names;
/// `Keep Default/Unchanged` and unknown answers change nothing.
pub open spec fn apply_reply_spec(s: PermissionSetup, reply: Seq<char>, perm: u64) -> PermissionSetup {
    if reply == "Allow For Public"@ {
        PermissionSetup { public_allow: s.public_allow | perm, ..s }
    } else if reply == "Allow For Private"@ {
        PermissionSetup { private_allow: s.private_allow | perm, ..s }
    } else if reply == "Deny For Public"@ {
        PermissionSetup { public_deny: s.public_deny | perm, ..s }
    } else if reply == "Deny For Private"@ {
        PermissionSetup { private_deny: s.private_deny | perm, ..s }
    } else if reply == "Allow Public, Deny Private"@ {
        PermissionSetup { public_allow: s.public_allow | perm, private_deny: s.private_deny | perm, ..s }
    } else if reply == "Deny Public, Allow Private"@ {
        PermissionSetup { public_deny: s.public_deny | perm, private_allow: s.private_allow | perm, ..s }
    } else if reply == "Allow For Both"@ {
        PermissionSetup { public_allow: s.public_allow | perm, private_allow: s.private_allow | perm, ..s }
    } else if reply == "Deny For Both"@ {
        PermissionSetup { public_deny: s.public_deny | perm, private_deny: s.private_deny | perm, ..s }
    } else {
        s
    }
}

/// Records the answer a user clicked for one permission.
pub fn apply_reply(s: PermissionSetup, reply: &str, perm: u64) -> (r: PermissionSetup)
    ensures
        r == apply_reply_spec(s, reply@, perm),
{
    let rc = chars_of(reply);
    if chars_eq(&rc, &chars_of("Allow For Public")) {
        PermissionSetup { public_allow: s.public_allow | perm, ..s }
    } else if chars_eq(&rc, &chars_of("Allow For Private")) {
        PermissionSetup { private_allow: s.private_allow | perm, ..s }
    } else if chars_eq(&rc, &chars_of("Deny For Public")) {
        PermissionSetup { public_deny: s.public_deny | perm, ..s }
    } else if chars_eq(&rc, &chars_of("Deny For Private")) {
        PermissionSetup { private_deny: s.private_deny | perm, ..s }
    } else if chars_eq(&rc, &chars_of("Allow Public, Deny Private")) {
        PermissionSetup { public_allow: s.public_allow | perm, private_deny: s.private_deny | perm, ..s }
    } else if chars_eq(&rc, &chars_of("Deny Public, Allow Private")) {
        PermissionSetup { public_deny: s.public_deny | perm, private_allow: s.private_allow | perm, ..s }
    } else if chars_eq(&rc, &chars_of("Allow For Both")) {
        PermissionSetup { public_allow: s.public_allow | perm, private_allow: s.private_allow | perm, ..s }
    } else if chars_eq(&rc, &chars_of("Deny For Both")) {
        PermissionSetup { public_deny: s.public_deny | perm, private_deny: s.private_deny | perm, ..s }
    } else {
        s
    }
}

/// Clicking the same answer twice for a permission records it once.
pub proof fn lemma_apply_reply_idempotent(s: PermissionSetup, reply: Seq<char>, perm: u64)
    ensures
        apply_reply_spec(apply_reply_spec(s, reply, perm), reply, perm) == apply_reply_spec(
            s,
            reply,
            perm,
        ),
{
    lemma_or_idempotent(s.public_allow, perm);
    lemma_or_idempotent(s.public_deny, perm);
    lemma_or_idempotent(s.private_allow, perm);
    lemma_or_idempotent(s.private_deny, perm);
}

/// An answer only adds the asked permission: every set keeps what it had and
/// gains at most the bits of `perm`.
pub proof fn lemma_apply_reply_only_adds(s: PermissionSetup, reply: Seq<char>, perm: u64)
    ensures
        ({
            let r = apply_reply_spec(s, reply, perm);
            &&& (r.public_allow == s.public_allow || r.public_allow == s.public_allow | perm)
            &&& (r.public_deny == s.public_deny || r.public_deny == s.public_deny | perm)
            &&& (r.private_allow == s.private_allow || r.private_allow == s.private_allow | perm)
            &&& (r.private_deny == s.private_deny || r.private_deny == s.private_deny | perm)
            &&& r.public_allow & s.public_allow == s.public_allow
            &&& r.public_deny & s.public_deny == s.public_deny
            &&& r.private_allow & s.private_allow == s.private_allow
            &&& r.private_deny & s.private_deny == s.private_deny
        }),
{
    lemma_or_keeps(s.public_allow, perm);
    lemma_or_keeps(s.public_deny, perm);
    lemma_or_keeps(s.private_allow, perm);
    lemma_or_keeps(s.private_deny, perm);
    lemma_and_self(s.public_allow);
    lemma_and_self(s.public_deny);
    lemma_and_self(s.private_allow);
    lemma_and_self(s.private_deny);
}

proof fn lemma_or_idempotent(a: u64, b: u64)
    ensures
        (a | b) | b == a | b,
{
    assert((a | b) | b == a | b) by (bit_vector);
}

proof fn lemma_or_keeps(a: u64, b: u64)
    ensures
        (a | b) & a == a,
{
    assert((a | b) & a == a) by (bit_vector);
}

proof fn lemma_and_self(a: u64)
    ensures
        a & a == a,
{
    assert(a & a == a) by (bit_vector);
}

/// What the answers given so far make of the permissions: each answer is for
/// the permission of `/setup`'s list at its position, and a question left
/// without answer changes nothing.
pub open spec fn setup_fold(answers: Seq<Option<Seq<char>>>) -> PermissionSetup
    decreases answers.len(),
{
    if answers.len() == 0 {
        PermissionSetup { public_allow: 0, public_deny: 0, private_allow: 0, private_deny: 0 }
    } else {
        let s = setup_fold(answers.drop_last());
        match answers.last() {
            Some(r) => apply_reply_spec(s, r, perm_list_spec()[answers.len() - 1].1),
            None => s,
        }
    }
}

/// The bits of the first `k` permissions of `/setup`'s list.
pub open spec fn perm_mask(k: int) -> u64 {
    if k <= 0 {
        0
    } else if k == 1 {
        0x800
    } else if k == 2 {
        0x810
    } else if k == 3 {
        0x1000_0810
    } else if k == 4 {
        0x1000_8810
    } else if k == 5 {
        0x1002_8810
    } else if k == 6 {
        0x1002_a810
    } else if k == 7 {
        0x1003_a810
    } else {
        0x9003_a810
    }
}

proof fn lemma_mask_values()
    by (bit_vector)
    ensures
        0x800u64 & 0u64 == 0,
        0u64 | 0x800u64 == 0x800u64,
        0x10u64 & 0x800u64 == 0,
        0x800u64 | 0x10u64 == 0x810u64,
        0x1000_0000u64 & 0x810u64 == 0,
        0x810u64 | 0x1000_0000u64 == 0x1000_0810u64,
        0x8000u64 & 0x1000_0810u64 == 0,
        0x1000_0810u64 | 0x8000u64 == 0x1000_8810u64,
        0x2_0000u64 & 0x1000_8810u64 == 0,
        0x1000_8810u64 | 0x2_0000u64 == 0x1002_8810u64,
        0x2000u64 & 0x1002_8810u64 == 0,
        0x1002_8810u64 | 0x2000u64 == 0x1002_a810u64,
        0x1_0000u64 & 0x1002_a810u64 == 0,
        0x1002_a810u64 | 0x1_0000u64 == 0x1003_a810u64,
        0x8000_0000u64 & 0x1003_a810u64 == 0,
        0x1003_a810u64 | 0x8000_0000u64 == 0x9003_a810u64,
{
}

/// Each permission of the list is a bit that the earlier ones do not hold.
proof fn lemma_perm_mask(k: int)
    requires
        0 <= k < 8,
    ensures
        perm_list_spec()[k].1 & perm_mask(k) == 0,
        perm_mask(k + 1) == perm_mask(k) | perm_list_spec()[k].1,
{
    lemma_mask_values();
}

/// One side (public or private) gaining a fresh bit on its allow set, on its
/// deny set, or on neither keeps the two apart and within the mask.
proof fn lemma_side(a: u64, d: u64, m: u64, p: u64)
    by (bit_vector)
    requires
        a & d == 0,
        a | m == m,
        d | m == m,
        p & m == 0,
    ensures
        (a | p) & d == 0,
        a & (d | p) == 0,
        (a | p) | (m | p) == m | p,
        (d | p) | (m | p) == m | p,
        a | (m | p) == m | p,
        d | (m | p) == m | p,
{
}

/// The answers keep what is allowed and what is denied apart, within the
/// permissions asked so far.
proof fn lemma_setup_fold_apart(answers: Seq<Option<Seq<char>>>)
    requires
        answers.len() <= 8,
    ensures
        ({
            let s = setup_fold(answers);
            let m = perm_mask(answers.len() as int);
            &&& s.public_allow & s.public_deny == 0
            &&& s.private_allow & s.private_deny == 0
            &&& s.public_allow | m == m
            &&& s.public_deny | m == m
            &&& s.private_allow | m == m
            &&& s.private_deny | m == m
        }),
    decreases answers.len(),
{
    if answers.len() == 0 {
        assert(0u64 & 0u64 == 0) by (bit_vector);
        assert(0u64 | 0u64 == 0) by (bit_vector);
    } else {
        let k = answers.len() - 1;
        let q = answers.drop_last();
        lemma_setup_fold_apart(q);
        lemma_perm_mask(k);
        let s = setup_fold(q);
        let m = perm_mask(k);
        let p = perm_list_spec()[k].1;
        lemma_side(s.public_allow, s.public_deny, m, p);
        lemma_side(s.private_allow, s.private_deny, m, p);
    }
}

/// Whatever the user answers, `/setup` never both allows and denies a
/// permission on the same kind of channel, and records only the permissions it
/// asks about.
pub proof fn lemma_setup_never_allows_and_denies(answers: Seq<Option<Seq<char>>>)
    requires
        answers.len() <= perm_list_spec().len(),
    ensures
        setup_fold(answers).public_allow & setup_fold(answers).public_deny == 0,
        setup_fold(answers).private_allow & setup_fold(answers).private_deny == 0,
        setup_fold(answers).public_allow | perm_mask(8) == perm_mask(8),
        setup_fold(answers).public_deny | perm_mask(8) == perm_mask(8),
        setup_fold(answers).private_allow | perm_mask(8) == perm_mask(8),
        setup_fold(answers).private_deny | perm_mask(8) == perm_mask(8),
{
    lemma_setup_fold_apart(answers);
    let s = setup_fold(answers);
    let m = perm_mask(answers.len() as int);
    let full = perm_mask(8);
    assert(m | full == full) by {
        assert(0u64 | 0x9003_a810u64 == 0x9003_a810u64) by (bit_vector);
        assert(0x800u64 | 0x9003_a810u64 == 0x9003_a810u64) by (bit_vector);
        assert(0x810u64 | 0x9003_a810u64 == 0x9003_a810u64) by (bit_vector);
        assert(0x1000_0810u64 | 0x9003_a810u64 == 0x9003_a810u64) by (bit_vector);
        assert(0x1000_8810u64 | 0x9003_a810u64 == 0x9003_a810u64) by (bit_vector);
        assert(0x1002_8810u64 | 0x9003_a810u64 == 0x9003_a810u64) by (bit_vector);
        assert(0x1002_a810u64 | 0x9003_a810u64 == 0x9003_a810u64) by (bit_vector);
        assert(0x1003_a810u64 | 0x9003_a810u64 == 0x9003_a810u64) by (bit_vector);
        assert(0x9003_a810u64 | 0x9003_a810u64 == 0x9003_a810u64) by (bit_vector);
    }
    lemma_within(s.public_allow, m, full);
    lemma_within(s.public_deny, m, full);
    lemma_within(s.private_allow, m, full);
    lemma_within(s.private_deny, m, full);
}

proof fn lemma_within(a: u64, m: u64, f: u64)
    by (bit_vector)
    requires
        a | m == m,
        m | f == f,
    ensures
        a | f == f,
{
}

/// A clicked answer, or none.
pub open spec fn reply_view(reply: Option<&str>) -> Option<Seq<char>> {
    match reply {
        Some(r) => Some(r@),
        None => None,
    }
}

/// The questions of `/setup`, one per permission of its list, and what the
/// answers so far have recorded.
pub struct SetupSession {
    collected: PermissionSetup,
    asked: usize,
    answers: Ghost<Seq<Option<Seq<char>>>>,
}

impl SetupSession {
    #[verifier::type_invariant]
    spec fn inv(self) -> bool {
        &&& self.asked == self.answers@.len()
        &&& self.asked <= 8
        &&& self.collected == setup_fold(self.answers@)
    }

    /// The answers given so far, in order.
    pub closed spec fn answers(self) -> Seq<Option<Seq<char>>> {
        self.answers@
    }

    /// No question answered yet.
    pub fn new() -> (r: Self)
        ensures
            r.answers() == Seq::<Option<Seq<char>>>::empty(),
    {
        let answers: Ghost<Seq<Option<Seq<char>>>> = Ghost(Seq::empty());
        SetupSession { collected: empty_setup(), asked: 0, answers }
    }

    /// The next permission to ask about, with its name; `None` once all are
    /// answered.
    pub fn question(&self) -> (r: Option<(&'static str, u64)>)
        ensures
            self.answers().len() < perm_list_spec().len() ==> (r matches Some(q) && (q.0@, q.1)
                == perm_list_spec()[self.answers().len() as int]),
            self.answers().len() >= perm_list_spec().len() ==> r is None,
    {
        proof {
            use_type_invariant(self);
        }
        let list = get_perm_list();
        if self.asked < list.len() {
            let q = list[self.asked];
            assert(list@.map_values(|e: (&'static str, u64)| (e.0@, e.1))[self.asked as int] == (
            q.0@, q.1));
            Some(q)
        } else {
            None
        }
    }

    /// Records the answer to the current question (`None` when none came).
    pub fn answer(&mut self, reply: Option<&str>)
        requires
            old(self).answers().len() < perm_list_spec().len(),
        ensures
            final(self).answers() == old(self).answers().push(reply_view(reply)),
    {
        proof {
            use_type_invariant(&*self);
        }
        let list = get_perm_list();
        let perm = list[self.asked].1;
        assert(list@.map_values(|e: (&'static str, u64)| (e.0@, e.1))[self.asked as int].1 == perm);
        let ghost answers = self.answers@.push(reply_view(reply));
        let collected = match reply {
            Some(r) => apply_reply(self.collected, r, perm),
            None => self.collected,
        };
        assert(answers.drop_last() =~= self.answers@);
        let answers: Ghost<Seq<Option<Seq<char>>>> = Ghost(answers);
        *self = SetupSession { collected, asked: self.asked + 1, answers };
    }

    /// What the answers so far have recorded.
    pub fn result(&self) -> (r: PermissionSetup)
        ensures
            r == setup_fold(self.answers()),
    {
        proof {
            use_type_invariant(self);
        }
        self.collected
    }
}

/// What each answer of `/setup` does: it adds `perm` to the sets its words name
/// (allow or deny, for public or private channels or both) and leaves the other
/// sets as they were; `Keep Default/Unchanged` changes nothing.
pub proof fn lemma_reply_meanings(s: PermissionSetup, perm: u64)
    ensures
        ({
            let r = apply_reply_spec(s, "Allow For Public"@, perm);
            r.public_allow == s.public_allow | perm && r.public_deny == s.public_deny
                && r.private_allow == s.private_allow && r.private_deny == s.private_deny
        }),
        ({
            let r = apply_reply_spec(s, "Allow For Private"@, perm);
            r.public_allow == s.public_allow && r.public_deny == s.public_deny && r.private_allow
                == s.private_allow | perm && r.private_deny == s.private_deny
        }),
        ({
            let r = apply_reply_spec(s, "Deny For Public"@, perm);
            r.public_allow == s.public_allow && r.public_deny == s.public_deny | perm
                && r.private_allow == s.private_allow && r.private_deny == s.private_deny
        }),
        ({
            let r = apply_reply_spec(s, "Deny For Private"@, perm);
            r.public_allow == s.public_allow && r.public_deny == s.public_deny && r.private_allow
                == s.private_allow && r.private_deny == s.private_deny | perm
        }),
        ({
            let r = apply_reply_spec(s, "Allow Public, Deny Private"@, perm);
            r.public_allow == s.public_allow | perm && r.public_deny == s.public_deny
                && r.private_allow == s.private_allow && r.private_deny == s.private_deny | perm
        }),
        ({
            let r = apply_reply_spec(s, "Deny Public, Allow Private"@, perm);
            r.public_allow == s.public_allow && r.public_deny == s.public_deny | perm
                && r.private_allow == s.private_allow | perm && r.private_deny == s.private_deny
        }),
        ({
            let r = apply_reply_spec(s, "Allow For Both"@, perm);
            r.public_allow == s.public_allow | perm && r.public_deny == s.public_deny
                && r.private_allow == s.private_allow | perm && r.private_deny == s.private_deny
        }),
        ({
            let r = apply_reply_spec(s, "Deny For Both"@, perm);
            r.public_allow == s.public_allow && r.public_deny == s.public_deny | perm
                && r.private_allow == s.private_allow && r.private_deny == s.private_deny | perm
        }),
        apply_reply_spec(s, "Keep Default/Unchanged"@, perm) == s,
{
    reveal_strlit("Allow For Public");
    reveal_strlit("Allow For Private");
    reveal_strlit("Deny For Public");
    reveal_strlit("Deny For Private");
    reveal_strlit("Allow Public, Deny Private");
    reveal_strlit("Deny Public, Allow Private");
    reveal_strlit("Allow For Both");
    reveal_strlit("Deny For Both");
    reveal_strlit("Keep Default/Unchanged");
    assert("Allow For Public"@.len() == 16);
    assert("Allow For Private"@.len() == 17);
    assert("Deny For Public"@.len() == 15);
    assert("Deny For Private"@.len() == 16);
    assert("Allow Public, Deny Private"@.len() == 26);
    assert("Deny Public, Allow Private"@.len() == 26);
    assert("Allow For Both"@.len() == 14);
    assert("Deny For Both"@.len() == 13);
    assert("Keep Default/Unchanged"@.len() == 22);
    assert("Deny For Private"@ != "Allow For Public"@) by {
        assert("Deny For Private"@[0] != "Allow For Public"@[0]);
    }
    assert("Deny Public, Allow Private"@ != "Allow Public, Deny Private"@) by {
        assert("Deny Public, Allow Private"@[0] != "Allow Public, Deny Private"@[0]);
    }
}

} // verus!
