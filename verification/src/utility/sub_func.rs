//! Channel-name polishing, the permission list of `/setup`, and buttons.
use vstd::prelude::*;
use crate::text::{chars_of, is_whitespace, is_ws, string_of, trim, trim_chars, trim_end, trim_start};
use crate::utility::permissions::{
    ATTACH_FILES, MANAGE_CHANNELS, MANAGE_MESSAGES, MANAGE_ROLES, MENTION_EVERYONE,
    READ_MESSAGE_HISTORY, SEND_MESSAGES, USE_SLASH_COMMANDS,
};

verus! {

/// A character that separates the words of a channel name: whitespace or `-`.
pub open spec fn is_sep(c: char) -> bool {
    is_ws(c) || c == '-'
}

/// Runs of whitespace and `-` in `t` collapsed into one `-` each.
pub open spec fn dash_runs(t: Seq<char>) -> Seq<char>
    decreases t.len(),
{
    if t.len() == 0 {
        seq![]
    } else {
        let p = dash_runs(t.drop_last());
        let c = t.last();
        if is_sep(c) {
            if t.len() >= 2 && is_sep(t[t.len() - 2]) {
                p
            } else {
                p.push('-')
            }
        } else {
            p.push(c)
        }
    }
}

/// A channel name: trimmed, with each run of whitespace and `-` turned into one
/// `-`.
pub open spec fn polish(name: Seq<char>) -> Seq<char> {
    dash_runs(trim(name))
}

/// Replaces whitespace with `-` so that no two `-` are ever together.
pub fn polish_channel(name: &str) -> (r: String)
    ensures
        r@ == polish(name@),
        forall|i: int| 0 <= i < r@.len() ==> !is_ws(#[trigger] r@[i]),
        forall|i: int| 0 <= i < r@.len() - 1 ==> !(#[trigger] r@[i] == '-' && r@[i + 1] == '-'),
{
    let t = trim_chars(&chars_of(name));
    let mut output: Vec<char> = Vec::new();
    let mut last_char_was_hyphen = false;
    let mut i: usize = 0;
    assert(t@.take(0) =~= seq![]);
    while i < t.len()
        invariant
            i <= t.len(),
            output@ == dash_runs(t@.take(i as int)),
            last_char_was_hyphen == (i > 0 && is_sep(t@[i - 1])),
        decreases t.len() - i,
    {
        let c = t[i];
        assert(t@.take(i + 1).drop_last() =~= t@.take(i as int));
        if is_whitespace(c) || c == '-' {
            if !last_char_was_hyphen {
                output.push('-');
                last_char_was_hyphen = true;
            }
        } else {
            output.push(c);
            last_char_was_hyphen = false;
        }
        i += 1;
    }
    assert(t@.take(t.len() as int) =~= t@);
    proof {
        lemma_polish_no_whitespace(name@);
        lemma_polish_no_double_dash(name@);
    }
    let r = string_of(&output);
    let ghost p = polish(name@);
    assert forall|i: int| 0 <= i < r@.len() - 1 implies !(#[trigger] r@[i] == '-' && r@[i + 1]
        == '-') by {
        assert(r@[i] == p[i] && r@[i + 1] == p[i + 1]);
    }
    assert forall|i: int| 0 <= i < r@.len() implies !is_ws(#[trigger] r@[i]) by {
        assert(r@[i] == p[i]);
    }
    r
}

/// A polished channel name has no whitespace in it.
pub proof fn lemma_polish_no_whitespace(name: Seq<char>)
    ensures
        forall|i: int| 0 <= i < polish(name).len() ==> !is_ws(#[trigger] polish(name)[i]),
{
    lemma_dash_runs_no_ws(trim(name));
}

/// Polishing a polished channel name changes nothing.
pub proof fn lemma_polish_idempotent(name: Seq<char>)
    ensures
        polish(polish(name)) == polish(name),
{
    let p = polish(name);
    lemma_dash_runs_no_ws(trim(name));
    lemma_dash_runs_single(trim(name));
    lemma_trim_no_ws(p);
    lemma_dash_runs_identity(p);
}

/// In a polished name no two `-` stand together.
pub proof fn lemma_polish_no_double_dash(name: Seq<char>)
    ensures
        forall|i: int|
            0 <= i < polish(name).len() - 1 ==> !(#[trigger] polish(name)[i] == '-' && polish(
                name,
            )[i + 1] == '-'),
{
    lemma_dash_runs_single(trim(name));
}

proof fn lemma_dash_runs_no_ws(t: Seq<char>)
    ensures
        forall|i: int| 0 <= i < dash_runs(t).len() ==> !is_ws(#[trigger] dash_runs(t)[i]),
    decreases t.len(),
{
    if t.len() > 0 {
        lemma_dash_runs_no_ws(t.drop_last());
        let p = dash_runs(t.drop_last());
        assert forall|i: int| 0 <= i < dash_runs(t).len() implies !is_ws(
            #[trigger] dash_runs(t)[i],
        ) by {
            if i < p.len() {
                assert(dash_runs(t)[i] == p[i]);
            }
        }
    }
}

/// A text without whitespace and without two `-` together is its own collapse.
proof fn lemma_dash_runs_identity(t: Seq<char>)
    requires
        forall|i: int| 0 <= i < t.len() ==> !is_ws(#[trigger] t[i]),
        forall|i: int| 0 <= i < t.len() - 1 ==> !(#[trigger] t[i] == '-' && t[i + 1] == '-'),
    ensures
        dash_runs(t) == t,
    decreases t.len(),
{
    if t.len() > 0 {
        let q = t.drop_last();
        assert forall|i: int| 0 <= i < q.len() implies !is_ws(#[trigger] q[i]) by {
            assert(q[i] == t[i]);
        }
        assert forall|i: int| 0 <= i < q.len() - 1 implies !(#[trigger] q[i] == '-' && q[i + 1]
            == '-') by {
            assert(q[i] == t[i]);
            assert(q[i + 1] == t[i + 1]);
        }
        lemma_dash_runs_identity(q);
        assert(!is_ws(t[t.len() - 1]));
        if t.len() >= 2 {
            assert(!(t[t.len() - 2] == '-' && t[t.len() - 1] == '-'));
            assert(!is_ws(t[t.len() - 2]));
        }
        assert(t.drop_last().push(t.last()) =~= t);
    }
}

proof fn lemma_trim_start_no_ws(s: Seq<char>)
    requires
        s.len() == 0 || !is_ws(s[0]),
    ensures
        trim_start(s) == s,
{
}

proof fn lemma_trim_end_no_ws(s: Seq<char>)
    requires
        s.len() == 0 || !is_ws(s.last()),
    ensures
        trim_end(s) == s,
{
}

proof fn lemma_trim_no_ws(s: Seq<char>)
    requires
        forall|i: int| 0 <= i < s.len() ==> !is_ws(#[trigger] s[i]),
    ensures
        trim(s) == s,
{
    if s.len() > 0 {
        assert(!is_ws(s[0]));
        assert(!is_ws(s[s.len() - 1]));
    }
    lemma_trim_start_no_ws(s);
    lemma_trim_end_no_ws(s);
}

/// The collapsed text ends in `-` exactly when `t` ends in whitespace or `-`,
/// and has no two `-` together.
proof fn lemma_dash_runs_single(t: Seq<char>)
    ensures
        t.len() > 0 ==> dash_runs(t).len() > 0 && (dash_runs(t).last() == '-' <==> is_sep(t.last())),
        forall|i: int|
            0 <= i < dash_runs(t).len() - 1 ==> !(#[trigger] dash_runs(t)[i] == '-' && dash_runs(
                t,
            )[i + 1] == '-'),
    decreases t.len(),
{
    if t.len() > 0 {
        let q = t.drop_last();
        lemma_dash_runs_single(q);
        let p = dash_runs(q);
        let c = t.last();
        if is_sep(c) {
            if t.len() >= 2 && is_sep(t[t.len() - 2]) {
                assert(q.last() == t[t.len() - 2]);
            } else {
                assert forall|i: int|
                    0 <= i < dash_runs(t).len() - 1 implies !(#[trigger] dash_runs(t)[i] == '-'
                    && dash_runs(t)[i + 1] == '-') by {
                    if i == p.len() - 1 {
                        assert(q.last() == t[t.len() - 2]);
                    } else {
                        assert(dash_runs(t)[i] == p[i]);
                        assert(dash_runs(t)[i + 1] == p[i + 1]);
                    }
                }
            }
        } else {
            assert(c != '-');
            assert forall|i: int|
                0 <= i < dash_runs(t).len() - 1 implies !(#[trigger] dash_runs(t)[i] == '-'
                && dash_runs(t)[i + 1] == '-') by {
                if i < p.len() - 1 {
                    assert(dash_runs(t)[i] == p[i]);
                    assert(dash_runs(t)[i + 1] == p[i + 1]);
                }
            }
        }
    }
}

/// The permissions that `/setup` asks about, each with its readable name.
pub open spec fn perm_list_spec() -> Seq<(Seq<char>, u64)> {
    seq![
        ("Send Message"@, SEND_MESSAGES),
        ("Manage Channel"@, MANAGE_CHANNELS),
        ("Manage Roles"@, MANAGE_ROLES),
        ("Attach Files"@, ATTACH_FILES),
        ("Mention @everyone @here"@, MENTION_EVERYONE),
        ("Manage Message"@, MANAGE_MESSAGES),
        ("Read Message History"@, READ_MESSAGE_HISTORY),
        ("Use Application Commands"@, USE_SLASH_COMMANDS),
    ]
}

/// Returns the list of permissions used for /setup
pub fn get_perm_list() -> (r: Vec<(&'static str, u64)>)
    ensures
        r@.map_values(|e: (&'static str, u64)| (e.0@, e.1)) == perm_list_spec(),
{
    let r = vec![
        ("Send Message", SEND_MESSAGES),
        ("Manage Channel", MANAGE_CHANNELS),
        ("Manage Roles", MANAGE_ROLES),
        ("Attach Files", ATTACH_FILES),
        ("Mention @everyone @here", MENTION_EVERYONE),
        ("Manage Message", MANAGE_MESSAGES),
        ("Read Message History", READ_MESSAGE_HISTORY),
        ("Use Application Commands", USE_SLASH_COMMANDS),
    ];
    assert(r@.map_values(|e: (&'static str, u64)| (e.0@, e.1)) =~= perm_list_spec());
    r
}

/// The look of a button.
#[derive(Clone, Copy, Debug, PartialEq, Eq, Structural)]
pub enum ButtonStyle {
    Primary,
    Secondary,
    Success,
    Danger,
    Link,
}

/// A message button: the id its clicks come back with, its label and its style.
#[derive(Debug)]
pub struct Button {
    pub custom_id: String,
    pub label: String,
    pub style: ButtonStyle,
}

/// creates a button based on the style and the string that is passed
pub fn normal_button(name: &str, style: ButtonStyle) -> (b: Button)
    ensures
        b.custom_id@ == name@,
        b.label@ == name@,
        b.style == style,
{
    Button { custom_id: name.to_string(), label: name.to_string(), style }
}

} // verus!
