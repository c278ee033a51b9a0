//! `/check_setup`: shows what `/setup` recorded.
use vstd::prelude::*;
use serenity::model::permissions::Permissions;
use crate::bot::PermissionSetup;
use crate::commands::CommandSpec;
use crate::text::{append_all, chars_of, replace_all, replace_all_chars, string_of};
use crate::utility::sub_func::{get_perm_list, perm_list_spec};

verus! {

pub fn register(command: &mut CommandSpec)
    ensures
        final(command).name@ == "check_setup"@,
        final(command).description@ == "Shows what setup was configured"@,
        final(command).dm_permission == old(command).dm_permission,
        final(command).options@ == old(command).options@,
{
    command.name = "check_setup".to_string();
    command.description = "Shows what setup was configured".to_string();
}

/// What serenity's `Display` of a permission set writes for the set with the
/// given bits: the names of its permissions, joined by commas and `and`.
pub uninterp spec fn permissions_display_text(bits: u64) -> Seq<char>;

/// The names of the permissions set in `bits`.
///
/// Trusted: `Permissions::from_bits_truncate` and serenity's `Display` of
/// `Permissions`, a computation on the bits alone; the contract names its
/// result and says nothing of what the names are.
#[verifier::external_body]
fn permissions_display(bits: u64) -> (r: String)
    ensures
        r@ == permissions_display_text(bits),
{
    format!("{}", Permissions::from_bits_truncate(bits))
}

/// The bits hold none of the permissions serenity knows (bits 0 to 40).
pub open spec fn no_permission(bits: u64) -> bool {
    bits & 0x1ff_ffff_ffffu64 == 0
}

/// Whether the bits hold none of the known permissions.
///
/// Trusted: `Permissions::from_bits_truncate(bits).is_empty()`. In serenity
/// 0.11.7 the known permissions are bits 0 to 40, `from_bits_truncate` keeps
/// only those, and `is_empty` tests for no bit.
#[verifier::external_body]
fn permissions_empty(bits: u64) -> (r: bool)
    ensures
        r == no_permission(bits),
{
    Permissions::from_bits_truncate(bits).is_empty()
}

/// The line of one kind of recorded permissions.
pub open spec fn setup_line(kind: Seq<char>, bits: u64) -> Seq<char> {
    if no_permission(bits) {
        "**"@ + kind + "**: None\n\n"@
    } else {
        "**"@ + kind + ":** "@ + permissions_display_text(bits) + "\n\n"@
    }
}

/// The four lines of a recorded setup.
pub open spec fn setup_lines(s: PermissionSetup) -> Seq<char> {
    setup_line("public_allow"@, s.public_allow) + setup_line("public_deny"@, s.public_deny)
        + setup_line("private_allow"@, s.private_allow) + setup_line(
        "private_deny"@,
        s.private_deny,
    )
}

/// The kinds of permissions written out in words.
pub open spec fn labelled(t: Seq<char>) -> Seq<char> {
    replace_all(
        replace_all(
            replace_all(
                replace_all(t, "public_allow"@, "Allowed for Public Channel"@),
                "private_allow"@,
                "Allowed for Private Channel"@,
            ),
            "public_deny"@,
            "Denied for Public Channel"@,
        ),
        "private_deny"@,
        "Denied for Private Channel"@,
    )
}

/// Serenity's name of each permission of `list` from index `i` on replaced, in
/// turn, by the name `/setup` shows for it.
pub open spec fn renamed(t: Seq<char>, list: Seq<(Seq<char>, u64)>, i: int) -> Seq<char>
    decreases list.len() - i,
{
    if i < 0 || i >= list.len() {
        t
    } else {
        renamed(replace_all(t, permissions_display_text(list[i].1), list[i].0), list, i + 1)
    }
}

/// The `/check_setup` reply for what a user recorded with `/setup`.
pub open spec fn check_setup_text(saved: Option<PermissionSetup>) -> Seq<char> {
    match saved {
        None => "You have not setup any permissions. Use /setup to do so."@,
        Some(s) => renamed(labelled(setup_lines(s)), perm_list_spec(), 0),
    }
}

fn line_of(kind: &str, bits: u64) -> (r: Vec<char>)
    ensures
        r@ == setup_line(kind@, bits),
{
    let mut out = chars_of("**");
    append_all(&mut out, &chars_of(kind));
    if permissions_empty(bits) {
        append_all(&mut out, &chars_of("**: None\n\n"));
    } else {
        append_all(&mut out, &chars_of(":** "));
        append_all(&mut out, &chars_of(permissions_display(bits).as_str()));
        append_all(&mut out, &chars_of("\n\n"));
    }
    out
}

/// The reply to `/check_setup`: each kind of recorded permission with the
/// permissions in it, or a hint to use `/setup` when nothing is recorded.
pub fn run(saved: Option<PermissionSetup>) -> (r: String)
    ensures
        r@ == check_setup_text(saved),
{
    match saved {
        None => "You have not setup any permissions. Use /setup to do so.".to_string(),
        Some(s) => {
            let mut text = line_of("public_allow", s.public_allow);
            append_all(&mut text, &line_of("public_deny", s.public_deny));
            append_all(&mut text, &line_of("private_allow", s.private_allow));
            append_all(&mut text, &line_of("private_deny", s.private_deny));
            assert(text@ =~= setup_lines(s));
            text = replace_all_chars(&text, &chars_of("public_allow"), &chars_of("Allowed for Public Channel"));
            text = replace_all_chars(&text, &chars_of("private_allow"), &chars_of("Allowed for Private Channel"));
            text = replace_all_chars(&text, &chars_of("public_deny"), &chars_of("Denied for Public Channel"));
            text = replace_all_chars(&text, &chars_of("private_deny"), &chars_of("Denied for Private Channel"));
            let ghost start = text@;
            let list = get_perm_list();
            let ghost ls = perm_list_spec();
            let mut i: usize = 0;
            while i < list.len()
                invariant
                    ls == perm_list_spec(),
                    list@.map_values(|e: (&'static str, u64)| (e.0@, e.1)) == ls,
                    i <= list.len(),
                    renamed(text@, ls, i as int) == renamed(start, ls, 0),
                decreases list.len() - i,
            {
                let (name, bits) = list[i];
                assert(ls[i as int] == (name@, bits));
                let shown = chars_of(permissions_display(bits).as_str());
                text = replace_all_chars(&text, &shown, &chars_of(name));
                i += 1;
            }
            string_of(&text)
        },
    }
}

} // verus!
