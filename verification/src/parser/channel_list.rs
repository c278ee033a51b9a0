//! The first parser of the command text, which turns it directly into channel
//! records.
use vstd::prelude::*;
use crate::text::{
    append_all, chars_eq, chars_of, copy_range, remove_all, remove_all_chars, seqs_of, split,
    split_chars, string_of, strs_of, trim, trim_chars,
};
use crate::parse::parser::{
    flag_cat, flag_ch, flag_p, flag_r, lemma_split_nonempty, make_flag_cat, make_flag_ch,
    make_flag_p, make_flag_r, strings_of,
};
use crate::parser::parser::{
    comma_sep, is_flag4, is_flag4_word, join_until_dash, take_until_dash,
};
use crate::parser::{CategoryInfo, ChannelInfo, LegacyCategoryView, LegacyChannelView};

verus! {

/// The words from index `i` on up to the first flag.
pub open spec fn words_until_flag4(toks: Seq<Seq<char>>, i: int) -> Seq<Seq<char>>
    decreases toks.len() - i,
{
    if i < 0 || i >= toks.len() || is_flag4(toks[i]) {
        seq![]
    } else {
        seq![toks[i]] + words_until_flag4(toks, i + 1)
    }
}

/// Removes every occurrence of each text of `list` from index `k` on, in turn,
/// trimming after each.
pub open spec fn remove_all_each(s: Seq<char>, list: Seq<Seq<char>>, k: int) -> Seq<char>
    decreases list.len() - k,
{
    if k < 0 || k >= list.len() {
        s
    } else {
        remove_all_each(trim(remove_all(s, list[k])), list, k + 1)
    }
}

pub open spec fn default_category() -> LegacyCategoryView {
    LegacyCategoryView { category: "None"@, roles: seq![], private: false }
}

/// One step: the remaining text, the category that new channels get, and the
/// channels so far.
pub open spec fn list_step(input: Seq<char>, w: LegacyCategoryView, out: Seq<LegacyChannelView>) -> (
    Seq<char>,
    LegacyCategoryView,
    Seq<LegacyChannelView>,
) {
    let toks = split(input, seq![' ']);
    let data = toks[0];
    let key = trim(data);
    if key == flag_cat() {
        let input1 = trim(remove_all(input, data));
        let name = trim(join_until_dash(toks, 1));
        (remove_all(input1, name + seq![' ']), LegacyCategoryView { category: name, ..w }, out)
    } else if key == flag_p() {
        (remove_all(input, data + seq![' ']), LegacyCategoryView { private: true, ..w }, out)
    } else if key == flag_r() {
        let input1 = remove_all(input, data + seq![' ']);
        let role_input = trim(join_until_dash(toks, 1));
        let roles = take_until_dash(split(role_input, comma_sep()), 0);
        (trim(remove_all(input1, role_input)), LegacyCategoryView { roles: roles, ..w }, out)
    } else if key == flag_ch() {
        let input1 = remove_all(input, data + seq![' ']);
        let chans = words_until_flag4(toks, 1);
        (
            remove_all_each(input1, chans, 0),
            w,
            out + chans.map_values(
                |c: Seq<char>| LegacyChannelView { category: w, channel: c, roles: None, private: None },
            ),
        )
    } else {
        (input, w, out)
    }
}

/// The parser run for at most `fuel` steps: the channels, when the text was used
/// up within them.
pub open spec fn list_run(
    input: Seq<char>,
    w: LegacyCategoryView,
    out: Seq<LegacyChannelView>,
    fuel: nat,
) -> Option<Seq<LegacyChannelView>>
    decreases fuel,
{
    if fuel == 0 {
        None
    } else if input.len() == 0 {
        Some(out)
    } else {
        let (i2, w2, o2) = list_step(input, w, out);
        list_run(i2, w2, o2, (fuel - 1) as nat)
    }
}

/// The text is used up after finitely many steps (otherwise the parser loops
/// for ever).
pub open spec fn list_terminates(input: Seq<char>) -> bool {
    exists|f: nat| (#[trigger] list_run(input, default_category(), seq![], f)) is Some
}

/// Runs that finish agree, whatever their fuel.
pub proof fn lemma_list_run_unique(
    input: Seq<char>,
    w: LegacyCategoryView,
    out: Seq<LegacyChannelView>,
    f1: nat,
    f2: nat,
)
    requires
        list_run(input, w, out, f1) is Some,
        list_run(input, w, out, f2) is Some,
    ensures
        list_run(input, w, out, f1) == list_run(input, w, out, f2),
    decreases f1,
{
    if input.len() > 0 {
        let (i2, w2, o2) = list_step(input, w, out);
        lemma_list_run_unique(i2, w2, o2, (f1 - 1) as nat, (f2 - 1) as nat);
    }
}

pub open spec fn legacy_views(v: Seq<ChannelInfo>) -> Seq<LegacyChannelView> {
    v.map_values(|c: ChannelInfo| c@)
}

fn channel_words(toks: &Vec<Vec<char>>) -> (r: Vec<Vec<char>>)
    ensures
        seqs_of(r@) == words_until_flag4(seqs_of(toks@), 1),
{
    let ghost t = seqs_of(toks@);
    let mut acc: Vec<Vec<char>> = Vec::new();
    let mut i: usize = 1;
    if toks.len() < 1 {
        assert(seqs_of(acc@) =~= seq![]);
        return acc;
    }
    assert(seqs_of(acc@) + words_until_flag4(t, 1) =~= words_until_flag4(t, 1));
    while i < toks.len()
        invariant
            t == seqs_of(toks@),
            1 <= i <= toks.len(),
            seqs_of(acc@) + words_until_flag4(t, i as int) == words_until_flag4(t, 1),
        ensures
            seqs_of(acc@) == words_until_flag4(t, 1),
        decreases toks.len() - i,
    {
        if is_flag4_word(&toks[i]) {
            assert(seqs_of(acc@) + seq![] =~= seqs_of(acc@));
            break;
        }
        let ghost old_acc = seqs_of(acc@);
        acc.push(copy_range(&toks[i], 0, toks[i].len()));
        assert(toks@[i as int]@.subrange(0, toks@[i as int]@.len() as int) =~= toks@[i as int]@);
        assert(seqs_of(acc@) + words_until_flag4(t, i + 1) =~= old_acc + words_until_flag4(
            t,
            i as int,
        ));
        i += 1;
    }
    acc
}

fn words_until_dash_exec(toks: &Vec<Vec<char>>) -> (r: Vec<char>)
    ensures
        r@ == join_until_dash(seqs_of(toks@), 1),
{
    let ghost t = seqs_of(toks@);
    let mut acc: Vec<char> = Vec::new();
    let mut i: usize = 1;
    if toks.len() < 1 {
        return acc;
    }
    assert(acc@ + join_until_dash(t, 1) =~= join_until_dash(t, 1));
    while i < toks.len()
        invariant
            t == seqs_of(toks@),
            1 <= i <= toks.len(),
            acc@ + join_until_dash(t, i as int) == join_until_dash(t, 1),
        ensures
            acc@ == join_until_dash(t, 1),
        decreases toks.len() - i,
    {
        if toks[i].len() > 0 && toks[i][0] == '-' {
            assert(acc@ + seq![] =~= acc@);
            break;
        }
        let ghost old_acc = acc@;
        append_all(&mut acc, &toks[i]);
        acc.push(' ');
        assert(acc@ + join_until_dash(t, i + 1) =~= old_acc + join_until_dash(t, i as int));
        i += 1;
    }
    acc
}

fn roles_until_dash_exec(list: &Vec<Vec<char>>) -> (r: Vec<String>)
    ensures
        strs_of(r@) == take_until_dash(seqs_of(list@), 0),
{
    let ghost t = seqs_of(list@);
    let mut acc: Vec<Vec<char>> = Vec::new();
    let mut i: usize = 0;
    assert(seqs_of(acc@) + take_until_dash(t, 0) =~= take_until_dash(t, 0));
    while i < list.len()
        invariant
            t == seqs_of(list@),
            i <= list.len(),
            seqs_of(acc@) + take_until_dash(t, i as int) == take_until_dash(t, 0),
        ensures
            seqs_of(acc@) == take_until_dash(t, 0),
        decreases list.len() - i,
    {
        if list[i].len() > 0 && list[i][0] == '-' {
            assert(seqs_of(acc@) + seq![] =~= seqs_of(acc@));
            break;
        }
        let ghost old_acc = seqs_of(acc@);
        acc.push(copy_range(&list[i], 0, list[i].len()));
        assert(list@[i as int]@.subrange(0, list@[i as int]@.len() as int) =~= list@[i as int]@);
        assert(seqs_of(acc@) + take_until_dash(t, i + 1) =~= old_acc + take_until_dash(
            t,
            i as int,
        ));
        i += 1;
    }
    strings_of(&acc)
}

fn with_space(data: &Vec<char>) -> (r: Vec<char>)
    ensures
        r@ == data@ + seq![' '],
{
    let mut pat = copy_range(data, 0, data.len());
    pat.push(' ');
    assert(pat@ =~= data@ + seq![' ']);
    pat
}

fn list_step_exec(
    input: &Vec<char>,
    working: &mut CategoryInfo,
    out: &mut Vec<ChannelInfo>,
) -> (r: Vec<char>)
    ensures
        list_step(input@, old(working)@, legacy_views(old(out)@)) == (
            r@,
            final(working)@,
            legacy_views(final(out)@),
        ),
{
    let toks = split_chars(input, &[' ']);
    assert(seq![' '] =~= (&[' '])@);
    proof {
        lemma_split_nonempty(input@, seq![' ']);
    }
    let data = &toks[0];
    let key = trim_chars(data);
    if chars_eq(&key, &make_flag_cat()) {
        let input1 = trim_chars(&remove_all_chars(input, data));
        let name = trim_chars(&words_until_dash_exec(&toks));
        let rest = remove_all_chars(&input1, &with_space(&name));
        working.update_name(string_of(&name));
        rest
    } else if chars_eq(&key, &make_flag_p()) {
        working.update_private(true);
        remove_all_chars(input, &with_space(data))
    } else if chars_eq(&key, &make_flag_r()) {
        let input1 = remove_all_chars(input, &with_space(data));
        let role_input = trim_chars(&words_until_dash_exec(&toks));
        let pieces = split_chars(&role_input, &[',', ' ']);
        assert(comma_sep() =~= (&[',', ' '])@);
        let roles = roles_until_dash_exec(&pieces);
        let rest = trim_chars(&remove_all_chars(&input1, &role_input));
        working.update_roles(roles);
        rest
    } else if chars_eq(&key, &make_flag_ch()) {
        let mut cur = remove_all_chars(input, &with_space(data));
        let chans = channel_words(&toks);
        let ghost cs = seqs_of(chans@);
        let ghost w = working@;
        let ghost out0 = legacy_views(out@);
        let mut k: usize = 0;
        assert(cs.take(0).map_values(
            |c: Seq<char>| LegacyChannelView { category: w, channel: c, roles: None, private: None },
        ) =~= seq![]);
        assert(legacy_views(out@) =~= out0 + seq![]);
        while k < chans.len()
            invariant
                cs == seqs_of(chans@),
                w == working@,
                k <= chans.len(),
                remove_all_each(cur@, cs, k as int) == remove_all_each(
                    remove_all(input@, data@ + seq![' ']),
                    cs,
                    0,
                ),
                legacy_views(out@) == out0 + cs.take(k as int).map_values(
                    |c: Seq<char>| LegacyChannelView { category: w, channel: c, roles: None, private: None },
                ),
            decreases chans.len() - k,
        {
            cur = trim_chars(&remove_all_chars(&cur, &chans[k]));
            let ghost before = legacy_views(out@);
            out.push(ChannelInfo::new(working.duplicate(), string_of(&chans[k])));
            assert(cs.take(k + 1).map_values(
                |c: Seq<char>| LegacyChannelView { category: w, channel: c, roles: None, private: None },
            ) =~= cs.take(k as int).map_values(
                |c: Seq<char>| LegacyChannelView { category: w, channel: c, roles: None, private: None },
            ).push(LegacyChannelView { category: w, channel: cs[k as int], roles: None, private: None }));
            assert(legacy_views(out@) =~= before.push(
                LegacyChannelView { category: w, channel: cs[k as int], roles: None, private: None },
            ));
            k += 1;
        }
        assert(cs.take(chans.len() as int) =~= cs);
        cur
    } else {
        copy_range(input, 0, input.len())
    }
}

/// Turns a command text directly into channels, each in the category that the
/// `-cat`, `-p` and `-r` before it describe.
///
/// The parser loops for ever on texts it cannot use up; those are left out.
pub fn parse_input(input: String) -> (r: Vec<ChannelInfo>)
    requires
        list_terminates(input@),
    ensures
        forall|f: nat|
            #[trigger] list_run(input@, default_category(), seq![], f) is Some ==> list_run(
                input@,
                default_category(),
                seq![],
                f,
            ) == Some(legacy_views(r@)),
{
    let ghost fuel = choose|f: nat| (#[trigger] list_run(input@, default_category(), seq![], f)) is Some;
    let mut cur = chars_of(input.as_str());
    let mut working = CategoryInfo::default();
    let mut channel_data: Vec<ChannelInfo> = Vec::new();
    let ghost mut k: nat = 0;
    assert(legacy_views(channel_data@) =~= seq![]);
    while cur.len() > 0
        invariant
            k <= fuel,
            list_run(cur@, working@, legacy_views(channel_data@), (fuel - k) as nat) == list_run(
                input@,
                default_category(),
                seq![],
                fuel,
            ),
            list_run(input@, default_category(), seq![], fuel) is Some,
        decreases fuel - k,
    {
        cur = list_step_exec(&cur, &mut working, &mut channel_data);
        proof {
            k = k + 1;
        }
    }
    proof {
        assert forall|f: nat|
            #[trigger] list_run(input@, default_category(), seq![], f) is Some implies list_run(
                input@,
                default_category(),
                seq![],
                f,
            ) == Some(legacy_views(channel_data@)) by {
            lemma_list_run_unique(input@, default_category(), seq![], f, fuel);
        }
    }
    channel_data
}

} // verus!
