//! The map-style flag parser, in which channels are separated by ` | `.
use vstd::prelude::*;
use crate::text::{
    append_all, chars_eq, chars_of, copy_range, join_chars, join_with, remove_all, remove_all_chars, remove_n,
    remove_n_chars, seqs_of, split, split_chars, starts_with_char, string_of, trim, trim_chars,
};
use crate::parse::parser::{
    empty_args, flag_cat, flag_ch, flag_p, flag_r, make_flag_cat, make_flag_ch, make_flag_p,
    make_flag_r, lemma_split_nonempty, strings_of, ArgsView, ParsedArgs,
};

verus! {

/// The words this parser stops at.
pub open spec fn is_flag4(w: Seq<char>) -> bool {
    w == flag_ch() || w == flag_cat() || w == flag_r() || w == flag_p()
}

pub fn is_flag4_word(w: &[char]) -> (r: bool)
    ensures
        r == is_flag4(w@),
{
    chars_eq(w, &make_flag_ch()) || chars_eq(w, &make_flag_cat()) || chars_eq(w, &make_flag_r())
        || chars_eq(w, &make_flag_p())
}

pub open spec fn starts_dash(w: Seq<char>) -> bool {
    w.len() > 0 && w[0] == '-'
}

/// The words from index `i` on, each followed by a space, up to the first word
/// that starts with `-`.
pub open spec fn join_until_dash(toks: Seq<Seq<char>>, i: int) -> Seq<char>
    decreases toks.len() - i,
{
    if i < 0 || i >= toks.len() || starts_dash(toks[i]) {
        seq![]
    } else {
        toks[i] + seq![' '] + join_until_dash(toks, i + 1)
    }
}

/// The words from index `i` on, each followed by a space, up to the first flag.
pub open spec fn join_until_flag4(toks: Seq<Seq<char>>, i: int) -> Seq<char>
    decreases toks.len() - i,
{
    if i < 0 || i >= toks.len() || is_flag4(toks[i]) {
        seq![]
    } else {
        toks[i] + seq![' '] + join_until_flag4(toks, i + 1)
    }
}

/// The texts from index `i` on, up to the first one that starts with `-`.
pub open spec fn take_until_dash(list: Seq<Seq<char>>, i: int) -> Seq<Seq<char>>
    decreases list.len() - i,
{
    if i < 0 || i >= list.len() || starts_dash(list[i]) {
        seq![]
    } else {
        seq![list[i]] + take_until_dash(list, i + 1)
    }
}

/// The first text, from index `i` on, whose first word is a flag.
pub open spec fn first_flagged(list: Seq<Seq<char>>, i: int) -> Option<int>
    decreases list.len() - i,
{
    if i < 0 || i >= list.len() {
        None
    } else if is_flag4(split(list[i], seq![' '])[0]) {
        Some(i)
    } else {
        first_flagged(list, i + 1)
    }
}

/// The texts with the first one whose first word is a flag left out.
pub open spec fn without_first_flagged(list: Seq<Seq<char>>) -> Seq<Seq<char>> {
    match first_flagged(list, 0) {
        Some(i) => list.remove(i),
        None => list,
    }
}

pub open spec fn bar_sep() -> Seq<char> {
    seq![' ', '|', ' ']
}

pub open spec fn comma_sep() -> Seq<char> {
    seq![',', ' ']
}

/// One step of this parser.
pub open spec fn legacy_step(input: Seq<char>, a: ArgsView) -> (Seq<char>, ArgsView) {
    let toks = split(input, seq![' ']);
    let data = toks[0];
    let key = trim(data);
    if key == flag_cat() {
        let input1 = trim(remove_all(input, data));
        let name = trim(join_until_dash(toks, 1));
        (trim(remove_n(input1, name, 1)), ArgsView { category: Some(name), ..a })
    } else if key == flag_p() {
        (trim(remove_n(input, data, 1)), ArgsView { private: true, ..a })
    } else if key == flag_r() {
        let input1 = remove_n(input, data + seq![' '], 1);
        let role_input = trim(join_until_flag4(toks, 1));
        let roles = take_until_dash(split(role_input, comma_sep()), 0);
        (trim(remove_all(input1, role_input)), ArgsView { roles: Some(roles), ..a })
    } else if key == flag_ch() {
        let input1 = remove_n(input, data + seq![' '], 1);
        let chans = without_first_flagged(split(input1, bar_sep()));
        (trim(remove_all(input1, join_with(chans, bar_sep()))), ArgsView { channels: Some(chans), ..a })
    } else {
        (input, a)
    }
}

/// This parser run for at most `fuel` steps: the data when the text was used up.
pub open spec fn legacy_run(input: Seq<char>, a: ArgsView, fuel: nat) -> Option<ArgsView>
    decreases fuel,
{
    if fuel == 0 {
        None
    } else if input.len() == 0 {
        Some(a)
    } else {
        let (i2, a2) = legacy_step(input, a);
        legacy_run(i2, a2, (fuel - 1) as nat)
    }
}

/// What this parser gives for a text: the data, when the text is used up within
/// 99 steps.
pub open spec fn legacy_parse(input: Seq<char>) -> Option<ArgsView> {
    legacy_run(input, empty_args(), 99)
}

fn make_bar_sep() -> (r: Vec<char>)
    ensures
        r@ == bar_sep(),
{
    let r = vec![' ', '|', ' '];
    assert(r@ =~= bar_sep());
    r
}

fn make_comma_sep() -> (r: Vec<char>)
    ensures
        r@ == comma_sep(),
{
    let r = vec![',', ' '];
    assert(r@ =~= comma_sep());
    r
}

fn words_until_dash(toks: &Vec<Vec<char>>) -> (r: Vec<char>)
    ensures
        r@ == join_until_dash(seqs_of(toks@), 1),
{
    let ghost t = seqs_of(toks@);
    let mut acc: Vec<char> = Vec::new();
    let mut i: usize = 1;
    if toks.len() < 1 {
        return acc;
    }
    assert(acc@ + join_until_dash(t, 1) =~= join_until_dash(t, 1));
    while i < toks.len()
        invariant
            t == seqs_of(toks@),
            1 <= i <= toks.len(),
            acc@ + join_until_dash(t, i as int) == join_until_dash(t, 1),
        decreases toks.len() - i,
    {
        if starts_with_char(&toks[i], '-') {
            assert(acc@ + seq![] =~= acc@);
            return acc;
        }
        let ghost old_acc = acc@;
        append_all(&mut acc, &toks[i]);
        acc.push(' ');
        assert(acc@ + join_until_dash(t, i + 1) =~= old_acc + join_until_dash(t, i as int));
        i += 1;
    }
    assert(acc@ + seq![] =~= acc@);
    acc
}

fn words_until_flag4(toks: &Vec<Vec<char>>) -> (r: Vec<char>)
    ensures
        r@ == join_until_flag4(seqs_of(toks@), 1),
{
    let ghost t = seqs_of(toks@);
    let mut acc: Vec<char> = Vec::new();
    let mut i: usize = 1;
    if toks.len() < 1 {
        return acc;
    }
    assert(acc@ + join_until_flag4(t, 1) =~= join_until_flag4(t, 1));
    while i < toks.len()
        invariant
            t == seqs_of(toks@),
            1 <= i <= toks.len(),
            acc@ + join_until_flag4(t, i as int) == join_until_flag4(t, 1),
        decreases toks.len() - i,
    {
        if is_flag4_word(&toks[i]) {
            assert(acc@ + seq![] =~= acc@);
            return acc;
        }
        let ghost old_acc = acc@;
        append_all(&mut acc, &toks[i]);
        acc.push(' ');
        assert(acc@ + join_until_flag4(t, i + 1) =~= old_acc + join_until_flag4(t, i as int));
        i += 1;
    }
    assert(acc@ + seq![] =~= acc@);
    acc
}

fn roles_until_dash(list: &Vec<Vec<char>>) -> (r: Vec<Vec<char>>)
    ensures
        seqs_of(r@) == take_until_dash(seqs_of(list@), 0),
{
    let ghost t = seqs_of(list@);
    let mut acc: Vec<Vec<char>> = Vec::new();
    let mut i: usize = 0;
    assert(seqs_of(acc@) + take_until_dash(t, 0) =~= take_until_dash(t, 0));
    while i < list.len()
        invariant
            t == seqs_of(list@),
            i <= list.len(),
            seqs_of(acc@) + take_until_dash(t, i as int) == take_until_dash(t, 0),
        decreases list.len() - i,
    {
        if starts_with_char(&list[i], '-') {
            assert(seqs_of(acc@) + seq![] =~= seqs_of(acc@));
            return acc;
        }
        let ghost old_acc = seqs_of(acc@);
        acc.push(copy_range(&list[i], 0, list[i].len()));
        assert(list@[i as int]@.subrange(0, list@[i as int]@.len() as int) =~= list@[i as int]@);
        assert(seqs_of(acc@) + take_until_dash(t, i + 1) =~= old_acc + take_until_dash(
            t,
            i as int,
        ));
        i += 1;
    }
    assert(seqs_of(acc@) + seq![] =~= seqs_of(acc@));
    acc
}

fn drop_first_flagged(pieces: Vec<Vec<char>>) -> (r: Vec<Vec<char>>)
    ensures
        seqs_of(r@) == without_first_flagged(seqs_of(pieces@)),
{
    let ghost t = seqs_of(pieces@);
    let mut list = pieces;
    let mut i: usize = 0;
    while i < list.len()
        invariant
            t == seqs_of(list@),
            t == seqs_of(pieces@),
            i <= list.len(),
            first_flagged(t, i as int) == first_flagged(t, 0),
        decreases list.len() - i,
    {
        let words = split_chars(&list[i], &[' ']);
        assert(seq![' '] =~= (&[' '])@);
        proof {
            lemma_split_nonempty(list@[i as int]@, seq![' ']);
        }
        assert(seqs_of(words@)[0] == words@[0]@);
        if is_flag4_word(&words[0]) {
            assert(t[i as int] == list@[i as int]@);
            assert(split(t[i as int], seq![' '])[0] == words@[0]@);
            assert(first_flagged(t, i as int) == Some(i as int));
            list.remove(i);
            assert(seqs_of(list@) =~= t.remove(i as int));
            assert(without_first_flagged(t) == t.remove(i as int));
            return list;
        }
        i += 1;
    }
    list
}

fn join_bar(list: &Vec<Vec<char>>) -> (r: Vec<char>)
    ensures
        r@ == join_with(seqs_of(list@), bar_sep()),
{
    join_chars(list, &make_bar_sep())
}

fn legacy_step_exec(input: &Vec<char>, args: &mut ParsedArgs) -> (r: Vec<char>)
    ensures
        legacy_step(input@, old(args)@) == (r@, final(args)@),
{
    let toks = split_chars(input, &[' ']);
    assert(seq![' '] =~= (&[' '])@);
    proof {
        lemma_split_nonempty(input@, seq![' ']);
    }
    let data = &toks[0];
    let key = trim_chars(data);
    if chars_eq(&key, &make_flag_cat()) {
        let input1 = trim_chars(&remove_all_chars(input, data));
        let name = trim_chars(&words_until_dash(&toks));
        let rest = trim_chars(&remove_n_chars(&input1, &name, 1));
        args.category = Some(string_of(&name));
        rest
    } else if chars_eq(&key, &make_flag_p()) {
        args.private = true;
        trim_chars(&remove_n_chars(input, data, 1))
    } else if chars_eq(&key, &make_flag_r()) {
        let mut pat = copy_range(data, 0, data.len());
        pat.push(' ');
        assert(pat@ =~= data@ + seq![' ']);
        let input1 = remove_n_chars(input, &pat, 1);
        let role_input = trim_chars(&words_until_flag4(&toks));
        let pieces = split_chars(&role_input, &make_comma_sep());
        let roles = roles_until_dash(&pieces);
        let rest = trim_chars(&remove_all_chars(&input1, &role_input));
        args.roles = Some(strings_of(&roles));
        rest
    } else if chars_eq(&key, &make_flag_ch()) {
        let mut pat = copy_range(data, 0, data.len());
        pat.push(' ');
        assert(pat@ =~= data@ + seq![' ']);
        let input1 = remove_n_chars(input, &pat, 1);
        let pieces = split_chars(&input1, &make_bar_sep());
        let chans = drop_first_flagged(pieces);
        let joined = join_bar(&chans);
        let rest = trim_chars(&remove_all_chars(&input1, &joined));
        args.channels = Some(strings_of(&chans));
        rest
    } else {
        copy_range(input, 0, input.len())
    }
}

/// Parses a command text in which channels are separated by ` | `, such as
/// `-cat name -p -r role, role -ch first -r role | second`.
///
/// Returns the data when the text is used up within 99 steps, and an error
/// message otherwise.
pub fn parse_input(input: String) -> (r: Result<ParsedArgs, &'static str>)
    ensures
        match r {
            Ok(a) => legacy_parse(input@) == Some(a@),
            Err(e) => legacy_parse(input@) is None && e@ == "Parse didn't complete properly within 99 loops"@,
        },
{
    let mut cur = chars_of(input.as_str());
    let mut args = ParsedArgs::new();
    let mut k: usize = 0;
    while k < 99
        invariant
            k <= 99,
            legacy_run(cur@, args@, (99 - k) as nat) == legacy_run(input@, empty_args(), 99),
        decreases 99 - k,
    {
        if cur.len() == 0 {
            return Ok(args);
        }
        cur = legacy_step_exec(&cur, &mut args);
        k += 1;
    }
    Err("Parse didn't complete properly within 99 loops")
}

} // verus!
