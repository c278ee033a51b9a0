//! The flag parser: turns `-cat`, `-ch`, `-r`, `-p` and `-t` arguments into
//! collected data.
use vstd::prelude::*;
use crate::text::{
    append_all, byte_len, chars_eq, chars_of, copy_range, is_ws, lower, remove_n, remove_n_chars, seqs_of, split,
    split_chars, string_of, strs_of, to_lowercase_chars, trim, trim_chars, utf8_len,
};

verus! {

pub open spec fn flag_cat() -> Seq<char> {
    seq!['-', 'c', 'a', 't']
}

pub open spec fn flag_ch() -> Seq<char> {
    seq!['-', 'c', 'h']
}

pub open spec fn flag_r() -> Seq<char> {
    seq!['-', 'r']
}

pub open spec fn flag_p() -> Seq<char> {
    seq!['-', 'p']
}

pub open spec fn flag_t() -> Seq<char> {
    seq!['-', 't']
}

/// The words the parser stops at.
pub open spec fn is_flag(w: Seq<char>) -> bool {
    w == flag_ch() || w == flag_cat() || w == flag_r() || w == flag_p() || w == flag_t()
}

pub fn make_flag_cat() -> (r: Vec<char>)
    ensures
        r@ == flag_cat(),
{
    let r = vec!['-', 'c', 'a', 't'];
    assert(r@ =~= flag_cat());
    r
}

pub fn make_flag_ch() -> (r: Vec<char>)
    ensures
        r@ == flag_ch(),
{
    let r = vec!['-', 'c', 'h'];
    assert(r@ =~= flag_ch());
    r
}

pub fn make_flag_r() -> (r: Vec<char>)
    ensures
        r@ == flag_r(),
{
    let r = vec!['-', 'r'];
    assert(r@ =~= flag_r());
    r
}

pub fn make_flag_p() -> (r: Vec<char>)
    ensures
        r@ == flag_p(),
{
    let r = vec!['-', 'p'];
    assert(r@ =~= flag_p());
    r
}

pub fn make_flag_t() -> (r: Vec<char>)
    ensures
        r@ == flag_t(),
{
    let r = vec!['-', 't'];
    assert(r@ =~= flag_t());
    r
}

pub fn is_flag_word(w: &[char]) -> (r: bool)
    ensures
        r == is_flag(w@),
{
    chars_eq(w, &make_flag_ch()) || chars_eq(w, &make_flag_cat()) || chars_eq(w, &make_flag_r())
        || chars_eq(w, &make_flag_p()) || chars_eq(w, &make_flag_t())
}

/// The data collected from a command text, under the keys `category`,
/// `private`, `roles`, `channels` and `channel_type`.
pub struct ArgsView {
    pub category: Option<Seq<char>>,
    pub private: bool,
    pub roles: Option<Seq<Seq<char>>>,
    pub channels: Option<Seq<Seq<char>>>,
    pub channel_type: Option<Seq<char>>,
}

pub open spec fn empty_args() -> ArgsView {
    ArgsView { category: None, private: false, roles: None, channels: None, channel_type: None }
}

/// The data collected by `parse_input`. Each field stands for one key of the
/// map that the parser fills: `category`, `private` (present as `["true"]`),
/// `roles`, `channels` and `channel_type`.
pub struct ParsedArgs {
    pub category: Option<String>,
    pub private: bool,
    pub roles: Option<Vec<String>>,
    pub channels: Option<Vec<String>>,
    pub channel_type: Option<String>,
}

pub open spec fn opt_str(o: Option<String>) -> Option<Seq<char>> {
    match o {
        Some(s) => Some(s@),
        None => None,
    }
}

pub open spec fn opt_strs(o: Option<Vec<String>>) -> Option<Seq<Seq<char>>> {
    match o {
        Some(v) => Some(strs_of(v@)),
        None => None,
    }
}

impl View for ParsedArgs {
    type V = ArgsView;

    open spec fn view(&self) -> ArgsView {
        ArgsView {
            category: opt_str(self.category),
            private: self.private,
            roles: opt_strs(self.roles),
            channels: opt_strs(self.channels),
            channel_type: opt_str(self.channel_type),
        }
    }
}

impl ParsedArgs {
    /// No data collected yet.
    pub fn new() -> (r: ParsedArgs)
        ensures
            r@ == empty_args(),
    {
        ParsedArgs { category: None, private: false, roles: None, channels: None, channel_type: None }
    }
}

/// The words from index `i` on, each followed by a space, up to the first flag.
pub open spec fn join_until_flag(toks: Seq<Seq<char>>, i: int) -> Seq<char>
    decreases toks.len() - i,
{
    if i < 0 || i >= toks.len() || is_flag(toks[i]) {
        seq![]
    } else {
        toks[i] + seq![' '] + join_until_flag(toks, i + 1)
    }
}

/// The scan of the words after `-ch`: a new channel starts at each `-ch`, and
/// the scan stops at `-cat`. Returns the finished channels, the channel being
/// collected and the number of `-ch` met.
pub open spec fn ch_scan(
    words: Seq<Seq<char>>,
    i: int,
    coll: Seq<Seq<char>>,
    cur: Seq<char>,
    cnt: nat,
) -> (Seq<Seq<char>>, Seq<char>, nat)
    decreases words.len() - i,
{
    if i < 0 || i >= words.len() || words[i] == flag_cat() {
        (coll, cur, cnt)
    } else if words[i] == flag_ch() {
        ch_scan(words, i + 1, coll.push(trim(cur)), seq![], cnt + 1)
    } else {
        ch_scan(words, i + 1, coll, cur + words[i] + seq![' '], cnt)
    }
}

/// The channel texts that follow `-ch` in `input`, and the number of further
/// `-ch` flags among them.
pub open spec fn channel_texts(input: Seq<char>) -> (Seq<Seq<char>>, nat) {
    let (coll, cur, cnt) = ch_scan(split(input, seq![' ']), 0, seq![], seq![], 0);
    (if cur.len() > 0 { coll.push(trim(cur)) } else { coll }, cnt)
}

/// Removes, in turn, the first occurrence of each text of `list` from index `k` on,
/// trimming after each removal.
pub open spec fn remove_each(s: Seq<char>, list: Seq<Seq<char>>, k: int) -> Seq<char>
    decreases list.len() - k,
{
    if k < 0 || k >= list.len() {
        s
    } else {
        remove_each(trim(remove_n(s, list[k], 1)), list, k + 1)
    }
}

/// One step of the parser on the remaining text: the new remaining text and the
/// new data, or `None` where the parser panics (a `-t` with nothing after it).
pub open spec fn step(input: Seq<char>, a: ArgsView) -> Option<(Seq<char>, ArgsView)> {
    let toks = split(input, seq![' ']);
    let data = toks[0];
    let key = trim(data);
    let input1 = trim(remove_n(input, data, 1));
    if key == flag_cat() {
        let name = trim(join_until_flag(toks, 1));
        Some((trim(remove_n(input1, name, 1)), ArgsView { category: Some(name), ..a }))
    } else if key == flag_p() {
        Some((input1, ArgsView { private: true, ..a }))
    } else if key == flag_r() {
        let role_input = trim(join_until_flag(toks, 1));
        let roles = split(role_input, seq![',']).map_values(|r: Seq<char>| trim(r));
        Some((trim(remove_n(input1, role_input, 1)), ArgsView { roles: Some(roles), ..a }))
    } else if key == flag_ch() {
        let (chans, cnt) = channel_texts(input1);
        let input2 = remove_each(input1, chans, 0);
        Some((trim(remove_n(input2, flag_ch(), cnt)), ArgsView { channels: Some(chans), ..a }))
    } else if key == flag_t() {
        if toks.len() < 2 {
            None
        } else {
            let ty = trim(toks[1]);
            Some(
                (
                    trim(remove_n(input1, ty, 1)),
                    ArgsView { channel_type: Some(lower(ty)), ..a },
                ),
            )
        }
    } else {
        Some((input, a))
    }
}

/// The parser run for at most `fuel` steps: `Some((true, data))` when the text
/// was used up, `Some((false, data))` when the steps ran out first, `None` when a
/// step panics.
pub open spec fn run(input: Seq<char>, a: ArgsView, fuel: nat) -> Option<(bool, ArgsView)>
    decreases fuel,
{
    if fuel == 0 {
        Some((false, a))
    } else if input.len() == 0 {
        Some((true, a))
    } else {
        match step(input, a) {
            None => None,
            Some((i2, a2)) => run(i2, a2, (fuel - 1) as nat),
        }
    }
}

/// What `parse_input` gives for a text: `Ok` with the data when the text was
/// used up within as many steps as it has bytes, otherwise `Err` with the data
/// collected so far; `None` where the parser panics.
pub open spec fn parse_spec(input: Seq<char>) -> Option<Result<ArgsView, ArgsView>> {
    match run(input, empty_args(), utf8_len(input)) {
        None => None,
        Some((true, a)) => Some(Ok(a)),
        Some((false, a)) => Some(Err(a)),
    }
}

pub proof fn lemma_split_nonempty(s: Seq<char>, p: Seq<char>)
    ensures
        split(s, p).len() >= 1,
{
}

/// Converts character vectors into strings.
pub fn strings_of(v: &Vec<Vec<char>>) -> (r: Vec<String>)
    ensures
        strs_of(r@) == seqs_of(v@),
{
    let mut out: Vec<String> = Vec::new();
    let mut i: usize = 0;
    while i < v.len()
        invariant
            i <= v.len(),
            out.len() == i,
            forall|k: int| 0 <= k < i ==> (#[trigger] out@[k])@ == v@[k]@,
        decreases v.len() - i,
    {
        let s = string_of(&v[i]);
        out.push(s);
        i += 1;
    }
    assert(strs_of(out@) =~= seqs_of(v@));
    out
}

/// The words from index 1 on, each followed by a space, up to the first flag.
fn words_until_flag(toks: &Vec<Vec<char>>) -> (r: Vec<char>)
    ensures
        r@ == join_until_flag(seqs_of(toks@), 1),
{
    let ghost t = seqs_of(toks@);
    let mut acc: Vec<char> = Vec::new();
    let mut i: usize = 1;
    if toks.len() < 1 {
        return acc;
    }
    assert(acc@ + join_until_flag(t, 1) =~= join_until_flag(t, 1));
    while i < toks.len()
        invariant
            t == seqs_of(toks@),
            1 <= i <= toks.len(),
            acc@ + join_until_flag(t, i as int) == join_until_flag(t, 1),
        decreases toks.len() - i,
    {
        if is_flag_word(&toks[i]) {
            assert(acc@ + seq![] =~= acc@);
            return acc;
        }
        let ghost old_acc = acc@;
        append_all(&mut acc, &toks[i]);
        acc.push(' ');
        assert(acc@ + join_until_flag(t, i + 1) =~= old_acc + join_until_flag(t, i as int));
        i += 1;
    }
    assert(acc@ + seq![] =~= acc@);
    acc
}

/// Trims each text.
fn trim_each(v: &Vec<Vec<char>>) -> (r: Vec<Vec<char>>)
    ensures
        seqs_of(r@) == seqs_of(v@).map_values(|x: Seq<char>| trim(x)),
{
    let mut out: Vec<Vec<char>> = Vec::new();
    let mut i: usize = 0;
    while i < v.len()
        invariant
            i <= v.len(),
            out.len() == i,
            forall|k: int| 0 <= k < i ==> (#[trigger] out@[k])@ == trim(v@[k]@),
        decreases v.len() - i,
    {
        let t = trim_chars(&v[i]);
        out.push(t);
        i += 1;
    }
    assert(seqs_of(out@) =~= seqs_of(v@).map_values(|x: Seq<char>| trim(x)));
    out
}

/// The `-ch` scan on exec data.
fn scan_channels(input1: &Vec<char>) -> (r: (Vec<Vec<char>>, usize))
    ensures
        channel_texts(input1@) == (seqs_of(r.0@), r.1 as nat),
{
    let words = split_chars(input1, &[' ']);
    assert(seq![' '] =~= (&[' '])@);
    let ghost w = seqs_of(words@);
    let mut coll: Vec<Vec<char>> = Vec::new();
    let mut cur: Vec<char> = Vec::new();
    let mut cnt: usize = 0;
    let mut i: usize = 0;
    assert(seqs_of(coll@) =~= seq![]);
    assert(cur@ =~= seq![]);
    while i < words.len()
        invariant
            w == seqs_of(words@),
            w == split(input1@, seq![' ']),
            i <= words.len(),
            cnt <= i,
            ch_scan(w, i as int, seqs_of(coll@), cur@, cnt as nat) == ch_scan(
                w,
                0,
                seq![],
                seq![],
                0,
            ),
        ensures
            ch_scan(w, 0, seq![], seq![], 0) == (seqs_of(coll@), cur@, cnt as nat),
        decreases words.len() - i,
    {
        if chars_eq(&words[i], &make_flag_cat()) {
            break;
        }
        if chars_eq(&words[i], &make_flag_ch()) {
            let t = trim_chars(&cur);
            let ghost old_coll = seqs_of(coll@);
            coll.push(t);
            assert(seqs_of(coll@) =~= old_coll.push(trim(cur@)));
            cur = Vec::new();
            assert(cur@ =~= seq![]);
            cnt += 1;
        } else {
            let ghost old_cur = cur@;
            append_all(&mut cur, &words[i]);
            cur.push(' ');
            assert(cur@ =~= old_cur + w[i as int] + seq![' ']);
        }
        i += 1;
    }
    if cur.len() > 0 {
        let t = trim_chars(&cur);
        let ghost old_coll = seqs_of(coll@);
        coll.push(t);
        assert(seqs_of(coll@) =~= old_coll.push(trim(cur@)));
    }
    (coll, cnt)
}

/// Removes each channel text in turn.
fn remove_each_chars(s: Vec<char>, list: &Vec<Vec<char>>) -> (r: Vec<char>)
    ensures
        r@ == remove_each(s@, seqs_of(list@), 0),
{
    let ghost l = seqs_of(list@);
    let mut cur = s;
    let mut k: usize = 0;
    while k < list.len()
        invariant
            l == seqs_of(list@),
            k <= list.len(),
            remove_each(cur@, l, k as int) == remove_each(s@, l, 0),
        decreases list.len() - k,
    {
        let removed = remove_n_chars(&cur, &list[k], 1);
        cur = trim_chars(&removed);
        k += 1;
    }
    cur
}

/// One parser step on exec data; `None` where the parser panics.
fn parse_step(input: &Vec<char>, args: &mut ParsedArgs) -> (r: Option<Vec<char>>)
    ensures
        step(input@, old(args)@) == (match r {
            None => None,
            Some(v) => Some((v@, final(args)@)),
        }),
{
    let toks = split_chars(input, &[' ']);
    assert(seq![' '] =~= (&[' '])@);
    proof {
        lemma_split_nonempty(input@, seq![' ']);
    }
    let ghost t = seqs_of(toks@);
    let data = &toks[0];
    let key = trim_chars(data);
    let removed = remove_n_chars(input, data, 1);
    let input1 = trim_chars(&removed);
    if chars_eq(&key, &make_flag_cat()) {
        let name = trim_chars(&words_until_flag(&toks));
        let rest = trim_chars(&remove_n_chars(&input1, &name, 1));
        args.category = Some(string_of(&name));
        Some(rest)
    } else if chars_eq(&key, &make_flag_p()) {
        args.private = true;
        Some(input1)
    } else if chars_eq(&key, &make_flag_r()) {
        let role_input = trim_chars(&words_until_flag(&toks));
        let pieces = split_chars(&role_input, &[',']);
        assert(seq![','] =~= (&[','])@);
        let roles = trim_each(&pieces);
        let rest = trim_chars(&remove_n_chars(&input1, &role_input, 1));
        args.roles = Some(strings_of(&roles));
        Some(rest)
    } else if chars_eq(&key, &make_flag_ch()) {
        let (chans, cnt) = scan_channels(&input1);
        let input2 = remove_each_chars(input1, &chans);
        let rest = trim_chars(&remove_n_chars(&input2, &make_flag_ch(), cnt));
        args.channels = Some(strings_of(&chans));
        Some(rest)
    } else if chars_eq(&key, &make_flag_t()) {
        if toks.len() < 2 {
            None
        } else {
            let ty = trim_chars(&toks[1]);
            let rest = trim_chars(&remove_n_chars(&input1, &ty, 1));
            args.channel_type = Some(string_of(&to_lowercase_chars(&ty)));
            Some(rest)
        }
    } else {
        Some(copy_range(input, 0, input.len()))
    }
}

/// The view of a parse result.
pub open spec fn result_view(r: Result<ParsedArgs, ParsedArgs>) -> Result<ArgsView, ArgsView> {
    match r {
        Ok(a) => Ok(a@),
        Err(a) => Err(a@),
    }
}

/// Parses a command text, or returns `None` on the texts on which
/// `parse_input` panics (a `-t` that becomes the last word).
pub fn try_parse_input(input: &String) -> (r: Option<Result<ParsedArgs, ParsedArgs>>)
    ensures
        parse_spec(input@) == (match r {
            None => None,
            Some(res) => Some(result_view(res)),
        }),
{
    let n = byte_len(input.as_str());
    let mut cur = chars_of(input.as_str());
    let mut args = ParsedArgs::new();
    let mut k: usize = 0;
    while k < n
        invariant
            n == utf8_len(input@),
            k <= n,
            run(cur@, args@, (n - k) as nat) == run(input@, empty_args(), n as nat),
        decreases n - k,
    {
        if cur.len() == 0 {
            return Some(Ok(args));
        }
        match parse_step(&cur, &mut args) {
            None => {
                return None;
            },
            Some(next) => {
                cur = next;
            },
        }
        k += 1;
    }
    Some(Err(args))
}

/// Parses a command text such as `-cat name -p -r role, role -ch channel -t voice`.
///
/// Each flag is read from the front of the text and removed from it; the text is
/// parsed successfully (`Ok`) when it is used up within as many steps as it has
/// bytes. Otherwise the data collected so far is returned as `Err`.
pub fn parse_input(input: String) -> (r: Result<ParsedArgs, ParsedArgs>)
    requires
        parse_spec(input@) is Some,
    ensures
        parse_spec(input@) == Some(result_view(r)),
{
    match try_parse_input(&input) {
        Some(res) => res,
        None => {
            proof {
                assert(false);
            }
            Err(ParsedArgs::new())
        },
    }
}

} // verus!
