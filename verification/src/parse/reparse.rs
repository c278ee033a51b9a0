//! Channels written back as a command text (`text_from_channels`, used by
//! `/copy`) parse back into the same channels (`parse_to_channel`, used by
//! `/create`).
use vstd::prelude::*;
use crate::text::{
    find_from, is_ws, lower, is_ascii_text, ascii_lower, match_at, remove_n, replace_char, split, trim,
    join_with, utf8_len,
};
use crate::text_facts::{
    all_ws, is_part, lemma_find_first, lemma_find_none, lemma_match_char,
    lemma_remove_at, lemma_remove_n_empty,
    lemma_remove_prefix, lemma_replace_absent, lemma_split_concat, lemma_split_none,
    lemma_trim_all_ws, lemma_trim_pad, lemma_trim_solid, solid_ends,
};
use crate::bot::channel_data::{
    ann_word, kind_of, voice_word, CategoryView, ChannelKind, ChannelView,
};
use crate::parse::parser::{
    channel_texts, ch_scan, empty_args, flag_cat, flag_ch, flag_p, flag_r, flag_t, is_flag,
    join_until_flag, parse_spec, remove_each, run, step, ArgsView,
};
use crate::parse::parse_to_channel::{
    base_category, cat_sep, starts_bar, channel_name, channel_rest, channel_spec,
    channels_spec, name_unparsed, name_words, parse_to_channel_spec, prepared, sections_spec,
};
use crate::parse::text_from_channels::{
    category_names, ch_entry, entries_in, entries_without_category, groups_text,
    text_from_channels_spec,
};

verus! {

/// A single space.
pub open spec fn sp() -> Seq<char> {
    seq![' ']
}

/// ` -t ann`, ` -t voice` or nothing, after a channel name.
pub open spec fn kind_suffix(k: ChannelKind) -> Seq<char> {
    match k {
        ChannelKind::News => seq![' ', '-', 't', ' ', 'a', 'n', 'n'],
        ChannelKind::Voice => seq![' ', '-', 't', ' ', 'v', 'o', 'i', 'c', 'e'],
        ChannelKind::Text => seq![],
    }
}

/// ` -p` or nothing, after the kind.
pub open spec fn private_suffix(p: Option<bool>) -> Seq<char> {
    if p == Some(true) {
        seq![' ', '-', 'p']
    } else {
        seq![]
    }
}

/// The flags written after a channel's name.
pub open spec fn suffix(c: ChannelView) -> Seq<char> {
    kind_suffix(c.channel_type) + private_suffix(c.private)
}

/// What follows `-ch ` for a channel in the written text.
pub open spec fn body(c: ChannelView) -> Seq<char> {
    c.channel + suffix(c)
}

/// The text ends with `-cat`.
pub open spec fn ends_cat(s: Seq<char>) -> bool {
    s.len() >= 4 && s.subrange(s.len() - 4, s.len() as int) == seq!['-', 'c', 'a', 't']
}

/// A channel name that reads back as itself: not empty, without spaces or line
/// breaks, without whitespace at either end, not a flag, not starting with `|`,
/// not ending with `-cat`, and not part of `-ch`.
pub open spec fn plain_channel(c: ChannelView) -> bool {
    &&& c.channel.len() > 0
    &&& solid_ends(c.channel)
    &&& !c.channel.contains(' ')
    &&& !c.channel.contains('\n')
    &&& !is_flag(c.channel)
    &&& c.channel[0] != '|'
    &&& !ends_cat(c.channel)
    &&& !is_part(c.channel, seq!['-', 'c', 'h'])
}

/// What parsing gives back for a channel: its name, kind and privacy, and the
/// name of its category; roles, and the category's roles and privacy, are not
/// written.
pub open spec fn reparsed(c: ChannelView) -> ChannelView {
    ChannelView {
        category: match c.category {
            Some(k) => Some(CategoryView { category: k.category, roles: None, private: false }),
            None => None,
        },
        channel: c.channel,
        roles: None,
        channel_type: c.channel_type,
        private: if c.private == Some(true) {
            Some(true)
        } else {
            None
        },
    }
}

/// The written channels from index `k` on, after the first `-ch `.
pub open spec fn tail_text(chs: Seq<ChannelView>, k: int) -> Seq<char>
    decreases chs.len() - k,
{
    if k < 0 || k >= chs.len() {
        seq![]
    } else if k == chs.len() - 1 {
        body(chs[k])
    } else {
        body(chs[k]) + seq![' ', '-', 'c', 'h', ' '] + tail_text(chs, k + 1)
    }
}

/// A channel's entry is `-ch ` and its body.
proof fn lemma_ch_entry(c: ChannelView)
    ensures
        ch_entry(c) == seq!['-', 'c', 'h', ' '] + body(c),
{
    reveal_strlit("-ch ");
    reveal_strlit(" -t ann");
    reveal_strlit(" -t voice");
    reveal_strlit(" -p");
    assert("-ch "@ =~= seq!['-', 'c', 'h', ' ']);
    assert(" -t ann"@ =~= seq![' ', '-', 't', ' ', 'a', 'n', 'n']);
    assert(" -t voice"@ =~= seq![' ', '-', 't', ' ', 'v', 'o', 'i', 'c', 'e']);
    assert(" -p"@ =~= seq![' ', '-', 'p']);
    let k = match c.channel_type {
        ChannelKind::News => " -t ann"@,
        ChannelKind::Voice => " -t voice"@,
        ChannelKind::Text => seq![],
    };
    let p = if c.private == Some(true) {
        " -p"@
    } else {
        seq![]
    };
    assert(k == kind_suffix(c.channel_type));
    assert(p == private_suffix(c.private));
    assert(ch_entry(c) =~= seq!['-', 'c', 'h', ' '] + body(c));
}

proof fn lemma_join_cons(x: Seq<char>, l: Seq<Seq<char>>, sep: Seq<char>)
    requires
        l.len() >= 1,
    ensures
        join_with(seq![x] + l, sep) == x + sep + join_with(l, sep),
    decreases l.len(),
{
    let xl = seq![x] + l;
    if l.len() == 1 {
        assert(xl.drop_last() =~= seq![x]);
        assert(join_with(seq![x], sep) == x);
        assert(join_with(l, sep) == l[0]);
        assert(join_with(xl, sep) == join_with(xl.drop_last(), sep) + sep + xl.last());
    } else {
        assert(xl.drop_last() =~= seq![x] + l.drop_last());
        lemma_join_cons(x, l.drop_last(), sep);
        assert(xl.last() == l.last());
        assert(join_with(xl, sep) == join_with(xl.drop_last(), sep) + sep + xl.last());
        assert(join_with(l, sep) == join_with(l.drop_last(), sep) + sep + l.last());
        assert(x + sep + join_with(l.drop_last(), sep) + sep + l.last() =~= x + sep + (join_with(
            l.drop_last(),
            sep,
        ) + sep + l.last()));
    }
}

/// The written channels, joined by spaces, are `-ch ` and the tail text.
proof fn lemma_join_entries(chs: Seq<ChannelView>, k: int)
    requires
        0 <= k < chs.len(),
    ensures
        join_with(chs.map_values(|c: ChannelView| ch_entry(c)).subrange(k, chs.len() as int), sp())
            == seq!['-', 'c', 'h', ' '] + tail_text(chs, k),
    decreases chs.len() - k,
{
    let es = chs.map_values(|c: ChannelView| ch_entry(c));
    let l = es.subrange(k, chs.len() as int);
    lemma_ch_entry(chs[k]);
    if k == chs.len() - 1 {
        assert(l.len() == 1);
        assert(join_with(l, sp()) == l[0]);
    } else {
        lemma_join_entries(chs, k + 1);
        assert(l =~= seq![es[k]] + es.subrange(k + 1, chs.len() as int));
        lemma_join_cons(es[k], es.subrange(k + 1, chs.len() as int), sp());
        assert(seq!['-', 'c', 'h', ' '] + body(chs[k]) + sp() + (seq!['-', 'c', 'h', ' ']
            + tail_text(chs, k + 1)) =~= seq!['-', 'c', 'h', ' '] + tail_text(chs, k));
    }
}

/// `-cat ` does not occur in `s`.
pub open spec fn no_cat(s: Seq<char>) -> bool {
    forall|j: int|
        0 <= j && j + 4 < s.len() ==> !(#[trigger] s[j] == '-' && s[j + 1] == 'c' && s[j + 2]
            == 'a' && s[j + 3] == 't' && s[j + 4] == ' ')
}

proof fn lemma_no_cat_concat(a: Seq<char>, b: Seq<char>)
    requires
        no_cat(a),
        no_cat(b),
        a.len() == 0 || b.len() == 0 || a.last() == ' ' || (b[0] == ' ' && !ends_cat(a)),
    ensures
        no_cat(a + b),
{
    let s = a + b;
    let n = a.len() as int;
    assert forall|j: int| 0 <= j && j + 4 < s.len() implies !(#[trigger] s[j] == '-' && s[j + 1]
        == 'c' && s[j + 2] == 'a' && s[j + 3] == 't' && s[j + 4] == ' ') by {
        if j + 4 < n {
            assert(s[j] == a[j] && s[j + 1] == a[j + 1] && s[j + 2] == a[j + 2] && s[j + 3] == a[j
                + 3] && s[j + 4] == a[j + 4]);
        } else if j >= n {
            assert(s[j] == b[j - n] && s[j + 1] == b[j + 1 - n] && s[j + 2] == b[j + 2 - n] && s[j
                + 3] == b[j + 3 - n] && s[j + 4] == b[j + 4 - n]);
        } else if a.last() == ' ' {
            assert(s[n - 1] == ' ');
        } else {
            assert(s[n] == ' ');
            if j + 4 == n && s[j] == '-' && s[j + 1] == 'c' && s[j + 2] == 'a' && s[j + 3] == 't' {
                assert(a.subrange(n - 4, n) =~= seq!['-', 'c', 'a', 't']);
            }
        }
    }
}

/// A text without spaces holds no `-cat `.
proof fn lemma_no_cat_spaceless(s: Seq<char>)
    requires
        !s.contains(' '),
    ensures
        no_cat(s),
{
    assert forall|j: int| 0 <= j && j + 4 < s.len() implies !(#[trigger] s[j] == '-' && s[j + 1]
        == 'c' && s[j + 2] == 'a' && s[j + 3] == 't' && s[j + 4] == ' ') by {
        if s[j + 4] == ' ' {
            assert(s.contains(' '));
        }
    }
}

proof fn lemma_no_char_concat(a: Seq<char>, b: Seq<char>, c: char)
    requires
        !a.contains(c),
        !b.contains(c),
    ensures
        !(a + b).contains(c),
{
    if (a + b).contains(c) {
        let k = choose|k: int| 0 <= k < (a + b).len() && (a + b)[k] == c;
        if k < a.len() {
            assert(a[k] == c);
        } else {
            assert(b[k - a.len()] == c);
        }
    }
}

/// What the written body of a plain channel is made of.
proof fn lemma_body_facts(c: ChannelView)
    requires
        plain_channel(c),
    ensures
        body(c).len() > 0,
        body(c)[0] == c.channel[0],
        solid_ends(body(c)),
        !body(c).contains('\n'),
        no_cat(body(c)),
        !ends_cat(body(c)),
        suffix(c).len() == 0 || suffix(c)[0] == ' ',
{
    let n = c.channel;
    let x = suffix(c);
    let b = body(c);
    assert(b[0] == n[0]);
    assert(x.len() == 0 || !is_ws(x.last()));
    if x.len() == 0 {
        assert(b =~= n);
    } else {
        assert(b.last() == x.last());
        let m = b.len() as int;
        assert(b[m - 3] == x[x.len() - 3] && b[m - 2] == x[x.len() - 2]);
        assert(x[x.len() - 3] != 'c' || x[x.len() - 2] != 'a');
        if ends_cat(b) {
            assert(b.subrange(m - 4, m)[1] == b[m - 3]);
            assert(b.subrange(m - 4, m)[2] == b[m - 2]);
        }
    }
    assert(!x.contains('\n'));
    lemma_no_char_concat(n, x, '\n');
    lemma_no_cat_spaceless(n);
    assert(no_cat(x));
    lemma_no_cat_concat(n, x);
}

/// What the tail text of plain channels is made of.
proof fn lemma_tail_facts(chs: Seq<ChannelView>, k: int)
    requires
        0 <= k < chs.len(),
        forall|i: int| 0 <= i < chs.len() ==> plain_channel(#[trigger] chs[i]),
    ensures
        tail_text(chs, k).len() > 0,
        tail_text(chs, k)[0] == chs[k].channel[0],
        solid_ends(tail_text(chs, k)),
        !tail_text(chs, k).contains('\n'),
        no_cat(tail_text(chs, k)),
    decreases chs.len() - k,
{
    let t = tail_text(chs, k);
    let b = body(chs[k]);
    lemma_body_facts(chs[k]);
    if k < chs.len() - 1 {
        lemma_tail_facts(chs, k + 1);
        let sep = seq![' ', '-', 'c', 'h', ' '];
        let r = tail_text(chs, k + 1);
        assert(!sep.contains('\n'));
        lemma_no_char_concat(b, sep, '\n');
        lemma_no_char_concat(b + sep, r, '\n');
        assert(no_cat(sep));
        lemma_no_cat_concat(b, sep);
        lemma_no_cat_concat(b + sep, r);
        assert(t == b + sep + r);
        assert(t[0] == b[0]);
        assert(t.last() == r.last());
    }
}

/// The words of a channel's written suffix.
pub open spec fn suffix_words(c: ChannelView) -> Seq<Seq<char>> {
    (match c.channel_type {
        ChannelKind::News => seq![seq!['-', 't'], seq!['a', 'n', 'n']],
        ChannelKind::Voice => seq![seq!['-', 't'], seq!['v', 'o', 'i', 'c', 'e']],
        ChannelKind::Text => seq![],
    }) + (if c.private == Some(true) {
        seq![seq!['-', 'p']]
    } else {
        seq![]
    })
}

/// Each word followed by a space.
pub open spec fn join_sp(l: Seq<Seq<char>>) -> Seq<char>
    decreases l.len(),
{
    if l.len() == 0 {
        seq![]
    } else {
        l[0] + seq![' '] + join_sp(l.drop_first())
    }
}

pub(crate) proof fn lemma_join_sp_cons(x: Seq<char>, l: Seq<Seq<char>>)
    ensures
        join_sp(seq![x] + l) == x + seq![' '] + join_sp(l),
{
    assert((seq![x] + l).drop_first() =~= l);
}

/// The words of a written body.
#[verifier::spinoff_prover]
proof fn lemma_body_words(c: ChannelView)
    requires
        plain_channel(c),
    ensures
        split(body(c), sp()) == seq![c.channel] + suffix_words(c),
        join_sp(seq![c.channel] + suffix_words(c)) == body(c) + sp(),
        forall|t: int|
            0 <= t < (seq![c.channel] + suffix_words(c)).len() ==> (#[trigger] (seq![c.channel]
                + suffix_words(c))[t]) != flag_ch() && (seq![c.channel] + suffix_words(c))[t]
                != flag_cat(),
{
    let n = c.channel;
    let t1 = seq!['-', 't'];
    let p1 = seq!['-', 'p'];
    let ann = seq!['a', 'n', 'n'];
    let voice = seq!['v', 'o', 'i', 'c', 'e'];
    assert(!t1.contains(' ') && !p1.contains(' ') && !ann.contains(' ') && !voice.contains(' '));
    lemma_split_none(n, ' ');
    lemma_split_none(t1, ' ');
    lemma_split_none(p1, ' ');
    lemma_split_none(ann, ' ');
    lemma_split_none(voice, ' ');
    let w = seq![n] + suffix_words(c);
    let priv_ = c.private == Some(true);
    match c.channel_type {
        ChannelKind::Text => {
            if priv_ {
                assert(body(c) =~= n + seq![' '] + p1);
                lemma_split_concat(n, ' ', p1);
                assert(w =~= seq![n, p1]);
                lemma_join_sp_cons(n, seq![p1]);
                lemma_join_sp_cons(p1, seq![]);
                assert(seq![p1] =~= seq![p1] + Seq::<Seq<char>>::empty());
            } else {
                assert(body(c) =~= n);
                assert(w =~= seq![n]);
                lemma_join_sp_cons(n, seq![]);
                assert(seq![n] =~= seq![n] + Seq::<Seq<char>>::empty());
            }
        },
        ChannelKind::News => {
            lemma_split_concat(t1, ' ', ann);
            if priv_ {
                assert(body(c) =~= n + seq![' '] + (t1 + seq![' '] + (ann + seq![' '] + p1)));
                lemma_split_concat(ann, ' ', p1);
                lemma_split_concat(t1, ' ', ann + seq![' '] + p1);
                lemma_split_concat(n, ' ', t1 + seq![' '] + (ann + seq![' '] + p1));
                assert(w =~= seq![n, t1, ann, p1]);
                lemma_join_sp_cons(n, seq![t1, ann, p1]);
                lemma_join_sp_cons(t1, seq![ann, p1]);
                lemma_join_sp_cons(ann, seq![p1]);
                lemma_join_sp_cons(p1, seq![]);
                assert(seq![t1, ann, p1] =~= seq![t1] + seq![ann, p1]);
                assert(seq![ann, p1] =~= seq![ann] + seq![p1]);
                assert(seq![p1] =~= seq![p1] + Seq::<Seq<char>>::empty());
                assert(seq![n, t1, ann, p1] =~= seq![n] + seq![t1, ann, p1]);
            } else {
                assert(body(c) =~= n + seq![' '] + (t1 + seq![' '] + ann));
                lemma_split_concat(n, ' ', t1 + seq![' '] + ann);
                assert(w =~= seq![n, t1, ann]);
                lemma_join_sp_cons(n, seq![t1, ann]);
                lemma_join_sp_cons(t1, seq![ann]);
                lemma_join_sp_cons(ann, seq![]);
                assert(seq![t1, ann] =~= seq![t1] + seq![ann]);
                assert(seq![ann] =~= seq![ann] + Seq::<Seq<char>>::empty());
                assert(seq![n, t1, ann] =~= seq![n] + seq![t1, ann]);
            }
        },
        ChannelKind::Voice => {
            lemma_split_concat(t1, ' ', voice);
            if priv_ {
                assert(body(c) =~= n + seq![' '] + (t1 + seq![' '] + (voice + seq![' '] + p1)));
                lemma_split_concat(voice, ' ', p1);
                lemma_split_concat(t1, ' ', voice + seq![' '] + p1);
                lemma_split_concat(n, ' ', t1 + seq![' '] + (voice + seq![' '] + p1));
                assert(w =~= seq![n, t1, voice, p1]);
                lemma_join_sp_cons(n, seq![t1, voice, p1]);
                lemma_join_sp_cons(t1, seq![voice, p1]);
                lemma_join_sp_cons(voice, seq![p1]);
                lemma_join_sp_cons(p1, seq![]);
                assert(seq![t1, voice, p1] =~= seq![t1] + seq![voice, p1]);
                assert(seq![voice, p1] =~= seq![voice] + seq![p1]);
                assert(seq![p1] =~= seq![p1] + Seq::<Seq<char>>::empty());
                assert(seq![n, t1, voice, p1] =~= seq![n] + seq![t1, voice, p1]);
            } else {
                assert(body(c) =~= n + seq![' '] + (t1 + seq![' '] + voice));
                lemma_split_concat(n, ' ', t1 + seq![' '] + voice);
                assert(w =~= seq![n, t1, voice]);
                lemma_join_sp_cons(n, seq![t1, voice]);
                lemma_join_sp_cons(t1, seq![voice]);
                lemma_join_sp_cons(voice, seq![]);
                assert(seq![t1, voice] =~= seq![t1] + seq![voice]);
                assert(seq![voice] =~= seq![voice] + Seq::<Seq<char>>::empty());
                assert(seq![n, t1, voice] =~= seq![n] + seq![t1, voice]);
            }
        },
    }
    assert(join_sp(Seq::<Seq<char>>::empty()) == Seq::<char>::empty());
    assert(join_sp(w) =~= body(c) + sp());
}

/// A text has at least as many bytes as characters.
pub(crate) proof fn lemma_utf8_len_ge(s: Seq<char>)
    ensures
        utf8_len(s) >= s.len(),
    decreases s.len(),
{
    if s.len() > 0 {
        lemma_utf8_len_ge(s.drop_last());
    }
}

/// Scanning `a + b` past `a` is scanning `b`.
proof fn lemma_ch_scan_shift(
    a: Seq<Seq<char>>,
    b: Seq<Seq<char>>,
    i: int,
    coll: Seq<Seq<char>>,
    cur: Seq<char>,
    cnt: nat,
)
    requires
        0 <= i,
    ensures
        ch_scan(a + b, a.len() + i, coll, cur, cnt) == ch_scan(b, i, coll, cur, cnt),
    decreases b.len() - i,
{
    if i < b.len() {
        assert((a + b)[a.len() + i] == b[i]);
        if b[i] == flag_cat() {
        } else if b[i] == flag_ch() {
            lemma_ch_scan_shift(a, b, i + 1, coll.push(trim(cur)), seq![], cnt + 1);
        } else {
            lemma_ch_scan_shift(a, b, i + 1, coll, cur + b[i] + seq![' '], cnt);
        }
    }
}

/// Scanning `m` words that are no flags adds them, each with a space, to the
/// channel being collected.
proof fn lemma_ch_scan_chunk(
    s: Seq<Seq<char>>,
    i: int,
    m: int,
    coll: Seq<Seq<char>>,
    cur: Seq<char>,
    cnt: nat,
)
    requires
        0 <= i,
        0 <= m,
        i + m <= s.len(),
        forall|t: int| i <= t < i + m ==> #[trigger] s[t] != flag_ch() && s[t] != flag_cat(),
    ensures
        ch_scan(s, i, coll, cur, cnt) == ch_scan(
            s,
            i + m,
            coll,
            cur + join_sp(s.subrange(i, i + m)),
            cnt,
        ),
    decreases m,
{
    if m == 0 {
        assert(s.subrange(i, i) =~= Seq::<Seq<char>>::empty());
        assert(cur + join_sp(Seq::<Seq<char>>::empty()) =~= cur);
    } else {
        assert(s[i] != flag_ch() && s[i] != flag_cat());
        lemma_ch_scan_chunk(s, i + 1, m - 1, coll, cur + s[i] + seq![' '], cnt);
        let w = s.subrange(i, i + m);
        assert(w.drop_first() =~= s.subrange(i + 1, i + m));
        assert(w[0] == s[i]);
        assert(cur + s[i] + seq![' '] + join_sp(s.subrange(i + 1, i + m)) =~= cur + join_sp(w));
    }
}

/// The words of a written body, as a sequence.
pub open spec fn body_words(c: ChannelView) -> Seq<Seq<char>> {
    seq![c.channel] + suffix_words(c)
}

/// The words of the tail text: those of each body, with `-ch` between.
proof fn lemma_tail_words(chs: Seq<ChannelView>, k: int)
    requires
        0 <= k < chs.len(),
        forall|i: int| 0 <= i < chs.len() ==> plain_channel(#[trigger] chs[i]),
    ensures
        k < chs.len() - 1 ==> split(tail_text(chs, k), sp()) == body_words(chs[k]) + seq![flag_ch()]
            + split(tail_text(chs, k + 1), sp()),
        k == chs.len() - 1 ==> split(tail_text(chs, k), sp()) == body_words(chs[k]),
{
    lemma_body_words(chs[k]);
    let b = body(chs[k]);
    if k < chs.len() - 1 {
        let r = tail_text(chs, k + 1);
        let ch = seq!['-', 'c', 'h'];
        assert(tail_text(chs, k) =~= b + seq![' '] + (ch + seq![' '] + r));
        lemma_split_concat(b, ' ', ch + seq![' '] + r);
        lemma_split_concat(ch, ' ', r);
        assert(!ch.contains(' '));
        lemma_split_none(ch, ' ');
        assert(body_words(chs[k]) + (seq![ch] + split(r, sp())) =~= body_words(chs[k]) + seq![
            flag_ch(),
        ] + split(r, sp()));
    }
}

/// The bodies of the channels, in order.
pub open spec fn bodies(chs: Seq<ChannelView>) -> Seq<Seq<char>> {
    chs.map_values(|c: ChannelView| body(c))
}

/// Scanning the tail text from channel `k` on collects the bodies of the
/// channels `k..n-1` and ends with the last body, with a space, being collected.
#[verifier::spinoff_prover]
#[verifier::rlimit(30)]
proof fn lemma_scan_tail(chs: Seq<ChannelView>, k: int, coll: Seq<Seq<char>>, cnt: nat)
    requires
        0 <= k < chs.len(),
        forall|i: int| 0 <= i < chs.len() ==> plain_channel(#[trigger] chs[i]),
    ensures
        ch_scan(split(tail_text(chs, k), sp()), 0, coll, seq![], cnt) == (
            coll + bodies(chs).subrange(k, chs.len() - 1),
            body(chs[chs.len() - 1]) + sp(),
            cnt + (chs.len() - 1 - k) as nat,
        ),
    decreases chs.len() - k,
{
    let n = chs.len() as int;
    let w = body_words(chs[k]);
    let s = split(tail_text(chs, k), sp());
    lemma_body_words(chs[k]);
    lemma_body_facts(chs[k]);
    lemma_tail_words(chs, k);
    assert(s.subrange(0, w.len() as int) =~= w);
    assert forall|t: int| 0 <= t < 0 + w.len() implies #[trigger] s[t] != flag_ch() && s[t]
        != flag_cat() by {
        assert(s[t] == w[t]);
    }
    lemma_ch_scan_chunk(s, 0, w.len() as int, coll, seq![], cnt);
    assert(Seq::<char>::empty() + join_sp(w) =~= join_sp(w));
    if k == n - 1 {
        assert(s =~= w);
        assert(bodies(chs).subrange(k, n - 1) =~= Seq::<Seq<char>>::empty());
        assert(coll + Seq::<Seq<char>>::empty() =~= coll);
    } else {
        let b = body(chs[k]);
        assert(s[w.len() as int] == flag_ch());
        lemma_trim_pad(seq![], b, sp());
        assert(Seq::<char>::empty() + b + sp() =~= b + sp());
        assert(trim(b + sp()) == b);
        let r = split(tail_text(chs, k + 1), sp());
        lemma_ch_scan_shift(w + seq![flag_ch()], r, 0, coll.push(b), seq![], cnt + 1);
        lemma_scan_tail(chs, k + 1, coll.push(b), cnt + 1);
        assert(bodies(chs)[k] == b);
        assert(coll.push(b) + bodies(chs).subrange(k + 1, n - 1) =~= coll + bodies(chs).subrange(
            k,
            n - 1,
        ));
    }
}

/// The channel texts of the tail text are the bodies, with one `-ch` between
/// each two.
proof fn lemma_channel_texts(chs: Seq<ChannelView>)
    requires
        chs.len() > 0,
        forall|i: int| 0 <= i < chs.len() ==> plain_channel(#[trigger] chs[i]),
    ensures
        channel_texts(tail_text(chs, 0)) == (bodies(chs), (chs.len() - 1) as nat),
{
    let n = chs.len() as int;
    lemma_scan_tail(chs, 0, seq![], 0);
    let b = body(chs[n - 1]);
    lemma_body_facts(chs[n - 1]);
    lemma_trim_pad(seq![], b, sp());
    assert(Seq::<char>::empty() + b + sp() =~= b + sp());
    assert(Seq::<Seq<char>>::empty() + bodies(chs).subrange(0, n - 1) =~= bodies(chs).subrange(
        0,
        n - 1,
    ));
    assert(bodies(chs).subrange(0, n - 1).push(b) =~= bodies(chs));
}

/// The characters of `-ch  -ch  -ch ...`, by position.
pub open spec fn pad_char(i: int) -> char {
    if i % 5 == 0 {
        '-'
    } else if i % 5 == 1 {
        'c'
    } else if i % 5 == 2 {
        'h'
    } else {
        ' '
    }
}

/// The first `m` characters of `-ch  -ch  -ch ...`: what is left of the tail
/// text while its bodies are removed one by one.
pub open spec fn pad(m: int) -> Seq<char> {
    Seq::new(m as nat, |i: int| pad_char(i))
}

proof fn lemma_pad_grow(m: int)
    requires
        m >= 0,
        m % 5 == 4,
    ensures
        pad(m) + seq![' ', '-', 'c', 'h', ' '] == pad(m + 5),
        solid_ends(pad(m).drop_last()),
        trim(pad(m)) == pad(m - 1),
{
    assert(pad(m) + seq![' ', '-', 'c', 'h', ' '] =~= pad(m + 5));
    assert(pad(m) =~= pad(m - 1) + sp());
    assert(pad(m).drop_last() =~= pad(m - 1));
    assert(pad(m - 1).len() > 0 ==> pad(m - 1)[0] == '-' && pad(m - 1).last() == 'h');
    lemma_trim_pad(seq![], pad(m - 1), sp());
    assert(Seq::<char>::empty() + pad(m - 1) + sp() =~= pad(m));
}

/// A plain body does not occur in `-ch  -ch ...`: where it starts at a `c` or an
/// `h`, its name would be part of `-ch` or hold a space.
#[verifier::spinoff_prover]
proof fn lemma_pad_no_match(c: ChannelView, s: Seq<char>, m: int)
    requires
        plain_channel(c),
        m % 5 == 4,
        m <= s.len(),
        forall|i: int| 0 <= i < m ==> s[i] == pad_char(i),
    ensures
        forall|j: int| 0 <= j < m ==> !match_at(s, body(c), j),
{
    let n = c.channel;
    let b = body(c);
    let ch = seq!['-', 'c', 'h'];
    assert forall|j: int| 0 <= j < m implies !match_at(s, b, j) by {
        if match_at(s, b, j) {
            assert forall|t: int| 0 <= t < n.len() implies #[trigger] n[t] == s[j + t] by {
                assert(b[t] == n[t]);
                assert(s.subrange(j, j + b.len())[t] == s[j + t]);
            }
            assert(n[0] == pad_char(j));
            assert(!is_ws(n[0]));
            if j % 5 == 0 {
                if n.len() >= 2 {
                    assert(n[1] == pad_char(j + 1));
                }
                if n.len() >= 3 {
                    assert(n[2] == pad_char(j + 2));
                }
                if n.len() >= 4 {
                    assert(n[3] == pad_char(j + 3));
                    assert(n.contains(' '));
                }
                assert(ch.subrange(0, 0 + n.len() as int) =~= n);
                assert(match_at(ch, n, 0));
            } else if j % 5 == 1 {
                if n.len() >= 2 {
                    assert(n[1] == pad_char(j + 1));
                }
                if n.len() >= 3 {
                    assert(n[2] == pad_char(j + 2));
                    assert(n.contains(' '));
                }
                assert(ch.subrange(1, 1 + n.len() as int) =~= n);
                assert(match_at(ch, n, 1));
            } else if j % 5 == 2 {
                if n.len() >= 2 {
                    assert(n[1] == pad_char(j + 1));
                    assert(n.contains(' '));
                }
                assert(ch.subrange(2, 2 + n.len() as int) =~= n);
                assert(match_at(ch, n, 2));
            }
        }
    }
}

/// Removing the `m` flags `-ch` from `w + pad(5m - 2)`, `w` whitespace, leaves
/// whitespace.
#[verifier::spinoff_prover]
proof fn lemma_remove_pad(w: Seq<char>, m: int)
    requires
        all_ws(w),
        m >= 1,
    ensures
        all_ws(remove_n(w + pad(5 * m - 2), flag_ch(), m as nat)),
    decreases m,
{
    let p = pad(5 * m - 2);
    let s = w + p;
    let k = w.len() as int;
    assert(s.subrange(k, k + 3) =~= flag_ch());
    assert forall|j: int| 0 <= j < k implies !match_at(s, flag_ch(), j) by {
        if match_at(s, flag_ch(), j) {
            assert(s.subrange(j, j + 3)[0] == s[j]);
            assert(s[j] == w[j]);
        }
    }
    lemma_find_first(s, flag_ch(), 0, k);
    assert(s.take(k) =~= w);
    let rest = s.skip(k + 3);
    if m == 1 {
        assert(rest =~= Seq::<char>::empty());
        assert(remove_n(rest, flag_ch(), 0) == rest);
        assert(w + rest =~= w);
    } else {
        let w2 = seq![' ', ' '];
        assert(rest =~= w2 + pad(5 * (m - 1) - 2));
        lemma_remove_pad(w2, m - 1);
        let r = remove_n(rest, flag_ch(), (m - 1) as nat);
        assert forall|i: int| 0 <= i < (w + r).len() implies is_ws(#[trigger] (w + r)[i]) by {
            if i < k {
                assert((w + r)[i] == w[i]);
            } else {
                assert((w + r)[i] == r[i - k]);
            }
        }
    }
}

/// Removing the bodies from channel `k` on, one by one, from what is left after
/// the earlier ones leaves `-ch  -ch ... -ch`.
#[verifier::spinoff_prover]
proof fn lemma_remove_bodies(chs: Seq<ChannelView>, k: int)
    requires
        1 <= k < chs.len(),
        forall|i: int| 0 <= i < chs.len() ==> plain_channel(#[trigger] chs[i]),
    ensures
        remove_each(pad(5 * k - 1) + tail_text(chs, k), bodies(chs), k) == pad(
            5 * (chs.len() - 1) - 2,
        ),
    decreases chs.len() - k,
{
    let n = chs.len() as int;
    let b = body(chs[k]);
    let q = 5 * k - 1;
    let s = pad(q) + tail_text(chs, k);
    lemma_body_facts(chs[k]);
    lemma_pad_no_match(chs[k], s, q);
    let rest = if k < n - 1 {
        seq![' ', '-', 'c', 'h', ' '] + tail_text(chs, k + 1)
    } else {
        Seq::<char>::empty()
    };
    assert(tail_text(chs, k) =~= b + rest);
    assert(s.subrange(q, q + b.len()) =~= b);
    lemma_find_first(s, b, 0, q);
    lemma_remove_at(s, b, q);
    assert(s.take(q) =~= pad(q));
    assert(s.skip(q + b.len()) =~= rest);
    assert(bodies(chs)[k] == b);
    lemma_pad_grow(q);
    let r1 = trim(remove_n(s, b, 1));
    assert(remove_each(s, bodies(chs), k) == remove_each(r1, bodies(chs), k + 1));
    if k < n - 1 {
        lemma_tail_facts(chs, k + 1);
        let t2 = tail_text(chs, k + 1);
        assert(pad(q) + rest =~= pad(q) + seq![' ', '-', 'c', 'h', ' '] + t2);
        assert(pad(5 * (k + 1) - 1) == pad(q + 5));
        lemma_trim_solid(pad(q + 5) + t2);
        lemma_remove_bodies(chs, k + 1);
    } else {
        assert(pad(q) + rest =~= pad(q));
        assert(r1 == pad(q - 1));
        assert(remove_each(r1, bodies(chs), k + 1) == r1);
    }
}

/// Removing every body from the tail text leaves `-ch  -ch ... -ch`, one `-ch`
/// fewer than there are channels.
#[verifier::spinoff_prover]
proof fn lemma_remove_all_bodies(chs: Seq<ChannelView>)
    requires
        chs.len() > 0,
        forall|i: int| 0 <= i < chs.len() ==> plain_channel(#[trigger] chs[i]),
    ensures
        chs.len() == 1 ==> remove_each(tail_text(chs, 0), bodies(chs), 0) == Seq::<char>::empty(),
        chs.len() > 1 ==> remove_each(tail_text(chs, 0), bodies(chs), 0) == pad(
            5 * (chs.len() - 1) - 2,
        ),
{
    let n = chs.len() as int;
    let b = body(chs[0]);
    let s = tail_text(chs, 0);
    lemma_body_facts(chs[0]);
    let rest = if 0 < n - 1 {
        seq![' ', '-', 'c', 'h', ' '] + tail_text(chs, 1)
    } else {
        Seq::<char>::empty()
    };
    assert(s =~= b + rest);
    assert(s.subrange(0, b.len() as int) =~= b);
    lemma_find_first(s, b, 0, 0);
    lemma_remove_at(s, b, 0);
    assert(s.take(0) + s.skip(b.len() as int) =~= rest);
    assert(bodies(chs)[0] == b);
    let r1 = trim(remove_n(s, b, 1));
    assert(remove_each(s, bodies(chs), 0) == remove_each(r1, bodies(chs), 1));
    if n == 1 {
        assert(trim(Seq::<char>::empty()) =~= Seq::<char>::empty());
        assert(remove_each(r1, bodies(chs), 1) == r1);
    } else {
        lemma_tail_facts(chs, 1);
        let t1 = tail_text(chs, 1);
        assert(pad(4) =~= seq!['-', 'c', 'h', ' ']);
        assert(rest =~= sp() + (pad(4) + t1) + Seq::<char>::empty());
        assert(all_ws(sp()));
        lemma_trim_pad(sp(), pad(4) + t1, seq![]);
        lemma_remove_bodies(chs, 1);
    }
}

/// The data collected from the written text of channels without category.
pub open spec fn written_args(chs: Seq<ChannelView>) -> ArgsView {
    ArgsView { category: Some(seq![]), channels: Some(bodies(chs)), ..empty_args() }
}

/// The first step reads the `-cat ` that starts each section: an empty category
/// name, since `-ch` follows.
#[verifier::spinoff_prover]
proof fn lemma_step_cat(t: Seq<char>, r: Seq<char>)
    requires
        t.len() > 0,
        solid_ends(t),
        all_ws(r),
    ensures
        step(cat_sep() + (seq!['-', 'c', 'h', ' '] + t + r), empty_args()) == Some(
            (
                seq!['-', 'c', 'h', ' '] + t,
                ArgsView { category: Some(seq![]), ..empty_args() },
            ),
        ),
{
    let cat = seq!['-', 'c', 'a', 't'];
    let ch = seq!['-', 'c', 'h'];
    let p = seq!['-', 'c', 'h', ' '] + t;
    let x = cat_sep() + (p + r);
    assert(x =~= cat + seq![' '] + (p + r));
    assert(p + r =~= ch + seq![' '] + (t + r));
    assert(!cat.contains(' '));
    assert(!ch.contains(' '));
    lemma_split_concat(cat, ' ', p + r);
    lemma_split_concat(ch, ' ', t + r);
    lemma_split_none(cat, ' ');
    lemma_split_none(ch, ' ');
    let toks = split(x, sp());
    assert(toks =~= seq![cat, ch] + split(t + r, sp()));
    assert(toks[0] == cat);
    assert(toks[1] == ch);
    lemma_trim_solid(cat);
    assert(cat + (seq![' '] + (p + r)) =~= x);
    lemma_remove_prefix(cat, seq![' '] + (p + r));
    assert(solid_ends(p));
    lemma_trim_pad(sp(), p, r);
    assert(sp() + p + r =~= seq![' '] + (p + r));
    assert(join_until_flag(toks, 1) == Seq::<char>::empty());
    assert(trim(Seq::<char>::empty()) =~= Seq::<char>::empty());
    lemma_remove_n_empty(p, 1);
    lemma_trim_solid(p);
}

/// The first step of a category's section reads its name, up to the `-ch`.
#[verifier::spinoff_prover]
proof fn lemma_step_cat_named(name: Seq<char>, t: Seq<char>, r: Seq<char>)
    requires
        plain_category(name),
        t.len() > 0,
        solid_ends(t),
        all_ws(r),
    ensures
        step(cat_sep() + (name + sp() + (seq!['-', 'c', 'h', ' '] + t) + r), empty_args())
            == Some(
            (
                seq!['-', 'c', 'h', ' '] + t,
                ArgsView { category: Some(name), ..empty_args() },
            ),
        ),
{
    let cat = seq!['-', 'c', 'a', 't'];
    let ch = seq!['-', 'c', 'h'];
    let p = seq!['-', 'c', 'h', ' '] + t;
    let x = cat_sep() + (name + sp() + p + r);
    let wn = split(name, sp());
    assert(x =~= cat + seq![' '] + (name + seq![' '] + (p + r)));
    assert(p + r =~= ch + seq![' '] + (t + r));
    assert(!cat.contains(' '));
    assert(!ch.contains(' '));
    lemma_split_concat(cat, ' ', name + seq![' '] + (p + r));
    lemma_split_concat(name, ' ', p + r);
    lemma_split_concat(ch, ' ', t + r);
    lemma_split_none(cat, ' ');
    lemma_split_none(ch, ' ');
    let toks = split(x, sp());
    assert(toks =~= seq![cat] + wn + seq![ch] + split(t + r, sp()));
    assert(toks[0] == cat);
    let m = wn.len() as int;
    assert(toks[1 + m] == ch);
    assert forall|i: int| 1 <= i < 1 + m implies !is_flag(#[trigger] toks[i]) by {
        assert(toks[i] == wn[i - 1]);
    }
    lemma_join_until_flag_chunk(toks, 1, m);
    assert(toks.subrange(1, 1 + m) =~= wn);
    lemma_join_sp_split(name);
    lemma_trim_pad(seq![], name, sp());
    assert(Seq::<char>::empty() + name + sp() =~= name + sp());
    lemma_trim_solid(cat);
    assert(cat + (seq![' '] + (name + sp() + p + r)) =~= x);
    lemma_remove_prefix(cat, seq![' '] + (name + sp() + p + r));
    let q = name + sp() + p;
    assert(solid_ends(p));
    assert(q[0] == name[0]);
    assert(q.last() == p.last());
    lemma_trim_pad(sp(), q, r);
    assert(sp() + q + r =~= seq![' '] + (name + sp() + p + r));
    assert(name + (sp() + p) =~= q);
    lemma_remove_prefix(name, sp() + p);
    lemma_trim_pad(sp(), p, seq![]);
    assert(sp() + p + Seq::<char>::empty() =~= sp() + p);
}

/// The second step reads the `-ch` flags: all the bodies, and nothing is left.
#[verifier::spinoff_prover]
proof fn lemma_step_ch(chs: Seq<ChannelView>, a: ArgsView)
    requires
        chs.len() > 0,
        forall|i: int| 0 <= i < chs.len() ==> plain_channel(#[trigger] chs[i]),
    ensures
        step(seq!['-', 'c', 'h', ' '] + tail_text(chs, 0), a) == Some(
            (Seq::<char>::empty(), ArgsView { channels: Some(bodies(chs)), ..a }),
        ),
{
    let n = chs.len() as int;
    let t = tail_text(chs, 0);
    let ch = seq!['-', 'c', 'h'];
    let p = seq!['-', 'c', 'h', ' '] + t;
    lemma_tail_facts(chs, 0);
    assert(p =~= ch + seq![' '] + t);
    assert(!ch.contains(' '));
    lemma_split_concat(ch, ' ', t);
    lemma_split_none(ch, ' ');
    let toks = split(p, sp());
    assert(toks =~= seq![ch] + split(t, sp()));
    assert(toks[0] == ch);
    lemma_trim_solid(ch);
    assert(ch != flag_cat());
    assert(ch != flag_p());
    assert(ch != flag_r());
    assert(ch + (seq![' '] + t) =~= p);
    lemma_remove_prefix(ch, seq![' '] + t);
    lemma_trim_pad(sp(), t, seq![]);
    assert(sp() + t + Seq::<char>::empty() =~= seq![' '] + t);
    lemma_channel_texts(chs);
    lemma_remove_all_bodies(chs);
    let input2 = remove_each(t, bodies(chs), 0);
    if n == 1 {
        assert(remove_n(input2, flag_ch(), 0) == input2);
        assert(trim(Seq::<char>::empty()) =~= Seq::<char>::empty());
    } else {
        assert(Seq::<char>::empty() + pad(5 * (n - 1) - 2) =~= pad(5 * (n - 1) - 2));
        assert(all_ws(Seq::<char>::empty()));
        lemma_remove_pad(seq![], n - 1);
        lemma_trim_all_ws(remove_n(input2, flag_ch(), (n - 1) as nat));
    }
}

/// The section of the written channels without category parses into their
/// bodies, under an empty category name.
#[verifier::spinoff_prover]
proof fn lemma_parse_written(chs: Seq<ChannelView>, r: Seq<char>)
    requires
        chs.len() > 0,
        forall|i: int| 0 <= i < chs.len() ==> plain_channel(#[trigger] chs[i]),
        all_ws(r),
    ensures
        parse_spec(cat_sep() + (seq!['-', 'c', 'h', ' '] + tail_text(chs, 0) + r)) == Some(
            Ok::<ArgsView, ArgsView>(written_args(chs)),
        ),
{
    let t = tail_text(chs, 0);
    let p = seq!['-', 'c', 'h', ' '] + t;
    let x = cat_sep() + (p + r);
    lemma_tail_facts(chs, 0);
    lemma_step_cat(t, r);
    let a1 = ArgsView { category: Some(seq![]), ..empty_args() };
    lemma_step_ch(chs, a1);
    lemma_utf8_len_ge(x);
    let f = utf8_len(x);
    assert(f >= 9);
    assert(run(x, empty_args(), f) == run(p, a1, (f - 1) as nat));
    assert(run(p, a1, (f - 1) as nat) == run(Seq::<char>::empty(), written_args(chs), (f - 2) as nat));
}

/// The section of a category parses into the bodies of its channels, under its
/// name.
#[verifier::spinoff_prover]
proof fn lemma_parse_named(chs: Seq<ChannelView>, name: Seq<char>, r: Seq<char>)
    requires
        chs.len() > 0,
        forall|i: int| 0 <= i < chs.len() ==> plain_channel(#[trigger] chs[i]),
        plain_category(name),
        all_ws(r),
    ensures
        parse_spec(cat_sep() + (name + sp() + (seq!['-', 'c', 'h', ' '] + tail_text(chs, 0)) + r))
            == Some(
            Ok::<ArgsView, ArgsView>(
                ArgsView { category: Some(name), channels: Some(bodies(chs)), ..empty_args() },
            ),
        ),
{
    let t = tail_text(chs, 0);
    let p = seq!['-', 'c', 'h', ' '] + t;
    let x = cat_sep() + (name + sp() + p + r);
    lemma_tail_facts(chs, 0);
    lemma_step_cat_named(name, t, r);
    let a1 = ArgsView { category: Some(name), ..empty_args() };
    lemma_step_ch(chs, a1);
    lemma_utf8_len_ge(x);
    let f = utf8_len(x);
    assert(f >= 9);
    assert(run(x, empty_args(), f) == run(p, a1, (f - 1) as nat));
    assert(run(p, a1, (f - 1) as nat) == run(
        Seq::<char>::empty(),
        ArgsView { category: Some(name), channels: Some(bodies(chs)), ..empty_args() },
        (f - 2) as nat,
    ));
}

/// `-p` alone is read as the private flag.
proof fn lemma_step_p(a: ArgsView)
    ensures
        step(flag_p(), a) == Some((Seq::<char>::empty(), ArgsView { private: true, ..a })),
{
    let p = flag_p();
    assert(!p.contains(' '));
    lemma_split_none(p, ' ');
    lemma_trim_solid(p);
    assert(p != flag_cat());
    assert(p + Seq::<char>::empty() =~= p);
    lemma_remove_prefix(p, seq![]);
    assert(trim(Seq::<char>::empty()) =~= Seq::<char>::empty());
}

/// `-t` and a kind word, maybe followed by ` -p`, is read as the kind.
#[verifier::spinoff_prover]
proof fn lemma_step_t(w: Seq<char>, tp: Seq<char>, a: ArgsView)
    requires
        w == ann_word() || w == voice_word(),
        tp == Seq::<char>::empty() || tp == seq![' ', '-', 'p'],
    ensures
        step(flag_t() + sp() + w + tp, a) == Some(
            (trim(tp), ArgsView { channel_type: Some(lower(w)), ..a }),
        ),
        trim(tp) == (if tp.len() == 0 {
            Seq::<char>::empty()
        } else {
            flag_p()
        }),
{
    let t = flag_t();
    let x = t + sp() + w + tp;
    assert(!t.contains(' '));
    assert(!w.contains(' '));
    assert(!flag_p().contains(' '));
    lemma_split_none(t, ' ');
    lemma_split_none(w, ' ');
    lemma_split_none(flag_p(), ' ');
    assert(x =~= t + seq![' '] + (w + tp));
    lemma_split_concat(t, ' ', w + tp);
    if tp.len() == 0 {
        assert(w + tp =~= w);
    } else {
        assert(w + tp =~= w + seq![' '] + flag_p());
        lemma_split_concat(w, ' ', flag_p());
    }
    let toks = split(x, sp());
    assert(toks[0] == t);
    assert(toks[1] == w);
    assert(toks.len() >= 2);
    lemma_trim_solid(t);
    lemma_trim_solid(w);
    assert(t != flag_cat() && t != flag_p() && t != flag_r() && t != flag_ch());
    assert(t + (sp() + (w + tp)) =~= x);
    lemma_remove_prefix(t, sp() + (w + tp));
    assert(solid_ends(w + tp));
    lemma_trim_pad(sp(), w + tp, seq![]);
    assert(sp() + (w + tp) + Seq::<char>::empty() =~= sp() + (w + tp));
    lemma_remove_prefix(w, tp);
    if tp.len() == 0 {
        assert(trim(Seq::<char>::empty()) =~= Seq::<char>::empty());
    } else {
        lemma_trim_pad(sp(), flag_p(), seq![]);
        assert(sp() + flag_p() + Seq::<char>::empty() =~= tp);
    }
}

/// Lowercasing leaves the kind words `ann` and `voice` as they are.
proof fn lemma_kind_words_lower()
    ensures
        lower(ann_word()) == ann_word(),
        lower(voice_word()) == voice_word(),
{
    let a = ann_word();
    let v = voice_word();
    assert(is_ascii_text(a));
    assert(is_ascii_text(v));
    assert(ascii_lower(a) =~= a);
    assert(ascii_lower(v) =~= v);
}

/// A written body reads back as its channel, without category or roles.
#[verifier::spinoff_prover]
#[verifier::rlimit(30)]
proof fn lemma_body_reparsed(c: ChannelView, cat: Option<CategoryView>)
    requires
        plain_channel(c),
    ensures
        channel_spec(body(c), cat) == Some(
            Ok::<ChannelView, ()>(ChannelView { category: cat, ..reparsed(c) }),
        ),
{
    lemma_kind_words_lower();
    let n = c.channel;
    let x = suffix(c);
    let b = body(c);
    let w = body_words(c);
    lemma_body_words(c);
    lemma_body_facts(c);
    assert(split(b, sp()) == w);
    assert(w[0] == n);
    assert(!starts_bar(n));
    assert(w.len() > 1 ==> is_flag(w[1]));
    assert(name_words(w, 1) == Seq::<char>::empty());
    assert(name_words(w, 0) == seq![' '] + n + Seq::<char>::empty());
    lemma_trim_pad(sp(), n, seq![]);
    assert(seq![' '] + n + Seq::<char>::empty() =~= sp() + n + Seq::<char>::empty());
    assert(name_unparsed(b) == n);
    lemma_replace_absent(n, ' ', '-');
    assert(channel_name(b) == n);
    lemma_remove_prefix(n, x);
    assert(remove_n(b, n, 1) == x);
    if x.len() == 0 {
        assert(trim(Seq::<char>::empty()) =~= Seq::<char>::empty());
        assert(channel_rest(b).len() == 0);
    } else {
        let rest = x.drop_first();
        assert(x =~= sp() + rest + Seq::<char>::empty());
        assert(solid_ends(rest));
        lemma_trim_pad(sp(), rest, seq![]);
        assert(channel_rest(b) == rest);
        lemma_utf8_len_ge(rest);
        let f = utf8_len(rest);
        let e = empty_args();
        let priv_ = c.private == Some(true);
        let tp = if priv_ {
            seq![' ', '-', 'p']
        } else {
            Seq::<char>::empty()
        };
        match c.channel_type {
            ChannelKind::Text => {
                assert(rest =~= flag_p());
                lemma_step_p(e);
                let a1 = ArgsView { private: true, ..e };
                assert(run(rest, e, f) == run(Seq::<char>::empty(), a1, (f - 1) as nat));
                assert(parse_spec(rest) == Some(Ok::<ArgsView, ArgsView>(a1)));
            },
            ChannelKind::News => {
                let wd = ann_word();
                assert(rest =~= flag_t() + sp() + wd + tp);
                lemma_step_t(wd, tp, e);
                let a1 = ArgsView { channel_type: Some(wd), ..e };
                assert(kind_of(wd) == Some(ChannelKind::News));
                if priv_ {
                    lemma_step_p(a1);
                    let a2 = ArgsView { private: true, ..a1 };
                    assert(run(rest, e, f) == run(flag_p(), a1, (f - 1) as nat));
                    assert(run(flag_p(), a1, (f - 1) as nat) == run(
                        Seq::<char>::empty(),
                        a2,
                        (f - 2) as nat,
                    ));
                    assert(parse_spec(rest) == Some(Ok::<ArgsView, ArgsView>(a2)));
                } else {
                    assert(run(rest, e, f) == run(Seq::<char>::empty(), a1, (f - 1) as nat));
                    assert(parse_spec(rest) == Some(Ok::<ArgsView, ArgsView>(a1)));
                }
            },
            ChannelKind::Voice => {
                let wd = voice_word();
                assert(rest =~= flag_t() + sp() + wd + tp);
                lemma_step_t(wd, tp, e);
                let a1 = ArgsView { channel_type: Some(wd), ..e };
                assert(kind_of(wd) == Some(ChannelKind::Voice));
                if priv_ {
                    lemma_step_p(a1);
                    let a2 = ArgsView { private: true, ..a1 };
                    assert(run(rest, e, f) == run(flag_p(), a1, (f - 1) as nat));
                    assert(run(flag_p(), a1, (f - 1) as nat) == run(
                        Seq::<char>::empty(),
                        a2,
                        (f - 2) as nat,
                    ));
                    assert(parse_spec(rest) == Some(Ok::<ArgsView, ArgsView>(a2)));
                } else {
                    assert(run(rest, e, f) == run(Seq::<char>::empty(), a1, (f - 1) as nat));
                    assert(parse_spec(rest) == Some(Ok::<ArgsView, ArgsView>(a1)));
                }
            },
        }
    }
}

/// A category name that reads back as itself: not empty, without line breaks
/// or whitespace at either end, without `-cat ` in it or at its end, and
/// without a flag among its words.
pub open spec fn plain_category(name: Seq<char>) -> bool {
    &&& name.len() > 0
    &&& solid_ends(name)
    &&& !name.contains('\n')
    &&& no_cat(name)
    &&& !ends_cat(name)
    &&& forall|i: int|
        0 <= i < split(name, sp()).len() ==> !is_flag(#[trigger] split(name, sp())[i])
}

/// `-cat ` cannot overlap itself, so the first `-cat ` of `a + "-cat " + b`, `a`
/// without one, is the one written.
#[verifier::spinoff_prover]
proof fn lemma_split_cat(a: Seq<char>, b: Seq<char>)
    requires
        no_cat(a),
    ensures
        split(a + cat_sep() + b, cat_sep()) == seq![a] + split(b, cat_sep()),
{
    let sep = cat_sep();
    let s = a + sep + b;
    let n = a.len() as int;
    assert forall|j: int| 0 <= j < n implies !match_at(s, sep, j) by {
        if match_at(s, sep, j) {
            let w = s.subrange(j, j + 5);
            assert(w[0] == s[j] && w[1] == s[j + 1] && w[2] == s[j + 2] && w[3] == s[j + 3] && w[4]
                == s[j + 4]);
            if j + 4 < n {
                assert(s[j] == a[j] && s[j + 1] == a[j + 1] && s[j + 2] == a[j + 2] && s[j + 3]
                    == a[j + 3] && s[j + 4] == a[j + 4]);
            } else {
                assert(s[n] == '-');
                assert(w[n - j] == s[n]);
            }
        }
    }
    assert(s.subrange(n, n + 5) =~= sep);
    lemma_find_first(s, sep, 0, n);
    assert(s.take(n) =~= a);
    assert(s.skip(n + 5) =~= b);
}

/// Splitting texts joined by `-cat ` gives them back.
proof fn lemma_split_pieces(l: Seq<Seq<char>>)
    requires
        l.len() >= 1,
        forall|i: int| 0 <= i < l.len() ==> no_cat(#[trigger] l[i]),
    ensures
        split(join_with(l, cat_sep()), cat_sep()) == l,
    decreases l.len(),
{
    if l.len() == 1 {
        assert(join_with(l, cat_sep()) == l[0]);
        assert forall|j: int| 0 <= j implies !match_at(l[0], cat_sep(), j) by {
            if match_at(l[0], cat_sep(), j) {
                let w = l[0].subrange(j, j + 5);
                assert(w[0] == l[0][j] && w[1] == l[0][j + 1] && w[2] == l[0][j + 2] && w[3]
                    == l[0][j + 3] && w[4] == l[0][j + 4]);
            }
        }
        lemma_find_none(l[0], cat_sep(), 0);
        assert(l =~= seq![l[0]]);
    } else {
        let r = l.drop_first();
        assert(l =~= seq![l[0]] + r);
        lemma_join_cons(l[0], r, cat_sep());
        assert forall|i: int| 0 <= i < r.len() implies no_cat(#[trigger] r[i]) by {
            assert(r[i] == l[i + 1]);
        }
        lemma_split_pieces(r);
        lemma_split_cat(l[0], join_with(r, cat_sep()));
    }
}

/// A text that is empty or ends with a space, followed by one that does not end
/// with `-cat`, does not end with `-cat`.
proof fn lemma_ends_cat_concat(a: Seq<char>, t: Seq<char>)
    requires
        a.len() == 0 || a.last() == ' ',
        t.len() > 0,
        !ends_cat(t),
    ensures
        !ends_cat(a + t),
{
    let s = a + t;
    let m = s.len() as int;
    if ends_cat(s) {
        let w = s.subrange(m - 4, m);
        if t.len() >= 4 {
            assert(t.subrange(t.len() - 4, t.len() as int) =~= w);
        } else {
            assert(s[a.len() - 1] == ' ');
            assert(w[a.len() - 1 - (m - 4)] == s[a.len() - 1]);
        }
    }
}

/// The tail text does not end with `-cat`.
proof fn lemma_tail_not_ends_cat(chs: Seq<ChannelView>, k: int)
    requires
        0 <= k < chs.len(),
        forall|i: int| 0 <= i < chs.len() ==> plain_channel(#[trigger] chs[i]),
    ensures
        !ends_cat(tail_text(chs, k)),
    decreases chs.len() - k,
{
    lemma_body_facts(chs[k]);
    if k < chs.len() - 1 {
        lemma_tail_not_ends_cat(chs, k + 1);
        lemma_tail_facts(chs, k + 1);
        let a = body(chs[k]) + seq![' ', '-', 'c', 'h', ' '];
        lemma_ends_cat_concat(a, tail_text(chs, k + 1));
        assert(tail_text(chs, k) == a + tail_text(chs, k + 1));
    }
}

/// The words of a text, each followed by a space, give the text and a space.
pub(crate) proof fn lemma_join_sp_split(s: Seq<char>)
    ensures
        join_sp(split(s, sp())) == s + sp(),
    decreases s.len(),
{
    match find_from(s, sp(), 0) {
        None => {
            assert(split(s, sp()) == seq![s]);
            assert(seq![s] =~= seq![s] + Seq::<Seq<char>>::empty());
            lemma_join_sp_cons(s, seq![]);
        },
        Some(f) => {
            crate::text::lemma_find_from_bounds(s, sp(), 0);
            lemma_match_char(s, ' ', f);
            let a = s.take(f);
            let b = s.skip(f + 1);
            assert(split(s, sp()) == seq![a] + split(b, sp()));
            lemma_join_sp_cons(a, split(b, sp()));
            lemma_join_sp_split(b);
            assert(a + sp() + (b + sp()) =~= s + sp());
        },
    }
}

/// Words that are no flags, followed by a flag, are joined up to the flag.
proof fn lemma_join_until_flag_chunk(toks: Seq<Seq<char>>, i: int, m: int)
    requires
        0 <= i,
        0 <= m,
        i + m < toks.len(),
        forall|t: int| i <= t < i + m ==> !is_flag(#[trigger] toks[t]),
        is_flag(toks[i + m]),
    ensures
        join_until_flag(toks, i) == join_sp(toks.subrange(i, i + m)),
    decreases m,
{
    if m == 0 {
        assert(toks.subrange(i, i) =~= Seq::<Seq<char>>::empty());
    } else {
        assert(!is_flag(toks[i]));
        lemma_join_until_flag_chunk(toks, i + 1, m - 1);
        let w = toks.subrange(i, i + m);
        assert(w.drop_first() =~= toks.subrange(i + 1, i + m));
        assert(w[0] == toks[i]);
    }
}

/// Replacing a character in two joined texts replaces it in each.
proof fn lemma_replace_concat(a: Seq<char>, b: Seq<char>, x: char, y: char)
    ensures
        replace_char(a + b, x, y) == replace_char(a, x, y) + replace_char(b, x, y),
{
    assert(replace_char(a + b, x, y) =~= replace_char(a, x, y) + replace_char(b, x, y));
}

/// The channel has no category, or one whose name reads back as itself.
pub open spec fn plain_category_of(c: ChannelView) -> bool {
    match c.category {
        Some(k) => plain_category(k.category),
        None => true,
    }
}

/// The channels without category, in order.
pub open spec fn without_category(chs: Seq<ChannelView>) -> Seq<ChannelView> {
    chs.filter(|c: ChannelView| c.category is None)
}

/// The channel is in the category named `name`.
pub open spec fn in_named(c: ChannelView, name: Seq<char>) -> bool {
    match c.category {
        Some(k) => k.category == name,
        None => false,
    }
}

/// The channels in the category named `name`, in order.
pub open spec fn in_category(chs: Seq<ChannelView>, name: Seq<char>) -> Seq<ChannelView> {
    chs.filter(|c: ChannelView| in_named(c, name))
}

/// The entries written for the channels without category, and for those of a
/// category, are those of the channels picked out in order.
proof fn lemma_entries_filter(chs: Seq<ChannelView>, name: Seq<char>)
    ensures
        entries_without_category(chs) == without_category(chs).map_values(
            |c: ChannelView| ch_entry(c),
        ),
        entries_in(chs, name) == in_category(chs, name).map_values(|c: ChannelView| ch_entry(c)),
    decreases chs.len(),
{
    reveal(Seq::filter);
    if chs.len() > 0 {
        let q = chs.drop_last();
        lemma_entries_filter(q, name);
        let l = chs.last();
        assert(without_category(chs) == if l.category is None {
            without_category(q).push(l)
        } else {
            without_category(q)
        });
        assert(in_category(chs, name) == if in_named(l, name) {
            in_category(q, name).push(l)
        } else {
            in_category(q, name)
        });
        if l.category is None {
            assert(without_category(q).push(l).map_values(|c: ChannelView| ch_entry(c))
                =~= without_category(q).map_values(|c: ChannelView| ch_entry(c)).push(ch_entry(l)));
        }
        if in_named(l, name) {
            assert(in_category(q, name).push(l).map_values(|c: ChannelView| ch_entry(c))
                =~= in_category(q, name).map_values(|c: ChannelView| ch_entry(c)).push(ch_entry(l)));
        }
    }
}

/// What a filter keeps comes from the filtered sequence.
proof fn lemma_filter_from(s: Seq<ChannelView>, pred: spec_fn(ChannelView) -> bool)
    ensures
        forall|i: int|
            0 <= i < s.filter(pred).len() ==> exists|j: int|
                0 <= j < s.len() && s[j] == #[trigger] s.filter(pred)[i],
    decreases s.len(),
{
    reveal(Seq::filter);
    if s.len() > 0 {
        let q = s.drop_last();
        lemma_filter_from(q, pred);
        let f = s.filter(pred);
        assert forall|i: int| 0 <= i < f.len() implies exists|j: int|
            0 <= j < s.len() && s[j] == #[trigger] f[i] by {
            if i < q.filter(pred).len() {
                assert(f[i] == q.filter(pred)[i]);
                let j = choose|j: int| 0 <= j < q.len() && q[j] == #[trigger] q.filter(pred)[i];
                assert(s[j] == q[j]);
            } else {
                assert(f[i] == s.last());
                assert(s[s.len() - 1] == s.last());
            }
        }
    }
}

/// Each category name belongs to a channel.
proof fn lemma_name_from(chs: Seq<ChannelView>, i: int)
    requires
        0 <= i < category_names(chs).len(),
    ensures
        exists|j: int| 0 <= j < chs.len() && #[trigger] in_named(chs[j], category_names(chs)[i]),
    decreases chs.len(),
{
    let q = chs.drop_last();
    let names = category_names(chs);
    let qn = category_names(q);
    match chs.last().category {
        Some(k) => {
            if !qn.contains(k.category) {
                assert(names == qn.push(k.category));
            } else {
                assert(names == qn);
            }
        },
        None => {
            assert(names == qn);
        },
    }
    if i < qn.len() {
        lemma_name_from(q, i);
        assert(names[i] == qn[i]);
        let j = choose|j: int| 0 <= j < q.len() && #[trigger] in_named(q[j], qn[i]);
        assert(chs[j] == q[j]);
        assert(in_named(chs[j], names[i]));
    } else {
        assert(chs[chs.len() - 1] == chs.last());
        assert(in_named(chs[chs.len() - 1], names[i]));
    }
}

/// A named category has channels, and they are plain.
proof fn lemma_group_facts(chs: Seq<ChannelView>, i: int)
    requires
        0 <= i < category_names(chs).len(),
        forall|j: int| 0 <= j < chs.len() ==> plain_channel(#[trigger] chs[j]),
        forall|j: int| 0 <= j < chs.len() ==> plain_category_of(#[trigger] chs[j]),
    ensures
        in_category(chs, category_names(chs)[i]).len() > 0,
        plain_category(category_names(chs)[i]),
        forall|k: int|
            0 <= k < in_category(chs, category_names(chs)[i]).len() ==> plain_channel(
                #[trigger] in_category(chs, category_names(chs)[i])[k],
            ),
        forall|k: int|
            0 <= k < in_category(chs, category_names(chs)[i]).len() ==> in_named(
                #[trigger] in_category(chs, category_names(chs)[i])[k],
                category_names(chs)[i],
            ),
{
    let name = category_names(chs)[i];
    let pred = |c: ChannelView| in_named(c, name);
    lemma_name_from(chs, i);
    let j = choose|j: int| 0 <= j < chs.len() && #[trigger] in_named(chs[j], name);
    chs.lemma_filter_contains(pred, j);
    assert(plain_category_of(chs[j]));
    lemma_filter_from(chs, pred);
    let g = in_category(chs, name);
    assert forall|k: int| 0 <= k < g.len() implies plain_channel(#[trigger] g[k]) by {
        let j2 = choose|j2: int| 0 <= j2 < chs.len() && chs[j2] == #[trigger] chs.filter(pred)[k];
        assert(plain_channel(chs[j2]));
    }
    assert forall|k: int| 0 <= k < g.len() implies in_named(#[trigger] g[k], name) by {
        chs.lemma_filter_pred(pred, k);
    }
}

/// The channels without category are plain.
proof fn lemma_free_facts(chs: Seq<ChannelView>)
    requires
        forall|j: int| 0 <= j < chs.len() ==> plain_channel(#[trigger] chs[j]),
    ensures
        forall|k: int|
            0 <= k < without_category(chs).len() ==> plain_channel(
                #[trigger] without_category(chs)[k],
            ),
        forall|k: int|
            0 <= k < without_category(chs).len() ==> (#[trigger] without_category(chs)[k]).category
                is None,
{
    let pred = |c: ChannelView| c.category is None;
    lemma_filter_from(chs, pred);
    let g = without_category(chs);
    assert forall|k: int| 0 <= k < g.len() implies plain_channel(#[trigger] g[k]) by {
        let j2 = choose|j2: int| 0 <= j2 < chs.len() && chs[j2] == #[trigger] chs.filter(pred)[k];
        assert(plain_channel(chs[j2]));
    }
    assert forall|k: int| 0 <= k < g.len() implies (#[trigger] g[k]).category is None by {
        chs.lemma_filter_pred(pred, k);
    }
}

/// Two spaces: what a blank line between two lines becomes.
pub open spec fn sp2() -> Seq<char> {
    seq![' ', ' ']
}

/// The line of a category after `-cat `: its name, and `-ch` and the tail text of
/// its channels.
pub open spec fn cat_sec(chs: Seq<ChannelView>, name: Seq<char>) -> Seq<char> {
    name + sp() + (seq!['-', 'c', 'h', ' '] + tail_text(in_category(chs, name), 0))
}

/// The section of the `i`-th category in the prepared text: its line, and the
/// two spaces of the blank line after it unless it is the last one.
pub open spec fn cat_piece(chs: Seq<ChannelView>, i: int) -> Seq<char> {
    cat_sec(chs, category_names(chs)[i]) + (if i < category_names(chs).len() - 1 {
        sp2()
    } else {
        seq![]
    })
}

/// The sections of all categories, in order.
pub open spec fn cat_pieces(chs: Seq<ChannelView>) -> Seq<Seq<char>> {
    Seq::new(category_names(chs).len(), |i: int| cat_piece(chs, i))
}

/// What the channels of a category are written as, joined by spaces.
#[verifier::spinoff_prover]
proof fn lemma_group_entries(chs: Seq<ChannelView>, i: int)
    requires
        0 <= i < category_names(chs).len(),
        forall|j: int| 0 <= j < chs.len() ==> plain_channel(#[trigger] chs[j]),
        forall|j: int| 0 <= j < chs.len() ==> plain_category_of(#[trigger] chs[j]),
    ensures
        join_with(entries_in(chs, category_names(chs)[i]), sp()) == seq!['-', 'c', 'h', ' ']
            + tail_text(in_category(chs, category_names(chs)[i]), 0),
        !cat_sec(chs, category_names(chs)[i]).contains('\n'),
        no_cat(cat_piece(chs, i)),
        solid_ends(cat_sec(chs, category_names(chs)[i])),
{
    let name = category_names(chs)[i];
    let g = in_category(chs, name);
    lemma_group_facts(chs, i);
    lemma_entries_filter(chs, name);
    let es = g.map_values(|c: ChannelView| ch_entry(c));
    lemma_join_entries(g, 0);
    assert(es.subrange(0, g.len() as int) =~= es);
    let t = tail_text(g, 0);
    lemma_tail_facts(g, 0);
    lemma_tail_not_ends_cat(g, 0);
    let ch4 = seq!['-', 'c', 'h', ' '];
    let a = name + sp() + ch4;
    assert(cat_sec(chs, name) =~= a + t);
    assert(!(sp() + ch4).contains('\n'));
    lemma_no_char_concat(name, sp() + ch4, '\n');
    assert(name + (sp() + ch4) =~= a);
    lemma_no_char_concat(a, t, '\n');
    assert(no_cat(sp() + ch4));
    lemma_no_cat_concat(name, sp() + ch4);
    lemma_no_cat_concat(a, t);
    lemma_ends_cat_concat(a, t);
    assert((a + t)[0] == name[0]);
    assert((a + t).last() == t.last());
    if i < category_names(chs).len() - 1 {
        assert(no_cat(sp2()));
        lemma_no_cat_concat(a + t, sp2());
    } else {
        assert(a + t + Seq::<char>::empty() =~= a + t);
    }
}

/// A blank line after a line: two line breaks.
pub open spec fn nl2() -> Seq<char> {
    seq!['\n', '\n']
}

/// The category lines from the `i`-th on end with a blank line, and with line
/// breaks made spaces they are the category sections joined by `-cat `.
#[verifier::spinoff_prover]
proof fn lemma_groups_text(chs: Seq<ChannelView>, i: int)
    requires
        0 <= i < category_names(chs).len(),
        forall|j: int| 0 <= j < chs.len() ==> plain_channel(#[trigger] chs[j]),
        forall|j: int| 0 <= j < chs.len() ==> plain_category_of(#[trigger] chs[j]),
    ensures
        groups_text(chs, category_names(chs), i).len() >= 2,
        groups_text(chs, category_names(chs), i).subrange(
            groups_text(chs, category_names(chs), i).len() - 2,
            groups_text(chs, category_names(chs), i).len() as int,
        ) == nl2(),
        replace_char(groups_text(chs, category_names(chs), i), '\n', ' ') == cat_sep() + join_with(
            cat_pieces(chs).subrange(i, category_names(chs).len() as int),
            cat_sep(),
        ) + sp2(),
    decreases category_names(chs).len() - i,
{
    let names = category_names(chs);
    let m = names.len() as int;
    let name = names[i];
    reveal_strlit("-cat ");
    reveal_strlit("\n\n");
    assert("-cat "@ =~= cat_sep());
    assert("\n\n"@ =~= nl2());
    lemma_group_entries(chs, i);
    let cs = cat_sec(chs, name);
    let g = groups_text(chs, names, i);
    let g1 = groups_text(chs, names, i + 1);
    assert(g =~= cat_sep() + cs + nl2() + g1);
    lemma_replace_concat(cat_sep() + cs + nl2(), g1, '\n', ' ');
    lemma_replace_concat(cat_sep() + cs, nl2(), '\n', ' ');
    lemma_replace_concat(cat_sep(), cs, '\n', ' ');
    assert(!cat_sep().contains('\n'));
    lemma_replace_absent(cat_sep(), '\n', ' ');
    lemma_replace_absent(cs, '\n', ' ');
    assert(replace_char(nl2(), '\n', ' ') =~= sp2());
    let ps = cat_pieces(chs);
    if i == m - 1 {
        assert(g1 =~= Seq::<char>::empty());
        assert(replace_char(g1, '\n', ' ') =~= Seq::<char>::empty());
        assert(ps.subrange(i, m) =~= seq![cs]);
        assert(join_with(seq![cs], cat_sep()) == cs);
        assert(g =~= cat_sep() + cs + nl2());
    } else {
        lemma_groups_text(chs, i + 1);
        assert(ps[i] == cs + sp2());
        assert(ps.subrange(i, m) =~= seq![ps[i]] + ps.subrange(i + 1, m));
        lemma_join_cons(ps[i], ps.subrange(i + 1, m), cat_sep());
        assert(cat_sep() + cs + sp2() + (cat_sep() + join_with(ps.subrange(i + 1, m), cat_sep())
            + sp2()) =~= cat_sep() + (cs + sp2() + cat_sep() + join_with(
            ps.subrange(i + 1, m),
            cat_sep(),
        )) + sp2());
        assert(g.subrange(g.len() - 2, g.len() as int) =~= g1.subrange(
            g1.len() - 2,
            g1.len() as int,
        ));
    }
}

/// The section of the channels without category in the prepared text: `-ch`
/// and their tail text, and two spaces when category lines follow; nothing when
/// there are none.
pub open spec fn free_piece(chs: Seq<ChannelView>) -> Seq<char> {
    if without_category(chs).len() == 0 {
        seq![]
    } else {
        seq!['-', 'c', 'h', ' '] + tail_text(without_category(chs), 0) + (if category_names(
            chs,
        ).len() > 0 {
            sp2()
        } else {
            seq![]
        })
    }
}

/// The sections of the prepared text, between the `-cat ` separators.
pub open spec fn pieces(chs: Seq<ChannelView>) -> Seq<Seq<char>> {
    seq![free_piece(chs)] + cat_pieces(chs)
}

proof fn lemma_join_last(l: Seq<Seq<char>>, sep: Seq<char>)
    requires
        l.len() >= 1,
        l.last().len() > 0,
    ensures
        join_with(l, sep).len() > 0,
        join_with(l, sep).last() == l.last().last(),
{
}

/// A character that replacing `\n` by a space turns into something other than a
/// space was that character.
proof fn lemma_replace_keeps(s: Seq<char>, i: int)
    requires
        0 <= i < s.len(),
        replace_char(s, '\n', ' ')[i] != ' ',
    ensures
        s[i] == replace_char(s, '\n', ' ')[i],
{
}

/// The written text, trimmed and with line breaks made spaces, is its sections
/// joined by `-cat `.
#[verifier::spinoff_prover]
proof fn lemma_prepared_text(chs: Seq<ChannelView>)
    requires
        without_category(chs).len() > 0 || category_names(chs).len() > 0,
        forall|j: int| 0 <= j < chs.len() ==> plain_channel(#[trigger] chs[j]),
        forall|j: int| 0 <= j < chs.len() ==> plain_category_of(#[trigger] chs[j]),
    ensures
        prepared(text_from_channels_spec(chs)) == join_with(pieces(chs), cat_sep()),
        forall|i: int| 0 <= i < pieces(chs).len() ==> no_cat(#[trigger] pieces(chs)[i]),
{
    let names = category_names(chs);
    let m = names.len() as int;
    let f = without_category(chs);
    let e = Seq::<char>::empty();
    let t = text_from_channels_spec(chs);
    let g = groups_text(chs, names, 0);
    let ps = cat_pieces(chs);
    let ch4 = seq!['-', 'c', 'h', ' '];
    reveal_strlit("\n\n");
    assert("\n\n"@ =~= nl2());
    assert(all_ws(nl2()));
    assert(replace_char(nl2(), '\n', ' ') =~= sp2());
    lemma_entries_filter(chs, seq![]);
    lemma_free_facts(chs);
    assert(entries_without_category(chs).len() == f.len());
    let fs = if f.len() > 0 {
        ch4 + tail_text(f, 0)
    } else {
        e
    };
    if f.len() > 0 {
        lemma_join_entries(f, 0);
        let es = f.map_values(|c: ChannelView| ch_entry(c));
        assert(es.subrange(0, f.len() as int) =~= es);
        lemma_tail_facts(f, 0);
        lemma_tail_not_ends_cat(f, 0);
        assert(!ch4.contains('\n'));
        lemma_no_char_concat(ch4, tail_text(f, 0), '\n');
        lemma_replace_absent(fs, '\n', ' ');
        assert(no_cat(ch4));
        lemma_no_cat_concat(ch4, tail_text(f, 0));
        lemma_ends_cat_concat(ch4, tail_text(f, 0));
        assert(t == fs + nl2() + g);
    } else {
        assert(t == g);
    }
    assert forall|i: int| 0 <= i < ps.len() implies no_cat(#[trigger] ps[i]) by {
        lemma_group_entries(chs, i);
    }
    if m == 0 {
        assert(g =~= e);
        assert(t =~= fs + nl2());
        assert(solid_ends(fs));
        lemma_trim_pad(e, fs, nl2());
        assert(e + fs + nl2() =~= t);
        assert(free_piece(chs) =~= fs);
        assert(pieces(chs) =~= seq![fs]);
        assert(join_with(seq![fs], cat_sep()) == fs);
        assert(no_cat(fs + e)) by {
            assert(fs + e =~= fs);
        }
    } else {
        lemma_groups_text(chs, 0);
        assert(ps.subrange(0, m) =~= ps);
        let j = join_with(ps, cat_sep());
        let x = g.subrange(0, g.len() - 2);
        assert(g =~= x + nl2());
        lemma_replace_concat(x, nl2(), '\n', ' ');
        let rx = replace_char(x, '\n', ' ');
        assert(rx + sp2() == cat_sep() + j + sp2());
        assert(rx =~= (rx + sp2()).subrange(0, rx.len() as int));
        assert(rx =~= cat_sep() + j);
        lemma_group_entries(chs, m - 1);
        assert(ps.last() == cat_sec(chs, names[m - 1]) + e);
        assert(ps.last() =~= cat_sec(chs, names[m - 1]));
        lemma_join_last(ps, cat_sep());
        assert(rx.last() == j.last());
        lemma_replace_keeps(x, x.len() - 1);
        assert(x.last() == rx.last());
        assert(rx[0] == '-');
        lemma_replace_keeps(x, 0);
        let tp = fs + (if f.len() > 0 {
            nl2()
        } else {
            e
        }) + x;
        assert(t =~= tp + nl2());
        assert(tp.last() == x.last());
        assert(tp[0] == '-');
        lemma_trim_pad(e, tp, nl2());
        assert(e + tp + nl2() =~= t);
        assert(trim(t) == tp);
        if f.len() > 0 {
            lemma_replace_concat(fs + nl2(), x, '\n', ' ');
            lemma_replace_concat(fs, nl2(), '\n', ' ');
            assert(replace_char(tp, '\n', ' ') == fs + sp2() + (cat_sep() + j));
            assert(free_piece(chs) == fs + sp2());
            lemma_join_cons(fs + sp2(), ps, cat_sep());
            assert(pieces(chs) =~= seq![fs + sp2()] + ps);
            assert(fs + sp2() + (cat_sep() + j) =~= fs + sp2() + cat_sep() + j);
            assert(no_cat(sp2()));
            lemma_no_cat_concat(fs, sp2());
        } else {
            assert(tp =~= x);
            assert(free_piece(chs) == e);
            lemma_join_cons(e, ps, cat_sep());
            assert(pieces(chs) =~= seq![e] + ps);
            assert(e + cat_sep() + j =~= cat_sep() + j);
        }
    }
    assert forall|i: int| 0 <= i < pieces(chs).len() implies no_cat(#[trigger] pieces(chs)[i]) by {
        if i > 0 {
            assert(pieces(chs)[i] == ps[i - 1]);
        }
    }
}

/// What reading back gives for each channel.
pub open spec fn reparsed_all(chs: Seq<ChannelView>) -> Seq<ChannelView> {
    chs.map_values(|c: ChannelView| reparsed(c))
}

/// The bodies from channel `k` on read back as those channels.
proof fn lemma_bodies_reparsed(chs: Seq<ChannelView>, k: int, cat: Option<CategoryView>)
    requires
        0 <= k <= chs.len(),
        forall|i: int| 0 <= i < chs.len() ==> plain_channel(#[trigger] chs[i]),
        forall|i: int| 0 <= i < chs.len() ==> (#[trigger] reparsed(chs[i])).category == cat,
    ensures
        channels_spec(bodies(chs), k, cat) == Some(
            Ok::<Seq<ChannelView>, ()>(reparsed_all(chs).subrange(k, chs.len() as int)),
        ),
    decreases chs.len() - k,
{
    let n = chs.len() as int;
    if k == n {
        assert(reparsed_all(chs).subrange(k, n) =~= Seq::<ChannelView>::empty());
    } else {
        lemma_bodies_reparsed(chs, k + 1, cat);
        assert(bodies(chs)[k] == body(chs[k]));
        lemma_body_reparsed(chs[k], cat);
        assert(reparsed(chs[k]).category == cat);
        assert(ChannelView { category: cat, ..reparsed(chs[k]) } == reparsed(chs[k]));
        assert(seq![reparsed(chs[k])] + reparsed_all(chs).subrange(k + 1, n) =~= reparsed_all(
            chs,
        ).subrange(k, n));
    }
}

/// The channels of the categories from the `i`-th on, category by category.
pub open spec fn grouped_from(chs: Seq<ChannelView>, i: int) -> Seq<ChannelView>
    decreases category_names(chs).len() - i,
{
    if i < 0 || i >= category_names(chs).len() {
        seq![]
    } else {
        in_category(chs, category_names(chs)[i]) + grouped_from(chs, i + 1)
    }
}

/// The channels in the order the written text lists them: first those without
/// category, then those of each category, in the order the categories first
/// appear.
pub open spec fn grouped(chs: Seq<ChannelView>) -> Seq<ChannelView> {
    without_category(chs) + grouped_from(chs, 0)
}

proof fn lemma_reparsed_concat(a: Seq<ChannelView>, b: Seq<ChannelView>)
    ensures
        reparsed_all(a + b) == reparsed_all(a) + reparsed_all(b),
{
    assert(reparsed_all(a + b) =~= reparsed_all(a) + reparsed_all(b));
}

/// The category sections from the `i`-th on read back as the channels of those
/// categories.
#[verifier::spinoff_prover]
proof fn lemma_sections_groups(chs: Seq<ChannelView>, i: int)
    requires
        0 <= i <= category_names(chs).len(),
        forall|j: int| 0 <= j < chs.len() ==> plain_channel(#[trigger] chs[j]),
        forall|j: int| 0 <= j < chs.len() ==> plain_category_of(#[trigger] chs[j]),
    ensures
        sections_spec(pieces(chs), 1 + i) == Some(
            Ok::<Seq<ChannelView>, ()>(reparsed_all(grouped_from(chs, i))),
        ),
    decreases category_names(chs).len() - i,
{
    let names = category_names(chs);
    let m = names.len() as int;
    let ps = pieces(chs);
    if i == m {
        assert(reparsed_all(Seq::<ChannelView>::empty()) =~= Seq::<ChannelView>::empty());
    } else {
        let name = names[i];
        let g = in_category(chs, name);
        lemma_group_facts(chs, i);
        lemma_group_entries(chs, i);
        let r = if i < m - 1 {
            sp2()
        } else {
            seq![]
        };
        assert(all_ws(r));
        assert(ps[1 + i] == cat_piece(chs, i));
        assert(cat_piece(chs, i) == name + sp() + (seq!['-', 'c', 'h', ' '] + tail_text(g, 0)) + r);
        lemma_parse_named(g, name, r);
        let cat = Some(CategoryView { category: name, roles: None, private: false });
        assert forall|k: int| 0 <= k < g.len() implies (#[trigger] reparsed(g[k])).category == cat by {
            assert(in_named(g[k], name));
        }
        lemma_bodies_reparsed(g, 0, cat);
        assert(reparsed_all(g).subrange(0, g.len() as int) =~= reparsed_all(g));
        lemma_sections_groups(chs, i + 1);
        lemma_reparsed_concat(g, grouped_from(chs, i + 1));
    }
}

/// All the sections read back as the channels, in the written order.
#[verifier::spinoff_prover]
proof fn lemma_sections_all(chs: Seq<ChannelView>)
    requires
        forall|j: int| 0 <= j < chs.len() ==> plain_channel(#[trigger] chs[j]),
        forall|j: int| 0 <= j < chs.len() ==> plain_category_of(#[trigger] chs[j]),
    ensures
        sections_spec(pieces(chs), 0) == Some(Ok::<Seq<ChannelView>, ()>(reparsed_all(grouped(chs)))),
{
    let f = without_category(chs);
    let ps = pieces(chs);
    lemma_sections_groups(chs, 0);
    lemma_reparsed_concat(f, grouped_from(chs, 0));
    if f.len() == 0 {
        assert(ps[0].len() == 0);
        assert(reparsed_all(f) =~= Seq::<ChannelView>::empty());
        assert(reparsed_all(f) + reparsed_all(grouped_from(chs, 0)) =~= reparsed_all(
            grouped_from(chs, 0),
        ));
    } else {
        lemma_free_facts(chs);
        let r = if category_names(chs).len() > 0 {
            sp2()
        } else {
            seq![]
        };
        assert(all_ws(r));
        assert(ps[0] == seq!['-', 'c', 'h', ' '] + tail_text(f, 0) + r);
        lemma_parse_written(f, r);
        assert(base_category(written_args(f)) is None);
        assert forall|k: int| 0 <= k < f.len() implies (#[trigger] reparsed(f[k])).category
            == None::<CategoryView> by {
            assert(f[k].category is None);
        }
        lemma_bodies_reparsed(f, 0, None);
        assert(reparsed_all(f).subrange(0, f.len() as int) =~= reparsed_all(f));
    }
}

/// Channels written as a command text by `text_from_channels` (the `/copy`
/// command) read back by `parse_to_channel` (the `/create` command) as the same
/// channels, each with its name, kind, privacy and category name, listed as the
/// text lists them: first those without category, then those of each category
/// in the order the categories first appear (a rearrangement of the channels:
/// `lemma_grouped_rearranges`). Roles, and a category's roles and
/// privacy, are not written. This holds for names that read back as themselves
/// (`plain_channel`, `plain_category`).
pub proof fn lemma_copy_round_trip(chs: Seq<ChannelView>)
    requires
        forall|i: int| 0 <= i < chs.len() ==> plain_channel(#[trigger] chs[i]),
        forall|i: int| 0 <= i < chs.len() ==> plain_category_of(#[trigger] chs[i]),
    ensures
        parse_to_channel_spec(text_from_channels_spec(chs)) == Some(
            Ok::<Seq<ChannelView>, ()>(reparsed_all(grouped(chs))),
        ),
{
    {
        let e = Seq::<char>::empty();
        let t = text_from_channels_spec(chs);
        lemma_sections_all(chs);
        if without_category(chs).len() == 0 && category_names(chs).len() == 0 {
            lemma_entries_filter(chs, e);
            assert(entries_without_category(chs).len() == 0);
            assert(groups_text(chs, category_names(chs), 0) == e);
            assert(t =~= e);
            assert(trim(e) =~= e);
            assert(prepared(e) =~= e);
            assert(split(e, cat_sep()) == seq![e]);
            assert(sections_spec(seq![e], 1) == Some(Ok::<Seq<ChannelView>, ()>(seq![])));
            assert(pieces(chs) =~= seq![e]);
        } else {
            lemma_prepared_text(chs);
            lemma_split_pieces(pieces(chs));
        }
    }
}

/// How many times `x` occurs in `s`.
pub open spec fn occurrences(s: Seq<ChannelView>, x: ChannelView) -> nat {
    s.to_multiset().count(x)
}

proof fn lemma_occurrences_push(s: Seq<ChannelView>, a: ChannelView, x: ChannelView)
    ensures
        occurrences(s.push(a), x) == occurrences(s, x) + (if a == x {
            1nat
        } else {
            0nat
        }),
{
    broadcast use vstd::multiset::group_multiset_axioms;

    s.to_multiset_ensures();
}

proof fn lemma_occurrences_add(a: Seq<ChannelView>, b: Seq<ChannelView>, x: ChannelView)
    ensures
        occurrences(a + b, x) == occurrences(a, x) + occurrences(b, x),
{
    broadcast use vstd::multiset::group_multiset_axioms;

    vstd::seq_lib::lemma_multiset_commutative(a, b);
}

/// A filter keeps every occurrence of what it picks, and nothing else.
proof fn lemma_occurrences_filter(
    s: Seq<ChannelView>,
    pred: spec_fn(ChannelView) -> bool,
    x: ChannelView,
)
    ensures
        occurrences(s.filter(pred), x) == if pred(x) {
            occurrences(s, x)
        } else {
            0
        },
    decreases s.len(),
{
    reveal(Seq::filter);
    broadcast use vstd::multiset::group_multiset_axioms;

    if s.len() == 0 {
        s.to_multiset_ensures();
        s.filter(pred).to_multiset_ensures();
        assert(s.filter(pred) =~= s);
    } else {
        let q = s.drop_last();
        lemma_occurrences_filter(q, pred, x);
        assert(q.push(s.last()) =~= s);
        lemma_occurrences_push(q, s.last(), x);
        if pred(s.last()) {
            lemma_occurrences_push(q.filter(pred), s.last(), x);
        }
    }
}

/// The category names of the channels are all different.
proof fn lemma_names_distinct(chs: Seq<ChannelView>)
    ensures
        forall|i: int, j: int|
            0 <= i < j < category_names(chs).len() ==> category_names(chs)[i] != category_names(
                chs,
            )[j],
    decreases chs.len(),
{
    if chs.len() > 0 {
        let q = chs.drop_last();
        lemma_names_distinct(q);
        let qn = category_names(q);
        match chs.last().category {
            Some(k) => {
                if !qn.contains(k.category) {
                    assert(category_names(chs) == qn.push(k.category));
                    assert forall|i: int, j: int|
                        0 <= i < j < category_names(chs).len() implies category_names(chs)[i]
                        != category_names(chs)[j] by {
                        if j == qn.len() {
                            assert(category_names(chs)[i] == qn[i]);
                        } else {
                            assert(category_names(chs)[i] == qn[i]);
                            assert(category_names(chs)[j] == qn[j]);
                        }
                    }
                }
            },
            None => {},
        }
    }
}

/// The category of every channel is among the category names.
proof fn lemma_names_cover(chs: Seq<ChannelView>, j: int)
    requires
        0 <= j < chs.len(),
        chs[j].category is Some,
    ensures
        category_names(chs).contains(chs[j].category->0.category),
    decreases chs.len(),
{
    let q = chs.drop_last();
    let qn = category_names(q);
    let name = chs[j].category->0.category;
    if j < q.len() {
        assert(q[j] == chs[j]);
        lemma_names_cover(q, j);
        let k = choose|k: int| 0 <= k < qn.len() && qn[k] == name;
        match chs.last().category {
            Some(c) => {
                if !qn.contains(c.category) {
                    assert(category_names(chs) == qn.push(c.category));
                    assert(category_names(chs)[k] == name);
                } else {
                    assert(category_names(chs) == qn);
                }
            },
            None => {
                assert(category_names(chs) == qn);
            },
        }
    } else {
        assert(chs.last() == chs[j]);
        match chs.last().category {
            Some(c) => {
                if !qn.contains(c.category) {
                    assert(category_names(chs) == qn.push(c.category));
                    assert(category_names(chs)[qn.len() as int] == name);
                } else {
                    assert(category_names(chs) == qn);
                }
            },
            None => {},
        }
    }
}

/// The channels of the categories from the `i`-th on hold each channel of one
/// of those categories as often as the channels do.
proof fn lemma_occurrences_groups(chs: Seq<ChannelView>, i: int, x: ChannelView)
    requires
        0 <= i <= category_names(chs).len(),
    ensures
        occurrences(grouped_from(chs, i), x) == if exists|k: int|
            i <= k < category_names(chs).len() && in_named(x, #[trigger] category_names(chs)[k]) {
            occurrences(chs, x)
        } else {
            0
        },
    decreases category_names(chs).len() - i,
{
    broadcast use vstd::multiset::group_multiset_axioms;

    let names = category_names(chs);
    if i == names.len() {
        Seq::<ChannelView>::empty().to_multiset_ensures();
    } else {
        lemma_occurrences_groups(chs, i + 1, x);
        let name = names[i];
        lemma_occurrences_add(in_category(chs, name), grouped_from(chs, i + 1), x);
        lemma_occurrences_filter(chs, |c: ChannelView| in_named(c, name), x);
        if in_named(x, name) {
            lemma_names_distinct(chs);
            assert forall|k: int| i + 1 <= k < names.len() implies !in_named(
                x,
                #[trigger] names[k],
            ) by {
                assert(names[i] != names[k]);
            }
        }
    }
}

/// The written order only rearranges the channels: each occurs in it as often
/// as among the channels.
pub proof fn lemma_grouped_rearranges(chs: Seq<ChannelView>)
    ensures
        grouped(chs).to_multiset() == chs.to_multiset(),
{
    assert forall|x: ChannelView| grouped(chs).to_multiset().count(x) == chs.to_multiset().count(
        x,
    ) by {
        lemma_occurrences_add(without_category(chs), grouped_from(chs, 0), x);
        lemma_occurrences_filter(chs, |c: ChannelView| c.category is None, x);
        lemma_occurrences_groups(chs, 0, x);
        let names = category_names(chs);
        if occurrences(chs, x) > 0 {
            chs.to_multiset_ensures();
            let j = choose|j: int| 0 <= j < chs.len() && chs[j] == x;
            if x.category is Some {
                lemma_names_cover(chs, j);
                let k = choose|k: int| 0 <= k < names.len() && names[k] == x.category->0.category;
                assert(in_named(x, names[k]));
            }
        } else {
            assert(occurrences(chs, x) == 0);
        }
    }
    assert(grouped(chs).to_multiset() =~= chs.to_multiset());
}

/// Reading channels back keeps a rearrangement a rearrangement.
proof fn lemma_reparsed_rearranges(a: Seq<ChannelView>, b: Seq<ChannelView>)
    requires
        a.to_multiset() == b.to_multiset(),
    ensures
        reparsed_all(a).to_multiset() == reparsed_all(b).to_multiset(),
    decreases a.len(),
{
    broadcast use vstd::multiset::group_multiset_axioms;

    a.to_multiset_ensures();
    b.to_multiset_ensures();
    reparsed_all(a).to_multiset_ensures();
    reparsed_all(b).to_multiset_ensures();
    if a.len() == 0 {
        assert(reparsed_all(a).len() == 0);
        assert(reparsed_all(b).len() == 0);
        assert(reparsed_all(a) =~= reparsed_all(b));
    } else {
        let x = a.last();
        let q = a.drop_last();
        assert(q.push(x) =~= a);
        q.to_multiset_ensures();
        assert(a.to_multiset().count(x) > 0);
        assert(b.contains(x));
        let i = choose|i: int| 0 <= i < b.len() && b[i] == x;
        let r = b.remove(i);
        assert(r.to_multiset() =~= b.to_multiset().remove(x));
        assert(q.to_multiset() =~= a.to_multiset().remove(x));
        lemma_reparsed_rearranges(q, r);
        assert(reparsed_all(q).push(reparsed(x)) =~= reparsed_all(a));
        reparsed_all(q).to_multiset_ensures();
        assert(reparsed_all(r) =~= reparsed_all(b).remove(i));
        assert(reparsed_all(b)[i] == reparsed(x));
        assert(reparsed_all(b).to_multiset() =~= reparsed_all(r).to_multiset().insert(reparsed(x)));
    }
}

/// The written text of plain channels, read back, gives each channel's name,
/// kind, privacy and category name exactly as often as the channels hold it.
pub proof fn lemma_copy_round_trip_rearranges(chs: Seq<ChannelView>)
    requires
        forall|i: int| 0 <= i < chs.len() ==> plain_channel(#[trigger] chs[i]),
        forall|i: int| 0 <= i < chs.len() ==> plain_category_of(#[trigger] chs[i]),
    ensures
        parse_to_channel_spec(text_from_channels_spec(chs)) matches Some(Ok(v)) && v.to_multiset()
            == reparsed_all(chs).to_multiset(),
{
    lemma_copy_round_trip(chs);
    lemma_grouped_rearranges(chs);
    lemma_reparsed_rearranges(grouped(chs), chs);
}

} // verus!
