//! Facts about the text operations of `text`, used to reason about what the
//! parser makes of texts that the library writes.
use vstd::prelude::*;
use crate::text::{find_from, is_ws, match_at, remove_n, replace_char, split, trim, trim_end, trim_start};

verus! {

/// All characters of `s` are whitespace.
pub open spec fn all_ws(s: Seq<char>) -> bool {
    forall|i: int| 0 <= i < s.len() ==> is_ws(#[trigger] s[i])
}

/// `s` is empty or starts and ends with a character that is not whitespace.
pub open spec fn solid_ends(s: Seq<char>) -> bool {
    s.len() == 0 || (!is_ws(s[0]) && !is_ws(s.last()))
}

/// `p` occurs somewhere in `s`.
pub open spec fn is_part(p: Seq<char>, s: Seq<char>) -> bool {
    exists|i: int| match_at(s, p, i)
}

pub proof fn lemma_trim_start_ws_prefix(l: Seq<char>, s: Seq<char>)
    requires
        all_ws(l),
        s.len() == 0 || !is_ws(s[0]),
    ensures
        trim_start(l + s) == s,
    decreases l.len(),
{
    if l.len() == 0 {
        assert(l + s =~= s);
    } else {
        assert((l + s).drop_first() =~= l.drop_first() + s);
        lemma_trim_start_ws_prefix(l.drop_first(), s);
    }
}

pub proof fn lemma_trim_end_ws_suffix(s: Seq<char>, r: Seq<char>)
    requires
        all_ws(r),
        s.len() == 0 || !is_ws(s.last()),
    ensures
        trim_end(s + r) == s,
    decreases r.len(),
{
    if r.len() == 0 {
        assert(s + r =~= s);
    } else {
        assert((s + r).drop_last() =~= s + r.drop_last());
        lemma_trim_end_ws_suffix(s, r.drop_last());
    }
}

/// Trimming whitespace padding off a text with solid ends gives the text.
pub proof fn lemma_trim_pad(l: Seq<char>, s: Seq<char>, r: Seq<char>)
    requires
        all_ws(l),
        all_ws(r),
        solid_ends(s),
    ensures
        trim(l + s + r) == s,
{
    if s.len() == 0 {
        assert(l + s + r =~= (l + r) + Seq::<char>::empty());
        assert(all_ws(l + r));
        lemma_trim_start_ws_prefix(l + r, Seq::<char>::empty());
        assert(trim_end(Seq::<char>::empty()) == Seq::<char>::empty());
    } else {
        assert(l + s + r =~= l + (s + r));
        lemma_trim_start_ws_prefix(l, s + r);
        lemma_trim_end_ws_suffix(s, r);
    }
}

pub proof fn lemma_trim_solid(s: Seq<char>)
    requires
        solid_ends(s),
    ensures
        trim(s) == s,
{
    lemma_trim_pad(seq![], s, seq![]);
    assert(Seq::<char>::empty() + s + Seq::<char>::empty() =~= s);
}

pub proof fn lemma_trim_all_ws(s: Seq<char>)
    requires
        all_ws(s),
    ensures
        trim(s) == Seq::<char>::empty(),
{
    lemma_trim_pad(s, seq![], seq![]);
    assert(s + Seq::<char>::empty() + Seq::<char>::empty() =~= s);
}

/// The first match at or after `i` is at `k` when `k` matches and nothing
/// between `i` and `k` does.
pub proof fn lemma_find_first(s: Seq<char>, p: Seq<char>, i: int, k: int)
    requires
        0 <= i <= k,
        match_at(s, p, k),
        forall|j: int| i <= j < k ==> !match_at(s, p, j),
    ensures
        find_from(s, p, i) == Some(k),
    decreases k - i,
{
    if i < k {
        lemma_find_first(s, p, i + 1, k);
    }
}

/// Nothing is found where nothing matches.
pub proof fn lemma_find_none(s: Seq<char>, p: Seq<char>, i: int)
    requires
        0 <= i,
        forall|j: int| i <= j ==> !match_at(s, p, j),
    ensures
        find_from(s, p, i) is None,
    decreases s.len() + 1 - i,
{
    if i + p.len() <= s.len() {
        lemma_find_none(s, p, i + 1);
    }
}

/// A match of a one-character pattern is an occurrence of the character.
pub proof fn lemma_match_char(s: Seq<char>, c: char, j: int)
    ensures
        match_at(s, seq![c], j) <==> (0 <= j < s.len() && s[j] == c),
{
    if 0 <= j < s.len() && s[j] == c {
        assert(s.subrange(j, j + 1) =~= seq![c]);
    }
    if match_at(s, seq![c], j) {
        assert(s.subrange(j, j + 1)[0] == s[j]);
    }
}

/// Removing the first occurrence of a prefix leaves the rest.
pub proof fn lemma_remove_prefix(p: Seq<char>, x: Seq<char>)
    ensures
        remove_n(p + x, p, 1) == x,
{
    assert((p + x).subrange(0, p.len() as int) =~= p);
    lemma_find_first(p + x, p, 0, 0);
    assert(remove_n((p + x).skip(p.len() as int), p, 0) == (p + x).skip(p.len() as int));
    assert((p + x).take(0) + (p + x).skip(p.len() as int) =~= x);
}

/// Removing the first occurrence of `p`, found at `k`.
pub proof fn lemma_remove_at(s: Seq<char>, p: Seq<char>, k: int)
    requires
        find_from(s, p, 0) == Some(k),
    ensures
        k + p.len() <= s.len(),
        remove_n(s, p, 1) == s.take(k) + s.skip(k + p.len()),
{
    crate::text::lemma_find_from_bounds(s, p, 0);
    assert(remove_n(s.skip(k + p.len()), p, 0) == s.skip(k + p.len()));
}

/// Removing an empty pattern changes nothing.
pub proof fn lemma_remove_n_empty(s: Seq<char>, n: nat)
    ensures
        remove_n(s, seq![], n) == s,
    decreases n,
{
    if n > 0 {
        assert(s.subrange(0, 0) =~= Seq::<char>::empty());
        lemma_find_first(s, seq![], 0, 0);
        lemma_remove_n_empty(s, (n - 1) as nat);
        assert(s.take(0) + s.skip(0) =~= s);
        assert(s.skip(0) =~= s);
    }
}

/// Splitting a text without the separator character gives the text.
pub proof fn lemma_split_none(a: Seq<char>, c: char)
    requires
        !a.contains(c),
    ensures
        split(a, seq![c]) == seq![a],
{
    assert forall|j: int| 0 <= j implies !match_at(a, seq![c], j) by {
        lemma_match_char(a, c, j);
    }
    lemma_find_none(a, seq![c], 0);
}

/// Splitting at a separator character splits each side.
pub proof fn lemma_split_concat(a: Seq<char>, c: char, b: Seq<char>)
    ensures
        split(a + seq![c] + b, seq![c]) == split(a, seq![c]) + split(b, seq![c]),
    decreases a.len(),
{
    let s = a + seq![c] + b;
    if a.contains(c) {
        let k = choose|k: int| 0 <= k < a.len() && a[k] == c;
        let first = choose|f: int|
            0 <= f < a.len() && a[f] == c && forall|j: int| 0 <= j < f ==> a[j] != c;
        assert(exists|f: int| 0 <= f < a.len() && a[f] == c && forall|j: int| 0 <= j < f ==> a[j] != c) by {
            lemma_first_index(a, c, k);
        }
        assert forall|j: int| 0 <= j < first implies !match_at(s, seq![c], j) by {
            lemma_match_char(s, c, j);
            assert(s[j] == a[j]);
        }
        lemma_match_char(s, c, first);
        assert(s[first] == a[first]);
        lemma_find_first(s, seq![c], 0, first);
        assert forall|j: int| 0 <= j < first implies !match_at(a, seq![c], j) by {
            lemma_match_char(a, c, j);
        }
        lemma_match_char(a, c, first);
        lemma_find_first(a, seq![c], 0, first);
        let rest = a.skip(first + 1);
        assert(s.skip(first + 1) =~= rest + seq![c] + b);
        assert(s.take(first) =~= a.take(first));
        lemma_split_concat(rest, c, b);
        assert(split(s, seq![c]) == seq![a.take(first)] + split(s.skip(first + 1), seq![c]));
        assert(split(a, seq![c]) == seq![a.take(first)] + split(a.skip(first + 1), seq![c]));
        assert(seq![a.take(first)] + (split(rest, seq![c]) + split(b, seq![c])) =~= (seq![
            a.take(first),
        ] + split(rest, seq![c])) + split(b, seq![c]));
    } else {
        assert forall|j: int| 0 <= j < a.len() implies !match_at(s, seq![c], j) by {
            lemma_match_char(s, c, j);
            assert(s[j] == a[j]);
        }
        lemma_match_char(s, c, a.len() as int);
        lemma_find_first(s, seq![c], 0, a.len() as int);
        assert(s.take(a.len() as int) =~= a);
        assert(s.skip(a.len() as int + 1) =~= b);
        lemma_split_none(a, c);
    }
}

proof fn lemma_first_index(a: Seq<char>, c: char, k: int)
    requires
        0 <= k < a.len(),
        a[k] == c,
    ensures
        exists|f: int| 0 <= f < a.len() && a[f] == c && forall|j: int| 0 <= j < f ==> a[j] != c,
    decreases k,
{
    if exists|j: int| 0 <= j < k && a[j] == c {
        let j = choose|j: int| 0 <= j < k && a[j] == c;
        lemma_first_index(a, c, j);
    } else {
        assert(forall|j: int| 0 <= j < k ==> a[j] != c);
    }
}

/// Replacing a character that does not occur changes nothing.
pub proof fn lemma_replace_absent(s: Seq<char>, a: char, b: char)
    requires
        !s.contains(a),
    ensures
        replace_char(s, a, b) == s,
{
    assert forall|i: int| 0 <= i < s.len() implies replace_char(s, a, b)[i] == s[i] by {
        if s[i] == a {
            assert(s.contains(a));
        }
    }
    assert(replace_char(s, a, b) =~= s);
}

} // verus!
