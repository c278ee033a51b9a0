//! Character-level text operations used by the command parser: whitespace,
//! trimming, searching, splitting and removing substrings, all over `Seq<char>`.
use vstd::prelude::*;

verus! {

/// The Unicode `White_Space` property, which is what `char::is_whitespace` tests.
pub open spec fn is_ws(c: char) -> bool {
    let u = c as u32;
    ||| 0x09 <= u <= 0x0D
    ||| u == 0x20
    ||| u == 0x85
    ||| u == 0xA0
    ||| u == 0x1680
    ||| 0x2000 <= u <= 0x200A
    ||| u == 0x2028
    ||| u == 0x2029
    ||| u == 0x202F
    ||| u == 0x205F
    ||| u == 0x3000
}

pub fn is_whitespace(c: char) -> (r: bool)
    ensures
        r == is_ws(c),
{
    let u = c as u32;
    (0x09 <= u && u <= 0x0D) || u == 0x20 || u == 0x85 || u == 0xA0 || u == 0x1680 || (0x2000
        <= u && u <= 0x200A) || u == 0x2028 || u == 0x2029 || u == 0x202F || u == 0x205F || u
        == 0x3000
}

/// Number of bytes in the UTF-8 encoding of one character.
pub open spec fn utf8_width(c: char) -> nat {
    let u = c as u32;
    if u < 0x80 {
        1
    } else if u < 0x800 {
        2
    } else if u < 0x10000 {
        3
    } else {
        4
    }
}

/// Number of bytes in the UTF-8 encoding of a text.
pub open spec fn utf8_len(s: Seq<char>) -> nat
    decreases s.len(),
{
    if s.len() == 0 {
        0
    } else {
        utf8_len(s.drop_last()) + utf8_width(s.last())
    }
}

/// `s` without leading whitespace (`str::trim_start`).
pub open spec fn trim_start(s: Seq<char>) -> Seq<char>
    decreases s.len(),
{
    if s.len() > 0 && is_ws(s[0]) {
        trim_start(s.drop_first())
    } else {
        s
    }
}

/// `s` without trailing whitespace (`str::trim_end`).
pub open spec fn trim_end(s: Seq<char>) -> Seq<char>
    decreases s.len(),
{
    if s.len() > 0 && is_ws(s.last()) {
        trim_end(s.drop_last())
    } else {
        s
    }
}

/// `s` without leading and trailing whitespace (`str::trim`).
pub open spec fn trim(s: Seq<char>) -> Seq<char> {
    trim_end(trim_start(s))
}

/// `p` occurs in `s` at position `i`.
pub open spec fn match_at(s: Seq<char>, p: Seq<char>, i: int) -> bool {
    0 <= i && i + p.len() <= s.len() && s.subrange(i, i + p.len()) == p
}

/// The first position at or after `i` where `p` occurs in `s`.
pub open spec fn find_from(s: Seq<char>, p: Seq<char>, i: int) -> Option<int>
    decreases s.len() + 1 - i,
{
    if i < 0 || i + p.len() > s.len() {
        None
    } else if match_at(s, p, i) {
        Some(i)
    } else {
        find_from(s, p, i + 1)
    }
}

/// `s` with the first `n` non-overlapping occurrences of `p`, scanned from the
/// left, removed (`str::replacen(p, "", n)`).
pub open spec fn remove_n(s: Seq<char>, p: Seq<char>, n: nat) -> Seq<char>
    decreases n,
{
    if n == 0 {
        s
    } else {
        match find_from(s, p, 0) {
            None => s,
            Some(i) => s.take(i) + remove_n(s.skip(i + p.len()), p, (n - 1) as nat),
        }
    }
}

/// `s` with every non-overlapping occurrence of `p`, scanned from the left,
/// removed (`str::replace(p, "")`).
pub open spec fn remove_all(s: Seq<char>, p: Seq<char>) -> Seq<char>
    decreases s.len(),
{
    if p.len() == 0 {
        s
    } else {
        match find_from(s, p, 0) {
            None => s,
            Some(i) => if i + p.len() <= s.len() && 0 <= i {
                s.take(i) + remove_all(s.skip(i + p.len()), p)
            } else {
                s
            },
        }
    }
}

/// The pieces of `s` between the non-overlapping occurrences of the non-empty
/// separator `p` (`str::split(p)`).
pub open spec fn split(s: Seq<char>, p: Seq<char>) -> Seq<Seq<char>>
    decreases s.len(),
{
    if p.len() == 0 {
        seq![s]
    } else {
        match find_from(s, p, 0) {
            None => seq![s],
            Some(i) => if i + p.len() <= s.len() && 0 <= i {
                seq![s.take(i)] + split(s.skip(i + p.len()), p)
            } else {
                seq![s]
            },
        }
    }
}

/// Every occurrence of the character `a` replaced by `b`.
pub open spec fn replace_char(s: Seq<char>, a: char, b: char) -> Seq<char> {
    s.map_values(|c: char| if c == a { b } else { c })
}

/// The texts of a sequence of character vectors.
pub open spec fn seqs_of(v: Seq<Vec<char>>) -> Seq<Seq<char>> {
    v.map_values(|x: Vec<char>| x@)
}

/// The texts of a sequence of strings.
pub open spec fn strs_of(v: Seq<String>) -> Seq<Seq<char>> {
    v.map_values(|x: String| x@)
}

pub proof fn lemma_find_from_bounds(s: Seq<char>, p: Seq<char>, i: int)
    ensures
        find_from(s, p, i) matches Some(j) ==> i <= j && match_at(s, p, j) && j + p.len()
            <= s.len(),
    decreases s.len() + 1 - i,
{
    if i < 0 || i + p.len() > s.len() {
    } else if match_at(s, p, i) {
    } else {
        lemma_find_from_bounds(s, p, i + 1);
    }
}

/// Searching `s` from `pos + k` is searching `s.skip(pos)` from `k`.
pub proof fn lemma_find_skip(s: Seq<char>, p: Seq<char>, pos: int, k: int)
    requires
        0 <= pos <= s.len(),
        0 <= k,
    ensures
        find_from(s, p, pos + k) == (match find_from(s.skip(pos), p, k) {
            Some(j) => Some(j + pos),
            None => None,
        }),
    decreases s.len() + 1 - (pos + k),
{
    let t = s.skip(pos);
    if pos + k + p.len() > s.len() {
    } else {
        assert(t.subrange(k, k + p.len()) =~= s.subrange(pos + k, pos + k + p.len()));
        if match_at(s, p, pos + k) {
        } else {
            lemma_find_skip(s, p, pos, k + 1);
        }
    }
}

/// Copy of `s[a..b]`.
pub fn copy_range(s: &[char], a: usize, b: usize) -> (r: Vec<char>)
    requires
        a <= b <= s.len(),
    ensures
        r@ == s@.subrange(a as int, b as int),
{
    let mut r: Vec<char> = Vec::new();
    let mut i = a;
    while i < b
        invariant
            a <= i <= b <= s.len(),
            r@ == s@.subrange(a as int, i as int),
        decreases b - i,
    {
        r.push(s[i]);
        assert(r@ =~= s@.subrange(a as int, i + 1));
        i += 1;
    }
    r
}

/// Appends `s[a..b]` to `out`.
pub fn append_range(out: &mut Vec<char>, s: &[char], a: usize, b: usize)
    requires
        a <= b <= s.len(),
    ensures
        final(out)@ == old(out)@ + s@.subrange(a as int, b as int),
{
    let mut i = a;
    while i < b
        invariant
            a <= i <= b <= s.len(),
            out@ == old(out)@ + s@.subrange(a as int, i as int),
        decreases b - i,
    {
        out.push(s[i]);
        assert(out@ =~= old(out)@ + s@.subrange(a as int, i + 1));
        i += 1;
    }
}

/// Appends all of `s` to `out`.
pub fn append_all(out: &mut Vec<char>, s: &[char])
    ensures
        final(out)@ == old(out)@ + s@,
{
    append_range(out, s, 0, s.len());
    assert(s@.subrange(0, s@.len() as int) =~= s@);
}

/// Character-wise equality.
pub fn chars_eq(a: &[char], b: &[char]) -> (r: bool)
    ensures
        r == (a@ == b@),
{
    if a.len() != b.len() {
        return false;
    }
    let mut i: usize = 0;
    while i < a.len()
        invariant
            a.len() == b.len(),
            i <= a.len(),
            forall|k: int| 0 <= k < i ==> a@[k] == b@[k],
        decreases a.len() - i,
    {
        if a[i] != b[i] {
            return false;
        }
        i += 1;
    }
    assert(a@ =~= b@);
    true
}

/// `trim` on a character slice.
pub fn trim_chars(s: &[char]) -> (r: Vec<char>)
    ensures
        r@ == trim(s@),
{
    let mut i: usize = 0;
    assert(s@.skip(0) =~= s@);
    while i < s.len() && is_whitespace(s[i])
        invariant
            i <= s.len(),
            trim_start(s@.skip(i as int)) == trim_start(s@),
        decreases s.len() - i,
    {
        assert(s@.skip(i as int).drop_first() =~= s@.skip(i + 1));
        i += 1;
    }
    assert(trim_start(s@.skip(i as int)) == s@.skip(i as int));
    let ghost t = s@.skip(i as int);
    assert(s@.subrange(i as int, s.len() as int) =~= t);
    let mut j: usize = s.len();
    while j > i && is_whitespace(s[j - 1])
        invariant
            i <= j <= s.len(),
            t == s@.skip(i as int),
            trim_end(s@.subrange(i as int, j as int)) == trim_end(t),
        decreases j,
    {
        assert(s@.subrange(i as int, j as int).drop_last() =~= s@.subrange(i as int, j - 1));
        j -= 1;
    }
    assert(trim_end(s@.subrange(i as int, j as int)) == s@.subrange(i as int, j as int));
    copy_range(s, i, j)
}

/// Does `p` occur in `s` at `i`?
pub fn matches_at(s: &[char], p: &[char], i: usize) -> (r: bool)
    requires
        i <= s.len(),
    ensures
        r == match_at(s@, p@, i as int),
{
    if p.len() > s.len() - i {
        return false;
    }
    let mut k: usize = 0;
    while k < p.len()
        invariant
            i + p.len() <= s.len(),
            k <= p.len(),
            forall|m: int| 0 <= m < k ==> s@[i + m] == p@[m],
        decreases p.len() - k,
    {
        if s[i + k] != p[k] {
            assert(s@.subrange(i as int, i + p.len())[k as int] != p@[k as int]);
            return false;
        }
        k += 1;
    }
    assert(s@.subrange(i as int, i + p.len()) =~= p@);
    true
}

/// First occurrence of `p` in `s` at or after `start`.
pub fn find(s: &[char], p: &[char], start: usize) -> (r: Option<usize>)
    requires
        start <= s.len(),
    ensures
        match r {
            Some(i) => find_from(s@, p@, start as int) == Some(i as int),
            None => find_from(s@, p@, start as int) is None,
        },
{
    let mut i = start;
    loop
        invariant
            start <= i <= s.len(),
            find_from(s@, p@, start as int) == find_from(s@, p@, i as int),
        decreases s.len() - i,
    {
        if p.len() > s.len() - i {
            return None;
        }
        if matches_at(s, p, i) {
            return Some(i);
        }
        if p.len() == 0 {
            assert(s@.subrange(i as int, i as int) =~= p@);
        }
        i += 1;
    }
}

/// `remove_n` on character slices.
pub fn remove_n_chars(s: &[char], p: &[char], n: usize) -> (r: Vec<char>)
    ensures
        r@ == remove_n(s@, p@, n as nat),
{
    let mut out: Vec<char> = Vec::new();
    let mut pos: usize = 0;
    let mut count: usize = 0;
    assert(s@.skip(0) =~= s@);
    assert(out@ + remove_n(s@, p@, n as nat) =~= remove_n(s@, p@, n as nat));
    loop
        invariant
            pos <= s.len(),
            count <= n,
            out@ + remove_n(s@.skip(pos as int), p@, (n - count) as nat) == remove_n(s@, p@, n as nat),
        decreases n - count,
    {
        let ghost rest = s@.skip(pos as int);
        if count == n {
            append_range(&mut out, s, pos, s.len());
            assert(s@.subrange(pos as int, s.len() as int) =~= rest);
            return out;
        }
        proof {
            lemma_find_skip(s@, p@, pos as int, 0);
        }
        match find(s, p, pos) {
            None => {
                append_range(&mut out, s, pos, s.len());
                assert(s@.subrange(pos as int, s.len() as int) =~= rest);
                return out;
            },
            Some(i) => {
                proof {
                    lemma_find_from_bounds(s@, p@, pos as int);
                }
                let ghost j = i - pos;
                assert(rest.take(j) =~= s@.subrange(pos as int, i as int));
                assert(rest.skip(j + p.len()) =~= s@.skip(i + p.len()));
                let ghost old_out = out@;
                append_range(&mut out, s, pos, i);
                assert(out@ + remove_n(s@.skip(i + p.len()), p@, (n - count - 1) as nat)
                    =~= old_out + remove_n(rest, p@, (n - count) as nat));
                pos = i + p.len();
                count += 1;
            },
        }
    }
}

/// `remove_all` on character slices.
pub fn remove_all_chars(s: &[char], p: &[char]) -> (r: Vec<char>)
    ensures
        r@ == remove_all(s@, p@),
{
    if p.len() == 0 {
        return copy_range(s, 0, s.len());
    }
    let mut out: Vec<char> = Vec::new();
    let mut pos: usize = 0;
    assert(s@.skip(0) =~= s@);
    assert(out@ + remove_all(s@, p@) =~= remove_all(s@, p@));
    loop
        invariant
            p.len() > 0,
            pos <= s.len(),
            out@ + remove_all(s@.skip(pos as int), p@) == remove_all(s@, p@),
        decreases s.len() - pos,
    {
        let ghost rest = s@.skip(pos as int);
        proof {
            lemma_find_skip(s@, p@, pos as int, 0);
        }
        match find(s, p, pos) {
            None => {
                append_range(&mut out, s, pos, s.len());
                assert(s@.subrange(pos as int, s.len() as int) =~= rest);
                return out;
            },
            Some(i) => {
                proof {
                    lemma_find_from_bounds(s@, p@, pos as int);
                }
                let ghost j = i - pos;
                assert(rest.take(j) =~= s@.subrange(pos as int, i as int));
                assert(rest.skip(j + p.len()) =~= s@.skip(i + p.len()));
                let ghost old_out = out@;
                append_range(&mut out, s, pos, i);
                assert(out@ + remove_all(s@.skip(i + p.len()), p@) =~= old_out + remove_all(
                    rest,
                    p@,
                ));
                pos = i + p.len();
            },
        }
    }
}

/// `s` with every non-overlapping occurrence of `p`, scanned from the left,
/// replaced by `q` (`str::replace(p, q)`); an empty `p` matches before each
/// character and at the end.
pub open spec fn replace_all(s: Seq<char>, p: Seq<char>, q: Seq<char>) -> Seq<char>
    decreases s.len(),
{
    if p.len() == 0 {
        if s.len() == 0 {
            q
        } else {
            q + seq![s[0]] + replace_all(s.drop_first(), p, q)
        }
    } else {
        match find_from(s, p, 0) {
            None => s,
            Some(i) => if i + p.len() <= s.len() && 0 <= i {
                s.take(i) + q + replace_all(s.skip(i + p.len()), p, q)
            } else {
                s
            },
        }
    }
}

/// `replace_all` on character slices.
pub fn replace_all_chars(s: &[char], p: &[char], q: &[char]) -> (r: Vec<char>)
    ensures
        r@ == replace_all(s@, p@, q@),
{
    let mut out: Vec<char> = Vec::new();
    let mut pos: usize = 0;
    assert(s@.skip(0) =~= s@);
    assert(out@ + replace_all(s@, p@, q@) =~= replace_all(s@, p@, q@));
    if p.len() == 0 {
        while pos < s.len()
            invariant
                p@.len() == 0,
                pos <= s.len(),
                out@ + replace_all(s@.skip(pos as int), p@, q@) == replace_all(s@, p@, q@),
            decreases s.len() - pos,
        {
            let ghost old_out = out@;
            assert(s@.skip(pos as int).drop_first() =~= s@.skip(pos + 1));
            assert(s@.skip(pos as int)[0] == s@[pos as int]);
            append_all(&mut out, q);
            out.push(s[pos]);
            assert(out@ + replace_all(s@.skip(pos + 1), p@, q@) =~= old_out + replace_all(
                s@.skip(pos as int),
                p@,
                q@,
            ));
            pos += 1;
        }
        assert(s@.skip(pos as int) =~= Seq::<char>::empty());
        append_all(&mut out, q);
        return out;
    }
    loop
        invariant
            p.len() > 0,
            pos <= s.len(),
            out@ + replace_all(s@.skip(pos as int), p@, q@) == replace_all(s@, p@, q@),
        decreases s.len() - pos,
    {
        let ghost rest = s@.skip(pos as int);
        proof {
            lemma_find_skip(s@, p@, pos as int, 0);
        }
        match find(s, p, pos) {
            None => {
                append_range(&mut out, s, pos, s.len());
                assert(s@.subrange(pos as int, s.len() as int) =~= rest);
                return out;
            },
            Some(i) => {
                proof {
                    lemma_find_from_bounds(s@, p@, pos as int);
                }
                let ghost j = i - pos;
                assert(rest.take(j) =~= s@.subrange(pos as int, i as int));
                assert(rest.skip(j + p.len()) =~= s@.skip(i + p.len()));
                let ghost old_out = out@;
                append_range(&mut out, s, pos, i);
                append_all(&mut out, q);
                assert(out@ + replace_all(s@.skip(i + p.len()), p@, q@) =~= old_out + replace_all(
                    rest,
                    p@,
                    q@,
                ));
                pos = i + p.len();
            },
        }
    }
}

/// `split` on character slices.
pub fn split_chars(s: &[char], p: &[char]) -> (r: Vec<Vec<char>>)
    requires
        p.len() > 0,
    ensures
        seqs_of(r@) == split(s@, p@),
{
    let mut out: Vec<Vec<char>> = Vec::new();
    let mut pos: usize = 0;
    assert(s@.skip(0) =~= s@);
    assert(seqs_of(out@) + split(s@, p@) =~= split(s@, p@));
    loop
        invariant
            p.len() > 0,
            pos <= s.len(),
            seqs_of(out@) + split(s@.skip(pos as int), p@) == split(s@, p@),
        decreases s.len() - pos,
    {
        let ghost rest = s@.skip(pos as int);
        proof {
            lemma_find_skip(s@, p@, pos as int, 0);
        }
        let ghost old_out = seqs_of(out@);
        match find(s, p, pos) {
            None => {
                let piece = copy_range(s, pos, s.len());
                assert(s@.subrange(pos as int, s.len() as int) =~= rest);
                out.push(piece);
                assert(seqs_of(out@) =~= old_out + split(rest, p@));
                return out;
            },
            Some(i) => {
                proof {
                    lemma_find_from_bounds(s@, p@, pos as int);
                }
                let ghost j = i - pos;
                assert(rest.take(j) =~= s@.subrange(pos as int, i as int));
                assert(rest.skip(j + p.len()) =~= s@.skip(i + p.len()));
                let piece = copy_range(s, pos, i);
                out.push(piece);
                assert(seqs_of(out@) + split(s@.skip(i + p.len()), p@) =~= old_out + split(
                    rest,
                    p@,
                ));
                pos = i + p.len();
            },
        }
    }
}

/// `replace_char` on character slices.
pub fn replace_char_chars(s: &[char], a: char, b: char) -> (r: Vec<char>)
    ensures
        r@ == replace_char(s@, a, b),
{
    let mut out: Vec<char> = Vec::new();
    let mut i: usize = 0;
    while i < s.len()
        invariant
            i <= s.len(),
            out@ == replace_char(s@.take(i as int), a, b),
        decreases s.len() - i,
    {
        let c = if s[i] == a {
            b
        } else {
            s[i]
        };
        out.push(c);
        assert(out@ =~= replace_char(s@.take(i + 1), a, b));
        i += 1;
    }
    assert(s@.take(s.len() as int) =~= s@);
    out
}

/// Does `s` start with character `c`?
pub fn starts_with_char(s: &[char], c: char) -> (r: bool)
    ensures
        r == (s@.len() > 0 && s@[0] == c),
{
    s.len() > 0 && s[0] == c
}

/// The characters of a string.
pub fn chars_of(s: &str) -> (r: Vec<char>)
    ensures
        r@ == s@,
{
    let n = s.unicode_len();
    let mut out: Vec<char> = Vec::new();
    let mut i: usize = 0;
    while i < n
        invariant
            n == s@.len(),
            i <= n,
            out@ == s@.take(i as int),
        decreases n - i,
    {
        out.push(s.get_char(i));
        assert(out@ =~= s@.take(i + 1));
        i += 1;
    }
    assert(s@.take(n as int) =~= s@);
    out
}

/// The texts joined by `sep`.
pub open spec fn join_with(list: Seq<Seq<char>>, sep: Seq<char>) -> Seq<char>
    decreases list.len(),
{
    if list.len() == 0 {
        seq![]
    } else if list.len() == 1 {
        list[0]
    } else {
        join_with(list.drop_last(), sep) + sep + list.last()
    }
}

/// The texts joined by `sep`.
pub fn join_chars(list: &Vec<Vec<char>>, sep: &[char]) -> (r: Vec<char>)
    ensures
        r@ == join_with(seqs_of(list@), sep@),
{
    let ghost t = seqs_of(list@);
    let mut acc: Vec<char> = Vec::new();
    let mut i: usize = 0;
    assert(t.take(0) =~= seq![]);
    while i < list.len()
        invariant
            t == seqs_of(list@),
            i <= list.len(),
            acc@ == join_with(t.take(i as int), sep@),
        decreases list.len() - i,
    {
        if i > 0 {
            append_all(&mut acc, sep);
        }
        append_all(&mut acc, &list[i]);
        assert(t.take(i + 1).drop_last() =~= t.take(i as int));
        if i == 0 {
            assert(acc@ =~= join_with(t.take(i + 1), sep@));
        }
        i += 1;
    }
    assert(t.take(list.len() as int) =~= t);
    acc
}

/// A copy of a list of strings.
pub fn copy_strings(v: &Vec<String>) -> (r: Vec<String>)
    ensures
        strs_of(r@) == strs_of(v@),
{
    let mut out: Vec<String> = Vec::new();
    let mut i: usize = 0;
    while i < v.len()
        invariant
            i <= v.len(),
            out.len() == i,
            forall|k: int| 0 <= k < i ==> (#[trigger] out@[k])@ == v@[k]@,
        decreases v.len() - i,
    {
        out.push(v[i].clone());
        i += 1;
    }
    assert(strs_of(out@) =~= strs_of(v@));
    out
}

/// A string made of the given characters.
///
/// Trusted: std's `FromIterator<char> for String`, which collects the
/// characters in order into a new string.
#[verifier::external_body]
pub fn string_of(v: &[char]) -> (r: String)
    ensures
        r@ == v@,
{
    v.iter().collect()
}

/// Number of bytes of the string.
///
/// Trusted: std's `str::len`, documented to return the length in bytes,
/// that is, the length of the UTF-8 encoding of its characters.
#[verifier::external_body]
pub fn byte_len(s: &str) -> (n: usize)
    ensures
        n == utf8_len(s@),
{
    s.len()
}

/// What `str::to_lowercase` makes of a text: the Unicode lowercase mapping,
/// which takes tables to state and is a function of the text alone.
pub uninterp spec fn lowercase(s: Seq<char>) -> Seq<char>;

/// Every character of the text is ASCII.
pub open spec fn is_ascii_text(s: Seq<char>) -> bool {
    forall|i: int| 0 <= i < s.len() ==> (#[trigger] s[i] as u32) < 128
}

/// An ASCII character lowercased: `A`-`Z` become `a`-`z`, others stay.
pub open spec fn ascii_lower_char(c: char) -> char {
    if 65 <= (c as u32) && (c as u32) <= 90 {
        ((c as u32) + 32) as char
    } else {
        c
    }
}

/// An ASCII text lowercased.
pub open spec fn ascii_lower(s: Seq<char>) -> Seq<char> {
    s.map_values(|c: char| ascii_lower_char(c))
}

/// What lowercasing gives: stated character by character for an ASCII text,
/// through the name `lowercase` otherwise.
pub open spec fn lower(s: Seq<char>) -> Seq<char> {
    if is_ascii_text(s) {
        ascii_lower(s)
    } else {
        lowercase(s)
    }
}

/// Lowercases a text.
///
/// Trusted: std's `str::to_lowercase`. The contract ties the result to the text
/// through the name `lowercase`, and states what std documents for ASCII text:
/// `A`-`Z` become `a`-`z` and every other ASCII character stays. What the
/// mapping does beyond ASCII stays unsaid.
#[verifier::external_body]
pub fn to_lowercase_chars(s: &[char]) -> (r: Vec<char>)
    ensures
        r@ == lowercase(s@),
        is_ascii_text(s@) ==> r@ == ascii_lower(s@),
{
    let text: String = s.iter().collect();
    text.to_lowercase().chars().collect()
}

} // verus!
