//! Describes a `/create` command text in words, for the reply to the command.
use vstd::prelude::*;
use crate::text::{
    append_all, chars_of, copy_range, remove_n, remove_n_chars, replace_char_chars, seqs_of,
    split, split_chars, string_of, strs_of, trim, trim_chars,
};
use crate::parse::parser::{is_flag, is_flag_word, parse_spec, try_parse_input, ArgsView, ParsedArgs};
use crate::parse::parse_to_channel::{cat_sep, prepared};
use crate::bot::channel_data::{ann_word, kind_of, text_word, voice_word};
use crate::utility::sub_func::{polish, polish_channel};

verus! {

/// Each role preceded by a space and followed by a comma.
pub open spec fn role_items(rs: Seq<Seq<char>>) -> Seq<char>
    decreases rs.len(),
{
    if rs.len() == 0 {
        seq![]
    } else {
        role_items(rs.drop_last()) + seq![' '] + rs.last() + seq![',']
    }
}

/// `Roles: a, b, c`: the role list without its last character.
pub open spec fn roles_text(rs: Seq<Seq<char>>) -> Seq<char> {
    ("Roles:"@ + role_items(rs)).drop_last()
}

/// The words of a channel type.
pub open spec fn type_text(t: Seq<char>) -> Seq<char> {
    if t == text_word() {
        "Channel Type: Text"@
    } else if t == voice_word() {
        "Channel Type: voice"@
    } else if t == ann_word() {
        "Channel Type: Announcement"@
    } else {
        seq![]
    }
}

/// The description of the data that follows a channel name.
pub open spec fn channel_text_spec(d: ArgsView) -> Seq<char> {
    (match d.roles {
        Some(rs) => roles_text(rs) + seq![' '],
        None => seq![],
    }) + (if d.private {
        "Private: Yes "@
    } else {
        seq![]
    }) + (match d.channel_type {
        Some(t) => type_text(t),
        None => seq![],
    })
}

/// The words of a channel text from index `i` on, each preceded by a space, up
/// to the first flag.
pub open spec fn spaced_words(words: Seq<Seq<char>>, i: int) -> Seq<char>
    decreases words.len() - i,
{
    if i < 0 || i >= words.len() || is_flag(words[i]) {
        seq![]
    } else {
        seq![' '] + words[i] + spaced_words(words, i + 1)
    }
}

/// The name of a channel text: its words up to the first flag, with the
/// spaces between them.
pub open spec fn line_name(ch: Seq<char>) -> Seq<char> {
    trim(spaced_words(split(ch, seq![' ']), 0))
}

/// The line that describes one channel text: the polished name, then what
/// follows the name parsed; `None` where the parser panics.
pub open spec fn channel_line(ch: Seq<char>) -> Option<Seq<char>> {
    let name = line_name(ch);
    let rest = trim(remove_n(ch, name, 1));
    let head = "    "@ + polish(name) + ": "@;
    if rest.len() > 0 {
        match parse_spec(rest) {
            None => None,
            Some(Ok(d)) => Some(head + channel_text_spec(d) + seq!['\n']),
            Some(Err(d)) => Some(
                head + channel_text_spec(d) + ". Error acquired here"@ + seq!['\n'],
            ),
        }
    } else {
        Some(head + seq!['\n'])
    }
}

/// The lines of the channel texts from index `i` on.
pub open spec fn channel_lines(chs: Seq<Seq<char>>, i: int) -> Option<Seq<char>>
    decreases chs.len() - i,
{
    if i < 0 || i >= chs.len() {
        Some(seq![])
    } else {
        match channel_line(chs[i]) {
            None => None,
            Some(l) => match channel_lines(chs, i + 1) {
                None => None,
                Some(rest) => Some(l + rest),
            },
        }
    }
}

/// The description of one section's data.
pub open spec fn main_text_spec(d: ArgsView) -> Option<Seq<char>> {
    let head = (match d.category {
        Some(c) => if c.len() > 0 {
            "Category: "@ + c + seq!['\n']
        } else {
            seq![]
        },
        None => seq![],
    }) + (match d.roles {
        Some(rs) => roles_text(rs) + seq!['\n'],
        None => seq![],
    }) + (if d.private {
        "Private: Yes\n"@
    } else {
        "Private: No\n"@
    });
    match d.channels {
        None => Some(head),
        Some(chs) => match channel_lines(chs, 0) {
            None => None,
            Some(lines) => Some(head + "Channels:\n"@ + lines + seq!['\n']),
        },
    }
}

/// The descriptions of the sections from index `i` on.
pub open spec fn sections_text(secs: Seq<Seq<char>>, i: int) -> Option<Seq<char>>
    decreases secs.len() - i,
{
    if i < 0 || i >= secs.len() {
        Some(seq![])
    } else if secs[i].len() == 0 {
        sections_text(secs, i + 1)
    } else {
        let part = match parse_spec(cat_sep() + secs[i]) {
            None => None,
            Some(Ok(d)) => main_text_spec(d),
            Some(Err(d)) => match main_text_spec(d) {
                None => None,
                Some(t) => Some(t + "\nError acquired in the upper section"@),
            },
        };
        match part {
            None => None,
            Some(p) => match sections_text(secs, i + 1) {
                None => None,
                Some(rest) => Some(p + rest),
            },
        }
    }
}

/// What `parse_to_text` gives for a command text; `None` where the parser panics.
pub open spec fn parse_to_text_spec(u: Seq<char>) -> Option<Seq<char>> {
    match sections_text(split(prepared(u), cat_sep()), 0) {
        None => None,
        Some(t) => Some("These data were detected\n\n"@ + t),
    }
}

/// `Roles: a, b, c` for a role list.
fn roles_line(roles: &Vec<String>) -> (r: Vec<char>)
    ensures
        r@ == roles_text(strs_of(roles@)),
{
    let ghost rs = strs_of(roles@);
    let mut out = chars_of("Roles:");
    let mut i: usize = 0;
    assert(rs.take(0) =~= seq![]);
    assert(out@ =~= "Roles:"@ + role_items(rs.take(0)));
    while i < roles.len()
        invariant
            rs == strs_of(roles@),
            i <= roles.len(),
            out@ == "Roles:"@ + role_items(rs.take(i as int)),
        decreases roles.len() - i,
    {
        let ghost before = out@;
        out.push(' ');
        append_all(&mut out, &chars_of(roles[i].as_str()));
        out.push(',');
        assert(rs.take(i + 1).drop_last() =~= rs.take(i as int));
        assert(out@ =~= "Roles:"@ + role_items(rs.take(i + 1)));
        i += 1;
    }
    assert(rs.take(roles.len() as int) =~= rs);
    let ghost full = out@;
    assert(full.len() > 0) by {
        assert(("Roles:"@).len() > 0) by {
            reveal_strlit("Roles:");
        }
    }
    out.pop();
    assert(out@ =~= full.drop_last());
    out
}

fn channel_text(data: &ParsedArgs) -> (r: Vec<char>)
    ensures
        r@ == channel_text_spec(data@),
{
    let mut full: Vec<char> = Vec::new();
    match &data.roles {
        Some(roles) => {
            full = roles_line(roles);
            full.push(' ');
        },
        None => {},
    }
    let ghost a = full@;
    if data.private {
        append_all(&mut full, &chars_of("Private: Yes "));
    }
    let ghost b = full@;
    match &data.channel_type {
        Some(t) => {
            let tc = chars_of(t.as_str());
            let text = vec!['t', 'e', 'x', 't'];
            let voice = vec!['v', 'o', 'i', 'c', 'e'];
            let ann = vec!['a', 'n', 'n'];
            assert(text@ =~= text_word());
            assert(voice@ =~= voice_word());
            assert(ann@ =~= ann_word());
            if crate::text::chars_eq(&tc, &text) {
                append_all(&mut full, &chars_of("Channel Type: Text"));
            } else if crate::text::chars_eq(&tc, &voice) {
                append_all(&mut full, &chars_of("Channel Type: voice"));
            } else if crate::text::chars_eq(&tc, &ann) {
                append_all(&mut full, &chars_of("Channel Type: Announcement"));
            } else {
                assert(full@ =~= b + seq![]);
            }
        },
        None => {
            assert(full@ =~= b + seq![]);
        },
    }
    if !data.private {
        assert(b =~= a + seq![]);
    }
    if data.roles.is_none() {
        assert(a =~= seq![]);
    }
    full
}

/// The name part of a channel text: its words up to the first flag, with the
/// spaces between them.
fn line_name_of(words: &Vec<Vec<char>>) -> (r: Vec<char>)
    ensures
        r@ == trim(spaced_words(seqs_of(words@), 0)),
{
    let ghost w = seqs_of(words@);
    let mut acc: Vec<char> = Vec::new();
    let mut i: usize = 0;
    assert(acc@ + spaced_words(w, 0) =~= spaced_words(w, 0));
    while i < words.len()
        invariant
            w == seqs_of(words@),
            i <= words.len(),
            acc@ + spaced_words(w, i as int) == spaced_words(w, 0),
        ensures
            acc@ == spaced_words(w, 0),
        decreases words.len() - i,
    {
        if is_flag_word(&words[i]) {
            assert(acc@ + seq![] =~= acc@);
            break;
        }
        let ghost old_acc = acc@;
        acc.push(' ');
        append_all(&mut acc, &words[i]);
        assert(acc@ + spaced_words(w, i + 1) =~= old_acc + spaced_words(w, i as int));
        i += 1;
    }
    trim_chars(&acc)
}

fn channel_line_of(ch: &String) -> (r: Option<Vec<char>>)
    ensures
        channel_line(ch@) == (match r {
            None => None,
            Some(v) => Some(v@),
        }),
{
    let chars = chars_of(ch.as_str());
    let words = split_chars(&chars, &[' ']);
    assert(seq![' '] =~= (&[' '])@);
    let name = line_name_of(&words);
    let rest = trim_chars(&remove_n_chars(&chars, &name, 1));
    let polished = polish_channel(string_of(&name).as_str());
    let mut line = chars_of("    ");
    append_all(&mut line, &chars_of(polished.as_str()));
    append_all(&mut line, &chars_of(": "));
    let ghost head = line@;
    if rest.len() > 0 {
        match try_parse_input(&string_of(&rest)) {
            None => {
                return None;
            },
            Some(Ok(data)) => {
                append_all(&mut line, &channel_text(&data));
            },
            Some(Err(data)) => {
                append_all(&mut line, &channel_text(&data));
                append_all(&mut line, &chars_of(". Error acquired here"));
            },
        }
    }
    line.push('\n');
    Some(line)
}

fn main_text(data: &ParsedArgs) -> (r: Option<Vec<char>>)
    ensures
        main_text_spec(data@) == (match r {
            None => None,
            Some(v) => Some(v@),
        }),
{
    let mut full: Vec<char> = Vec::new();
    match &data.category {
        Some(c) => {
            if c.as_str().unicode_len() > 0 {
                append_all(&mut full, &chars_of("Category: "));
                append_all(&mut full, &chars_of(c.as_str()));
                full.push('\n');
            }
        },
        None => {},
    }
    let ghost a = full@;
    match &data.roles {
        Some(roles) => {
            append_all(&mut full, &roles_line(roles));
            full.push('\n');
        },
        None => {},
    }
    let ghost b = full@;
    if data.private {
        append_all(&mut full, &chars_of("Private: Yes\n"));
    } else {
        append_all(&mut full, &chars_of("Private: No\n"));
    }
    let ghost head = full@;
    if data.roles.is_none() {
        assert(b =~= a + seq![]);
    }
    match &data.category {
        Some(c) => {
            proof {
                if c@.len() == 0 {
                    assert(a =~= seq![]);
                }
            }
        },
        None => {
            assert(a =~= seq![]);
        },
    }
    match &data.channels {
        None => Some(full),
        Some(chs) => {
            append_all(&mut full, &chars_of("Channels:\n"));
            let ghost cs = strs_of(chs@);
            let ghost start = full@;
            let mut i: usize = 0;
            proof {
                match channel_lines(cs, 0) {
                    Some(rest) => {
                        assert(start + rest =~= full@ + rest);
                    },
                    None => {},
                }
            }
            assert(full@ =~= start + seq![]);
            while i < chs.len()
                invariant
                    cs == strs_of(chs@),
                    data@.channels == Some(cs),
                    i <= chs.len(),
                    full@.len() >= start.len(),
                    (match channel_lines(cs, 0) {
                        None => None,
                        Some(l) => Some(start + l),
                    }) == (match channel_lines(cs, i as int) {
                        None => None,
                        Some(rest) => Some(full@ + rest),
                    }),
                decreases chs.len() - i,
            {
                assert(cs[i as int] == chs@[i as int]@);
                match channel_line_of(&chs[i]) {
                    None => {
                        return None;
                    },
                    Some(line) => {
                        let ghost before = full@;
                        append_all(&mut full, &line);
                        proof {
                            match channel_lines(cs, i + 1) {
                                Some(rest) => {
                                    assert(before + (line@ + rest) =~= full@ + rest);
                                },
                                None => {},
                            }
                        }
                    },
                }
                i += 1;
            }
            assert(full@ + seq![] =~= full@);
            let ghost lines_end = full@;
            full.push('\n');
            proof {
                let l = channel_lines(cs, 0)->0;
                assert(start + l == lines_end);
                assert(head + "Channels:\n"@ + l + seq!['\n'] =~= full@);
            }
            Some(full)
        },
    }
}

/// Describes a command text, or returns `None` on the texts on which
/// `parse_to_text` panics.
pub fn try_parse_to_text(unparsed: &String) -> (r: Option<String>)
    ensures
        parse_to_text_spec(unparsed@) == (match r {
            None => None,
            Some(s) => Some(s@),
        }),
{
    let mut full_text = chars_of("These data were detected\n\n");
    let ghost start = full_text@;
    let text = replace_char_chars(&trim_chars(&chars_of(unparsed.as_str())), '\n', ' ');
    let sep = vec!['-', 'c', 'a', 't', ' '];
    assert(sep@ =~= cat_sep());
    let secs = split_chars(&text, &sep);
    let ghost ss = seqs_of(secs@);
    let mut i: usize = 0;
    proof {
        match sections_text(ss, 0) {
            Some(rest) => {
                assert(start + rest =~= full_text@ + rest);
            },
            None => {},
        }
    }
    while i < secs.len()
        invariant
            ss == seqs_of(secs@),
            ss == split(prepared(unparsed@), cat_sep()),
            sep@ == cat_sep(),
            i <= secs.len(),
            (match sections_text(ss, 0) {
                None => None,
                Some(t) => Some(start + t),
            }) == (match sections_text(ss, i as int) {
                None => None,
                Some(rest) => Some(full_text@ + rest),
            }),
        decreases secs.len() - i,
    {
        if secs[i].len() == 0 {
            i += 1;
            continue;
        }
        let mut section = copy_range(&sep, 0, sep.len());
        assert(sep@.subrange(0, sep@.len() as int) =~= sep@);
        append_all(&mut section, &secs[i]);
        let ghost before = full_text@;
        let part = match try_parse_input(&string_of(&section)) {
            None => None,
            Some(Ok(data)) => main_text(&data),
            Some(Err(data)) => match main_text(&data) {
                None => None,
                Some(t) => {
                    let mut t = t;
                    append_all(&mut t, &chars_of("\nError acquired in the upper section"));
                    Some(t)
                },
            },
        };
        match part {
            None => {
                return None;
            },
            Some(p) => {
                append_all(&mut full_text, &p);
                proof {
                    match sections_text(ss, i + 1) {
                        Some(rest) => {
                            assert(before + (p@ + rest) =~= full_text@ + rest);
                        },
                        None => {},
                    }
                }
            },
        }
        i += 1;
    }
    assert(full_text@ + seq![] =~= full_text@);
    Some(string_of(&full_text))
}

/// Describes a command text in words: each section's category, roles, privacy
/// and channels, under the heading `These data were detected`.
pub fn parse_to_text(unparsed: String) -> (r: String)
    requires
        parse_to_text_spec(unparsed@) is Some,
    ensures
        parse_to_text_spec(unparsed@) == Some(r@),
{
    match try_parse_to_text(&unparsed) {
        Some(t) => t,
        None => {
            proof {
                assert(false);
            }
            String::new()
        },
    }
}

/// The three kinds of channel are described by different words, none of them
/// empty.
pub proof fn lemma_kind_words_differ()
    ensures
        type_text(text_word()).len() > 0,
        type_text(voice_word()).len() > 0,
        type_text(ann_word()).len() > 0,
        type_text(text_word()) != type_text(voice_word()),
        type_text(text_word()) != type_text(ann_word()),
        type_text(voice_word()) != type_text(ann_word()),
{
    reveal_strlit("Channel Type: Text");
    reveal_strlit("Channel Type: voice");
    reveal_strlit("Channel Type: Announcement");
    assert(text_word() != voice_word());
    assert(text_word() != ann_word());
    assert(voice_word() != ann_word());
    assert(type_text(text_word()).len() == 18);
    assert(type_text(voice_word()).len() == 19);
    assert(type_text(ann_word()).len() == 26);
}

/// Two channels that differ only in their kind are described differently: the
/// description names the kind that `-t` gave.
pub proof fn lemma_description_names_kind(d: ArgsView, t1: Seq<char>, t2: Seq<char>)
    requires
        kind_of(t1) is Some,
        kind_of(t2) is Some,
        kind_of(t1) != kind_of(t2),
    ensures
        channel_text_spec(ArgsView { channel_type: Some(t1), ..d }) != channel_text_spec(
            ArgsView { channel_type: Some(t2), ..d },
        ),
{
    lemma_kind_words_differ();
    reveal_strlit("Channel Type: Text");
    reveal_strlit("Channel Type: voice");
    reveal_strlit("Channel Type: Announcement");
    assert(type_text(t1).len() != type_text(t2).len());
    let d1 = ArgsView { channel_type: Some(t1), ..d };
    let d2 = ArgsView { channel_type: Some(t2), ..d };
    assert(channel_text_spec(d1).len() != channel_text_spec(d2).len());
}

} // verus!
