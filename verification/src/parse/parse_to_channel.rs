//! Turns a `/create` command text into the channels to create.
use vstd::prelude::*;
use crate::text::{
    append_all, chars_of, copy_range, remove_n, remove_n_chars, replace_char, replace_char_chars, seqs_of,
    split, split_chars, starts_with_char, string_of, strs_of, trim, trim_chars, trim_end, trim_start,
    is_ws,
};
use crate::parse::parser::{
    is_flag, is_flag_word, lemma_split_nonempty, parse_spec, try_parse_input, ArgsView, ParsedArgs,
};
use crate::bot::channel_data::{
    kind_of, opt_category, copy_opt_category, CategoryInfo, CategoryView, ChannelInfo,
    ChannelKind, ChannelView,
};

verus! {

/// The separator between the sections of a command text: `-cat `.
pub open spec fn cat_sep() -> Seq<char> {
    seq!['-', 'c', 'a', 't', ' ']
}

/// The command text trimmed, with line breaks turned into spaces.
pub open spec fn prepared(u: Seq<char>) -> Seq<char> {
    replace_char(trim(u), '\n', ' ')
}

/// The category that a section's data describes: present when it has a
/// non-empty name.
pub open spec fn base_category(d: ArgsView) -> Option<CategoryView> {
    match d.category {
        Some(c) => if c.len() > 0 {
            Some(CategoryView { category: c, roles: d.roles, private: d.private })
        } else {
            None
        },
        None => None,
    }
}

pub open spec fn starts_bar(w: Seq<char>) -> bool {
    w.len() > 0 && w[0] == '|'
}

/// The words of a channel text from index `i` on, each preceded by a space, up to
/// the first flag or word that starts with `|`.
pub open spec fn name_words(words: Seq<Seq<char>>, i: int) -> Seq<char>
    decreases words.len() - i,
{
    if i < 0 || i >= words.len() || is_flag(words[i]) || starts_bar(words[i]) {
        seq![]
    } else {
        seq![' '] + words[i] + name_words(words, i + 1)
    }
}

/// The channel name as written in a channel text.
pub open spec fn name_unparsed(ch: Seq<char>) -> Seq<char> {
    trim(name_words(split(ch, seq![' ']), 0))
}

/// The channel name: the written name with spaces turned into `-`.
pub open spec fn channel_name(ch: Seq<char>) -> Seq<char> {
    replace_char(name_unparsed(ch), ' ', '-')
}

/// What follows the channel name in a channel text: the text with its leading
/// name taken off.
pub open spec fn channel_rest(ch: Seq<char>) -> Seq<char> {
    trim(remove_n(ch, name_unparsed(ch), 1))
}

/// The channel a channel text describes, in a category: `Err` when what follows
/// its name does not parse; `None` where the parser panics.
pub open spec fn channel_spec(ch: Seq<char>, cat: Option<CategoryView>) -> Option<
    Result<ChannelView, ()>,
> {
    let rest = channel_rest(ch);
    if rest.len() > 0 {
        match parse_spec(rest) {
            None => None,
            Some(Err(_)) => Some(Err(())),
            Some(Ok(d)) => Some(
                Ok(
                    ChannelView {
                        category: cat,
                        channel: channel_name(ch),
                        roles: d.roles,
                        channel_type: match d.channel_type {
                            Some(t) => match kind_of(t) {
                                Some(k) => k,
                                None => ChannelKind::Text,
                            },
                            None => ChannelKind::Text,
                        },
                        private: if d.private {
                            Some(true)
                        } else {
                            None
                        },
                    },
                ),
            ),
        }
    } else {
        Some(
            Ok(
                ChannelView {
                    category: cat,
                    channel: channel_name(ch),
                    roles: None,
                    channel_type: ChannelKind::Text,
                    private: None,
                },
            ),
        )
    }
}

/// The channels of the channel texts from index `i` on, stopping at the first
/// one that fails.
pub open spec fn channels_spec(chs: Seq<Seq<char>>, i: int, cat: Option<CategoryView>) -> Option<
    Result<Seq<ChannelView>, ()>,
>
    decreases chs.len() - i,
{
    if i < 0 || i >= chs.len() {
        Some(Ok(seq![]))
    } else {
        match channel_spec(chs[i], cat) {
            None => None,
            Some(Err(_)) => Some(Err(())),
            Some(Ok(c)) => match channels_spec(chs, i + 1, cat) {
                None => None,
                Some(Err(_)) => Some(Err(())),
                Some(Ok(rest)) => Some(Ok(seq![c] + rest)),
            },
        }
    }
}

/// The channels that the data of one section describes.
pub open spec fn base_data_spec(d: ArgsView) -> Option<Result<Seq<ChannelView>, ()>> {
    match d.channels {
        None => Some(Ok(seq![])),
        Some(chs) => channels_spec(chs, 0, base_category(d)),
    }
}

/// The channels of the sections from index `i` on.
pub open spec fn sections_spec(secs: Seq<Seq<char>>, i: int) -> Option<
    Result<Seq<ChannelView>, ()>,
>
    decreases secs.len() - i,
{
    if i < 0 || i >= secs.len() {
        Some(Ok(seq![]))
    } else if secs[i].len() == 0 {
        sections_spec(secs, i + 1)
    } else {
        match parse_spec(cat_sep() + secs[i]) {
            None => None,
            Some(Err(_)) => Some(Err(())),
            Some(Ok(d)) => match base_data_spec(d) {
                None => None,
                Some(Err(_)) => Some(Err(())),
                Some(Ok(list)) => match sections_spec(secs, i + 1) {
                    None => None,
                    Some(Err(_)) => Some(Err(())),
                    Some(Ok(rest)) => Some(Ok(list + rest)),
                },
            },
        }
    }
}

/// What `parse_to_channel` gives for a command text: the channels, or `Err` when
/// a section or channel does not parse; `None` where the parser panics.
pub open spec fn parse_to_channel_spec(u: Seq<char>) -> Option<Result<Seq<ChannelView>, ()>> {
    sections_spec(split(prepared(u), cat_sep()), 0)
}

pub open spec fn channel_views(v: Seq<ChannelInfo>) -> Seq<ChannelView> {
    v.map_values(|c: ChannelInfo| c@)
}

fn make_cat_sep() -> (r: Vec<char>)
    ensures
        r@ == cat_sep(),
{
    let r = vec!['-', 'c', 'a', 't', ' '];
    assert(r@ =~= cat_sep());
    r
}

/// The written channel name of a channel text.
fn name_of(words: &Vec<Vec<char>>) -> (r: Vec<char>)
    ensures
        r@ == trim(name_words(seqs_of(words@), 0)),
{
    let ghost w = seqs_of(words@);
    let mut acc: Vec<char> = Vec::new();
    let mut i: usize = 0;
    assert(acc@ + name_words(w, 0) =~= name_words(w, 0));
    while i < words.len()
        invariant
            w == seqs_of(words@),
            i <= words.len(),
            acc@ + name_words(w, i as int) == name_words(w, 0),
        ensures
            acc@ == name_words(w, 0),
        decreases words.len() - i,
    {
        if is_flag_word(&words[i]) || starts_with_char(&words[i], '|') {
            assert(acc@ + seq![] =~= acc@);
            break;
        }
        let ghost old_acc = acc@;
        acc.push(' ');
        append_all(&mut acc, &words[i]);
        assert(acc@ + name_words(w, i + 1) =~= old_acc + name_words(w, i as int));
        i += 1;
    }
    trim_chars(&acc)
}

/// The channel of one channel text; `None` where the parser panics.
fn channel_of(ch: &String, category: &Option<CategoryInfo>) -> (r: Option<Result<ChannelInfo, ()>>)
    ensures
        channel_spec(ch@, opt_category(*category)) == (match r {
            None => None,
            Some(Ok(c)) => Some(Ok(c@)),
            Some(Err(_)) => Some(Err(())),
        }),
{
    let chars = chars_of(ch.as_str());
    let words = split_chars(&chars, &[' ']);
    assert(seq![' '] =~= (&[' '])@);
    let name_unparsed = name_of(&words);
    let name = replace_char_chars(&name_unparsed, ' ', '-');
    let rest = trim_chars(&remove_n_chars(&chars, &name_unparsed, 1));
    let mut channel_data = ChannelInfo::default();
    if rest.len() > 0 {
        match try_parse_input(&string_of(&rest)) {
            None => None,
            Some(Err(_)) => Some(Err(())),
            Some(Ok(data)) => {
                let ParsedArgs { category: _, private, roles, channels: _, channel_type } = data;
                channel_data.update(copy_opt_category(category), string_of(&name), roles);
                match channel_type {
                    Some(t) => channel_data.update_channel_type(t.as_str()),
                    None => {},
                }
                if private {
                    channel_data.update_private();
                }
                Some(Ok(channel_data))
            },
        }
    } else {
        channel_data.update_name_category(string_of(&name), copy_opt_category(category));
        Some(Ok(channel_data))
    }
}

/// The category of a section's data, when it names one.
fn category_of(data: &ParsedArgs) -> (r: Option<CategoryInfo>)
    ensures
        opt_category(r) == base_category(data@),
{
    match &data.category {
        Some(name) => {
            if name.as_str().unicode_len() == 0 {
                return None;
            }
            let mut cu_category = CategoryInfo::default();
            cu_category.update_name(name.as_str());
            match &data.roles {
                Some(roles) => cu_category.update_roles(crate::text::copy_strings(roles)),
                None => {},
            }
            if data.private {
                cu_category.update_private();
            }
            Some(cu_category)
        },
        None => None,
    }
}

/// The channels that the data of one section describes; `None` where the
/// parser panics.
fn try_get_base_data(data: &ParsedArgs) -> (r: Option<Result<Vec<ChannelInfo>, &'static str>>)
    ensures
        base_data_spec(data@) == (match r {
            None => None,
            Some(Ok(v)) => Some(Ok(channel_views(v@))),
            Some(Err(_)) => Some(Err(())),
        }),
        r matches Some(Err(e)) ==> e@ == "Could not parse channel"@,
{
    let category = category_of(data);
    let mut all_channels: Vec<ChannelInfo> = Vec::new();
    match &data.channels {
        None => {
            assert(channel_views(all_channels@) =~= seq![]);
            Some(Ok(all_channels))
        },
        Some(chs) => {
            let ghost cs = strs_of(chs@);
            let ghost cat = opt_category(category);
            let mut i: usize = 0;
            assert(channel_views(all_channels@) =~= seq![]);
            proof {
                match channels_spec(cs, 0, cat) {
                    Some(Ok(rest)) => {
                        assert(channel_views(all_channels@) + rest =~= rest);
                    },
                    _ => {},
                }
            }
            while i < chs.len()
                invariant
                    cs == strs_of(chs@),
                    cat == opt_category(category),
                    cat == base_category(data@),
                    data@.channels == Some(cs),
                    i <= chs.len(),
                    channels_spec(cs, 0, cat) == (match channels_spec(cs, i as int, cat) {
                        None => None,
                        Some(Err(_)) => Some(Err(())),
                        Some(Ok(rest)) => Some(Ok(channel_views(all_channels@) + rest)),
                    }),
                decreases chs.len() - i,
            {
                assert(cs[i as int] == chs@[i as int]@);
                match channel_of(&chs[i], &category) {
                    None => {
                        assert(channels_spec(cs, i as int, cat) is None);
                        assert(base_data_spec(data@) == channels_spec(cs, 0, cat));
                        return None;
                    },
                    Some(Err(_)) => {
                        assert(channels_spec(cs, i as int, cat) == Some(Err::<Seq<ChannelView>, ()>(())));
                        assert(base_data_spec(data@) == channels_spec(cs, 0, cat));
                        return Some(Err("Could not parse channel"));
                    },
                    Some(Ok(c)) => {
                        let ghost old_views = channel_views(all_channels@);
                        all_channels.push(c);
                        assert(channel_views(all_channels@) =~= old_views.push(c@));
                        proof {
                            match channels_spec(cs, i + 1, cat) {
                                None => {},
                                Some(Err(_)) => {},
                                Some(Ok(rest)) => {
                                    assert(old_views + (seq![c@] + rest) =~= channel_views(
                                        all_channels@,
                                    ) + rest);
                                },
                            }
                        }
                    },
                }
                i += 1;
            }
            assert(channel_views(all_channels@) + seq![] =~= channel_views(all_channels@));
            Some(Ok(all_channels))
        },
    }
}

/// Turns a command text into channels, or returns `None` on the texts on which
/// `parse_to_channel` panics.
pub fn try_parse_to_channel(unparsed: &String) -> (r: Option<Result<Vec<ChannelInfo>, &'static str>>)
    ensures
        parse_to_channel_spec(unparsed@) == (match r {
            None => None,
            Some(Ok(v)) => Some(Ok(channel_views(v@))),
            Some(Err(_)) => Some(Err(())),
        }),
        r matches Some(Err(e)) ==> e@ == "Could not properly parse input"@,
{
    let text = replace_char_chars(&trim_chars(&chars_of(unparsed.as_str())), '\n', ' ');
    let sep = make_cat_sep();
    let secs = split_chars(&text, &sep);
    let ghost ss = seqs_of(secs@);
    let mut all_channels: Vec<ChannelInfo> = Vec::new();
    let mut i: usize = 0;
    assert(channel_views(all_channels@) =~= seq![]);
    proof {
        match sections_spec(ss, 0) {
            Some(Ok(rest)) => {
                assert(channel_views(all_channels@) + rest =~= rest);
            },
            Some(Err(e)) => {
                assert(e == ());
            },
            None => {},
        }
    }
    while i < secs.len()
        invariant
            ss == seqs_of(secs@),
            ss == split(prepared(unparsed@), cat_sep()),
            sep@ == cat_sep(),
            i <= secs.len(),
            sections_spec(ss, 0) == (match sections_spec(ss, i as int) {
                None => None,
                Some(Err(_)) => Some(Err(())),
                Some(Ok(rest)) => Some(Ok(channel_views(all_channels@) + rest)),
            }),
        decreases secs.len() - i,
    {
        if secs[i].len() == 0 {
            i += 1;
            continue;
        }
        let mut section = copy_range(&sep, 0, sep.len());
        assert(sep@.subrange(0, sep@.len() as int) =~= sep@);
        append_all(&mut section, &secs[i]);
        match try_parse_input(&string_of(&section)) {
            None => {
                return None;
            },
            Some(Err(_)) => {
                return Some(Err("Could not properly parse input"));
            },
            Some(Ok(data)) => match try_get_base_data(&data) {
                None => {
                    return None;
                },
                Some(Err(_)) => {
                    return Some(Err("Could not properly parse input"));
                },
                Some(Ok(list)) => {
                    let ghost old_views = channel_views(all_channels@);
                    let ghost lv = channel_views(list@);
                    let mut list = list;
                    all_channels.append(&mut list);
                    assert(channel_views(all_channels@) =~= old_views + lv);
                    proof {
                        match sections_spec(ss, i + 1) {
                            None => {},
                            Some(Err(_)) => {},
                            Some(Ok(rest)) => {
                                assert(old_views + (lv + rest) =~= channel_views(all_channels@)
                                    + rest);
                            },
                        }
                    }
                },
            },
        }
        i += 1;
    }
    assert(channel_views(all_channels@) + seq![] =~= channel_views(all_channels@));
    Some(Ok(all_channels))
}

/// Turns a command text such as `-cat name -p -r role -ch one -ch two -p` into
/// the channels to create. The text is cut into sections at each `-cat `; each
/// section is parsed, and each of its channel texts gives one channel, in the
/// section's category when it names one.
pub fn parse_to_channel(unparsed: String) -> (r: Result<Vec<ChannelInfo>, &'static str>)
    requires
        parse_to_channel_spec(unparsed@) is Some,
    ensures
        parse_to_channel_spec(unparsed@) == Some(
            match r {
                Ok(v) => Ok(channel_views(v@)),
                Err(_) => Err(()),
            },
        ),
        r matches Err(e) ==> e@ == "Could not properly parse input"@,
{
    match try_parse_to_channel(&unparsed) {
        Some(res) => res,
        None => {
            proof {
                assert(false);
            }
            Err("Could not properly parse input")
        },
    }
}

/// A channel name has no spaces, and a channel's category, when it has one,
/// has a name.
pub open spec fn well_named(c: ChannelView) -> bool {
    &&& !c.channel.contains(' ')
    &&& (c.category matches Some(cat) ==> cat.category.len() > 0)
}

/// Every channel that `parse_to_channel` gives is well named: spaces in channel
/// names become `-`, and only named categories are kept.
pub proof fn lemma_parse_to_channel_well_named(u: Seq<char>)
    ensures
        parse_to_channel_spec(u) matches Some(Ok(list)) ==> forall|i: int|
            0 <= i < list.len() ==> well_named(#[trigger] list[i]),
{
    lemma_sections_well_named(split(prepared(u), cat_sep()), 0);
}

proof fn lemma_name_no_space(ch: Seq<char>)
    ensures
        !channel_name(ch).contains(' '),
{
    let n = channel_name(ch);
    if n.contains(' ') {
        let k = choose|k: int| 0 <= k < n.len() && n[k] == ' ';
        assert(n[k] == (if name_unparsed(ch)[k] == ' ' { '-' } else { name_unparsed(ch)[k] }));
    }
}

proof fn lemma_channels_well_named(chs: Seq<Seq<char>>, i: int, cat: Option<CategoryView>)
    requires
        cat matches Some(c) ==> c.category.len() > 0,
    ensures
        channels_spec(chs, i, cat) matches Some(Ok(list)) ==> forall|k: int|
            0 <= k < list.len() ==> well_named(#[trigger] list[k]),
    decreases chs.len() - i,
{
    if 0 <= i < chs.len() {
        lemma_channels_well_named(chs, i + 1, cat);
        lemma_name_no_space(chs[i]);
        match channel_spec(chs[i], cat) {
            Some(Ok(c)) => {
                match channels_spec(chs, i + 1, cat) {
                    Some(Ok(rest)) => {
                        assert forall|k: int| 0 <= k < (seq![c] + rest).len() implies well_named(
                            #[trigger] (seq![c] + rest)[k],
                        ) by {
                            if k > 0 {
                                assert((seq![c] + rest)[k] == rest[k - 1]);
                            }
                        }
                    },
                    _ => {},
                }
            },
            _ => {},
        }
    }
}

proof fn lemma_sections_well_named(secs: Seq<Seq<char>>, i: int)
    ensures
        sections_spec(secs, i) matches Some(Ok(list)) ==> forall|k: int|
            0 <= k < list.len() ==> well_named(#[trigger] list[k]),
    decreases secs.len() - i,
{
    if 0 <= i < secs.len() {
        lemma_sections_well_named(secs, i + 1);
        if secs[i].len() > 0 {
            match parse_spec(cat_sep() + secs[i]) {
                Some(Ok(d)) => {
                    match d.channels {
                        Some(chs) => lemma_channels_well_named(chs, 0, base_category(d)),
                        None => {},
                    }
                    match (base_data_spec(d), sections_spec(secs, i + 1)) {
                        (Some(Ok(list)), Some(Ok(rest))) => {
                            assert forall|k: int| 0 <= k < (list + rest).len() implies well_named(
                                #[trigger] (list + rest)[k],
                            ) by {
                                if k >= list.len() {
                                    assert((list + rest)[k] == rest[k - list.len()]);
                                } else {
                                    assert((list + rest)[k] == list[k]);
                                }
                            }
                        },
                        _ => {},
                    }
                },
                _ => {},
            }
        }
    }
}

/// Whitespace stays whitespace when line breaks become spaces.
proof fn lemma_nl_ws(c: char)
    ensures
        is_ws(if c == '\n' { ' ' } else { c }) == is_ws(c),
{
}

proof fn lemma_trim_start_nl(u: Seq<char>)
    ensures
        trim_start(replace_char(u, '\n', ' ')) == replace_char(trim_start(u), '\n', ' '),
    decreases u.len(),
{
    let r = replace_char(u, '\n', ' ');
    if u.len() > 0 {
        lemma_nl_ws(u[0]);
        assert(r[0] == (if u[0] == '\n' { ' ' } else { u[0] }));
        if is_ws(u[0]) {
            assert(r.drop_first() =~= replace_char(u.drop_first(), '\n', ' '));
            lemma_trim_start_nl(u.drop_first());
        }
    }
}

proof fn lemma_trim_end_nl(u: Seq<char>)
    ensures
        trim_end(replace_char(u, '\n', ' ')) == replace_char(trim_end(u), '\n', ' '),
    decreases u.len(),
{
    let r = replace_char(u, '\n', ' ');
    if u.len() > 0 {
        lemma_nl_ws(u.last());
        assert(r.last() == (if u.last() == '\n' { ' ' } else { u.last() }));
        if is_ws(u.last()) {
            assert(r.drop_last() =~= replace_char(u.drop_last(), '\n', ' '));
            lemma_trim_end_nl(u.drop_last());
        }
    }
}

/// A line break in a command text reads as a space: the text with its line
/// breaks made spaces gives the same channels, or the same failure.
pub proof fn lemma_line_breaks_as_spaces(u: Seq<char>)
    ensures
        parse_to_channel_spec(replace_char(u, '\n', ' ')) == parse_to_channel_spec(u),
{
    let r = replace_char(u, '\n', ' ');
    lemma_trim_start_nl(u);
    lemma_trim_end_nl(trim_start(u));
    let t = trim(u);
    assert(trim(r) == replace_char(t, '\n', ' '));
    assert(replace_char(replace_char(t, '\n', ' '), '\n', ' ') =~= replace_char(t, '\n', ' '));
    assert(prepared(r) == prepared(u));
}

} // verus!
