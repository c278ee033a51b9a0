//! Writes channels back as a `/create` command text (the `/copy` command).
use vstd::prelude::*;
use crate::text::{append_all, chars_eq, chars_of, join_chars, join_with, seqs_of, string_of};
use crate::bot::channel_data::{ChannelInfo, ChannelKind, ChannelView};
use crate::parse::parse_to_channel::channel_views;

verus! {

/// The `-ch` part of the command text for one channel.
pub open spec fn ch_entry(c: ChannelView) -> Seq<char> {
    "-ch "@ + c.channel + (match c.channel_type {
        ChannelKind::News => " -t ann"@,
        ChannelKind::Voice => " -t voice"@,
        ChannelKind::Text => seq![],
    }) + (if c.private == Some(true) {
        " -p"@
    } else {
        seq![]
    })
}

/// The entries of the channels that have no category, in order.
pub open spec fn entries_without_category(chs: Seq<ChannelView>) -> Seq<Seq<char>>
    decreases chs.len(),
{
    if chs.len() == 0 {
        seq![]
    } else {
        let p = entries_without_category(chs.drop_last());
        if chs.last().category is None {
            p.push(ch_entry(chs.last()))
        } else {
            p
        }
    }
}

/// The entries of the channels in the category named `name`, in order.
pub open spec fn entries_in(chs: Seq<ChannelView>, name: Seq<char>) -> Seq<Seq<char>>
    decreases chs.len(),
{
    if chs.len() == 0 {
        seq![]
    } else {
        let p = entries_in(chs.drop_last(), name);
        match chs.last().category {
            Some(c) => if c.category == name {
                p.push(ch_entry(chs.last()))
            } else {
                p
            },
            None => p,
        }
    }
}

/// The category names of the channels, each once, in the order they first appear.
pub open spec fn category_names(chs: Seq<ChannelView>) -> Seq<Seq<char>>
    decreases chs.len(),
{
    if chs.len() == 0 {
        seq![]
    } else {
        let p = category_names(chs.drop_last());
        match chs.last().category {
            Some(c) => if p.contains(c.category) {
                p
            } else {
                p.push(c.category)
            },
            None => p,
        }
    }
}

/// The lines of the categories `names[i..]`.
pub open spec fn groups_text(chs: Seq<ChannelView>, names: Seq<Seq<char>>, i: int) -> Seq<char>
    decreases names.len() - i,
{
    if i < 0 || i >= names.len() {
        seq![]
    } else {
        "-cat "@ + names[i] + seq![' '] + join_with(entries_in(chs, names[i]), seq![' '])
            + "\n\n"@ + groups_text(chs, names, i + 1)
    }
}

/// The command text for a list of channels: first the channels without a
/// category, then one line per category, in the order the categories first
/// appear.
pub open spec fn text_from_channels_spec(chs: Seq<ChannelView>) -> Seq<char> {
    let free = entries_without_category(chs);
    (if free.len() > 0 {
        join_with(free, seq![' ']) + "\n\n"@
    } else {
        seq![]
    }) + groups_text(chs, category_names(chs), 0)
}

pub open spec fn group_views(g: Seq<Vec<Vec<char>>>) -> Seq<Seq<Seq<char>>> {
    g.map_values(|x: Vec<Vec<char>>| seqs_of(x@))
}

fn entry_of(channel: &ChannelInfo) -> (r: Vec<char>)
    ensures
        r@ == ch_entry(channel@),
{
    let mut name = chars_of("-ch ");
    append_all(&mut name, &chars_of(channel.channel.as_str()));
    let ghost a = name@;
    match channel.channel_type {
        ChannelKind::News => append_all(&mut name, &chars_of(" -t ann")),
        ChannelKind::Voice => append_all(&mut name, &chars_of(" -t voice")),
        ChannelKind::Text => {
            assert(name@ =~= a + seq![]);
        },
    }
    let ghost b = name@;
    let private = match channel.private {
        Some(p) => p,
        None => false,
    };
    if private {
        append_all(&mut name, &chars_of(" -p"));
    } else {
        assert(name@ =~= b + seq![]);
    }
    name
}

/// Index of `name` among `names`, if there.
fn position(names: &Vec<Vec<char>>, name: &Vec<char>) -> (r: Option<usize>)
    ensures
        match r {
            Some(j) => j < names.len() && seqs_of(names@)[j as int] == name@,
            None => !seqs_of(names@).contains(name@),
        },
{
    let mut j: usize = 0;
    while j < names.len()
        invariant
            j <= names.len(),
            forall|k: int| 0 <= k < j ==> seqs_of(names@)[k] != name@,
        decreases names.len() - j,
    {
        if chars_eq(&names[j], name) {
            return Some(j);
        }
        j += 1;
    }
    None
}

pub fn text_from_channels(channel_data: Vec<ChannelInfo>) -> (r: String)
    ensures
        r@ == text_from_channels_spec(channel_views(channel_data@)),
{
    let ghost chs = channel_views(channel_data@);
    let mut free: Vec<Vec<char>> = Vec::new();
    let mut names: Vec<Vec<char>> = Vec::new();
    let mut groups: Vec<Vec<Vec<char>>> = Vec::new();
    let mut i: usize = 0;
    assert(chs.take(0) =~= seq![]);
    assert(seqs_of(free@) =~= seq![]);
    assert(seqs_of(names@) =~= seq![]);
    while i < channel_data.len()
        invariant
            chs == channel_views(channel_data@),
            i <= channel_data.len(),
            seqs_of(free@) == entries_without_category(chs.take(i as int)),
            seqs_of(names@) == category_names(chs.take(i as int)),
            seqs_of(names@).no_duplicates(),
            groups.len() == names.len(),
            forall|j: int|
                0 <= j < names.len() ==> seqs_of(#[trigger] groups@[j]@) == entries_in(
                    chs.take(i as int),
                    seqs_of(names@)[j],
                ),
        decreases channel_data.len() - i,
    {
        let channel = &channel_data[i];
        let ghost prev = chs.take(i as int);
        let ghost now = chs.take(i + 1);
        assert(now.drop_last() =~= prev);
        assert(now.last() == channel@);
        let entry = entry_of(channel);
        match channel.get_category_name() {
            None => {
                let ghost old_free = seqs_of(free@);
                free.push(entry);
                assert(seqs_of(free@) =~= old_free.push(entry@));
                assert forall|j: int| 0 <= j < names.len() implies seqs_of(
                    #[trigger] groups@[j]@,
                ) == entries_in(now, seqs_of(names@)[j]) by {
                    assert(entries_in(now, seqs_of(names@)[j]) == entries_in(
                        prev,
                        seqs_of(names@)[j],
                    ));
                }
            },
            Some(cat) => {
                let cat_name = chars_of(cat);
                match position(&names, &cat_name) {
                    Some(j) => {
                        let ghost old_groups = groups@;
                        let mut g = groups.remove(j);
                        let ghost old_g = seqs_of(g@);
                        g.push(entry);
                        assert(seqs_of(g@) =~= old_g.push(entry@));
                        groups.insert(j, g);
                        assert(groups@ =~= old_groups.update(j as int, groups@[j as int]));
                        assert forall|k: int| 0 <= k < names.len() implies seqs_of(
                            #[trigger] groups@[k]@,
                        ) == entries_in(now, seqs_of(names@)[k]) by {
                            if k == j {
                                assert(seqs_of(groups@[k]@) == old_g.push(entry@));
                            } else {
                                assert(seqs_of(names@)[k] != seqs_of(names@)[j as int]);
                                assert(groups@[k] == old_groups[k]);
                            }
                        }
                    },
                    None => {
                        let ghost old_names = seqs_of(names@);
                        names.push(cat_name);
                        assert(seqs_of(names@) =~= old_names.push(cat_name@));
                        assert(seqs_of(names@).no_duplicates()) by {
                            assert forall|a: int, b: int|
                                0 <= a < b < seqs_of(names@).len() implies seqs_of(names@)[a]
                                != seqs_of(names@)[b] by {
                                if b == seqs_of(names@).len() - 1 {
                                    assert(old_names[a] != cat_name@) by {
                                        if old_names[a] == cat_name@ {
                                            assert(old_names.contains(cat_name@));
                                        }
                                    }
                                }
                            }
                        }
                        let mut g: Vec<Vec<char>> = Vec::new();
                        g.push(entry);
                        groups.push(g);
                        assert forall|k: int| 0 <= k < names.len() implies seqs_of(
                            #[trigger] groups@[k]@,
                        ) == entries_in(now, seqs_of(names@)[k]) by {
                            if k == names.len() - 1 {
                                assert(seqs_of(groups@[k]@) =~= seq![entry@]);
                                lemma_entries_in_absent(prev, cat_name@);
                                assert(entries_in(prev, cat_name@) =~= seq![]);
                            } else {
                                assert(old_names[k] != cat_name@);
                            }
                        }
                    },
                }
            },
        }
        i += 1;
    }
    assert(chs.take(channel_data.len() as int) =~= chs);
    let sp = vec![' '];
    assert(sp@ =~= seq![' ']);
    let mut full: Vec<char> = Vec::new();
    if free.len() > 0 {
        full = join_chars(&free, &sp);
        append_all(&mut full, &chars_of("\n\n"));
    }
    let ghost head = full@;
    let ghost nm = seqs_of(names@);
    let mut j: usize = 0;
    assert(full@ + groups_text(chs, nm, 0) =~= head + groups_text(chs, nm, 0));
    while j < names.len()
        invariant
            nm == seqs_of(names@),
            nm == category_names(chs),
            sp@ == seq![' '],
            groups.len() == names.len(),
            forall|k: int|
                0 <= k < names.len() ==> seqs_of(#[trigger] groups@[k]@) == entries_in(
                    chs,
                    nm[k],
                ),
            j <= names.len(),
            full@ + groups_text(chs, nm, j as int) == head + groups_text(chs, nm, 0),
        decreases names.len() - j,
    {
        let ghost before = full@;
        append_all(&mut full, &chars_of("-cat "));
        append_all(&mut full, &names[j]);
        full.push(' ');
        let joined = join_chars(&groups[j], &sp);
        assert(nm[j as int] == names@[j as int]@);
        assert(seqs_of(groups@[j as int]@) == entries_in(chs, nm[j as int]));
        append_all(&mut full, &joined);
        append_all(&mut full, &chars_of("\n\n"));
        assert(full@ + groups_text(chs, nm, j + 1) =~= before + groups_text(chs, nm, j as int));
        j += 1;
    }
    assert(full@ + seq![] =~= full@);
    if free.len() == 0 {
        assert(head =~= seq![]);
    }
    string_of(&full)
}

/// No channel of `chs` is in a category named `name` when `name` is not among
/// their category names.
proof fn lemma_entries_in_absent(chs: Seq<ChannelView>, name: Seq<char>)
    requires
        !category_names(chs).contains(name),
    ensures
        entries_in(chs, name) == Seq::<Seq<char>>::empty(),
    decreases chs.len(),
{
    if chs.len() > 0 {
        let p = category_names(chs.drop_last());
        match chs.last().category {
            Some(c) => {
                if p.contains(c.category) {
                } else {
                    assert(p.push(c.category).last() == c.category);
                    assert(c.category != name);
                    if p.contains(name) {
                        let k = choose|k: int| 0 <= k < p.len() && p[k] == name;
                        assert(p.push(c.category)[k] == name);
                    }
                }
            },
            None => {},
        }
        lemma_entries_in_absent(chs.drop_last(), name);
    }
}

} // verus!
