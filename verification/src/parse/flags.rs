//! What the parser reads from a `-r` flag, and what a channel keeps of it.
use vstd::prelude::*;
use crate::text::{remove_n, split, trim, utf8_len};
use crate::text_facts::{
    lemma_remove_prefix, lemma_split_concat, lemma_split_none, lemma_trim_pad, lemma_trim_solid,
    solid_ends,
};
use crate::parse::parser::{
    empty_args, flag_cat, flag_p, flag_r, is_flag, join_until_flag, parse_spec, run, step, ArgsView,
};
use crate::parse::parse_to_channel::{channel_name, channel_rest, channel_spec};
use crate::parse::reparse::{join_sp, lemma_join_sp_split, lemma_utf8_len_ge, sp};
use crate::bot::channel_data::{CategoryView, ChannelView};

verus! {

/// Words from index `i` on, none of them a flag, are joined up to the end.
proof fn lemma_join_until_end(toks: Seq<Seq<char>>, i: int)
    requires
        0 <= i <= toks.len(),
        forall|t: int| i <= t < toks.len() ==> !is_flag(#[trigger] toks[t]),
    ensures
        join_until_flag(toks, i) == join_sp(toks.skip(i)),
    decreases toks.len() - i,
{
    if i == toks.len() {
        assert(toks.skip(i) =~= Seq::<Seq<char>>::empty());
    } else {
        lemma_join_until_end(toks, i + 1);
        assert(toks.skip(i).drop_first() =~= toks.skip(i + 1));
        assert(toks.skip(i)[0] == toks[i]);
    }
}

/// The roles of a role list: its comma-separated parts, trimmed.
pub open spec fn role_list(x: Seq<char>) -> Seq<Seq<char>> {
    split(x, seq![',']).map_values(|r: Seq<char>| trim(r))
}

/// `-r` followed by a role list, in which no word is a flag, is read as all
/// the roles of the list, in order, and nothing else.
pub proof fn lemma_roles_flag(x: Seq<char>)
    requires
        x.len() > 0,
        solid_ends(x),
        forall|t: int| 0 <= t < split(x, sp()).len() ==> !is_flag(#[trigger] split(x, sp())[t]),
    ensures
        parse_spec(flag_r() + sp() + x) == Some(
            Ok::<ArgsView, ArgsView>(ArgsView { roles: Some(role_list(x)), ..empty_args() }),
        ),
{
    let r = flag_r();
    let s = r + sp() + x;
    assert(!r.contains(' '));
    lemma_split_none(r, ' ');
    lemma_split_concat(r, ' ', x);
    let toks = split(s, sp());
    assert(toks =~= seq![r] + split(x, sp()));
    assert(toks[0] == r);
    lemma_trim_solid(r);
    assert(r != flag_cat());
    assert(r != flag_p());
    assert forall|t: int| 1 <= t < toks.len() implies !is_flag(#[trigger] toks[t]) by {
        assert(toks[t] == split(x, sp())[t - 1]);
    }
    lemma_join_until_end(toks, 1);
    assert(toks.skip(1) =~= split(x, sp()));
    lemma_join_sp_split(x);
    lemma_trim_pad(seq![], x, sp());
    assert(Seq::<char>::empty() + x + sp() =~= x + sp());
    assert(r + (sp() + x) =~= s);
    lemma_remove_prefix(r, sp() + x);
    lemma_trim_pad(sp(), x, seq![]);
    assert(sp() + x + Seq::<char>::empty() =~= sp() + x);
    lemma_remove_prefix(x, seq![]);
    assert(x + Seq::<char>::empty() =~= x);
    assert(trim(Seq::<char>::empty()) =~= Seq::<char>::empty());
    let a = ArgsView { roles: Some(role_list(x)), ..empty_args() };
    assert(step(s, empty_args()) == Some((Seq::<char>::empty(), a)));
    lemma_utf8_len_ge(s);
    let f = utf8_len(s);
    assert(run(s, empty_args(), f) == run(Seq::<char>::empty(), a, (f - 1) as nat));
}

/// A channel keeps what the parser reads from the text after its name: its
/// roles are exactly the roles read there (none when nothing follows the name),
/// and it is private exactly when `-p` is read there.
pub proof fn lemma_channel_keeps_rest(ch: Seq<char>, cat: Option<CategoryView>)
    ensures
        channel_spec(ch, cat) matches Some(Ok(c)) ==> {
            &&& c.channel == channel_name(ch)
            &&& c.category == cat
            &&& if channel_rest(ch).len() == 0 {
                c.roles is None && c.private is None
            } else {
                parse_spec(channel_rest(ch)) matches Some(Ok(d)) && c.roles == d.roles
                    && c.private == (if d.private {
                    Some(true)
                } else {
                    None
                })
            }
        },
{
}

/// A channel whose name is followed by `-r` and a role list gets all the roles
/// of the list, in order.
pub proof fn lemma_channel_roles(ch: Seq<char>, cat: Option<CategoryView>, x: Seq<char>)
    requires
        channel_rest(ch) == flag_r() + sp() + x,
        x.len() > 0,
        solid_ends(x),
        forall|t: int| 0 <= t < split(x, sp()).len() ==> !is_flag(#[trigger] split(x, sp())[t]),
    ensures
        channel_spec(ch, cat) matches Some(Ok(c)) && c.roles == Some(role_list(x)),
{
    lemma_roles_flag(x);
}

} // verus!
