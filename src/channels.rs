//! Resolving the channel arguments of a command against a guild's channels.

use vstd::prelude::*;

use crate::seqs::{lemma_filter_first, lemma_filter_split, lemma_filter_step};
use crate::text::{
    eq_ignore_ascii_case, eq_ignore_ascii_case_spec, parse_u64, parse_u64_spec, split_words,
    views_of, whitespace_words,
};

verus! {

broadcast use vstd::seq_lib::group_filter_ensures;

/// The kind of a guild channel, as far as resolution cares.
#[derive(Debug, Clone, Copy, PartialEq, Eq, Structural)]
pub enum ChannelKind {
    Text,
    Voice,
    Category,
    Other,
}

/// A channel of a guild: its ID, its name and its kind.
#[derive(Debug, Clone)]
pub struct GuildChannel {
    pub id: u64,
    pub name: String,
    pub kind: ChannelKind,
}

impl GuildChannel {
    /// A copy of this channel.
    pub fn cloned(&self) -> (r: GuildChannel)
        ensures
            r == *self,
    {
        GuildChannel { id: self.id, name: self.name.clone(), kind: self.kind }
    }
}

/// The first element, if there is one.
pub open spec fn first_of<A>(s: Seq<A>) -> Option<A> {
    if s.len() > 0 {
        Some(s[0])
    } else {
        None
    }
}

/// The channel has this ID.
pub open spec fn has_id(id: u64) -> spec_fn(GuildChannel) -> bool {
    |c: GuildChannel| c.id == id
}

/// The channel's name equals `name` up to ASCII case.
pub open spec fn has_name(name: Seq<char>) -> spec_fn(GuildChannel) -> bool {
    |c: GuildChannel| eq_ignore_ascii_case_spec(c.name@, name)
}

/// The channels with the given ID, in directory order.
pub open spec fn channels_with_id(cs: Seq<GuildChannel>, id: u64) -> Seq<GuildChannel> {
    cs.filter(has_id(id))
}

/// The channels whose name equals `name` up to ASCII case, in directory order.
pub open spec fn channels_named(cs: Seq<GuildChannel>, name: Seq<char>) -> Seq<GuildChannel> {
    cs.filter(has_name(name))
}

/// The ID inside a channel mention `<#ID>`, if `arg` is one.
pub open spec fn mentioned_id(arg: Seq<char>) -> Option<u64> {
    if arg.len() >= 3 && arg[0] == '<' && arg[1] == '#' && arg.last() == '>' {
        parse_u64_spec(arg.subrange(2, arg.len() - 1))
    } else {
        None
    }
}

/// The channel that one argument names: a bare ID, then a mention, then a
/// name that exactly one channel has.
pub open spec fn channel_of_arg(cs: Seq<GuildChannel>, arg: Seq<char>) -> Option<GuildChannel> {
    if parse_u64_spec(arg) is Some {
        first_of(channels_with_id(cs, parse_u64_spec(arg)->0))
    } else if mentioned_id(arg) is Some {
        first_of(channels_with_id(cs, mentioned_id(arg)->0))
    } else if channels_named(cs, arg).len() == 1 {
        Some(channels_named(cs, arg)[0])
    } else {
        None
    }
}

/// No two channels share an ID: the directory is keyed by channel ID.
pub open spec fn distinct_ids(cs: Seq<GuildChannel>) -> bool {
    forall|i: int, j: int|
        0 <= i < cs.len() && 0 <= j < cs.len() && i != j ==> (#[trigger] cs[i]).id != (
        #[trigger] cs[j]).id
}

proof fn lemma_filter_keeps_distinct(s: Seq<GuildChannel>, p: spec_fn(GuildChannel) -> bool)
    requires
        distinct_ids(s),
    ensures
        distinct_ids(s.filter(p)),
    decreases s.len(),
{
    reveal(Seq::filter);
    if s.len() > 0 {
        let t = s.drop_last();
        assert forall|i: int, j: int|
            0 <= i < t.len() && 0 <= j < t.len() && i != j implies (#[trigger] t[i]).id != (
            #[trigger] t[j]).id by {
            assert(t[i] == s[i] && t[j] == s[j]);
        }
        lemma_filter_keeps_distinct(t, p);
        let f = t.filter(p);
        if p(s.last()) {
            assert forall|i: int| 0 <= i < f.len() implies (#[trigger] f[i]).id != s.last().id by {
                assert(f.contains(f[i]));
                t.lemma_filter_contains_rev(p, f[i]);
                let j = choose|j: int| 0 <= j < t.len() && t[j] == f[i];
                assert(s[j] == t[j]);
            }
            let g = f.push(s.last());
            assert forall|i: int, j: int|
                0 <= i < g.len() && 0 <= j < g.len() && i != j implies (#[trigger] g[i]).id != (
                #[trigger] g[j]).id by {
                if i < f.len() && j < f.len() {
                    assert(g[i] == f[i] && g[j] == f[j]);
                } else if i < f.len() {
                    assert(g[i] == f[i]);
                } else if j < f.len() {
                    assert(g[j] == f[j]);
                }
            }
        }
    }
}

/// In a directory keyed by ID, an ID names at most one channel.
pub proof fn lemma_id_names_one_channel(cs: Seq<GuildChannel>, id: u64)
    requires
        distinct_ids(cs),
    ensures
        channels_with_id(cs, id).len() <= 1,
{
    let f = channels_with_id(cs, id);
    lemma_filter_keeps_distinct(cs, has_id(id));
    if f.len() >= 2 {
        cs.lemma_filter_pred(has_id(id), 0);
        cs.lemma_filter_pred(has_id(id), 1);
        assert(f[0].id == f[1].id);
    }
}

/// Whether no two channels share an ID.
pub fn has_distinct_ids(channels: &Vec<GuildChannel>) -> (r: bool)
    ensures
        r == distinct_ids(channels@),
{
    let n = channels.len();
    let mut i: usize = 0;
    while i < n
        invariant
            i <= n,
            n == channels.len(),
            forall|a: int, b: int|
                0 <= a < i && 0 <= b < n && a != b ==> (#[trigger] channels@[a]).id != (
                #[trigger] channels@[b]).id,
        decreases n - i,
    {
        let mut j: usize = 0;
        while j < n
            invariant
                i < n,
                j <= n,
                n == channels.len(),
                forall|a: int, b: int|
                    0 <= a < i && 0 <= b < n && a != b ==> (#[trigger] channels@[a]).id != (
                    #[trigger] channels@[b]).id,
                forall|b: int|
                    0 <= b < j && b != i ==> channels@[i as int].id != (#[trigger] channels@[b]).id,
            decreases n - j,
        {
            if j != i && channels[i].id == channels[j].id {
                return false;
            }
            j = j + 1;
        }
        i = i + 1;
    }
    true
}

/// Finds the first channel with the given ID.
fn position_of_id(channels: &Vec<GuildChannel>, id: u64) -> (r: Option<usize>)
    ensures
        match r {
            Some(i) => i < channels.len() && first_of(channels_with_id(channels@, id)) == Some(
                channels@[i as int],
            ),
            None => first_of(channels_with_id(channels@, id)) is None,
        },
{
    let mut i: usize = 0;
    while i < channels.len()
        invariant
            i <= channels.len(),
            channels@.subrange(0, i as int).filter(has_id(id)).len() == 0,
        decreases channels.len() - i,
    {
        proof {
            lemma_filter_step(channels@, has_id(id), i as int);
        }
        if channels[i].id == id {
            proof {
                let s = channels@;
                lemma_filter_split(s, has_id(id), i as int);
                lemma_filter_first(s.subrange(i as int, s.len() as int), has_id(id));
            }
            return Some(i);
        }
        i = i + 1;
    }
    assert(channels@.subrange(0, channels.len() as int) =~= channels@);
    None
}

/// Finds the channel whose name is `name` up to ASCII case, if exactly one is.
fn position_of_name(channels: &Vec<GuildChannel>, name: &str) -> (r: Option<usize>)
    ensures
        match r {
            Some(i) => i < channels.len() && channels_named(channels@, name@).len() == 1
                && channels_named(channels@, name@)[0] == channels@[i as int],
            None => channels_named(channels@, name@).len() != 1,
        },
{
    let mut first: Option<usize> = None;
    let mut count: usize = 0;
    let mut i: usize = 0;
    while i < channels.len()
        invariant
            i <= channels.len(),
            count == (if channels@.subrange(0, i as int).filter(has_name(name@)).len() < 2 {
                channels@.subrange(0, i as int).filter(has_name(name@)).len()
            } else {
                2
            }),
            (channels@.subrange(0, i as int).filter(has_name(name@)).len() == 0) == (first is None),
            first matches Some(j) ==> j < i && channels@[j as int] == channels@.subrange(
                0,
                i as int,
            ).filter(has_name(name@))[0],
        decreases channels.len() - i,
    {
        proof {
            lemma_filter_step(channels@, has_name(name@), i as int);
        }
        if eq_ignore_ascii_case(channels[i].name.as_str(), name) {
            if count == 0 {
                first = Some(i);
                count = 1;
            } else if count == 1 {
                count = 2;
            }
        }
        i = i + 1;
    }
    assert(channels@.subrange(0, channels.len() as int) =~= channels@);
    if count == 1 {
        first
    } else {
        None
    }
}

/// The ID inside a channel mention `<#ID>`.
fn mention_id(arg: &str) -> (r: Option<u64>)
    ensures
        r == mentioned_id(arg@),
{
    let n = arg.unicode_len();
    if n >= 3 && arg.get_char(0) == '<' && arg.get_char(1) == '#' && arg.get_char(n - 1) == '>' {
        parse_u64(arg.substring_char(2, n - 1))
    } else {
        None
    }
}

fn found_by_id(channels: &Vec<GuildChannel>, id: u64, arg: &str) -> (r: Result<
    (GuildChannel, String),
    String,
>)
    ensures
        match first_of(channels_with_id(channels@, id)) {
            Some(c) => r matches Ok(p) && p.0 == c && p.1@ == arg@,
            None => r matches Err(a) && a@ == arg@,
        },
{
    match position_of_id(channels, id) {
        Some(i) => Ok((channels[i].cloned(), arg.to_owned())),
        None => Err(arg.to_owned()),
    }
}

/// Resolves one argument to a channel of a directory keyed by channel ID.
///
/// A bare ID or a mention `<#ID>` names the channel with that ID; otherwise
/// the argument names the one channel whose name equals it up to ASCII case.
/// A resolved channel comes with the argument that named it, an unresolved
/// argument comes back as the error.
pub fn get_channel_from_arg(channels: &Vec<GuildChannel>, arg: &str) -> (r: Result<
    (GuildChannel, String),
    String,
>)
    requires
        distinct_ids(channels@),
    ensures
        match channel_of_arg(channels@, arg@) {
            Some(c) => r matches Ok(p) && p.0 == c && p.1@ == arg@,
            None => r matches Err(a) && a@ == arg@,
        },
{
    if let Some(id) = parse_u64(arg) {
        return found_by_id(channels, id, arg);
    }
    if let Some(id) = mention_id(arg) {
        return found_by_id(channels, id, arg);
    }
    match position_of_name(channels, arg) {
        Some(i) => Ok((channels[i].cloned(), arg.to_owned())),
        None => Err(arg.to_owned()),
    }
}

/// The arguments that name no channel, in the order given.
pub open spec fn unresolved_args(cs: Seq<GuildChannel>, args: Seq<Seq<char>>) -> Seq<Seq<char>>
    decreases args.len(),
{
    if args.len() == 0 {
        Seq::empty()
    } else {
        let rest = unresolved_args(cs, args.drop_last());
        if channel_of_arg(cs, args.last()) is None {
            rest.push(args.last())
        } else {
            rest
        }
    }
}

/// The channels that the arguments name, each with its argument, in the order given.
pub open spec fn resolved_args(cs: Seq<GuildChannel>, args: Seq<Seq<char>>) -> Seq<
    (GuildChannel, Seq<char>),
>
    decreases args.len(),
{
    if args.len() == 0 {
        Seq::empty()
    } else {
        let rest = resolved_args(cs, args.drop_last());
        if channel_of_arg(cs, args.last()) is Some {
            rest.push((channel_of_arg(cs, args.last())->0, args.last()))
        } else {
            rest
        }
    }
}

/// Each channel with the text of its argument.
pub open spec fn pairs_view(v: Seq<(GuildChannel, String)>) -> Seq<(GuildChannel, Seq<char>)> {
    v.map_values(|p: (GuildChannel, String)| (p.0, p.1@))
}

/// Channel arguments split into those that name a channel and those that do not.
#[derive(Debug, Default)]
pub struct ChannelsFromArgs {
    pub not_found: Vec<String>,
    pub found: Vec<(GuildChannel, String)>,
}

impl ChannelsFromArgs {
    pub open spec fn not_found_view(&self) -> Seq<Seq<char>> {
        views_of(self.not_found@)
    }

    pub open spec fn found_view(&self) -> Seq<(GuildChannel, Seq<char>)> {
        pairs_view(self.found@)
    }
}

/// Resolves each word to a channel, keeping the order of the words.
pub fn resolve_channel_words(channels: &Vec<GuildChannel>, words: &Vec<String>) -> (r:
    ChannelsFromArgs)
    requires
        distinct_ids(channels@),
    ensures
        r.not_found_view() == unresolved_args(channels@, views_of(words@)),
        r.found_view() == resolved_args(channels@, views_of(words@)),
{
    let ghost ws = views_of(words@);
    let mut result = ChannelsFromArgs { not_found: Vec::new(), found: Vec::new() };
    let mut i: usize = 0;
    while i < words.len()
        invariant
            i <= words.len(),
            distinct_ids(channels@),
            ws == views_of(words@),
            result.not_found_view() == unresolved_args(channels@, ws.subrange(0, i as int)),
            result.found_view() == resolved_args(channels@, ws.subrange(0, i as int)),
        decreases words.len() - i,
    {
        let ghost old_nf = result.not_found@;
        let ghost old_f = result.found@;
        assert(ws.subrange(0, i + 1).drop_last() =~= ws.subrange(0, i as int));
        assert(ws[i as int] == words@[i as int]@);
        match get_channel_from_arg(channels, words[i].as_str()) {
            Ok(p) => {
                result.found.push(p);
                assert(pairs_view(old_f.push(p)) =~= pairs_view(old_f).push((p.0, p.1@)));
            },
            Err(a) => {
                result.not_found.push(a);
                assert(views_of(old_nf.push(a)) =~= views_of(old_nf).push(a@));
            },
        }
        i = i + 1;
    }
    assert(ws.subrange(0, words.len() as int) =~= ws);
    result
}

/// Resolves each whitespace-separated argument to a channel, keeping their order.
pub fn get_channels_from_args(channels: &Vec<GuildChannel>, args: &str) -> (r: ChannelsFromArgs)
    requires
        distinct_ids(channels@),
    ensures
        r.not_found_view() == unresolved_args(channels@, whitespace_words(args@)),
        r.found_view() == resolved_args(channels@, whitespace_words(args@)),
{
    let words = split_words(args);
    resolve_channel_words(channels, &words)
}

/// Whether a resolved channel can be read by the user who asked and by the bot itself.
#[derive(Debug, Clone, Copy, PartialEq, Eq, Structural)]
pub struct ReadAccess {
    pub user_can_read: bool,
    pub self_can_read: bool,
}

/// The channels that both the user and the bot can read.
pub open spec fn readable_by_both(found: Seq<(GuildChannel, Seq<char>)>, access: Seq<ReadAccess>) -> Seq<GuildChannel>
    decreases found.len(),
{
    if found.len() == 0 || access.len() == 0 {
        Seq::empty()
    } else {
        let rest = readable_by_both(found.drop_last(), access.drop_last());
        if access.last().user_can_read && access.last().self_can_read {
            rest.push(found.last().0)
        } else {
            rest
        }
    }
}

/// The channels that the user cannot read, each with its argument.
pub open spec fn unreadable_by_user(found: Seq<(GuildChannel, Seq<char>)>, access: Seq<ReadAccess>) -> Seq<(GuildChannel, Seq<char>)>
    decreases found.len(),
{
    if found.len() == 0 || access.len() == 0 {
        Seq::empty()
    } else {
        let rest = unreadable_by_user(found.drop_last(), access.drop_last());
        if !access.last().user_can_read {
            rest.push(found.last())
        } else {
            rest
        }
    }
}

/// The channels that the user can read but the bot cannot.
pub open spec fn unreadable_by_self(found: Seq<(GuildChannel, Seq<char>)>, access: Seq<ReadAccess>) -> Seq<GuildChannel>
    decreases found.len(),
{
    if found.len() == 0 || access.len() == 0 {
        Seq::empty()
    } else {
        let rest = unreadable_by_self(found.drop_last(), access.drop_last());
        if access.last().user_can_read && !access.last().self_can_read {
            rest.push(found.last().0)
        } else {
            rest
        }
    }
}

/// Channel arguments split into four buckets: not found, readable by both
/// the user and the bot, unreadable by the user, unreadable by the bot.
#[derive(Debug, Default)]
pub struct ReadableChannelsFromArgs {
    pub not_found: Vec<String>,
    pub found: Vec<GuildChannel>,
    pub user_cant_read: Vec<(GuildChannel, String)>,
    pub self_cant_read: Vec<GuildChannel>,
}

/// Sorts resolved channels by who can read them. `access[i]` tells who can
/// read `resolved.found[i]`; a channel the user cannot read counts as such
/// whatever the bot can do.
pub fn classify_readable(resolved: ChannelsFromArgs, access: &Vec<ReadAccess>) -> (r:
    ReadableChannelsFromArgs)
    requires
        access.len() == resolved.found.len(),
    ensures
        views_of(r.not_found@) == resolved.not_found_view(),
        r.found@ == readable_by_both(resolved.found_view(), access@),
        pairs_view(r.user_cant_read@) == unreadable_by_user(resolved.found_view(), access@),
        r.self_cant_read@ == unreadable_by_self(resolved.found_view(), access@),
{
    let ghost fv = resolved.found_view();
    let ghost nfv = resolved.not_found_view();
    let mut result = ReadableChannelsFromArgs {
        not_found: resolved.not_found,
        found: Vec::new(),
        user_cant_read: Vec::new(),
        self_cant_read: Vec::new(),
    };
    let found = resolved.found;
    let mut i: usize = 0;
    while i < found.len()
        invariant
            i <= found.len(),
            access.len() == found.len(),
            fv == pairs_view(found@),
            views_of(result.not_found@) == nfv,
            result.found@ == readable_by_both(fv.subrange(0, i as int), access@.subrange(0, i as int)),
            pairs_view(result.user_cant_read@) == unreadable_by_user(fv.subrange(0, i as int), access@.subrange(0, i as int)),
            result.self_cant_read@ == unreadable_by_self(fv.subrange(0, i as int), access@.subrange(0, i as int)),
        decreases found.len() - i,
    {
        assert(fv.subrange(0, i + 1).drop_last() =~= fv.subrange(0, i as int));
        assert(access@.subrange(0, i + 1).drop_last() =~= access@.subrange(0, i as int));
        let a = access[i];
        let channel = found[i].0.cloned();
        if !a.user_can_read {
            let ghost old_u = result.user_cant_read@;
            let p = (channel, found[i].1.clone());
            result.user_cant_read.push(p);
            assert(pairs_view(old_u.push(p)) =~= pairs_view(old_u).push((p.0, p.1@)));
        } else if !a.self_can_read {
            result.self_cant_read.push(channel);
        } else {
            result.found.push(channel);
        }
        i = i + 1;
    }
    assert(fv.subrange(0, found.len() as int) =~= fv);
    assert(access@.subrange(0, found.len() as int) =~= access@);
    result
}

/// Parses each whitespace-separated argument as a channel ID: an ID with its
/// argument, or the argument that is not one.
pub fn get_ids_from_args(args: &str) -> (r: Vec<Result<(u64, String), String>>)
    ensures
        r.len() == whitespace_words(args@).len(),
        forall|i: int|
            0 <= i < r.len() ==> match parse_u64_spec(#[trigger] whitespace_words(args@)[i]) {
                Some(id) => r[i] matches Ok(p) && p.0 == id && p.1@ == whitespace_words(args@)[i],
                None => r[i] matches Err(a) && a@ == whitespace_words(args@)[i],
            },
{
    let words = split_words(args);
    ids_from_words(&words)
}

/// Parses each word as a channel ID.
pub fn ids_from_words(words: &Vec<String>) -> (r: Vec<Result<(u64, String), String>>)
    ensures
        r.len() == words.len(),
        forall|i: int|
            0 <= i < r.len() ==> match parse_u64_spec(#[trigger] words@[i]@) {
                Some(id) => r[i] matches Ok(p) && p.0 == id && p.1@ == words@[i]@,
                None => r[i] matches Err(a) && a@ == words@[i]@,
            },
{
    let mut r: Vec<Result<(u64, String), String>> = Vec::new();
    let mut i: usize = 0;
    while i < words.len()
        invariant
            i <= words.len(),
            r.len() == i,
            forall|j: int|
                0 <= j < i ==> match parse_u64_spec(#[trigger] words@[j]@) {
                    Some(id) => r[j] matches Ok(p) && p.0 == id && p.1@ == words@[j]@,
                    None => r[j] matches Err(a) && a@ == words@[j]@,
                },
        decreases words.len() - i,
    {
        match parse_u64(words[i].as_str()) {
            Some(id) => r.push(Ok((id, words[i].clone()))),
            None => r.push(Err(words[i].clone())),
        }
        i = i + 1;
    }
    r
}

/// Errors of channel lookups.
#[derive(Debug, Clone, Copy, PartialEq, Eq, Structural)]
pub enum ResolveError {
    /// The guild, and so its channels, could not be looked up.
    GuildUnavailable,
}

/// A text channel.
pub open spec fn is_text(c: GuildChannel) -> bool {
    c.kind == ChannelKind::Text
}

/// The text channels of a guild, from the guild's channels as the cache
/// gives them (`None` when the guild is not in the cache).
pub fn get_text_channels_in_guild(channels: Option<Vec<GuildChannel>>) -> (r: Result<
    Vec<GuildChannel>,
    ResolveError,
>)
    ensures
        match channels {
            None => r == Err::<Vec<GuildChannel>, ResolveError>(ResolveError::GuildUnavailable),
            Some(cs) => r matches Ok(t) && t@ == cs@.filter(|c: GuildChannel| is_text(c))
                && (distinct_ids(cs@) ==> distinct_ids(t@)),
        },
{
    match channels {
        None => Err(ResolveError::GuildUnavailable),
        Some(cs) => {
            let ghost p = |c: GuildChannel| is_text(c);
            let mut t: Vec<GuildChannel> = Vec::new();
            let mut i: usize = 0;
            while i < cs.len()
                invariant
                    i <= cs.len(),
                    p == (|c: GuildChannel| is_text(c)),
                    t@ == cs@.subrange(0, i as int).filter(p),
                decreases cs.len() - i,
            {
                proof {
                    lemma_filter_step(cs@, p, i as int);
                }
                if cs[i].kind == ChannelKind::Text {
                    t.push(cs[i].cloned());
                }
                i = i + 1;
            }
            assert(cs@.subrange(0, cs.len() as int) =~= cs@);
            proof {
                if distinct_ids(cs@) {
                    lemma_filter_keeps_distinct(cs@, p);
                }
            }
            Ok(t)
        },
    }
}

/// Resolving arguments partitions them: each argument lands in exactly one
/// of the two buckets (not found, or found with the channel it names), and
/// the buckets hold nothing else.
pub proof fn lemma_resolution_partitions(cs: Seq<GuildChannel>, args: Seq<Seq<char>>)
    ensures
        unresolved_args(cs, args).len() + resolved_args(cs, args).len() == args.len(),
        forall|k: int|
            0 <= k < unresolved_args(cs, args).len() ==> channel_of_arg(
                cs,
                #[trigger] unresolved_args(cs, args)[k],
            ) is None,
        forall|k: int|
            0 <= k < resolved_args(cs, args).len() ==> channel_of_arg(
                cs,
                (#[trigger] resolved_args(cs, args)[k]).1,
            ) == Some(resolved_args(cs, args)[k].0),
        forall|i: int|
            0 <= i < args.len() && channel_of_arg(cs, #[trigger] args[i]) is None
                ==> unresolved_args(cs, args).contains(args[i]),
        forall|i: int|
            0 <= i < args.len() && channel_of_arg(cs, #[trigger] args[i]) is Some
                ==> resolved_args(cs, args).contains((channel_of_arg(cs, args[i])->0, args[i])),
    decreases args.len(),
{
    if args.len() > 0 {
        let prev = args.drop_last();
        lemma_resolution_partitions(cs, prev);
        let u = unresolved_args(cs, args);
        let up = unresolved_args(cs, prev);
        let r = resolved_args(cs, args);
        let rp = resolved_args(cs, prev);
        assert forall|k: int| 0 <= k < u.len() implies channel_of_arg(cs, #[trigger] u[k]) is None by {
            if k < up.len() {
                assert(u[k] == up[k]);
            }
        }
        assert forall|k: int| 0 <= k < r.len() implies channel_of_arg(cs, (#[trigger] r[k]).1) == Some(
            r[k].0,
        ) by {
            if k < rp.len() {
                assert(r[k] == rp[k]);
            }
        }
        assert forall|i: int|
            0 <= i < args.len() && channel_of_arg(cs, #[trigger] args[i]) is None implies u.contains(
            args[i],
        ) by {
            if i < args.len() - 1 {
                assert(prev[i] == args[i]);
                let j = choose|j: int| 0 <= j < up.len() && up[j] == prev[i];
                assert(u[j] == up[j]);
            } else {
                assert(u[u.len() - 1] == args[i]);
            }
        }
        assert forall|i: int|
            0 <= i < args.len() && channel_of_arg(cs, #[trigger] args[i]) is Some implies r.contains(
            (channel_of_arg(cs, args[i])->0, args[i]),
        ) by {
            if i < args.len() - 1 {
                assert(prev[i] == args[i]);
                let j = choose|j: int|
                    0 <= j < rp.len() && rp[j] == (channel_of_arg(cs, prev[i])->0, prev[i]);
                assert(r[j] == rp[j]);
            } else {
                assert(r[r.len() - 1] == (channel_of_arg(cs, args[i])->0, args[i]));
            }
        }
    }
}

/// Sorting resolved channels by who can read them partitions them: each
/// channel lands in exactly one of the three buckets, the one that its access
/// decides, and the bucket sizes add up to the number of channels.
pub proof fn lemma_readable_partitions(found: Seq<(GuildChannel, Seq<char>)>, access: Seq<ReadAccess>)
    requires
        found.len() == access.len(),
    ensures
        readable_by_both(found, access).len() + unreadable_by_user(found, access).len()
            + unreadable_by_self(found, access).len() == found.len(),
        forall|i: int|
            0 <= i < found.len() && !(#[trigger] access[i]).user_can_read
                ==> unreadable_by_user(found, access).contains(found[i]),
        forall|i: int|
            0 <= i < found.len() && (#[trigger] access[i]).user_can_read && !access[i].self_can_read
                ==> unreadable_by_self(found, access).contains(found[i].0),
        forall|i: int|
            0 <= i < found.len() && (#[trigger] access[i]).user_can_read && access[i].self_can_read
                ==> readable_by_both(found, access).contains(found[i].0),
    decreases found.len(),
{
    if found.len() > 0 {
        let pf = found.drop_last();
        let pa = access.drop_last();
        lemma_readable_partitions(pf, pa);
        let b = readable_by_both(found, access);
        let bp = readable_by_both(pf, pa);
        let u = unreadable_by_user(found, access);
        let up = unreadable_by_user(pf, pa);
        let s = unreadable_by_self(found, access);
        let sp = unreadable_by_self(pf, pa);
        let n = found.len() - 1;
        assert forall|i: int| 0 <= i < found.len() && !(#[trigger] access[i]).user_can_read implies u.contains(
            found[i],
        ) by {
            if i < n {
                assert(pa[i] == access[i] && pf[i] == found[i]);
                let j = choose|j: int| 0 <= j < up.len() && up[j] == pf[i];
                assert(u[j] == up[j]);
            } else {
                assert(u[u.len() - 1] == found[i]);
            }
        }
        assert forall|i: int|
            0 <= i < found.len() && (#[trigger] access[i]).user_can_read && !access[i].self_can_read implies s.contains(
            found[i].0,
        ) by {
            if i < n {
                assert(pa[i] == access[i] && pf[i] == found[i]);
                let j = choose|j: int| 0 <= j < sp.len() && sp[j] == pf[i].0;
                assert(s[j] == sp[j]);
            } else {
                assert(s[s.len() - 1] == found[i].0);
            }
        }
        assert forall|i: int|
            0 <= i < found.len() && (#[trigger] access[i]).user_can_read && access[i].self_can_read implies b.contains(
            found[i].0,
        ) by {
            if i < n {
                assert(pa[i] == access[i] && pf[i] == found[i]);
                let j = choose|j: int| 0 <= j < bp.len() && bp[j] == pf[i].0;
                assert(b[j] == bp[j]);
            } else {
                assert(b[b.len() - 1] == found[i].0);
            }
        }
    }
}

} // verus!
