//! The prefix and the suffix that an input puts on a field of its channels.

use vstd::prelude::*;

use crate::config::{is_affix_field, ConfigInput, InputAffix};
use crate::playlist::{
    channel_count, channels_view, fetched_view, groups_view, ChannelView, FetchedPlaylist,
    FetchedView, GroupView, PlaylistGroup, PlaylistItem,
};
use crate::text::same_text;

verus! {

/// Whether an affix is there, names a field that takes one, and is not empty.
pub open spec fn affix_applies(affix: Option<InputAffix>) -> bool {
    match affix {
        Some(a) => is_affix_field(a.field@) && a.value@.len() > 0,
        None => false,
    }
}

/// A channel with a suffix on a field; a field without a value gets the suffix alone.
pub open spec fn suffixed(channel: ChannelView, affix: InputAffix) -> ChannelView {
    channel.with_property(
        affix.field@,
        match channel.property(affix.field@) {
            Some(value) => value + affix.value@,
            None => affix.value@,
        },
    )
}

/// A channel with a prefix on a field; a field without a value gets the prefix alone.
pub open spec fn prefixed(channel: ChannelView, affix: InputAffix) -> ChannelView {
    channel.with_property(
        affix.field@,
        match channel.property(affix.field@) {
            Some(value) => affix.value@ + value,
            None => affix.value@,
        },
    )
}

/// A channel with the suffix of the input and then its prefix, where they apply.
pub open spec fn affixed_channel(channel: ChannelView, input: ConfigInput) -> ChannelView {
    let first = if affix_applies(input.suffix) {
        suffixed(channel, input.suffix->0)
    } else {
        channel
    };
    if affix_applies(input.prefix) {
        prefixed(first, input.prefix->0)
    } else {
        first
    }
}

/// A group with its channels affixed.
pub open spec fn affixed_group(group: GroupView, input: ConfigInput) -> GroupView {
    GroupView {
        channels: group.channels.map_values(|c: ChannelView| affixed_channel(c, input)),
        ..group
    }
}

/// A fetched playlist with its channels affixed as its input says.
pub open spec fn affixed(fetched: FetchedView) -> FetchedView {
    FetchedView {
        playlist: fetched.playlist.map_values(|g: GroupView| affixed_group(g, fetched.input)),
        ..fetched
    }
}

/// Fetched playlists with their channels affixed.
pub open spec fn all_affixed(playlists: Seq<FetchedView>) -> Seq<FetchedView> {
    playlists.map_values(|p: FetchedView| affixed(p))
}

/// Whether a field takes an affix.
fn valid_affix_field(field: &str) -> (r: bool)
    ensures
        r == is_affix_field(field@),
{
    same_text(field, "name") || same_text(field, "title") || same_text(field, "group")
}

/// Whether an affix applies.
fn validate_affix(affix: &Option<InputAffix>) -> (r: bool)
    ensures
        r == affix_applies(*affix),
{
    match affix {
        Some(a) => valid_affix_field(a.field.as_str()) && !a.value.as_str().is_empty(),
        None => false,
    }
}

/// The value of the affixed field of a channel.
fn affix_value(pli: &PlaylistItem, affix: &InputAffix, prefix: bool) -> (r: String)
    ensures
        r@ == match pli@.property(affix.field@) {
            Some(value) => if prefix {
                affix.value@ + value
            } else {
                value + affix.value@
            },
            None => affix.value@,
        },
{
    match pli.header.get_field(affix.field.as_str()) {
        Some(value) => {
            if prefix {
                affix.value.clone().concat(value.as_str())
            } else {
                value.concat(affix.value.as_str())
            }
        },
        None => affix.value.clone(),
    }
}

/// Puts the suffix and the prefix of an input on a channel.
fn affix_channel(pli: &mut PlaylistItem, input: &ConfigInput)
    ensures
        final(pli)@ == affixed_channel(old(pli)@, *input),
{
    if validate_affix(&input.suffix) {
        if let Some(suffix) = &input.suffix {
            let value = affix_value(pli, suffix, false);
            pli.header.set_field(suffix.field.as_str(), value.as_str());
        }
    }
    if validate_affix(&input.prefix) {
        if let Some(prefix) = &input.prefix {
            let value = affix_value(pli, prefix, true);
            pli.header.set_field(prefix.field.as_str(), value.as_str());
        }
    }
}

/// Puts the suffix and the prefix of an input on the channels of a group.
fn affix_group(group: &mut PlaylistGroup, input: &ConfigInput)
    ensures
        final(group)@ == affixed_group(old(group)@, *input),
{
    let ghost before = *group;
    let mut i: usize = 0;
    while i < group.channels.len()
        invariant
            i <= group.channels@.len(),
            group.channels@.len() == before.channels@.len(),
            group.id == before.id,
            group.title == before.title,
            group.xtream_cluster == before.xtream_cluster,
            forall|j: int|
                0 <= j < i ==> (#[trigger] group.channels@[j])@ == affixed_channel(
                    before.channels@[j]@,
                    *input,
                ),
            forall|j: int|
                i <= j < before.channels@.len() ==> #[trigger] group.channels@[j]
                    == before.channels@[j],
        decreases group.channels.len() - i,
    {
        affix_channel(&mut group.channels[i], input);
        i = i + 1;
    }
    assert(channels_view(group.channels@) =~= affixed_group(before@, *input).channels);
}

/// Puts the suffix and the prefix of an input on the channels of its playlist.
fn affix_groups(playlist: &mut Vec<PlaylistGroup>, input: &ConfigInput)
    ensures
        groups_view(final(playlist)@) == groups_view(old(playlist)@).map_values(
            |g: GroupView| affixed_group(g, *input),
        ),
{
    let ghost before = playlist@;
    let mut i: usize = 0;
    while i < playlist.len()
        invariant
            i <= playlist@.len(),
            playlist@.len() == before.len(),
            forall|j: int|
                0 <= j < i ==> (#[trigger] playlist@[j])@ == affixed_group(before[j]@, *input),
            forall|j: int| i <= j < before.len() ==> #[trigger] playlist@[j] == before[j],
        decreases playlist.len() - i,
    {
        affix_group(&mut playlist[i], input);
        i = i + 1;
    }
    assert(groups_view(playlist@) =~= groups_view(before).map_values(
        |g: GroupView| affixed_group(g, *input),
    ));
}

/// Puts the suffixes and prefixes of the inputs on the channels of their playlists.
pub fn apply_affixes(fetched_playlists: &mut Vec<FetchedPlaylist>)
    ensures
        fetched_view(final(fetched_playlists)@) == all_affixed(
            fetched_view(old(fetched_playlists)@),
        ),
{
    let ghost before = fetched_playlists@;
    let mut i: usize = 0;
    while i < fetched_playlists.len()
        invariant
            i <= fetched_playlists@.len(),
            fetched_playlists@.len() == before.len(),
            forall|j: int|
                0 <= j < i ==> (#[trigger] fetched_playlists@[j])@ == affixed(before[j]@),
            forall|j: int|
                i <= j < before.len() ==> #[trigger] fetched_playlists@[j] == before[j],
        decreases fetched_playlists.len() - i,
    {
        let input: &ConfigInput = fetched_playlists[i].input;
        let fetched = &mut fetched_playlists[i];
        affix_groups(&mut fetched.playlist, input);
        i = i + 1;
    }
    assert(fetched_view(fetched_playlists@) =~= all_affixed(fetched_view(before)));
}

proof fn lemma_affix_fields(field: Seq<char>)
    requires
        is_affix_field(field),
    ensures
        forall|c: ChannelView| (#[trigger] c.property(field)) is Some,
        forall|c: ChannelView, v: Seq<char>|
            (#[trigger] c.with_property(field, v)).property(field) == Some(v),
{
}

/// An input whose affixes do not apply leaves its channels as they are.
pub proof fn affixed_without_affix(channel: ChannelView, input: ConfigInput)
    requires
        !affix_applies(input.prefix),
        !affix_applies(input.suffix),
    ensures
        affixed_channel(channel, input) == channel,
{
}

/// A prefix and a suffix on the same field stand on either side of its value.
pub proof fn affixed_on_both_sides(channel: ChannelView, input: ConfigInput)
    requires
        affix_applies(input.prefix),
        affix_applies(input.suffix),
        input.prefix->0.field@ == input.suffix->0.field@,
    ensures
        ({
            let field = input.prefix->0.field@;
            affixed_channel(channel, input) == channel.with_property(
                field,
                input.prefix->0.value@ + channel.property(field)->0 + input.suffix->0.value@,
            )
        }),
{
    let field = input.prefix->0.field@;
    lemma_affix_fields(field);
    let value = channel.property(field)->0;
    let first = suffixed(channel, input.suffix->0);
    assert(first.property(field) == Some(value + input.suffix->0.value@));
    assert(input.prefix->0.value@ + (value + input.suffix->0.value@) =~= input.prefix->0.value@
        + value + input.suffix->0.value@);
}

/// Affixes change no field but `name`, `title` and `group`.
pub proof fn affixed_keeps_other_fields(channel: ChannelView, input: ConfigInput)
    ensures
        affixed_channel(channel, input).id == channel.id,
        affixed_channel(channel, input).logo == channel.logo,
        affixed_channel(channel, input).url == channel.url,
        affixed_channel(channel, input).epg_channel_id == channel.epg_channel_id,
        affixed_channel(channel, input).xtream_cluster == channel.xtream_cluster,
{
    reveal_strlit("id");
    reveal_strlit("name");
    reveal_strlit("title");
    reveal_strlit("group");
    reveal_strlit("logo");
    reveal_strlit("url");
    reveal_strlit("epg_channel_id");
    assert("name"@[0] == 'n');
    assert("title"@[0] == 't');
    assert("group"@[0] == 'g');
    assert("id"@[0] == 'i');
}

/// Affixes add and drop no channel.
pub proof fn affixed_count(fetched: FetchedView)
    ensures
        channel_count(affixed(fetched).playlist) == channel_count(fetched.playlist),
    decreases fetched.playlist.len(),
{
    if fetched.playlist.len() > 0 {
        let shorter = FetchedView { playlist: fetched.playlist.drop_last(), ..fetched };
        affixed_count(shorter);
        assert(affixed(fetched).playlist.drop_last() =~= affixed(shorter).playlist);
    }
}

} // verus!
