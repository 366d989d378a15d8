//! Affixes: which apply, and where they go.

use vstd::prelude::*;

use crate::affix::{affix_applies, affixed_channel, all_affixed};
use crate::config::{ConfigInput, InputAffix};
use crate::playlist::{ChannelView, FetchedView};

use crate::laws::playlists::field_names_differ;

verus! {

/// An affix applies exactly where it is there, is not empty, and is for the name, the title or the
/// group.
pub proof fn affixes_that_apply(affix: Option<InputAffix>)
    ensures
        affix_applies(affix) <==> affix is Some && affix->0.value@.len() > 0 && (affix->0.field@
            == "name"@ || affix->0.field@ == "title"@ || affix->0.field@ == "group"@),
{
}

/// The text that a field has with what applies of two affixes: a prefix before it, and a suffix
/// behind it, where they are for the field.
pub open spec fn between(
    prefix: Option<InputAffix>,
    field: Seq<char>,
    value: Seq<char>,
    suffix: Option<InputAffix>,
) -> Seq<char> {
    let before = if affix_applies(prefix) && prefix->0.field@ == field {
        prefix->0.value@
    } else {
        Seq::empty()
    };
    let behind = if affix_applies(suffix) && suffix->0.field@ == field {
        suffix->0.value@
    } else {
        Seq::empty()
    };
    before + value + behind
}

/// Each of the name, the title and the group has the prefix for it before it and the suffix for it
/// behind it, whether or not there is one of the other kind; the other fields stay.
pub proof fn each_field_has_its_affixes(channel: ChannelView, input: ConfigInput)
    ensures
        affixed_channel(channel, input).name == between(
            input.prefix,
            "name"@,
            channel.name,
            input.suffix,
        ),
        affixed_channel(channel, input).title == between(
            input.prefix,
            "title"@,
            channel.title,
            input.suffix,
        ),
        affixed_channel(channel, input).group == between(
            input.prefix,
            "group"@,
            channel.group,
            input.suffix,
        ),
        affixed_channel(channel, input).id == channel.id,
        affixed_channel(channel, input).logo == channel.logo,
        affixed_channel(channel, input).url == channel.url,
        affixed_channel(channel, input).epg_channel_id == channel.epg_channel_id,
        affixed_channel(channel, input).xtream_cluster == channel.xtream_cluster,
{
    let names = seq![
        "id"@,
        "name"@,
        "title"@,
        "group"@,
        "logo"@,
        "url"@,
        "epg_channel_id"@,
    ];
    field_names_differ();
    assert(names[0] == "id"@ && names[1] == "name"@ && names[2] == "title"@ && names[3] == "group"@
        && names[4] == "logo"@ && names[5] == "url"@ && names[6] == "epg_channel_id"@);
    let result = affixed_channel(channel, input);
    assert(result.name =~= between(input.prefix, "name"@, channel.name, input.suffix));
    assert(result.title =~= between(input.prefix, "title"@, channel.title, input.suffix));
    assert(result.group =~= between(input.prefix, "group"@, channel.group, input.suffix));
}

/// A prefix without a suffix goes before the field, and a suffix without a prefix behind it.
pub proof fn an_affix_alone_goes_on(channel: ChannelView, input: ConfigInput)
    ensures
        affix_applies(input.prefix) && !affix_applies(input.suffix) ==> affixed_channel(
            channel,
            input,
        ) == channel.with_property(
            input.prefix->0.field@,
            input.prefix->0.value@ + channel.property(input.prefix->0.field@)->0,
        ),
        affix_applies(input.suffix) && !affix_applies(input.prefix) ==> affixed_channel(
            channel,
            input,
        ) == channel.with_property(
            input.suffix->0.field@,
            channel.property(input.suffix->0.field@)->0 + input.suffix->0.value@,
        ),
{
}

/// Every channel of every playlist is affixed as the input of its playlist says, and nothing else
/// changes.
pub proof fn channels_are_affixed_one_by_one(playlists: Seq<FetchedView>)
    ensures
        all_affixed(playlists).len() == playlists.len(),
        forall|p: int|
            0 <= p < playlists.len() ==> {
                let result = #[trigger] all_affixed(playlists)[p];
                &&& result.input == playlists[p].input
                &&& result.epg == playlists[p].epg
                &&& result.playlist.len() == playlists[p].playlist.len()
            },
        forall|p: int, g: int|
            0 <= p < playlists.len() && 0 <= g < playlists[p].playlist.len() ==> {
                let group = playlists[p].playlist[g];
                let result = #[trigger] all_affixed(playlists)[p].playlist[g];
                &&& result.id == group.id
                &&& result.title == group.title
                &&& result.xtream_cluster == group.xtream_cluster
                &&& result.channels.len() == group.channels.len()
                &&& forall|c: int|
                    0 <= c < group.channels.len() ==> #[trigger] result.channels[c]
                        == affixed_channel(group.channels[c], playlists[p].input)
            },
{
}

} // verus!
