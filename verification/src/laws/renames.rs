//! Renames: what a rename changes, and how renames follow each other.

use vstd::prelude::*;

use crate::config::ConfigRename;
use crate::pattern::regex_replace_all;
use crate::playlist::{ChannelView, GroupView, ItemField};
use crate::rename::{renamed_channel, renamed_group, renamed_playlist, renamed_title};

verus! {

/// A rename replaces the matches in the field that it names, and changes nothing else.
pub proof fn a_rename_changes_its_field(channel: ChannelView, renames: Seq<ConfigRename>)
    requires
        renames.len() == 1,
    ensures
        ({
            let rename = renames[0];
            let result = renamed_channel(channel, renames);
            let new_text = |text: Seq<char>| regex_replace_all(
                rename.re@,
                text,
                rename.new_name@,
            );
            &&& result.group == if rename.field == ItemField::Group {
                new_text(channel.group)
            } else {
                channel.group
            }
            &&& result.name == if rename.field == ItemField::Name {
                new_text(channel.name)
            } else {
                channel.name
            }
            &&& result.title == if rename.field == ItemField::Title {
                new_text(channel.title)
            } else {
                channel.title
            }
            &&& result.url == if rename.field == ItemField::Url {
                new_text(channel.url)
            } else {
                channel.url
            }
            &&& result.id == channel.id
            &&& result.logo == channel.logo
            &&& result.epg_channel_id == channel.epg_channel_id
            &&& result.xtream_cluster == channel.xtream_cluster
        }),
{
    assert(renames.drop_last() =~= Seq::<ConfigRename>::empty());
    assert(renamed_channel(channel, renames.drop_last()) == channel);
}

/// A list of renames after another is applied to what the first left.
pub proof fn renames_follow_each_other(
    channel: ChannelView,
    first: Seq<ConfigRename>,
    second: Seq<ConfigRename>,
)
    ensures
        renamed_channel(channel, Seq::empty()) == channel,
        renamed_channel(channel, first + second) == renamed_channel(
            renamed_channel(channel, first),
            second,
        ),
    decreases second.len(),
{
    if second.len() > 0 {
        assert((first + second).drop_last() =~= first + second.drop_last());
        renames_follow_each_other(channel, first, second.drop_last());
    } else {
        assert(first + second =~= first);
    }
}

/// A title changes as the group that a channel names does.
pub proof fn titles_are_renamed_like_the_groups_of_channels(
    channel: ChannelView,
    renames: Seq<ConfigRename>,
)
    ensures
        renamed_title(channel.group, renames) == renamed_channel(channel, renames).group,
    decreases renames.len(),
{
    if renames.len() > 0 {
        titles_are_renamed_like_the_groups_of_channels(channel, renames.drop_last());
    }
}

/// Every group is renamed on its own: its title, and its channels one by one; its number and its
/// cluster stay.
pub proof fn groups_are_renamed_one_by_one(groups: Seq<GroupView>, renames: Seq<ConfigRename>)
    ensures
        renamed_playlist(groups, renames).len() == groups.len(),
        forall|i: int|
            0 <= i < groups.len() ==> {
                let result = #[trigger] renamed_playlist(groups, renames)[i];
                &&& result == renamed_group(groups[i], renames)
                &&& result.id == groups[i].id
                &&& result.xtream_cluster == groups[i].xtream_cluster
                &&& result.title == renamed_title(groups[i].title, renames)
                &&& result.channels.len() == groups[i].channels.len()
                &&& forall|k: int|
                    0 <= k < groups[i].channels.len() ==> #[trigger] result.channels[k]
                        == renamed_channel(groups[i].channels[k], renames)
            },
{
}

} // verus!
