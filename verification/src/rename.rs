//! Renaming groups and channels.

use vstd::prelude::*;

use crate::config::{ConfigRename, ConfigTarget};
use crate::pattern::{regex_is_match, regex_replace_all};
use crate::playlist::{
    channel_count, get_field_value, groups_view, set_field_value, ChannelView, GroupView, ItemField,
    PlaylistGroup, PlaylistItem,
};
use crate::regroup::max_id;

verus! {

/// A channel after a rename.
pub open spec fn renamed_once(channel: ChannelView, rename: ConfigRename) -> ChannelView {
    channel.with_value(
        rename.field,
        regex_replace_all(rename.re@, channel.value(rename.field), rename.new_name@),
    )
}

/// A channel after a list of renames, one after the other.
pub open spec fn renamed_channel(channel: ChannelView, renames: Seq<ConfigRename>) -> ChannelView
    decreases renames.len(),
{
    if renames.len() == 0 {
        channel
    } else {
        renamed_once(renamed_channel(channel, renames.drop_last()), renames.last())
    }
}

/// The title of a group after a list of renames: those of the field `Group` apply to it.
pub open spec fn renamed_title(title: Seq<char>, renames: Seq<ConfigRename>) -> Seq<char>
    decreases renames.len(),
{
    if renames.len() == 0 {
        title
    } else {
        let before = renamed_title(title, renames.drop_last());
        let last = renames.last();
        if last.field == ItemField::Group {
            regex_replace_all(last.re@, before, last.new_name@)
        } else {
            before
        }
    }
}

/// A group after a list of renames.
pub open spec fn renamed_group(group: GroupView, renames: Seq<ConfigRename>) -> GroupView {
    GroupView {
        title: renamed_title(group.title, renames),
        channels: group.channels.map_values(|c: ChannelView| renamed_channel(c, renames)),
        ..group
    }
}

/// The playlist after a list of renames.
pub open spec fn renamed_playlist(groups: Seq<GroupView>, renames: Seq<ConfigRename>) -> Seq<
    GroupView,
> {
    groups.map_values(|g: GroupView| renamed_group(g, renames))
}

/// Whether no rename matches in the field of the channel that it is for.
pub open spec fn no_rename_matches(channel: ChannelView, renames: Seq<ConfigRename>) -> bool {
    forall|i: int|
        0 <= i < renames.len() ==> !regex_is_match(
            (#[trigger] renames[i]).re@,
            channel.value(renames[i].field),
        )
}

/// Whether no rename of the field `Group` matches in the title.
pub open spec fn no_group_rename_matches(title: Seq<char>, renames: Seq<ConfigRename>) -> bool {
    forall|i: int|
        0 <= i < renames.len() && (#[trigger] renames[i]).field == ItemField::Group
            ==> !regex_is_match(renames[i].re@, title)
}

/// Renames a channel.
pub fn exec_rename(pli: &mut PlaylistItem, rename: &Option<Vec<ConfigRename>>)
    ensures
        match *rename {
            Some(renames) => {
                &&& final(pli)@ == renamed_channel(old(pli)@, renames@)
                &&& no_rename_matches(old(pli)@, renames@) ==> final(pli)@ == old(pli)@
            },
            None => final(pli)@ == old(pli)@,
        },
{
    if let Some(renames) = rename {
        let ghost before = pli@;
        let mut i: usize = 0;
        assert(renames@.take(0) =~= Seq::<ConfigRename>::empty());
        while i < renames.len()
            invariant
                i <= renames@.len(),
                pli@ == renamed_channel(before, renames@.take(i as int)),
                no_rename_matches(before, renames@) ==> pli@ == before,
            decreases renames.len() - i,
        {
            let r = &renames[i];
            let ghost current = pli@;
            let value = get_field_value(pli, r.field);
            let new_value = r.re.replace_all(value.as_str(), r.new_name.as_str());
            set_field_value(pli, r.field, new_value);
            proof {
                assert(renames@.take(i + 1).drop_last() =~= renames@.take(i as int));
                assert(renames@.take(i + 1).last() == *r);
                if no_rename_matches(before, renames@) {
                    assert(!regex_is_match(renames@[i as int].re@, before.value(r.field)));
                    assert(pli@ =~= current);
                }
            }
            i = i + 1;
        }
        assert(renames@.take(i as int) =~= renames@);
    }
}

/// The title of a group after the renames of a target.
fn rename_title(title: &String, renames: &Vec<ConfigRename>) -> (r: String)
    ensures
        r@ == renamed_title(title@, renames@),
        no_group_rename_matches(title@, renames@) ==> r@ == title@,
{
    let mut current = title.clone();
    let mut i: usize = 0;
    assert(renames@.take(0) =~= Seq::<ConfigRename>::empty());
    while i < renames.len()
        invariant
            i <= renames@.len(),
            current@ == renamed_title(title@, renames@.take(i as int)),
            no_group_rename_matches(title@, renames@) ==> current@ == title@,
        decreases renames.len() - i,
    {
        let r = &renames[i];
        proof {
            assert(renames@.take(i + 1).drop_last() =~= renames@.take(i as int));
            assert(renames@.take(i + 1).last() == *r);
            assert(renames@[i as int] == *r);
        }
        if r.field == ItemField::Group {
            current = r.re.replace_all(current.as_str(), r.new_name.as_str());
        }
        i = i + 1;
    }
    assert(renames@.take(i as int) =~= renames@);
    current
}

/// Whether no rename matches in a group or in its channels.
pub open spec fn group_untouched(group: GroupView, renames: Seq<ConfigRename>) -> bool {
    &&& no_group_rename_matches(group.title, renames)
    &&& forall|i: int|
        0 <= i < group.channels.len() ==> no_rename_matches(#[trigger] group.channels[i], renames)
}

/// A group after the renames of a target.
fn rename_group(group: &PlaylistGroup, rename: &Option<Vec<ConfigRename>>) -> (r: PlaylistGroup)
    requires
        *rename is Some,
    ensures
        r@ == renamed_group(group@, rename->0@),
        group_untouched(group@, rename->0@) ==> r@ == group@,
{
    let mut channels: Vec<PlaylistItem> = Vec::new();
    let mut i: usize = 0;
    while i < group.channels.len()
        invariant
            i <= group.channels@.len(),
            channels@.len() == i,
            *rename is Some,
            forall|j: int|
                0 <= j < i ==> (#[trigger] channels@[j])@ == renamed_channel(
                    group.channels@[j]@,
                    rename->0@,
                ),
            forall|j: int|
                0 <= j < i && no_rename_matches(group.channels@[j]@, rename->0@) ==> (
                #[trigger] channels@[j])@ == group.channels@[j]@,
        decreases group.channels.len() - i,
    {
        let mut pli = group.channels[i].clone();
        exec_rename(&mut pli, rename);
        channels.push(pli);
        i = i + 1;
    }
    let title = match rename {
        Some(renames) => rename_title(&group.title, renames),
        None => group.title.clone(),
    };
    let renamed = PlaylistGroup {
        id: group.id,
        title,
        channels,
        xtream_cluster: group.xtream_cluster,
    };
    proof {
        assert(renamed@.channels =~= renamed_group(group@, rename->0@).channels);
        if group_untouched(group@, rename->0@) {
            assert forall|j: int| 0 <= j < channels@.len() implies (#[trigger] channels@[j])@
                == group.channels@[j]@ by {
                assert(group@.channels[j] == group.channels@[j]@);
            }
            assert(renamed@.channels =~= group@.channels);
        }
    }
    renamed
}

/// The playlist after the renames of a target; `None` where it has none.
pub fn rename_playlist(playlist: &[PlaylistGroup], target: &ConfigTarget) -> (r: Option<
    Vec<PlaylistGroup>,
>)
    ensures
        r is Some <==> target.rename is Some && target.rename->0@.len() > 0,
        r is Some ==> groups_view(r->0@) == renamed_playlist(
            groups_view(playlist@),
            target.rename->0@,
        ),
        r is Some ==> forall|i: int|
            0 <= i < playlist@.len() && group_untouched(playlist@[i]@, target.rename->0@)
                ==> groups_view(r->0@)[i] == #[trigger] groups_view(playlist@)[i],
{
    match &target.rename {
        Some(renames) => {
            if renames.is_empty() {
                return None;
            }
            let mut new_playlist: Vec<PlaylistGroup> = Vec::new();
            let mut i: usize = 0;
            while i < playlist.len()
                invariant
                    i <= playlist@.len(),
                    new_playlist@.len() == i,
                    target.rename is Some,
                    forall|j: int|
                        0 <= j < i ==> (#[trigger] new_playlist@[j])@ == renamed_group(
                            playlist@[j]@,
                            target.rename->0@,
                        ),
                    forall|j: int|
                        0 <= j < i && group_untouched(playlist@[j]@, target.rename->0@) ==> (
                        #[trigger] new_playlist@[j])@ == playlist@[j]@,
                decreases playlist.len() - i,
            {
                new_playlist.push(rename_group(&playlist[i], &target.rename));
                i = i + 1;
            }
            assert(groups_view(new_playlist@) =~= renamed_playlist(
                groups_view(playlist@),
                target.rename->0@,
            ));
            Some(new_playlist)
        },
        None => None,
    }
}

/// A rename changes no field that it is not for, and channels take the new title of their group.
pub proof fn renamed_channel_keeps(channel: ChannelView, renames: Seq<ConfigRename>)
    ensures
        renamed_channel(channel, renames).id == channel.id,
        renamed_channel(channel, renames).logo == channel.logo,
        renamed_channel(channel, renames).epg_channel_id == channel.epg_channel_id,
        renamed_channel(channel, renames).xtream_cluster == channel.xtream_cluster,
        renamed_channel(channel, renames).group == renamed_title(channel.group, renames),
        forall|field: ItemField|
            (forall|i: int| 0 <= i < renames.len() ==> (#[trigger] renames[i]).field != field)
                ==> #[trigger] renamed_channel(channel, renames).value(field) == channel.value(
                field,
            ),
    decreases renames.len(),
{
    if renames.len() > 0 {
        let rest = renames.drop_last();
        renamed_channel_keeps(channel, rest);
        assert forall|field: ItemField|
            (forall|i: int| 0 <= i < renames.len() ==> (#[trigger] renames[i]).field
                != field) implies #[trigger] renamed_channel(channel, renames).value(field)
            == channel.value(field) by {
            assert forall|i: int| 0 <= i < rest.len() implies (#[trigger] rest[i]).field
                != field by {
                assert(rest[i] == renames[i]);
            }
            assert(renames[renames.len() - 1].field != field);
            assert(renamed_channel(channel, rest).value(field) == channel.value(field));
        }
    }
}

/// Renaming keeps the groups, their numbers and the number of channels in each.
pub proof fn renamed_playlist_keeps(groups: Seq<GroupView>, renames: Seq<ConfigRename>)
    ensures
        renamed_playlist(groups, renames).len() == groups.len(),
        forall|i: int|
            0 <= i < groups.len() ==> {
                &&& (#[trigger] renamed_playlist(groups, renames)[i]).id == groups[i].id
                &&& renamed_playlist(groups, renames)[i].xtream_cluster
                    == groups[i].xtream_cluster
                &&& renamed_playlist(groups, renames)[i].channels.len()
                    == groups[i].channels.len()
            },
        max_id(renamed_playlist(groups, renames)) == max_id(groups),
        channel_count(renamed_playlist(groups, renames)) == channel_count(groups),
    decreases groups.len(),
{
    if groups.len() > 0 {
        renamed_playlist_keeps(groups.drop_last(), renames);
        assert(renamed_playlist(groups, renames).drop_last() =~= renamed_playlist(
            groups.drop_last(),
            renames,
        ));
    }
}

} // verus!
