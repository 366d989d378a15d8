//! Playlists: what is seen of them, reading and setting fields, and adding groups.

use vstd::prelude::*;

use crate::config::{ConfigTarget, TargetOutput, TargetType};
use crate::error::{errors_view, M3uFilterError};
use crate::playlist::{
    all_channels, channel_count, channels_view, fetched_view, groups_view, optional_guide,
    position_of_id, position_of_id_is_first, updated, updated_with_all, ChannelView,
    FetchedPlaylist, GroupView, ItemField, PlaylistGroup, PlaylistItem, TVGuide,
};

verus! {

/// Every field of a channel is seen.
pub proof fn channels_are_seen_whole(pli: PlaylistItem)
    ensures
        pli@.id == pli.header.id@,
        pli@.name == pli.header.name@,
        pli@.title == pli.header.title@,
        pli@.group == pli.header.group@,
        pli@.logo == pli.header.logo@,
        pli@.url == pli.header.url@,
        pli@.epg_channel_id is Some <==> pli.header.epg_channel_id is Some,
        pli.header.epg_channel_id is Some ==> pli@.epg_channel_id->0
            == pli.header.epg_channel_id->0@,
        pli@.xtream_cluster == pli.header.xtream_cluster,
        pli.header@ == pli@,
{
}

/// Every field of a group is seen, and its channels one by one.
pub proof fn groups_are_seen_whole(group: PlaylistGroup)
    ensures
        group@.id == group.id,
        group@.title == group.title@,
        group@.xtream_cluster == group.xtream_cluster,
        group@.channels.len() == group.channels@.len(),
        forall|i: int|
            0 <= i < group.channels@.len() ==> #[trigger] group@.channels[i]
                == group.channels@[i]@,
{
}

/// A fetched playlist is seen with its input, its groups and its guide.
pub proof fn fetched_playlists_are_seen_whole(fetched: FetchedPlaylist, guide: TVGuide)
    ensures
        fetched@.input == *fetched.input,
        fetched@.playlist.len() == fetched.playlist@.len(),
        forall|i: int|
            0 <= i < fetched.playlist@.len() ==> #[trigger] fetched@.playlist[i]
                == fetched.playlist@[i]@,
        fetched@.epg is Some <==> fetched.epg is Some,
        fetched.epg is Some ==> fetched@.epg->0 == fetched.epg->0.file@,
        guide@ == guide.file@,
        optional_guide(Some(guide)) == Some(guide.file@),
        optional_guide(None) is None,
{
}

/// Lists are seen element by element.
pub proof fn lists_are_seen_one_by_one(
    channels: Seq<PlaylistItem>,
    groups: Seq<PlaylistGroup>,
    playlists: Seq<FetchedPlaylist>,
    errors: Seq<M3uFilterError>,
)
    ensures
        channels_view(channels).len() == channels.len(),
        forall|i: int|
            0 <= i < channels.len() ==> #[trigger] channels_view(channels)[i] == channels[i]@,
        groups_view(groups).len() == groups.len(),
        forall|i: int| 0 <= i < groups.len() ==> #[trigger] groups_view(groups)[i] == groups[i]@,
        fetched_view(playlists).len() == playlists.len(),
        forall|i: int|
            0 <= i < playlists.len() ==> #[trigger] fetched_view(playlists)[i] == playlists[i]@,
        errors_view(errors).len() == errors.len(),
        forall|i: int|
            0 <= i < errors.len() ==> (#[trigger] errors_view(errors)[i]).kind == errors[i].kind
                && errors_view(errors)[i].message == errors[i].message@,
{
}

/// A field that is set is read back, and nothing else changes.
pub proof fn set_values_are_read_back(channel: ChannelView, field: ItemField, value: Seq<char>)
    ensures
        channel.value(ItemField::Group) == channel.group,
        channel.value(ItemField::Name) == channel.name,
        channel.value(ItemField::Title) == channel.title,
        channel.value(ItemField::Url) == channel.url,
        channel.with_value(field, value).value(field) == value,
        forall|other: ItemField|
            other != field ==> #[trigger] channel.with_value(field, value).value(other)
                == channel.value(other),
        channel.with_value(field, value).id == channel.id,
        channel.with_value(field, value).logo == channel.logo,
        channel.with_value(field, value).epg_channel_id == channel.epg_channel_id,
        channel.with_value(field, value).xtream_cluster == channel.xtream_cluster,
{
}

/// The names of the fields are all different.
pub proof fn field_names_differ()
    ensures
        seq![
            "id"@,
            "name"@,
            "title"@,
            "group"@,
            "logo"@,
            "url"@,
            "epg_channel_id"@,
        ].no_duplicates(),
{
    reveal_strlit("id");
    reveal_strlit("name");
    reveal_strlit("title");
    reveal_strlit("group");
    reveal_strlit("logo");
    reveal_strlit("url");
    reveal_strlit("epg_channel_id");
    assert("id"@[0] == 'i');
    assert("name"@[0] == 'n');
    assert("title"@[0] == 't');
    assert("group"@[0] == 'g');
    assert("logo"@[0] == 'l');
    assert("url"@[0] == 'u');
    assert("epg_channel_id"@[0] == 'e');
}

/// The fields are read by their names.
pub proof fn fields_are_read_by_name(channel: ChannelView, name: Seq<char>)
    ensures
        channel.property("id"@) == Some(channel.id),
        channel.property("name"@) == Some(channel.name),
        channel.property("title"@) == Some(channel.title),
        channel.property("group"@) == Some(channel.group),
        channel.property("logo"@) == Some(channel.logo),
        channel.property("url"@) == Some(channel.url),
        channel.property("epg_channel_id"@) == channel.epg_channel_id,
        !seq![
            "id"@,
            "name"@,
            "title"@,
            "group"@,
            "logo"@,
            "url"@,
            "epg_channel_id"@,
        ].contains(name) ==> channel.property(name) is None,
{
    let names = seq![
        "id"@,
        "name"@,
        "title"@,
        "group"@,
        "logo"@,
        "url"@,
        "epg_channel_id"@,
    ];
    field_names_differ();
    assert(names[0] == "id"@ && names[1] == "name"@ && names[2] == "title"@ && names[3] == "group"@
        && names[4] == "logo"@ && names[5] == "url"@ && names[6] == "epg_channel_id"@);
}

/// A field that is set by its name is read back, no other field changes, and a name that is no
/// field's changes nothing.
pub proof fn set_properties_are_read_back(channel: ChannelView, name: Seq<char>, value: Seq<char>)
    ensures
        ChannelView::has_property(name) <==> seq![
            "id"@,
            "name"@,
            "title"@,
            "group"@,
            "logo"@,
            "url"@,
            "epg_channel_id"@,
        ].contains(name),
        ChannelView::has_property(name) ==> channel.with_property(name, value).property(name)
            == Some(value),
        !ChannelView::has_property(name) ==> channel.with_property(name, value) == channel,
        forall|other: Seq<char>|
            other != name ==> #[trigger] channel.with_property(name, value).property(other)
                == channel.property(other),
        channel.with_property(name, value).xtream_cluster == channel.xtream_cluster,
{
    let names = seq![
        "id"@,
        "name"@,
        "title"@,
        "group"@,
        "logo"@,
        "url"@,
        "epg_channel_id"@,
    ];
    field_names_differ();
    assert(names[0] == "id"@ && names[1] == "name"@ && names[2] == "title"@ && names[3] == "group"@
        && names[4] == "logo"@ && names[5] == "url"@ && names[6] == "epg_channel_id"@);
}

/// Two channels that read the same in every field are the same.
pub proof fn fields_are_all_there_is(a: ChannelView, b: ChannelView)
    requires
        forall|name: Seq<char>| #[trigger] a.property(name) == b.property(name),
        a.xtream_cluster == b.xtream_cluster,
    ensures
        a == b,
{
    fields_are_read_by_name(a, "id"@);
    fields_are_read_by_name(b, "id"@);
    assert(a.property("id"@) == b.property("id"@));
    assert(a.property("name"@) == b.property("name"@));
    assert(a.property("title"@) == b.property("title"@));
    assert(a.property("group"@) == b.property("group"@));
    assert(a.property("logo"@) == b.property("logo"@));
    assert(a.property("url"@) == b.property("url"@));
    assert(a.property("epg_channel_id"@) == b.property("epg_channel_id"@));
}

/// The channels of groups are those of the one list and then those of the other, and as many as are
/// counted.
pub proof fn channels_of_both(a: Seq<GroupView>, b: Seq<GroupView>)
    ensures
        all_channels(a + b) == all_channels(a) + all_channels(b),
        a.len() == 1 ==> all_channels(a) == a[0].channels,
        channel_count(a) == all_channels(a).len(),
    decreases a.len() + b.len(),
{
    if a.len() == 1 {
        assert(a.drop_last() =~= Seq::<GroupView>::empty());
        assert(all_channels(a) =~= a[0].channels);
    }
    if a.len() > 0 {
        channels_of_both(a.drop_last(), Seq::empty());
    }
    if b.len() > 0 {
        assert((a + b).drop_last() =~= a + b.drop_last());
        channels_of_both(a, b.drop_last());
        assert(all_channels(a + b) =~= all_channels(a) + all_channels(b));
    } else {
        assert(a + b =~= a);
        assert(all_channels(a + b) =~= all_channels(a) + all_channels(b));
    }
}

/// A group is added to the first group of the same number, whose channels come first, and where
/// there is none it is a new group at the end. The other groups stay as they are.
pub proof fn groups_are_added_by_number(groups: Seq<GroupView>, more: GroupView, at: int)
    ensures
        0 <= at < groups.len() && groups[at].id == more.id && (forall|i: int|
            0 <= i < at ==> (#[trigger] groups[i]).id != more.id) ==> {
            let result = updated(groups, more);
            &&& result.len() == groups.len()
            &&& result[at].channels == groups[at].channels + more.channels
            &&& result[at].id == groups[at].id
            &&& result[at].title == groups[at].title
            &&& result[at].xtream_cluster == groups[at].xtream_cluster
            &&& forall|i: int|
                0 <= i < groups.len() && i != at ==> #[trigger] result[i] == groups[i]
        },
        (forall|i: int| 0 <= i < groups.len() ==> (#[trigger] groups[i]).id != more.id) ==> updated(
            groups,
            more,
        ) == groups.push(more),
{
    position_of_id_is_first(groups, more.id);
    let found = position_of_id(groups, more.id);
    if 0 <= at < groups.len() && groups[at].id == more.id && (forall|i: int|
        0 <= i < at ==> (#[trigger] groups[i]).id != more.id) {
        assert(found == at) by {
            if found < at {
                assert(groups[found].id != more.id);
            }
        }
    }
}

/// Groups are added one after the other.
pub proof fn groups_are_added_in_turn(
    groups: Seq<GroupView>,
    first: Seq<GroupView>,
    second: Seq<GroupView>,
)
    ensures
        updated_with_all(groups, Seq::empty()) == groups,
        first.len() == 1 ==> updated_with_all(groups, first) == updated(groups, first[0]),
        updated_with_all(groups, first + second) == updated_with_all(
            updated_with_all(groups, first),
            second,
        ),
    decreases second.len(),
{
    if first.len() == 1 {
        assert(first.drop_last() =~= Seq::<GroupView>::empty());
        assert(updated_with_all(groups, first.drop_last()) == groups);
    }
    if second.len() > 0 {
        assert((first + second).drop_last() =~= first + second.drop_last());
        groups_are_added_in_turn(groups, first, second.drop_last());
    } else {
        assert(first + second =~= first);
    }
}

/// A target writes what one of its outputs writes.
pub proof fn targets_write_their_outputs(target: ConfigTarget, kind: TargetType)
    ensures
        target.writes(kind) <==> target.output@.map_values(|o: TargetOutput| o.target).contains(
            kind,
        ),
{
    let kinds = target.output@.map_values(|o: TargetOutput| o.target);
    if target.writes(kind) {
        let i = choose|i: int|
            0 <= i < target.output@.len() && (#[trigger] target.output@[i]).target == kind;
        assert(kinds[i] == kind);
    }
    if kinds.contains(kind) {
        let i = choose|i: int| 0 <= i < kinds.len() && kinds[i] == kind;
        assert(target.output@[i].target == kind);
    }
}

} // verus!
