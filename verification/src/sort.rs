//! Sorting the groups of a playlist and the channels of a group.

use vstd::prelude::*;

use crate::config::{ConfigSort, ConfigSortChannel, ConfigTarget, SortOrder};
use crate::pattern::regex_is_match;
use crate::playlist::{
    channel_count, channels_view, get_field_value, groups_view, ChannelView, GroupView, ItemField,
    PlaylistGroup, PlaylistItem,
};
use crate::stable_sort::{
    inserted, is_sorted, ranks_before, sort_by_keys, stable_sorted, stable_sorted_is_sorted,
    stable_sorted_is_stable, stable_sorted_keeps_elements, with_key,
};
use crate::transliterate::{comparable, comparable_text};

verus! {

/// What groups are sorted by.
pub open spec fn title_key(as_ascii: bool) -> spec_fn(GroupView) -> Seq<char> {
    |g: GroupView| comparable(g.title, as_ascii)
}

/// What channels are sorted by.
pub open spec fn field_key(field: ItemField, as_ascii: bool) -> spec_fn(ChannelView) -> Seq<char> {
    |c: ChannelView| comparable(c.value(field), as_ascii)
}

/// A group after a channel sort: its channels sorted if its title matches.
pub open spec fn sorted_group(
    group: GroupView,
    sort: ConfigSortChannel,
    as_ascii: bool,
) -> GroupView {
    if regex_is_match(sort.re@, comparable(group.title, as_ascii)) {
        GroupView {
            channels: stable_sorted(group.channels, field_key(sort.field, as_ascii), sort.order),
            ..group
        }
    } else {
        group
    }
}

/// The groups after a channel sort.
pub open spec fn sorted_channels(
    groups: Seq<GroupView>,
    sort: ConfigSortChannel,
    as_ascii: bool,
) -> Seq<GroupView> {
    groups.map_values(|g: GroupView| sorted_group(g, sort, as_ascii))
}

/// The groups after a list of channel sorts, one after the other.
pub open spec fn sorted_by_all(
    groups: Seq<GroupView>,
    sorts: Seq<ConfigSortChannel>,
    as_ascii: bool,
) -> Seq<GroupView>
    decreases sorts.len(),
{
    if sorts.len() == 0 {
        groups
    } else {
        sorted_channels(sorted_by_all(groups, sorts.drop_last(), as_ascii), sorts.last(), as_ascii)
    }
}

/// The groups sorted by title, where that is asked for.
pub open spec fn sorted_by_title(groups: Seq<GroupView>, sort: ConfigSort) -> Seq<GroupView> {
    match sort.groups {
        Some(by) => stable_sorted(groups, title_key(sort.match_as_ascii), by.order),
        None => groups,
    }
}

/// The playlist that a sort makes of a playlist.
pub open spec fn sorted_playlist(groups: Seq<GroupView>, sort: Option<ConfigSort>) -> Seq<
    GroupView,
> {
    match sort {
        Some(s) => match s.channels {
            Some(sorts) => sorted_by_all(sorted_by_title(groups, s), sorts@, s.match_as_ascii),
            None => sorted_by_title(groups, s),
        },
        None => groups,
    }
}

/// Sorts groups by title.
fn sort_groups(groups: &mut Vec<PlaylistGroup>, order: SortOrder, as_ascii: bool)
    ensures
        groups_view(final(groups)@) == stable_sorted(
            groups_view(old(groups)@),
            title_key(as_ascii),
            order,
        ),
{
    let mut keys: Vec<String> = Vec::new();
    let mut i: usize = 0;
    while i < groups.len()
        invariant
            i <= groups@.len(),
            groups@ == old(groups)@,
            keys@.len() == i,
            forall|j: int|
                0 <= j < i ==> (#[trigger] keys@[j])@ == comparable(groups@[j].title@, as_ascii),
        decreases groups.len() - i,
    {
        keys.push(comparable_text(&groups[i].title, as_ascii));
        i = i + 1;
    }
    sort_by_keys::<PlaylistGroup, GroupView>(
        groups,
        &keys,
        order,
        Ghost(|g: PlaylistGroup| g@),
        Ghost(title_key(as_ascii)),
    );
}

/// Sorts channels by a field.
fn sort_items(channels: &mut Vec<PlaylistItem>, sort: &ConfigSortChannel, as_ascii: bool)
    ensures
        channels_view(final(channels)@) == stable_sorted(
            channels_view(old(channels)@),
            field_key(sort.field, as_ascii),
            sort.order,
        ),
{
    let mut keys: Vec<String> = Vec::new();
    let mut i: usize = 0;
    while i < channels.len()
        invariant
            i <= channels@.len(),
            channels@ == old(channels)@,
            keys@.len() == i,
            forall|j: int|
                0 <= j < i ==> (#[trigger] keys@[j])@ == comparable(
                    channels@[j]@.value(sort.field),
                    as_ascii,
                ),
        decreases channels.len() - i,
    {
        let value = get_field_value(&channels[i], sort.field);
        keys.push(comparable_text(&value, as_ascii));
        i = i + 1;
    }
    sort_by_keys::<PlaylistItem, ChannelView>(
        channels,
        &keys,
        sort.order,
        Ghost(|c: PlaylistItem| c@),
        Ghost(field_key(sort.field, as_ascii)),
    );
}

/// Sorts the channels of the groups whose title matches.
fn sort_channels(groups: &mut Vec<PlaylistGroup>, sort: &ConfigSortChannel, as_ascii: bool)
    ensures
        groups_view(final(groups)@) == sorted_channels(groups_view(old(groups)@), *sort, as_ascii),
{
    let ghost before = groups@;
    let mut i: usize = 0;
    while i < groups.len()
        invariant
            i <= groups@.len(),
            groups@.len() == before.len(),
            forall|j: int|
                0 <= j < i ==> (#[trigger] groups@[j])@ == sorted_group(
                    before[j]@,
                    *sort,
                    as_ascii,
                ),
            forall|j: int| i <= j < before.len() ==> #[trigger] groups@[j] == before[j],
        decreases groups.len() - i,
    {
        let title = comparable_text(&groups[i].title, as_ascii);
        if sort.re.is_match(title.as_str()) {
            let group = &mut groups[i];
            sort_items(&mut group.channels, sort, as_ascii);
        }
        i = i + 1;
    }
    assert(groups_view(groups@) =~= sorted_channels(groups_view(before), *sort, as_ascii));
}

/// Sorts a playlist as the target asks.
pub fn sort_playlist(target: &ConfigTarget, new_playlist: &mut Vec<PlaylistGroup>)
    ensures
        groups_view(final(new_playlist)@) == sorted_playlist(
            groups_view(old(new_playlist)@),
            target.sort,
        ),
{
    if let Some(sort) = &target.sort {
        let as_ascii = sort.match_as_ascii;
        if let Some(by) = &sort.groups {
            sort_groups(new_playlist, by.order, as_ascii);
        }
        if let Some(sorts) = &sort.channels {
            let ghost titled = groups_view(new_playlist@);
            let mut i: usize = 0;
            assert(sorts@.take(0) =~= Seq::<ConfigSortChannel>::empty());
            while i < sorts.len()
                invariant
                    i <= sorts@.len(),
                    groups_view(new_playlist@) == sorted_by_all(
                        titled,
                        sorts@.take(i as int),
                        as_ascii,
                    ),
                decreases sorts.len() - i,
            {
                sort_channels(new_playlist, &sorts[i], as_ascii);
                proof {
                    assert(sorts@.take(i + 1).drop_last() =~= sorts@.take(i as int));
                    assert(sorts@.take(i + 1).last() == sorts@[i as int]);
                }
                i = i + 1;
            }
            assert(sorts@.take(i as int) =~= sorts@);
        }
    }
}

/// Whether two lists of groups differ in the order of the channels within groups alone.
pub open spec fn same_up_to_channel_order(a: Seq<GroupView>, b: Seq<GroupView>) -> bool {
    &&& a.len() == b.len()
    &&& forall|i: int|
        0 <= i < a.len() ==> {
            &&& (#[trigger] a[i]).id == b[i].id
            &&& a[i].title == b[i].title
            &&& a[i].xtream_cluster == b[i].xtream_cluster
            &&& a[i].channels.to_multiset() == b[i].channels.to_multiset()
        }
}

proof fn lemma_sorted_by_all_reorders(
    groups: Seq<GroupView>,
    sorts: Seq<ConfigSortChannel>,
    as_ascii: bool,
)
    ensures
        same_up_to_channel_order(sorted_by_all(groups, sorts, as_ascii), groups),
    decreases sorts.len(),
{
    if sorts.len() > 0 {
        let before = sorted_by_all(groups, sorts.drop_last(), as_ascii);
        let after = sorted_by_all(groups, sorts, as_ascii);
        let sort = sorts.last();
        lemma_sorted_by_all_reorders(groups, sorts.drop_last(), as_ascii);
        assert forall|i: int| 0 <= i < after.len() implies (#[trigger] after[i]).id == groups[i].id
            && after[i].title == groups[i].title && after[i].xtream_cluster
            == groups[i].xtream_cluster && after[i].channels.to_multiset()
            == groups[i].channels.to_multiset() by {
            assert(before[i].id == groups[i].id);
            stable_sorted_keeps_elements(
                before[i].channels,
                field_key(sort.field, as_ascii),
                sort.order,
            );
        }
    }
}

/// Sorting reorders the groups by their titles, keeping groups with equal titles in the order in
/// which they came, and reorders channels within their group; it changes nothing else.
pub proof fn sorted_playlist_reorders(groups: Seq<GroupView>, sort: ConfigSort)
    ensures
        same_up_to_channel_order(
            sorted_playlist(groups, Some(sort)),
            sorted_by_title(groups, sort),
        ),
        sorted_by_title(groups, sort).to_multiset() == groups.to_multiset(),
        sort.groups is Some ==> is_sorted(
            sorted_playlist(groups, Some(sort)),
            title_key(sort.match_as_ascii),
            sort.groups->0.order,
        ),
        sort.groups is Some ==> forall|k: Seq<char>|
            with_key(
                #[trigger] sorted_by_title(groups, sort),
                title_key(sort.match_as_ascii),
                k,
            ) == with_key(groups, title_key(sort.match_as_ascii), k),
{
    let key = title_key(sort.match_as_ascii);
    let titled = sorted_by_title(groups, sort);
    let result = sorted_playlist(groups, Some(sort));
    if let Some(sorts) = sort.channels {
        lemma_sorted_by_all_reorders(titled, sorts@, sort.match_as_ascii);
    }
    if let Some(by) = sort.groups {
        stable_sorted_keeps_elements(groups, key, by.order);
        stable_sorted_is_sorted(groups, key, by.order);
        assert forall|k: Seq<char>| with_key(titled, key, k) == with_key(groups, key, k) by {
            stable_sorted_is_stable(groups, key, by.order, k);
        }
        assert forall|i: int, j: int| 0 <= i < j < result.len() implies !ranks_before(
            key(#[trigger] result[j]),
            key(#[trigger] result[i]),
            by.order,
        ) by {
            assert(result[i].title == titled[i].title);
            assert(result[j].title == titled[j].title);
            assert(!ranks_before(key(titled[j]), key(titled[i]), by.order));
        }
    }
}

/// The channels of a group whose title the last channel sort matches end up sorted by its field.
pub proof fn last_channel_sort_holds(
    groups: Seq<GroupView>,
    sorts: Seq<ConfigSortChannel>,
    as_ascii: bool,
    i: int,
)
    requires
        sorts.len() > 0,
        0 <= i < groups.len(),
        regex_is_match(sorts.last().re@, comparable(groups[i].title, as_ascii)),
    ensures
        is_sorted(
            sorted_by_all(groups, sorts, as_ascii)[i].channels,
            field_key(sorts.last().field, as_ascii),
            sorts.last().order,
        ),
{
    let before = sorted_by_all(groups, sorts.drop_last(), as_ascii);
    let sort = sorts.last();
    lemma_sorted_by_all_reorders(groups, sorts.drop_last(), as_ascii);
    assert(before[i].title == groups[i].title);
    stable_sorted_is_sorted(before[i].channels, field_key(sort.field, as_ascii), sort.order);
}

/// A group whose title no channel sort matches keeps its channels in order.
pub proof fn unmatched_group_keeps_order(
    groups: Seq<GroupView>,
    sorts: Seq<ConfigSortChannel>,
    as_ascii: bool,
    i: int,
)
    requires
        0 <= i < groups.len(),
        forall|k: int|
            0 <= k < sorts.len() ==> !regex_is_match(
                (#[trigger] sorts[k]).re@,
                comparable(groups[i].title, as_ascii),
            ),
    ensures
        sorted_by_all(groups, sorts, as_ascii)[i] == groups[i],
    decreases sorts.len(),
{
    if sorts.len() > 0 {
        let rest = sorts.drop_last();
        assert forall|k: int| 0 <= k < rest.len() implies !regex_is_match(
            (#[trigger] rest[k]).re@,
            comparable(groups[i].title, as_ascii),
        ) by {
            assert(rest[k] == sorts[k]);
        }
        unmatched_group_keeps_order(groups, rest, as_ascii, i);
        lemma_sorted_by_all_reorders(groups, rest, as_ascii);
        assert(sorts.last() == sorts[sorts.len() - 1]);
    }
}

proof fn lemma_inserted_count(
    groups: Seq<GroupView>,
    group: GroupView,
    key: spec_fn(GroupView) -> Seq<char>,
    order: SortOrder,
)
    ensures
        channel_count(inserted(groups, group, key, order)) == channel_count(groups)
            + group.channels.len(),
    decreases groups.len(),
{
    if groups.len() == 0 || !ranks_before(key(group), key(groups.last()), order) {
        assert(groups.push(group).drop_last() =~= groups);
    } else {
        let before = inserted(groups.drop_last(), group, key, order);
        lemma_inserted_count(groups.drop_last(), group, key, order);
        assert(before.push(groups.last()).drop_last() =~= before);
    }
}

proof fn lemma_stable_sorted_count(
    groups: Seq<GroupView>,
    key: spec_fn(GroupView) -> Seq<char>,
    order: SortOrder,
)
    ensures
        channel_count(stable_sorted(groups, key, order)) == channel_count(groups),
    decreases groups.len(),
{
    if groups.len() > 0 {
        let before = stable_sorted(groups.drop_last(), key, order);
        lemma_stable_sorted_count(groups.drop_last(), key, order);
        lemma_inserted_count(before, groups.last(), key, order);
    }
}

proof fn lemma_same_sizes_same_count(a: Seq<GroupView>, b: Seq<GroupView>)
    requires
        same_up_to_channel_order(a, b),
    ensures
        channel_count(a) == channel_count(b),
    decreases a.len(),
{
    broadcast use vstd::seq_lib::group_to_multiset_ensures;

    if a.len() > 0 {
        let n = a.len() - 1;
        assert(a[n].channels.to_multiset() == b[n].channels.to_multiset());
        assert(a[n].channels.to_multiset().len() == b[n].channels.to_multiset().len());
        assert forall|i: int| 0 <= i < n implies (#[trigger] a.drop_last()[i]).id
            == b.drop_last()[i].id && a.drop_last()[i].title == b.drop_last()[i].title
            && a.drop_last()[i].xtream_cluster == b.drop_last()[i].xtream_cluster
            && a.drop_last()[i].channels.to_multiset()
            == b.drop_last()[i].channels.to_multiset() by {
            assert(a[i].id == b[i].id);
        }
        lemma_same_sizes_same_count(a.drop_last(), b.drop_last());
    }
}

/// Sorting keeps the number of channels.
pub proof fn sorted_playlist_count(groups: Seq<GroupView>, sort: Option<ConfigSort>)
    ensures
        channel_count(sorted_playlist(groups, sort)) == channel_count(groups),
{
    if let Some(s) = sort {
        sorted_playlist_reorders(groups, s);
        lemma_same_sizes_same_count(sorted_playlist(groups, sort), sorted_by_title(groups, s));
        if let Some(by) = s.groups {
            lemma_stable_sorted_count(groups, title_key(s.match_as_ascii), by.order);
        }
    }
}

/// Sorting keeps the number of groups.
pub proof fn sorted_playlist_length(groups: Seq<GroupView>, sort: Option<ConfigSort>)
    ensures
        sorted_playlist(groups, sort).len() == groups.len(),
{
    broadcast use vstd::seq_lib::group_to_multiset_ensures;

    if let Some(s) = sort {
        sorted_playlist_reorders(groups, s);
        assert(sorted_by_title(groups, s).to_multiset().len() == groups.to_multiset().len());
    }
}

} // verus!
