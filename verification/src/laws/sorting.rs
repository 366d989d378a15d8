//! Sorting: what groups and channels are sorted by, and what a playlist is after each sort.

use vstd::prelude::*;

use crate::config::{ConfigSort, SortOrder};
use crate::pattern::regex_is_match;
use crate::playlist::{ChannelView, GroupView, ItemField};
use crate::sort::{
    field_key, same_up_to_channel_order, sorted_by_all, sorted_by_title, sorted_playlist,
    sorted_playlist_reorders, title_key,
};
use crate::stable_sort::{
    is_sorted, ranks_before, stable_sorted, stable_sorted_is_sorted, stable_sorted_is_stable,
    with_key,
};
use crate::text::text_before;
use crate::transliterate::ascii_form;

verus! {

/// In ascending order what comes before in the order of texts comes first, and in descending order
/// what comes after.
pub proof fn orders_are_opposite(a: Seq<char>, b: Seq<char>)
    ensures
        ranks_before(a, b, SortOrder::Asc) == text_before(a, b),
        ranks_before(a, b, SortOrder::Desc) == text_before(b, a),
{
}

/// Groups are sorted by their title, and channels by the field that a sort names; by their ASCII
/// forms where that is asked for.
pub proof fn what_is_sorted_by(group: GroupView, channel: ChannelView)
    ensures
        title_key(false)(group) == group.title,
        title_key(true)(group) == ascii_form(group.title),
        field_key(ItemField::Group, false)(channel) == channel.group,
        field_key(ItemField::Name, false)(channel) == channel.name,
        field_key(ItemField::Title, false)(channel) == channel.title,
        field_key(ItemField::Url, false)(channel) == channel.url,
        field_key(ItemField::Group, true)(channel) == ascii_form(channel.group),
        field_key(ItemField::Name, true)(channel) == ascii_form(channel.name),
        field_key(ItemField::Title, true)(channel) == ascii_form(channel.title),
        field_key(ItemField::Url, true)(channel) == ascii_form(channel.url),
{
}

/// Whether `after` is `before` sorted: in order, and with what has the same key in the order in
/// which it was, so that nothing is lost or added.
pub open spec fn is_sorted_from<T>(
    after: Seq<T>,
    before: Seq<T>,
    key: spec_fn(T) -> Seq<char>,
    order: SortOrder,
) -> bool {
    &&& is_sorted(after, key, order)
    &&& forall|k: Seq<char>| #[trigger] with_key(after, key, k) == with_key(before, key, k)
}

proof fn lemma_sorted_from<T>(items: Seq<T>, key: spec_fn(T) -> Seq<char>, order: SortOrder)
    ensures
        is_sorted_from(stable_sorted(items, key, order), items, key, order),
{
    let sorted = stable_sorted(items, key, order);
    stable_sorted_is_sorted(items, key, order);
    assert forall|k: Seq<char>| #[trigger] with_key(sorted, key, k) == with_key(items, key, k) by {
        stable_sorted_is_stable(items, key, order, k);
    }
}

/// Without a sort a playlist stays as it is.
pub proof fn nothing_is_sorted_unasked(groups: Seq<GroupView>)
    ensures
        sorted_playlist(groups, None) == groups,
{
}

/// Without channel sorts a playlist has the groups sorted by title, where that is asked for, and
/// they are the groups as they were.
pub proof fn without_channel_sorts_groups_are_sorted(groups: Seq<GroupView>, sort: ConfigSort)
    requires
        sort.channels is Some ==> sort.channels->0@.len() == 0,
    ensures
        sort.groups is None ==> sorted_playlist(groups, Some(sort)) == groups,
        sort.groups is Some ==> is_sorted_from(
            sorted_playlist(groups, Some(sort)),
            groups,
            title_key(sort.match_as_ascii),
            sort.groups->0.order,
        ),
{
    if let Some(by) = sort.groups {
        lemma_sorted_from(groups, title_key(sort.match_as_ascii), by.order);
    }
}

/// A last channel sort more sorts the channels of the groups whose title it matches, whether or not
/// the groups are sorted, and changes nothing else.
pub proof fn a_channel_sort_sorts_matching_groups(
    groups: Seq<GroupView>,
    sort: ConfigSort,
    shorter: ConfigSort,
)
    requires
        sort.channels is Some,
        sort.channels->0@.len() > 0,
        shorter.channels is Some,
        shorter.channels->0@ == sort.channels->0@.drop_last(),
        shorter.match_as_ascii == sort.match_as_ascii,
        shorter.groups == sort.groups,
    ensures
        ({
            let last = sort.channels->0@.last();
            let before = sorted_playlist(groups, Some(shorter));
            let after = sorted_playlist(groups, Some(sort));
            &&& after.len() == before.len()
            &&& forall|i: int|
                0 <= i < before.len() ==> {
                    &&& (#[trigger] after[i]).id == before[i].id
                    &&& after[i].title == before[i].title
                    &&& after[i].xtream_cluster == before[i].xtream_cluster
                    &&& if regex_is_match(last.re@, title_key(sort.match_as_ascii)(before[i])) {
                        is_sorted_from(
                            after[i].channels,
                            before[i].channels,
                            field_key(last.field, sort.match_as_ascii),
                            last.order,
                        )
                    } else {
                        after[i].channels == before[i].channels
                    }
                }
        }),
{
    let last = sort.channels->0@.last();
    let before = sorted_playlist(groups, Some(shorter));
    let after = sorted_playlist(groups, Some(sort));
    assert(sorted_by_title(groups, shorter) == sorted_by_title(groups, sort));
    assert forall|i: int| 0 <= i < before.len() && regex_is_match(
        last.re@,
        title_key(sort.match_as_ascii)(before[i]),
    ) implies is_sorted_from(
        (#[trigger] after[i]).channels,
        before[i].channels,
        field_key(last.field, sort.match_as_ascii),
        last.order,
    ) by {
        lemma_sorted_from(
            before[i].channels,
            field_key(last.field, sort.match_as_ascii),
            last.order,
        );
    }
}

/// Whatever the sort of the groups, in the sorted playlist every group whose title the last channel
/// sort matches has its channels in that sort's order.
pub proof fn the_last_channel_sort_decides(groups: Seq<GroupView>, sort: ConfigSort)
    requires
        sort.channels is Some,
        sort.channels->0@.len() > 0,
    ensures
        ({
            let last = sort.channels->0@.last();
            forall|i: int|
                0 <= i < sorted_playlist(groups, Some(sort)).len() && regex_is_match(
                    last.re@,
                    title_key(sort.match_as_ascii)(
                        #[trigger] sorted_playlist(groups, Some(sort))[i],
                    ),
                ) ==> is_sorted(
                    sorted_playlist(groups, Some(sort))[i].channels,
                    field_key(last.field, sort.match_as_ascii),
                    last.order,
                )
        }),
{
    let sorts = sort.channels->0@;
    let last = sorts.last();
    let titled = sorted_by_title(groups, sort);
    let before = sorted_by_all(titled, sorts.drop_last(), sort.match_as_ascii);
    let after = sorted_playlist(groups, Some(sort));
    assert forall|i: int| 0 <= i < after.len() && regex_is_match(
        last.re@,
        title_key(sort.match_as_ascii)(#[trigger] after[i]),
    ) implies is_sorted(
        after[i].channels,
        field_key(last.field, sort.match_as_ascii),
        last.order,
    ) by {
        assert(after[i].title == before[i].title);
        stable_sorted_is_sorted(
            before[i].channels,
            field_key(last.field, sort.match_as_ascii),
            last.order,
        );
    }
}

/// Whatever the channel sorts, the groups stand in the order of their titles where that is asked
/// for, and else as they stood; what a group holds only changes its order.
pub proof fn the_group_sort_decides(groups: Seq<GroupView>, sort: ConfigSort)
    ensures
        sort.groups is None ==> same_up_to_channel_order(
            sorted_playlist(groups, Some(sort)),
            groups,
        ),
        sort.groups is Some ==> exists|titled: Seq<GroupView>|
            is_sorted_from(
                titled,
                groups,
                title_key(sort.match_as_ascii),
                sort.groups->0.order,
            ) && #[trigger] same_up_to_channel_order(sorted_playlist(groups, Some(sort)), titled),
{
    sorted_playlist_reorders(groups, sort);
    if let Some(by) = sort.groups {
        lemma_sorted_from(groups, title_key(sort.match_as_ascii), by.order);
        assert(same_up_to_channel_order(
            sorted_playlist(groups, Some(sort)),
            sorted_by_title(groups, sort),
        ));
    }
}

} // verus!
