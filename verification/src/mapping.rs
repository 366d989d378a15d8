//! Mappings: rules that rewrite channels, after which the channels are put into the groups that
//! they then name.

use vstd::prelude::*;

use crate::config::ConfigTarget;
use crate::filter::Filter;
use crate::pattern::regex_is_match;
use crate::playlist::{
    all_channels, channel_count, channels_view, get_field_value, groups_view, ChannelView,
    GroupView, PlaylistGroup, PlaylistItem,
};
use crate::regroup::{
    can_regroup, grouped_by_name, has_spare_numbers, max_id, numbers_left, placed_playlist_bounds,
    regroup, regrouped, regrouped_by_name, regrouped_count, regrouped_ids,
};

verus! {

/// A field of a channel and the value that a mapper gives it.
#[derive(Debug)]
pub struct MapperAttribute {
    pub field: String,
    pub value: String,
}

/// A rule: where `filter` accepts a channel, each comparison of `pattern` that matches sets the
/// attributes.
pub struct Mapper {
    pub filter: Option<Filter>,
    pub pattern: Option<Filter>,
    pub attributes: Vec<MapperAttribute>,
}

/// A list of rules, applied in order.
pub struct Mapping {
    pub mapper: Vec<Mapper>,
}

/// A channel with the attributes set, in order.
pub open spec fn with_attributes(
    channel: ChannelView,
    attributes: Seq<MapperAttribute>,
) -> ChannelView
    decreases attributes.len(),
{
    if attributes.len() == 0 {
        channel
    } else {
        let last = attributes.last();
        with_attributes(channel, attributes.drop_last()).with_property(last.field@, last.value@)
    }
}

impl Filter {
    /// Evaluates the condition from left to right, only as far as the answer is open, and sets the
    /// attributes at each comparison that matches: the answer, and the channel that is left.
    pub open spec fn applied(
        self,
        channel: ChannelView,
        attributes: Seq<MapperAttribute>,
    ) -> (bool, ChannelView)
        decreases self,
    {
        match self {
            Filter::FieldComparison(field, re) => if regex_is_match(re@, channel.value(field)) {
                (true, with_attributes(channel, attributes))
            } else {
                (false, channel)
            },
            Filter::Not(inner) => {
                let result = inner.applied(channel, attributes);
                (!result.0, result.1)
            },
            Filter::And(left, right) => {
                let first = left.applied(channel, attributes);
                if first.0 {
                    right.applied(first.1, attributes)
                } else {
                    first
                }
            },
            Filter::Or(left, right) => {
                let first = left.applied(channel, attributes);
                if first.0 {
                    first
                } else {
                    right.applied(first.1, attributes)
                }
            },
        }
    }

    /// Evaluates the condition, and sets the attributes at each comparison that matches.
    pub fn apply(&self, pli: &mut PlaylistItem, attributes: &Vec<MapperAttribute>) -> (r: bool)
        ensures
            (r, final(pli)@) == self.applied(old(pli)@, attributes@),
        decreases self,
    {
        match self {
            Filter::FieldComparison(field, re) => {
                let value = get_field_value(pli, *field);
                if re.is_match(value.as_str()) {
                    set_attributes(pli, attributes);
                    true
                } else {
                    false
                }
            },
            Filter::Not(inner) => !inner.apply(pli, attributes),
            Filter::And(left, right) => {
                if left.apply(pli, attributes) {
                    right.apply(pli, attributes)
                } else {
                    false
                }
            },
            Filter::Or(left, right) => {
                if left.apply(pli, attributes) {
                    true
                } else {
                    right.apply(pli, attributes)
                }
            },
        }
    }
}

/// Sets the attributes of a channel, in order.
pub fn set_attributes(pli: &mut PlaylistItem, attributes: &Vec<MapperAttribute>)
    ensures
        final(pli)@ == with_attributes(old(pli)@, attributes@),
{
    let mut i: usize = 0;
    assert(attributes@.take(0) =~= Seq::<MapperAttribute>::empty());
    while i < attributes.len()
        invariant
            i <= attributes@.len(),
            pli@ == with_attributes(old(pli)@, attributes@.take(i as int)),
        decreases attributes.len() - i,
    {
        let attribute = &attributes[i];
        pli.header.set_field(attribute.field.as_str(), attribute.value.as_str());
        proof {
            assert(attributes@.take(i + 1).drop_last() =~= attributes@.take(i as int));
        }
        i = i + 1;
    }
    assert(attributes@.take(i as int) =~= attributes@);
}

impl Mapper {
    /// What the rule makes of a channel.
    pub open spec fn mapped(self, channel: ChannelView) -> ChannelView {
        let allowed = match self.filter {
            Some(filter) => filter.accepts(channel),
            None => true,
        };
        match self.pattern {
            Some(pattern) => if allowed {
                pattern.applied(channel, self.attributes@).1
            } else {
                channel
            },
            None => channel,
        }
    }
}

/// What a list of rules makes of a channel.
pub open spec fn mapped_by_rules(channel: ChannelView, mapper: Seq<Mapper>) -> ChannelView
    decreases mapper.len(),
{
    if mapper.len() == 0 {
        channel
    } else {
        mapper.last().mapped(mapped_by_rules(channel, mapper.drop_last()))
    }
}

/// What a list of mappings makes of a channel.
pub open spec fn mapped_channel(channel: ChannelView, mappings: Seq<Mapping>) -> ChannelView
    decreases mappings.len(),
{
    if mappings.len() == 0 {
        channel
    } else {
        mapped_by_rules(mapped_channel(channel, mappings.drop_last()), mappings.last().mapper@)
    }
}

/// The channel that a mapping makes of a channel.
pub fn map_channel(channel: PlaylistItem, mapping: &Mapping) -> (r: PlaylistItem)
    ensures
        r@ == mapped_by_rules(channel@, mapping.mapper@),
{
    let mut pli = channel;
    let mut i: usize = 0;
    assert(mapping.mapper@.take(0) =~= Seq::<Mapper>::empty());
    while i < mapping.mapper.len()
        invariant
            i <= mapping.mapper@.len(),
            pli@ == mapped_by_rules(channel@, mapping.mapper@.take(i as int)),
        decreases mapping.mapper.len() - i,
    {
        let m = &mapping.mapper[i];
        let allowed = match &m.filter {
            Some(filter) => filter.filter(&pli),
            None => true,
        };
        if allowed {
            if let Some(pattern) = &m.pattern {
                pattern.apply(&mut pli, &m.attributes);
            }
        }
        proof {
            assert(mapping.mapper@.take(i + 1).drop_last() =~= mapping.mapper@.take(i as int));
            assert(mapping.mapper@.take(i + 1).last() == *m);
        }
        i = i + 1;
    }
    assert(mapping.mapper@.take(i as int) =~= mapping.mapper@);
    pli
}

/// A group with its channels mapped.
pub open spec fn mapped_group(group: GroupView, mappings: Seq<Mapping>) -> GroupView {
    GroupView {
        channels: group.channels.map_values(|c: ChannelView| mapped_channel(c, mappings)),
        ..group
    }
}

/// A playlist with its channels mapped, each still in the group that it came in.
pub open spec fn mapped_groups(
    groups: Seq<GroupView>,
    mappings: Seq<Mapping>,
) -> Seq<GroupView> {
    groups.map_values(|g: GroupView| mapped_group(g, mappings))
}

/// What mappings make of a playlist.
pub open spec fn mapped_playlist(
    playlist: Seq<GroupView>,
    mappings: Seq<Mapping>,
) -> Seq<GroupView> {
    regrouped(mapped_groups(playlist, mappings))
}

/// Mapping keeps the numbers of the groups and the number of channels in each.
proof fn lemma_mapped_groups_fit(groups: Seq<GroupView>, mappings: Seq<Mapping>)
    ensures
        max_id(mapped_groups(groups, mappings)) == max_id(groups),
        channel_count(mapped_groups(groups, mappings)) == channel_count(groups),
    decreases groups.len(),
{
    if groups.len() > 0 {
        lemma_mapped_groups_fit(groups.drop_last(), mappings);
        assert(mapped_groups(groups, mappings).drop_last() =~= mapped_groups(
            groups.drop_last(),
            mappings,
        ));
    }
}

/// Mapping keeps the number of channels.
pub proof fn mapped_playlist_count(groups: Seq<GroupView>, mappings: Seq<Mapping>)
    ensures
        channel_count(mapped_playlist(groups, mappings)) == channel_count(groups),
{
    lemma_mapped_groups_fit(groups, mappings);
    regrouped_count(mapped_groups(groups, mappings));
}

/// The channel that a list of mappings makes of a channel.
fn map_channel_by_all(channel: PlaylistItem, mappings: &Vec<Mapping>) -> (r: PlaylistItem)
    ensures
        r@ == mapped_channel(channel@, mappings@),
{
    let mut pli = channel;
    let mut i: usize = 0;
    assert(mappings@.take(0) =~= Seq::<Mapping>::empty());
    while i < mappings.len()
        invariant
            i <= mappings@.len(),
            pli@ == mapped_channel(channel@, mappings@.take(i as int)),
        decreases mappings.len() - i,
    {
        pli = map_channel(pli, &mappings[i]);
        proof {
            assert(mappings@.take(i + 1).drop_last() =~= mappings@.take(i as int));
            assert(mappings@.take(i + 1).last() == mappings@[i as int]);
        }
        i = i + 1;
    }
    assert(mappings@.take(i as int) =~= mappings@);
    pli
}

/// A group with its channels mapped.
fn map_group(group: &PlaylistGroup, mappings: &Vec<Mapping>) -> (r: PlaylistGroup)
    ensures
        r@ == mapped_group(group@, mappings@),
{
    let mut channels: Vec<PlaylistItem> = Vec::new();
    let mut i: usize = 0;
    while i < group.channels.len()
        invariant
            i <= group.channels@.len(),
            channels@.len() == i,
            forall|j: int|
                0 <= j < i ==> (#[trigger] channels@[j])@ == mapped_channel(
                    group.channels@[j]@,
                    mappings@,
                ),
        decreases group.channels.len() - i,
    {
        channels.push(map_channel_by_all(group.channels[i].clone(), mappings));
        i = i + 1;
    }
    assert(channels_view(channels@) =~= mapped_group(group@, mappings@).channels);
    PlaylistGroup {
        id: group.id,
        title: group.title.clone(),
        channels,
        xtream_cluster: group.xtream_cluster,
    }
}

/// Whether there are numbers left for the groups that the mappings of a target make.
pub open spec fn can_number(groups: Seq<GroupView>, target: ConfigTarget) -> bool {
    match target.mapping {
        Some(mappings) => numbers_left(mapped_groups(groups, mappings@)),
        None => true,
    }
}

/// The playlist with its channels mapped, each still in the group that it came in.
fn map_groups(playlist: &[PlaylistGroup], mappings: &Vec<Mapping>) -> (r: Vec<PlaylistGroup>)
    ensures
        groups_view(r@) == mapped_groups(groups_view(playlist@), mappings@),
{
    let mut new_playlist: Vec<PlaylistGroup> = Vec::new();
    let mut i: usize = 0;
    while i < playlist.len()
        invariant
            i <= playlist@.len(),
            new_playlist@.len() == i,
            forall|j: int|
                0 <= j < i ==> (#[trigger] new_playlist@[j])@ == mapped_group(
                    playlist@[j]@,
                    mappings@,
                ),
        decreases playlist.len() - i,
    {
        new_playlist.push(map_group(&playlist[i], mappings));
        i = i + 1;
    }
    assert(groups_view(new_playlist@) =~= mapped_groups(groups_view(playlist@), mappings@));
    new_playlist
}

/// The playlist that the mappings of a target make of a playlist; `None` where it has none.
pub fn map_playlist(playlist: &[PlaylistGroup], target: &ConfigTarget) -> (r: Option<
    Vec<PlaylistGroup>,
>)
    requires
        can_number(groups_view(playlist@), *target),
    ensures
        match target.mapping {
            Some(mappings) => {
                &&& r is Some
                &&& groups_view(r->0@) == mapped_playlist(groups_view(playlist@), mappings@)
            },
            None => r is None,
        },
{
    match &target.mapping {
        Some(mappings) => Some(regroup(&map_groups(playlist, mappings))),
        None => None,
    }
}

/// Whether there are numbers left for the groups that the mappings of a target make. The mappings
/// are only tried out where the playlist itself leaves that open.
pub fn can_map(playlist: &Vec<PlaylistGroup>, target: &ConfigTarget) -> (r: bool)
    ensures
        r == can_number(groups_view(playlist@), *target),
{
    match &target.mapping {
        Some(mappings) => {
            if has_spare_numbers(playlist) {
                proof {
                    lemma_mapped_groups_fit(groups_view(playlist@), mappings@);
                    placed_playlist_bounds(mapped_groups(groups_view(playlist@), mappings@));
                }
                true
            } else {
                can_regroup(&map_groups(playlist.as_slice(), mappings))
            }
        },
        None => true,
    }
}

/// A rule leaves a channel that its filter rejects as it is.
pub proof fn rejected_channels_are_kept(mapper: Mapper, channel: ChannelView)
    requires
        mapper.filter is Some,
        !mapper.filter->0.accepts(channel),
    ensures
        mapper.mapped(channel) == channel,
{
}

/// Applying a condition without attributes is evaluating it.
pub proof fn applied_without_attributes(filter: Filter, channel: ChannelView)
    ensures
        filter.applied(channel, Seq::<MapperAttribute>::empty()) == (
            filter.accepts(channel),
            channel,
        ),
    decreases filter,
{
    match filter {
        Filter::FieldComparison(_, _) => {},
        Filter::Not(inner) => {
            applied_without_attributes(*inner, channel);
        },
        Filter::And(left, right) => {
            applied_without_attributes(*left, channel);
            applied_without_attributes(*right, channel);
        },
        Filter::Or(left, right) => {
            applied_without_attributes(*left, channel);
            applied_without_attributes(*right, channel);
        },
    }
}

/// After mapping, every channel is in the one group that it then names, and every group has a
/// number.
pub proof fn mapped_channels_are_where_they_belong(groups: Seq<GroupView>, mappings: Seq<Mapping>)
    requires
        numbers_left(mapped_groups(groups, mappings)),
    ensures
        grouped_by_name(
            mapped_playlist(groups, mappings),
            all_channels(mapped_groups(groups, mappings)),
        ),
        forall|i: int|
            0 <= i < mapped_playlist(groups, mappings).len() ==> (#[trigger] mapped_playlist(
                groups,
                mappings,
            )[i]).id != 0,
{
    regrouped_by_name(mapped_groups(groups, mappings));
    regrouped_ids(mapped_groups(groups, mappings));
}

} // verus!
