//! Mappings: what a rule sets, where it applies, and how rules and mappings follow each other.

use vstd::prelude::*;

use crate::config::ConfigTarget;
use crate::filter::Filter;
use crate::mapping::{
    can_number, mapped_by_rules, mapped_channel, mapped_groups, mapped_playlist, with_attributes,
    Mapper, MapperAttribute, Mapping,
};
use crate::pattern::{regex_is_match, Pattern};
use crate::playlist::{channel_count, ChannelView, GroupView, ItemField};
use crate::regroup::{numbers_left, regrouped, same_channels_same_count};

use crate::laws::grouping::spare_numbers_suffice;
use crate::laws::playlists::set_properties_are_read_back;

verus! {

/// Every field that attributes name holds the value of the last attribute for it, and every other
/// field stays.
pub proof fn attributes_set_their_fields(channel: ChannelView, attributes: Seq<MapperAttribute>)
    ensures
        ({
            let result = with_attributes(channel, attributes);
            &&& forall|i: int|
                0 <= i < attributes.len() && ChannelView::has_property(
                    (#[trigger] attributes[i]).field@,
                ) && (forall|j: int|
                    i < j < attributes.len() ==> (#[trigger] attributes[j]).field@
                        != attributes[i].field@) ==> result.property(attributes[i].field@) == Some(
                    attributes[i].value@,
                )
            &&& forall|name: Seq<char>|
                (forall|j: int|
                    0 <= j < attributes.len() ==> (#[trigger] attributes[j]).field@ != name)
                    ==> #[trigger] result.property(name) == channel.property(name)
            &&& result.xtream_cluster == channel.xtream_cluster
        }),
    decreases attributes.len(),
{
    if attributes.len() > 0 {
        let shorter = attributes.drop_last();
        let last = attributes.last();
        let before = with_attributes(channel, shorter);
        let result = with_attributes(channel, attributes);
        attributes_set_their_fields(channel, shorter);
        set_properties_are_read_back(before, last.field@, last.value@);
        assert(result == before.with_property(last.field@, last.value@));
        assert forall|i: int|
            0 <= i < attributes.len() && ChannelView::has_property(
                (#[trigger] attributes[i]).field@,
            ) && (forall|j: int|
                i < j < attributes.len() ==> (#[trigger] attributes[j]).field@
                    != attributes[i].field@) implies result.property(attributes[i].field@) == Some(
            attributes[i].value@,
        ) by {
            if i < shorter.len() {
                assert(shorter[i] == attributes[i]);
                assert forall|j: int| i < j < shorter.len() implies (#[trigger] shorter[j]).field@
                    != shorter[i].field@ by {
                    assert(shorter[j] == attributes[j]);
                }
                assert(attributes[attributes.len() - 1].field@ != attributes[i].field@);
                assert(before.property(shorter[i].field@) == Some(shorter[i].value@));
            }
        }
        assert forall|name: Seq<char>|
            (forall|j: int| 0 <= j < attributes.len() ==> (#[trigger] attributes[j]).field@
                != name) implies #[trigger] result.property(name) == channel.property(name) by {
            assert forall|j: int| 0 <= j < shorter.len() implies (#[trigger] shorter[j]).field@
                != name by {
                assert(shorter[j] == attributes[j]);
            }
            assert(attributes[attributes.len() - 1].field@ != name);
            assert(before.property(name) == channel.property(name));
        }
    }
}

/// A comparison sets all attributes where its pattern matches, and else nothing.
pub proof fn comparisons_set_where_they_match(
    field: ItemField,
    re: Pattern,
    channel: ChannelView,
    attributes: Seq<MapperAttribute>,
)
    ensures
        ({
            let result = Filter::FieldComparison(field, re).applied(channel, attributes);
            &&& result.0 == regex_is_match(re@, channel.value(field))
            &&& result.0 ==> result.1 == with_attributes(channel, attributes)
            &&& !result.0 ==> result.1 == channel
        }),
{
}

/// A negated condition sets what the condition sets, and answers the other way; the second part of
/// a combined condition is evaluated, on what the first has set, only where the answer is open.
pub proof fn conditions_set_from_left_to_right(
    left: Filter,
    right: Filter,
    channel: ChannelView,
    attributes: Seq<MapperAttribute>,
)
    ensures
        ({
            let first = left.applied(channel, attributes);
            let second = right.applied(first.1, attributes);
            let negated = Filter::Not(Box::new(left)).applied(channel, attributes);
            let both = Filter::And(Box::new(left), Box::new(right)).applied(channel, attributes);
            let either = Filter::Or(Box::new(left), Box::new(right)).applied(channel, attributes);
            &&& negated.0 != first.0
            &&& negated.1 == first.1
            &&& both == if first.0 {
                second
            } else {
                first
            }
            &&& either == if first.0 {
                first
            } else {
                second
            }
        }),
{
}

/// Where its filter accepts a channel a rule does what it does without a filter, and where not it
/// does nothing. A rule without a pattern does nothing either; one without a filter does what its
/// pattern says.
pub proof fn filters_decide_whether_rules_apply(mapper: Mapper, channel: ChannelView)
    ensures
        mapper.filter is Some && mapper.filter->0.accepts(channel) ==> mapper.mapped(channel) == (
        Mapper { filter: None, ..mapper }).mapped(channel),
        mapper.filter is Some && !mapper.filter->0.accepts(channel) ==> mapper.mapped(channel)
            == channel,
        mapper.pattern is None ==> mapper.mapped(channel) == channel,
        mapper.filter is None && mapper.pattern is Some ==> mapper.mapped(channel)
            == mapper.pattern->0.applied(channel, mapper.attributes@).1,
{
}

/// A rule whose pattern is a single comparison that matches, and whose filter, if it has one,
/// accepts the channel, leaves in every field that its attributes name the last value for it.
pub proof fn rules_that_apply_set_their_attributes(
    mapper: Mapper,
    channel: ChannelView,
    field: ItemField,
    re: Pattern,
    i: int,
)
    requires
        mapper.pattern == Some(Filter::FieldComparison(field, re)),
        regex_is_match(re@, channel.value(field)),
        mapper.filter is Some ==> mapper.filter->0.accepts(channel),
        0 <= i < mapper.attributes@.len(),
        ChannelView::has_property(mapper.attributes@[i].field@),
        forall|j: int|
            i < j < mapper.attributes@.len() ==> (#[trigger] mapper.attributes@[j]).field@
                != mapper.attributes@[i].field@,
    ensures
        mapper.mapped(channel).property(mapper.attributes@[i].field@) == Some(
            mapper.attributes@[i].value@,
        ),
{
    attributes_set_their_fields(channel, mapper.attributes@);
}

/// Rules follow each other, each on what those before it left.
pub proof fn rules_follow_each_other(
    channel: ChannelView,
    first: Seq<Mapper>,
    second: Seq<Mapper>,
)
    ensures
        mapped_by_rules(channel, Seq::empty()) == channel,
        first.len() == 1 ==> mapped_by_rules(channel, first) == first[0].mapped(channel),
        mapped_by_rules(channel, first + second) == mapped_by_rules(
            mapped_by_rules(channel, first),
            second,
        ),
    decreases second.len(),
{
    if first.len() == 1 {
        assert(first.drop_last() =~= Seq::<Mapper>::empty());
        assert(mapped_by_rules(channel, first.drop_last()) == channel);
    }
    if second.len() > 0 {
        assert((first + second).drop_last() =~= first + second.drop_last());
        rules_follow_each_other(channel, first, second.drop_last());
    } else {
        assert(first + second =~= first);
    }
}

/// Mappings follow each other, each on what those before it left, and each with its rules.
pub proof fn mappings_follow_each_other(
    channel: ChannelView,
    first: Seq<Mapping>,
    second: Seq<Mapping>,
)
    ensures
        mapped_channel(channel, Seq::empty()) == channel,
        first.len() == 1 ==> mapped_channel(channel, first) == mapped_by_rules(
            channel,
            first[0].mapper@,
        ),
        mapped_channel(channel, first + second) == mapped_channel(
            mapped_channel(channel, first),
            second,
        ),
    decreases second.len(),
{
    if first.len() == 1 {
        assert(first.drop_last() =~= Seq::<Mapping>::empty());
        assert(mapped_channel(channel, first.drop_last()) == channel);
    }
    if second.len() > 0 {
        assert((first + second).drop_last() =~= first + second.drop_last());
        mappings_follow_each_other(channel, first, second.drop_last());
    } else {
        assert(first + second =~= first);
    }
}

/// Every channel is mapped on its own, and before regrouping nothing else of a group changes.
pub proof fn channels_are_mapped_one_by_one(groups: Seq<GroupView>, mappings: Seq<Mapping>)
    ensures
        mapped_groups(groups, mappings).len() == groups.len(),
        forall|g: int|
            0 <= g < groups.len() ==> {
                let result = #[trigger] mapped_groups(groups, mappings)[g];
                &&& result.id == groups[g].id
                &&& result.title == groups[g].title
                &&& result.xtream_cluster == groups[g].xtream_cluster
                &&& result.channels.len() == groups[g].channels.len()
                &&& forall|c: int|
                    0 <= c < groups[g].channels.len() ==> #[trigger] result.channels[c]
                        == mapped_channel(groups[g].channels[c], mappings)
            },
{
}

/// Mapping a playlist is regrouping it once its channels are mapped; without mappings it is
/// regrouping it.
pub proof fn mapped_channels_are_regrouped(groups: Seq<GroupView>, mappings: Seq<Mapping>)
    ensures
        mapped_playlist(groups, Seq::empty()) == regrouped(groups),
        mapped_playlist(groups, mappings) == mapped_playlist(
            mapped_groups(groups, mappings),
            Seq::empty(),
        ),
{
    lemma_mapped_by_none(groups);
    lemma_mapped_by_none(mapped_groups(groups, mappings));
}

proof fn lemma_mapped_by_none(groups: Seq<GroupView>)
    ensures
        mapped_groups(groups, Seq::empty()) == groups,
{
    let result = mapped_groups(groups, Seq::empty());
    assert forall|i: int| 0 <= i < groups.len() implies #[trigger] result[i] == groups[i] by {
        assert(result[i].channels =~= groups[i].channels);
    }
    assert(result =~= groups);
}

/// A target without mappings needs no numbers; one with mappings has enough where regrouping the
/// mapped channels does, and in any case where there is one for every channel beyond the largest.
pub proof fn numbers_that_mapping_needs(groups: Seq<GroupView>, target: ConfigTarget)
    ensures
        target.mapping is None ==> can_number(groups, target),
        target.mapping is Some ==> (can_number(groups, target) <==> numbers_left(
            mapped_groups(groups, target.mapping->0@),
        )),
        channel_count(groups) <= u32::MAX && (forall|i: int|
            0 <= i < groups.len() ==> (#[trigger] groups[i]).id + channel_count(groups)
                <= u32::MAX) ==> can_number(groups, target),
{
    if channel_count(groups) <= u32::MAX && (forall|i: int|
        0 <= i < groups.len() ==> (#[trigger] groups[i]).id + channel_count(groups) <= u32::MAX) {
        if let Some(mappings) = target.mapping {
            let mapped = mapped_groups(groups, mappings@);
            same_channels_same_count(mapped, groups);
            assert forall|i: int| 0 <= i < mapped.len() implies (#[trigger] mapped[i]).id
                + channel_count(mapped) <= u32::MAX by {
                assert(mapped[i].id == groups[i].id);
            }
            spare_numbers_suffice(mapped);
        }
    }
}

} // verus!
