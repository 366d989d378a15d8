//! Playlists: groups of channels, and the header that describes a channel.

use vstd::prelude::*;

use crate::config::ConfigInput;
use crate::text::same_text;

verus! {

/// What a channel or a group offers.
#[derive(Clone, Copy, Debug, PartialEq, Eq, Structural)]
pub enum XtreamCluster {
    Live,
    Video,
    Series,
}

/// The fields of a channel that filters, renames and sorts can name.
#[derive(Clone, Copy, Debug, PartialEq, Eq, Structural)]
pub enum ItemField {
    Group,
    Name,
    Title,
    Url,
}

/// The header of a channel.
#[derive(Debug)]
pub struct PlaylistItemHeader {
    pub id: String,
    pub name: String,
    pub title: String,
    pub group: String,
    pub logo: String,
    pub url: String,
    pub epg_channel_id: Option<String>,
    pub xtream_cluster: XtreamCluster,
}

/// A channel.
#[derive(Debug)]
pub struct PlaylistItem {
    pub header: PlaylistItemHeader,
}

/// A group of channels.
#[derive(Debug)]
pub struct PlaylistGroup {
    pub id: u32,
    pub title: String,
    pub channels: Vec<PlaylistItem>,
    pub xtream_cluster: XtreamCluster,
}

/// The programme guide that came with a playlist, kept in a file.
#[derive(Debug)]
pub struct TVGuide {
    pub file: String,
}

/// The playlist of an input, with its programme guide.
pub struct FetchedPlaylist<'a> {
    pub input: &'a ConfigInput,
    pub playlist: Vec<PlaylistGroup>,
    pub epg: Option<TVGuide>,
}

/// What a channel holds.
#[verifier::ext_equal]
pub struct ChannelView {
    pub id: Seq<char>,
    pub name: Seq<char>,
    pub title: Seq<char>,
    pub group: Seq<char>,
    pub logo: Seq<char>,
    pub url: Seq<char>,
    pub epg_channel_id: Option<Seq<char>>,
    pub xtream_cluster: XtreamCluster,
}

/// What a group holds.
#[verifier::ext_equal]
pub struct GroupView {
    pub id: u32,
    pub title: Seq<char>,
    pub channels: Seq<ChannelView>,
    pub xtream_cluster: XtreamCluster,
}

/// What a fetched playlist holds.
#[verifier::ext_equal]
pub struct FetchedView {
    pub input: ConfigInput,
    pub playlist: Seq<GroupView>,
    pub epg: Option<Seq<char>>,
}

/// The view of a text that may be missing.
pub open spec fn optional_text(text: Option<String>) -> Option<Seq<char>> {
    match text {
        Some(t) => Some(t@),
        None => None,
    }
}

impl View for PlaylistItemHeader {
    type V = ChannelView;

    open spec fn view(&self) -> ChannelView {
        ChannelView {
            id: self.id@,
            name: self.name@,
            title: self.title@,
            group: self.group@,
            logo: self.logo@,
            url: self.url@,
            epg_channel_id: optional_text(self.epg_channel_id),
            xtream_cluster: self.xtream_cluster,
        }
    }
}

impl View for PlaylistItem {
    type V = ChannelView;

    open spec fn view(&self) -> ChannelView {
        self.header@
    }
}

/// What a list of channels holds.
pub open spec fn channels_view(channels: Seq<PlaylistItem>) -> Seq<ChannelView> {
    channels.map_values(|c: PlaylistItem| c@)
}

impl View for PlaylistGroup {
    type V = GroupView;

    open spec fn view(&self) -> GroupView {
        GroupView {
            id: self.id,
            title: self.title@,
            channels: channels_view(self.channels@),
            xtream_cluster: self.xtream_cluster,
        }
    }
}

/// What a list of groups holds.
pub open spec fn groups_view(groups: Seq<PlaylistGroup>) -> Seq<GroupView> {
    groups.map_values(|g: PlaylistGroup| g@)
}

/// All channels of a list of groups, in order.
pub open spec fn all_channels(groups: Seq<GroupView>) -> Seq<ChannelView>
    decreases groups.len(),
{
    if groups.len() == 0 {
        Seq::empty()
    } else {
        all_channels(groups.drop_last()) + groups.last().channels
    }
}

/// How many channels a list of groups holds.
pub open spec fn channel_count(groups: Seq<GroupView>) -> nat
    decreases groups.len(),
{
    if groups.len() == 0 {
        0
    } else {
        channel_count(groups.drop_last()) + groups.last().channels.len()
    }
}

impl View for TVGuide {
    type V = Seq<char>;

    open spec fn view(&self) -> Seq<char> {
        self.file@
    }
}

/// The view of a programme guide that may be missing.
pub open spec fn optional_guide(guide: Option<TVGuide>) -> Option<Seq<char>> {
    match guide {
        Some(g) => Some(g@),
        None => None,
    }
}

impl<'a> View for FetchedPlaylist<'a> {
    type V = FetchedView;

    open spec fn view(&self) -> FetchedView {
        FetchedView {
            input: *self.input,
            playlist: groups_view(self.playlist@),
            epg: optional_guide(self.epg),
        }
    }
}

/// What a list of fetched playlists holds.
pub open spec fn fetched_view(playlists: Seq<FetchedPlaylist>) -> Seq<FetchedView> {
    playlists.map_values(|p: FetchedPlaylist| p@)
}

impl ChannelView {
    /// The value of one of the fields that filters, renames and sorts can name.
    pub open spec fn value(self, field: ItemField) -> Seq<char> {
        match field {
            ItemField::Group => self.group,
            ItemField::Name => self.name,
            ItemField::Title => self.title,
            ItemField::Url => self.url,
        }
    }

    /// The channel with one of these fields set.
    pub open spec fn with_value(self, field: ItemField, value: Seq<char>) -> ChannelView {
        match field {
            ItemField::Group => ChannelView { group: value, ..self },
            ItemField::Name => ChannelView { name: value, ..self },
            ItemField::Title => ChannelView { title: value, ..self },
            ItemField::Url => ChannelView { url: value, ..self },
        }
    }

    /// The value of the field of that name, where there is such a field and it has a value.
    pub open spec fn property(self, name: Seq<char>) -> Option<Seq<char>> {
        if name == "id"@ {
            Some(self.id)
        } else if name == "name"@ {
            Some(self.name)
        } else if name == "title"@ {
            Some(self.title)
        } else if name == "group"@ {
            Some(self.group)
        } else if name == "logo"@ {
            Some(self.logo)
        } else if name == "url"@ {
            Some(self.url)
        } else if name == "epg_channel_id"@ {
            self.epg_channel_id
        } else {
            None
        }
    }

    /// Whether a channel has a field of that name.
    pub open spec fn has_property(name: Seq<char>) -> bool {
        ||| name == "id"@
        ||| name == "name"@
        ||| name == "title"@
        ||| name == "group"@
        ||| name == "logo"@
        ||| name == "url"@
        ||| name == "epg_channel_id"@
    }

    /// The channel with the field of that name set; the channel itself where there is none.
    pub open spec fn with_property(self, name: Seq<char>, value: Seq<char>) -> ChannelView {
        if name == "id"@ {
            ChannelView { id: value, ..self }
        } else if name == "name"@ {
            ChannelView { name: value, ..self }
        } else if name == "title"@ {
            ChannelView { title: value, ..self }
        } else if name == "group"@ {
            ChannelView { group: value, ..self }
        } else if name == "logo"@ {
            ChannelView { logo: value, ..self }
        } else if name == "url"@ {
            ChannelView { url: value, ..self }
        } else if name == "epg_channel_id"@ {
            ChannelView { epg_channel_id: Some(value), ..self }
        } else {
            self
        }
    }
}

fn clone_optional_text(text: &Option<String>) -> (r: Option<String>)
    ensures
        optional_text(r) == optional_text(*text),
{
    match text {
        Some(t) => Some(t.clone()),
        None => None,
    }
}

impl Clone for PlaylistItemHeader {
    fn clone(&self) -> (r: Self)
        ensures
            r@ == self@,
    {
        PlaylistItemHeader {
            id: self.id.clone(),
            name: self.name.clone(),
            title: self.title.clone(),
            group: self.group.clone(),
            logo: self.logo.clone(),
            url: self.url.clone(),
            epg_channel_id: clone_optional_text(&self.epg_channel_id),
            xtream_cluster: self.xtream_cluster,
        }
    }
}

impl PlaylistItemHeader {
    /// The value of the field of that name, where there is such a field and it has a value.
    pub fn get_field(&self, field: &str) -> (r: Option<String>)
        ensures
            optional_text(r) == self@.property(field@),
    {
        if same_text(field, "id") {
            Some(self.id.clone())
        } else if same_text(field, "name") {
            Some(self.name.clone())
        } else if same_text(field, "title") {
            Some(self.title.clone())
        } else if same_text(field, "group") {
            Some(self.group.clone())
        } else if same_text(field, "logo") {
            Some(self.logo.clone())
        } else if same_text(field, "url") {
            Some(self.url.clone())
        } else if same_text(field, "epg_channel_id") {
            clone_optional_text(&self.epg_channel_id)
        } else {
            None
        }
    }

    /// Sets the field of that name, and tells whether there is one.
    pub fn set_field(&mut self, field: &str, value: &str) -> (r: bool)
        ensures
            final(self)@ == old(self)@.with_property(field@, value@),
            r == ChannelView::has_property(field@),
    {
        let text = value.to_string();
        if same_text(field, "id") {
            self.id = text;
        } else if same_text(field, "name") {
            self.name = text;
        } else if same_text(field, "title") {
            self.title = text;
        } else if same_text(field, "group") {
            self.group = text;
        } else if same_text(field, "logo") {
            self.logo = text;
        } else if same_text(field, "url") {
            self.url = text;
        } else if same_text(field, "epg_channel_id") {
            self.epg_channel_id = Some(text);
        } else {
            return false;
        }
        true
    }
}

impl Clone for PlaylistItem {
    fn clone(&self) -> (r: Self)
        ensures
            r@ == self@,
    {
        PlaylistItem { header: self.header.clone() }
    }
}

/// The value of a field of a channel.
pub fn get_field_value(pli: &PlaylistItem, field: ItemField) -> (r: String)
    ensures
        r@ == pli@.value(field),
{
    match field {
        ItemField::Group => pli.header.group.clone(),
        ItemField::Name => pli.header.name.clone(),
        ItemField::Title => pli.header.title.clone(),
        ItemField::Url => pli.header.url.clone(),
    }
}

/// Sets a field of a channel.
pub fn set_field_value(pli: &mut PlaylistItem, field: ItemField, value: String)
    ensures
        final(pli)@ == old(pli)@.with_value(field, value@),
{
    match field {
        ItemField::Group => {
            pli.header.group = value;
        },
        ItemField::Name => {
            pli.header.name = value;
        },
        ItemField::Title => {
            pli.header.title = value;
        },
        ItemField::Url => {
            pli.header.url = value;
        },
    }
}

/// A copy of a list of channels.
pub fn clone_channels(channels: &Vec<PlaylistItem>) -> (r: Vec<PlaylistItem>)
    ensures
        channels_view(r@) == channels_view(channels@),
{
    let copy = channels.clone();
    assert(channels_view(copy@) =~= channels_view(channels@));
    copy
}

impl Clone for PlaylistGroup {
    fn clone(&self) -> (r: Self)
        ensures
            r@ == self@,
    {
        PlaylistGroup {
            id: self.id,
            title: self.title.clone(),
            channels: clone_channels(&self.channels),
            xtream_cluster: self.xtream_cluster,
        }
    }
}

/// A copy of a list of groups.
pub fn clone_groups(groups: &Vec<PlaylistGroup>) -> (r: Vec<PlaylistGroup>)
    ensures
        groups_view(r@) == groups_view(groups@),
{
    let copy = groups.clone();
    assert(groups_view(copy@) =~= groups_view(groups@));
    copy
}

impl Clone for TVGuide {
    fn clone(&self) -> (r: Self)
        ensures
            r@ == self@,
    {
        TVGuide { file: self.file.clone() }
    }
}

/// A copy of a programme guide that may be missing.
pub fn clone_guide(guide: &Option<TVGuide>) -> (r: Option<TVGuide>)
    ensures
        optional_guide(r) == optional_guide(*guide),
{
    match guide {
        Some(g) => Some(g.clone()),
        None => None,
    }
}

/// The position of the first group of that number; the number of groups where there is none.
pub open spec fn position_of_id(groups: Seq<GroupView>, id: u32) -> int
    decreases groups.len(),
{
    if groups.len() == 0 || groups[0].id == id {
        0
    } else {
        1 + position_of_id(groups.drop_first(), id)
    }
}

/// The groups with the channels of `more` at the end of the group of its number; where there is
/// none, with `more` as a new group.
pub open spec fn updated(groups: Seq<GroupView>, more: GroupView) -> Seq<GroupView> {
    let at = position_of_id(groups, more.id);
    if at < groups.len() {
        groups.update(
            at,
            GroupView { channels: groups[at].channels + more.channels, ..groups[at] },
        )
    } else {
        groups.push(more)
    }
}

/// The groups updated with each of a list of groups.
pub open spec fn updated_with_all(groups: Seq<GroupView>, more: Seq<GroupView>) -> Seq<GroupView>
    decreases more.len(),
{
    if more.len() == 0 {
        groups
    } else {
        updated(updated_with_all(groups, more.drop_last()), more.last())
    }
}

proof fn lemma_position_of_id(groups: Seq<GroupView>, id: u32, k: int)
    requires
        0 <= k <= groups.len(),
        forall|i: int| 0 <= i < k ==> (#[trigger] groups[i]).id != id,
    ensures
        k == groups.len() || groups[k].id == id ==> position_of_id(groups, id) == k,
    decreases groups.len(),
{
    if k > 0 {
        assert(groups[0].id != id);
        let rest = groups.drop_first();
        assert forall|i: int| 0 <= i < k - 1 implies (#[trigger] rest[i]).id != id by {
            assert(rest[i] == groups[i + 1]);
        }
        lemma_position_of_id(rest, id, k - 1);
    }
}

/// The position of the first group of that number.
fn find_id(groups: &Vec<PlaylistGroup>, id: u32) -> (r: usize)
    ensures
        r == position_of_id(groups_view(groups@), id),
        r <= groups@.len(),
{
    let ghost view = groups_view(groups@);
    let mut k: usize = 0;
    while k < groups.len()
        invariant
            k <= groups@.len(),
            view == groups_view(groups@),
            forall|i: int| 0 <= i < k ==> (#[trigger] view[i]).id != id,
        decreases groups.len() - k,
    {
        if groups[k].id == id {
            proof {
                lemma_position_of_id(view, id, k as int);
            }
            return k;
        }
        k = k + 1;
    }
    proof {
        lemma_position_of_id(view, id, k as int);
    }
    k
}

/// Appends copies of channels to a list of channels.
fn append_channels(channels: &mut Vec<PlaylistItem>, more: &Vec<PlaylistItem>)
    ensures
        channels_view(final(channels)@) == channels_view(old(channels)@) + channels_view(more@),
{
    let mut copies = clone_channels(more);
    let ghost before = channels@;
    let ghost added = copies@;
    channels.append(&mut copies);
    assert(channels_view(channels@) =~= channels_view(before) + channels_view(added));
}

impl<'a> FetchedPlaylist<'a> {
    /// Adds the channels of a group to the group of the same number, or the group where there is
    /// none.
    pub fn update_playlist(&mut self, plg: &PlaylistGroup)
        ensures
            final(self)@ == (FetchedView {
                playlist: updated(old(self)@.playlist, plg@),
                ..old(self)@
            }),
    {
        let ghost before = groups_view(self.playlist@);
        let at: usize = find_id(&self.playlist, plg.id);
        if at < self.playlist.len() {
            let group = &mut self.playlist[at];
            append_channels(&mut group.channels, &plg.channels);
        } else {
            self.playlist.push(plg.clone());
        }
        assert(groups_view(self.playlist@) =~= updated(before, plg@));
    }

    /// Adds each of a list of groups.
    pub fn update_with_all(&mut self, groups: &Vec<PlaylistGroup>)
        ensures
            final(self)@ == (FetchedView {
                playlist: updated_with_all(old(self)@.playlist, groups_view(groups@)),
                ..old(self)@
            }),
    {
        let ghost before = self@;
        let ghost more = groups_view(groups@);
        let mut i: usize = 0;
        assert(more.take(0) =~= Seq::<GroupView>::empty());
        while i < groups.len()
            invariant
                i <= groups@.len(),
                more == groups_view(groups@),
                self@ == (FetchedView {
                    playlist: updated_with_all(before.playlist, more.take(i as int)),
                    ..before
                }),
            decreases groups.len() - i,
        {
            self.update_playlist(&groups[i]);
            proof {
                assert(more.take(i + 1).drop_last() =~= more.take(i as int));
                assert(more.take(i + 1).last() == groups@[i as int]@);
            }
            i = i + 1;
        }
        assert(more.take(i as int) =~= more);
    }
}

/// The position of a number is that of a group of that number, and no group before it has it.
pub proof fn position_of_id_is_first(groups: Seq<GroupView>, id: u32)
    ensures
        0 <= position_of_id(groups, id) <= groups.len(),
        position_of_id(groups, id) < groups.len() ==> groups[position_of_id(groups, id)].id == id,
        forall|i: int| 0 <= i < position_of_id(groups, id) ==> (#[trigger] groups[i]).id != id,
    decreases groups.len(),
{
    if groups.len() > 0 && groups[0].id != id {
        let rest = groups.drop_first();
        position_of_id_is_first(rest, id);
        assert forall|i: int| 0 <= i < position_of_id(groups, id) implies (
        #[trigger] groups[i]).id != id by {
            if i > 0 {
                assert(rest[i - 1] == groups[i]);
            }
        }
    }
}

/// Replacing a group changes the number of channels by the difference of the two groups.
pub proof fn count_after_replacing(groups: Seq<GroupView>, at: int, group: GroupView)
    requires
        0 <= at < groups.len(),
    ensures
        channel_count(groups.update(at, group)) + groups[at].channels.len() == channel_count(groups)
            + group.channels.len(),
    decreases groups.len(),
{
    let shorter = groups.drop_last();
    if at == groups.len() - 1 {
        assert(groups.update(at, group).drop_last() =~= shorter);
    } else {
        count_after_replacing(shorter, at, group);
        assert(groups.update(at, group).drop_last() =~= shorter.update(at, group));
    }
}

/// Updating a playlist adds as many channels as the groups it is updated with have.
pub proof fn updated_with_all_count(groups: Seq<GroupView>, more: Seq<GroupView>)
    ensures
        channel_count(updated_with_all(groups, more)) == channel_count(groups) + channel_count(
            more,
        ),
    decreases more.len(),
{
    if more.len() > 0 {
        let before = updated_with_all(groups, more.drop_last());
        let last = more.last();
        let at = position_of_id(before, last.id);
        updated_with_all_count(groups, more.drop_last());
        position_of_id_is_first(before, last.id);
        if at < before.len() {
            count_after_replacing(
                before,
                at,
                GroupView { channels: before[at].channels + last.channels, ..before[at] },
            );
        } else {
            assert(updated(before, last).drop_last() =~= before);
        }
    }
}

} // verus!
