//! The configuration: inputs, targets, and what the user asked to process.

use vstd::prelude::*;

use crate::filter::Filter;
use crate::mapping::Mapping;
use crate::pattern::Pattern;
use crate::playlist::ItemField;

verus! {

/// Where an input gets its playlist from.
#[derive(Clone, Copy, Debug, PartialEq, Eq, Structural)]
pub enum InputType {
    M3u,
    Xtream,
}

/// A text that goes before or after a field of every channel of an input.
#[derive(Debug)]
pub struct InputAffix {
    pub field: String,
    pub value: String,
}

/// The fields that an affix may name.
pub open spec fn is_affix_field(field: Seq<char>) -> bool {
    field == "name"@ || field == "title"@ || field == "group"@
}

/// An input: one playlist to fetch.
#[derive(Debug)]
pub struct ConfigInput {
    pub id: u16,
    pub enabled: bool,
    pub input_type: InputType,
    pub name: Option<String>,
    pub url: String,
    pub prefix: Option<InputAffix>,
    pub suffix: Option<InputAffix>,
}

/// What a target writes.
#[derive(Clone, Copy, Debug, PartialEq, Eq, Structural)]
pub enum TargetType {
    M3u,
    Strm,
    Xtream,
}

/// An output of a target.
#[derive(Debug)]
pub struct TargetOutput {
    pub target: TargetType,
    pub filename: Option<String>,
}

/// The order in which a target filters (f), renames (r) and maps (m).
#[derive(Clone, Copy, Debug, PartialEq, Eq, Structural)]
pub enum ProcessingOrder {
    Frm,
    Fmr,
    Rfm,
    Rmf,
    Mfr,
    Mrf,
}

/// The direction of a sort.
#[derive(Clone, Copy, Debug, PartialEq, Eq, Structural)]
pub enum SortOrder {
    Asc,
    Desc,
}

/// How groups are sorted by their title.
pub struct ConfigSortGroup {
    pub order: SortOrder,
}

/// How the channels of the groups whose title matches are sorted by a field.
pub struct ConfigSortChannel {
    pub field: ItemField,
    pub re: Pattern,
    pub order: SortOrder,
}

/// How a target sorts.
pub struct ConfigSort {
    pub match_as_ascii: bool,
    pub groups: Option<ConfigSortGroup>,
    pub channels: Option<Vec<ConfigSortChannel>>,
}

/// A rename: every match of `re` in `field` becomes `new_name`.
pub struct ConfigRename {
    pub field: ItemField,
    pub re: Pattern,
    pub new_name: String,
}

/// The options of a target.
#[derive(Debug)]
pub struct ConfigTargetOptions {
    pub xtream_resolve_series: bool,
    pub xtream_resolve_series_delay: u16,
}

/// A target: one playlist to produce.
pub struct ConfigTarget {
    pub id: u16,
    pub enabled: bool,
    pub name: String,
    pub filter: Filter,
    pub rename: Option<Vec<ConfigRename>>,
    pub mapping: Option<Vec<Mapping>>,
    pub sort: Option<ConfigSort>,
    pub watch_re: Option<Vec<Pattern>>,
    pub processing_order: ProcessingOrder,
    pub options: Option<ConfigTargetOptions>,
    pub output: Vec<TargetOutput>,
}

impl ConfigTarget {
    /// Whether the target has an output of that type.
    pub open spec fn writes(self, target: TargetType) -> bool {
        exists|i: int| 0 <= i < self.output@.len() && (#[trigger] self.output@[i]).target == target
    }

    /// Whether the target has an output of that type.
    pub fn has_output(&self, target: TargetType) -> (r: bool)
        ensures
            r == self.writes(target),
    {
        let mut i: usize = 0;
        while i < self.output.len()
            invariant
                i <= self.output@.len(),
                forall|j: int| 0 <= j < i ==> (#[trigger] self.output@[j]).target != target,
            decreases self.output.len() - i,
        {
            if self.output[i].target == target {
                return true;
            }
            i = i + 1;
        }
        false
    }
}

/// A source: the inputs whose playlists its targets are made from.
pub struct ConfigSource {
    pub inputs: Vec<ConfigInput>,
    pub targets: Vec<ConfigTarget>,
}

/// What the user asked to process, in place of what the configuration enables.
#[derive(Debug)]
pub struct ProcessTargets {
    pub enabled: bool,
    pub inputs: Vec<u16>,
    pub targets: Vec<u16>,
}

fn contains_id(ids: &Vec<u16>, id: u16) -> (r: bool)
    ensures
        r == ids@.contains(id),
{
    let mut i: usize = 0;
    while i < ids.len()
        invariant
            i <= ids@.len(),
            forall|j: int| 0 <= j < i ==> ids@[j] != id,
        decreases ids.len() - i,
    {
        if ids[i] == id {
            return true;
        }
        i = i + 1;
    }
    false
}

impl ProcessTargets {
    /// Whether the user asked for that input.
    pub fn has_input(&self, id: u16) -> (r: bool)
        ensures
            r == self.inputs@.contains(id),
    {
        contains_id(&self.inputs, id)
    }

    /// Whether the user asked for that target.
    pub fn has_target(&self, id: u16) -> (r: bool)
        ensures
            r == self.targets@.contains(id),
    {
        contains_id(&self.targets, id)
    }
}

} // verus!
