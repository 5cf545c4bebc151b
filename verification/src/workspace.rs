//! The input-channel workspace of the mixer: the channels and the sources
//! they are fed from, the mix buses and their names, and which channels a
//! filter leaves visible.

use vstd::prelude::*;
use crate::channel_state::{DEFAULT_MIX_BUS_COUNT, MAX_MIX_BUS_COUNT, MAX_VISIBLE_CHANNELS};
use crate::i18n::{fill, lookup_text, placeholder_views, I18n};
use crate::labels::first_n;
use crate::node_props::{views, NodeEntry};
use crate::text::{
    contains, contains_seq, decimal, decimal_string, is_white_space, lemma_blank_trims_to_empty,
    lowercase, to_lowercase, trim, trimmed,
};

verus! {

/// How many input channels a fresh workspace has.
pub const DEFAULT_INPUT_CHANNEL_COUNT: u32 = 6;

/// Upper bound of the visible-channel limit.
pub const MAX_VISIBLE_CHANNEL_LIMIT: usize = 24;

/// An input channel: its id, its name and the node it takes its signal from.
#[derive(Clone, Debug)]
pub struct InputChannel {
    pub id: u32,
    pub name: String,
    pub source_node_id: Option<u32>,
}

/// Mathematical picture of an input channel.
pub struct ChannelModel {
    pub id: u32,
    pub name: Seq<char>,
    pub source: Option<u32>,
}

impl View for InputChannel {
    type V = ChannelModel;

    open spec fn view(&self) -> ChannelModel {
        ChannelModel { id: self.id, name: self.name@, source: self.source_node_id }
    }
}

impl InputChannel {
    /// A copy of this channel.
    pub fn duplicate(&self) -> (copy: InputChannel)
        ensures
            copy@ == self@,
    {
        InputChannel { id: self.id, name: self.name.clone(), source_node_id: self.source_node_id }
    }
}

/// A node offered as a channel source: its id and name.
#[derive(Clone, Debug)]
pub struct NodeChoice {
    pub id: u32,
    pub name: String,
}

/// The views of a list of channels.
pub open spec fn channel_views(channels: Seq<InputChannel>) -> Seq<ChannelModel> {
    channels.map_values(|c: InputChannel| c@)
}

/// The (id, name) pairs of a list of node choices.
pub open spec fn choice_views(nodes: Seq<NodeChoice>) -> Seq<(u32, Seq<char>)> {
    nodes.map_values(|n: NodeChoice| (n.id, n.name@))
}

/// The name of the first node with `id`, if any.
pub open spec fn node_name(nodes: Seq<(u32, Seq<char>)>, id: u32) -> Option<Seq<char>>
    decreases nodes.len(),
{
    if nodes.len() == 0 {
        None
    } else if nodes[0].0 == id {
        Some(nodes[0].1)
    } else {
        node_name(nodes.drop_first(), id)
    }
}

/// The label of a channel's source: the name of the node it is fed from, or
/// the "unassigned" text when it has none or the node is not known.
pub open spec fn source_label_text(
    table: Map<Seq<char>, Seq<char>>,
    nodes: Seq<(u32, Seq<char>)>,
    source: Option<u32>,
) -> Seq<char> {
    match source {
        None => lookup_text(table, "ui.device.unassigned"@),
        Some(id) => match node_name(nodes, id) {
            Some(name) => name,
            None => lookup_text(table, "ui.device.unassigned"@),
        },
    }
}

/// The default name of input channel number `index`.
pub open spec fn input_name(table: Map<Seq<char>, Seq<char>>, index: nat) -> Seq<char> {
    fill(lookup_text(table, "ui.input.default_name"@), seq![("index"@, decimal(index))])
}

/// The default name of mix bus `bus_index`: monitor, stream, chat and FX
/// return for the first four, a numbered name for the others.
pub open spec fn bus_name(table: Map<Seq<char>, Seq<char>>, bus_index: nat) -> Seq<char> {
    if bus_index == 0 {
        lookup_text(table, "ui.bus.monitor"@)
    } else if bus_index == 1 {
        lookup_text(table, "ui.bus.stream"@)
    } else if bus_index == 2 {
        lookup_text(table, "ui.bus.chat"@)
    } else if bus_index == 3 {
        lookup_text(table, "ui.bus.fx_return"@)
    } else {
        fill(lookup_text(table, "ui.bus.generic"@), seq![("index"@, decimal(bus_index + 1))])
    }
}

/// The default names of the first `count` mix buses.
pub open spec fn bus_names(table: Map<Seq<char>, Seq<char>>, count: nat) -> Seq<Seq<char>> {
    Seq::new(count, |i: int| bus_name(table, i as nat))
}

/// The channels of a fresh workspace: ids 1 to 6, default names, no source.
pub open spec fn default_channels(table: Map<Seq<char>, Seq<char>>) -> Seq<ChannelModel> {
    Seq::new(
        DEFAULT_INPUT_CHANNEL_COUNT as nat,
        |i: int| ChannelModel { id: (i + 1) as u32, name: input_name(table, (i + 1) as nat), source: None },
    )
}

/// Bus names brought to `count` entries: cut, or completed with defaults.
pub open spec fn resized_names(
    names: Seq<Seq<char>>,
    count: nat,
    table: Map<Seq<char>, Seq<char>>,
) -> Seq<Seq<char>> {
    if names.len() >= count {
        names.take(count as int)
    } else {
        names + Seq::new((count - names.len()) as nat, |i: int| bus_name(table, (names.len() + i) as nat))
    }
}

/// `n` brought into `lo..=hi`.
pub open spec fn clamped(n: usize, lo: usize, hi: usize) -> usize {
    if n < lo {
        lo
    } else if n > hi {
        hi
    } else {
        n
    }
}

/// Whether a channel stays visible under the (trimmed, lower-cased) filter
/// text: always for an empty filter, else when the filter occurs in its id,
/// its lower-cased name or its lower-cased source label.
pub open spec fn channel_matches(
    table: Map<Seq<char>, Seq<char>>,
    nodes: Seq<(u32, Seq<char>)>,
    filter: Seq<char>,
    channel: ChannelModel,
) -> bool {
    filter.len() == 0 || contains_seq(decimal(channel.id as nat), filter) || contains_seq(
        lowercase(channel.name),
        filter,
    ) || contains_seq(lowercase(source_label_text(table, nodes, channel.source)), filter)
}

/// The channels shown for filter text `filter_text` and limit `limit`.
pub open spec fn visible_channels(
    table: Map<Seq<char>, Seq<char>>,
    nodes: Seq<(u32, Seq<char>)>,
    channels: Seq<ChannelModel>,
    filter_text: Seq<char>,
    limit: nat,
) -> Seq<ChannelModel> {
    let filter = lowercase(trimmed(filter_text));
    first_n(channels.filter(|c: ChannelModel| channel_matches(table, nodes, filter, c)), limit)
}

/// The nodes that channels take their signal from, in channel order.
pub open spec fn assigned_sources(channels: Seq<ChannelModel>) -> Seq<u32>
    decreases channels.len(),
{
    if channels.len() == 0 {
        Seq::empty()
    } else {
        let rest = assigned_sources(channels.drop_last());
        match channels.last().source {
            Some(id) => rest.push(id),
            None => rest,
        }
    }
}

/// The listed sources are exactly the channels' sources, in channel order,
/// channels without a source skipped: every channel's source is listed,
/// the last channel's too, and nothing else is.
pub proof fn lemma_assigned_sources_lists_every_source(channels: Seq<ChannelModel>)
    ensures
        assigned_sources(channels) == channels.filter_map(|c: ChannelModel| c.source),
        forall|i: int|
            0 <= i < channels.len() && (#[trigger] channels[i]).source is Some ==> assigned_sources(
                channels,
            ).contains(channels[i].source->0),
        forall|x: u32|
            #[trigger] assigned_sources(channels).contains(x) ==> exists|i: int|
                0 <= i < channels.len() && (#[trigger] channels[i]).source == Some(x),
        assigned_sources(channels).len() <= channels.len(),
    decreases channels.len(),
{
    if channels.len() > 0 {
        let rest = channels.drop_last();
        lemma_assigned_sources_lists_every_source(rest);
        let before = assigned_sources(rest);
        let last = channels.last();
        match last.source {
            Some(id) => {
                assert(before.push(id) =~= before + seq![id]);
            },
            None => {},
        }
        assert forall|i: int|
            0 <= i < channels.len() && (#[trigger] channels[i]).source is Some implies assigned_sources(
                channels,
            ).contains(channels[i].source->0) by {
            if i < rest.len() {
                assert(rest[i] == channels[i]);
                let k = choose|k: int| 0 <= k < before.len() && before[k] == rest[i].source->0;
                assert(assigned_sources(channels)[k] == before[k]);
            } else {
                assert(assigned_sources(channels).last() == last.source->0);
            }
        }
        assert forall|x: u32| #[trigger] assigned_sources(channels).contains(x) implies exists|i: int|
            0 <= i < channels.len() && (#[trigger] channels[i]).source == Some(x) by {
            let k = choose|k: int|
                0 <= k < assigned_sources(channels).len() && assigned_sources(channels)[k] == x;
            if k < before.len() {
                assert(before[k] == x);
                assert(before.contains(x));
                let i = choose|i: int| 0 <= i < rest.len() && (#[trigger] rest[i]).source == Some(x);
                assert(channels[i] == rest[i]);
            } else {
                assert(channels[channels.len() - 1] == last);
            }
        }
    }
}

/// Index of the first channel that has no source, if any.
pub open spec fn first_unassigned(channels: Seq<ChannelModel>) -> Option<int> {
    if exists|i: int| 0 <= i < channels.len() && channels[i].source is None {
        Some(
            choose|i: int|
                0 <= i < channels.len() && channels[i].source is None && forall|k: int|
                    0 <= k < i ==> channels[k].source is Some,
        )
    } else {
        None
    }
}

/// Index of the first channel with id `channel_id`, if any.
pub open spec fn first_with_id(channels: Seq<ChannelModel>, channel_id: u32) -> Option<int> {
    if exists|i: int| 0 <= i < channels.len() && channels[i].id == channel_id {
        Some(
            choose|i: int|
                0 <= i < channels.len() && channels[i].id == channel_id && forall|k: int|
                    0 <= k < i ==> channels[k].id != channel_id,
        )
    } else {
        None
    }
}

/// The channels with the source of the first channel with id `channel_id`
/// set to `source`.
pub open spec fn with_source(channels: Seq<ChannelModel>, channel_id: u32, source: Option<u32>) -> Seq<
    ChannelModel,
> {
    match first_with_id(channels, channel_id) {
        Some(i) => channels.update(
            i,
            ChannelModel { id: channels[i].id, name: channels[i].name, source },
        ),
        None => channels,
    }
}

/// Mathematical picture of the workspace.
pub struct WorkspaceModel {
    pub channels: Seq<ChannelModel>,
    pub next_channel_id: u32,
    pub node_filter: Seq<char>,
    pub visible_limit: usize,
    pub bus_count: usize,
    pub bus_names: Seq<Seq<char>>,
}

/// The input channels, the bus layout and the view settings of the mixer.
pub struct MixerWorkspace {
    input_channels: Vec<InputChannel>,
    next_input_channel_id: u32,
    node_filter: String,
    visible_channel_limit: usize,
    mix_bus_count: usize,
    mix_bus_names: Vec<String>,
}

impl View for MixerWorkspace {
    type V = WorkspaceModel;

    closed spec fn view(&self) -> WorkspaceModel {
        WorkspaceModel {
            channels: channel_views(self.input_channels@),
            next_channel_id: self.next_input_channel_id,
            node_filter: self.node_filter@,
            visible_limit: self.visible_channel_limit,
            bus_count: self.mix_bus_count,
            bus_names: views(self.mix_bus_names@),
        }
    }
}

/// The default name of input channel `index`.
pub fn input_channel_name(i18n: &I18n, index: u32) -> (name: String)
    ensures
        name@ == input_name(i18n@, index as nat),
{
    let placeholders = [("index", decimal_string(index as u64))];
    let name = i18n.text_with("ui.input.default_name", &placeholders);
    assert(placeholder_views(placeholders@) =~= seq![("index"@, decimal(index as nat))]);
    name
}

/// The (id, name) choices offered for the nodes found.
pub fn node_choices(nodes: &[NodeEntry]) -> (choices: Vec<NodeChoice>)
    ensures
        choices@.len() == nodes@.len(),
        forall|i: int|
            0 <= i < nodes@.len() ==> #[trigger] choices@[i].id == nodes@[i].id && choices@[i].name@
                == nodes@[i].name@,
{
    let mut choices: Vec<NodeChoice> = Vec::new();
    let mut i: usize = 0;
    while i < nodes.len()
        invariant
            i <= nodes@.len(),
            choices@.len() == i,
            forall|k: int|
                0 <= k < i ==> #[trigger] choices@[k].id == nodes@[k].id && choices@[k].name@
                    == nodes@[k].name@,
        decreases nodes.len() - i,
    {
        choices.push(NodeChoice { id: nodes[i].id, name: nodes[i].name.clone() });
        i = i + 1;
    }
    choices
}

/// The label of a channel's source among `nodes`.
pub fn source_label(i18n: &I18n, nodes: &[NodeChoice], source_node_id: Option<u32>) -> (label:
    String)
    ensures
        label@ == source_label_text(i18n@, choice_views(nodes@), source_node_id),
{
    match source_node_id {
        None => i18n.text("ui.device.unassigned"),
        Some(id) => {
            let mut i: usize = 0;
            assert(choice_views(nodes@).skip(0) =~= choice_views(nodes@));
            while i < nodes.len()
                invariant
                    i <= nodes@.len(),
                    source_node_id == Some(id),
                    node_name(choice_views(nodes@), id) == node_name(
                        choice_views(nodes@).skip(i as int),
                        id,
                    ),
                decreases nodes.len() - i,
            {
                let ghost rest = choice_views(nodes@).skip(i as int);
                assert(rest[0] == (nodes@[i as int].id, nodes@[i as int].name@));
                assert(rest.drop_first() =~= choice_views(nodes@).skip(i + 1));
                if nodes[i].id == id {
                    assert(node_name(rest, id) == Some(nodes@[i as int].name@));
                    return nodes[i].name.clone();
                }
                i = i + 1;
            }
            assert(choice_views(nodes@).skip(i as int).len() == 0);
            i18n.text("ui.device.unassigned")
        },
    }
}

impl MixerWorkspace {
    /// The default name of mix bus `bus_index`.
    pub fn default_mix_bus_name(i18n: &I18n, bus_index: usize) -> (name: String)
        requires
            bus_index < usize::MAX,
        ensures
            name@ == bus_name(i18n@, bus_index as nat),
    {
        if bus_index == 0 {
            i18n.text("ui.bus.monitor")
        } else if bus_index == 1 {
            i18n.text("ui.bus.stream")
        } else if bus_index == 2 {
            i18n.text("ui.bus.chat")
        } else if bus_index == 3 {
            i18n.text("ui.bus.fx_return")
        } else {
            let placeholders = [("index", decimal_string((bus_index + 1) as u64))];
            let name = i18n.text_with("ui.bus.generic", &placeholders);
            assert(placeholder_views(placeholders@) =~= seq![
                ("index"@, decimal((bus_index + 1) as nat)),
            ]);
            name
        }
    }

    /// The default names of the first `count` mix buses.
    pub fn default_mix_bus_names(i18n: &I18n, count: usize) -> (names: Vec<String>)
        ensures
            views(names@) == bus_names(i18n@, count as nat),
    {
        let mut names: Vec<String> = Vec::new();
        let mut i: usize = 0;
        while i < count
            invariant
                i <= count,
                views(names@) == bus_names(i18n@, i as nat),
            decreases count - i,
        {
            let name = Self::default_mix_bus_name(i18n, i);
            let ghost before = names@;
            names.push(name);
            assert(views(names@) =~= views(before).push(name@));
            assert(views(names@) =~= bus_names(i18n@, (i + 1) as nat));
            i = i + 1;
        }
        names
    }

    /// The six input channels of a fresh workspace.
    pub fn default_input_channels(i18n: &I18n) -> (channels: Vec<InputChannel>)
        ensures
            channel_views(channels@) == default_channels(i18n@),
    {
        let mut channels: Vec<InputChannel> = Vec::new();
        let mut index: u32 = 0;
        while index < DEFAULT_INPUT_CHANNEL_COUNT
            invariant
                index <= DEFAULT_INPUT_CHANNEL_COUNT,
                channel_views(channels@) == default_channels(i18n@).take(index as int),
            decreases DEFAULT_INPUT_CHANNEL_COUNT - index,
        {
            let id = index + 1;
            let name = input_channel_name(i18n, id);
            let channel = InputChannel { id, name, source_node_id: None };
            let ghost before = channels@;
            channels.push(channel);
            assert(channel_views(channels@) =~= channel_views(before).push(channel@));
            assert(default_channels(i18n@)[index as int] == channel@);
            assert(channel_views(channels@) =~= default_channels(i18n@).take(index + 1));
            index = index + 1;
        }
        assert(default_channels(i18n@).take(index as int) =~= default_channels(i18n@));
        channels
    }

    /// A fresh workspace: the default channels, the default mix buses, no
    /// filter and the default visible-channel limit.
    pub fn new(i18n: &I18n) -> (workspace: MixerWorkspace)
        ensures
            workspace@.channels == default_channels(i18n@),
            workspace@.next_channel_id == DEFAULT_INPUT_CHANNEL_COUNT + 1,
            workspace@.node_filter.len() == 0,
            workspace@.visible_limit == MAX_VISIBLE_CHANNELS,
            workspace@.bus_count == DEFAULT_MIX_BUS_COUNT,
            workspace@.bus_names == bus_names(i18n@, DEFAULT_MIX_BUS_COUNT as nat),
    {
        let input_channels = Self::default_input_channels(i18n);
        let mix_bus_names = Self::default_mix_bus_names(i18n, DEFAULT_MIX_BUS_COUNT);
        MixerWorkspace {
            input_channels,
            next_input_channel_id: DEFAULT_INPUT_CHANNEL_COUNT + 1,
            node_filter: String::new(),
            visible_channel_limit: MAX_VISIBLE_CHANNELS,
            mix_bus_count: DEFAULT_MIX_BUS_COUNT,
            mix_bus_names,
        }
    }

    /// The input channels, in order.
    pub fn input_channels(&self) -> (channels: &Vec<InputChannel>)
        ensures
            channel_views(channels@) == self@.channels,
    {
        &self.input_channels
    }

    /// The filter text.
    pub fn node_filter(&self) -> (filter: &str)
        ensures
            filter@ == self@.node_filter,
    {
        self.node_filter.as_str()
    }

    /// Replaces the filter text.
    pub fn set_node_filter(&mut self, filter: String)
        ensures
            final(self)@ == (WorkspaceModel { node_filter: filter@, ..old(self)@ }),
    {
        self.node_filter = filter;
    }

    /// How many channels are shown at most.
    pub fn visible_channel_limit(&self) -> (limit: usize)
        ensures
            limit == self@.visible_limit,
    {
        self.visible_channel_limit
    }

    /// Sets the visible-channel limit, kept within 1 to 24.
    pub fn set_visible_channel_limit(&mut self, limit: usize)
        ensures
            final(self)@ == (WorkspaceModel {
                visible_limit: clamped(limit, 1, MAX_VISIBLE_CHANNEL_LIMIT),
                ..old(self)@
            }),
    {
        self.visible_channel_limit = if limit < 1 {
            1
        } else if limit > MAX_VISIBLE_CHANNEL_LIMIT {
            MAX_VISIBLE_CHANNEL_LIMIT
        } else {
            limit
        };
    }

    /// The number of mix buses.
    pub fn mix_bus_count(&self) -> (count: usize)
        ensures
            count == self@.bus_count,
    {
        self.mix_bus_count
    }

    /// The names of the mix buses.
    pub fn mix_bus_names(&self) -> (names: &Vec<String>)
        ensures
            views(names@) == self@.bus_names,
    {
        &self.mix_bus_names
    }

    /// Brings the bus names to one per mix bus: surplus names are dropped,
    /// missing ones get their default.
    pub fn sync_mix_bus_names(&mut self, i18n: &I18n)
        ensures
            final(self)@ == (WorkspaceModel {
                bus_names: resized_names(old(self)@.bus_names, old(self)@.bus_count as nat, i18n@),
                ..old(self)@
            }),
    {
        let target = self.mix_bus_count;
        let ghost start = self@.bus_names;
        if self.mix_bus_names.len() < target {
            let first = self.mix_bus_names.len();
            let mut bus_index = first;
            while bus_index < target
                invariant
                    first <= bus_index <= target,
                    first == start.len(),
                    self.mix_bus_count == target,
                    views(self.mix_bus_names@) == start + Seq::new(
                        (bus_index - first) as nat,
                        |i: int| bus_name(i18n@, (first + i) as nat),
                    ),
                    self.input_channels == old(self).input_channels,
                    self.next_input_channel_id == old(self).next_input_channel_id,
                    self.node_filter == old(self).node_filter,
                    self.visible_channel_limit == old(self).visible_channel_limit,
                decreases target - bus_index,
            {
                let name = Self::default_mix_bus_name(i18n, bus_index);
                let ghost before = self.mix_bus_names@;
                self.mix_bus_names.push(name);
                assert(views(self.mix_bus_names@) =~= views(before).push(name@));
                assert(views(self.mix_bus_names@) =~= start + Seq::new(
                    (bus_index + 1 - first) as nat,
                    |i: int| bus_name(i18n@, (first + i) as nat),
                ));
                bus_index = bus_index + 1;
            }
        }
        if self.mix_bus_names.len() > target {
            self.mix_bus_names.truncate(target);
        }
        assert(self@.bus_names =~= resized_names(start, target as nat, i18n@));
    }

    /// Sets the number of mix buses, kept within 1 to 8, and brings the bus
    /// names to match.
    pub fn set_mix_bus_count(&mut self, i18n: &I18n, count: usize)
        ensures
            final(self)@ == (WorkspaceModel {
                bus_count: clamped(count, 1, MAX_MIX_BUS_COUNT),
                bus_names: resized_names(
                    old(self)@.bus_names,
                    clamped(count, 1, MAX_MIX_BUS_COUNT) as nat,
                    i18n@,
                ),
                ..old(self)@
            }),
    {
        self.mix_bus_count = if count < 1 {
            1
        } else if count > MAX_MIX_BUS_COUNT {
            MAX_MIX_BUS_COUNT
        } else {
            count
        };
        self.sync_mix_bus_names(i18n);
    }

    /// The label of mix bus `bus_index`: its name, or its default name when
    /// it has none.
    pub fn mix_bus_label(&self, i18n: &I18n, bus_index: usize) -> (label: String)
        requires
            bus_index < usize::MAX,
        ensures
            label@ == (if bus_index < self@.bus_names.len() {
                self@.bus_names[bus_index as int]
            } else {
                bus_name(i18n@, bus_index as nat)
            }),
    {
        if bus_index < self.mix_bus_names.len() {
            self.mix_bus_names[bus_index].clone()
        } else {
            Self::default_mix_bus_name(i18n, bus_index)
        }
    }

    /// Appends an input channel with the next free id and its default name,
    /// fed from no node, and returns its id.
    pub fn add_input_channel(&mut self, i18n: &I18n) -> (id: u32)
        ensures
            id == old(self)@.next_channel_id,
            final(self)@ == (WorkspaceModel {
                channels: old(self)@.channels.push(
                    ChannelModel { id, name: input_name(i18n@, id as nat), source: None },
                ),
                next_channel_id: if id < u32::MAX {
                    (id + 1) as u32
                } else {
                    id
                },
                ..old(self)@
            }),
    {
        let id = self.next_input_channel_id;
        self.next_input_channel_id = if id < u32::MAX {
            id + 1
        } else {
            id
        };
        let name = input_channel_name(i18n, id);
        self.input_channels.push(InputChannel { id, name, source_node_id: None });
        assert(self@.channels =~= old(self)@.channels.push(
            ChannelModel { id, name: input_name(i18n@, id as nat), source: None },
        ));
        id
    }

    /// Feeds the first channel with id `channel_id` from `source_node_id`
    /// (nothing when `None`); returns whether such a channel exists.
    pub fn set_channel_source(&mut self, channel_id: u32, source_node_id: Option<u32>) -> (found:
        bool)
        ensures
            found == first_with_id(old(self)@.channels, channel_id) is Some,
            final(self)@ == (WorkspaceModel {
                channels: with_source(old(self)@.channels, channel_id, source_node_id),
                ..old(self)@
            }),
    {
        let ghost start = self@.channels;
        let mut i: usize = 0;
        while i < self.input_channels.len()
            invariant
                i <= self.input_channels@.len(),
                channel_views(self.input_channels@) == start,
                start == old(self)@.channels,
                self == old(self),
                forall|k: int| 0 <= k < i ==> #[trigger] start[k].id != channel_id,
            decreases self.input_channels.len() - i,
        {
            if self.input_channels[i].id == channel_id {
                proof {
                    assert(channel_views(self.input_channels@)[i as int] == start[i as int]);
                    assert(0 <= i < start.len() && start[i as int].id == channel_id && forall|k: int|
                        0 <= k < i ==> start[k].id != channel_id);
                    let j = first_with_id(start, channel_id)->0;
                    if j < i {
                        assert(start[j].id != channel_id);
                    }
                    if j > i {
                        assert(start[i as int].id != channel_id);
                    }
                    assert(first_with_id(start, channel_id) == Some(i as int));
                }
                let ghost before = self.input_channels@;
                let current = self.input_channels[i].duplicate();
                let updated = InputChannel { id: current.id, name: current.name, source_node_id };
                self.input_channels.set(i, updated);
                assert(channel_views(self.input_channels@) =~= channel_views(before).update(
                    i as int,
                    updated@,
                ));
                assert(self@ == (WorkspaceModel {
                    channels: with_source(start, channel_id, source_node_id),
                    ..old(self)@
                }));
                return true;
            }
            proof {
                assert(channel_views(self.input_channels@)[i as int] == start[i as int]);
            }
            i = i + 1;
        }
        assert(first_with_id(start, channel_id) is None);
        false
    }

    /// The nodes the channels take their signal from, in channel order.
    pub fn source_node_ids(&self) -> (ids: Vec<u32>)
        ensures
            ids@ == assigned_sources(self@.channels),
            ids@ == self@.channels.filter_map(|c: ChannelModel| c.source),
            forall|i: int|
                0 <= i < self@.channels.len() && (#[trigger] self@.channels[i]).source is Some
                    ==> ids@.contains(self@.channels[i].source->0),
            forall|x: u32|
                #[trigger] ids@.contains(x) ==> exists|i: int|
                    0 <= i < self@.channels.len() && (#[trigger] self@.channels[i]).source == Some(x),
    {
        proof {
            lemma_assigned_sources_lists_every_source(self@.channels);
        }
        let mut ids: Vec<u32> = Vec::new();
        let mut i: usize = 0;
        while i < self.input_channels.len()
            invariant
                i <= self.input_channels@.len(),
                ids@ == assigned_sources(self@.channels.take(i as int)),
            decreases self.input_channels.len() - i,
        {
            proof {
                assert(self@.channels.take(i + 1).drop_last() =~= self@.channels.take(i as int));
                assert(self@.channels.take(i + 1).last() == self.input_channels@[i as int]@);
            }
            match self.input_channels[i].source_node_id {
                Some(id) => ids.push(id),
                None => {},
            }
            i = i + 1;
        }
        assert(self@.channels.take(i as int) =~= self@.channels);
        ids
    }

    /// Gives the first channel without a source the default microphone, when
    /// one was found.
    pub fn apply_default_devices(&mut self, microphone: Option<u32>)
        ensures
            final(self)@ == (match (microphone, first_unassigned(old(self)@.channels)) {
                (Some(mic), Some(i)) => WorkspaceModel {
                    channels: old(self)@.channels.update(
                        i,
                        ChannelModel {
                            id: old(self)@.channels[i].id,
                            name: old(self)@.channels[i].name,
                            source: Some(mic),
                        },
                    ),
                    ..old(self)@
                },
                _ => old(self)@,
            }),
    {
        let mic = match microphone {
            Some(m) => m,
            None => return ,
        };
        let ghost start = self@.channels;
        let mut i: usize = 0;
        while i < self.input_channels.len()
            invariant
                i <= self.input_channels@.len(),
                channel_views(self.input_channels@) == start,
                start == old(self)@.channels,
                self == old(self),
                microphone == Some(mic),
                forall|k: int| 0 <= k < i ==> #[trigger] start[k].source is Some,
            decreases self.input_channels.len() - i,
        {
            if self.input_channels[i].source_node_id.is_none() {
                proof {
                    assert(channel_views(self.input_channels@)[i as int] == start[i as int]);
                    assert(start[i as int].source is None);
                    assert(0 <= i < start.len() && start[i as int].source is None && forall|k: int|
                        0 <= k < i ==> start[k].source is Some);
                    let j = first_unassigned(start)->0;
                    assert(0 <= j < start.len() && start[j].source is None);
                    if j < i {
                        assert(start[j].source is Some);
                    }
                    if j > i {
                        assert(start[i as int].source is Some);
                    }
                    assert(first_unassigned(start) == Some(i as int));
                }
                let ghost before = self.input_channels@;
                let current = self.input_channels[i].duplicate();
                let updated = InputChannel { id: current.id, name: current.name, source_node_id: Some(mic) };
                self.input_channels.set(i, updated);
                assert(channel_views(self.input_channels@) =~= channel_views(before).update(
                    i as int,
                    updated@,
                ));
                assert(self@.channels =~= start.update(
                    i as int,
                    ChannelModel { id: start[i as int].id, name: start[i as int].name, source: Some(mic) },
                ));
                assert(self@ == (WorkspaceModel {
                    channels: start.update(
                        i as int,
                        ChannelModel {
                            id: start[i as int].id,
                            name: start[i as int].name,
                            source: Some(mic),
                        },
                    ),
                    ..old(self)@
                }));
                return ;
            }
            i = i + 1;
        }
        assert(first_unassigned(start) is None);
    }

    /// The channels the view shows: those the trimmed, lower-cased filter
    /// text matches (by id, name or source label), at most as many as the
    /// visible-channel limit, in order.
    pub fn visible_input_channels(&self, i18n: &I18n, nodes: &[NodeChoice]) -> (visible: Vec<
        InputChannel,
    >)
        ensures
            channel_views(visible@) == visible_channels(
                i18n@,
                choice_views(nodes@),
                self@.channels,
                self@.node_filter,
                self@.visible_limit as nat,
            ),
            (forall|i: int|
                0 <= i < self@.node_filter.len() ==> is_white_space(#[trigger] self@.node_filter[i]))
                ==> channel_views(visible@) == first_n(self@.channels, self@.visible_limit as nat),
    {
        let trimmed_filter = trim(self.node_filter.as_str());
        let filter = to_lowercase(trimmed_filter.as_str());
        let ghost table = i18n@;
        let ghost choices = choice_views(nodes@);
        let ghost pred = |c: ChannelModel| channel_matches(table, choices, filter@, c);
        let mut visible: Vec<InputChannel> = Vec::new();
        let mut i: usize = 0;
        while i < self.input_channels.len()
            invariant
                i <= self.input_channels@.len(),
                table == i18n@,
                choices == choice_views(nodes@),
                filter@ == lowercase(trimmed(self@.node_filter)),
                pred == (|c: ChannelModel| channel_matches(table, choices, filter@, c)),
                channel_views(visible@) == first_n(
                    self@.channels.take(i as int).filter(pred),
                    self.visible_channel_limit as nat,
                ),
            decreases self.input_channels.len() - i,
        {
            let channel = &self.input_channels[i];
            let keep = if filter.as_str().is_empty() {
                true
            } else {
                let id_text = decimal_string(channel.id as u64);
                let lower_name = to_lowercase(channel.name.as_str());
                let label = source_label(i18n, nodes, channel.source_node_id);
                let lower_label = to_lowercase(label.as_str());
                contains(id_text.as_str(), filter.as_str()) || contains(
                    lower_name.as_str(),
                    filter.as_str(),
                ) || contains(lower_label.as_str(), filter.as_str())
            };
            let ghost before = self@.channels.take(i as int).filter(pred);
            proof {
                reveal_with_fuel(Seq::<_>::filter, 1);
                let t = self@.channels.take(i + 1);
                assert(t.drop_last() =~= self@.channels.take(i as int));
                assert(t.last() == channel@);
                assert(keep == pred(channel@));
                if keep {
                    assert(t.filter(pred) == before.push(channel@));
                } else {
                    assert(t.filter(pred) == before);
                }
            }
            if keep && visible.len() < self.visible_channel_limit {
                let ghost old_visible = visible@;
                visible.push(channel.duplicate());
                proof {
                    assert(first_n(before, self.visible_channel_limit as nat) == before);
                    assert(first_n(before.push(channel@), self.visible_channel_limit as nat)
                        =~= before.push(channel@));
                    assert(channel_views(visible@) =~= channel_views(old_visible).push(channel@));
                }
            } else if keep {
                assert(first_n(before.push(channel@), self.visible_channel_limit as nat) =~= first_n(
                    before,
                    self.visible_channel_limit as nat,
                ));
            }
            i = i + 1;
        }
        assert(self@.channels.take(i as int) =~= self@.channels);
        proof {
            if forall|i: int|
                0 <= i < self@.node_filter.len() ==> is_white_space(#[trigger] self@.node_filter[i]) {
                lemma_blank_trims_to_empty(self@.node_filter);
                lemma_visible_channels(
                    i18n@,
                    choice_views(nodes@),
                    self@.channels,
                    self@.node_filter,
                    self.visible_channel_limit as nat,
                );
            }
        }
        visible
    }
}


/// Every channel id differs from the others and is below `next_id`.
pub open spec fn ids_fresh(channels: Seq<ChannelModel>, next_id: u32) -> bool {
    &&& forall|i: int| 0 <= i < channels.len() ==> #[trigger] channels[i].id < next_id
    &&& forall|i: int, j: int|
        0 <= i < j < channels.len() ==> #[trigger] channels[i].id != #[trigger] channels[j].id
}

/// A fresh workspace has distinct channel ids, all below the next id.
pub proof fn lemma_default_channels_fresh(table: Map<Seq<char>, Seq<char>>)
    ensures
        ids_fresh(default_channels(table), (DEFAULT_INPUT_CHANNEL_COUNT + 1) as u32),
{
}

/// Adding a channel keeps the ids distinct while the id counter has not
/// reached its maximum.
pub proof fn lemma_add_channel_keeps_ids_fresh(
    channels: Seq<ChannelModel>,
    next_id: u32,
    name: Seq<char>,
)
    requires
        ids_fresh(channels, next_id),
        next_id < u32::MAX,
    ensures
        ids_fresh(
            channels.push(ChannelModel { id: next_id, name, source: None }),
            (next_id + 1) as u32,
        ),
{
    let grown = channels.push(ChannelModel { id: next_id, name, source: None });
    assert forall|i: int, j: int| 0 <= i < j < grown.len() implies grown[i].id != grown[j].id by {
        if j == channels.len() {
            assert(channels[i].id < next_id);
        }
    }
}

/// After the names are brought in line there is exactly one name per bus,
/// the names that existed keep their place, and new buses get defaults.
pub proof fn lemma_resized_names_shape(
    names: Seq<Seq<char>>,
    count: nat,
    table: Map<Seq<char>, Seq<char>>,
)
    ensures
        resized_names(names, count, table).len() == count,
        forall|i: int|
            0 <= i < count ==> #[trigger] resized_names(names, count, table)[i] == (if i
                < names.len() {
                names[i]
            } else {
                bus_name(table, i as nat)
            }),
{
}

/// A filter keeps everything when its predicate holds for every item.
proof fn lemma_filter_all<A>(s: Seq<A>, pred: spec_fn(A) -> bool)
    requires
        forall|x: A| #[trigger] pred(x),
    ensures
        s.filter(pred) == s,
    decreases s.len(),
{
    reveal_with_fuel(Seq::<_>::filter, 1);
    if s.len() > 0 {
        lemma_filter_all(s.drop_last(), pred);
        assert(s.drop_last().push(s.last()) =~= s);
    }
}

/// The view never shows more channels than the limit, shows only channels
/// of the workspace, and with an empty filter shows the first channels up
/// to the limit.
pub proof fn lemma_visible_channels(
    table: Map<Seq<char>, Seq<char>>,
    nodes: Seq<(u32, Seq<char>)>,
    channels: Seq<ChannelModel>,
    filter_text: Seq<char>,
    limit: nat,
)
    ensures
        visible_channels(table, nodes, channels, filter_text, limit).len() <= limit,
        visible_channels(table, nodes, channels, filter_text, limit).len() <= channels.len(),
        forall|i: int|
            0 <= i < visible_channels(table, nodes, channels, filter_text, limit).len()
                ==> channels.contains(
                #[trigger] visible_channels(table, nodes, channels, filter_text, limit)[i],
            ),
        lowercase(trimmed(filter_text)).len() == 0 ==> visible_channels(
            table,
            nodes,
            channels,
            filter_text,
            limit,
        ) == first_n(channels, limit),
{
    let filter = lowercase(trimmed(filter_text));
    let pred = |c: ChannelModel| channel_matches(table, nodes, filter, c);
    let kept = channels.filter(pred);
    kept.lemma_filter_len(pred);
    let shown = visible_channels(table, nodes, channels, filter_text, limit);
    assert forall|i: int| 0 <= i < shown.len() implies channels.contains(#[trigger] shown[i]) by {
        assert(shown[i] == kept[i]);
        assert(kept.contains(kept[i]));
        crate::meters::lemma_filter_contains_iff(channels, pred, kept[i]);
    }
    if filter.len() == 0 {
        lemma_filter_all(channels, pred);
    }
}

} // verus!
