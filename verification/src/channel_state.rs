//! Per-channel strip state (level, mute, one send per mix bus) and the
//! store that keeps it by channel id.
//!
//! The level type `L` is a parameter: the desktop front end stores gains as
//! 32-bit floats, while the logic here only moves, resizes and selects them.

use std::collections::BTreeMap;
use vstd::prelude::*;

verus! {

broadcast use vstd::std_specs::btree::group_btree_axioms;

/// How many input channels the channel rack shows at most by default.
pub const MAX_VISIBLE_CHANNELS: usize = 10;

/// Number of mix buses a fresh workspace starts with (monitor and stream).
pub const DEFAULT_MIX_BUS_COUNT: usize = 2;

/// Upper bound on the number of mix buses.
pub const MAX_MIX_BUS_COUNT: usize = 8;

/// Mathematical picture of one channel strip.
pub struct StripModel<L> {
    pub level: L,
    pub muted: bool,
    pub sends: Seq<L>,
}

/// Level, mute flag and one send level per mix bus of one input channel.
#[derive(Clone, Debug)]
pub struct ChannelStripState<L> {
    pub level: L,
    pub muted: bool,
    pub sends: Vec<L>,
}

impl<L> View for ChannelStripState<L> {
    type V = StripModel<L>;

    open spec fn view(&self) -> StripModel<L> {
        StripModel { level: self.level, muted: self.muted, sends: self.sends@ }
    }
}

/// The sends of `sends` brought to the length of `defaults`: cut when too
/// long, padded with the matching tail of `defaults` when too short.
pub open spec fn resized_sends<L>(sends: Seq<L>, defaults: Seq<L>) -> Seq<L> {
    if sends.len() >= defaults.len() {
        sends.take(defaults.len() as int)
    } else {
        sends + defaults.skip(sends.len() as int)
    }
}

/// A stored strip brought in line with the bus layout that `defaults` has.
pub open spec fn normalized<L>(state: StripModel<L>, defaults: StripModel<L>) -> StripModel<L> {
    StripModel {
        level: state.level,
        muted: state.muted,
        sends: resized_sends(state.sends, defaults.sends),
    }
}

/// The strip that a store with contents `m` yields for `node_id` when asked
/// with `defaults`: the stored one normalized, or the defaults.
pub open spec fn strip_or_defaults<L>(
    m: Map<u32, StripModel<L>>,
    node_id: u32,
    defaults: StripModel<L>,
) -> StripModel<L> {
    if m.contains_key(node_id) {
        normalized(m[node_id], defaults)
    } else {
        defaults
    }
}

/// The contents after `ensure_defaults(node_id, defaults)`.
pub open spec fn with_defaults<L>(
    m: Map<u32, StripModel<L>>,
    node_id: u32,
    defaults: StripModel<L>,
) -> Map<u32, StripModel<L>> {
    m.insert(node_id, strip_or_defaults(m, node_id, defaults))
}

/// The contents after `ensure_defaults` for each (id, defaults) pair of
/// `entries`, in order.
pub open spec fn with_all_defaults<L>(
    m: Map<u32, StripModel<L>>,
    entries: Seq<(u32, StripModel<L>)>,
) -> Map<u32, StripModel<L>>
    decreases entries.len(),
{
    if entries.len() == 0 {
        m
    } else {
        let last = entries.last();
        with_defaults(with_all_defaults(m, entries.drop_last()), last.0, last.1)
    }
}

/// The views of (id, strip) pairs.
pub open spec fn entry_models<L>(entries: Seq<(u32, ChannelStripState<L>)>) -> Seq<(u32, StripModel<L>)> {
    entries.map_values(|e: (u32, ChannelStripState<L>)| (e.0, e.1@))
}

/// Whether every strip of `entries` has the same number of sends.
pub open spec fn same_bus_count<L>(entries: Seq<(u32, StripModel<L>)>) -> bool {
    forall|i: int, j: int|
        0 <= i < entries.len() && 0 <= j < entries.len() ==> (#[trigger] entries[i]).1.sends.len()
            == (#[trigger] entries[j]).1.sends.len()
}

/// When every defaults strip has `bus_count` sends, ensuring defaults for
/// all pairs leaves every listed channel with a strip of `bus_count` sends,
/// and a channel that had a strip keeps its level and mute flag.
pub proof fn lemma_all_defaults_bus_count<L>(
    m: Map<u32, StripModel<L>>,
    entries: Seq<(u32, StripModel<L>)>,
    bus_count: nat,
)
    requires
        forall|i: int| 0 <= i < entries.len() ==> (#[trigger] entries[i]).1.sends.len() == bus_count,
    ensures
        forall|i: int|
            0 <= i < entries.len() ==> with_all_defaults(m, entries).contains_key(
                (#[trigger] entries[i]).0,
            ) && with_all_defaults(m, entries)[entries[i].0].sends.len() == bus_count,
        forall|id: u32|
            m.contains_key(id) ==> #[trigger] with_all_defaults(m, entries).contains_key(id)
                && with_all_defaults(m, entries)[id].level == m[id].level && with_all_defaults(
                m,
                entries,
            )[id].muted == m[id].muted,
    decreases entries.len(),
{
    if entries.len() > 0 {
        let rest = entries.drop_last();
        assert forall|i: int| 0 <= i < rest.len() implies (#[trigger] rest[i]).1.sends.len() == bus_count by {
            assert(rest[i] == entries[i]);
        }
        lemma_all_defaults_bus_count(m, rest, bus_count);
        let before = with_all_defaults(m, rest);
        let last = entries.last();
        lemma_ensure_defaults_stable(before, last.0, last.1);
        if before.contains_key(last.0) {
            lemma_normalized_shape(before[last.0], last.1);
        }
        assert forall|i: int|
            0 <= i < entries.len() implies with_all_defaults(m, entries).contains_key(
                (#[trigger] entries[i]).0,
            ) && with_all_defaults(m, entries)[entries[i].0].sends.len() == bus_count by {
            if i < rest.len() {
                assert(rest[i] == entries[i]);
                if entries[i].0 != last.0 {
                    assert(before.contains_key(rest[i].0));
                }
            }
        }
    }
}

/// What a strip sends to bus `bus_index`: nothing when it is muted, else
/// its level combined with the bus send (`silent` for a missing send).
pub open spec fn strip_mix_inputs<L>(state: StripModel<L>, bus_index: int, silent: L) -> Option<(L, L)> {
    if state.muted {
        None
    } else if 0 <= bus_index < state.sends.len() {
        Some((state.level, state.sends[bus_index]))
    } else {
        Some((state.level, silent))
    }
}

/// A stored strip, read back with any defaults, keeps its level and mute
/// flag and has exactly one send per bus of the defaults: its own sends for
/// the buses it had, the defaults' sends for the buses it lacked.
pub proof fn lemma_normalized_shape<L>(state: StripModel<L>, defaults: StripModel<L>)
    ensures
        normalized(state, defaults).level == state.level,
        normalized(state, defaults).muted == state.muted,
        normalized(state, defaults).sends.len() == defaults.sends.len(),
        forall|i: int|
            0 <= i < defaults.sends.len() ==> #[trigger] normalized(state, defaults).sends[i] == (
            if i < state.sends.len() {
                state.sends[i]
            } else {
                defaults.sends[i]
            }),
{
}

/// Normalizing twice against the same defaults changes nothing more.
pub proof fn lemma_normalized_idempotent<L>(state: StripModel<L>, defaults: StripModel<L>)
    ensures
        normalized(normalized(state, defaults), defaults) == normalized(state, defaults),
{
    let once = normalized(state, defaults);
    assert(resized_sends(once.sends, defaults.sends) =~= once.sends);
}

/// What was stored for a channel is what the next load returns, brought to
/// the bus layout of the defaults of that load.
pub proof fn lemma_load_after_store<L>(
    m: Map<u32, StripModel<L>>,
    node_id: u32,
    state: StripModel<L>,
    defaults: StripModel<L>,
)
    ensures
        strip_or_defaults(m.insert(node_id, state), node_id, defaults) == normalized(state, defaults),
{
}

/// A channel that has no strip yet is given exactly the defaults.
pub proof fn lemma_first_load_gives_defaults<L>(
    m: Map<u32, StripModel<L>>,
    node_id: u32,
    defaults: StripModel<L>,
)
    requires
        !m.contains_key(node_id),
    ensures
        strip_or_defaults(m, node_id, defaults) == defaults,
        with_defaults(m, node_id, defaults)[node_id] == defaults,
{
}

/// Ensuring defaults twice with the same defaults is the same as once, it
/// never changes the level or mute flag of a channel that has a strip, and
/// it leaves every other channel as it was.
pub proof fn lemma_ensure_defaults_stable<L>(
    m: Map<u32, StripModel<L>>,
    node_id: u32,
    defaults: StripModel<L>,
)
    ensures
        with_defaults(with_defaults(m, node_id, defaults), node_id, defaults) == with_defaults(
            m,
            node_id,
            defaults,
        ),
        with_defaults(m, node_id, defaults).contains_key(node_id),
        m.contains_key(node_id) ==> with_defaults(m, node_id, defaults)[node_id].level
            == m[node_id].level && with_defaults(m, node_id, defaults)[node_id].muted
            == m[node_id].muted,
        forall|other: u32|
            other != node_id ==> (#[trigger] with_defaults(m, node_id, defaults).contains_key(other)
                == m.contains_key(other)) && (m.contains_key(other) ==> with_defaults(
                m,
                node_id,
                defaults,
            )[other] == m[other]),
{
    if m.contains_key(node_id) {
        lemma_normalized_idempotent(m[node_id], defaults);
    } else {
        assert(resized_sends(defaults.sends, defaults.sends) =~= defaults.sends);
        assert(normalized(defaults, defaults) == defaults);
    }
    assert(with_defaults(with_defaults(m, node_id, defaults), node_id, defaults) =~= with_defaults(
        m,
        node_id,
        defaults,
    ));
}

/// A muted strip sends nothing to any bus.
pub proof fn lemma_muted_strip_is_silent<L>(state: StripModel<L>, bus_index: int, silent: L)
    requires
        state.muted,
    ensures
        strip_mix_inputs(state, bus_index, silent) is None,
{
}

impl<L: Copy> ChannelStripState<L> {
    /// A copy with the same level, mute flag and sends.
    pub fn duplicate(&self) -> (copy: Self)
        ensures
            copy@ == self@,
    {
        let mut sends: Vec<L> = Vec::new();
        let mut i: usize = 0;
        while i < self.sends.len()
            invariant
                i <= self.sends.len(),
                sends@ == self.sends@.take(i as int),
            decreases self.sends.len() - i,
        {
            sends.push(self.sends[i]);
            i = i + 1;
        }
        assert(sends@ =~= self.sends@);
        ChannelStripState { level: self.level, muted: self.muted, sends }
    }

    /// The value the channel meter shows: `silent` when muted, else the level.
    pub fn meter_value(&self, silent: L) -> (value: L)
        ensures
            value == (if self.muted { silent } else { self.level }),
    {
        if self.muted {
            silent
        } else {
            self.level
        }
    }

    /// This strip with its sends resized to the bus layout of `defaults`;
    /// level and mute flag are kept.
    pub fn normalized_with(&self, defaults: &ChannelStripState<L>) -> (state: ChannelStripState<L>)
        ensures
            state@ == normalized(self@, defaults@),
    {
        let target_len = defaults.sends.len();
        let mut sends: Vec<L> = Vec::new();
        let mut i: usize = 0;
        while i < target_len
            invariant
                target_len == defaults.sends.len(),
                i <= target_len,
                sends@ == resized_sends(self.sends@, defaults.sends@).take(i as int),
            decreases target_len - i,
        {
            if i < self.sends.len() {
                sends.push(self.sends[i]);
            } else {
                sends.push(defaults.sends[i]);
            }
            i = i + 1;
        }
        assert(resized_sends(self.sends@, defaults.sends@).len() == target_len);
        assert(sends@ =~= resized_sends(self.sends@, defaults.sends@));
        ChannelStripState { level: self.level, muted: self.muted, sends }
    }
}

/// Send levels for `bus_count` buses: `first` for the first bus, `second`
/// for the second, `rest` for every further one.
pub fn default_sends<L: Copy>(bus_count: usize, first: L, second: L, rest: L) -> (sends: Vec<L>)
    ensures
        sends@.len() == bus_count,
        forall|i: int|
            0 <= i < bus_count ==> #[trigger] sends@[i] == (if i == 0 {
                first
            } else if i == 1 {
                second
            } else {
                rest
            }),
{
    let mut sends: Vec<L> = Vec::new();
    let mut i: usize = 0;
    while i < bus_count
        invariant
            i <= bus_count,
            sends@.len() == i,
            forall|j: int|
                0 <= j < i ==> #[trigger] sends@[j] == (if j == 0 {
                    first
                } else if j == 1 {
                    second
                } else {
                    rest
                }),
        decreases bus_count - i,
    {
        if i == 0 {
            sends.push(first);
        } else if i == 1 {
            sends.push(second);
        } else {
            sends.push(rest);
        }
        i = i + 1;
    }
    sends
}

/// Channel strips by channel id.
pub struct ChannelStateStore<L> {
    channels: BTreeMap<u32, ChannelStripState<L>>,
}

impl<L> View for ChannelStateStore<L> {
    type V = Map<u32, StripModel<L>>;

    closed spec fn view(&self) -> Map<u32, StripModel<L>> {
        self.channels@.map_values(|s: ChannelStripState<L>| s@)
    }
}

impl<L: Copy> ChannelStateStore<L> {
    /// An empty store.
    pub fn new() -> (store: Self)
        ensures
            store@ == Map::<u32, StripModel<L>>::empty(),
    {
        let store = ChannelStateStore { channels: BTreeMap::new() };
        assert(store@ =~= Map::<u32, StripModel<L>>::empty());
        store
    }

    /// Gives `node_id` the `defaults` when it has no strip yet, and brings an
    /// existing strip to the bus layout of `defaults` otherwise.
    pub fn ensure_defaults(&mut self, node_id: u32, defaults: ChannelStripState<L>)
        ensures
            final(self)@ == with_defaults(old(self)@, node_id, defaults@),
    {
        let next = match self.channels.get(&node_id) {
            Some(state) => state.normalized_with(&defaults),
            None => defaults,
        };
        self.channels.insert(node_id, next);
        assert(self@ =~= with_defaults(old(self)@, node_id, defaults@));
    }

    /// The strip of `node_id` after `ensure_defaults(node_id, defaults)`.
    pub fn load_or_default(&mut self, node_id: u32, defaults: ChannelStripState<L>) -> (state:
        ChannelStripState<L>)
        ensures
            state@ == strip_or_defaults(old(self)@, node_id, defaults@),
            final(self)@ == with_defaults(old(self)@, node_id, defaults@),
    {
        let state = match self.channels.get(&node_id) {
            Some(stored) => stored.normalized_with(&defaults),
            None => defaults,
        };
        self.channels.insert(node_id, state.duplicate());
        assert(self@ =~= with_defaults(old(self)@, node_id, defaults@));
        state
    }

    /// Runs `ensure_defaults` for every (id, defaults) pair of `entries`, in
    /// order. When every defaults strip has the same number of sends, every
    /// listed channel ends with a strip of exactly that many sends.
    pub fn ensure_defaults_for_all(&mut self, entries: Vec<(u32, ChannelStripState<L>)>)
        ensures
            final(self)@ == with_all_defaults(old(self)@, entry_models(entries@)),
            same_bus_count(entry_models(entries@)) ==> forall|i: int|
                0 <= i < entries@.len() ==> final(self)@.contains_key((#[trigger] entries@[i]).0)
                    && final(self)@[entries@[i].0].sends.len() == entries@[i].1@.sends.len(),
    {
        let ghost models = entry_models(entries@);
        let ghost start = self@;
        let ghost all = entries@;
        let mut i: usize = 0;
        while i < entries.len()
            invariant
                i <= entries.len(),
                entries@ == all,
                models == entry_models(all),
                self@ == with_all_defaults(start, entry_models(all.take(i as int))),
            decreases entries.len() - i,
        {
            let node_id = entries[i].0;
            let defaults = entries[i].1.duplicate();
            self.ensure_defaults(node_id, defaults);
            proof {
                let next = entry_models(all.take(i + 1));
                assert(next.drop_last() =~= entry_models(all.take(i as int)));
                assert(next.last() == (all[i as int].0, all[i as int].1@));
            }
            i = i + 1;
        }
        proof {
            assert(all.take(i as int) =~= all);
            if same_bus_count(models) && models.len() > 0 {
                let bus_count = models[0].1.sends.len();
                assert forall|k: int| 0 <= k < models.len() implies (#[trigger] models[k]).1.sends.len()
                    == bus_count by {
                    assert(models[k].1.sends.len() == models[0].1.sends.len());
                }
                lemma_all_defaults_bus_count(start, models, bus_count);
                assert forall|k: int| 0 <= k < all.len() implies self@.contains_key(
                    (#[trigger] all[k]).0,
                ) && self@[all[k].0].sends.len() == all[k].1@.sends.len() by {
                    assert(models[k] == (all[k].0, all[k].1@));
                }
            }
        }
    }

    /// Replaces the strip of `node_id` by `state`.
    pub fn store(&mut self, node_id: u32, state: ChannelStripState<L>)
        ensures
            final(self)@ == old(self)@.insert(node_id, state@),
    {
        self.channels.insert(node_id, state);
        assert(self@ =~= old(self)@.insert(node_id, state@));
    }

    /// What channel `node_id` contributes to bus `bus_index`: `silent` when
    /// the channel has no strip or is muted, else `combine(level, send)`,
    /// with `silent` standing for a send the strip does not have.
    pub fn effective_mix<F: Fn(L, L) -> L>(
        &self,
        node_id: u32,
        bus_index: usize,
        silent: L,
        combine: F,
    ) -> (mix: L)
        requires
            forall|a: L, b: L| call_requires(combine, (a, b)),
        ensures
            !self@.contains_key(node_id) ==> mix == silent,
            self@.contains_key(node_id) ==> match strip_mix_inputs(
                self@[node_id],
                bus_index as int,
                silent,
            ) {
                None => mix == silent,
                Some((level, send)) => call_ensures(combine, (level, send), mix),
            },
    {
        match self.channels.get(&node_id) {
            None => silent,
            Some(state) => {
                let send = if bus_index < state.sends.len() {
                    state.sends[bus_index]
                } else {
                    silent
                };
                if state.muted {
                    silent
                } else {
                    combine(state.level, send)
                }
            },
        }
    }
}

} // verus!
