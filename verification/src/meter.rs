//! Peak levels shared between the audio callback and the UI, and which
//! channels have real metering.

use vstd::prelude::*;
use std::collections::HashMap;
use std::sync::Arc;
use std::sync::atomic::AtomicU32;

verus! {

/// Thread-safe meter levels: the left and right peak (as the bit patterns
/// of `f32` values) and whether any audio has arrived. Each field is
/// updated with relaxed atomic operations, so a reader may see any value a
/// writer stored; nothing is promised about the values read.
#[derive(Debug)]
pub struct AtomicMeterLevels {
    peak_left: AtomicU32,
    peak_right: AtomicU32,
    active: AtomicU32,
}

impl AtomicMeterLevels {
    /// Create new meter levels initialized to zero and inactive. The atomics'
    /// contents are not visible to contracts, so the zeros are not stated.
    pub fn new() -> (r: Self) {
        AtomicMeterLevels { peak_left: AtomicU32::new(0), peak_right: AtomicU32::new(0), active: AtomicU32::new(0) }
    }

    /// Store peak levels given as `f32` bit patterns, and mark the meter active.
    pub fn store_bits(&self, left_bits: u32, right_bits: u32) {
        self.peak_left.store(left_bits, std::sync::atomic::Ordering::Relaxed);
        self.peak_right.store(right_bits, std::sync::atomic::Ordering::Relaxed);
        self.active.store(1, std::sync::atomic::Ordering::Relaxed);
    }

    /// Load the peak levels as `f32` bit patterns: whatever some thread stored
    /// last, which no contract can name.
    pub fn load_bits(&self) -> (r: (u32, u32)) {
        let left = self.peak_left.load(std::sync::atomic::Ordering::Relaxed);
        let right = self.peak_right.load(std::sync::atomic::Ordering::Relaxed);
        (left, right)
    }

    /// Check if this meter is active (has received audio since the last reset);
    /// the flag is shared with other threads and not stated.
    pub fn is_active(&self) -> (r: bool) {
        self.active.load(std::sync::atomic::Ordering::Relaxed) != 0
    }

    /// Reset to zero levels and the inactive state.
    pub fn reset(&self) {
        self.peak_left.store(0, std::sync::atomic::Ordering::Relaxed);
        self.peak_right.store(0, std::sync::atomic::Ordering::Relaxed);
        self.active.store(0, std::sync::atomic::Ordering::Relaxed);
    }
}

impl Default for AtomicMeterLevels {
    fn default() -> (r: Self) {
        AtomicMeterLevels::new()
    }
}

/// Per-channel meter state tracking.
#[derive(Debug, Clone)]
pub struct ChannelMeterState {
    /// Real-time atomic levels from the audio thread, if registered.
    pub real_levels: Option<Arc<AtomicMeterLevels>>,
}

impl Default for ChannelMeterState {
    fn default() -> (r: Self)
        ensures
            r.real_levels is None,
    {
        ChannelMeterState { real_levels: None }
    }
}

/// Which channels (by the 128-bit value of their UUID) have real levels.
#[derive(Debug)]
pub struct MeterManager {
    channel_states: HashMap<u128, ChannelMeterState>,
}

impl MeterManager {
    /// The channel states, by channel id.
    pub closed spec fn states(&self) -> Map<u128, ChannelMeterState> {
        self.channel_states@
    }

    /// Whether a channel has real levels registered.
    pub open spec fn has_real_spec(&self, channel_id: u128) -> bool {
        self.states().contains_key(channel_id) && self.states()[channel_id].real_levels is Some
    }

    /// Create a manager that knows no channel.
    pub fn new() -> (r: Self)
        ensures
            r.states() == Map::<u128, ChannelMeterState>::empty(),
    {
        MeterManager { channel_states: HashMap::new() }
    }

    /// Register real-time levels for a channel.
    pub fn register_real_levels(&mut self, channel_id: u128, levels: Arc<AtomicMeterLevels>)
        ensures
            final(self).states() == old(self).states().insert(channel_id, ChannelMeterState { real_levels: Some(levels) }),
    {
        self.channel_states.insert(channel_id, ChannelMeterState { real_levels: Some(levels) });
    }

    /// Unregister real-time levels for a channel (a channel not known stays unknown).
    pub fn unregister_real_levels(&mut self, channel_id: u128)
        ensures
            old(self).states().contains_key(channel_id) ==> final(self).states() == old(self).states().insert(
                channel_id, ChannelMeterState { real_levels: None }),
            !old(self).states().contains_key(channel_id) ==> final(self).states() == old(self).states(),
    {
        if self.channel_states.contains_key(&channel_id) {
            self.channel_states.insert(channel_id, ChannelMeterState { real_levels: None });
        }
    }

    /// Keeps a state for exactly the given channels: a channel already known
    /// keeps its state, a new one gets the default state, and channels not
    /// listed are dropped (what a meter update does to the channel states).
    pub fn track_channels(&mut self, channel_ids: &[u128])
        ensures
            final(self).states().dom() == channel_ids@.to_set(),
            forall|id: u128| #[trigger] channel_ids@.contains(id) ==> final(self).states()[id] == (
                if old(self).states().contains_key(id) {
                    old(self).states()[id]
                } else {
                    ChannelMeterState { real_levels: None }
                }),
    {
        let mut kept: HashMap<u128, ChannelMeterState> = HashMap::new();
        let ghost old_states = self.channel_states@;
        let mut i: usize = 0;
        while i < channel_ids.len()
            invariant
                i <= channel_ids.len(),
                kept@.dom() == channel_ids@.take(i as int).to_set(),
                forall|id: u128| #[trigger] kept@.contains_key(id) ==> kept@[id] == (
                    if old_states.contains_key(id) {
                        old_states[id]
                    } else {
                        ChannelMeterState { real_levels: None }
                    }),
                forall|id: u128| #[trigger] self.channel_states@.contains_key(id) ==> !kept@.contains_key(id)
                    && old_states.contains_key(id) && self.channel_states@[id] == old_states[id],
                forall|id: u128| old_states.contains_key(id) && !kept@.contains_key(id)
                    ==> #[trigger] self.channel_states@.contains_key(id),
            decreases channel_ids.len() - i,
        {
            let id = channel_ids[i];
            proof {
                assert(channel_ids@.take(i + 1) =~= channel_ids@.take(i as int).push(id));
                channel_ids@.take(i as int).lemma_push_to_set_commute(id);
                assert(channel_ids@.take(i as int).push(id).to_set() =~= channel_ids@.take(i as int).to_set().insert(id));
            }
            if !kept.contains_key(&id) {
                match self.channel_states.remove(&id) {
                    Some(state) => {
                        kept.insert(id, state);
                    },
                    None => {
                        kept.insert(id, ChannelMeterState { real_levels: None });
                    },
                }
            }
            i += 1;
        }
        proof {
            assert(channel_ids@.take(channel_ids.len() as int) =~= channel_ids@);
            assert forall|id: u128| #[trigger] channel_ids@.contains(id) implies kept@.contains_key(id) by {
                assert(channel_ids@.to_set().contains(id));
            }
        }
        self.channel_states = kept;
    }

    /// Check if a channel has real metering enabled.
    pub fn has_real_metering(&self, channel_id: u128) -> (r: bool)
        ensures
            r == self.has_real_spec(channel_id),
    {
        match self.channel_states.get(&channel_id) {
            Some(s) => s.real_levels.is_some(),
            None => false,
        }
    }
}


/// What registration reads back: right after `register_real_levels` a
/// channel has real metering, right after `unregister_real_levels` it has
/// not, and other channels are unaffected by either.
pub proof fn law_registration_reads_back(m: Map<u128, ChannelMeterState>, id: u128, other: u128, levels: Arc<AtomicMeterLevels>)
    requires
        other != id,
    ensures
        m.insert(id, ChannelMeterState { real_levels: Some(levels) }).contains_key(id),
        m.insert(id, ChannelMeterState { real_levels: Some(levels) })[id].real_levels is Some,
        m.insert(id, ChannelMeterState { real_levels: None })[id].real_levels is None,
        m.insert(id, ChannelMeterState { real_levels: Some(levels) }).contains_key(other) == m.contains_key(other),
        m.contains_key(other) ==> m.insert(id, ChannelMeterState { real_levels: Some(levels) })[other] == m[other],
{
}

} // verus!
