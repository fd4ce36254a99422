//! The plugin chains of the channels: adding a loaded plugin, removing,
//! moving and bypassing one, with the processor and filter bookkeeping that
//! follows and the commands the program then sends to the PipeWire thread.

use vstd::prelude::*;
use crate::plugin_manager::{ChannelPluginProcessor, PluginFilterManager, PluginFilterStream, PluginProcessorManager};

verus! {

/// A plugin in a channel's chain, as saved with the configuration.
#[derive(Debug, Clone, PartialEq)]
pub struct PluginSlot {
    pub plugin_id: String,
    pub bypassed: bool,
}

/// A channel's plugins: the running instances and their saved slots, in
/// processing order.
#[derive(Debug, Clone)]
pub struct ChannelPlugins {
    pub channel_id: u128,
    pub name: String,
    pub instances: Vec<u128>,
    pub chain: Vec<PluginSlot>,
}

/// The plugin state of all channels.
pub struct PluginChainModel {
    pub channels: Vec<ChannelPlugins>,
    pub processor: PluginProcessorManager,
    pub filters: PluginFilterManager,
}

/// A change of a plugin chain.
#[derive(Debug, Clone)]
pub enum PluginEvent {
    /// A plugin was loaded for a channel: channel, plugin id, instance.
    PluginLoaded(u128, String, u128),
    /// Remove an instance from a channel.
    RemovePlugin(u128, u128),
    /// Move an instance one place: towards the start for a negative
    /// direction, towards the end otherwise.
    MovePlugin(u128, u128, i32),
    ToggleBypass(u128, u128),
}

/// What the program does after a plugin event.
#[derive(Debug, Clone, PartialEq)]
pub enum PluginAction {
    /// Create the channel's plugin filter stream: channel, name, instances.
    CreatePluginFilter(u128, String, Vec<u128>),
    /// Give the channel's filter stream its new chain.
    UpdatePluginChain(u128, Vec<u128>),
    DestroyPluginFilter(u128),
    /// Unload a plugin instance.
    UnloadPlugin(u128),
}

/// `pos` is the first channel with id `ch`.
pub open spec fn first_plugin_channel(chs: Seq<ChannelPlugins>, ch: u128, pos: int) -> bool {
    &&& 0 <= pos < chs.len()
    &&& chs[pos].channel_id == ch
    &&& forall|k: int| 0 <= k < pos ==> (#[trigger] chs[k]).channel_id != ch
}

/// No channel has id `ch`.
pub open spec fn no_plugin_channel(chs: Seq<ChannelPlugins>, ch: u128) -> bool {
    forall|k: int| 0 <= k < chs.len() ==> (#[trigger] chs[k]).channel_id != ch
}

/// `idx` is the first place of instance `inst`.
pub open spec fn first_instance(v: Seq<u128>, inst: u128, idx: int) -> bool {
    &&& 0 <= idx < v.len()
    &&& v[idx] == inst
    &&& forall|k: int| 0 <= k < idx ==> v[k] != inst
}

/// Where a move takes the plugin at `idx` of a chain of `len`: one place
/// towards the start (not before the first), or towards the end (not past
/// the last).
pub open spec fn moved_index(idx: int, len: int, dir: i32) -> int {
    if dir < 0 {
        if idx > 0 {
            idx - 1
        } else {
            0
        }
    } else if idx + 1 < len {
        idx + 1
    } else if len > 0 {
        len - 1
    } else {
        0
    }
}

/// `v` with the entries at `i` and `j` exchanged.
pub open spec fn swapped<T>(v: Seq<T>, i: int, j: int) -> Seq<T> {
    v.update(i, v[j]).update(j, v[i])
}

/// The processors after the chain of channel `ch` is set to `instances`:
/// the channel has a processor (its nodes kept), active exactly when the
/// chain is not empty; the others are unchanged.
pub open spec fn chain_set(
    before: Map<u128, ChannelPluginProcessor>,
    after: Map<u128, ChannelPluginProcessor>,
    ch: u128,
    instances: Seq<u128>,
) -> bool {
    &&& after.dom() == before.dom().insert(ch)
    &&& forall|k: u128| k != ch && before.contains_key(k) ==> after[k] == before[k]
    &&& after[ch].plugin_instances@ == instances
    &&& after[ch].active == (instances.len() > 0)
    &&& before.contains_key(ch) ==> {
        &&& after[ch].channel_id == before[ch].channel_id
        &&& after[ch].input_node_id == before[ch].input_node_id
        &&& after[ch].output_node_id == before[ch].output_node_id
    }
    &&& !before.contains_key(ch) ==> {
        &&& after[ch].channel_id == ch
        &&& after[ch].input_node_id is None
        &&& after[ch].output_node_id is None
    }
}

/// The filters after a filter named `name` is made for channel `ch`, which
/// had none.
pub open spec fn filter_made(
    before: Map<u128, PluginFilterStream>,
    after: Map<u128, PluginFilterStream>,
    ch: u128,
    name: Seq<char>,
) -> bool {
    &&& after.dom() == before.dom().insert(ch)
    &&& forall|k: u128| k != ch && before.contains_key(k) ==> after[k] == before[k]
    &&& after[ch].channel_id == ch
    &&& after[ch].channel_name@ == name
    &&& after[ch].sink_node_id is None
    &&& after[ch].output_node_id is None
    &&& !after[ch].active
}

/// `t` is `s` with the channel at `pos` replaced by `c`.
pub open spec fn channel_replaced(s: Seq<ChannelPlugins>, t: Seq<ChannelPlugins>, pos: int, c: ChannelPlugins) -> bool {
    t == s.update(pos, c)
}

/// What one plugin event does: the next state `t` and the actions, for
/// state `s` and event `e`. Events for a channel or an instance that is not
/// there change nothing.
pub open spec fn plugin_step_spec(s: PluginChainModel, e: PluginEvent, t: PluginChainModel, actions: Seq<PluginAction>) -> bool {
    match e {
        PluginEvent::PluginLoaded(ch, plugin_id, inst) => {
            &&& no_plugin_channel(s.channels@, ch) ==> {
                &&& t.channels == s.channels
                &&& t.processor.processors@ == s.processor.processors@
                &&& t.filters.filters@ == s.filters.filters@
                &&& actions.len() == 0
            }
            &&& forall|pos: int| first_plugin_channel(s.channels@, ch, pos) ==> {
                let c = s.channels@[pos];
                let c2 = t.channels@[pos];
                &&& t.channels@.len() == s.channels@.len()
                &&& channel_replaced(s.channels@, t.channels@, pos, c2)
                &&& c2 == (ChannelPlugins { instances: c2.instances, chain: c2.chain, ..c })
                &&& c2.instances@ == c.instances@.push(inst)
                &&& c2.chain@ == c.chain@.push(PluginSlot { plugin_id, bypassed: false })
                &&& chain_set(s.processor.processors@, t.processor.processors@, ch, c2.instances@)
                &&& actions.len() == 1
                &&& if s.filters.filters@.contains_key(ch) {
                    &&& t.filters.filters@ == s.filters.filters@
                    &&& (actions[0] matches PluginAction::UpdatePluginChain(x, v) && x == ch && v@ == c2.instances@)
                } else {
                    &&& filter_made(s.filters.filters@, t.filters.filters@, ch, c.name@)
                    &&& (actions[0] matches PluginAction::CreatePluginFilter(x, n, v) && x == ch && n@ == c.name@ && v@
                        == c2.instances@)
                }
            }
        },
        PluginEvent::RemovePlugin(ch, inst) => {
            &&& (no_plugin_channel(s.channels@, ch) || forall|pos: int| first_plugin_channel(s.channels@, ch, pos)
                ==> !s.channels@[pos].instances@.contains(inst)) ==> {
                &&& t.channels == s.channels
                &&& t.processor.processors@ == s.processor.processors@
                &&& t.filters.filters@ == s.filters.filters@
                &&& actions.len() == 0
            }
            &&& forall|pos: int, idx: int| first_plugin_channel(s.channels@, ch, pos) && first_instance(
                s.channels@[pos].instances@,
                inst,
                idx,
            ) ==> {
                let c = s.channels@[pos];
                let c2 = t.channels@[pos];
                &&& channel_replaced(s.channels@, t.channels@, pos, c2)
                &&& c2 == (ChannelPlugins { instances: c2.instances, chain: c2.chain, ..c })
                &&& c2.instances@ == c.instances@.remove(idx)
                &&& c2.chain@ == if idx < c.chain@.len() {
                    c.chain@.remove(idx)
                } else {
                    c.chain@
                }
                &&& chain_set(s.processor.processors@, t.processor.processors@, ch, c2.instances@)
                &&& actions.len() == 2
                &&& actions[0] == PluginAction::UnloadPlugin(inst)
                &&& if c2.chain@.len() == 0 {
                    &&& t.filters.filters@ == s.filters.filters@.remove(ch)
                    &&& actions[1] == PluginAction::DestroyPluginFilter(ch)
                } else {
                    &&& t.filters.filters@ == s.filters.filters@
                    &&& (actions[1] matches PluginAction::UpdatePluginChain(x, v) && x == ch && v@ == c2.instances@)
                }
            }
        },
        PluginEvent::MovePlugin(ch, inst, dir) => {
            &&& t.processor.processors@ == s.processor.processors@
            &&& t.filters.filters@ == s.filters.filters@
            &&& actions.len() == 0
            &&& (no_plugin_channel(s.channels@, ch) || forall|pos: int| first_plugin_channel(s.channels@, ch, pos)
                ==> !s.channels@[pos].instances@.contains(inst)) ==> t.channels == s.channels
            &&& forall|pos: int, idx: int| first_plugin_channel(s.channels@, ch, pos) && first_instance(
                s.channels@[pos].instances@,
                inst,
                idx,
            ) ==> {
                let c = s.channels@[pos];
                let c2 = t.channels@[pos];
                let to = moved_index(idx, c.instances@.len() as int, dir);
                &&& channel_replaced(s.channels@, t.channels@, pos, c2)
                &&& c2 == (ChannelPlugins { instances: c2.instances, chain: c2.chain, ..c })
                &&& c2.instances@ == swapped(c.instances@, idx, to)
                &&& c2.chain@ == if idx < c.chain@.len() && to < c.chain@.len() {
                    swapped(c.chain@, idx, to)
                } else {
                    c.chain@
                }
            }
        },
        PluginEvent::ToggleBypass(ch, inst) => {
            &&& t.processor.processors@ == s.processor.processors@
            &&& t.filters.filters@ == s.filters.filters@
            &&& actions.len() == 0
            &&& (no_plugin_channel(s.channels@, ch) || forall|pos: int| first_plugin_channel(s.channels@, ch, pos)
                ==> !s.channels@[pos].instances@.contains(inst)) ==> t.channels == s.channels
            &&& forall|pos: int, idx: int| first_plugin_channel(s.channels@, ch, pos) && first_instance(
                s.channels@[pos].instances@,
                inst,
                idx,
            ) ==> {
                let c = s.channels@[pos];
                let c2 = t.channels@[pos];
                &&& channel_replaced(s.channels@, t.channels@, pos, c2)
                &&& c2 == (ChannelPlugins { chain: c2.chain, ..c })
                &&& c2.chain@ == if idx < c.chain@.len() {
                    c.chain@.update(idx, PluginSlot { bypassed: !c.chain@[idx].bypassed, ..c.chain@[idx] })
                } else {
                    c.chain@
                }
            }
        },
    }
}

fn find_plugin_channel(chs: &Vec<ChannelPlugins>, ch: u128) -> (r: Option<usize>)
    ensures
        r matches Some(p) ==> first_plugin_channel(chs@, ch, p as int),
        r is None ==> no_plugin_channel(chs@, ch),
{
    let mut i: usize = 0;
    while i < chs.len()
        invariant
            i <= chs.len(),
            forall|k: int| 0 <= k < i ==> (#[trigger] chs@[k]).channel_id != ch,
        decreases chs.len() - i,
    {
        if chs[i].channel_id == ch {
            return Some(i);
        }
        i += 1;
    }
    None
}

fn find_instance(v: &Vec<u128>, inst: u128) -> (r: Option<usize>)
    ensures
        r matches Some(i) ==> first_instance(v@, inst, i as int),
        r is None ==> !v@.contains(inst),
{
    let mut i: usize = 0;
    while i < v.len()
        invariant
            i <= v.len(),
            forall|k: int| 0 <= k < i ==> v@[k] != inst,
        decreases v.len() - i,
    {
        if v[i] == inst {
            return Some(i);
        }
        i += 1;
    }
    None
}

fn copy_ids(v: &Vec<u128>) -> (r: Vec<u128>)
    ensures
        r@ == v@,
{
    let mut out: Vec<u128> = Vec::new();
    let mut i: usize = 0;
    while i < v.len()
        invariant
            i <= v.len(),
            out@ == v@.take(i as int),
        decreases v.len() - i,
    {
        out.push(v[i]);
        proof {
            assert(v@.take(i + 1) =~= v@.take(i as int).push(v@[i as int]));
        }
        i += 1;
    }
    proof {
        assert(v@.take(v@.len() as int) =~= v@);
    }
    out
}

proof fn lemma_first_plugin_channel_unique(chs: Seq<ChannelPlugins>, ch: u128, i: int, j: int)
    requires
        first_plugin_channel(chs, ch, i),
        first_plugin_channel(chs, ch, j),
    ensures
        i == j,
{
    if i < j {
        assert(chs[i].channel_id == ch);
    } else if j < i {
        assert(chs[j].channel_id == ch);
    }
}

proof fn lemma_first_instance_unique(v: Seq<u128>, inst: u128, i: int, j: int)
    requires
        first_instance(v, inst, i),
        first_instance(v, inst, j),
    ensures
        i == j,
{
    if i < j {
        assert(v[i] == inst);
    } else if j < i {
        assert(v[j] == inst);
    }
}

/// Exchanges the entries at `i` and `j` (`i < j`).
fn swap_entries<T>(v: &mut Vec<T>, i: usize, j: usize)
    requires
        i < j < old(v)@.len(),
    ensures
        final(v)@ == swapped(old(v)@, i as int, j as int),
{
    let b = v.remove(j);
    let a = v.remove(i);
    v.insert(i, b);
    v.insert(j, a);
    proof {
        assert(final(v)@ =~= swapped(old(v)@, i as int, j as int));
    }
}

/// Applies one plugin event and returns the commands for the PipeWire
/// thread and the plugin host.
pub fn on_plugin_event(state: &mut PluginChainModel, event: PluginEvent) -> (actions: Vec<PluginAction>)
    ensures
        plugin_step_spec(*old(state), event, *final(state), actions@),
{
    let ghost s0 = *state;
    match event {
        PluginEvent::PluginLoaded(ch, plugin_id, inst) => {
            match find_plugin_channel(&state.channels, ch) {
                None => Vec::new(),
                Some(pos) => {
                    let mut c = state.channels.remove(pos);
                    c.instances.push(inst);
                    c.chain.push(PluginSlot { plugin_id, bypassed: false });
                    let instances = copy_ids(&c.instances);
                    let name = c.name.clone();
                    let ghost c2 = c;
                    state.channels.insert(pos, c);
                    let _ = state.processor.setup_channel(ch, instances);
                    let mut actions: Vec<PluginAction> = Vec::new();
                    if state.filters.has_filter(ch) {
                        actions.push(PluginAction::UpdatePluginChain(ch, copy_ids(&state.channels[pos].instances)));
                    } else {
                        let _ = state.filters.create_filter(ch, name.as_str(), state.channels[pos].chain.len());
                        actions.push(PluginAction::CreatePluginFilter(ch, name, copy_ids(&state.channels[pos].instances)));
                    }
                    proof {
                        assert(state.channels@ =~= s0.channels@.update(pos as int, c2));
                        assert forall|p: int| first_plugin_channel(s0.channels@, ch, p) implies p == pos by {
                            lemma_first_plugin_channel_unique(s0.channels@, ch, p, pos as int);
                        }
                    }
                    actions
                },
            }
        },
        PluginEvent::RemovePlugin(ch, inst) => {
            match find_plugin_channel(&state.channels, ch) {
                None => Vec::new(),
                Some(pos) => {
                    match find_instance(&state.channels[pos].instances, inst) {
                        None => {
                            proof {
                                assert forall|p: int| first_plugin_channel(s0.channels@, ch, p) implies !s0.channels@[p].instances@.contains(inst) by {
                                    lemma_first_plugin_channel_unique(s0.channels@, ch, p, pos as int);
                                }
                            }
                            Vec::new()
                        },
                        Some(idx) => {
                            let mut c = state.channels.remove(pos);
                            c.instances.remove(idx);
                            if idx < c.chain.len() {
                                c.chain.remove(idx);
                            }
                            let instances = copy_ids(&c.instances);
                            let empty = c.chain.len() == 0;
                            let ghost c2 = c;
                            state.channels.insert(pos, c);
                            let _ = state.processor.setup_channel(ch, instances);
                            let mut actions: Vec<PluginAction> = Vec::new();
                            actions.push(PluginAction::UnloadPlugin(inst));
                            if empty {
                                state.filters.destroy_filter(ch);
                                actions.push(PluginAction::DestroyPluginFilter(ch));
                            } else {
                                actions.push(PluginAction::UpdatePluginChain(ch, copy_ids(&state.channels[pos].instances)));
                            }
                            proof {
                                assert(state.channels@ =~= s0.channels@.update(pos as int, c2));
                                assert forall|p: int, i: int| first_plugin_channel(s0.channels@, ch, p) && first_instance(
                                    s0.channels@[p].instances@,
                                    inst,
                                    i,
                                ) implies p == pos && i == idx by {
                                    lemma_first_plugin_channel_unique(s0.channels@, ch, p, pos as int);
                                    lemma_first_instance_unique(s0.channels@[pos as int].instances@, inst, i, idx as int);
                                }
                            }
                            actions
                        },
                    }
                },
            }
        },
        PluginEvent::MovePlugin(ch, inst, dir) => {
            match find_plugin_channel(&state.channels, ch) {
                None => {},
                Some(pos) => {
                    match find_instance(&state.channels[pos].instances, inst) {
                        None => {
                            proof {
                                assert forall|p: int| first_plugin_channel(s0.channels@, ch, p) implies !s0.channels@[p].instances@.contains(inst) by {
                                    lemma_first_plugin_channel_unique(s0.channels@, ch, p, pos as int);
                                }
                            }
                        },
                        Some(idx) => {
                            let len = state.channels[pos].instances.len();
                            let to: usize = if dir < 0 {
                                if idx > 0 {
                                    idx - 1
                                } else {
                                    0
                                }
                            } else if idx + 1 < len {
                                idx + 1
                            } else {
                                len - 1
                            };
                            let mut c = state.channels.remove(pos);
                            let ghost c0 = c;
                            if to != idx {
                                let (lo, hi) = if idx < to {
                                    (idx, to)
                                } else {
                                    (to, idx)
                                };
                                swap_entries(&mut c.instances, lo, hi);
                                proof {
                                    assert(swapped(c0.instances@, lo as int, hi as int) =~= swapped(c0.instances@, idx as int, to as int));
                                }
                                if hi < c.chain.len() {
                                    let ghost ch0 = c.chain@;
                                    swap_entries(&mut c.chain, lo, hi);
                                    proof {
                                        assert(swapped(ch0, lo as int, hi as int) =~= swapped(ch0, idx as int, to as int));
                                    }
                                }
                            } else {
                                proof {
                                    assert(swapped(c0.instances@, idx as int, to as int) =~= c0.instances@);
                                    if idx < c0.chain@.len() {
                                        assert(swapped(c0.chain@, idx as int, to as int) =~= c0.chain@);
                                    }
                                }
                            }
                            let ghost c2 = c;
                            state.channels.insert(pos, c);
                            proof {
                                assert(state.channels@ =~= s0.channels@.update(pos as int, c2));
                                assert forall|p: int, i: int| first_plugin_channel(s0.channels@, ch, p) && first_instance(
                                    s0.channels@[p].instances@,
                                    inst,
                                    i,
                                ) implies p == pos && i == idx by {
                                    lemma_first_plugin_channel_unique(s0.channels@, ch, p, pos as int);
                                    lemma_first_instance_unique(s0.channels@[pos as int].instances@, inst, i, idx as int);
                                }
                            }
                        },
                    }
                },
            }
            Vec::new()
        },
        PluginEvent::ToggleBypass(ch, inst) => {
            match find_plugin_channel(&state.channels, ch) {
                None => {},
                Some(pos) => {
                    match find_instance(&state.channels[pos].instances, inst) {
                        None => {
                            proof {
                                assert forall|p: int| first_plugin_channel(s0.channels@, ch, p) implies !s0.channels@[p].instances@.contains(inst) by {
                                    lemma_first_plugin_channel_unique(s0.channels@, ch, p, pos as int);
                                }
                            }
                        },
                        Some(idx) => {
                            let mut c = state.channels.remove(pos);
                            let ghost c0 = c;
                            if idx < c.chain.len() {
                                let slot = c.chain.remove(idx);
                                let flipped = PluginSlot { bypassed: !slot.bypassed, ..slot };
                                c.chain.insert(idx, flipped);
                                proof {
                                    assert(c.chain@ =~= c0.chain@.update(
                                        idx as int,
                                        PluginSlot { bypassed: !c0.chain@[idx as int].bypassed, ..c0.chain@[idx as int] },
                                    ));
                                }
                            }
                            let ghost c2 = c;
                            state.channels.insert(pos, c);
                            proof {
                                assert(state.channels@ =~= s0.channels@.update(pos as int, c2));
                                assert forall|p: int, i: int| first_plugin_channel(s0.channels@, ch, p) && first_instance(
                                    s0.channels@[p].instances@,
                                    inst,
                                    i,
                                ) implies p == pos && i == idx by {
                                    lemma_first_plugin_channel_unique(s0.channels@, ch, p, pos as int);
                                    lemma_first_instance_unique(s0.channels@[pos as int].instances@, inst, i, idx as int);
                                }
                            }
                        },
                    }
                },
            }
            Vec::new()
        },
    }
}

/// Moving a plugin one place down and then one place up gives the chain
/// back, when the plugin was not the last and the channel's instances are
/// distinct.
pub proof fn law_plugin_move_is_undone(
    s: PluginChainModel,
    ch: u128,
    inst: u128,
    pos: int,
    idx: int,
    t: PluginChainModel,
    a1: Seq<PluginAction>,
    u: PluginChainModel,
    a2: Seq<PluginAction>,
)
    requires
        first_plugin_channel(s.channels@, ch, pos),
        first_instance(s.channels@[pos].instances@, inst, idx),
        idx + 1 < s.channels@[pos].instances@.len(),
        s.channels@[pos].instances@.no_duplicates(),
        plugin_step_spec(s, PluginEvent::MovePlugin(ch, inst, 1i32), t, a1),
        plugin_step_spec(t, PluginEvent::MovePlugin(ch, inst, -1i32), u, a2),
    ensures
        u.channels@.len() == s.channels@.len(),
        forall|k: int| 0 <= k < s.channels@.len() && k != pos ==> u.channels@[k] == s.channels@[k],
        u.channels@[pos].channel_id == ch,
        u.channels@[pos].name == s.channels@[pos].name,
        u.channels@[pos].instances@ == s.channels@[pos].instances@,
        u.channels@[pos].chain@ == s.channels@[pos].chain@,
        a1.len() == 0 && a2.len() == 0,
{
    let c = s.channels@[pos];
    let v = c.instances@;
    let c1 = t.channels@[pos];
    assert(moved_index(idx, v.len() as int, 1i32) == idx + 1);
    assert(c1.instances@ == swapped(v, idx, idx + 1));
    assert(t.channels@ == s.channels@.update(pos, c1));
    assert(first_plugin_channel(t.channels@, ch, pos)) by {
        assert forall|k: int| 0 <= k < pos implies (#[trigger] t.channels@[k]).channel_id != ch by {
            assert(t.channels@[k] == s.channels@[k]);
        }
    }
    let w = c1.instances@;
    assert(first_instance(w, inst, idx + 1)) by {
        assert(w[idx + 1] == inst);
        assert forall|k: int| 0 <= k < idx + 1 implies w[k] != inst by {
            if k == idx {
                assert(w[k] == v[idx + 1]);
                assert(v[idx + 1] != v[idx]);
            } else {
                assert(w[k] == v[k]);
            }
        }
    }
    assert(moved_index(idx + 1, w.len() as int, -1i32) == idx);
    let c2 = u.channels@[pos];
    assert(c2.instances@ == swapped(w, idx + 1, idx));
    assert(c2.instances@ =~= v);
    if idx + 1 < c.chain@.len() {
        assert(c1.chain@ == swapped(c.chain@, idx, idx + 1));
        assert(c2.chain@ == swapped(c1.chain@, idx + 1, idx));
        assert(c2.chain@ =~= c.chain@);
    } else {
        assert(c1.chain@ == c.chain@);
        assert(c2.chain@ == c1.chain@);
    }
    assert(u.channels@ == t.channels@.update(pos, c2));
}

/// After a plugin is added to a channel, the channel's audio goes through
/// its chain, and the channel has a filter stream.
pub proof fn law_loaded_plugin_is_processed(
    s: PluginChainModel,
    ch: u128,
    plugin_id: String,
    inst: u128,
    pos: int,
    t: PluginChainModel,
    actions: Seq<PluginAction>,
)
    requires
        first_plugin_channel(s.channels@, ch, pos),
        plugin_step_spec(s, PluginEvent::PluginLoaded(ch, plugin_id, inst), t, actions),
    ensures
        t.processor.processors@.contains_key(ch),
        t.processor.processors@[ch].active,
        t.filters.filters@.contains_key(ch),
{
    assert(t.processor.processors@.dom().contains(ch));
    if !s.filters.filters@.contains_key(ch) {
        assert(t.filters.filters@.dom().contains(ch));
    }
}

} // verus!
