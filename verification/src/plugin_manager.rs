//! Bookkeeping of plugin processing per channel: which channels run a
//! plugin chain, and which have a plugin filter stream. Channels are keyed
//! by the 128-bit value of their UUID.

use vstd::prelude::*;
use std::collections::HashMap;
use vstd::std_specs::iter::IteratorSpec;

verus! {

broadcast use vstd::std_specs::hash::group_hash_axioms;

/// Failures of plugin processing setup.
#[derive(Debug, Clone, PartialEq, Eq)]
pub enum PluginProcessorError {
    /// A plugin instance is not loaded.
    PluginNotLoaded(u128),
    PipeWireError(String),
}

/// A channel's plugin processing chain.
#[derive(Debug, Clone)]
pub struct ChannelPluginProcessor {
    pub channel_id: u128,
    /// Plugin instance ids in processing order.
    pub plugin_instances: Vec<u128>,
    /// Whether audio goes through the chain.
    pub active: bool,
    /// The channel's virtual sink output node.
    pub input_node_id: Option<u32>,
    /// Where processed audio goes.
    pub output_node_id: Option<u32>,
}

impl ChannelPluginProcessor {
    /// An inactive processor with no plugins and no nodes.
    pub fn new(channel_id: u128) -> (r: Self)
        ensures
            r.channel_id == channel_id,
            r.plugin_instances@.len() == 0,
            !r.active,
            r.input_node_id is None,
            r.output_node_id is None,
    {
        ChannelPluginProcessor {
            channel_id,
            plugin_instances: Vec::new(),
            active: false,
            input_node_id: None,
            output_node_id: None,
        }
    }
}

/// Plugin processors of all channels.
pub struct PluginProcessorManager {
    pub processors: HashMap<u128, ChannelPluginProcessor>,
}

impl PluginProcessorManager {
    /// No channel has a processor.
    pub fn new() -> (r: Self)
        ensures
            r.processors@ == Map::<u128, ChannelPluginProcessor>::empty(),
    {
        PluginProcessorManager { processors: HashMap::new() }
    }

    /// Creates the channel's processor if it has none, and sets its plugin
    /// chain; processing is active exactly when the chain is not empty.
    /// The nodes of an existing processor are kept.
    pub fn setup_channel(&mut self, channel_id: u128, plugin_instances: Vec<u128>) -> (r: Result<(), PluginProcessorError>)
        ensures
            r is Ok,
            final(self).processors@.dom() == old(self).processors@.dom().insert(channel_id),
            forall|k: u128| k != channel_id && old(self).processors@.contains_key(k) ==> final(self).processors@[k]
                == old(self).processors@[k],
            ({
                let p = final(self).processors@[channel_id];
                &&& p.plugin_instances@ == plugin_instances@
                &&& p.active == (plugin_instances@.len() > 0)
                &&& old(self).processors@.contains_key(channel_id) ==> {
                    let q = old(self).processors@[channel_id];
                    &&& p.channel_id == q.channel_id
                    &&& p.input_node_id == q.input_node_id
                    &&& p.output_node_id == q.output_node_id
                }
                &&& !old(self).processors@.contains_key(channel_id) ==> {
                    &&& p.channel_id == channel_id
                    &&& p.input_node_id is None
                    &&& p.output_node_id is None
                }
            }),
    {
        let mut p = match self.processors.remove(&channel_id) {
            Some(p) => p,
            None => ChannelPluginProcessor::new(channel_id),
        };
        let active = plugin_instances.len() > 0;
        p.plugin_instances = plugin_instances;
        p.active = active;
        self.processors.insert(channel_id, p);
        proof {
            assert(final(self).processors@.dom() =~= old(self).processors@.dom().insert(channel_id));
        }
        Ok(())
    }

    /// Drops the channel's processor.
    pub fn remove_channel(&mut self, channel_id: u128)
        ensures
            final(self).processors@ == old(self).processors@.remove(channel_id),
    {
        self.processors.remove(&channel_id);
    }

    /// The channel's processor.
    pub fn get(&self, channel_id: u128) -> (r: Option<&ChannelPluginProcessor>)
        ensures
            match r {
                Some(p) => self.processors@.contains_key(channel_id) && *p == self.processors@[channel_id],
                None => !self.processors@.contains_key(channel_id),
            },
    {
        self.processors.get(&channel_id)
    }

    /// Whether the channel's audio goes through its plugin chain (no
    /// processor: no).
    pub fn is_active(&self, channel_id: u128) -> (r: bool)
        ensures
            r == (self.processors@.contains_key(channel_id) && self.processors@[channel_id].active),
    {
        match self.processors.get(&channel_id) {
            Some(p) => p.active,
            None => false,
        }
    }
}

/// Failures of plugin filter streams.
#[derive(Debug, Clone, PartialEq, Eq)]
pub enum PluginFilterError {
    StreamCreationFailed(String),
    PipeWireError(String),
    ChannelNotFound(u128),
}

/// A channel's plugin filter stream, before and after PipeWire creates it.
#[derive(Debug, Clone)]
pub struct PluginFilterStream {
    pub channel_id: u128,
    /// Used to name the stream's nodes.
    pub channel_name: String,
    /// The filter's sink (input) node.
    pub sink_node_id: Option<u32>,
    /// The filter's output node.
    pub output_node_id: Option<u32>,
    pub active: bool,
}

impl PluginFilterStream {
    /// A filter not created in PipeWire yet.
    pub fn new(channel_id: u128, channel_name: String) -> (r: Self)
        ensures
            r.channel_id == channel_id,
            r.channel_name@ == channel_name@,
            r.sink_node_id is None,
            r.output_node_id is None,
            !r.active,
    {
        PluginFilterStream { channel_id, channel_name, sink_node_id: None, output_node_id: None, active: false }
    }
}

/// Plugin filter streams of all channels.
pub struct PluginFilterManager {
    pub filters: HashMap<u128, PluginFilterStream>,
}

impl PluginFilterManager {
    /// No channel has a filter.
    pub fn new() -> (r: Self)
        ensures
            r.filters@ == Map::<u128, PluginFilterStream>::empty(),
    {
        PluginFilterManager { filters: HashMap::new() }
    }

    /// The channel's filter: the existing one, or a new one named after the
    /// channel. It is always found.
    pub fn create_filter(&mut self, channel_id: u128, channel_name: &str, num_plugins: usize) -> (r: Result<
        &PluginFilterStream,
        PluginFilterError,
    >)
        ensures
            old(self).filters@.contains_key(channel_id) ==> final(self).filters@ == old(self).filters@,
            !old(self).filters@.contains_key(channel_id) ==> {
                let f = final(self).filters@[channel_id];
                &&& final(self).filters@.dom() == old(self).filters@.dom().insert(channel_id)
                &&& forall|k: u128| k != channel_id && old(self).filters@.contains_key(k) ==> final(self).filters@[k]
                    == old(self).filters@[k]
                &&& f.channel_id == channel_id
                &&& f.channel_name@ == channel_name@
                &&& f.sink_node_id is None
                &&& f.output_node_id is None
                &&& !f.active
            },
            r matches Ok(f) && *f == final(self).filters@[channel_id],
    {
        if !self.filters.contains_key(&channel_id) {
            let filter = PluginFilterStream::new(channel_id, channel_name.to_string());
            self.filters.insert(channel_id, filter);
            proof {
                assert(final(self).filters@.dom() =~= old(self).filters@.dom().insert(channel_id));
            }
        }
        match self.filters.get(&channel_id) {
            Some(f) => Ok(f),
            None => Err(PluginFilterError::ChannelNotFound(channel_id)),
        }
    }

    /// Drops the channel's filter; tells whether there was one.
    pub fn destroy_filter(&mut self, channel_id: u128) -> (r: bool)
        ensures
            r == old(self).filters@.contains_key(channel_id),
            final(self).filters@ == old(self).filters@.remove(channel_id),
    {
        match self.filters.remove(&channel_id) {
            Some(_) => true,
            None => false,
        }
    }

    /// The channel's filter.
    pub fn get(&self, channel_id: u128) -> (r: Option<&PluginFilterStream>)
        ensures
            match r {
                Some(f) => self.filters@.contains_key(channel_id) && *f == self.filters@[channel_id],
                None => !self.filters@.contains_key(channel_id),
            },
    {
        self.filters.get(&channel_id)
    }

    /// Whether the channel has a filter.
    pub fn has_filter(&self, channel_id: u128) -> (r: bool)
        ensures
            r == self.filters@.contains_key(channel_id),
    {
        self.filters.contains_key(&channel_id)
    }

    /// The channels that have a filter, each once, in no promised order.
    pub fn filter_channels(&self) -> (r: Vec<u128>)
        ensures
            r@.to_set() == self.filters@.dom(),
            r@.no_duplicates(),
    {
        let ghost rem = vstd::std_specs::hash::spec_keys_iter(&self.filters).remaining();
        let mut out: Vec<u128> = Vec::new();
        for k in it: self.filters.keys()
            invariant
                it.seq() == rem,
                out@.len() == it.index(),
                forall|i: int| 0 <= i < it.index() ==> out@[i] == *rem[i],
        {
            out.push(*k);
        }
        proof {
            assert(out@ =~= rem.unref());
        }
        out
    }

    /// Whether the channel has a filter whose chain can change (the chain
    /// itself lives in the processing context).
    pub fn update_plugin_chain(&mut self, channel_id: u128, plugin_chain: Vec<u128>) -> (r: bool)
        ensures
            r == old(self).filters@.contains_key(channel_id),
            final(self).filters@ == old(self).filters@,
    {
        self.filters.contains_key(&channel_id)
    }
}

} // verus!
