//! The mixer's view of the PipeWire graph and what it does when the graph
//! changes: the node, port and link tables, channels that follow their
//! output device when it is unplugged and plugged back in, and the rules
//! that route newly seen apps to channels.

use vstd::prelude::*;
use crate::mixer::{contains_text, lemma_filter_take_succ, views};
use crate::routing_rules::{opt_str_view, AppGrouping, RoutingRule, RoutingRulesConfig};
use crate::text::str_eq;

verus! {

/// A table entry found by a numeric key (a node, port or link id).
pub trait Keyed {
    spec fn key_of(&self) -> u32;

    fn key(&self) -> (k: u32)
        ensures
            k == self.key_of(),
    ;
}

/// A node of the graph.
#[derive(Debug, Clone)]
pub struct PwNode {
    pub id: u32,
    /// `node.name`.
    pub name: String,
    /// `node.description`.
    pub description: String,
    /// Whether the media class is `Audio/Sink` (an output device).
    pub is_audio_sink: bool,
}

/// A port of a node.
#[derive(Debug, Clone)]
pub struct PwPort {
    pub id: u32,
    pub node_id: u32,
    pub name: String,
    /// Output (as opposed to input) port.
    pub is_output: bool,
}

/// A link from an output port to an input port.
#[derive(Debug, Clone)]
pub struct PwLink {
    pub id: u32,
    pub output_node: u32,
    pub output_port: u32,
    pub input_node: u32,
    pub input_port: u32,
}

/// An app stream playing audio.
#[derive(Debug, Clone)]
pub struct GraphApp {
    /// The stream's node.
    pub node_id: u32,
    pub name: String,
    pub binary: Option<String>,
    /// What identifies the app across its streams and restarts.
    pub identifier: String,
}

/// What graph events read and change of a channel.
#[derive(Debug, Clone)]
pub struct GraphChannel {
    pub id: u128,
    pub name: String,
    /// Identifiers of the apps assigned to the channel.
    pub assigned_apps: Vec<String>,
    /// The channel's virtual sink node.
    pub sink_id: Option<u32>,
    /// The loopback node that plays the channel on an output device.
    pub loopback_output_id: Option<u32>,
    /// The output device node the channel plays on now.
    pub output_device_id: Option<u32>,
    /// The output device the user chose (its description or name).
    pub output_device_name: Option<String>,
    /// An input channel's virtual source node.
    pub source_id: Option<u32>,
    /// The loopback node that captures an input channel's device.
    pub loopback_capture_id: Option<u32>,
    /// The input device the user chose for an input channel.
    pub input_device_name: Option<String>,
}

/// The graph as the mixer knows it.
#[derive(Debug, Clone)]
pub struct GraphModel {
    pub nodes: Vec<PwNode>,
    pub ports: Vec<PwPort>,
    pub links: Vec<PwLink>,
    pub apps: Vec<GraphApp>,
    pub channels: Vec<GraphChannel>,
    /// App nodes routed already in this session.
    pub auto_routed: Vec<u32>,
    pub routing_rules: RoutingRulesConfig,
    pub pw_connected: bool,
    /// Whether the saved configuration has been restored.
    pub startup_complete: bool,
    /// The node that records the master output, and whether recording is on.
    pub master_recording_source_id: Option<u32>,
    pub master_recording_enabled: bool,
    /// The last error to show.
    pub last_error: Option<String>,
}

/// A change of the graph.
#[derive(Debug, Clone)]
pub enum GraphEvent {
    Connected,
    Disconnected,
    /// A node, and the app stream it is when it is one.
    NodeAdded(PwNode, Option<GraphApp>),
    NodeRemoved(u32),
    NodeChanged(PwNode),
    PortAdded(PwPort),
    PortRemoved(u32),
    LinkAdded(PwLink),
    LinkRemoved(u32),
    /// A channel's virtual sink exists: channel, sink node, loopback node.
    VirtualSinkCreated(u128, u32, Option<u32>),
    /// A virtual sink node is gone.
    VirtualSinkDestroyed(u32),
    /// An input channel's virtual source exists: channel, source node,
    /// loopback capture node.
    VirtualSourceCreated(u128, u32, Option<u32>),
    /// A recording source exists: its name and node.
    RecordingSourceCreated(String, u32),
    RecordingSourceDestroyed(u32),
    /// An error reported by the PipeWire thread.
    Error(String),
    /// The periodic tick: apps are auto-routed once startup is complete.
    Tick,
    /// The saved configuration has been restored.
    StartupCompleted,
}

/// What the program does after a graph event.
#[derive(Debug, Clone, PartialEq)]
pub enum GraphAction {
    /// Play a loopback node on an output device (`None`: the default one).
    RouteChannelToDevice(u32, Option<u32>),
    /// Route an app node (with its identifier) to a channel.
    RouteApp(u32, String, u128),
    /// Destroy a link.
    DestroyLink(u32),
    /// Link an app node to a sink node, port by port.
    RelinkApp(u32, u32),
    /// Capture an input device (by name) into an input channel.
    RouteInputDevice(u128, String),
}

impl Keyed for PwNode {
    open spec fn key_of(&self) -> u32 {
        self.id
    }

    fn key(&self) -> (k: u32) {
        self.id
    }
}

impl Keyed for PwPort {
    open spec fn key_of(&self) -> u32 {
        self.id
    }

    fn key(&self) -> (k: u32) {
        self.id
    }
}

impl Keyed for PwLink {
    open spec fn key_of(&self) -> u32 {
        self.id
    }

    fn key(&self) -> (k: u32) {
        self.id
    }
}

impl Keyed for GraphApp {
    open spec fn key_of(&self) -> u32 {
        self.node_id
    }

    fn key(&self) -> (k: u32) {
        self.node_id
    }
}

/// Some entry has key `k`.
pub open spec fn has_key<T: Keyed>(s: Seq<T>, k: u32) -> bool {
    exists|j: int| 0 <= j < s.len() && #[trigger] s[j].key_of() == k
}

/// `pos` is the first entry with key `k`.
pub open spec fn first_with_key<T: Keyed>(s: Seq<T>, k: u32, pos: int) -> bool {
    &&& 0 <= pos < s.len()
    &&& s[pos].key_of() == k
    &&& forall|j: int| 0 <= j < pos ==> #[trigger] s[j].key_of() != k
}

/// No two entries share a key.
pub open spec fn keys_unique<T: Keyed>(s: Seq<T>) -> bool {
    forall|i: int, j: int| 0 <= i < j < s.len() ==> #[trigger] s[i].key_of() != #[trigger] s[j].key_of()
}

/// The filter "has not key `k`".
pub open spec fn other_key<T: Keyed>(k: u32) -> spec_fn(T) -> bool {
    |x: T| x.key_of() != k
}

/// `t` is table `s` with `x` stored under its key: the entry with that key
/// replaced, or `x` appended when there is none.
pub open spec fn upserted<T: Keyed>(s: Seq<T>, x: T, t: Seq<T>) -> bool {
    &&& !has_key(s, x.key_of()) ==> t == s.push(x)
    &&& forall|pos: int| first_with_key(s, x.key_of(), pos) ==> t == s.update(pos, x)
}

fn find_key<T: Keyed>(v: &Vec<T>, k: u32) -> (r: Option<usize>)
    ensures
        r matches Some(p) ==> first_with_key(v@, k, p as int),
        r is None ==> !has_key(v@, k),
{
    let mut i: usize = 0;
    while i < v.len()
        invariant
            i <= v.len(),
            forall|j: int| 0 <= j < i ==> #[trigger] v@[j].key_of() != k,
        decreases v.len() - i,
    {
        if v[i].key() == k {
            return Some(i);
        }
        i += 1;
    }
    None
}

/// Stores `x` under its key.
fn upsert<T: Keyed>(v: &mut Vec<T>, x: T)
    ensures
        upserted(old(v)@, x, final(v)@),
{
    let k = x.key();
    match find_key(v, k) {
        Some(p) => {
            v.set(p, x);
            proof {
                assert forall|pos: int| first_with_key(old(v)@, k, pos) implies pos == p by {
                    if pos < p {
                        assert(old(v)@[pos].key_of() != k);
                    } else if pos > p {
                        assert(old(v)@[p as int].key_of() != k);
                    }
                }
            }
        },
        None => {
            v.push(x);
        },
    }
}

/// Drops the entries with key `k`.
fn without_key<T: Keyed>(v: Vec<T>, k: u32) -> (r: Vec<T>)
    ensures
        r@ == v@.filter(other_key::<T>(k)),
{
    let ghost orig = v@;
    let ghost f = other_key::<T>(k);
    let mut src = v;
    let mut out: Vec<T> = Vec::new();
    let ghost mut n: int = 0;
    proof {
        assert(orig.take(0).filter(f) =~= Seq::<T>::empty());
        assert(orig.skip(0) =~= orig);
    }
    while src.len() > 0
        invariant
            0 <= n <= orig.len(),
            f == other_key::<T>(k),
            src@ == orig.skip(n),
            out@ == orig.take(n).filter(f),
        decreases src.len(),
    {
        proof {
            lemma_filter_take_succ(orig, f, n);
            assert(orig.skip(n).drop_first() =~= orig.skip(n + 1));
        }
        let x = src.remove(0);
        if x.key() != k {
            out.push(x);
        }
        proof {
            n = n + 1;
        }
    }
    proof {
        assert(orig.take(n) =~= orig);
    }
    out
}

fn remove_key<T: Keyed>(v: &mut Vec<T>, k: u32)
    ensures
        final(v)@ == old(v)@.filter(other_key::<T>(k)),
{
    let mut taken: Vec<T> = Vec::new();
    std::mem::swap(&mut taken, v);
    *v = without_key(taken, k);
}

/// The view of an optional text.
pub open spec fn opt_string_view(o: Option<String>) -> Option<Seq<char>> {
    match o {
        Some(s) => Some(s@),
        None => None,
    }
}

fn opt_as_str(o: &Option<String>) -> (r: Option<&str>)
    ensures
        opt_str_view(r) == opt_string_view(*o),
{
    match o {
        Some(s) => Some(s.as_str()),
        None => None,
    }
}

// ---- Output devices that go away and come back ----

/// The channel plays on device `id` through a loopback node.
pub open spec fn follows_device(c: GraphChannel, id: u32) -> bool {
    c.output_device_id == Some(id) && c.loopback_output_id is Some
}

/// A channel after its device `id` is gone: it forgets the device's node
/// (the chosen device's name stays, for when it comes back).
pub open spec fn after_device_removed(c: GraphChannel, id: u32) -> GraphChannel {
    if follows_device(c, id) {
        GraphChannel { output_device_id: None, ..c }
    } else {
        c
    }
}

/// A channel whose device `id` is gone plays on the default output.
pub open spec fn removal_action(c: GraphChannel, id: u32) -> Option<GraphAction> {
    if follows_device(c, id) {
        Some(GraphAction::RouteChannelToDevice(c.loopback_output_id->0, None))
    } else {
        None
    }
}

/// The channel waits for output device `n`: `n` is an audio sink whose
/// description or name is the device the user chose, and the channel plays
/// on no device now.
pub open spec fn awaits_device(c: GraphChannel, n: PwNode) -> bool {
    &&& n.is_audio_sink
    &&& c.output_device_name matches Some(saved) && (n.description@ == saved@ || n.name@ == saved@)
    &&& c.output_device_id is None
    &&& c.loopback_output_id is Some
}

/// A channel after device `n` appears.
pub open spec fn after_device_added(c: GraphChannel, n: PwNode) -> GraphChannel {
    if awaits_device(c, n) {
        GraphChannel { output_device_id: Some(n.id), ..c }
    } else {
        c
    }
}

/// A channel that waited for device `n` plays on it again.
pub open spec fn readd_action(c: GraphChannel, n: PwNode) -> Option<GraphAction> {
    if awaits_device(c, n) {
        Some(GraphAction::RouteChannelToDevice(c.loopback_output_id->0, Some(n.id)))
    } else {
        None
    }
}

/// `after_device_removed` as a function value.
pub open spec fn after_device_removed_fn(id: u32) -> spec_fn(GraphChannel) -> GraphChannel {
    |c: GraphChannel| after_device_removed(c, id)
}

/// `removal_action` as a function value.
pub open spec fn removal_action_fn(id: u32) -> spec_fn(GraphChannel) -> Option<GraphAction> {
    |c: GraphChannel| removal_action(c, id)
}

/// `after_device_added` as a function value.
pub open spec fn after_device_added_fn(n: PwNode) -> spec_fn(GraphChannel) -> GraphChannel {
    |c: GraphChannel| after_device_added(c, n)
}

/// `readd_action` as a function value.
pub open spec fn readd_action_fn(n: PwNode) -> spec_fn(GraphChannel) -> Option<GraphAction> {
    |c: GraphChannel| readd_action(c, n)
}

fn device_removed(c: GraphChannel, id: u32) -> (r: (GraphChannel, Option<GraphAction>))
    ensures
        r.0 == after_device_removed(c, id),
        r.1 == removal_action(c, id),
{
    match (c.output_device_id, c.loopback_output_id) {
        (Some(d), Some(lb)) => {
            if d == id {
                (GraphChannel { output_device_id: None, ..c }, Some(GraphAction::RouteChannelToDevice(lb, None)))
            } else {
                (c, None)
            }
        },
        _ => (c, None),
    }
}

fn device_added(c: GraphChannel, n: &PwNode) -> (r: (GraphChannel, Option<GraphAction>))
    ensures
        r.0 == after_device_added(c, *n),
        r.1 == readd_action(c, *n),
{
    let named = match &c.output_device_name {
        Some(saved) => str_eq(n.description.as_str(), saved.as_str()) || str_eq(n.name.as_str(), saved.as_str()),
        None => false,
    };
    match (c.output_device_id, c.loopback_output_id) {
        (None, Some(lb)) => {
            if n.is_audio_sink && named {
                (GraphChannel { output_device_id: Some(n.id), ..c }, Some(GraphAction::RouteChannelToDevice(lb, Some(n.id))))
            } else {
                (c, None)
            }
        },
        _ => (c, None),
    }
}

/// Applies the removal of device `id` to every channel; gives the new
/// channels and the re-routing of the channels that played on it.
fn channels_after_removal(v: Vec<GraphChannel>, id: u32) -> (r: (Vec<GraphChannel>, Vec<GraphAction>))
    ensures
        r.0@ == v@.map_values(after_device_removed_fn(id)),
        r.1@ == v@.filter_map(removal_action_fn(id)),
{
    let ghost orig = v@;
    let ghost f = after_device_removed_fn(id);
    let ghost g = removal_action_fn(id);
    let mut src = v;
    let mut out: Vec<GraphChannel> = Vec::new();
    let mut acts: Vec<GraphAction> = Vec::new();
    let ghost mut n: int = 0;
    proof {
        assert(orig.take(0).map_values(f) =~= Seq::<GraphChannel>::empty());
        assert(orig.take(0).filter_map(g) =~= Seq::<GraphAction>::empty());
        assert(orig.skip(0) =~= orig);
    }
    while src.len() > 0
        invariant
            0 <= n <= orig.len(),
            f == after_device_removed_fn(id),
            g == removal_action_fn(id),
            src@ == orig.skip(n),
            out@ == orig.take(n).map_values(f),
            acts@ == orig.take(n).filter_map(g),
        decreases src.len(),
    {
        proof {
            orig.lemma_filter_map_take_succ(g, n);
            assert(orig.take(n + 1).map_values(f) =~= orig.take(n).map_values(f).push(f(orig[n])));
            assert(orig.skip(n).drop_first() =~= orig.skip(n + 1));
        }
        let c = src.remove(0);
        let (c2, a) = device_removed(c, id);
        out.push(c2);
        match a {
            Some(x) => acts.push(x),
            None => {},
        }
        proof {
            n = n + 1;
        }
    }
    proof {
        assert(orig.take(n) =~= orig);
    }
    (out, acts)
}

/// Applies the appearance of device node `nd` to every channel; gives the
/// new channels and the re-routing of the channels that waited for it.
fn channels_after_addition(v: Vec<GraphChannel>, nd: &PwNode) -> (r: (Vec<GraphChannel>, Vec<GraphAction>))
    ensures
        r.0@ == v@.map_values(after_device_added_fn(*nd)),
        r.1@ == v@.filter_map(readd_action_fn(*nd)),
{
    let ghost orig = v@;
    let ghost f = after_device_added_fn(*nd);
    let ghost g = readd_action_fn(*nd);
    let mut src = v;
    let mut out: Vec<GraphChannel> = Vec::new();
    let mut acts: Vec<GraphAction> = Vec::new();
    let ghost mut n: int = 0;
    proof {
        assert(orig.take(0).map_values(f) =~= Seq::<GraphChannel>::empty());
        assert(orig.take(0).filter_map(g) =~= Seq::<GraphAction>::empty());
        assert(orig.skip(0) =~= orig);
    }
    while src.len() > 0
        invariant
            0 <= n <= orig.len(),
            f == after_device_added_fn(*nd),
            g == readd_action_fn(*nd),
            src@ == orig.skip(n),
            out@ == orig.take(n).map_values(f),
            acts@ == orig.take(n).filter_map(g),
        decreases src.len(),
    {
        proof {
            orig.lemma_filter_map_take_succ(g, n);
            assert(orig.take(n + 1).map_values(f) =~= orig.take(n).map_values(f).push(f(orig[n])));
            assert(orig.skip(n).drop_first() =~= orig.skip(n + 1));
        }
        let c = src.remove(0);
        let (c2, a) = device_added(c, nd);
        out.push(c2);
        match a {
            Some(x) => acts.push(x),
            None => {},
        }
        proof {
            n = n + 1;
        }
    }
    proof {
        assert(orig.take(n) =~= orig);
    }
    (out, acts)
}

// ---- Routing apps by their assignment or by the rules ----

/// `i` is the first channel that has app `app` assigned.
pub open spec fn first_channel_with_app(chs: Seq<GraphChannel>, app: Seq<char>, i: int) -> bool {
    &&& 0 <= i < chs.len()
    &&& views(chs[i].assigned_apps@).contains(app)
    &&& forall|k: int| 0 <= k < i ==> !views(#[trigger] chs[k].assigned_apps@).contains(app)
}

/// The channel app `app` is assigned to (the first one, if several).
pub open spec fn assigned_channel(chs: Seq<GraphChannel>, app: Seq<char>) -> Option<GraphChannel> {
    if exists|i: int| first_channel_with_app(chs, app, i) {
        Some(chs[choose|i: int| first_channel_with_app(chs, app, i)])
    } else {
        None
    }
}

/// `i` is the first channel named `name`.
pub open spec fn first_channel_named(chs: Seq<GraphChannel>, name: Seq<char>, i: int) -> bool {
    &&& 0 <= i < chs.len()
    &&& chs[i].name@ == name
    &&& forall|k: int| 0 <= k < i ==> (#[trigger] chs[k]).name@ != name
}

/// The channel named `name` (the first one, if several).
pub open spec fn channel_named(chs: Seq<GraphChannel>, name: Seq<char>) -> Option<GraphChannel> {
    if exists|i: int| first_channel_named(chs, name, i) {
        Some(chs[choose|i: int| first_channel_named(chs, name, i)])
    } else {
        None
    }
}

/// `i` is the first rule that accepts the app.
pub open spec fn first_matching_rule(rules: Seq<RoutingRule>, name: Seq<char>, binary: Option<Seq<char>>, i: int) -> bool {
    &&& 0 <= i < rules.len()
    &&& rules[i].matches_spec(name, binary)
    &&& forall|k: int| 0 <= k < i ==> !#[trigger] rules[k].matches_spec(name, binary)
}

/// The rule that decides for the app: the first that accepts it.
pub open spec fn matching_rule(rules: Seq<RoutingRule>, name: Seq<char>, binary: Option<Seq<char>>) -> Option<RoutingRule> {
    if exists|i: int| first_matching_rule(rules, name, binary, i) {
        Some(rules[choose|i: int| first_matching_rule(rules, name, binary, i)])
    } else {
        None
    }
}

/// Some link goes from node `from` to node `to`.
pub open spec fn linked(links: Seq<PwLink>, from: u32, to: u32) -> bool {
    exists|k: int| 0 <= k < links.len() && (#[trigger] links[k]).output_node == from && links[k].input_node == to
}

/// What is done with an app not routed yet: `None` to leave it for now,
/// `Some(None)` to mark it routed (it already plays on its channel's sink),
/// `Some(Some(c))` to route it to channel `c`. An app assigned to a channel
/// goes to that channel once the channel has a sink; an app assigned to
/// none goes where the first rule that accepts it says, when a channel of
/// that name with a sink exists.
pub open spec fn route_choice(chs: Seq<GraphChannel>, links: Seq<PwLink>, rules: Seq<RoutingRule>, app: GraphApp) -> Option<Option<u128>> {
    match assigned_channel(chs, app.identifier@) {
        Some(c) => match c.sink_id {
            Some(sink) => if linked(links, app.node_id, sink) {
                Some(None)
            } else {
                Some(Some(c.id))
            },
            None => None,
        },
        None => match matching_rule(rules, app.name@, opt_string_view(app.binary)) {
            Some(r) => match channel_named(chs, r.target_channel@) {
                Some(c) => if c.sink_id is Some {
                    Some(Some(c.id))
                } else {
                    None
                },
                None => None,
            },
            None => None,
        },
    }
}

/// The nodes of app `ident` not routed yet, in the order of `apps`.
pub open spec fn group_ids(apps: Seq<GraphApp>, ident: Seq<char>, routed: Seq<u32>) -> Seq<u32> {
    apps.filter_map(group_pick(ident, routed))
}

/// Picks the node of a stream of app `ident` not routed yet.
pub open spec fn group_pick(ident: Seq<char>, routed: Seq<u32>) -> spec_fn(GraphApp) -> Option<u32> {
    |a: GraphApp| if a.identifier@ == ident && !routed.contains(a.node_id) { Some(a.node_id) } else { None }
}

/// Routing of each of `ids` to channel `ch`.
pub open spec fn route_actions(ids: Seq<u32>, ident: String, ch: u128) -> Seq<GraphAction> {
    ids.map_values(|nid: u32| GraphAction::RouteApp(nid, ident, ch))
}

/// The auto-routing pass over the first `n` apps: the nodes routed after it
/// (starting from `routed0`) and the routes it asks for. Apps are taken in
/// order; one whose node is routed already is skipped. When apps are
/// grouped, routing an app routes every stream of it not routed yet.
pub open spec fn auto_route(
    apps: Seq<GraphApp>,
    n: nat,
    chs: Seq<GraphChannel>,
    links: Seq<PwLink>,
    rules: Seq<RoutingRule>,
    group: bool,
    routed0: Seq<u32>,
) -> (Seq<u32>, Seq<GraphAction>)
    decreases n,
{
    if n == 0 || n > apps.len() {
        (routed0, Seq::empty())
    } else {
        let prev = auto_route(apps, (n - 1) as nat, chs, links, rules, group, routed0);
        let app = apps[n - 1];
        if prev.0.contains(app.node_id) {
            prev
        } else {
            match route_choice(chs, links, rules, app) {
                None => prev,
                Some(None) => (prev.0.push(app.node_id), prev.1),
                Some(Some(ch)) => if group {
                    let g = group_ids(apps, app.identifier@, prev.0);
                    (prev.0 + g, prev.1 + route_actions(g, app.identifier, ch))
                } else {
                    (prev.0.push(app.node_id), prev.1.push(GraphAction::RouteApp(app.node_id, app.identifier, ch)))
                },
            }
        }
    }
}

/// The whole auto-routing pass over a graph model.
pub open spec fn auto_route_all(m: GraphModel) -> (Seq<u32>, Seq<GraphAction>) {
    auto_route(
        m.apps@,
        m.apps@.len(),
        m.channels@,
        m.links@,
        m.routing_rules.rules@,
        m.routing_rules.app_grouping == AppGrouping::GroupByApp,
        m.auto_routed@,
    )
}

proof fn lemma_first_channel_with_app_unique(chs: Seq<GraphChannel>, app: Seq<char>, i: int, j: int)
    requires
        first_channel_with_app(chs, app, i),
        first_channel_with_app(chs, app, j),
    ensures
        i == j,
{
    if i < j {
        assert(!views(chs[i].assigned_apps@).contains(app));
    } else if j < i {
        assert(!views(chs[j].assigned_apps@).contains(app));
    }
}

proof fn lemma_first_channel_named_unique(chs: Seq<GraphChannel>, name: Seq<char>, i: int, j: int)
    requires
        first_channel_named(chs, name, i),
        first_channel_named(chs, name, j),
    ensures
        i == j,
{
    if i < j {
        assert(chs[i].name@ != name);
    } else if j < i {
        assert(chs[j].name@ != name);
    }
}

proof fn lemma_first_matching_rule_unique(rules: Seq<RoutingRule>, name: Seq<char>, binary: Option<Seq<char>>, i: int, j: int)
    requires
        first_matching_rule(rules, name, binary, i),
        first_matching_rule(rules, name, binary, j),
    ensures
        i == j,
{
    if i < j {
        assert(!rules[i].matches_spec(name, binary));
    } else if j < i {
        assert(!rules[j].matches_spec(name, binary));
    }
}

fn find_assigned(chs: &Vec<GraphChannel>, app: &str) -> (r: Option<usize>)
    ensures
        r matches Some(i) ==> first_channel_with_app(chs@, app@, i as int) && assigned_channel(chs@, app@) == Some(chs@[i as int]),
        r is None ==> assigned_channel(chs@, app@) is None,
{
    let mut i: usize = 0;
    while i < chs.len()
        invariant
            i <= chs.len(),
            forall|k: int| 0 <= k < i ==> !views(#[trigger] chs@[k].assigned_apps@).contains(app@),
        decreases chs.len() - i,
    {
        if contains_text(&chs[i].assigned_apps, app) {
            proof {
                assert(first_channel_with_app(chs@, app@, i as int));
                let j = choose|j: int| first_channel_with_app(chs@, app@, j);
                lemma_first_channel_with_app_unique(chs@, app@, i as int, j);
            }
            return Some(i);
        }
        i += 1;
    }
    proof {
        if exists|j: int| first_channel_with_app(chs@, app@, j) {
            let j = choose|j: int| first_channel_with_app(chs@, app@, j);
            assert(!views(chs@[j].assigned_apps@).contains(app@));
        }
    }
    None
}

fn find_named(chs: &Vec<GraphChannel>, name: &str) -> (r: Option<usize>)
    ensures
        r matches Some(i) ==> first_channel_named(chs@, name@, i as int) && channel_named(chs@, name@) == Some(chs@[i as int]),
        r is None ==> channel_named(chs@, name@) is None,
{
    let mut i: usize = 0;
    while i < chs.len()
        invariant
            i <= chs.len(),
            forall|k: int| 0 <= k < i ==> (#[trigger] chs@[k]).name@ != name@,
        decreases chs.len() - i,
    {
        if str_eq(chs[i].name.as_str(), name) {
            proof {
                assert(first_channel_named(chs@, name@, i as int));
                let j = choose|j: int| first_channel_named(chs@, name@, j);
                lemma_first_channel_named_unique(chs@, name@, i as int, j);
            }
            return Some(i);
        }
        i += 1;
    }
    proof {
        if exists|j: int| first_channel_named(chs@, name@, j) {
            let j = choose|j: int| first_channel_named(chs@, name@, j);
            assert(chs@[j].name@ != name@);
        }
    }
    None
}

fn has_link(links: &Vec<PwLink>, from: u32, to: u32) -> (r: bool)
    ensures
        r == linked(links@, from, to),
{
    let mut i: usize = 0;
    while i < links.len()
        invariant
            i <= links.len(),
            forall|k: int| 0 <= k < i ==> !((#[trigger] links@[k]).output_node == from && links@[k].input_node == to),
        decreases links.len() - i,
    {
        if links[i].output_node == from && links[i].input_node == to {
            proof {
                assert(links@[i as int].output_node == from);
            }
            return true;
        }
        i += 1;
    }
    false
}

fn contains_u32(v: &Vec<u32>, x: u32) -> (r: bool)
    ensures
        r == v@.contains(x),
{
    let mut i: usize = 0;
    while i < v.len()
        invariant
            i <= v.len(),
            forall|k: int| 0 <= k < i ==> v@[k] != x,
        decreases v.len() - i,
    {
        if v[i] == x {
            proof {
                assert(v@[i as int] == x);
            }
            return true;
        }
        i += 1;
    }
    false
}

fn route_choice_of(chs: &Vec<GraphChannel>, links: &Vec<PwLink>, rules: &RoutingRulesConfig, app: &GraphApp) -> (r: Option<Option<u128>>)
    ensures
        r == route_choice(chs@, links@, rules.rules@, *app),
{
    match find_assigned(chs, app.identifier.as_str()) {
        Some(i) => match chs[i].sink_id {
            Some(sink) => if has_link(links, app.node_id, sink) {
                Some(None)
            } else {
                Some(Some(chs[i].id))
            },
            None => None,
        },
        None => {
            let binary = opt_as_str(&app.binary);
            match rules.find_match(app.name.as_str(), binary) {
                Some(rule) => {
                    proof {
                        let i = choose|i: int| 0 <= i < rules.rules@.len() && *rule == rules.rules@[i]
                            && rule.matches_spec(app.name@, opt_str_view(binary))
                            && forall|k: int| 0 <= k < i ==> !#[trigger] rules.rules@[k].matches_spec(app.name@, opt_str_view(binary));
                        assert(first_matching_rule(rules.rules@, app.name@, opt_string_view(app.binary), i));
                        let j = choose|j: int| first_matching_rule(rules.rules@, app.name@, opt_string_view(app.binary), j);
                        lemma_first_matching_rule_unique(rules.rules@, app.name@, opt_string_view(app.binary), i, j);
                    }
                    match find_named(chs, rule.target_channel.as_str()) {
                        Some(j) => if chs[j].sink_id.is_some() {
                            Some(Some(chs[j].id))
                        } else {
                            None
                        },
                        None => None,
                    }
                },
                None => {
                    proof {
                        if exists|j: int| first_matching_rule(rules.rules@, app.name@, opt_string_view(app.binary), j) {
                            let j = choose|j: int| first_matching_rule(rules.rules@, app.name@, opt_string_view(app.binary), j);
                            assert(rules.rules@[j].matches_spec(app.name@, opt_str_view(binary)));
                        }
                    }
                    None
                },
            }
        },
    }
}

fn group_of(apps: &Vec<GraphApp>, ident: &str, routed: &Vec<u32>) -> (r: Vec<u32>)
    ensures
        r@ == group_ids(apps@, ident@, routed@),
{
    let ghost g = group_pick(ident@, routed@);
    let mut out: Vec<u32> = Vec::new();
    let mut i: usize = 0;
    proof {
        assert(apps@.take(0).filter_map(g) =~= Seq::<u32>::empty());
    }
    while i < apps.len()
        invariant
            i <= apps.len(),
            g == group_pick(ident@, routed@),
            out@ == apps@.take(i as int).filter_map(g),
        decreases apps.len() - i,
    {
        proof {
            apps@.lemma_filter_map_take_succ(g, i as int);
        }
        if str_eq(apps[i].identifier.as_str(), ident) && !contains_u32(routed, apps[i].node_id) {
            out.push(apps[i].node_id);
        }
        i += 1;
    }
    proof {
        assert(apps@.take(apps@.len() as int) =~= apps@);
    }
    out
}

/// Decides which apps to route now: every app whose node is not routed yet
/// goes to the channel it is assigned to, or to the channel the first
/// matching rule names; the nodes decided on are marked routed, so that no
/// node is routed twice in a session.
pub fn check_auto_routing(state: &mut GraphModel) -> (to_route: Vec<GraphAction>)
    ensures
        ({
            let (routed, out) = auto_route_all(*old(state));
            &&& final(state).auto_routed@ == routed
            &&& to_route@ == out
        }),
        *final(state) == (GraphModel { auto_routed: final(state).auto_routed, ..*old(state) }),
{
    let group = match state.routing_rules.app_grouping {
        AppGrouping::GroupByApp => true,
        _ => false,
    };
    let ghost s0 = *state;
    let ghost apps = s0.apps@;
    let ghost chs = s0.channels@;
    let ghost links = s0.links@;
    let ghost rules = s0.routing_rules.rules@;
    let ghost routed0 = s0.auto_routed@;
    let mut out: Vec<GraphAction> = Vec::new();
    let n = state.apps.len();
    let mut i: usize = 0;
    while i < n
        invariant
            n == apps.len(),
            i <= n,
            *state == (GraphModel { auto_routed: state.auto_routed, ..s0 }),
            apps == s0.apps@,
            chs == s0.channels@,
            links == s0.links@,
            rules == s0.routing_rules.rules@,
            group == (s0.routing_rules.app_grouping == AppGrouping::GroupByApp),
            (state.auto_routed@, out@) == auto_route(apps, i as nat, chs, links, rules, group, routed0),
        decreases n - i,
    {
        let node_id = state.apps[i].node_id;
        if !contains_u32(&state.auto_routed, node_id) {
            let choice = route_choice_of(&state.channels, &state.links, &state.routing_rules, &state.apps[i]);
            match choice {
                None => {},
                Some(None) => {
                    state.auto_routed.push(node_id);
                },
                Some(Some(ch)) => {
                    if group {
                        let g = group_of(&state.apps, state.apps[i].identifier.as_str(), &state.auto_routed);
                        let ghost r1 = state.auto_routed@;
                        let ghost o1 = out@;
                        let ghost ident = state.apps[i as int].identifier;
                        let mut j: usize = 0;
                        while j < g.len()
                            invariant
                                j <= g.len(),
                                i < n,
                                n == apps.len(),
                                ident == apps[i as int].identifier,
                                *state == (GraphModel { auto_routed: state.auto_routed, ..s0 }),
                                apps == s0.apps@,
                                state.auto_routed@ == r1 + g@.take(j as int),
                                out@ == o1 + route_actions(g@.take(j as int), ident, ch),
                            decreases g.len() - j,
                        {
                            let ident_copy = state.apps[i].identifier.clone();
                            out.push(GraphAction::RouteApp(g[j], ident_copy, ch));
                            state.auto_routed.push(g[j]);
                            proof {
                                assert(g@.take(j + 1) =~= g@.take(j as int).push(g@[j as int]));
                                assert(route_actions(g@.take(j + 1), ident, ch) =~= route_actions(g@.take(j as int), ident, ch).push(
                                    GraphAction::RouteApp(g@[j as int], ident, ch)));
                            }
                            j += 1;
                        }
                        proof {
                            assert(g@.take(g@.len() as int) =~= g@);
                        }
                    } else {
                        let ident_copy = state.apps[i].identifier.clone();
                        out.push(GraphAction::RouteApp(node_id, ident_copy, ch));
                        state.auto_routed.push(node_id);
                    }
                },
            }
        }
        i += 1;
    }
    out
}

// ---- One graph event ----

/// `pos` is the first channel with id `id`.
pub open spec fn first_channel_id(chs: Seq<GraphChannel>, id: u128, pos: int) -> bool {
    &&& 0 <= pos < chs.len()
    &&& chs[pos].id == id
    &&& forall|k: int| 0 <= k < pos ==> (#[trigger] chs[k]).id != id
}

/// `i` is the first audio sink whose description or name is `name`.
pub open spec fn first_device_named(nodes: Seq<PwNode>, name: Seq<char>, i: int) -> bool {
    &&& 0 <= i < nodes.len()
    &&& nodes[i].is_audio_sink && (nodes[i].description@ == name || nodes[i].name@ == name)
    &&& forall|k: int| 0 <= k < i ==> !((#[trigger] nodes[k]).is_audio_sink && (nodes[k].description@ == name
        || nodes[k].name@ == name))
}

/// The output device named `name`: the first audio sink with that
/// description or name.
pub open spec fn device_named_text(nodes: Seq<PwNode>, name: Seq<char>) -> Option<u32> {
    if exists|i: int| first_device_named(nodes, name, i) {
        Some(nodes[choose|i: int| first_device_named(nodes, name, i)].id)
    } else {
        None
    }
}

/// The output device a channel's chosen device name stands for, when one
/// is present.
pub open spec fn device_named(nodes: Seq<PwNode>, name: Option<String>) -> Option<u32> {
    match name {
        Some(n) => device_named_text(nodes, n@),
        None => None,
    }
}

/// A channel after virtual sink `node` is gone.
pub open spec fn sink_dropped(c: GraphChannel, node: u32) -> GraphChannel {
    if c.sink_id == Some(node) {
        GraphChannel { sink_id: None, ..c }
    } else {
        c
    }
}

/// `sink_dropped` as a function value.
pub open spec fn sink_dropped_fn(node: u32) -> spec_fn(GraphChannel) -> GraphChannel {
    |c: GraphChannel| sink_dropped(c, node)
}

/// Whether apps of one program are routed together.
pub open spec fn grouped(m: GraphModel) -> bool {
    m.routing_rules.app_grouping == AppGrouping::GroupByApp
}

/// The filter "is not node `id`".
pub open spec fn other_node(id: u32) -> spec_fn(u32) -> bool {
    |n: u32| n != id
}

/// The auto-routing pass that follows a node event, from the routed nodes
/// `routed`, on the state `t` the event left.
pub open spec fn auto_route_after(t: GraphModel, routed: Seq<u32>) -> (Seq<u32>, Seq<GraphAction>) {
    auto_route(t.apps@, t.apps@.len(), t.channels@, t.links@, t.routing_rules.rules@, grouped(t), routed)
}

/// `t` is `s` but for the node, port, link, app, channel and routed tables.
pub open spec fn same_settings(s: GraphModel, t: GraphModel) -> bool {
    t == (GraphModel {
        nodes: t.nodes,
        ports: t.ports,
        links: t.links,
        apps: t.apps,
        channels: t.channels,
        auto_routed: t.auto_routed,
        ..s
    })
}

/// Node `node` is the virtual sink of one of the channels.
pub open spec fn own_sink(chs: Seq<GraphChannel>, node: u32) -> bool {
    exists|k: int| 0 <= k < chs.len() && (#[trigger] chs[k]).sink_id == Some(node)
}

/// The node table's entry for `id` is an audio sink.
pub open spec fn node_is_sink(nodes: Seq<PwNode>, id: u32) -> bool {
    exists|pos: int| first_with_key(nodes, id, pos) && nodes[pos].is_audio_sink
}

/// `i` is the first app stream on node `node`.
pub open spec fn first_app_on(apps: Seq<GraphApp>, node: u32, i: int) -> bool {
    first_with_key(apps, node, i)
}

/// `i` is the first channel that has app `app` assigned and a sink.
pub open spec fn first_sink_for_app(chs: Seq<GraphChannel>, app: Seq<char>, i: int) -> bool {
    &&& 0 <= i < chs.len()
    &&& views(chs[i].assigned_apps@).contains(app) && chs[i].sink_id is Some
    &&& forall|k: int| 0 <= k < i ==> !(views((#[trigger] chs[k]).assigned_apps@).contains(app) && chs[k].sink_id is Some)
}

/// The sink of the first channel with app `app` assigned and a sink.
pub open spec fn sink_for_app(chs: Seq<GraphChannel>, app: Seq<char>) -> Option<u32> {
    if exists|i: int| first_sink_for_app(chs, app, i) {
        chs[choose|i: int| first_sink_for_app(chs, app, i)].sink_id
    } else {
        None
    }
}

/// The repair of a link that the session manager made from an app to
/// another sink while the app is assigned to a channel: the link goes and
/// the app is linked to its channel's sink again. Links to the channels'
/// own sinks, to nodes that are not audio sinks, and from nodes that are
/// not apps are left alone.
pub open spec fn conflict_fix(s: GraphModel, link: PwLink) -> Seq<GraphAction> {
    if own_sink(s.channels@, link.input_node) || !node_is_sink(s.nodes@, link.input_node) {
        Seq::empty()
    } else if exists|i: int| first_app_on(s.apps@, link.output_node, i) {
        let app = s.apps@[choose|i: int| first_app_on(s.apps@, link.output_node, i)];
        match sink_for_app(s.channels@, app.identifier@) {
            Some(sink) => seq![GraphAction::DestroyLink(link.id), GraphAction::RelinkApp(link.output_node, sink)],
            None => Seq::empty(),
        }
    } else {
        Seq::empty()
    }
}

/// What one graph event does: the next state `t` and the actions, for state
/// `s` and event `e`.
pub open spec fn graph_step_spec(s: GraphModel, e: GraphEvent, t: GraphModel, actions: Seq<GraphAction>) -> bool {
    match e {
        GraphEvent::Connected => t == (GraphModel { pw_connected: true, ..s }) && actions.len() == 0,
        GraphEvent::Disconnected => t == (GraphModel { pw_connected: false, ..s }) && actions.len() == 0,
        GraphEvent::NodeAdded(node, app) => {
            &&& same_settings(s, t)
            &&& upserted(s.nodes@, node, t.nodes@)
            &&& match app {
                Some(a) => upserted(s.apps@, a, t.apps@),
                None => t.apps == s.apps,
            }
            &&& t.ports == s.ports
            &&& t.links == s.links
            &&& if s.startup_complete {
                let after = auto_route_after(t, s.auto_routed@);
                &&& t.channels@ == s.channels@.map_values(after_device_added_fn(node))
                &&& t.auto_routed@ == after.0
                &&& actions == s.channels@.filter_map(readd_action_fn(node)) + after.1
            } else {
                &&& t.channels == s.channels
                &&& t.auto_routed == s.auto_routed
                &&& actions.len() == 0
            }
        },
        GraphEvent::NodeRemoved(id) => {
            let routed = s.auto_routed@.filter(other_node(id));
            &&& same_settings(s, t)
            &&& t.nodes@ == s.nodes@.filter(other_key::<PwNode>(id))
            &&& t.apps@ == s.apps@.filter(other_key::<GraphApp>(id))
            &&& t.ports == s.ports
            &&& t.links == s.links
            &&& t.channels@ == s.channels@.map_values(after_device_removed_fn(id))
            &&& t.auto_routed@ == routed
            &&& actions == s.channels@.filter_map(removal_action_fn(id))
        },
        GraphEvent::Tick => if s.startup_complete {
            let after = auto_route_all(s);
            &&& t == (GraphModel { auto_routed: t.auto_routed, ..s })
            &&& t.auto_routed@ == after.0
            &&& actions == after.1
        } else {
            t == s && actions.len() == 0
        },
        GraphEvent::StartupCompleted => t == (GraphModel { startup_complete: true, ..s }) && actions.len() == 0,
        GraphEvent::NodeChanged(node) => {
            &&& upserted(s.nodes@, node, t.nodes@)
            &&& t == (GraphModel { nodes: t.nodes, ..s })
            &&& actions.len() == 0
        },
        GraphEvent::PortAdded(port) => {
            &&& upserted(s.ports@, port, t.ports@)
            &&& t == (GraphModel { ports: t.ports, ..s })
            &&& actions.len() == 0
        },
        GraphEvent::PortRemoved(id) => {
            &&& t.ports@ == s.ports@.filter(other_key::<PwPort>(id))
            &&& t == (GraphModel { ports: t.ports, ..s })
            &&& actions.len() == 0
        },
        GraphEvent::LinkAdded(link) => {
            &&& upserted(s.links@, link, t.links@)
            &&& t == (GraphModel { links: t.links, ..s })
            &&& actions == if s.startup_complete {
                conflict_fix(s, link)
            } else {
                Seq::empty()
            }
        },
        GraphEvent::LinkRemoved(id) => {
            &&& t.links@ == s.links@.filter(other_key::<PwLink>(id))
            &&& t == (GraphModel { links: t.links, ..s })
            &&& actions.len() == 0
        },
        GraphEvent::VirtualSinkCreated(ch, node, loopback) => {
            &&& t == (GraphModel { channels: t.channels, ..s })
            &&& (forall|k: int| 0 <= k < s.channels@.len() ==> (#[trigger] s.channels@[k]).id != ch) ==> {
                &&& t.channels == s.channels
                &&& actions == match loopback {
                    Some(lb) => seq![GraphAction::RouteChannelToDevice(lb, None)],
                    None => Seq::empty(),
                }
            }
            &&& forall|pos: int| first_channel_id(s.channels@, ch, pos) ==> {
                &&& t.channels@ == s.channels@.update(
                    pos,
                    GraphChannel { sink_id: Some(node), loopback_output_id: loopback, ..s.channels@[pos] },
                )
                &&& actions == match loopback {
                    Some(lb) => seq![GraphAction::RouteChannelToDevice(lb, device_named(s.nodes@, s.channels@[pos].output_device_name))],
                    None => Seq::empty(),
                }
            }
        },
        GraphEvent::VirtualSinkDestroyed(node) => {
            &&& t.channels@ == s.channels@.map_values(sink_dropped_fn(node))
            &&& t == (GraphModel { channels: t.channels, ..s })
            &&& actions.len() == 0
        },
        GraphEvent::VirtualSourceCreated(ch, source, capture) => {
            &&& t == (GraphModel { channels: t.channels, ..s })
            &&& (forall|k: int| 0 <= k < s.channels@.len() ==> (#[trigger] s.channels@[k]).id != ch) ==> {
                &&& t.channels == s.channels
                &&& actions.len() == 0
            }
            &&& forall|pos: int| first_channel_id(s.channels@, ch, pos) ==> {
                &&& t.channels@ == s.channels@.update(
                    pos,
                    GraphChannel { source_id: Some(source), loopback_capture_id: capture, ..s.channels@[pos] },
                )
                &&& actions == match s.channels@[pos].input_device_name {
                    Some(d) => seq![GraphAction::RouteInputDevice(ch, d)],
                    None => Seq::empty(),
                }
            }
        },
        GraphEvent::RecordingSourceCreated(name, node) => {
            &&& t == if name@ == "master"@ {
                GraphModel { master_recording_source_id: Some(node), ..s }
            } else {
                s
            }
            &&& actions.len() == 0
        },
        GraphEvent::RecordingSourceDestroyed(node) => {
            &&& t == if s.master_recording_source_id == Some(node) {
                GraphModel { master_recording_source_id: None, master_recording_enabled: false, ..s }
            } else {
                s
            }
            &&& actions.len() == 0
        },
        GraphEvent::Error(err) => t == (GraphModel { last_error: Some(err), ..s }) && actions.len() == 0,
    }
}

proof fn lemma_first_device_named_unique(nodes: Seq<PwNode>, name: Seq<char>, i: int, j: int)
    requires
        first_device_named(nodes, name, i),
        first_device_named(nodes, name, j),
    ensures
        i == j,
{
    if i < j {
        assert(nodes[i].is_audio_sink);
    } else if j < i {
        assert(nodes[j].is_audio_sink);
    }
}

fn find_device_text(nodes: &Vec<PwNode>, n: &str) -> (r: Option<u32>)
    ensures
        r == device_named_text(nodes@, n@),
{
    let mut i: usize = 0;
    while i < nodes.len()
        invariant
            i <= nodes.len(),
            forall|k: int| 0 <= k < i ==> !((#[trigger] nodes@[k]).is_audio_sink && (nodes@[k].description@ == n@
                || nodes@[k].name@ == n@)),
        decreases nodes.len() - i,
    {
        if nodes[i].is_audio_sink && (str_eq(nodes[i].description.as_str(), n) || str_eq(nodes[i].name.as_str(), n)) {
            proof {
                assert(first_device_named(nodes@, n@, i as int));
                let j = choose|j: int| first_device_named(nodes@, n@, j);
                lemma_first_device_named_unique(nodes@, n@, i as int, j);
            }
            return Some(nodes[i].id);
        }
        i += 1;
    }
    proof {
        if exists|j: int| first_device_named(nodes@, n@, j) {
            let j = choose|j: int| first_device_named(nodes@, n@, j);
            assert(nodes@[j].is_audio_sink);
        }
    }
    None
}

fn find_device(nodes: &Vec<PwNode>, name: &Option<String>) -> (r: Option<u32>)
    ensures
        r == device_named(nodes@, *name),
{
    match name {
        None => None,
        Some(n) => find_device_text(nodes, n.as_str()),
    }
}

fn find_channel_id(chs: &Vec<GraphChannel>, id: u128) -> (r: Option<usize>)
    ensures
        r matches Some(p) ==> first_channel_id(chs@, id, p as int),
        r is None ==> forall|k: int| 0 <= k < chs@.len() ==> (#[trigger] chs@[k]).id != id,
{
    let mut i: usize = 0;
    while i < chs.len()
        invariant
            i <= chs.len(),
            forall|k: int| 0 <= k < i ==> (#[trigger] chs@[k]).id != id,
        decreases chs.len() - i,
    {
        if chs[i].id == id {
            return Some(i);
        }
        i += 1;
    }
    None
}

fn channels_without_sink(v: Vec<GraphChannel>, node: u32) -> (r: Vec<GraphChannel>)
    ensures
        r@ == v@.map_values(sink_dropped_fn(node)),
{
    let ghost orig = v@;
    let ghost f = sink_dropped_fn(node);
    let mut src = v;
    let mut out: Vec<GraphChannel> = Vec::new();
    let ghost mut n: int = 0;
    proof {
        assert(orig.take(0).map_values(f) =~= Seq::<GraphChannel>::empty());
        assert(orig.skip(0) =~= orig);
    }
    while src.len() > 0
        invariant
            0 <= n <= orig.len(),
            f == sink_dropped_fn(node),
            src@ == orig.skip(n),
            out@ == orig.take(n).map_values(f),
        decreases src.len(),
    {
        proof {
            assert(orig.take(n + 1).map_values(f) =~= orig.take(n).map_values(f).push(f(orig[n])));
            assert(orig.skip(n).drop_first() =~= orig.skip(n + 1));
        }
        let c = src.remove(0);
        if c.sink_id == Some(node) {
            out.push(GraphChannel { sink_id: None, ..c });
        } else {
            out.push(c);
        }
        proof {
            n = n + 1;
        }
    }
    proof {
        assert(orig.take(n) =~= orig);
    }
    out
}

fn routed_without(v: Vec<u32>, id: u32) -> (r: Vec<u32>)
    ensures
        r@ == v@.filter(other_node(id)),
{
    let ghost orig = v@;
    let ghost f = other_node(id);
    let mut out: Vec<u32> = Vec::new();
    let mut i: usize = 0;
    proof {
        assert(orig.take(0).filter(f) =~= Seq::<u32>::empty());
    }
    while i < v.len()
        invariant
            i <= v.len(),
            orig == v@,
            f == other_node(id),
            out@ == orig.take(i as int).filter(f),
        decreases v.len() - i,
    {
        proof {
            lemma_filter_take_succ(orig, f, i as int);
        }
        if v[i] != id {
            out.push(v[i]);
        }
        i += 1;
    }
    proof {
        assert(orig.take(i as int) =~= orig);
    }
    out
}

fn take_channels(state: &mut GraphModel) -> (r: Vec<GraphChannel>)
    ensures
        r == old(state).channels,
        *final(state) == (GraphModel { channels: final(state).channels, ..*old(state) }),
{
    let mut taken: Vec<GraphChannel> = Vec::new();
    std::mem::swap(&mut taken, &mut state.channels);
    taken
}

proof fn lemma_first_with_key_unique<T: Keyed>(s: Seq<T>, k: u32, i: int, j: int)
    requires
        first_with_key(s, k, i),
        first_with_key(s, k, j),
    ensures
        i == j,
{
    if i < j {
        assert(s[i].key_of() == k);
    } else if j < i {
        assert(s[j].key_of() == k);
    }
}

fn is_own_sink(chs: &Vec<GraphChannel>, node: u32) -> (r: bool)
    ensures
        r == own_sink(chs@, node),
{
    let mut i: usize = 0;
    while i < chs.len()
        invariant
            i <= chs.len(),
            forall|k: int| 0 <= k < i ==> (#[trigger] chs@[k]).sink_id != Some(node),
        decreases chs.len() - i,
    {
        if chs[i].sink_id == Some(node) {
            return true;
        }
        i += 1;
    }
    false
}

fn is_sink_node(nodes: &Vec<PwNode>, id: u32) -> (r: bool)
    ensures
        r == node_is_sink(nodes@, id),
{
    match find_key(nodes, id) {
        Some(p) => {
            proof {
                if node_is_sink(nodes@, id) {
                    let q = choose|q: int| first_with_key(nodes@, id, q) && nodes@[q].is_audio_sink;
                    lemma_first_with_key_unique(nodes@, id, p as int, q);
                }
            }
            nodes[p].is_audio_sink
        },
        None => {
            proof {
                if node_is_sink(nodes@, id) {
                    let q = choose|q: int| first_with_key(nodes@, id, q) && nodes@[q].is_audio_sink;
                    assert(nodes@[q].key_of() == id);
                }
            }
            false
        },
    }
}

fn find_sink_for_app(chs: &Vec<GraphChannel>, app: &str) -> (r: Option<u32>)
    ensures
        r == sink_for_app(chs@, app@),
{
    let mut i: usize = 0;
    while i < chs.len()
        invariant
            i <= chs.len(),
            forall|k: int| 0 <= k < i ==> !(views((#[trigger] chs@[k]).assigned_apps@).contains(app@) && chs@[k].sink_id is Some),
        decreases chs.len() - i,
    {
        if chs[i].sink_id.is_some() && contains_text(&chs[i].assigned_apps, app) {
            proof {
                assert(first_sink_for_app(chs@, app@, i as int));
                let j = choose|j: int| first_sink_for_app(chs@, app@, j);
                if j < i {
                    assert(!(views(chs@[j].assigned_apps@).contains(app@) && chs@[j].sink_id is Some));
                } else if i < j {
                    assert(!(views(chs@[i as int].assigned_apps@).contains(app@) && chs@[i as int].sink_id is Some));
                }
            }
            return chs[i].sink_id;
        }
        i += 1;
    }
    proof {
        if exists|j: int| first_sink_for_app(chs@, app@, j) {
            let j = choose|j: int| first_sink_for_app(chs@, app@, j);
            assert(!(views(chs@[j].assigned_apps@).contains(app@) && chs@[j].sink_id is Some));
        }
    }
    None
}

fn fix_link_conflict(state: &GraphModel, link: &PwLink) -> (r: Vec<GraphAction>)
    ensures
        r@ == conflict_fix(*state, *link),
{
    if is_own_sink(&state.channels, link.input_node) || !is_sink_node(&state.nodes, link.input_node) {
        return Vec::new();
    }
    match find_key(&state.apps, link.output_node) {
        None => {
            proof {
                if exists|i: int| first_app_on(state.apps@, link.output_node, i) {
                    let i = choose|i: int| first_app_on(state.apps@, link.output_node, i);
                    assert(state.apps@[i].key_of() == link.output_node);
                }
            }
            Vec::new()
        },
        Some(p) => {
            proof {
                assert(first_app_on(state.apps@, link.output_node, p as int));
                let q = choose|q: int| first_app_on(state.apps@, link.output_node, q);
                lemma_first_with_key_unique(state.apps@, link.output_node, p as int, q);
            }
            match find_sink_for_app(&state.channels, state.apps[p].identifier.as_str()) {
                Some(sink) => {
                    let mut v: Vec<GraphAction> = Vec::new();
                    v.push(GraphAction::DestroyLink(link.id));
                    v.push(GraphAction::RelinkApp(link.output_node, sink));
                    v
                },
                None => Vec::new(),
            }
        },
    }
}

/// Reacts to a change of the graph: keeps the node, port and link tables,
/// follows output devices that go away (their channels fall back to the
/// default output) and come back (their channels return to them), records
/// virtual sinks, and, once the saved configuration is restored, routes
/// apps by their assignment and the routing rules.
pub fn on_graph_event(state: &mut GraphModel, event: GraphEvent) -> (actions: Vec<GraphAction>)
    ensures
        graph_step_spec(*old(state), event, *final(state), actions@),
{
    let ghost s0 = *state;
    match event {
        GraphEvent::Connected => {
            state.pw_connected = true;
            Vec::new()
        },
        GraphEvent::Disconnected => {
            state.pw_connected = false;
            Vec::new()
        },
        GraphEvent::NodeAdded(node, app) => {
            let mut actions: Vec<GraphAction> = Vec::new();
            if state.startup_complete {
                let chs = take_channels(state);
                let (chs2, acts) = channels_after_addition(chs, &node);
                state.channels = chs2;
                actions = acts;
            }
            upsert(&mut state.nodes, node);
            match app {
                Some(a) => upsert(&mut state.apps, a),
                None => {},
            }
            if state.startup_complete {
                let mut more = check_auto_routing(state);
                actions.append(&mut more);
            }
            actions
        },
        GraphEvent::NodeRemoved(id) => {
            let mut routed: Vec<u32> = Vec::new();
            std::mem::swap(&mut routed, &mut state.auto_routed);
            state.auto_routed = routed_without(routed, id);
            let chs = take_channels(state);
            let (chs2, mut actions) = channels_after_removal(chs, id);
            state.channels = chs2;
            remove_key(&mut state.nodes, id);
            remove_key(&mut state.apps, id);
            actions
        },
        GraphEvent::Tick => {
            if state.startup_complete {
                check_auto_routing(state)
            } else {
                Vec::new()
            }
        },
        GraphEvent::StartupCompleted => {
            state.startup_complete = true;
            Vec::new()
        },
        GraphEvent::NodeChanged(node) => {
            upsert(&mut state.nodes, node);
            Vec::new()
        },
        GraphEvent::PortAdded(port) => {
            upsert(&mut state.ports, port);
            Vec::new()
        },
        GraphEvent::PortRemoved(id) => {
            remove_key(&mut state.ports, id);
            Vec::new()
        },
        GraphEvent::LinkAdded(link) => {
            let actions = if state.startup_complete {
                fix_link_conflict(state, &link)
            } else {
                Vec::new()
            };
            upsert(&mut state.links, link);
            actions
        },
        GraphEvent::LinkRemoved(id) => {
            remove_key(&mut state.links, id);
            Vec::new()
        },
        GraphEvent::VirtualSinkCreated(ch, node, loopback) => {
            let target = match find_channel_id(&state.channels, ch) {
                Some(p) => {
                    let target = find_device(&state.nodes, &state.channels[p].output_device_name);
                    let mut chs = take_channels(state);
                    let c = chs.remove(p);
                    chs.insert(p, GraphChannel { sink_id: Some(node), loopback_output_id: loopback, ..c });
                    proof {
                        assert(chs@ =~= s0.channels@.update(
                            p as int,
                            GraphChannel { sink_id: Some(node), loopback_output_id: loopback, ..s0.channels@[p as int] },
                        ));
                        assert forall|pos: int| first_channel_id(s0.channels@, ch, pos) implies pos == p by {
                            if pos < p {
                                assert(s0.channels@[pos].id != ch);
                            } else if pos > p {
                                assert(s0.channels@[p as int].id != ch);
                            }
                        }
                    }
                    state.channels = chs;
                    target
                },
                None => None,
            };
            match loopback {
                Some(lb) => {
                    let mut v: Vec<GraphAction> = Vec::new();
                    v.push(GraphAction::RouteChannelToDevice(lb, target));
                    v
                },
                None => Vec::new(),
            }
        },
        GraphEvent::VirtualSinkDestroyed(node) => {
            let chs = take_channels(state);
            state.channels = channels_without_sink(chs, node);
            Vec::new()
        },
        GraphEvent::VirtualSourceCreated(ch, source, capture) => {
            match find_channel_id(&state.channels, ch) {
                Some(p) => {
                    let mut chs = take_channels(state);
                    let c = chs.remove(p);
                    let device = c.input_device_name.clone();
                    chs.insert(p, GraphChannel { source_id: Some(source), loopback_capture_id: capture, ..c });
                    proof {
                        assert(chs@ =~= s0.channels@.update(
                            p as int,
                            GraphChannel { source_id: Some(source), loopback_capture_id: capture, ..s0.channels@[p as int] },
                        ));
                        assert forall|pos: int| first_channel_id(s0.channels@, ch, pos) implies pos == p by {
                            if pos < p {
                                assert(s0.channels@[pos].id != ch);
                            } else if pos > p {
                                assert(s0.channels@[p as int].id != ch);
                            }
                        }
                    }
                    state.channels = chs;
                    match device {
                        Some(d) => {
                            let mut v: Vec<GraphAction> = Vec::new();
                            v.push(GraphAction::RouteInputDevice(ch, d));
                            v
                        },
                        None => Vec::new(),
                    }
                },
                None => Vec::new(),
            }
        },
        GraphEvent::RecordingSourceCreated(name, node) => {
            if str_eq(name.as_str(), "master") {
                state.master_recording_source_id = Some(node);
            }
            Vec::new()
        },
        GraphEvent::RecordingSourceDestroyed(node) => {
            if state.master_recording_source_id == Some(node) {
                state.master_recording_source_id = None;
                state.master_recording_enabled = false;
            }
            Vec::new()
        },
        GraphEvent::Error(err) => {
            state.last_error = Some(err);
            Vec::new()
        },
    }
}

// ---- Laws ----

/// The app node an action routes, if it routes one.
pub open spec fn routed_node(a: GraphAction) -> Option<u32> {
    match a {
        GraphAction::RouteApp(n, _, _) => Some(n),
        _ => None,
    }
}

/// Action `a` routes a node that is in `routed` and was not in `routed0`.
pub open spec fn routes_fresh(a: GraphAction, routed: Seq<u32>, routed0: Seq<u32>) -> bool {
    match routed_node(a) {
        Some(nid) => routed.contains(nid) && !routed0.contains(nid),
        None => false,
    }
}

proof fn lemma_auto_route_marks(
    apps: Seq<GraphApp>,
    n: nat,
    chs: Seq<GraphChannel>,
    links: Seq<PwLink>,
    rules: Seq<RoutingRule>,
    group: bool,
    routed0: Seq<u32>,
)
    ensures
        ({
            let r = auto_route(apps, n, chs, links, rules, group, routed0);
            &&& forall|x: u32| routed0.contains(x) ==> r.0.contains(x)
            &&& forall|j: int| 0 <= j < r.1.len() ==> routes_fresh(#[trigger] r.1[j], r.0, routed0)
        }),
    decreases n,
{
    if n == 0 || n > apps.len() {
    } else {
        let prev = auto_route(apps, (n - 1) as nat, chs, links, rules, group, routed0);
        lemma_auto_route_marks(apps, (n - 1) as nat, chs, links, rules, group, routed0);
        let app = apps[n - 1];
        let r = auto_route(apps, n, chs, links, rules, group, routed0);
        if prev.0.contains(app.node_id) {
        } else {
            match route_choice(chs, links, rules, app) {
                None => {},
                Some(None) => {
                    assert forall|x: u32| prev.0.contains(x) implies r.0.contains(x) by {
                        let i = choose|i: int| 0 <= i < prev.0.len() && prev.0[i] == x;
                        assert(r.0[i] == x);
                    }
                },
                Some(Some(ch)) => {
                    if group {
                        let g = group_ids(apps, app.identifier@, prev.0);
                        assert forall|x: u32| prev.0.contains(x) implies r.0.contains(x) by {
                            let i = choose|i: int| 0 <= i < prev.0.len() && prev.0[i] == x;
                            assert(r.0[i] == x);
                        }
                        assert forall|j: int| 0 <= j < r.1.len() implies routes_fresh(#[trigger] r.1[j], r.0, routed0) by {
                            if j >= prev.1.len() {
                                let k = j - prev.1.len();
                                assert(r.1[j] == GraphAction::RouteApp(g[k], app.identifier, ch));
                                assert(g.contains(g[k]));
                                apps.lemma_filter_map_contains(group_pick(app.identifier@, prev.0), g[k]);
                                assert(!prev.0.contains(g[k]));
                                assert(r.0[prev.0.len() + k] == g[k]);
                            } else {
                                assert(r.1[j] == prev.1[j]);
                            }
                        }
                    } else {
                        assert forall|x: u32| prev.0.contains(x) implies r.0.contains(x) by {
                            let i = choose|i: int| 0 <= i < prev.0.len() && prev.0[i] == x;
                            assert(r.0[i] == x);
                        }
                        assert forall|j: int| 0 <= j < r.1.len() implies routes_fresh(#[trigger] r.1[j], r.0, routed0) by {
                            if j == prev.1.len() {
                                assert(r.0[prev.0.len() as int] == app.node_id);
                            } else {
                                assert(r.1[j] == prev.1[j]);
                            }
                        }
                    }
                },
            }
        }
    }
}

/// Some channel has id `ch` and a virtual sink.
pub open spec fn has_sink_channel(chs: Seq<GraphChannel>, ch: u128) -> bool {
    exists|k: int| 0 <= k < chs.len() && (#[trigger] chs[k]).id == ch && chs[k].sink_id is Some
}

/// Action `a` routes an app to a channel that has a virtual sink.
pub open spec fn routes_to_sink_channel(a: GraphAction, chs: Seq<GraphChannel>) -> bool {
    match a {
        GraphAction::RouteApp(_, _, ch) => has_sink_channel(chs, ch),
        _ => false,
    }
}

proof fn lemma_filter_map_has<A, B>(s: Seq<A>, f: spec_fn(A) -> Option<B>, i: int)
    requires
        0 <= i < s.len(),
        f(s[i]) is Some,
    ensures
        s.filter_map(f).contains(f(s[i])->0),
    decreases s.len(),
{
    let x = f(s[i])->0;
    let rest = s.drop_last();
    if i == s.len() - 1 {
        let fm = rest.filter_map(f) + seq![x];
        assert(s.filter_map(f) == fm);
        assert(fm[fm.len() - 1] == x);
    } else {
        assert(rest[i] == s[i]);
        lemma_filter_map_has(rest, f, i);
        let k = choose|k: int| 0 <= k < rest.filter_map(f).len() && rest.filter_map(f)[k] == x;
        match f(s.last()) {
            Some(y) => {
                assert(s.filter_map(f) == rest.filter_map(f) + seq![y]);
                assert(s.filter_map(f)[k] == x);
            },
            None => {
                assert(s.filter_map(f) == rest.filter_map(f));
            },
        }
    }
}

proof fn lemma_group_ids_distinct(apps: Seq<GraphApp>, ident: Seq<char>, routed: Seq<u32>)
    requires
        keys_unique(apps),
    ensures
        group_ids(apps, ident, routed).no_duplicates(),
    decreases apps.len(),
{
    if apps.len() > 0 {
        let f = group_pick(ident, routed);
        let rest = apps.drop_last();
        assert forall|i: int, j: int| 0 <= i < j < rest.len() implies #[trigger] rest[i].key_of() != #[trigger] rest[j].key_of() by {
            assert(apps[i].key_of() != apps[j].key_of());
        }
        lemma_group_ids_distinct(rest, ident, routed);
        let g0 = rest.filter_map(f);
        match f(apps.last()) {
            Some(x) => {
                assert(apps.filter_map(f) == g0 + seq![x]);
                assert(!g0.contains(x)) by {
                    if g0.contains(x) {
                        rest.lemma_filter_map_contains(f, x);
                        let a = choose|a: GraphApp| #[trigger] rest.contains(a) && f(a) == Some(x);
                        let k = choose|k: int| 0 <= k < rest.len() && rest[k] == a;
                        assert(apps[k].key_of() != apps[apps.len() - 1].key_of());
                    }
                }
                let g = g0 + seq![x];
                assert forall|i: int, j: int| 0 <= i < g.len() && 0 <= j < g.len() && i != j implies g[i] != g[j] by {
                    if i == g0.len() as int {
                        assert(g0.contains(g[j]));
                    } else if j == g0.len() as int {
                        assert(g0.contains(g[i]));
                    }
                }
            },
            None => {
                assert(apps.filter_map(f) == g0);
            },
        }
    }
}

proof fn lemma_route_choice_sink(chs: Seq<GraphChannel>, links: Seq<PwLink>, rules: Seq<RoutingRule>, app: GraphApp)
    ensures
        route_choice(chs, links, rules, app) matches Some(Some(ch)) ==> has_sink_channel(chs, ch),
{
    if exists|i: int| first_channel_with_app(chs, app.identifier@, i) {
        let i = choose|i: int| first_channel_with_app(chs, app.identifier@, i);
        if chs[i].sink_id is Some {
            assert(chs[i].id == chs[i].id);
        }
    } else {
        match matching_rule(rules, app.name@, opt_string_view(app.binary)) {
            Some(r) => {
                if exists|i: int| first_channel_named(chs, r.target_channel@, i) {
                    let i = choose|i: int| first_channel_named(chs, r.target_channel@, i);
                    assert(chs[i].id == chs[i].id);
                }
            },
            None => {},
        }
    }
}

/// One more app of the pass keeps every routed node routed.
proof fn lemma_auto_route_step_grows(
    apps: Seq<GraphApp>,
    n: nat,
    chs: Seq<GraphChannel>,
    links: Seq<PwLink>,
    rules: Seq<RoutingRule>,
    group: bool,
    routed0: Seq<u32>,
)
    requires
        n < apps.len(),
    ensures
        forall|x: u32| #[trigger] auto_route(apps, n, chs, links, rules, group, routed0).0.contains(x)
            ==> auto_route(apps, n + 1, chs, links, rules, group, routed0).0.contains(x),
{
    let prev = auto_route(apps, n, chs, links, rules, group, routed0);
    let r = auto_route(apps, n + 1, chs, links, rules, group, routed0);
    assert(prev == auto_route(apps, ((n + 1) - 1) as nat, chs, links, rules, group, routed0));
    assert forall|x: u32| prev.0.contains(x) implies r.0.contains(x) by {
        let i = choose|i: int| 0 <= i < prev.0.len() && prev.0[i] == x;
        assert(r.0[i] == x);
    }
}

proof fn lemma_auto_route_grows(
    apps: Seq<GraphApp>,
    n: nat,
    m: nat,
    chs: Seq<GraphChannel>,
    links: Seq<PwLink>,
    rules: Seq<RoutingRule>,
    group: bool,
    routed0: Seq<u32>,
)
    requires
        n <= m <= apps.len(),
    ensures
        forall|x: u32| #[trigger] auto_route(apps, n, chs, links, rules, group, routed0).0.contains(x)
            ==> auto_route(apps, m, chs, links, rules, group, routed0).0.contains(x),
    decreases m - n,
{
    if n < m {
        lemma_auto_route_step_grows(apps, n, chs, links, rules, group, routed0);
        lemma_auto_route_grows(apps, n + 1, m, chs, links, rules, group, routed0);
    }
}

/// Within one pass, no node is routed twice, and every route goes to a
/// channel with a sink.
proof fn lemma_auto_route_distinct(
    apps: Seq<GraphApp>,
    n: nat,
    chs: Seq<GraphChannel>,
    links: Seq<PwLink>,
    rules: Seq<RoutingRule>,
    group: bool,
    routed0: Seq<u32>,
)
    requires
        keys_unique(apps),
    ensures
        ({
            let r = auto_route(apps, n, chs, links, rules, group, routed0);
            &&& forall|j: int, k: int| 0 <= j < k < r.1.len() ==> routed_node(#[trigger] r.1[j]) != routed_node(
                #[trigger] r.1[k],
            )
            &&& forall|j: int| 0 <= j < r.1.len() ==> routes_to_sink_channel(#[trigger] r.1[j], chs)
        }),
    decreases n,
{
    if n == 0 || n > apps.len() {
    } else {
        let prev = auto_route(apps, (n - 1) as nat, chs, links, rules, group, routed0);
        lemma_auto_route_distinct(apps, (n - 1) as nat, chs, links, rules, group, routed0);
        lemma_auto_route_marks(apps, (n - 1) as nat, chs, links, rules, group, routed0);
        lemma_route_choice_sink(chs, links, rules, apps[n - 1]);
        let app = apps[n - 1];
        let r = auto_route(apps, n, chs, links, rules, group, routed0);
        if !prev.0.contains(app.node_id) {
            match route_choice(chs, links, rules, app) {
                Some(Some(ch)) => {
                    if group {
                        let g = group_ids(apps, app.identifier@, prev.0);
                        lemma_group_ids_distinct(apps, app.identifier@, prev.0);
                        assert(r.1 == prev.1 + route_actions(g, app.identifier, ch));
                        assert forall|j: int| 0 <= j < r.1.len() implies routes_to_sink_channel(#[trigger] r.1[j], chs) by {
                            if j < prev.1.len() {
                                assert(r.1[j] == prev.1[j]);
                            }
                        }
                        assert forall|j: int, k: int| 0 <= j < k < r.1.len() implies routed_node(#[trigger] r.1[j])
                            != routed_node(#[trigger] r.1[k]) by {
                            let p = prev.1.len() as int;
                            if k >= p {
                                assert(routed_node(r.1[k]) == Some(g[k - p]));
                                assert(g.contains(g[k - p]));
                                apps.lemma_filter_map_contains(group_pick(app.identifier@, prev.0), g[k - p]);
                                if j >= p {
                                    assert(routed_node(r.1[j]) == Some(g[j - p]));
                                } else {
                                    assert(r.1[j] == prev.1[j]);
                                    assert(routes_fresh(prev.1[j], prev.0, routed0));
                                }
                            } else {
                                assert(r.1[j] == prev.1[j]);
                                assert(r.1[k] == prev.1[k]);
                            }
                        }
                    } else {
                        assert forall|j: int| 0 <= j < r.1.len() implies routes_to_sink_channel(#[trigger] r.1[j], chs) by {
                            if j < prev.1.len() {
                                assert(r.1[j] == prev.1[j]);
                            }
                        }
                        assert forall|j: int, k: int| 0 <= j < k < r.1.len() implies routed_node(#[trigger] r.1[j])
                            != routed_node(#[trigger] r.1[k]) by {
                            if k == prev.1.len() {
                                assert(r.1[j] == prev.1[j]);
                                assert(routes_fresh(prev.1[j], prev.0, routed0));
                            } else {
                                assert(r.1[j] == prev.1[j]);
                                assert(r.1[k] == prev.1[k]);
                            }
                        }
                    }
                },
                _ => {},
            }
        }
    }
}

/// A second pass from the nodes the full pass routed, on the same apps,
/// channels, links and rules, routes nothing more.
proof fn lemma_second_pass_idle(
    apps: Seq<GraphApp>,
    n: nat,
    chs: Seq<GraphChannel>,
    links: Seq<PwLink>,
    rules: Seq<RoutingRule>,
    group: bool,
    routed0: Seq<u32>,
)
    requires
        n <= apps.len(),
    ensures
        ({
            let fin = auto_route(apps, apps.len(), chs, links, rules, group, routed0).0;
            auto_route(apps, n, chs, links, rules, group, fin) == (fin, Seq::<GraphAction>::empty())
        }),
    decreases n,
{
    let fin = auto_route(apps, apps.len(), chs, links, rules, group, routed0).0;
    if n > 0 {
        lemma_second_pass_idle(apps, (n - 1) as nat, chs, links, rules, group, routed0);
        let app = apps[n - 1];
        if !fin.contains(app.node_id) {
            let p1 = auto_route(apps, (n - 1) as nat, chs, links, rules, group, routed0);
            let r1 = auto_route(apps, n, chs, links, rules, group, routed0);
            lemma_auto_route_step_grows(apps, (n - 1) as nat, chs, links, rules, group, routed0);
            lemma_auto_route_grows(apps, n, apps.len(), chs, links, rules, group, routed0);
            assert(!r1.0.contains(app.node_id));
            assert(!p1.0.contains(app.node_id));
            match route_choice(chs, links, rules, app) {
                None => {},
                Some(None) => {
                    assert(r1.0 == p1.0.push(app.node_id));
                    assert(r1.0[p1.0.len() as int] == app.node_id);
                },
                Some(Some(ch)) => {
                    if group {
                        let f = group_pick(app.identifier@, p1.0);
                        let g = group_ids(apps, app.identifier@, p1.0);
                        assert(f(apps[n - 1]) == Some(app.node_id));
                        lemma_filter_map_has(apps, f, n - 1);
                        let k = choose|k: int| 0 <= k < g.len() && g[k] == app.node_id;
                        assert(r1.0 == p1.0 + g);
                        assert(r1.0[p1.0.len() + k] == app.node_id);
                    } else {
                        assert(r1.0 == p1.0.push(app.node_id));
                        assert(r1.0[p1.0.len() as int] == app.node_id);
                    }
                },
            }
        }
    }
}

/// One auto-routing pass, when no two apps share a node: it routes no node
/// twice and none that was routed before; every node it routes is marked
/// routed, and the routed nodes only grow; every route goes to a channel
/// with a sink; and a second pass with nothing changed in between routes
/// nothing.
pub proof fn law_auto_routing_pass(s: GraphModel, t: GraphModel)
    requires
        keys_unique(s.apps@),
        t == (GraphModel { auto_routed: t.auto_routed, ..s }),
        t.auto_routed@ == auto_route_all(s).0,
    ensures
        ({
            let (routed, out) = auto_route_all(s);
            &&& forall|x: u32| s.auto_routed@.contains(x) ==> routed.contains(x)
            &&& forall|j: int| 0 <= j < out.len() ==> routes_fresh(#[trigger] out[j], routed, s.auto_routed@)
            &&& forall|j: int, k: int| 0 <= j < k < out.len() ==> routed_node(#[trigger] out[j]) != routed_node(
                #[trigger] out[k],
            )
            &&& forall|j: int| 0 <= j < out.len() ==> routes_to_sink_channel(#[trigger] out[j], s.channels@)
            &&& auto_route_all(t) == (routed, Seq::<GraphAction>::empty())
        }),
{
    let apps = s.apps@;
    lemma_auto_route_marks(apps, apps.len(), s.channels@, s.links@, s.routing_rules.rules@, grouped(s), s.auto_routed@);
    lemma_auto_route_distinct(apps, apps.len(), s.channels@, s.links@, s.routing_rules.rules@, grouped(s), s.auto_routed@);
    lemma_second_pass_idle(apps, apps.len(), s.channels@, s.links@, s.routing_rules.rules@, grouped(s), s.auto_routed@);
}

/// No app node is routed twice: whatever a later auto-routing pass routes
/// (on any apps, channels, links and rules), it routes no node that an
/// earlier pass routed, and every action of a pass routes an app node.
pub proof fn law_auto_routing_never_routes_a_node_twice(first: GraphModel, later: GraphModel)
    requires
        later.auto_routed@ == auto_route_all(first).0,
    ensures
        ({
            let (routed1, out1) = auto_route_all(first);
            let (routed2, out2) = auto_route_all(later);
            &&& forall|j: int| 0 <= j < out1.len() ==> routed_node(#[trigger] out1[j]) is Some
            &&& forall|j: int, k: int| 0 <= j < out1.len() && 0 <= k < out2.len() ==> routed_node(#[trigger] out1[j])
                != routed_node(#[trigger] out2[k])
        }),
{
    let f = auto_route_all(first);
    let l = auto_route_all(later);
    lemma_auto_route_marks(first.apps@, first.apps@.len(), first.channels@, first.links@, first.routing_rules.rules@,
        grouped(first), first.auto_routed@);
    lemma_auto_route_marks(later.apps@, later.apps@.len(), later.channels@, later.links@, later.routing_rules.rules@,
        grouped(later), later.auto_routed@);
    assert forall|j: int| 0 <= j < f.1.len() implies routed_node(#[trigger] f.1[j]) is Some by {
        assert(routed_node(f.1[j]) is Some);
    }
    assert forall|j: int, k: int| 0 <= j < f.1.len() && 0 <= k < l.1.len() implies routed_node(#[trigger] f.1[j])
        != routed_node(#[trigger] l.1[k]) by {
        assert(routed_node(f.1[j]) is Some);
        assert(routed_node(l.1[k]) is Some);
    }
}

/// A channel follows its output device across an unplug and a replug:
/// when the device node it plays on goes away, it is sent to the default
/// output and forgets the node; when an audio sink with the chosen device's
/// description or name appears, it plays on that node again.
pub proof fn law_device_unplug_and_replug(c: GraphChannel, gone: u32, back: PwNode)
    requires
        c.output_device_id == Some(gone),
        c.loopback_output_id is Some,
        c.output_device_name matches Some(saved) && (back.description@ == saved@ || back.name@ == saved@),
        back.is_audio_sink,
    ensures
        removal_action(c, gone) == Some(GraphAction::RouteChannelToDevice(c.loopback_output_id->0, None)),
        after_device_removed(c, gone).output_device_id is None,
        readd_action(after_device_removed(c, gone), back) == Some(
            GraphAction::RouteChannelToDevice(c.loopback_output_id->0, Some(back.id)),
        ),
        after_device_added(after_device_removed(c, gone), back) == (GraphChannel {
            output_device_id: Some(back.id),
            ..c
        }),
{
}

/// A channel that plays on a device, or has no chosen device, is left alone
/// when a device appears.
pub proof fn law_device_added_leaves_routed_channels(c: GraphChannel, n: PwNode)
    requires
        c.output_device_id is Some || c.output_device_name is None,
    ensures
        after_device_added(c, n) == c,
        readd_action(c, n) is None,
{
}

/// Once a virtual sink is gone, no channel names it as its sink.
pub proof fn law_destroyed_sink_is_forgotten(s: GraphModel, node: u32, t: GraphModel, actions: Seq<GraphAction>)
    requires
        graph_step_spec(s, GraphEvent::VirtualSinkDestroyed(node), t, actions),
    ensures
        forall|k: int| 0 <= k < t.channels@.len() ==> (#[trigger] t.channels@[k]).sink_id != Some(node),
        actions.len() == 0,
{
    assert forall|k: int| 0 <= k < t.channels@.len() implies (#[trigger] t.channels@[k]).sink_id != Some(node) by {
        assert(t.channels@[k] == sink_dropped(s.channels@[k], node));
    }
}

/// A removed node leaves the node table, the app table and the routed
/// nodes, so an app that restarts on a new node can be routed again.
pub proof fn law_removed_node_is_forgotten(s: GraphModel, id: u32, t: GraphModel, actions: Seq<GraphAction>)
    requires
        graph_step_spec(s, GraphEvent::NodeRemoved(id), t, actions),
    ensures
        !has_key(t.nodes@, id),
        !has_key(t.apps@, id),
        !t.auto_routed@.contains(id),
{
    if has_key(t.nodes@, id) {
        let j = choose|j: int| 0 <= j < t.nodes@.len() && #[trigger] t.nodes@[j].key_of() == id;
        assert(t.nodes@.contains(t.nodes@[j]));
        s.nodes@.filter_lemma(other_key::<PwNode>(id));
    }
    if has_key(t.apps@, id) {
        let j = choose|j: int| 0 <= j < t.apps@.len() && #[trigger] t.apps@[j].key_of() == id;
        assert(t.apps@.contains(t.apps@[j]));
        s.apps@.filter_lemma(other_key::<GraphApp>(id));
    }
    s.auto_routed@.filter_lemma(other_node(id));
}

/// Storing an entry keeps a table keyed: no two entries share a key, and
/// the entry is found under its key afterwards.
pub proof fn law_upsert_keeps_table_keyed<T: Keyed>(s: Seq<T>, x: T, t: Seq<T>)
    requires
        keys_unique(s),
        upserted(s, x, t),
    ensures
        keys_unique(t),
        exists|pos: int| first_with_key(t, x.key_of(), pos) && t[pos] == x,
{
    if has_key(s, x.key_of()) {
        let j = choose|j: int| 0 <= j < s.len() && #[trigger] s[j].key_of() == x.key_of();
        assert(first_with_key(s, x.key_of(), j)) by {
            assert forall|i: int| 0 <= i < j implies #[trigger] s[i].key_of() != x.key_of() by {
                assert(s[i].key_of() != s[j].key_of());
            }
        }
        assert(t == s.update(j, x));
        assert forall|a: int, b: int| 0 <= a < b < t.len() implies #[trigger] t[a].key_of() != #[trigger] t[b].key_of() by {
            if a == j {
                assert(s[j].key_of() != s[b].key_of());
            } else if b == j {
                assert(s[a].key_of() != s[j].key_of());
            } else {
                assert(s[a].key_of() != s[b].key_of());
            }
        }
        assert(first_with_key(t, x.key_of(), j));
    } else {
        assert(t == s.push(x));
        assert forall|a: int, b: int| 0 <= a < b < t.len() implies #[trigger] t[a].key_of() != #[trigger] t[b].key_of() by {
            if b == s.len() {
                assert(s[a].key_of() != x.key_of());
            } else {
                assert(s[a].key_of() != s[b].key_of());
            }
        }
        assert(first_with_key(t, x.key_of(), s.len() as int));
    }
}

/// The binary of an app, as text.
pub open spec fn binary_text(app: GraphApp) -> Option<Seq<char>> {
    match app.binary {
        Some(b) => Some(b@),
        None => None,
    }
}

/// An app assigned to no channel is routed by the rules: on a tick after
/// startup, when the first rule that accepts the app's name or binary names
/// a channel (the first of that name) with a sink, the app goes to that
/// channel and its node is marked routed. This holds whether the rule
/// accepted the name or only the binary.
pub proof fn law_rule_routes_unassigned_app(
    s: GraphModel,
    app: GraphApp,
    i: int,
    j: int,
    t: GraphModel,
    actions: Seq<GraphAction>,
)
    requires
        s.startup_complete,
        s.apps@ == seq![app],
        !s.auto_routed@.contains(app.node_id),
        forall|k: int| 0 <= k < s.channels@.len() ==> !views((#[trigger] s.channels@[k]).assigned_apps@).contains(app.identifier@),
        0 <= i < s.routing_rules.rules@.len(),
        s.routing_rules.rules@[i].matches_spec(app.name@, binary_text(app)),
        forall|k: int| 0 <= k < i ==> !(#[trigger] s.routing_rules.rules@[k]).matches_spec(app.name@, binary_text(app)),
        0 <= j < s.channels@.len(),
        s.channels@[j].name@ == s.routing_rules.rules@[i].target_channel@,
        s.channels@[j].sink_id is Some,
        forall|k: int| 0 <= k < j ==> (#[trigger] s.channels@[k]).name@ != s.routing_rules.rules@[i].target_channel@,
        graph_step_spec(s, GraphEvent::Tick, t, actions),
    ensures
        actions == seq![GraphAction::RouteApp(app.node_id, app.identifier, s.channels@[j].id)],
        t.auto_routed@ == s.auto_routed@.push(app.node_id),
{
    let chs = s.channels@;
    let rules = s.routing_rules.rules@;
    let apps = s.apps@;
    let r = rules[i];
    assert(opt_string_view(app.binary) == binary_text(app));
    assert(!exists|x: int| first_channel_with_app(chs, app.identifier@, x));
    assert(first_matching_rule(rules, app.name@, opt_string_view(app.binary), i));
    let i2 = choose|x: int| first_matching_rule(rules, app.name@, opt_string_view(app.binary), x);
    lemma_first_matching_rule_unique(rules, app.name@, opt_string_view(app.binary), i, i2);
    assert(matching_rule(rules, app.name@, opt_string_view(app.binary)) == Some(r));
    assert(first_channel_named(chs, r.target_channel@, j));
    let j2 = choose|x: int| first_channel_named(chs, r.target_channel@, x);
    lemma_first_channel_named_unique(chs, r.target_channel@, j, j2);
    assert(channel_named(chs, r.target_channel@) == Some(chs[j]));
    assert(route_choice(chs, s.links@, rules, app) == Some(Some(chs[j].id)));
    assert(apps[0] == app);
    let prev = auto_route(apps, 0, chs, s.links@, rules, grouped(s), s.auto_routed@);
    assert(prev == (s.auto_routed@, Seq::<GraphAction>::empty()));
    assert(auto_route(apps, 1, chs, s.links@, rules, grouped(s), s.auto_routed@) == auto_route_all(s));
    if grouped(s) {
        let f = group_pick(app.identifier@, s.auto_routed@);
        Seq::lemma_filter_map_singleton(app, f);
        assert(group_ids(apps, app.identifier@, s.auto_routed@) =~= seq![app.node_id]);
        assert(route_actions(seq![app.node_id], app.identifier, chs[j].id) =~= seq![
            GraphAction::RouteApp(app.node_id, app.identifier, chs[j].id),
        ]);
        assert(s.auto_routed@ + seq![app.node_id] =~= s.auto_routed@.push(app.node_id));
    }
    assert(Seq::<GraphAction>::empty().push(GraphAction::RouteApp(app.node_id, app.identifier, chs[j].id)) =~= seq![
        GraphAction::RouteApp(app.node_id, app.identifier, chs[j].id),
    ]);
}

/// An app assigned to a channel goes to that channel, whatever the rules
/// say: on a tick after startup, when the first channel the app is assigned
/// to has a sink, the app is routed there unless a link from the app to that
/// sink exists already, in which case it is only marked routed.
pub proof fn law_assigned_app_goes_to_its_channel(
    s: GraphModel,
    app: GraphApp,
    j: int,
    sink: u32,
    t: GraphModel,
    actions: Seq<GraphAction>,
)
    requires
        s.startup_complete,
        s.apps@ == seq![app],
        !s.auto_routed@.contains(app.node_id),
        0 <= j < s.channels@.len(),
        views(s.channels@[j].assigned_apps@).contains(app.identifier@),
        forall|k: int| 0 <= k < j ==> !views((#[trigger] s.channels@[k]).assigned_apps@).contains(app.identifier@),
        s.channels@[j].sink_id == Some(sink),
        graph_step_spec(s, GraphEvent::Tick, t, actions),
    ensures
        t.auto_routed@ == s.auto_routed@.push(app.node_id),
        (exists|k: int| 0 <= k < s.links@.len() && (#[trigger] s.links@[k]).output_node == app.node_id
            && s.links@[k].input_node == sink) ==> actions == Seq::<GraphAction>::empty(),
        !(exists|k: int| 0 <= k < s.links@.len() && (#[trigger] s.links@[k]).output_node == app.node_id
            && s.links@[k].input_node == sink) ==> actions == seq![
            GraphAction::RouteApp(app.node_id, app.identifier, s.channels@[j].id),
        ],
{
    let chs = s.channels@;
    let rules = s.routing_rules.rules@;
    let apps = s.apps@;
    assert(first_channel_with_app(chs, app.identifier@, j));
    let j2 = choose|x: int| first_channel_with_app(chs, app.identifier@, x);
    lemma_first_channel_with_app_unique(chs, app.identifier@, j, j2);
    assert(assigned_channel(chs, app.identifier@) == Some(chs[j]));
    assert(apps[0] == app);
    let prev = auto_route(apps, 0, chs, s.links@, rules, grouped(s), s.auto_routed@);
    assert(prev == (s.auto_routed@, Seq::<GraphAction>::empty()));
    assert(auto_route(apps, 1, chs, s.links@, rules, grouped(s), s.auto_routed@) == auto_route_all(s));
    if linked(s.links@, app.node_id, sink) {
        assert(route_choice(chs, s.links@, rules, app) == Some(None::<u128>));
    } else {
        assert(route_choice(chs, s.links@, rules, app) == Some(Some(chs[j].id)));
        if grouped(s) {
            let f = group_pick(app.identifier@, s.auto_routed@);
            Seq::lemma_filter_map_singleton(app, f);
            assert(group_ids(apps, app.identifier@, s.auto_routed@) =~= seq![app.node_id]);
            assert(route_actions(seq![app.node_id], app.identifier, chs[j].id) =~= seq![
                GraphAction::RouteApp(app.node_id, app.identifier, chs[j].id),
            ]);
            assert(s.auto_routed@ + seq![app.node_id] =~= s.auto_routed@.push(app.node_id));
        }
        assert(Seq::<GraphAction>::empty().push(GraphAction::RouteApp(app.node_id, app.identifier, chs[j].id)) =~= seq![
            GraphAction::RouteApp(app.node_id, app.identifier, chs[j].id),
        ]);
    }
}

/// When a channel's virtual sink is created with a loopback, the loopback
/// is sent to the device the user chose for the channel: the first audio
/// sink whose description or name is the chosen device's name.
pub proof fn law_sink_routed_to_chosen_device(
    s: GraphModel,
    ch: u128,
    node: u32,
    lb: u32,
    pos: int,
    dev: String,
    i: int,
    t: GraphModel,
    actions: Seq<GraphAction>,
)
    requires
        0 <= pos < s.channels@.len(),
        s.channels@[pos].id == ch,
        forall|k: int| 0 <= k < pos ==> (#[trigger] s.channels@[k]).id != ch,
        s.channels@[pos].output_device_name == Some(dev),
        0 <= i < s.nodes@.len(),
        s.nodes@[i].is_audio_sink,
        s.nodes@[i].description@ == dev@ || s.nodes@[i].name@ == dev@,
        forall|k: int| 0 <= k < i ==> !((#[trigger] s.nodes@[k]).is_audio_sink && (s.nodes@[k].description@ == dev@
            || s.nodes@[k].name@ == dev@)),
        graph_step_spec(s, GraphEvent::VirtualSinkCreated(ch, node, Some(lb)), t, actions),
    ensures
        actions == seq![GraphAction::RouteChannelToDevice(lb, Some(s.nodes@[i].id))],
        t.channels@[pos].sink_id == Some(node),
        t.channels@[pos].loopback_output_id == Some(lb),
{
    assert(first_channel_id(s.channels@, ch, pos));
    assert(first_device_named(s.nodes@, dev@, i));
    let i2 = choose|x: int| first_device_named(s.nodes@, dev@, x);
    lemma_first_device_named_unique(s.nodes@, dev@, i, i2);
    assert(device_named(s.nodes@, s.channels@[pos].output_device_name) == Some(s.nodes@[i].id));
}

/// When no audio sink has the chosen device's description or name (or no
/// device was chosen), the new sink's loopback plays on the default output.
pub proof fn law_sink_without_device_plays_on_default(
    s: GraphModel,
    ch: u128,
    node: u32,
    lb: u32,
    pos: int,
    t: GraphModel,
    actions: Seq<GraphAction>,
)
    requires
        0 <= pos < s.channels@.len(),
        s.channels@[pos].id == ch,
        forall|k: int| 0 <= k < pos ==> (#[trigger] s.channels@[k]).id != ch,
        match s.channels@[pos].output_device_name {
            Some(dev) => forall|k: int| 0 <= k < s.nodes@.len() ==> !((#[trigger] s.nodes@[k]).is_audio_sink && (
            s.nodes@[k].description@ == dev@ || s.nodes@[k].name@ == dev@)),
            None => true,
        },
        graph_step_spec(s, GraphEvent::VirtualSinkCreated(ch, node, Some(lb)), t, actions),
    ensures
        actions == seq![GraphAction::RouteChannelToDevice(lb, None)],
{
    assert(first_channel_id(s.channels@, ch, pos));
    match s.channels@[pos].output_device_name {
        Some(dev) => {
            if exists|x: int| first_device_named(s.nodes@, dev@, x) {
                let x = choose|x: int| first_device_named(s.nodes@, dev@, x);
                assert(s.nodes@[x].is_audio_sink);
            }
        },
        None => {},
    }
}

} // verus!
