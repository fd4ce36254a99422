//! The mixer's decisions as a step function: from the mixer's state and one
//! event (a user action or a message of the daemon) to the next state and
//! the actions the program then performs (saving the rules, starting or
//! stopping the local PipeWire thread).

use vstd::prelude::*;
use crate::errors::{decimal_spec, push_decimal};
use crate::parse::{parse_unsigned, parse_unsigned_spec, trim, trim_spec};
use crate::routing_rules::{
    has_id, is_first_with_id, is_priority_sort_of, exchanged_neighbours, toggled, position_of, fresh_uuid,
    MatchTarget, MatchType, RoutingRule, RoutingRulesConfig,
};
use crate::plugin_chain::PluginSlot;
use crate::text::{chars_of, str_eq, string_from_chars, string_push_str};

verus! {

/// What `uuid::Uuid::parse_str` makes of a text: the 128-bit value of the
/// UUID it writes, or `None` when it writes none.
pub uninterp spec fn uuid_text_value(s: Seq<char>) -> Option<u128>;

/// `uuid::Uuid::parse_str`, as the 128-bit value. Trusted: the result is a
/// function of the text alone, named `uuid_text_value`; the accepted forms
/// (simple, hyphenated, braced, URN) are not restated.
#[verifier::external_body]
fn parse_uuid(s: &str) -> (r: Option<u128>)
    ensures
        r == uuid_text_value(s@),
{
    match uuid::Uuid::parse_str(s) {
        Ok(u) => Some(u.as_u128()),
        Err(_) => None,
    }
}

/// A mixer channel as the mixer's decisions see it.
#[derive(Debug, Clone)]
pub struct ChannelModel {
    /// The channel's id (the 128-bit value of its UUID).
    pub id: u128,
    /// The channel's name.
    pub name: String,
    /// Identifiers of the apps assigned to the channel.
    pub assigned_apps: Vec<String>,
    /// The channel's virtual sink node, once created.
    pub sink_id: Option<u32>,
    /// Whether it is an input (microphone) channel.
    pub is_input: bool,
    pub muted: bool,
    pub eq_enabled: bool,
    /// The name of the channel's EQ preset.
    pub eq_preset: String,
    /// The output device chosen for an output channel (`None`: default).
    pub output_device_name: Option<String>,
    /// The input device chosen for an input channel.
    pub input_device_name: Option<String>,
}

/// A channel as the daemon reports it (its id as text).
#[derive(Debug, Clone)]
pub struct ChannelInfo {
    pub id_text: String,
    pub name: String,
    pub assigned_apps: Vec<String>,
    pub is_input: bool,
    pub muted: bool,
    pub eq_enabled: bool,
    pub eq_preset: String,
    /// The chosen device (the output device of an output channel, the
    /// microphone of an input channel); empty when none.
    pub output_device: String,
}

/// An application playing audio.
#[derive(Debug, Clone)]
pub struct AppModel {
    /// The app's stream node.
    pub node_id: u32,
    /// The app's name.
    pub name: String,
    /// The app's binary, when known.
    pub binary: Option<String>,
}

/// An app as the daemon reports it (its binary empty when unknown).
#[derive(Debug, Clone)]
pub struct DaemonAppInfo {
    pub node_id: u32,
    pub name: String,
    pub binary: String,
}

/// The routing rule being edited in the rules panel.
#[derive(Debug, Clone)]
pub struct EditingRule {
    /// The rule being changed, or `None` for a new rule.
    pub id: Option<u128>,
    pub name: String,
    pub pattern: String,
    /// `contains`, `exact`, `regex` or `glob`.
    pub match_type_name: String,
    pub match_target: MatchTarget,
    pub target_channel: String,
    pub priority: u32,
    pub enabled: bool,
}

/// The state the mixer's decisions read and change.
#[derive(Debug)]
pub struct MixerModel {
    pub channels: Vec<ChannelModel>,
    pub apps: Vec<AppModel>,
    pub routing_rules: RoutingRulesConfig,
    pub editing_rule: Option<EditingRule>,
    pub routing_rules_panel_open: bool,
    pub daemon_connected: bool,
    pub pw_connected: bool,
    /// The channel whose name is being edited, with the text typed so far.
    pub editing_channel: Option<(u128, String)>,
    /// The app being dragged onto a channel: its node and identifier.
    pub dragging_app: Option<(u32, String)>,
    /// The last error to show.
    pub last_error: Option<String>,
    pub selected_channel: Option<u128>,
    pub plugin_browser_channel: Option<u128>,
    pub eq_panel_channel: Option<u128>,
    pub settings_open: bool,
    pub left_sidebar_collapsed: bool,
    pub bottom_panel_expanded: bool,
    pub master_muted: bool,
    /// The master output device chosen (its description or name).
    pub output_device: Option<String>,
    /// Whether the saved or the daemon's state has been taken over.
    pub startup_complete: bool,
}

/// One event the mixer reacts to.
#[derive(Debug, Clone)]
pub enum MixerEvent {
    OpenRoutingRulesPanel,
    CloseRoutingRulesPanel,
    ToggleRoutingRule(u128),
    DeleteRoutingRule(u128),
    MoveRoutingRuleUp(u128),
    MoveRoutingRuleDown(u128),
    /// Edit an existing rule, or a new one (`None`).
    StartEditingRule(Option<u128>),
    CancelEditingRule,
    RuleNameChanged(String),
    RulePatternChanged(String),
    RuleMatchTypeChanged(String),
    RuleMatchTargetChanged(MatchTarget),
    RuleTargetChannelChanged(String),
    /// The priority field's text.
    RulePriorityChanged(String),
    SaveRoutingRule,
    /// A contains rule for an app: its name, its binary, the target channel.
    CreateQuickRule(String, Option<String>, String),
    /// App identifier assigned to a channel.
    AppAssigned(u128, String),
    DaemonConnected,
    DaemonDisconnected,
    /// The daemon's full state: PipeWire connection, master mute, channels,
    /// apps.
    DaemonInitialState(bool, bool, Vec<ChannelInfo>, Vec<DaemonAppInfo>),
    DaemonMasterMuteChanged(bool),
    DaemonChannelAdded(ChannelInfo),
    /// A channel's id as text.
    DaemonChannelRemoved(String),
    DaemonChannelUpdated(ChannelInfo),
    DaemonAppDiscovered(DaemonAppInfo),
    /// A channel's id as text, and whether it is muted now.
    DaemonMuteChanged(String, bool),
    /// An app's node id as text.
    DaemonAppRemoved(String),
    PipeWireConnectionChanged(bool),
    /// The saved configuration, taken over at startup: master mute, master
    /// output device, channels.
    RestoreChannels(bool, Option<String>, Vec<SavedChannel>),
    ChannelMuteToggled(u128),
    MasterMuteToggled,
    TrayToggleMuteAll,
    /// The master output device chosen.
    OutputDeviceChanged(String),
    /// A channel's output device chosen (`None`: the default output).
    ChannelOutputDeviceChanged(u128, Option<String>),
    ChannelEqToggled(u128),
    /// A channel's EQ filter is running.
    EqEnabled(u128),
    /// An app identifier taken off a channel, with the node of the running
    /// app of that identifier when there is one.
    AppUnassigned(u128, String, Option<u32>),
    StartEditingChannelName(u128),
    ChannelNameEditChanged(String),
    CancelEditingChannelName,
    /// A channel's new name, as typed.
    ChannelRenamed(u128, String),
    ChannelDeleted(u128),
    NewChannelRequested,
    NewInputChannelRequested,
    /// An app (its node and identifier) picked up to drop on a channel.
    StartDraggingApp(u32, String),
    CancelDrag,
    DropAppOnChannel(u128),
    SelectChannel(Option<u128>),
    ToggleLeftSidebar,
    ToggleBottomPanel,
    OpenEqPanel(u128),
    CloseEqPanel,
    OpenSettings,
    CloseSettings,
    OpenPluginBrowser(u128),
    ClosePluginBrowser,
}

/// What the program does after a step.
#[derive(Debug, Clone, PartialEq)]
pub enum MixerAction {
    /// Write the routing rules to their file.
    SaveRoutingRules,
    /// Stop the local PipeWire thread (the daemon handles audio).
    ShutdownLocalPipeWire,
    /// Start the local PipeWire thread if it is not running.
    StartLocalPipeWire,
    /// Create the virtual sink of an output channel (its id and name).
    CreateVirtualSink(u128, String),
    /// Create the virtual source of an input channel (its id and name).
    CreateVirtualSource(u128, String),
    /// Write the configuration file.
    SaveConfig,
    /// Rename a channel (through the daemon, or by renaming its sink).
    RenameChannel(u128, String),
    /// Delete a channel (through the daemon, or by destroying its nodes).
    DeleteChannel(u128),
    /// Ask the daemon to create an output channel of this name.
    DaemonCreateChannel(String),
    /// Ask the daemon to create an input channel of this name.
    DaemonCreateInputChannel(String),
    /// Route an app node to a channel.
    AssignApp(u32, u128),
    /// Snap all meters to silence.
    ResetMeters,
    SetChannelMute(u128, bool),
    SetMasterMute(bool),
    /// Show the tray icon muted or not.
    SetTrayMuted(bool),
    /// Play the master output on this device.
    SetMasterOutput(String),
    /// Play a channel on this output device (`None`: the default output).
    SetChannelOutput(u128, Option<String>),
    /// Start a channel's EQ filter (channel id and name).
    EnableEq(u128, String),
    /// Stop a channel's EQ filter (channel id and name).
    DisableEq(u128, String),
    /// Apply the master output device (or the default) and mute state.
    ApplyMasterOutput(Option<String>, bool),
    /// Load a restored channel's plugins.
    LoadPlugins(u128, Vec<PluginSlot>),
    /// Take an app node off a channel (through the daemon, or by linking it
    /// back to the default output).
    UnassignApp(u32, u128),
}

/// A channel as the saved configuration holds it.
#[derive(Debug, Clone)]
pub struct SavedChannel {
    pub id: u128,
    pub name: String,
    pub assigned_apps: Vec<String>,
    /// Whether the mixer created (and so recreates) the channel.
    pub is_managed: bool,
    /// Whether it is an input (microphone) channel.
    pub is_input: bool,
    pub muted: bool,
    pub eq_enabled: bool,
    pub eq_preset: String,
    pub output_device_name: Option<String>,
    pub input_device_name: Option<String>,
    /// The channel's plugins, to load again.
    pub plugin_chain: Vec<PluginSlot>,
}

/// The match type an edited rule gets: by its name, `contains` for any
/// other name.
pub open spec fn match_type_of(name: Seq<char>, pattern: Seq<char>, m: MatchType) -> bool {
    &&& m.pattern_view() == pattern
    &&& if name == "exact"@ {
        m is Exact
    } else if name == "regex"@ {
        m is Regex
    } else if name == "glob"@ {
        m is Glob
    } else {
        m is Contains
    }
}

/// `ed` is the editing form of rule `r`.
pub open spec fn edit_of_rule(ed: EditingRule, r: RoutingRule) -> bool {
    &&& ed.id == Some(r.id)
    &&& ed.name@ == r.name@
    &&& ed.pattern@ == r.match_type.pattern_view()
    &&& ed.match_type_name@ == match r.match_type {
        MatchType::Contains(_) => "contains"@,
        MatchType::Exact(_) => "exact"@,
        MatchType::Regex(_) => "regex"@,
        MatchType::Glob(_) => "glob"@,
    }
    &&& ed.match_target == r.match_target
    &&& ed.target_channel@ == r.target_channel@
    &&& ed.priority == r.priority
    &&& ed.enabled == r.enabled
}

/// The editing form of a new rule: empty texts, `contains`, the app name,
/// priority 100, enabled.
pub open spec fn new_edit(ed: EditingRule) -> bool {
    &&& ed.id is None
    &&& ed.name@ == Seq::<char>::empty()
    &&& ed.pattern@ == Seq::<char>::empty()
    &&& ed.match_type_name@ == "contains"@
    &&& ed.match_target == MatchTarget::AppName
    &&& ed.target_channel@ == Seq::<char>::empty()
    &&& ed.priority == 100
    &&& ed.enabled
}

/// `r` is the rule saved from `ed` (a new rule gets a fresh id).
pub open spec fn rule_of_edit(r: RoutingRule, ed: EditingRule) -> bool {
    &&& (ed.id matches Some(id) ==> r.id == id)
    &&& r.name@ == ed.name@
    &&& match_type_of(ed.match_type_name@, ed.pattern@, r.match_type)
    &&& r.match_target == ed.match_target
    &&& r.target_channel@ == ed.target_channel@
    &&& r.priority == ed.priority
    &&& r.enabled == ed.enabled
}

/// The views of strings.
pub open spec fn views(v: Seq<String>) -> Seq<Seq<char>> {
    v.map_values(|s: String| s@)
}

/// `pos` is the first channel with id `id`.
pub open spec fn first_channel(s: Seq<ChannelModel>, id: u128, pos: int) -> bool {
    &&& 0 <= pos < s.len()
    &&& s[pos].id == id
    &&& forall|k: int| 0 <= k < pos ==> s[k].id != id
}

/// Some channel has id `id`.
pub open spec fn has_channel(s: Seq<ChannelModel>, id: u128) -> bool {
    exists|k: int| 0 <= k < s.len() && s[k].id == id
}

/// The channel a daemon report describes, when its id parses.
pub open spec fn channel_of_info(ci: ChannelInfo) -> Option<ChannelModel> {
    match uuid_text_value(ci.id_text@) {
        Some(id) => Some(ChannelModel {
            id,
            name: ci.name,
            assigned_apps: ci.assigned_apps,
            sink_id: None,
            is_input: ci.is_input,
            muted: ci.muted,
            eq_enabled: ci.eq_enabled,
            eq_preset: ci.eq_preset,
            output_device_name: if !ci.is_input { nonempty(ci.output_device) } else { None },
            input_device_name: if ci.is_input { nonempty(ci.output_device) } else { None },
        }),
        None => None,
    }
}

/// `t` is `s` with only the rule list possibly changed.
pub open spec fn same_but_rules(s: MixerModel, t: MixerModel) -> bool {
    t == (MixerModel { routing_rules: RoutingRulesConfig { rules: t.routing_rules.rules, ..s.routing_rules }, ..s })
}

/// `t` is `s` with only the edited rule possibly changed.
pub open spec fn same_but_edit(s: MixerModel, t: MixerModel) -> bool {
    t == (MixerModel { editing_rule: t.editing_rule, ..s })
}

/// `t` is `s` with only the channels possibly changed.
pub open spec fn same_but_channels(s: MixerModel, t: MixerModel) -> bool {
    t == (MixerModel { channels: t.channels, ..s })
}

/// `t` is `s` with only the apps possibly changed.
pub open spec fn same_but_apps(s: MixerModel, t: MixerModel) -> bool {
    t == (MixerModel { apps: t.apps, ..s })
}

/// The editing rule after a field edit: the edit applies to a rule being
/// edited, and nothing happens otherwise.
pub open spec fn edited(s: Option<EditingRule>, f: spec_fn(EditingRule) -> EditingRule) -> Option<EditingRule> {
    match s {
        Some(ed) => Some(f(ed)),
        None => None,
    }
}

/// The filter "is not the text `x`".
pub open spec fn other_text(x: Seq<char>) -> spec_fn(String) -> bool {
    |a: String| a@ != x
}

/// The filter "is not channel `id`".
pub open spec fn other_channel(id: u128) -> spec_fn(ChannelModel) -> bool {
    |c: ChannelModel| c.id != id
}

/// The filter "is not the app of node `n`".
pub open spec fn other_app(n: u32) -> spec_fn(AppModel) -> bool {
    |a: AppModel| a.node_id != n
}

/// `channel_of_info` as a function value.
pub open spec fn channel_of_info_fn() -> spec_fn(ChannelInfo) -> Option<ChannelModel> {
    |ci: ChannelInfo| channel_of_info(ci)
}

/// Some app plays on node `n`.
pub open spec fn has_app(s: Seq<AppModel>, n: u32) -> bool {
    exists|k: int| 0 <= k < s.len() && s[k].node_id == n
}

/// The pattern of a quick rule: the binary when known, else the app name.
pub open spec fn quick_pattern(app_name: Seq<char>, binary: Option<Seq<char>>) -> Seq<char> {
    match binary {
        Some(b) => b,
        None => app_name,
    }
}

/// A step that changes only the rules, and saves them.
pub open spec fn rule_step(s: MixerModel, t: MixerModel, actions: Seq<MixerAction>) -> bool {
    &&& same_but_rules(s, t)
    &&& actions == seq![MixerAction::SaveRoutingRules]
}

/// The channel recreated from a saved one: managed channels only, without
/// a sink until it is created.
pub open spec fn restored_channel(c: SavedChannel) -> Option<ChannelModel> {
    if c.is_managed {
        Some(ChannelModel {
            id: c.id,
            name: c.name,
            assigned_apps: c.assigned_apps,
            sink_id: None,
            is_input: c.is_input,
            muted: c.muted,
            eq_enabled: c.eq_enabled,
            eq_preset: c.eq_preset,
            output_device_name: c.output_device_name,
            input_device_name: c.input_device_name,
        })
    } else {
        None
    }
}

/// The node to create for a recreated channel: a virtual source for an
/// input channel, a virtual sink otherwise.
pub open spec fn restore_action(c: SavedChannel) -> Option<MixerAction> {
    if !c.is_managed {
        None
    } else if c.is_input {
        Some(MixerAction::CreateVirtualSource(c.id, c.name))
    } else {
        Some(MixerAction::CreateVirtualSink(c.id, c.name))
    }
}

/// The plugins to load for a recreated channel that had some.
pub open spec fn plugin_restore(c: SavedChannel) -> Option<MixerAction> {
    if c.is_managed && c.plugin_chain@.len() > 0 {
        Some(MixerAction::LoadPlugins(c.id, c.plugin_chain))
    } else {
        None
    }
}

/// `plugin_restore` as a function value.
pub open spec fn plugin_restore_fn() -> spec_fn(SavedChannel) -> Option<MixerAction> {
    |c: SavedChannel| plugin_restore(c)
}

/// `restored_channel` as a function value.
pub open spec fn restored_channel_fn() -> spec_fn(SavedChannel) -> Option<ChannelModel> {
    |c: SavedChannel| restored_channel(c)
}

/// `restore_action` as a function value.
pub open spec fn restore_action_fn() -> spec_fn(SavedChannel) -> Option<MixerAction> {
    |c: SavedChannel| restore_action(c)
}

/// A channel after the daemon reports it changed: its name, apps, mute and
/// EQ settings follow the report, and its device when the report names one.
pub open spec fn updated_channel(c: ChannelModel, ci: ChannelInfo) -> ChannelModel {
    ChannelModel {
        name: ci.name,
        assigned_apps: ci.assigned_apps,
        muted: ci.muted,
        eq_enabled: ci.eq_enabled,
        eq_preset: ci.eq_preset,
        output_device_name: match nonempty(ci.output_device) {
            Some(d) => Some(d),
            None => c.output_device_name,
        },
        ..c
    }
}

/// A text the daemon reports, `None` when empty.
pub open spec fn nonempty(s: String) -> Option<String> {
    if s@.len() == 0 {
        None
    } else {
        Some(s)
    }
}

/// The app a daemon report describes.
pub open spec fn app_of_info(a: DaemonAppInfo) -> AppModel {
    AppModel { node_id: a.node_id, name: a.name, binary: nonempty(a.binary) }
}

/// `app_of_info` as a function value.
pub open spec fn app_of_info_fn() -> spec_fn(DaemonAppInfo) -> AppModel {
    |a: DaemonAppInfo| app_of_info(a)
}

/// The number a new channel's name carries: one more than the channels of
/// its kind (kept within `u64`).
pub open spec fn next_number(n: nat) -> nat {
    if n < u64::MAX {
        n + 1
    } else {
        u64::MAX as nat
    }
}

/// The filter "is an input channel".
pub open spec fn is_input_channel() -> spec_fn(ChannelModel) -> bool {
    |c: ChannelModel| c.is_input
}

/// The number of input channels.
pub open spec fn input_count(chs: Seq<ChannelModel>) -> nat {
    chs.filter(is_input_channel()).len()
}

/// The channel with id `id` has a virtual sink.
pub open spec fn channel_has_sink(chs: Seq<ChannelModel>, id: u128) -> bool {
    exists|pos: int| first_channel(chs, id, pos) && chs[pos].sink_id is Some
}

/// A new channel named `name`: the daemon is asked to create it when
/// connected; otherwise it is added with a fresh id and its node is
/// created. The configuration is saved either way.
pub open spec fn created_channel(s: MixerModel, t: MixerModel, actions: Seq<MixerAction>, name: Seq<char>, input: bool) -> bool {
    if s.daemon_connected {
        &&& t == s
        &&& actions.len() == 2
        &&& if input {
            (actions[0] matches MixerAction::DaemonCreateInputChannel(n) && n@ == name)
        } else {
            (actions[0] matches MixerAction::DaemonCreateChannel(n) && n@ == name)
        }
        &&& actions[1] == MixerAction::SaveConfig
    } else {
        exists|c: ChannelModel| {
            &&& c.name@ == name
            &&& c.assigned_apps@.len() == 0
            &&& c.sink_id is None
            &&& c.is_input == input
            &&& !c.muted
            &&& !c.eq_enabled
            &&& c.eq_preset@ == "Flat"@
            &&& c.output_device_name is None
            &&& c.input_device_name is None
            &&& t == (MixerModel { channels: t.channels, ..s })
            &&& t.channels@ == s.channels@.push(c)
            &&& actions == seq![
                if input {
                    MixerAction::CreateVirtualSource(c.id, c.name)
                } else {
                    MixerAction::CreateVirtualSink(c.id, c.name)
                },
                MixerAction::SaveConfig,
            ]
        }
    }
}

/// `t` is `s` with the channel at `pos` renamed to `name`.
pub open spec fn renamed_at(s: Seq<ChannelModel>, t: Seq<ChannelModel>, pos: int, name: Seq<char>) -> bool {
    &&& t.len() == s.len()
    &&& forall|k: int| 0 <= k < s.len() && k != pos ==> t[k] == s[k]
    &&& t[pos] == (ChannelModel { name: t[pos].name, ..s[pos] })
    &&& t[pos].name@ == name
}

/// What one step does: the next state `t` and the actions, for state `s`
/// and event `e`.
pub open spec fn step_spec(s: MixerModel, e: MixerEvent, t: MixerModel, actions: Seq<MixerAction>) -> bool {
    match e {
        MixerEvent::OpenRoutingRulesPanel => t == (MixerModel { routing_rules_panel_open: true, ..s })
            && actions.len() == 0,
        MixerEvent::CloseRoutingRulesPanel => t == (MixerModel { routing_rules_panel_open: false, editing_rule: None, ..s })
            && actions.len() == 0,
        MixerEvent::ToggleRoutingRule(id) => {
            &&& rule_step(s, t, actions)
            &&& !has_id(s.routing_rules.rules@, id) ==> t.routing_rules.rules@ == s.routing_rules.rules@
            &&& forall|pos: int| #[trigger] is_first_with_id(s.routing_rules.rules@, id, pos) ==> t.routing_rules.rules@
                == toggled(s.routing_rules.rules@, pos)
        },
        MixerEvent::DeleteRoutingRule(id) => {
            &&& rule_step(s, t, actions)
            &&& !has_id(s.routing_rules.rules@, id) ==> t.routing_rules.rules@ == s.routing_rules.rules@
            &&& forall|pos: int| #[trigger] is_first_with_id(s.routing_rules.rules@, id, pos) ==> t.routing_rules.rules@
                == s.routing_rules.rules@.remove(pos)
        },
        MixerEvent::MoveRoutingRuleUp(id) => {
            &&& rule_step(s, t, actions)
            &&& !has_id(s.routing_rules.rules@, id) ==> t.routing_rules.rules@ == s.routing_rules.rules@
            &&& is_first_with_id(s.routing_rules.rules@, id, 0) ==> t.routing_rules.rules@ == s.routing_rules.rules@
            &&& forall|pos: int| 0 < pos && is_first_with_id(s.routing_rules.rules@, id, pos) ==> t.routing_rules.rules@
                == exchanged_neighbours(s.routing_rules.rules@, pos - 1)
        },
        MixerEvent::MoveRoutingRuleDown(id) => {
            &&& rule_step(s, t, actions)
            &&& !has_id(s.routing_rules.rules@, id) ==> t.routing_rules.rules@ == s.routing_rules.rules@
            &&& is_first_with_id(s.routing_rules.rules@, id, s.routing_rules.rules@.len() - 1) ==> t.routing_rules.rules@
                == s.routing_rules.rules@
            &&& forall|pos: int| pos < s.routing_rules.rules@.len() - 1 && is_first_with_id(s.routing_rules.rules@, id, pos)
                ==> t.routing_rules.rules@ == exchanged_neighbours(s.routing_rules.rules@, pos)
        },
        MixerEvent::StartEditingRule(target) => {
            &&& same_but_edit(s, t)
            &&& actions.len() == 0
            &&& match target {
                Some(id) => {
                    &&& !has_id(s.routing_rules.rules@, id) ==> t.editing_rule == s.editing_rule
                    &&& forall|pos: int| #[trigger] is_first_with_id(s.routing_rules.rules@, id, pos) ==> (t.editing_rule matches Some(
                        ed) && edit_of_rule(ed, s.routing_rules.rules@[pos]))
                },
                None => t.editing_rule matches Some(ed) && new_edit(ed),
            }
        },
        MixerEvent::CancelEditingRule => t == (MixerModel { editing_rule: None, ..s }) && actions.len() == 0,
        MixerEvent::RuleNameChanged(v) => t == (MixerModel {
            editing_rule: edited(s.editing_rule, |ed: EditingRule| EditingRule { name: v, ..ed }),
            ..s
        }) && actions.len() == 0,
        MixerEvent::RulePatternChanged(v) => t == (MixerModel {
            editing_rule: edited(s.editing_rule, |ed: EditingRule| EditingRule { pattern: v, ..ed }),
            ..s
        }) && actions.len() == 0,
        MixerEvent::RuleMatchTypeChanged(v) => t == (MixerModel {
            editing_rule: edited(s.editing_rule, |ed: EditingRule| EditingRule { match_type_name: v, ..ed }),
            ..s
        }) && actions.len() == 0,
        MixerEvent::RuleMatchTargetChanged(v) => t == (MixerModel {
            editing_rule: edited(s.editing_rule, |ed: EditingRule| EditingRule { match_target: v, ..ed }),
            ..s
        }) && actions.len() == 0,
        MixerEvent::RuleTargetChannelChanged(v) => t == (MixerModel {
            editing_rule: edited(s.editing_rule, |ed: EditingRule| EditingRule { target_channel: v, ..ed }),
            ..s
        }) && actions.len() == 0,
        MixerEvent::RulePriorityChanged(v) => t == (MixerModel {
            editing_rule: edited(s.editing_rule, |ed: EditingRule| match parse_unsigned_spec(v@, u32::MAX as nat) {
                Some(p) => EditingRule { priority: p as u32, ..ed },
                None => ed,
            }),
            ..s
        }) && actions.len() == 0,
        MixerEvent::SaveRoutingRule => match s.editing_rule {
            None => t == s && actions.len() == 0,
            Some(ed) => {
                &&& t == (MixerModel {
                    editing_rule: None,
                    routing_rules: RoutingRulesConfig { rules: t.routing_rules.rules, ..s.routing_rules },
                    ..s
                })
                &&& actions == seq![MixerAction::SaveRoutingRules]
                &&& exists|r: RoutingRule| {
                    &&& rule_of_edit(r, ed)
                    &&& (ed.id is None ==> is_priority_sort_of(t.routing_rules.rules@, s.routing_rules.rules@.push(r)))
                    &&& (ed.id is Some && !has_id(s.routing_rules.rules@, r.id) ==> is_priority_sort_of(
                        t.routing_rules.rules@,
                        s.routing_rules.rules@,
                    ))
                    &&& (ed.id is Some ==> forall|pos: int| #[trigger] is_first_with_id(s.routing_rules.rules@, r.id, pos)
                        ==> is_priority_sort_of(t.routing_rules.rules@, s.routing_rules.rules@.update(pos, r)))
                }
            },
        },
        MixerEvent::CreateQuickRule(app_name, binary, target) => {
            &&& rule_step(s, t, actions)
            &&& exists|r: RoutingRule| {
                &&& r.name@ == "Auto: "@ + app_name@
                &&& r.match_type is Contains
                &&& r.match_type.pattern_view() == quick_pattern(app_name@, match binary {
                    Some(b) => Some(b@),
                    None => None,
                })
                &&& r.match_target == MatchTarget::Either
                &&& r.target_channel@ == target@
                &&& r.enabled
                &&& r.priority == 100
                &&& is_priority_sort_of(t.routing_rules.rules@, s.routing_rules.rules@.push(r))
            }
        },
        MixerEvent::AppAssigned(ch, app) => {
            &&& same_but_channels(s, t)
            &&& actions.len() == 0
            &&& !has_channel(s.channels@, ch) ==> t.channels == s.channels
            &&& forall|pos: int| #[trigger] first_channel(s.channels@, ch, pos) ==> if views(s.channels@[pos].assigned_apps@).contains(app@) {
                t.channels == s.channels
            } else {
                &&& t.channels@.len() == s.channels@.len()
                &&& forall|k: int| 0 <= k < s.channels@.len() && k != pos ==> t.channels@[k] == s.channels@[k]
                &&& t.channels@[pos] == (ChannelModel { assigned_apps: t.channels@[pos].assigned_apps, ..s.channels@[pos] })
                &&& t.channels@[pos].assigned_apps@ == s.channels@[pos].assigned_apps@.push(app)
            }
        },
        MixerEvent::DaemonConnected => t == (MixerModel { daemon_connected: true, pw_connected: true, ..s })
            && actions == seq![MixerAction::ShutdownLocalPipeWire],
        MixerEvent::DaemonDisconnected => t == (MixerModel { daemon_connected: false, pw_connected: false, ..s })
            && actions == seq![MixerAction::ResetMeters, MixerAction::StartLocalPipeWire],
        MixerEvent::DaemonInitialState(connected, master_muted, chans, apps) => {
            &&& t == (MixerModel {
                pw_connected: connected,
                master_muted,
                startup_complete: true,
                channels: t.channels,
                apps: t.apps,
                ..s
            })
            &&& t.channels@ == chans@.filter_map(channel_of_info_fn())
            &&& t.apps@ == apps@.map_values(app_of_info_fn())
            &&& actions.len() == 0
        },
        MixerEvent::DaemonMasterMuteChanged(m) => t == (MixerModel { master_muted: m, ..s }) && actions.len() == 0,
        MixerEvent::DaemonChannelAdded(ci) => {
            &&& same_but_channels(s, t)
            &&& actions.len() == 0
            &&& match channel_of_info(ci) {
                Some(c) => if has_channel(s.channels@, c.id) {
                    t.channels == s.channels
                } else {
                    t.channels@ == s.channels@.push(c)
                },
                None => t.channels == s.channels,
            }
        },
        MixerEvent::DaemonChannelRemoved(text) => {
            &&& same_but_channels(s, t)
            &&& actions.len() == 0
            &&& match uuid_text_value(text@) {
                Some(id) => t.channels@ == s.channels@.filter(other_channel(id)),
                None => t.channels == s.channels,
            }
        },
        MixerEvent::DaemonChannelUpdated(ci) => {
            &&& same_but_channels(s, t)
            &&& actions.len() == 0
            &&& match uuid_text_value(ci.id_text@) {
                Some(id) => {
                    &&& !has_channel(s.channels@, id) ==> t.channels == s.channels
                    &&& forall|pos: int| #[trigger] first_channel(s.channels@, id, pos) ==> t.channels@ == s.channels@.update(
                        pos,
                        updated_channel(s.channels@[pos], ci),
                    )
                },
                None => t.channels == s.channels,
            }
        },
        MixerEvent::DaemonAppDiscovered(a) => {
            &&& same_but_apps(s, t)
            &&& actions.len() == 0
            &&& if has_app(s.apps@, a.node_id) {
                t.apps == s.apps
            } else {
                t.apps@ == s.apps@.push(app_of_info(a))
            }
        },
        MixerEvent::DaemonMuteChanged(text, muted) => {
            &&& same_but_channels(s, t)
            &&& actions.len() == 0
            &&& match uuid_text_value(text@) {
                Some(id) => {
                    &&& !has_channel(s.channels@, id) ==> t.channels == s.channels
                    &&& forall|pos: int| #[trigger] first_channel(s.channels@, id, pos) ==> t.channels@ == s.channels@.update(
                        pos,
                        ChannelModel { muted, ..s.channels@[pos] },
                    )
                },
                None => t.channels == s.channels,
            }
        },
        MixerEvent::DaemonAppRemoved(text) => {
            &&& same_but_apps(s, t)
            &&& actions.len() == 0
            &&& match parse_unsigned_spec(text@, u32::MAX as nat) {
                Some(n) => t.apps@ == s.apps@.filter(other_app(n as u32)),
                None => t.apps == s.apps,
            }
        },
        MixerEvent::PipeWireConnectionChanged(b) => t == (MixerModel { pw_connected: b, ..s }) && actions.len() == 0,
        MixerEvent::RestoreChannels(muted, output, saved) => {
            &&& t == (MixerModel {
                channels: t.channels,
                master_muted: muted,
                output_device: output,
                startup_complete: true,
                ..s
            })
            &&& t.channels@ == s.channels@ + saved@.filter_map(restored_channel_fn())
            &&& actions == seq![MixerAction::ApplyMasterOutput(output, muted)] + saved@.filter_map(restore_action_fn())
                + saved@.filter_map(plugin_restore_fn())
        },
        MixerEvent::ChannelMuteToggled(id) => {
            &&& same_but_channels(s, t)
            &&& !has_channel(s.channels@, id) ==> {
                &&& t.channels == s.channels
                &&& actions == if s.daemon_connected {
                    seq![MixerAction::SetChannelMute(id, false)]
                } else {
                    Seq::empty()
                }
            }
            &&& forall|pos: int| #[trigger] first_channel(s.channels@, id, pos) ==> {
                let c = s.channels@[pos];
                &&& t.channels@ == s.channels@.update(pos, ChannelModel { muted: !c.muted, ..c })
                &&& actions == seq![MixerAction::SetChannelMute(id, !c.muted)]
            }
        },
        MixerEvent::MasterMuteToggled => t == (MixerModel { master_muted: !s.master_muted, ..s }) && actions == seq![
            MixerAction::SetMasterMute(!s.master_muted),
            MixerAction::SaveConfig,
        ],
        MixerEvent::TrayToggleMuteAll => t == (MixerModel { master_muted: !s.master_muted, ..s }) && actions == seq![
            MixerAction::SetMasterMute(!s.master_muted),
            MixerAction::SetTrayMuted(!s.master_muted),
        ],
        MixerEvent::OutputDeviceChanged(d) => t == (MixerModel { output_device: Some(d), ..s }) && actions == seq![
            MixerAction::SetMasterOutput(d),
            MixerAction::SaveConfig,
        ],
        MixerEvent::ChannelOutputDeviceChanged(id, d) => {
            &&& same_but_channels(s, t)
            &&& actions == seq![MixerAction::SetChannelOutput(id, d), MixerAction::SaveConfig]
            &&& (s.daemon_connected || !has_channel(s.channels@, id)) ==> t.channels == s.channels
            &&& !s.daemon_connected ==> forall|pos: int| #[trigger] first_channel(s.channels@, id, pos) ==> t.channels@
                == s.channels@.update(pos, ChannelModel { output_device_name: d, ..s.channels@[pos] })
        },
        MixerEvent::ChannelEqToggled(id) => {
            &&& same_but_channels(s, t)
            &&& !has_channel(s.channels@, id) ==> t.channels == s.channels && actions.len() == 0
            &&& forall|pos: int| #[trigger] first_channel(s.channels@, id, pos) ==> {
                let c = s.channels@[pos];
                if c.eq_enabled {
                    &&& t.channels@ == s.channels@.update(pos, ChannelModel { eq_enabled: false, ..c })
                    &&& actions == seq![MixerAction::DisableEq(id, c.name)]
                } else {
                    &&& t.channels == s.channels
                    &&& actions == seq![MixerAction::EnableEq(id, c.name)]
                }
            }
        },
        MixerEvent::AppUnassigned(ch, app, node) => {
            &&& same_but_channels(s, t)
            &&& actions == match node {
                Some(n) => seq![MixerAction::UnassignApp(n, ch)],
                None => Seq::empty(),
            }
            &&& (!has_channel(s.channels@, ch) || (node is Some && s.daemon_connected)) ==> t.channels == s.channels
            &&& (node is None || !s.daemon_connected) ==> forall|pos: int| #[trigger] first_channel(s.channels@, ch, pos) ==> {
                let c = s.channels@[pos];
                &&& t.channels@.len() == s.channels@.len()
                &&& forall|k: int| 0 <= k < s.channels@.len() && k != pos ==> t.channels@[k] == s.channels@[k]
                &&& t.channels@[pos] == (ChannelModel { assigned_apps: t.channels@[pos].assigned_apps, ..c })
                &&& t.channels@[pos].assigned_apps@ == c.assigned_apps@.filter(other_text(app@))
            }
        },
        MixerEvent::EqEnabled(id) => {
            &&& same_but_channels(s, t)
            &&& actions.len() == 0
            &&& !has_channel(s.channels@, id) ==> t.channels == s.channels
            &&& forall|pos: int| #[trigger] first_channel(s.channels@, id, pos) ==> t.channels@ == s.channels@.update(
                pos,
                ChannelModel { eq_enabled: true, ..s.channels@[pos] },
            )
        },
        MixerEvent::StartEditingChannelName(id) => {
            &&& t == (MixerModel { editing_channel: t.editing_channel, ..s })
            &&& actions.len() == 0
            &&& !has_channel(s.channels@, id) ==> t.editing_channel == s.editing_channel
            &&& forall|pos: int| #[trigger] first_channel(s.channels@, id, pos) ==> t.editing_channel == Some((id, s.channels@[pos].name))
        },
        MixerEvent::ChannelNameEditChanged(v) => t == (MixerModel {
            editing_channel: match s.editing_channel {
                Some((id, _)) => Some((id, v)),
                None => None,
            },
            ..s
        }) && actions.len() == 0,
        MixerEvent::CancelEditingChannelName => t == (MixerModel { editing_channel: None, ..s }) && actions.len() == 0,
        MixerEvent::ChannelRenamed(id, name) => {
            let tn = trim_spec(name@);
            if tn.len() == 0 {
                t == (MixerModel { editing_channel: None, ..s }) && actions.len() == 0
            } else {
                &&& t == (MixerModel { editing_channel: None, channels: t.channels, ..s })
                &&& actions.len() == 2
                &&& (actions[0] matches MixerAction::RenameChannel(i, n) && i == id && n@ == tn)
                &&& actions[1] == MixerAction::SaveConfig
                &&& !has_channel(s.channels@, id) ==> t.channels == s.channels
                &&& forall|pos: int| #[trigger] first_channel(s.channels@, id, pos) ==> renamed_at(s.channels@, t.channels@, pos, tn)
            }
        },
        MixerEvent::ChannelDeleted(id) => {
            &&& actions == seq![MixerAction::DeleteChannel(id), MixerAction::SaveConfig]
            &&& if s.daemon_connected {
                t == s
            } else {
                same_but_channels(s, t) && t.channels@ == s.channels@.filter(other_channel(id))
            }
        },
        MixerEvent::NewChannelRequested => created_channel(
            s,
            t,
            actions,
            "Channel "@ + decimal_spec(next_number(s.channels@.len())),
            false,
        ),
        MixerEvent::NewInputChannelRequested => created_channel(
            s,
            t,
            actions,
            "Mic "@ + decimal_spec(next_number(input_count(s.channels@))),
            true,
        ),
        MixerEvent::StartDraggingApp(n, app) => t == (MixerModel { dragging_app: Some((n, app)), ..s }) && actions.len()
            == 0,
        MixerEvent::CancelDrag => t == (MixerModel { dragging_app: None, ..s }) && actions.len() == 0,
        MixerEvent::DropAppOnChannel(ch) => match s.dragging_app {
            None => t == s && actions.len() == 0,
            Some((n, _)) => if s.daemon_connected || channel_has_sink(s.channels@, ch) {
                t == (MixerModel { dragging_app: None, ..s }) && actions == seq![MixerAction::AssignApp(n, ch)]
            } else {
                &&& t == (MixerModel { last_error: t.last_error, ..s })
                &&& (t.last_error matches Some(e) && e@ == "Channel has no sink - try again"@)
                &&& actions.len() == 0
            },
        },
        MixerEvent::SelectChannel(c) => t == (MixerModel {
            selected_channel: c,
            plugin_browser_channel: if c != s.plugin_browser_channel {
                None
            } else {
                s.plugin_browser_channel
            },
            ..s
        }) && actions.len() == 0,
        MixerEvent::ToggleLeftSidebar => t == (MixerModel { left_sidebar_collapsed: !s.left_sidebar_collapsed, ..s })
            && actions.len() == 0,
        MixerEvent::ToggleBottomPanel => t == (MixerModel { bottom_panel_expanded: !s.bottom_panel_expanded, ..s })
            && actions.len() == 0,
        MixerEvent::OpenEqPanel(id) => t == (MixerModel { eq_panel_channel: Some(id), ..s }) && actions.len() == 0,
        MixerEvent::CloseEqPanel => t == (MixerModel { eq_panel_channel: None, ..s }) && actions.len() == 0,
        MixerEvent::OpenSettings => t == (MixerModel { settings_open: true, ..s }) && actions.len() == 0,
        MixerEvent::CloseSettings => t == (MixerModel { settings_open: false, ..s }) && actions.len() == 0,
        MixerEvent::OpenPluginBrowser(id) => t == (MixerModel { plugin_browser_channel: Some(id), ..s }) && actions.len()
            == 0,
        MixerEvent::ClosePluginBrowser => t == (MixerModel { plugin_browser_channel: None, ..s }) && actions.len() == 0,
    }
}

fn find_channel(chs: &Vec<ChannelModel>, id: u128) -> (r: Option<usize>)
    ensures
        r matches Some(p) ==> first_channel(chs@, id, p as int),
        r is None ==> !has_channel(chs@, id),
{
    let mut i: usize = 0;
    while i < chs.len()
        invariant
            i <= chs.len(),
            forall|k: int| 0 <= k < i ==> chs@[k].id != id,
        decreases chs.len() - i,
    {
        if chs[i].id == id {
            return Some(i);
        }
        i += 1;
    }
    None
}

pub(crate) fn contains_text(v: &Vec<String>, x: &str) -> (r: bool)
    ensures
        r == views(v@).contains(x@),
{
    let mut i: usize = 0;
    while i < v.len()
        invariant
            i <= v.len(),
            forall|k: int| 0 <= k < i ==> v@[k]@ != x@,
        decreases v.len() - i,
    {
        if str_eq(v[i].as_str(), x) {
            proof {
                assert(views(v@)[i as int] == x@);
            }
            return true;
        }
        i += 1;
    }
    proof {
        if views(v@).contains(x@) {
            let k = choose|k: int| 0 <= k < views(v@).len() && views(v@)[k] == x@;
            assert(v@[k]@ == x@);
        }
    }
    false
}

fn app_known(apps: &Vec<AppModel>, n: u32) -> (r: bool)
    ensures
        r == has_app(apps@, n),
{
    let mut i: usize = 0;
    while i < apps.len()
        invariant
            i <= apps.len(),
            forall|k: int| 0 <= k < i ==> apps@[k].node_id != n,
        decreases apps.len() - i,
    {
        if apps[i].node_id == n {
            return true;
        }
        i += 1;
    }
    false
}

pub(crate) proof fn lemma_filter_take_succ<T>(s: Seq<T>, f: spec_fn(T) -> bool, k: int)
    requires
        0 <= k < s.len(),
    ensures
        s.take(k + 1).filter(f) == if f(s[k]) { s.take(k).filter(f).push(s[k]) } else { s.take(k).filter(f) },
{
    reveal(Seq::filter);
    assert(s.take(k + 1).drop_last() =~= s.take(k));
}

fn without_channel(v: Vec<ChannelModel>, id: u128) -> (r: Vec<ChannelModel>)
    ensures
        r@ == v@.filter(other_channel(id)),
{
    let ghost orig = v@;
    let ghost f = other_channel(id);
    let mut src = v;
    let mut out: Vec<ChannelModel> = Vec::new();
    let ghost mut k: int = 0;
    proof {
        assert(orig.take(0).filter(f) =~= Seq::<ChannelModel>::empty());
        assert(orig.skip(0) =~= orig);
    }
    while src.len() > 0
        invariant
            0 <= k <= orig.len(),
            f == other_channel(id),
            src@ == orig.skip(k),
            out@ == orig.take(k).filter(f),
        decreases src.len(),
    {
        proof {
            lemma_filter_take_succ(orig, f, k);
            assert(orig.skip(k).drop_first() =~= orig.skip(k + 1));
        }
        let c = src.remove(0);
        if c.id != id {
            out.push(c);
        }
        proof {
            k = k + 1;
        }
    }
    proof {
        assert(orig.take(k) =~= orig);
    }
    out
}

fn without_app(v: Vec<AppModel>, n: u32) -> (r: Vec<AppModel>)
    ensures
        r@ == v@.filter(other_app(n)),
{
    let ghost orig = v@;
    let ghost f = other_app(n);
    let mut src = v;
    let mut out: Vec<AppModel> = Vec::new();
    let ghost mut k: int = 0;
    proof {
        assert(orig.take(0).filter(f) =~= Seq::<AppModel>::empty());
        assert(orig.skip(0) =~= orig);
    }
    while src.len() > 0
        invariant
            0 <= k <= orig.len(),
            f == other_app(n),
            src@ == orig.skip(k),
            out@ == orig.take(k).filter(f),
        decreases src.len(),
    {
        proof {
            lemma_filter_take_succ(orig, f, k);
            assert(orig.skip(k).drop_first() =~= orig.skip(k + 1));
        }
        let a = src.remove(0);
        if a.node_id != n {
            out.push(a);
        }
        proof {
            k = k + 1;
        }
    }
    proof {
        assert(orig.take(k) =~= orig);
    }
    out
}

fn nonempty_text(s: String) -> (r: Option<String>)
    ensures
        r == nonempty(s),
{
    if chars_of(s.as_str()).len() == 0 {
        None
    } else {
        Some(s)
    }
}

fn channel_from_info(ci: ChannelInfo) -> (r: Option<ChannelModel>)
    ensures
        r == channel_of_info(ci),
{
    match parse_uuid(ci.id_text.as_str()) {
        Some(id) => {
            let device = nonempty_text(ci.output_device);
            let (output_device_name, input_device_name) = if ci.is_input {
                (None, device)
            } else {
                (device, None)
            };
            Some(ChannelModel {
                id,
                name: ci.name,
                assigned_apps: ci.assigned_apps,
                sink_id: None,
                is_input: ci.is_input,
                muted: ci.muted,
                eq_enabled: ci.eq_enabled,
                eq_preset: ci.eq_preset,
                output_device_name,
                input_device_name,
            })
        },
        None => None,
    }
}

fn channels_from_infos(v: Vec<ChannelInfo>) -> (r: Vec<ChannelModel>)
    ensures
        r@ == v@.filter_map(channel_of_info_fn()),
{
    let ghost orig = v@;
    let ghost f = channel_of_info_fn();
    let mut src = v;
    let mut out: Vec<ChannelModel> = Vec::new();
    let ghost mut k: int = 0;
    proof {
        assert(orig.take(0).filter_map(f) =~= Seq::<ChannelModel>::empty());
        assert(orig.skip(0) =~= orig);
    }
    while src.len() > 0
        invariant
            0 <= k <= orig.len(),
            f == channel_of_info_fn(),
            src@ == orig.skip(k),
            out@ == orig.take(k).filter_map(f),
        decreases src.len(),
    {
        proof {
            orig.lemma_filter_map_take_succ(f, k);
            assert(orig.skip(k).drop_first() =~= orig.skip(k + 1));
            assert(f(orig[k]) == channel_of_info(orig[k]));
        }
        let ci = src.remove(0);
        match channel_from_info(ci) {
            Some(c) => out.push(c),
            None => {},
        }
        proof {
            k = k + 1;
        }
    }
    proof {
        assert(orig.take(k) =~= orig);
    }
    out
}

fn one_action(a: MixerAction) -> (v: Vec<MixerAction>)
    ensures
        v@ == seq![a],
{
    let mut v: Vec<MixerAction> = Vec::new();
    v.push(a);
    v
}

fn edit_from_rule(r: &RoutingRule) -> (ed: EditingRule)
    ensures
        edit_of_rule(ed, *r),
{
    EditingRule {
        id: Some(r.id),
        name: r.name.clone(),
        pattern: r.match_type.pattern().to_string(),
        match_type_name: r.match_type.type_label().to_string(),
        match_target: r.match_target,
        target_channel: r.target_channel.clone(),
        priority: r.priority,
        enabled: r.enabled,
    }
}

fn rule_from_edit(ed: EditingRule) -> (r: RoutingRule)
    ensures
        rule_of_edit(r, ed),
{
    let id = match ed.id {
        Some(i) => i,
        None => fresh_uuid(),
    };
    let match_type = if str_eq(ed.match_type_name.as_str(), "exact") {
        MatchType::Exact(ed.pattern)
    } else if str_eq(ed.match_type_name.as_str(), "regex") {
        MatchType::Regex(ed.pattern)
    } else if str_eq(ed.match_type_name.as_str(), "glob") {
        MatchType::Glob(ed.pattern)
    } else {
        MatchType::Contains(ed.pattern)
    };
    RoutingRule {
        id,
        name: ed.name,
        match_target: ed.match_target,
        match_type,
        target_channel: ed.target_channel,
        enabled: ed.enabled,
        priority: ed.priority,
    }
}

fn on_open_routing_rules_panel(state: &mut MixerModel) -> (actions: Vec<MixerAction>)
    ensures
        step_spec(*old(state), MixerEvent::OpenRoutingRulesPanel, *final(state), actions@),
{
    state.routing_rules_panel_open = true;
    Vec::new()
}

fn on_close_routing_rules_panel(state: &mut MixerModel) -> (actions: Vec<MixerAction>)
    ensures
        step_spec(*old(state), MixerEvent::CloseRoutingRulesPanel, *final(state), actions@),
{
    state.routing_rules_panel_open = false;
    state.editing_rule = None;
    Vec::new()
}

fn on_toggle_routing_rule(state: &mut MixerModel, id: u128) -> (actions: Vec<MixerAction>)
    ensures
        step_spec(*old(state), MixerEvent::ToggleRoutingRule(id), *final(state), actions@),
{
    state.routing_rules.toggle_rule(id);
    one_action(MixerAction::SaveRoutingRules)
}

fn on_delete_routing_rule(state: &mut MixerModel, id: u128) -> (actions: Vec<MixerAction>)
    ensures
        step_spec(*old(state), MixerEvent::DeleteRoutingRule(id), *final(state), actions@),
{
    state.routing_rules.remove_rule(id);
    one_action(MixerAction::SaveRoutingRules)
}

fn on_move_routing_rule_up(state: &mut MixerModel, id: u128) -> (actions: Vec<MixerAction>)
    ensures
        step_spec(*old(state), MixerEvent::MoveRoutingRuleUp(id), *final(state), actions@),
{
    state.routing_rules.move_up(id);
    one_action(MixerAction::SaveRoutingRules)
}

fn on_move_routing_rule_down(state: &mut MixerModel, id: u128) -> (actions: Vec<MixerAction>)
    ensures
        step_spec(*old(state), MixerEvent::MoveRoutingRuleDown(id), *final(state), actions@),
{
    state.routing_rules.move_down(id);
    one_action(MixerAction::SaveRoutingRules)
}

fn on_start_editing_rule(state: &mut MixerModel, target: Option<u128>) -> (actions: Vec<MixerAction>)
    ensures
        step_spec(*old(state), MixerEvent::StartEditingRule(target), *final(state), actions@),
{
    match target {
        Some(id) => {
            match position_of(&state.routing_rules.rules, id) {
                Some(pos) => {
                    let ed = edit_from_rule(&state.routing_rules.rules[pos]);
                    state.editing_rule = Some(ed);
                },
                None => {},
            }
        },
        None => {
            state.editing_rule = Some(
                EditingRule {
                    id: None,
                    name: String::new(),
                    pattern: String::new(),
                    match_type_name: "contains".to_string(),
                    match_target: MatchTarget::AppName,
                    target_channel: String::new(),
                    priority: 100,
                    enabled: true,
                },
            );
        },
    }
    Vec::new()
}

fn on_cancel_editing_rule(state: &mut MixerModel) -> (actions: Vec<MixerAction>)
    ensures
        step_spec(*old(state), MixerEvent::CancelEditingRule, *final(state), actions@),
{
    state.editing_rule = None;
    Vec::new()
}

fn on_rule_name_changed(state: &mut MixerModel, v: String) -> (actions: Vec<MixerAction>)
    ensures
        step_spec(*old(state), MixerEvent::RuleNameChanged(v), *final(state), actions@),
{
    match state.editing_rule.take() {
        Some(mut ed) => {
            ed.name = v;
            state.editing_rule = Some(ed);
        },
        None => {},
    }
    Vec::new()
}

fn on_rule_pattern_changed(state: &mut MixerModel, v: String) -> (actions: Vec<MixerAction>)
    ensures
        step_spec(*old(state), MixerEvent::RulePatternChanged(v), *final(state), actions@),
{
    match state.editing_rule.take() {
        Some(mut ed) => {
            ed.pattern = v;
            state.editing_rule = Some(ed);
        },
        None => {},
    }
    Vec::new()
}

fn on_rule_match_type_changed(state: &mut MixerModel, v: String) -> (actions: Vec<MixerAction>)
    ensures
        step_spec(*old(state), MixerEvent::RuleMatchTypeChanged(v), *final(state), actions@),
{
    match state.editing_rule.take() {
        Some(mut ed) => {
            ed.match_type_name = v;
            state.editing_rule = Some(ed);
        },
        None => {},
    }
    Vec::new()
}

fn on_rule_match_target_changed(state: &mut MixerModel, v: MatchTarget) -> (actions: Vec<MixerAction>)
    ensures
        step_spec(*old(state), MixerEvent::RuleMatchTargetChanged(v), *final(state), actions@),
{
    match state.editing_rule.take() {
        Some(mut ed) => {
            ed.match_target = v;
            state.editing_rule = Some(ed);
        },
        None => {},
    }
    Vec::new()
}

fn on_rule_target_channel_changed(state: &mut MixerModel, v: String) -> (actions: Vec<MixerAction>)
    ensures
        step_spec(*old(state), MixerEvent::RuleTargetChannelChanged(v), *final(state), actions@),
{
    match state.editing_rule.take() {
        Some(mut ed) => {
            ed.target_channel = v;
            state.editing_rule = Some(ed);
        },
        None => {},
    }
    Vec::new()
}

fn on_rule_priority_changed(state: &mut MixerModel, v: String) -> (actions: Vec<MixerAction>)
    ensures
        step_spec(*old(state), MixerEvent::RulePriorityChanged(v), *final(state), actions@),
{
    match state.editing_rule.take() {
        Some(mut ed) => {
            let cs = chars_of(v.as_str());
            match parse_unsigned(&cs, 0xffff_ffff) {
                Some(p) => {
                    ed.priority = p as u32;
                },
                None => {},
            }
            state.editing_rule = Some(ed);
        },
        None => {},
    }
    Vec::new()
}

#[verifier::rlimit(40)]
fn on_save_routing_rule(state: &mut MixerModel) -> (actions: Vec<MixerAction>)
    ensures
        step_spec(*old(state), MixerEvent::SaveRoutingRule, *final(state), actions@),
{
    let ghost s0 = *state;
    match state.editing_rule.take() {
        None => Vec::new(),
        Some(ed) => {
            let is_update = ed.id.is_some();
            let ghost ed0 = ed;
            let r = rule_from_edit(ed);
            let ghost rg = r;
            let ghost rules0 = state.routing_rules.rules@;
            if is_update {
                match position_of(&state.routing_rules.rules, r.id) {
                    Some(pos) => {
                        state.routing_rules.rules.remove(pos);
                        state.routing_rules.rules.insert(pos, r);
                        proof {
                            assert(state.routing_rules.rules@ =~= rules0.update(pos as int, rg));
                        }
                    },
                    None => {},
                }
            } else {
                state.routing_rules.add_rule(r);
            }
            let ghost mid = state.routing_rules.rules@;
            state.routing_rules.sort_by_priority();
            proof {
                if !is_update {
                    assert forall|p: u32| #[trigger] crate::routing_rules::with_priority(state.routing_rules.rules@, p)
                        == crate::routing_rules::with_priority(rules0.push(rg), p) by {
                        assert(crate::routing_rules::with_priority(state.routing_rules.rules@, p)
                            == crate::routing_rules::with_priority(mid, p));
                    }
                } else {
                    assert forall|pos: int| is_first_with_id(rules0, rg.id, pos) implies is_priority_sort_of(
                        state.routing_rules.rules@,
                        rules0.update(pos, rg),
                    ) by {
                        let q = choose|q: int| is_first_with_id(rules0, rg.id, q) && mid == rules0.update(q, rg);
                        if q < pos {
                            assert(rules0[q].id == rg.id);
                        }
                        if pos < q {
                            assert(rules0[pos].id == rg.id);
                        }
                    }
                }
                assert(rule_of_edit(rg, ed0));
            }
            one_action(MixerAction::SaveRoutingRules)
        },
    }
}

fn on_create_quick_rule(state: &mut MixerModel, app_name: String, binary: Option<String>, target: String) -> (actions: Vec<MixerAction>)
    ensures
        step_spec(*old(state), MixerEvent::CreateQuickRule(app_name, binary, target), *final(state), actions@),
{
    let mut name = String::new();
    string_push_str(&mut name, "Auto: ");
    string_push_str(&mut name, app_name.as_str());
    let pattern: &str = match &binary {
        Some(b) => b.as_str(),
        None => app_name.as_str(),
    };
    let r = RoutingRule::new(name.as_str(), pattern, target.as_str());
    let ghost rg = r;
    state.routing_rules.add_rule(r);
    proof {
        assert(name@ =~= "Auto: "@ + app_name@);
    }
    one_action(MixerAction::SaveRoutingRules)
}

fn on_app_assigned(state: &mut MixerModel, ch: u128, app: String) -> (actions: Vec<MixerAction>)
    ensures
        step_spec(*old(state), MixerEvent::AppAssigned(ch, app), *final(state), actions@),
{
    match find_channel(&state.channels, ch) {
        Some(pos) => {
            if !contains_text(&state.channels[pos].assigned_apps, app.as_str()) {
                let ghost before = state.channels@;
                let mut c = state.channels.remove(pos);
                c.assigned_apps.push(app);
                state.channels.insert(pos, c);
                proof {
                    assert forall|k: int| 0 <= k < before.len() && k != pos implies state.channels@[k] == before[k] by {
                    }
                }
            }
        },
        None => {},
    }
    Vec::new()
}

fn on_daemon_connected(state: &mut MixerModel) -> (actions: Vec<MixerAction>)
    ensures
        step_spec(*old(state), MixerEvent::DaemonConnected, *final(state), actions@),
{
    state.daemon_connected = true;
    state.pw_connected = true;
    one_action(MixerAction::ShutdownLocalPipeWire)
}

fn on_daemon_disconnected(state: &mut MixerModel) -> (actions: Vec<MixerAction>)
    ensures
        step_spec(*old(state), MixerEvent::DaemonDisconnected, *final(state), actions@),
{
    state.daemon_connected = false;
    state.pw_connected = false;
    two_actions(MixerAction::ResetMeters, MixerAction::StartLocalPipeWire)
}

fn app_from_info(a: DaemonAppInfo) -> (r: AppModel)
    ensures
        r == app_of_info(a),
{
    let binary = if chars_of(a.binary.as_str()).len() == 0 {
        None
    } else {
        Some(a.binary)
    };
    AppModel { node_id: a.node_id, name: a.name, binary }
}

fn apps_from_infos(v: Vec<DaemonAppInfo>) -> (r: Vec<AppModel>)
    ensures
        r@ == v@.map_values(app_of_info_fn()),
{
    let ghost orig = v@;
    let ghost f = app_of_info_fn();
    let mut src = v;
    let mut out: Vec<AppModel> = Vec::new();
    let ghost mut k: int = 0;
    proof {
        assert(orig.take(0).map_values(f) =~= Seq::<AppModel>::empty());
        assert(orig.skip(0) =~= orig);
    }
    while src.len() > 0
        invariant
            0 <= k <= orig.len(),
            f == app_of_info_fn(),
            src@ == orig.skip(k),
            out@ == orig.take(k).map_values(f),
        decreases src.len(),
    {
        proof {
            assert(orig.take(k + 1).map_values(f) =~= orig.take(k).map_values(f).push(f(orig[k])));
            assert(orig.skip(k).drop_first() =~= orig.skip(k + 1));
        }
        let a = src.remove(0);
        out.push(app_from_info(a));
        proof {
            k = k + 1;
        }
    }
    proof {
        assert(orig.take(k) =~= orig);
    }
    out
}

fn on_daemon_initial_state(
    state: &mut MixerModel,
    connected: bool,
    master_muted: bool,
    chans: Vec<ChannelInfo>,
    apps: Vec<DaemonAppInfo>,
) -> (actions: Vec<MixerAction>)
    ensures
        step_spec(*old(state), MixerEvent::DaemonInitialState(connected, master_muted, chans, apps), *final(state), actions@),
{
    state.pw_connected = connected;
    state.master_muted = master_muted;
    state.startup_complete = true;
    state.channels = channels_from_infos(chans);
    state.apps = apps_from_infos(apps);
    Vec::new()
}

fn on_daemon_channel_added(state: &mut MixerModel, ci: ChannelInfo) -> (actions: Vec<MixerAction>)
    ensures
        step_spec(*old(state), MixerEvent::DaemonChannelAdded(ci), *final(state), actions@),
{
    match channel_from_info(ci) {
        Some(c) => {
            if find_channel(&state.channels, c.id).is_none() {
                state.channels.push(c);
            }
        },
        None => {},
    }
    Vec::new()
}

fn on_daemon_channel_removed(state: &mut MixerModel, text: String) -> (actions: Vec<MixerAction>)
    ensures
        step_spec(*old(state), MixerEvent::DaemonChannelRemoved(text), *final(state), actions@),
{
    match parse_uuid(text.as_str()) {
        Some(id) => {
            let mut tmp: Vec<ChannelModel> = Vec::new();
            std::mem::swap(&mut tmp, &mut state.channels);
            state.channels = without_channel(tmp, id);
        },
        None => {},
    }
    Vec::new()
}

fn on_daemon_channel_updated(state: &mut MixerModel, ci: ChannelInfo) -> (actions: Vec<MixerAction>)
    ensures
        step_spec(*old(state), MixerEvent::DaemonChannelUpdated(ci), *final(state), actions@),
{
    let ghost s0 = *state;
    match parse_uuid(ci.id_text.as_str()) {
        Some(id) => {
            match find_channel(&state.channels, id) {
                Some(pos) => {
                    let c = state.channels.remove(pos);
                    let ghost ci0 = ci;
                    let output_device_name = match nonempty_text(ci.output_device) {
                        Some(d) => Some(d),
                        None => c.output_device_name,
                    };
                    let nc = ChannelModel {
                        name: ci.name,
                        assigned_apps: ci.assigned_apps,
                        muted: ci.muted,
                        eq_enabled: ci.eq_enabled,
                        eq_preset: ci.eq_preset,
                        output_device_name,
                        ..c
                    };
                    state.channels.insert(pos, nc);
                    proof {
                        assert(state.channels@ =~= s0.channels@.update(pos as int, updated_channel(s0.channels@[pos as int], ci0)));
                    }
                },
                None => {},
            }
        },
        None => {},
    }
    Vec::new()
}

fn on_daemon_app_discovered(state: &mut MixerModel, a: DaemonAppInfo) -> (actions: Vec<MixerAction>)
    ensures
        step_spec(*old(state), MixerEvent::DaemonAppDiscovered(a), *final(state), actions@),
{
    if !app_known(&state.apps, a.node_id) {
        state.apps.push(app_from_info(a));
    }
    Vec::new()
}

fn on_daemon_mute_changed(state: &mut MixerModel, text: String, muted: bool) -> (actions: Vec<MixerAction>)
    ensures
        step_spec(*old(state), MixerEvent::DaemonMuteChanged(text, muted), *final(state), actions@),
{
    let ghost s0 = *state;
    match parse_uuid(text.as_str()) {
        Some(id) => {
            match find_channel(&state.channels, id) {
                Some(pos) => {
                    let c = state.channels.remove(pos);
                    state.channels.insert(pos, ChannelModel { muted, ..c });
                    proof {
                        assert(state.channels@ =~= s0.channels@.update(pos as int, ChannelModel { muted, ..s0.channels@[pos as int] }));
                        assert forall|p: int| first_channel(s0.channels@, id, p) implies p == pos by {
                            lemma_first_channel_unique(s0.channels@, id, p, pos as int);
                        }
                    }
                },
                None => {},
            }
        },
        None => {},
    }
    Vec::new()
}

fn on_daemon_app_removed(state: &mut MixerModel, text: String) -> (actions: Vec<MixerAction>)
    ensures
        step_spec(*old(state), MixerEvent::DaemonAppRemoved(text), *final(state), actions@),
{
    let cs = chars_of(text.as_str());
    match parse_unsigned(&cs, 0xffff_ffff) {
        Some(n) => {
            let mut tmp: Vec<AppModel> = Vec::new();
            std::mem::swap(&mut tmp, &mut state.apps);
            state.apps = without_app(tmp, n as u32);
        },
        None => {},
    }
    Vec::new()
}

fn on_pipewire_connection_changed(state: &mut MixerModel, b: bool) -> (actions: Vec<MixerAction>)
    ensures
        step_spec(*old(state), MixerEvent::PipeWireConnectionChanged(b), *final(state), actions@),
{
    state.pw_connected = b;
    Vec::new()
}

fn clone_opt(o: &Option<String>) -> (r: Option<String>)
    ensures
        r == *o,
{
    match o {
        Some(d) => Some(d.clone()),
        None => None,
    }
}

fn on_restore_channels(state: &mut MixerModel, muted: bool, output: Option<String>, saved: Vec<SavedChannel>) -> (actions: Vec<MixerAction>)
    ensures
        step_spec(*old(state), MixerEvent::RestoreChannels(muted, output, saved), *final(state), actions@),
{
    let ghost orig = saved@;
    let ghost f = restored_channel_fn();
    let ghost g = restore_action_fn();
    let ghost h = plugin_restore_fn();
    let ghost c0 = state.channels@;
    let ghost out0 = output;
    let output_copy = clone_opt(&output);
    state.master_muted = muted;
    state.output_device = output;
    state.startup_complete = true;
    let ghost s1 = *state;
    let mut src = saved;
    let mut node_actions: Vec<MixerAction> = Vec::new();
    let mut plugin_actions: Vec<MixerAction> = Vec::new();
    let ghost mut k: int = 0;
    proof {
        assert(orig.take(0).filter_map(f) =~= Seq::<ChannelModel>::empty());
        assert(orig.take(0).filter_map(g) =~= Seq::<MixerAction>::empty());
        assert(orig.take(0).filter_map(h) =~= Seq::<MixerAction>::empty());
        assert(orig.skip(0) =~= orig);
        assert(c0 + orig.take(0).filter_map(f) =~= c0);
    }
    while src.len() > 0
        invariant
            0 <= k <= orig.len(),
            f == restored_channel_fn(),
            g == restore_action_fn(),
            h == plugin_restore_fn(),
            src@ == orig.skip(k),
            state.channels@ == c0 + orig.take(k).filter_map(f),
            node_actions@ == orig.take(k).filter_map(g),
            plugin_actions@ == orig.take(k).filter_map(h),
            *state == (MixerModel { channels: state.channels, ..s1 }),
        decreases src.len(),
    {
        proof {
            orig.lemma_filter_map_take_succ(f, k);
            orig.lemma_filter_map_take_succ(g, k);
            orig.lemma_filter_map_take_succ(h, k);
            assert(orig.skip(k).drop_first() =~= orig.skip(k + 1));
            assert(f(orig[k]) == restored_channel(orig[k]));
            assert(g(orig[k]) == restore_action(orig[k]));
            assert(h(orig[k]) == plugin_restore(orig[k]));
        }
        let c = src.remove(0);
        if c.is_managed {
            let name = c.name.clone();
            if c.is_input {
                node_actions.push(MixerAction::CreateVirtualSource(c.id, name));
            } else {
                node_actions.push(MixerAction::CreateVirtualSink(c.id, name));
            }
            if c.plugin_chain.len() > 0 {
                plugin_actions.push(MixerAction::LoadPlugins(c.id, c.plugin_chain));
            }
            state.channels.push(ChannelModel {
                id: c.id,
                name: c.name,
                assigned_apps: c.assigned_apps,
                sink_id: None,
                is_input: c.is_input,
                muted: c.muted,
                eq_enabled: c.eq_enabled,
                eq_preset: c.eq_preset,
                output_device_name: c.output_device_name,
                input_device_name: c.input_device_name,
            });
            proof {
                assert(state.channels@ =~= c0 + orig.take(k + 1).filter_map(f));
            }
        }
        proof {
            k = k + 1;
        }
    }
    proof {
        assert(orig.take(k) =~= orig);
    }
    let mut actions = one_action(MixerAction::ApplyMasterOutput(output_copy, muted));
    actions.append(&mut node_actions);
    actions.append(&mut plugin_actions);
    actions
}

fn on_channel_mute_toggled(state: &mut MixerModel, id: u128) -> (actions: Vec<MixerAction>)
    ensures
        step_spec(*old(state), MixerEvent::ChannelMuteToggled(id), *final(state), actions@),
{
    let ghost s0 = *state;
    match find_channel(&state.channels, id) {
        Some(pos) => {
            let c = state.channels.remove(pos);
            let m = !c.muted;
            state.channels.insert(pos, ChannelModel { muted: m, ..c });
            proof {
                assert forall|p: int| first_channel(s0.channels@, id, p) implies p == pos by {
                    lemma_first_channel_unique(s0.channels@, id, p, pos as int);
                }
                assert(state.channels@ =~= s0.channels@.update(
                    pos as int,
                    ChannelModel { muted: !s0.channels@[pos as int].muted, ..s0.channels@[pos as int] },
                ));
            }
            one_action(MixerAction::SetChannelMute(id, m))
        },
        None => {
            if state.daemon_connected {
                one_action(MixerAction::SetChannelMute(id, false))
            } else {
                Vec::new()
            }
        },
    }
}

fn on_channel_output_device_changed(state: &mut MixerModel, id: u128, d: Option<String>) -> (actions: Vec<MixerAction>)
    ensures
        step_spec(*old(state), MixerEvent::ChannelOutputDeviceChanged(id, d), *final(state), actions@),
{
    let ghost s0 = *state;
    let copy = clone_opt(&d);
    if !state.daemon_connected {
        match find_channel(&state.channels, id) {
            Some(pos) => {
                let c = state.channels.remove(pos);
                state.channels.insert(pos, ChannelModel { output_device_name: copy, ..c });
                proof {
                    assert forall|p: int| first_channel(s0.channels@, id, p) implies p == pos by {
                        lemma_first_channel_unique(s0.channels@, id, p, pos as int);
                    }
                    assert(state.channels@ =~= s0.channels@.update(
                        pos as int,
                        ChannelModel { output_device_name: d, ..s0.channels@[pos as int] },
                    ));
                }
            },
            None => {},
        }
    }
    two_actions(MixerAction::SetChannelOutput(id, d), MixerAction::SaveConfig)
}

fn on_channel_eq_toggled(state: &mut MixerModel, id: u128) -> (actions: Vec<MixerAction>)
    ensures
        step_spec(*old(state), MixerEvent::ChannelEqToggled(id), *final(state), actions@),
{
    let ghost s0 = *state;
    match find_channel(&state.channels, id) {
        Some(pos) => {
            proof {
                assert forall|p: int| first_channel(s0.channels@, id, p) implies p == pos by {
                    lemma_first_channel_unique(s0.channels@, id, p, pos as int);
                }
            }
            let name = state.channels[pos].name.clone();
            if state.channels[pos].eq_enabled {
                let c = state.channels.remove(pos);
                state.channels.insert(pos, ChannelModel { eq_enabled: false, ..c });
                proof {
                    assert(state.channels@ =~= s0.channels@.update(
                        pos as int,
                        ChannelModel { eq_enabled: false, ..s0.channels@[pos as int] },
                    ));
                }
                one_action(MixerAction::DisableEq(id, name))
            } else {
                one_action(MixerAction::EnableEq(id, name))
            }
        },
        None => Vec::new(),
    }
}

fn without_text(v: Vec<String>, x: &str) -> (r: Vec<String>)
    ensures
        r@ == v@.filter(other_text(x@)),
{
    let ghost orig = v@;
    let ghost f = other_text(x@);
    let mut src = v;
    let mut out: Vec<String> = Vec::new();
    let ghost mut k: int = 0;
    proof {
        assert(orig.take(0).filter(f) =~= Seq::<String>::empty());
        assert(orig.skip(0) =~= orig);
    }
    while src.len() > 0
        invariant
            0 <= k <= orig.len(),
            f == other_text(x@),
            src@ == orig.skip(k),
            out@ == orig.take(k).filter(f),
        decreases src.len(),
    {
        proof {
            lemma_filter_take_succ(orig, f, k);
            assert(orig.skip(k).drop_first() =~= orig.skip(k + 1));
        }
        let a = src.remove(0);
        if !str_eq(a.as_str(), x) {
            out.push(a);
        }
        proof {
            k = k + 1;
        }
    }
    proof {
        assert(orig.take(k) =~= orig);
    }
    out
}

fn on_app_unassigned(state: &mut MixerModel, ch: u128, app: String, node: Option<u32>) -> (actions: Vec<MixerAction>)
    ensures
        step_spec(*old(state), MixerEvent::AppUnassigned(ch, app, node), *final(state), actions@),
{
    let ghost s0 = *state;
    if node.is_none() || !state.daemon_connected {
        match find_channel(&state.channels, ch) {
            Some(pos) => {
                let c = state.channels.remove(pos);
                let apps = without_text(c.assigned_apps, app.as_str());
                let c2 = ChannelModel { assigned_apps: apps, ..c };
                let ghost g2 = c2;
                state.channels.insert(pos, c2);
                proof {
                    assert forall|p: int| first_channel(s0.channels@, ch, p) implies p == pos by {
                        lemma_first_channel_unique(s0.channels@, ch, p, pos as int);
                    }
                    assert(state.channels@ =~= s0.channels@.update(pos as int, g2));
                }
            },
            None => {},
        }
    }
    match node {
        Some(n) => one_action(MixerAction::UnassignApp(n, ch)),
        None => Vec::new(),
    }
}

fn on_eq_enabled(state: &mut MixerModel, id: u128) -> (actions: Vec<MixerAction>)
    ensures
        step_spec(*old(state), MixerEvent::EqEnabled(id), *final(state), actions@),
{
    let ghost s0 = *state;
    match find_channel(&state.channels, id) {
        Some(pos) => {
            let c = state.channels.remove(pos);
            state.channels.insert(pos, ChannelModel { eq_enabled: true, ..c });
            proof {
                assert forall|p: int| first_channel(s0.channels@, id, p) implies p == pos by {
                    lemma_first_channel_unique(s0.channels@, id, p, pos as int);
                }
                assert(state.channels@ =~= s0.channels@.update(
                    pos as int,
                    ChannelModel { eq_enabled: true, ..s0.channels@[pos as int] },
                ));
            }
        },
        None => {},
    }
    Vec::new()
}

fn on_master_mute(state: &mut MixerModel, from_tray: bool) -> (actions: Vec<MixerAction>)
    ensures
        from_tray ==> step_spec(*old(state), MixerEvent::TrayToggleMuteAll, *final(state), actions@),
        !from_tray ==> step_spec(*old(state), MixerEvent::MasterMuteToggled, *final(state), actions@),
{
    let m = !state.master_muted;
    state.master_muted = m;
    if from_tray {
        two_actions(MixerAction::SetMasterMute(m), MixerAction::SetTrayMuted(m))
    } else {
        two_actions(MixerAction::SetMasterMute(m), MixerAction::SaveConfig)
    }
}

fn on_output_device_changed(state: &mut MixerModel, d: String) -> (actions: Vec<MixerAction>)
    ensures
        step_spec(*old(state), MixerEvent::OutputDeviceChanged(d), *final(state), actions@),
{
    state.output_device = Some(d.clone());
    two_actions(MixerAction::SetMasterOutput(d), MixerAction::SaveConfig)
}

proof fn lemma_first_channel_unique(s: Seq<ChannelModel>, id: u128, i: int, j: int)
    requires
        first_channel(s, id, i),
        first_channel(s, id, j),
    ensures
        i == j,
{
    if i < j {
        assert(s[i].id == id);
    } else if j < i {
        assert(s[j].id == id);
    }
}

fn on_start_editing_channel_name(state: &mut MixerModel, id: u128) -> (actions: Vec<MixerAction>)
    ensures
        step_spec(*old(state), MixerEvent::StartEditingChannelName(id), *final(state), actions@),
{
    match find_channel(&state.channels, id) {
        Some(pos) => {
            let name = state.channels[pos].name.clone();
            state.editing_channel = Some((id, name));
            proof {
                assert forall|p: int| first_channel(old(state).channels@, id, p) implies p == pos by {
                    lemma_first_channel_unique(old(state).channels@, id, p, pos as int);
                }
            }
        },
        None => {},
    }
    Vec::new()
}

fn on_channel_name_edit_changed(state: &mut MixerModel, v: String) -> (actions: Vec<MixerAction>)
    ensures
        step_spec(*old(state), MixerEvent::ChannelNameEditChanged(v), *final(state), actions@),
{
    match state.editing_channel.take() {
        Some((id, _)) => {
            state.editing_channel = Some((id, v));
        },
        None => {},
    }
    Vec::new()
}

fn two_actions(a: MixerAction, b: MixerAction) -> (v: Vec<MixerAction>)
    ensures
        v@ == seq![a, b],
{
    let mut v: Vec<MixerAction> = Vec::new();
    v.push(a);
    v.push(b);
    v
}

fn on_channel_renamed(state: &mut MixerModel, id: u128, name: String) -> (actions: Vec<MixerAction>)
    ensures
        step_spec(*old(state), MixerEvent::ChannelRenamed(id, name), *final(state), actions@),
{
    state.editing_channel = None;
    let trimmed = trim(&chars_of(name.as_str()));
    if trimmed.len() == 0 {
        return Vec::new();
    }
    let new_name = string_from_chars(trimmed.as_slice());
    let ghost before = state.channels@;
    match find_channel(&state.channels, id) {
        Some(pos) => {
            let c = state.channels.remove(pos);
            let renamed = ChannelModel { name: new_name.clone(), ..c };
            state.channels.insert(pos, renamed);
            proof {
                assert forall|p: int| first_channel(before, id, p) implies renamed_at(before, state.channels@, p, trim_spec(name@)) by {
                    lemma_first_channel_unique(before, id, p, pos as int);
                }
            }
        },
        None => {},
    }
    two_actions(MixerAction::RenameChannel(id, new_name), MixerAction::SaveConfig)
}

fn on_channel_deleted(state: &mut MixerModel, id: u128) -> (actions: Vec<MixerAction>)
    ensures
        step_spec(*old(state), MixerEvent::ChannelDeleted(id), *final(state), actions@),
{
    if !state.daemon_connected {
        let mut tmp: Vec<ChannelModel> = Vec::new();
        std::mem::swap(&mut tmp, &mut state.channels);
        state.channels = without_channel(tmp, id);
    }
    two_actions(MixerAction::DeleteChannel(id), MixerAction::SaveConfig)
}

fn count_inputs(chs: &Vec<ChannelModel>) -> (r: u64)
    ensures
        r == input_count(chs@),
{
    let ghost f = is_input_channel();
    let mut n: u64 = 0;
    let mut i: usize = 0;
    proof {
        assert(chs@.take(0).filter(f) =~= Seq::<ChannelModel>::empty());
    }
    while i < chs.len()
        invariant
            i <= chs.len(),
            f == is_input_channel(),
            n == chs@.take(i as int).filter(f).len(),
            n <= i,
        decreases chs.len() - i,
    {
        proof {
            lemma_filter_take_succ(chs@, f, i as int);
        }
        if chs[i].is_input {
            n += 1;
        }
        i += 1;
    }
    proof {
        assert(chs@.take(i as int) =~= chs@);
    }
    n
}

fn on_new_channel(state: &mut MixerModel, input: bool) -> (actions: Vec<MixerAction>)
    ensures
        input ==> step_spec(*old(state), MixerEvent::NewInputChannelRequested, *final(state), actions@),
        !input ==> step_spec(*old(state), MixerEvent::NewChannelRequested, *final(state), actions@),
{
    let count: u64 = if input {
        count_inputs(&state.channels)
    } else {
        state.channels.len() as u64
    };
    let n: u64 = if count < u64::MAX {
        count + 1
    } else {
        u64::MAX
    };
    let mut name = String::new();
    if input {
        string_push_str(&mut name, "Mic ");
    } else {
        string_push_str(&mut name, "Channel ");
    }
    push_decimal(&mut name, n);
    if state.daemon_connected {
        let a = if input {
            MixerAction::DaemonCreateInputChannel(name)
        } else {
            MixerAction::DaemonCreateChannel(name)
        };
        two_actions(a, MixerAction::SaveConfig)
    } else {
        let id = fresh_uuid();
        let c = ChannelModel {
            id,
            name: name.clone(),
            assigned_apps: Vec::new(),
            sink_id: None,
            is_input: input,
            muted: false,
            eq_enabled: false,
            eq_preset: "Flat".to_string(),
            output_device_name: None,
            input_device_name: None,
        };
        let ghost cg = c;
        state.channels.push(c);
        let a = if input {
            MixerAction::CreateVirtualSource(id, name)
        } else {
            MixerAction::CreateVirtualSink(id, name)
        };
        let v = two_actions(a, MixerAction::SaveConfig);
        proof {
            assert(cg.assigned_apps@.len() == 0);
        }
        v
    }
}

fn on_drop_app_on_channel(state: &mut MixerModel, ch: u128) -> (actions: Vec<MixerAction>)
    ensures
        step_spec(*old(state), MixerEvent::DropAppOnChannel(ch), *final(state), actions@),
{
    match state.dragging_app.take() {
        None => Vec::new(),
        Some((n, app)) => {
            let has_sink = match find_channel(&state.channels, ch) {
                Some(pos) => {
                    proof {
                        if channel_has_sink(state.channels@, ch) {
                            let p = choose|p: int| first_channel(state.channels@, ch, p) && state.channels@[p].sink_id is Some;
                            lemma_first_channel_unique(state.channels@, ch, p, pos as int);
                        }
                    }
                    state.channels[pos].sink_id.is_some()
                },
                None => false,
            };
            if state.daemon_connected || has_sink {
                one_action(MixerAction::AssignApp(n, ch))
            } else {
                state.last_error = Some("Channel has no sink - try again".to_string());
                state.dragging_app = Some((n, app));
                Vec::new()
            }
        },
    }
}

fn on_select_channel(state: &mut MixerModel, c: Option<u128>) -> (actions: Vec<MixerAction>)
    ensures
        step_spec(*old(state), MixerEvent::SelectChannel(c), *final(state), actions@),
{
    state.selected_channel = c;
    if c != state.plugin_browser_channel {
        state.plugin_browser_channel = None;
    }
    Vec::new()
}

fn on_view_event(state: &mut MixerModel, event: MixerEvent) -> (actions: Vec<MixerAction>)
    requires
        event is StartDraggingApp || event is CancelDrag || event is ToggleLeftSidebar || event is ToggleBottomPanel
            || event is OpenEqPanel || event is CloseEqPanel || event is OpenSettings || event is CloseSettings
            || event is OpenPluginBrowser || event is ClosePluginBrowser || event is CancelEditingChannelName,
    ensures
        step_spec(*old(state), event, *final(state), actions@),
{
    match event {
        MixerEvent::StartDraggingApp(n, app) => {
            state.dragging_app = Some((n, app));
        },
        MixerEvent::CancelDrag => {
            state.dragging_app = None;
        },
        MixerEvent::ToggleLeftSidebar => {
            state.left_sidebar_collapsed = !state.left_sidebar_collapsed;
        },
        MixerEvent::ToggleBottomPanel => {
            state.bottom_panel_expanded = !state.bottom_panel_expanded;
        },
        MixerEvent::OpenEqPanel(id) => {
            state.eq_panel_channel = Some(id);
        },
        MixerEvent::CloseEqPanel => {
            state.eq_panel_channel = None;
        },
        MixerEvent::OpenSettings => {
            state.settings_open = true;
        },
        MixerEvent::CloseSettings => {
            state.settings_open = false;
        },
        MixerEvent::OpenPluginBrowser(id) => {
            state.plugin_browser_channel = Some(id);
        },
        MixerEvent::ClosePluginBrowser => {
            state.plugin_browser_channel = None;
        },
        _ => {
            state.editing_channel = None;
        },
    }
    Vec::new()
}

/// Applies one event to the mixer's state and returns what the program must
/// do next; `step_spec` says what the step does for every event.
pub fn step(state: &mut MixerModel, event: MixerEvent) -> (actions: Vec<MixerAction>)
    ensures
        step_spec(*old(state), event, *final(state), actions@),
{
    match event {
        MixerEvent::OpenRoutingRulesPanel => on_open_routing_rules_panel(state),
        MixerEvent::CloseRoutingRulesPanel => on_close_routing_rules_panel(state),
        MixerEvent::ToggleRoutingRule(id) => on_toggle_routing_rule(state, id),
        MixerEvent::DeleteRoutingRule(id) => on_delete_routing_rule(state, id),
        MixerEvent::MoveRoutingRuleUp(id) => on_move_routing_rule_up(state, id),
        MixerEvent::MoveRoutingRuleDown(id) => on_move_routing_rule_down(state, id),
        MixerEvent::StartEditingRule(target) => on_start_editing_rule(state, target),
        MixerEvent::CancelEditingRule => on_cancel_editing_rule(state),
        MixerEvent::RuleNameChanged(v) => on_rule_name_changed(state, v),
        MixerEvent::RulePatternChanged(v) => on_rule_pattern_changed(state, v),
        MixerEvent::RuleMatchTypeChanged(v) => on_rule_match_type_changed(state, v),
        MixerEvent::RuleMatchTargetChanged(v) => on_rule_match_target_changed(state, v),
        MixerEvent::RuleTargetChannelChanged(v) => on_rule_target_channel_changed(state, v),
        MixerEvent::RulePriorityChanged(v) => on_rule_priority_changed(state, v),
        MixerEvent::SaveRoutingRule => on_save_routing_rule(state),
        MixerEvent::CreateQuickRule(app_name, binary, target) => on_create_quick_rule(state, app_name, binary, target),
        MixerEvent::AppAssigned(ch, app) => on_app_assigned(state, ch, app),
        MixerEvent::DaemonConnected => on_daemon_connected(state),
        MixerEvent::DaemonDisconnected => on_daemon_disconnected(state),
        MixerEvent::DaemonInitialState(connected, master_muted, chans, apps) => on_daemon_initial_state(
            state,
            connected,
            master_muted,
            chans,
            apps,
        ),
        MixerEvent::DaemonMasterMuteChanged(m) => {
            state.master_muted = m;
            Vec::new()
        },
        MixerEvent::DaemonChannelAdded(ci) => on_daemon_channel_added(state, ci),
        MixerEvent::DaemonChannelRemoved(text) => on_daemon_channel_removed(state, text),
        MixerEvent::DaemonChannelUpdated(ci) => on_daemon_channel_updated(state, ci),
        MixerEvent::DaemonAppDiscovered(a) => on_daemon_app_discovered(state, a),
        MixerEvent::DaemonMuteChanged(text, muted) => on_daemon_mute_changed(state, text, muted),
        MixerEvent::DaemonAppRemoved(text) => on_daemon_app_removed(state, text),
        MixerEvent::PipeWireConnectionChanged(b) => on_pipewire_connection_changed(state, b),
        MixerEvent::RestoreChannels(muted, output, saved) => on_restore_channels(state, muted, output, saved),
        MixerEvent::ChannelMuteToggled(id) => on_channel_mute_toggled(state, id),
        MixerEvent::MasterMuteToggled => on_master_mute(state, false),
        MixerEvent::TrayToggleMuteAll => on_master_mute(state, true),
        MixerEvent::OutputDeviceChanged(d) => on_output_device_changed(state, d),
        MixerEvent::ChannelOutputDeviceChanged(id, d) => on_channel_output_device_changed(state, id, d),
        MixerEvent::ChannelEqToggled(id) => on_channel_eq_toggled(state, id),
        MixerEvent::EqEnabled(id) => on_eq_enabled(state, id),
        MixerEvent::AppUnassigned(ch, app, node) => on_app_unassigned(state, ch, app, node),
        MixerEvent::StartEditingChannelName(id) => on_start_editing_channel_name(state, id),
        MixerEvent::ChannelNameEditChanged(v) => on_channel_name_edit_changed(state, v),
        MixerEvent::ChannelRenamed(id, name) => on_channel_renamed(state, id, name),
        MixerEvent::ChannelDeleted(id) => on_channel_deleted(state, id),
        MixerEvent::NewChannelRequested => on_new_channel(state, false),
        MixerEvent::NewInputChannelRequested => on_new_channel(state, true),
        MixerEvent::DropAppOnChannel(ch) => on_drop_app_on_channel(state, ch),
        MixerEvent::SelectChannel(c) => on_select_channel(state, c),
        other => on_view_event(state, other),
    }
}

/// No channel id occurs twice.
pub open spec fn channel_ids_unique(chs: Seq<ChannelModel>) -> bool {
    forall|i: int, j: int| 0 <= i < j < chs.len() ==> (#[trigger] chs[i]).id != (#[trigger] chs[j]).id
}

/// No channel has an app assigned twice.
pub open spec fn assignments_unique(chs: Seq<ChannelModel>) -> bool {
    forall|k: int| 0 <= k < chs.len() ==> views((#[trigger] chs[k]).assigned_apps@).no_duplicates()
}

/// Assigning an app to a channel never lists it twice there: a channel's
/// assigned apps stay free of repeats.
pub proof fn law_app_assignment_keeps_assignments_unique(s: MixerModel, ch: u128, app: String, t: MixerModel, actions: Seq<MixerAction>)
    requires
        assignments_unique(s.channels@),
        step_spec(s, MixerEvent::AppAssigned(ch, app), t, actions),
    ensures
        assignments_unique(t.channels@),
{
    if has_channel(s.channels@, ch) {
        let k0 = choose|k: int| 0 <= k < s.channels@.len() && s.channels@[k].id == ch;
        let pos = choose|p: int| first_channel(s.channels@, ch, p) && 0 <= p <= k0;
        assert(exists|p: int| first_channel(s.channels@, ch, p) && 0 <= p <= k0) by {
            lemma_first_channel_exists(s.channels@, ch, k0);
        }
        if !views(s.channels@[pos].assigned_apps@).contains(app@) {
            let old_apps = s.channels@[pos].assigned_apps@;
            assert(views(t.channels@[pos].assigned_apps@) =~= views(old_apps).push(app@));
            assert forall|k: int| 0 <= k < t.channels@.len() implies views((#[trigger] t.channels@[k]).assigned_apps@).no_duplicates() by {
                if k == pos {
                    let v = views(t.channels@[pos].assigned_apps@);
                    assert forall|a: int, b: int| 0 <= a < v.len() && 0 <= b < v.len() && a != b implies v[a] != v[b] by {
                        if a == old_apps.len() as int {
                            assert(v[a] == app@);
                            assert(views(old_apps)[b] == v[b]);
                            assert(views(old_apps).contains(views(old_apps)[b]));
                        } else if b == old_apps.len() as int {
                            assert(v[b] == app@);
                            assert(views(old_apps)[a] == v[a]);
                            assert(views(old_apps).contains(views(old_apps)[a]));
                        } else {
                            assert(views(old_apps)[a] == v[a]);
                            assert(views(old_apps)[b] == v[b]);
                        }
                    }
                } else {
                    assert(t.channels@[k] == s.channels@[k]);
                }
            }
        }
    }
}

proof fn lemma_first_channel_exists(s: Seq<ChannelModel>, id: u128, k: int)
    requires
        0 <= k < s.len(),
        s[k].id == id,
    ensures
        exists|p: int| first_channel(s, id, p) && 0 <= p <= k,
    decreases k,
{
    if forall|j: int| 0 <= j < k ==> s[j].id != id {
        assert(first_channel(s, id, k));
    } else {
        let j = choose|j: int| 0 <= j < k && s[j].id == id;
        lemma_first_channel_exists(s, id, j);
    }
}

/// Channels reported by the daemon never duplicate an id: a channel whose
/// id is known already is not added again.
pub proof fn law_channel_sync_keeps_ids_unique(s: MixerModel, ci: ChannelInfo, t: MixerModel, actions: Seq<MixerAction>)
    requires
        channel_ids_unique(s.channels@),
        step_spec(s, MixerEvent::DaemonChannelAdded(ci), t, actions),
    ensures
        channel_ids_unique(t.channels@),
{
    match channel_of_info(ci) {
        Some(c) => {
            if !has_channel(s.channels@, c.id) {
                assert forall|i: int, j: int| 0 <= i < j < t.channels@.len() implies (#[trigger] t.channels@[i]).id
                    != (#[trigger] t.channels@[j]).id by {
                    if j == s.channels@.len() {
                        assert(t.channels@[i] == s.channels@[i]);
                    } else {
                        assert(t.channels@[i] == s.channels@[i]);
                        assert(t.channels@[j] == s.channels@[j]);
                    }
                }
            }
        },
        None => {},
    }
}

/// Starting to edit an existing rule fills the form with that rule: its id,
/// name, pattern, match target, target channel, priority and enabled flag.
pub proof fn law_edit_form_mirrors_rule(s: MixerModel, id: u128, pos: int, t: MixerModel, actions: Seq<MixerAction>)
    requires
        is_first_with_id(s.routing_rules.rules@, id, pos),
        step_spec(s, MixerEvent::StartEditingRule(Some(id)), t, actions),
    ensures
        t.editing_rule is Some,
        t.editing_rule->0.id == Some(id),
        t.editing_rule->0.name@ == s.routing_rules.rules@[pos].name@,
        t.editing_rule->0.pattern@ == s.routing_rules.rules@[pos].match_type.pattern_view(),
        t.editing_rule->0.match_target == s.routing_rules.rules@[pos].match_target,
        t.editing_rule->0.target_channel@ == s.routing_rules.rules@[pos].target_channel@,
        t.editing_rule->0.priority == s.routing_rules.rules@[pos].priority,
        t.editing_rule->0.enabled == s.routing_rules.rules@[pos].enabled,
        t.routing_rules == s.routing_rules,
        actions.len() == 0,
{
    assert(is_first_with_id(s.routing_rules.rules@, id, pos));
    // The step's statement for an existing rule, with the rule's id.
    assert(match Some(id) {
        Some(i) => forall|p: int| #[trigger] is_first_with_id(s.routing_rules.rules@, i, p) ==> (t.editing_rule matches Some(
            e) && edit_of_rule(e, s.routing_rules.rules@[p])),
        None => true,
    });
}

/// Editing a rule, changing only its priority and saving keeps everything
/// else of the rule: the saved rule has the same id, name, target channel,
/// enabled flag and match target, and accepts exactly the same apps; its
/// priority is the typed one when that is a `u32`, else the old one. The
/// rule list afterwards is the old list with that rule replaced, sorted by
/// priority.
pub proof fn law_priority_edit_keeps_rule(
    s: MixerModel,
    id: u128,
    pos: int,
    v: String,
    t1: MixerModel,
    a1: Seq<MixerAction>,
    t2: MixerModel,
    a2: Seq<MixerAction>,
    u: MixerModel,
    a3: Seq<MixerAction>,
)
    requires
        is_first_with_id(s.routing_rules.rules@, id, pos),
        step_spec(s, MixerEvent::StartEditingRule(Some(id)), t1, a1),
        step_spec(t1, MixerEvent::RulePriorityChanged(v), t2, a2),
        step_spec(t2, MixerEvent::SaveRoutingRule, u, a3),
    ensures
        exists|r: RoutingRule| {
            let o = s.routing_rules.rules@[pos];
            &&& #[trigger] is_priority_sort_of(u.routing_rules.rules@, s.routing_rules.rules@.update(pos, r))
            &&& r.id == id
            &&& r.name@ == o.name@
            &&& r.target_channel@ == o.target_channel@
            &&& r.enabled == o.enabled
            &&& r.match_target == o.match_target
            &&& r.match_type.pattern_view() == o.match_type.pattern_view()
            &&& forall|value: Seq<char>| r.match_type.matches_spec(value) == o.match_type.matches_spec(value)
            &&& forall|name: Seq<char>, binary: Option<Seq<char>>| r.matches_spec(name, binary) == o.matches_spec(name, binary)
            &&& r.priority == match parse_unsigned_spec(v@, u32::MAX as nat) {
                Some(p) => p as u32,
                None => o.priority,
            }
        },
        a3 == seq![MixerAction::SaveRoutingRules],
{
    let o = s.routing_rules.rules@[pos];
    law_edit_form_mirrors_rule(s, id, pos, t1, a1);
    let ed = t1.editing_rule->0;
    assert(match Some(id) {
        Some(i) => forall|p: int| #[trigger] is_first_with_id(s.routing_rules.rules@, i, p) ==> (t1.editing_rule matches Some(
            e) && edit_of_rule(e, s.routing_rules.rules@[p])),
        None => true,
    });
    assert(edit_of_rule(ed, o));
    let ed2 = t2.editing_rule->0;
    assert(ed2.id == Some(id) && ed2.name == ed.name && ed2.pattern == ed.pattern);
    assert(ed2.match_type_name == ed.match_type_name && ed2.match_target == ed.match_target);
    assert(t2.routing_rules == s.routing_rules);
    let r = choose|r: RoutingRule| {
        &&& rule_of_edit(r, ed2)
        &&& (ed2.id is Some ==> forall|p: int| is_first_with_id(t2.routing_rules.rules@, r.id, p)
            ==> is_priority_sort_of(u.routing_rules.rules@, t2.routing_rules.rules@.update(p, r)))
    };
    assert(r.id == id);
    assert(is_first_with_id(t2.routing_rules.rules@, r.id, pos));
    assert(is_priority_sort_of(u.routing_rules.rules@, s.routing_rules.rules@.update(pos, r)));
    reveal_strlit("contains");
    reveal_strlit("exact");
    reveal_strlit("regex");
    reveal_strlit("glob");
    match o.match_type {
        MatchType::Contains(p) => {
            reveal_strlit("contains");
            reveal_strlit("exact");
            assert("contains"@.len() != "exact"@.len());
            assert("contains"@ != "regex"@);
            assert("contains"@ != "glob"@);
            assert(r.match_type is Contains);
        },
        MatchType::Exact(p) => {
            assert(r.match_type is Exact);
        },
        MatchType::Regex(p) => {
            reveal_strlit("regex");
            reveal_strlit("exact");
            assert("regex"@[0] != "exact"@[0]);
            assert(r.match_type is Regex);
        },
        MatchType::Glob(p) => {
            assert("glob"@ != "exact"@);
            assert("glob"@.len() != "regex"@.len());
            assert(r.match_type is Glob);
        },
    }
    assert forall|value: Seq<char>| r.match_type.matches_spec(value) == o.match_type.matches_spec(value) by {
    }
    assert forall|name: Seq<char>, binary: Option<Seq<char>>| r.matches_spec(name, binary) == o.matches_spec(name, binary) by {
    }
}

/// A daemon report for a known channel updates that channel: its name,
/// assigned apps, mute flag and EQ settings become the reported ones, and
/// its id, sink and kind stay; the other channels stay as they were.
pub proof fn law_daemon_update_follows_report(s: MixerModel, ci: ChannelInfo, id: u128, pos: int, t: MixerModel, actions: Seq<MixerAction>)
    requires
        uuid_text_value(ci.id_text@) == Some(id),
        first_channel(s.channels@, id, pos),
        step_spec(s, MixerEvent::DaemonChannelUpdated(ci), t, actions),
    ensures
        t.channels@.len() == s.channels@.len(),
        forall|k: int| 0 <= k < s.channels@.len() && k != pos ==> t.channels@[k] == s.channels@[k],
        t.channels@[pos].id == id,
        t.channels@[pos].name@ == ci.name@,
        t.channels@[pos].assigned_apps@ == ci.assigned_apps@,
        t.channels@[pos].muted == ci.muted,
        t.channels@[pos].eq_enabled == ci.eq_enabled,
        t.channels@[pos].eq_preset@ == ci.eq_preset@,
        t.channels@[pos].sink_id == s.channels@[pos].sink_id,
        t.channels@[pos].is_input == s.channels@[pos].is_input,
        ci.output_device@.len() > 0 ==> t.channels@[pos].output_device_name == Some(ci.output_device),
        actions.len() == 0,
{
}

} // verus!
