use sootmix::graph::{find_hardware_sink, GraphNode};
use sootmix::diagnostics::{update_check_from, version_newer, version_tuple};
use sootmix::errors::{ControlError, DaemonClientError, FilterChainError, PwError, VolumeError};
use sootmix::filter_chain::{eq_link_channels, eq_node_names, generate_eq_config, link_attempt_succeeded, link_port_candidates, EqBandText};
use sootmix::pw_dump::{default_sink_name_from_inspect, find_node_in_dump, find_node_in_status, metadata_usize, metadata_value, orphaned_node_ids, PwDumpObject};
use sootmix::virtual_sink::{plan_virtual_sink, plan_virtual_source, poll_should_retry, poll_sleep_ms, sanitize_node_name, VirtualSinkError};
use sootmix::volume::{adjust_volume_arg, mute_arg, volume_output_muted};

fn obj(t: &str, id: Option<u64>, name: &str, class: &str) -> PwDumpObject {
    PwDumpObject { obj_type: t.to_string(), id, node_name: name.to_string(), media_class: class.to_string() }
}

const NODE: &str = "PipeWire:Interface:Node";

#[test]
fn sanitize_keeps_alphanumerics_dash_underscore() {
    assert_eq!(sanitize_node_name("My Game! (2)"), "MyGame2");
    assert_eq!(sanitize_node_name("a_b-c.d"), "a_b-cd");
    assert_eq!(sanitize_node_name(""), "");
}

#[test]
fn sink_plan_names_and_props() {
    let p = plan_virtual_sink("Game Audio", "Game Audio");
    assert_eq!(p.node_name, "sootmix.GameAudio");
    assert_eq!(p.node_class, "Audio/Sink");
    assert_eq!(p.loopback_name, "sootmix.GameAudio.output");
    assert_eq!(p.stream_node_name, "output.sootmix.GameAudio.output");
    assert_eq!(p.stream_class, "Stream/Output/Audio");
    assert_eq!(
        p.capture_props,
        "media.class=Audio/Sink node.name=sootmix.GameAudio node.description=\"Game Audio\" audio.position=[FL FR] priority.session=2000"
    );
    assert_eq!(
        p.playback_props,
        "media.class=Stream/Output/Audio node.autoconnect=false audio.position=[FL FR] object.linger=true session.suspend-timeout-enabled=false stream.capture.sink=false"
    );
}

#[test]
fn source_plan_names_and_props() {
    let p = plan_virtual_source("Mic", "Mic");
    assert_eq!(p.node_name, "sootmix.Mic");
    assert_eq!(p.node_class, "Audio/Source");
    assert_eq!(p.loopback_name, "sootmix.Mic.capture");
    assert_eq!(p.stream_node_name, "capture.sootmix.Mic.capture");
    assert_eq!(p.stream_class, "Stream/Input/Audio");
    assert!(p.playback_props.starts_with("media.class=Audio/Source node.name=sootmix.Mic node.description=\"Mic\""));
    assert!(p.capture_props.contains("node.autoconnect=false"));
}

#[test]
fn find_node_in_dump_picks_first_matching_node() {
    let objs = vec![
        obj("PipeWire:Interface:Port", Some(1), "sootmix.Game", "Audio/Sink"),
        obj(NODE, None, "sootmix.Game", "Audio/Sink"),
        obj(NODE, Some(42), "sootmix.Game", "Audio/Sink"),
        obj(NODE, Some(43), "sootmix.Game", "Audio/Sink"),
    ];
    assert_eq!(find_node_in_dump(&objs, "sootmix.Game", "Audio/Sink"), Some(42));
    assert_eq!(find_node_in_dump(&objs, "sootmix.Game", "Audio/Source"), None);
    // ids are truncated to 32 bits
    let big = vec![obj(NODE, Some((1u64 << 32) + 5), "n", "c")];
    assert_eq!(find_node_in_dump(&big, "n", "c"), Some(5));
}

#[test]
fn orphans_are_sootmix_nodes() {
    let objs = vec![
        obj(NODE, Some(1), "sootmix.A", "Audio/Sink"),
        obj(NODE, Some(2), "alsa_output.pci", "Audio/Sink"),
        obj(NODE, Some(3), "output.sootmix.A.output", "Stream/Output/Audio"),
        obj("PipeWire:Interface:Link", Some(4), "sootmix.B", ""),
        obj(NODE, None, "sootmix.C", ""),
        obj(NODE, Some(5), "capture.sootmix.mic.capture", "Stream/Input/Audio"),
        obj(NODE, Some(6), "capture.other", "Stream/Input/Audio"),
    ];
    assert_eq!(orphaned_node_ids(&objs), vec![1, 3, 5]);
}

#[test]
fn wpctl_status_lookup() {
    let status = "Audio\n ├─ Sinks:\n │      42. sootmix.Game [vol: 1.00]\n │  *   57. Built-in Audio [vol: 0.40]\r\n";
    assert_eq!(find_node_in_status(status, "sootmix.Game"), None);
    let status2 = "Sinks:\n      42. sootmix.Game [vol: 1.00]\n  *   57. Built-in Audio\r\n";
    assert_eq!(find_node_in_status(status2, "sootmix.Game"), Some(42));
    assert_eq!(find_node_in_status(status2, "Nothing"), None);
}

#[test]
fn default_sink_from_inspect_output() {
    let out = "id 57, type PipeWire:Interface:Node\n    media.class = \"Audio/Sink\"\n  * node.name = \"alsa_output.pci-0000_00_1f.3.analog-stereo\"\n    node.nick = \"x\"\n";
    assert_eq!(default_sink_name_from_inspect(out), None);
    let out2 = "id 57\n    node.name = \"alsa_output.analog-stereo\"\n";
    assert_eq!(default_sink_name_from_inspect(out2), Some("alsa_output.analog-stereo".to_string()));
    assert_eq!(default_sink_name_from_inspect("node.nick = a\n"), None);
}

#[test]
fn metadata_values() {
    let out = "Found \"settings\" metadata 0\nupdate: id:0 key:'clock.rate' value:'48000' type:'Spa:Int'\n";
    assert_eq!(metadata_value(out), Some("48000".to_string()));
    assert_eq!(metadata_usize(out), Some(48000));
    assert_eq!(metadata_usize("nothing here\n"), None);
    assert_eq!(metadata_usize("value:'abc'\n"), None);
    assert_eq!(metadata_value("value: none\nvalue:'1'\n"), None);
}

#[test]
fn version_tuples_and_comparison() {
    assert_eq!(version_tuple("v1.2.3"), (1, 2, 3, 0));
    assert_eq!(version_tuple("vv1.2.3-4"), (1, 2, 3, 4));
    assert_eq!(version_tuple("1.x"), (1, 0, 0, 0));
    assert_eq!(version_tuple(""), (0, 0, 0, 0));
    assert_eq!(version_tuple("v2.0.0-beta"), (2, 0, 0, 0));
    assert!(version_newer((1, 2, 4, 0), (1, 2, 3, 9)));
    assert!(!version_newer((1, 2, 3, 0), (1, 2, 3, 0)));
    let c = update_check_from("0.5.1", "v0.6.0");
    assert_eq!(c.current, "v0.5.1");
    assert_eq!(c.latest, "v0.6.0");
    assert!(c.newer_available);
    assert!(!update_check_from("0.5.1", "v0.5.1").newer_available);
    assert!(update_check_from("0.5.1", "v0.5.1-2").newer_available);
}

#[test]
fn poll_schedule() {
    assert_eq!(poll_sleep_ms(0, 20), 10);
    assert_eq!(poll_sleep_ms(1, 20), 20);
    assert_eq!(poll_sleep_ms(2, 20), 40);
    assert_eq!(poll_sleep_ms(3, 20), 80);
    assert!(poll_should_retry(0, 4));
    assert!(poll_should_retry(2, 4));
    assert!(!poll_should_retry(3, 4));
    assert!(!poll_should_retry(0, 0));
}

#[test]
fn volume_helpers() {
    assert_eq!(adjust_volume_arg(5), "5%+");
    assert_eq!(adjust_volume_arg(0), "0%+");
    assert_eq!(adjust_volume_arg(-12), "12%-");
    assert_eq!(mute_arg(true), "1");
    assert_eq!(mute_arg(false), "0");
    assert!(volume_output_muted("Volume: 0.50 [MUTED]"));
    assert!(!volume_output_muted("Volume: 1.00"));
}

fn bands() -> [EqBandText; 5] {
    let b = |f: u32, q: &str, g: &str| EqBandText { freq: f, q: q.to_string(), gain: g.to_string() };
    [b(60, "0.800", "6.00"), b(250, "1.000", "3.00"), b(1000, "1.000", "0.00"), b(4000, "1.000", "0.00"), b(16000, "1.000", "-2.00")]
}

#[test]
fn test_generate_eq_config() {
    let config = generate_eq_config("test", &bands());
    assert!(config.contains("sootmix.eq.test"));
    assert!(config.contains("bq_peaking"));
    assert!(config.contains("eq_band_0"));
    assert!(config.contains("sootmix.eq.test.output"));
}

#[test]
fn eq_config_details() {
    let config = generate_eq_config("ch", &bands());
    assert!(config.starts_with("context.properties = {\n    core.daemon = false\n    core.name = \"sootmix-eq-ch\"\n}"));
    assert!(config.contains("control = { \"Freq\" = 60 \"Q\" = 0.800 \"Gain\" = 6.00 }"));
    assert!(config.contains("{ output = \"eq_band_3:Out\" input = \"eq_band_4:In\" }"));
    assert!(!config.contains("eq_band_5"));
    assert!(config.ends_with("    }\n]\n"));
    let (sink, out) = eq_node_names("My Ch");
    assert_eq!(sink, "sootmix.eq.MyCh");
    assert_eq!(out, "sootmix.eq.MyCh.output");
}

#[test]
fn link_plan() {
    let c = link_port_candidates("a", "b", "FL");
    assert_eq!(c.len(), 9);
    assert_eq!(c[0], ("a:playback_FL".to_string(), "b:playback_FL".to_string()));
    assert_eq!(c[1], ("a:playback_FL".to_string(), "b:input_FL".to_string()));
    assert_eq!(c[8], ("a:monitor_FL".to_string(), "b:capture_FL".to_string()));
    assert!(link_attempt_succeeded(true, ""));
    assert!(link_attempt_succeeded(false, "failed to link ports: already linked"));
    assert!(!link_attempt_succeeded(false, "no such port"));
    assert_eq!(eq_link_channels(), ["FL", "FR"]);
}

#[test]
fn error_messages() {
    assert_eq!(ControlError::NodeNotBound(17).message(), "Node not bound: 17");
    assert_eq!(ControlError::InvalidValue("x".into()).message(), "Invalid parameter value: x");
    assert_eq!(FilterChainError::NodeNotFound.message(), "Failed to find created node");
    assert_eq!(FilterChainError::RoutingFailed("r".into()).message(), "Routing failed: r");
    assert_eq!(PwError::ThreadError("t".into()).message(), "PipeWire thread error: t");
    assert_eq!(VolumeError::WpctlFailed("w".into()).message(), "Failed to execute wpctl: w");
    assert_eq!(DaemonClientError::MethodCallFailed("m".into()).message(), "Method call failed: m");
    assert_eq!(VirtualSinkError::InvalidJson.message(), "Invalid JSON from pw-dump");
    assert_eq!(VirtualSinkError::SpawnFailed("e".into()).message(), "Failed to spawn pw-loopback: e");
}

#[test]
fn description_props_escape_quotes() {
    assert_eq!(
        sootmix::virtual_sink::node_description_props("Game"),
        "{ params = [ \"node.description\" \"Game\" ] }"
    );
    assert_eq!(
        sootmix::virtual_sink::node_description_props("My \"Game\""),
        "{ params = [ \"node.description\" \"My \\\"Game\\\"\" ] }"
    );
}

#[test]
fn hardware_sink_choice() {
    let n = |id: u32, name: &str, sink: bool| GraphNode { id, name: name.to_string(), is_audio_sink: sink };
    let nodes = vec![
        n(1, "sootmix.Game", true),
        n(2, "alsa_output.pci-0000_00_1f.3.analog-stereo", true),
        n(3, "LB-loop", true),
        n(4, "Virtual Sink 1", true),
        n(5, "my_dac", true),
        n(6, "bluez_output.AA_BB", true),
        n(7, "alsa_output.usb-mic", false),
    ];
    assert_eq!(find_hardware_sink(&nodes, &[]), Some(2));
    assert_eq!(find_hardware_sink(&nodes, &[2]), Some(6));
    assert_eq!(find_hardware_sink(&nodes, &[2, 6]), Some(5));
    assert_eq!(find_hardware_sink(&nodes, &[2, 5, 6]), None);
    assert_eq!(find_hardware_sink(&vec![], &[]), None);
}
