use sootmix::diagnostics::update_check_from_release;
use sootmix::persistence::{runtime_nodes_from_json, runtime_nodes_json};
use sootmix::pw_dump::{node_in_dump, orphaned_ids_in_dump};

const DUMP: &str = r#"[
  {"id": 30, "type": "PipeWire:Interface:Node", "info": {"props": {"node.name": "alsa_output.pci", "media.class": "Audio/Sink"}}},
  {"id": 41, "type": "PipeWire:Interface:Node", "info": {"props": {"node.name": "sootmix.game", "media.class": "Audio/Sink"}}},
  {"id": 42, "type": "PipeWire:Interface:Node", "info": {"props": {"node.name": "output.sootmix.game", "media.class": "Stream/Output/Audio"}}},
  {"id": 43, "type": "PipeWire:Interface:Node", "info": {"props": {"node.name": "capture.sootmix.mic", "media.class": "Stream/Input/Audio"}}},
  {"id": 44, "type": "PipeWire:Interface:Port", "info": {"props": {"node.name": "sootmix.port"}}},
  {"type": "PipeWire:Interface:Node", "info": {"props": {"node.name": "sootmix.noid"}}},
  {"id": 45, "type": "PipeWire:Interface:Node"}
]"#;

#[test]
fn orphans_are_read_from_the_dump_text() {
    assert_eq!(orphaned_ids_in_dump(DUMP), Some(vec![41, 42, 43]));
    assert_eq!(orphaned_ids_in_dump("[]"), Some(vec![]));
    assert_eq!(orphaned_ids_in_dump("not json"), None);
    assert_eq!(orphaned_ids_in_dump("{\"a\": 1}"), None);
}

#[test]
fn nodes_are_found_by_name_and_class_in_the_dump_text() {
    assert_eq!(node_in_dump(DUMP, "sootmix.game", "Audio/Sink"), Some(Some(41)));
    assert_eq!(node_in_dump(DUMP, "sootmix.game", "Audio/Source"), Some(None));
    assert_eq!(node_in_dump(DUMP, "sootmix.noid", ""), Some(None));
    assert_eq!(node_in_dump("[", "x", "y"), None);
}

#[test]
fn runtime_nodes_round_trip_through_json() {
    assert_eq!(runtime_nodes_json(&[]), "[]");
    assert_eq!(runtime_nodes_json(&[7, 40, 1234567]), "[7,40,1234567]");
    assert_eq!(runtime_nodes_from_json("[7,40,1234567]"), vec![7, 40, 1234567]);
    assert_eq!(runtime_nodes_from_json(" [ 1 , 2 ] "), vec![1, 2]);
    assert_eq!(runtime_nodes_from_json("[-1]"), Vec::<u32>::new());
    assert_eq!(runtime_nodes_from_json("garbage"), Vec::<u32>::new());
    let ids = vec![3, 2, 1];
    assert_eq!(runtime_nodes_from_json(&runtime_nodes_json(&ids)), ids);
}

#[test]
fn release_body_gives_the_update_check() {
    let u = update_check_from_release("0.1.0", r#"{"tag_name": "v0.2.0", "name": "x"}"#).unwrap();
    assert_eq!(u.current, "v0.1.0");
    assert_eq!(u.latest, "v0.2.0");
    assert!(u.newer_available);
    let same = update_check_from_release("0.2.0", r#"{"tag_name": "v0.2.0"}"#).unwrap();
    assert!(!same.newer_available);
    assert_eq!(
        update_check_from_release("0.1.0", r#"{"name": "x"}"#).unwrap_err(),
        "tag_name missing from GitHub response"
    );
    assert_eq!(
        update_check_from_release("0.1.0", r#"{"tag_name": 3}"#).unwrap_err(),
        "tag_name missing from GitHub response"
    );
    assert!(update_check_from_release("0.1.0", "<html>").unwrap_err().starts_with("response parse failed: "));
}
