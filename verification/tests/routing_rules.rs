use sootmix::glob::glob_match;
use sootmix::routing_rules::{AppGrouping, MatchTarget, MatchType, RoutingRule, RoutingRulesConfig};

#[test]
fn test_contains_match() {
    let mt = MatchType::Contains("fire".to_string());
    assert!(mt.matches("Firefox"));
    assert!(mt.matches("firefox"));
    assert!(mt.matches("FIREFOX Audio"));
    assert!(!mt.matches("Chrome"));
}

#[test]
fn test_exact_match() {
    let mt = MatchType::Exact("firefox".to_string());
    assert!(mt.matches("Firefox"));
    assert!(mt.matches("firefox"));
    assert!(!mt.matches("Firefox Audio"));
}

#[test]
fn test_regex_match() {
    let mt = MatchType::Regex(r"^(firefox|chrome)$".to_string());
    assert!(mt.matches("firefox"));
    assert!(mt.matches("chrome"));
    assert!(!mt.matches("Firefox")); // Regex is case-sensitive
    assert!(!mt.matches("firefox-esr"));
}

#[test]
fn test_regex_case_insensitive() {
    let mt = MatchType::Regex(r"(?i)^firefox$".to_string());
    assert!(mt.matches("firefox"));
    assert!(mt.matches("Firefox"));
    assert!(mt.matches("FIREFOX"));
}

#[test]
fn test_glob_match() {
    assert!(glob_match("fire*", "firefox"));
    assert!(glob_match("fire*", "Firefox"));
    assert!(glob_match("*fox", "firefox"));
    assert!(glob_match("*fox*", "firefox audio"));
    assert!(glob_match("fire???", "firefox"));
    assert!(!glob_match("fire???", "firefoxes"));
    assert!(glob_match("[fc]hrome", "chrome"));
    assert!(!glob_match("[fc]hrome", "bhrome"));
}

#[test]
fn test_routing_rule_match() {
    let rule = RoutingRule::new("Discord", "discord", "Communication");

    assert!(rule.matches("Discord", Some("discord")));
    assert!(rule.matches("Discord Voice", Some("discord")));
    assert!(rule.matches("Something", Some("discord")));
    assert!(!rule.matches("Spotify", Some("spotify")));
}

#[test]
fn test_routing_rule_binary_only() {
    let mut rule = RoutingRule::new("Discord Binary", "discord", "Communication");
    rule.match_target = MatchTarget::Binary;

    assert!(!rule.matches("Discord", None));
    assert!(rule.matches("Something", Some("discord")));
    assert!(!rule.matches("Discord", Some("other-binary")));
}

fn rule(id: u128, name: &str, priority: u32) -> RoutingRule {
    let mut r = RoutingRule::new(name, name, "Chan");
    r.id = id;
    r.priority = priority;
    r
}

fn names(cfg: &RoutingRulesConfig) -> Vec<String> {
    cfg.rules.iter().map(|r| r.name.clone()).collect()
}

#[test]
fn glob_classes_and_negation() {
    assert!(glob_match("[!b]hrome", "chrome"));
    assert!(!glob_match("[!c]hrome", "chrome"));
    assert!(glob_match("[^b]hrome", "chrome"));
    assert!(glob_match("*", ""));
    assert!(glob_match("**", "anything"));
    assert!(!glob_match("?", ""));
    assert!(glob_match("", ""));
    assert!(!glob_match("", "x"));
    // an unclosed class takes the rest of the pattern
    assert!(glob_match("a[bc", "ab"));
    // non-ASCII values after a star
    assert!(glob_match("*é", "café"));
}

#[test]
fn contains_is_case_insensitive_and_empty_pattern_matches() {
    assert!(MatchType::Contains(String::new()).matches("anything"));
    assert!(MatchType::Contains("AUD".to_string()).matches("pulseaudio"));
}

#[test]
fn invalid_regex_matches_nothing() {
    let mt = MatchType::Regex("(unclosed".to_string());
    assert!(!mt.matches("(unclosed"));
}

#[test]
fn glob_type_ignores_case() {
    assert!(MatchType::Glob("FIRE*".to_string()).matches("firefox"));
}

#[test]
fn pattern_and_type_label() {
    let mt = MatchType::Glob("a*".to_string());
    assert_eq!(mt.pattern(), "a*");
    assert_eq!(mt.type_label(), "glob");
    assert_eq!(MatchType::Contains("x".to_string()).type_label(), "contains");
    assert_eq!(MatchType::Exact("x".to_string()).type_label(), "exact");
    assert_eq!(MatchType::Regex("x".to_string()).type_label(), "regex");
}

#[test]
fn target_and_grouping_names() {
    assert_eq!(MatchTarget::all(), &[MatchTarget::AppName, MatchTarget::Binary, MatchTarget::Either]);
    assert_eq!(MatchTarget::AppName.display_name(), "App Name");
    assert_eq!(MatchTarget::Binary.display_name(), "Binary");
    assert_eq!(MatchTarget::Either.display_name(), "Either");
    assert_eq!(AppGrouping::all(), &[AppGrouping::GroupByApp, AppGrouping::Individual]);
    assert_eq!(AppGrouping::GroupByApp.display_name(), "Group by App");
    assert_eq!(AppGrouping::Individual.display_name(), "Individual Streams");
    assert_eq!(AppGrouping::GroupByApp.description(), "Route all audio streams from the same app together");
    assert_eq!(AppGrouping::Individual.description(), "Route each audio stream independently");
    assert_eq!(MatchTarget::default(), MatchTarget::AppName);
    assert_eq!(AppGrouping::default(), AppGrouping::GroupByApp);
}

#[test]
fn disabled_rule_never_matches() {
    let mut r = RoutingRule::new("D", "discord", "Comm");
    r.enabled = false;
    assert!(!r.matches("discord", Some("discord")));
}

#[test]
fn new_rule_defaults() {
    let r = RoutingRule::new("Name", "pat", "Chan");
    assert_eq!(r.name, "Name");
    assert_eq!(r.target_channel, "Chan");
    assert_eq!(r.priority, 100);
    assert!(r.enabled);
    assert_eq!(r.match_target, MatchTarget::Either);
    assert_eq!(r.match_type, MatchType::Contains("pat".to_string()));
    let other = RoutingRule::new("Name", "pat", "Chan");
    assert_ne!(r.id, other.id);
}

#[test]
fn add_rule_keeps_priority_order_and_is_stable() {
    let mut cfg = RoutingRulesConfig::new();
    assert!(cfg.rules.is_empty());
    assert_eq!(cfg.app_grouping, AppGrouping::GroupByApp);
    cfg.add_rule(rule(1, "a", 50));
    cfg.add_rule(rule(2, "b", 10));
    cfg.add_rule(rule(3, "c", 50));
    cfg.add_rule(rule(4, "d", 10));
    assert_eq!(names(&cfg), vec!["b", "d", "a", "c"]);
}

#[test]
fn find_match_returns_first_in_order() {
    let mut cfg = RoutingRulesConfig::new();
    cfg.add_rule(rule(1, "fire", 20));
    cfg.add_rule(rule(2, "firefox", 10));
    let m = cfg.find_match("Firefox", None).unwrap();
    assert_eq!(m.id, 2);
    assert!(cfg.find_match("Chrome", None).is_none());
}

#[test]
fn remove_get_toggle() {
    let mut cfg = RoutingRulesConfig::new();
    cfg.add_rule(rule(7, "x", 1));
    cfg.add_rule(rule(8, "y", 2));
    assert_eq!(cfg.get_rule(8).unwrap().name, "y");
    assert!(cfg.get_rule(9).is_none());
    assert!(!cfg.toggle_rule(7));
    assert!(!cfg.get_rule(7).unwrap().enabled);
    assert!(cfg.toggle_rule(7));
    assert!(!cfg.toggle_rule(99));
    let removed = cfg.remove_rule(7).unwrap();
    assert_eq!(removed.name, "x");
    assert!(cfg.remove_rule(7).is_none());
    assert_eq!(names(&cfg), vec!["y"]);
    cfg.get_rule_mut(8).unwrap().name = "z".to_string();
    assert_eq!(names(&cfg), vec!["z"]);
    assert!(cfg.get_rule_mut(1).is_none());
}

#[test]
fn move_up_and_down_swap_priorities() {
    let mut cfg = RoutingRulesConfig::new();
    cfg.add_rule(rule(1, "a", 10));
    cfg.add_rule(rule(2, "b", 20));
    cfg.add_rule(rule(3, "c", 30));
    cfg.move_up(3);
    assert_eq!(names(&cfg), vec!["a", "c", "b"]);
    assert_eq!(cfg.get_rule(3).unwrap().priority, 20);
    assert_eq!(cfg.get_rule(2).unwrap().priority, 30);
    cfg.move_up(1);
    assert_eq!(names(&cfg), vec!["a", "c", "b"]);
    cfg.move_down(1);
    assert_eq!(names(&cfg), vec!["c", "a", "b"]);
    cfg.move_down(2);
    assert_eq!(names(&cfg), vec!["c", "a", "b"]);
    cfg.move_down(42);
    assert_eq!(names(&cfg), vec!["c", "a", "b"]);
}

#[test]
fn move_up_with_equal_priorities_moves_the_rule() {
    let a = RoutingRule::new("A", "a", "X");
    let b = RoutingRule::new("B", "b", "Y");
    let b_id = b.id;
    let mut cfg = RoutingRulesConfig { rules: vec![a, b], app_grouping: AppGrouping::GroupByApp };
    cfg.move_up(b_id);
    assert_eq!(cfg.rules[0].id, b_id);
    assert_eq!(cfg.rules[1].name, "A");
    cfg.move_down(b_id);
    assert_eq!(cfg.rules[1].id, b_id);
    assert_eq!(cfg.rules[0].name, "A");
}

#[test]
fn sort_by_priority_is_stable() {
    let mut cfg = RoutingRulesConfig::new();
    cfg.rules.push(rule(1, "a", 5));
    cfg.rules.push(rule(2, "b", 1));
    cfg.rules.push(rule(3, "c", 5));
    cfg.rules.push(rule(4, "d", 1));
    cfg.sort_by_priority();
    assert_eq!(names(&cfg), vec!["b", "d", "a", "c"]);
}
