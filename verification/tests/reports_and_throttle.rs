use sootmix::daemon_client::{
    daemon_binary_candidates, is_enabled_output, systemctl_run_failure, ConnectionEvent, ConnectionStep, DaemonConnection,
    SystemctlAction,
};
use sootmix::cli_throttle::{CliThrottle, InFlightNodes};
use sootmix::diagnostics::{
    command_failure_text, command_output_text, format_timestamp, report_archive_name, report_dir_name,
    report_entry_path, report_timestamp, report_version_text, ymd_hms,
};

#[test]
fn ymd_hms_known_instants() {
    assert_eq!(ymd_hms(0), (1970, 1, 1, 0, 0, 0));
    assert_eq!(ymd_hms(1_700_000_000), (2023, 11, 14, 22, 13, 20));
    assert_eq!(ymd_hms(-1), (1969, 12, 31, 23, 59, 59));
    assert_eq!(ymd_hms(951_782_400), (2000, 2, 29, 0, 0, 0));
    assert_eq!(ymd_hms(4_107_542_399), (2100, 2, 28, 23, 59, 59));
    assert_eq!(ymd_hms(-62_135_596_800), (1, 1, 1, 0, 0, 0));
    assert_eq!(ymd_hms(68_256_000), (1972, 3, 1, 0, 0, 0));
}

#[test]
fn report_timestamp_is_zero_padded() {
    assert_eq!(report_timestamp(0), "19700101-000000");
    assert_eq!(report_timestamp(1_700_000_000), "20231114-221320");
    assert_eq!(report_timestamp(-62_135_596_800), "00010101-000000");
    assert_eq!(format_timestamp((-5, 3, 4, 5, 6, 7)), "-0050304-050607");
    assert_eq!(format_timestamp((12345, 12, 31, 23, 59, 58)), "123451231-235958");
}

#[test]
fn report_names_and_texts() {
    let dir = report_dir_name("20231114-221320");
    assert_eq!(dir, "sootmix-report-20231114-221320");
    assert_eq!(report_archive_name(&dir), "sootmix-report-20231114-221320.tar.gz");
    assert_eq!(report_entry_path(&dir, "config/mixer.toml"), "sootmix-report-20231114-221320/config/mixer.toml");
    assert_eq!(
        report_version_text("0.3.1", "20231114-221320"),
        "sootmix GUI version: 0.3.1\nreport generated: 20231114-221320\n"
    );
}

#[test]
fn command_texts() {
    assert_eq!(command_output_text("out", "", true, "exit status: 0"), "out");
    assert_eq!(command_output_text("out", "err", true, "exit status: 0"), "out\n--- stderr ---\nerr");
    assert_eq!(
        command_output_text("", "err", false, "exit status: 1"),
        "\n--- stderr ---\nerr\n--- exit: exit status: 1 ---\n"
    );
    assert_eq!(
        command_failure_text("pw-link", &["-l"], "No such file or directory (os error 2)"),
        "<command `pw-link -l` failed: No such file or directory (os error 2)>\n"
    );
    assert_eq!(
        command_failure_text("journalctl", &["--user", "-n", "2000"], "denied"),
        "<command `journalctl --user -n 2000` failed: denied>\n"
    );
    assert_eq!(command_failure_text("pw-dump", &[], "gone"), "<command `pw-dump ` failed: gone>\n");
}

#[test]
fn cli_throttle_window() {
    let mut t = CliThrottle::new();
    assert!(t.should_run(7, 1000));
    assert!(!t.should_run(7, 1049));
    assert!(t.should_run(8, 1049));
    assert!(t.should_run(7, 1050));
    assert!(!t.should_run(7, 1000));
    assert!(t.should_run(7, 1100));
}

#[test]
fn systemctl_answers() {
    assert_eq!(SystemctlAction::Start.outcome(true, ""), Ok("Daemon started".to_string()));
    assert_eq!(SystemctlAction::Stop.outcome(true, "x"), Ok("Daemon stopped".to_string()));
    assert_eq!(SystemctlAction::Restart.outcome(true, ""), Ok("Daemon restarted".to_string()));
    assert_eq!(SystemctlAction::set_enabled(true).outcome(true, ""), Ok("Daemon enabled".to_string()));
    assert_eq!(SystemctlAction::set_enabled(false).outcome(true, ""), Ok("Daemon disabled".to_string()));
    assert_eq!(
        SystemctlAction::Start.outcome(false, "  Unit sootmix-daemon.service not found.\n"),
        Err("Unit sootmix-daemon.service not found.".to_string())
    );
    assert_eq!(SystemctlAction::Disable.verb(), "disable");
    assert!(is_enabled_output("enabled\n"));
    assert!(!is_enabled_output("disabled\n"));
    assert!(!is_enabled_output("enabled-runtime\n"));
    assert_eq!(systemctl_run_failure("No such file"), "Failed to run systemctl: No such file");
}

#[test]
fn daemon_binary_search_order() {
    assert_eq!(
        daemon_binary_candidates(Some("/opt/sootmix"), Some("/home/u")),
        vec!["/opt/sootmix/sootmix-daemon", "/home/u/.cargo/bin/sootmix-daemon", "/usr/bin/sootmix-daemon", "/usr/local/bin/sootmix-daemon"]
    );
    assert_eq!(
        daemon_binary_candidates(None, Some("/home/u")),
        vec!["/usr/bin/sootmix-daemon", "/home/u/.cargo/bin/sootmix-daemon", "/usr/local/bin/sootmix-daemon"]
    );
    assert_eq!(
        daemon_binary_candidates(Some("/opt/sootmix/"), None),
        vec!["/opt/sootmix/sootmix-daemon", "/usr/bin/sootmix-daemon", "/usr/local/bin/sootmix-daemon"]
    );
    assert_eq!(daemon_binary_candidates(None, None), vec!["/usr/bin/sootmix-daemon", "/usr/local/bin/sootmix-daemon"]);
}

#[test]
fn connection_loop_starts_daemon_once() {
    let mut c = DaemonConnection::new();
    assert_eq!(c.on_event(ConnectionEvent::ConnectFailed), ConnectionStep::StartDaemon);
    assert_eq!(
        c.on_event(ConnectionEvent::StartFinished(true)),
        ConnectionStep::Reconnect { announce_disconnected: false, wait_ms: 1000 }
    );
    assert_eq!(
        c.on_event(ConnectionEvent::ConnectFailed),
        ConnectionStep::Reconnect { announce_disconnected: true, wait_ms: 2000 }
    );
    assert_eq!(c.on_event(ConnectionEvent::Connected), ConnectionStep::RunSession);
    assert_eq!(
        c.on_event(ConnectionEvent::ConnectionLost),
        ConnectionStep::Reconnect { announce_disconnected: true, wait_ms: 2000 }
    );
    assert_eq!(c.on_event(ConnectionEvent::ConnectFailed), ConnectionStep::StartDaemon);
    assert_eq!(
        c.on_event(ConnectionEvent::StartFinished(false)),
        ConnectionStep::Reconnect { announce_disconnected: true, wait_ms: 2000 }
    );
}

#[test]
fn one_cli_operation_per_node() {
    let mut f = InFlightNodes::new();
    assert!(f.try_begin(4));
    assert!(!f.try_begin(4));
    assert!(f.try_begin(5));
    f.finish(4);
    assert!(f.try_begin(4));
    f.finish(9);
    assert!(!f.try_begin(5));
}
