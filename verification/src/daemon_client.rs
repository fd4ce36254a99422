//! The decisions around the daemon connection: how `systemctl` answers are
//! read, where the daemon binary is looked for, and what the connection
//! loop does after each connection attempt. Running the commands and the
//! D-Bus calls is left to the caller.

use vstd::prelude::*;
use crate::parse::{trim, trim_spec};
use crate::persistence::{join_spec, path_join};
use crate::text::{chars_of, str_eq};

verus! {

/// The systemd user unit of the daemon.
pub const SERVICE_NAME: &'static str = "sootmix-daemon.service";

/// A `systemctl --user` action on the daemon's unit.
#[derive(Debug, Clone, Copy, PartialEq, Eq, Structural)]
pub enum SystemctlAction {
    Start,
    Stop,
    Restart,
    Enable,
    Disable,
}

impl SystemctlAction {
    /// The `systemctl` verb.
    pub open spec fn verb_spec(self) -> Seq<char> {
        match self {
            SystemctlAction::Start => "start"@,
            SystemctlAction::Stop => "stop"@,
            SystemctlAction::Restart => "restart"@,
            SystemctlAction::Enable => "enable"@,
            SystemctlAction::Disable => "disable"@,
        }
    }

    /// The message reported when the action succeeded.
    pub open spec fn success_message_spec(self) -> Seq<char> {
        match self {
            SystemctlAction::Start => "Daemon started"@,
            SystemctlAction::Stop => "Daemon stopped"@,
            SystemctlAction::Restart => "Daemon restarted"@,
            SystemctlAction::Enable => "Daemon enabled"@,
            SystemctlAction::Disable => "Daemon disabled"@,
        }
    }

    /// The action that turns autostart on or off.
    pub fn set_enabled(enable: bool) -> (r: SystemctlAction)
        ensures
            r == (if enable { SystemctlAction::Enable } else { SystemctlAction::Disable }),
    {
        if enable { SystemctlAction::Enable } else { SystemctlAction::Disable }
    }

    /// The `systemctl` verb for this action.
    pub fn verb(&self) -> (r: &'static str)
        ensures
            r@ == self.verb_spec(),
    {
        match self {
            SystemctlAction::Start => "start",
            SystemctlAction::Stop => "stop",
            SystemctlAction::Restart => "restart",
            SystemctlAction::Enable => "enable",
            SystemctlAction::Disable => "disable",
        }
    }

    /// What a finished `systemctl` run of this action reports: its success
    /// message, or its trimmed standard error.
    pub fn outcome(&self, success: bool, stderr: &str) -> (r: Result<String, String>)
        ensures
            success ==> (r matches Ok(m) && m@ == self.success_message_spec()),
            !success ==> (r matches Err(e) && e@ == trim_spec(stderr@)),
    {
        if success {
            let m = match self {
                SystemctlAction::Start => "Daemon started",
                SystemctlAction::Stop => "Daemon stopped",
                SystemctlAction::Restart => "Daemon restarted",
                SystemctlAction::Enable => "Daemon enabled",
                SystemctlAction::Disable => "Daemon disabled",
            };
            Ok(m.to_string())
        } else {
            let t = trim(&chars_of(stderr));
            Err(crate::text::string_from_chars(t.as_slice()))
        }
    }
}

/// The error reported when `systemctl` could not be run at all.
pub fn systemctl_run_failure(error: &str) -> (r: String)
    ensures
        r@ == "Failed to run systemctl: "@ + error@,
{
    crate::errors::prefixed("Failed to run systemctl: ", error)
}

/// Whether `systemctl is-enabled` printed that the unit is enabled.
pub fn is_enabled_output(stdout: &str) -> (r: bool)
    ensures
        r == (trim_spec(stdout@) == "enabled"@),
{
    let t = trim(&chars_of(stdout));
    let s = crate::text::string_from_chars(t.as_slice());
    str_eq(s.as_str(), "enabled")
}

/// The places the daemon binary is looked for, in order: beside the running
/// executable, the system locations, with the Cargo install location second.
pub open spec fn daemon_binary_candidates_spec(exe_dir: Option<Seq<char>>, home: Option<Seq<char>>) -> Seq<Seq<char>> {
    let system = seq!["/usr/bin/sootmix-daemon"@, "/usr/local/bin/sootmix-daemon"@];
    let with_exe = match exe_dir {
        Some(d) => system.insert(0, join_spec(d, "sootmix-daemon"@)),
        None => system,
    };
    match home {
        Some(h) => with_exe.insert(1, join_spec(h, ".cargo/bin/sootmix-daemon"@)),
        None => with_exe,
    }
}

/// The views of a vector of strings.
pub open spec fn string_views(v: Seq<String>) -> Seq<Seq<char>> {
    v.map_values(|s: String| s@)
}

/// Lists where to look for the daemon binary, given the directory of the
/// running executable and `$HOME` when they are known.
pub fn daemon_binary_candidates(exe_dir: Option<&str>, home: Option<&str>) -> (r: Vec<String>)
    ensures
        string_views(r@) == daemon_binary_candidates_spec(
            match exe_dir { Some(d) => Some(d@), None => None },
            match home { Some(h) => Some(h@), None => None },
        ),
{
    let mut paths: Vec<String> = Vec::new();
    paths.push("/usr/bin/sootmix-daemon".to_string());
    paths.push("/usr/local/bin/sootmix-daemon".to_string());
    proof {
        assert(string_views(paths@) =~= seq!["/usr/bin/sootmix-daemon"@, "/usr/local/bin/sootmix-daemon"@]);
    }
    let ghost system = string_views(paths@);
    match exe_dir {
        Some(d) => {
            let p = path_join(d, "sootmix-daemon");
            paths.insert(0, p);
            proof {
                assert(string_views(paths@) =~= system.insert(0, join_spec(d@, "sootmix-daemon"@)));
            }
        },
        None => {},
    }
    let ghost with_exe = string_views(paths@);
    match home {
        Some(h) => {
            let p = path_join(h, ".cargo/bin/sootmix-daemon");
            paths.insert(1, p);
            proof {
                assert(string_views(paths@) =~= with_exe.insert(1, join_spec(h@, ".cargo/bin/sootmix-daemon"@)));
            }
        },
        None => {},
    }
    paths
}

/// What the connection loop learned last.
#[derive(Debug, Clone, Copy, PartialEq, Eq, Structural)]
pub enum ConnectionEvent {
    /// Connecting to the daemon succeeded.
    Connected,
    /// Connecting to the daemon failed.
    ConnectFailed,
    /// An attempt to start the daemon finished (`true` when it started).
    StartFinished(bool),
    /// An established connection was lost.
    ConnectionLost,
}

/// What the connection loop does next.
#[derive(Debug, Clone, Copy, PartialEq, Eq, Structural)]
pub enum ConnectionStep {
    /// Announce the connection, fetch the initial state and listen until
    /// the connection is lost.
    RunSession,
    /// Try to start the daemon.
    StartDaemon,
    /// Wait this many milliseconds, then connect again; announce first that
    /// the daemon is disconnected when the flag is set.
    Reconnect { announce_disconnected: bool, wait_ms: u64 },
}

/// The state of the connection loop: whether a start of the daemon was
/// already tried since the last successful connection.
#[derive(Debug, Clone, Copy, PartialEq, Eq, Structural)]
pub struct DaemonConnection {
    pub start_attempted: bool,
}

/// The wait before reconnecting after a failure or a lost connection.
pub const RECONNECT_WAIT_MS: u64 = 2000;

/// The wait before reconnecting after the daemon was started.
pub const STARTED_WAIT_MS: u64 = 1000;

/// The next state and step of the connection loop after an event.
pub open spec fn connection_next(s: DaemonConnection, e: ConnectionEvent) -> (DaemonConnection, ConnectionStep) {
    match e {
        ConnectionEvent::Connected => (DaemonConnection { start_attempted: false }, ConnectionStep::RunSession),
        ConnectionEvent::ConnectionLost => (s, ConnectionStep::Reconnect { announce_disconnected: true, wait_ms: RECONNECT_WAIT_MS }),
        ConnectionEvent::ConnectFailed => if !s.start_attempted {
            (DaemonConnection { start_attempted: true }, ConnectionStep::StartDaemon)
        } else {
            (s, ConnectionStep::Reconnect { announce_disconnected: true, wait_ms: RECONNECT_WAIT_MS })
        },
        ConnectionEvent::StartFinished(started) => if started {
            (s, ConnectionStep::Reconnect { announce_disconnected: false, wait_ms: STARTED_WAIT_MS })
        } else {
            (s, ConnectionStep::Reconnect { announce_disconnected: true, wait_ms: RECONNECT_WAIT_MS })
        },
    }
}

impl DaemonConnection {
    /// The loop's state before the first attempt.
    pub fn new() -> (r: DaemonConnection)
        ensures
            !r.start_attempted,
    {
        DaemonConnection { start_attempted: false }
    }

    /// Records an event and returns what to do next.
    pub fn on_event(&mut self, event: ConnectionEvent) -> (r: ConnectionStep)
        ensures
            (*final(self), r) == connection_next(*old(self), event),
    {
        match event {
            ConnectionEvent::Connected => {
                self.start_attempted = false;
                ConnectionStep::RunSession
            },
            ConnectionEvent::ConnectionLost => ConnectionStep::Reconnect {
                announce_disconnected: true,
                wait_ms: RECONNECT_WAIT_MS,
            },
            ConnectionEvent::ConnectFailed => {
                if !self.start_attempted {
                    self.start_attempted = true;
                    ConnectionStep::StartDaemon
                } else {
                    ConnectionStep::Reconnect { announce_disconnected: true, wait_ms: RECONNECT_WAIT_MS }
                }
            },
            ConnectionEvent::StartFinished(started) => {
                if started {
                    ConnectionStep::Reconnect { announce_disconnected: false, wait_ms: STARTED_WAIT_MS }
                } else {
                    ConnectionStep::Reconnect { announce_disconnected: true, wait_ms: RECONNECT_WAIT_MS }
                }
            },
        }
    }
}

/// The daemon is started at most once between two successful connections:
/// once a start was tried, further failures only wait and reconnect, and a
/// successful connection allows one start again.
pub proof fn law_start_tried_once_per_outage(s: DaemonConnection, e: ConnectionEvent)
    ensures
        connection_next(s, e).1 == ConnectionStep::StartDaemon ==> !s.start_attempted && connection_next(s, e).0.start_attempted,
        s.start_attempted && e != ConnectionEvent::Connected ==> connection_next(s, e).0.start_attempted
            && connection_next(s, e).1 != ConnectionStep::StartDaemon,
        connection_next(connection_next(s, ConnectionEvent::Connected).0, ConnectionEvent::ConnectFailed).1
            == ConnectionStep::StartDaemon,
{
}

} // verus!
