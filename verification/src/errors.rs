//! Error types of the audio control, filter chain, PipeWire thread, volume
//! and daemon client layers, with their messages.

use vstd::prelude::*;
use crate::text::{string_push, string_push_str};

verus! {

/// The character of a decimal digit.
pub open spec fn digit_char(d: nat) -> char {
    ((d + 48) as u32) as char
}

/// The decimal representation of `n` (no sign, no leading zeros).
pub open spec fn decimal_spec(n: nat) -> Seq<char>
    decreases n,
{
    if n < 10 {
        seq![digit_char(n)]
    } else {
        decimal_spec(n / 10) + seq![digit_char(n % 10)]
    }
}

fn digit(d: u64) -> (c: char)
    requires
        d < 10,
    ensures
        c == digit_char(d as nat),
{
    if d == 0 { '0' } else if d == 1 { '1' } else if d == 2 { '2' } else if d == 3 { '3' }
    else if d == 4 { '4' } else if d == 5 { '5' } else if d == 6 { '6' } else if d == 7 { '7' }
    else if d == 8 { '8' } else { '9' }
}

/// Appends the decimal representation of `n`.
pub fn push_decimal(s: &mut String, n: u64)
    ensures
        final(s)@ == old(s)@ + decimal_spec(n as nat),
    decreases n,
{
    if n < 10 {
        string_push(s, digit(n));
        proof {
            assert(old(s)@.push(digit_char(n as nat)) =~= old(s)@ + decimal_spec(n as nat));
        }
    } else {
        push_decimal(s, n / 10);
        string_push(s, digit(n % 10));
        proof {
            assert(old(s)@ + decimal_spec((n / 10) as nat) + seq![digit_char((n % 10) as nat)] =~= old(s)@ + decimal_spec(n as nat));
        }
    }
}

/// `prefix` followed by `detail`.
pub fn prefixed(prefix: &str, detail: &str) -> (r: String)
    ensures
        r@ == prefix@ + detail@,
{
    let mut s = String::new();
    string_push_str(&mut s, prefix);
    string_push_str(&mut s, detail);
    proof {
        assert(s@ =~= prefix@ + detail@);
    }
    s
}

/// Errors from building or applying native control parameters.
#[derive(Debug, Clone)]
pub enum ControlError {
    SerializationFailed(String),
    SetParamFailed(String),
    NodeNotBound(u32),
    InvalidValue(String),
}

impl ControlError {
    /// The human-readable message.
    pub fn message(&self) -> (r: String)
        ensures
            r@ == match self {
                ControlError::SerializationFailed(s) => "Failed to serialize pod: "@ + s@,
                ControlError::SetParamFailed(s) => "Failed to set parameter: "@ + s@,
                ControlError::NodeNotBound(n) => "Node not bound: "@ + decimal_spec(*n as nat),
                ControlError::InvalidValue(s) => "Invalid parameter value: "@ + s@,
            },
    {
        match self {
            ControlError::SerializationFailed(s) => prefixed("Failed to serialize pod: ", s.as_str()),
            ControlError::SetParamFailed(s) => prefixed("Failed to set parameter: ", s.as_str()),
            ControlError::NodeNotBound(n) => {
                let mut m = String::new();
                string_push_str(&mut m, "Node not bound: ");
                push_decimal(&mut m, *n as u64);
                m
            },
            ControlError::InvalidValue(s) => prefixed("Invalid parameter value: ", s.as_str()),
        }
    }
}

/// Errors from managing EQ filter chains.
#[derive(Debug, Clone)]
pub enum FilterChainError {
    /// Spawning the filter chain failed (the I/O error's message).
    SpawnFailed(String),
    ConfigFailed(String),
    NodeNotFound,
    PwDumpFailed(String),
    InvalidJson,
    RoutingFailed(String),
}

impl FilterChainError {
    /// The human-readable message.
    pub fn message(&self) -> (r: String)
        ensures
            r@ == match self {
                FilterChainError::SpawnFailed(s) => "Failed to spawn pw-filter-chain: "@ + s@,
                FilterChainError::ConfigFailed(s) => "Failed to create config file: "@ + s@,
                FilterChainError::NodeNotFound => "Failed to find created node"@,
                FilterChainError::PwDumpFailed(s) => "pw-dump failed: "@ + s@,
                FilterChainError::InvalidJson => "Invalid JSON from pw-dump"@,
                FilterChainError::RoutingFailed(s) => "Routing failed: "@ + s@,
            },
    {
        match self {
            FilterChainError::SpawnFailed(s) => prefixed("Failed to spawn pw-filter-chain: ", s.as_str()),
            FilterChainError::ConfigFailed(s) => prefixed("Failed to create config file: ", s.as_str()),
            FilterChainError::NodeNotFound => "Failed to find created node".to_string(),
            FilterChainError::PwDumpFailed(s) => prefixed("pw-dump failed: ", s.as_str()),
            FilterChainError::InvalidJson => "Invalid JSON from pw-dump".to_string(),
            FilterChainError::RoutingFailed(s) => prefixed("Routing failed: ", s.as_str()),
        }
    }
}

/// Errors of the PipeWire thread.
#[derive(Debug, Clone)]
pub enum PwError {
    InitFailed(String),
    ConnectionFailed(String),
    ThreadError(String),
}

impl PwError {
    /// The human-readable message.
    pub fn message(&self) -> (r: String)
        ensures
            r@ == match self {
                PwError::InitFailed(s) => "PipeWire initialization failed: "@ + s@,
                PwError::ConnectionFailed(s) => "Failed to connect to PipeWire: "@ + s@,
                PwError::ThreadError(s) => "PipeWire thread error: "@ + s@,
            },
    {
        match self {
            PwError::InitFailed(s) => prefixed("PipeWire initialization failed: ", s.as_str()),
            PwError::ConnectionFailed(s) => prefixed("Failed to connect to PipeWire: ", s.as_str()),
            PwError::ThreadError(s) => prefixed("PipeWire thread error: ", s.as_str()),
        }
    }
}

/// Errors from volume control through `wpctl`.
#[derive(Debug, Clone)]
pub enum VolumeError {
    WpctlFailed(String),
    OperationFailed(String),
}

impl VolumeError {
    /// The human-readable message.
    pub fn message(&self) -> (r: String)
        ensures
            r@ == match self {
                VolumeError::WpctlFailed(s) => "Failed to execute wpctl: "@ + s@,
                VolumeError::OperationFailed(s) => "Volume operation failed: "@ + s@,
            },
    {
        match self {
            VolumeError::WpctlFailed(s) => prefixed("Failed to execute wpctl: ", s.as_str()),
            VolumeError::OperationFailed(s) => prefixed("Volume operation failed: ", s.as_str()),
        }
    }
}

/// Errors that can occur when communicating with the daemon.
#[derive(Debug, Clone)]
pub enum DaemonClientError {
    ConnectionFailed(String),
    ProxyCreationFailed(String),
    DaemonNotRunning(String),
    MethodCallFailed(String),
    SignalSubscriptionFailed(String),
}

impl DaemonClientError {
    /// The human-readable message.
    pub fn message(&self) -> (r: String)
        ensures
            r@ == match self {
                DaemonClientError::ConnectionFailed(s) => "Failed to connect to D-Bus: "@ + s@,
                DaemonClientError::ProxyCreationFailed(s) => "Failed to create D-Bus proxy: "@ + s@,
                DaemonClientError::DaemonNotRunning(s) => "Daemon is not running: "@ + s@,
                DaemonClientError::MethodCallFailed(s) => "Method call failed: "@ + s@,
                DaemonClientError::SignalSubscriptionFailed(s) => "Signal subscription failed: "@ + s@,
            },
    {
        match self {
            DaemonClientError::ConnectionFailed(s) => prefixed("Failed to connect to D-Bus: ", s.as_str()),
            DaemonClientError::ProxyCreationFailed(s) => prefixed("Failed to create D-Bus proxy: ", s.as_str()),
            DaemonClientError::DaemonNotRunning(s) => prefixed("Daemon is not running: ", s.as_str()),
            DaemonClientError::MethodCallFailed(s) => prefixed("Method call failed: ", s.as_str()),
            DaemonClientError::SignalSubscriptionFailed(s) => prefixed("Signal subscription failed: ", s.as_str()),
        }
    }
}


/// The decimal text of `n` is not empty, holds only digits, and denotes `n`.
pub proof fn lemma_decimal_digits(n: nat)
    ensures
        decimal_spec(n).len() > 0,
        forall|i: int| 0 <= i < decimal_spec(n).len() ==> crate::parse::is_digit(#[trigger] decimal_spec(n)[i]),
        crate::parse::digits_value(decimal_spec(n)) == n,
    decreases n,
{
    let d = decimal_spec(n);
    if n < 10 {
        assert(d.drop_last() =~= Seq::<char>::empty());
        assert((digit_char(n) as int) - ('0' as int) == n);
        assert(crate::parse::digits_value(d.drop_last()) == 0);
        assert(crate::parse::digits_value(d) == crate::parse::digits_value(d.drop_last()) * 10 + n);
    } else {
        lemma_decimal_digits(n / 10);
        let h = decimal_spec(n / 10);
        assert(d.drop_last() =~= h);
        assert(d.last() == digit_char(n % 10));
        assert((digit_char(n % 10) as int) - ('0' as int) == n % 10);
        assert(crate::parse::digits_value(d) == crate::parse::digits_value(h) * 10 + n % 10);
        assert(n == (n / 10) * 10 + n % 10);
        assert(forall|i: int| 0 <= i < d.len() ==> crate::parse::is_digit(#[trigger] d[i])) by {
            assert forall|i: int| 0 <= i < d.len() implies crate::parse::is_digit(#[trigger] d[i]) by {
                if i < h.len() {
                    assert(d[i] == h[i]);
                }
            }
        }
    }
}

/// Parsing the decimal text that `push_decimal` writes gives the number
/// back, whenever the number fits the target type.
pub proof fn law_decimal_parses_back(n: nat, max: nat)
    requires
        n <= max,
    ensures
        crate::parse::parse_unsigned_spec(decimal_spec(n), max) == Some(n),
{
    lemma_decimal_digits(n);
    let d = decimal_spec(n);
    assert(d[0] != '+') by {
        assert(crate::parse::is_digit(d[0]));
    }
    assert(crate::parse::unsigned_digits(d) == d);
}

} // verus!
