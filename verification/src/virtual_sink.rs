//! Virtual sinks and sources made with `pw-loopback`: node naming, the
//! properties handed to the tool, finding created nodes in `pw-dump` and
//! `wpctl status` output, and the polling schedule. Running the tools is left
//! to the caller.

use vstd::prelude::*;
use crate::parse::{lines, lines_spec, nth_piece, parse_unsigned, parse_unsigned_spec, split_nth, trim, trim_spec, find_char_from, find_from, lemma_find_from};
use crate::text::{chars_of, contains_chars, contains_seq, is_alphanumeric, str_eq, str_starts_with, starts_with_spec, string_push, string_push_str, unicode_alphanumeric};

verus! {

/// Errors from creating or finding virtual sinks.
#[derive(Debug)]
pub enum VirtualSinkError {
    /// Spawning `pw-loopback` failed (the I/O error's message).
    SpawnFailed(String),
    /// The created node never appeared.
    NodeNotFound,
    /// `pw-dump` (or `wpctl`) could not be run or failed.
    PwDumpFailed(String),
    /// `pw-dump` printed something that is not the expected JSON.
    InvalidJson,
}

/// Result of creating a virtual sink.
#[derive(Debug, Clone, Copy)]
pub struct VirtualSinkResult {
    /// The Audio/Sink node ID (apps connect here).
    pub sink_node_id: u32,
    /// The Stream/Output/Audio node ID (loopback output for routing).
    pub loopback_output_node_id: Option<u32>,
}

/// Result of creating a virtual source (for mic/input channels).
#[derive(Debug, Clone, Copy)]
pub struct VirtualSourceResult {
    /// The Audio/Source node ID (recording apps connect here).
    pub source_node_id: u32,
    /// The Stream/Input/Audio node ID (loopback capture from physical device).
    pub loopback_capture_node_id: Option<u32>,
}

/// Characters kept in node names: alphanumerics, `_` and `-`.
pub open spec fn node_name_char(c: char) -> bool {
    unicode_alphanumeric(c) || c == '_' || c == '-'
}

pub open spec fn keep_node_char() -> spec_fn(char) -> bool {
    |c: char| node_name_char(c)
}

/// A channel name with every character other than alphanumerics, `_` and
/// `-` removed.
pub open spec fn sanitize_spec(s: Seq<char>) -> Seq<char> {
    s.filter(keep_node_char())
}

/// Sanitizes a channel name for use in a PipeWire `node.name`.
pub fn sanitize_node_name(name: &str) -> (r: String)
    ensures
        r@ == sanitize_spec(name@),
{
    let cs = chars_of(name);
    let mut out = String::new();
    let mut i: usize = 0;
    proof {
        reveal(Seq::filter);
        assert(cs@.take(0).filter(keep_node_char()) =~= Seq::<char>::empty());
    }
    while i < cs.len()
        invariant
            i <= cs.len(),
            cs@ == name@,
            out@ == cs@.take(i as int).filter(keep_node_char()),
        decreases cs.len() - i,
    {
        let c = cs[i];
        proof {
            reveal(Seq::filter);
            assert(cs@.take(i + 1).drop_last() =~= cs@.take(i as int));
            assert(cs@.take(i + 1).last() == c);
        }
        if is_alphanumeric(c) || c == '_' || c == '-' {
            string_push(&mut out, c);
        }
        i += 1;
    }
    proof {
        assert(cs@.take(cs.len() as int) =~= cs@);
    }
    out
}

/// What to run `pw-loopback` with, and which nodes to look for afterwards.
#[derive(Debug, Clone)]
pub struct LoopbackPlan {
    /// `node.name` of the user-facing node (the sink or the source).
    pub node_name: String,
    /// Media class of the user-facing node.
    pub node_class: String,
    /// Value for `pw-loopback --name`.
    pub loopback_name: String,
    /// Value for `--capture-props`.
    pub capture_props: String,
    /// Value for `--playback-props`.
    pub playback_props: String,
    /// `node.name` that PipeWire gives the loopback's other stream.
    pub stream_node_name: String,
    /// Media class of that stream.
    pub stream_class: String,
}

/// `sootmix.{safe}` for a sanitized channel name.
pub open spec fn managed_node_name(safe: Seq<char>) -> Seq<char> {
    "sootmix."@ + safe
}

/// The properties string of the user-facing node of a virtual sink.
pub open spec fn sink_capture_props(node_name: Seq<char>, description: Seq<char>) -> Seq<char> {
    "media.class=Audio/Sink node.name="@ + node_name + " node.description=\""@ + description
        + "\" audio.position=[FL FR] priority.session=2000"@
}

/// The properties string of the user-facing node of a virtual source.
pub open spec fn source_playback_props(node_name: Seq<char>, description: Seq<char>) -> Seq<char> {
    "media.class=Audio/Source node.name="@ + node_name + " node.description=\""@ + description
        + "\" node.virtual=false device.class=audio-input audio.position=[MONO] priority.session=2000"@
}

fn node_props(head: &str, node_name: &str, description: &str, tail: &str) -> (r: String)
    ensures
        r@ == head@ + node_name@ + " node.description=\""@ + description@ + tail@,
{
    let mut s = String::new();
    string_push_str(&mut s, head);
    string_push_str(&mut s, node_name);
    string_push_str(&mut s, " node.description=\"");
    string_push_str(&mut s, description);
    string_push_str(&mut s, tail);
    proof {
        assert(s@ =~= head@ + node_name@ + " node.description=\""@ + description@ + tail@);
    }
    s
}

fn joined(a: &str, b: &str, c: &str) -> (r: String)
    ensures
        r@ == a@ + b@ + c@,
{
    let mut s = String::new();
    string_push_str(&mut s, a);
    string_push_str(&mut s, b);
    string_push_str(&mut s, c);
    proof {
        assert(s@ =~= a@ + b@ + c@);
    }
    s
}

/// The plan for a virtual sink: an Audio/Sink named `sootmix.{safe}` whose
/// loopback output stream is `output.sootmix.{safe}.output`.
pub fn plan_virtual_sink(name: &str, description: &str) -> (r: LoopbackPlan)
    ensures
        r.node_name@ == managed_node_name(sanitize_spec(name@)),
        r.node_class@ == "Audio/Sink"@,
        r.loopback_name@ == managed_node_name(sanitize_spec(name@)) + ".output"@,
        r.capture_props@ == sink_capture_props(r.node_name@, description@),
        r.playback_props@ == "media.class=Stream/Output/Audio node.autoconnect=false audio.position=[FL FR] object.linger=true session.suspend-timeout-enabled=false stream.capture.sink=false"@,
        r.stream_node_name@ == "output."@ + r.loopback_name@,
        r.stream_class@ == "Stream/Output/Audio"@,
{
    let safe = sanitize_node_name(name);
    let node_name = joined("sootmix.", safe.as_str(), "");
    let loopback_name = joined("sootmix.", safe.as_str(), ".output");
    let capture_props = node_props("media.class=Audio/Sink node.name=", node_name.as_str(), description,
        "\" audio.position=[FL FR] priority.session=2000");
    let stream_node_name = joined("output.", loopback_name.as_str(), "");
    proof {
        reveal_strlit("");
        assert(node_name@ =~= managed_node_name(sanitize_spec(name@)));
        assert(stream_node_name@ =~= "output."@ + loopback_name@);
    }
    LoopbackPlan {
        node_name,
        node_class: "Audio/Sink".to_string(),
        loopback_name,
        capture_props,
        playback_props: "media.class=Stream/Output/Audio node.autoconnect=false audio.position=[FL FR] object.linger=true session.suspend-timeout-enabled=false stream.capture.sink=false".to_string(),
        stream_node_name,
        stream_class: "Stream/Output/Audio".to_string(),
    }
}

/// The plan for a virtual source: an Audio/Source named `sootmix.{safe}` fed
/// by the capture stream `capture.sootmix.{safe}.capture`.
pub fn plan_virtual_source(name: &str, description: &str) -> (r: LoopbackPlan)
    ensures
        r.node_name@ == managed_node_name(sanitize_spec(name@)),
        r.node_class@ == "Audio/Source"@,
        r.loopback_name@ == managed_node_name(sanitize_spec(name@)) + ".capture"@,
        r.playback_props@ == source_playback_props(r.node_name@, description@),
        r.capture_props@ == "media.class=Stream/Input/Audio node.autoconnect=false audio.position=[MONO] object.linger=true session.suspend-timeout-enabled=false"@,
        r.stream_node_name@ == "capture."@ + r.loopback_name@,
        r.stream_class@ == "Stream/Input/Audio"@,
{
    let safe = sanitize_node_name(name);
    let node_name = joined("sootmix.", safe.as_str(), "");
    let loopback_name = joined("sootmix.", safe.as_str(), ".capture");
    let playback_props = node_props("media.class=Audio/Source node.name=", node_name.as_str(), description,
        "\" node.virtual=false device.class=audio-input audio.position=[MONO] priority.session=2000");
    let stream_node_name = joined("capture.", loopback_name.as_str(), "");
    proof {
        reveal_strlit("");
        assert(node_name@ =~= managed_node_name(sanitize_spec(name@)));
        assert(stream_node_name@ =~= "capture."@ + loopback_name@);
    }
    LoopbackPlan {
        node_name,
        node_class: "Audio/Source".to_string(),
        loopback_name,
        capture_props: "media.class=Stream/Input/Audio node.autoconnect=false audio.position=[MONO] object.linger=true session.suspend-timeout-enabled=false".to_string(),
        playback_props,
        stream_node_name,
        stream_class: "Stream/Input/Audio".to_string(),
    }
}


impl VirtualSinkError {
    /// The human-readable message.
    pub fn message(&self) -> (r: String)
        ensures
            r@ == match self {
                VirtualSinkError::SpawnFailed(s) => "Failed to spawn pw-loopback: "@ + s@,
                VirtualSinkError::NodeNotFound => "Failed to find created node"@,
                VirtualSinkError::PwDumpFailed(s) => "pw-dump failed: "@ + s@,
                VirtualSinkError::InvalidJson => "Invalid JSON from pw-dump"@,
            },
    {
        match self {
            VirtualSinkError::SpawnFailed(s) => crate::errors::prefixed("Failed to spawn pw-loopback: ", s.as_str()),
            VirtualSinkError::NodeNotFound => "Failed to find created node".to_string(),
            VirtualSinkError::PwDumpFailed(s) => crate::errors::prefixed("pw-dump failed: ", s.as_str()),
            VirtualSinkError::InvalidJson => "Invalid JSON from pw-dump".to_string(),
        }
    }
}

/// `s` with each `"` preceded by a backslash (`str::replace('"', "\\\"")`).
pub open spec fn escape_quotes(s: Seq<char>) -> Seq<char>
    decreases s.len(),
{
    if s.len() == 0 {
        Seq::empty()
    } else {
        escape_quotes(s.drop_last()) + if s.last() == '"' { seq!['\\', '"'] } else { seq![s.last()] }
    }
}

/// The `Props` parameter that `pw-cli set-param` takes to set a node's
/// `node.description`, quotes in the description escaped.
pub fn node_description_props(description: &str) -> (r: String)
    ensures
        r@ == "{ params = [ \"node.description\" \""@ + escape_quotes(description@) + "\" ] }"@,
{
    let cs = chars_of(description);
    let mut r = String::new();
    string_push_str(&mut r, "{ params = [ \"node.description\" \"");
    let ghost head = r@;
    let mut i: usize = 0;
    while i < cs.len()
        invariant
            i <= cs.len(),
            cs@ == description@,
            r@ == head + escape_quotes(cs@.take(i as int)),
        decreases cs.len() - i,
    {
        let c = cs[i];
        if c == '"' {
            string_push(&mut r, '\\');
            string_push(&mut r, '"');
        } else {
            string_push(&mut r, c);
        }
        proof {
            assert(cs@.take(i + 1).drop_last() =~= cs@.take(i as int));
            assert(r@ =~= head + escape_quotes(cs@.take(i + 1)));
        }
        i += 1;
    }
    proof {
        assert(cs@.take(cs.len() as int) =~= cs@);
    }
    string_push_str(&mut r, "\" ] }");
    r
}

/// Escaping leaves a text without quotes unchanged.
pub proof fn law_escape_without_quotes_is_identity(s: Seq<char>)
    requires
        forall|i: int| 0 <= i < s.len() ==> s[i] != '"',
    ensures
        escape_quotes(s) == s,
    decreases s.len(),
{
    if s.len() > 0 {
        law_escape_without_quotes_is_identity(s.drop_last());
        assert(s.drop_last().push(s.last()) =~= s);
    }
}

/// How long to wait before lookup attempt `attempt` when polling for a new
/// node: 10 ms before the first, then `initial_delay_ms`, doubling each time.
pub open spec fn poll_sleep_spec(attempt: nat, initial_delay_ms: nat) -> nat {
    if attempt == 0 {
        10
    } else {
        initial_delay_ms * vstd::arithmetic::power2::pow2((attempt - 1) as nat)
    }
}

/// The wait in milliseconds before lookup attempt `attempt`.
pub fn poll_sleep_ms(attempt: u32, initial_delay_ms: u64) -> (r: u64)
    requires
        poll_sleep_spec(attempt as nat, initial_delay_ms as nat) <= u64::MAX,
    ensures
        r == poll_sleep_spec(attempt as nat, initial_delay_ms as nat),
{
    if attempt == 0 {
        return 10;
    }
    let mut d = initial_delay_ms;
    let mut k: u32 = 1;
    proof {
        vstd::arithmetic::power2::lemma2_to64();
        assert(initial_delay_ms as nat * vstd::arithmetic::power2::pow2(0) == initial_delay_ms as nat) by (nonlinear_arith)
            requires
                vstd::arithmetic::power2::pow2(0) == 1,
        {
        }
    }
    while k < attempt
        invariant
            1 <= k <= attempt,
            d as nat == initial_delay_ms as nat * vstd::arithmetic::power2::pow2((k - 1) as nat),
            initial_delay_ms as nat * vstd::arithmetic::power2::pow2((attempt - 1) as nat) <= u64::MAX,
        decreases attempt - k,
    {
        proof {
            vstd::arithmetic::power2::lemma_pow2_unfold(k as nat);
            if k < attempt - 1 {
                vstd::arithmetic::power2::lemma_pow2_strictly_increases(k as nat, (attempt - 1) as nat);
            }
            assert(initial_delay_ms as nat * vstd::arithmetic::power2::pow2(k as nat) <= initial_delay_ms as nat
                * vstd::arithmetic::power2::pow2((attempt - 1) as nat)) by (nonlinear_arith)
                requires
                    k <= attempt - 1,
                    vstd::arithmetic::power2::pow2(k as nat) <= vstd::arithmetic::power2::pow2((attempt - 1) as nat),
            {
            }
            assert(initial_delay_ms as nat * vstd::arithmetic::power2::pow2(k as nat) == 2 * (initial_delay_ms as nat
                * vstd::arithmetic::power2::pow2((k - 1) as nat))) by (nonlinear_arith)
                requires
                    vstd::arithmetic::power2::pow2(k as nat) == 2 * vstd::arithmetic::power2::pow2((k - 1) as nat),
            {
            }
        }
        d = d * 2;
        k += 1;
    }
    d
}

/// Whether a failed lookup is retried: every attempt but the last is.
pub fn poll_should_retry(attempt: u32, max_retries: u32) -> (r: bool)
    ensures
        r == (attempt as int + 1 < max_retries as int),
{
    attempt < max_retries && attempt < max_retries - 1
}


/// A sanitized name holds only alphanumerics, `_` and `-`, and sanitizing it
/// again changes nothing.
pub proof fn law_sanitize_is_idempotent(s: Seq<char>)
    ensures
        forall|i: int| 0 <= i < sanitize_spec(s).len() ==> node_name_char(#[trigger] sanitize_spec(s)[i]),
        sanitize_spec(sanitize_spec(s)) == sanitize_spec(s),
    decreases s.len(),
{
    reveal(Seq::filter);
    if s.len() > 0 {
        law_sanitize_is_idempotent(s.drop_last());
        let f = sanitize_spec(s);
        let g = sanitize_spec(s.drop_last());
        if node_name_char(s.last()) {
            assert(f == g.push(s.last()));
            assert(f.drop_last() =~= g);
            assert forall|i: int| 0 <= i < f.len() implies node_name_char(#[trigger] f[i]) by {
                if i < g.len() {
                    assert(f[i] == g[i]);
                }
            }
            assert(sanitize_spec(f) == sanitize_spec(f.drop_last()).push(f.last()));
        } else {
            assert(f == g);
        }
    } else {
        assert(sanitize_spec(s) =~= Seq::<char>::empty());
    }
}

/// After the first lookup, each wait before a retry is twice the one before.
pub proof fn law_poll_wait_doubles(attempt: nat, initial_delay_ms: nat)
    requires
        attempt >= 1,
    ensures
        poll_sleep_spec(attempt + 1, initial_delay_ms) == 2 * poll_sleep_spec(attempt, initial_delay_ms),
        poll_sleep_spec(1, initial_delay_ms) == initial_delay_ms,
{
    vstd::arithmetic::power2::lemma_pow2_unfold(attempt);
    vstd::arithmetic::power2::lemma2_to64();
    assert(initial_delay_ms * vstd::arithmetic::power2::pow2(attempt) == 2 * (initial_delay_ms * vstd::arithmetic::power2::pow2(
        (attempt - 1) as nat))) by (nonlinear_arith)
        requires
            vstd::arithmetic::power2::pow2(attempt) == 2 * vstd::arithmetic::power2::pow2((attempt - 1) as nat),
    {
    }
    assert(initial_delay_ms * vstd::arithmetic::power2::pow2(0) == initial_delay_ms) by (nonlinear_arith)
        requires
            vstd::arithmetic::power2::pow2(0) == 1,
    {
    }
}

} // verus!
