//! The `pipewire -c` configuration of a five-band EQ filter chain, and the
//! port-linking plan that routes a channel through it.

use vstd::prelude::*;
use crate::errors::{decimal_spec, push_decimal};
use crate::text::{contains_seq, occurs_at, str_contains, string_push_str};
use crate::virtual_sink::{sanitize_node_name, sanitize_spec};

verus! {

/// One EQ band as it is written into the configuration: the centre
/// frequency, and the Q factor and gain already formatted (three and two
/// decimals).
#[derive(Debug, Clone)]
pub struct EqBandText {
    pub freq: u32,
    pub q: String,
    pub gain: String,
}

/// `sootmix.eq.{name}`, the EQ's sink node.
pub open spec fn eq_sink_name_spec(name: Seq<char>) -> Seq<char> {
    "sootmix.eq."@ + name
}

/// `sootmix.eq.{name}.output`, the EQ's output stream.
pub open spec fn eq_output_name_spec(name: Seq<char>) -> Seq<char> {
    "sootmix.eq."@ + name + ".output"@
}

pub open spec fn eq_head(name: Seq<char>) -> Seq<char> {
    "context.properties = {\n    core.daemon = false\n    core.name = \"sootmix-eq-"@ + name + "\"\n}\n\ncontext.spa-libs = {\n    audio.convert.* = audioconvert/libspa-audioconvert\n    support.*       = support/libspa-support\n}\n\ncontext.modules = [\n    { name = libpipewire-module-rt\n        args = {\n            nice.level = -11\n        }\n        flags = [ ifexists nofail ]\n    }\n    { name = libpipewire-module-protocol-native }\n    { name = libpipewire-module-client-node }\n    { name = libpipewire-module-adapter }\n    { name = libpipewire-module-filter-chain\n        args = {\n            node.name = \""@ + eq_sink_name_spec(name) + "\"\n            node.description = \"SootMix EQ - "@ + name + "\"\n            media.name = \"SootMix EQ\"\n            filter.graph = {\n                nodes = [\n"@
}

pub open spec fn eq_band(i: nat, band: EqBandText) -> Seq<char> {
    "                    {\n                        type = builtin\n                        name = eq_band_"@ + decimal_spec(i) + "\n                        label = bq_peaking\n                        control = { \"Freq\" = "@ + decimal_spec(band.freq as nat) + " \"Q\" = "@ + band.q@
        + " \"Gain\" = "@ + band.gain@ + " }\n                    }\n"@
}

pub open spec fn eq_link(i: nat) -> Seq<char> {
    "                    { output = \"eq_band_"@ + decimal_spec(i) + ":Out\" input = \"eq_band_"@ + decimal_spec(i + 1) + ":In\" }\n"@
}

pub open spec fn eq_tail(name: Seq<char>) -> Seq<char> {
    "                ]\n                inputs = [ \"eq_band_0:In\" ]\n                outputs = [ \"eq_band_4:Out\" ]\n            }\n            capture.props = {\n                media.class = Audio/Sink\n                node.name = \""@ + eq_sink_name_spec(name) + "\"\n                node.description = \"SootMix EQ - "@ + name + "\"\n                audio.position = [ FL FR ]\n            }\n            playback.props = {\n                media.class = Stream/Output/Audio\n                node.name = \""@ + eq_output_name_spec(name) + "\"\n                audio.position = [ FL FR ]\n            }\n        }\n    }\n]\n"@
}

/// The whole configuration for a channel name and its five bands: the
/// bands are chained in order, `eq_band_0` first and `eq_band_4` last.
pub open spec fn eq_config_spec(name: Seq<char>, bands: Seq<EqBandText>) -> Seq<char> {
    eq_head(name) + eq_band(0, bands[0]) + eq_band(1, bands[1]) + eq_band(2, bands[2]) + eq_band(3, bands[3])
        + eq_band(4, bands[4]) + "                ]\n                links = [\n"@ + eq_link(0) + eq_link(1) + eq_link(2) + eq_link(3) + eq_tail(name)
}

fn push_head(s: &mut String, name: &str)
    ensures
        final(s)@ == old(s)@ + eq_head(name@),
{
    string_push_str(s, "context.properties = {\n    core.daemon = false\n    core.name = \"sootmix-eq-");
    string_push_str(s, name);
    string_push_str(s, "\"\n}\n\ncontext.spa-libs = {\n    audio.convert.* = audioconvert/libspa-audioconvert\n    support.*       = support/libspa-support\n}\n\ncontext.modules = [\n    { name = libpipewire-module-rt\n        args = {\n            nice.level = -11\n        }\n        flags = [ ifexists nofail ]\n    }\n    { name = libpipewire-module-protocol-native }\n    { name = libpipewire-module-client-node }\n    { name = libpipewire-module-adapter }\n    { name = libpipewire-module-filter-chain\n        args = {\n            node.name = \"");
    string_push_str(s, "sootmix.eq.");
    string_push_str(s, name);
    string_push_str(s, "\"\n            node.description = \"SootMix EQ - ");
    string_push_str(s, name);
    string_push_str(s, "\"\n            media.name = \"SootMix EQ\"\n            filter.graph = {\n                nodes = [\n");
    proof {
        assert(final(s)@ =~= old(s)@ + eq_head(name@));
    }
}

fn push_band(s: &mut String, i: u64, band: &EqBandText)
    ensures
        final(s)@ == old(s)@ + eq_band(i as nat, *band),
{
    string_push_str(s, "                    {\n                        type = builtin\n                        name = eq_band_");
    push_decimal(s, i);
    string_push_str(s, "\n                        label = bq_peaking\n                        control = { \"Freq\" = ");
    push_decimal(s, band.freq as u64);
    string_push_str(s, " \"Q\" = ");
    string_push_str(s, band.q.as_str());
    string_push_str(s, " \"Gain\" = ");
    string_push_str(s, band.gain.as_str());
    string_push_str(s, " }\n                    }\n");
    proof {
        assert(final(s)@ =~= old(s)@ + eq_band(i as nat, *band));
    }
}

fn push_link(s: &mut String, i: u64)
    requires
        i < 10,
    ensures
        final(s)@ == old(s)@ + eq_link(i as nat),
{
    string_push_str(s, "                    { output = \"eq_band_");
    push_decimal(s, i);
    string_push_str(s, ":Out\" input = \"eq_band_");
    push_decimal(s, i + 1);
    string_push_str(s, ":In\" }\n");
    proof {
        assert(final(s)@ =~= old(s)@ + eq_link(i as nat));
    }
}

fn push_tail(s: &mut String, name: &str)
    ensures
        final(s)@ == old(s)@ + eq_tail(name@),
{
    string_push_str(s, "                ]\n                inputs = [ \"eq_band_0:In\" ]\n                outputs = [ \"eq_band_4:Out\" ]\n            }\n            capture.props = {\n                media.class = Audio/Sink\n                node.name = \"");
    string_push_str(s, "sootmix.eq.");
    string_push_str(s, name);
    string_push_str(s, "\"\n                node.description = \"SootMix EQ - ");
    string_push_str(s, name);
    string_push_str(s, "\"\n                audio.position = [ FL FR ]\n            }\n            playback.props = {\n                media.class = Stream/Output/Audio\n                node.name = \"");
    string_push_str(s, "sootmix.eq.");
    string_push_str(s, name);
    string_push_str(s, ".output");
    string_push_str(s, "\"\n                audio.position = [ FL FR ]\n            }\n        }\n    }\n]\n");
    proof {
        assert(final(s)@ =~= old(s)@ + eq_tail(name@));
    }
}

/// Generates the filter-chain configuration for a 5-band parametric EQ on
/// the (already sanitized) channel name.
pub fn generate_eq_config(channel_name: &str, bands: &[EqBandText; 5]) -> (r: String)
    ensures
        r@ == eq_config_spec(channel_name@, bands@),
{
    let mut s = String::new();
    push_head(&mut s, channel_name);
    push_band(&mut s, 0, &bands[0]);
    push_band(&mut s, 1, &bands[1]);
    push_band(&mut s, 2, &bands[2]);
    push_band(&mut s, 3, &bands[3]);
    push_band(&mut s, 4, &bands[4]);
    string_push_str(&mut s, "                ]\n                links = [\n");
    push_link(&mut s, 0);
    push_link(&mut s, 1);
    push_link(&mut s, 2);
    push_link(&mut s, 3);
    push_tail(&mut s, channel_name);
    proof {
        assert(s@ =~= eq_config_spec(channel_name@, bands@));
    }
    s
}

proof fn lemma_part_of(a: Seq<char>, b: Seq<char>, c: Seq<char>)
    ensures
        contains_seq(a + b + c, b),
{
    assert((a + b + c).subrange(a.len() as int, (a.len() + b.len()) as int) =~= b);
    assert(occurs_at(a + b + c, b, a.len() as int));
}

proof fn lemma_contains_within(p: Seq<char>, x: Seq<char>, q: Seq<char>, n: Seq<char>)
    requires
        contains_seq(x, n),
    ensures
        contains_seq(p + x + q, n),
{
    let k = choose|k: int| occurs_at(x, n, k);
    assert((p + x + q).subrange(p.len() + k, p.len() + k + n.len()) =~= x.subrange(k, k + n.len()));
    assert(occurs_at(p + x + q, n, p.len() + k));
}

/// The text of the link from band `i`'s output to band `i + 1`'s input.
pub open spec fn band_link_text(i: nat) -> Seq<char> {
    "{ output = \"eq_band_"@ + decimal_spec(i) + ":Out\" input = \"eq_band_"@ + decimal_spec(i + 1) + ":In\" }"@
}

proof fn lemma_link_holds_text(i: nat)
    ensures
        contains_seq(eq_link(i), band_link_text(i)),
{
    let indent = "                    "@;
    let nl = "\n"@;
    reveal_strlit("                    { output = \"eq_band_");
    reveal_strlit(":In\" }\n");
    reveal_strlit("                    ");
    reveal_strlit("{ output = \"eq_band_");
    reveal_strlit(":In\" }");
    reveal_strlit("\n");
    assert("                    { output = \"eq_band_"@ =~= indent + "{ output = \"eq_band_"@);
    assert(":In\" }\n"@ =~= ":In\" }"@ + nl);
    assert(eq_link(i) =~= indent + band_link_text(i) + nl);
    lemma_part_of(indent, band_link_text(i), nl);
}

proof fn lemma_tail_ends_of_chain(name: Seq<char>)
    ensures
        contains_seq(eq_tail(name), "inputs = [ \"eq_band_0:In\" ]"@),
        contains_seq(eq_tail(name), "outputs = [ \"eq_band_4:Out\" ]"@),
{
    let t1 = "                ]\n                inputs = [ \"eq_band_0:In\" ]\n                outputs = [ \"eq_band_4:Out\" ]\n            }\n            capture.props = {\n                media.class = Audio/Sink\n                node.name = \""@;
    reveal_strlit("                ]\n                inputs = [ \"eq_band_0:In\" ]\n                outputs = [ \"eq_band_4:Out\" ]\n            }\n            capture.props = {\n                media.class = Audio/Sink\n                node.name = \"");
    reveal_strlit("                ]\n                ");
    reveal_strlit("inputs = [ \"eq_band_0:In\" ]");
    reveal_strlit("\n                ");
    reveal_strlit("outputs = [ \"eq_band_4:Out\" ]");
    let a = "                ]\n                "@;
    let n_in = "inputs = [ \"eq_band_0:In\" ]"@;
    let b = "\n                "@;
    let n_out = "outputs = [ \"eq_band_4:Out\" ]"@;
    let c = t1.subrange((a.len() + n_in.len() + b.len() + n_out.len()) as int, t1.len() as int);
    assert(t1 =~= a + n_in + b + n_out + c);
    let tail = eq_tail(name);
    let rest = tail.subrange(t1.len() as int, tail.len() as int);
    assert(tail =~= t1 + rest);
    assert(tail =~= a + n_in + (b + n_out + c + rest));
    lemma_part_of(a, n_in, b + n_out + c + rest);
    assert(tail =~= (a + n_in + b) + n_out + (c + rest));
    lemma_part_of(a + n_in + b, n_out, c + rest);
}

/// The bands of the EQ form one chain: for each of the first four bands the
/// configuration links its output to the next band's input, the chain takes
/// its input at `eq_band_0` and gives its output at `eq_band_4`.
pub proof fn law_eq_bands_chained(name: Seq<char>, bands: Seq<EqBandText>, i: nat)
    requires
        i < 4,
    ensures
        contains_seq(eq_config_spec(name, bands), band_link_text(i)),
        contains_seq(eq_config_spec(name, bands), "inputs = [ \"eq_band_0:In\" ]"@),
        contains_seq(eq_config_spec(name, bands), "outputs = [ \"eq_band_4:Out\" ]"@),
{
    let body = eq_head(name) + eq_band(0, bands[0]) + eq_band(1, bands[1]) + eq_band(2, bands[2]) + eq_band(3, bands[3])
        + eq_band(4, bands[4]) + "                ]\n                links = [\n"@;
    let l0 = eq_link(0);
    let l1 = eq_link(1);
    let l2 = eq_link(2);
    let l3 = eq_link(3);
    let tail = eq_tail(name);
    let cfg = eq_config_spec(name, bands);
    let before = if i == 0 {
        body
    } else if i == 1 {
        body + l0
    } else if i == 2 {
        body + l0 + l1
    } else {
        body + l0 + l1 + l2
    };
    let after = if i == 0 {
        l1 + l2 + l3 + tail
    } else if i == 1 {
        l2 + l3 + tail
    } else if i == 2 {
        l3 + tail
    } else {
        tail
    };
    assert(cfg =~= before + eq_link(i) + after);
    lemma_link_holds_text(i);
    lemma_contains_within(before, eq_link(i), after, band_link_text(i));
    lemma_tail_ends_of_chain(name);
    assert(cfg =~= (body + l0 + l1 + l2 + l3) + tail + Seq::<char>::empty());
    lemma_contains_within(body + l0 + l1 + l2 + l3, tail, Seq::<char>::empty(), "inputs = [ \"eq_band_0:In\" ]"@);
    lemma_contains_within(body + l0 + l1 + l2 + l3, tail, Seq::<char>::empty(), "outputs = [ \"eq_band_4:Out\" ]"@);
}

/// The sink and output node names of a channel's EQ, for the sanitized channel name.
pub fn eq_node_names(channel_name: &str) -> (r: (String, String))
    ensures
        r.0@ == eq_sink_name_spec(sanitize_spec(channel_name@)),
        r.1@ == eq_output_name_spec(sanitize_spec(channel_name@)),
{
    let safe = sanitize_node_name(channel_name);
    let mut a = String::new();
    string_push_str(&mut a, "sootmix.eq.");
    string_push_str(&mut a, safe.as_str());
    let mut b = String::new();
    string_push_str(&mut b, "sootmix.eq.");
    string_push_str(&mut b, safe.as_str());
    string_push_str(&mut b, ".output");
    proof {
        reveal_strlit("");
        assert(a@ =~= eq_sink_name_spec(safe@));
        assert(b@ =~= eq_output_name_spec(safe@));
    }
    (a, b)
}


/// Output-port name prefixes tried, in order.
pub open spec fn out_prefix(k: int) -> Seq<char> {
    if k == 0 { "playback_"@ } else if k == 1 { "output_"@ } else { "monitor_"@ }
}

/// Input-port name prefixes tried, in order.
pub open spec fn in_prefix(k: int) -> Seq<char> {
    if k == 0 { "playback_"@ } else if k == 1 { "input_"@ } else { "capture_"@ }
}

/// The `n`-th (output port, input port) pair tried when linking `channel`
/// of `source` to `dest`: output prefixes vary slowest.
pub open spec fn link_candidate(source: Seq<char>, dest: Seq<char>, channel: Seq<char>, n: int) -> (Seq<char>, Seq<char>) {
    (source + ":"@ + out_prefix(n / 3) + channel, dest + ":"@ + in_prefix(n % 3) + channel)
}

fn port_name(node: &str, prefix: &str, channel: &str) -> (r: String)
    ensures
        r@ == node@ + ":"@ + prefix@ + channel@,
{
    let mut s = String::new();
    string_push_str(&mut s, node);
    string_push_str(&mut s, ":");
    string_push_str(&mut s, prefix);
    string_push_str(&mut s, channel);
    proof {
        assert(s@ =~= node@ + ":"@ + prefix@ + channel@);
    }
    s
}

/// The nine port pairs to try, in order, when linking one channel of two
/// nodes with `pw-link` (naming conventions differ between node kinds).
pub fn link_port_candidates(source: &str, dest: &str, channel: &str) -> (r: Vec<(String, String)>)
    ensures
        r@.len() == 9,
        forall|n: int| 0 <= n < 9 ==> (#[trigger] r@[n].0@, r@[n].1@) == link_candidate(source@, dest@, channel@, n),
{
    let outs: [&str; 3] = ["playback_", "output_", "monitor_"];
    let ins: [&str; 3] = ["playback_", "input_", "capture_"];
    let mut r: Vec<(String, String)> = Vec::new();
    let mut a: usize = 0;
    while a < 3
        invariant
            a <= 3,
            outs@ == seq!["playback_", "output_", "monitor_"],
            ins@ == seq!["playback_", "input_", "capture_"],
            r@.len() == 3 * a,
            forall|n: int| 0 <= n < 3 * a ==> (#[trigger] r@[n].0@, r@[n].1@) == link_candidate(source@, dest@, channel@, n),
        decreases 3 - a,
    {
        let mut b: usize = 0;
        while b < 3
            invariant
                a < 3,
                b <= 3,
                outs@ == seq!["playback_", "output_", "monitor_"],
                ins@ == seq!["playback_", "input_", "capture_"],
                r@.len() == 3 * a + b,
                forall|n: int| 0 <= n < 3 * a + b ==> (#[trigger] r@[n].0@, r@[n].1@) == link_candidate(source@, dest@, channel@, n),
            decreases 3 - b,
        {
            let o = port_name(source, outs[a], channel);
            let i = port_name(dest, ins[b], channel);
            proof {
                let n = 3 * a + b;
                assert(n / 3 == a && n % 3 == b);
                assert(outs[a as int]@ == out_prefix(a as int));
                assert(ins[b as int]@ == in_prefix(b as int));
            }
            r.push((o, i));
            b += 1;
        }
        a += 1;
    }
    r
}

/// Whether a `pw-link -L` attempt counts as linked: it succeeded, or it
/// failed because the ports were already linked.
pub fn link_attempt_succeeded(success: bool, stderr: &str) -> (r: bool)
    ensures
        r == (success || contains_seq(stderr@, "already linked"@)),
{
    success || str_contains(stderr, "already linked")
}

/// The channels linked through an EQ, in order.
pub fn eq_link_channels() -> (r: [&'static str; 2])
    ensures
        r@[0]@ == "FL"@,
        r@[1]@ == "FR"@,
{
    ["FL", "FR"]
}

} // verus!
