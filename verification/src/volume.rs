//! Arguments for, and output of, `wpctl` volume and mute commands.

use vstd::prelude::*;
use crate::errors::{decimal_spec, push_decimal};
use crate::text::{contains_seq, str_contains, string_push_str};

verus! {

/// The `wpctl set-volume` argument for a relative change: `{n}%+` for an
/// increase, `{n}%-` for a decrease by `n` percent.
pub open spec fn adjust_arg_spec(delta_percent: int) -> Seq<char> {
    if delta_percent >= 0 {
        decimal_spec(delta_percent as nat) + "%+"@
    } else {
        decimal_spec((-delta_percent) as nat) + "%-"@
    }
}

/// The argument for `wpctl set-volume` that changes volume by a percentage.
pub fn adjust_volume_arg(delta_percent: i32) -> (r: String)
    requires
        delta_percent != i32::MIN,
    ensures
        r@ == adjust_arg_spec(delta_percent as int),
{
    let mut s = String::new();
    if delta_percent >= 0 {
        push_decimal(&mut s, delta_percent as u64);
        string_push_str(&mut s, "%+");
    } else {
        push_decimal(&mut s, (-delta_percent) as u64);
        string_push_str(&mut s, "%-");
    }
    s
}

/// The `wpctl set-mute` argument for a mute state.
pub fn mute_arg(muted: bool) -> (r: &'static str)
    ensures
        r@ == if muted { "1"@ } else { "0"@ },
{
    if muted { "1" } else { "0" }
}

/// Whether `wpctl get-volume` output reports the node as muted (a
/// whitespace-separated word of it contains `MUTED`, which is the same as the
/// text containing `MUTED`).
pub fn volume_output_muted(stdout: &str) -> (r: bool)
    ensures
        r == contains_seq(stdout@, "MUTED"@),
{
    str_contains(stdout, "MUTED")
}

} // verus!
