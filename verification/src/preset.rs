//! Matching applications against the app patterns of a channel preset.

use vstd::prelude::*;
use crate::glob::{glob_match, glob_spec};
use crate::regex_support::{compile_regex, regex_finds_match, regex_is_match, regex_pattern_valid};
use crate::text::{contains_seq, str_contains, string_push_str, to_lowercase, unicode_lowercase};

verus! {

/// The pattern as a case-insensitive regex.
pub open spec fn caseless_regex(pattern: Seq<char>) -> Seq<char> {
    "(?i)"@ + pattern
}

/// Whether one app pattern accepts an app name, case-insensitively: the
/// pattern matches the whole name as a glob (`*`, `?`, `[abc]`), or it is a
/// valid regex that matches somewhere in the name, or, as a plain word, it
/// occurs in the name (the built-in presets use plain words such as
/// `steam`).
pub open spec fn pattern_accepts(pattern: Seq<char>, app_name: Seq<char>) -> bool {
    ||| glob_spec(unicode_lowercase(pattern), unicode_lowercase(app_name))
    ||| (regex_pattern_valid(caseless_regex(pattern)) && regex_finds_match(caseless_regex(pattern), app_name))
    ||| contains_seq(unicode_lowercase(app_name), unicode_lowercase(pattern))
}

/// Some pattern accepts the app name.
pub open spec fn matches_any_pattern(patterns: Seq<String>, app_name: Seq<char>) -> bool {
    exists|k: int| 0 <= k < patterns.len() && pattern_accepts(#[trigger] patterns[k]@, app_name)
}

/// Check if any of a channel preset's patterns accepts an app name, as a
/// glob over the whole name, as a regex, or as a word inside it
/// (case-insensitive).
pub fn app_matches_patterns(patterns: &Vec<String>, app_name: &str) -> (r: bool)
    ensures
        r == matches_any_pattern(patterns@, app_name@),
{
    let app_lower = to_lowercase(app_name);
    let mut i: usize = 0;
    while i < patterns.len()
        invariant
            i <= patterns.len(),
            app_lower@ == unicode_lowercase(app_name@),
            forall|k: int| 0 <= k < i ==> !pattern_accepts(#[trigger] patterns@[k]@, app_name@),
        decreases patterns.len() - i,
    {
        if glob_match(patterns[i].as_str(), app_name) {
            return true;
        }
        let mut re_text = String::new();
        string_push_str(&mut re_text, "(?i)");
        string_push_str(&mut re_text, patterns[i].as_str());
        proof {
            assert(re_text@ =~= caseless_regex(patterns@[i as int]@));
        }
        match compile_regex(re_text.as_str()) {
            Ok(re) => {
                if regex_is_match(&re, app_name) {
                    return true;
                }
            },
            Err(_) => {},
        }
        let p = to_lowercase(patterns[i].as_str());
        if str_contains(app_lower.as_str(), p.as_str()) {
            return true;
        }
        i += 1;
    }
    false
}

} // verus!
