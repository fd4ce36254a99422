//! Auto-routing rules: which application goes to which mixer channel.

use vstd::prelude::*;
use crate::glob::{glob_match, glob_spec};
use crate::regex_support::{compile_regex, regex_finds_match, regex_is_match, regex_pattern_valid};
use crate::text::{contains_seq, eq_ignore_ascii_case, eq_ignore_ascii_case_spec, str_contains, to_lowercase, unicode_lowercase};

verus! {

/// How to match the app identifier.
#[derive(Debug, Clone, PartialEq)]
pub enum MatchType {
    /// Pattern must be contained in the target (case-insensitive).
    Contains(String),
    /// Pattern must equal the target, ignoring ASCII case.
    Exact(String),
    /// Pattern is a regular expression.
    Regex(String),
    /// Pattern is a glob pattern (`*`, `?`, `[abc]`), case-insensitive.
    Glob(String),
}

impl MatchType {
    /// The pattern text of any variant.
    pub open spec fn pattern_view(self) -> Seq<char> {
        match self {
            MatchType::Contains(p) => p@,
            MatchType::Exact(p) => p@,
            MatchType::Regex(p) => p@,
            MatchType::Glob(p) => p@,
        }
    }

    /// Whether a value matches this pattern.
    pub open spec fn matches_spec(self, value: Seq<char>) -> bool {
        match self {
            MatchType::Contains(p) => contains_seq(unicode_lowercase(value), unicode_lowercase(p@)),
            MatchType::Exact(p) => eq_ignore_ascii_case_spec(value, p@),
            MatchType::Regex(p) => regex_pattern_valid(p@) && regex_finds_match(p@, value),
            MatchType::Glob(p) => glob_spec(unicode_lowercase(p@), unicode_lowercase(value)),
        }
    }

    /// Get the pattern string.
    pub fn pattern(&self) -> (r: &str)
        ensures
            r@ == self.pattern_view(),
    {
        match self {
            MatchType::Contains(p) => p.as_str(),
            MatchType::Exact(p) => p.as_str(),
            MatchType::Regex(p) => p.as_str(),
            MatchType::Glob(p) => p.as_str(),
        }
    }

    /// Get the match type name (`contains`, `exact`, `regex` or `glob`).
    pub fn type_label(&self) -> (r: &'static str)
        ensures
            r@ == match self {
                MatchType::Contains(_) => "contains"@,
                MatchType::Exact(_) => "exact"@,
                MatchType::Regex(_) => "regex"@,
                MatchType::Glob(_) => "glob"@,
            },
    {
        match self {
            MatchType::Contains(_) => "contains",
            MatchType::Exact(_) => "exact",
            MatchType::Regex(_) => "regex",
            MatchType::Glob(_) => "glob",
        }
    }

    /// Check if a value matches this pattern. An invalid regex matches nothing.
    pub fn matches(&self, value: &str) -> (r: bool)
        ensures
            r == self.matches_spec(value@),
    {
        match self {
            MatchType::Contains(pattern) => {
                let v = to_lowercase(value);
                let p = to_lowercase(pattern.as_str());
                str_contains(v.as_str(), p.as_str())
            },
            MatchType::Exact(pattern) => eq_ignore_ascii_case(value, pattern.as_str()),
            MatchType::Regex(pattern) => {
                match compile_regex(pattern.as_str()) {
                    Ok(re) => regex_is_match(&re, value),
                    Err(_) => false,
                }
            },
            MatchType::Glob(pattern) => glob_match(pattern.as_str(), value),
        }
    }
}

/// What field to match against.
#[derive(Debug, Clone, Copy, PartialEq, Eq, Structural)]
pub enum MatchTarget {
    /// Match against the app name.
    AppName,
    /// Match against the binary name.
    Binary,
    /// Match against either app name or binary.
    Either,
}

impl Default for MatchTarget {
    fn default() -> (r: Self)
        ensures
            r == MatchTarget::AppName,
    {
        MatchTarget::AppName
    }
}

impl MatchTarget {
    /// Get all variants for UI selection.
    pub fn all() -> (r: &'static [MatchTarget])
        ensures
            r@ == seq![MatchTarget::AppName, MatchTarget::Binary, MatchTarget::Either],
    {
        &[MatchTarget::AppName, MatchTarget::Binary, MatchTarget::Either]
    }

    /// Get display name.
    pub fn display_name(&self) -> (r: &'static str)
        ensures
            r@ == match self {
                MatchTarget::AppName => "App Name"@,
                MatchTarget::Binary => "Binary"@,
                MatchTarget::Either => "Either"@,
            },
    {
        match self {
            MatchTarget::AppName => "App Name",
            MatchTarget::Binary => "Binary",
            MatchTarget::Either => "Either",
        }
    }
}

/// How to handle multiple audio streams from the same application.
#[derive(Debug, Clone, Copy, PartialEq, Eq, Structural)]
pub enum AppGrouping {
    /// Route all nodes with the same app identifier together (default).
    GroupByApp,
    /// Route each node individually.
    Individual,
}

impl Default for AppGrouping {
    fn default() -> (r: Self)
        ensures
            r == AppGrouping::GroupByApp,
    {
        AppGrouping::GroupByApp
    }
}

impl AppGrouping {
    /// Get all variants for UI selection.
    pub fn all() -> (r: &'static [AppGrouping])
        ensures
            r@ == seq![AppGrouping::GroupByApp, AppGrouping::Individual],
    {
        &[AppGrouping::GroupByApp, AppGrouping::Individual]
    }

    /// Get display name.
    pub fn display_name(&self) -> (r: &'static str)
        ensures
            r@ == match self {
                AppGrouping::GroupByApp => "Group by App"@,
                AppGrouping::Individual => "Individual Streams"@,
            },
    {
        match self {
            AppGrouping::GroupByApp => "Group by App",
            AppGrouping::Individual => "Individual Streams",
        }
    }

    /// Get description for UI tooltip.
    pub fn description(&self) -> (r: &'static str)
        ensures
            r@ == match self {
                AppGrouping::GroupByApp => "Route all audio streams from the same app together"@,
                AppGrouping::Individual => "Route each audio stream independently"@,
            },
    {
        match self {
            AppGrouping::GroupByApp => "Route all audio streams from the same app together",
            AppGrouping::Individual => "Route each audio stream independently",
        }
    }
}

/// `uuid::Uuid::new_v4`, as the integer form of the identifier. Trusted:
/// nothing is promised of the value (it is random).
#[verifier::external_body]
pub(crate) fn fresh_uuid() -> u128 {
    uuid::Uuid::new_v4().as_u128()
}

/// A routing rule that automatically routes matching apps to a channel.
#[derive(Debug, Clone)]
pub struct RoutingRule {
    /// Unique identifier (the 128-bit value of a UUID).
    pub id: u128,
    /// Human-readable name for the rule.
    pub name: String,
    /// What to match against.
    pub match_target: MatchTarget,
    /// How to match.
    pub match_type: MatchType,
    /// Target channel name to route to.
    pub target_channel: String,
    /// Whether this rule is active.
    pub enabled: bool,
    /// Priority (lower = higher priority, evaluated first).
    pub priority: u32,
}

/// The view of an optional binary name.
pub open spec fn opt_str_view(o: Option<&str>) -> Option<Seq<char>> {
    match o {
        Some(s) => Some(s@),
        None => None,
    }
}

impl RoutingRule {
    /// Whether the rule accepts an app with this name and (optional) binary.
    pub open spec fn matches_spec(self, app_name: Seq<char>, binary: Option<Seq<char>>) -> bool {
        self.enabled && match self.match_target {
            MatchTarget::AppName => self.match_type.matches_spec(app_name),
            MatchTarget::Binary => binary matches Some(b) && self.match_type.matches_spec(b),
            MatchTarget::Either => self.match_type.matches_spec(app_name) || (binary matches Some(b)
                && self.match_type.matches_spec(b)),
        }
    }

    /// Create a new enabled rule that matches `pattern` as a substring of
    /// either the app name or the binary, with priority 100 and a fresh id.
    pub fn new(name: &str, pattern: &str, target_channel: &str) -> (r: Self)
        ensures
            r.name@ == name@,
            r.match_target == MatchTarget::Either,
            r.match_type is Contains,
            r.match_type.pattern_view() == pattern@,
            r.target_channel@ == target_channel@,
            r.enabled,
            r.priority == 100,
    {
        RoutingRule {
            id: fresh_uuid(),
            name: name.to_string(),
            match_target: MatchTarget::Either,
            match_type: MatchType::Contains(pattern.to_string()),
            target_channel: target_channel.to_string(),
            enabled: true,
            priority: 100,
        }
    }

    /// Check if an app matches this rule.
    pub fn matches(&self, app_name: &str, binary: Option<&str>) -> (r: bool)
        ensures
            r == self.matches_spec(app_name@, opt_str_view(binary)),
    {
        if !self.enabled {
            return false;
        }
        match self.match_target {
            MatchTarget::AppName => self.match_type.matches(app_name),
            MatchTarget::Binary => match binary {
                Some(b) => self.match_type.matches(b),
                None => false,
            },
            MatchTarget::Either => {
                if self.match_type.matches(app_name) {
                    true
                } else {
                    match binary {
                        Some(b) => self.match_type.matches(b),
                        None => false,
                    }
                }
            },
        }
    }
}


/// The predicate "has priority `p`".
pub open spec fn prio_is(p: u32) -> spec_fn(RoutingRule) -> bool {
    |r: RoutingRule| r.priority == p
}

/// The rules of priority `p`, in their order.
pub open spec fn with_priority(s: Seq<RoutingRule>, p: u32) -> Seq<RoutingRule> {
    s.filter(prio_is(p))
}

/// Rules are in non-decreasing priority order.
pub open spec fn sorted_by_priority(s: Seq<RoutingRule>) -> bool {
    forall|i: int, j: int| 0 <= i < j < s.len() ==> s[i].priority <= s[j].priority
}

/// `res` is `orig` stably sorted by priority: sorted, and for every priority
/// the rules having it appear in the same order as in `orig`.
pub open spec fn is_priority_sort_of(res: Seq<RoutingRule>, orig: Seq<RoutingRule>) -> bool {
    &&& sorted_by_priority(res)
    &&& forall|p: u32| #[trigger] with_priority(res, p) == with_priority(orig, p)
}

/// `pos` is the first index of `s` whose rule has identifier `id`.
pub open spec fn is_first_with_id(s: Seq<RoutingRule>, id: u128, pos: int) -> bool {
    &&& 0 <= pos < s.len()
    &&& s[pos].id == id
    &&& forall|k: int| 0 <= k < pos ==> s[k].id != id
}

/// Some rule of `s` has identifier `id`.
pub open spec fn has_id(s: Seq<RoutingRule>, id: u128) -> bool {
    exists|k: int| 0 <= k < s.len() && s[k].id == id
}

/// `s` with the enabled flag of position `pos` flipped.
pub open spec fn toggled(s: Seq<RoutingRule>, pos: int) -> Seq<RoutingRule> {
    s.update(pos, RoutingRule { enabled: !s[pos].enabled, ..s[pos] })
}

/// No two rules share an identifier.
pub open spec fn ids_unique(s: Seq<RoutingRule>) -> bool {
    forall|i: int, j: int| 0 <= i < s.len() && 0 <= j < s.len() && i != j ==> s[i].id != s[j].id
}

/// `r` with its priority replaced by `p`.
pub open spec fn reprioritized(r: RoutingRule, p: u32) -> RoutingRule {
    RoutingRule { priority: p, ..r }
}

/// `s` with the priorities of positions `i` and `j` exchanged.
pub open spec fn swap_priorities(s: Seq<RoutingRule>, i: int, j: int) -> Seq<RoutingRule> {
    s.update(i, reprioritized(s[i], s[j].priority)).update(j, reprioritized(s[j], s[i].priority))
}

/// Filtering distributes over concatenation (for the priority predicate).
proof fn lemma_with_priority_add(a: Seq<RoutingRule>, b: Seq<RoutingRule>, p: u32)
    ensures
        with_priority(a + b, p) == with_priority(a, p) + with_priority(b, p),
{
    Seq::filter_distributes_over_add(a, b, prio_is(p));
}

proof fn lemma_with_priority_single(x: RoutingRule, p: u32)
    ensures
        with_priority(seq![x], p) == if x.priority == p { seq![x] } else { Seq::<RoutingRule>::empty() },
{
    reveal(Seq::filter);
    let s = seq![x];
    assert(s.drop_last() =~= Seq::<RoutingRule>::empty());
    assert(s.drop_last().filter(prio_is(p)) =~= Seq::<RoutingRule>::empty());
    if x.priority == p {
        assert(Seq::<RoutingRule>::empty().push(x) =~= seq![x]);
    }
}

proof fn lemma_with_priority_none(s: Seq<RoutingRule>, p: u32)
    requires
        forall|k: int| 0 <= k < s.len() ==> s[k].priority != p,
    ensures
        with_priority(s, p) == Seq::<RoutingRule>::empty(),
    decreases s.len(),
{
    reveal(Seq::filter);
    if s.len() > 0 {
        lemma_with_priority_none(s.drop_last(), p);
    }
}

/// Inserting `x` into sorted `s` at the place after every rule of priority at
/// most `x.priority` keeps `s` sorted and adds `x` at the end of its
/// priority group.
proof fn lemma_insert_sorted(s: Seq<RoutingRule>, x: RoutingRule, j: int)
    requires
        sorted_by_priority(s),
        0 <= j <= s.len(),
        forall|k: int| 0 <= k < j ==> s[k].priority <= x.priority,
        forall|k: int| j <= k < s.len() ==> s[k].priority > x.priority,
    ensures
        sorted_by_priority(s.insert(j, x)),
        forall|p: u32| #[trigger] with_priority(s.insert(j, x), p) == with_priority(s.push(x), p),
{
    let t = s.insert(j, x);
    assert(t =~= s.take(j) + seq![x] + s.skip(j));
    assert(s =~= s.take(j) + s.skip(j));
    assert(s.push(x) =~= s.take(j) + s.skip(j) + seq![x]);
    assert forall|p: u32| #[trigger] with_priority(t, p) == with_priority(s.push(x), p) by {
        lemma_with_priority_add(s.take(j) + seq![x], s.skip(j), p);
        lemma_with_priority_add(s.take(j), seq![x], p);
        lemma_with_priority_add(s.take(j) + s.skip(j), seq![x], p);
        lemma_with_priority_add(s.take(j), s.skip(j), p);
        lemma_with_priority_single(x, p);
        if x.priority == p {
            lemma_with_priority_none(s.skip(j), p);
            assert(with_priority(s.skip(j), p) + seq![x] =~= seq![x]);
            assert(with_priority(s.take(j), p) + seq![x] + Seq::<RoutingRule>::empty() =~= with_priority(s.take(j), p) + seq![x]);
        } else {
            assert(with_priority(s.take(j), p) + Seq::<RoutingRule>::empty() =~= with_priority(s.take(j), p));
            assert(with_priority(s.take(j), p) + with_priority(s.skip(j), p) + Seq::<RoutingRule>::empty() =~= with_priority(s.take(j), p) + with_priority(s.skip(j), p));
        }
    }
}

/// Inserts `x` into a priority-sorted list after all rules of equal or lower
/// priority value.
fn insert_by_priority(v: &mut Vec<RoutingRule>, x: RoutingRule)
    requires
        sorted_by_priority(old(v)@),
    ensures
        sorted_by_priority(final(v)@),
        forall|p: u32| #[trigger] with_priority(final(v)@, p) == with_priority(old(v)@.push(x), p),
{
    let mut j: usize = 0;
    while j < v.len() && v[j].priority <= x.priority
        invariant
            j <= v.len(),
            forall|k: int| 0 <= k < j ==> v@[k].priority <= x.priority,
        decreases v.len() - j,
    {
        j += 1;
    }
    proof {
        lemma_insert_sorted(v@, x, j as int);
    }
    v.insert(j, x);
}

/// Stably sorts rules by priority.
fn sort_rules(rules: &mut Vec<RoutingRule>)
    ensures
        is_priority_sort_of(final(rules)@, old(rules)@),
{
    let ghost orig = rules@;
    let mut src: Vec<RoutingRule> = Vec::new();
    std::mem::swap(&mut src, rules);
    let mut out: Vec<RoutingRule> = Vec::new();
    proof {
        assert forall|p: u32| #[trigger] with_priority(out@, p) + with_priority(src@, p) == with_priority(orig, p) by {
            lemma_with_priority_none(out@, p);
            assert(Seq::<RoutingRule>::empty() + with_priority(src@, p) =~= with_priority(src@, p));
        }
    }
    while src.len() > 0
        invariant
            sorted_by_priority(out@),
            forall|p: u32| #[trigger] with_priority(out@, p) + with_priority(src@, p) == with_priority(orig, p),
        decreases src.len(),
    {
        let ghost before_out = out@;
        let ghost before_src = src@;
        let x = src.remove(0);
        insert_by_priority(&mut out, x);
        proof {
            assert forall|p: u32| #[trigger] with_priority(out@, p) + with_priority(src@, p) == with_priority(orig, p) by {
                assert(before_src =~= seq![x] + src@);
                lemma_with_priority_add(seq![x], src@, p);
                assert(before_out.push(x) =~= before_out + seq![x]);
                lemma_with_priority_add(before_out, seq![x], p);
                assert(with_priority(before_out, p) + with_priority(before_src, p) == with_priority(orig, p));
                assert(with_priority(before_out, p) + (with_priority(seq![x], p) + with_priority(src@, p)) =~= with_priority(before_out, p) + with_priority(seq![x], p) + with_priority(src@, p));
            }
        }
    }
    proof {
        assert forall|p: u32| #[trigger] with_priority(out@, p) == with_priority(orig, p) by {
            lemma_with_priority_none(src@, p);
            assert(with_priority(out@, p) + Seq::<RoutingRule>::empty() =~= with_priority(out@, p));
        }
    }
    *rules = out;
}


/// Index of the first rule with identifier `id`, if any.
pub(crate) fn position_of(rules: &Vec<RoutingRule>, id: u128) -> (r: Option<usize>)
    ensures
        r matches Some(pos) ==> is_first_with_id(rules@, id, pos as int),
        r is None ==> !has_id(rules@, id),
{
    let mut i: usize = 0;
    while i < rules.len()
        invariant
            i <= rules.len(),
            forall|k: int| 0 <= k < i ==> rules@[k].id != id,
        decreases rules.len() - i,
    {
        if rules[i].id == id {
            return Some(i);
        }
        i += 1;
    }
    None
}

/// Collection of routing rules.
#[derive(Debug, Clone)]
pub struct RoutingRulesConfig {
    /// List of routing rules, ordered by priority.
    pub rules: Vec<RoutingRule>,
    /// How to handle multiple audio streams from the same app.
    pub app_grouping: AppGrouping,
}

impl Default for RoutingRulesConfig {
    fn default() -> (r: Self)
        ensures
            r.rules@.len() == 0,
            r.app_grouping == AppGrouping::GroupByApp,
    {
        RoutingRulesConfig::new()
    }
}

impl RoutingRulesConfig {
    /// Create an empty config.
    pub fn new() -> (r: Self)
        ensures
            r.rules@.len() == 0,
            r.app_grouping == AppGrouping::GroupByApp,
    {
        RoutingRulesConfig { rules: Vec::new(), app_grouping: AppGrouping::GroupByApp }
    }

    /// Sort rules by priority (stable: rules of equal priority keep their order).
    pub fn sort_by_priority(&mut self)
        ensures
            is_priority_sort_of(final(self).rules@, old(self).rules@),
            final(self).app_grouping == old(self).app_grouping,
    {
        sort_rules(&mut self.rules);
    }

    /// Find the first matching rule for an app (rules are evaluated in list order).
    pub fn find_match(&self, app_name: &str, binary: Option<&str>) -> (r: Option<&RoutingRule>)
        ensures
            r is None <==> forall|k: int| 0 <= k < self.rules@.len() ==> !#[trigger] self.rules@[k].matches_spec(app_name@, opt_str_view(binary)),
            r matches Some(x) ==> exists|i: int| 0 <= i < self.rules@.len() && *x == self.rules@[i]
                && x.matches_spec(app_name@, opt_str_view(binary))
                && forall|k: int| 0 <= k < i ==> !#[trigger] self.rules@[k].matches_spec(app_name@, opt_str_view(binary)),
    {
        let mut i: usize = 0;
        while i < self.rules.len()
            invariant
                i <= self.rules.len(),
                forall|k: int| 0 <= k < i ==> !#[trigger] self.rules@[k].matches_spec(app_name@, opt_str_view(binary)),
            decreases self.rules.len() - i,
        {
            if self.rules[i].matches(app_name, binary) {
                return Some(&self.rules[i]);
            }
            i += 1;
        }
        None
    }

    /// Add a new rule, then re-sort by priority (the new rule goes after the
    /// existing rules of its priority).
    pub fn add_rule(&mut self, rule: RoutingRule)
        ensures
            is_priority_sort_of(final(self).rules@, old(self).rules@.push(rule)),
            final(self).app_grouping == old(self).app_grouping,
    {
        self.rules.push(rule);
        self.sort_by_priority();
    }

    /// Remove the first rule with this ID and return it.
    pub fn remove_rule(&mut self, id: u128) -> (r: Option<RoutingRule>)
        ensures
            r is None <==> !has_id(old(self).rules@, id),
            r is None ==> final(self).rules@ == old(self).rules@,
            forall|pos: int| is_first_with_id(old(self).rules@, id, pos) ==> r == Some(old(self).rules@[pos])
                && final(self).rules@ == old(self).rules@.remove(pos),
            final(self).app_grouping == old(self).app_grouping,
    {
        match position_of(&self.rules, id) {
            Some(pos) => Some(self.rules.remove(pos)),
            None => None,
        }
    }

    /// Get the first rule with this ID.
    pub fn get_rule(&self, id: u128) -> (r: Option<&RoutingRule>)
        ensures
            r is None <==> !has_id(self.rules@, id),
            forall|pos: int| is_first_with_id(self.rules@, id, pos) ==> r == Some(&self.rules@[pos]),
    {
        match position_of(&self.rules, id) {
            Some(pos) => Some(&self.rules[pos]),
            None => None,
        }
    }

    /// Get mutable access to the first rule with this ID.
    pub fn get_rule_mut(&mut self, id: u128) -> (r: Option<&mut RoutingRule>)
        ensures
            r is None <==> !has_id(old(self).rules@, id),
            r is None ==> final(self).rules@ == old(self).rules@,
            forall|pos: int| is_first_with_id(old(self).rules@, id, pos) ==> r is Some && *r->Some_0
                == old(self).rules@[pos] && final(self).rules@ == old(self).rules@.update(pos, *final(r->Some_0)),
            final(self).app_grouping == old(self).app_grouping,
    {
        match position_of(&self.rules, id) {
            Some(pos) => Some(&mut self.rules[pos]),
            None => None,
        }
    }

    /// Toggle the enabled state of the first rule with this ID; returns its
    /// new state, or `false` when there is no such rule.
    pub fn toggle_rule(&mut self, id: u128) -> (r: bool)
        ensures
            !has_id(old(self).rules@, id) ==> !r && final(self).rules@ == old(self).rules@,
            forall|pos: int| is_first_with_id(old(self).rules@, id, pos) ==> {
                &&& r == !old(self).rules@[pos].enabled
                &&& final(self).rules@ == toggled(old(self).rules@, pos)
            },
            final(self).app_grouping == old(self).app_grouping,
    {
        match position_of(&self.rules, id) {
            Some(pos) => {
                let mut rule = self.rules.remove(pos);
                rule.enabled = !rule.enabled;
                let now = rule.enabled;
                self.rules.insert(pos, rule);
                proof {
                    assert(self.rules@ =~= toggled(old(self).rules@, pos as int));
                }
                now
            },
            None => false,
        }
    }

    /// Exchanges the rules at positions `i` and `i + 1`; each takes the
    /// priority of the place it moves to, so the priorities along the list
    /// stay as they were.
    fn exchange_with_next(&mut self, i: usize)
        requires
            i + 1 < old(self).rules.len(),
        ensures
            final(self).rules@ == exchanged_neighbours(old(self).rules@, i as int),
            final(self).app_grouping == old(self).app_grouping,
    {
        let pi = self.rules[i].priority;
        let pj = self.rules[i + 1].priority;
        let mut b = self.rules.remove(i + 1);
        let mut a = self.rules.remove(i);
        b.priority = pi;
        a.priority = pj;
        self.rules.insert(i, b);
        self.rules.insert(i + 1, a);
        proof {
            assert(self.rules@ =~= exchanged_neighbours(old(self).rules@, i as int));
        }
    }

    /// Move a rule up in priority: it changes places with the rule before
    /// it, taking that place's priority and giving its own to the other
    /// rule. Nothing changes for the first rule or an unknown ID.
    pub fn move_up(&mut self, id: u128)
        ensures
            !has_id(old(self).rules@, id) ==> final(self).rules@ == old(self).rules@,
            is_first_with_id(old(self).rules@, id, 0) ==> final(self).rules@ == old(self).rules@,
            forall|pos: int| 0 < pos && is_first_with_id(old(self).rules@, id, pos) ==> final(self).rules@
                == exchanged_neighbours(old(self).rules@, pos - 1),
            sorted_by_priority(old(self).rules@) ==> sorted_by_priority(final(self).rules@),
            final(self).app_grouping == old(self).app_grouping,
    {
        if let Some(pos) = position_of(&self.rules, id) {
            if pos > 0 {
                self.exchange_with_next(pos - 1);
                proof {
                    lemma_exchange_keeps_priorities(old(self).rules@, pos - 1);
                }
            }
        }
    }

    /// Move a rule down in priority: it changes places with the rule after
    /// it, taking that place's priority and giving its own to the other
    /// rule. Nothing changes for the last rule or an unknown ID.
    pub fn move_down(&mut self, id: u128)
        ensures
            !has_id(old(self).rules@, id) ==> final(self).rules@ == old(self).rules@,
            is_first_with_id(old(self).rules@, id, old(self).rules@.len() - 1) ==> final(self).rules@ == old(self).rules@,
            forall|pos: int| pos < old(self).rules@.len() - 1 && is_first_with_id(old(self).rules@, id, pos) ==> final(
                self).rules@ == exchanged_neighbours(old(self).rules@, pos),
            sorted_by_priority(old(self).rules@) ==> sorted_by_priority(final(self).rules@),
            final(self).app_grouping == old(self).app_grouping,
    {
        if let Some(pos) = position_of(&self.rules, id) {
            if pos < self.rules.len() - 1 {
                self.exchange_with_next(pos);
                proof {
                    lemma_exchange_keeps_priorities(old(self).rules@, pos as int);
                }
            }
        }
    }
}


proof fn lemma_with_priority_unfold(t: Seq<RoutingRule>, p: u32)
    requires
        t.len() > 0,
    ensures
        with_priority(t, p) == if t.last().priority == p {
            with_priority(t.drop_last(), p).push(t.last())
        } else {
            with_priority(t.drop_last(), p)
        },
{
    reveal(Seq::filter);
}

/// A rule of priority `p` occurs in a sorted list whose rules of priority `p`
/// are not all gone, so `p` is at most the priority of the last rule.
proof fn lemma_group_bounded_by_last(t: Seq<RoutingRule>, p: u32)
    requires
        sorted_by_priority(t),
        with_priority(t, p).len() > 0,
    ensures
        t.len() > 0,
        p <= t.last().priority,
{
    let w = with_priority(t, p);
    t.lemma_filter_pred(prio_is(p), 0);
    t.lemma_filter_contains_rev(prio_is(p), w[0]);
    assert(w.contains(w[0]));
    let i = choose|i: int| 0 <= i < t.len() && t[i] == w[0];
    if i < t.len() - 1 {
        assert(t[i].priority <= t[t.len() - 1].priority);
    }
}

/// Two priority-sorted lists with the same rules in each priority group are
/// the same list.
pub proof fn lemma_same_groups_equal(t1: Seq<RoutingRule>, t2: Seq<RoutingRule>)
    requires
        sorted_by_priority(t1),
        sorted_by_priority(t2),
        forall|p: u32| #[trigger] with_priority(t1, p) == with_priority(t2, p),
    ensures
        t1 == t2,
    decreases t1.len(),
{
    if t1.len() == 0 {
        if t2.len() > 0 {
            let p = t2.last().priority;
            lemma_with_priority_unfold(t2, p);
            lemma_with_priority_none(t1, p);
            assert(with_priority(t1, p) == with_priority(t2, p));
        }
        assert(t1 =~= t2);
    } else {
        let m1 = t1.last().priority;
        lemma_with_priority_unfold(t1, m1);
        assert(with_priority(t2, m1) == with_priority(t1, m1));
        lemma_group_bounded_by_last(t2, m1);
        let m2 = t2.last().priority;
        lemma_with_priority_unfold(t2, m2);
        assert(with_priority(t1, m2) == with_priority(t2, m2));
        lemma_group_bounded_by_last(t1, m2);
        assert(m1 == m2);
        let x1 = t1.last();
        let x2 = t2.last();
        assert(with_priority(t1, m1).last() == x1);
        assert(with_priority(t2, m1).last() == x2);
        let d1 = t1.drop_last();
        let d2 = t2.drop_last();
        assert forall|p: u32| #[trigger] with_priority(d1, p) == with_priority(d2, p) by {
            lemma_with_priority_unfold(t1, p);
            lemma_with_priority_unfold(t2, p);
            assert(with_priority(t1, p) == with_priority(t2, p));
            if p == m1 {
                assert(with_priority(d1, p) =~= with_priority(t1, p).drop_last());
                assert(with_priority(d2, p) =~= with_priority(t2, p).drop_last());
            }
        }
        assert(sorted_by_priority(d1));
        assert(sorted_by_priority(d2));
        lemma_same_groups_equal(d1, d2);
        assert(t1 =~= d1.push(x1));
        assert(t2 =~= d2.push(x2));
    }
}

/// Sorting by priority has one answer: any two stable priority sorts of the
/// same rules are equal.
pub proof fn law_priority_sort_is_unique(s: Seq<RoutingRule>, t1: Seq<RoutingRule>, t2: Seq<RoutingRule>)
    requires
        is_priority_sort_of(t1, s),
        is_priority_sort_of(t2, s),
    ensures
        t1 == t2,
{
    assert forall|p: u32| #[trigger] with_priority(t1, p) == with_priority(t2, p) by {
        assert(with_priority(t1, p) == with_priority(s, p));
        assert(with_priority(t2, p) == with_priority(s, p));
    }
    lemma_same_groups_equal(t1, t2);
}

/// Sorting rules that are already in priority order changes nothing.
pub proof fn law_sorting_sorted_rules_changes_nothing(s: Seq<RoutingRule>, t: Seq<RoutingRule>)
    requires
        sorted_by_priority(s),
        is_priority_sort_of(t, s),
    ensures
        t == s,
{
    law_priority_sort_is_unique(s, t, s);
}

/// Priorities strictly increase along the list (no two rules share one).
pub open spec fn strictly_sorted(s: Seq<RoutingRule>) -> bool {
    forall|i: int, j: int| 0 <= i < j < s.len() ==> s[i].priority < s[j].priority
}

/// `s` with the rules at `i` and `i + 1` exchanged, each keeping the
/// priority of the place it moves to.
pub open spec fn exchanged_neighbours(s: Seq<RoutingRule>, i: int) -> Seq<RoutingRule> {
    s.update(i, reprioritized(s[i + 1], s[i].priority)).update(i + 1, reprioritized(s[i], s[i + 1].priority))
}

/// Exchanging neighbours keeps the priority found at every position.
proof fn lemma_exchange_keeps_priorities(s: Seq<RoutingRule>, i: int)
    requires
        0 <= i,
        i + 1 < s.len(),
    ensures
        exchanged_neighbours(s, i).len() == s.len(),
        forall|k: int| 0 <= k < s.len() ==> #[trigger] exchanged_neighbours(s, i)[k].priority == s[k].priority,
        sorted_by_priority(s) ==> sorted_by_priority(exchanged_neighbours(s, i)),
{
}

proof fn lemma_exchange_is_sort_of_swap(s: Seq<RoutingRule>, i: int)
    requires
        strictly_sorted(s),
        0 <= i,
        i + 1 < s.len(),
    ensures
        is_priority_sort_of(exchanged_neighbours(s, i), swap_priorities(s, i, i + 1)),
        strictly_sorted(exchanged_neighbours(s, i)),
{
    let w = swap_priorities(s, i, i + 1);
    let u = exchanged_neighbours(s, i);
    let a = s.take(i);
    let b = s.skip(i + 2);
    let x = w[i];
    let y = w[i + 1];
    assert(w =~= a + seq![x] + seq![y] + b);
    assert(u =~= a + seq![y] + seq![x] + b);
    assert(x.priority != y.priority);
    assert forall|p: u32| #[trigger] with_priority(u, p) == with_priority(w, p) by {
        lemma_with_priority_add(a + seq![y] + seq![x], b, p);
        lemma_with_priority_add(a + seq![y], seq![x], p);
        lemma_with_priority_add(a, seq![y], p);
        lemma_with_priority_add(a + seq![x] + seq![y], b, p);
        lemma_with_priority_add(a + seq![x], seq![y], p);
        lemma_with_priority_add(a, seq![x], p);
        lemma_with_priority_single(x, p);
        lemma_with_priority_single(y, p);
        let e = Seq::<RoutingRule>::empty();
        if x.priority == p {
            assert(with_priority(a, p) + e + seq![x] =~= with_priority(a, p) + seq![x] + e);
        } else if y.priority == p {
            assert(with_priority(a, p) + seq![y] + e =~= with_priority(a, p) + e + seq![y]);
        }
    }
}

/// With distinct priorities in order, moving up gives the same list as
/// exchanging the two priorities and re-sorting stably.
pub proof fn law_move_up_agrees_with_priority_swap(s: Seq<RoutingRule>, pos: int, t: Seq<RoutingRule>)
    requires
        strictly_sorted(s),
        0 < pos < s.len(),
        is_priority_sort_of(t, swap_priorities(s, pos - 1, pos)),
    ensures
        t == exchanged_neighbours(s, pos - 1),
{
    lemma_exchange_is_sort_of_swap(s, pos - 1);
    law_priority_sort_is_unique(swap_priorities(s, pos - 1, pos), t, exchanged_neighbours(s, pos - 1));
}

/// With distinct priorities in order, moving down gives the same list as
/// exchanging the two priorities and re-sorting stably.
pub proof fn law_move_down_agrees_with_priority_swap(s: Seq<RoutingRule>, pos: int, t: Seq<RoutingRule>)
    requires
        strictly_sorted(s),
        0 <= pos < s.len() - 1,
        is_priority_sort_of(t, swap_priorities(s, pos, pos + 1)),
    ensures
        t == exchanged_neighbours(s, pos),
{
    lemma_exchange_is_sort_of_swap(s, pos);
    law_priority_sort_is_unique(swap_priorities(s, pos, pos + 1), t, exchanged_neighbours(s, pos));
}

/// With distinct identifiers, moving a rule down right after moving it up
/// gives back the rules it started from: after the move up the rule is found
/// one place earlier, and moving it down from there restores the list.
pub proof fn law_move_down_undoes_move_up(s: Seq<RoutingRule>, pos: int)
    requires
        ids_unique(s),
        0 < pos < s.len(),
    ensures
        is_first_with_id(exchanged_neighbours(s, pos - 1), s[pos].id, pos - 1),
        exchanged_neighbours(exchanged_neighbours(s, pos - 1), pos - 1) == s,
{
    let t = exchanged_neighbours(s, pos - 1);
    assert forall|k: int| 0 <= k < pos - 1 implies t[k].id != s[pos].id by {
        assert(t[k] == s[k]);
    }
    assert(exchanged_neighbours(t, pos - 1) =~= s);
}

/// Moving up puts the rule one place earlier whatever the priorities, and
/// the rule it passes one place later.
pub proof fn law_move_up_moves_one_place(s: Seq<RoutingRule>, pos: int)
    requires
        0 < pos < s.len(),
    ensures
        exchanged_neighbours(s, pos - 1)[pos - 1].id == s[pos].id,
        exchanged_neighbours(s, pos - 1)[pos].id == s[pos - 1].id,
        forall|k: int| 0 <= k < s.len() && k != pos - 1 && k != pos ==> #[trigger] exchanged_neighbours(s, pos - 1)[k] == s[k],
{
}

/// A rule added with `add_rule` is in the list afterwards, and so is every
/// rule that was there before.
pub proof fn law_add_rule_keeps_rules(s: Seq<RoutingRule>, rule: RoutingRule, t: Seq<RoutingRule>)
    requires
        is_priority_sort_of(t, s.push(rule)),
    ensures
        t.contains(rule),
        forall|x: RoutingRule| s.contains(x) ==> t.contains(x),
{
    let u = s.push(rule);
    assert forall|x: RoutingRule| u.contains(x) implies t.contains(x) by {
        let i = choose|i: int| 0 <= i < u.len() && u[i] == x;
        u.lemma_filter_contains(prio_is(x.priority), i);
        assert(with_priority(t, x.priority) == with_priority(u, x.priority));
        t.lemma_filter_contains_rev(prio_is(x.priority), x);
    }
    assert(u[u.len() - 1] == rule);
    assert forall|x: RoutingRule| s.contains(x) implies t.contains(x) by {
        let i = choose|i: int| 0 <= i < s.len() && s[i] == x;
        assert(u[i] == x);
    }
}

/// Toggling a rule twice gives back the rules it started from.
pub proof fn law_toggle_twice_restores(s: Seq<RoutingRule>, id: u128, pos: int)
    requires
        is_first_with_id(s, id, pos),
    ensures
        is_first_with_id(toggled(s, pos), id, pos),
        toggled(toggled(s, pos), pos) == s,
{
    assert(toggled(toggled(s, pos), pos) =~= s);
}

/// When identifiers are unique, a removed rule is gone for good, and the
/// remaining identifiers stay unique.
pub proof fn law_removed_rule_is_gone(s: Seq<RoutingRule>, id: u128, pos: int)
    requires
        ids_unique(s),
        is_first_with_id(s, id, pos),
    ensures
        !has_id(s.remove(pos), id),
        ids_unique(s.remove(pos)),
{
    let t = s.remove(pos);
    assert forall|k: int| 0 <= k < t.len() implies t[k].id != id by {
        if k < pos {
            assert(t[k] == s[k]);
        } else {
            assert(t[k] == s[k + 1]);
        }
    }
    assert forall|i: int, j: int| 0 <= i < t.len() && 0 <= j < t.len() && i != j implies t[i].id != t[j].id by {
        let a = if i < pos { i } else { i + 1 };
        let b = if j < pos { j } else { j + 1 };
        assert(t[i] == s[a]);
        assert(t[j] == s[b]);
    }
}

/// A disabled rule never matches, so it is never the answer of `find_match`.
pub proof fn law_disabled_rules_never_match(r: RoutingRule, app_name: Seq<char>, binary: Option<Seq<char>>)
    requires
        !r.enabled,
    ensures
        !r.matches_spec(app_name, binary),
{
}

/// `r` with its match target replaced by `t`.
pub open spec fn with_target(r: RoutingRule, t: MatchTarget) -> RoutingRule {
    RoutingRule { match_target: t, ..r }
}

/// A rule that targets either field matches exactly when the same rule
/// targeting the app name or the same rule targeting the binary matches.
pub proof fn law_either_is_name_or_binary(r: RoutingRule, app_name: Seq<char>, binary: Option<Seq<char>>)
    ensures
        with_target(r, MatchTarget::Either).matches_spec(app_name, binary) == (with_target(
            r,
            MatchTarget::AppName,
        ).matches_spec(app_name, binary) || with_target(r, MatchTarget::Binary).matches_spec(app_name, binary)),
{
}

/// A rule that targets the binary never matches an app without one.
pub proof fn law_binary_rule_needs_binary(r: RoutingRule, app_name: Seq<char>)
    requires
        r.match_target == MatchTarget::Binary,
    ensures
        !r.matches_spec(app_name, None),
{
}

} // verus!
