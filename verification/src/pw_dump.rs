//! Finding PipeWire nodes in the output of `pw-dump`, `wpctl status`,
//! `wpctl inspect` and `pw-metadata`.

use vstd::prelude::*;
use crate::parse::{is_ws, lines, lines_spec, nth_piece, parse_unsigned, parse_unsigned_spec, split_nth, trim, trim_spec, find_char_from, find_from, lemma_find_from};
use crate::text::{chars_of, chars_eq, chars_start_with, contains_chars, contains_seq, starts_with_spec, str_eq, str_starts_with, string_from_chars};

verus! {

/// The fields of one `pw-dump` object that node lookup reads. Missing string
/// fields are empty; `id` is `None` when absent or not an unsigned integer.
#[derive(Debug, Clone)]
pub struct PwDumpObject {
    /// The object's `type`.
    pub obj_type: String,
    /// The object's `id`.
    pub id: Option<u64>,
    /// `info.props["node.name"]`.
    pub node_name: String,
    /// `info.props["media.class"]`.
    pub media_class: String,
}

/// The `type` of node objects.
pub open spec fn node_type() -> Seq<char> {
    "PipeWire:Interface:Node"@
}

/// `o` is a node with this name and media class, and has an id.
pub open spec fn is_node_with(o: PwDumpObject, name: Seq<char>, class: Seq<char>) -> bool {
    &&& o.obj_type@ == node_type()
    &&& o.node_name@ == name
    &&& o.media_class@ == class
    &&& o.id is Some
}

/// `r` is the id (truncated to 32 bits) of the first node object with this
/// name and media class, or `None` when there is none.
pub open spec fn found_node(objects: Seq<PwDumpObject>, name: Seq<char>, class: Seq<char>, r: Option<u32>) -> bool {
    &&& r is None <==> forall|k: int| 0 <= k < objects.len() ==> !#[trigger] is_node_with(objects[k], name, class)
    &&& r matches Some(id) ==> exists|i: int| 0 <= i < objects.len() && is_node_with(objects[i], name, class)
        && id == objects[i].id->Some_0 as u32
        && forall|k: int| 0 <= k < i ==> !#[trigger] is_node_with(objects[k], name, class)
}

/// Finds the id (truncated to 32 bits) of the first node object with this
/// name and media class.
pub fn find_node_in_dump(objects: &Vec<PwDumpObject>, name: &str, class: &str) -> (r: Option<u32>)
    ensures
        found_node(objects@, name@, class@, r),
{
    let mut i: usize = 0;
    while i < objects.len()
        invariant
            i <= objects.len(),
            forall|k: int| 0 <= k < i ==> !#[trigger] is_node_with(objects@[k], name@, class@),
        decreases objects.len() - i,
    {
        let o = &objects[i];
        if str_eq(o.obj_type.as_str(), "PipeWire:Interface:Node") && str_eq(o.node_name.as_str(), name)
            && str_eq(o.media_class.as_str(), class) {
            if let Some(id) = o.id {
                proof {
                    assert(is_node_with(objects@[i as int], name@, class@));
                }
                return Some(#[verifier::truncate] (id as u32));
            }
        }
        i += 1;
    }
    None
}

/// `o` is a node left behind by this application: its name starts with
/// `sootmix.` (sinks, sources, EQs), `output.sootmix.` (loopback outputs of
/// sinks) or `capture.sootmix.` (loopback captures of sources).
pub open spec fn is_managed_node(o: PwDumpObject) -> bool {
    &&& o.obj_type@ == node_type()
    &&& (starts_with_spec(o.node_name@, "sootmix."@) || starts_with_spec(o.node_name@, "output.sootmix."@)
        || starts_with_spec(o.node_name@, "capture.sootmix."@))
}

/// The id to destroy for an object, if it is a managed node with an id.
pub open spec fn orphan_id(o: PwDumpObject) -> Option<u32> {
    if is_managed_node(o) && o.id is Some {
        Some(o.id->Some_0 as u32)
    } else {
        None
    }
}

/// `orphan_id` as a function value.
pub open spec fn orphan_id_fn() -> spec_fn(PwDumpObject) -> Option<u32> {
    |o: PwDumpObject| orphan_id(o)
}

/// The ids of all managed nodes, in `pw-dump` order.
pub fn orphaned_node_ids(objects: &Vec<PwDumpObject>) -> (r: Vec<u32>)
    ensures
        r@ == objects@.filter_map(orphan_id_fn()),
{
    let ghost f = orphan_id_fn();
    let mut out: Vec<u32> = Vec::new();
    let mut i: usize = 0;
    proof {
        assert(objects@.take(0).filter_map(f) =~= Seq::<u32>::empty());
    }
    while i < objects.len()
        invariant
            i <= objects.len(),
            f == orphan_id_fn(),
            out@ == objects@.take(i as int).filter_map(f),
        decreases objects.len() - i,
    {
        let o = &objects[i];
        proof {
            objects@.lemma_filter_map_take_succ(f, i as int);
            assert(f(objects@[i as int]) == orphan_id(objects@[i as int]));
        }
        if str_eq(o.obj_type.as_str(), "PipeWire:Interface:Node") && (str_starts_with(o.node_name.as_str(), "sootmix.")
            || str_starts_with(o.node_name.as_str(), "output.sootmix.")
            || str_starts_with(o.node_name.as_str(), "capture.sootmix.")) {
            if let Some(id) = o.id {
                out.push(#[verifier::truncate] (id as u32));
            }
        }
        i += 1;
    }
    proof {
        assert(objects@.take(objects.len() as int) =~= objects@);
    }
    out
}

/// The id written before the first `.` of a `wpctl status` line, if the
/// trimmed text before that dot is a `u32`.
pub open spec fn status_line_id(line: Seq<char>) -> Option<u32> {
    let t = trim_spec(line);
    let d = find_from(t, '.', 0);
    if d < t.len() {
        match parse_unsigned_spec(trim_spec(t.take(d)), u32::MAX as nat) {
            Some(n) => Some(n as u32),
            None => None,
        }
    } else {
        None
    }
}

/// What `wpctl status` says the id of a node is: the first line that
/// contains `name` and carries an id.
pub open spec fn status_id_from(ls: Seq<Seq<char>>, name: Seq<char>) -> Option<u32>
    decreases ls.len(),
{
    if ls.len() == 0 {
        None
    } else if contains_seq(ls[0], name) && status_line_id(ls[0]) is Some {
        status_line_id(ls[0])
    } else {
        status_id_from(ls.drop_first(), name)
    }
}

fn line_id(line: &Vec<char>) -> (r: Option<u32>)
    ensures
        r == status_line_id(line@),
{
    let t = trim(line);
    let d = find_char_from(&t, '.', 0);
    if d < t.len() {
        let mut head: Vec<char> = Vec::new();
        let mut k: usize = 0;
        while k < d
            invariant
                k <= d < t.len(),
                head@ == t@.take(k as int),
            decreases d - k,
        {
            head.push(t[k]);
            proof {
                assert(t@.take(k + 1) =~= t@.take(k as int).push(t@[k as int]));
            }
            k += 1;
        }
        let h = trim(&head);
        match parse_unsigned(&h, 0xffff_ffff) {
            Some(n) => Some(#[verifier::truncate] (n as u32)),
            None => None,
        }
    } else {
        None
    }
}

/// Finds a node's id in `wpctl status` output (lines like `  42. name [vol: 1.00]`).
pub fn find_node_in_status(status: &str, name: &str) -> (r: Option<u32>)
    ensures
        r == status_id_from(lines_spec(status@), name@),
{
    let s = chars_of(status);
    let n = chars_of(name);
    let ls = lines(&s);
    let ghost all = lines_spec(s@);
    let mut i: usize = 0;
    proof {
        assert(all.skip(0) =~= all);
    }
    while i < ls.len()
        invariant
            i <= ls.len(),
            ls@.len() == all.len(),
            n@ == name@,
            all == lines_spec(status@),
            forall|j: int| 0 <= j < ls@.len() ==> #[trigger] ls@[j]@ == all[j],
            status_id_from(all, name@) == status_id_from(all.skip(i as int), name@),
        decreases ls.len() - i,
    {
        let line = &ls[i];
        proof {
            assert(all.skip(i as int)[0] == all[i as int]);
            assert(all.skip(i as int).drop_first() =~= all.skip(i + 1));
        }
        if contains_chars(line, &n) {
            let id = line_id(line);
            if id.is_some() {
                return id;
            }
        }
        i += 1;
    }
    proof {
        assert(all.skip(i as int).len() == 0);
    }
    None
}


/// `s` with every leading and trailing `c` removed (`str::trim_matches`).
pub open spec fn strip_char_start(s: Seq<char>, c: char) -> Seq<char>
    decreases s.len(),
{
    if s.len() > 0 && s[0] == c {
        strip_char_start(s.drop_first(), c)
    } else {
        s
    }
}

pub open spec fn strip_char_end(s: Seq<char>, c: char) -> Seq<char>
    decreases s.len(),
{
    if s.len() > 0 && s.last() == c {
        strip_char_end(s.drop_last(), c)
    } else {
        s
    }
}

pub open spec fn trim_matches_spec(s: Seq<char>, c: char) -> Seq<char> {
    strip_char_end(strip_char_start(s, c), c)
}

/// Removes every leading and trailing `c`.
pub fn trim_matches(s: &Vec<char>, c: char) -> (r: Vec<char>)
    ensures
        r@ == trim_matches_spec(s@, c),
{
    let mut lo: usize = 0;
    proof {
        assert(s@.skip(0) =~= s@);
    }
    while lo < s.len() && s[lo] == c
        invariant
            lo <= s.len(),
            strip_char_start(s@, c) == strip_char_start(s@.skip(lo as int), c),
        decreases s.len() - lo,
    {
        proof {
            assert(s@.skip(lo as int).drop_first() =~= s@.skip(lo + 1));
        }
        lo += 1;
    }
    let ghost t = s@.skip(lo as int);
    proof {
        assert(strip_char_start(t, c) == t);
        assert(t.take(t.len() as int) =~= t);
    }
    let mut hi: usize = s.len();
    while hi > lo && s[hi - 1] == c
        invariant
            lo <= hi <= s.len(),
            t == s@.skip(lo as int),
            strip_char_end(t, c) == strip_char_end(t.take(hi - lo), c),
        decreases hi,
    {
        proof {
            assert(t.take(hi - lo).last() == s@[hi - 1]);
            assert(t.take(hi - lo).drop_last() =~= t.take(hi - 1 - lo));
        }
        hi -= 1;
    }
    proof {
        if hi > lo {
            assert(t.take(hi - lo).last() == s@[hi - 1]);
        }
    }
    let mut r: Vec<char> = Vec::new();
    let mut k = lo;
    while k < hi
        invariant
            lo <= k <= hi <= s.len(),
            r@ == s@.subrange(lo as int, k as int),
        decreases hi - k,
    {
        r.push(s[k]);
        proof {
            assert(s@.subrange(lo as int, k + 1) =~= s@.subrange(lo as int, k as int).push(s@[k as int]));
        }
        k += 1;
    }
    proof {
        assert(t.take(hi - lo) =~= s@.subrange(lo as int, hi as int));
    }
    r
}

/// The sink name that `wpctl inspect` reports: on the first line whose
/// trimmed text starts with `node.name` and has an `=`, the text between the
/// first and second `=`, trimmed, without surrounding double quotes.
pub open spec fn default_sink_from(ls: Seq<Seq<char>>) -> Option<Seq<char>>
    decreases ls.len(),
{
    if ls.len() == 0 {
        None
    } else {
        let t = trim_spec(ls[0]);
        if starts_with_spec(t, "node.name"@) && split_nth(t, '=', 1) is Some {
            Some(trim_matches_spec(trim_spec(split_nth(t, '=', 1)->Some_0), '"'))
        } else {
            default_sink_from(ls.drop_first())
        }
    }
}

/// Reads the default sink's `node.name` from `wpctl inspect` output.
pub fn default_sink_name_from_inspect(output: &str) -> (r: Option<String>)
    ensures
        r matches Some(name) ==> default_sink_from(lines_spec(output@)) == Some(name@),
        r is None ==> default_sink_from(lines_spec(output@)) is None,
{
    let s = chars_of(output);
    let ls = lines(&s);
    let key = chars_of("node.name");
    let ghost all = lines_spec(s@);
    let mut i: usize = 0;
    proof {
        assert(all.skip(0) =~= all);
    }
    while i < ls.len()
        invariant
            i <= ls.len(),
            ls@.len() == all.len(),
            key@ == "node.name"@,
            all == lines_spec(output@),
            forall|j: int| 0 <= j < ls@.len() ==> #[trigger] ls@[j]@ == all[j],
            default_sink_from(all) == default_sink_from(all.skip(i as int)),
        decreases ls.len() - i,
    {
        proof {
            assert(all.skip(i as int)[0] == all[i as int]);
            assert(all.skip(i as int).drop_first() =~= all.skip(i + 1));
        }
        let t = trim(&ls[i]);
        if chars_start_with(&t, &key) {
            if let Some(piece) = nth_piece(&t, '=', 1) {
                let name = trim_matches(&trim(&piece), '"');
                return Some(string_from_chars(name.as_slice()));
            }
        }
        i += 1;
    }
    None
}

/// Index of the first occurrence of `pat` in `s` at or after `from`
/// (`s.len()` when there is none).
pub open spec fn find_seq_from(s: Seq<char>, pat: Seq<char>, from: int) -> int
    decreases s.len() - from,
{
    if from < 0 || from >= s.len() || from + pat.len() > s.len() {
        s.len() as int
    } else if crate::text::occurs_at(s, pat, from) {
        from
    } else {
        find_seq_from(s, pat, from + 1)
    }
}

fn find_seq(s: &Vec<char>, pat: &Vec<char>) -> (r: usize)
    ensures
        r == find_seq_from(s@, pat@, 0),
{
    let mut i: usize = 0;
    while i < s.len() && pat.len() <= s.len() - i
        invariant
            i <= s.len(),
            find_seq_from(s@, pat@, i as int) == find_seq_from(s@, pat@, 0),
        decreases s.len() - i,
    {
        let mut k: usize = 0;
        let mut same = true;
        while k < pat.len()
            invariant
                k <= pat.len(),
                i + pat.len() <= s.len(),
                same == forall|j: int| 0 <= j < k ==> s@[i + j] == pat@[j],
            decreases pat.len() - k,
        {
            if s[i + k] != pat[k] {
                same = false;
            }
            k += 1;
        }
        proof {
            if same {
                assert(s@.subrange(i as int, i + pat.len()) =~= pat@);
            } else {
                let j = choose|j: int| 0 <= j < pat.len() && s@[i + j] != pat@[j];
                assert(s@.subrange(i as int, i + pat.len())[j] != pat@[j]);
            }
        }
        if same {
            return i;
        }
        i += 1;
    }
    s.len()
}

/// The text of the `value:'...'` field on the first line of `pw-metadata`
/// output that mentions `value:`.
pub open spec fn metadata_value_spec(out: Seq<char>) -> Option<Seq<char>> {
    let ls = lines_spec(out);
    if exists|i: int| 0 <= i < ls.len() && contains_seq(ls[i], "value:"@) {
        let i = choose|i: int| 0 <= i < ls.len() && contains_seq(ls[i], "value:"@) && forall|k: int|
            0 <= k < i ==> !contains_seq(#[trigger] ls[k], "value:"@);
        let line = ls[i];
        let a = find_seq_from(line, "value:'"@, 0);
        if a + 7 <= line.len() {
            let rest = line.skip(a + 7);
            let seg = rest.take(find_seq_from(rest, "value:'"@, 0));
            Some(seg.take(find_from(seg, '\'', 0)))
        } else {
            None
        }
    } else {
        None
    }
}


fn subvec(s: &Vec<char>, lo: usize, hi: usize) -> (r: Vec<char>)
    requires
        lo <= hi <= s.len(),
    ensures
        r@ == s@.subrange(lo as int, hi as int),
{
    let mut r: Vec<char> = Vec::new();
    let mut k = lo;
    while k < hi
        invariant
            lo <= k <= hi <= s.len(),
            r@ == s@.subrange(lo as int, k as int),
        decreases hi - k,
    {
        r.push(s[k]);
        proof {
            assert(s@.subrange(lo as int, k + 1) =~= s@.subrange(lo as int, k as int).push(s@[k as int]));
        }
        k += 1;
    }
    r
}

proof fn lemma_find_seq_bound(s: Seq<char>, pat: Seq<char>, from: int)
    requires
        0 <= from,
    ensures
        find_seq_from(s, pat, from) <= s.len(),
        find_seq_from(s, pat, from) < s.len() ==> find_seq_from(s, pat, from) + pat.len() <= s.len(),
    decreases s.len() - from,
{
    if !(from < 0 || from >= s.len() || from + pat.len() > s.len()) && !crate::text::occurs_at(s, pat, from) {
        lemma_find_seq_bound(s, pat, from + 1);
    }
}

fn first_line_containing(ls: &Vec<Vec<char>>, key: &Vec<char>) -> (r: Option<usize>)
    ensures
        r matches Some(i) ==> i < ls@.len() && contains_seq(ls@[i as int]@, key@) && forall|k: int|
            0 <= k < i ==> !contains_seq(#[trigger] ls@[k]@, key@),
        r is None ==> forall|k: int| 0 <= k < ls@.len() ==> !contains_seq(#[trigger] ls@[k]@, key@),
{
    let mut i: usize = 0;
    while i < ls.len()
        invariant
            i <= ls.len(),
            forall|k: int| 0 <= k < i ==> !contains_seq(#[trigger] ls@[k]@, key@),
        decreases ls.len() - i,
    {
        if contains_chars(&ls[i], key) {
            return Some(i);
        }
        i += 1;
    }
    None
}

fn metadata_value_chars(out: &str) -> (r: Option<Vec<char>>)
    ensures
        r matches Some(v) ==> metadata_value_spec(out@) == Some(v@),
        r is None ==> metadata_value_spec(out@) is None,
{
    let s = chars_of(out);
    let ls = lines(&s);
    let ghost all = lines_spec(out@);
    let key = chars_of("value:");
    let pat = chars_of("value:'");
    let found = first_line_containing(&ls, &key);
    if found.is_none() {
        proof {
            assert forall|j: int| 0 <= j < all.len() implies !contains_seq(#[trigger] all[j], "value:"@) by {
                assert(ls@[j]@ == all[j]);
            }
        }
        return None;
    }
    let i = found.unwrap();
    proof {
        assert(ls@[i as int]@ == all[i as int]);
        assert forall|k: int| 0 <= k < i implies !contains_seq(#[trigger] all[k], "value:"@) by {
            assert(ls@[k]@ == all[k]);
        }
    }
    let line = &ls[i];
    proof {
        assert(contains_seq(all[i as int], "value:"@));
        let c = choose|c: int| 0 <= c < all.len() && contains_seq(all[c], "value:"@) && forall|k: int|
            0 <= k < c ==> !contains_seq(#[trigger] all[k], "value:"@);
        if c < i {
        } else if c > i {
            assert(!contains_seq(all[i as int], "value:"@));
        }
        assert(c == i);
    }
    let a = find_seq(line, &pat);
    proof {
        lemma_find_seq_bound(line@, pat@, 0);
    }
    if a >= line.len() || line.len() - a < 7 {
        proof {
            reveal_strlit("value:'");
            assert(pat@.len() == 7);
        }
        return None;
    }
    let rest = subvec(line, a + 7, line.len());
    proof {
        assert(rest@ =~= line@.skip(a + 7));
    }
    let b = find_seq(&rest, &pat);
    proof {
        lemma_find_seq_bound(rest@, pat@, 0);
    }
    let seg = subvec(&rest, 0, b);
    let q = find_char_from(&seg, '\'', 0);
    proof {
        lemma_find_from(seg@, '\'', 0);
        assert(seg@ =~= rest@.take(b as int));
    }
    let v = subvec(&seg, 0, q);
    proof {
        assert(v@ =~= seg@.take(q as int));
    }
    Some(v)
}

/// The value text in `pw-metadata` output (for example `48000` from
/// `value:'48000' type:'Spa:Int'`).
pub fn metadata_value(out: &str) -> (r: Option<String>)
    ensures
        r matches Some(v) ==> metadata_value_spec(out@) == Some(v@),
        r is None ==> metadata_value_spec(out@) is None,
{
    match metadata_value_chars(out) {
        Some(v) => Some(string_from_chars(v.as_slice())),
        None => None,
    }
}

/// The block size (`clock.quantum`) reported by `pw-metadata`, if its value
/// parses as a `usize`.
pub fn metadata_usize(out: &str) -> (r: Option<usize>)
    ensures
        r matches Some(n) ==> metadata_value_spec(out@) matches Some(t) && parse_unsigned_spec(t, usize::MAX as nat) == Some(n as nat),
        r is None ==> !(metadata_value_spec(out@) matches Some(t) && parse_unsigned_spec(t, usize::MAX as nat) is Some),
{
    match metadata_value_chars(out) {
        Some(v) => match parse_unsigned(&v, usize::MAX as u64) {
            Some(n) => Some(n as usize),
            None => None,
        },
        None => None,
    }
}

/// The objects of a `pw-dump` output: `None` when the text is not a JSON
/// array, else each element read as by `parse_pw_dump`.
pub uninterp spec fn pw_dump_objects(text: Seq<char>) -> Option<Seq<PwDumpObject>>;

/// `serde_json::from_str` into a vector of `serde_json::Value`, each element
/// then read for `type`, `id` (as `u64`), `info.props["node.name"]` and
/// `info.props["media.class"]`, missing or non-string texts read as empty.
/// Trusted: the result is a function of the text alone, named
/// `pw_dump_objects`; JSON syntax is not restated.
#[verifier::external_body]
fn parse_pw_dump(text: &str) -> (r: Option<Vec<PwDumpObject>>)
    ensures
        r matches Some(v) ==> pw_dump_objects(text@) == Some(v@),
        r is None ==> pw_dump_objects(text@) is None,
{
    let values: Vec<serde_json::Value> = serde_json::from_str(text).ok()?;
    let field = |v: Option<&serde_json::Value>| v.and_then(|s| s.as_str()).unwrap_or("").to_string();
    Some(values.iter().map(|o| {
        let props = o.get("info").and_then(|i| i.get("props"));
        PwDumpObject {
            obj_type: field(o.get("type")),
            id: o.get("id").and_then(|n| n.as_u64()),
            node_name: field(props.and_then(|p| p.get("node.name"))),
            media_class: field(props.and_then(|p| p.get("media.class"))),
        }
    }).collect())
}

/// The nodes to destroy found in a `pw-dump` output, or `None` when the
/// output is not a JSON array.
pub fn orphaned_ids_in_dump(text: &str) -> (r: Option<Vec<u32>>)
    ensures
        match pw_dump_objects(text@) {
            Some(objs) => (r matches Some(v) && v@ == objs.filter_map(orphan_id_fn())),
            None => r is None,
        },
{
    match parse_pw_dump(text) {
        Some(objs) => Some(orphaned_node_ids(&objs)),
        None => None,
    }
}

/// Looks a node up by name and media class in a `pw-dump` output: `None`
/// when the output is not a JSON array, else what `find_node_in_dump` finds.
pub fn node_in_dump(text: &str, name: &str, class: &str) -> (r: Option<Option<u32>>)
    ensures
        match pw_dump_objects(text@) {
            Some(objs) => (r matches Some(x) && found_node(objs, name@, class@, x)),
            None => r is None,
        },
{
    match parse_pw_dump(text) {
        Some(objs) => Some(find_node_in_dump(&objs, name, class)),
        None => None,
    }
}

} // verus!
