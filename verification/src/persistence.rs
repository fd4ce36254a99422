//! Where configuration, presets and crash-recovery state are stored, and how
//! preset names map to files. Reading and writing the files is left to the
//! caller.

use vstd::prelude::*;
use crate::text::{chars_of, eq_ignore_ascii_case, eq_ignore_ascii_case_spec, string_from_chars, string_push, string_push_str, to_lowercase, unicode_lowercase};
use crate::errors::decimal_spec;
use crate::parse::find_from;

verus! {

/// `Path::join` on Unix paths held as text: an absolute `name` replaces
/// `dir`; otherwise a `/` is put between them unless `dir` is empty or
/// already ends with one.
pub open spec fn join_spec(dir: Seq<char>, name: Seq<char>) -> Seq<char> {
    if name.len() > 0 && name[0] == '/' {
        name
    } else if dir.len() == 0 || dir.last() == '/' {
        dir + name
    } else {
        dir + "/"@ + name
    }
}

/// Joins a file or directory name onto a directory path.
pub fn path_join(dir: &str, name: &str) -> (r: String)
    ensures
        r@ == join_spec(dir@, name@),
{
    let d = chars_of(dir);
    let n = chars_of(name);
    if n.len() > 0 && n[0] == '/' {
        return name.to_string();
    }
    let mut out = String::new();
    string_push_str(&mut out, dir);
    if !(d.len() == 0 || d[d.len() - 1] == '/') {
        string_push(&mut out, '/');
    }
    string_push_str(&mut out, name);
    proof {
        reveal_strlit("/");
        if !(d@.len() == 0 || d@.last() == '/') {
            assert(out@ =~= dir@ + "/"@ + name@);
        }
    }
    out
}

/// Manages where configuration files live.
#[derive(Debug, Clone)]
pub struct ConfigManager {
    config_dir: String,
    presets_dir: String,
    eq_presets_dir: String,
    state_dir: String,
}

impl ConfigManager {
    pub closed spec fn config_dir_view(&self) -> Seq<char> {
        self.config_dir@
    }

    pub closed spec fn presets_dir_view(&self) -> Seq<char> {
        self.presets_dir@
    }

    pub closed spec fn eq_presets_dir_view(&self) -> Seq<char> {
        self.eq_presets_dir@
    }

    pub closed spec fn state_dir_view(&self) -> Seq<char> {
        self.state_dir@
    }

    /// The layout under a configuration directory: `presets` and
    /// `eq_presets` inside it, and runtime state in `state_dir` if given,
    /// else in its `state` subdirectory.
    pub fn from_dirs(config_dir: &str, state_dir: Option<&str>) -> (r: Self)
        ensures
            r.config_dir_view() == config_dir@,
            r.presets_dir_view() == join_spec(config_dir@, "presets"@),
            r.eq_presets_dir_view() == join_spec(config_dir@, "eq_presets"@),
            r.state_dir_view() == match state_dir {
                Some(s) => s@,
                None => join_spec(config_dir@, "state"@),
            },
    {
        let state = match state_dir {
            Some(s) => s.to_string(),
            None => path_join(config_dir, "state"),
        };
        ConfigManager {
            config_dir: config_dir.to_string(),
            presets_dir: path_join(config_dir, "presets"),
            eq_presets_dir: path_join(config_dir, "eq_presets"),
            state_dir: state,
        }
    }

    /// The directories that must exist, in creation order.
    pub fn directories(&self) -> (r: Vec<String>)
        ensures
            r@.len() == 4,
            r@[0]@ == self.config_dir_view(),
            r@[1]@ == self.presets_dir_view(),
            r@[2]@ == self.eq_presets_dir_view(),
            r@[3]@ == self.state_dir_view(),
    {
        let mut v: Vec<String> = Vec::new();
        v.push(self.config_dir.clone());
        v.push(self.presets_dir.clone());
        v.push(self.eq_presets_dir.clone());
        v.push(self.state_dir.clone());
        v
    }

    /// The global presets directory.
    pub fn presets_dir(&self) -> (r: &str)
        ensures
            r@ == self.presets_dir_view(),
    {
        self.presets_dir.as_str()
    }

    /// The EQ presets directory.
    pub fn eq_presets_dir(&self) -> (r: &str)
        ensures
            r@ == self.eq_presets_dir_view(),
    {
        self.eq_presets_dir.as_str()
    }

    /// Get the path to the main config file.
    pub fn config_path(&self) -> (r: String)
        ensures
            r@ == join_spec(self.config_dir_view(), "config.toml"@),
    {
        path_join(self.config_dir.as_str(), "config.toml")
    }

    /// Path to the state file for crash recovery (tracking created nodes).
    pub fn state_file_path(&self) -> (r: String)
        ensures
            r@ == join_spec(self.state_dir_view(), "runtime_nodes.json"@),
    {
        path_join(self.state_dir.as_str(), "runtime_nodes.json")
    }

    /// The file of a user global preset: its lower-cased name plus `.toml`.
    pub fn preset_path(&self, name: &str) -> (r: String)
        ensures
            r@ == join_spec(self.presets_dir_view(), preset_file_name_spec(name@)),
    {
        let f = preset_file_name(name);
        path_join(self.presets_dir.as_str(), f.as_str())
    }

    /// The file of a user EQ preset: its lower-cased name plus `.toml`.
    pub fn eq_preset_path(&self, name: &str) -> (r: String)
        ensures
            r@ == join_spec(self.eq_presets_dir_view(), preset_file_name_spec(name@)),
    {
        let f = preset_file_name(name);
        path_join(self.eq_presets_dir.as_str(), f.as_str())
    }
}

/// `{lowercase name}.toml`.
pub open spec fn preset_file_name_spec(name: Seq<char>) -> Seq<char> {
    unicode_lowercase(name) + ".toml"@
}

/// The file name under which a preset is saved.
pub fn preset_file_name(name: &str) -> (r: String)
    ensures
        r@ == preset_file_name_spec(name@),
{
    let mut f = to_lowercase(name);
    string_push_str(&mut f, ".toml");
    f
}

/// Index of the last `.` of a file name, or -1.
pub open spec fn last_dot(s: Seq<char>) -> int
    decreases s.len(),
{
    if s.len() == 0 {
        -1
    } else if s.last() == '.' {
        s.len() - 1
    } else {
        last_dot(s.drop_last())
    }
}

proof fn lemma_last_dot(s: Seq<char>)
    ensures
        -1 <= last_dot(s) < s.len(),
        last_dot(s) >= 0 ==> s[last_dot(s)] == '.',
        forall|k: int| last_dot(s) < k < s.len() ==> s[k] != '.',
    decreases s.len(),
{
    if s.len() > 0 && s.last() != '.' {
        lemma_last_dot(s.drop_last());
        assert forall|k: int| last_dot(s) < k < s.len() implies s[k] != '.' by {
            if k < s.len() - 1 {
                assert(s.drop_last()[k] == s[k]);
            }
        }
    }
}

/// The preset name a directory entry stands for: the file stem of a file
/// named `<stem>.toml` (as `Path::extension` and `Path::file_stem` read a
/// file name: a name whose only dot is its first character has no extension).
pub open spec fn toml_stem(file_name: Seq<char>) -> Option<Seq<char>> {
    let d = last_dot(file_name);
    if d > 0 && file_name.skip(d + 1) == "toml"@ {
        Some(file_name.take(d))
    } else {
        None
    }
}

/// The stem of a `.toml` file name, if it is one.
pub fn toml_file_stem(file_name: &str) -> (r: Option<String>)
    ensures
        r matches Some(s) ==> toml_stem(file_name@) == Some(s@),
        r is None ==> toml_stem(file_name@) is None,
{
    let cs = chars_of(file_name);
    let mut i = cs.len();
    proof {
        assert(cs@.take(cs.len() as int) =~= cs@);
    }
    while i > 0 && cs[i - 1] != '.'
        invariant
            i <= cs.len(),
            last_dot(cs@) == last_dot(cs@.take(i as int)),
        decreases i,
    {
        proof {
            assert(cs@.take(i as int).drop_last() =~= cs@.take(i - 1));
        }
        i -= 1;
    }
    proof {
        assert(cs@.take(cs.len() as int) =~= cs@);
        if i > 0 {
            assert(cs@.take(i as int).last() == cs@[i - 1]);
        }
        lemma_last_dot(cs@);
    }
    if i <= 1 {
        return None;
    }
    let d = i - 1;
    let ext = cs.len() - (d + 1);
    proof {
        reveal_strlit("toml");
    }
    let is_toml = ext == 4 && cs[d + 1] == 't' && cs[d + 2] == 'o' && cs[d + 3] == 'm' && cs[d + 4] == 'l';
    proof {
        if ext == 4 {
            if is_toml {
                assert(cs@.skip(d + 1) =~= "toml"@);
            } else {
                assert(cs@.skip(d + 1) != "toml"@) by {
                    if cs@.skip(d + 1) == "toml"@ {
                        assert(cs@.skip(d + 1)[0] == cs@[d + 1]);
                        assert(cs@.skip(d + 1)[1] == cs@[d + 2]);
                        assert(cs@.skip(d + 1)[2] == cs@[d + 3]);
                        assert(cs@.skip(d + 1)[3] == cs@[d + 4]);
                    }
                }
            }
        } else {
            assert(cs@.skip(d + 1).len() != 4);
        }
    }
    if !is_toml {
        return None;
    }
    let mut stem: Vec<char> = Vec::new();
    let mut k: usize = 0;
    while k < d
        invariant
            k <= d < cs.len(),
            stem@ == cs@.take(k as int),
        decreases d - k,
    {
        stem.push(cs[k]);
        proof {
            assert(cs@.take(k + 1) =~= cs@.take(k as int).push(cs@[k as int]));
        }
        k += 1;
    }
    Some(string_from_chars(stem.as_slice()))
}

/// The names of the built-in global presets.
pub fn builtin_preset_names() -> (r: Vec<String>)
    ensures
        r@.len() == 3,
        r@[0]@ == "Default"@,
        r@[1]@ == "Gaming"@,
        r@[2]@ == "Streaming"@,
{
    let mut v: Vec<String> = Vec::new();
    v.push("Default".to_string());
    v.push("Gaming".to_string());
    v.push("Streaming".to_string());
    v
}

/// The names of the built-in EQ presets.
pub fn builtin_eq_preset_names() -> (r: Vec<String>)
    ensures
        r@.len() == 5,
        r@[0]@ == "Flat"@,
        r@[1]@ == "Bass Boost"@,
        r@[2]@ == "Vocal Clarity"@,
        r@[3]@ == "Treble Boost"@,
        r@[4]@ == "Cinema"@,
{
    let mut v: Vec<String> = Vec::new();
    v.push("Flat".to_string());
    v.push("Bass Boost".to_string());
    v.push("Vocal Clarity".to_string());
    v.push("Treble Boost".to_string());
    v.push("Cinema".to_string());
    v
}

/// The first built-in preset whose name equals `name` ignoring ASCII case.
pub fn find_builtin_preset(names: &Vec<String>, name: &str) -> (r: Option<usize>)
    ensures
        r matches Some(i) ==> i < names@.len() && eq_ignore_ascii_case_spec(names@[i as int]@, name@) && forall|k: int|
            0 <= k < i ==> !eq_ignore_ascii_case_spec(#[trigger] names@[k]@, name@),
        r is None ==> forall|k: int| 0 <= k < names@.len() ==> !eq_ignore_ascii_case_spec(#[trigger] names@[k]@, name@),
{
    let mut i: usize = 0;
    while i < names.len()
        invariant
            i <= names.len(),
            forall|k: int| 0 <= k < i ==> !eq_ignore_ascii_case_spec(#[trigger] names@[k]@, name@),
        decreases names.len() - i,
    {
        if eq_ignore_ascii_case(names[i].as_str(), name) {
            return Some(i);
        }
        i += 1;
    }
    None
}

/// Adds each `.toml` file of a presets directory to the list of preset names
/// (built-in names first), skipping names already listed.
pub open spec fn merge_names_spec(names: Seq<Seq<char>>, files: Seq<Seq<char>>) -> Seq<Seq<char>>
    decreases files.len(),
{
    if files.len() == 0 {
        names
    } else {
        let prev = merge_names_spec(names, files.drop_last());
        match toml_stem(files.last()) {
            Some(stem) => if prev.contains(stem) {
                prev
            } else {
                prev.push(stem)
            },
            None => prev,
        }
    }
}

fn vec_contains_string(v: &Vec<String>, s: &str) -> (r: bool)
    ensures
        r == v@.map_values(|x: String| x@).contains(s@),
{
    let ghost m = v@.map_values(|x: String| x@);
    let mut i: usize = 0;
    while i < v.len()
        invariant
            i <= v.len(),
            m == v@.map_values(|x: String| x@),
            forall|k: int| 0 <= k < i ==> m[k] != s@,
        decreases v.len() - i,
    {
        if crate::text::str_eq(v[i].as_str(), s) {
            proof {
                assert(m[i as int] == s@);
            }
            return true;
        }
        i += 1;
    }
    false
}

/// The preset names to list: `names` followed by the stems of the `.toml`
/// files in `file_names` that are not already present.
pub fn merge_preset_names(names: Vec<String>, file_names: &Vec<String>) -> (r: Vec<String>)
    ensures
        r@.map_values(|x: String| x@) == merge_names_spec(names@.map_values(|x: String| x@), file_names@.map_values(
            |x: String| x@)),
{
    let ghost base = names@.map_values(|x: String| x@);
    let ghost files = file_names@.map_values(|x: String| x@);
    let mut out = names;
    let mut i: usize = 0;
    proof {
        assert(files.take(0) =~= Seq::<Seq<char>>::empty());
    }
    while i < file_names.len()
        invariant
            i <= file_names.len(),
            files == file_names@.map_values(|x: String| x@),
            out@.map_values(|x: String| x@) == merge_names_spec(base, files.take(i as int)),
        decreases file_names.len() - i,
    {
        proof {
            assert(files.take(i + 1).drop_last() =~= files.take(i as int));
            assert(files.take(i + 1).last() == file_names@[i as int]@);
        }
        let stem = toml_file_stem(file_names[i].as_str());
        match stem {
            Some(name) => {
                if !vec_contains_string(&out, name.as_str()) {
                    let ghost before = out@;
                    out.push(name);
                    proof {
                        assert(out@.map_values(|x: String| x@) =~= before.map_values(|x: String| x@).push(
                            out@.last()@));
                    }
                }
            },
            None => {},
        }
        i += 1;
    }
    proof {
        assert(files.take(file_names.len() as int) =~= files);
    }
    out
}


/// Listing presets keeps the given names first, in order, and adds no
/// duplicate: when the given names are distinct, so are the listed ones.
pub proof fn law_merge_keeps_prefix_and_distinctness(names: Seq<Seq<char>>, files: Seq<Seq<char>>)
    ensures
        merge_names_spec(names, files).len() >= names.len(),
        merge_names_spec(names, files).take(names.len() as int) == names,
        names.no_duplicates() ==> merge_names_spec(names, files).no_duplicates(),
    decreases files.len(),
{
    if files.len() > 0 {
        law_merge_keeps_prefix_and_distinctness(names, files.drop_last());
        let prev = merge_names_spec(names, files.drop_last());
        match toml_stem(files.last()) {
            Some(stem) => {
                if !prev.contains(stem) {
                    let next = prev.push(stem);
                    assert(next.take(names.len() as int) =~= prev.take(names.len() as int));
                    if prev.no_duplicates() {
                        assert forall|i: int, j: int| 0 <= i < next.len() && 0 <= j < next.len() && i != j implies next[i]
                            != next[j] by {
                            if i == next.len() - 1 {
                                assert(next[j] == prev[j]);
                            } else if j == next.len() - 1 {
                                assert(next[i] == prev[i]);
                            } else {
                                assert(next[i] == prev[i] && next[j] == prev[j]);
                            }
                        }
                    }
                }
            },
            None => {},
        }
    } else {
        assert(names.take(names.len() as int) =~= names);
    }
}

/// The numbers a JSON text holds when it is an array of `u32` values.
pub uninterp spec fn json_u32_array(text: Seq<char>) -> Option<Seq<u32>>;

/// `serde_json::from_str` into a `Vec<u32>`. Trusted: the result is a
/// function of the text alone, named `json_u32_array`; JSON syntax is not
/// restated.
#[verifier::external_body]
fn parse_json_u32_array(text: &str) -> (r: Option<Vec<u32>>)
    ensures
        r matches Some(v) ==> json_u32_array(text@) == Some(v@),
        r is None ==> json_u32_array(text@) is None,
{
    serde_json::from_str(text).ok()
}

/// The node ids saved by an earlier run, from the state file's text; a text
/// that is not a JSON array of `u32` values gives none.
pub fn runtime_nodes_from_json(text: &str) -> (r: Vec<u32>)
    ensures
        r@ == match json_u32_array(text@) {
            Some(v) => v,
            None => Seq::empty(),
        },
{
    match parse_json_u32_array(text) {
        Some(v) => v,
        None => Vec::new(),
    }
}

/// The numbers in decimal, separated by commas.
pub open spec fn comma_decimals(ids: Seq<u32>) -> Seq<char>
    decreases ids.len(),
{
    if ids.len() == 0 {
        Seq::empty()
    } else if ids.len() == 1 {
        decimal_spec(ids[0] as nat)
    } else {
        comma_decimals(ids.drop_last()) + ","@ + decimal_spec(ids.last() as nat)
    }
}

/// The compact JSON text of an array of numbers: `[1,2,3]`.
pub open spec fn json_u32_list_text(ids: Seq<u32>) -> Seq<char> {
    "["@ + comma_decimals(ids) + "]"@
}

/// `serde_json::to_string` of a slice of `u32`. Trusted: serialising such a
/// slice does not fail, and gives the compact text (no spaces, decimal
/// numbers).
#[verifier::external_body]
fn json_of_ids(ids: &[u32]) -> (r: Option<String>)
    ensures
        r is Some,
        r matches Some(t) ==> t@ == json_u32_list_text(ids@),
{
    serde_json::to_string(ids).ok()
}

/// The text saved in the state file for these node ids.
pub fn runtime_nodes_json(ids: &[u32]) -> (r: String)
    ensures
        r@ == json_u32_list_text(ids@),
{
    match json_of_ids(ids) {
        Some(t) => t,
        None => "[]".to_string(),
    }
}

} // verus!
