//! Directory-name overrides from configuration files.
//!
//! Each directory from the filesystem root down to the working directory
//! may hold `.cargo/config` and `.cargo/config.toml`; a `[profile.<name>]`
//! table there may give a `dir-name`.  Files nearer the working directory
//! win over files nearer the root.
use vstd::prelude::*;

use crate::profiles::ProfileOverrides;
use crate::text::{join, join_path, same_text};

verus! {

#[verifier::external_type_specification]
#[verifier::external_body]
pub struct ExTomlValue(toml::Value);

#[verifier::external_type_specification]
#[verifier::external_body]
pub struct ExTomlError(toml::de::Error);

/// A parsed TOML value, as far as configuration reads it: tables with their
/// entries in order, strings, and everything else.
pub enum TomlItem {
    Table(Vec<(String, TomlItem)>),
    Str(String),
    Other,
}

/// The document that a text parses to, or `None` where `toml::from_str`
/// rejects it.
pub uninterp spec fn toml_doc(content: Seq<char>) -> Option<TomlItem>;

/// Relies on toml::from_str: parsing succeeds or fails by the text alone,
/// and a parsed document is converted value by value.
#[verifier::external_body]
fn parse_toml(content: &str) -> (r: Result<TomlItem, toml::de::Error>)
    ensures
        r is Ok <==> toml_doc(content@) is Some,
        r matches Ok(t) ==> toml_doc(content@) == Some(t),
{
    match toml::from_str::<toml::Value>(content) {
        Ok(v) => Ok(toml_item(&v)),
        Err(e) => Err(e),
    }
}

/// Relies on toml::Value's variants and toml::map::Map::iter: converts a
/// parsed value into a [`TomlItem`], one variant for one variant.
#[verifier::external_body]
fn toml_item(v: &toml::Value) -> TomlItem {
    match v {
        toml::Value::String(s) => TomlItem::Str(s.clone()),
        toml::Value::Table(t) => TomlItem::Table(t.iter().map(|(k, x)| (k.clone(), toml_item(x))).collect()),
        _ => TomlItem::Other,
    }
}

/// Relies on toml::de::Error's Display impl for a description of the error.
#[verifier::external_body]
fn toml_error_text(e: &toml::de::Error) -> String {
    e.to_string()
}

/// The value under `key` among a table's entries (the first, keys being
/// unique in a table).
pub open spec fn table_get(entries: Seq<(String, TomlItem)>, key: Seq<char>) -> Option<TomlItem>
    decreases entries.len(),
{
    if entries.len() == 0 {
        None
    } else if entries[0].0@ == key {
        Some(entries[0].1)
    } else {
        table_get(entries.drop_first(), key)
    }
}

/// The string `dir-name` of one profile's value, if it has one.
pub open spec fn profile_dir_name(value: TomlItem) -> Option<Seq<char>> {
    match value {
        TomlItem::Table(fields) => match table_get(fields@, "dir-name"@) {
            Some(TomlItem::Str(d)) => Some(d@),
            _ => None,
        },
        _ => None,
    }
}

/// The (profile, directory name) pairs of the entries of a `profile` table,
/// in order, for the profiles that give a string `dir-name`.
pub open spec fn profile_pairs(profiles: Seq<(String, TomlItem)>) -> Seq<(Seq<char>, Seq<char>)>
    decreases profiles.len(),
{
    if profiles.len() == 0 {
        Seq::empty()
    } else {
        let rest = profile_pairs(profiles.drop_last());
        match profile_dir_name(profiles.last().1) {
            Some(d) => rest.push((profiles.last().0@, d)),
            None => rest,
        }
    }
}

/// The (profile, directory name) pairs of a document: those of its
/// `profile` table; every other key and table is ignored.
pub open spec fn doc_dir_names(doc: TomlItem) -> Seq<(Seq<char>, Seq<char>)> {
    match doc {
        TomlItem::Table(top) => match table_get(top@, "profile"@) {
            Some(TomlItem::Table(profiles)) => profile_pairs(profiles@),
            _ => Seq::empty(),
        },
        _ => Seq::empty(),
    }
}

pub open spec fn pair_views(s: Seq<(String, String)>) -> Seq<(Seq<char>, Seq<char>)> {
    s.map_values(|e: (String, String)| (e.0@, e.1@))
}

/// Looks `key` up among a table's entries.
pub fn table_lookup<'a>(entries: &'a Vec<(String, TomlItem)>, key: &str) -> (r: Option<&'a TomlItem>)
    ensures
        match table_get(entries@, key@) {
            Some(x) => r matches Some(y) && *y == x,
            None => r is None,
        },
{
    let n = entries.len();
    let mut i: usize = 0;
    assert(entries@.subrange(0, n as int) =~= entries@);
    while i < n
        invariant
            n == entries@.len(),
            i <= n,
            table_get(entries@, key@) == table_get(entries@.subrange(i as int, n as int), key@),
        decreases n - i,
    {
        let ghost rest = entries@.subrange(i as int, n as int);
        if same_text(entries[i].0.as_str(), key) {
            assert(rest[0] == entries@[i as int]);
            return Some(&entries[i].1);
        }
        assert(rest.drop_first() =~= entries@.subrange(i + 1, n as int));
        i = i + 1;
    }
    None
}

fn dir_name_of(value: &TomlItem) -> (r: Option<String>)
    ensures
        match profile_dir_name(*value) {
            Some(d) => r matches Some(s) && s@ == d,
            None => r is None,
        },
{
    match value {
        TomlItem::Table(fields) => match table_lookup(fields, "dir-name") {
            Some(TomlItem::Str(d)) => Some(d.clone()),
            _ => None,
        },
        _ => None,
    }
}

/// The (profile, directory name) pairs of a parsed document: every profile
/// table's string `dir-name`, in the order of the `profile` table.
pub fn profile_dir_name_entries(doc: &TomlItem) -> (r: Vec<(String, String)>)
    ensures
        pair_views(r@) == doc_dir_names(*doc),
{
    let mut out: Vec<(String, String)> = Vec::new();
    let top = match doc {
        TomlItem::Table(top) => top,
        _ => {
            assert(pair_views(out@) =~= Seq::empty());
            return out;
        },
    };
    let profiles = match table_lookup(top, "profile") {
        Some(TomlItem::Table(p)) => p,
        _ => {
            assert(pair_views(out@) =~= Seq::empty());
            return out;
        },
    };
    let n = profiles.len();
    let mut i: usize = 0;
    assert(pair_views(out@) =~= profile_pairs(profiles@.subrange(0, 0)));
    while i < n
        invariant
            n == profiles@.len(),
            i <= n,
            pair_views(out@) == profile_pairs(profiles@.subrange(0, i as int)),
        decreases n - i,
    {
        let ghost next = profiles@.subrange(0, i + 1);
        assert(next.drop_last() =~= profiles@.subrange(0, i as int));
        assert(next.last() == profiles@[i as int]);
        if let Some(dir_name) = dir_name_of(&profiles[i].1) {
            let name = profiles[i].0.clone();
            out.push((name, dir_name));
            assert(pair_views(out@) =~= profile_pairs(next));
        }
        i = i + 1;
    }
    assert(profiles@.subrange(0, n as int) =~= profiles@);
    out
}

/// The overrides after applying `entries` in order to `base`.
pub open spec fn apply_entries(
    base: Map<Seq<char>, Seq<char>>,
    entries: Seq<(Seq<char>, Seq<char>)>,
) -> Map<Seq<char>, Seq<char>>
    decreases entries.len(),
{
    if entries.len() == 0 {
        base
    } else {
        apply_entries(base, entries.drop_last()).insert(entries.last().0, entries.last().1)
    }
}

/// Applies (profile, directory name) pairs in order: a later pair replaces
/// what an earlier pair or an earlier file gave.
pub fn apply_profile_entries(overrides: &mut ProfileOverrides, entries: &[(String, String)])
    ensures
        final(overrides)@ == apply_entries(old(overrides)@, pair_views(entries@)),
{
    let n = entries.len();
    let mut i: usize = 0;
    while i < n
        invariant
            n == entries@.len(),
            i <= n,
            overrides@ == apply_entries(old(overrides)@, pair_views(entries@.subrange(0, i as int))),
        decreases n - i,
    {
        assert(pair_views(entries@.subrange(0, i + 1)).drop_last() =~= pair_views(entries@.subrange(0, i as int)));
        overrides.insert(entries[i].0.clone(), entries[i].1.clone());
        i = i + 1;
    }
    assert(entries@.subrange(0, n as int) =~= entries@);
}

/// A configuration file that does not parse as TOML.
pub struct ConfigError {
    pub path: String,
    pub message: String,
}

/// Applies the configuration file at `path`, whose text is `content`, on
/// top of `overrides`.  A file that does not parse fails the whole load and
/// leaves `overrides` as it was.
pub fn apply_config_file(overrides: &mut ProfileOverrides, path: &str, content: &str) -> (r: Result<(), ConfigError>)
    ensures
        r is Ok <==> toml_doc(content@) is Some,
        toml_doc(content@) matches Some(doc) ==> final(overrides)@ == apply_entries(
            old(overrides)@,
            doc_dir_names(doc),
        ),
        r matches Err(e) ==> e.path@ == path@ && final(overrides)@ == old(overrides)@,
{
    match parse_toml(content) {
        Ok(doc) => {
            let entries = profile_dir_name_entries(&doc);
            apply_profile_entries(overrides, entries.as_slice());
            Ok(())
        },
        Err(e) => Err(ConfigError { path: path.to_owned(), message: toml_error_text(&e) }),
    }
}

/// The text of a configuration file that exists.
pub struct ConfigText {
    pub path: String,
    pub content: String,
}

pub open spec fn files_parse(files: Seq<ConfigText>) -> bool {
    forall|i: int| 0 <= i < files.len() ==> (#[trigger] toml_doc(files[i].content@)) is Some
}

/// The (profile, directory name) pairs of a file, none if it does not parse.
pub open spec fn file_dir_names(f: ConfigText) -> Seq<(Seq<char>, Seq<char>)> {
    match toml_doc(f.content@) {
        Some(doc) => doc_dir_names(doc),
        None => Seq::empty(),
    }
}

/// The pairs of all files, file after file in the order given.
pub open spec fn files_dir_names(files: Seq<ConfigText>) -> Seq<(Seq<char>, Seq<char>)>
    decreases files.len(),
{
    if files.len() == 0 {
        Seq::empty()
    } else {
        files_dir_names(files.drop_last()) + file_dir_names(files.last())
    }
}

/// Loads the overrides from the configuration files that exist, given in
/// the order they apply (farthest from the working directory first).  The
/// first file that does not parse fails the load.
pub fn load_overrides(files: &[ConfigText]) -> (r: Result<ProfileOverrides, ConfigError>)
    ensures
        r is Ok <==> files_parse(files@),
        r matches Ok(m) ==> m@ == apply_entries(Map::empty(), files_dir_names(files@)),
        r matches Err(e) ==> exists|i: int|
            0 <= i < files@.len() && e.path@ == files@[i].path@ && toml_doc(
                (#[trigger] files@[i]).content@,
            ) is None,
{
    let mut overrides = ProfileOverrides::new();
    let n = files.len();
    let mut i: usize = 0;
    while i < n
        invariant
            n == files@.len(),
            i <= n,
            files_parse(files@.subrange(0, i as int)),
            overrides@ == apply_entries(Map::empty(), files_dir_names(files@.subrange(0, i as int))),
        decreases n - i,
    {
        let ghost prev = files@.subrange(0, i as int);
        let ghost next = files@.subrange(0, i + 1);
        let ghost before = overrides@;
        assert(next.drop_last() =~= prev);
        assert(next.last() == files@[i as int]);
        match apply_config_file(&mut overrides, files[i].path.as_str(), files[i].content.as_str()) {
            Ok(()) => {},
            Err(e) => {
                return Err(e);
            },
        }
        proof {
            lemma_apply_concat(Map::empty(), files_dir_names(prev), file_dir_names(files@[i as int]));
            assert forall|j: int| 0 <= j < next.len() implies (#[trigger] toml_doc(next[j].content@)) is Some by {
                if j < i {
                    assert(next[j] == prev[j]);
                }
            }
        }
        i = i + 1;
    }
    assert(files@.subrange(0, n as int) =~= files@);
    Ok(overrides)
}

/// Applying two lists of pairs one after the other is applying their
/// concatenation.
pub proof fn lemma_apply_concat(
    base: Map<Seq<char>, Seq<char>>,
    s: Seq<(Seq<char>, Seq<char>)>,
    t: Seq<(Seq<char>, Seq<char>)>,
)
    ensures
        apply_entries(apply_entries(base, s), t) == apply_entries(base, s + t),
    decreases t.len(),
{
    if t.len() > 0 {
        lemma_apply_concat(base, s, t.drop_last());
        assert((s + t).drop_last() =~= s + t.drop_last());
        assert((s + t).last() == t.last());
    } else {
        assert(s + t =~= s);
    }
}

/// A profile's directory name is the one of its last pair.
pub proof fn lemma_last_pair_wins(base: Map<Seq<char>, Seq<char>>, s: Seq<(Seq<char>, Seq<char>)>, k: int)
    requires
        0 <= k < s.len(),
        forall|j: int| k < j < s.len() ==> (#[trigger] s[j]).0 != s[k].0,
    ensures
        apply_entries(base, s).contains_key(s[k].0),
        apply_entries(base, s)[s[k].0] == s[k].1,
    decreases s.len(),
{
    if k < s.len() - 1 {
        assert forall|j: int| k < j < s.drop_last().len() implies (#[trigger] s.drop_last()[j]).0 != s.drop_last()[k].0 by {
            assert(s.drop_last()[j] == s[j]);
        }
        lemma_last_pair_wins(base, s.drop_last(), k);
        assert(s[s.len() - 1].0 != s[k].0);
    }
}

/// A profile that no pair names keeps what `base` gave it.
pub proof fn lemma_unnamed_profile_kept(base: Map<Seq<char>, Seq<char>>, s: Seq<(Seq<char>, Seq<char>)>, p: Seq<char>)
    requires
        forall|j: int| 0 <= j < s.len() ==> (#[trigger] s[j]).0 != p,
    ensures
        apply_entries(base, s).contains_key(p) == base.contains_key(p),
        base.contains_key(p) ==> apply_entries(base, s)[p] == base[p],
    decreases s.len(),
{
    if s.len() > 0 {
        assert forall|j: int| 0 <= j < s.drop_last().len() implies (#[trigger] s.drop_last()[j]).0 != p by {
            assert(s.drop_last()[j] == s[j]);
        }
        lemma_unnamed_profile_kept(base, s.drop_last(), p);
        assert(s[s.len() - 1].0 != p);
    }
}

proof fn lemma_files_dir_names_concat(a: Seq<ConfigText>, b: Seq<ConfigText>)
    ensures
        files_dir_names(a + b) == files_dir_names(a) + files_dir_names(b),
    decreases b.len(),
{
    if b.len() == 0 {
        assert(a + b =~= a);
        assert(files_dir_names(a) + files_dir_names(b) =~= files_dir_names(a));
    } else {
        lemma_files_dir_names_concat(a, b.drop_last());
        assert((a + b).drop_last() =~= a + b.drop_last());
        assert((a + b).last() == b.last());
        assert(files_dir_names(a + b) =~= files_dir_names(a) + files_dir_names(b));
    }
}

/// Across the files of a load, a profile takes the directory name of its
/// last pair in the nearest file that names it: file `i` names `p` in its
/// pair `k` and in no later pair, and no later file names `p`.
pub proof fn lemma_nearest_file_wins(files: Seq<ConfigText>, i: int, k: int)
    requires
        0 <= i < files.len(),
        0 <= k < file_dir_names(files[i]).len(),
        forall|j: int| k < j < file_dir_names(files[i]).len() ==> (#[trigger] file_dir_names(files[i])[j]).0 != file_dir_names(files[i])[k].0,
        forall|f: int, j: int| i < f < files.len() && 0 <= j < file_dir_names(files[f]).len() ==> (#[trigger] file_dir_names(files[f])[j]).0 != file_dir_names(files[i])[k].0,
    ensures
        ({
            let m = apply_entries(Map::empty(), files_dir_names(files));
            let pair = file_dir_names(files[i])[k];
            m.contains_key(pair.0) && m[pair.0] == pair.1
        }),
{
    let pair = file_dir_names(files[i])[k];
    let head = files.subrange(0, i + 1);
    let tail = files.subrange(i + 1, files.len() as int);
    assert(files =~= head + tail);
    lemma_files_dir_names_concat(head, tail);
    assert(head.drop_last() =~= files.subrange(0, i));
    assert(head.last() == files[i]);
    let before = files_dir_names(files.subrange(0, i));
    let x = files_dir_names(head);
    assert(x == before + file_dir_names(files[i]));
    assert(x[before.len() + k] == pair);
    assert forall|j: int| before.len() + k < j < x.len() implies (#[trigger] x[j]).0 != pair.0 by {
        assert(x[j] == file_dir_names(files[i])[j - before.len()]);
    }
    lemma_last_pair_wins(Map::empty(), x, before.len() + k);
    lemma_tail_lacks(tail, pair.0, files, i);
    lemma_unnamed_profile_kept(apply_entries(Map::empty(), x), files_dir_names(tail), pair.0);
    lemma_apply_concat(Map::empty(), x, files_dir_names(tail));
}

proof fn lemma_tail_lacks(tail: Seq<ConfigText>, p: Seq<char>, files: Seq<ConfigText>, i: int)
    requires
        0 <= i < files.len(),
        tail == files.subrange(i + 1, files.len() as int),
        forall|f: int, j: int| i < f < files.len() && 0 <= j < file_dir_names(files[f]).len() ==> (#[trigger] file_dir_names(files[f])[j]).0 != p,
    ensures
        forall|j: int| 0 <= j < files_dir_names(tail).len() ==> (#[trigger] files_dir_names(tail)[j]).0 != p,
    decreases tail.len(),
{
    if tail.len() > 0 {
        let shorter = files.subrange(0, files.len() - 1);
        assert(tail.drop_last() =~= shorter.subrange(i + 1, shorter.len() as int));
        if i < shorter.len() {
            assert forall|f: int, j: int| i < f < shorter.len() && 0 <= j < file_dir_names(shorter[f]).len() implies (#[trigger] file_dir_names(shorter[f])[j]).0 != p by {
                assert(shorter[f] == files[f]);
            }
            lemma_tail_lacks(tail.drop_last(), p, shorter, i);
        } else {
            assert(tail.drop_last().len() == 0);
        }
        let last = file_dir_names(tail.last());
        assert(tail.last() == files[files.len() - 1]);
        assert forall|j: int| 0 <= j < files_dir_names(tail).len() implies (#[trigger] files_dir_names(tail)[j]).0 != p by {
            let front = files_dir_names(tail.drop_last());
            if j >= front.len() {
                assert(files_dir_names(tail)[j] == last[j - front.len()]);
            } else {
                assert(files_dir_names(tail)[j] == front[j]);
            }
        }
    }
}

/// The configuration files of one directory, in the order they apply.
pub open spec fn dir_config_files(dir: Seq<char>) -> Seq<Seq<char>> {
    seq![
        join_path(join_path(dir, ".cargo"@), "config"@),
        join_path(join_path(dir, ".cargo"@), "config.toml"@),
    ]
}

/// The candidate configuration files for a working directory whose
/// ancestors, nearest first and the directory itself included, are
/// `ancestors`: the files of the farthest ancestor come first.
pub open spec fn config_files(ancestors: Seq<String>) -> Seq<Seq<char>>
    decreases ancestors.len(),
{
    if ancestors.len() == 0 {
        Seq::empty()
    } else {
        config_files(ancestors.drop_first()) + dir_config_files(ancestors[0]@)
    }
}

pub fn config_file_candidates(ancestors: &[String]) -> (r: Vec<String>)
    ensures
        r@.map_values(|s: String| s@) == config_files(ancestors@),
{
    let mut out: Vec<String> = Vec::new();
    let n = ancestors.len();
    let mut i: usize = n;
    while i > 0
        invariant
            n == ancestors@.len(),
            i <= n,
            out@.map_values(|s: String| s@) == config_files(ancestors@.subrange(i as int, n as int)),
        decreases i,
    {
        i = i - 1;
        let ghost rest = ancestors@.subrange(i + 1, n as int);
        assert(ancestors@.subrange(i as int, n as int).drop_first() =~= rest);
        let cargo_dir = join(ancestors[i].as_str(), ".cargo");
        out.push(join(cargo_dir.as_str(), "config"));
        out.push(join(cargo_dir.as_str(), "config.toml"));
        assert(out@.map_values(|s: String| s@) =~= config_files(ancestors@.subrange(i as int, n as int)));
    }
    assert(ancestors@.subrange(0, n as int) =~= ancestors@);
    out
}

} // verus!
