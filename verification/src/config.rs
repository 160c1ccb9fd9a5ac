//! The application's persisted key/value configuration, as plain entries.
//!
//! The caller reads and writes the small on-disk file; the lookup and
//! update logic on the loaded entries is verified here. A well-formed
//! configuration has unique keys; updates preserve that, replace in place,
//! and keep the order of entries.

use vstd::prelude::*;

verus! {

/// The loaded configuration: key/value pairs in file order.
pub struct AppConfig {
    /// The entries, each a key and its value.
    pub entries: Vec<(String, String)>,
}

impl Default for AppConfig {
    /// A configuration with no entries.
    fn default() -> (r: AppConfig)
        ensures
            r.entries@.len() == 0,
    {
        AppConfig { entries: Vec::new() }
    }
}

/// Index of the first entry bound to `key`, from position `i` on.
pub open spec fn find_key_index(entries: Seq<(String, String)>, key: Seq<char>, i: int) -> Option<
    int,
>
    decreases entries.len() - i,
{
    if i < 0 || i >= entries.len() {
        None
    } else if entries[i].0@ == key {
        Some(i)
    } else {
        find_key_index(entries, key, i + 1)
    }
}

/// The value bound to `key`, first binding wins.
pub open spec fn lookup_spec(entries: Seq<(String, String)>, key: Seq<char>) -> Option<Seq<char>> {
    match find_key_index(entries, key, 0) {
        Some(i) => Some(entries[i].1@),
        None => None,
    }
}

/// Keys are unique.
pub open spec fn config_wf(entries: Seq<(String, String)>) -> bool {
    forall|i: int, j: int| 0 <= i < j < entries.len() ==> entries[i].0@ != entries[j].0@
}

/// Look up the value stored under `key`, if any; the first binding wins.
pub fn load_config_value(config: &AppConfig, key: &str) -> (r: Option<String>)
    ensures
        match r {
            Some(v) => lookup_spec(config.entries@, key@) == Some(v@),
            None => lookup_spec(config.entries@, key@) is None,
        },
{
    let ghost es = config.entries@;
    let n = config.entries.len();
    let mut i: usize = 0;
    while i < n
        invariant
            es == config.entries@,
            n == es.len(),
            0 <= i <= n,
            find_key_index(es, key@, 0) == find_key_index(es, key@, i as int),
        decreases n - i,
    {
        if crate::text::str_eq(config.entries[i].0.as_str(), key) {
            return Some(config.entries[i].1.clone());
        }
        i = i + 1;
    }
    None
}

/// Bind `key` to `value`: replace the first entry holding `key` in place,
/// or append a new entry. Every other entry, and the order of entries, is
/// untouched, and unique keys stay unique.
pub fn save_config_value(config: &mut AppConfig, key: &str, value: &str)
    ensures
        match find_key_index(old(config).entries@, key@, 0) {
            Some(i) => {
                &&& final(config).entries@.len() == old(config).entries@.len()
                &&& final(config).entries@[i].0@ == key@
                &&& final(config).entries@[i].1@ == value@
                &&& forall|j: int|
                    0 <= j < final(config).entries@.len() && j != i ==> final(config).entries@[j] == old(
                        config,
                    ).entries@[j]
            },
            None => {
                &&& final(config).entries@.len() == old(config).entries@.len() + 1
                &&& final(config).entries@[old(config).entries@.len() as int].0@ == key@
                &&& final(config).entries@[old(config).entries@.len() as int].1@ == value@
                &&& forall|j: int|
                    0 <= j < old(config).entries@.len() ==> final(config).entries@[j] == old(
                        config,
                    ).entries@[j]
            },
        },
        lookup_spec(final(config).entries@, key@) == Some(value@),
        config_wf(old(config).entries@) ==> config_wf(final(config).entries@),
{
    let ghost es = config.entries@;
    let n = config.entries.len();
    let mut i: usize = 0;
    while i < n
        invariant
            es == config.entries@,
            config.entries@ == old(config).entries@,
            n == es.len(),
            0 <= i <= n,
            find_key_index(es, key@, 0) == find_key_index(es, key@, i as int),
        decreases n - i,
    {
        if crate::text::str_eq(config.entries[i].0.as_str(), key) {
            let pair = (key.to_owned(), value.to_owned());
            config.entries.set(i, pair);
            proof {
                lemma_find_key_props(old(config).entries@, key@, 0);
                lemma_find_key_view(old(config).entries@, config.entries@, key@, 0);
                lemma_find_key_props(config.entries@, key@, 0);
            }
            return ;
        }
        i = i + 1;
    }
    let pair = (key.to_owned(), value.to_owned());
    config.entries.push(pair);
    proof {
        lemma_find_key_props(old(config).entries@, key@, 0);
        lemma_find_key_view(old(config).entries@, config.entries@, key@, 0);
        lemma_find_key_props(config.entries@, key@, 0);
    }
}

/// What `find_key_index` returns is the first binding at or after `i`.
pub proof fn lemma_find_key_props(entries: Seq<(String, String)>, key: Seq<char>, i: int)
    requires
        0 <= i,
    ensures
        match find_key_index(entries, key, i) {
            Some(k) => i <= k < entries.len() && entries[k].0@ == key && forall|j: int|
                i <= j < k ==> entries[j].0@ != key,
            None => forall|j: int| i <= j < entries.len() ==> entries[j].0@ != key,
        },
    decreases entries.len() - i,
{
    if 0 <= i < entries.len() && entries[i].0@ != key {
        lemma_find_key_props(entries, key, i + 1);
    }
}

/// Two entry sequences whose keys agree position by position are searched
/// identically.
proof fn lemma_find_key_view(
    a: Seq<(String, String)>,
    b: Seq<(String, String)>,
    key: Seq<char>,
    i: int,
)
    requires
        a.len() <= b.len(),
        forall|j: int| 0 <= j < a.len() ==> a[j].0@ == b[j].0@,
        forall|j: int| a.len() <= j < b.len() ==> b[j].0@ == key,
    ensures
        match find_key_index(a, key, i) {
            Some(k) => find_key_index(b, key, i) == Some(k),
            None => i >= 0 ==> match find_key_index(b, key, i) {
                Some(m) => a.len() <= m < b.len(),
                None => i >= a.len() || a.len() == b.len(),
            },
        },
    decreases b.len() - i,
{
    if i < 0 {
    } else if i >= b.len() {
    } else if i >= a.len() {
        lemma_find_key_props(b, key, i);
    } else if a[i].0@ == key {
    } else {
        lemma_find_key_view(a, b, key, i + 1);
    }
}

} // verus!
