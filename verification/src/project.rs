//! Assembly of the project overview shown when a project is opened, and
//! classification of identity files.
//!
//! The caller scans the project directory for encrypted files and parses
//! the manifest; pairing each found file with its manifest groups is
//! verified here.

use vstd::prelude::*;

use crate::manifest::{ParsedSecrets, SecretEntryView};
use crate::text::{contains_spec, contains_str};

verus! {

/// One encrypted file found in the project, with the groups its manifest
/// entry references.
pub struct SecretFileInfo {
    /// The file's path, relative to the project root.
    pub path: String,
    /// The group references of its manifest entry; empty when the manifest
    /// has no entry for it.
    pub groups: Vec<String>,
}

/// The mathematical value of a `SecretFileInfo`.
pub struct SecretFileInfoView {
    pub path: Seq<char>,
    pub groups: Seq<Seq<char>>,
}

impl View for SecretFileInfo {
    type V = SecretFileInfoView;

    open spec fn view(&self) -> SecretFileInfoView {
        SecretFileInfoView { path: self.path@, groups: self.groups.deep_view() }
    }
}

impl DeepView for SecretFileInfo {
    type V = SecretFileInfoView;

    open spec fn deep_view(&self) -> SecretFileInfoView {
        self.view()
    }
}

/// The overview of an opened project.
pub struct ProjectInfo {
    /// The project's root directory.
    pub path: String,
    /// The encrypted files found, in scan order.
    pub secrets: Vec<SecretFileInfo>,
    /// The names of the manifest's recipient groups, in manifest order.
    pub groups: Vec<String>,
}

/// An identity file the application can offer for decryption.
pub struct IdentityInfo {
    /// Where the identity file lives.
    pub path: String,
    /// The kind of key it holds.
    pub key_type: String,
}

/// The first manifest entry bound to `path`, from position `i` on.
pub open spec fn find_entry(entries: Seq<SecretEntryView>, path: Seq<char>, i: int) -> Option<
    SecretEntryView,
>
    decreases entries.len() - i,
{
    if i < 0 || i >= entries.len() {
        None
    } else if entries[i].path == path {
        Some(entries[i])
    } else {
        find_entry(entries, path, i + 1)
    }
}

/// The groups an overview row shows for a file: those of its first
/// manifest entry, or none.
pub open spec fn groups_for_file(entries: Seq<SecretEntryView>, path: Seq<char>) -> Seq<
    Seq<char>,
> {
    match find_entry(entries, path, 0) {
        Some(e) => e.groups,
        None => Seq::empty(),
    }
}

/// The groups of the first manifest entry bound to `path`, or an empty
/// list when the manifest has no entry for it.
fn lookup_groups(parsed: &ParsedSecrets, path: &str) -> (r: Vec<String>)
    ensures
        r.deep_view() == groups_for_file(parsed.secrets.deep_view(), path@),
{
    let ghost es = parsed.secrets.deep_view();
    let n = parsed.secrets.len();
    let mut i: usize = 0;
    while i < n
        invariant
            es == parsed.secrets.deep_view(),
            n == es.len(),
            0 <= i <= n,
            find_entry(es, path@, 0) == find_entry(es, path@, i as int),
        decreases n - i,
    {
        if crate::text::str_eq(parsed.secrets[i].path.as_str(), path) {
            let r = parsed.secrets[i].groups.clone();
            proof {
                lemma_vec_string_clone_deep_view(&parsed.secrets[i as int].groups, &r);
            }
            return r;
        }
        i = i + 1;
    }
    let r: Vec<String> = Vec::new();
    proof {
        assert(r.deep_view() =~= Seq::<Seq<char>>::empty());
    }
    r
}

/// A clone of a vector of strings holds the same character sequences.
proof fn lemma_vec_string_clone_deep_view(a: &Vec<String>, b: &Vec<String>)
    requires
        a@ == b@,
    ensures
        a.deep_view() == b.deep_view(),
{
    assert(a.deep_view() =~= b.deep_view());
}

/// Assemble the overview of an opened project: one row per encrypted file
/// found, in scan order, each paired with the groups of its manifest
/// entry; and the manifest's group names, in manifest order.
pub fn build_project_info(dir: &str, age_files: &Vec<String>, parsed: &ParsedSecrets) -> (r:
    ProjectInfo)
    ensures
        r.path@ == dir@,
        r.secrets.deep_view().len() == age_files.deep_view().len(),
        forall|i: int|
            0 <= i < age_files.deep_view().len() ==> {
                &&& r.secrets.deep_view()[i].path == age_files.deep_view()[i]
                &&& r.secrets.deep_view()[i].groups == groups_for_file(
                    parsed.secrets.deep_view(),
                    age_files.deep_view()[i],
                )
            },
        r.groups.deep_view().len() == parsed.groups.deep_view().len(),
        forall|i: int|
            0 <= i < parsed.groups.deep_view().len() ==> r.groups.deep_view()[i]
                == parsed.groups.deep_view()[i].name,
{
    let n = age_files.len();
    let mut secrets: Vec<SecretFileInfo> = Vec::new();
    let mut i: usize = 0;
    while i < n
        invariant
            n == age_files.len(),
            0 <= i <= n,
            secrets.deep_view().len() == i as int,
            forall|j: int|
                0 <= j < i ==> {
                    &&& secrets.deep_view()[j].path == age_files.deep_view()[j]
                    &&& secrets.deep_view()[j].groups == groups_for_file(
                        parsed.secrets.deep_view(),
                        age_files.deep_view()[j],
                    )
                },
        decreases n - i,
    {
        let path = age_files[i].clone();
        let groups = lookup_groups(parsed, path.as_str());
        let ghost old_dv = secrets.deep_view();
        let ghost item = SecretFileInfoView { path: path@, groups: groups.deep_view() };
        secrets.push(SecretFileInfo { path, groups });
        proof {
            assert(secrets.deep_view() =~= old_dv.push(item));
        }
        i = i + 1;
    }
    let gn = parsed.groups.len();
    let mut group_names: Vec<String> = Vec::new();
    let mut k: usize = 0;
    while k < gn
        invariant
            gn == parsed.groups.len(),
            0 <= k <= gn,
            group_names.deep_view().len() == k as int,
            forall|j: int|
                0 <= j < k ==> group_names.deep_view()[j] == parsed.groups.deep_view()[j].name,
        decreases gn - k,
    {
        let name = parsed.groups[k].name.clone();
        let ghost old_dv = group_names.deep_view();
        let ghost nv = name@;
        group_names.push(name);
        proof {
            assert(group_names.deep_view() =~= old_dv.push(nv));
        }
        k = k + 1;
    }
    ProjectInfo { path: dir.to_owned(), secrets, groups: group_names }
}

/// The key type shown for an identity file found under a name: names
/// mentioning `ed25519` are Ed25519 SSH keys, other SSH key files RSA.
pub fn identity_key_type(file_name: &str) -> (r: String)
    ensures
        contains_spec(file_name@, "ed25519"@) ==> r@ == "ssh-ed25519"@,
        !contains_spec(file_name@, "ed25519"@) ==> r@ == "ssh-rsa"@,
{
    if contains_str(file_name, "ed25519") {
        let r = "ssh-ed25519".to_owned();
        r
    } else {
        let r = "ssh-rsa".to_owned();
        r
    }
}

} // verus!
