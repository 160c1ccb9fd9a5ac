//! The decision steps of the secret lifecycle.
//!
//! Each operation (decrypt, save, create, delete) is a short sequence of
//! steps around external work: filesystem reads and writes, an external
//! encryption tool, an external expression evaluator. The decisions between
//! those steps are verified here; the caller performs the external work and
//! hands the outcomes back in as plain values. The create operation is
//! transactional: the manifest is edited before recipients can be resolved,
//! so every later failure orders the pre-edit snapshot restored.

use vstd::prelude::*;

use crate::SecretError;
use crate::manifest::ParsedSecrets;

verus! {

/// The shared state an application holds across operations: the open
/// project, the selected identity, and the cached parse of the manifest.
pub struct AppState {
    /// Root directory of the currently open project, if any.
    pub project_dir: Option<String>,
    /// Path of the configured identity file, if any.
    pub identity_path: Option<String>,
    /// Cache of the last successful manifest parse, if any.
    pub parsed_secrets: Option<ParsedSecrets>,
}

impl Default for AppState {
    /// A state with no project open, no identity configured and no cache.
    fn default() -> (r: AppState)
        ensures
            r.project_dir is None,
            r.identity_path is None,
            r.parsed_secrets is None,
    {
        AppState { project_dir: None, identity_path: None, parsed_secrets: None }
    }
}

/// A character the group-name identifier policy accepts: an ASCII letter,
/// an ASCII digit, or an underscore. The policy is deliberately ASCII:
/// these names are embedded verbatim in the manifest text, and a plain
/// character set keeps the policy exact and checkable.
pub open spec fn is_word_char(c: char) -> bool {
    ('a' <= c && c <= 'z') || ('A' <= c && c <= 'Z') || ('0' <= c && c <= '9') || c == '_'
}

/// The identifier policy for group names: non-empty, every character a
/// letter, digit or underscore.
pub open spec fn valid_group_name(s: Seq<char>) -> bool {
    s.len() > 0 && forall|i: int| 0 <= i < s.len() ==> is_word_char(s[i])
}

/// Whether `name` passes the group-name identifier policy.
pub fn is_valid_group_name(name: &str) -> (r: bool)
    ensures
        r == valid_group_name(name@),
{
    let n = name.unicode_len();
    if n == 0 {
        return false;
    }
    let mut i: usize = 0;
    while i < n
        invariant
            n == name@.len(),
            0 <= i <= n,
            forall|j: int| 0 <= j < i ==> is_word_char(name@[j]),
        decreases n - i,
    {
        let c = name.get_char(i);
        if !(('a' <= c && c <= 'z') || ('A' <= c && c <= 'Z') || ('0' <= c && c <= '9') || c
            == '_') {
            assert(!is_word_char(name@[i as int]));
            return false;
        }
        i = i + 1;
    }
    true
}

/// Index of the first name in `gs` failing the identifier policy, from `i`.
pub open spec fn first_invalid_index(gs: Seq<Seq<char>>, i: int) -> Option<int>
    decreases gs.len() - i,
{
    if i < 0 || i >= gs.len() {
        None
    } else if !valid_group_name(gs[i]) {
        Some(i)
    } else {
        first_invalid_index(gs, i + 1)
    }
}

/// Check every supplied group name against the identifier policy, before
/// any mutation; the error names the first offender.
pub fn validate_group_names(groups: &Vec<String>) -> (r: Result<(), SecretError>)
    ensures
        match r {
            Ok(_) => first_invalid_index(groups.deep_view(), 0) is None,
            Err(e) => first_invalid_index(groups.deep_view(), 0) matches Some(k) && (
            e matches SecretError::InvalidGroupName(g) && g@ == groups.deep_view()[k]),
        },
{
    let ghost gs = groups.deep_view();
    let n = groups.len();
    let mut i: usize = 0;
    while i < n
        invariant
            gs == groups.deep_view(),
            n == groups.len(),
            0 <= i <= n,
            first_invalid_index(gs, 0) == first_invalid_index(gs, i as int),
        decreases n - i,
    {
        if !is_valid_group_name(groups[i].as_str()) {
            return Err(SecretError::InvalidGroupName(groups[i].clone()));
        }
        i = i + 1;
    }
    Ok(())
}

/// The policy failing on some name implies the policy failing on the list.
pub proof fn lemma_first_invalid_some(gs: Seq<Seq<char>>, i: int)
    requires
        0 <= i,
    ensures
        match first_invalid_index(gs, i) {
            Some(k) => i <= k < gs.len() && !valid_group_name(gs[k]) && forall|j: int|
                i <= j < k ==> valid_group_name(gs[j]),
            None => forall|j: int| i <= j < gs.len() ==> valid_group_name(gs[j]),
        },
    decreases gs.len() - i,
{
    if 0 <= i < gs.len() && valid_group_name(gs[i]) {
        lemma_first_invalid_some(gs, i + 1);
    }
}

/// Gate for a decrypt operation: it needs an open project and a configured
/// identity, in that order of complaint.
pub fn begin_decrypt(state: &AppState) -> (r: Result<(String, String), SecretError>)
    ensures
        match r {
            Ok(p) => (state.project_dir matches Some(d) && p.0@ == d@) && (
            state.identity_path matches Some(ident) && p.1@ == ident@),
            Err(e) => (state.project_dir is None && e == SecretError::NoProjectOpen) || (
            state.project_dir is Some && state.identity_path is None && e
                == SecretError::NoIdentityConfigured),
        },
{
    let dir = match &state.project_dir {
        Some(d) => d.clone(),
        None => {
            return Err(SecretError::NoProjectOpen);
        },
    };
    let ident = match &state.identity_path {
        Some(p) => p.clone(),
        None => {
            return Err(SecretError::NoIdentityConfigured);
        },
    };
    Ok((dir, ident))
}

/// Gate for an operation that only needs an open project: save, create and
/// delete.
pub fn require_project(state: &AppState) -> (r: Result<String, SecretError>)
    ensures
        match r {
            Ok(d) => state.project_dir matches Some(p) && d@ == p@,
            Err(e) => state.project_dir is None && e == SecretError::NoProjectOpen,
        },
{
    match &state.project_dir {
        Some(d) => Ok(d.clone()),
        None => Err(SecretError::NoProjectOpen),
    }
}

/// What a create operation does after recipient resolution was attempted.
pub enum ResolutionStep {
    /// Resolution succeeded: keep the edited manifest and encrypt for these
    /// recipients.
    Proceed { manifest: String, recipients: Vec<String> },
    /// Resolution failed: write `restore` back over the manifest file and
    /// surface the error.
    Rollback { restore: String, error: SecretError },
}

/// What a create operation does after encryption was attempted.
pub enum EncryptionStep {
    /// Encryption succeeded: the edited manifest text becomes the new cache
    /// source.
    Commit { manifest: String },
    /// Encryption failed: write `restore` back over the manifest file and
    /// surface the error.
    Rollback { restore: String, error: SecretError },
}

/// Decide the create operation's next step once recipient resolution has
/// come back. A failure orders the manifest restored to the byte-identical
/// pre-edit snapshot `original`.
pub fn create_after_resolution(
    original: &str,
    updated: &str,
    outcome: Result<Vec<String>, SecretError>,
) -> (r: ResolutionStep)
    ensures
        match outcome {
            Ok(ks) => r matches ResolutionStep::Proceed { manifest, recipients } && manifest@
                == updated@ && recipients.deep_view() == ks.deep_view(),
            Err(e) => r matches ResolutionStep::Rollback { restore, error } && restore@
                == original@ && error == e,
        },
{
    match outcome {
        Ok(ks) => ResolutionStep::Proceed { manifest: updated.to_owned(), recipients: ks },
        Err(e) => ResolutionStep::Rollback { restore: original.to_owned(), error: e },
    }
}

/// Decide the create operation's final step once encryption has come back.
/// A failure orders the manifest restored to the byte-identical pre-edit
/// snapshot `original`; only success commits the edited text to the cache.
pub fn create_after_encryption(
    original: &str,
    updated: &str,
    outcome: Result<(), SecretError>,
) -> (r: EncryptionStep)
    ensures
        match outcome {
            Ok(_) => r matches EncryptionStep::Commit { manifest } && manifest@ == updated@,
            Err(e) => r matches EncryptionStep::Rollback { restore, error } && restore@
                == original@ && error == e,
        },
{
    match outcome {
        Ok(_) => EncryptionStep::Commit { manifest: updated.to_owned() },
        Err(e) => EncryptionStep::Rollback { restore: original.to_owned(), error: e },
    }
}

/// A character the evaluator-injection allowlist accepts for secret paths:
/// an ASCII letter or digit, or one of `.` `_` `/` `-`. The allowlist is
/// deliberately ASCII: the path is embedded verbatim in the expression
/// handed to the external evaluator, and a plain character set keeps the
/// injection guard exact.
pub open spec fn safe_path_char(c: char) -> bool {
    ('a' <= c && c <= 'z') || ('A' <= c && c <= 'Z') || ('0' <= c && c <= '9') || c == '.'
        || c == '_' || c == '/' || c == '-'
}

/// The whole path passes the allowlist.
pub open spec fn safe_secret_path(s: Seq<char>) -> bool {
    forall|i: int| 0 <= i < s.len() ==> safe_path_char(s[i])
}

/// Whether every character of `path` passes the evaluator-injection
/// allowlist.
pub fn is_safe_secret_path(path: &str) -> (r: bool)
    ensures
        r == safe_secret_path(path@),
{
    let n = path.unicode_len();
    let mut i: usize = 0;
    while i < n
        invariant
            n == path@.len(),
            0 <= i <= n,
            forall|j: int| 0 <= j < i ==> safe_path_char(path@[j]),
        decreases n - i,
    {
        let c = path.get_char(i);
        if !(('a' <= c && c <= 'z') || ('A' <= c && c <= 'Z') || ('0' <= c && c <= '9') || c
            == '.' || c == '_' || c == '/' || c == '-') {
            assert(!safe_path_char(path@[i as int]));
            return false;
        }
        i = i + 1;
    }
    true
}

/// The expression handed to the external evaluator to resolve the public
/// keys of one secret: it imports the project's rules file and indexes the
/// resulting attribute set by the secret's quoted path.
pub open spec fn eval_expression(root: Seq<char>, path: Seq<char>) -> Seq<char> {
    seq!['(', 'i', 'm', 'p', 'o', 'r', 't', ' '] + root + seq![
        '/',
        's',
        'e',
        'c',
        'r',
        'e',
        't',
        's',
        '.',
        'n',
        'i',
        'x',
        ')',
        '.',
        '"',
    ] + path + seq!['"', '.', 'p', 'u', 'b', 'l', 'i', 'c', 'K', 'e', 'y', 's']
}

/// Build the evaluator expression for a secret path, after checking the
/// path against the injection allowlist.
pub fn build_eval_expression(project_dir: &str, secret_path: &str) -> (r: Result<
    String,
    SecretError,
>)
    ensures
        match r {
            Ok(s) => safe_secret_path(secret_path@) && s@ == eval_expression(
                project_dir@,
                secret_path@,
            ),
            Err(e) => !safe_secret_path(secret_path@) && e == SecretError::InvalidPath,
        },
{
    if !is_safe_secret_path(secret_path) {
        return Err(SecretError::InvalidPath);
    }
    let mut out = String::new();
    out.append("(import ");
    out.append(project_dir);
    out.append("/secrets.nix).\"");
    out.append(secret_path);
    out.append("\".publicKeys");
    proof {
        reveal_strlit("(import ");
        reveal_strlit("/secrets.nix).\"");
        reveal_strlit("\".publicKeys");
        assert("(import "@ =~= seq!['(', 'i', 'm', 'p', 'o', 'r', 't', ' ']);
        assert("/secrets.nix).\""@ =~= seq![
            '/',
            's',
            'e',
            'c',
            'r',
            'e',
            't',
            's',
            '.',
            'n',
            'i',
            'x',
            ')',
            '.',
            '"',
        ]);
        assert("\".publicKeys"@ =~= seq![
            '"',
            '.',
            'p',
            'u',
            'b',
            'l',
            'i',
            'c',
            'K',
            'e',
            'y',
            's',
        ]);
        assert(out@ =~= eval_expression(project_dir@, secret_path@));
    }
    Ok(out)
}

/// The list of strings denoted by a JSON document, if the document is an
/// array of strings; what the deserializer accepts and how escapes decode
/// is fixed by the document text alone.
pub uninterp spec fn json_string_list(s: Seq<char>) -> Option<Seq<Seq<char>>>;

/// Relies on serde_json::from_str with target type `Vec<String>`: the
/// result is a function of the document text alone; `Ok` is returned
/// exactly when the text is a JSON array of strings.
#[verifier::external_body]
fn json_parse_string_list(s: &str) -> (r: Option<Vec<String>>)
    ensures
        match r {
            Some(v) => json_string_list(s@) == Some(v.deep_view()),
            None => json_string_list(s@) is None,
        },
{
    serde_json::from_str::<Vec<String>>(s).ok()
}

/// Parse the evaluator's output as an ordered list of recipient keys.
///
/// Fails with `EvaluationParseFailure`, carrying the raw output, exactly
/// when the output is not a JSON array of strings.
pub fn parse_recipient_list(output: &str) -> (r: Result<Vec<String>, SecretError>)
    ensures
        match r {
            Ok(v) => json_string_list(output@) == Some(v.deep_view()),
            Err(e) => json_string_list(output@) is None && (
            e matches SecretError::EvaluationParseFailure(raw) && raw@ == output@),
        },
{
    match json_parse_string_list(output) {
        Some(v) => Ok(v),
        None => Err(SecretError::EvaluationParseFailure(output.to_owned())),
    }
}

} // verus!
