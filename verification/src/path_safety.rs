//! Validation that a user-supplied relative path cannot escape the project
//! root.
//!
//! The decision works on plain values: the caller probes the filesystem
//! (does the target exist, what are the canonical forms) and hands the
//! observations in as an `FsProbe`; the containment rule itself is verified.
//! Containment is judged component-wise, the way `Path::starts_with` judges
//! it: `/a/bc` is not under `/a/b`.

use vstd::prelude::*;

use crate::SecretError;
use crate::text::{contains_spec, contains_str, split_char_spec, split_on_char, str_eq};

verus! {

/// What the caller observed on the filesystem about the target path before
/// asking for a resolution.
pub enum FsProbe {
    /// The target exists; both it and the project root canonicalized.
    TargetExists { canonical_target: String, canonical_root: String },
    /// The target is new but its parent exists; the parent and the project
    /// root canonicalized.
    ParentExists { canonical_parent: String, canonical_root: String },
    /// The target is new and its parent does not exist yet.
    ParentMissing,
    /// The target is new and the resolved path has no parent at all.
    NoParent,
    /// Canonicalizing the target, its parent or the project root failed.
    CanonicalizationFailed,
}

/// The non-empty components of a path: the pieces between slashes.
pub open spec fn path_components(p: Seq<char>) -> Seq<Seq<char>> {
    nonempty_pieces(split_char_spec(p, '/'))
}

/// The pieces of a split with empty pieces discarded.
pub open spec fn nonempty_pieces(parts: Seq<Seq<char>>) -> Seq<Seq<char>>
    decreases parts.len(),
{
    if parts.len() == 0 {
        Seq::empty()
    } else {
        let rest = nonempty_pieces(parts.drop_first());
        if parts.first().len() > 0 {
            seq![parts.first()] + rest
        } else {
            rest
        }
    }
}

/// `target` lies at or below `root`: the components of `root` are a prefix
/// of the components of `target`.
pub open spec fn within_root(target: Seq<char>, root: Seq<char>) -> bool {
    path_components(root).is_prefix_of(path_components(target))
}

/// The textual parent-directory reference that is rejected in paths whose
/// containment cannot be checked on disk yet.
pub open spec fn parent_ref() -> Seq<char> {
    seq!['.', '.']
}

/// The path at which a relative path is expected to land under a root,
/// before any canonicalization.
pub open spec fn joined_path(root: Seq<char>, rel: Seq<char>) -> Seq<char> {
    if rel.len() > 0 && rel[0] == '/' {
        rel
    } else {
        root + seq!['/'] + rel
    }
}

/// The resolution decision for a relative path under a project root, given
/// the filesystem observations:
/// an existing target must canonicalize to a path contained in the
/// canonical root; a new target's existing parent must be contained in the
/// canonical root, and a new target's textual form must not contain a
/// parent-directory reference; a failed canonicalization or a missing
/// parent is an invalid path.
pub open spec fn resolve_spec(root: Seq<char>, rel: Seq<char>, probe: FsProbe) -> Result<
    Seq<char>,
    SecretError,
> {
    match probe {
        FsProbe::TargetExists { canonical_target, canonical_root } => {
            if within_root(canonical_target@, canonical_root@) {
                Ok(canonical_target@)
            } else {
                Err(SecretError::PathTraversal)
            }
        },
        FsProbe::ParentExists { canonical_parent, canonical_root } => {
            if !within_root(canonical_parent@, canonical_root@) {
                Err(SecretError::PathTraversal)
            } else if contains_spec(rel, parent_ref()) {
                Err(SecretError::PathTraversal)
            } else {
                Ok(joined_path(root, rel))
            }
        },
        FsProbe::ParentMissing => {
            if contains_spec(rel, parent_ref()) {
                Err(SecretError::PathTraversal)
            } else {
                Ok(joined_path(root, rel))
            }
        },
        FsProbe::NoParent => Err(SecretError::InvalidPath),
        FsProbe::CanonicalizationFailed => Err(SecretError::InvalidPath),
    }
}

/// A path that is not yet checkable on disk and textually refers to a
/// parent directory is always rejected as traversal, whatever the root.
pub proof fn lemma_parent_reference_rejected(root: Seq<char>, rel: Seq<char>, probe: FsProbe)
    requires
        contains_spec(rel, parent_ref()),
        probe matches FsProbe::ParentExists { .. } || probe is ParentMissing,
    ensures
        resolve_spec(root, rel, probe) == Err::<Seq<char>, SecretError>(
            SecretError::PathTraversal,
        ),
{
}

/// A new path whose existing parent canonicalizes under the canonical root,
/// and which makes no parent-directory reference, is always accepted, and
/// resolves under the root it was given.
pub proof fn lemma_contained_new_path_accepted(
    root: Seq<char>,
    rel: Seq<char>,
    canonical_parent: String,
    canonical_root: String,
)
    requires
        !contains_spec(rel, parent_ref()),
        within_root(canonical_parent@, canonical_root@),
    ensures
        resolve_spec(
            root,
            rel,
            FsProbe::ParentExists { canonical_parent, canonical_root },
        ) == Ok::<Seq<char>, SecretError>(joined_path(root, rel)),
{
}

/// The non-empty slash-separated components of `p`.
fn components_of(p: &str) -> (r: Vec<String>)
    ensures
        r.deep_view() == path_components(p@),
{
    let parts = split_on_char(p, '/');
    let ghost pv = parts.deep_view();
    let n = parts.len();
    let mut out: Vec<String> = Vec::new();
    let mut i: usize = 0;
    proof {
        assert(out.deep_view() =~= Seq::<Seq<char>>::empty());
        assert(pv.skip(0) =~= pv);
        assert(out.deep_view() + nonempty_pieces(pv) =~= nonempty_pieces(pv));
    }
    while i < n
        invariant
            pv == parts.deep_view(),
            n == parts.len(),
            0 <= i <= n,
            nonempty_pieces(pv) == out.deep_view() + nonempty_pieces(pv.skip(i as int)),
        decreases n - i,
    {
        proof {
            assert(pv.skip(i as int).first() == pv[i as int]);
            assert(pv.skip(i as int).drop_first() =~= pv.skip(i + 1));
        }
        if parts[i].as_str().unicode_len() > 0 {
            let ghost old_dv = out.deep_view();
            let piece = parts[i].clone();
            out.push(piece);
            proof {
                assert(out.deep_view() =~= old_dv.push(pv[i as int]));
                assert(old_dv + nonempty_pieces(pv.skip(i as int)) =~= out.deep_view()
                    + nonempty_pieces(pv.skip(i + 1)));
            }
        }
        i = i + 1;
    }
    proof {
        assert(nonempty_pieces(pv.skip(n as int)) =~= Seq::<Seq<char>>::empty());
        assert(out.deep_view() + nonempty_pieces(pv.skip(n as int)) =~= out.deep_view());
    }
    out
}

/// Whether `target` lies at or below `root`, component-wise.
pub fn path_within(target: &str, root: &str) -> (r: bool)
    ensures
        r == within_root(target@, root@),
{
    let tc = components_of(target);
    let rc = components_of(root);
    let tn = tc.len();
    let rn = rc.len();
    if rn > tn {
        assert(!path_components(root@).is_prefix_of(path_components(target@)));
        return false;
    }
    let mut i: usize = 0;
    while i < rn
        invariant
            tc.deep_view() == path_components(target@),
            rc.deep_view() == path_components(root@),
            tn == tc.len(),
            rn == rc.len(),
            rn <= tn,
            0 <= i <= rn,
            forall|j: int| 0 <= j < i ==> rc.deep_view()[j] == tc.deep_view()[j],
        decreases rn - i,
    {
        if !str_eq(rc[i].as_str(), tc[i].as_str()) {
            assert(!path_components(root@).is_prefix_of(path_components(target@))) by {
                assert(path_components(root@)[i as int] != path_components(target@)[
                    i as int
                ]);
            }
            return false;
        }
        i = i + 1;
    }
    proof {
        assert(path_components(root@) =~= path_components(target@).subrange(0, rn as int));
    }
    true
}

/// The textual join of a relative path under a root.
fn join_under(root: &str, rel: &str) -> (r: String)
    ensures
        r@ == joined_path(root@, rel@),
{
    let rlen = rel.unicode_len();
    if rlen > 0 && rel.get_char(0) == '/' {
        rel.to_owned()
    } else {
        let mut out = root.to_owned();
        out.append("/");
        out.append(rel);
        proof {
            reveal_strlit("/");
            assert("/"@ =~= seq!['/']);
            assert(out@ =~= root@ + seq!['/'] + rel@);
        }
        out
    }
}

/// Resolve a relative path under the project root, guarding against
/// escapes, given the caller's filesystem observations in `probe`.
///
/// The decision is exactly `resolve_spec`: an existing target resolves to
/// its canonical form when that form is contained in the canonical root; a
/// new path resolves to its textual join with the root when its existing
/// parent is contained and the path makes no parent-directory reference.
pub fn resolve(project_root: &str, relative_path: &str, probe: &FsProbe) -> (r: Result<
    String,
    SecretError,
>)
    ensures
        match r {
            Ok(p) => resolve_spec(project_root@, relative_path@, *probe) == Ok::<
                Seq<char>,
                SecretError,
            >(p@),
            Err(e) => resolve_spec(project_root@, relative_path@, *probe) == Err::<
                Seq<char>,
                SecretError,
            >(e),
        },
{
    proof {
        reveal_strlit("..");
        assert(".."@ =~= parent_ref());
    }
    match probe {
        FsProbe::TargetExists { canonical_target, canonical_root } => {
            if path_within(canonical_target.as_str(), canonical_root.as_str()) {
                Ok(canonical_target.clone())
            } else {
                Err(SecretError::PathTraversal)
            }
        },
        FsProbe::ParentExists { canonical_parent, canonical_root } => {
            if !path_within(canonical_parent.as_str(), canonical_root.as_str()) {
                Err(SecretError::PathTraversal)
            } else if contains_str(relative_path, "..") {
                Err(SecretError::PathTraversal)
            } else {
                Ok(join_under(project_root, relative_path))
            }
        },
        FsProbe::ParentMissing => {
            if contains_str(relative_path, "..") {
                Err(SecretError::PathTraversal)
            } else {
                Ok(join_under(project_root, relative_path))
            }
        },
        FsProbe::NoParent => Err(SecretError::InvalidPath),
        FsProbe::CanonicalizationFailed => Err(SecretError::InvalidPath),
    }
}

} // verus!
