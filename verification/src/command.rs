//! The remote-swap orchestration decisions shared by the clone and pull
//! workflows: from one input remote, the mirror URL the external tool is
//! pointed at and the canonical URL persisted after success, plus the
//! derivation of a clone's target directory name.

use vstd::prelude::*;
use vstd::string::*;
use crate::config::{parse_spec, render_spec, GitSrc, RemoteUrl, UrlError, UrlModel};
use crate::scan::{is_last_index_of, rfind_char, str_eq, lemma_last_index_of_unique};

verus! {

/// The same remote under another host family.
pub open spec fn with_base(m: UrlModel, base: GitSrc) -> UrlModel {
    UrlModel { protocol: m.protocol, base, repo: m.repo }
}

/// The two renderings a workflow swaps between: the mirror form handed to
/// the external tool, and the canonical form persisted on success.
#[derive(Debug)]
pub struct SwapPlan {
    pub mirror_url: String,
    pub canonical_url: String,
}

/// Builds the swap plan for one workflow invocation: the input is parsed
/// once, and both renderings keep its protocol and repository path, with
/// only the host family forced.
pub fn swap_plan(url: &str) -> (r: Result<SwapPlan, UrlError>)
    ensures
        match parse_spec(url@) {
            Ok(m) => r matches Ok(p) && p.mirror_url@ == render_spec(
                with_base(m, GitSrc::FastGit),
            ) && p.canonical_url@ == render_spec(with_base(m, GitSrc::GitHub)),
            Err(e) => r matches Err(e2) && e2 == e,
        },
{
    let ori = match RemoteUrl::new(url) {
        Ok(o) => o,
        Err(e) => {
            return Err(e);
        },
    };
    let mirror = ori.with_source(GitSrc::FastGit);
    let canonical = ori.with_source(GitSrc::GitHub);
    proof {
        assert(mirror@ =~= with_base(ori@, GitSrc::FastGit));
        assert(canonical@ =~= with_base(ori@, GitSrc::GitHub));
    }
    Ok(SwapPlan { mirror_url: mirror.to_url(), canonical_url: canonical.to_url() })
}

/// Decides what to persist once the external tool has finished: on success
/// the canonical URL is restored; on failure nothing is written back, so a
/// remote already swapped to the mirror stays there.
pub fn restore_url(plan: &SwapPlan, subprocess_ok: bool) -> (r: Option<String>)
    ensures
        subprocess_ok ==> (r matches Some(u) && u@ == plan.canonical_url@),
        !subprocess_ok ==> r is None,
{
    if subprocess_ok {
        Some(plan.canonical_url.clone())
    } else {
        None
    }
}

/// The last path segment of a URL, or the whole text when it has no `/`.
pub open spec fn last_segment_spec(s: Seq<char>) -> Seq<char> {
    if exists|j: int| is_last_index_of(s, '/', j) {
        let j = choose|j: int| is_last_index_of(s, '/', j);
        s.subrange(j + 1, s.len() as int)
    } else {
        s
    }
}

/// A segment stripped of one optional `.git` suffix.
pub open spec fn strip_git_suffix(seg: Seq<char>) -> Seq<char> {
    if seg.len() >= 4 && seg.subrange(seg.len() - 4, seg.len() as int) == ".git"@ {
        seg.subrange(0, seg.len() - 4)
    } else {
        seg
    }
}

/// The directory a clone lands in when none is given: the last path
/// segment of the repository URL, stripped of an optional `.git` suffix.
pub open spec fn dir_name_spec(s: Seq<char>) -> Seq<char> {
    strip_git_suffix(last_segment_spec(s))
}

/// Derives the clone target directory name from a repository URL.
pub fn derive_dir_name(url: &str) -> (r: String)
    ensures
        r@ == dir_name_spec(url@),
{
    let n = url.unicode_len();
    let seg: &str = match rfind_char(url, '/') {
        Some(j) => {
            proof {
                assert(exists|j0: int| is_last_index_of(url@, '/', j0));
                let j0 = choose|j0: int| is_last_index_of(url@, '/', j0);
                lemma_last_index_of_unique(url@, '/', j0, j as int);
            }
            url.substring_char(j + 1, n)
        },
        None => url,
    };
    proof {
        assert(seg@ == last_segment_spec(url@));
    }
    let m = seg.unicode_len();
    if m >= 4 {
        let tail = seg.substring_char(m - 4, m);
        if str_eq(tail, ".git") {
            return seg.substring_char(0, m - 4).to_owned();
        }
    }
    seg.to_owned()
}

} // verus!
