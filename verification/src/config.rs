//! The remote-URL model: parsing a version-control remote into
//! (protocol, host family, repository path) and rendering it back,
//! with the host allow-list for the canonical and mirror families.

use vstd::prelude::*;
use vstd::string::*;
use crate::scan::{
    is_first_index_from, is_last_index_of, is_first_dslash_at, find_char_from, rfind_char,
    find_dslash, str_eq, has_prefix, lemma_first_index_from_unique, lemma_last_index_of_unique,
    lemma_first_dslash_unique,
};

verus! {

/// How a remote is addressed.
#[derive(Clone, Copy, PartialEq, Eq, Structural, Debug)]
pub enum GitProtocol {
    HTTPS,
    SSH,
}

/// Which backing host family a remote points at.
#[derive(Clone, Copy, PartialEq, Eq, Structural, Debug)]
pub enum GitSrc {
    GitHub,
    FastGit,
}

/// Errors of URL classification and rewriting.
#[derive(Clone, Copy, PartialEq, Eq, Structural, Debug)]
pub enum UrlError {
    /// The input does not match any recognized URL shape.
    Parse,
    /// A repository URL whose host is not in the allow-list.
    UnsupportedRemote,
    /// An asset URL whose host is not in the allow-list.
    UnsupportedUrl,
}

/// The mathematical value of a `RemoteUrl`.
#[verifier::ext_equal]
pub struct UrlModel {
    pub protocol: GitProtocol,
    pub base: GitSrc,
    pub repo: Seq<char>,
}

/// A single version-control remote endpoint.
#[derive(Debug)]
pub struct RemoteUrl {
    pub protocol: GitProtocol,
    pub base: GitSrc,
    pub repo: String,
}

impl View for RemoteUrl {
    type V = UrlModel;

    open spec fn view(&self) -> UrlModel {
        UrlModel { protocol: self.protocol, base: self.base, repo: self.repo@ }
    }
}

/// Host authority used by the secure-shell form, per host family.
pub open spec fn ssh_host(src: GitSrc) -> Seq<char> {
    match src {
        GitSrc::GitHub => "github.com"@,
        GitSrc::FastGit => "fastgit.org"@,
    }
}

/// Host authority used by the HTTPS repository form, per host family.
pub open spec fn https_host(src: GitSrc) -> Seq<char> {
    match src {
        GitSrc::GitHub => "github.com"@,
        GitSrc::FastGit => "hub.fastgit.org"@,
    }
}

/// The secure-shell remote form `git@<host>:<repo>`.
pub open spec fn ssh_url_of(host: Seq<char>, repo: Seq<char>) -> Seq<char> {
    "git@"@ + host + ":"@ + repo
}

/// The HTTPS remote form `https://<host>/<repo>`.
pub open spec fn https_url_of(host: Seq<char>, repo: Seq<char>) -> Seq<char> {
    "https://"@ + host + "/"@ + repo
}

/// What rendering a remote URL produces.
pub open spec fn render_spec(m: UrlModel) -> Seq<char> {
    match m.protocol {
        GitProtocol::SSH => ssh_url_of(ssh_host(m.base), m.repo),
        GitProtocol::HTTPS => https_url_of(https_host(m.base), m.repo),
    }
}

/// Parsing of the secure-shell form: the host is the text between the
/// `git@` marker and the last `:`, the repository path follows the first `:`.
pub open spec fn parse_ssh_spec(s: Seq<char>) -> Result<UrlModel, UrlError> {
    if exists|j: int| is_last_index_of(s, ':', j) {
        let j = choose|j: int| is_last_index_of(s, ':', j);
        let i = choose|i: int| is_first_index_from(s, ':', 0, i);
        let host = s.subrange(4, j);
        let repo = s.subrange(i + 1, s.len() as int);
        if host == "github.com"@ {
            Ok(UrlModel { protocol: GitProtocol::SSH, base: GitSrc::GitHub, repo })
        } else if host == "fastgit.org"@ {
            Ok(UrlModel { protocol: GitProtocol::SSH, base: GitSrc::FastGit, repo })
        } else {
            Err(UrlError::UnsupportedRemote)
        }
    } else {
        Err(UrlError::Parse)
    }
}

/// Parsing of the HTTPS form: the host sits between the first `//` and the
/// next `/`, the repository path is everything after that `/`.
pub open spec fn parse_https_spec(s: Seq<char>) -> Result<UrlModel, UrlError> {
    if exists|p: int| is_first_dslash_at(s, p) {
        let p = choose|p: int| is_first_dslash_at(s, p);
        if exists|q: int| #[trigger] is_first_index_from(s, '/', p + 2, q) {
            let q = choose|q: int| #[trigger] is_first_index_from(s, '/', p + 2, q);
            let host = s.subrange(p + 2, q);
            let repo = s.subrange(q + 1, s.len() as int);
            if host == "github.com"@ {
                Ok(UrlModel { protocol: GitProtocol::HTTPS, base: GitSrc::GitHub, repo })
            } else if host == "hub.fastgit.org"@ {
                Ok(UrlModel { protocol: GitProtocol::HTTPS, base: GitSrc::FastGit, repo })
            } else {
                Err(UrlError::UnsupportedRemote)
            }
        } else {
            Err(UrlError::Parse)
        }
    } else {
        Err(UrlError::Parse)
    }
}

/// What parsing an input string produces: inputs beginning with the
/// secure-shell marker take the secure-shell form, all others the HTTPS form.
pub open spec fn parse_spec(s: Seq<char>) -> Result<UrlModel, UrlError> {
    if s.len() >= 4 && s.subrange(0, 4) == "git@"@ {
        parse_ssh_spec(s)
    } else {
        parse_https_spec(s)
    }
}

/// The model of a parse result.
pub open spec fn model_result(r: Result<RemoteUrl, UrlError>) -> Result<UrlModel, UrlError> {
    match r {
        Ok(u) => Ok(u@),
        Err(e) => Err(e),
    }
}

/// The character-level content of the fixed markers and host authorities.
pub proof fn lemma_literal_facts()
    ensures
        "git@"@.len() == 4,
        "git@"@[0] == 'g' && "git@"@[1] == 'i' && "git@"@[2] == 't' && "git@"@[3] == '@',
        forall|k: int| 0 <= k < 4 ==> #[trigger] "git@"@[k] != ':',
        "github.com"@.len() == 10,
        "fastgit.org"@.len() == 11,
        "hub.fastgit.org"@.len() == 15,
        forall|k: int| 0 <= k < 10 ==> #[trigger] "github.com"@[k] != ':',
        forall|k: int| 0 <= k < 11 ==> #[trigger] "fastgit.org"@[k] != ':',
        forall|k: int| 0 <= k < 10 ==> #[trigger] "github.com"@[k] != '/',
        forall|k: int| 0 <= k < 15 ==> #[trigger] "hub.fastgit.org"@[k] != '/',
        "https://"@.len() == 8,
        "https://"@[0] == 'h',
        "https://"@[6] == '/' && "https://"@[7] == '/',
        forall|k: int| 0 <= k < 6 ==> #[trigger] "https://"@[k] != '/',
        ":"@.len() == 1 && ":"@[0] == ':',
        "/"@.len() == 1 && "/"@[0] == '/',
{
    reveal_strlit("git@");
    reveal_strlit("github.com");
    reveal_strlit("fastgit.org");
    reveal_strlit("hub.fastgit.org");
    reveal_strlit("https://");
    reveal_strlit(":");
    reveal_strlit("/");
}

impl GitSrc {
    /// The host authority this family uses in HTTPS repository URLs.
    pub fn to_https_base(&self) -> (r: &'static str)
        ensures
            r@ == https_host(*self),
    {
        match self {
            GitSrc::FastGit => "hub.fastgit.org",
            GitSrc::GitHub => "github.com",
        }
    }

    /// The host authority this family uses in secure-shell URLs.
    pub fn to_ssh_base(&self) -> (r: &'static str)
        ensures
            r@ == ssh_host(*self),
    {
        match self {
            GitSrc::FastGit => "fastgit.org",
            GitSrc::GitHub => "github.com",
        }
    }
}

impl RemoteUrl {
    /// Renders the remote in the form its protocol prescribes, with the
    /// host looked up for its current host family.
    pub fn to_url(&self) -> (r: String)
        ensures
            r@ == render_spec(self@),
    {
        match self.protocol {
            GitProtocol::SSH => String::from_str("git@").concat(self.base.to_ssh_base()).concat(
                ":",
            ).concat(self.repo.as_str()),
            GitProtocol::HTTPS => String::from_str("https://").concat(
                self.base.to_https_base(),
            ).concat("/").concat(self.repo.as_str()),
        }
    }

    /// Parses a remote URL, classifying its host against the allow-list.
    pub fn new(url: &str) -> (r: Result<RemoteUrl, UrlError>)
        ensures
            model_result(r) == parse_spec(url@),
    {
        proof {
            lemma_literal_facts();
        }
        let n = url.unicode_len();
        if has_prefix(url, "git@") {
            let j = match rfind_char(url, ':') {
                Some(j) => j,
                None => {
                    return Err(UrlError::Parse);
                },
            };
            let i = match find_char_from(url, ':', 0) {
                Some(i) => i,
                None => {
                    proof {
                        assert(false);
                    }
                    return Err(UrlError::Parse);
                },
            };
            proof {
                if (j as int) < 4 {
                    assert(url@.subrange(0, 4)[j as int] == url@[j as int]);
                    assert(false);
                }
                assert(exists|j0: int| is_last_index_of(url@, ':', j0));
                let j0 = choose|j0: int| is_last_index_of(url@, ':', j0);
                lemma_last_index_of_unique(url@, ':', j0, j as int);
                assert(exists|i0: int| is_first_index_from(url@, ':', 0, i0));
                let i0 = choose|i0: int| is_first_index_from(url@, ':', 0, i0);
                lemma_first_index_from_unique(url@, ':', 0, i0, i as int);
            }
            let host = url.substring_char(4, j);
            let repo = url.substring_char(i + 1, n).to_owned();
            if str_eq(host, "github.com") {
                Ok(RemoteUrl { protocol: GitProtocol::SSH, base: GitSrc::GitHub, repo })
            } else if str_eq(host, "fastgit.org") {
                Ok(RemoteUrl { protocol: GitProtocol::SSH, base: GitSrc::FastGit, repo })
            } else {
                Err(UrlError::UnsupportedRemote)
            }
        } else {
            let p = match find_dslash(url) {
                Some(p) => p,
                None => {
                    return Err(UrlError::Parse);
                },
            };
            let q = match find_char_from(url, '/', p + 2) {
                Some(q) => q,
                None => {
                    return Err(UrlError::Parse);
                },
            };
            proof {
                assert(exists|p0: int| is_first_dslash_at(url@, p0));
                let p0 = choose|p0: int| is_first_dslash_at(url@, p0);
                lemma_first_dslash_unique(url@, p0, p as int);
                assert(exists|q0: int| #[trigger] is_first_index_from(url@, '/', p as int + 2, q0));
                let q0 = choose|q0: int| #[trigger] is_first_index_from(url@, '/', p as int + 2, q0);
                lemma_first_index_from_unique(url@, '/', p as int + 2, q0, q as int);
            }
            let host = url.substring_char(p + 2, q);
            let repo = url.substring_char(q + 1, n).to_owned();
            if str_eq(host, "github.com") {
                Ok(RemoteUrl { protocol: GitProtocol::HTTPS, base: GitSrc::GitHub, repo })
            } else if str_eq(host, "hub.fastgit.org") {
                Ok(RemoteUrl { protocol: GitProtocol::HTTPS, base: GitSrc::FastGit, repo })
            } else {
                Err(UrlError::UnsupportedRemote)
            }
        }
    }

    /// How parsing treats a string of the secure-shell shape
    /// `git@<host>:<repo>`: the host decides between the two families and
    /// rejection, and the repository path comes through unchanged.
    pub proof fn lemma_parse_ssh_shape(host: Seq<char>, repo: Seq<char>)
        requires
            forall|k: int| 0 <= k < host.len() ==> #[trigger] host[k] != ':',
            forall|k: int| 0 <= k < repo.len() ==> #[trigger] repo[k] != ':',
        ensures
            host == "github.com"@ ==> parse_spec(ssh_url_of(host, repo)) == Ok::<
                UrlModel,
                UrlError,
            >(UrlModel { protocol: GitProtocol::SSH, base: GitSrc::GitHub, repo }),
            host == "fastgit.org"@ ==> parse_spec(ssh_url_of(host, repo)) == Ok::<
                UrlModel,
                UrlError,
            >(UrlModel { protocol: GitProtocol::SSH, base: GitSrc::FastGit, repo }),
            host != "github.com"@ && host != "fastgit.org"@ ==> parse_spec(ssh_url_of(host, repo))
                == Err::<UrlModel, UrlError>(UrlError::UnsupportedRemote),
    {
        lemma_literal_facts();
        let s = ssh_url_of(host, repo);
        let jpos = 4 + host.len() as int;
        assert(s.len() == jpos + 1 + repo.len());
        assert(s.subrange(0, 4) =~= "git@"@) by {
            assert forall|k: int| 0 <= k < 4 implies s.subrange(0, 4)[k] == "git@"@[k] by {
                assert(s[k] == "git@"@[k]);
            }
        }
        assert(s[jpos] == ':');
        assert(is_last_index_of(s, ':', jpos)) by {
            assert forall|j: int| jpos < j < s.len() implies s[j] != ':' by {
                assert(s[j] == repo[j - jpos - 1]);
            }
        }
        assert(is_first_index_from(s, ':', 0, jpos)) by {
            assert forall|j: int| 0 <= j < jpos implies s[j] != ':' by {
                if j < 4 {
                    assert(s[j] == "git@"@[j]);
                } else {
                    assert(s[j] == host[j - 4]);
                }
            }
        }
        let j0 = choose|j0: int| is_last_index_of(s, ':', j0);
        lemma_last_index_of_unique(s, ':', j0, jpos);
        let i0 = choose|i0: int| is_first_index_from(s, ':', 0, i0);
        lemma_first_index_from_unique(s, ':', 0, i0, jpos);
        assert(s.subrange(4, jpos) =~= host);
        assert(s.subrange(jpos + 1, s.len() as int) =~= repo);
    }

    /// How parsing treats a string of the HTTPS shape `https://<host>/<repo>`.
    pub proof fn lemma_parse_https_shape(host: Seq<char>, repo: Seq<char>)
        requires
            forall|k: int| 0 <= k < host.len() ==> #[trigger] host[k] != '/',
        ensures
            host == "github.com"@ ==> parse_spec(https_url_of(host, repo)) == Ok::<
                UrlModel,
                UrlError,
            >(UrlModel { protocol: GitProtocol::HTTPS, base: GitSrc::GitHub, repo }),
            host == "hub.fastgit.org"@ ==> parse_spec(https_url_of(host, repo)) == Ok::<
                UrlModel,
                UrlError,
            >(UrlModel { protocol: GitProtocol::HTTPS, base: GitSrc::FastGit, repo }),
            host != "github.com"@ && host != "hub.fastgit.org"@ ==> parse_spec(
                https_url_of(host, repo),
            ) == Err::<UrlModel, UrlError>(UrlError::UnsupportedRemote),
    {
        lemma_literal_facts();
        let s = https_url_of(host, repo);
        let qpos = 8 + host.len() as int;
        assert(s.len() == qpos + 1 + repo.len());
        assert(s[0] == 'h');
        assert(!(s.len() >= 4 && s.subrange(0, 4) == "git@"@)) by {
            if s.len() >= 4 && s.subrange(0, 4) == "git@"@ {
                assert(s.subrange(0, 4)[0] == s[0]);
            }
        }
        assert(is_first_dslash_at(s, 6)) by {
            assert(s[6] == '/');
            assert(s[7] == '/');
            assert forall|t: int| 0 <= t < 6 implies !((#[trigger] s[t]) == '/' && s[t + 1] == '/')
                by {
                assert(s[t] == "https://"@[t]);
            }
        }
        assert(s[qpos] == '/');
        assert(is_first_index_from(s, '/', 8, qpos)) by {
            assert forall|j: int| 8 <= j < qpos implies s[j] != '/' by {
                assert(s[j] == host[j - 8]);
            }
        }
        let p0 = choose|p0: int| is_first_dslash_at(s, p0);
        lemma_first_dslash_unique(s, p0, 6);
        let q0 = choose|q0: int| #[trigger] is_first_index_from(s, '/', p0 + 2, q0);
        lemma_first_index_from_unique(s, '/', 8, q0, qpos);
        assert(s.subrange(8, qpos) =~= host);
        assert(s.subrange(qpos + 1, s.len() as int) =~= repo);
    }

    /// Round trip: parsing a rendered remote reconstructs the remote.  For
    /// the secure-shell form this needs a repository path free of `:`, since
    /// the host is read back from the text before the last `:`.
    pub proof fn lemma_render_parse_round_trip(m: UrlModel)
        requires
            m.protocol == GitProtocol::SSH ==> forall|k: int|
                0 <= k < m.repo.len() ==> #[trigger] m.repo[k] != ':',
        ensures
            parse_spec(render_spec(m)) == Ok::<UrlModel, UrlError>(m),
    {
        lemma_literal_facts();
        match m.protocol {
            GitProtocol::SSH => {
                Self::lemma_parse_ssh_shape(ssh_host(m.base), m.repo);
                match m.base {
                    GitSrc::GitHub => {
                        assert(UrlModel {
                            protocol: GitProtocol::SSH,
                            base: GitSrc::GitHub,
                            repo: m.repo,
                        } =~= m);
                    },
                    GitSrc::FastGit => {
                        assert("fastgit.org"@ != "github.com"@);
                        assert(UrlModel {
                            protocol: GitProtocol::SSH,
                            base: GitSrc::FastGit,
                            repo: m.repo,
                        } =~= m);
                    },
                }
            },
            GitProtocol::HTTPS => {
                Self::lemma_parse_https_shape(https_host(m.base), m.repo);
                match m.base {
                    GitSrc::GitHub => {
                        assert(UrlModel {
                            protocol: GitProtocol::HTTPS,
                            base: GitSrc::GitHub,
                            repo: m.repo,
                        } =~= m);
                    },
                    GitSrc::FastGit => {
                        assert("hub.fastgit.org"@ != "github.com"@);
                        assert(UrlModel {
                            protocol: GitProtocol::HTTPS,
                            base: GitSrc::FastGit,
                            repo: m.repo,
                        } =~= m);
                    },
                }
            },
        }
    }

    /// A secure-shell URL whose host is not in the mapping table is rejected
    /// with `UnsupportedRemote`, never accepted under a default family.
    pub proof fn lemma_parse_rejects_unknown_ssh_host(host: Seq<char>, repo: Seq<char>)
        requires
            host != "github.com"@,
            host != "fastgit.org"@,
            forall|k: int| 0 <= k < host.len() ==> #[trigger] host[k] != ':',
            forall|k: int| 0 <= k < repo.len() ==> #[trigger] repo[k] != ':',
        ensures
            parse_spec(ssh_url_of(host, repo)) == Err::<UrlModel, UrlError>(
                UrlError::UnsupportedRemote,
            ),
    {
        Self::lemma_parse_ssh_shape(host, repo);
    }

    /// A copy of this remote with only the host family replaced.
    pub fn with_source(&self, base: GitSrc) -> (r: RemoteUrl)
        ensures
            r@.protocol == self@.protocol,
            r@.base == base,
            r@.repo == self@.repo,
    {
        RemoteUrl { protocol: self.protocol, base, repo: self.repo.clone() }
    }
}

} // verus!
