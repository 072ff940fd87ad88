use fgit::config::{GitProtocol, GitSrc, RemoteUrl, UrlError};

#[test]
fn github_https() {
    let url = "https://github.com/tokiedokie/scoop-search";

    let st = RemoteUrl {
        protocol: GitProtocol::HTTPS,
        base: GitSrc::GitHub,
        repo: "tokiedokie/scoop-search".parse().unwrap(),
    };

    assert_eq!(url, st.to_url())
}

#[test]
fn github_ssh() {
    let url = "git@github.com:tokiedokie/scoop-search.git";

    let st = RemoteUrl {
        protocol: GitProtocol::SSH,
        base: GitSrc::GitHub,
        repo: "tokiedokie/scoop-search.git".to_string(),
    };

    assert_eq!(url, st.to_url())
}

#[test]
fn fastgit_https() {
    let url = "https://hub.fastgit.org/tokiedokie/scoop-search";

    let st = RemoteUrl {
        protocol: GitProtocol::HTTPS,
        base: GitSrc::FastGit,
        repo: "tokiedokie/scoop-search".parse().unwrap(),
    };

    assert_eq!(url, st.to_url())
}

#[test]
fn fastgit_ssh() {
    let url = "git@fastgit.org:tokiedokie/scoop-search.git";

    let st = RemoteUrl {
        protocol: GitProtocol::SSH,
        base: GitSrc::FastGit,
        repo: "tokiedokie/scoop-search.git".to_string(),
    };

    assert_eq!(url, st.to_url())
}

#[test]
fn parse_then_render_preserves_git_suffix() {
    let r = RemoteUrl::new("git@github.com:a/b.git").unwrap();
    assert_eq!(r.protocol, GitProtocol::SSH);
    assert_eq!(r.base, GitSrc::GitHub);
    assert_eq!(r.repo, "a/b.git");
    assert_eq!(r.to_url(), "git@github.com:a/b.git");
}

#[test]
fn parse_https_github() {
    let r = RemoteUrl::new("https://github.com/x/y").unwrap();
    assert_eq!(r.protocol, GitProtocol::HTTPS);
    assert_eq!(r.base, GitSrc::GitHub);
    assert_eq!(r.repo, "x/y");
    assert_eq!(r.to_url(), "https://github.com/x/y");
}

#[test]
fn parse_https_mirror_host() {
    let r = RemoteUrl::new("https://hub.fastgit.org/x/y").unwrap();
    assert_eq!(r.base, GitSrc::FastGit);
    assert_eq!(r.repo, "x/y");
    assert_eq!(r.to_url(), "https://hub.fastgit.org/x/y");
}

#[test]
fn parse_ssh_mirror_host() {
    let r = RemoteUrl::new("git@fastgit.org:x/y.git").unwrap();
    assert_eq!(r.base, GitSrc::FastGit);
    assert_eq!(r.repo, "x/y.git");
    assert_eq!(r.to_url(), "git@fastgit.org:x/y.git");
}

#[test]
fn unknown_ssh_host_rejected() {
    let e = RemoteUrl::new("git@gitlab.com:a/b.git").unwrap_err();
    assert_eq!(e, UrlError::UnsupportedRemote);
}

#[test]
fn unknown_https_host_rejected() {
    let e = RemoteUrl::new("https://gitlab.com/a/b").unwrap_err();
    assert_eq!(e, UrlError::UnsupportedRemote);
}

#[test]
fn malformed_ssh_rejected() {
    let e = RemoteUrl::new("git@github.com").unwrap_err();
    assert_eq!(e, UrlError::Parse);
}

#[test]
fn malformed_https_rejected() {
    let e = RemoteUrl::new("github.com/a/b").unwrap_err();
    assert_eq!(e, UrlError::Parse);
}

#[test]
fn with_source_flips_only_the_host_family() {
    let r = RemoteUrl::new("https://github.com/x/y").unwrap();
    let m = r.with_source(GitSrc::FastGit);
    assert_eq!(m.protocol, GitProtocol::HTTPS);
    assert_eq!(m.base, GitSrc::FastGit);
    assert_eq!(m.repo, "x/y");
    assert_eq!(m.to_url(), "https://hub.fastgit.org/x/y");
}
