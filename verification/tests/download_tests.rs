use fgit::config::UrlError;
use fgit::download::{
    download_file_name, parse_u64, plan_transfer, probe_total, replace_url, DownloadError,
    Progress, TransferAction,
};

#[test]
fn replace() {
    let release = "https://github.com/getzola/zola";
    let fastgit = "https://download.fastgit.org/getzola/zola";

    assert_eq!(replace_url(release).unwrap(), fastgit);
}

#[test]
fn replace_codeload() {
    let codeload = "https://codeload.github.com/zeit/next.js/tar.gz/canary";
    let fastgit = "https://download.fastgit.org/zeit/next.js/tar.gz/canary";

    assert_eq!(replace_url(codeload).unwrap(), fastgit);
}

#[test]
fn replace_raw() {
    let raw = "https://raw.githubusercontent.com/getzola/zola/master/build.rs";
    let fastgit = "https://raw.fastgit.org/getzola/zola/master/build.rs";

    assert_eq!(replace_url(raw).unwrap(), fastgit);
}

#[test]
fn mirror_release_asset() {
    assert_eq!(
        replace_url("https://github.com/a/b").unwrap(),
        "https://download.fastgit.org/a/b"
    );
}

#[test]
fn mirror_code_archive() {
    assert_eq!(
        replace_url("https://codeload.github.com/a/b/tar.gz/c").unwrap(),
        "https://download.fastgit.org/a/b/tar.gz/c"
    );
}

#[test]
fn mirror_raw_file() {
    assert_eq!(
        replace_url("https://raw.githubusercontent.com/a/b/master/f").unwrap(),
        "https://raw.fastgit.org/a/b/master/f"
    );
}

#[test]
fn replace_rejects_unknown_host() {
    let e = replace_url("https://example.com/a/b").unwrap_err();
    assert_eq!(e, UrlError::UnsupportedUrl);
}

#[test]
fn replace_rejects_missing_scheme() {
    let e = replace_url("ftp://github.com/a/b").unwrap_err();
    assert_eq!(e, UrlError::Parse);
}

#[test]
fn replace_rejects_missing_path() {
    let e = replace_url("https://github.com").unwrap_err();
    assert_eq!(e, UrlError::Parse);
}

#[test]
fn file_name_is_final_segment() {
    assert_eq!(
        download_file_name("https://github.com/a/b/file.tar.gz"),
        "file.tar.gz"
    );
}

#[test]
fn file_name_falls_back() {
    assert_eq!(download_file_name("nopath"), "tmp.bin");
    assert_eq!(download_file_name("https://github.com/a/"), "tmp.bin");
}

#[test]
fn content_length_values() {
    assert_eq!(parse_u64("123"), Some(123));
    assert_eq!(parse_u64("+7"), Some(7));
    assert_eq!(parse_u64("0"), Some(0));
    assert_eq!(parse_u64(""), None);
    assert_eq!(parse_u64("+"), None);
    assert_eq!(parse_u64("12a"), None);
    assert_eq!(parse_u64("18446744073709551615"), Some(u64::MAX));
    assert_eq!(parse_u64("18446744073709551616"), None);
}

#[test]
fn probe_reads_content_length() {
    assert_eq!(probe_total(true, Some("42"), 200), Ok(42));
    assert_eq!(probe_total(true, Some("junk"), 200), Ok(0));
    assert_eq!(probe_total(true, None, 204), Ok(0));
}

#[test]
fn probe_failure_carries_status() {
    assert_eq!(
        probe_total(false, None, 404),
        Err(DownloadError::RemoteFetch(404))
    );
}

#[test]
fn existing_file_skips_transfer() {
    let total = probe_total(true, Some("999"), 200).unwrap();
    let action = plan_transfer(true, 999);
    assert_eq!(action, TransferAction::SkipExisting(999));
    let mut p = Progress::new(total);
    match action {
        TransferAction::SkipExisting(size) => p.advance(size),
        TransferAction::Stream => panic!("an existing file must not be streamed over"),
    }
    assert_eq!(p.current, 999);
}

#[test]
fn missing_file_streams() {
    assert_eq!(plan_transfer(false, 0), TransferAction::Stream);
}

#[test]
fn progress_counts_chunks() {
    let mut p = Progress::new(100);
    p.advance(60);
    p.advance(30);
    assert_eq!(p.current, 90);
    assert_eq!(p.total, 100);
    p.finish();
    assert_eq!(p.current, 100);
}

#[test]
fn progress_saturates() {
    let mut p = Progress::new(10);
    p.advance(u64::MAX);
    p.advance(5);
    assert_eq!(p.current, u64::MAX);
}
