use fgit::command::{derive_dir_name, restore_url, swap_plan};
use fgit::config::UrlError;

#[test]
fn clone_workflow_scenario() {
    let url = "https://github.com/x/y";
    assert_eq!(derive_dir_name(url), "y");
    let plan = swap_plan(url).unwrap();
    assert_eq!(plan.mirror_url, "https://hub.fastgit.org/x/y");
    assert_eq!(plan.canonical_url, "https://github.com/x/y");
    let persisted = restore_url(&plan, true).unwrap();
    assert_eq!(persisted, "https://github.com/x/y");
}

#[test]
fn pull_workflow_failure_leaves_mirror() {
    let plan = swap_plan("git@github.com:x/y.git").unwrap();
    assert_eq!(plan.mirror_url, "git@fastgit.org:x/y.git");
    assert_eq!(restore_url(&plan, false), None);
}

#[test]
fn pull_recovers_a_stuck_mirror_remote() {
    let plan = swap_plan("git@fastgit.org:x/y.git").unwrap();
    assert_eq!(plan.mirror_url, "git@fastgit.org:x/y.git");
    assert_eq!(plan.canonical_url, "git@github.com:x/y.git");
}

#[test]
fn dir_name_strips_git_suffix() {
    assert_eq!(derive_dir_name("https://github.com/x/y.git"), "y");
    assert_eq!(derive_dir_name("git@github.com:x/y.git"), "y");
}

#[test]
fn swap_plan_rejects_unknown_remote() {
    let e = swap_plan("https://gitlab.com/x/y").unwrap_err();
    assert_eq!(e, UrlError::UnsupportedRemote);
}
