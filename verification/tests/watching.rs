//! Which branch file is which mem's head, and which change of it is told.

use memstead_base::events::VaultChangedEvent;
use memstead_base::file_watcher::{
    check_refs_heads, mem_name_for_ref_path, parse_ref_sha, FileWatcherError, PathPart, RefHeads,
};

fn parts(path: &str) -> Vec<PathPart> {
    path.split('/')
        .filter(|p| !p.is_empty())
        .map(|p| PathPart { raw: p.as_bytes().to_vec(), text: Some(p.to_string()) })
        .collect()
}

/// What the file of a branch holds after a write.
fn written(sha: &str) -> String {
    format!("{sha}\n")
}

/// The mem whose branch file lies at `branch` below the branches of `/g`.
fn mem_of(branch: &str) -> Option<String> {
    mem_name_for_ref_path(&parts("/g/refs/heads"), &parts(&format!("/g/refs/heads/{branch}")))
}

/// The event that a write of `sha` to the file of `branch` gives rise to.
fn touched(heads: &mut RefHeads, branch: &str, sha: &str) -> Option<VaultChangedEvent> {
    heads.touch(mem_of(branch).as_deref(), Some(&written(sha)))
}

#[test]
fn refs_heads_missing_returns_typed_error() {
    assert!(check_refs_heads("/nope/refs/heads", true).is_ok());
    match check_refs_heads("/nope/refs/heads", false) {
        Err(FileWatcherError::RefsHeadsMissing(p)) => assert_eq!(p, "/nope/refs/heads"),
        other => panic!("expected RefsHeadsMissing, got {other:?}"),
    }
}

#[test]
fn modifying_ref_file_emits_mem_changed_event() {
    let initial = "1234567890abcdef1234567890abcdef12345678";
    let mut heads = RefHeads::scan_initial_state(&vec![("specs".to_string(), written(initial))]);
    let updated = "fedcba9876543210fedcba9876543210fedcba98";
    let event = touched(&mut heads, "specs", updated).expect("an event");
    assert_eq!(event.vault, "specs");
    assert_eq!(event.head, updated);
    assert_eq!(event.previous, initial);
    assert_eq!(event.n_commits, 1);
}

#[test]
fn creating_new_ref_file_emits_event_with_empty_previous() {
    let mut heads = RefHeads::scan_initial_state(&Vec::new());
    let sha = "aaaaaaaaaaaaaaaaaaaaaaaaaaaaaaaaaaaaaaaa";
    let event = touched(&mut heads, "newmem", sha).expect("an event");
    assert_eq!(event.vault, "newmem");
    assert_eq!(event.head, sha);
    assert_eq!(event.previous, "");
}

#[test]
fn idempotent_writes_do_not_emit_duplicate_events() {
    let sha = "1111111111111111111111111111111111111111";
    let mut heads = RefHeads::scan_initial_state(&vec![("specs".to_string(), written(sha))]);
    assert!(
        touched(&mut heads, "specs", sha).is_none(),
        "idempotent re-write must not surface as a change event",
    );
}

#[test]
fn hierarchical_branch_paths_produce_compound_mem_names() {
    let mut heads = RefHeads::scan_initial_state(&Vec::new());
    let sha = "bbbbbbbbbbbbbbbbbbbbbbbbbbbbbbbbbbbbbbbb";
    let event = touched(&mut heads, "team/specs", sha).expect("hierarchical event must arrive");
    assert_eq!(event.vault, "team/specs");
    assert_eq!(event.head, sha);
}

#[test]
fn a_path_below_the_branches_is_the_name_of_a_mem() {
    let base = parts("/g/refs/heads");
    assert_eq!(
        mem_name_for_ref_path(&base, &parts("/g/refs/heads/specs")),
        Some("specs".to_string())
    );
    assert_eq!(
        mem_name_for_ref_path(&base, &parts("/g/refs/heads/team/specs")),
        Some("team/specs".to_string())
    );
    assert_eq!(mem_name_for_ref_path(&base, &parts("/g/refs/tags/v1")), None);
    let mut odd = parts("/g/refs/heads/team");
    odd.push(PathPart { raw: vec![0xff], text: None });
    assert_eq!(mem_name_for_ref_path(&base, &odd), Some("team".to_string()));
}

#[test]
fn only_a_commit_id_is_a_head() {
    let sha = "1234567890abcdef1234567890abcdef12345678";
    assert_eq!(parse_ref_sha(&format!("{sha}\n")), Some(sha.to_string()));
    assert_eq!(parse_ref_sha("ref: refs/heads/main\n"), None);
    assert_eq!(parse_ref_sha(""), None);
    assert_eq!(parse_ref_sha(&sha[..39]), None);
    assert_eq!(parse_ref_sha(&sha.replace('1', "g")), None);
    assert_eq!(parse_ref_sha(&format!("{sha}\n\n")), None, "longer than a commit and a line");
}

#[test]
fn a_moved_head_is_told_once_with_what_was_before() {
    let first = "1234567890abcdef1234567890abcdef12345678";
    let second = "fedcba9876543210fedcba9876543210fedcba98";
    let files = vec![
        ("specs".to_string(), format!("{first}\n")),
        ("main".to_string(), "ref: refs/heads/specs\n".to_string()),
    ];
    let mut heads = RefHeads::scan_initial_state(&files);
    assert_eq!(heads.get("specs").map(|s| s.as_str()), Some(first));
    assert!(heads.get("main").is_none());

    assert!(heads.touch(Some("specs"), Some(first)).is_none());
    let event = heads.touch(Some("specs"), Some(second)).expect("the head moved");
    assert_eq!(event.vault, "specs");
    assert_eq!(event.head, second);
    assert_eq!(event.previous, first);
    assert_eq!(event.n_commits, 1);
    assert!(heads.touch(Some("specs"), Some(second)).is_none());

    let other = "aaaaaaaaaaaaaaaaaaaaaaaaaaaaaaaaaaaaaaaa";
    let event = heads.touch(Some("team/new"), Some(other)).expect("a new mem");
    assert_eq!(event.previous, "");
    let event = heads.touch(Some("specs"), Some(first)).expect("the head moved back");
    assert_eq!(event.previous, second);
}

#[test]
fn a_touched_file_that_names_no_head_changes_nothing() {
    let mut heads = RefHeads::new();
    assert!(heads.touch(Some("specs"), None).is_none());
    assert!(heads.touch(None, Some("x")).is_none());
    assert!(heads.touch(Some("specs"), Some("half a lin")).is_none());
    assert!(heads.get("specs").is_none());
    heads.insert("specs", "x");
    heads.insert("specs", "y");
    assert_eq!(heads.get("specs").map(|s| s.as_str()), Some("y"));
}
