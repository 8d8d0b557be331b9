use activate::engine::decativate_current;
use activate::errors::LinkError;
use activate::links::{plan_add_links, plan_remove_links, FsEntry, FsSnapshot};
use activate::paths::{count_slashes, join_path, link_path_value};
use activate::smap::StrMap;
use activate::state::{encode_link_record_line, ActiveState};

fn links(pairs: &[(&str, &str)]) -> StrMap {
    StrMap::from_pairs(
        pairs
            .iter()
            .map(|(k, v)| (k.to_string(), v.to_string()))
            .collect(),
    )
}

fn file_at(fs: &mut FsSnapshot, path: &str) {
    fs.record(
        path.to_string(),
        FsEntry {
            exists: true,
            is_symlink: false,
        },
    );
}

fn symlink_at(fs: &mut FsSnapshot, path: &str) {
    fs.record(
        path.to_string(),
        FsEntry {
            exists: true,
            is_symlink: true,
        },
    );
}

#[test]
fn creates_resolve_depth_and_record_lines() {
    let mut fs = FsSnapshot::new();
    file_at(&mut fs, "test_file1");
    let m = links(&[("another/test_file1", "test_file1")]);
    let plan = plan_add_links(&m, &fs, ".");
    assert!(plan.failure.is_none());
    assert_eq!(plan.creates.len(), 1);
    let c = &plan.creates[0];
    assert_eq!(c.target, "another/test_file1");
    assert_eq!(c.source, "test_file1");
    assert_eq!(c.link_path, "../test_file1");
    assert_eq!(c.record_line, "\"another/test_file1\"=\"test_file1\"\n");
}

#[test]
fn flat_link_keeps_plain_path() {
    let mut fs = FsSnapshot::new();
    file_at(&mut fs, "test_file2");
    let m = links(&[("test_file2_new_name", "test_file2")]);
    let plan = plan_add_links(&m, &fs, ".");
    assert!(plan.failure.is_none());
    assert_eq!(plan.creates[0].link_path, "test_file2");
    assert_eq!(plan.creates[0].target, "test_file2_new_name");
}

#[test]
fn deep_target_climbs_back_up() {
    assert_eq!(count_slashes("a/b/c"), 2);
    assert_eq!(link_path_value("a/b/c", "src"), "../../src");
    assert_eq!(join_path("sub", "x"), "sub/x");
    assert_eq!(join_path(".", "x"), "x");
    assert_eq!(
        encode_link_record_line("prod_dir", "prod_src"),
        "\"prod_dir\"=\"prod_src\"\n"
    );
}

#[test]
fn no_clobber_existing_target() {
    let mut fs = FsSnapshot::new();
    file_at(&mut fs, "src_file");
    file_at(&mut fs, "occupied");
    let m = links(&[("occupied", "src_file")]);
    let plan = plan_add_links(&m, &fs, ".");
    assert!(plan.creates.is_empty());
    match plan.failure {
        Some(LinkError::TargetExists(p)) => assert_eq!(p, "occupied"),
        _ => panic!("expected a target-exists refusal"),
    }
}

#[test]
fn dangling_symlink_target_is_refused() {
    let mut fs = FsSnapshot::new();
    file_at(&mut fs, "src_file");
    fs.record(
        "dangling".to_string(),
        FsEntry {
            exists: false,
            is_symlink: true,
        },
    );
    let m = links(&[("dangling", "src_file")]);
    let plan = plan_add_links(&m, &fs, ".");
    assert!(plan.creates.is_empty());
    assert!(matches!(plan.failure, Some(LinkError::LinkExists(p)) if p == "dangling"));
}

#[test]
fn missing_source_is_refused() {
    let m = links(&[("new_name", "no_such_file")]);
    let plan = plan_add_links(&m, &FsSnapshot::new(), ".");
    assert!(plan.creates.is_empty());
    assert!(matches!(plan.failure, Some(LinkError::SourceMissing(p)) if p == "no_such_file"));
}

#[test]
fn traversal_paths_are_refused() {
    let mut fs = FsSnapshot::new();
    file_at(&mut fs, "real");
    let bad_source = links(&[("name", "../real")]);
    let plan = plan_add_links(&bad_source, &fs, ".");
    assert!(matches!(plan.failure, Some(LinkError::InvalidPath(p)) if p == "../real"));

    let bad_target = links(&[("./name", "real")]);
    let plan2 = plan_add_links(&bad_target, &fs, ".");
    assert!(matches!(plan2.failure, Some(LinkError::InvalidPath(p)) if p == "./name"));
}

#[test]
fn removal_skips_missing_and_deletes_symlinks() {
    let mut fs = FsSnapshot::new();
    symlink_at(&mut fs, "test_file3");
    let m = links(&[("test_file3", "anything"), ("gone_already", "other")]);
    let plan = plan_remove_links(&m, &fs, ".");
    assert!(plan.failure.is_none());
    assert_eq!(plan.removals, vec!["test_file3".to_string()]);
}

#[test]
fn replaced_target_is_not_removed() {
    let mut fs = FsSnapshot::new();
    file_at(&mut fs, "was_a_link");
    let record = links(&[("was_a_link", "source_file")]);
    let state = ActiveState {
        vars: None,
        links: Some(record),
    };
    let plan = decativate_current(&state, &fs, ".");
    assert!(plan.removals.is_empty());
    assert!(matches!(plan.failure, Some(LinkError::NotASymlink(p)) if p == "was_a_link"));
    assert!(!plan.delete_links_record);
}

#[test]
fn switching_link_sets_removes_then_creates() {
    let mut fs = FsSnapshot::new();
    symlink_at(&mut fs, "another/test_file1");
    symlink_at(&mut fs, "test_file2_new_name");
    symlink_at(&mut fs, "test_file3");
    file_at(&mut fs, "dev_file1_src");

    let record = links(&[
        ("another/test_file1", "test_file1"),
        ("test_file2_new_name", "test_file2"),
        ("test_file3", "test_file3"),
    ]);
    let state = ActiveState {
        vars: None,
        links: Some(record),
    };
    let plan = decativate_current(&state, &fs, ".");
    assert!(plan.failure.is_none());
    assert_eq!(plan.removals.len(), 3);
    assert!(plan.delete_links_record);

    let mut after = fs.clone_snapshot();
    after.clear_paths(&plan.removals);
    let dev = links(&[("test_file3", "dev_file1_src")]);
    let create = plan_add_links(&dev, &after, ".");
    assert!(create.failure.is_none());
    assert_eq!(create.creates.len(), 1);
    assert_eq!(create.creates[0].target, "test_file3");
}

#[test]
fn creation_stops_at_first_refusal_keeping_prefix() {
    let mut fs = FsSnapshot::new();
    file_at(&mut fs, "first_src");
    file_at(&mut fs, "second_src");
    file_at(&mut fs, "second_name");
    let m = links(&[("first_name", "first_src"), ("second_name", "second_src")]);
    let plan = plan_add_links(&m, &fs, ".");
    assert_eq!(plan.creates.len(), 1);
    assert_eq!(plan.creates[0].target, "first_name");
    assert!(matches!(plan.failure, Some(LinkError::TargetExists(p)) if p == "second_name"));
}

#[test]
fn repeated_target_within_one_plan_is_refused() {
    let mut fs = FsSnapshot::new();
    file_at(&mut fs, "src_a");
    file_at(&mut fs, "src_b");
    let m = links(&[("same_name", "src_a"), ("same_name_2", "src_b"), ("same_name", "src_b")]);
    // unique keys collapse the duplicate: the later declaration wins
    assert_eq!(m.len(), 2);
    let plan = plan_add_links(&m, &fs, ".");
    assert!(plan.failure.is_none());
    assert_eq!(plan.creates.len(), 2);
}
