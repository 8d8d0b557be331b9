use activate::engine::NewAndOldEnv;
use activate::hierarchy::{consolidate, create_env_hierarchy};
use activate::smap::StrMap;

fn smap(pairs: &[(&str, &str)]) -> StrMap {
    StrMap::from_pairs(
        pairs
            .iter()
            .map(|(k, v)| (k.to_string(), v.to_string()))
            .collect(),
    )
}

fn result_of(dir: &str, old: &[(&str, &str)], new: &[(&str, &str)]) -> NewAndOldEnv {
    NewAndOldEnv {
        activate_toml_file_directory: dir.to_string(),
        old_env: smap(old),
        new_env: smap(new),
    }
}

#[test]
fn hierarchy_lists_descendants_ascending() {
    let envs = vec![
        result_of(".", &[], &[]),
        result_of("./a", &[], &[]),
        result_of("./a/b", &[], &[]),
        result_of("./c", &[], &[]),
    ];
    let h = create_env_hierarchy(&envs);
    assert_eq!(h.len(), 4);
    assert_eq!(h[0].0, 0);
    assert_eq!(h[0].1, vec![1, 2, 3]);
    assert_eq!(h[1].1, vec![2]);
    assert!(h[2].1.is_empty());
    assert!(h[3].1.is_empty());
}

#[test]
fn sibling_prefix_is_not_a_descendant() {
    let envs = vec![result_of("/a/b", &[], &[]), result_of("/a/bc", &[], &[])];
    let h = create_env_hierarchy(&envs);
    assert!(h[0].1.is_empty());
    assert!(h[1].1.is_empty());
}

#[test]
fn consolidation_merges_descendants() {
    let envs = vec![
        result_of(".", &[("OLD_A", "x")], &[("A", "1")]),
        result_of("./sub", &[("OLD_B", "y")], &[("B", "2")]),
    ];
    let merged = consolidate(&envs).unwrap();
    assert_eq!(merged.len(), 2);
    assert_eq!(merged[0].new_env.len(), 2);
    assert_eq!(merged[0].new_env.get(&"A".to_string()).unwrap(), "1");
    assert_eq!(merged[0].new_env.get(&"B".to_string()).unwrap(), "2");
    assert_eq!(merged[0].old_env.len(), 2);
    assert_eq!(merged[1].new_env.len(), 1);
    assert!(merged[1].new_env.get(&"A".to_string()).is_none());
}

#[test]
fn nested_collision_is_detected() {
    let envs = vec![
        result_of("/proj", &[], &[("X", "1")]),
        result_of("/proj/nested", &[], &[("X", "2")]),
    ];
    let err = consolidate(&envs).unwrap_err();
    assert_eq!(err.key, "X");
    assert_eq!(err.first_directory, "/proj");
    assert_eq!(err.second_directory, "/proj/nested");
}

#[test]
fn same_name_same_value_still_collides() {
    let envs = vec![
        result_of(".", &[], &[("PATH_ADD", "bin")]),
        result_of("./inner", &[], &[("PATH_ADD", "bin")]),
    ];
    assert!(consolidate(&envs).is_err());
}

#[test]
fn old_variables_merge_without_collision_checks() {
    let envs = vec![
        result_of(".", &[("SHARED", "a")], &[]),
        result_of("./inner", &[("SHARED", "b")], &[]),
    ];
    let merged = consolidate(&envs).unwrap();
    assert_eq!(merged[0].old_env.len(), 1);
    assert_eq!(merged[0].old_env.get(&"SHARED".to_string()).unwrap(), "b");
}
