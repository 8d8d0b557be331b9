use activate::config::{parse_declarations, EnvironmentData, Environments};
use activate::engine::{activate, activate_new, decativate_current};
use activate::errors::SelectionError;
use activate::links::{FsEntry, FsSnapshot};
use activate::smap::StrMap;
use activate::state::ActiveState;

fn smap(pairs: &[(&str, &str)]) -> StrMap {
    StrMap::from_pairs(
        pairs
            .iter()
            .map(|(k, v)| (k.to_string(), v.to_string()))
            .collect(),
    )
}

fn envs(decls: &[(&str, &[(&str, &str)], Option<&[(&str, &str)]>)]) -> Environments {
    Environments {
        declared: Some(
            decls
                .iter()
                .map(|(name, vars, links)| {
                    (
                        name.to_string(),
                        EnvironmentData {
                            vars: Some(smap(vars)),
                            links: links.map(smap),
                        },
                    )
                })
                .collect(),
        ),
    }
}

#[test]
fn deactivate_inactive_is_noop() {
    let state = ActiveState::inactive();
    let fs = FsSnapshot::new();
    let plan = decativate_current(&state, &fs, ".");
    assert!(plan.old_vars.is_none());
    assert!(plan.removals.is_empty());
    assert!(plan.failure.is_none());
    assert!(!plan.delete_vars_record);
    assert!(!plan.delete_links_record);
}

#[test]
fn activate_then_deactivate_round_trip() {
    let cfg = envs(&[("dev", &[("K", "V")], None)]);
    let state = ActiveState::inactive();
    let fs = FsSnapshot::new();
    let name = "dev".to_string();
    let outcome = activate(&cfg, Some(&name), &state, &fs, &".".to_string()).unwrap();
    assert_eq!(outcome.summary.old_env.len(), 0);
    assert_eq!(
        outcome.summary.new_env.get(&"K".to_string()).unwrap(),
        "V"
    );
    let plan = outcome.activation.unwrap();
    assert!(plan.failure.is_none());
    let written = plan.vars_record.unwrap();
    assert_eq!(written.get(&"K".to_string()).unwrap(), "V");

    let state2 = ActiveState {
        vars: Some(written),
        links: None,
    };
    let plan2 = decativate_current(&state2, &fs, ".");
    let old = plan2.old_vars.unwrap();
    assert_eq!(old.len(), 1);
    assert_eq!(old.get(&"K".to_string()).unwrap(), "V");
    assert!(plan2.delete_vars_record);
    assert!(!plan2.delete_links_record);
    assert!(plan2.removals.is_empty());
    assert!(plan2.failure.is_none());
}

#[test]
fn switching_records_only_latest_environment() {
    let cfg = envs(&[("test", &[("A", "1")], None), ("prod", &[("B", "2")], None)]);
    let fs = FsSnapshot::new();
    let dir = ".".to_string();

    let first = activate(&cfg, Some(&"test".to_string()), &ActiveState::inactive(), &fs, &dir)
        .unwrap();
    let state = ActiveState {
        vars: first.activation.unwrap().vars_record,
        links: None,
    };

    let second = activate(&cfg, Some(&"prod".to_string()), &state, &fs, &dir).unwrap();
    assert!(second.deactivation.delete_vars_record);
    let record = second.activation.unwrap().vars_record.unwrap();
    assert_eq!(record.len(), 1);
    assert!(record.get(&"A".to_string()).is_none());
    assert_eq!(record.get(&"B".to_string()).unwrap(), "2");
}

#[test]
fn unknown_environment_is_refused() {
    let cfg = envs(&[("dev", &[("K", "V")], None)]);
    let r = activate(
        &cfg,
        Some(&"prod".to_string()),
        &ActiveState::inactive(),
        &FsSnapshot::new(),
        &".".to_string(),
    );
    match r {
        Err(SelectionError::UnknownEnvironment(n)) => assert_eq!(n, "prod"),
        _ => panic!("expected an unknown-environment refusal"),
    }
}

#[test]
fn empty_declarations_are_refused_only_on_selection() {
    let cfg = parse_declarations("").unwrap();
    let r = cfg.select(&"dev".to_string());
    assert!(matches!(r, Err(SelectionError::NoEnvironmentsDeclared)));

    let out = activate(
        &cfg,
        None,
        &ActiveState::inactive(),
        &FsSnapshot::new(),
        &".".to_string(),
    )
    .unwrap();
    assert_eq!(out.summary.old_env.len(), 0);
    assert_eq!(out.summary.new_env.len(), 0);
}

#[test]
fn activate_new_plans_variable_record() {
    let vars = Some(smap(&[("X", "7")]));
    let plan = activate_new(&vars, &None, &FsSnapshot::new(), ".");
    assert_eq!(plan.vars_record.unwrap().get(&"X".to_string()).unwrap(), "7");
    assert!(plan.creates.is_empty());
    assert!(plan.failure.is_none());
}

#[test]
fn halted_deactivation_applies_nothing_new() {
    let cfg = envs(&[("dev", &[("K", "V")], None)]);
    let mut fs = FsSnapshot::new();
    fs.record(
        "was_a_link".to_string(),
        FsEntry { exists: true, is_symlink: false },
    );
    let state = ActiveState {
        vars: Some(smap(&[("OLDVAR", "x")])),
        links: Some(smap(&[("was_a_link", "some_source")])),
    };
    let outcome = activate(&cfg, Some(&"dev".to_string()), &state, &fs, &".".to_string())
        .unwrap();
    assert!(outcome.deactivation.failure.is_some());
    assert!(outcome.activation.is_none());
    assert!(outcome.deactivation.removals.is_empty());
    assert!(!outcome.deactivation.delete_links_record);
}
