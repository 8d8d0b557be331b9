use activate::emit::{eval_output, render_configmap, render_dotenv, sorted_entries};
use activate::engine::activate;
use activate::links::FsSnapshot;
use activate::smap::StrMap;
use activate::state::ActiveState;
use activate::config::{EnvironmentData, Environments};

fn smap(pairs: &[(&str, &str)]) -> StrMap {
    StrMap::from_pairs(
        pairs
            .iter()
            .map(|(k, v)| (k.to_string(), v.to_string()))
            .collect(),
    )
}

fn eval_envs() -> Environments {
    Environments {
        declared: Some(vec![
            (
                "test".to_string(),
                EnvironmentData {
                    vars: Some(smap(&[
                        ("PYTHONPATH", "src"),
                        ("DJANGO_SETTINGS_MODULE", "settings"),
                    ])),
                    links: None,
                },
            ),
            (
                "dev".to_string(),
                EnvironmentData {
                    vars: Some(smap(&[
                        ("XDG_CONFIG_HOME", "config"),
                        ("XDG_DATA_HOME", "data"),
                        ("XDG_CACHE_HOME", "cache"),
                    ])),
                    links: None,
                },
            ),
            (
                "prod".to_string(),
                EnvironmentData {
                    vars: None,
                    links: None,
                },
            ),
        ]),
    }
}

fn state_after(outcome: &activate::engine::ActivationOutcome) -> ActiveState {
    ActiveState {
        vars: outcome
            .activation
            .as_ref()
            .and_then(|p| p.vars_record.as_ref().map(|m| m.clone_map())),
        links: None,
    }
}

#[test]
fn env_eval() {
    let cfg = eval_envs();
    let fs = FsSnapshot::new();
    let dir = ".".to_string();

    let o1 = activate(&cfg, Some(&"test".to_string()), &ActiveState::inactive(), &fs, &dir)
        .unwrap();
    assert_eq!(
        eval_output(&o1.summary.old_env, &o1.summary.new_env),
        "export DJANGO_SETTINGS_MODULE=settings\nexport PYTHONPATH=src"
    );

    let o2 = activate(&cfg, Some(&"dev".to_string()), &state_after(&o1), &fs, &dir).unwrap();
    assert_eq!(
        eval_output(&o2.summary.old_env, &o2.summary.new_env),
        "unset DJANGO_SETTINGS_MODULE\nunset PYTHONPATH\nexport XDG_CACHE_HOME=cache\nexport XDG_CONFIG_HOME=config\nexport XDG_DATA_HOME=data"
    );

    let o3 = activate(&cfg, Some(&"prod".to_string()), &state_after(&o2), &fs, &dir).unwrap();
    assert_eq!(
        eval_output(&o3.summary.old_env, &o3.summary.new_env),
        "unset XDG_CACHE_HOME\nunset XDG_CONFIG_HOME\nunset XDG_DATA_HOME"
    );

    let o4 = activate(&cfg, Some(&"dev".to_string()), &state_after(&o3), &fs, &dir).unwrap();
    assert_eq!(
        eval_output(&o4.summary.old_env, &o4.summary.new_env),
        "export XDG_CACHE_HOME=cache\nexport XDG_CONFIG_HOME=config\nexport XDG_DATA_HOME=data"
    );

    let o5 = activate(&cfg, None, &state_after(&o4), &fs, &dir).unwrap();
    assert_eq!(
        eval_output(&o5.summary.old_env, &o5.summary.new_env),
        "unset XDG_CACHE_HOME\nunset XDG_CONFIG_HOME\nunset XDG_DATA_HOME"
    );
}

#[test]
fn scenario_port_switch() {
    let cfg = Environments {
        declared: Some(vec![
            (
                "dev".to_string(),
                EnvironmentData {
                    vars: Some(smap(&[("PORT", "8080")])),
                    links: None,
                },
            ),
            (
                "prod".to_string(),
                EnvironmentData {
                    vars: Some(smap(&[("PORT", "9090")])),
                    links: None,
                },
            ),
        ]),
    };
    let fs = FsSnapshot::new();
    let dir = "/proj".to_string();

    let o1 = activate(&cfg, Some(&"dev".to_string()), &ActiveState::inactive(), &fs, &dir)
        .unwrap();
    assert_eq!(o1.summary.old_env.len(), 0);
    assert_eq!(o1.summary.new_env.get(&"PORT".to_string()).unwrap(), "8080");
    assert_eq!(
        eval_output(&o1.summary.old_env, &o1.summary.new_env),
        "export PORT=8080"
    );

    let o2 = activate(&cfg, Some(&"prod".to_string()), &state_after(&o1), &fs, &dir).unwrap();
    assert_eq!(o2.summary.old_env.get(&"PORT".to_string()).unwrap(), "8080");
    assert_eq!(o2.summary.new_env.get(&"PORT".to_string()).unwrap(), "9090");
    assert_eq!(
        eval_output(&o2.summary.old_env, &o2.summary.new_env),
        "unset PORT\nexport PORT=9090"
    );

    let o3 = activate(&cfg, None, &state_after(&o2), &fs, &dir).unwrap();
    assert_eq!(o3.summary.old_env.get(&"PORT".to_string()).unwrap(), "9090");
    assert_eq!(o3.summary.new_env.len(), 0);
    assert_eq!(
        eval_output(&o3.summary.old_env, &o3.summary.new_env),
        "unset PORT"
    );
}

#[test]
fn empty_maps_give_empty_output() {
    let empty = StrMap::new();
    assert!(empty.is_empty());
    assert_eq!(eval_output(&empty, &empty), "");
}

#[test]
fn sorted_entries_orders_by_name() {
    let m = smap(&[("b", "2"), ("a", "1"), ("c", "3")]);
    let v = sorted_entries(&m);
    let keys: Vec<&str> = v.iter().map(|p| p.0.as_str()).collect();
    assert_eq!(keys, vec!["a", "b", "c"]);
}

#[test]
fn dot_env_file() {
    let m = smap(&[("TEST_ENV2", "test2"), ("TEST_ENV", "test")]);
    assert_eq!(
        render_dotenv(&m),
        "# Generated - managed by `activate`.\n\nTEST_ENV=test\nTEST_ENV2=test2\n"
    );
}

#[test]
fn configmap_artifact() {
    let m = smap(&[("PYTHONPATH", "src")]);
    assert_eq!(
        render_configmap("activate", &m),
        "# Generated - managed by `activate`.\n\napiVersion: v1\nkind: ConfigMap\nmetadata:\n  name: activate\ndata:\n  PYTHONPATH: \"src\"\n"
    );
}
