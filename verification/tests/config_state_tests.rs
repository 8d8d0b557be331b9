use activate::config::parse_declarations;
use activate::errors::{ConfigError, SelectionError, StateStoreError};
use activate::smap::StrMap;
use activate::state::{
    read_env_record, read_links_record, write_env_pretty, write_env_record,
};

fn smap(pairs: &[(&str, &str)]) -> StrMap {
    StrMap::from_pairs(
        pairs
            .iter()
            .map(|(k, v)| (k.to_string(), v.to_string()))
            .collect(),
    )
}

#[test]
fn declarations_parse_from_toml() {
    let text = r#"
[dev.env]
PORT = "8080"

[dev.links]
"new_name" = "real_file"

[prod.env]
PORT = "9090"
"#;
    let cfg = parse_declarations(text).unwrap();
    let dev = cfg.select(&"dev".to_string()).unwrap();
    let vars = dev.vars.as_ref().unwrap();
    assert_eq!(vars.get(&"PORT".to_string()).unwrap(), "8080");
    let links = dev.links.as_ref().unwrap();
    assert_eq!(links.get(&"new_name".to_string()).unwrap(), "real_file");

    let prod = cfg.select(&"prod".to_string()).unwrap();
    assert!(prod.links.is_none());
    assert_eq!(
        prod.vars.as_ref().unwrap().get(&"PORT".to_string()).unwrap(),
        "9090"
    );

    assert!(matches!(
        cfg.select(&"missing".to_string()),
        Err(SelectionError::UnknownEnvironment(n)) if n == "missing"
    ));
}

#[test]
fn malformed_declarations_are_refused() {
    assert!(matches!(
        parse_declarations("not = valid = toml"),
        Err(ConfigError::Parse)
    ));
}

#[test]
fn environment_without_sections_has_neither_map() {
    let cfg = parse_declarations("[bare]\n").unwrap();
    let bare = cfg.select(&"bare".to_string()).unwrap();
    assert!(bare.vars.is_none());
    assert!(bare.links.is_none());
}

#[test]
fn env_record_round_trips_through_json() {
    let m = smap(&[("PYTHONPATH", "src"), ("DJANGO_SETTINGS_MODULE", "settings")]);
    let text = write_env_record(&m).unwrap();
    let back = read_env_record(&text).unwrap();
    assert_eq!(back.len(), 2);
    assert_eq!(back.get(&"PYTHONPATH".to_string()).unwrap(), "src");
    assert_eq!(
        back.get(&"DJANGO_SETTINGS_MODULE".to_string()).unwrap(),
        "settings"
    );
}

#[test]
fn env_record_encodes_sorted_keys() {
    let m = smap(&[("B", "2"), ("A", "1")]);
    assert_eq!(write_env_record(&m).unwrap(), "{\"A\":\"1\",\"B\":\"2\"}");
    assert_eq!(
        write_env_pretty(&m).unwrap(),
        "{\n  \"A\": \"1\",\n  \"B\": \"2\"\n}"
    );
}

#[test]
fn empty_env_record_means_no_variables() {
    let m = read_env_record("").unwrap();
    assert_eq!(m.len(), 0);
    let n = read_env_record("null").unwrap();
    assert_eq!(n.len(), 0);
}

#[test]
fn corrupt_env_record_is_refused() {
    assert!(matches!(
        read_env_record("{\"A\": 1}"),
        Err(StateStoreError::CorruptVariables)
    ));
}

#[test]
fn links_record_parses_appended_lines() {
    let text = "\"another/test_file1\"=\"test_file1\"\n\"test_file2_new_name\"=\"test_file2\"\n";
    let m = read_links_record(text).unwrap();
    assert_eq!(m.len(), 2);
    assert_eq!(
        m.get(&"another/test_file1".to_string()).unwrap(),
        "test_file1"
    );
    let empty = read_links_record("").unwrap();
    assert_eq!(empty.len(), 0);
}

#[test]
fn corrupt_links_record_is_refused() {
    assert!(matches!(
        read_links_record("\"unterminated"),
        Err(StateStoreError::CorruptLinks)
    ));
}

#[test]
fn scaffold_files_have_fixed_contents() {
    assert_eq!(
        activate::scaffold::gitignore_content(),
        ".state/\nactive/\nREADME.md"
    );
    assert!(activate::scaffold::readme_root_content().contains("`.state` directory"));
    assert!(activate::scaffold::readme_state_content().starts_with("This directory should not be modified."));
    assert!(activate::scaffold::readme_active_content().contains("safe to consume"));
}
