use cce::config::ValidationPolicy;
use cce::error::CceError;
use cce::manager::{picker_selection, DirEntry, EnvironmentManager};
use cce::parse::FileSource;
use cce::vars::VarMap;

fn manager_at(dir: &str) -> EnvironmentManager {
    EnvironmentManager::new(Some(String::from(dir)), None).unwrap()
}

fn text_entry(file_name: &str, contents: &str) -> DirEntry {
    DirEntry {
        file_name: String::from(file_name),
        is_file: true,
        source: FileSource::Text(String::from(contents)),
    }
}

const GOOD: &str = "ANTHROPIC_BASE_URL=https://api.example.com\nANTHROPIC_AUTH_TOKEN=tok123\n";

#[test]
fn test_environment_manager_new() {
    let manager = EnvironmentManager::new(None, Some(String::from("/home/user"))).unwrap();
    assert!(manager.config_dir().ends_with("cce"));
    assert_eq!(manager.config_dir(), "/home/user/.config/cce");
}

#[test]
fn test_environment_manager_new_prefers_override() {
    let manager = manager_at("/custom/config");
    assert_eq!(manager.config_dir(), "/custom/config/cce");
}

#[test]
fn test_environment_manager_new_blank_override_falls_back() {
    let manager =
        EnvironmentManager::new(Some(String::from("   ")), Some(String::from("/home/u"))).unwrap();
    assert_eq!(manager.config_dir(), "/home/u/.config/cce");
}

#[test]
fn test_environment_manager_new_nothing_available() {
    match EnvironmentManager::new(None, None) {
        Err(CceError::MissingDirectory(p)) => assert_eq!(p, "~"),
        other => panic!("expected MissingDirectory, got {:?}", other),
    }
}

#[test]
fn test_list_environments_empty() {
    let manager = manager_at("/tmp/none");
    let entries: Vec<DirEntry> = Vec::new();
    assert_eq!(manager.list_environments(true, true, &entries).unwrap().len(), 0);
}

#[test]
fn test_list_environments_missing_root_is_empty() {
    let manager = manager_at("/tmp/none");
    let entries: Vec<DirEntry> = Vec::new();
    let envs = manager.list_environments(false, false, &entries).unwrap();
    assert_eq!(envs.len(), 0);
}

#[test]
fn test_list_environments_root_not_a_directory() {
    let manager = manager_at("/tmp/afile");
    let entries: Vec<DirEntry> = Vec::new();
    match manager.list_environments(true, false, &entries) {
        Err(CceError::MissingDirectory(p)) => assert_eq!(p, "/tmp/afile/cce"),
        other => panic!("expected MissingDirectory, got {:?}", other),
    }
}

#[test]
fn test_list_environments_sorted_and_skips_malformed() {
    let manager = manager_at("/cfg");
    // Out of name order on purpose; c.env is malformed.
    let entries = vec![
        text_entry("b.env", GOOD),
        text_entry("c.env", "THIS IS NOT AN ASSIGNMENT\n"),
        text_entry("a.env", GOOD),
    ];
    let envs = manager.list_environments(true, true, &entries).unwrap();
    assert_eq!(envs.len(), 2);
    assert_eq!(envs[0].name, "a");
    assert_eq!(envs[1].name, "b");
}

#[test]
fn test_list_environments_ignores_non_candidates() {
    let manager = manager_at("/cfg");
    let entries = vec![
        text_entry("README.md", "not an env file"),
        DirEntry {
            file_name: String::from("sub.env"),
            is_file: false,
            source: FileSource::Text(String::from("")),
        },
        text_entry(".env", GOOD),
        text_entry("a.env", GOOD),
    ];
    let envs = manager.list_environments(true, true, &entries).unwrap();
    assert_eq!(envs.len(), 1);
    assert_eq!(envs[0].name, "a");
}

#[test]
fn test_discover_entries_reports_failures() {
    let manager = manager_at("/cfg");
    let entries = vec![
        text_entry("a.env", GOOD),
        text_entry("c.env", "BROKEN LINE\n"),
        text_entry("d.env", "ANTHROPIC_BASE_URL=https://x\n"),
    ];
    let (envs, failures) = manager.discover_entries(&entries, ValidationPolicy::RequireAnyOfTwo);
    assert_eq!(envs.len(), 1);
    assert_eq!(envs[0].name, "a");
    assert_eq!(failures.len(), 2);
    assert_eq!(failures[0].0, "c");
    assert!(matches!(failures[0].1, CceError::InvalidFormat(_)));
    assert_eq!(failures[1].0, "d");
    assert!(matches!(failures[1].1, CceError::ValidationFailed(_)));
}

#[test]
fn test_list_environments_byte_wise_order() {
    // Upper-case names sort before lower-case ones, byte-wise ascending.
    let manager = manager_at("/cfg");
    let entries = vec![text_entry("a.env", GOOD), text_entry("Z.env", GOOD)];
    let envs = manager.list_environments(true, true, &entries).unwrap();
    assert_eq!(envs.len(), 2);
    assert_eq!(envs[0].name, "Z");
    assert_eq!(envs[1].name, "a");
}

#[test]
fn test_load_environment_missing_file() {
    let manager = manager_at("/cfg");
    let src = FileSource::Text(String::new());
    match manager.load_environment("missing", false, &src) {
        Err(CceError::MissingFile(p)) => assert_eq!(p, "/cfg/cce/missing.env"),
        other => panic!("expected MissingFile, got {:?}", other),
    }
}

#[test]
fn test_load_environment_basic_end_to_end() {
    // A file `basic.env` holding exactly a base URL and a token resolves
    // to a mapping with exactly those two entries and passes validation.
    let manager = manager_at("/cfg");
    let src = FileSource::Text(String::from(
        "ANTHROPIC_BASE_URL=https://api.example.com\nANTHROPIC_AUTH_TOKEN=tok123",
    ));
    let env = manager.load_environment("basic", true, &src).unwrap();
    assert_eq!(env.name, "basic");
    assert_eq!(env.env_vars.len(), 2);
    assert_eq!(
        env.env_vars.get("ANTHROPIC_BASE_URL").unwrap().as_str(),
        "https://api.example.com"
    );
    assert_eq!(env.env_vars.get("ANTHROPIC_AUTH_TOKEN").unwrap().as_str(), "tok123");
    assert!(env.validate().is_ok());
}

#[test]
fn test_env_file_path_joins_name_and_extension() {
    let manager = manager_at("/cfg");
    assert_eq!(manager.env_file_path("dev"), "/cfg/cce/dev.env");
}

#[test]
fn test_var_map_last_write_wins() {
    let mut m = VarMap::new();
    m.insert(String::from("K"), String::from("1"));
    m.insert(String::from("K"), String::from("2"));
    assert_eq!(m.len(), 1);
    assert_eq!(m.get("K").unwrap().as_str(), "2");
    assert!(m.get("ABSENT").is_none());
}

#[test]
fn test_picker_selection_trims_and_detects_cancel() {
    assert_eq!(picker_selection(" dev \n").unwrap(), "dev");
    assert!(picker_selection("").is_none());
    assert!(picker_selection("  \n").is_none());
}
