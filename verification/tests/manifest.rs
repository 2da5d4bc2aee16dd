use restore_engine::catalog::{load_toml_defs, Catalog};
use restore_engine::model::{
    all_distinct, has_distinct_keys, Config, CustomPackages, Flag, FlagValue, ManagerRequest,
    ManagerSpec, PackageList, PackageManagement, TomlConfig, TomlPackageManager,
};
use restore_engine::session::{manager_state, ManagerState};

fn strings(items: &[&str]) -> Vec<String> {
    items.iter().map(|s| s.to_string()).collect()
}

fn flag(name: &str) -> Flag {
    Flag { name: name.to_string(), value: FlagValue::Null }
}

fn request(id: &str, flags: &[&str]) -> ManagerRequest {
    ManagerRequest {
        id: id.to_string(),
        spec: ManagerSpec::Object { enabled: true, flags: flags.iter().map(|f| flag(f)).collect() },
    }
}

fn config(managers: Vec<ManagerRequest>, lists: &[&str]) -> Config {
    Config {
        package_management: PackageManagement { pre: vec![], post: vec![], managers },
        custom_packages: CustomPackages {
            pre: vec![],
            post: vec![],
            by_manager: lists
                .iter()
                .map(|m| PackageList { manager: m.to_string(), packages: vec![] })
                .collect(),
        },
    }
}

fn catalog() -> Catalog {
    load_toml_defs(TomlConfig {
        package_manager: vec![
            TomlPackageManager {
                id: "apt".to_string(),
                check: "apt -v".to_string(),
                bootstrap: String::new(),
                enable: String::new(),
                install: "apt install {{package}}".to_string(),
                others: None,
            },
            TomlPackageManager {
                id: "pip".to_string(),
                check: " ".to_string(),
                bootstrap: String::new(),
                enable: String::new(),
                install: "pip install {{package}}".to_string(),
                others: None,
            },
        ],
    })
}

#[test]
fn all_distinct_finds_repeats() {
    assert!(all_distinct(&vec![]));
    assert!(all_distinct(&strings(&["a"])));
    assert!(all_distinct(&strings(&["a", "b", "c"])));
    assert!(!all_distinct(&strings(&["a", "b", "a"])));
    assert!(!all_distinct(&strings(&["b", "a", "a"])));
    assert!(all_distinct(&strings(&["a", "A"])));
}

#[test]
fn manifest_with_distinct_keys() {
    let cfg = config(vec![request("apt", &["y", "q"]), request("snap", &["y"])], &["apt", "snap"]);
    assert!(has_distinct_keys(&cfg));
    assert!(has_distinct_keys(&config(vec![], &[])));
}

#[test]
fn manifest_with_manager_asked_twice() {
    let cfg = config(vec![request("apt", &[]), request("apt", &[])], &[]);
    assert!(!has_distinct_keys(&cfg));
}

#[test]
fn manifest_with_flag_named_twice() {
    let cfg = config(vec![request("apt", &["y", "y"])], &[]);
    assert!(!has_distinct_keys(&cfg));
}

#[test]
fn manifest_with_two_lists_for_one_manager() {
    let cfg = config(vec![request("apt", &[])], &["apt", "snap", "apt"]);
    assert!(!has_distinct_keys(&cfg));
}

#[test]
fn disabled_manager_is_disabled_whatever_was_probed() {
    let off = ManagerRequest { id: "apt".to_string(), spec: ManagerSpec::Bool(false) };
    assert_eq!(manager_state(&off, &catalog(), &vec![]), Some(ManagerState::Disabled));
    assert_eq!(manager_state(&off, &catalog(), &vec![true, true, true]), Some(ManagerState::Disabled));
    let unknown_off = ManagerRequest { id: "brew".to_string(), spec: ManagerSpec::Bool(false) };
    assert_eq!(manager_state(&unknown_off, &catalog(), &vec![]), Some(ManagerState::Disabled));
}

#[test]
fn undefined_manager_is_skipped() {
    let unknown = ManagerRequest { id: "brew".to_string(), spec: ManagerSpec::Bool(true) };
    assert_eq!(manager_state(&unknown, &catalog(), &vec![]), Some(ManagerState::Skipped));
}

#[test]
fn manager_without_check_counts_as_installed() {
    let pip = ManagerRequest { id: "pip".to_string(), spec: ManagerSpec::Bool(true) };
    assert_eq!(manager_state(&pip, &catalog(), &vec![]), Some(ManagerState::Installed));
}

#[test]
fn probed_manager_goes_through_its_states() {
    let apt = request("apt", &[]);
    let c = catalog();
    assert_eq!(manager_state(&apt, &c, &vec![]), None);
    assert_eq!(manager_state(&apt, &c, &vec![true]), Some(ManagerState::CheckedPresent));
    assert_eq!(manager_state(&apt, &c, &vec![false]), Some(ManagerState::CheckedAbsent));
    assert_eq!(manager_state(&apt, &c, &vec![false, true]), Some(ManagerState::CheckedPresent));
    assert_eq!(manager_state(&apt, &c, &vec![true, false]), Some(ManagerState::CheckedAbsent));
    assert_eq!(manager_state(&apt, &c, &vec![false, false, true]), Some(ManagerState::Installed));
    assert_eq!(manager_state(&apt, &c, &vec![true, true, false]), Some(ManagerState::Skipped));
}
