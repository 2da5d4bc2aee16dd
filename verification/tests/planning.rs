use restore_engine::catalog::{load_toml_defs, Catalog};
use restore_engine::model::{
    Config, CustomPackages, Flag, FlagValue, ManagerRequest, ManagerSpec, PackageList,
    PackageManagement, TomlConfig, TomlPackageManager,
};
use restore_engine::plan::{command_piece, find_list, plan, Guard, Step, StepKind};
use restore_engine::session::{commands_run, guard_admits, replay, Session};

fn definition(id: &str, check: &str, enable: &str, bootstrap: &str, install: &str) -> TomlPackageManager {
    TomlPackageManager {
        id: id.to_string(),
        check: check.to_string(),
        bootstrap: bootstrap.to_string(),
        enable: enable.to_string(),
        install: install.to_string(),
        others: None,
    }
}

fn catalog_of(defs: Vec<TomlPackageManager>) -> Catalog {
    load_toml_defs(TomlConfig { package_manager: defs })
}

fn strings(items: &[&str]) -> Vec<String> {
    items.iter().map(|s| s.to_string()).collect()
}

fn config(
    pre: &[&str],
    post: &[&str],
    managers: Vec<(&str, ManagerSpec)>,
    lists: Vec<(&str, &[&str])>,
) -> Config {
    Config {
        package_management: PackageManagement {
            pre: strings(pre),
            post: strings(post),
            managers: managers
                .into_iter()
                .map(|(id, spec)| ManagerRequest { id: id.to_string(), spec })
                .collect(),
        },
        custom_packages: CustomPackages {
            pre: vec![],
            post: vec![],
            by_manager: lists
                .into_iter()
                .map(|(m, p)| PackageList { manager: m.to_string(), packages: strings(p) })
                .collect(),
        },
    }
}

fn step(kind: StepKind, entry: usize, command: &str, guard: Guard) -> Step {
    Step { kind, entry, command: command.to_string(), guard }
}

fn commands(steps: &[Step], ran: &[usize]) -> Vec<String> {
    ran.iter().map(|k| steps[*k].command.clone()).collect()
}

fn full() -> (Config, Catalog) {
    let catalog = catalog_of(vec![definition(
        "flatpak",
        " flatpak --version ",
        "flatpak enable {{remote}}",
        "apt install flatpak {{y}}",
        "flatpak install {{remote}} {{package}}",
    )]);
    let cfg = config(
        &["echo start", "   "],
        &["echo done"],
        vec![(
            "flatpak",
            ManagerSpec::Object {
                enabled: true,
                flags: vec![Flag {
                    name: "remote".to_string(),
                    value: FlagValue::Text("flathub".to_string()),
                }],
            },
        )],
        vec![("flatpak", &["gimp", "vlc"])],
    );
    (cfg, catalog)
}

#[test]
fn demo_manager_already_present() {
    let catalog = catalog_of(vec![definition("demo", "true", "", "", "echo {{package}}")]);
    let cfg = config(
        &[],
        &[],
        vec![("demo", ManagerSpec::Object { enabled: true, flags: vec![] })],
        vec![("demo", &["a", "b"])],
    );
    let steps = plan(&cfg, &catalog);
    assert_eq!(
        steps,
        vec![
            step(StepKind::Probe, 0, "true", Guard::Always),
            step(StepKind::Probe, 0, "true", Guard::Always),
            step(StepKind::Probe, 0, "true", Guard::Always),
            step(StepKind::Install, 0, "echo a", Guard::WhenPresent),
            step(StepKind::Install, 0, "echo b", Guard::WhenPresent),
        ]
    );
    let ran = replay(&steps, &vec![true; steps.len()]);
    assert_eq!(ran, vec![0, 1, 2, 3, 4]);
    let installs: Vec<String> = ran
        .iter()
        .filter(|k| steps[**k].kind == StepKind::Install)
        .map(|k| steps[*k].command.clone())
        .collect();
    assert_eq!(installs, strings(&["echo a", "echo b"]));
    assert!(ran.iter().all(|k| steps[*k].kind != StepKind::RawEnable
        && steps[*k].kind != StepKind::FlaggedEnable
        && steps[*k].kind != StepKind::Bootstrap));
}

#[test]
fn plan_lists_every_step_in_order() {
    let (cfg, catalog) = full();
    let steps = plan(&cfg, &catalog);
    assert_eq!(
        steps,
        vec![
            step(StepKind::PreScript, 0, "echo start", Guard::Always),
            step(StepKind::Probe, 0, "flatpak --version", Guard::Always),
            step(StepKind::RawEnable, 0, "flatpak enable {{remote}}", Guard::WhenAbsent),
            step(StepKind::FlaggedEnable, 0, "flatpak enable flathub", Guard::Always),
            step(StepKind::Probe, 0, "flatpak --version", Guard::Always),
            step(StepKind::Bootstrap, 0, "apt install flatpak {{y}}", Guard::WhenAbsent),
            step(StepKind::Probe, 0, "flatpak --version", Guard::Always),
            step(StepKind::Install, 0, "flatpak install flathub gimp", Guard::WhenPresent),
            step(StepKind::Install, 0, "flatpak install flathub vlc", Guard::WhenPresent),
            step(StepKind::PostScript, 0, "echo done", Guard::Always),
        ]
    );
}

#[test]
fn present_manager_is_neither_enabled_raw_nor_bootstrapped() {
    let (cfg, catalog) = full();
    let steps = plan(&cfg, &catalog);
    let ran = replay(&steps, &vec![true; steps.len()]);
    assert_eq!(
        commands(&steps, &ran),
        strings(&[
            "echo start",
            "flatpak --version",
            "flatpak enable flathub",
            "flatpak --version",
            "flatpak --version",
            "flatpak install flathub gimp",
            "flatpak install flathub vlc",
            "echo done",
        ])
    );
}

#[test]
fn absent_manager_is_enabled_bootstrapped_and_skipped() {
    let (cfg, catalog) = full();
    let steps = plan(&cfg, &catalog);
    let ran = replay(&steps, &vec![false; steps.len()]);
    assert_eq!(
        commands(&steps, &ran),
        strings(&[
            "echo start",
            "flatpak --version",
            "flatpak enable {{remote}}",
            "flatpak enable flathub",
            "flatpak --version",
            "apt install flatpak {{y}}",
            "flatpak --version",
            "echo done",
        ])
    );
}

#[test]
fn manager_found_after_bootstrap_is_installed_into() {
    let (cfg, catalog) = full();
    let steps = plan(&cfg, &catalog);
    let mut outcomes = vec![false; steps.len()];
    outcomes[6] = true;
    let ran = replay(&steps, &outcomes);
    assert_eq!(ran, vec![0, 1, 2, 3, 4, 5, 6, 7, 8, 9]);
}

#[test]
fn manager_found_after_enable_is_not_bootstrapped() {
    let (cfg, catalog) = full();
    let steps = plan(&cfg, &catalog);
    let mut outcomes = vec![true; steps.len()];
    outcomes[1] = false;
    let ran = replay(&steps, &outcomes);
    assert_eq!(ran, vec![0, 1, 2, 3, 4, 6, 7, 8, 9]);
}

#[test]
fn failed_install_does_not_stop_the_loop() {
    let (cfg, catalog) = full();
    let steps = plan(&cfg, &catalog);
    let mut outcomes = vec![true; steps.len()];
    outcomes[7] = false;
    let with_failure = replay(&steps, &outcomes);
    let without = replay(&steps, &vec![true; steps.len()]);
    assert_eq!(with_failure, without);
    assert!(with_failure.contains(&8));
}

#[test]
fn failed_scripts_and_enable_do_not_stop_the_run() {
    let (cfg, catalog) = full();
    let steps = plan(&cfg, &catalog);
    let mut outcomes = vec![true; steps.len()];
    outcomes[0] = false;
    outcomes[3] = false;
    outcomes[9] = false;
    assert_eq!(replay(&steps, &outcomes), replay(&steps, &vec![true; steps.len()]));
}

#[test]
fn same_inputs_give_the_same_commands() {
    let (cfg, catalog) = full();
    let outcomes = vec![true, false, true, true, false, true, true, false, true, true];
    let first = commands_run(&cfg, &catalog, &outcomes);
    let second = commands_run(&cfg, &catalog, &outcomes);
    assert_eq!(first, second);
    assert_eq!(
        first,
        strings(&[
            "echo start",
            "flatpak --version",
            "flatpak enable {{remote}}",
            "flatpak enable flathub",
            "flatpak --version",
            "apt install flatpak {{y}}",
            "flatpak --version",
            "flatpak install flathub gimp",
            "flatpak install flathub vlc",
            "echo done",
        ])
    );
}

#[test]
fn missing_outcomes_count_as_success() {
    let (cfg, catalog) = full();
    let steps = plan(&cfg, &catalog);
    assert_eq!(replay(&steps, &vec![]), replay(&steps, &vec![true; steps.len()]));
}

#[test]
fn disabled_and_unknown_managers_have_no_steps() {
    let catalog = catalog_of(vec![definition("apt", "apt -v", "", "", "apt install {{package}}")]);
    let cfg = config(
        &[],
        &[],
        vec![("apt", ManagerSpec::Bool(false)), ("brew", ManagerSpec::Bool(true))],
        vec![("apt", &["curl"]), ("brew", &["wget"])],
    );
    assert_eq!(plan(&cfg, &catalog), vec![]);
    assert_eq!(commands_run(&cfg, &catalog, &vec![]), Vec::<String>::new());
}

#[test]
fn empty_check_counts_as_present() {
    let catalog = catalog_of(vec![definition("pip", "  ", "pip-enable", "pip-bootstrap", "pip install {{package}}")]);
    let cfg = config(&[], &[], vec![("pip", ManagerSpec::Bool(true))], vec![("pip", &["requests"])]);
    let steps = plan(&cfg, &catalog);
    assert_eq!(steps, vec![step(StepKind::Install, 0, "pip install requests", Guard::Always)]);
    assert_eq!(replay(&steps, &vec![false]), vec![0]);
}

#[test]
fn manager_without_packages_is_only_probed() {
    let catalog = catalog_of(vec![definition("apt", "apt -v", "", "", "apt install {{package}}")]);
    let cfg = config(&[], &[], vec![("apt", ManagerSpec::Bool(true))], vec![]);
    let steps = plan(&cfg, &catalog);
    assert_eq!(steps.len(), 3);
    assert!(steps.iter().all(|s| s.kind == StepKind::Probe && s.command == "apt -v"));
}

#[test]
fn bootstrap_uses_flags_where_they_change_it() {
    let catalog = catalog_of(vec![definition("nix", "nix -v", "", "get-nix {{mode}}", "nix-env -i {{package}}")]);
    let cfg = config(
        &[],
        &[],
        vec![(
            "nix",
            ManagerSpec::Object {
                enabled: true,
                flags: vec![Flag { name: "mode".to_string(), value: FlagValue::Text("daemon".to_string()) }],
            },
        )],
        vec![],
    );
    let steps = plan(&cfg, &catalog);
    assert_eq!(steps[1], step(StepKind::Probe, 0, "nix -v", Guard::Always));
    assert_eq!(steps[2], step(StepKind::Bootstrap, 0, "get-nix daemon", Guard::WhenAbsent));
}

#[test]
fn managers_are_planned_in_manifest_order() {
    let catalog = catalog_of(vec![
        definition("a", "", "", "", "a {{package}}"),
        definition("b", "", "", "", "b {{package}}"),
    ]);
    let cfg = config(
        &[],
        &[],
        vec![("b", ManagerSpec::Bool(true)), ("a", ManagerSpec::Bool(true))],
        vec![("a", &["x"]), ("b", &["y", "z"])],
    );
    let steps = plan(&cfg, &catalog);
    assert_eq!(
        steps,
        vec![
            step(StepKind::Install, 0, "b y", Guard::Always),
            step(StepKind::Install, 0, "b z", Guard::Always),
            step(StepKind::Install, 1, "a x", Guard::Always),
        ]
    );
}

#[test]
fn blank_scripts_are_left_out_and_places_kept() {
    let catalog = catalog_of(vec![]);
    let cfg = config(&["", " a ", "\t", "b"], &[" "], vec![], vec![]);
    assert_eq!(
        plan(&cfg, &catalog),
        vec![
            step(StepKind::PreScript, 1, "a", Guard::Always),
            step(StepKind::PreScript, 3, "b", Guard::Always),
        ]
    );
}

#[test]
fn command_piece_trims_and_drops_blank() {
    assert_eq!(
        command_piece(StepKind::Probe, 2, "  x y \n", Guard::Always),
        vec![step(StepKind::Probe, 2, "x y", Guard::Always)]
    );
    assert_eq!(command_piece(StepKind::Probe, 2, " \n", Guard::Always), vec![]);
}

#[test]
fn find_list_gives_first_list_of_manager() {
    let lists = vec![
        PackageList { manager: "a".to_string(), packages: strings(&["1"]) },
        PackageList { manager: "b".to_string(), packages: vec![] },
        PackageList { manager: "a".to_string(), packages: strings(&["2"]) },
    ];
    assert_eq!(find_list(&lists, &"a".to_string()), 0);
    assert_eq!(find_list(&lists, &"b".to_string()), 1);
    assert_eq!(find_list(&lists, &"c".to_string()), 3);
}

#[test]
fn guards_admit_by_presence() {
    assert!(guard_admits(Guard::Always, true));
    assert!(guard_admits(Guard::Always, false));
    assert!(guard_admits(Guard::WhenAbsent, false));
    assert!(!guard_admits(Guard::WhenAbsent, true));
    assert!(guard_admits(Guard::WhenPresent, true));
    assert!(!guard_admits(Guard::WhenPresent, false));
}

#[test]
fn session_hands_out_steps_one_by_one() {
    let (cfg, catalog) = full();
    let steps = plan(&cfg, &catalog);
    let mut session = Session::new();
    assert_eq!(session, Session { position: 0, present: true, pending: false });
    assert_eq!(session.step(&steps, false), Some(0));
    assert_eq!(session.step(&steps, false), Some(1));
    assert!(session.present);
    assert_eq!(session.step(&steps, false), Some(2));
    assert!(!session.present);
    assert_eq!(session.step(&steps, true), Some(3));
    assert!(!session.present);
    assert_eq!(session.step(&steps, true), Some(4));
    assert_eq!(session.step(&steps, true), Some(6));
    assert!(session.present);
    assert_eq!(session.step(&steps, true), Some(7));
    assert_eq!(session.step(&steps, false), Some(8));
    assert_eq!(session.step(&steps, false), Some(9));
    assert_eq!(session.step(&steps, false), None);
    assert_eq!(session, Session { position: 10, present: true, pending: false });
    assert_eq!(session.step(&steps, false), None);
}

#[test]
fn session_on_empty_plan_is_over_at_once() {
    let mut session = Session::new();
    assert_eq!(session.step(&vec![], true), None);
    assert!(!session.pending);
}

#[test]
fn session_beyond_the_plan_is_over() {
    let steps = vec![step(StepKind::PreScript, 0, "a", Guard::Always)];
    let mut session = Session { position: 7, present: false, pending: true };
    assert_eq!(session.step(&steps, true), None);
    assert_eq!(session, Session { position: 1, present: false, pending: false });
}
