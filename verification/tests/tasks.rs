use restore_engine::locate::{directory_name, manifest_path, pick_json, sanitized, PickError};
use restore_engine::tasks::{
    asks_first, install_command, is_yes, read_install, task_kind, InstallTask, TaskKind, Todo,
};
use restore_engine::text::{has_suffix, same, strip_end, trim_end, words};

fn todo(id: &str) -> Todo {
    Todo { id: id.to_string(), title: "t".to_string(), detail: "d".to_string(), ask: String::new() }
}

fn strings(items: &[&str]) -> Vec<String> {
    items.iter().map(|s| s.to_string()).collect()
}

#[test]
fn task_kind_goes_by_the_id() {
    assert_eq!(task_kind(&todo("install")), TaskKind::Install);
    assert_eq!(task_kind(&todo("script")), TaskKind::Script);
    assert_eq!(task_kind(&todo("note")), TaskKind::Other);
    assert_eq!(task_kind(&todo("Install")), TaskKind::Other);
    assert_eq!(task_kind(&todo("")), TaskKind::Other);
}

#[test]
fn only_the_word_true_asks_first() {
    assert!(asks_first("true"));
    assert!(!asks_first("True"));
    assert!(!asks_first(" true"));
    assert!(!asks_first("false"));
    assert!(!asks_first(""));
}

#[test]
fn apt_command_confirms_unless_asked() {
    assert_eq!(install_command(false, "apt", "curl"), Some("sudo apt install curl -y".to_string()));
    assert_eq!(install_command(true, "apt", "curl"), Some("sudo apt install curl".to_string()));
    assert_eq!(install_command(true, "apt", "curl  "), Some("sudo apt install curl".to_string()));
    assert_eq!(install_command(true, "apt", ""), Some("sudo apt install".to_string()));
}

#[test]
fn pacstall_command_confirms_unless_asked() {
    assert_eq!(install_command(true, "pacstall", "neofetch"), Some("pacstall -I neofetch".to_string()));
    assert_eq!(install_command(false, "pacstall", "neofetch"), Some("pacstall -I neofetch -P".to_string()));
}

#[test]
fn flatpak_command_confirms_unless_asked() {
    assert_eq!(
        install_command(false, "flatpak", "org.gimp.GIMP"),
        Some("flatpak install flathub org.gimp.GIMP -y".to_string())
    );
    assert_eq!(
        install_command(true, "flatpak", "org.gimp.GIMP"),
        Some("flatpak install flathub org.gimp.GIMP".to_string())
    );
}

#[test]
fn snapcraft_command_never_confirms() {
    assert_eq!(install_command(true, "snapcraft", "code"), Some("sudo snap install code".to_string()));
    assert_eq!(install_command(false, "snapcraft", "code"), Some("sudo snap install code".to_string()));
}

#[test]
fn unknown_package_manager_has_no_command() {
    assert_eq!(install_command(false, "brew", "wget"), None);
    assert_eq!(install_command(false, "", "wget"), None);
    assert_eq!(install_command(false, "APT", "wget"), None);
}

#[test]
fn install_detail_is_manager_then_packages() {
    assert_eq!(
        read_install("apt curl  git\tvim\n"),
        Some(InstallTask { manager: "apt".to_string(), packages: strings(&["curl", "git", "vim"]) })
    );
    assert_eq!(
        read_install("  flatpak "),
        Some(InstallTask { manager: "flatpak".to_string(), packages: vec![] })
    );
    assert_eq!(read_install(""), None);
    assert_eq!(read_install(" \n\t "), None);
}

#[test]
fn yes_is_y_or_yes_in_any_case() {
    for answer in ["y", "Y", "yes", "YES", "Yes", "yEs", " y\n", "\tyes  "] {
        assert!(is_yes(answer), "{:?}", answer);
    }
    for answer in ["", "n", "no", "ye", "yess", "y e s", "yes!", "ja", "ÿ", "ýes"] {
        assert!(!is_yes(answer), "{:?}", answer);
    }
}

#[test]
fn yes_agrees_with_lower_casing_every_character() {
    let mut n: u32 = 0;
    while n <= 0x10ffff {
        if let Some(c) = char::from_u32(n) {
            let one = c.to_string();
            let three = format!("{}e{}", c, "s");
            assert_eq!(is_yes(&one), matches!(one.trim().to_lowercase().as_str(), "y" | "yes"));
            assert_eq!(is_yes(&three), matches!(three.trim().to_lowercase().as_str(), "y" | "yes"));
            let middle = format!("y{}s", c);
            assert_eq!(is_yes(&middle), matches!(middle.trim().to_lowercase().as_str(), "y" | "yes"));
            let last = format!("ye{}", c);
            assert_eq!(is_yes(&last), matches!(last.trim().to_lowercase().as_str(), "y" | "yes"));
        }
        n += 1;
    }
}

#[test]
fn one_json_file_is_picked() {
    assert_eq!(pick_json("README.md config.json notes.txt\n"), Ok("config.json".to_string()));
    assert_eq!(pick_json("a.json"), Ok("a.json".to_string()));
    assert_eq!(pick_json(".json"), Ok(".json".to_string()));
}

#[test]
fn no_json_file_is_an_error() {
    assert_eq!(pick_json(""), Err(PickError::NoJson));
    assert_eq!(pick_json("a.txt b.JSON json c.json.bak"), Err(PickError::NoJson));
    assert_eq!(PickError::NoJson.message(), "No JSON files found");
}

#[test]
fn several_json_files_are_an_error() {
    assert_eq!(pick_json("a.json\nb.json"), Err(PickError::TooMany));
    assert_eq!(pick_json("a.json x b.json c.json"), Err(PickError::TooMany));
    assert_eq!(PickError::TooMany.message(), "More than one JSON file found");
}

#[test]
fn manifest_path_drops_slashes_at_the_end_of_the_directory() {
    assert_eq!(manifest_path("configs/x", "a.json"), "configs/x/a.json");
    assert_eq!(manifest_path("configs/x///", "a.json"), "configs/x/a.json");
    assert_eq!(manifest_path("/", "a.json"), "/a.json");
    assert_eq!(manifest_path("", "a.json"), "/a.json");
}

#[test]
fn link_is_sanitized_for_a_directory_name() {
    assert_eq!(sanitized("https://github.com/user/dotfiles.git"), "github.com_user_dotfiles");
    assert_eq!(sanitized("http://host/a/b"), "host_a_b");
    assert_eq!(sanitized("git@host:user/repo.git"), "git@host:user_repo");
    assert_eq!(sanitized("plain"), "plain");
    assert_eq!(sanitized("https://a.git/b.git"), "a_b");
}

#[test]
fn sanitized_agrees_with_the_chain_of_replacements() {
    for link in ["", "https://http://x", "hhttp://ttp://", "a/.g/it", ".git.git", "//", "https:/x/.git"] {
        let expected =
            link.replace("http://", "").replace("https://", "").replace('/', "_").replace(".git", "");
        assert_eq!(sanitized(link), expected, "{:?}", link);
    }
}

#[test]
fn directory_name_joins_stamp_and_name() {
    assert_eq!(directory_name("2024-01-02-03-04-05", "repo"), "2024-01-02-03-04-05-repo");
    assert_eq!(directory_name("", ""), "-");
}

#[test]
fn words_agree_with_the_standard_library() {
    for s in ["", " ", "a", " a ", "a b", "  a\t\tb\nc  ", "\u{3000}x\u{a0}y", "apt curl", "é è"] {
        let expected: Vec<String> = s.split_whitespace().map(|w| w.to_string()).collect();
        assert_eq!(words(s), expected, "{:?}", s);
    }
}

#[test]
fn trim_end_agrees_with_the_standard_library() {
    for s in ["", " ", "a", " a ", "a \t\n", "  a b  ", "x\u{2003}"] {
        assert_eq!(trim_end(s), s.trim_end(), "{:?}", s);
    }
}

#[test]
fn strip_end_removes_only_the_given_character() {
    assert_eq!(strip_end("a//", '/'), "a");
    assert_eq!(strip_end("a/ /", '/'), "a/ ");
    assert_eq!(strip_end("///", '/'), "");
    assert_eq!(strip_end("", '/'), "");
    assert_eq!(strip_end("abc", '/'), "abc");
}

#[test]
fn suffix_and_equality() {
    assert!(has_suffix("a.json", ".json"));
    assert!(has_suffix(".json", ".json"));
    assert!(has_suffix("x", ""));
    assert!(!has_suffix("json", ".json"));
    assert!(!has_suffix("a.jsonx", ".json"));
    assert!(same("a", "a"));
    assert!(same("", ""));
    assert!(!same("a", "A"));
    assert!(!same("a", "ab"));
}
