//! The to-do list: tasks that install packages with a fixed set of package
//! managers or run a script. Here are the rules of the list; running the
//! commands is left to the caller.

use vstd::prelude::*;
use vstd::string::*;
use crate::text::{same, trim, trim_end, trim_end_of, trim_of, words, words_of};

verus! {

/// One task of the list.
#[derive(Clone, Debug, PartialEq, Eq)]
pub struct Todo {
    pub id: String,
    pub title: String,
    pub detail: String,
    /// `true` where the user is to be asked first; empty where the list
    /// says nothing.
    pub ask: String,
}

pub struct TodoView {
    pub id: Seq<char>,
    pub title: Seq<char>,
    pub detail: Seq<char>,
    pub ask: Seq<char>,
}

impl View for Todo {
    type V = TodoView;

    open spec fn view(&self) -> TodoView {
        TodoView { id: self.id@, title: self.title@, detail: self.detail@, ask: self.ask@ }
    }
}

/// What a task does, by its id.
#[derive(Clone, Copy, Debug, PartialEq, Eq)]
pub enum TaskKind {
    /// The id `install`: the detail names a package manager and packages.
    Install,
    /// The id `script`: the detail is a script to run.
    Script,
    /// Any other id: the task is only shown.
    Other,
}

/// The kind of a task with the id `id`.
pub open spec fn kind_of(id: Seq<char>) -> TaskKind {
    if id == "install"@ {
        TaskKind::Install
    } else if id == "script"@ {
        TaskKind::Script
    } else {
        TaskKind::Other
    }
}

/// The kind of a task.
pub fn task_kind(todo: &Todo) -> (kind: TaskKind)
    ensures
        kind == kind_of(todo@.id),
{
    if same(todo.id.as_str(), "install") {
        TaskKind::Install
    } else if same(todo.id.as_str(), "script") {
        TaskKind::Script
    } else {
        TaskKind::Other
    }
}

/// Whether the user is to be asked before a task is run: where its `ask`
/// is the word `true`, and nothing else.
pub fn asks_first(ask: &str) -> (r: bool)
    ensures
        r == (ask@ == "true"@),
{
    same(ask, "true")
}

/// The command that installs the package `pkg` with the package manager
/// `pm`; nothing for a package manager that the list does not know. Where
/// the user is not asked, the command confirms by itself.
pub open spec fn install_command_text(ask: bool, pm: Seq<char>, pkg: Seq<char>) -> Option<
    Seq<char>,
> {
    if pm == "apt"@ {
        Some(trim_end_of("sudo apt install "@ + pkg + " "@ + (if ask { ""@ } else { "-y"@ })))
    } else if pm == "pacstall"@ {
        Some("pacstall -I "@ + pkg + (if ask { ""@ } else { " -P"@ }))
    } else if pm == "flatpak"@ {
        Some(
            trim_end_of("flatpak install flathub "@ + pkg + " "@ + (if ask { ""@ } else { "-y"@ })),
        )
    } else if pm == "snapcraft"@ {
        Some("sudo snap install "@ + pkg)
    } else {
        None
    }
}

/// The command that installs the package `pkg` with the package manager `pm`.
pub fn install_command(ask: bool, pm: &str, pkg: &str) -> (r: Option<String>)
    ensures
        match r {
            Some(command) => install_command_text(ask, pm@, pkg@) == Some(command@),
            None => install_command_text(ask, pm@, pkg@).is_none(),
        },
{
    if same(pm, "apt") {
        let mut command = String::from_str("sudo apt install ");
        command.append(pkg);
        command.append(" ");
        command.append(if ask { "" } else { "-y" });
        Some(trim_end(command.as_str()).to_owned())
    } else if same(pm, "pacstall") {
        let mut command = String::from_str("pacstall -I ");
        command.append(pkg);
        command.append(if ask { "" } else { " -P" });
        Some(command)
    } else if same(pm, "flatpak") {
        let mut command = String::from_str("flatpak install flathub ");
        command.append(pkg);
        command.append(" ");
        command.append(if ask { "" } else { "-y" });
        Some(trim_end(command.as_str()).to_owned())
    } else if same(pm, "snapcraft") {
        let mut command = String::from_str("sudo snap install ");
        command.append(pkg);
        Some(command)
    } else {
        None
    }
}

/// What an install task asks for: a package manager and the packages to
/// install with it, in order.
#[derive(Clone, Debug, PartialEq, Eq)]
pub struct InstallTask {
    pub manager: String,
    pub packages: Vec<String>,
}

pub struct InstallTaskView {
    pub manager: Seq<char>,
    pub packages: Seq<Seq<char>>,
}

impl View for InstallTask {
    type V = InstallTaskView;

    open spec fn view(&self) -> InstallTaskView {
        InstallTaskView {
            manager: self.manager@,
            packages: self.packages@.map_values(|p: String| p@),
        }
    }
}

/// What the detail of an install task asks for: its first word is the
/// package manager, the other words are the packages. Nothing where the
/// detail has no word.
pub open spec fn install_task_of(detail: Seq<char>) -> Option<InstallTaskView> {
    if words_of(detail).len() == 0 {
        None
    } else {
        Some(
            InstallTaskView {
                manager: words_of(detail)[0],
                packages: words_of(detail).drop_first(),
            },
        )
    }
}

/// Reads what the detail of an install task asks for.
pub fn read_install(detail: &str) -> (r: Option<InstallTask>)
    ensures
        match r {
            Some(task) => install_task_of(detail@) == Some(task@),
            None => install_task_of(detail@).is_none(),
        },
{
    let mut all = words(detail);
    if all.len() == 0 {
        return None;
    }
    let ghost before = all@.map_values(|p: String| p@);
    let manager = all.remove(0);
    proof {
        assert(all@.map_values(|p: String| p@) == before.drop_first());
    }
    Some(InstallTask { manager, packages: all })
}

/// `c` with an upper-case letter of the Latin alphabet turned into its
/// lower-case letter.
pub open spec fn lowered(c: char) -> char {
    if 'A' <= c <= 'Z' {
        ((c as u32) + 32) as char
    } else {
        c
    }
}

/// Whether an answer says yes: trimmed, it is `y` or `yes`, in upper or
/// lower case.
pub open spec fn says_yes(answer: Seq<char>) -> bool {
    let t = trim_of(answer);
    ||| t.len() == 1 && lowered(t[0]) == 'y'
    ||| t.len() == 3 && lowered(t[0]) == 'y' && lowered(t[1]) == 'e' && lowered(t[2]) == 's'
}

/// Whether `c` is the letter `lower` or its upper-case letter `upper`.
fn is_letter(c: char, lower: char, upper: char) -> (r: bool)
    requires
        'a' <= lower <= 'z',
        upper as u32 + 32 == lower as u32,
    ensures
        r == (lowered(c) == lower),
{
    c == lower || c == upper
}

/// Whether an answer says yes.
pub fn is_yes(answer: &str) -> (r: bool)
    ensures
        r == says_yes(answer@),
{
    let t = trim(answer);
    let n = t.unicode_len();
    if n == 1 {
        is_letter(t.get_char(0), 'y', 'Y')
    } else if n == 3 {
        is_letter(t.get_char(0), 'y', 'Y') && is_letter(t.get_char(1), 'e', 'E') && is_letter(
            t.get_char(2),
            's',
            'S',
        )
    } else {
        false
    }
}

} // verus!
