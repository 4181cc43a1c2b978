//! How the editor was installed, and the command that updates it.

use crate::text;
use crate::text::{chars_of, contains_text, has_prefix};
use vstd::prelude::*;

verus! {

/// The command shown where the editor came from Homebrew.
pub const HOMEBREW_UPDATE_COMMAND: &'static str = "brew upgrade gte";

/// How the editor was installed.
#[derive(Debug, Clone, Copy, PartialEq, Eq, Structural)]
pub enum InstallMethod {
    /// Homebrew, on macOS or Linux.
    Homebrew,
    /// `cargo install`.
    Cargo,
    /// A global npm package.
    Npm,
    /// A package manager of the system (apt, dnf and the like).
    PackageManager,
    /// The Arch User Repository.
    Aur,
    /// By hand, or in a way that leaves no trace in the path.
    Unknown,
}

impl InstallMethod {
    /// What to run, or do, for an update; nothing is known of an unknown installation.
    pub open spec fn command(self) -> Option<Seq<char>> {
        match self {
            InstallMethod::Homebrew => Some("brew upgrade gte"@),
            InstallMethod::Cargo => Some("cargo install --locked gte"@),
            InstallMethod::Npm => Some("npm update -g gte"@),
            InstallMethod::Aur => Some("yay -Syu gte  # or use your AUR helper"@),
            InstallMethod::PackageManager => Some("Update using your system package manager"@),
            InstallMethod::Unknown => None,
        }
    }

    /// The update command for this installation method.
    pub fn update_command(&self) -> (r: Option<&'static str>)
        ensures
            match r {
                Some(command) => self.command() == Some(command@),
                None => self.command() is None,
            },
            r is None <==> *self is Unknown,
    {
        match self {
            InstallMethod::Homebrew => Some(HOMEBREW_UPDATE_COMMAND),
            InstallMethod::Cargo => Some("cargo install --locked gte"),
            InstallMethod::Npm => Some("npm update -g gte"),
            InstallMethod::Aur => Some("yay -Syu gte  # or use your AUR helper"),
            InstallMethod::PackageManager => Some("Update using your system package manager"),
            InstallMethod::Unknown => None,
        }
    }
}

pub open spec fn homebrew_path(path: Seq<char>) -> bool {
    ||| text::has_text(path, "/opt/homebrew/"@)
    ||| text::has_text(path, "/usr/local/Cellar/"@)
    ||| text::has_text(path, "/home/linuxbrew/"@)
    ||| text::has_text(path, "/.linuxbrew/"@)
}

pub open spec fn cargo_path(path: Seq<char>) -> bool {
    ||| text::has_text(path, "/.cargo/bin/"@)
    ||| text::has_text(path, "\\.cargo\\bin\\"@)
}

pub open spec fn npm_path(path: Seq<char>) -> bool {
    ||| text::has_text(path, "/node_modules/"@)
    ||| text::has_text(path, "\\node_modules\\"@)
    ||| text::has_text(path, "/npm/"@)
    ||| text::has_text(path, "/lib/node_modules/"@)
}

pub open spec fn system_path(path: Seq<char>) -> bool {
    ||| text::starts_with(path, "/usr/bin/"@)
    ||| text::starts_with(path, "/usr/local/bin/"@)
    ||| text::starts_with(path, "/bin/"@)
}

/// The text of `/etc/os-release`, if it could be read, speaks of Arch Linux.
pub open spec fn names_arch(os_release: Option<Seq<char>>) -> bool {
    match os_release {
        Some(content) => text::has_text(content, "Arch Linux"@) || text::has_text(content, "ID=arch"@),
        None => false,
    }
}

/// The installation method that a path of the executable tells. The tests go from the most to
/// the least particular, and the first that holds decides.
pub open spec fn method_of_path(path: Seq<char>, arch: bool) -> InstallMethod {
    if homebrew_path(path) {
        InstallMethod::Homebrew
    } else if cargo_path(path) {
        InstallMethod::Cargo
    } else if npm_path(path) {
        InstallMethod::Npm
    } else if text::starts_with(path, "/usr/bin/"@) && arch {
        InstallMethod::Aur
    } else if system_path(path) {
        InstallMethod::PackageManager
    } else {
        InstallMethod::Unknown
    }
}

/// Whether the system is Arch Linux, by what `/etc/os-release` holds.
pub fn is_arch_linux(os_release: Option<&str>) -> (r: bool)
    ensures
        r == names_arch(text::text_option(os_release)),
{
    match os_release {
        Some(content) => {
            let content = chars_of(content);
            contains_text(&content, "Arch Linux") || contains_text(&content, "ID=arch")
        },
        None => false,
    }
}

/// The installation method that the path of the executable tells; `os_release` is what
/// `/etc/os-release` holds, if it can be read.
pub fn detect_install_method_from_path(exe_path: &str, os_release: Option<&str>) -> (r: InstallMethod)
    ensures
        r == method_of_path(exe_path@, names_arch(text::text_option(os_release))),
        lies_under(exe_path@, "/usr/bin/"@) && !(r is Homebrew) && !(r is Cargo) && !(r is Npm) ==> {
            let arch = os_release matches Some(content) && (text::is_around(content@, "Arch Linux"@)
                || text::is_around(content@, "ID=arch"@));
            &&& arch ==> r is Aur
            &&& !arch ==> r is PackageManager
        },
{
    proof {
        law_paths_tell_the_method(exe_path@, text::text_option(os_release));
    }
    let path = chars_of(exe_path);
    if contains_text(&path, "/opt/homebrew/") || contains_text(&path, "/usr/local/Cellar/")
        || contains_text(&path, "/home/linuxbrew/") || contains_text(&path, "/.linuxbrew/") {
        return InstallMethod::Homebrew;
    }
    if contains_text(&path, "/.cargo/bin/") || contains_text(&path, "\\.cargo\\bin\\") {
        return InstallMethod::Cargo;
    }
    if contains_text(&path, "/node_modules/") || contains_text(&path, "\\node_modules\\")
        || contains_text(&path, "/npm/") || contains_text(&path, "/lib/node_modules/") {
        return InstallMethod::Npm;
    }
    if has_prefix(&path, "/usr/bin/") && is_arch_linux(os_release) {
        return InstallMethod::Aur;
    }
    if has_prefix(&path, "/usr/bin/") || has_prefix(&path, "/usr/local/bin/") || has_prefix(
        &path,
        "/bin/",
    ) {
        return InstallMethod::PackageManager;
    }
    InstallMethod::Unknown
}

/// The installation method of the running executable, of which the path may not be known.
pub open spec fn method_of_exe(exe_path: Option<Seq<char>>, os_release: Option<Seq<char>>) -> InstallMethod {
    match exe_path {
        Some(path) => method_of_path(path, names_arch(os_release)),
        None => InstallMethod::Unknown,
    }
}

/// The installation method of the running executable.
pub fn detect_install_method(exe_path: Option<&str>, os_release: Option<&str>) -> (r: InstallMethod)
    ensures
        r == method_of_exe(text::text_option(exe_path), text::text_option(os_release)),
{
    match exe_path {
        Some(path) => detect_install_method_from_path(path, os_release),
        None => InstallMethod::Unknown,
    }
}

/// Only a path under `/usr/bin/` makes a difference between Arch Linux and other systems.
pub proof fn law_arch_matters_under_usr_bin(path: Seq<char>)
    requires
        !text::starts_with(path, "/usr/bin/"@),
    ensures
        method_of_path(path, true) == method_of_path(path, false),
{
}

/// A directory of Homebrew, cargo or npm decides wherever else the path lies.
pub proof fn law_package_directories_decide(path: Seq<char>, arch: bool)
    ensures
        homebrew_path(path) <==> method_of_path(path, arch) is Homebrew,
        cargo_path(path) ==> method_of_path(path, arch) is Homebrew || method_of_path(path, arch) is Cargo,
        npm_path(path) ==> !(method_of_path(path, arch) is Aur) && !(method_of_path(path, arch) is PackageManager)
            && !(method_of_path(path, arch) is Unknown),
{
}

/// The path lies under this directory, which is written with a slash at its end.
pub open spec fn lies_under(path: Seq<char>, dir: Seq<char>) -> bool {
    path.len() >= dir.len() && path.take(dir.len() as int) == dir
}

proof fn lemma_lies_under(path: Seq<char>, dir: Seq<char>)
    ensures
        text::starts_with(path, dir) == lies_under(path, dir),
{
    if path.len() >= dir.len() {
        assert(path.subrange(0, dir.len() as int) =~= path.take(dir.len() as int));
    }
}

/// What a path tells: a directory of Homebrew anywhere in it comes first, then one of cargo, then
/// one of npm. Without any of these, a path under `/usr/bin/` is from the Arch User Repository
/// exactly where the text of `/etc/os-release` is there and holds `Arch Linux` or `ID=arch`, and
/// from a package manager otherwise, as is one under `/usr/local/bin/` or `/bin/`. Other paths
/// tell nothing.
pub proof fn law_paths_tell_the_method(path: Seq<char>, os_release: Option<Seq<char>>)
    ensures
        ({
            let method = method_of_exe(Some(path), os_release);
            let brew = text::is_around(path, "/opt/homebrew/"@) || text::is_around(path, "/usr/local/Cellar/"@)
                || text::is_around(path, "/home/linuxbrew/"@) || text::is_around(path, "/.linuxbrew/"@);
            let cargo = text::is_around(path, "/.cargo/bin/"@) || text::is_around(path, "\\.cargo\\bin\\"@);
            let npm = text::is_around(path, "/node_modules/"@) || text::is_around(path, "\\node_modules\\"@)
                || text::is_around(path, "/npm/"@);
            let arch = os_release matches Some(content) && (text::is_around(content, "Arch Linux"@)
                || text::is_around(content, "ID=arch"@));
            let own = brew || cargo || npm;
            &&& method == method_of_path(path, names_arch(os_release))
            &&& brew <==> method is Homebrew
            &&& cargo && !brew <==> method is Cargo
            &&& npm && !brew && !cargo <==> method is Npm
            &&& !own && lies_under(path, "/usr/bin/"@) && arch <==> method is Aur
            &&& !own && lies_under(path, "/usr/bin/"@) && !arch ==> method is PackageManager
            &&& !own && (lies_under(path, "/usr/local/bin/"@) || lies_under(path, "/bin/"@)) ==> method
                is PackageManager
            &&& !own && !lies_under(path, "/usr/bin/"@) && !lies_under(path, "/usr/local/bin/"@) && !lies_under(
                path,
                "/bin/"@,
            ) <==> method is Unknown
        }),
{
    text::law_found_between(path, "/opt/homebrew/"@);
    text::law_found_between(path, "/usr/local/Cellar/"@);
    text::law_found_between(path, "/home/linuxbrew/"@);
    text::law_found_between(path, "/.linuxbrew/"@);
    text::law_found_between(path, "/.cargo/bin/"@);
    text::law_found_between(path, "\\.cargo\\bin\\"@);
    text::law_found_between(path, "/node_modules/"@);
    text::law_found_between(path, "\\node_modules\\"@);
    text::law_found_between(path, "/npm/"@);
    lemma_lib_node_modules(path);
    if let Some(content) = os_release {
        text::law_found_between(content, "Arch Linux"@);
        text::law_found_between(content, "ID=arch"@);
    }
    lemma_lies_under(path, "/usr/bin/"@);
    lemma_lies_under(path, "/usr/local/bin/"@);
    lemma_lies_under(path, "/bin/"@);
    reveal_strlit("/usr/bin/");
    reveal_strlit("/usr/local/bin/");
    reveal_strlit("/bin/");
    if lies_under(path, "/usr/bin/"@) {
        assert(path.take(9)[5] == 'b');
        if lies_under(path, "/usr/local/bin/"@) {
            assert(path.take(15)[5] == 'l');
        }
        if lies_under(path, "/bin/"@) {
            assert(path.take(5)[1] == 'b' && path.take(9)[1] == 'u');
        }
    }
}

/// A global directory of npm is a directory of npm.
proof fn lemma_lib_node_modules(path: Seq<char>)
    ensures
        text::has_text(path, "/lib/node_modules/"@) ==> text::has_text(path, "/node_modules/"@),
{
    if text::has_text(path, "/lib/node_modules/"@) {
        reveal_strlit("/lib/node_modules/");
        reveal_strlit("/node_modules/");
        let at = choose|at: int| text::occurs_at(path, "/lib/node_modules/"@, at);
        let long = path.subrange(at, at + 18);
        assert(long == "/lib/node_modules/"@);
        assert(path.subrange(at + 4, at + 18) =~= long.subrange(4, 18));
        assert("/lib/node_modules/"@.subrange(4, 18) =~= "/node_modules/"@);
        assert(text::occurs_at(path, "/node_modules/"@, at + 4));
    }
}

/// Where the path of the executable is not known, nothing is told.
pub proof fn law_no_path_tells_nothing(os_release: Option<Seq<char>>)
    ensures
        method_of_exe(None, os_release) is Unknown,
{
}

} // verus!
