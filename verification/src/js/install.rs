//! The commands that bring the installed packages in line with a manifest.

use crate::js::peers::{parse_yarn_missing_peer_deps, reported_peers};
use crate::language::Installer;
use crate::text::owned;
use crate::views::{append_all, append_one, only};
use vstd::prelude::*;

verus! {

broadcast use vstd::string::group_string_axioms;

/// A command: the program, its arguments and, where there is one, a setting
/// of its environment.
#[derive(Debug)]
pub struct InstallCommand {
    pub program: String,
    pub arguments: Vec<String>,
    pub setting: Option<(String, String)>,
}

/// What a command is made of.
#[verifier::ext_equal]
pub ghost struct InstallCommandView {
    pub program: Seq<char>,
    pub arguments: Seq<Seq<char>>,
    pub setting: Option<(Seq<char>, Seq<char>)>,
}

impl DeepView for InstallCommand {
    type V = InstallCommandView;

    open spec fn deep_view(&self) -> InstallCommandView {
        InstallCommandView {
            program: self.program@,
            arguments: self.arguments.deep_view(),
            setting: match self.setting {
                Some(s) => Some((s.0@, s.1@)),
                None => None,
            },
        }
    }
}

/// The command with which a package manager installs. No scripts of packages
/// are run. Yarn leaves peer dependencies alone, pnpm installs them when its
/// environment says so, and npm installs them by itself.
pub open spec fn install_words(installer: Installer) -> InstallCommandView {
    match installer {
        Installer::Yarn => InstallCommandView {
            program: "yarn"@,
            arguments: seq!["install"@, "--ignore-scripts"@],
            setting: None,
        },
        Installer::Pnpm => InstallCommandView {
            program: "pnpm"@,
            arguments: seq!["install"@, "--ignore-scripts"@],
            setting: Some(("npm_config_auto_install_peers"@, "true"@)),
        },
        Installer::Npm => InstallCommandView {
            program: "npm"@,
            arguments: seq!["install"@, "--ignore-scripts"@, "--no-audit"@, "--no-fund"@],
            setting: None,
        },
    }
}

/// The command with which a package manager installs.
pub fn install_command(installer: Installer) -> (r: InstallCommand)
    ensures
        r.deep_view() == install_words(installer),
{
    let mut arguments = only(owned("install"));
    append_one(&mut arguments, owned("--ignore-scripts"));
    let r = match installer {
        Installer::Yarn => InstallCommand { program: owned("yarn"), arguments, setting: None },
        Installer::Pnpm => InstallCommand {
            program: owned("pnpm"),
            arguments,
            setting: Some((owned("npm_config_auto_install_peers"), owned("true"))),
        },
        Installer::Npm => {
            append_one(&mut arguments, owned("--no-audit"));
            append_one(&mut arguments, owned("--no-fund"));
            InstallCommand { program: owned("npm"), arguments, setting: None }
        },
    };
    assert(r.deep_view() =~= install_words(installer));
    r
}

/// The command that follows an installation: yarn adds the peer dependencies
/// that the output of the installation names as missing.
pub open spec fn follow_up_words(installer: Installer, output: Seq<char>) -> Option<
    InstallCommandView,
> {
    if installer == Installer::Yarn && reported_peers(output).len() > 0 {
        Some(
            InstallCommandView {
                program: "yarn"@,
                arguments: seq!["add"@] + reported_peers(output) + seq!["--ignore-scripts"@],
                setting: None,
            },
        )
    } else {
        None
    }
}

/// The command that follows an installation, given what it printed.
pub fn follow_up_command(installer: Installer, output: &str) -> (r: Option<InstallCommand>)
    ensures
        r.deep_view() == follow_up_words(installer, output@),
{
    if installer != Installer::Yarn {
        return None;
    }
    let missing = parse_yarn_missing_peer_deps(output);
    assert(missing.deep_view().len() == missing@.len());
    if missing.len() == 0 {
        return None;
    }
    let mut arguments = only(owned("add"));
    append_all(&mut arguments, missing);
    append_one(&mut arguments, owned("--ignore-scripts"));
    let command = InstallCommand { program: owned("yarn"), arguments, setting: None };
    assert(command.deep_view() =~= follow_up_words(installer, output@)->Some_0);
    Some(command)
}

} // verus!
