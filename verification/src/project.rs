//! Project-level option types: which shell runs the project scripts,
//! whether an operation is local or system-wide, which template a new
//! project starts from, and the option records the project commands carry.
//! Running the scripts, creating files, and packing archives are the
//! surrounding application's business.

use vstd::prelude::*;
use vstd::string::StringExecFns;
use crate::pkg::{author_display, AuthorAboutData};
use crate::question::{lower_chars, lower_spec};
use crate::strutil::{chars_eq, from_chars, to_chars};

verus! {

/// The shell used to run a project's scripts.
#[derive(Clone, Copy, Debug)]
pub enum ExecShell {
    /// Restricted bash, the default.
    RBash,
    Bash,
    Zsh,
    Csh,
}

/// The shell a (lowercased) name selects, if any.
pub open spec fn shell_of(t: Seq<char>) -> Option<ExecShell> {
    if t == "bash"@ {
        Some(ExecShell::Bash)
    } else if t == "zsh"@ {
        Some(ExecShell::Zsh)
    } else if t == "csh"@ {
        Some(ExecShell::Csh)
    } else if t == "rbash"@ {
        Some(ExecShell::RBash)
    } else {
        None
    }
}

/// The display name of a shell.
pub open spec fn shell_display(s: ExecShell) -> Seq<char> {
    match s {
        ExecShell::RBash => "restricted bash"@,
        ExecShell::Bash => "bash"@,
        ExecShell::Zsh => "zsh"@,
        ExecShell::Csh => "csh"@,
    }
}

impl ExecShell {
    /// Parses a shell name, ignoring ASCII case; an unknown name is
    /// refused, echoing it.
    pub fn parse(s: &str) -> (r: Result<ExecShell, String>)
        ensures
            match shell_of(lower_spec(s@)) {
                Some(sh) => r matches Ok(sh2) && sh2 == sh,
                None => r matches Err(e) && e@ == "Unavailable Shell: "@ + s@,
            },
    {
        let t = lower_chars(&to_chars(s));
        if chars_eq(&t, &to_chars("bash")) {
            Ok(ExecShell::Bash)
        } else if chars_eq(&t, &to_chars("zsh")) {
            Ok(ExecShell::Zsh)
        } else if chars_eq(&t, &to_chars("csh")) {
            Ok(ExecShell::Csh)
        } else if chars_eq(&t, &to_chars("rbash")) {
            Ok(ExecShell::RBash)
        } else {
            let mut msg = "Unavailable Shell: ".to_owned();
            msg.append(s);
            Err(msg)
        }
    }

    /// Renders the shell's display name.
    pub fn to_string(&self) -> (r: String)
        ensures
            r@ == shell_display(*self),
    {
        match self {
            ExecShell::RBash => "restricted bash".to_owned(),
            ExecShell::Bash => "bash".to_owned(),
            ExecShell::Zsh => "zsh".to_owned(),
            ExecShell::Csh => "csh".to_owned(),
        }
    }
}

impl core::str::FromStr for ExecShell {
    type Err = String;

    fn from_str(s: &str) -> Result<Self, String> {
        ExecShell::parse(s)
    }
}

impl Default for ExecShell {
    /// The default shell is restricted bash.
    fn default() -> (r: Self)
        ensures
            r is RBash,
    {
        ExecShell::RBash
    }
}

/// Whether an operation works on the user's own installation or the
/// system-wide one.
#[derive(Clone, Copy, Debug)]
pub enum ExecMode {
    Local,
    Global,
}

/// The display name of a mode.
pub open spec fn mode_display(m: ExecMode) -> Seq<char> {
    match m {
        ExecMode::Local => "local"@,
        ExecMode::Global => "global"@,
    }
}

impl ExecMode {
    /// Renders the mode's display name.
    pub fn to_string(&self) -> (r: String)
        ensures
            r@ == mode_display(*self),
    {
        match self {
            ExecMode::Local => "local".to_owned(),
            ExecMode::Global => "global".to_owned(),
        }
    }
}

impl Default for ExecMode {
    /// The default mode works on the user's own installation.
    fn default() -> (r: Self)
        ensures
            r is Local,
    {
        ExecMode::Local
    }
}

/// The template a new project starts from.
#[derive(Clone, Copy, Debug)]
pub enum ProjectTemplateType {
    /// Plain shell-script project, the default.
    Default,
    /// Rust project initialized through cargo.
    Rust,
}

/// The template a (lowercased) name selects, if any.
pub open spec fn template_of(t: Seq<char>) -> Option<ProjectTemplateType> {
    if t == "default"@ {
        Some(ProjectTemplateType::Default)
    } else if t == "rust"@ {
        Some(ProjectTemplateType::Rust)
    } else {
        None
    }
}

/// The display name of a template.
pub open spec fn template_display(t: ProjectTemplateType) -> Seq<char> {
    match t {
        ProjectTemplateType::Default => "default"@,
        ProjectTemplateType::Rust => "rust"@,
    }
}

impl ProjectTemplateType {
    /// Parses a template name, ignoring ASCII case; an unknown name is
    /// refused, echoing it.
    pub fn parse(s: &str) -> (r: Result<ProjectTemplateType, String>)
        ensures
            match template_of(lower_spec(s@)) {
                Some(t) => r matches Ok(t2) && t2 == t,
                None => r matches Err(e) && e@ == "Unavailable Template: '"@ + s@ + "'"@,
            },
    {
        let t = lower_chars(&to_chars(s));
        if chars_eq(&t, &to_chars("default")) {
            Ok(ProjectTemplateType::Default)
        } else if chars_eq(&t, &to_chars("rust")) {
            Ok(ProjectTemplateType::Rust)
        } else {
            let mut msg = "Unavailable Template: '".to_owned();
            msg.append(s);
            msg.append("'");
            proof {
                assert(msg@ =~= "Unavailable Template: '"@ + s@ + "'"@);
            }
            Err(msg)
        }
    }

    /// Renders the template's display name.
    pub fn to_string(&self) -> (r: String)
        ensures
            r@ == template_display(*self),
    {
        match self {
            ProjectTemplateType::Default => "default".to_owned(),
            ProjectTemplateType::Rust => "rust".to_owned(),
        }
    }
}

impl core::str::FromStr for ProjectTemplateType {
    type Err = String;

    fn from_str(s: &str) -> Result<Self, String> {
        ProjectTemplateType::parse(s)
    }
}

impl Default for ProjectTemplateType {
    /// The default template is the plain one.
    fn default() -> (r: Self)
        ensures
            r is Default,
    {
        ProjectTemplateType::Default
    }
}

/// What a new project is created from: its name, its template, and its
/// author.
#[derive(Debug)]
pub struct ProjectParams {
    pub project_name: String,
    pub project_template: ProjectTemplateType,
    pub author: AuthorAboutData,
}

impl ProjectParams {
    /// Renders the parameters over three lines: project, template, author.
    pub fn to_string(&self) -> (r: String)
        ensures
            r@ == "Project: "@ + self.project_name@ + "\n"@ + "Template: "@ + template_display(
                self.project_template,
            ) + "\n"@ + "Author: "@ + author_display(self.author@),
    {
        let mut s = "Project: ".to_owned();
        s.append(self.project_name.as_str());
        s.append("\n");
        s.append("Template: ");
        s.append(self.project_template.to_string().as_str());
        s.append("\n");
        s.append("Author: ");
        s.append(self.author.to_string().as_str());
        proof {
            assert(s@ =~= "Project: "@ + self.project_name@ + "\n"@ + "Template: "@
                + template_display(self.project_template) + "\n"@ + "Author: "@ + author_display(
                self.author@,
            ));
        }
        s
    }
}

impl Default for ProjectParams {
    /// The default parameters name nothing and use the plain template.
    fn default() -> (r: Self)
        ensures
            r.project_name@ == Seq::<char>::empty(),
            r.project_template is Default,
    {
        ProjectParams {
            project_name: String::new(),
            project_template: ProjectTemplateType::default(),
            author: AuthorAboutData::default(),
        }
    }
}

/// The packaging target of a project.
#[derive(Clone, Copy, Debug)]
pub enum PackageTarget {
    /// Built from source on the target machine.
    SourceBuild,
    /// The standard package.
    Normal,
    /// The minimal package.
    Min,
}

/// The target a (lowercased) name selects, if any.
pub open spec fn target_of(t: Seq<char>) -> Option<PackageTarget> {
    if t == "src"@ || t == "source"@ || t == "source-build"@ {
        Some(PackageTarget::SourceBuild)
    } else if t == "normal"@ || t == "default"@ {
        Some(PackageTarget::Normal)
    } else if t == "min"@ || t == "minimal"@ {
        Some(PackageTarget::Min)
    } else {
        None
    }
}

/// The display name of a target.
pub open spec fn target_display(t: PackageTarget) -> Seq<char> {
    match t {
        PackageTarget::SourceBuild => "source-build"@,
        PackageTarget::Normal => "normal"@,
        PackageTarget::Min => "minimal"@,
    }
}

impl PackageTarget {
    /// Parses a target name, ignoring ASCII case; an unknown name is
    /// refused, echoing it.
    pub fn parse(s: &str) -> (r: Result<PackageTarget, String>)
        ensures
            match target_of(lower_spec(s@)) {
                Some(t) => r matches Ok(t2) && t2 == t,
                None => r matches Err(e) && e@ == "Invalid Package Target: "@ + s@,
            },
    {
        let t = lower_chars(&to_chars(s));
        if chars_eq(&t, &to_chars("src")) || chars_eq(&t, &to_chars("source")) || chars_eq(
            &t,
            &to_chars("source-build"),
        ) {
            Ok(PackageTarget::SourceBuild)
        } else if chars_eq(&t, &to_chars("normal")) || chars_eq(&t, &to_chars("default")) {
            Ok(PackageTarget::Normal)
        } else if chars_eq(&t, &to_chars("min")) || chars_eq(&t, &to_chars("minimal")) {
            Ok(PackageTarget::Min)
        } else {
            let mut msg = "Invalid Package Target: ".to_owned();
            msg.append(s);
            Err(msg)
        }
    }

    /// Renders the target's display name.
    pub fn to_string(&self) -> (r: String)
        ensures
            r@ == target_display(*self),
    {
        match self {
            PackageTarget::SourceBuild => "source-build".to_owned(),
            PackageTarget::Normal => "normal".to_owned(),
            PackageTarget::Min => "minimal".to_owned(),
        }
    }
}

impl core::str::FromStr for PackageTarget {
    type Err = String;

    fn from_str(s: &str) -> Result<Self, String> {
        PackageTarget::parse(s)
    }
}

impl Default for PackageTarget {
    /// The default target is the standard package.
    fn default() -> (r: Self)
        ensures
            r is Normal,
    {
        PackageTarget::Normal
    }
}

/// The options of the packaging command.
#[derive(Debug)]
pub struct PackageOptions {
    pub target: PackageTarget,
}

impl Default for PackageOptions {
    /// The default options build the standard package.
    fn default() -> (r: Self)
        ensures
            r.target is Normal,
    {
        PackageOptions { target: PackageTarget::default() }
    }
}

impl PackageOptions {
    /// Renders the options block.
    pub fn to_string(&self) -> (r: String)
        ensures
            r@ == "Package Options:\n  target: "@ + target_display(self.target) + "\n"@,
    {
        let mut s = "Package Options:\n  target: ".to_owned();
        s.append(self.target.to_string().as_str());
        s.append("\n");
        proof {
            assert(s@ =~= "Package Options:\n  target: "@ + target_display(self.target) + "\n"@);
        }
        s
    }
}

/// The options of the install command.
#[derive(Debug)]
pub struct InstallOptions {
    pub install_shell: ExecShell,
    pub install_mode: ExecMode,
}

impl Default for InstallOptions {
    /// The default options install locally through restricted bash.
    fn default() -> (r: Self)
        ensures
            r.install_shell is RBash,
            r.install_mode is Local,
    {
        InstallOptions { install_shell: ExecShell::default(), install_mode: ExecMode::default() }
    }
}

impl InstallOptions {
    /// Renders the options block.
    pub fn to_string(&self) -> (r: String)
        ensures
            r@ == "Install Options:\n  install-shell: "@ + shell_display(self.install_shell)
                + "\n  install-mode: "@ + mode_display(self.install_mode) + "\n"@,
    {
        let mut s = "Install Options:\n  install-shell: ".to_owned();
        s.append(self.install_shell.to_string().as_str());
        s.append("\n  install-mode: ");
        s.append(self.install_mode.to_string().as_str());
        s.append("\n");
        proof {
            assert(s@ =~= "Install Options:\n  install-shell: "@ + shell_display(
                self.install_shell,
            ) + "\n  install-mode: "@ + mode_display(self.install_mode) + "\n"@);
        }
        s
    }
}

/// The options of the remove command.
#[derive(Debug)]
pub struct RemoveOptions {
    pub remove_shell: ExecShell,
    pub remove_mode: ExecMode,
}

impl Default for RemoveOptions {
    /// The default options remove locally through restricted bash.
    fn default() -> (r: Self)
        ensures
            r.remove_shell is RBash,
            r.remove_mode is Local,
    {
        RemoveOptions { remove_shell: ExecShell::default(), remove_mode: ExecMode::default() }
    }
}

impl RemoveOptions {
    /// Renders the options block.
    pub fn to_string(&self) -> (r: String)
        ensures
            r@ == "Remove Options:\n  remove-shell: "@ + shell_display(self.remove_shell)
                + "\n  remove-mode: "@ + mode_display(self.remove_mode) + "\n"@,
    {
        let mut s = "Remove Options:\n  remove-shell: ".to_owned();
        s.append(self.remove_shell.to_string().as_str());
        s.append("\n  remove-mode: ");
        s.append(self.remove_mode.to_string().as_str());
        s.append("\n");
        proof {
            assert(s@ =~= "Remove Options:\n  remove-shell: "@ + shell_display(self.remove_shell)
                + "\n  remove-mode: "@ + mode_display(self.remove_mode) + "\n"@);
        }
        s
    }
}

/// The options of the purge command.
#[derive(Debug)]
pub struct PurgeOptions {
    pub purge_shell: ExecShell,
}

impl Default for PurgeOptions {
    /// The default options purge through restricted bash.
    fn default() -> (r: Self)
        ensures
            r.purge_shell is RBash,
    {
        PurgeOptions { purge_shell: ExecShell::default() }
    }
}

impl PurgeOptions {
    /// Renders the options block.
    pub fn to_string(&self) -> (r: String)
        ensures
            r@ == "Purge Options:\n  purge-shell: "@ + shell_display(self.purge_shell) + "\n"@,
    {
        let mut s = "Purge Options:\n  purge-shell: ".to_owned();
        s.append(self.purge_shell.to_string().as_str());
        s.append("\n");
        proof {
            assert(s@ =~= "Purge Options:\n  purge-shell: "@ + shell_display(self.purge_shell)
                + "\n"@);
        }
        s
    }
}

} // verus!
