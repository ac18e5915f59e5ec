//! The data the library reads and produces, and their mathematical views.
use vstd::prelude::*;

verus! {

/// A shell whose aliases the library manages.
#[derive(Debug, Clone, Copy, PartialEq, Eq, Structural, Hash)]
pub enum ShellType {
    Bash,
    Zsh,
    Fish,
    PowerShell,
}

/// The lower-case name of a shell, as shown to users and used in messages.
pub open spec fn shell_name(shell: ShellType) -> Seq<char> {
    match shell {
        ShellType::Bash => "bash"@,
        ShellType::Zsh => "zsh"@,
        ShellType::Fish => "fish"@,
        ShellType::PowerShell => "powershell"@,
    }
}

impl ShellType {
    /// The lower-case name of the shell (`"bash"`, `"zsh"`, `"fish"`,
    /// `"powershell"`).
    pub fn name(&self) -> (s: String)
        ensures
            s@ == shell_name(*self),
    {
        match self {
            ShellType::Bash => String::from_str("bash"),
            ShellType::Zsh => String::from_str("zsh"),
            ShellType::Fish => String::from_str("fish"),
            ShellType::PowerShell => String::from_str("powershell"),
        }
    }
}

/// The view of an optional string.
pub open spec fn opt_view(o: Option<String>) -> Option<Seq<char>> {
    match o {
        Some(s) => Some(s@),
        None => None,
    }
}

/// A shell found on this machine.
#[derive(Debug, Clone)]
pub struct DetectedShell {
    pub shell_type: ShellType,
    pub binary_path: String,
    pub config_files: Vec<String>,
    pub is_default: bool,
}

/// An alias as read from a configuration file.
#[derive(Debug, Clone)]
pub struct Alias {
    pub name: String,
    pub command: String,
    pub shell: ShellType,
    pub source_file: String,
    pub line_number: usize,
    pub group: Option<String>,
    pub is_managed: bool,
}

/// The view of an [`Alias`].
pub struct AliasView {
    pub name: Seq<char>,
    pub command: Seq<char>,
    pub shell: ShellType,
    pub source_file: Seq<char>,
    pub line_number: usize,
    pub group: Option<Seq<char>>,
    pub is_managed: bool,
}

impl View for Alias {
    type V = AliasView;

    open spec fn view(&self) -> AliasView {
        AliasView {
            name: self.name@,
            command: self.command@,
            shell: self.shell,
            source_file: self.source_file@,
            line_number: self.line_number,
            group: opt_view(self.group),
            is_managed: self.is_managed,
        }
    }
}

/// An alias as reported by a running shell.
#[derive(Debug, Clone)]
pub struct RuntimeAlias {
    pub name: String,
    pub command: String,
    pub shell: ShellType,
}

/// The view of a [`RuntimeAlias`].
pub struct RuntimeAliasView {
    pub name: Seq<char>,
    pub command: Seq<char>,
    pub shell: ShellType,
}

impl View for RuntimeAlias {
    type V = RuntimeAliasView;

    open spec fn view(&self) -> RuntimeAliasView {
        RuntimeAliasView { name: self.name@, command: self.command@, shell: self.shell }
    }
}

/// Where a merged alias was found.
#[derive(Debug, Clone)]
pub enum AliasSource {
    ConfigFile { path: String, line: usize },
    RuntimeOnly,
    Both { path: String, line: usize },
}

/// The view of an [`AliasSource`].
pub enum AliasSourceView {
    ConfigFile { path: Seq<char>, line: usize },
    RuntimeOnly,
    Both { path: Seq<char>, line: usize },
}

impl View for AliasSource {
    type V = AliasSourceView;

    open spec fn view(&self) -> AliasSourceView {
        match self {
            AliasSource::ConfigFile { path, line } => AliasSourceView::ConfigFile {
                path: path@,
                line: *line,
            },
            AliasSource::RuntimeOnly => AliasSourceView::RuntimeOnly,
            AliasSource::Both { path, line } => AliasSourceView::Both { path: path@, line: *line },
        }
    }
}

/// An alias combined from configuration files and the running shell.
#[derive(Debug, Clone)]
pub struct MergedAlias {
    pub name: String,
    pub command: String,
    pub shell: ShellType,
    pub source: AliasSource,
    pub group: Option<String>,
    pub is_managed: bool,
}

/// The view of a [`MergedAlias`].
pub struct MergedAliasView {
    pub name: Seq<char>,
    pub command: Seq<char>,
    pub shell: ShellType,
    pub source: AliasSourceView,
    pub group: Option<Seq<char>>,
    pub is_managed: bool,
}

impl View for MergedAlias {
    type V = MergedAliasView;

    open spec fn view(&self) -> MergedAliasView {
        MergedAliasView {
            name: self.name@,
            command: self.command@,
            shell: self.shell,
            source: self.source@,
            group: opt_view(self.group),
            is_managed: self.is_managed,
        }
    }
}

/// A request to add or change an alias.
#[derive(Debug, Clone)]
pub struct AliasInput {
    pub name: String,
    pub command: String,
    pub shell: ShellType,
    pub group: Option<String>,
}

/// A backup copy of a configuration file.
#[derive(Debug, Clone)]
pub struct BackupInfo {
    pub path: String,
    pub shell: ShellType,
    pub created_at: String,
    pub original_file: String,
}

/// The view of a [`BackupInfo`].
pub struct BackupInfoView {
    pub path: Seq<char>,
    pub shell: ShellType,
    pub created_at: Seq<char>,
    pub original_file: Seq<char>,
}

impl View for BackupInfo {
    type V = BackupInfoView;

    open spec fn view(&self) -> BackupInfoView {
        BackupInfoView {
            path: self.path@,
            shell: self.shell,
            created_at: self.created_at@,
            original_file: self.original_file@,
        }
    }
}

} // verus!
