//! Reading the aliases that a running shell reports.
use vstd::prelude::*;

use crate::text::{
    chars_of, find_char, index_of, lines, lines_of, seqs_of, slice_of, string_of, strip_prefix,
    push_string, string_views, strip_prefix_chars, trim, trim_chars, unquote, unquote_chars,
};
use crate::types::{RuntimeAlias, RuntimeAliasView, ShellType};

verus! {

/// The name and command in a line of `bash -ic alias` output:
/// `alias name='command'`.
pub open spec fn bash_runtime_line(line: Seq<char>) -> Option<(Seq<char>, Seq<char>)> {
    match strip_prefix(line, "alias "@) {
        Some(rest) => zsh_runtime_line(rest),
        None => None,
    }
}

/// The name and command in a line of `zsh -ic alias` output: `name='command'`
/// or `name=command`. The name runs up to the first `=`; one pair of quotes
/// around the command is dropped.
pub open spec fn zsh_runtime_line(line: Seq<char>) -> Option<(Seq<char>, Seq<char>)> {
    match index_of(line, '=') {
        Some(e) => Some(
            (line.subrange(0, e), unquote(line.subrange(e + 1, line.len() as int))),
        ),
        None => None,
    }
}

/// The name and command in a line of `fish -c alias` output:
/// `alias name 'command'`. The name runs up to the first space; the rest is
/// trimmed and one pair of quotes around it dropped.
pub open spec fn fish_runtime_line(line: Seq<char>) -> Option<(Seq<char>, Seq<char>)> {
    match strip_prefix(line, "alias "@) {
        Some(rest) => match index_of(rest, ' ') {
            Some(p) => Some(
                (rest.subrange(0, p), unquote(trim(rest.subrange(p + 1, rest.len() as int)))),
            ),
            None => None,
        },
        None => None,
    }
}

/// The name and definition in a line of PowerShell `Get-Alias` output
/// formatted as `Name=Definition`, both trimmed; nothing when either is
/// empty.
pub open spec fn powershell_runtime_line(line: Seq<char>) -> Option<(Seq<char>, Seq<char>)> {
    match index_of(line, '=') {
        Some(e) => {
            let name = trim(line.subrange(0, e));
            let command = trim(line.subrange(e + 1, line.len() as int));
            if name.len() == 0 || command.len() == 0 {
                None
            } else {
                Some((name, command))
            }
        },
        None => None,
    }
}

/// The name and command in a line of `shell`'s alias listing.
pub open spec fn runtime_line(shell: ShellType, line: Seq<char>) -> Option<(Seq<char>, Seq<char>)> {
    match shell {
        ShellType::Bash => bash_runtime_line(line),
        ShellType::Zsh => zsh_runtime_line(line),
        ShellType::Fish => fish_runtime_line(line),
        ShellType::PowerShell => powershell_runtime_line(line),
    }
}

/// The aliases that the lines `ls` of `shell`'s alias listing report: each
/// line is trimmed, blank lines are skipped, and lines that define no alias
/// are ignored.
pub open spec fn runtime_scan(shell: ShellType, ls: Seq<Seq<char>>) -> Seq<RuntimeAliasView>
    decreases ls.len(),
{
    if ls.len() == 0 {
        seq![]
    } else {
        let acc = runtime_scan(shell, ls.drop_last());
        let line = trim(ls.last());
        if line.len() == 0 {
            acc
        } else {
            match runtime_line(shell, line) {
                Some((name, command)) => acc.push(RuntimeAliasView { name, command, shell }),
                None => acc,
            }
        }
    }
}

/// The views of a sequence of runtime aliases.
pub open spec fn runtime_views(v: Seq<RuntimeAlias>) -> Seq<RuntimeAliasView> {
    v.map_values(|a: RuntimeAlias| a@)
}

/// The view of a parsed pair of strings.
pub open spec fn pair_view(r: Option<(String, String)>) -> Option<(Seq<char>, Seq<char>)> {
    match r {
        Some((a, b)) => Some((a@, b@)),
        None => None,
    }
}

/// The view of a parsed pair of character vectors.
pub open spec fn chars_pair_view(r: Option<(Vec<char>, Vec<char>)>) -> Option<
    (Seq<char>, Seq<char>),
> {
    match r {
        Some((a, b)) => Some((a@, b@)),
        None => None,
    }
}

fn zsh_line(line: &[char]) -> (r: Option<(Vec<char>, Vec<char>)>)
    ensures
        chars_pair_view(r) == zsh_runtime_line(line@),
{
    match find_char(line, '=') {
        Some(e) => {
            let name = slice_of(line, 0, e);
            let value = slice_of(line, e + 1, line.len());
            let command = unquote_chars(value.as_slice());
            Some((name, command))
        },
        None => None,
    }
}

fn bash_line(line: &[char]) -> (r: Option<(Vec<char>, Vec<char>)>)
    ensures
        chars_pair_view(r) == bash_runtime_line(line@),
{
    let prefix = chars_of("alias ");
    match strip_prefix_chars(line, prefix.as_slice()) {
        Some(rest) => zsh_line(rest.as_slice()),
        None => None,
    }
}

fn fish_line(line: &[char]) -> (r: Option<(Vec<char>, Vec<char>)>)
    ensures
        chars_pair_view(r) == fish_runtime_line(line@),
{
    let prefix = chars_of("alias ");
    match strip_prefix_chars(line, prefix.as_slice()) {
        Some(rest) => match find_char(rest.as_slice(), ' ') {
            Some(p) => {
                let name = slice_of(rest.as_slice(), 0, p);
                let after = slice_of(rest.as_slice(), p + 1, rest.len());
                let trimmed = trim_chars(after.as_slice());
                Some((name, unquote_chars(trimmed.as_slice())))
            },
            None => None,
        },
        None => None,
    }
}

fn powershell_line(line: &[char]) -> (r: Option<(Vec<char>, Vec<char>)>)
    ensures
        chars_pair_view(r) == powershell_runtime_line(line@),
{
    match find_char(line, '=') {
        Some(e) => {
            let before = slice_of(line, 0, e);
            let after = slice_of(line, e + 1, line.len());
            let name = trim_chars(before.as_slice());
            let command = trim_chars(after.as_slice());
            if name.len() == 0 || command.len() == 0 {
                None
            } else {
                Some((name, command))
            }
        },
        None => None,
    }
}

fn strings_of(r: Option<(Vec<char>, Vec<char>)>) -> (s: Option<(String, String)>)
    ensures
        pair_view(s) == chars_pair_view(r),
{
    match r {
        Some((a, b)) => Some((string_of(a.as_slice()), string_of(b.as_slice()))),
        None => None,
    }
}

/// Parses a line of bash's alias listing, `alias name='command'`.
pub fn parse_bash_runtime_line(line: &str) -> (r: Option<(String, String)>)
    ensures
        pair_view(r) == bash_runtime_line(line@),
{
    let l = chars_of(line);
    strings_of(bash_line(l.as_slice()))
}

/// Parses a line of zsh's alias listing, `name='command'` or `name=command`.
pub fn parse_zsh_runtime_line(line: &str) -> (r: Option<(String, String)>)
    ensures
        pair_view(r) == zsh_runtime_line(line@),
{
    let l = chars_of(line);
    strings_of(zsh_line(l.as_slice()))
}

/// Parses a line of fish's alias listing, `alias name 'command'`.
pub fn parse_fish_runtime_line(line: &str) -> (r: Option<(String, String)>)
    ensures
        pair_view(r) == fish_runtime_line(line@),
{
    let l = chars_of(line);
    strings_of(fish_line(l.as_slice()))
}

/// Parses a line of PowerShell's alias listing, `Name=Definition`.
pub fn parse_powershell_runtime_line(line: &str) -> (r: Option<(String, String)>)
    ensures
        pair_view(r) == powershell_runtime_line(line@),
{
    let l = chars_of(line);
    strings_of(powershell_line(l.as_slice()))
}

/// The aliases that `output`, the alias listing printed by `shell`, reports,
/// in the order of its lines.
pub fn parse_runtime_output(output: &str, shell: &ShellType) -> (aliases: Vec<RuntimeAlias>)
    ensures
        runtime_views(aliases@) == runtime_scan(*shell, lines_of(output@)),
{
    let text = chars_of(output);
    let ls = lines(text.as_slice());
    let mut aliases: Vec<RuntimeAlias> = Vec::new();
    let mut i: usize = 0;
    while i < ls.len()
        invariant
            i <= ls@.len(),
            seqs_of(ls@) == lines_of(output@),
            runtime_views(aliases@) == runtime_scan(*shell, seqs_of(ls@.take(i as int))),
        decreases ls.len() - i,
    {
        let ghost prefix = seqs_of(ls@.take(i + 1));
        assert(prefix.drop_last() =~= seqs_of(ls@.take(i as int)));
        assert(prefix.last() == ls@[i as int]@);
        let line = trim_chars(ls[i].as_slice());
        if line.len() > 0 {
            let parsed = match shell {
                ShellType::Bash => bash_line(line.as_slice()),
                ShellType::Zsh => zsh_line(line.as_slice()),
                ShellType::Fish => fish_line(line.as_slice()),
                ShellType::PowerShell => powershell_line(line.as_slice()),
            };
            if let Some((name, command)) = parsed {
                let ghost prev = aliases@;
                let alias = RuntimeAlias {
                    name: string_of(name.as_slice()),
                    command: string_of(command.as_slice()),
                    shell: *shell,
                };
                aliases.push(alias);
                assert(runtime_views(aliases@) =~= runtime_views(prev).push(alias@));
            }
        }
        i = i + 1;
    }
    assert(ls@.take(ls@.len() as int) == ls@);
    aliases
}

/// The arguments with which `shell` is run to list its aliases: bash and zsh
/// interactively (`-ic alias`), fish with `-c alias`, PowerShell without its
/// profile, printing each alias as `Name=Definition`.
pub open spec fn query_arguments(shell: ShellType) -> Seq<Seq<char>> {
    match shell {
        ShellType::Bash | ShellType::Zsh => seq!["-ic"@, "alias"@],
        ShellType::Fish => seq!["-c"@, "alias"@],
        ShellType::PowerShell => seq![
            "-NoProfile"@,
            "-Command"@,
            "Get-Alias | ForEach-Object { \"$($_.Name)=$($_.Definition)\" }"@,
        ],
    }
}

/// The arguments with which `shell` is run to list its aliases.
pub fn runtime_query_arguments(shell: &ShellType) -> (args: Vec<String>)
    ensures
        string_views(args@) == query_arguments(*shell),
{
    let mut v: Vec<String> = Vec::new();
    match shell {
        ShellType::Bash | ShellType::Zsh => {
            push_string(&mut v, "-ic");
            push_string(&mut v, "alias");
        },
        ShellType::Fish => {
            push_string(&mut v, "-c");
            push_string(&mut v, "alias");
        },
        ShellType::PowerShell => {
            push_string(&mut v, "-NoProfile");
            push_string(&mut v, "-Command");
            push_string(&mut v, "Get-Alias | ForEach-Object { \"$($_.Name)=$($_.Definition)\" }");
        },
    }
    assert(string_views(v@) =~= query_arguments(*shell));
    v
}

// ---------------------------------------------------------------------------
// Waiting for the shell
// ---------------------------------------------------------------------------

/// How long a shell may take to list its aliases, in nanoseconds (3 s).
pub const QUERY_TIMEOUT_NANOS: u128 = 3_000_000_000;

/// How long to sleep between two looks at a shell still running, in
/// milliseconds.
pub const POLL_INTERVAL_MS: u64 = 50;

/// What a look at the shell's process found.
#[derive(Debug, Clone, Copy, PartialEq, Eq, Structural)]
pub enum ChildState {
    /// The process has exited.
    Exited,
    /// The process is still running.
    Running,
    /// The process could not be asked.
    Failed,
}

/// What to do after a look at the shell's process.
#[derive(Debug, Clone, Copy, PartialEq, Eq, Structural)]
pub enum PollAction {
    /// Collect its output.
    Collect,
    /// Kill it and report no aliases.
    Kill,
    /// Sleep [`POLL_INTERVAL_MS`] and look again.
    Sleep,
    /// Report no aliases.
    GiveUp,
}

/// The next step of waiting for a shell that has run for `elapsed_nanos`:
/// collect the output once it has exited, give up when it cannot be asked,
/// kill it once more than [`QUERY_TIMEOUT_NANOS`] have passed, else sleep and
/// look again.
pub fn poll_step(state: ChildState, elapsed_nanos: u128) -> (a: PollAction)
    ensures
        a == match state {
            ChildState::Exited => PollAction::Collect,
            ChildState::Failed => PollAction::GiveUp,
            ChildState::Running => if elapsed_nanos > QUERY_TIMEOUT_NANOS {
                PollAction::Kill
            } else {
                PollAction::Sleep
            },
        },
{
    match state {
        ChildState::Exited => PollAction::Collect,
        ChildState::Failed => PollAction::GiveUp,
        ChildState::Running => {
            if elapsed_nanos > QUERY_TIMEOUT_NANOS {
                PollAction::Kill
            } else {
                PollAction::Sleep
            }
        },
    }
}

} // verus!
