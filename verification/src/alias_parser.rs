//! Reading aliases out of shell configuration text.
use vstd::prelude::*;

use crate::line_regex::{capture_first, capture_pair, group, group_pair, regex_captures};
use crate::text::{chars_of, contains, lines, lines_of, seq_contains, seqs_of, string_of, trim, trim_chars};
use crate::types::{Alias, AliasView, ShellType};

verus! {

/// The text that opens the block of aliases this application manages.
pub const MANAGED_START: &'static str = ">>> custom-alias managed >>>";

/// The text that closes the block of aliases this application manages.
pub const MANAGED_END: &'static str = "<<< custom-alias managed <<<";

/// `alias name='command'` in bash or zsh.
pub const BASH_SINGLE_QUOTED: &'static str = r#"^\s*alias\s+([\w.:-]+)\s*=\s*'(.*)'\s*$"#;

/// `alias name="command"` in bash or zsh.
pub const BASH_DOUBLE_QUOTED: &'static str = r#"^\s*alias\s+([\w.:-]+)\s*=\s*"(.*)"\s*$"#;

/// `alias name=command` in bash or zsh.
pub const BASH_UNQUOTED: &'static str = r#"^\s*alias\s+([\w.:-]+)\s*=\s*(\S+)\s*$"#;

/// `alias name 'command'` in fish.
pub const FISH_ALIAS: &'static str = r#"^\s*alias\s+([\w.:-]+)\s+['"]?(.+?)['"]?\s*$"#;

/// `abbr [-a] name command` in fish.
pub const FISH_ABBR: &'static str = r#"^\s*abbr\s+(?:-a\s+)?([\w.:-]+)\s+(.+)$"#;

/// `Set-Alias`/`New-Alias` in PowerShell.
pub const POWERSHELL_SET_ALIAS: &'static str =
    r#"(?i)^\s*(?:Set|New)-Alias\s+(?:-Name\s+)?(\S+)\s+(?:-Value\s+)?(\S+)"#;

/// A one-line `function name { body }` in PowerShell.
pub const POWERSHELL_FUNCTION: &'static str = r#"^\s*function\s+(\S+)\s*\{([^}]*)\}"#;

/// A `# group: name` comment inside the managed block.
pub const GROUP_COMMENT: &'static str = r"^#\s*group:\s*(.+)$";

/// The first of two matches that is there.
pub open spec fn first_some<T>(a: Option<T>, b: Option<T>) -> Option<T> {
    match a {
        Some(x) => Some(x),
        None => b,
    }
}

/// The name and command that a line defines in a configuration file of
/// `shell`, tried pattern by pattern in order. Each pattern's two groups are
/// mandatory, so a match always has them; a match lacking one would count as
/// no match of that pattern.
pub open spec fn line_alias(shell: ShellType, line: Seq<char>) -> Option<(Seq<char>, Seq<char>)> {
    match shell {
        ShellType::Bash | ShellType::Zsh => first_some(
            group_pair(regex_captures(BASH_SINGLE_QUOTED@, line)),
            first_some(
                group_pair(regex_captures(BASH_DOUBLE_QUOTED@, line)),
                group_pair(regex_captures(BASH_UNQUOTED@, line)),
            ),
        ),
        ShellType::Fish => first_some(
            group_pair(regex_captures(FISH_ALIAS@, line)),
            group_pair(regex_captures(FISH_ABBR@, line)),
        ),
        ShellType::PowerShell => first_some(
            group_pair(regex_captures(POWERSHELL_SET_ALIAS@, line)),
            match group_pair(regex_captures(POWERSHELL_FUNCTION@, line)) {
                Some((n, body)) => Some((n, trim(body))),
                None => None,
            },
        ),
    }
}

/// The group that a `# group:` line names, trimmed.
pub open spec fn line_group(line: Seq<char>) -> Option<Seq<char>> {
    match group(regex_captures(GROUP_COMMENT@, line), 1) {
        Some(g) => Some(trim(g)),
        None => None,
    }
}

/// What the parser sees in one line: whether it holds the text that opens
/// or closes the managed block, the group a `# group:` comment names, and the
/// alias the line defines.
pub struct LineReading {
    pub opens_block: bool,
    pub closes_block: bool,
    pub group: Option<String>,
    pub alias: Option<(String, String)>,
}

/// The view of a [`LineReading`].
pub struct LineReadingView {
    pub opens_block: bool,
    pub closes_block: bool,
    pub group: Option<Seq<char>>,
    pub alias: Option<(Seq<char>, Seq<char>)>,
}

impl View for LineReading {
    type V = LineReadingView;

    open spec fn view(&self) -> LineReadingView {
        LineReadingView {
            opens_block: self.opens_block,
            closes_block: self.closes_block,
            group: crate::types::opt_view(self.group),
            alias: match self.alias {
                Some((n, c)) => Some((n@, c@)),
                None => None,
            },
        }
    }
}

/// What the parser sees in `line` of a configuration file of `shell`.
pub open spec fn reading_of(shell: ShellType, line: Seq<char>) -> LineReadingView {
    LineReadingView {
        opens_block: seq_contains(line, MANAGED_START@),
        closes_block: seq_contains(line, MANAGED_END@),
        group: line_group(line),
        alias: line_alias(shell, line),
    }
}

/// What the parser sees in each of `lines`.
pub open spec fn readings_of(shell: ShellType, lines: Seq<Seq<char>>) -> Seq<LineReadingView> {
    lines.map_values(|l: Seq<char>| reading_of(shell, l))
}

/// The views of a sequence of line readings.
pub open spec fn reading_views(v: Seq<LineReading>) -> Seq<LineReadingView> {
    v.map_values(|r: LineReading| r@)
}

/// The aliases read from the lines seen as `readings`, whether the last line
/// read lies inside the managed block, and the group in force there.
///
/// A line that opens the block clears the group; one that closes it (and does
/// not open it) leaves the block and clears the group. Inside the block a
/// `# group:` line sets the group. Any other line that defines an alias gives
/// an alias numbered from 1 by its line, managed and grouped when it lies
/// inside the block.
pub open spec fn scan_readings(shell: ShellType, readings: Seq<LineReadingView>, source: Seq<char>) -> (
    Seq<AliasView>,
    bool,
    Option<Seq<char>>,
)
    decreases readings.len(),
{
    if readings.len() == 0 {
        (seq![], false, None)
    } else {
        let (acc, managed, grp) = scan_readings(shell, readings.drop_last(), source);
        let r = readings.last();
        if r.opens_block {
            (acc, true, None)
        } else if r.closes_block {
            (acc, false, None)
        } else if managed && r.group is Some {
            (acc, true, r.group)
        } else {
            match r.alias {
                Some((name, command)) => (
                    acc.push(
                        AliasView {
                            name,
                            command,
                            shell,
                            source_file: source,
                            line_number: readings.len() as usize,
                            group: if managed {
                                grp
                            } else {
                                None
                            },
                            is_managed: managed,
                        },
                    ),
                    managed,
                    grp,
                ),
                None => (acc, managed, grp),
            }
        }
    }
}

/// The aliases read from `lines` of a configuration file of `shell` at
/// `source`, with the state of the managed block after them.
pub open spec fn parse_scan(shell: ShellType, lines: Seq<Seq<char>>, source: Seq<char>) -> (
    Seq<AliasView>,
    bool,
    Option<Seq<char>>,
) {
    scan_readings(shell, readings_of(shell, lines), source)
}

/// The aliases that `content`, a configuration file of `shell` at `source`,
/// defines.
pub open spec fn parsed_aliases(shell: ShellType, content: Seq<char>, source: Seq<char>) -> Seq<
    AliasView,
> {
    parse_scan(shell, lines_of(content), source).0
}

/// The views of a sequence of aliases.
pub open spec fn alias_views(v: Seq<Alias>) -> Seq<AliasView> {
    v.map_values(|a: Alias| a@)
}

/// The name and command that `line` defines, trying `shell`'s patterns in
/// order.
fn match_alias_line(shell: ShellType, line: &str) -> (r: Option<(String, String)>)
    ensures
        match r {
            Some((n, c)) => line_alias(shell, line@) == Some((n@, c@)),
            None => line_alias(shell, line@) is None,
        },
{
    match shell {
        ShellType::Bash | ShellType::Zsh => {
            if let Some(p) = capture_pair(BASH_SINGLE_QUOTED, line) {
                Some(p)
            } else if let Some(p) = capture_pair(BASH_DOUBLE_QUOTED, line) {
                Some(p)
            } else {
                capture_pair(BASH_UNQUOTED, line)
            }
        },
        ShellType::Fish => {
            if let Some(p) = capture_pair(FISH_ALIAS, line) {
                Some(p)
            } else {
                capture_pair(FISH_ABBR, line)
            }
        },
        ShellType::PowerShell => {
            if let Some(p) = capture_pair(POWERSHELL_SET_ALIAS, line) {
                Some(p)
            } else if let Some((n, body)) = capture_pair(POWERSHELL_FUNCTION, line) {
                let b = chars_of(body.as_str());
                let t = trim_chars(b.as_slice());
                Some((n, string_of(t.as_slice())))
            } else {
                None
            }
        },
    }
}

/// The group that a `# group:` line names, trimmed.
fn match_group_line(line: &str) -> (r: Option<String>)
    ensures
        match r {
            Some(g) => line_group(line@) == Some(g@),
            None => line_group(line@) is None,
        },
{
    match capture_first(GROUP_COMMENT, line) {
        Some(g) => {
            let v = chars_of(g.as_str());
            let t = trim_chars(v.as_slice());
            Some(string_of(t.as_slice()))
        },
        None => None,
    }
}

/// What the parser sees in `line` of a configuration file of `shell`.
pub fn read_line(shell: &ShellType, line: &str) -> (r: LineReading)
    ensures
        r@ == reading_of(*shell, line@),
{
    let l = chars_of(line);
    LineReading {
        opens_block: contains(l.as_slice(), chars_of(MANAGED_START).as_slice()),
        closes_block: contains(l.as_slice(), chars_of(MANAGED_END).as_slice()),
        group: match_group_line(line),
        alias: match_alias_line(*shell, line),
    }
}

fn copy_group(g: &Option<String>) -> (r: Option<String>)
    ensures
        r == *g,
{
    match g {
        Some(s) => Some(s.clone()),
        None => None,
    }
}

/// The aliases that the lines seen as `readings` define, in a configuration
/// file of `shell` stored at `source_file`.
pub fn aliases_from_readings(readings: &[LineReading], shell: &ShellType, source_file: &str) -> (aliases:
    Vec<Alias>)
    ensures
        alias_views(aliases@) == scan_readings(*shell, reading_views(readings@), source_file@).0,
{
    let ghost rs = reading_views(readings@);
    let mut aliases: Vec<Alias> = Vec::new();
    let mut in_managed = false;
    let mut current_group: Option<String> = None;
    let mut i: usize = 0;
    while i < readings.len()
        invariant
            i <= readings@.len(),
            rs == reading_views(readings@),
            (alias_views(aliases@), in_managed, crate::types::opt_view(current_group))
                == scan_readings(*shell, rs.take(i as int), source_file@),
        decreases readings.len() - i,
    {
        assert(rs.take(i + 1).drop_last() =~= rs.take(i as int));
        assert(rs.take(i + 1).last() == readings@[i as int]@);
        let r = &readings[i];
        if r.opens_block {
            in_managed = true;
            current_group = None;
        } else if r.closes_block {
            in_managed = false;
            current_group = None;
        } else if in_managed && r.group.is_some() {
            current_group = copy_group(&r.group);
        } else if let Some((name, command)) = &r.alias {
            let group = if in_managed {
                copy_group(&current_group)
            } else {
                None
            };
            let ghost prev = aliases@;
            let alias = Alias {
                name: name.clone(),
                command: command.clone(),
                shell: *shell,
                source_file: String::from_str(source_file),
                line_number: i + 1,
                group,
                is_managed: in_managed,
            };
            aliases.push(alias);
            assert(alias_views(aliases@) =~= alias_views(prev).push(alias@));
        }
        i = i + 1;
    }
    assert(rs.take(rs.len() as int) =~= rs);
    aliases
}

/// Reads the aliases that the lines of a configuration file define.
fn scan_lines(lines: &[Vec<char>], shell: ShellType, source_file: &str) -> (aliases: Vec<Alias>)
    ensures
        alias_views(aliases@) == parse_scan(shell, seqs_of(lines@), source_file@).0,
{
    let ghost ls = seqs_of(lines@);
    let mut readings: Vec<LineReading> = Vec::new();
    let mut i: usize = 0;
    while i < lines.len()
        invariant
            i <= lines@.len(),
            ls == seqs_of(lines@),
            reading_views(readings@) == readings_of(shell, ls.take(i as int)),
        decreases lines.len() - i,
    {
        let ghost prev = readings@;
        let text = string_of(lines[i].as_slice());
        let r = read_line(&shell, text.as_str());
        readings.push(r);
        assert(reading_views(readings@) =~= reading_views(prev).push(r@));
        assert(readings_of(shell, ls.take(i + 1)) =~= readings_of(shell, ls.take(i as int)).push(
            reading_of(shell, ls[i as int]),
        ));
        i = i + 1;
    }
    assert(ls.take(ls.len() as int) =~= ls);
    aliases_from_readings(readings.as_slice(), &shell, source_file)
}

/// Aliases of a bash or zsh configuration file.
fn parse_bash_zsh(content: &[char], shell: ShellType, source_file: &str) -> (aliases: Vec<Alias>)
    ensures
        alias_views(aliases@) == parsed_aliases(shell, content@, source_file@),
{
    let ls = lines(content);
    scan_lines(ls.as_slice(), shell, source_file)
}

/// Aliases and abbreviations of a fish configuration file.
fn parse_fish(content: &[char], source_file: &str) -> (aliases: Vec<Alias>)
    ensures
        alias_views(aliases@) == parsed_aliases(ShellType::Fish, content@, source_file@),
{
    let ls = lines(content);
    scan_lines(ls.as_slice(), ShellType::Fish, source_file)
}

/// Aliases and one-line functions of a PowerShell profile.
fn parse_powershell(content: &[char], source_file: &str) -> (aliases: Vec<Alias>)
    ensures
        alias_views(aliases@) == parsed_aliases(ShellType::PowerShell, content@, source_file@),
{
    let ls = lines(content);
    scan_lines(ls.as_slice(), ShellType::PowerShell, source_file)
}

/// The aliases that `content`, a configuration file of `shell` stored at
/// `source_file`, defines, in the order of their lines.
pub fn parse_content(content: &str, shell: &ShellType, source_file: &str) -> (aliases: Vec<Alias>)
    ensures
        alias_views(aliases@) == parsed_aliases(*shell, content@, source_file@),
{
    let text = chars_of(content);
    match shell {
        ShellType::Bash | ShellType::Zsh => parse_bash_zsh(text.as_slice(), *shell, source_file),
        ShellType::Fish => parse_fish(text.as_slice(), source_file),
        ShellType::PowerShell => parse_powershell(text.as_slice(), source_file),
    }
}

/// Reading one more line reads what was read before, then that line.
pub proof fn lemma_readings_push(shell: ShellType, lines: Seq<Seq<char>>, line: Seq<char>)
    ensures
        readings_of(shell, lines.push(line)).drop_last() == readings_of(shell, lines),
        readings_of(shell, lines.push(line)).last() == reading_of(shell, line),
        readings_of(shell, lines.push(line)).len() == lines.len() + 1,
{
    assert(readings_of(shell, lines.push(line)).drop_last() =~= readings_of(shell, lines));
}

/// What holds of every alias read from a file: it carries the file's shell
/// and place; it is numbered by a line of the file, later aliases by later
/// lines; and only an alias inside the managed block has a group. Outside the
/// block no group is in force.
pub proof fn lemma_parsed_aliases_shape(
    shell: ShellType,
    readings: Seq<LineReadingView>,
    source: Seq<char>,
)
    requires
        readings.len() <= usize::MAX,
    ensures
        ({
            let (aliases, managed, grp) = scan_readings(shell, readings, source);
            &&& forall|k: int|
                0 <= k < aliases.len() ==> {
                    &&& 1 <= #[trigger] aliases[k].line_number <= readings.len()
                    &&& aliases[k].shell == shell
                    &&& aliases[k].source_file == source
                    &&& !aliases[k].is_managed ==> aliases[k].group is None
                }
            &&& forall|i: int, j: int|
                0 <= i < j < aliases.len() ==> #[trigger] aliases[i].line_number
                    < #[trigger] aliases[j].line_number
            &&& !managed ==> grp is None
        }),
    decreases readings.len(),
{
    if readings.len() > 0 {
        let init = readings.drop_last();
        lemma_parsed_aliases_shape(shell, init, source);
        let (prev, m, g) = scan_readings(shell, init, source);
        let (aliases, managed, grp) = scan_readings(shell, readings, source);
        if aliases.len() > prev.len() {
            let (name, command) = readings.last().alias.unwrap();
            let added = AliasView {
                name,
                command,
                shell,
                source_file: source,
                line_number: readings.len() as usize,
                group: if m {
                    g
                } else {
                    None
                },
                is_managed: m,
            };
            assert(aliases == prev.push(added));
            assert((readings.len() as usize) as int == readings.len());
            assert forall|i: int, j: int|
                0 <= i < j < aliases.len() implies #[trigger] aliases[i].line_number
                    < #[trigger] aliases[j].line_number by {
                assert(aliases[i] == prev[i]);
                if j < prev.len() {
                    assert(aliases[j] == prev[j]);
                }
                assert(prev[i].line_number <= init.len());
            }
            assert forall|k: int| 0 <= k < aliases.len() implies {
                &&& 1 <= #[trigger] aliases[k].line_number <= readings.len()
                &&& aliases[k].shell == shell
                &&& aliases[k].source_file == source
                &&& !aliases[k].is_managed ==> aliases[k].group is None
            } by {
                if k < prev.len() {
                    assert(aliases[k] == prev[k]);
                    assert(1 <= prev[k].line_number <= init.len());
                }
            }
        } else {
            assert(aliases =~= prev);
            assert forall|k: int| 0 <= k < aliases.len() implies {
                &&& 1 <= #[trigger] aliases[k].line_number <= readings.len()
                &&& aliases[k].shell == shell
                &&& aliases[k].source_file == source
                &&& !aliases[k].is_managed ==> aliases[k].group is None
            } by {
                assert(1 <= prev[k].line_number <= init.len());
            }
        }
    }
}

} // verus!
