//! Writing aliases into the managed block of a configuration file.
//!
//! The functions here compute the new text of a configuration file from its
//! old text; reading and writing the file is left to the caller.
use vstd::prelude::*;

use crate::alias_parser::{MANAGED_END, MANAGED_START};
use crate::text::{
    chars_of, concat, contains, find_char, index_of, join_lines, join_with_newlines,
    last_index_of, last_word, last_word_chars, lines, lines_of, replace_char,
    replace_char_chars, rfind_char, seq_contains, seqs_of, slice_of, starts_with,
    starts_with_chars, string_of, strip_prefix, strip_prefix_chars, strip_quotes,
    strip_quotes_chars, trim, trim_chars, trim_start, trim_start_chars, unquote,
};
use crate::error::AppError;
use crate::types::{opt_view, shell_name, AliasInput, ShellType};

verus! {

/// The line that opens the managed block when the writer creates it.
pub const MANAGED_START_LINE: &'static str = "# >>> custom-alias managed >>>";

/// The line that closes the managed block when the writer creates it.
pub const MANAGED_END_LINE: &'static str = "# <<< custom-alias managed <<<";

// ---------------------------------------------------------------------------
// Formatting
// ---------------------------------------------------------------------------

/// `c` occurs in `s`.
pub open spec fn has_char(s: Seq<char>, c: char) -> bool {
    index_of(s, c) is Some
}

/// The line that defines alias `name` for `command` in `shell`'s syntax.
///
/// Bash and zsh get `alias name='command'` with each `'` of the command
/// written `'\''`; fish gets `alias name 'command'` with each `'` written
/// `\'`. PowerShell gets a one-line function when the command holds a space,
/// and `Set-Alias` otherwise.
pub open spec fn alias_line(shell: ShellType, name: Seq<char>, command: Seq<char>) -> Seq<char> {
    match shell {
        ShellType::Bash | ShellType::Zsh => "alias "@ + name + "='"@ + replace_char(
            command,
            '\'',
            "'\\''"@,
        ) + "'"@,
        ShellType::Fish => "alias "@ + name + " '"@ + replace_char(command, '\'', "\\'"@) + "'"@,
        ShellType::PowerShell => if has_char(command, ' ') {
            "function "@ + name + " { "@ + command + " $args }"@
        } else {
            "Set-Alias -Name "@ + name + " -Value "@ + command
        },
    }
}

/// The text by which a line of `shell`'s configuration is recognised as
/// defining alias `name`.
pub open spec fn name_pattern(shell: ShellType, name: Seq<char>) -> Seq<char> {
    match shell {
        ShellType::Bash | ShellType::Zsh => "alias "@ + name + "="@,
        ShellType::Fish => "alias "@ + name + " "@,
        ShellType::PowerShell => name,
    }
}

/// The line that defines alias `name` for `command` in `shell`'s syntax.
pub fn format_alias_line(shell: &ShellType, name: &str, command: &str) -> (line: String)
    ensures
        line@ == alias_line(*shell, name@, command@),
{
    let n = chars_of(name);
    let c = chars_of(command);
    let v = match shell {
        ShellType::Bash | ShellType::Zsh => {
            let escaped = replace_char_chars(c.as_slice(), '\'', chars_of("'\\''").as_slice());
            let v = concat(chars_of("alias ").as_slice(), n.as_slice());
            let v = concat(v.as_slice(), chars_of("='").as_slice());
            let v = concat(v.as_slice(), escaped.as_slice());
            concat(v.as_slice(), chars_of("'").as_slice())
        },
        ShellType::Fish => {
            let escaped = replace_char_chars(c.as_slice(), '\'', chars_of("\\'").as_slice());
            let v = concat(chars_of("alias ").as_slice(), n.as_slice());
            let v = concat(v.as_slice(), chars_of(" '").as_slice());
            let v = concat(v.as_slice(), escaped.as_slice());
            concat(v.as_slice(), chars_of("'").as_slice())
        },
        ShellType::PowerShell => {
            if find_char(c.as_slice(), ' ').is_some() {
                let v = concat(chars_of("function ").as_slice(), n.as_slice());
                let v = concat(v.as_slice(), chars_of(" { ").as_slice());
                let v = concat(v.as_slice(), c.as_slice());
                concat(v.as_slice(), chars_of(" $args }").as_slice())
            } else {
                let v = concat(chars_of("Set-Alias -Name ").as_slice(), n.as_slice());
                let v = concat(v.as_slice(), chars_of(" -Value ").as_slice());
                concat(v.as_slice(), c.as_slice())
            }
        },
    };
    string_of(v.as_slice())
}

fn name_pattern_chars(shell: ShellType, name: &[char]) -> (p: Vec<char>)
    ensures
        p@ == name_pattern(shell, name@),
{
    match shell {
        ShellType::Bash | ShellType::Zsh => {
            let v = concat(chars_of("alias ").as_slice(), name);
            concat(v.as_slice(), chars_of("=").as_slice())
        },
        ShellType::Fish => {
            let v = concat(chars_of("alias ").as_slice(), name);
            concat(v.as_slice(), chars_of(" ").as_slice())
        },
        ShellType::PowerShell => slice_of(name, 0, name.len()),
    }
}

/// The text by which a line of `shell`'s configuration is recognised as
/// defining alias `name`.
pub fn alias_name_pattern(shell: &ShellType, name: &str) -> (p: String)
    ensures
        p@ == name_pattern(*shell, name@),
{
    let n = chars_of(name);
    let p = name_pattern_chars(*shell, n.as_slice());
    assert(n@.subrange(0, n@.len() as int) == n@);
    string_of(p.as_slice())
}

// ---------------------------------------------------------------------------
// Reading the managed block
// ---------------------------------------------------------------------------

/// `line` holds the text that opens the managed block.
pub open spec fn opens_block(line: Seq<char>) -> bool {
    seq_contains(line, MANAGED_START@)
}

/// `line` holds the text that closes the managed block.
pub open spec fn closes_block(line: Seq<char>) -> bool {
    seq_contains(line, MANAGED_END@)
}

/// Whether the managed block is open after the marker lines among `lines`:
/// a line that opens it sets it, a line that closes it clears it, and marker
/// lines themselves lie outside.
pub open spec fn open_after(lines: Seq<Seq<char>>) -> bool
    decreases lines.len(),
{
    if lines.len() == 0 {
        false
    } else if opens_block(lines.last()) {
        true
    } else if closes_block(lines.last()) {
        false
    } else {
        open_after(lines.drop_last())
    }
}

/// Some line of `lines` that is no marker, lies inside the managed block and
/// holds `pattern`.
pub open spec fn managed_line_holds(lines: Seq<Seq<char>>, pattern: Seq<char>) -> bool
    decreases lines.len(),
{
    if lines.len() == 0 {
        false
    } else {
        managed_line_holds(lines.drop_last(), pattern) || {
            let line = lines.last();
            &&& !opens_block(line)
            &&& !closes_block(line)
            &&& open_after(lines.drop_last())
            &&& seq_contains(line, pattern)
        }
    }
}

/// The managed block of `content` already defines alias `name` of `shell`.
pub open spec fn has_managed(content: Seq<char>, name: Seq<char>, shell: ShellType) -> bool {
    managed_line_holds(lines_of(content), name_pattern(shell, name))
}

/// Whether the managed block of `content` already defines alias `name`.
pub fn has_managed_alias(content: &str, name: &str, shell: &ShellType) -> (b: bool)
    ensures
        b == has_managed(content@, name@, *shell),
{
    let n = chars_of(name);
    let pattern = name_pattern_chars(*shell, n.as_slice());
    let text = chars_of(content);
    let ls = lines(text.as_slice());
    let start = chars_of(MANAGED_START);
    let end = chars_of(MANAGED_END);
    let mut in_managed = false;
    let mut i: usize = 0;
    while i < ls.len()
        invariant
            i <= ls@.len(),
            seqs_of(ls@) == lines_of(content@),
            pattern@ == name_pattern(*shell, name@),
            start@ == MANAGED_START@,
            end@ == MANAGED_END@,
            in_managed == open_after(seqs_of(ls@.take(i as int))),
            !managed_line_holds(seqs_of(ls@.take(i as int)), pattern@),
        decreases ls.len() - i,
    {
        let ghost prefix = seqs_of(ls@.take(i + 1));
        assert(prefix.drop_last() =~= seqs_of(ls@.take(i as int)));
        assert(prefix.last() == ls@[i as int]@);
        let line = ls[i].as_slice();
        if contains(line, start.as_slice()) {
            in_managed = true;
        } else if contains(line, end.as_slice()) {
            in_managed = false;
        } else if in_managed && contains(line, pattern.as_slice()) {
            assert(managed_line_holds(prefix, pattern@));
            assert(ls@ == ls@.take(i + 1) + ls@.skip(i + 1));
            assert(seqs_of(ls@) =~= seqs_of(ls@.take(i + 1)) + seqs_of(ls@.skip(i + 1)));
            proof {
                lemma_managed_line_holds_extend(
                    seqs_of(ls@.take(i + 1)),
                    seqs_of(ls@.skip(i + 1)),
                    pattern@,
                );
            }
            return true;
        }
        i = i + 1;
    }
    assert(ls@.take(ls@.len() as int) == ls@);
    false
}

/// A line found holding the pattern stays found when more lines follow.
pub proof fn lemma_managed_line_holds_extend(a: Seq<Seq<char>>, b: Seq<Seq<char>>, pattern: Seq<char>)
    requires
        managed_line_holds(a, pattern),
    ensures
        managed_line_holds(a + b, pattern),
    decreases b.len(),
{
    if b.len() > 0 {
        lemma_managed_line_holds_extend(a, b.drop_last(), pattern);
        assert((a + b).drop_last() =~= a + b.drop_last());
    } else {
        assert(a + b =~= a);
    }
}

/// Whether the managed block is open once `lines` are read, where a line may
/// both open and close it: one that opens it sets it, and then one that closes
/// it clears it.
pub open spec fn inside_after(lines: Seq<Seq<char>>) -> bool
    decreases lines.len(),
{
    if lines.len() == 0 {
        false
    } else if closes_block(lines.last()) {
        false
    } else if opens_block(lines.last()) {
        true
    } else {
        inside_after(lines.drop_last())
    }
}

/// Line `target` (counted from 0) of `content` lies inside the managed block;
/// the marker line that opens the block counts as inside it, the one that
/// closes it as outside.
pub open spec fn in_managed_block(content: Seq<char>, target: int) -> bool {
    0 <= target < lines_of(content).len() && inside_after(lines_of(content).take(target + 1))
}

/// Whether line `target_line` (counted from 0) of `content` lies inside the
/// managed block.
pub fn is_in_managed_block(content: &str, target_line: usize) -> (b: bool)
    ensures
        b == in_managed_block(content@, target_line as int),
{
    let text = chars_of(content);
    let ls = lines(text.as_slice());
    let start = chars_of(MANAGED_START);
    let end = chars_of(MANAGED_END);
    let mut in_managed = false;
    let mut i: usize = 0;
    while i < ls.len()
        invariant
            i <= ls@.len(),
            i <= target_line,
            seqs_of(ls@) == lines_of(content@),
            start@ == MANAGED_START@,
            end@ == MANAGED_END@,
            in_managed == inside_after(seqs_of(ls@.take(i as int))),
        decreases ls.len() - i,
    {
        let ghost prefix = seqs_of(ls@.take(i + 1));
        assert(prefix.drop_last() =~= seqs_of(ls@.take(i as int)));
        assert(prefix.last() == ls@[i as int]@);
        let line = ls[i].as_slice();
        if contains(line, start.as_slice()) {
            in_managed = true;
        }
        if contains(line, end.as_slice()) {
            in_managed = false;
        }
        if i == target_line {
            assert(seqs_of(ls@.take(i + 1)) =~= lines_of(content@).take(i + 1));
            return in_managed;
        }
        i = i + 1;
    }
    false
}

/// Whether `line` is a comment: its first character after leading whitespace
/// is `#`.
pub open spec fn comment_line(line: Seq<char>) -> bool {
    starts_with(trim_start(line), "#"@)
}

/// Whether `line` is a comment.
pub fn is_comment(line: &str) -> (b: bool)
    ensures
        b == comment_line(line@),
{
    let l = chars_of(line);
    let t = trim_start_chars(l.as_slice());
    starts_with_chars(t.as_slice(), chars_of("#").as_slice())
}

// ---------------------------------------------------------------------------
// Reading a command back
// ---------------------------------------------------------------------------

/// Extracting the body of a PowerShell function line would take the text
/// between a `{` and a `}` that comes before it.
pub open spec fn extraction_fails(line: Seq<char>, shell: ShellType) -> bool {
    &&& shell == ShellType::PowerShell
    &&& !seq_contains(line, "Set-Alias"@)
    &&& seq_contains(line, "function"@)
    &&& index_of(line, '{') is Some
    &&& last_index_of(line, '}') is Some
    &&& last_index_of(line, '}').unwrap() < index_of(line, '{').unwrap() + 1
}

/// The command that an alias-defining `line` of `shell`'s configuration
/// gives.
///
/// Bash and zsh: what follows the first `=`, trimmed, without one pair of
/// surrounding single or double quotes. Fish: after `alias ` (once the line
/// is trimmed) and the name up to the next space, the rest trimmed and without
/// one pair of single quotes. PowerShell: the last word of a `Set-Alias`
/// line, or the trimmed text between the first `{` and the last `}` of a
/// `function` line.
pub open spec fn command_of_line(line: Seq<char>, shell: ShellType) -> Option<Seq<char>> {
    match shell {
        ShellType::Bash | ShellType::Zsh => match index_of(line, '=') {
            Some(e) => Some(unquote(trim(line.subrange(e + 1, line.len() as int)))),
            None => None,
        },
        ShellType::Fish => match strip_prefix(trim(line), "alias "@) {
            Some(rest) => match index_of(rest, ' ') {
                Some(p) => {
                    let cmd = trim(rest.subrange(p + 1, rest.len() as int));
                    match strip_quotes(cmd, '\'') {
                        Some(inner) => Some(inner),
                        None => Some(cmd),
                    }
                },
                None => None,
            },
            None => None,
        },
        ShellType::PowerShell => if seq_contains(line, "Set-Alias"@) {
            last_word(line)
        } else if seq_contains(line, "function"@) {
            match (index_of(line, '{'), last_index_of(line, '}')) {
                (Some(b), Some(e)) => Some(trim(line.subrange(b + 1, e))),
                _ => None,
            }
        } else {
            None
        },
    }
}

/// Whether extracting the command of `line` would meet a `}` before the `{`
/// it should close, which [`extract_command_from_line`] does not accept.
pub fn command_extraction_fails(line: &str, shell: &ShellType) -> (b: bool)
    ensures
        b == extraction_fails(line@, *shell),
{
    let l = chars_of(line);
    match shell {
        ShellType::PowerShell => {
            if contains(l.as_slice(), chars_of("Set-Alias").as_slice()) {
                false
            } else if !contains(l.as_slice(), chars_of("function").as_slice()) {
                false
            } else {
                match (find_char(l.as_slice(), '{'), rfind_char(l.as_slice(), '}')) {
                    (Some(b), Some(e)) => e < b + 1,
                    _ => false,
                }
            }
        },
        _ => false,
    }
}

/// The command that an alias-defining `line` of `shell`'s configuration
/// gives, or `None` when the line has no such shape.
pub fn extract_command_from_line(line: &str, shell: &ShellType) -> (r: Option<String>)
    requires
        !extraction_fails(line@, *shell),
    ensures
        match r {
            Some(c) => command_of_line(line@, *shell) == Some(c@),
            None => command_of_line(line@, *shell) is None,
        },
{
    let l = chars_of(line);
    let v = match shell {
        ShellType::Bash | ShellType::Zsh => match find_char(l.as_slice(), '=') {
            Some(e) => {
                let after = slice_of(l.as_slice(), e + 1, l.len());
                let trimmed = trim_chars(after.as_slice());
                Some(crate::text::unquote_chars(trimmed.as_slice()))
            },
            None => None,
        },
        ShellType::Fish => {
            let t = trim_chars(l.as_slice());
            match strip_prefix_chars(t.as_slice(), chars_of("alias ").as_slice()) {
                Some(rest) => match find_char(rest.as_slice(), ' ') {
                    Some(p) => {
                        let after = slice_of(rest.as_slice(), p + 1, rest.len());
                        let cmd = trim_chars(after.as_slice());
                        match strip_quotes_chars(cmd.as_slice(), '\'') {
                            Some(inner) => Some(inner),
                            None => Some(cmd),
                        }
                    },
                    None => None,
                },
                None => None,
            }
        },
        ShellType::PowerShell => {
            if contains(l.as_slice(), chars_of("Set-Alias").as_slice()) {
                last_word_chars(l.as_slice())
            } else if contains(l.as_slice(), chars_of("function").as_slice()) {
                match (find_char(l.as_slice(), '{'), rfind_char(l.as_slice(), '}')) {
                    (Some(b), Some(e)) => {
                        let body = slice_of(l.as_slice(), b + 1, e);
                        Some(trim_chars(body.as_slice()))
                    },
                    _ => None,
                }
            } else {
                None
            }
        },
    };
    match v {
        Some(c) => Some(string_of(c.as_slice())),
        None => None,
    }
}

// ---------------------------------------------------------------------------
// Changing the managed block
// ---------------------------------------------------------------------------

/// The comment that starts a group inside the managed block.
pub open spec fn group_line(group: Seq<char>) -> Seq<char> {
    "# group: "@ + group
}

/// The group comment to write before an alias, if it has a group.
pub open spec fn group_lines(group: Option<Seq<char>>) -> Seq<Seq<char>> {
    match group {
        Some(g) => seq![group_line(g)],
        None => seq![],
    }
}

/// The lines of a file with a managed block once `line` (after its group
/// comment) is put just before the first line that closes the block, and
/// whether that line has been met.
pub open spec fn insert_scan(
    lines: Seq<Seq<char>>,
    line: Seq<char>,
    group: Option<Seq<char>>,
) -> (Seq<Seq<char>>, bool)
    decreases lines.len(),
{
    if lines.len() == 0 {
        (seq![], false)
    } else {
        let (out, inserted) = insert_scan(lines.drop_last(), line, group);
        if closes_block(lines.last()) && !inserted {
            (out + group_lines(group) + seq![line, lines.last()], true)
        } else {
            (out.push(lines.last()), inserted)
        }
    }
}

/// `content`, ended by a line break unless it is empty or already ends with
/// one.
pub open spec fn with_final_newline(content: Seq<char>) -> Seq<char> {
    if content.len() > 0 && content.last() != '\n' {
        content.push('\n')
    } else {
        content
    }
}

/// `content` with `line` (after its group comment) added to the managed
/// block.
///
/// When the file has a managed block, the lines go just before the first line
/// that closes it, and the lines are joined again with `'\n'`. Otherwise a new
/// block is appended after a blank line: the content, a line break if it does
/// not end with one, a blank line, the opening marker line, the group comment,
/// the alias line and the closing marker line, each ended by `'\n'`.
pub open spec fn inserted_text(content: Seq<char>, line: Seq<char>, group: Option<Seq<char>>) -> Seq<
    char,
> {
    if seq_contains(content, MANAGED_START@) {
        join_lines(insert_scan(lines_of(content), line, group).0)
    } else {
        with_final_newline(content) + "\n"@ + MANAGED_START_LINE@ + "\n"@ + match group {
            Some(g) => group_line(g) + "\n"@,
            None => seq![],
        } + line + "\n"@ + MANAGED_END_LINE@ + "\n"@
    }
}

fn push_line(out: &mut Vec<Vec<char>>, line: Vec<char>)
    ensures
        seqs_of(final(out)@) == seqs_of(old(out)@).push(line@),
{
    let ghost prev = out@;
    out.push(line);
    assert(seqs_of(out@) =~= seqs_of(prev).push(line@));
}

fn copy_chars(s: &[char]) -> (v: Vec<char>)
    ensures
        v@ == s@,
{
    let v = slice_of(s, 0, s.len());
    assert(s@.subrange(0, s@.len() as int) == s@);
    v
}

fn group_line_chars(group: &Option<String>) -> (r: Option<Vec<char>>)
    ensures
        match r {
            Some(v) => group is Some && v@ == group_line(group.unwrap()@),
            None => group is None,
        },
{
    match group {
        Some(g) => Some(concat(chars_of("# group: ").as_slice(), chars_of(g.as_str()).as_slice())),
        None => None,
    }
}

/// `content` with `alias_line` (after the comment of `group`, if any) added to
/// the managed block, creating the block when the file has none.
pub fn insert_into_managed_section(
    content: &str,
    alias_line: &str,
    group: &Option<String>,
    shell: &ShellType,
) -> (text: String)
    ensures
        text@ == inserted_text(content@, alias_line@, crate::types::opt_view(*group)),
{
    let text = chars_of(content);
    let line = chars_of(alias_line);
    let gline = group_line_chars(group);
    let ghost g = crate::types::opt_view(*group);
    if contains(text.as_slice(), chars_of(MANAGED_START).as_slice()) {
        let ls = lines(text.as_slice());
        let end = chars_of(MANAGED_END);
        let mut out: Vec<Vec<char>> = Vec::new();
        let mut inserted = false;
        let mut i: usize = 0;
        while i < ls.len()
            invariant
                i <= ls@.len(),
                end@ == MANAGED_END@,
                match gline {
                    Some(v) => g is Some && v@ == group_line(g.unwrap()),
                    None => g is None,
                },
                (seqs_of(out@), inserted) == insert_scan(
                    seqs_of(ls@.take(i as int)),
                    line@,
                    g,
                ),
            decreases ls.len() - i,
        {
            let ghost prefix = seqs_of(ls@.take(i + 1));
            assert(prefix.drop_last() =~= seqs_of(ls@.take(i as int)));
            assert(prefix.last() == ls@[i as int]@);
            let ghost before = seqs_of(out@);
            if contains(ls[i].as_slice(), end.as_slice()) && !inserted {
                match &gline {
                    Some(v) => push_line(&mut out, copy_chars(v.as_slice())),
                    None => {},
                }
                push_line(&mut out, copy_chars(line.as_slice()));
                inserted = true;
                push_line(&mut out, copy_chars(ls[i].as_slice()));
                assert(seqs_of(out@) =~= before + group_lines(g) + seq![line@, ls@[i as int]@]);
            } else {
                push_line(&mut out, copy_chars(ls[i].as_slice()));
            }
            i = i + 1;
        }
        assert(ls@.take(ls@.len() as int) == ls@);
        let joined = join_with_newlines(out.as_slice());
        string_of(joined.as_slice())
    } else {
        let mut v = copy_chars(text.as_slice());
        if v.len() > 0 && v[v.len() - 1] != '\n' {
            v.push('\n');
        }
        v.push('\n');
        let v = concat(v.as_slice(), chars_of(MANAGED_START_LINE).as_slice());
        let mut v = concat(v.as_slice(), chars_of("\n").as_slice());
        match &gline {
            Some(gl) => {
                v = concat(v.as_slice(), gl.as_slice());
                v = concat(v.as_slice(), chars_of("\n").as_slice());
            },
            None => {},
        }
        let v = concat(v.as_slice(), line.as_slice());
        let v = concat(v.as_slice(), chars_of("\n").as_slice());
        let v = concat(v.as_slice(), chars_of(MANAGED_END_LINE).as_slice());
        let v = concat(v.as_slice(), chars_of("\n").as_slice());
        proof {
            reveal_strlit("\n");
        }
        string_of(v.as_slice())
    }
}

/// The lines of `lines` once the first line inside the managed block that
/// holds `pattern` is replaced by `replacement`, or dropped when there is
/// none, and whether such a line was met.
pub open spec fn rewrite_scan(
    lines: Seq<Seq<char>>,
    pattern: Seq<char>,
    replacement: Option<Seq<char>>,
) -> (Seq<Seq<char>>, bool)
    decreases lines.len(),
{
    if lines.len() == 0 {
        (seq![], false)
    } else {
        let (out, found) = rewrite_scan(lines.drop_last(), pattern, replacement);
        let line = lines.last();
        if inside_after(lines) && !found && seq_contains(line, pattern) {
            (
                match replacement {
                    Some(r) => out.push(r),
                    None => out,
                },
                true,
            )
        } else {
            (out.push(line), found)
        }
    }
}

/// The text of `content` rewritten as [`rewrite_scan`] says, if it found the
/// line.
pub open spec fn rewritten_text(
    content: Seq<char>,
    pattern: Seq<char>,
    replacement: Option<Seq<char>>,
) -> Option<Seq<char>> {
    let (out, found) = rewrite_scan(lines_of(content), pattern, replacement);
    if found {
        Some(join_lines(out))
    } else {
        None
    }
}

fn rewrite_managed(text: &[char], pattern: &[char], replacement: &Option<Vec<char>>) -> (r: Option<
    Vec<char>,
>)
    ensures
        match r {
            Some(v) => rewritten_text(text@, pattern@, opt_chars(*replacement)) == Some(v@),
            None => rewritten_text(text@, pattern@, opt_chars(*replacement)) is None,
        },
{
    let ls = lines(text);
    let start = chars_of(MANAGED_START);
    let end = chars_of(MANAGED_END);
    let mut out: Vec<Vec<char>> = Vec::new();
    let mut found = false;
    let mut in_managed = false;
    let mut i: usize = 0;
    while i < ls.len()
        invariant
            i <= ls@.len(),
            start@ == MANAGED_START@,
            end@ == MANAGED_END@,
            in_managed == inside_after(seqs_of(ls@.take(i as int))),
            (seqs_of(out@), found) == rewrite_scan(
                seqs_of(ls@.take(i as int)),
                pattern@,
                opt_chars(*replacement),
            ),
        decreases ls.len() - i,
    {
        let ghost prefix = seqs_of(ls@.take(i + 1));
        assert(prefix.drop_last() =~= seqs_of(ls@.take(i as int)));
        assert(prefix.last() == ls@[i as int]@);
        let line = ls[i].as_slice();
        if contains(line, start.as_slice()) {
            in_managed = true;
        }
        if contains(line, end.as_slice()) {
            in_managed = false;
        }
        if in_managed && !found && contains(line, pattern) {
            match replacement {
                Some(r) => push_line(&mut out, copy_chars(r.as_slice())),
                None => {},
            }
            found = true;
        } else {
            push_line(&mut out, copy_chars(line));
        }
        i = i + 1;
    }
    assert(ls@.take(ls@.len() as int) == ls@);
    if found {
        Some(join_with_newlines(out.as_slice()))
    } else {
        None
    }
}

/// The view of an optional character vector.
pub open spec fn opt_chars(o: Option<Vec<char>>) -> Option<Seq<char>> {
    match o {
        Some(v) => Some(v@),
        None => None,
    }
}

/// The first line of `lines`, in order, that holds `pattern` and lies outside
/// the managed block.
pub open spec fn first_unmanaged_line(lines: Seq<Seq<char>>, pattern: Seq<char>) -> Option<
    Seq<char>,
>
    decreases lines.len(),
{
    if lines.len() == 0 {
        None
    } else {
        match first_unmanaged_line(lines.drop_last(), pattern) {
            Some(l) => Some(l),
            None => if seq_contains(lines.last(), pattern) && !inside_after(lines) {
                Some(lines.last())
            } else {
                None
            },
        }
    }
}

/// The first line of `content` outside the managed block that defines alias
/// `name` of `shell`, if any.
pub fn find_unmanaged_alias_line(content: &str, name: &str, shell: &ShellType) -> (r: Option<
    String,
>)
    ensures
        match r {
            Some(l) => first_unmanaged_line(lines_of(content@), name_pattern(*shell, name@))
                == Some(l@),
            None => first_unmanaged_line(lines_of(content@), name_pattern(*shell, name@)) is None,
        },
{
    let n = chars_of(name);
    let pattern = name_pattern_chars(*shell, n.as_slice());
    let text = chars_of(content);
    let ls = lines(text.as_slice());
    let start = chars_of(MANAGED_START);
    let end = chars_of(MANAGED_END);
    let mut in_managed = false;
    let mut i: usize = 0;
    while i < ls.len()
        invariant
            i <= ls@.len(),
            seqs_of(ls@) == lines_of(content@),
            pattern@ == name_pattern(*shell, name@),
            start@ == MANAGED_START@,
            end@ == MANAGED_END@,
            in_managed == inside_after(seqs_of(ls@.take(i as int))),
            first_unmanaged_line(seqs_of(ls@.take(i as int)), pattern@) is None,
        decreases ls.len() - i,
    {
        let ghost prefix = seqs_of(ls@.take(i + 1));
        assert(prefix.drop_last() =~= seqs_of(ls@.take(i as int)));
        assert(prefix.last() == ls@[i as int]@);
        let line = ls[i].as_slice();
        if contains(line, start.as_slice()) {
            in_managed = true;
        }
        if contains(line, end.as_slice()) {
            in_managed = false;
        }
        if contains(line, pattern.as_slice()) && !in_managed {
            proof {
                lemma_first_unmanaged_extend(prefix, seqs_of(ls@.skip(i + 1)), pattern@);
                assert(ls@ == ls@.take(i + 1) + ls@.skip(i + 1));
                assert(seqs_of(ls@) =~= prefix + seqs_of(ls@.skip(i + 1)));
            }
            return Some(string_of(line));
        }
        i = i + 1;
    }
    assert(ls@.take(ls@.len() as int) == ls@);
    None
}

proof fn lemma_first_unmanaged_extend(a: Seq<Seq<char>>, b: Seq<Seq<char>>, pattern: Seq<char>)
    requires
        first_unmanaged_line(a, pattern) is Some,
    ensures
        first_unmanaged_line(a + b, pattern) == first_unmanaged_line(a, pattern),
    decreases b.len(),
{
    if b.len() > 0 {
        lemma_first_unmanaged_extend(a, b.drop_last(), pattern);
        assert((a + b).drop_last() =~= a + b.drop_last());
    } else {
        assert(a + b =~= a);
    }
}

/// The lines of `lines` that are kept when the lines holding `pattern` are
/// removed, comments excepted.
pub open spec fn kept_lines(lines: Seq<Seq<char>>, pattern: Seq<char>) -> Seq<Seq<char>>
    decreases lines.len(),
{
    if lines.len() == 0 {
        seq![]
    } else {
        let kept = kept_lines(lines.drop_last(), pattern);
        if !seq_contains(lines.last(), pattern) || comment_line(lines.last()) {
            kept.push(lines.last())
        } else {
            kept
        }
    }
}

/// `content` without the lines that define alias `name` of `shell`, comments
/// excepted; the remaining lines are joined with `'\n'`.
pub fn remove_alias_lines(content: &str, name: &str, shell: &ShellType) -> (text: String)
    ensures
        text@ == join_lines(kept_lines(lines_of(content@), name_pattern(*shell, name@))),
{
    let n = chars_of(name);
    let pattern = name_pattern_chars(*shell, n.as_slice());
    let text = chars_of(content);
    let ls = lines(text.as_slice());
    let hash = chars_of("#");
    let mut out: Vec<Vec<char>> = Vec::new();
    let mut i: usize = 0;
    while i < ls.len()
        invariant
            i <= ls@.len(),
            hash@ == "#"@,
            seqs_of(out@) == kept_lines(seqs_of(ls@.take(i as int)), pattern@),
        decreases ls.len() - i,
    {
        let ghost prefix = seqs_of(ls@.take(i + 1));
        assert(prefix.drop_last() =~= seqs_of(ls@.take(i as int)));
        assert(prefix.last() == ls@[i as int]@);
        let line = ls[i].as_slice();
        let t = trim_start_chars(line);
        if !contains(line, pattern.as_slice()) || starts_with_chars(t.as_slice(), hash.as_slice()) {
            push_line(&mut out, copy_chars(line));
        }
        i = i + 1;
    }
    assert(ls@.take(ls@.len() as int) == ls@);
    let joined = join_with_newlines(out.as_slice());
    string_of(joined.as_slice())
}

/// The number (from 1) of the first line of `lines` that holds `a` or `b`, or
/// 0 when none does.
pub open spec fn first_line_with(lines: Seq<Seq<char>>, a: Seq<char>, b: Seq<char>) -> int
    decreases lines.len(),
{
    if lines.len() == 0 {
        0
    } else {
        let before = first_line_with(lines.drop_last(), a, b);
        if before != 0 {
            before
        } else if seq_contains(lines.last(), a) || seq_contains(lines.last(), b) {
            lines.len() as int
        } else {
            0
        }
    }
}

proof fn lemma_first_line_with_extend(
    x: Seq<Seq<char>>,
    y: Seq<Seq<char>>,
    a: Seq<char>,
    b: Seq<char>,
)
    requires
        first_line_with(x, a, b) != 0,
    ensures
        first_line_with(x + y, a, b) == first_line_with(x, a, b),
    decreases y.len(),
{
    if y.len() > 0 {
        lemma_first_line_with_extend(x, y.drop_last(), a, b);
        assert((x + y).drop_last() =~= x + y.drop_last());
    } else {
        assert(x + y =~= x);
    }
}

/// The number (from 1) of the first line of `text` that holds `a` or `b`, or
/// 0 when none does.
fn line_number_of(text: &[char], a: &[char], b: &[char]) -> (n: usize)
    ensures
        n as int == first_line_with(lines_of(text@), a@, b@),
{
    let ls = lines(text);
    let mut i: usize = 0;
    while i < ls.len()
        invariant
            i <= ls@.len(),
            seqs_of(ls@) == lines_of(text@),
            first_line_with(seqs_of(ls@.take(i as int)), a@, b@) == 0,
        decreases ls.len() - i,
    {
        let ghost prefix = seqs_of(ls@.take(i + 1));
        assert(prefix.drop_last() =~= seqs_of(ls@.take(i as int)));
        assert(prefix.last() == ls@[i as int]@);
        if contains(ls[i].as_slice(), a) || contains(ls[i].as_slice(), b) {
            proof {
                lemma_first_line_with_extend(prefix, seqs_of(ls@.skip(i + 1)), a@, b@);
                assert(ls@ == ls@.take(i + 1) + ls@.skip(i + 1));
                assert(seqs_of(ls@) =~= prefix + seqs_of(ls@.skip(i + 1)));
            }
            return i + 1;
        }
        i = i + 1;
    }
    assert(ls@.take(ls@.len() as int) == ls@);
    0
}

// ---------------------------------------------------------------------------
// Planning a change
// ---------------------------------------------------------------------------

/// What a request that finds no alias `name` in the managed block reports.
pub open spec fn not_found_message(name: Seq<char>) -> Seq<char> {
    "Alias '"@ + name + "' not found in managed section"@
}

/// The text by which the line that defines alias `name` is found again after
/// adding it: `alias name` (bash, zsh, fish) or `Set-Alias -Name name`
/// (PowerShell).
pub open spec fn added_markers(name: Seq<char>) -> (Seq<char>, Seq<char>) {
    ("alias "@ + name, "Set-Alias -Name "@ + name)
}

fn not_found_error(name: &str) -> (e: AppError)
    ensures
        e matches AppError::ManagedBlockError { detail } && detail@ == not_found_message(name@),
{
    let v = concat(chars_of("Alias '").as_slice(), chars_of(name).as_slice());
    let v = concat(v.as_slice(), chars_of("' not found in managed section").as_slice());
    AppError::ManagedBlockError { detail: string_of(v.as_slice()) }
}

/// The new text of a configuration file whose text is `content` once the
/// alias `input` is added to its managed block, and the number (from 1) of the
/// first line that mentions it; or the error when the managed block already
/// defines an alias of that name.
pub fn plan_add(content: &str, input: &AliasInput) -> (r: Result<(String, usize), AppError>)
    ensures
        match r {
            Ok((text, line)) => {
                &&& !has_managed(content@, input.name@, input.shell)
                &&& text@ == inserted_text(
                    content@,
                    alias_line(input.shell, input.name@, input.command@),
                    opt_view(input.group),
                )
                &&& line as int == first_line_with(
                    lines_of(text@),
                    added_markers(input.name@).0,
                    added_markers(input.name@).1,
                )
            },
            Err(e) => {
                &&& has_managed(content@, input.name@, input.shell)
                &&& e matches AppError::DuplicateAlias { name, shell } && name@ == input.name@
                    && shell@ == shell_name(input.shell)
            },
        },
{
    let alias_line = format_alias_line(&input.shell, input.name.as_str(), input.command.as_str());
    if has_managed_alias(content, input.name.as_str(), &input.shell) {
        return Err(
            AppError::DuplicateAlias { name: input.name.clone(), shell: input.shell.name() },
        );
    }
    let text = insert_into_managed_section(
        content,
        alias_line.as_str(),
        &input.group,
        &input.shell,
    );
    let n = chars_of(input.name.as_str());
    let a = concat(chars_of("alias ").as_slice(), n.as_slice());
    let b = concat(chars_of("Set-Alias -Name ").as_slice(), n.as_slice());
    let line = line_number_of(chars_of(text.as_str()).as_slice(), a.as_slice(), b.as_slice());
    Ok((text, line))
}

/// The new text of a configuration file whose text is `content` once the
/// first line of its managed block that defines alias `old_name` is replaced
/// by the line for `input`, and the number (from 1) of the first line that
/// holds the new line; or the error when the managed block has no such line.
pub fn plan_update(content: &str, old_name: &str, input: &AliasInput) -> (r: Result<
    (String, usize),
    AppError,
>)
    ensures
        ({
            let new_line = alias_line(input.shell, input.name@, input.command@);
            match rewritten_text(content@, name_pattern(input.shell, old_name@), Some(new_line)) {
                Some(t) => r matches Ok((text, line)) && text@ == t && line as int
                    == first_line_with(lines_of(t), new_line, new_line),
                None => r matches Err(AppError::ManagedBlockError { detail }) && detail@
                    == not_found_message(old_name@),
            }
        }),
{
    let new_line = format_alias_line(&input.shell, input.name.as_str(), input.command.as_str());
    let new_chars = chars_of(new_line.as_str());
    let old = chars_of(old_name);
    let pattern = name_pattern_chars(input.shell, old.as_slice());
    let text = chars_of(content);
    let replacement = Some(copy_chars(new_chars.as_slice()));
    match rewrite_managed(text.as_slice(), pattern.as_slice(), &replacement) {
        Some(v) => {
            let line = line_number_of(v.as_slice(), new_chars.as_slice(), new_chars.as_slice());
            Ok((string_of(v.as_slice()), line))
        },
        None => Err(not_found_error(old_name)),
    }
}

/// The new text of a configuration file whose text is `content` once the
/// first line of its managed block that defines alias `name` of `shell` is
/// removed; or the error when the managed block has no such line.
pub fn plan_delete(content: &str, name: &str, shell: &ShellType) -> (r: Result<String, AppError>)
    ensures
        match rewritten_text(content@, name_pattern(*shell, name@), None) {
            Some(t) => r matches Ok(text) && text@ == t,
            None => r matches Err(AppError::ManagedBlockError { detail }) && detail@
                == not_found_message(name@),
        },
{
    let n = chars_of(name);
    let pattern = name_pattern_chars(*shell, n.as_slice());
    let text = chars_of(content);
    match rewrite_managed(text.as_slice(), pattern.as_slice(), &None) {
        Some(v) => Ok(string_of(v.as_slice())),
        None => Err(not_found_error(name)),
    }
}

} // verus!
