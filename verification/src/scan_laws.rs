//! What the line scans of the library find, stated over all inputs: which
//! line a search settles on, which group an alias of the managed block is in,
//! what a shell's own listing reads back as, and where shells are looked for.
use vstd::prelude::*;

use crate::alias_parser::{lemma_parsed_aliases_shape, scan_readings, LineReadingView};
use crate::alias_runtime::runtime_scan;
use crate::alias_writer::{
    added_markers, alias_line, first_line_with, first_unmanaged_line, has_char, inside_after,
};
use crate::round_trip::{lemma_listing_round_trip, listing_line, listing_round_trips};
use crate::shell_detect::candidate_paths;
use crate::text::{
    lemma_line_scan_concat, lemma_line_scan_piece, line_scan, lines_of, seq_contains,
    ends_with, single_line, starts_with, trim,
};
use crate::types::{AliasView, RuntimeAliasView, ShellType};

verus! {

// ---------------------------------------------------------------------------
// Finding the line of an alias outside the managed block
// ---------------------------------------------------------------------------

/// Line `i` of `lines` holds `pattern` and lies outside the managed block.
pub open spec fn unmanaged_hit(lines: Seq<Seq<char>>, pattern: Seq<char>, i: int) -> bool {
    &&& 0 <= i < lines.len()
    &&& seq_contains(lines[i], pattern)
    &&& !inside_after(lines.take(i + 1))
}

/// The search for an alias outside the managed block finds a line exactly
/// when some line outside the block holds the pattern, wherever it stands
/// relative to the block, and then it finds the first such line.
pub proof fn lemma_first_unmanaged_is_first_hit(lines: Seq<Seq<char>>, pattern: Seq<char>)
    ensures
        (first_unmanaged_line(lines, pattern) is Some) == (exists|i: int|
            #[trigger] unmanaged_hit(lines, pattern, i)),
        first_unmanaged_line(lines, pattern) matches Some(l) ==> exists|i: int|
            #[trigger] unmanaged_hit(lines, pattern, i) && lines[i] == l && forall|j: int|
                0 <= j < i ==> !unmanaged_hit(lines, pattern, j),
    decreases lines.len(),
{
    if lines.len() > 0 {
        let init = lines.drop_last();
        let n = lines.len() - 1;
        lemma_first_unmanaged_is_first_hit(init, pattern);
        assert forall|i: int| 0 <= i < n implies unmanaged_hit(init, pattern, i) == unmanaged_hit(
            lines,
            pattern,
            i,
        ) by {
            assert(init.take(i + 1) =~= lines.take(i + 1));
            assert(init[i] == lines[i]);
        }
        assert(lines.take(n + 1) =~= lines);
        match first_unmanaged_line(init, pattern) {
            Some(l) => {
                let i = choose|i: int|
                    #[trigger] unmanaged_hit(init, pattern, i) && init[i] == l && forall|j: int|
                        0 <= j < i ==> !unmanaged_hit(init, pattern, j);
                assert(unmanaged_hit(lines, pattern, i));
                assert forall|j: int| 0 <= j < i implies !unmanaged_hit(lines, pattern, j) by {
                    assert(!unmanaged_hit(init, pattern, j));
                }
            },
            None => {
                assert forall|i: int| 0 <= i < n implies !unmanaged_hit(lines, pattern, i) by {
                    assert(!unmanaged_hit(init, pattern, i));
                }
                if unmanaged_hit(lines, pattern, n) {
                    assert(first_unmanaged_line(lines, pattern) == Some(lines[n]));
                } else {
                    assert forall|i: int| !unmanaged_hit(lines, pattern, i) by {
                        if 0 <= i < n {
                            assert(!unmanaged_hit(init, pattern, i));
                        }
                    }
                }
            },
        }
    }
}

// ---------------------------------------------------------------------------
// The line number reported after an add
// ---------------------------------------------------------------------------

/// The line number a search for `a` or `b` reports is that of the first line
/// that holds either of them, counted from 1, and 0 exactly when no line
/// holds either.
pub proof fn lemma_first_line_with_is_first(lines: Seq<Seq<char>>, a: Seq<char>, b: Seq<char>)
    ensures
        0 <= first_line_with(lines, a, b) <= lines.len(),
        (first_line_with(lines, a, b) == 0) == (forall|i: int|
            0 <= i < lines.len() ==> !seq_contains(#[trigger] lines[i], a) && !seq_contains(
                lines[i],
                b,
            )),
        first_line_with(lines, a, b) > 0 ==> {
            let n = first_line_with(lines, a, b);
            &&& seq_contains(lines[n - 1], a) || seq_contains(lines[n - 1], b)
            &&& forall|i: int|
                0 <= i < n - 1 ==> !seq_contains(#[trigger] lines[i], a) && !seq_contains(
                    lines[i],
                    b,
                )
        },
    decreases lines.len(),
{
    if lines.len() > 0 {
        let init = lines.drop_last();
        lemma_first_line_with_is_first(init, a, b);
        assert forall|i: int| 0 <= i < init.len() implies init[i] == lines[i] by {}
        let n = first_line_with(init, a, b);
        if n == 0 {
            assert forall|i: int| 0 <= i < init.len() implies !seq_contains(
                #[trigger] lines[i],
                a,
            ) && !seq_contains(lines[i], b) by {
                assert(init[i] == lines[i]);
                assert(!seq_contains(init[i], a) && !seq_contains(init[i], b));
            }
        } else {
            assert(init[n - 1] == lines[n - 1]);
            assert forall|i: int| 0 <= i < n - 1 implies !seq_contains(
                #[trigger] lines[i],
                a,
            ) && !seq_contains(lines[i], b) by {
                assert(init[i] == lines[i]);
                assert(!seq_contains(init[i], a) && !seq_contains(init[i], b));
            }
        }
    }
}

proof fn lemma_starts_contained(s: Seq<char>, p: Seq<char>)
    requires
        starts_with(s, p),
    ensures
        seq_contains(s, p),
{
    assert(s.subrange(0, 0 + p.len() as int) == p);
}

/// After an add, the reported line number is not 0 whenever the line the
/// writer wrote is among the lines: bash, zsh and fish lines hold
/// `alias name`, and PowerShell's `Set-Alias` line (a command without a
/// space) holds `Set-Alias -Name name`. The number is then that of a line at
/// or before the written one.
pub proof fn lemma_written_line_is_found(
    lines: Seq<Seq<char>>,
    shell: ShellType,
    name: Seq<char>,
    command: Seq<char>,
    k: int,
)
    requires
        0 <= k < lines.len(),
        lines[k] == alias_line(shell, name, command),
        shell != ShellType::PowerShell || !has_char(command, ' '),
    ensures
        0 < first_line_with(lines, added_markers(name).0, added_markers(name).1) <= k + 1,
{
    let (a, b) = added_markers(name);
    let line = alias_line(shell, name, command);
    match shell {
        ShellType::PowerShell => {
            assert(line.subrange(0, b.len() as int) =~= b);
            lemma_starts_contained(line, b);
        },
        _ => {
            assert(line.subrange(0, a.len() as int) =~= a);
            lemma_starts_contained(line, a);
        },
    }
    lemma_first_line_with_is_first(lines, a, b);
    let n = first_line_with(lines, a, b);
    assert(seq_contains(lines[k], a) || seq_contains(lines[k], b));
    if n > k + 1 {
        assert(!seq_contains(lines[k], a) && !seq_contains(lines[k], b));
    }
}

// ---------------------------------------------------------------------------
// Where shells are looked for
// ---------------------------------------------------------------------------

/// The name of `shell`'s binary outside Windows.
pub open spec fn unix_binary(shell: ShellType) -> Seq<char> {
    match shell {
        ShellType::Bash => "bash"@,
        ShellType::Zsh => "zsh"@,
        ShellType::Fish => "fish"@,
        ShellType::PowerShell => "pwsh"@,
    }
}

/// `path` is the binary `bin` in one of the directories where package
/// managers put binaries: `/bin`, `/usr/bin`, `/usr/local/bin` or
/// `/opt/homebrew/bin`.
pub open spec fn in_binary_dir(path: Seq<char>, bin: Seq<char>) -> bool {
    ||| path == "/bin/"@ + bin
    ||| path == "/usr/bin/"@ + bin
    ||| path == "/usr/local/bin/"@ + bin
    ||| path == "/opt/homebrew/bin/"@ + bin
}

/// `path` ends with a backslash and the Windows binary of `shell`: its own binary
/// name with `.exe`, or for PowerShell also the older `powershell.exe`.
pub open spec fn windows_binary(path: Seq<char>, shell: ShellType) -> bool {
    ||| ends_with(path, "\\"@ + unix_binary(shell) + ".exe"@)
    ||| shell == ShellType::PowerShell && ends_with(path, "\\"@ + "powershell"@ + ".exe"@)
}

/// Outside Windows, each shell is looked for in three different binary
/// directories, always under the name of its own binary (`pwsh` for
/// PowerShell); on Windows every candidate is that binary's `.exe` (or
/// PowerShell's older `powershell.exe`).
pub proof fn lemma_candidates_name_the_binary(shell: ShellType)
    ensures
        candidate_paths(shell, false).len() == 3,
        forall|i: int|
            0 <= i < 3 ==> in_binary_dir(
                #[trigger] candidate_paths(shell, false)[i],
                unix_binary(shell),
            ),
        forall|i: int, j: int|
            0 <= i < j < 3 ==> #[trigger] candidate_paths(shell, false)[i] != #[trigger] candidate_paths(
                shell,
                false,
            )[j],
        forall|i: int|
            0 <= i < candidate_paths(shell, true).len() ==> windows_binary(
                #[trigger] candidate_paths(shell, true)[i],
                shell,
            ),
{
    reveal_strlit("/bin/");
    reveal_strlit("/usr/bin/");
    reveal_strlit("/usr/local/bin/");
    reveal_strlit("/opt/homebrew/bin/");
    reveal_strlit("bash");
    reveal_strlit("zsh");
    reveal_strlit("fish");
    reveal_strlit("pwsh");
    reveal_strlit(".exe");
    reveal_strlit("/bin/bash");
    reveal_strlit("/usr/local/bin/bash");
    reveal_strlit("/opt/homebrew/bin/bash");
    reveal_strlit("/bin/zsh");
    reveal_strlit("/usr/local/bin/zsh");
    reveal_strlit("/opt/homebrew/bin/zsh");
    reveal_strlit("/usr/local/bin/fish");
    reveal_strlit("/usr/bin/fish");
    reveal_strlit("/opt/homebrew/bin/fish");
    reveal_strlit("/usr/local/bin/pwsh");
    reveal_strlit("/opt/homebrew/bin/pwsh");
    reveal_strlit("/usr/bin/pwsh");
    reveal_strlit("C:\\Program Files\\Git\\bin\\bash.exe");
    reveal_strlit("C:\\Program Files (x86)\\Git\\bin\\bash.exe");
    reveal_strlit("C:\\Program Files\\fish\\bin\\fish.exe");
    reveal_strlit("C:\\Program Files\\PowerShell\\7\\pwsh.exe");
    reveal_strlit("C:\\Windows\\System32\\WindowsPowerShell\\v1.0\\powershell.exe");
    let u = candidate_paths(shell, false);
    let b = unix_binary(shell);
    match shell {
        ShellType::Bash => {
            assert(u[0] =~= "/bin/"@ + b);
            assert(u[1] =~= "/usr/local/bin/"@ + b);
            assert(u[2] =~= "/opt/homebrew/bin/"@ + b);
        },
        ShellType::Zsh => {
            assert(u[0] =~= "/bin/"@ + b);
            assert(u[1] =~= "/usr/local/bin/"@ + b);
            assert(u[2] =~= "/opt/homebrew/bin/"@ + b);
        },
        ShellType::Fish => {
            assert(u[0] =~= "/usr/local/bin/"@ + b);
            assert(u[1] =~= "/usr/bin/"@ + b);
            assert(u[2] =~= "/opt/homebrew/bin/"@ + b);
        },
        ShellType::PowerShell => {
            assert(u[0] =~= "/usr/local/bin/"@ + b);
            assert(u[1] =~= "/opt/homebrew/bin/"@ + b);
            assert(u[2] =~= "/usr/bin/"@ + b);
        },
    }
    assert forall|i: int, j: int| 0 <= i < j < 3 implies #[trigger] u[i] != #[trigger] u[j] by {
        assert(u[i].len() != u[j].len());
    }
    reveal_strlit("\\");
    reveal_strlit("powershell");
    let w = candidate_paths(shell, true);
    assert forall|i: int| 0 <= i < w.len() implies windows_binary(#[trigger] w[i], shell) by {
        let c = w[i];
        let pwsh5 = "\\"@ + "powershell"@ + ".exe"@;
        let own = "\\"@ + unix_binary(shell) + ".exe"@;
        if shell == ShellType::PowerShell && i == 1 {
            assert(c.subrange(c.len() - pwsh5.len(), c.len() as int) =~= pwsh5);
        } else {
            assert(c.subrange(c.len() - own.len(), c.len() as int) =~= own);
        }
    }
}

// ---------------------------------------------------------------------------
// Groups in the managed block
// ---------------------------------------------------------------------------

/// A line that neither marks the block nor names a group.
pub open spec fn neutral(r: LineReadingView) -> bool {
    !r.opens_block && !r.closes_block && r.group is None
}

/// Alias `a` was read from line `j` (counted from 0) of `readings`: the line
/// defines it, and it is managed and grouped as the block stood before that
/// line.
pub open spec fn read_at(
    shell: ShellType,
    readings: Seq<LineReadingView>,
    source: Seq<char>,
    j: int,
    a: AliasView,
) -> bool {
    let (_, managed, grp) = scan_readings(shell, readings.take(j), source);
    let r = readings[j];
    &&& 0 <= j < readings.len()
    &&& a.line_number == j + 1
    &&& !r.opens_block
    &&& !r.closes_block
    &&& !(managed && r.group is Some)
    &&& r.alias == Some((a.name, a.command))
    &&& a.is_managed == managed
    &&& a.group == if managed {
        grp
    } else {
        None
    }
}

/// Every alias read is read from the line its number names: that line
/// defines the alias's name and command, marks neither end of the block, and
/// the alias is managed and grouped as the block stood just before it.
pub proof fn lemma_alias_origin(shell: ShellType, readings: Seq<LineReadingView>, source: Seq<char>)
    requires
        readings.len() <= usize::MAX,
    ensures
        forall|k: int|
            0 <= k < scan_readings(shell, readings, source).0.len() ==> read_at(
                shell,
                readings,
                source,
                scan_readings(shell, readings, source).0[k].line_number - 1,
                #[trigger] scan_readings(shell, readings, source).0[k],
            ),
    decreases readings.len(),
{
    if readings.len() > 0 {
        let init = readings.drop_last();
        let n = readings.len() - 1;
        lemma_alias_origin(shell, init, source);
        let prev = scan_readings(shell, init, source).0;
        let out = scan_readings(shell, readings, source).0;
        assert(readings.take(n) =~= init);
        assert forall|k: int| 0 <= k < out.len() implies read_at(
            shell,
            readings,
            source,
            out[k].line_number - 1,
            #[trigger] out[k],
        ) by {
            if k < prev.len() {
                assert(out[k] == prev[k]);
                let j = prev[k].line_number - 1;
                assert(read_at(shell, init, source, j, prev[k]));
                assert(init.take(j) =~= readings.take(j));
                assert(init[j] == readings[j]);
            } else {
                assert((readings.len() as usize) as int == readings.len());
            }
        }
    }
}

/// Lines that neither mark the block nor name a group leave the block and
/// the group in force as they were.
proof fn lemma_state_kept(
    shell: ShellType,
    readings: Seq<LineReadingView>,
    source: Seq<char>,
    m: int,
    n: int,
)
    requires
        0 <= m <= n <= readings.len(),
        forall|i: int| m <= i < n ==> neutral(#[trigger] readings[i]),
    ensures
        scan_readings(shell, readings.take(n), source).1 == scan_readings(
            shell,
            readings.take(m),
            source,
        ).1,
        scan_readings(shell, readings.take(n), source).2 == scan_readings(
            shell,
            readings.take(m),
            source,
        ).2,
    decreases n - m,
{
    if n > m {
        lemma_state_kept(shell, readings, source, m, n - 1);
        assert(readings.take(n).drop_last() =~= readings.take(n - 1));
        assert(readings.take(n).last() == readings[n - 1]);
        assert(neutral(readings[n - 1]));
    }
}

/// Within the managed block a group holds from one alias to the next: two
/// aliases with no marker and no group comment between their lines, the
/// first managed, are both managed and carry the same group.
pub proof fn lemma_group_holds_between_aliases(
    shell: ShellType,
    readings: Seq<LineReadingView>,
    source: Seq<char>,
    k1: int,
    k2: int,
)
    requires
        readings.len() <= usize::MAX,
        0 <= k1 < k2 < scan_readings(shell, readings, source).0.len(),
        scan_readings(shell, readings, source).0[k1].is_managed,
        forall|i: int|
            scan_readings(shell, readings, source).0[k1].line_number <= i
                < scan_readings(shell, readings, source).0[k2].line_number - 1 ==> neutral(
                #[trigger] readings[i],
            ),
    ensures
        scan_readings(shell, readings, source).0[k2].is_managed,
        scan_readings(shell, readings, source).0[k2].group == scan_readings(
            shell,
            readings,
            source,
        ).0[k1].group,
{
    let out = scan_readings(shell, readings, source).0;
    lemma_alias_origin(shell, readings, source);
    lemma_parsed_aliases_shape(shell, readings, source);
    let a1 = out[k1];
    let a2 = out[k2];
    let j1 = a1.line_number - 1;
    let j2 = a2.line_number - 1;
    assert(read_at(shell, readings, source, j1, a1));
    assert(read_at(shell, readings, source, j2, a2));
    assert(a1.line_number < a2.line_number);
    let t = readings.take(j1 + 1);
    assert(t.drop_last() =~= readings.take(j1));
    assert(t.last() == readings[j1]);
    lemma_state_kept(shell, readings, source, j1 + 1, j2);
}

/// An alias of the managed block that follows a `# group:` comment, with no
/// marker and no other group comment between them, is in that group.
pub proof fn lemma_alias_in_named_group(
    shell: ShellType,
    readings: Seq<LineReadingView>,
    source: Seq<char>,
    i: int,
    k: int,
)
    requires
        readings.len() <= usize::MAX,
        0 <= k < scan_readings(shell, readings, source).0.len(),
        scan_readings(shell, readings, source).0[k].is_managed,
        0 <= i < scan_readings(shell, readings, source).0[k].line_number - 1,
        readings[i].group is Some,
        !readings[i].opens_block,
        !readings[i].closes_block,
        forall|x: int|
            i < x < scan_readings(shell, readings, source).0[k].line_number - 1 ==> neutral(
                #[trigger] readings[x],
            ),
    ensures
        scan_readings(shell, readings, source).0[k].group == readings[i].group,
{
    let out = scan_readings(shell, readings, source).0;
    lemma_alias_origin(shell, readings, source);
    let a = out[k];
    let j = a.line_number - 1;
    assert(read_at(shell, readings, source, j, a));
    let t = readings.take(i + 1);
    assert(t.drop_last() =~= readings.take(i));
    assert(t.last() == readings[i]);
    lemma_state_kept(shell, readings, source, i + 1, j);
}

/// What is read from the first lines is read first from all of them.
proof fn lemma_scan_prefix(
    shell: ShellType,
    readings: Seq<LineReadingView>,
    source: Seq<char>,
    m: int,
)
    requires
        0 <= m <= readings.len(),
    ensures
        scan_readings(shell, readings.take(m), source).0.len() <= scan_readings(
            shell,
            readings,
            source,
        ).0.len(),
        forall|k: int|
            0 <= k < scan_readings(shell, readings.take(m), source).0.len() ==> #[trigger] scan_readings(
                shell,
                readings,
                source,
            ).0[k] == scan_readings(shell, readings.take(m), source).0[k],
    decreases readings.len() - m,
{
    if m == readings.len() {
        assert(readings.take(m) =~= readings);
    } else {
        let init = readings.drop_last();
        lemma_scan_prefix(shell, init, source, m);
        assert(init.take(m) =~= readings.take(m));
        let prev = scan_readings(shell, init, source).0;
        let out = scan_readings(shell, readings, source).0;
        assert(out.len() >= prev.len());
        assert forall|k: int| 0 <= k < prev.len() implies out[k] == prev[k] by {}
    }
}

/// No alias line is lost: every line that defines an alias, marks neither
/// end of the block and is no group comment gives an alias numbered by that
/// line, with that line's name and command.
pub proof fn lemma_alias_lines_are_read(
    shell: ShellType,
    readings: Seq<LineReadingView>,
    source: Seq<char>,
    j: int,
)
    requires
        readings.len() <= usize::MAX,
        0 <= j < readings.len(),
        readings[j].alias is Some,
        !readings[j].opens_block,
        !readings[j].closes_block,
        readings[j].group is None,
    ensures
        exists|k: int|
            0 <= k < scan_readings(shell, readings, source).0.len() && #[trigger] scan_readings(
                shell,
                readings,
                source,
            ).0[k].line_number == j + 1 && Some(
                (
                    scan_readings(shell, readings, source).0[k].name,
                    scan_readings(shell, readings, source).0[k].command,
                ),
            ) == readings[j].alias,
{
    let t = readings.take(j + 1);
    assert(t.drop_last() =~= readings.take(j));
    assert(t.last() == readings[j]);
    assert(((j + 1) as usize) as int == j + 1);
    lemma_scan_prefix(shell, readings, source, j + 1);
    let (acc, managed, grp) = scan_readings(shell, readings.take(j), source);
    let (name, command) = readings[j].alias.unwrap();
    let added = AliasView {
        name,
        command,
        shell,
        source_file: source,
        line_number: t.len() as usize,
        group: if managed {
            grp
        } else {
            None
        },
        is_managed: managed,
    };
    assert(scan_readings(shell, t, source).0 == acc.push(added));
    let k = acc.len() as int;
    let out = scan_readings(shell, readings, source).0;
    assert(out[k] == added);
    assert(added.line_number == j + 1);
}

/// An alias that follows the line opening the managed block, with no marker
/// and no group comment between them, is managed and in no group.
pub proof fn lemma_alias_after_opening(
    shell: ShellType,
    readings: Seq<LineReadingView>,
    source: Seq<char>,
    i: int,
    k: int,
)
    requires
        readings.len() <= usize::MAX,
        0 <= k < scan_readings(shell, readings, source).0.len(),
        0 <= i < scan_readings(shell, readings, source).0[k].line_number - 1,
        readings[i].opens_block,
        forall|x: int|
            i < x < scan_readings(shell, readings, source).0[k].line_number - 1 ==> neutral(
                #[trigger] readings[x],
            ),
    ensures
        scan_readings(shell, readings, source).0[k].is_managed,
        scan_readings(shell, readings, source).0[k].group is None,
{
    let out = scan_readings(shell, readings, source).0;
    lemma_alias_origin(shell, readings, source);
    let a = out[k];
    let j = a.line_number - 1;
    assert(read_at(shell, readings, source, j, a));
    let t = readings.take(i + 1);
    assert(t.drop_last() =~= readings.take(i));
    assert(t.last() == readings[i]);
    lemma_state_kept(shell, readings, source, i + 1, j);
}

/// Outside the block nothing is managed and no group is in force, until a
/// line opens the block again.
proof fn lemma_stays_closed(
    shell: ShellType,
    readings: Seq<LineReadingView>,
    source: Seq<char>,
    m: int,
    n: int,
)
    requires
        0 <= m <= n <= readings.len(),
        !scan_readings(shell, readings.take(m), source).1,
        scan_readings(shell, readings.take(m), source).2 is None,
        forall|x: int| m <= x < n ==> !(#[trigger] readings[x]).opens_block,
    ensures
        !scan_readings(shell, readings.take(n), source).1,
        scan_readings(shell, readings.take(n), source).2 is None,
    decreases n - m,
{
    if n > m {
        lemma_stays_closed(shell, readings, source, m, n - 1);
        assert(readings.take(n).drop_last() =~= readings.take(n - 1));
        assert(readings.take(n).last() == readings[n - 1]);
        assert(!readings[n - 1].opens_block);
    }
}

/// An alias that follows a line closing the managed block (and not opening
/// it), with no line opening the block between them, is unmanaged and in no
/// group, whatever group comments stand between.
pub proof fn lemma_alias_after_closing(
    shell: ShellType,
    readings: Seq<LineReadingView>,
    source: Seq<char>,
    i: int,
    k: int,
)
    requires
        readings.len() <= usize::MAX,
        0 <= k < scan_readings(shell, readings, source).0.len(),
        0 <= i < scan_readings(shell, readings, source).0[k].line_number - 1,
        readings[i].closes_block,
        !readings[i].opens_block,
        forall|x: int|
            i < x < scan_readings(shell, readings, source).0[k].line_number - 1 ==> !(
            #[trigger] readings[x]).opens_block,
    ensures
        !scan_readings(shell, readings, source).0[k].is_managed,
        scan_readings(shell, readings, source).0[k].group is None,
{
    let out = scan_readings(shell, readings, source).0;
    lemma_alias_origin(shell, readings, source);
    let a = out[k];
    let j = a.line_number - 1;
    assert(read_at(shell, readings, source, j, a));
    let t = readings.take(i + 1);
    assert(t.drop_last() =~= readings.take(i));
    assert(t.last() == readings[i]);
    lemma_stays_closed(shell, readings, source, i + 1, j);
}

// ---------------------------------------------------------------------------
// Reading a shell's own listing back

// ---------------------------------------------------------------------------

/// A listing line that the reader takes whole: it reads back, is a single
/// line and has no surrounding whitespace.
pub open spec fn listed_cleanly(shell: ShellType, e: (Seq<char>, Seq<char>)) -> bool {
    &&& listing_round_trips(shell, e.0, e.1)
    &&& single_line(listing_line(shell, e.0, e.1))
    &&& trim(listing_line(shell, e.0, e.1)) == listing_line(shell, e.0, e.1)
}

/// The lines `shell` prints to list `entries` (name, command), in order.
pub open spec fn listing_lines(shell: ShellType, entries: Seq<(Seq<char>, Seq<char>)>) -> Seq<
    Seq<char>,
> {
    entries.map_values(|e: (Seq<char>, Seq<char>)| listing_line(shell, e.0, e.1))
}

/// The listing `shell` prints for `entries`, each line ended by `'\n'`.
pub open spec fn listing_text(shell: ShellType, entries: Seq<(Seq<char>, Seq<char>)>) -> Seq<char>
    decreases entries.len(),
{
    if entries.len() == 0 {
        seq![]
    } else {
        listing_text(shell, entries.drop_last()) + listing_line(
            shell,
            entries.last().0,
            entries.last().1,
        ) + seq!['\n']
    }
}

/// The runtime aliases of `shell` that `entries` name.
pub open spec fn listed_aliases(shell: ShellType, entries: Seq<(Seq<char>, Seq<char>)>) -> Seq<
    RuntimeAliasView,
> {
    entries.map_values(
        |e: (Seq<char>, Seq<char>)| RuntimeAliasView { name: e.0, command: e.1, shell },
    )
}

/// The lines of a listing whose lines are single lines.
proof fn lemma_listing_lines(shell: ShellType, entries: Seq<(Seq<char>, Seq<char>)>)
    requires
        forall|k: int| 0 <= k < entries.len() ==> listed_cleanly(shell, #[trigger] entries[k]),
    ensures
        line_scan(listing_text(shell, entries)) == (
            listing_lines(shell, entries),
            Seq::<char>::empty(),
        ),
    decreases entries.len(),
{
    if entries.len() == 0 {
        assert(listing_lines(shell, entries) =~= Seq::<Seq<char>>::empty());
    } else {
        let init = entries.drop_last();
        let e = entries.last();
        assert forall|k: int| 0 <= k < init.len() implies listed_cleanly(
            shell,
            #[trigger] init[k],
        ) by {
            assert(init[k] == entries[k]);
        }
        assert(listed_cleanly(shell, entries[entries.len() - 1]));
        lemma_listing_lines(shell, init);
        let prev = listing_text(shell, init);
        let l = listing_line(shell, e.0, e.1);
        lemma_line_scan_piece(l);
        lemma_line_scan_concat(prev, l + seq!['\n']);
        assert(listing_text(shell, entries) =~= prev + (l + seq!['\n']));
        assert(listing_lines(shell, init) + seq![l] =~= listing_lines(shell, entries));
    }
}

/// Reading the lines of a listing, one alias per line.
proof fn lemma_listing_scan(shell: ShellType, entries: Seq<(Seq<char>, Seq<char>)>)
    requires
        forall|k: int| 0 <= k < entries.len() ==> listed_cleanly(shell, #[trigger] entries[k]),
    ensures
        runtime_scan(shell, listing_lines(shell, entries)) == listed_aliases(shell, entries),
    decreases entries.len(),
{
    if entries.len() == 0 {
        assert(listing_lines(shell, entries) =~= Seq::<Seq<char>>::empty());
        assert(listed_aliases(shell, entries) =~= Seq::<RuntimeAliasView>::empty());
    } else {
        let init = entries.drop_last();
        let e = entries.last();
        assert forall|k: int| 0 <= k < init.len() implies listed_cleanly(
            shell,
            #[trigger] init[k],
        ) by {
            assert(init[k] == entries[k]);
        }
        assert(listed_cleanly(shell, entries[entries.len() - 1]));
        lemma_listing_scan(shell, init);
        let l = listing_line(shell, e.0, e.1);
        let ls = listing_lines(shell, entries);
        assert(ls.drop_last() =~= listing_lines(shell, init));
        assert(ls.last() == l);
        lemma_listing_round_trip(shell, e.0, e.1);
        assert(l.len() > 0);
        assert(listed_aliases(shell, init).push(
            RuntimeAliasView { name: e.0, command: e.1, shell },
        ) =~= listed_aliases(shell, entries));
    }
}

/// Every alias read from a listing is reported for that shell, and comes
/// from a line of the listing that the shell's own line format, applied to
/// the trimmed line, reads as that name and command.
pub proof fn lemma_runtime_aliases_come_from_lines(shell: ShellType, ls: Seq<Seq<char>>)
    ensures
        forall|k: int|
            0 <= k < runtime_scan(shell, ls).len() ==> {
                let a = #[trigger] runtime_scan(shell, ls)[k];
                &&& a.shell == shell
                &&& exists|i: int|
                    0 <= i < ls.len() && crate::alias_runtime::runtime_line(
                        shell,
                        trim(#[trigger] ls[i]),
                    ) == Some((a.name, a.command))
            },
    decreases ls.len(),
{
    if ls.len() > 0 {
        let init = ls.drop_last();
        let n = ls.len() - 1;
        lemma_runtime_aliases_come_from_lines(shell, init);
        let prev = runtime_scan(shell, init);
        let out = runtime_scan(shell, ls);
        assert forall|k: int| 0 <= k < out.len() implies {
            let a = #[trigger] out[k];
            &&& a.shell == shell
            &&& exists|i: int|
                0 <= i < ls.len() && crate::alias_runtime::runtime_line(
                    shell,
                    trim(#[trigger] ls[i]),
                ) == Some((a.name, a.command))
        } by {
            if k < prev.len() {
                assert(out[k] == prev[k]);
                let i = choose|i: int|
                    0 <= i < init.len() && crate::alias_runtime::runtime_line(
                        shell,
                        trim(#[trigger] init[i]),
                    ) == Some((prev[k].name, prev[k].command));
                assert(ls[i] == init[i]);
            } else {
                assert(ls[n] == ls.last());
            }
        }
    }
}

/// Reading two listings one after the other reads the aliases of the first,
/// then those of the second: each line is read on its own.
pub proof fn lemma_runtime_scan_concat(shell: ShellType, a: Seq<Seq<char>>, b: Seq<Seq<char>>)
    ensures
        runtime_scan(shell, a + b) == runtime_scan(shell, a) + runtime_scan(shell, b),
    decreases b.len(),
{
    if b.len() == 0 {
        assert(a + b =~= a);
        assert(runtime_scan(shell, a) + runtime_scan(shell, b) =~= runtime_scan(shell, a));
    } else {
        lemma_runtime_scan_concat(shell, a, b.drop_last());
        assert((a + b).drop_last() =~= a + b.drop_last());
        assert((a + b).last() == b.last());
        let x = runtime_scan(shell, a);
        let y = runtime_scan(shell, b.drop_last());
        let line = trim(b.last());
        if line.len() > 0 {
            match crate::alias_runtime::runtime_line(shell, line) {
                Some((name, command)) => {
                    assert((x + y).push(RuntimeAliasView { name, command, shell }) =~= x + y.push(
                        RuntimeAliasView { name, command, shell },
                    ));
                },
                None => {},
            }
        }
    }
}

/// A listing in `shell`'s own format is read back as exactly the aliases it
/// lists, in order, each with its name, its command and that shell; each
/// shell's listing is read by that shell's line format.
pub proof fn lemma_listing_read_back(shell: ShellType, entries: Seq<(Seq<char>, Seq<char>)>)
    requires
        forall|k: int| 0 <= k < entries.len() ==> listed_cleanly(shell, #[trigger] entries[k]),
    ensures
        lines_of(listing_text(shell, entries)) == listing_lines(shell, entries),
        runtime_scan(shell, lines_of(listing_text(shell, entries))) == listed_aliases(
            shell,
            entries,
        ),
{
    lemma_listing_lines(shell, entries);
    lemma_listing_scan(shell, entries);
}

} // verus!
