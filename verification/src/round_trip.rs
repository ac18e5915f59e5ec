//! Reading back what the writer writes.
use vstd::prelude::*;

use crate::alias_writer::{alias_line, command_of_line, has_char};
use crate::text::{
    index_of, is_ws, last_word, trim, lemma_index_of, lemma_index_of_concat, lemma_replace_char_absent,
    lemma_trailing_word, lemma_trim_unchanged, seq_contains, strip_prefix, strip_quotes,
    trim_end, unquote,
};
use crate::alias_runtime::runtime_line;
use crate::types::ShellType;

verus! {

/// What the writer can read back from the line it writes for an alias.
pub open spec fn round_trips(shell: ShellType, name: Seq<char>, command: Seq<char>) -> bool {
    match shell {
        ShellType::Bash | ShellType::Zsh => !has_char(name, '=') && !has_char(command, '\''),
        ShellType::Fish => !has_char(name, ' ') && !has_char(command, '\''),
        ShellType::PowerShell => command.len() > 0 && forall|i: int|
            0 <= i < command.len() ==> !is_ws(#[trigger] command[i]),
    }
}

/// Reading the command back from the line the writer writes for an alias
/// gives the command written, as an import of that line expects, when the
/// name holds no separator of the line's syntax and the command no quote the
/// writer escapes (for PowerShell: a non-empty command without whitespace).
pub proof fn lemma_command_round_trip(shell: ShellType, name: Seq<char>, command: Seq<char>)
    requires
        round_trips(shell, name, command),
    ensures
        command_of_line(alias_line(shell, name, command), shell) == Some(command),
{
    match shell {
        ShellType::Bash | ShellType::Zsh => lemma_round_trip_bash(shell, name, command),
        ShellType::Fish => lemma_round_trip_fish(name, command),
        ShellType::PowerShell => lemma_round_trip_powershell(name, command),
    }
}

#[verifier::rlimit(50)]
proof fn lemma_round_trip_bash(shell: ShellType, name: Seq<char>, command: Seq<char>)
    requires
        shell == ShellType::Bash || shell == ShellType::Zsh,
        round_trips(shell, name, command),
    ensures
        command_of_line(alias_line(shell, name, command), shell) == Some(command),
{
    let line = alias_line(shell, name, command);
    reveal_strlit("alias ");
    reveal_strlit("'");
    reveal_strlit("='");
    lemma_index_of(name, '=');
    lemma_index_of(command, '\'');
    lemma_replace_char_absent(command, '\'', "'\\''"@);
    let head = "alias "@ + name;
    let tail = "='"@ + command + "'"@;
    assert(line =~= head + tail);
    assert forall|i: int| 0 <= i < head.len() implies head[i] != '=' by {
        if i >= 6 {
            assert(head[i] == name[i - 6]);
        }
    }
    lemma_index_of_concat(head, tail, '=');
    lemma_index_of(tail, '=');
    assert(tail[0] == '=');
    assert(index_of(tail, '=') == Some(0int));
    let after = line.subrange(head.len() + 1int, line.len() as int);
    assert(after =~= "'"@ + command + "'"@);
    lemma_trim_unchanged(after);
    assert(unquote(after) =~= command);
}

proof fn lemma_fish_line_shape(name: Seq<char>, command: Seq<char>)
    requires
        round_trips(ShellType::Fish, name, command),
    ensures
        alias_line(ShellType::Fish, name, command) == "alias "@ + (name + (" '"@ + command
            + "'"@)),
{
    lemma_index_of(command, '\'');
    lemma_replace_char_absent(command, '\'', "\\'"@);
    assert(alias_line(ShellType::Fish, name, command) =~= "alias "@ + (name + (" '"@ + command
        + "'"@)));
}

proof fn lemma_fish_rest(name: Seq<char>, command: Seq<char>)
    requires
        round_trips(ShellType::Fish, name, command),
    ensures
        ({
            let rest = name + (" '"@ + command + "'"@);
            &&& index_of(rest, ' ') == Some(name.len() as int)
            &&& rest.subrange(name.len() + 1int, rest.len() as int) == "'"@ + command + "'"@
        }),
{
    reveal_strlit(" '");
    reveal_strlit("'");
    lemma_index_of(name, ' ');
    let tail = " '"@ + command + "'"@;
    let rest = name + tail;
    lemma_index_of_concat(name, tail, ' ');
    lemma_index_of(tail, ' ');
    assert(tail[0] == ' ');
    assert(rest.subrange(name.len() + 1int, rest.len() as int) =~= "'"@ + command + "'"@);
}

proof fn lemma_quoted_command(command: Seq<char>)
    ensures
        ({
            let cmd = "'"@ + command + "'"@;
            &&& trim(cmd) == cmd
            &&& strip_quotes(cmd, '\'') == Some(command)
            &&& unquote(cmd) == command
        }),
{
    reveal_strlit("'");
    let cmd = "'"@ + command + "'"@;
    lemma_trim_unchanged(cmd);
    assert(cmd.subrange(1, cmd.len() - 1) =~= command);
}

proof fn lemma_round_trip_fish(name: Seq<char>, command: Seq<char>)
    requires
        round_trips(ShellType::Fish, name, command),
    ensures
        command_of_line(alias_line(ShellType::Fish, name, command), ShellType::Fish) == Some(
            command,
        ),
{
    let rest = name + (" '"@ + command + "'"@);
    let line = "alias "@ + rest;
    lemma_fish_line_shape(name, command);
    lemma_fish_rest(name, command);
    lemma_quoted_command(command);
    assert(trim(line) == line) by {
        reveal_strlit("alias ");
        reveal_strlit("'");
        lemma_trim_unchanged(line);
    }
    assert(strip_prefix(line, "alias "@) == Some(rest)) by {
        assert(line.subrange(0, "alias "@.len() as int) =~= "alias "@);
        assert(line.subrange("alias "@.len() as int, line.len() as int) =~= rest);
    }
}

#[verifier::rlimit(50)]
proof fn lemma_round_trip_powershell(name: Seq<char>, command: Seq<char>)
    requires
        round_trips(ShellType::PowerShell, name, command),
    ensures
        command_of_line(alias_line(ShellType::PowerShell, name, command), ShellType::PowerShell)
            == Some(command),
{
    let line = alias_line(ShellType::PowerShell, name, command);
    reveal_strlit("Set-Alias -Name ");
    reveal_strlit(" -Value ");
    reveal_strlit("Set-Alias");
    lemma_index_of(command, ' ');
    assert(!has_char(command, ' ')) by {
        if has_char(command, ' ') {
            let i = index_of(command, ' ').unwrap();
            assert(is_ws(command[i]));
        }
    }
    assert(line == "Set-Alias -Name "@ + name + " -Value "@ + command);
    assert(seq_contains(line, "Set-Alias"@)) by {
        assert(line.subrange(0, 0 + "Set-Alias"@.len() as int) =~= "Set-Alias"@);
    }
    assert(trim_end(line) == line) by {
        assert(line.last() == command.last());
        assert(!is_ws(command[command.len() - 1]));
    }
    let k = line.len() - command.len();
    assert forall|j: int| k <= j < line.len() implies !is_ws(#[trigger] line[j]) by {
        assert(line[j] == command[j - k]);
    }
    assert(line[k - 1] == ' ');
    lemma_trailing_word(line, k);
    assert(line.subrange(k, line.len() as int) =~= command);
    assert(last_word(line) == Some(command));
}

/// The line by which `shell` lists alias `name` for `command` when asked for
/// its aliases.
pub open spec fn listing_line(shell: ShellType, name: Seq<char>, command: Seq<char>) -> Seq<char> {
    match shell {
        ShellType::Bash => "alias "@ + (name + ("='"@ + command + "'"@)),
        ShellType::Zsh => name + ("='"@ + command + "'"@),
        ShellType::Fish => "alias "@ + (name + (" '"@ + command + "'"@)),
        ShellType::PowerShell => name + ("="@ + command),
    }
}

/// What a listing line must avoid to be read back: the name may not hold the
/// separator that ends it, and PowerShell's name and definition must be
/// non-empty and free of surrounding whitespace.
pub open spec fn listing_round_trips(shell: ShellType, name: Seq<char>, command: Seq<char>) -> bool {
    match shell {
        ShellType::Bash | ShellType::Zsh => !has_char(name, '='),
        ShellType::Fish => !has_char(name, ' '),
        ShellType::PowerShell => {
            &&& !has_char(name, '=')
            &&& name.len() > 0
            &&& trim(name) == name
            &&& command.len() > 0
            &&& trim(command) == command
        },
    }
}

proof fn lemma_split_at_first(name: Seq<char>, tail: Seq<char>, c: char)
    requires
        !has_char(name, c),
        tail.len() > 0,
        tail[0] == c,
    ensures
        index_of(name + tail, c) == Some(name.len() as int),
{
    lemma_index_of(name, c);
    lemma_index_of_concat(name, tail, c);
    lemma_index_of(tail, c);
}

/// A line in the form in which a shell lists an alias is read back as that
/// alias's name and command.
pub proof fn lemma_listing_round_trip(shell: ShellType, name: Seq<char>, command: Seq<char>)
    requires
        listing_round_trips(shell, name, command),
    ensures
        runtime_line(shell, listing_line(shell, name, command)) == Some((name, command)),
{
    reveal_strlit("alias ");
    reveal_strlit("='");
    reveal_strlit(" '");
    reveal_strlit("=");
    lemma_quoted_command(command);
    match shell {
        ShellType::Bash | ShellType::Zsh => {
            let rest = name + ("='"@ + command + "'"@);
            lemma_split_at_first(name, "='"@ + command + "'"@, '=');
            assert(rest.subrange(0, name.len() as int) =~= name);
            assert(rest.subrange(name.len() + 1int, rest.len() as int) =~= "'"@ + command + "'"@);
            if shell == ShellType::Bash {
                let line = "alias "@ + rest;
                assert(line.subrange(0, 6) =~= "alias "@);
                assert(line.subrange(6, line.len() as int) =~= rest);
                assert(strip_prefix(line, "alias "@) == Some(rest));
            }
        },
        ShellType::Fish => {
            let rest = name + (" '"@ + command + "'"@);
            let line = "alias "@ + rest;
            lemma_split_at_first(name, " '"@ + command + "'"@, ' ');
            assert(rest.subrange(0, name.len() as int) =~= name);
            assert(rest.subrange(name.len() + 1int, rest.len() as int) =~= "'"@ + command + "'"@);
            assert(line.subrange(0, 6) =~= "alias "@);
            assert(line.subrange(6, line.len() as int) =~= rest);
            assert(strip_prefix(line, "alias "@) == Some(rest));
        },
        ShellType::PowerShell => {
            let line = name + ("="@ + command);
            lemma_split_at_first(name, "="@ + command, '=');
            assert(line.subrange(0, name.len() as int) =~= name);
            assert(line.subrange(name.len() + 1int, line.len() as int) =~= command);
        },
    }
}

} // verus!
