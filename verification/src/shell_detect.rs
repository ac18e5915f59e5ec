//! Deciding which shells are installed, from what the caller finds on disk.
use vstd::prelude::*;

use crate::text::{
    chars_of, contains, lines, lines_of, push_string, seq_contains, seqs_of, string_of,
    string_views, trim, trim_chars,
};
use crate::types::{shell_name, ShellType};

verus! {

/// Where the binary of `shell` is looked for first, on Windows or elsewhere.
pub open spec fn candidate_paths(shell: ShellType, windows: bool) -> Seq<Seq<char>> {
    match shell {
        ShellType::Bash => if windows {
            seq!["C:\\Program Files\\Git\\bin\\bash.exe"@, "C:\\Program Files (x86)\\Git\\bin\\bash.exe"@]
        } else {
            seq!["/bin/bash"@, "/usr/local/bin/bash"@, "/opt/homebrew/bin/bash"@]
        },
        ShellType::Zsh => if windows {
            seq![]
        } else {
            seq!["/bin/zsh"@, "/usr/local/bin/zsh"@, "/opt/homebrew/bin/zsh"@]
        },
        ShellType::Fish => if windows {
            seq!["C:\\Program Files\\fish\\bin\\fish.exe"@]
        } else {
            seq!["/usr/local/bin/fish"@, "/usr/bin/fish"@, "/opt/homebrew/bin/fish"@]
        },
        ShellType::PowerShell => if windows {
            seq![
                "C:\\Program Files\\PowerShell\\7\\pwsh.exe"@,
                "C:\\Windows\\System32\\WindowsPowerShell\\v1.0\\powershell.exe"@,
            ]
        } else {
            seq!["/usr/local/bin/pwsh"@, "/opt/homebrew/bin/pwsh"@, "/usr/bin/pwsh"@]
        },
    }
}

/// Where the binary of `shell` is looked for first, in order, on Windows
/// (`windows`) or elsewhere.
pub fn candidate_binaries(shell: &ShellType, windows: bool) -> (paths: Vec<String>)
    ensures
        string_views(paths@) == candidate_paths(*shell, windows),
{
    let mut v: Vec<String> = Vec::new();
    match shell {
        ShellType::Bash => if windows {
            push_string(&mut v, "C:\\Program Files\\Git\\bin\\bash.exe");
            push_string(&mut v, "C:\\Program Files (x86)\\Git\\bin\\bash.exe");
        } else {
            push_string(&mut v, "/bin/bash");
            push_string(&mut v, "/usr/local/bin/bash");
            push_string(&mut v, "/opt/homebrew/bin/bash");
        },
        ShellType::Zsh => if !windows {
            push_string(&mut v, "/bin/zsh");
            push_string(&mut v, "/usr/local/bin/zsh");
            push_string(&mut v, "/opt/homebrew/bin/zsh");
        },
        ShellType::Fish => if windows {
            push_string(&mut v, "C:\\Program Files\\fish\\bin\\fish.exe");
        } else {
            push_string(&mut v, "/usr/local/bin/fish");
            push_string(&mut v, "/usr/bin/fish");
            push_string(&mut v, "/opt/homebrew/bin/fish");
        },
        ShellType::PowerShell => if windows {
            push_string(&mut v, "C:\\Program Files\\PowerShell\\7\\pwsh.exe");
            push_string(&mut v, "C:\\Windows\\System32\\WindowsPowerShell\\v1.0\\powershell.exe");
        } else {
            push_string(&mut v, "/usr/local/bin/pwsh");
            push_string(&mut v, "/opt/homebrew/bin/pwsh");
            push_string(&mut v, "/usr/bin/pwsh");
        },
    }
    assert(string_views(v@) =~= candidate_paths(*shell, windows));
    v
}

/// The position of the first candidate that is present.
pub open spec fn first_present_index(present: Seq<bool>) -> Option<int>
    decreases present.len(),
{
    if present.len() == 0 {
        None
    } else {
        match first_present_index(present.drop_last()) {
            Some(k) => Some(k),
            None => if present.last() {
                Some(present.len() - 1)
            } else {
                None
            },
        }
    }
}

proof fn lemma_first_present_extend(a: Seq<bool>, b: Seq<bool>)
    requires
        first_present_index(a) is Some,
    ensures
        first_present_index(a + b) == first_present_index(a),
    decreases b.len(),
{
    if b.len() > 0 {
        lemma_first_present_extend(a, b.drop_last());
        assert((a + b).drop_last() =~= a + b.drop_last());
    } else {
        assert(a + b =~= a);
    }
}

/// The first of `candidates` that the caller found present (`present[k]`
/// says whether `candidates[k]` exists).
pub fn first_present(candidates: &[String], present: &[bool]) -> (r: Option<String>)
    requires
        candidates@.len() == present@.len(),
    ensures
        match first_present_index(present@) {
            Some(k) => r matches Some(p) && p@ == candidates@[k]@,
            None => r is None,
        },
{
    let mut k: usize = 0;
    while k < present.len()
        invariant
            k <= present@.len() == candidates@.len(),
            first_present_index(present@.take(k as int)) is None,
        decreases present.len() - k,
    {
        assert(present@.take(k + 1).drop_last() =~= present@.take(k as int));
        if present[k] {
            proof {
                lemma_first_present_extend(present@.take(k + 1), present@.skip(k + 1));
                assert(present@ =~= present@.take(k + 1) + present@.skip(k + 1));
            }
            return Some(candidates[k].clone());
        }
        k = k + 1;
    }
    assert(present@.take(present@.len() as int) =~= present@);
    None
}

/// `shell` is the user's default shell: the name of its binary occurs in the
/// `SHELL` setting `default_shell`.
pub fn is_default_shell(default_shell: &str, shell: &ShellType) -> (b: bool)
    ensures
        b == seq_contains(default_shell@, shell_name(*shell)),
{
    let name = shell.name();
    contains(chars_of(default_shell).as_slice(), chars_of(name.as_str()).as_slice())
}

/// The path that a `which`/`where` lookup printed: the first line of its
/// trimmed output, if that is not empty.
pub open spec fn lookup_result(output: Seq<char>) -> Option<Seq<char>> {
    let ls = lines_of(trim(output));
    if ls.len() > 0 && ls[0].len() > 0 {
        Some(ls[0])
    } else {
        None
    }
}

/// The path that a `which`/`where` lookup printed, if any.
pub fn first_path_line(output: &str) -> (r: Option<String>)
    ensures
        match r {
            Some(p) => lookup_result(output@) == Some(p@),
            None => lookup_result(output@) is None,
        },
{
    let t = trim_chars(chars_of(output).as_slice());
    let ls = lines(t.as_slice());
    if ls.len() > 0 && ls[0].len() > 0 {
        assert(seqs_of(ls@)[0] == ls@[0]@);
        Some(string_of(ls[0].as_slice()))
    } else {
        if ls.len() > 0 {
            assert(seqs_of(ls@)[0] == ls@[0]@);
        }
        None
    }
}

} // verus!
