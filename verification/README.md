# custom_alias

The core of a desktop application that manages shell aliases (bash, zsh,
fish, PowerShell) through a marked block in each shell's configuration file:

```bash
# >>> custom-alias managed >>>
# group: git
alias gs='git status'
# <<< custom-alias managed <<<
```

`src/` is a Verus-verified library: reading aliases out of configuration text
(`alias_parser`), reading a running shell's alias listing (`alias_runtime`),
merging both (`alias_merger`), computing the new text of a file when an alias
is added, changed, deleted or imported (`alias_writer`), naming, listing and
pruning backups (`backup`), which files each shell reads and where new
aliases go (`config_paths`, from the directories the platform names), the
decisions of shell detection (`shell_detect`) and of waiting for a shell to
list its aliases (`alias_runtime`). Character-level text operations live in
`text`, the call into the `regex` crate in `line_regex`, and properties that
relate several functions in `writer_laws`, `block_laws` and `round_trip`.

`alias_merger` keeps the merged aliases in a `Vec` sorted by name rather than
in a `HashMap`: vstd specifies `HashMap` only for keys whose hashing and
equality it knows to behave (`obeys_key_model`), which it provides for
integer and `bool` keys, not for `String` names. The sorted vector gives the
same one-entry-per-name merge with a contract that Verus checks.

`app/` is the unverified part: files, processes, the environment and the
JSON shapes exchanged with the front end.
