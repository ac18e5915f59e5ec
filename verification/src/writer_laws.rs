//! Properties that tie the writer's functions to one another.
use vstd::prelude::*;

use crate::alias_parser::{
    lemma_readings_push, line_alias, line_group, parse_scan, parsed_aliases, MANAGED_END,
    MANAGED_START,
};
use crate::alias_writer::{
    alias_line, closes_block, comment_line, group_line, kept_lines, group_lines, has_char, has_managed, insert_scan,
    inserted_text, inside_after, managed_line_holds, name_pattern, open_after, opens_block,
    rewrite_scan, rewritten_text, with_final_newline, MANAGED_END_LINE, MANAGED_START_LINE,
};
use crate::text::{
    lemma_line_scan_concat, lemma_line_scan_piece, line_scan, lines_of, replace_char,
    seq_contains, single_line,
};
use crate::types::ShellType;

verus! {

proof fn lemma_prefix_contained(s: Seq<char>, p: Seq<char>)
    requires
        p.len() <= s.len(),
        s.subrange(0, p.len() as int) == p,
    ensures
        seq_contains(s, p),
{
    assert(s.subrange(0, 0 + p.len() as int) == p);
}

/// The text by which the writer recognises the line of alias `name` occurs in
/// the line it writes for that alias, whatever the command: a line written by
/// an add is found again by the duplicate check, the update and the delete.
pub proof fn lemma_pattern_in_alias_line(shell: ShellType, name: Seq<char>, command: Seq<char>)
    ensures
        seq_contains(alias_line(shell, name, command), name_pattern(shell, name)),
{
    reveal_strlit("alias ");
    reveal_strlit("=");
    reveal_strlit("='");
    reveal_strlit(" ");
    reveal_strlit(" '");
    let line = alias_line(shell, name, command);
    let p = name_pattern(shell, name);
    match shell {
        ShellType::Bash | ShellType::Zsh => {
            let rest = replace_char(command, '\'', "'\\''"@) + "'"@;
            assert(line =~= p + ("'"@ + rest)) by {
                reveal_strlit("'");
            }
            assert(line.subrange(0, p.len() as int) =~= p);
            lemma_prefix_contained(line, p);
        },
        ShellType::Fish => {
            let rest = replace_char(command, '\'', "\\'"@) + "'"@;
            assert(line =~= p + ("'"@ + rest)) by {
                reveal_strlit("'");
            }
            assert(line.subrange(0, p.len() as int) =~= p);
            lemma_prefix_contained(line, p);
        },
        ShellType::PowerShell => {
            let head = if has_char(command, ' ') {
                "function "@
            } else {
                "Set-Alias -Name "@
            };
            assert(line.subrange(head.len() as int, head.len() + name.len() as int) =~= name);
        },
    }
}

proof fn lemma_scan_append_line(a: Seq<char>, s: Seq<char>)
    requires
        line_scan(a).1.len() == 0,
        single_line(s),
    ensures
        line_scan(a + (s + seq!['\n'])) == (line_scan(a).0.push(s), Seq::<char>::empty()),
{
    lemma_line_scan_concat(a, s + seq!['\n']);
    lemma_line_scan_piece(s);
    assert(line_scan(a).0 + seq![s] =~= line_scan(a).0.push(s));
}

/// The marker lines the writer writes open and close the block as the
/// readers recognise it, and are single lines.
proof fn lemma_marker_lines()
    ensures
        opens_block(MANAGED_START_LINE@),
        !closes_block(MANAGED_START_LINE@),
        closes_block(MANAGED_END_LINE@),
        !opens_block(MANAGED_END_LINE@),
        single_line(MANAGED_START_LINE@),
        single_line(MANAGED_END_LINE@),
{
    reveal_strlit("# >>> custom-alias managed >>>");
    reveal_strlit("# <<< custom-alias managed <<<");
    reveal_strlit(">>> custom-alias managed >>>");
    reveal_strlit("<<< custom-alias managed <<<");
    let s = MANAGED_START_LINE@;
    let e = MANAGED_END_LINE@;
    assert(s.subrange(2, 2 + MANAGED_START@.len() as int) =~= MANAGED_START@);
    assert(e.subrange(2, 2 + MANAGED_END@.len() as int) =~= MANAGED_END@);
    assert forall|i: int| 0 <= i && i + MANAGED_END@.len() <= s.len() implies #[trigger] s.subrange(
        i,
        i + MANAGED_END@.len(),
    ) != MANAGED_END@ by {
        assert(s.subrange(i, i + MANAGED_END@.len())[0] != MANAGED_END@[0]);
    }
    assert forall|i: int|
        0 <= i && i + MANAGED_START@.len() <= e.len() implies #[trigger] e.subrange(
        i,
        i + MANAGED_START@.len(),
    ) != MANAGED_START@ by {
        assert(e.subrange(i, i + MANAGED_START@.len())[0] != MANAGED_START@[0]);
    }
}

/// The lines of a file to which the writer appended a new managed block.
proof fn lemma_appended_block_lines(content: Seq<char>, line: Seq<char>, group: Option<Seq<char>>)
    requires
        !seq_contains(content, MANAGED_START@),
        single_line(line),
        group matches Some(g) ==> single_line(group_line(g)),
    ensures
        lines_of(inserted_text(content, line, group)) == line_scan(with_final_newline(content)).0
            + seq![Seq::<char>::empty(), MANAGED_START_LINE@] + group_lines(group) + seq![
            line,
            MANAGED_END_LINE@,
        ],
{
    reveal_strlit("\n");
    lemma_marker_lines();
    let nl = seq!['\n'];
    let empty = Seq::<char>::empty();
    let t0 = with_final_newline(content);
    assert(line_scan(t0).1.len() == 0) by {
        if content.len() > 0 && content.last() != '\n' {
            assert(t0.drop_last() =~= content);
        } else if content.len() > 0 {
            assert(content.drop_last().push('\n') =~= content);
        }
    }
    let t1 = t0 + (empty + nl);
    lemma_scan_append_line(t0, empty);
    let t2 = t1 + (MANAGED_START_LINE@ + nl);
    lemma_scan_append_line(t1, MANAGED_START_LINE@);
    let t3 = match group {
        Some(g) => t2 + (group_line(g) + nl),
        None => t2,
    };
    if let Some(g) = group {
        lemma_scan_append_line(t2, group_line(g));
    }
    let t4 = t3 + (line + nl);
    lemma_scan_append_line(t3, line);
    let t5 = t4 + (MANAGED_END_LINE@ + nl);
    lemma_scan_append_line(t4, MANAGED_END_LINE@);
    assert(inserted_text(content, line, group) =~= t5);
    let x = line_scan(t0).0;
    match group {
        Some(g) => {
            assert(line_scan(t5).0 =~= x + seq![empty, MANAGED_START_LINE@] + group_lines(group)
                + seq![line, MANAGED_END_LINE@]);
        },
        None => {
            assert(line_scan(t5).0 =~= x + seq![empty, MANAGED_START_LINE@] + group_lines(group)
                + seq![line, MANAGED_END_LINE@]);
        },
    }
}

/// Appending a new managed block keeps every line of the file, in front of
/// the new lines: a blank line, the opening marker, the group comment, the
/// alias line and the closing marker. This holds when the alias line and the
/// group comment are single lines and the file does not end with a `'\r'`
/// (the line break put after it would swallow it).
pub proof fn lemma_new_block_keeps_lines(content: Seq<char>, line: Seq<char>, group: Option<Seq<char>>)
    requires
        !seq_contains(content, MANAGED_START@),
        single_line(line),
        group matches Some(g) ==> single_line(group_line(g)),
        content.len() == 0 || content.last() != '\r',
    ensures
        lines_of(inserted_text(content, line, group)) == lines_of(content) + seq![
            Seq::<char>::empty(),
            MANAGED_START_LINE@,
        ] + group_lines(group) + seq![line, MANAGED_END_LINE@],
{
    lemma_appended_block_lines(content, line, group);
    let (done, cur) = line_scan(content);
    if content.len() > 0 {
        if content.last() == '\n' {
            assert(line_scan(content).1 == Seq::<char>::empty());
        } else {
            let t = content.push('\n');
            assert(with_final_newline(content) == t);
            assert(t.drop_last() =~= content);
            assert(cur.len() > 0 && cur.last() == content.last());
            assert(line_scan(t).0 == done.push(cur));
        }
    }
}

/// A line the writer may put into the managed block: one line that marks
/// neither end of the block.
pub open spec fn plain_line(line: Seq<char>) -> bool {
    single_line(line) && !opens_block(line) && !closes_block(line)
}

/// An alias added to a file that has no managed block yet lands in the new
/// managed block: the duplicate check then finds it, and an update or a
/// delete of it finds its line. This holds when the alias line and the group
/// comment are plain lines.
pub proof fn lemma_added_alias_in_block(
    content: Seq<char>,
    shell: ShellType,
    name: Seq<char>,
    command: Seq<char>,
    group: Option<Seq<char>>,
    replacement: Option<Seq<char>>,
)
    requires
        !seq_contains(content, MANAGED_START@),
        plain_line(alias_line(shell, name, command)),
        group matches Some(g) ==> plain_line(group_line(g)),
    ensures
        has_managed(inserted_text(content, alias_line(shell, name, command), group), name, shell),
        rewritten_text(
            inserted_text(content, alias_line(shell, name, command), group),
            name_pattern(shell, name),
            replacement,
        ) is Some,
{
    let line = alias_line(shell, name, command);
    let pattern = name_pattern(shell, name);
    lemma_appended_block_lines(content, line, group);
    lemma_marker_lines();
    lemma_pattern_in_alias_line(shell, name, command);
    let x = line_scan(with_final_newline(content)).0;
    let before_start = x + seq![Seq::<char>::empty()];
    let with_start = before_start.push(MANAGED_START_LINE@);
    let q = with_start + group_lines(group);
    let p1 = q.push(line);
    let ls = p1.push(MANAGED_END_LINE@);
    assert(lines_of(inserted_text(content, line, group)) =~= ls);
    assert(with_start.drop_last() =~= before_start);
    assert(open_after(with_start));
    assert(inside_after(with_start));
    match group {
        Some(g) => {
            assert(q =~= with_start.push(group_line(g)));
            assert(q.drop_last() =~= with_start);
        },
        None => {
            assert(q =~= with_start);
        },
    }
    assert(open_after(q));
    assert(inside_after(q));
    assert(p1.drop_last() =~= q);
    assert(managed_line_holds(p1, pattern));
    assert(ls.drop_last() =~= p1);
    assert(managed_line_holds(ls, pattern));
    assert(inside_after(p1));
    assert(rewrite_scan(p1, pattern, replacement).1);
    assert(rewrite_scan(ls, pattern, replacement).1);
}

/// The lines after an update (`Some` replacement) or a delete (`None`) of
/// line `k`.
pub open spec fn edited(lines: Seq<Seq<char>>, k: int, replacement: Option<Seq<char>>) -> Seq<
    Seq<char>,
> {
    match replacement {
        Some(r) => lines.update(k, r),
        None => lines.remove(k),
    }
}

/// Line `k` of `lines` lies inside the managed block and holds `pattern`.
pub open spec fn managed_match(lines: Seq<Seq<char>>, k: int, pattern: Seq<char>) -> bool {
    &&& 0 <= k < lines.len()
    &&& inside_after(lines.take(k + 1))
    &&& seq_contains(lines[k], pattern)
}

/// An update or a delete in the managed block touches one line: when it
/// finds the alias, the result is the old lines with one line inside the block
/// that holds the pattern replaced (update) or removed (delete); otherwise the
/// lines stay as they were.
pub proof fn lemma_rewrite_touches_one_line(
    lines: Seq<Seq<char>>,
    pattern: Seq<char>,
    replacement: Option<Seq<char>>,
)
    ensures
        rewrite_scan(lines, pattern, replacement).1 ==> exists|k: int|
            #[trigger] managed_match(lines, k, pattern) && rewrite_scan(
                lines,
                pattern,
                replacement,
            ).0 == edited(lines, k, replacement),
        !rewrite_scan(lines, pattern, replacement).1 ==> rewrite_scan(
            lines,
            pattern,
            replacement,
        ).0 == lines,
    decreases lines.len(),
{
    if lines.len() > 0 {
        let init = lines.drop_last();
        lemma_rewrite_touches_one_line(init, pattern, replacement);
        let (out, found) = rewrite_scan(init, pattern, replacement);
        let n = lines.len() - 1;
        assert(lines.take(n + 1) =~= lines);
        if found {
            let k = choose|k: int|
                #[trigger] managed_match(init, k, pattern) && out == edited(init, k, replacement);
            assert(init.take(k + 1) =~= lines.take(k + 1));
            assert(managed_match(lines, k, pattern));
            match replacement {
                Some(r) => assert(out.push(lines.last()) =~= lines.update(k, r)),
                None => assert(out.push(lines.last()) =~= lines.remove(k)),
            }
        } else if inside_after(lines) && seq_contains(lines.last(), pattern) {
            assert(managed_match(lines, n, pattern));
            match replacement {
                Some(r) => assert(out.push(r) =~= lines.update(n, r)),
                None => assert(out =~= lines.remove(n)),
            }
        } else {
            assert(out.push(lines.last()) =~= lines);
        }
    }
}

/// The position of the first line of `lines` that closes the managed block.
pub open spec fn first_closing(lines: Seq<Seq<char>>) -> Option<int>
    decreases lines.len(),
{
    if lines.len() == 0 {
        None
    } else {
        match first_closing(lines.drop_last()) {
            Some(k) => Some(k),
            None => if closes_block(lines.last()) {
                Some(lines.len() - 1)
            } else {
                None
            },
        }
    }
}

/// Adding to an existing managed block keeps every line of the file: the
/// group comment and the alias line go in just before the first line that
/// closes the block, and nothing is added when no line closes it.
pub proof fn lemma_insert_keeps_lines(
    lines: Seq<Seq<char>>,
    line: Seq<char>,
    group: Option<Seq<char>>,
)
    ensures
        match first_closing(lines) {
            Some(k) => 0 <= k < lines.len() && insert_scan(lines, line, group) == (
                lines.take(k) + group_lines(group) + seq![line] + lines.skip(k),
                true,
            ),
            None => insert_scan(lines, line, group) == (lines, false),
        },
    decreases lines.len(),
{
    if lines.len() > 0 {
        let init = lines.drop_last();
        lemma_insert_keeps_lines(init, line, group);
        match first_closing(init) {
            Some(k) => {
                assert(init.take(k) =~= lines.take(k));
                assert(init.skip(k).push(lines.last()) =~= lines.skip(k));
            },
            None => {
                if closes_block(lines.last()) {
                    let n = lines.len() - 1;
                    assert(lines.take(n) =~= init);
                    assert(lines.skip(n) =~= seq![lines.last()]);
                } else {
                    assert(init.push(lines.last()) =~= lines);
                }
            },
        }
    }
}

/// Appending a new managed block keeps the file's text in front of it.
pub proof fn lemma_append_keeps_content(
    content: Seq<char>,
    line: Seq<char>,
    group: Option<Seq<char>>,
)
    requires
        !seq_contains(content, MANAGED_START@),
    ensures
        inserted_text(content, line, group).subrange(0, content.len() as int) == content,
{
    assert(inserted_text(content, line, group).subrange(0, content.len() as int) =~= content);
}

/// The parser reads an alias that the writer appended in a new managed block
/// as managed, with the group of the comment written before it: the last
/// alias read from the new text is the one its line defines, on the
/// second-to-last line. This is stated over what the regular expressions
/// yield: the alias line must be recognised as an alias and not as a group
/// comment, and the group comment as a group.
pub proof fn lemma_added_alias_parsed_as_managed(
    content: Seq<char>,
    shell: ShellType,
    name: Seq<char>,
    command: Seq<char>,
    group: Option<Seq<char>>,
    source: Seq<char>,
)
    requires
        !seq_contains(content, MANAGED_START@),
        plain_line(alias_line(shell, name, command)),
        line_alias(shell, alias_line(shell, name, command)) is Some,
        line_group(alias_line(shell, name, command)) is None,
        group matches Some(g) ==> plain_line(group_line(g)) && line_group(group_line(g)) is Some,
        lines_of(inserted_text(content, alias_line(shell, name, command), group)).len()
            <= usize::MAX,
    ensures
        ({
            let text = inserted_text(content, alias_line(shell, name, command), group);
            let parsed = parsed_aliases(shell, text, source);
            let (n, c) = line_alias(shell, alias_line(shell, name, command)).unwrap();
            &&& parsed.len() > 0
            &&& parsed.last().name == n
            &&& parsed.last().command == c
            &&& parsed.last().is_managed
            &&& parsed.last().group == match group {
                Some(g) => line_group(group_line(g)),
                None => None,
            }
            &&& parsed.last().line_number + 1 == lines_of(text).len()
        }),
{
    let line = alias_line(shell, name, command);
    lemma_appended_block_lines(content, line, group);
    lemma_marker_lines();
    reveal_strlit(">>> custom-alias managed >>>");
    reveal_strlit("<<< custom-alias managed <<<");
    let x = line_scan(with_final_newline(content)).0;
    let before_start = x + seq![Seq::<char>::empty()];
    let with_start = before_start.push(MANAGED_START_LINE@);
    let q = with_start + group_lines(group);
    let p1 = q.push(line);
    let ls = p1.push(MANAGED_END_LINE@);
    assert(lines_of(inserted_text(content, line, group)) =~= ls);
    assert(with_start.drop_last() =~= before_start);
    lemma_readings_push(shell, before_start, MANAGED_START_LINE@);
    let s1 = parse_scan(shell, with_start, source);
    assert(s1.1 && s1.2 is None);
    match group {
        Some(g) => {
            assert(q =~= with_start.push(group_line(g)));
            lemma_readings_push(shell, with_start, group_line(g));
        },
        None => {
            assert(q =~= with_start);
        },
    }
    let s2 = parse_scan(shell, q, source);
    assert(s2.0 == s1.0);
    assert(s2.1);
    assert(s2.2 == match group {
        Some(g) => line_group(group_line(g)),
        None => None,
    });
    lemma_readings_push(shell, q, line);
    let s3 = parse_scan(shell, p1, source);
    assert(s3.0.len() == s2.0.len() + 1);
    lemma_readings_push(shell, p1, MANAGED_END_LINE@);
    let s4 = parse_scan(shell, ls, source);
    assert(s4.0 == s3.0);
}

/// Removing an imported alias's lines leaves no line that holds its pattern
/// but comments, and keeps every other line in order: the kept lines are the
/// lines that do not hold the pattern or are comments.
pub proof fn lemma_removed_lines_are_gone(lines: Seq<Seq<char>>, pattern: Seq<char>)
    ensures
        forall|k: int|
            0 <= k < kept_lines(lines, pattern).len() ==> (seq_contains(
                #[trigger] kept_lines(lines, pattern)[k],
                pattern,
            ) ==> comment_line(kept_lines(lines, pattern)[k])),
        kept_lines(lines, pattern) == lines.filter(
            |l: Seq<char>| !seq_contains(l, pattern) || comment_line(l),
        ),
    decreases lines.len(),
{
    reveal_with_fuel(Seq::<Seq<char>>::filter, 1);
    if lines.len() > 0 {
        lemma_removed_lines_are_gone(lines.drop_last(), pattern);
        let prev = kept_lines(lines.drop_last(), pattern);
        let now = kept_lines(lines, pattern);
        assert forall|k: int|
            0 <= k < now.len() implies (seq_contains(#[trigger] now[k], pattern) ==> comment_line(
                now[k],
            )) by {
            if k < prev.len() {
                assert(now[k] == prev[k]);
            }
        }
    }
}

} // verus!
