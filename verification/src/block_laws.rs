//! What an add does to a file that already has a managed block, and what a
//! delete of the alias just added gives back.
use vstd::prelude::*;

use crate::alias_parser::{MANAGED_END, MANAGED_START};
use crate::alias_writer::{
    alias_line, closes_block, group_line, group_lines, has_managed, inserted_text, inside_after,
    lemma_managed_line_holds_extend, managed_line_holds, name_pattern, open_after, opens_block,
    rewrite_scan, rewritten_text,
};
use crate::text::{
    drop_cr, join_lines, lemma_line_scan_concat, lemma_line_scan_no_newline, line_scan, lines_of,
    seq_contains, single_line,
};
use crate::types::ShellType;
use crate::writer_laws::{first_closing, lemma_insert_keeps_lines, lemma_pattern_in_alias_line, plain_line};

verus! {

/// A piece of a piece of `a` is a piece of `a`.
proof fn lemma_contains_trans(a: Seq<char>, b: Seq<char>, c: Seq<char>)
    requires
        seq_contains(a, b),
        seq_contains(b, c),
    ensures
        seq_contains(a, c),
{
    let i = choose|i: int|
        0 <= i && i + b.len() <= a.len() && #[trigger] a.subrange(i, i + b.len()) == b;
    let j = choose|j: int|
        0 <= j && j + c.len() <= b.len() && #[trigger] b.subrange(j, j + c.len()) == c;
    assert(a.subrange(i + j, i + j + c.len()) =~= c);
}

/// Every line read from `s` holds no line break and occurs in `s`; the line in
/// progress is how `s` ends.
proof fn lemma_scan_within(s: Seq<char>)
    ensures
        forall|i: int|
            0 <= i < line_scan(s).0.len() ==> seq_contains(s, #[trigger] line_scan(s).0[i]),
        forall|i: int, j: int|
            0 <= i < line_scan(s).0.len() && 0 <= j < line_scan(s).0[i].len() ==> #[trigger] line_scan(
                s,
            ).0[i][j] != '\n',
        forall|j: int| 0 <= j < line_scan(s).1.len() ==> #[trigger] line_scan(s).1[j] != '\n',
        line_scan(s).1.len() <= s.len(),
        s.subrange(s.len() - line_scan(s).1.len(), s.len() as int) == line_scan(s).1,
    decreases s.len(),
{
    if s.len() > 0 {
        let t = s.drop_last();
        lemma_scan_within(t);
        let (done, cur) = line_scan(t);
        assert forall|i: int| 0 <= i < done.len() implies seq_contains(s, #[trigger] done[i]) by {
            let x = done[i];
            assert(seq_contains(t, x));
            let a = choose|a: int|
                0 <= a && a + x.len() <= t.len() && #[trigger] t.subrange(a, a + x.len()) == x;
            assert(s.subrange(a, a + x.len()) =~= x);
        }
        if s.last() == '\n' {
            let d = drop_cr(cur);
            let a = t.len() - cur.len();
            assert(t.subrange(a, t.len() as int) == cur);
            assert(s.subrange(a, a + d.len()) =~= d);
            let now = done.push(d);
            assert(line_scan(s).0 == now);
            assert forall|i: int| 0 <= i < now.len() implies seq_contains(s, #[trigger] now[i]) by {
                if i < done.len() {
                    assert(now[i] == done[i]);
                } else {
                    assert(now[i] == d);
                }
            }
            assert forall|i: int, j: int|
                0 <= i < now.len() && 0 <= j < now[i].len() implies #[trigger] now[i][j]
                != '\n' by {
                if i < done.len() {
                    assert(now[i] == done[i]);
                } else {
                    assert(now[i][j] == cur[j]);
                }
            }
            assert(s.subrange(s.len() as int, s.len() as int) =~= Seq::<char>::empty());
        } else {
            let c2 = cur.push(s.last());
            assert(t.subrange(t.len() - cur.len(), t.len() as int) == cur);
            assert(s.subrange(s.len() - c2.len(), s.len() as int) =~= c2);
        }
    }
}

/// Every line of `s` holds no line break and occurs in `s`.
proof fn lemma_lines_within(s: Seq<char>)
    ensures
        forall|i: int| 0 <= i < lines_of(s).len() ==> seq_contains(s, #[trigger] lines_of(s)[i]),
        forall|i: int, j: int|
            0 <= i < lines_of(s).len() && 0 <= j < lines_of(s)[i].len() ==> #[trigger] lines_of(
                s,
            )[i][j] != '\n',
{
    lemma_scan_within(s);
    let (done, cur) = line_scan(s);
    if cur.len() > 0 {
        let a = s.len() - cur.len();
        assert(s.subrange(a, a + cur.len()) == cur);
        assert(seq_contains(s, cur));
        let ls = done.push(cur);
        assert forall|i: int| 0 <= i < ls.len() implies seq_contains(s, #[trigger] ls[i]) by {
            if i < done.len() {
                assert(ls[i] == done[i]);
            }
        }
        assert forall|i: int, j: int|
            0 <= i < ls.len() && 0 <= j < ls[i].len() implies #[trigger] ls[i][j] != '\n' by {
            if i < done.len() {
                assert(ls[i] == done[i]);
            }
        }
    }
}

/// When the block is open after `lines`, some line of them opens it, and it is
/// open by the stricter reading too.
proof fn lemma_inside_opened(lines: Seq<Seq<char>>)
    requires
        inside_after(lines),
    ensures
        open_after(lines),
        exists|i: int| 0 <= i < lines.len() && opens_block(#[trigger] lines[i]),
    decreases lines.len(),
{
    let n = lines.len() - 1;
    if opens_block(lines.last()) {
        assert(opens_block(lines[n]));
    } else {
        let init = lines.drop_last();
        lemma_inside_opened(init);
        let i = choose|i: int| 0 <= i < init.len() && opens_block(#[trigger] init[i]);
        assert(lines[i] == init[i]);
    }
}

/// The lines `ms` each without one final `'\r'`.
pub open spec fn without_cr(ms: Seq<Seq<char>>) -> Seq<Seq<char>> {
    ms.map_values(|m: Seq<char>| drop_cr(m))
}

/// Joining `ms` with `'\n'` and reading the text again gives `ms` back: every
/// line but the last has no final `'\r'` (a line break after it would swallow
/// it), and the last line is not empty (no empty line follows a final line
/// break).
pub open spec fn rejoins_exactly(ms: Seq<Seq<char>>) -> bool {
    &&& ms.len() > 0
    &&& ms.last().len() > 0
    &&& forall|i: int| 0 <= i < ms.len() - 1 ==> single_line(#[trigger] ms[i])
}

/// Reading lines joined with `'\n'`: every line but the last is finished, less
/// a final `'\r'`, and the last is in progress.
proof fn lemma_scan_joined(ms: Seq<Seq<char>>)
    requires
        ms.len() > 0,
        forall|i: int, j: int| 0 <= i < ms.len() && 0 <= j < ms[i].len() ==> #[trigger] ms[i][j] != '\n',
    ensures
        line_scan(join_lines(ms)) == (without_cr(ms.drop_last()), ms.last()),
    decreases ms.len(),
{
    if ms.len() == 1 {
        lemma_line_scan_no_newline(ms[0]);
        assert(without_cr(ms.drop_last()) =~= Seq::<Seq<char>>::empty());
    } else {
        let init = ms.drop_last();
        assert forall|i: int, j: int|
            0 <= i < init.len() && 0 <= j < init[i].len() implies #[trigger] init[i][j] != '\n' by {
            assert(init[i] == ms[i]);
        }
        lemma_scan_joined(init);
        let a = join_lines(init) + seq!['\n'];
        assert(a.drop_last() =~= join_lines(init));
        assert(without_cr(init.drop_last()).push(drop_cr(init.last())) =~= without_cr(init));
        assert(line_scan(a) == (without_cr(init), Seq::<char>::empty()));
        let last = ms.last();
        assert(forall|j: int| 0 <= j < last.len() ==> last[j] == ms[ms.len() - 1][j]);
        lemma_line_scan_no_newline(last);
        lemma_line_scan_concat(a, last);
        assert(join_lines(ms) =~= a + last);
        assert(without_cr(init) + Seq::<Seq<char>>::empty() =~= without_cr(init));
    }
}

/// The lines of text joined from `ms` with `'\n'`.
proof fn lemma_lines_of_joined(ms: Seq<Seq<char>>)
    requires
        ms.len() > 0,
        forall|i: int, j: int| 0 <= i < ms.len() && 0 <= j < ms[i].len() ==> #[trigger] ms[i][j] != '\n',
    ensures
        lines_of(join_lines(ms)) == if ms.last().len() == 0 {
            without_cr(ms.drop_last())
        } else {
            without_cr(ms.drop_last()).push(ms.last())
        },
        rejoins_exactly(ms) ==> lines_of(join_lines(ms)) == ms,
{
    lemma_scan_joined(ms);
    if rejoins_exactly(ms) {
        assert(without_cr(ms.drop_last()) =~= ms.drop_last());
        assert(ms.drop_last().push(ms.last()) =~= ms);
    }
}

/// Dropping a final `'\r'` changes no line's marking of the block.
proof fn lemma_markers_without_cr(x: Seq<char>)
    ensures
        opens_block(drop_cr(x)) == opens_block(x),
        closes_block(drop_cr(x)) == closes_block(x),
{
    reveal_strlit(">>> custom-alias managed >>>");
    reveal_strlit("<<< custom-alias managed <<<");
    if x.len() > 0 && x.last() == '\r' {
        lemma_piece_without_cr(x, MANAGED_START@);
        lemma_piece_without_cr(x, MANAGED_END@);
    }
}

/// A piece that does not end with `'\r'` occurs in `x` exactly when it occurs
/// in `x` less its final `'\r'`.
proof fn lemma_piece_without_cr(x: Seq<char>, p: Seq<char>)
    requires
        x.len() > 0,
        x.last() == '\r',
        p.len() > 0,
        p.last() != '\r',
    ensures
        seq_contains(x.drop_last(), p) == seq_contains(x, p),
{
    let y = x.drop_last();
    if seq_contains(y, p) {
        let i = choose|i: int| 0 <= i && i + p.len() <= y.len() && #[trigger] y.subrange(i, i + p.len()) == p;
        assert(x.subrange(i, i + p.len()) =~= p);
    }
    if seq_contains(x, p) {
        let i = choose|i: int| 0 <= i && i + p.len() <= x.len() && #[trigger] x.subrange(i, i + p.len()) == p;
        if i + p.len() == x.len() {
            assert(x.subrange(i, i + p.len())[p.len() - 1] == x.last());
        } else {
            assert(y.subrange(i, i + p.len()) =~= p);
        }
    }
}

/// Dropping final `'\r'`s leaves the block open or closed as it was.
proof fn lemma_open_after_without_cr(xs: Seq<Seq<char>>)
    ensures
        open_after(without_cr(xs)) == open_after(xs),
    decreases xs.len(),
{
    if xs.len() > 0 {
        lemma_open_after_without_cr(xs.drop_last());
        assert(without_cr(xs).drop_last() =~= without_cr(xs.drop_last()));
        lemma_markers_without_cr(xs.last());
    }
}

/// Adding an alias to a file that already has a managed block puts it inside
/// that block, where the duplicate check finds it, so a second add of the same
/// name is refused. This holds when the first line that closes the block
/// follows a line that opens it, and the alias line and the group comment are
/// plain lines. When joining the old lines again and reading them back gives
/// them exactly, the lines of the new text are the old lines with the group
/// comment and the alias line just before that closing line, every other line
/// kept in its place.
pub proof fn lemma_added_alias_in_existing_block(
    content: Seq<char>,
    shell: ShellType,
    name: Seq<char>,
    command: Seq<char>,
    group: Option<Seq<char>>,
    k: int,
)
    requires
        first_closing(lines_of(content)) == Some(k),
        inside_after(lines_of(content).take(k)),
        plain_line(alias_line(shell, name, command)),
        group matches Some(g) ==> plain_line(group_line(g)),
    ensures
        has_managed(inserted_text(content, alias_line(shell, name, command), group), name, shell),
        rejoins_exactly(lines_of(content)) ==> lines_of(
            inserted_text(content, alias_line(shell, name, command), group),
        ) == lines_of(content).take(k) + group_lines(group) + seq![alias_line(shell, name, command)]
            + lines_of(content).skip(k),
{
    let ls = lines_of(content);
    let line = alias_line(shell, name, command);
    let pattern = name_pattern(shell, name);
    let g = group_lines(group);
    let p = ls.take(k);
    lemma_insert_keeps_lines(ls, line, group);
    let m = p + g + seq![line] + ls.skip(k);
    // The file holds the opening marker, so the insert goes into its block.
    lemma_inside_opened(p);
    lemma_lines_within(content);
    let i = choose|i: int| 0 <= i < p.len() && opens_block(#[trigger] p[i]);
    assert(p[i] == ls[i]);
    lemma_contains_trans(content, ls[i], MANAGED_START@);
    assert(inserted_text(content, line, group) == join_lines(m));
    // Reading the new text again.
    assert forall|a: int, b: int| 0 <= a < m.len() && 0 <= b < m[a].len() implies #[trigger] m[a][b]
        != '\n' by {
        if a < k {
            assert(m[a] == ls[a]);
        } else if a < k + g.len() {
            assert(m[a] == group_line(group.unwrap()));
        } else if a == k + g.len() {
            assert(m[a] == line);
        } else {
            assert(m[a] == ls[a - g.len() - 1]);
        }
    }
    lemma_lines_of_joined(m);
    let r = lines_of(join_lines(m));
    let j = k + g.len();
    assert(m.last() == ls.last());
    // The alias line is read back inside the block.
    assert(r.take(j + 1) =~= without_cr(m.take(j + 1)));
    assert(m.take(j + 1) =~= (p + g).push(line));
    assert(r[j] == drop_cr(line));
    assert(drop_cr(line) == line);
    assert(r.take(j) =~= without_cr(p + g));
    lemma_open_after_without_cr(p + g);
    match group {
        Some(gl) => {
            assert((p + g).drop_last() =~= p);
            assert((p + g).last() == group_line(gl));
        },
        None => {
            assert(p + g =~= p);
        },
    }
    assert(open_after(p + g));
    lemma_pattern_in_alias_line(shell, name, command);
    assert(r.take(j + 1).drop_last() =~= r.take(j));
    assert(managed_line_holds(r.take(j + 1), pattern));
    lemma_managed_line_holds_extend(r.take(j + 1), r.skip(j + 1), pattern);
    assert(r.take(j + 1) + r.skip(j + 1) =~= r);
    if rejoins_exactly(ls) {
        assert forall|a: int| 0 <= a < m.len() - 1 implies single_line(#[trigger] m[a]) by {
            if a < k {
                assert(m[a] == ls[a]);
            } else if a < k + g.len() {
                assert(m[a] == group_line(group.unwrap()));
            } else if a == k + g.len() {
                assert(m[a] == line);
            } else {
                assert(m[a] == ls[a - g.len() - 1]);
            }
        }
        assert(rejoins_exactly(m));
    }
}

/// A scan that meets no line inside the block holding `pattern` keeps every
/// line and finds nothing.
proof fn lemma_rewrite_misses(xs: Seq<Seq<char>>, pattern: Seq<char>, replacement: Option<Seq<char>>)
    requires
        forall|i: int|
            0 <= i < xs.len() && inside_after(xs.take(i + 1)) ==> !seq_contains(
                #[trigger] xs[i],
                pattern,
            ),
    ensures
        rewrite_scan(xs, pattern, replacement) == (xs, false),
    decreases xs.len(),
{
    if xs.len() > 0 {
        let init = xs.drop_last();
        let n = xs.len() - 1;
        assert forall|i: int|
            0 <= i < init.len() && inside_after(init.take(i + 1)) implies !seq_contains(
            #[trigger] init[i],
            pattern,
        ) by {
            assert(init.take(i + 1) =~= xs.take(i + 1));
            assert(init[i] == xs[i]);
        }
        lemma_rewrite_misses(init, pattern, replacement);
        assert(xs.take(n + 1) =~= xs);
        assert(!(inside_after(xs.take(n + 1)) && seq_contains(xs[n], pattern)));
        assert(init.push(xs.last()) =~= xs);
    }
}

/// Once the scan has found its line, the lines that follow are kept as they
/// are.
proof fn lemma_rewrite_found_extend(
    a: Seq<Seq<char>>,
    b: Seq<Seq<char>>,
    pattern: Seq<char>,
    replacement: Option<Seq<char>>,
)
    requires
        rewrite_scan(a, pattern, replacement).1,
    ensures
        rewrite_scan(a + b, pattern, replacement) == (rewrite_scan(a, pattern, replacement).0 + b, true),
    decreases b.len(),
{
    if b.len() == 0 {
        assert(a + b =~= a);
        assert(rewrite_scan(a, pattern, replacement).0 + b =~= rewrite_scan(a, pattern, replacement).0);
    } else {
        lemma_rewrite_found_extend(a, b.drop_last(), pattern, replacement);
        assert((a + b).drop_last() =~= a + b.drop_last());
        assert((a + b).last() == b.last());
        assert((rewrite_scan(a, pattern, replacement).0 + b.drop_last()).push(b.last())
            =~= rewrite_scan(a, pattern, replacement).0 + b);
    }
}

/// Deleting an alias just added without a group to a file that already has a
/// managed block gives back the file's old lines joined with `'\n'` (a final
/// line break of the old text is not restored). This holds under the
/// conditions of [`lemma_added_alias_in_existing_block`] when joining the old
/// lines again gives them back exactly and no line before the block's first
/// closing line that lies inside the block already holds the alias's pattern
/// (the delete would take that line instead).
pub proof fn lemma_add_then_delete(
    content: Seq<char>,
    shell: ShellType,
    name: Seq<char>,
    command: Seq<char>,
    k: int,
)
    requires
        first_closing(lines_of(content)) == Some(k),
        inside_after(lines_of(content).take(k)),
        plain_line(alias_line(shell, name, command)),
        rejoins_exactly(lines_of(content)),
        forall|i: int|
            0 <= i < k && inside_after(lines_of(content).take(i + 1)) ==> !seq_contains(
                #[trigger] lines_of(content)[i],
                name_pattern(shell, name),
            ),
    ensures
        rewritten_text(
            inserted_text(content, alias_line(shell, name, command), None),
            name_pattern(shell, name),
            None,
        ) == Some(join_lines(lines_of(content))),
{
    let ls = lines_of(content);
    let line = alias_line(shell, name, command);
    let pattern = name_pattern(shell, name);
    lemma_added_alias_in_existing_block(content, shell, name, command, None, k);
    lemma_insert_keeps_lines(ls, line, None);
    let p = ls.take(k);
    let text = inserted_text(content, line, None);
    assert(lines_of(text) =~= p.push(line) + ls.skip(k));
    assert forall|i: int| 0 <= i < p.len() && inside_after(p.take(i + 1)) implies !seq_contains(
        #[trigger] p[i],
        pattern,
    ) by {
        assert(p.take(i + 1) =~= ls.take(i + 1));
        assert(p[i] == ls[i]);
    }
    lemma_rewrite_misses(p, pattern, None);
    lemma_pattern_in_alias_line(shell, name, command);
    assert(p.push(line).drop_last() =~= p);
    assert(inside_after(p.push(line)));
    assert(rewrite_scan(p.push(line), pattern, None) == (p, true));
    lemma_rewrite_found_extend(p.push(line), ls.skip(k), pattern, None);
    assert(p + ls.skip(k) =~= ls);
}

} // verus!
