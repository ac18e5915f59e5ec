//! Combining the aliases read from configuration files with those a running
//! shell reports.
use vstd::prelude::*;

use crate::alias_parser::alias_views;
use crate::alias_runtime::runtime_views;
use crate::text::{
    chars_lt, chars_of, lemma_seq_lt_asymmetric, lemma_seq_lt_total, lemma_seq_lt_transitive,
    seq_lt,
};
use crate::types::{
    Alias, AliasSource, AliasSourceView, AliasView, MergedAlias, MergedAliasView, RuntimeAlias,
    RuntimeAliasView,
};

verus! {

/// The position of the last file alias named `name`.
pub open spec fn last_file_index(files: Seq<AliasView>, name: Seq<char>) -> Option<int>
    decreases files.len(),
{
    if files.len() == 0 {
        None
    } else if files.last().name == name {
        Some(files.len() - 1)
    } else {
        last_file_index(files.drop_last(), name)
    }
}

/// The position of the last runtime alias named `name`.
pub open spec fn last_runtime_index(rts: Seq<RuntimeAliasView>, name: Seq<char>) -> Option<int>
    decreases rts.len(),
{
    if rts.len() == 0 {
        None
    } else if rts.last().name == name {
        Some(rts.len() - 1)
    } else {
        last_runtime_index(rts.drop_last(), name)
    }
}

/// The position of the first runtime alias named `name`.
pub open spec fn first_runtime_index(rts: Seq<RuntimeAliasView>, name: Seq<char>) -> Option<int>
    decreases rts.len(),
{
    if rts.len() == 0 {
        None
    } else {
        match first_runtime_index(rts.drop_last(), name) {
            Some(i) => Some(i),
            None => if rts.last().name == name {
                Some(rts.len() - 1)
            } else {
                None
            },
        }
    }
}

/// `name` is the name of some file alias or some runtime alias.
pub open spec fn is_known_name(
    files: Seq<AliasView>,
    rts: Seq<RuntimeAliasView>,
    name: Seq<char>,
) -> bool {
    last_file_index(files, name) is Some || last_runtime_index(rts, name) is Some
}

/// The merged alias named `name`.
///
/// When a file defines it, the last such file alias gives its shell, place,
/// group and whether it is managed; it is found in both places when the shell
/// reports it too, and the command the shell reports last then replaces the
/// file's. Otherwise it is known from the shell alone: the first report gives
/// its shell and the last its command.
pub open spec fn merged_entry(
    files: Seq<AliasView>,
    rts: Seq<RuntimeAliasView>,
    name: Seq<char>,
) -> MergedAliasView {
    match last_file_index(files, name) {
        Some(i) => {
            let f = files[i];
            MergedAliasView {
                name,
                command: match last_runtime_index(rts, name) {
                    Some(j) => rts[j].command,
                    None => f.command,
                },
                shell: f.shell,
                source: if last_runtime_index(rts, name) is Some {
                    AliasSourceView::Both { path: f.source_file, line: f.line_number }
                } else {
                    AliasSourceView::ConfigFile { path: f.source_file, line: f.line_number }
                },
                group: f.group,
                is_managed: f.is_managed,
            }
        },
        None => {
            let first = rts[first_runtime_index(rts, name).unwrap()];
            let last = rts[last_runtime_index(rts, name).unwrap()];
            MergedAliasView {
                name,
                command: last.command,
                shell: first.shell,
                source: AliasSourceView::RuntimeOnly,
                group: None,
                is_managed: false,
            }
        },
    }
}

/// The views of a sequence of merged aliases.
pub open spec fn merged_views(v: Seq<MergedAlias>) -> Seq<MergedAliasView> {
    v.map_values(|m: MergedAlias| m@)
}

/// The names in `v` strictly increase.
pub open spec fn strictly_sorted(v: Seq<MergedAliasView>) -> bool {
    forall|i: int, j: int| 0 <= i < j < v.len() ==> seq_lt(#[trigger] v[i].name, #[trigger] v[j].name)
}

/// `v` is the merge of `files` and `rts`: one entry per known name, in order
/// of names, each the merged alias of its name.
pub open spec fn is_merge_of(
    v: Seq<MergedAliasView>,
    files: Seq<AliasView>,
    rts: Seq<RuntimeAliasView>,
) -> bool {
    &&& strictly_sorted(v)
    &&& forall|i: int| 0 <= i < v.len() ==> #[trigger] v[i] == merged_entry(files, rts, v[i].name)
    &&& forall|name: Seq<char>|
        #[trigger] is_known_name(files, rts, name) <==> exists|i: int|
            0 <= i < v.len() && #[trigger] v[i].name == name
}

proof fn lemma_first_runtime_index(rts: Seq<RuntimeAliasView>, name: Seq<char>)
    ensures
        first_runtime_index(rts, name) is Some <==> last_runtime_index(rts, name) is Some,
        match first_runtime_index(rts, name) {
            Some(i) => 0 <= i < rts.len() && rts[i].name == name,
            None => true,
        },
        match last_runtime_index(rts, name) {
            Some(i) => 0 <= i < rts.len() && rts[i].name == name,
            None => true,
        },
    decreases rts.len(),
{
    if rts.len() > 0 {
        lemma_first_runtime_index(rts.drop_last(), name);
    }
}

proof fn lemma_last_file_index(files: Seq<AliasView>, name: Seq<char>)
    ensures
        match last_file_index(files, name) {
            Some(i) => 0 <= i < files.len() && files[i].name == name,
            None => true,
        },
    decreases files.len(),
{
    if files.len() > 0 {
        lemma_last_file_index(files.drop_last(), name);
    }
}

/// A file alias of another name changes nothing that is merged under `name`.
proof fn lemma_merged_entry_file_push(
    files: Seq<AliasView>,
    e: AliasView,
    rts: Seq<RuntimeAliasView>,
    name: Seq<char>,
)
    requires
        e.name != name,
    ensures
        merged_entry(files.push(e), rts, name) == merged_entry(files, rts, name),
        is_known_name(files.push(e), rts, name) == is_known_name(files, rts, name),
{
    assert(files.push(e).drop_last() =~= files);
    lemma_last_file_index(files, name);
    if let Some(i) = last_file_index(files, name) {
        assert(files.push(e)[i] == files[i]);
    }
}

/// A runtime alias of another name changes nothing that is merged under
/// `name`.
proof fn lemma_merged_entry_runtime_push(
    files: Seq<AliasView>,
    rts: Seq<RuntimeAliasView>,
    e: RuntimeAliasView,
    name: Seq<char>,
)
    requires
        e.name != name,
    ensures
        is_known_name(files, rts, name) ==> merged_entry(files, rts.push(e), name) == merged_entry(
            files,
            rts,
            name,
        ),
        is_known_name(files, rts.push(e), name) == is_known_name(files, rts, name),
{
    assert(rts.push(e).drop_last() =~= rts);
    assert(first_runtime_index(rts.push(e), name) == first_runtime_index(rts, name));
    assert(last_runtime_index(rts.push(e), name) == last_runtime_index(rts, name));
    lemma_first_runtime_index(rts, name);
    if let Some(i) = first_runtime_index(rts, name) {
        assert(rts.push(e)[i] == rts[i]);
    }
    if let Some(i) = last_runtime_index(rts, name) {
        assert(rts.push(e)[i] == rts[i]);
    }
}

/// A copy of an optional string.
fn copy_group(g: &Option<String>) -> (r: Option<String>)
    ensures
        r == *g,
{
    match g {
        Some(s) => Some(s.clone()),
        None => None,
    }
}

/// Where `name` stands or belongs among the strictly sorted `v`: every name
/// before the slot comes before `name`, and the name at the slot, if any, is
/// `name` itself (`true`) or comes after it (`false`).
fn find_slot(v: &Vec<MergedAlias>, name: &[char]) -> (r: (usize, bool))
    requires
        strictly_sorted(merged_views(v@)),
    ensures
        r.0 <= v@.len(),
        forall|k: int| 0 <= k < r.0 ==> seq_lt(#[trigger] v@[k].name@, name@),
        r.1 ==> r.0 < v@.len() && v@[r.0 as int].name@ == name@,
        !r.1 ==> r.0 == v@.len() || seq_lt(name@, v@[r.0 as int].name@),
{
    let mut k: usize = 0;
    while k < v.len()
        invariant
            k <= v@.len(),
            forall|m: int| 0 <= m < k ==> seq_lt(#[trigger] v@[m].name@, name@),
        decreases v.len() - k,
    {
        let here = chars_of(v[k].name.as_str());
        if !chars_lt(here.as_slice(), name) {
            proof {
                lemma_seq_lt_total(here@, name@);
            }
            if !chars_lt(name, here.as_slice()) {
                return (k, true);
            }
            return (k, false);
        }
        k = k + 1;
    }
    (k, false)
}

/// Inserting an alias at its slot keeps the names strictly increasing.
proof fn lemma_insert_sorted(v: Seq<MergedAliasView>, p: int, e: MergedAliasView)
    requires
        strictly_sorted(v),
        0 <= p <= v.len(),
        forall|k: int| 0 <= k < p ==> seq_lt(#[trigger] v[k].name, e.name),
        p == v.len() || seq_lt(e.name, v[p].name),
    ensures
        strictly_sorted(v.insert(p, e)),
{
    let w = v.insert(p, e);
    assert forall|i: int, j: int| 0 <= i < j < w.len() implies seq_lt(
        #[trigger] w[i].name,
        #[trigger] w[j].name,
    ) by {
        if j < p {
            assert(w[i] == v[i] && w[j] == v[j]);
        } else if j == p {
            assert(w[i] == v[i]);
        } else if i == p {
            assert(w[j] == v[j - 1]);
            if j - 1 > p {
                assert(seq_lt(v[p].name, v[j - 1].name));
                lemma_seq_lt_transitive(e.name, v[p].name, v[j - 1].name);
            }
        } else if i < p {
            assert(w[i] == v[i] && w[j] == v[j - 1]);
            if j - 1 >= p {
                if p < v.len() {
                    if j - 1 > p {
                        assert(seq_lt(v[p].name, v[j - 1].name));
                        lemma_seq_lt_transitive(e.name, v[p].name, v[j - 1].name);
                    }
                }
                lemma_seq_lt_transitive(v[i].name, e.name, v[j - 1].name);
            }
        } else {
            assert(w[i] == v[i - 1] && w[j] == v[j - 1]);
        }
    }
}

/// Adds a file alias to the merge of the file aliases before it.
fn merge_file_alias(merged: &mut Vec<MergedAlias>, alias: &Alias, Ghost(before): Ghost<Seq<AliasView>>)
    requires
        is_merge_of(merged_views(old(merged)@), before, seq![]),
    ensures
        is_merge_of(merged_views(final(merged)@), before.push(alias@), seq![]),
{
    let ghost no_rts: Seq<RuntimeAliasView> = seq![];
    let ghost after = before.push(alias@);
    assert(after.drop_last() =~= before);
    let name = chars_of(alias.name.as_str());
    let (p, found) = find_slot(merged, name.as_slice());
    let entry = MergedAlias {
        name: alias.name.clone(),
        command: alias.command.clone(),
        shell: alias.shell,
        source: AliasSource::ConfigFile {
            path: alias.source_file.clone(),
            line: alias.line_number,
        },
        group: copy_group(&alias.group),
        is_managed: alias.is_managed,
    };
    let ghost old_v = merged_views(merged@);
    assert(after =~= before.push(alias@));
    assert(last_file_index(after, alias.name@) == Some(before.len() as int));
    assert(last_runtime_index(no_rts, alias.name@) is None);
    assert(entry@ == merged_entry(after, no_rts, alias.name@));
    if found {
        merged.set(p, entry);
        proof {
            let v = merged_views(merged@);
            assert(v =~= old_v.update(p as int, entry@));
            assert forall|k: int| 0 <= k < v.len() implies #[trigger] v[k] == merged_entry(
                after,
                no_rts,
                v[k].name,
            ) by {
                if k != p {
                    assert(v[k] == old_v[k]);
                    assert(old_v[k] == merged_entry(before, no_rts, old_v[k].name));
                    assert(seq_lt(old_v[k].name, old_v[p as int].name) || seq_lt(
                        old_v[p as int].name,
                        old_v[k].name,
                    ));
                    lemma_seq_lt_asymmetric(old_v[k].name, old_v[k].name);
                    lemma_merged_entry_file_push(before, alias@, no_rts, old_v[k].name);
                }
            }
            assert forall|a: int, b: int| 0 <= a < b < v.len() implies seq_lt(
                #[trigger] v[a].name,
                #[trigger] v[b].name,
            ) by {
                assert(old_v[a].name == v[a].name && old_v[b].name == v[b].name);
            }
            assert forall|n: Seq<char>| #[trigger]
                is_known_name(after, no_rts, n) <==> exists|k: int|
                    0 <= k < v.len() && #[trigger] v[k].name == n by {
                if is_known_name(after, no_rts, n) {
                    if n != alias.name@ {
                        assert(is_known_name(before, no_rts, n));
                        let k = choose|k: int| 0 <= k < old_v.len() && old_v[k].name == n;
                        assert(v[k].name == n);
                    } else {
                        assert(v[p as int].name == n);
                    }
                }
                if exists|k: int| 0 <= k < v.len() && #[trigger] v[k].name == n {
                    let k = choose|k: int| 0 <= k < v.len() && v[k].name == n;
                    assert(old_v[k].name == n);
                    assert(is_known_name(before, no_rts, n));
                }
            }
        }
    } else {
        merged.insert(p, entry);
        proof {
            let v = merged_views(merged@);
            assert(v =~= old_v.insert(p as int, entry@));
            lemma_insert_sorted(old_v, p as int, entry@);
            assert forall|k: int| 0 <= k < v.len() implies #[trigger] v[k] == merged_entry(
                after,
                no_rts,
                v[k].name,
            ) by {
                if k < p {
                    assert(v[k] == old_v[k]);
                    assert(old_v[k] == merged_entry(before, no_rts, old_v[k].name));
                    lemma_seq_lt_asymmetric(old_v[k].name, alias.name@);
                    lemma_seq_lt_asymmetric(old_v[k].name, old_v[k].name);
                    lemma_merged_entry_file_push(before, alias@, no_rts, old_v[k].name);
                } else if k > p {
                    assert(v[k] == old_v[k - 1]);
                    assert(old_v[k - 1] == merged_entry(before, no_rts, old_v[k - 1].name));
                    lemma_seq_lt_asymmetric(alias.name@, alias.name@);
                    if (k - 1) > p {
                        assert(seq_lt(old_v[p as int].name, old_v[k - 1].name));
                        lemma_seq_lt_transitive(alias.name@, old_v[p as int].name, old_v[k - 1].name);
                    }
                    lemma_seq_lt_asymmetric(alias.name@, old_v[k - 1].name);
                    lemma_seq_lt_asymmetric(old_v[k - 1].name, old_v[k - 1].name);
                    lemma_merged_entry_file_push(before, alias@, no_rts, old_v[k - 1].name);
                }
            }
            assert forall|n: Seq<char>| #[trigger]
                is_known_name(after, no_rts, n) <==> exists|k: int|
                    0 <= k < v.len() && #[trigger] v[k].name == n by {
                if is_known_name(after, no_rts, n) {
                    if n != alias.name@ {
                        assert(is_known_name(before, no_rts, n));
                        let k = choose|k: int| 0 <= k < old_v.len() && old_v[k].name == n;
                        if k < p {
                            assert(v[k].name == n);
                        } else {
                            assert(v[k + 1].name == n);
                        }
                    } else {
                        assert(v[p as int].name == n);
                    }
                }
                if exists|k: int| 0 <= k < v.len() && #[trigger] v[k].name == n {
                    let k = choose|k: int| 0 <= k < v.len() && v[k].name == n;
                    if k < p {
                        assert(old_v[k].name == n);
                        assert(is_known_name(before, no_rts, n));
                    } else if k > p {
                        assert(old_v[k - 1].name == n);
                        assert(is_known_name(before, no_rts, n));
                    }
                }
            }
        }
    }
}

/// Adds a runtime alias to the merge of the file aliases and the runtime
/// aliases before it.
fn merge_runtime_alias(
    merged: &mut Vec<MergedAlias>,
    rt: &RuntimeAlias,
    Ghost(files): Ghost<Seq<AliasView>>,
    Ghost(before): Ghost<Seq<RuntimeAliasView>>,
)
    requires
        is_merge_of(merged_views(old(merged)@), files, before),
    ensures
        is_merge_of(merged_views(final(merged)@), files, before.push(rt@)),
{
    let ghost after = before.push(rt@);
    assert(after =~= before.push(rt@));
    assert(after.drop_last() =~= before);
    assert(after.last() == rt@);
    let name = chars_of(rt.name.as_str());
    let (p, found) = find_slot(merged, name.as_slice());
    let ghost old_v = merged_views(merged@);
    proof {
        lemma_first_runtime_index(before, rt.name@);
        lemma_first_runtime_index(after, rt.name@);
        lemma_last_file_index(files, rt.name@);
    }
    if found {
        let old = &merged[p];
        let source = match &old.source {
            AliasSource::ConfigFile { path, line } => AliasSource::Both {
                path: path.clone(),
                line: *line,
            },
            AliasSource::RuntimeOnly => AliasSource::RuntimeOnly,
            AliasSource::Both { path, line } => AliasSource::Both {
                path: path.clone(),
                line: *line,
            },
        };
        let entry = MergedAlias {
            name: old.name.clone(),
            command: rt.command.clone(),
            shell: old.shell,
            source,
            group: copy_group(&old.group),
            is_managed: old.is_managed,
        };
        proof {
            assert(old_v[p as int] == merged_entry(files, before, rt.name@));
            assert(is_known_name(files, before, rt.name@));
            assert(last_runtime_index(after, rt.name@) == Some(before.len() as int));
            if last_file_index(files, rt.name@) is None {
                let f = first_runtime_index(before, rt.name@).unwrap();
                assert(first_runtime_index(after, rt.name@) == Some(f));
                assert(after[f] == before[f]);
            }
            assert(entry@.source == merged_entry(files, after, rt.name@).source);
            assert(entry@ == merged_entry(files, after, rt.name@));
        }
        merged.set(p, entry);
        proof {
            let v = merged_views(merged@);
            assert(v =~= old_v.update(p as int, entry@));
            assert forall|k: int| 0 <= k < v.len() implies #[trigger] v[k] == merged_entry(
                files,
                after,
                v[k].name,
            ) by {
                if k != p {
                    assert(v[k] == old_v[k]);
                    assert(old_v[k] == merged_entry(files, before, old_v[k].name));
                    assert(seq_lt(old_v[k].name, old_v[p as int].name) || seq_lt(
                        old_v[p as int].name,
                        old_v[k].name,
                    ));
                    lemma_seq_lt_asymmetric(old_v[k].name, old_v[k].name);
                    assert(is_known_name(files, before, old_v[k].name));
                    lemma_merged_entry_runtime_push(files, before, rt@, old_v[k].name);
                }
            }
            assert forall|a: int, b: int| 0 <= a < b < v.len() implies seq_lt(
                #[trigger] v[a].name,
                #[trigger] v[b].name,
            ) by {
                assert(old_v[a].name == v[a].name && old_v[b].name == v[b].name);
            }
            assert forall|n: Seq<char>| #[trigger]
                is_known_name(files, after, n) <==> exists|k: int|
                    0 <= k < v.len() && #[trigger] v[k].name == n by {
                if n != rt.name@ {
                    lemma_merged_entry_runtime_push(files, before, rt@, n);
                }
                if is_known_name(files, after, n) {
                    if n != rt.name@ {
                        let k = choose|k: int| 0 <= k < old_v.len() && old_v[k].name == n;
                        assert(v[k].name == n);
                    } else {
                        assert(v[p as int].name == n);
                    }
                }
                if exists|k: int| 0 <= k < v.len() && #[trigger] v[k].name == n {
                    let k = choose|k: int| 0 <= k < v.len() && v[k].name == n;
                    assert(old_v[k].name == n);
                }
            }
        }
    } else {
        let entry = MergedAlias {
            name: rt.name.clone(),
            command: rt.command.clone(),
            shell: rt.shell,
            source: AliasSource::RuntimeOnly,
            group: None,
            is_managed: false,
        };
        proof {
            if is_known_name(files, before, rt.name@) {
                let k = choose|k: int| 0 <= k < old_v.len() && old_v[k].name == rt.name@;
                if k < p {
                    lemma_seq_lt_asymmetric(rt.name@, rt.name@);
                } else if k == p {
                    lemma_seq_lt_asymmetric(rt.name@, rt.name@);
                } else {
                    assert(seq_lt(old_v[p as int].name, old_v[k].name));
                    lemma_seq_lt_transitive(rt.name@, old_v[p as int].name, old_v[k].name);
                    lemma_seq_lt_asymmetric(rt.name@, rt.name@);
                }
            }
            assert(!is_known_name(files, before, rt.name@));
            assert(first_runtime_index(after, rt.name@) == Some(before.len() as int));
            assert(last_runtime_index(after, rt.name@) == Some(before.len() as int));
            assert(entry@ == merged_entry(files, after, rt.name@));
        }
        merged.insert(p, entry);
        proof {
            let v = merged_views(merged@);
            assert(v =~= old_v.insert(p as int, entry@));
            lemma_insert_sorted(old_v, p as int, entry@);
            assert forall|k: int| 0 <= k < v.len() implies #[trigger] v[k] == merged_entry(
                files,
                after,
                v[k].name,
            ) by {
                if k < p {
                    assert(v[k] == old_v[k]);
                    assert(old_v[k] == merged_entry(files, before, old_v[k].name));
                    lemma_seq_lt_asymmetric(old_v[k].name, rt.name@);
                    lemma_seq_lt_asymmetric(old_v[k].name, old_v[k].name);
                    assert(is_known_name(files, before, old_v[k].name));
                    lemma_merged_entry_runtime_push(files, before, rt@, old_v[k].name);
                } else if k > p {
                    assert(v[k] == old_v[k - 1]);
                    assert(old_v[k - 1] == merged_entry(files, before, old_v[k - 1].name));
                    lemma_seq_lt_asymmetric(rt.name@, rt.name@);
                    if (k - 1) > p {
                        assert(seq_lt(old_v[p as int].name, old_v[k - 1].name));
                        lemma_seq_lt_transitive(rt.name@, old_v[p as int].name, old_v[k - 1].name);
                    }
                    lemma_seq_lt_asymmetric(rt.name@, old_v[k - 1].name);
                    lemma_seq_lt_asymmetric(old_v[k - 1].name, old_v[k - 1].name);
                    assert(is_known_name(files, before, old_v[k - 1].name));
                    lemma_merged_entry_runtime_push(files, before, rt@, old_v[k - 1].name);
                }
            }
            assert forall|n: Seq<char>| #[trigger]
                is_known_name(files, after, n) <==> exists|k: int|
                    0 <= k < v.len() && #[trigger] v[k].name == n by {
                if n != rt.name@ {
                    lemma_merged_entry_runtime_push(files, before, rt@, n);
                }
                if is_known_name(files, after, n) {
                    if n != rt.name@ {
                        let k = choose|k: int| 0 <= k < old_v.len() && old_v[k].name == n;
                        if k < p {
                            assert(v[k].name == n);
                        } else {
                            assert(v[k + 1].name == n);
                        }
                    } else {
                        assert(v[p as int].name == n);
                    }
                }
                if exists|k: int| 0 <= k < v.len() && #[trigger] v[k].name == n {
                    let k = choose|k: int| 0 <= k < v.len() && v[k].name == n;
                    if k < p {
                        assert(old_v[k].name == n);
                    } else if k > p {
                        assert(old_v[k - 1].name == n);
                    }
                }
            }
        }
    }
}

/// Combines aliases read from configuration files with those the running
/// shell reports.
///
/// There is one merged alias for each name that either source knows, and the
/// result is sorted by name. A name found in a file takes what it has from the
/// last file alias of that name; if the shell reports it too it is marked as
/// found in both, and the command the shell reports, being the one in effect,
/// wins. A name the shell alone reports is neither managed nor grouped.
pub fn merge_aliases(file_aliases: Vec<Alias>, runtime_aliases: Vec<RuntimeAlias>) -> (merged: Vec<
    MergedAlias,
>)
    ensures
        is_merge_of(
            merged_views(merged@),
            alias_views(file_aliases@),
            runtime_views(runtime_aliases@),
        ),
{
    let ghost files = alias_views(file_aliases@);
    let ghost rts = runtime_views(runtime_aliases@);
    let mut merged: Vec<MergedAlias> = Vec::new();
    let mut i: usize = 0;
    while i < file_aliases.len()
        invariant
            i <= file_aliases@.len(),
            files == alias_views(file_aliases@),
            is_merge_of(merged_views(merged@), files.take(i as int), seq![]),
        decreases file_aliases.len() - i,
    {
        assert(files.take(i + 1) =~= files.take(i as int).push(file_aliases@[i as int]@));
        merge_file_alias(&mut merged, &file_aliases[i], Ghost(files.take(i as int)));
        i = i + 1;
    }
    assert(files.take(file_aliases@.len() as int) == files);
    assert(rts.take(0) =~= seq![]);
    let mut j: usize = 0;
    while j < runtime_aliases.len()
        invariant
            j <= runtime_aliases@.len(),
            files == alias_views(file_aliases@),
            rts == runtime_views(runtime_aliases@),
            is_merge_of(merged_views(merged@), files, rts.take(j as int)),
        decreases runtime_aliases.len() - j,
    {
        assert(rts.take(j + 1) =~= rts.take(j as int).push(runtime_aliases@[j as int]@));
        merge_runtime_alias(&mut merged, &runtime_aliases[j], Ghost(files), Ghost(rts.take(j as int)));
        j = j + 1;
    }
    assert(rts.take(runtime_aliases@.len() as int) == rts);
    merged
}

/// Each name appears once in a merge.
pub proof fn lemma_merge_names_unique(
    v: Seq<MergedAliasView>,
    files: Seq<AliasView>,
    rts: Seq<RuntimeAliasView>,
    i: int,
    j: int,
)
    requires
        is_merge_of(v, files, rts),
        0 <= i < v.len(),
        0 <= j < v.len(),
        i != j,
    ensures
        v[i].name != v[j].name,
{
    if i < j {
        assert(seq_lt(v[i].name, v[j].name));
    } else {
        assert(seq_lt(v[j].name, v[i].name));
    }
    lemma_seq_lt_asymmetric(v[i].name, v[i].name);
}

/// Where a merged alias comes from: it is found in both places exactly when a
/// file and the shell both define its name, and then the shell's last command
/// is the one shown; it comes from a file alone when the shell does not
/// report it, and from the shell alone (neither managed nor grouped) when no
/// file defines it.
pub proof fn lemma_merge_sources(
    v: Seq<MergedAliasView>,
    files: Seq<AliasView>,
    rts: Seq<RuntimeAliasView>,
    k: int,
)
    requires
        is_merge_of(v, files, rts),
        0 <= k < v.len(),
    ensures
        (v[k].source is Both) <==> (last_file_index(files, v[k].name) is Some
            && last_runtime_index(rts, v[k].name) is Some),
        (v[k].source is ConfigFile) <==> (last_file_index(files, v[k].name) is Some
            && last_runtime_index(rts, v[k].name) is None),
        (v[k].source is RuntimeOnly) <==> last_file_index(files, v[k].name) is None,
        last_runtime_index(rts, v[k].name) matches Some(j) ==> 0 <= j < rts.len() && rts[j].name
            == v[k].name && v[k].command == rts[j].command,
        v[k].source is RuntimeOnly ==> !v[k].is_managed && v[k].group is None,
{
    lemma_first_runtime_index(rts, v[k].name);
    assert(is_known_name(files, rts, v[k].name));
}

} // verus!
