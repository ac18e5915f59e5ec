//! Naming, finding and pruning the backups of configuration files.
//!
//! The file system is the caller's: these functions decide from names and
//! times what the caller then copies, lists or removes.
use vstd::prelude::*;

use crate::text::{
    chars_lt, chars_of, concat, ends_with, ends_with_chars, last_index_of, lemma_last_index_is,
    lemma_seq_lt_asymmetric, lemma_seq_lt_total, lemma_seq_lt_transitive, rfind_char, seq_lt,
    slice_of, starts_with, starts_with_chars, string_of, string_views,
};
use crate::types::{BackupInfo, BackupInfoView};

verus! {

/// The name of the backup of file `file_name` made at `timestamp`:
/// `{file_name}_{timestamp}.bak`.
pub open spec fn backup_name(file_name: Seq<char>, timestamp: Seq<char>) -> Seq<char> {
    file_name + "_"@ + timestamp + ".bak"@
}

/// The name of the backup of file `file_name` made at `timestamp`.
pub fn backup_file_name(file_name: &str, timestamp: &str) -> (name: String)
    ensures
        name@ == backup_name(file_name@, timestamp@),
{
    let v = concat(chars_of(file_name).as_slice(), chars_of("_").as_slice());
    let v = concat(v.as_slice(), chars_of(timestamp).as_slice());
    let v = concat(v.as_slice(), chars_of(".bak").as_slice());
    string_of(v.as_slice())
}

/// The name of the file a backup was made of: what precedes the last two
/// `_` of the backup's name, or the whole name when it has fewer.
pub open spec fn original_name(backup: Seq<char>) -> Seq<char> {
    match last_index_of(backup, '_') {
        Some(i) => match last_index_of(backup.subrange(0, i), '_') {
            Some(j) => backup.subrange(0, j),
            None => backup,
        },
        None => backup,
    }
}

/// The name of the file a backup named `backup_name` was made of.
pub fn original_name_of_backup(backup_name: &str) -> (name: String)
    ensures
        name@ == original_name(backup_name@),
{
    let b = chars_of(backup_name);
    match rfind_char(b.as_slice(), '_') {
        Some(i) => {
            let rest = slice_of(b.as_slice(), 0, i);
            match rfind_char(rest.as_slice(), '_') {
                Some(j) => string_of(slice_of(b.as_slice(), 0, j).as_slice()),
                None => string_of(b.as_slice()),
            }
        },
        None => string_of(b.as_slice()),
    }
}

/// The first of `prefixes` with which `name` begins.
pub open spec fn first_prefix(name: Seq<char>, prefixes: Seq<Seq<char>>) -> Option<Seq<char>>
    decreases prefixes.len(),
{
    if prefixes.len() == 0 {
        None
    } else {
        match first_prefix(name, prefixes.drop_last()) {
            Some(p) => Some(p),
            None => if starts_with(name, prefixes.last()) {
                Some(prefixes.last())
            } else {
                None
            },
        }
    }
}

/// The configuration file a directory entry named `name` is a backup of:
/// the first of `prefixes` (the names of the shell's configuration files)
/// with which it begins, provided it ends with `.bak`.
pub open spec fn backup_origin_of(name: Seq<char>, prefixes: Seq<Seq<char>>) -> Option<Seq<char>> {
    if ends_with(name, ".bak"@) {
        first_prefix(name, prefixes)
    } else {
        None
    }
}

proof fn lemma_first_prefix_extend(name: Seq<char>, a: Seq<Seq<char>>, b: Seq<Seq<char>>)
    requires
        first_prefix(name, a) is Some,
    ensures
        first_prefix(name, a + b) == first_prefix(name, a),
    decreases b.len(),
{
    if b.len() > 0 {
        lemma_first_prefix_extend(name, a, b.drop_last());
        assert((a + b).drop_last() =~= a + b.drop_last());
    } else {
        assert(a + b =~= a);
    }
}

/// The configuration file a directory entry named `name` is a backup of, if
/// it is one.
pub fn backup_origin(name: &str, prefixes: &[String]) -> (r: Option<String>)
    ensures
        match r {
            Some(p) => backup_origin_of(name@, string_views(prefixes@)) == Some(p@),
            None => backup_origin_of(name@, string_views(prefixes@)) is None,
        },
{
    let n = chars_of(name);
    let bak = chars_of(".bak");
    if !ends_with_chars(n.as_slice(), bak.as_slice()) {
        return None;
    }
    let ghost ps = string_views(prefixes@);
    let mut i: usize = 0;
    while i < prefixes.len()
        invariant
            i <= prefixes@.len(),
            ps == string_views(prefixes@),
            n@ == name@,
            ends_with(name@, ".bak"@),
            first_prefix(name@, ps.take(i as int)) is None,
        decreases prefixes.len() - i,
    {
        assert(ps.take(i + 1).drop_last() =~= ps.take(i as int));
        assert(ps.take(i + 1).last() == prefixes@[i as int]@);
        let p = chars_of(prefixes[i].as_str());
        if starts_with_chars(n.as_slice(), p.as_slice()) {
            proof {
                lemma_first_prefix_extend(name@, ps.take(i + 1), ps.skip(i + 1));
                assert(ps =~= ps.take(i + 1) + ps.skip(i + 1));
            }
            return Some(prefixes[i].clone());
        }
        i = i + 1;
    }
    assert(ps.take(prefixes@.len() as int) =~= ps);
    None
}

/// `c` occurs nowhere in `s`.
pub open spec fn lacks(s: Seq<char>, c: char) -> bool {
    forall|i: int| 0 <= i < s.len() ==> s[i] != c
}

/// Restoring finds the file a backup was made of: the name of a backup made
/// at a timestamp of the form `date_time` (as `%Y%m%d_%H%M%S` gives) leads
/// back to the file's name, whatever underscores that name holds.
pub proof fn lemma_backup_name_round_trip(file_name: Seq<char>, date: Seq<char>, time: Seq<char>)
    requires
        lacks(date, '_'),
        lacks(time, '_'),
    ensures
        original_name(backup_name(file_name, date + "_"@ + time)) == file_name,
{
    reveal_strlit("_");
    reveal_strlit(".bak");
    let b = backup_name(file_name, date + "_"@ + time);
    let i: int = file_name.len() + 1int + date.len();
    assert(b =~= file_name + seq!['_'] + date + seq!['_'] + time + ".bak"@);
    assert forall|j: int| i < j < b.len() implies b[j] != '_' by {
        if j < i + 1 + time.len() {
            assert(b[j] == time[j - i - 1]);
        }
    }
    lemma_last_index_is(b, '_', i);
    let rest = b.subrange(0, i);
    assert(rest =~= file_name + seq!['_'] + date);
    let k = file_name.len() as int;
    assert forall|j: int| k < j < rest.len() implies rest[j] != '_' by {
        assert(rest[j] == date[j - k - 1]);
    }
    lemma_last_index_is(rest, '_', k);
    assert(b.subrange(0, k) =~= file_name);
}

/// Backup `j` is newer than backup `i`: it was modified later, or at the same
/// time but is listed after it.
pub open spec fn newer(times: Seq<u128>, j: int, i: int) -> bool {
    times[j] > times[i] || (times[j] == times[i] && j > i)
}

/// Backup `j` belongs to the file whose name is `prefix`.
pub open spec fn of_file(names: Seq<Seq<char>>, prefix: Seq<char>, j: int) -> bool {
    starts_with(names[j], prefix)
}

/// How many of the first `n` backups belong to the file and are newer than
/// backup `i`.
pub open spec fn newer_count(
    names: Seq<Seq<char>>,
    times: Seq<u128>,
    prefix: Seq<char>,
    i: int,
    n: int,
) -> nat
    decreases n,
{
    if n <= 0 {
        0
    } else {
        newer_count(names, times, prefix, i, n - 1) + if of_file(names, prefix, n - 1) && newer(
            times,
            n - 1,
            i,
        ) {
            1nat
        } else {
            0nat
        }
    }
}

/// How many backups of each file are kept after a new one is made.
pub const BACKUPS_KEPT: usize = 10;

/// Backup `i` goes when a file keeps its `keep` newest backups: it belongs
/// to the file and `keep` or more of the file's backups are newer.
pub open spec fn pruned(
    names: Seq<Seq<char>>,
    times: Seq<u128>,
    prefix: Seq<char>,
    keep: nat,
    i: int,
) -> bool {
    of_file(names, prefix, i) && newer_count(names, times, prefix, i, names.len() as int) >= keep
}

/// The positions, in increasing order, of the backups to remove so that the
/// file named `prefix` keeps its `keep` newest backups; `names` and
/// `modified` (times of last modification) describe the entries of the
/// backup directory.
pub fn backups_to_prune(names: &[String], modified: &[u128], prefix: &str, keep: usize) -> (r: Vec<
    usize,
>)
    requires
        names@.len() == modified@.len(),
    ensures
        forall|a: int, b: int| 0 <= a < b < r@.len() ==> r@[a] < r@[b],
        forall|a: int| 0 <= a < r@.len() ==> r@[a] < names@.len(),
        forall|i: int|
            0 <= i < names@.len() ==> (pruned(
                string_views(names@),
                modified@,
                prefix@,
                keep as nat,
                i,
            ) <==> r@.contains(i as usize)),
{
    let ghost ns = string_views(names@);
    let p = chars_of(prefix);
    let n = names.len();
    let mut matches: Vec<bool> = Vec::new();
    let mut j: usize = 0;
    while j < n
        invariant
            j <= n == names@.len(),
            ns == string_views(names@),
            p@ == prefix@,
            matches@.len() == j,
            forall|k: int| 0 <= k < j ==> matches@[k] == of_file(ns, prefix@, k),
        decreases n - j,
    {
        let name = chars_of(names[j].as_str());
        matches.push(starts_with_chars(name.as_slice(), p.as_slice()));
        j = j + 1;
    }
    let mut r: Vec<usize> = Vec::new();
    let mut i: usize = 0;
    while i < n
        invariant
            i <= n == names@.len() == modified@.len(),
            ns == string_views(names@),
            matches@.len() == n,
            forall|k: int| 0 <= k < n ==> matches@[k] == of_file(ns, prefix@, k),
            forall|a: int, b: int| 0 <= a < b < r@.len() ==> r@[a] < r@[b],
            forall|a: int| 0 <= a < r@.len() ==> r@[a] < i,
            forall|k: int|
                0 <= k < i ==> (pruned(ns, modified@, prefix@, keep as nat, k) <==> r@.contains(
                    k as usize,
                )),
        decreases n - i,
    {
        let mut count: usize = 0;
        let mut j: usize = 0;
        while j < n
            invariant
                j <= n == names@.len() == modified@.len(),
                i < n,
                matches@.len() == n,
                forall|k: int| 0 <= k < n ==> matches@[k] == of_file(ns, prefix@, k),
                count as nat == newer_count(ns, modified@, prefix@, i as int, j as int),
                count <= j,
            decreases n - j,
        {
            if matches[j] && (modified[j] > modified[i] || (modified[j] == modified[i] && j > i)) {
                count = count + 1;
            }
            j = j + 1;
        }
        let ghost old_r = r@;
        if matches[i] && count >= keep {
            r.push(i);
        }
        proof {
            assert forall|k: int|
                0 <= k < i + 1 implies (pruned(ns, modified@, prefix@, keep as nat, k)
                <==> r@.contains(k as usize)) by {
                if k < i {
                    if old_r.contains(k as usize) {
                        let m = choose|m: int| 0 <= m < old_r.len() && old_r[m] == k as usize;
                        assert(r@[m] == k as usize);
                    }
                    if r@.contains(k as usize) {
                        let m = choose|m: int| 0 <= m < r@.len() && r@[m] == k as usize;
                        if m < old_r.len() {
                            assert(old_r[m] == k as usize);
                        }
                    }
                } else {
                    if r@.contains(k as usize) {
                        let m = choose|m: int| 0 <= m < r@.len() && r@[m] == k as usize;
                        if m < old_r.len() {
                            assert(old_r[m] < i);
                        }
                    }
                    if pruned(ns, modified@, prefix@, keep as nat, k) {
                        assert(r@[r@.len() - 1] == i);
                    }
                }
            }
        }
        i = i + 1;
    }
    r
}

proof fn lemma_newer_count_grows(
    names: Seq<Seq<char>>,
    times: Seq<u128>,
    prefix: Seq<char>,
    i: int,
    j: int,
    n: int,
)
    requires
        0 <= n <= names.len() == times.len(),
        0 <= i < names.len(),
        0 <= j < names.len(),
        of_file(names, prefix, i),
        newer(times, i, j),
    ensures
        newer_count(names, times, prefix, j, n) >= newer_count(names, times, prefix, i, n) + if i
            < n {
            1int
        } else {
            0int
        },
    decreases n,
{
    if n > 0 {
        lemma_newer_count_grows(names, times, prefix, i, j, n - 1);
    }
}

/// Pruning keeps the newest backups: every backup of the file that stays is
/// newer than every one that goes.
pub proof fn lemma_prune_keeps_newest(
    names: Seq<Seq<char>>,
    times: Seq<u128>,
    prefix: Seq<char>,
    keep: nat,
    i: int,
    j: int,
)
    requires
        names.len() == times.len(),
        0 <= i < names.len(),
        0 <= j < names.len(),
        pruned(names, times, prefix, keep, i),
        of_file(names, prefix, j),
        !pruned(names, times, prefix, keep, j),
    ensures
        newer(times, j, i),
{
    if !newer(times, j, i) {
        assert(newer(times, i, j));
        lemma_newer_count_grows(names, times, prefix, i, j, names.len() as int);
    }
}

/// `order` lists the positions of `keys` newest first: each position once,
/// later keys (in the order of strings) before earlier ones, and positions
/// with equal keys in their original order.
pub open spec fn newest_first(keys: Seq<Seq<char>>, order: Seq<usize>) -> bool {
    &&& order.len() == keys.len()
    &&& forall|a: int| 0 <= a < order.len() ==> #[trigger] order[a] < keys.len()
    &&& forall|a: int, b: int|
        0 <= a < b < order.len() ==> #[trigger] order[a] != #[trigger] order[b]
    &&& forall|a: int, b: int|
        0 <= a < b < order.len() ==> !seq_lt(
            keys[#[trigger] order[a] as int],
            keys[#[trigger] order[b] as int],
        )
    &&& forall|a: int, b: int|
        0 <= a < b < order.len() && keys[#[trigger] order[a] as int] == keys[#[trigger] order[b] as int]
            ==> order[a] < order[b]
}

/// The views of a sequence of backups.
pub open spec fn backup_views(v: Seq<BackupInfo>) -> Seq<BackupInfoView> {
    v.map_values(|b: BackupInfo| b@)
}

/// The creation times of a sequence of backups.
pub open spec fn created_keys(v: Seq<BackupInfo>) -> Seq<Seq<char>> {
    v.map_values(|b: BackupInfo| b.created_at@)
}

proof fn lemma_insert_newest_first(keys: Seq<Seq<char>>, out: Seq<usize>, i: usize, p: int)
    requires
        i < keys.len(),
        0 <= p <= out.len(),
        out.len() == i,
        forall|a: int| 0 <= a < out.len() ==> #[trigger] out[a] < i,
        forall|a: int, b: int| 0 <= a < b < out.len() ==> #[trigger] out[a] != #[trigger] out[b],
        forall|a: int, b: int|
            0 <= a < b < out.len() ==> !seq_lt(
                keys[#[trigger] out[a] as int],
                keys[#[trigger] out[b] as int],
            ),
        forall|a: int, b: int|
            0 <= a < b < out.len() && keys[#[trigger] out[a] as int] == keys[#[trigger] out[b] as int]
                ==> out[a] < out[b],
        forall|a: int| 0 <= a < p ==> !seq_lt(keys[#[trigger] out[a] as int], keys[i as int]),
        p < out.len() ==> seq_lt(keys[out[p] as int], keys[i as int]),
    ensures
        ({
            let w = out.insert(p, i);
            &&& forall|a: int| 0 <= a < w.len() ==> #[trigger] w[a] < i + 1
            &&& forall|a: int, b: int| 0 <= a < b < w.len() ==> #[trigger] w[a] != #[trigger] w[b]
            &&& forall|a: int, b: int|
                0 <= a < b < w.len() ==> !seq_lt(
                    keys[#[trigger] w[a] as int],
                    keys[#[trigger] w[b] as int],
                )
            &&& forall|a: int, b: int|
                0 <= a < b < w.len() && keys[#[trigger] w[a] as int] == keys[#[trigger] w[b] as int]
                    ==> w[a] < w[b]
        }),
{
    let w = out.insert(p, i);
    let ki = keys[i as int];
    assert forall|a: int| 0 <= a < w.len() implies #[trigger] w[a] < i + 1 by {
        if a < p {
            assert(w[a] == out[a]);
        } else if a > p {
            assert(w[a] == out[a - 1]);
        }
    }
    assert forall|a: int, b: int| 0 <= a < b < w.len() implies #[trigger] w[a] != #[trigger] w[b] by {
        if a < p && b < p {
            assert(w[a] == out[a] && w[b] == out[b]);
        } else if a < p && b == p {
            assert(w[a] == out[a]);
        } else if a < p {
            assert(w[a] == out[a] && w[b] == out[b - 1]);
        } else if a == p {
            assert(w[b] == out[b - 1]);
        } else {
            assert(w[a] == out[a - 1] && w[b] == out[b - 1]);
        }
    }
    assert forall|a: int, b: int| 0 <= a < b < w.len() implies !seq_lt(
        keys[#[trigger] w[a] as int],
        keys[#[trigger] w[b] as int],
    ) && (keys[w[a] as int] == keys[w[b] as int] ==> w[a] < w[b]) by {
        if a < p && b < p {
            assert(w[a] == out[a] && w[b] == out[b]);
        } else if a < p && b == p {
            assert(w[a] == out[a]);
        } else if a < p {
            assert(w[a] == out[a] && w[b] == out[b - 1]);
            let ka = keys[out[a] as int];
            let kp = keys[out[p] as int];
            let kb = keys[out[b - 1] as int];
            lemma_seq_lt_asymmetric(kb, kp);
            lemma_seq_lt_asymmetric(kp, ki);
            lemma_seq_lt_total(ka, ki);
            lemma_seq_lt_total(kb, kp);
            if b - 1 > p {
                assert(!seq_lt(kp, kb));
            }
            if seq_lt(ka, kb) {
                if kb == kp {
                    lemma_seq_lt_transitive(ka, kp, ki);
                } else {
                    lemma_seq_lt_transitive(kb, kp, ki);
                    lemma_seq_lt_transitive(ka, kb, ki);
                }
            }
            if ka == kb {
                if kb == kp {
                    lemma_seq_lt_asymmetric(ka, ka);
                } else {
                    lemma_seq_lt_transitive(kb, kp, ki);
                }
            }
        } else if a == p {
            assert(w[b] == out[b - 1]);
            let kp = keys[out[p] as int];
            let kb = keys[out[b - 1] as int];
            lemma_seq_lt_asymmetric(kp, ki);
            lemma_seq_lt_total(kb, kp);
            if b - 1 > p {
                assert(!seq_lt(kp, kb));
            }
            if kb == kp {
                lemma_seq_lt_asymmetric(ki, kb);
                lemma_seq_lt_asymmetric(kb, kb);
            } else {
                lemma_seq_lt_transitive(kb, kp, ki);
                lemma_seq_lt_asymmetric(kb, ki);
                lemma_seq_lt_asymmetric(kb, kb);
            }
        } else {
            assert(w[a] == out[a - 1] && w[b] == out[b - 1]);
        }
    }
}

fn copy_backup(b: &BackupInfo) -> (c: BackupInfo)
    ensures
        c@ == b@,
{
    BackupInfo {
        path: b.path.clone(),
        shell: b.shell,
        created_at: b.created_at.clone(),
        original_file: b.original_file.clone(),
    }
}

/// `backups` ordered newest first by their creation times (compared as
/// strings), backups created at the same time in their original order.
pub fn sort_newest_first(backups: &[BackupInfo]) -> (sorted: Vec<BackupInfo>)
    ensures
        exists|order: Seq<usize>|
            #[trigger] newest_first(created_keys(backups@), order) && backup_views(sorted@)
                == order.map_values(|k: usize| backups@[k as int]@),
{
    let ghost keys = created_keys(backups@);
    let n = backups.len();
    let mut order: Vec<usize> = Vec::new();
    let mut i: usize = 0;
    while i < n
        invariant
            i <= n == backups@.len() == keys.len(),
            keys == created_keys(backups@),
            order@.len() == i,
            forall|a: int| 0 <= a < order@.len() ==> #[trigger] order@[a] < i,
            forall|a: int, b: int|
                0 <= a < b < order@.len() ==> #[trigger] order@[a] != #[trigger] order@[b],
            forall|a: int, b: int|
                0 <= a < b < order@.len() ==> !seq_lt(
                    keys[#[trigger] order@[a] as int],
                    keys[#[trigger] order@[b] as int],
                ),
            forall|a: int, b: int|
                0 <= a < b < order@.len() && keys[#[trigger] order@[a] as int]
                    == keys[#[trigger] order@[b] as int] ==> order@[a] < order@[b],
        decreases n - i,
    {
        let key = chars_of(backups[i].created_at.as_str());
        assert(key@ == keys[i as int]);
        let mut p: usize = 0;
        while p < order.len()
            invariant
                p <= order@.len(),
                forall|a: int| 0 <= a < order@.len() ==> #[trigger] order@[a] < i,
                i < n == backups@.len() == keys.len(),
                keys == created_keys(backups@),
                key@ == keys[i as int],
                forall|a: int| 0 <= a < p ==> !seq_lt(keys[#[trigger] order@[a] as int], key@),
            ensures
                p <= order@.len(),
                forall|a: int| 0 <= a < p ==> !seq_lt(keys[#[trigger] order@[a] as int], key@),
                p < order@.len() ==> seq_lt(keys[order@[p as int] as int], key@),
            decreases order.len() - p,
        {
            let here = chars_of(backups[order[p]].created_at.as_str());
            assert(here@ == keys[order@[p as int] as int]);
            if chars_lt(here.as_slice(), key.as_slice()) {
                break;
            }
            p = p + 1;
        }
        proof {
            lemma_insert_newest_first(keys, order@, i, p as int);
        }
        order.insert(p, i);
        i = i + 1;
    }
    let mut sorted: Vec<BackupInfo> = Vec::new();
    let mut k: usize = 0;
    while k < n
        invariant
            k <= n == order@.len() == backups@.len(),
            forall|a: int| 0 <= a < order@.len() ==> #[trigger] order@[a] < n,
            backup_views(sorted@) == order@.take(k as int).map_values(
                |j: usize| backups@[j as int]@,
            ),
        decreases n - k,
    {
        let ghost prev = sorted@;
        sorted.push(copy_backup(&backups[order[k]]));
        assert(backup_views(sorted@) =~= backup_views(prev).push(backups@[order@[k as int] as int]@));
        assert(order@.take(k + 1).map_values(|j: usize| backups@[j as int]@) =~= order@.take(
            k as int,
        ).map_values(|j: usize| backups@[j as int]@).push(backups@[order@[k as int] as int]@));
        k = k + 1;
    }
    assert(order@.take(n as int) =~= order@);
    assert(newest_first(keys, order@));
    sorted
}

/// How many of the first `n` backups of the file stay, other than backup `o`.
pub open spec fn kept_count_except(
    names: Seq<Seq<char>>,
    times: Seq<u128>,
    prefix: Seq<char>,
    keep: nat,
    o: int,
    n: int,
) -> nat
    decreases n,
{
    if n <= 0 {
        0
    } else {
        kept_count_except(names, times, prefix, keep, o, n - 1) + if of_file(names, prefix, n - 1)
            && !pruned(names, times, prefix, keep, n - 1) && n - 1 != o {
            1nat
        } else {
            0nat
        }
    }
}

/// How many of the file's backups stay when it keeps its `keep` newest.
pub open spec fn kept_count(
    names: Seq<Seq<char>>,
    times: Seq<u128>,
    prefix: Seq<char>,
    keep: nat,
) -> nat {
    kept_count_except(names, times, prefix, keep, -1, names.len() as int)
}

/// The oldest of the first `n` backups of the file that stay.
spec fn oldest_kept(
    names: Seq<Seq<char>>,
    times: Seq<u128>,
    prefix: Seq<char>,
    keep: nat,
    n: int,
) -> Option<int>
    decreases n,
{
    if n <= 0 {
        None
    } else {
        let prev = oldest_kept(names, times, prefix, keep, n - 1);
        if of_file(names, prefix, n - 1) && !pruned(names, times, prefix, keep, n - 1) {
            match prev {
                None => Some(n - 1),
                Some(o) => if newer(times, o, n - 1) {
                    Some(n - 1)
                } else {
                    Some(o)
                },
            }
        } else {
            prev
        }
    }
}

proof fn lemma_oldest_kept(
    names: Seq<Seq<char>>,
    times: Seq<u128>,
    prefix: Seq<char>,
    keep: nat,
    n: int,
)
    requires
        0 <= n <= names.len() == times.len(),
    ensures
        match oldest_kept(names, times, prefix, keep, n) {
            Some(o) => {
                &&& 0 <= o < n
                &&& of_file(names, prefix, o)
                &&& !pruned(names, times, prefix, keep, o)
                &&& forall|j: int|
                    0 <= j < n && j != o && of_file(names, prefix, j) && !pruned(
                        names,
                        times,
                        prefix,
                        keep,
                        j,
                    ) ==> #[trigger] newer(times, j, o)
            },
            None => {
                &&& kept_count_except(names, times, prefix, keep, -1, n) == 0
                &&& forall|j: int|
                    0 <= j < n ==> !(#[trigger] of_file(names, prefix, j) && !pruned(
                        names,
                        times,
                        prefix,
                        keep,
                        j,
                    ))
            },
        },
    decreases n,
{
    if n > 0 {
        lemma_oldest_kept(names, times, prefix, keep, n - 1);
        let last = n - 1;
        let prev = oldest_kept(names, times, prefix, keep, n - 1);
        if of_file(names, prefix, last) && !pruned(names, times, prefix, keep, last) {
            match prev {
                None => {},
                Some(o) => {
                    if newer(times, o, last) {
                        assert forall|j: int|
                            0 <= j < n && j != last && of_file(names, prefix, j) && !pruned(
                                names,
                                times,
                                prefix,
                                keep,
                                j,
                            ) implies #[trigger] newer(times, j, last) by {
                            if j != o {
                                assert(newer(times, j, o));
                            }
                        }
                    } else {
                        assert forall|j: int|
                            0 <= j < n && j != o && of_file(names, prefix, j) && !pruned(
                                names,
                                times,
                                prefix,
                                keep,
                                j,
                            ) implies #[trigger] newer(times, j, o) by {
                            if j != last {
                                assert(newer(times, j, o));
                            }
                        }
                    }
                },
            }
        }
    }
}

proof fn lemma_count_newer_than_oldest(
    names: Seq<Seq<char>>,
    times: Seq<u128>,
    prefix: Seq<char>,
    keep: nat,
    o: int,
    n: int,
)
    requires
        0 <= n <= names.len() == times.len(),
        0 <= o < names.len(),
        forall|j: int|
            0 <= j < names.len() && j != o && of_file(names, prefix, j) && !pruned(
                names,
                times,
                prefix,
                keep,
                j,
            ) ==> #[trigger] newer(times, j, o),
    ensures
        newer_count(names, times, prefix, o, n) >= kept_count_except(
            names,
            times,
            prefix,
            keep,
            o,
            n,
        ),
        kept_count_except(names, times, prefix, keep, -1, n) <= kept_count_except(
            names,
            times,
            prefix,
            keep,
            o,
            n,
        ) + 1,
        o >= n ==> kept_count_except(names, times, prefix, keep, -1, n) == kept_count_except(
            names,
            times,
            prefix,
            keep,
            o,
            n,
        ),
    decreases n,
{
    if n > 0 {
        lemma_count_newer_than_oldest(names, times, prefix, keep, o, n - 1);
    }
}

/// A file keeps at most `keep` backups.
pub proof fn lemma_prune_keeps_at_most(
    names: Seq<Seq<char>>,
    times: Seq<u128>,
    prefix: Seq<char>,
    keep: nat,
)
    requires
        names.len() == times.len(),
    ensures
        kept_count(names, times, prefix, keep) <= keep,
{
    let n = names.len() as int;
    lemma_oldest_kept(names, times, prefix, keep, n);
    if let Some(o) = oldest_kept(names, times, prefix, keep, n) {
        lemma_count_newer_than_oldest(names, times, prefix, keep, o, n);
    }
}

} // verus!
