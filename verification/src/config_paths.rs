//! Where each shell keeps its configuration, given the directories the
//! platform names: the caller looks those up (and lists fish's `conf.d`), and
//! the functions here decide which files they make.
use vstd::prelude::*;

use crate::text::{
    chars_of, last_index_of, lemma_last_index_is, push_string, rfind_char, string_views,
};
use crate::types::{opt_view, ShellType};

verus! {

// ---------------------------------------------------------------------------
// Joining paths
// ---------------------------------------------------------------------------

/// `s` is a verbatim Windows path (it starts with `\\?\`).
pub open spec fn verbatim_path(s: Seq<char>) -> bool {
    s.len() >= 4 && s[0] == '\\' && s[1] == '\\' && s[2] == '?' && s[3] == '\\'
}

/// `name` is relative on every platform: it starts with no separator and has
/// no drive prefix, so joining adjoins it rather than replacing the base.
pub open spec fn relative_name(name: Seq<char>) -> bool {
    &&& !(name.len() > 0 && (name[0] == '/' || name[0] == '\\'))
    &&& !(name.len() > 1 && name[1] == ':')
}

/// `p` is `base` with `name` adjoined: directly, or after one separator
/// (`'/'` or `'\\'`).
pub open spec fn joined(p: Seq<char>, base: Seq<char>, name: Seq<char>) -> bool {
    ||| p == base + name
    ||| p == base + seq!['/'] + name
    ||| p == base + seq!['\\'] + name
}

/// What joining the relative `name` to `base` is known to give.
pub open spec fn adjoined(p: Seq<char>, base: Seq<char>, name: Seq<char>) -> bool {
    verbatim_path(base) || joined(p, base, name)
}

/// std's `Path::join`, on strings: `base` with the relative `name` adjoined.
/// std adds the platform's separator unless `base` is empty or already ends
/// with one (or is a bare drive), so the contract claims that the result is
/// `base` and `name` with at most one separator, `'/'` or `'\\'`, between
/// them. It leaves open which of these, which depends on the platform, and
/// says nothing when `base` is a verbatim Windows path, which std normalises
/// as a whole.
#[verifier::external_body]
fn join_path(base: &str, name: &str) -> (p: String)
    requires
        relative_name(name@),
    ensures
        adjoined(p@, base@, name@),
{
    std::path::Path::new(base).join(name).to_string_lossy().into_owned()
}

/// `steps` walks from `base` through the names `parts`: each step is the one
/// before with the next name adjoined.
pub open spec fn walks(steps: Seq<Seq<char>>, base: Seq<char>, parts: Seq<Seq<char>>) -> bool {
    &&& steps.len() == parts.len() + 1
    &&& steps[0] == base
    &&& forall|i: int| 0 <= i < parts.len() ==> adjoined(#[trigger] steps[i + 1], steps[i], parts[i])
}

/// `p` is `base` with the names `parts` adjoined in turn.
pub open spec fn built_from(p: Seq<char>, base: Seq<char>, parts: Seq<Seq<char>>) -> bool {
    exists|steps: Seq<Seq<char>>| #[trigger] walks(steps, base, parts) && steps.last() == p
}

/// The views of a list of string slices.
pub open spec fn str_views(names: Seq<&str>) -> Seq<Seq<char>> {
    names.map_values(|s: &str| s@)
}

/// `base` with `names` adjoined in turn, each a relative name.
fn join_all(base: &str, names: &[&str]) -> (p: String)
    requires
        forall|i: int| 0 <= i < names@.len() ==> relative_name(#[trigger] names@[i]@),
    ensures
        built_from(p@, base@, str_views(names@)),
{
    let ghost views = str_views(names@);
    let mut p = String::from_str(base);
    let mut i: usize = 0;
    let ghost mut steps: Seq<Seq<char>> = seq![base@];
    while i < names.len()
        invariant
            i <= names@.len(),
            views == str_views(names@),
            forall|j: int| 0 <= j < names@.len() ==> relative_name(#[trigger] names@[j]@),
            walks(steps, base@, views.take(i as int)),
            steps.last() == p@,
        decreases names.len() - i,
    {
        let next = join_path(p.as_str(), names[i]);
        proof {
            let old_steps = steps;
            steps = steps.push(next@);
            assert forall|j: int| 0 <= j < i + 1 implies adjoined(
                #[trigger] steps[j + 1],
                steps[j],
                views.take(i + 1)[j],
            ) by {
                if j < i {
                    assert(steps[j + 1] == old_steps[j + 1]);
                    assert(views.take(i + 1)[j] == views.take(i as int)[j]);
                }
            }
        }
        p = next;
        i = i + 1;
    }
    assert(views.take(names@.len() as int) =~= views);
    p
}

// ---------------------------------------------------------------------------
// The table
// ---------------------------------------------------------------------------

/// A path to build: a base directory and the names to adjoin to it.
pub type PathPlan = (Seq<char>, Seq<Seq<char>>);

/// The base of the configuration directory: the one the platform names, or
/// `.config` under the home directory.
pub open spec fn config_root(home: Seq<char>, config_dir: Option<Seq<char>>) -> PathPlan {
    match config_dir {
        Some(c) => (c, seq![]),
        None => (home, seq![".config"@]),
    }
}

/// `names` under the directory `root` stands for.
pub open spec fn under(root: PathPlan, names: Seq<Seq<char>>) -> PathPlan {
    (root.0, root.1 + names)
}

/// The name of the PowerShell profile in the documents directory.
pub open spec fn documents_profile() -> Seq<char> {
    "Microsoft.PowerShell_profile.ps1"@
}

/// The configuration files of `shell`, in order, but for the files listed in
/// fish's `conf.d`: bash's `.bashrc`, `.bash_profile`, `.bash_aliases` and on
/// macOS `.profile` in the home directory; zsh's `.zshrc` and `.zshenv`;
/// fish's `fish/config.fish` in the configuration directory; PowerShell's
/// profile under `PowerShell` and `WindowsPowerShell` in the documents
/// directory on Windows (none without one), and `powershell/profile.ps1` in
/// the configuration directory elsewhere.
pub open spec fn config_plans(
    shell: ShellType,
    home: Seq<char>,
    config_dir: Option<Seq<char>>,
    documents: Option<Seq<char>>,
    windows: bool,
    macos: bool,
) -> Seq<PathPlan> {
    let root = config_root(home, config_dir);
    match shell {
        ShellType::Bash => seq![
            (home, seq![".bashrc"@]),
            (home, seq![".bash_profile"@]),
            (home, seq![".bash_aliases"@]),
        ] + if macos {
            seq![(home, seq![".profile"@])]
        } else {
            seq![]
        },
        ShellType::Zsh => seq![(home, seq![".zshrc"@]), (home, seq![".zshenv"@])],
        ShellType::Fish => seq![under(root, seq!["fish"@, "config.fish"@])],
        ShellType::PowerShell => if windows {
            match documents {
                Some(d) => seq![
                    (d, seq!["PowerShell"@, documents_profile()]),
                    (d, seq!["WindowsPowerShell"@, documents_profile()]),
                ],
                None => seq![],
            }
        } else {
            seq![under(root, seq!["powershell"@, "profile.ps1"@])]
        },
    }
}

/// The file name has the extension `fish`, as `Path::extension` reads it: a
/// `'.'` after its first character, the last of them followed by `fish`.
pub open spec fn fish_file(name: Seq<char>) -> bool {
    match last_index_of(name, '.') {
        Some(i) => i > 0 && name.skip(i + 1) == "fish"@,
        None => false,
    }
}

/// The paths of the entries of fish's `conf.d` whose file names have the
/// extension `fish`, in the order listed.
pub open spec fn fish_entries(paths: Seq<Seq<char>>, names: Seq<Seq<char>>) -> Seq<Seq<char>>
    decreases names.len(),
{
    if names.len() == 0 {
        seq![]
    } else {
        let n = names.len() - 1;
        let rest = fish_entries(paths, names.drop_last());
        if fish_file(names[n]) {
            rest.push(paths[n])
        } else {
            rest
        }
    }
}

/// Whether the file name `name` has the extension `fish`.
pub fn is_fish_file(name: &str) -> (b: bool)
    ensures
        b == fish_file(name@),
{
    let cs = chars_of(name);
    let fish = chars_of("fish");
    proof {
        reveal_strlit("fish");
    }
    match rfind_char(cs.as_slice(), '.') {
        Some(i) => {
            if i == 0 || cs.len() - (i + 1) != 4 {
                assert(i == 0 || cs@.skip(i + 1).len() != "fish"@.len());
                return false;
            }
            let mut k: usize = 0;
            while k < 4
                invariant
                    k <= 4,
                    i + 1 + 4 == cs.len(),
                    cs@.len() == cs.len(),
                    cs@ == name@,
                    i > 0,
                    last_index_of(cs@, '.') == Some(i as int),
                    fish@ == "fish"@,
                    fish@.len() == 4,
                    forall|j: int| 0 <= j < k ==> cs@[i + 1 + j] == fish@[j],
                decreases 4 - k,
            {
                if cs[i + 1 + k] != fish[k] {
                    assert(cs@.skip(i + 1)[k as int] != "fish"@[k as int]);
                    return false;
                }
                k = k + 1;
            }
            assert(cs@.skip(i + 1) =~= "fish"@);
            true
        },
        None => false,
    }
}

/// A `p` built from `mid`, itself built from `base`, is built from `base`
/// with both runs of names.
proof fn lemma_built_concat(
    p: Seq<char>,
    mid: Seq<char>,
    base: Seq<char>,
    a: Seq<Seq<char>>,
    b: Seq<Seq<char>>,
)
    requires
        built_from(mid, base, a),
        built_from(p, mid, b),
    ensures
        built_from(p, base, a + b),
{
    let s1 = choose|s: Seq<Seq<char>>| #[trigger] walks(s, base, a) && s.last() == mid;
    let s2 = choose|s: Seq<Seq<char>>| #[trigger] walks(s, mid, b) && s.last() == p;
    let s = s1 + s2.skip(1);
    let ab = a + b;
    assert forall|i: int| 0 <= i < ab.len() implies adjoined(#[trigger] s[i + 1], s[i], ab[i]) by {
        if i < a.len() {
            assert(s[i + 1] == s1[i + 1]);
            assert(s[i] == s1[i]);
            assert(ab[i] == a[i]);
        } else {
            let k = i - a.len();
            assert(s[i + 1] == s2[k + 1]);
            if k == 0 {
                assert(s[i] == s1[a.len() as int]);
            } else {
                assert(s[i] == s2[k]);
            }
            assert(ab[i] == b[k]);
        }
    }
    assert(walks(s, base, ab));
    assert(s.last() == s2.last());
}

/// `base` with the one relative `name` adjoined.
fn join_one(base: &str, name: &str) -> (p: String)
    requires
        relative_name(name@),
    ensures
        built_from(p@, base@, seq![name@]),
{
    let p = join_path(base, name);
    let ghost steps = seq![base@, p@];
    assert(walks(steps, base@, seq![name@]));
    p
}

/// `names` under the configuration directory: the one the platform names,
/// or `.config` under `home`.
fn under_config(home: &str, config_dir: &Option<String>, names: &[&str]) -> (p: String)
    requires
        forall|i: int| 0 <= i < names@.len() ==> relative_name(#[trigger] names@[i]@),
    ensures
        ({
            let plan = under(config_root(home@, opt_view(*config_dir)), str_views(names@));
            built_from(p@, plan.0, plan.1)
        }),
{
    proof {
        reveal_strlit(".config");
    }
    match config_dir {
        Some(c) => {
            let p = join_all(c.as_str(), names);
            assert(Seq::<Seq<char>>::empty() + str_views(names@) =~= str_views(names@));
            p
        },
        None => {
            let d = join_one(home, ".config");
            let p = join_all(d.as_str(), names);
            proof {
                lemma_built_concat(p@, d@, home@, seq![".config"@], str_views(names@));
            }
            p
        },
    }
}

/// The directory that holds fish's `conf.d` snippets.
pub fn fish_conf_dir(home: &str, config_dir: Option<String>) -> (p: String)
    ensures
        ({
            let plan = under(config_root(home@, opt_view(config_dir)), seq!["fish"@, "conf.d"@]);
            built_from(p@, plan.0, plan.1)
        }),
{
    proof {
        reveal_strlit("fish");
        reveal_strlit("conf.d");
    }
    let p = under_config(home, &config_dir, &["fish", "conf.d"]);
    assert(str_views(seq!["fish", "conf.d"]) =~= seq!["fish"@, "conf.d"@]);
    p
}

/// The paths of the entries of fish's `conf.d` whose file names have the
/// extension `fish`, given each entry's path and file name.
pub fn fish_conf_entries(paths: &[String], names: &[String]) -> (r: Vec<String>)
    requires
        paths@.len() == names@.len(),
    ensures
        string_views(r@) == fish_entries(string_views(paths@), string_views(names@)),
{
    let mut r: Vec<String> = Vec::new();
    let mut i: usize = 0;
    while i < names.len()
        invariant
            i <= names@.len(),
            paths@.len() == names@.len(),
            string_views(r@) == fish_entries(
                string_views(paths@),
                string_views(names@).take(i as int),
            ),
        decreases names.len() - i,
    {
        let ghost before = string_views(names@).take(i as int);
        assert(string_views(names@).take(i + 1).drop_last() =~= before);
        assert(string_views(names@).take(i + 1)[i as int] == names@[i as int]@);
        if is_fish_file(names[i].as_str()) {
            push_string(&mut r, paths[i].as_str());
        }
        i = i + 1;
    }
    assert(string_views(names@).take(names@.len() as int) =~= string_views(names@));
    r
}

/// The files the app reads for `shell`, as [`config_plans`] and fish's
/// `conf.d` give them: none without a home directory; else one path built by
/// each plan, in order, and for fish then the listed `conf.d` entries whose
/// names have the extension `fish`.
pub open spec fn lists_config_files(
    paths: Seq<Seq<char>>,
    shell: ShellType,
    home: Option<Seq<char>>,
    config_dir: Option<Seq<char>>,
    documents: Option<Seq<char>>,
    conf_d_paths: Seq<Seq<char>>,
    conf_d_names: Seq<Seq<char>>,
    windows: bool,
    macos: bool,
) -> bool {
    match home {
        None => paths.len() == 0,
        Some(h) => {
            let plans = config_plans(shell, h, config_dir, documents, windows, macos);
            let extra = match shell {
                ShellType::Fish => fish_entries(conf_d_paths, conf_d_names),
                _ => seq![],
            };
            &&& paths.len() == plans.len() + extra.len()
            &&& forall|i: int|
                0 <= i < plans.len() ==> built_from(#[trigger] paths[i], plans[i].0, plans[i].1)
            &&& forall|i: int|
                plans.len() <= i < paths.len() ==> #[trigger] paths[i] == extra[i - plans.len()]
        },
    }
}

/// The configuration files of `shell`, from the home, configuration and
/// documents directories that the platform names, the entries of fish's
/// `conf.d` (each entry's path and file name) and whether the platform is
/// Windows or macOS.
pub fn get_config_files(
    shell: &ShellType,
    home: Option<String>,
    config_dir: Option<String>,
    documents: Option<String>,
    conf_d_paths: &[String],
    conf_d_names: &[String],
    windows: bool,
    macos: bool,
) -> (paths: Vec<String>)
    requires
        conf_d_paths@.len() == conf_d_names@.len(),
    ensures
        lists_config_files(
            string_views(paths@),
            *shell,
            opt_view(home),
            opt_view(config_dir),
            opt_view(documents),
            string_views(conf_d_paths@),
            string_views(conf_d_names@),
            windows,
            macos,
        ),
{
    let h = match home {
        Some(h) => h,
        None => {
            let none: Vec<String> = Vec::new();
            assert(string_views(none@) =~= Seq::<Seq<char>>::empty());
            return none;
        },
    };
    proof {
        reveal_strlit(".bashrc");
        reveal_strlit(".bash_profile");
        reveal_strlit(".bash_aliases");
        reveal_strlit(".profile");
        reveal_strlit(".zshrc");
        reveal_strlit(".zshenv");
        reveal_strlit("fish");
        reveal_strlit("config.fish");
        reveal_strlit("PowerShell");
        reveal_strlit("WindowsPowerShell");
        reveal_strlit("Microsoft.PowerShell_profile.ps1");
        reveal_strlit("powershell");
        reveal_strlit("profile.ps1");
    }
    let ghost plans = config_plans(
        *shell,
        h@,
        opt_view(config_dir),
        opt_view(documents),
        windows,
        macos,
    );
    let mut out: Vec<String> = Vec::new();
    match shell {
        ShellType::Bash => {
            out.push(join_one(h.as_str(), ".bashrc"));
            out.push(join_one(h.as_str(), ".bash_profile"));
            out.push(join_one(h.as_str(), ".bash_aliases"));
            if macos {
                out.push(join_one(h.as_str(), ".profile"));
            }
        },
        ShellType::Zsh => {
            out.push(join_one(h.as_str(), ".zshrc"));
            out.push(join_one(h.as_str(), ".zshenv"));
        },
        ShellType::Fish => {
            out.push(under_config(h.as_str(), &config_dir, &["fish", "config.fish"]));
            assert(str_views(seq!["fish", "config.fish"]) =~= seq!["fish"@, "config.fish"@]);
            let mut extra = fish_conf_entries(conf_d_paths, conf_d_names);
            let ghost first = out@;
            let ghost rest = extra@;
            out.append(&mut extra);
            assert(string_views(out@) =~= string_views(first) + string_views(rest));
        },
        ShellType::PowerShell => {
            if windows {
                if let Some(d) = &documents {
                    out.push(join_all(d.as_str(), &["PowerShell", "Microsoft.PowerShell_profile.ps1"]));
                    out.push(join_all(d.as_str(), &["WindowsPowerShell", "Microsoft.PowerShell_profile.ps1"]));
                    assert(str_views(seq!["PowerShell", "Microsoft.PowerShell_profile.ps1"])
                        =~= seq!["PowerShell"@, documents_profile()]);
                    assert(str_views(seq!["WindowsPowerShell", "Microsoft.PowerShell_profile.ps1"])
                        =~= seq!["WindowsPowerShell"@, documents_profile()]);
                }
            } else {
                out.push(under_config(h.as_str(), &config_dir, &["powershell", "profile.ps1"]));
                assert(str_views(seq!["powershell", "profile.ps1"]) =~= seq!["powershell"@, "profile.ps1"@]);
            }
        },
    }
    out
}

/// Where new aliases go for `shell`: `.bashrc` and `.zshrc` in the home
/// directory; `fish/conf.d/custom-alias.fish` in the configuration directory;
/// PowerShell's profile under `PowerShell` in the documents directory on
/// Windows (none without one), and `powershell/profile.ps1` in the
/// configuration directory elsewhere.
pub open spec fn write_plan(
    shell: ShellType,
    home: Seq<char>,
    config_dir: Option<Seq<char>>,
    documents: Option<Seq<char>>,
    windows: bool,
) -> Option<PathPlan> {
    let root = config_root(home, config_dir);
    match shell {
        ShellType::Bash => Some((home, seq![".bashrc"@])),
        ShellType::Zsh => Some((home, seq![".zshrc"@])),
        ShellType::Fish => Some(under(root, seq!["fish"@, "conf.d"@, "custom-alias.fish"@])),
        ShellType::PowerShell => if windows {
            match documents {
                Some(d) => Some((d, seq!["PowerShell"@, documents_profile()])),
                None => None,
            }
        } else {
            Some(under(root, seq!["powershell"@, "profile.ps1"@]))
        },
    }
}

/// The file that new aliases for `shell` are written to: none without a home
/// directory or without the plan [`write_plan`] gives, else the path built by
/// that plan.
pub fn get_write_target(
    shell: &ShellType,
    home: Option<String>,
    config_dir: Option<String>,
    documents: Option<String>,
    windows: bool,
) -> (t: Option<String>)
    ensures
        match opt_view(home) {
            None => t is None,
            Some(h) => match write_plan(*shell, h, opt_view(config_dir), opt_view(documents), windows) {
                None => t is None,
                Some(plan) => t matches Some(p) && built_from(p@, plan.0, plan.1),
            },
        },
{
    let h = match home {
        Some(h) => h,
        None => {
            return None;
        },
    };
    proof {
        reveal_strlit(".bashrc");
        reveal_strlit(".zshrc");
        reveal_strlit("fish");
        reveal_strlit("conf.d");
        reveal_strlit("custom-alias.fish");
        reveal_strlit("PowerShell");
        reveal_strlit("Microsoft.PowerShell_profile.ps1");
        reveal_strlit("powershell");
        reveal_strlit("profile.ps1");
    }
    match shell {
        ShellType::Bash => Some(join_one(h.as_str(), ".bashrc")),
        ShellType::Zsh => Some(join_one(h.as_str(), ".zshrc")),
        ShellType::Fish => {
            let p = under_config(h.as_str(), &config_dir, &["fish", "conf.d", "custom-alias.fish"]);
            assert(str_views(seq!["fish", "conf.d", "custom-alias.fish"])
                =~= seq!["fish"@, "conf.d"@, "custom-alias.fish"@]);
            Some(p)
        },
        ShellType::PowerShell => {
            if windows {
                match &documents {
                    Some(d) => {
                        let p = join_all(d.as_str(), &["PowerShell", "Microsoft.PowerShell_profile.ps1"]);
                        assert(str_views(seq!["PowerShell", "Microsoft.PowerShell_profile.ps1"])
                            =~= seq!["PowerShell"@, documents_profile()]);
                        Some(p)
                    },
                    None => None,
                }
            } else {
                let p = under_config(h.as_str(), &config_dir, &["powershell", "profile.ps1"]);
                assert(str_views(seq!["powershell", "profile.ps1"]) =~= seq!["powershell"@, "profile.ps1"@]);
                Some(p)
            }
        },
    }
}

/// The directory that holds backups: `custom-alias/backups` in the
/// configuration directory, if the platform names one.
pub fn get_backup_dir(config_dir: Option<String>) -> (d: Option<String>)
    ensures
        match opt_view(config_dir) {
            None => d is None,
            Some(c) => d matches Some(p) && built_from(p@, c, seq!["custom-alias"@, "backups"@]),
        },
{
    proof {
        reveal_strlit("custom-alias");
        reveal_strlit("backups");
    }
    match config_dir {
        Some(c) => {
            let p = join_all(c.as_str(), &["custom-alias", "backups"]);
            assert(str_views(seq!["custom-alias", "backups"]) =~= seq!["custom-alias"@, "backups"@]);
            Some(p)
        },
        None => None,
    }
}

/// New aliases go to a file the app reads: for bash, zsh and PowerShell the
/// write target is built by the first plan of the shell's configuration
/// files (and there is none exactly when there are no such files), and fish's
/// target lies in its `conf.d` with a name that has the extension `fish`, so
/// it is read once it is listed there.
pub proof fn lemma_write_target_is_read(
    shell: ShellType,
    home: Seq<char>,
    config_dir: Option<Seq<char>>,
    documents: Option<Seq<char>>,
    windows: bool,
    macos: bool,
)
    ensures
        shell != ShellType::Fish ==> match write_plan(shell, home, config_dir, documents, windows) {
            Some(plan) => {
                &&& config_plans(shell, home, config_dir, documents, windows, macos).len() > 0
                &&& config_plans(shell, home, config_dir, documents, windows, macos)[0] == plan
            },
            None => config_plans(shell, home, config_dir, documents, windows, macos).len() == 0,
        },
        shell == ShellType::Fish ==> write_plan(shell, home, config_dir, documents, windows) == Some(
            under(config_root(home, config_dir), seq!["fish"@, "conf.d"@, "custom-alias.fish"@]),
        ),
        fish_file("custom-alias.fish"@),
{
    reveal_strlit("custom-alias.fish");
    reveal_strlit("fish");
    let name = "custom-alias.fish"@;
    lemma_last_index_is(name, '.', 12);
    assert(name.skip(13) =~= "fish"@);
}

} // verus!
