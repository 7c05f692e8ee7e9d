//! A session's environment variables and the development environments they
//! reveal (a Nix dev shell, a Python venv, a conda env, direnv), as the
//! runtime panel labels them.

use vstd::prelude::*;

use crate::text::{append_chars, str_eq, string_of};

verus! {

broadcast use vstd::std_specs::vec::group_vec_axioms;

/// The map a list of assignments denotes: later assignments win.
pub open spec fn env_map(s: Seq<(String, Option<String>)>) -> Map<Seq<char>, Option<Seq<char>>>
    decreases s.len(),
{
    if s.len() == 0 {
        Map::empty()
    } else {
        env_map(s.drop_last()).insert(s.last().0@, crate::permission::opt_view(s.last().1))
    }
}

/// Environment variables: each name is set to a value or explicitly unset
/// (`None`, as an overlay records a removal).
#[derive(Debug, Clone)]
pub struct EnvMap {
    entries: Vec<(String, Option<String>)>,
}

impl View for EnvMap {
    type V = Map<Seq<char>, Option<Seq<char>>>;

    closed spec fn view(&self) -> Map<Seq<char>, Option<Seq<char>>> {
        env_map(self.entries@)
    }
}

proof fn lemma_env_map_append(a: Seq<(String, Option<String>)>, b: Seq<(String, Option<String>)>)
    ensures
        env_map(a + b) == env_map(a).union_prefer_right(env_map(b)),
    decreases b.len(),
{
    if b.len() == 0 {
        assert(a + b =~= a);
        assert(env_map(a).union_prefer_right(env_map(b)) =~= env_map(a));
    } else {
        assert((a + b).drop_last() =~= a + b.drop_last());
        lemma_env_map_append(a, b.drop_last());
        assert(env_map(a + b) =~= env_map(a).union_prefer_right(env_map(b)));
    }
}

impl EnvMap {
    /// No variable set.
    pub fn new() -> (r: Self)
        ensures
            r@ == Map::<Seq<char>, Option<Seq<char>>>::empty(),
    {
        EnvMap { entries: Vec::new() }
    }

    /// The environment the assignments denote, later ones winning.
    pub fn from_pairs(pairs: Vec<(String, Option<String>)>) -> (r: Self)
        ensures
            r@ == env_map(pairs@),
    {
        EnvMap { entries: pairs }
    }

    /// Set (or, with `None`, unset) a variable.
    pub fn insert(&mut self, key: String, value: Option<String>)
        ensures
            final(self)@ == old(self)@.insert(key@, crate::permission::opt_view(value)),
    {
        let ghost s = self.entries@;
        self.entries.push((key, value));
        assert(self.entries@.drop_last() =~= s);
    }

    /// What `key` is set to: `None` when absent, `Some(None)` when
    /// explicitly unset.
    pub fn get(&self, key: &str) -> (r: Option<&Option<String>>)
        ensures
            match r {
                Some(v) => self@.contains_key(key@) && self@[key@] == crate::permission::opt_view(*v),
                None => !self@.contains_key(key@),
            },
    {
        let mut i: usize = self.entries.len();
        assert(self.entries@.subrange(0, i as int) =~= self.entries@);
        while i > 0
            invariant
                i <= self.entries@.len(),
                env_map(self.entries@.subrange(0, i as int)).contains_key(key@) == self@.contains_key(key@),
                env_map(self.entries@.subrange(0, i as int)).contains_key(key@) ==> env_map(
                    self.entries@.subrange(0, i as int),
                )[key@] == self@[key@],
            decreases i,
        {
            let ghost pre = self.entries@.subrange(0, i as int);
            assert(pre.drop_last() =~= self.entries@.subrange(0, i - 1));
            if str_eq(self.entries[i - 1].0.as_str(), key) {
                return Some(&self.entries[i - 1].1);
            }
            i -= 1;
        }
        assert(self.entries@.subrange(0, self.entries@.len() as int) =~= self.entries@);
        None
    }

    /// The assignments, in order (later ones win).
    pub fn entries(&self) -> (r: &Vec<(String, Option<String>)>)
        ensures
            env_map(r@) == self@,
    {
        &self.entries
    }
}

/// The effective environment after an overlay is applied on top of `env`:
/// the overlay's settings (and removals) win, every other variable stays.
pub fn apply_overlay(env: &mut EnvMap, overlay: EnvMap)
    ensures
        final(env)@ == old(env)@.union_prefer_right(overlay@),
{
    let ghost base = env.entries@;
    let extra = overlay.entries;
    let mut i: usize = 0;
    while i < extra.len()
        invariant
            i <= extra@.len(),
            env.entries@ == base + extra@.subrange(0, i as int),
        decreases extra.len() - i,
    {
        env.entries.push((extra[i].0.clone(), crate::permission::clone_opt(&extra[i].1)));
        i += 1;
        assert(env.entries@ =~= base + extra@.subrange(0, i as int));
    }
    assert(extra@.subrange(0, extra@.len() as int) =~= extra@);
    proof {
        lemma_env_map_append(base, extra@);
    }
}

/// The non-empty value a variable is set to, if any.
pub open spec fn env_val(m: Map<Seq<char>, Option<Seq<char>>>, key: Seq<char>) -> Option<Seq<char>> {
    if m.contains_key(key) {
        match m[key] {
            Some(v) => if v.len() > 0 {
                Some(v)
            } else {
                None
            },
            None => None,
        }
    } else {
        None
    }
}

/// The non-empty value `key` is set to in `env`, if any.
pub fn env_value(env: &EnvMap, key: &str) -> (r: Option<String>)
    ensures
        crate::permission::opt_view(r) == env_val(env@, key@),
{
    match env.get(key) {
        Some(Some(v)) => if v.as_str().is_empty() {
            None
        } else {
            Some(v.clone())
        },
        _ => None,
    }
}

/// The final component of a path as `std::path::Path::file_name` gives it
/// (`None` for a path ending in `..`, or for the root).
pub uninterp spec fn file_name_of(path: Seq<char>) -> Option<Seq<char>>;

/// Calls `std::path::Path::file_name`; the contract claims only that the
/// result is that final component of exactly this path.
#[verifier::external_body]
fn file_name(path: &str) -> (r: Option<String>)
    ensures
        crate::permission::opt_view(r) == file_name_of(path@),
{
    std::path::Path::new(path).file_name().and_then(|n| n.to_str()).map(|n| n.to_owned())
}

/// A path's last component, or the whole path where it has none.
pub open spec fn basename_of(path: Seq<char>) -> Seq<char> {
    match file_name_of(path) {
        Some(n) => if n.len() > 0 {
            n
        } else {
            path
        },
        None => path,
    }
}

/// A path's last component, or the whole path where it has none.
pub fn basename(path: &str) -> (r: String)
    ensures
        r@ == basename_of(path@),
{
    match file_name(path) {
        Some(n) => if n.as_str().is_empty() {
            crate::text::owned(path)
        } else {
            n
        },
        None => crate::text::owned(path),
    }
}

/// The labels of the development environments an environment shows, in a
/// fixed order: a Nix dev shell (its mode, and its name when known), a
/// Python venv (its directory's name), a conda env (its name, else its
/// prefix's last component); direnv only when nothing more specific is
/// active. Project files are not consulted.
pub open spec fn env_labels(m: Map<Seq<char>, Option<Seq<char>>>) -> Seq<Seq<char>> {
    let nix: Seq<Seq<char>> = match env_val(m, "IN_NIX_SHELL"@) {
        Some(mode) => seq![
            "dev shell: "@ + mode + match env_val(m, "NIX_SHELL_NAME"@) {
                Some(n) => " ("@ + n + ")"@,
                None => match env_val(m, "name"@) {
                    Some(n) => " ("@ + n + ")"@,
                    None => Seq::empty(),
                },
            },
        ],
        None => Seq::empty(),
    };
    let venv: Seq<Seq<char>> = match env_val(m, "VIRTUAL_ENV"@) {
        Some(p) => seq!["venv: "@ + basename_of(p)],
        None => Seq::empty(),
    };
    let conda: Seq<Seq<char>> = match env_val(m, "CONDA_DEFAULT_ENV"@) {
        Some(n) => seq!["conda: "@ + n],
        None => match env_val(m, "CONDA_PREFIX"@) {
            Some(p) => seq!["conda: "@ + basename_of(p)],
            None => Seq::empty(),
        },
    };
    let specific = nix + venv + conda;
    if specific.len() > 0 {
        specific
    } else {
        match env_val(m, "DIRENV_FILE"@) {
            Some(p) => seq!["direnv: "@ + basename_of(p)],
            None => Seq::empty(),
        }
    }
}

fn label(prefix: &str, body: &str) -> (r: String)
    ensures
        r@ == prefix@ + body@,
{
    let mut v: Vec<char> = Vec::new();
    append_chars(&mut v, prefix);
    append_chars(&mut v, body);
    string_of(&v)
}

/// The labels of the development environments `env` shows (see
/// [`env_labels`]).
pub fn detect_env(env: &EnvMap) -> (r: Vec<String>)
    ensures
        r@.map_values(|s: String| s@) == env_labels(env@),
{
    let ghost m = env@;
    let ghost nix: Seq<Seq<char>> = match env_val(m, "IN_NIX_SHELL"@) {
        Some(mode) => seq![
            "dev shell: "@ + mode + match env_val(m, "NIX_SHELL_NAME"@) {
                Some(n) => " ("@ + n + ")"@,
                None => match env_val(m, "name"@) {
                    Some(n) => " ("@ + n + ")"@,
                    None => Seq::empty(),
                },
            },
        ],
        None => Seq::empty(),
    };
    let ghost venv: Seq<Seq<char>> = match env_val(m, "VIRTUAL_ENV"@) {
        Some(p) => seq!["venv: "@ + basename_of(p)],
        None => Seq::empty(),
    };
    let ghost conda_l: Seq<Seq<char>> = match env_val(m, "CONDA_DEFAULT_ENV"@) {
        Some(n) => seq!["conda: "@ + n],
        None => match env_val(m, "CONDA_PREFIX"@) {
            Some(p) => seq!["conda: "@ + basename_of(p)],
            None => Seq::empty(),
        },
    };
    let mut labels: Vec<String> = Vec::new();
    match env_value(env, "IN_NIX_SHELL") {
        Some(mode) => {
            let mut v: Vec<char> = Vec::new();
            append_chars(&mut v, "dev shell: ");
            append_chars(&mut v, mode.as_str());
            let name = match env_value(env, "NIX_SHELL_NAME") {
                Some(n) => Some(n),
                None => env_value(env, "name"),
            };
            let ghost before_name = v@;
            match name {
                Some(n) => {
                    append_chars(&mut v, " (");
                    append_chars(&mut v, n.as_str());
                    append_chars(&mut v, ")");
                    assert(v@ =~= before_name + (" ("@ + n@ + ")"@));
                },
                None => {
                    assert(v@ =~= before_name + Seq::<char>::empty());
                },
            }
            labels.push(string_of(&v));
        },
        None => {},
    }
    assert(labels@.map_values(|s: String| s@) =~= nix);
    let ghost after_nix = labels@;
    match env_value(env, "VIRTUAL_ENV") {
        Some(p) => labels.push(label("venv: ", basename(p.as_str()).as_str())),
        None => {},
    }
    assert(labels@.map_values(|s: String| s@) =~= nix + venv);
    let conda = match env_value(env, "CONDA_DEFAULT_ENV") {
        Some(n) => Some(n),
        None => match env_value(env, "CONDA_PREFIX") {
            Some(p) => Some(basename(p.as_str())),
            None => None,
        },
    };
    match conda {
        Some(n) => labels.push(label("conda: ", n.as_str())),
        None => {},
    }
    assert(labels@.map_values(|s: String| s@) =~= nix + venv + conda_l);
    if labels.len() == 0 {
        match env_value(env, "DIRENV_FILE") {
            Some(p) => labels.push(label("direnv: ", basename(p.as_str()).as_str())),
            None => {},
        }
        assert(labels@.map_values(|s: String| s@) =~= env_labels(m));
    }
    labels
}


/// The configured model identity of a session, and the development
/// environments its activated environment shows.
#[derive(Debug, Clone, PartialEq, Eq)]
pub struct RuntimeInfo {
    /// The provider's name.
    pub provider: String,
    /// The model id sent to the API.
    pub model: String,
    /// Environment labels (see [`detect_env`]); empty when none is active.
    pub env: Vec<String>,
}

/// `m` sets `key` to the non-empty value `v`.
pub open spec fn sets(m: Map<Seq<char>, Option<Seq<char>>>, key: Seq<char>, v: Seq<char>) -> bool {
    m.contains_key(key) && m[key] == Some(v) && v.len() > 0
}

/// `m` leaves `key` unset, or sets it to nothing or to the empty string.
pub open spec fn unset(m: Map<Seq<char>, Option<Seq<char>>>, key: Seq<char>) -> bool {
    !m.contains_key(key) || m[key] is None || m[key] == Some(Seq::<char>::empty())
}

proof fn lemma_set_means_value(m: Map<Seq<char>, Option<Seq<char>>>, key: Seq<char>)
    ensures
        !unset(m, key) ==> env_val(m, key) is Some,
        unset(m, key) ==> env_val(m, key) is None,
{
    if m.contains_key(key) {
        if let Some(v) = m[key] {
            if v.len() == 0 {
                assert(v =~= Seq::<char>::empty());
            }
        }
    }
}

/// Inside a Nix dev shell the first label names the shell's mode and, when
/// `NIX_SHELL_NAME` is set, that name, whatever `name` holds.
pub proof fn law_nix_label_uses_nix_shell_name(m: Map<Seq<char>, Option<Seq<char>>>, mode: Seq<char>, n: Seq<char>)
    requires
        sets(m, "IN_NIX_SHELL"@, mode),
        sets(m, "NIX_SHELL_NAME"@, n),
    ensures
        env_labels(m).len() > 0,
        env_labels(m)[0] == "dev shell: "@ + mode + " ("@ + n + ")"@,
{
}

/// Inside a Nix dev shell without `NIX_SHELL_NAME`, the name comes from
/// `name`, and with neither the label is the mode alone.
pub proof fn law_nix_label_falls_back_to_name(m: Map<Seq<char>, Option<Seq<char>>>, mode: Seq<char>)
    requires
        sets(m, "IN_NIX_SHELL"@, mode),
        unset(m, "NIX_SHELL_NAME"@),
    ensures
        env_labels(m).len() > 0,
        forall|n: Seq<char>| sets(m, "name"@, n) ==> env_labels(m)[0] == "dev shell: "@ + mode + " ("@ + n + ")"@,
        unset(m, "name"@) ==> env_labels(m)[0] == "dev shell: "@ + mode,
{
    assert(Seq::<char>::empty().len() == 0);
    if unset(m, "name"@) {
        assert("dev shell: "@ + mode + Seq::<char>::empty() =~= "dev shell: "@ + mode);
    }
}

/// Outside a Nix shell, an active venv gives the first label, naming the
/// venv directory's last component.
pub proof fn law_venv_label_names_its_directory(m: Map<Seq<char>, Option<Seq<char>>>, p: Seq<char>)
    requires
        unset(m, "IN_NIX_SHELL"@),
        sets(m, "VIRTUAL_ENV"@, p),
    ensures
        env_labels(m).len() > 0,
        env_labels(m)[0] == "venv: "@ + basename_of(p),
{
    assert(Seq::<char>::empty().len() == 0);
}

/// A conda label names the env by `CONDA_DEFAULT_ENV` when set, else by the
/// last component of `CONDA_PREFIX`; it is the last label.
pub proof fn law_conda_label_prefers_the_env_name(m: Map<Seq<char>, Option<Seq<char>>>)
    ensures
        forall|n: Seq<char>|
            sets(m, "CONDA_DEFAULT_ENV"@, n) ==> env_labels(m).len() > 0 && env_labels(m).last() == "conda: "@ + n,
        forall|p: Seq<char>|
            unset(m, "CONDA_DEFAULT_ENV"@) && sets(m, "CONDA_PREFIX"@, p) ==> env_labels(m).len() > 0
                && env_labels(m).last() == "conda: "@ + basename_of(p),
{
    assert(Seq::<char>::empty().len() == 0);
}

/// direnv is reported only when no Nix shell, venv or conda env is active;
/// then it is the one label, naming the `.envrc`'s directory entry.
pub proof fn law_direnv_only_when_nothing_specific(m: Map<Seq<char>, Option<Seq<char>>>, p: Seq<char>)
    requires
        sets(m, "DIRENV_FILE"@, p),
    ensures
        (unset(m, "IN_NIX_SHELL"@) && unset(m, "VIRTUAL_ENV"@) && unset(m, "CONDA_DEFAULT_ENV"@) && unset(
            m,
            "CONDA_PREFIX"@,
        )) ==> env_labels(m) == seq!["direnv: "@ + basename_of(p)],
        !(unset(m, "IN_NIX_SHELL"@) && unset(m, "VIRTUAL_ENV"@) && unset(m, "CONDA_DEFAULT_ENV"@) && unset(
            m,
            "CONDA_PREFIX"@,
        )) ==> env_labels(m) == env_labels(m.remove("DIRENV_FILE"@)),
{
    assert(Seq::<char>::empty().len() == 0);
    reveal_strlit("DIRENV_FILE");
    reveal_strlit("IN_NIX_SHELL");
    reveal_strlit("NIX_SHELL_NAME");
    reveal_strlit("name");
    reveal_strlit("VIRTUAL_ENV");
    reveal_strlit("CONDA_DEFAULT_ENV");
    reveal_strlit("CONDA_PREFIX");
    let d = "DIRENV_FILE"@;
    assert(d[0] != "IN_NIX_SHELL"@[0]);
    assert(d[0] != "NIX_SHELL_NAME"@[0]);
    assert(d[0] != "name"@[0]);
    assert(d[0] != "VIRTUAL_ENV"@[0]);
    assert(d[0] != "CONDA_DEFAULT_ENV"@[0]);
    assert(d[0] != "CONDA_PREFIX"@[0]);
    let r = m.remove(d);
    lemma_set_means_value(m, "IN_NIX_SHELL"@);
    lemma_set_means_value(m, "VIRTUAL_ENV"@);
    lemma_set_means_value(m, "CONDA_DEFAULT_ENV"@);
    lemma_set_means_value(m, "CONDA_PREFIX"@);
    assert(env_val(r, "IN_NIX_SHELL"@) == env_val(m, "IN_NIX_SHELL"@));
    assert(env_val(r, "NIX_SHELL_NAME"@) == env_val(m, "NIX_SHELL_NAME"@));
    assert(env_val(r, "name"@) == env_val(m, "name"@));
    assert(env_val(r, "VIRTUAL_ENV"@) == env_val(m, "VIRTUAL_ENV"@));
    assert(env_val(r, "CONDA_DEFAULT_ENV"@) == env_val(m, "CONDA_DEFAULT_ENV"@));
    assert(env_val(r, "CONDA_PREFIX"@) == env_val(m, "CONDA_PREFIX"@));
}

} // verus!
