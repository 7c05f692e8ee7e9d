//! Per-workspace sandbox configuration, kept on the gateway side (never in
//! the agent-writable project directory): a network override and auxiliary
//! mounts, and how a mount's named anchor resolves to a host directory.

use vstd::prelude::*;

use crate::sandbox::{NetworkPolicy, VolumeMount, unknown_policy_message};
use crate::text::{append_chars, str_eq, string_of};
use crate::workspace::{WorkspaceId, path_id};

verus! {

broadcast use vstd::std_specs::vec::group_vec_axioms;

/// A `[network]` section: a policy name and, for an allowlist, its hosts.
#[derive(Debug, Clone, PartialEq, Eq)]
pub struct NetworkSection {
    pub policy: Option<String>,
    pub allow: Vec<String>,
}

/// One `[[mounts]]` entry: bind a named anchor's host directory into the
/// guest.
#[derive(Debug, Clone, PartialEq, Eq)]
pub struct MountSpec {
    /// `session` (private to a session), `workspace` (shared by the
    /// workspace's sessions) or `gateway` (global).
    pub anchor: String,
    /// A relative subpath under the anchor's root; absent means the root.
    pub path: Option<String>,
    /// The absolute mount point inside the guest.
    pub guest: String,
    /// Read-only; read-write when not configured.
    pub ro: bool,
}

/// A workspace's configuration file.
#[derive(Debug, Clone, PartialEq, Eq)]
pub struct WorkspaceConfig {
    /// The network override; absent falls through to the profile and the
    /// gateway default.
    pub network: Option<NetworkSection>,
    pub mounts: Vec<MountSpec>,
}

impl Default for WorkspaceConfig {
    fn default() -> (r: Self)
        ensures
            r.network is None,
            r.mounts@.len() == 0,
    {
        WorkspaceConfig { network: None, mounts: Vec::new() }
    }
}

impl WorkspaceConfig {
    /// The network policy this configuration imposes: none without a
    /// `[network]` section or without its `policy` key (then the profile and
    /// gateway defaults apply); the named policy otherwise; an unknown name
    /// is an error.
    pub fn network_override(&self) -> (r: Result<Option<NetworkPolicy>, String>)
        ensures
            match self.network {
                None => r == Ok::<Option<NetworkPolicy>, String>(None),
                Some(section) => match section.policy {
                    None => r == Ok::<Option<NetworkPolicy>, String>(None),
                    Some(name) => {
                        &&& name@ == "isolated"@ ==> r == Ok::<Option<NetworkPolicy>, String>(Some(NetworkPolicy::Isolated))
                        &&& name@ == "open"@ ==> r == Ok::<Option<NetworkPolicy>, String>(Some(NetworkPolicy::Open))
                        &&& name@ == "allowlist"@ ==> (r matches Ok(Some(NetworkPolicy::AllowList(hosts))) && hosts@ == section.allow@)
                        &&& name@ != "isolated"@ && name@ != "open"@ && name@ != "allowlist"@ ==> (r matches Err(msg)
                            && msg@ == "invalid workspace network policy: "@ + unknown_policy_message(name@))
                    },
                },
            },
    {
        match &self.network {
            None => Ok(None),
            Some(section) => match &section.policy {
                None => Ok(None),
                Some(name) => match NetworkPolicy::from_policy_name(name.as_str(), section.allow.as_slice()) {
                    Ok(p) => Ok(Some(p)),
                    Err(e) => {
                        let mut msg: Vec<char> = Vec::new();
                        append_chars(&mut msg, "invalid workspace network policy: ");
                        append_chars(&mut msg, e.as_str());
                        Err(string_of(&msg))
                    },
                },
            },
        }
    }
}

// ── Paths ─────────────────────────────────────────────────────────────────

/// `base` joined with the relative path `rel`, as `PathBuf::push` joins
/// them: a separator is added unless `base` is empty or already ends in one.
pub open spec fn path_join(base: Seq<char>, rel: Seq<char>) -> Seq<char> {
    if base.len() == 0 || base.last() == '/' {
        base + rel
    } else {
        base + seq!['/'] + rel
    }
}

/// Whether a (Unix) path is absolute.
pub open spec fn is_absolute(p: Seq<char>) -> bool {
    p.len() > 0 && p[0] == '/'
}

/// Whether a `..` component starts at index `i` of `p`.
pub open spec fn parent_component_at(p: Seq<char>, i: int) -> bool {
    0 <= i && i + 2 <= p.len() && p[i] == '.' && p[i + 1] == '.' && (i == 0 || p[i - 1] == '/') && (i + 2
        == p.len() || p[i + 2] == '/')
}

/// Whether some `/`-separated component of `p` is exactly `..`.
pub open spec fn has_parent_component(p: Seq<char>) -> bool {
    exists|i: int| #[trigger] parent_component_at(p, i)
}

/// `base` joined with the relative path `rel` (see [`path_join`]).
pub fn join_paths(base: &str, rel: &str) -> (r: String)
    ensures
        r@ == path_join(base@, rel@),
{
    join(base, rel)
}

fn join(base: &str, rel: &str) -> (r: String)
    ensures
        r@ == path_join(base@, rel@),
{
    let b = crate::text::chars_of(base);
    let mut v: Vec<char> = crate::text::chars_of(base);
    if b.len() > 0 && b[b.len() - 1] != '/' {
        v.push('/');
    }
    append_chars(&mut v, rel);
    assert(b@ == base@);
    string_of(&v)
}

fn absolute(p: &str) -> (r: bool)
    ensures
        r == is_absolute(p@),
{
    let v = crate::text::chars_of(p);
    v.len() > 0 && v[0] == '/'
}

fn parent_component(p: &str) -> (r: bool)
    ensures
        r == has_parent_component(p@),
{
    let v = crate::text::chars_of(p);
    let n = v.len();
    let mut i: usize = 0;
    while n >= 2 && i <= n - 2
        invariant
            i <= n,
            v@ == p@,
            n == v@.len(),
            forall|k: int| 0 <= k < i ==> !#[trigger] parent_component_at(p@, k),
        decreases n - i,
    {
        if v[i] == '.' && v[i + 1] == '.' && (i == 0 || v[i - 1] == '/') && (i + 2 == n || v[i + 2] == '/') {
            assert(parent_component_at(p@, i as int));
            return true;
        }
        i += 1;
    }
    assert forall|k: int| !#[trigger] parent_component_at(p@, k) by {
        if 0 <= k < i {
        } else if k >= i && parent_component_at(p@, k) {
            assert(k + 2 <= n);
        }
    }
    false
}

// ── Mount anchors ─────────────────────────────────────────────────────────

/// The host root a mount anchor names, under the gateway's `.omini`
/// directory: a session's own work directory, a workspace's shared
/// directory, or the gateway-wide shared directory.
pub open spec fn anchor_root(omini: Seq<char>, anchor: Seq<char>, session_id: Seq<char>, workspace: Seq<char>) -> Option<
    Seq<char>,
> {
    if anchor == "session"@ {
        Some(path_join(path_join(path_join(omini, "sessions"@), session_id), "work"@))
    } else if anchor == "workspace"@ {
        Some(path_join(path_join(path_join(omini, "workspaces"@), path_id(workspace)), "shared"@))
    } else if anchor == "gateway"@ {
        Some(path_join(omini, "shared"@))
    } else {
        None
    }
}

/// How one mount resolves: the anchor's root joined with the subpath (which
/// must be relative and free of `..`), bound at the guest path (which must
/// be absolute); each misdeclaration is an error naming it.
pub open spec fn mount_resolution(
    omini: Seq<char>,
    spec: MountSpec,
    session_id: Seq<char>,
    workspace: Seq<char>,
) -> Result<(Seq<char>, Seq<char>, bool), Seq<char>> {
    match anchor_root(omini, spec.anchor@, session_id, workspace) {
        None => Err(
            "unknown mount anchor `"@ + spec.anchor@ + "`; expected `session`, `workspace`, or `gateway`"@,
        ),
        Some(root) => match spec.path {
            Some(rel) => if is_absolute(rel@) || has_parent_component(rel@) {
                Err("mount path `"@ + rel@ + "` must be a relative subpath without `..`"@)
            } else if !is_absolute(spec.guest@) {
                Err("mount guest path `"@ + spec.guest@ + "` must be absolute"@)
            } else {
                Ok((path_join(root, rel@), spec.guest@, spec.ro))
            },
            None => if !is_absolute(spec.guest@) {
                Err("mount guest path `"@ + spec.guest@ + "` must be absolute"@)
            } else {
                Ok((root, spec.guest@, spec.ro))
            },
        },
    }
}

/// Whether a volume mount is what a resolution produced.
pub open spec fn mount_is(m: VolumeMount, res: Result<(Seq<char>, Seq<char>, bool), Seq<char>>) -> bool {
    match res {
        Ok((host, guest, ro)) => m.host_path@ == host && m.guest_path@ == guest && m.read_only == ro,
        Err(_) => false,
    }
}

/// Resolves `[[mounts]]` entries under the gateway's `.omini` directory.
#[derive(Debug, Clone)]
pub struct MountAnchors {
    pub omini: String,
}

impl MountAnchors {
    /// Resolve one mount for a session in a workspace (see
    /// [`mount_resolution`]); creating the host directory is the caller's.
    pub fn resolve_one(&self, spec: &MountSpec, session_id: &str, workspace: &str) -> (r: Result<VolumeMount, String>)
        ensures
            match mount_resolution(self.omini@, *spec, session_id@, workspace@) {
                Ok((host, guest, ro)) => r matches Ok(m) && m.host_path@ == host && m.guest_path@ == guest
                    && m.read_only == ro,
                Err(msg) => r matches Err(e) && e@ == msg,
            },
    {
        proof {
            reveal_strlit("session");
            reveal_strlit("workspace");
            reveal_strlit("gateway");
        }
        let root = if str_eq(spec.anchor.as_str(), "session") {
            join(join(join(self.omini.as_str(), "sessions").as_str(), session_id).as_str(), "work")
        } else if str_eq(spec.anchor.as_str(), "workspace") {
            let ws = WorkspaceId::from_path(workspace);
            join(join(join(self.omini.as_str(), "workspaces").as_str(), ws.0.as_str()).as_str(), "shared")
        } else if str_eq(spec.anchor.as_str(), "gateway") {
            join(self.omini.as_str(), "shared")
        } else {
            let mut msg: Vec<char> = Vec::new();
            append_chars(&mut msg, "unknown mount anchor `");
            append_chars(&mut msg, spec.anchor.as_str());
            append_chars(&mut msg, "`; expected `session`, `workspace`, or `gateway`");
            return Err(string_of(&msg));
        };
        let host = match &spec.path {
            None => root,
            Some(rel) => {
                if absolute(rel.as_str()) || parent_component(rel.as_str()) {
                    let mut msg: Vec<char> = Vec::new();
                    append_chars(&mut msg, "mount path `");
                    append_chars(&mut msg, rel.as_str());
                    append_chars(&mut msg, "` must be a relative subpath without `..`");
                    return Err(string_of(&msg));
                }
                join(root.as_str(), rel.as_str())
            },
        };
        if !absolute(spec.guest.as_str()) {
            let mut msg: Vec<char> = Vec::new();
            append_chars(&mut msg, "mount guest path `");
            append_chars(&mut msg, spec.guest.as_str());
            append_chars(&mut msg, "` must be absolute");
            return Err(string_of(&msg));
        }
        Ok(VolumeMount { host_path: host, guest_path: spec.guest.clone(), read_only: spec.ro })
    }

    /// Resolve every mount in order; the first misdeclared one fails the
    /// whole set.
    pub fn resolve(&self, specs: &Vec<MountSpec>, session_id: &str, workspace: &str) -> (r: Result<Vec<VolumeMount>, String>)
        ensures
            match r {
                Ok(ms) => ms@.len() == specs@.len() && forall|i: int|
                    0 <= i < specs@.len() ==> mount_is(#[trigger] ms@[i], mount_resolution(self.omini@, specs@[i], session_id@, workspace@)),
                Err(e) => exists|i: int|
                    0 <= i < specs@.len() && (forall|k: int| 0 <= k < i ==> (#[trigger] mount_resolution(self.omini@, specs@[k], session_id@, workspace@)) is Ok)
                        && #[trigger] mount_resolution(self.omini@, specs@[i], session_id@, workspace@) == Err::<(Seq<char>, Seq<char>, bool), Seq<char>>(e@),
            },
    {
        let mut out: Vec<VolumeMount> = Vec::new();
        let mut i: usize = 0;
        while i < specs.len()
            invariant
                i <= specs@.len(),
                out@.len() == i,
                forall|k: int|
                    0 <= k < i ==> mount_is(#[trigger] out@[k], mount_resolution(self.omini@, specs@[k], session_id@, workspace@)),
            decreases specs.len() - i,
        {
            match self.resolve_one(&specs[i], session_id, workspace) {
                Ok(m) => out.push(m),
                Err(e) => {
                    proof {
                        let ii = i as int;
                        assert(mount_resolution(self.omini@, specs@[ii], session_id@, workspace@) == Err::<(Seq<char>, Seq<char>, bool), Seq<char>>(e@));
                        assert forall|k: int| 0 <= k < ii implies (#[trigger] mount_resolution(self.omini@, specs@[k], session_id@, workspace@)) is Ok by {
                            assert(mount_is(out@[k], mount_resolution(self.omini@, specs@[k], session_id@, workspace@)));
                        }
                    }
                    return Err(e);
                },
            }
            i += 1;
        }
        Ok(out)
    }
}

// ── The config store ──────────────────────────────────────────────────────

/// Where per-workspace configuration files live
/// (`<gateway>/.omini/workspaces/`); reading and deleting them is the
/// caller's.
#[derive(Debug, Clone)]
pub struct WorkspaceConfigStore {
    dir: String,
}

impl WorkspaceConfigStore {
    /// The directory this store reads.
    pub closed spec fn directory(&self) -> Seq<char> {
        self.dir@
    }

    pub fn new(dir: String) -> (r: Self)
        ensures
            r.directory() == dir@,
    {
        WorkspaceConfigStore { dir }
    }

    /// The configuration file of workspace `id`: `<dir>/<id>.toml`.
    pub fn path_for_id(&self, id: &WorkspaceId) -> (r: String)
        ensures
            r@ == path_join(self.directory(), id.0@ + ".toml"@),
    {
        let mut name: Vec<char> = Vec::new();
        append_chars(&mut name, id.0.as_str());
        append_chars(&mut name, ".toml");
        join(self.dir.as_str(), string_of(&name).as_str())
    }
}

} // verus!
