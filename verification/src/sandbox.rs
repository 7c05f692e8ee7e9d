//! The sandbox model: what a sandbox can do, its network policy, mounts and
//! exec results, and the decisions made before a backend is asked to act
//! (which backend a choice selects, whether a sandbox can be forked).

use vstd::prelude::*;

use crate::env::EnvMap;
use crate::text::{append_chars, str_eq, string_of};

verus! {

broadcast use vstd::std_specs::vec::group_vec_axioms;

/// What a sandbox backend can do.
#[derive(Debug, Clone, Copy, PartialEq, Eq, Structural)]
pub struct SandboxCapabilities {
    /// The filesystem can be snapshotted (required to fork).
    pub filesystem_snapshot: bool,
    pub live_snapshot: bool,
    pub hot_fork: bool,
    pub refcounted_gc: bool,
}

impl Default for SandboxCapabilities {
    fn default() -> (r: Self)
        ensures
            !r.filesystem_snapshot && !r.live_snapshot && !r.hot_fork && !r.refcounted_gc,
    {
        SandboxCapabilities {
            filesystem_snapshot: false,
            live_snapshot: false,
            hot_fork: false,
            refcounted_gc: false,
        }
    }
}

/// Network egress policy for a sandbox.
#[derive(Debug, Clone, PartialEq, Eq)]
pub enum NetworkPolicy {
    /// No network at all (the default).
    Isolated,
    /// Only these hosts.
    AllowList(Vec<String>),
    /// Unrestricted.
    Open,
}

impl Default for NetworkPolicy {
    fn default() -> (r: Self)
        ensures
            r == NetworkPolicy::Isolated,
    {
        NetworkPolicy::Isolated
    }
}

/// The error text for a policy name that is none of the known ones.
pub open spec fn unknown_policy_message(name: Seq<char>) -> Seq<char> {
    "unknown network policy `"@ + name
        + "`; expected `isolated`, `allowlist`, or `open`"@
}

/// The views of a list of strings.
pub open spec fn texts(v: Seq<String>) -> Seq<Seq<char>> {
    v.map_values(|s: String| s@)
}

impl NetworkPolicy {
    /// The policy a configuration names: `isolated`, `allowlist` (with the
    /// allowed hosts) or `open`; any other name (a typo) is an error rather
    /// than a silent default.
    pub fn from_policy_name(name: &str, allow: &[String]) -> (r: Result<NetworkPolicy, String>)
        ensures
            name@ == "isolated"@ ==> r == Ok::<NetworkPolicy, String>(NetworkPolicy::Isolated),
            name@ == "open"@ ==> r == Ok::<NetworkPolicy, String>(NetworkPolicy::Open),
            name@ == "allowlist"@ ==> (r matches Ok(NetworkPolicy::AllowList(hosts)) && hosts@ == allow@),
            name@ != "isolated"@ && name@ != "open"@ && name@ != "allowlist"@ ==> (r matches Err(
                msg,
            ) && msg@ == unknown_policy_message(name@)),
    {
        proof {
            reveal_strlit("isolated");
            reveal_strlit("allowlist");
            reveal_strlit("open");
            assert("open"@.len() != "isolated"@.len());
            assert("allowlist"@.len() != "isolated"@.len());
            assert("open"@.len() != "allowlist"@.len());
        }
        if str_eq(name, "isolated") {
            Ok(NetworkPolicy::Isolated)
        } else if str_eq(name, "allowlist") {
            let mut hosts: Vec<String> = Vec::new();
            let mut i: usize = 0;
            while i < allow.len()
                invariant
                    i <= allow@.len(),
                    hosts@ == allow@.subrange(0, i as int),
                decreases allow.len() - i,
            {
                hosts.push(allow[i].clone());
                i += 1;
            }
            assert(allow@.subrange(0, allow@.len() as int) =~= allow@);
            Ok(NetworkPolicy::AllowList(hosts))
        } else if str_eq(name, "open") {
            Ok(NetworkPolicy::Open)
        } else {
            let mut msg: Vec<char> = Vec::new();
            append_chars(&mut msg, "unknown network policy `");
            append_chars(&mut msg, name);
            append_chars(&mut msg, "`; expected `isolated`, `allowlist`, or `open`");
            Err(string_of(&msg))
        }
    }
}

/// A host directory bound into the guest.
#[derive(Debug, Clone, PartialEq, Eq)]
pub struct VolumeMount {
    pub host_path: String,
    pub guest_path: String,
    pub read_only: bool,
}

/// Resource limits for a sandbox.
#[derive(Debug, Clone, Copy, PartialEq, Eq)]
pub struct ResourceLimits {
    /// The default command timeout, in milliseconds.
    pub timeout_ms: u64,
    pub memory_mb: Option<u64>,
    pub cpus: Option<u32>,
}

impl Default for ResourceLimits {
    fn default() -> (r: Self)
        ensures
            r.timeout_ms == 120_000,
            r.memory_mb is None,
            r.cpus is None,
    {
        ResourceLimits { timeout_ms: 120_000, memory_mb: None, cpus: None }
    }
}

/// What a sandbox is created with.
#[derive(Debug, Clone)]
pub struct SandboxConfig {
    pub workspace: String,
    pub env: EnvMap,
    pub rootfs: String,
    pub resources: ResourceLimits,
    pub network: NetworkPolicy,
    pub volumes: Vec<VolumeMount>,
}

impl Default for SandboxConfig {
    /// No workspace, no environment overlay, no rootfs, default limits, an
    /// isolated network and no extra mounts.
    fn default() -> (r: Self)
        ensures
            r.workspace@.len() == 0,
            r.env@ == Map::<Seq<char>, Option<Seq<char>>>::empty(),
            r.rootfs@.len() == 0,
            r.resources.timeout_ms == 120_000,
            r.resources.memory_mb is None,
            r.resources.cpus is None,
            r.network == NetworkPolicy::Isolated,
            r.volumes@.len() == 0,
    {
        SandboxConfig {
            workspace: String::new(),
            env: EnvMap::new(),
            rootfs: String::new(),
            resources: ResourceLimits::default(),
            network: NetworkPolicy::Isolated,
            volumes: Vec::new(),
        }
    }
}

/// A snapshot's id.
#[derive(Debug, Clone, PartialEq, Eq, Hash)]
pub struct SnapshotId(pub String);

/// The result of running a command in a sandbox.
#[derive(Debug, Clone, PartialEq, Eq)]
pub struct ExecOutput {
    pub stdout: String,
    pub stderr: String,
    /// `None` when the process was killed by a signal.
    pub exit_code: Option<i32>,
}

impl ExecOutput {
    /// Whether the command exited with status 0.
    pub fn success(&self) -> (r: bool)
        ensures
            r == (self.exit_code == Some(0i32)),
    {
        match self.exit_code {
            Some(c) => c == 0,
            None => false,
        }
    }
}

/// Why a sandbox operation failed.
#[derive(Debug, Clone, PartialEq, Eq)]
pub enum SandboxError {
    /// The backend cannot do this.
    Unsupported(&'static str),
    Exec(String),
    /// The command ran past its timeout (in milliseconds).
    Timeout(u64),
    Snapshot(String),
}

/// Whether a sandbox with these capabilities can be forked: forking needs a
/// filesystem snapshot; otherwise the fork is unsupported.
pub fn fork_support(caps: SandboxCapabilities) -> (r: Result<(), SandboxError>)
    ensures
        r is Ok <==> caps.filesystem_snapshot,
        r is Err ==> (r->Err_0 matches SandboxError::Unsupported(m)
            && m@ == "sandbox fork requires filesystem_snapshot; this backend cannot snapshot"@),
{
    if !caps.filesystem_snapshot {
        return Err(
            SandboxError::Unsupported(
                "sandbox fork requires filesystem_snapshot; this backend cannot snapshot",
            ),
        );
    }
    Ok(())
}

/// Which sandbox backend to build.
#[derive(Debug, Clone, Copy, PartialEq, Eq, Structural)]
pub enum SandboxBackendChoice {
    /// No isolation: commands run on the host (the default).
    Passthrough,
    /// Micro-VM isolation; an error where it is unavailable.
    Boxlite,
    /// Boxlite where available, else passthrough with a warning.
    Auto,
}

impl Default for SandboxBackendChoice {
    fn default() -> (r: Self)
        ensures
            r == SandboxBackendChoice::Passthrough,
    {
        SandboxBackendChoice::Passthrough
    }
}

/// A backend a choice resolved to.
#[derive(Debug, Clone, Copy, PartialEq, Eq, Structural)]
pub enum BackendKind {
    Passthrough,
    Boxlite,
}

/// The error a build without the micro-VM backend reports for it.
pub fn boxlite_unavailable() -> (r: SandboxError)
    ensures
        r matches SandboxError::Unsupported(m)
            && m@ == "boxlite backend not compiled in (rebuild with --features sandbox-boxlite)"@,
{
    SandboxError::Unsupported("boxlite backend not compiled in (rebuild with --features sandbox-boxlite)")
}

/// The debug form of a duration of `ms` milliseconds, as `{:?}` prints a
/// `std::time::Duration`.
pub uninterp spec fn duration_debug_text(ms: u64) -> Seq<char>;

/// Formats `Duration::from_millis(ms)` with `{:?}`; the contract claims only
/// that the result is that text.
#[verifier::external_body]
fn duration_debug(ms: u64) -> (r: String)
    ensures
        r@ == duration_debug_text(ms),
{
    format!("{:?}", std::time::Duration::from_millis(ms))
}

/// The message an error displays.
pub open spec fn error_message(e: SandboxError) -> Seq<char> {
    match e {
        SandboxError::Unsupported(s) => "sandbox operation unsupported: "@ + s@,
        SandboxError::Exec(s) => "sandbox exec error: "@ + s@,
        SandboxError::Timeout(ms) => "sandbox exec timed out after "@ + duration_debug_text(ms),
        SandboxError::Snapshot(s) => "sandbox snapshot error: "@ + s@,
    }
}

impl SandboxError {
    /// The human-readable message for this error.
    pub fn message(&self) -> (r: String)
        ensures
            r@ == error_message(*self),
    {
        let mut msg: Vec<char> = Vec::new();
        match self {
            SandboxError::Unsupported(s) => {
                append_chars(&mut msg, "sandbox operation unsupported: ");
                append_chars(&mut msg, s);
            },
            SandboxError::Exec(s) => {
                append_chars(&mut msg, "sandbox exec error: ");
                append_chars(&mut msg, s.as_str());
            },
            SandboxError::Timeout(ms) => {
                append_chars(&mut msg, "sandbox exec timed out after ");
                append_chars(&mut msg, duration_debug(*ms).as_str());
            },
            SandboxError::Snapshot(s) => {
                append_chars(&mut msg, "sandbox snapshot error: ");
                append_chars(&mut msg, s.as_str());
            },
        }
        string_of(&msg)
    }
}

/// The warning given when `Auto` falls back to passthrough.
pub open spec fn fallback_warning(e: SandboxError) -> Seq<char> {
    "sandbox: boxlite unavailable ("@ + error_message(e) + "); falling back to passthrough (no isolation)"@
}

/// The backend a choice selects, given whether the micro-VM backend could
/// be built (`boxlite`): passthrough is always available; an explicit
/// micro-VM request fails loud with the backend's error where it cannot be
/// built; `Auto` then falls back to passthrough with a warning naming the
/// reason.
pub fn select_backend(choice: SandboxBackendChoice, boxlite: Result<(), SandboxError>) -> (r: Result<
    (BackendKind, Option<String>),
    SandboxError,
>)
    ensures
        choice == SandboxBackendChoice::Passthrough ==> (r matches Ok((k, w)) && k == BackendKind::Passthrough && w is None),
        choice == SandboxBackendChoice::Boxlite ==> match boxlite {
            Ok(()) => r matches Ok((k, w)) && k == BackendKind::Boxlite && w is None,
            Err(e) => r == Err::<(BackendKind, Option<String>), SandboxError>(e),
        },
        choice == SandboxBackendChoice::Auto ==> match boxlite {
            Ok(()) => r matches Ok((k, w)) && k == BackendKind::Boxlite && w is None,
            Err(e) => r matches Ok((k, Some(w))) && k == BackendKind::Passthrough && w@ == fallback_warning(e),
        },
{
    match choice {
        SandboxBackendChoice::Passthrough => Ok((BackendKind::Passthrough, None)),
        SandboxBackendChoice::Boxlite => match boxlite {
            Ok(()) => Ok((BackendKind::Boxlite, None)),
            Err(e) => Err(e),
        },
        SandboxBackendChoice::Auto => match boxlite {
            Ok(()) => Ok((BackendKind::Boxlite, None)),
            Err(e) => {
                let mut msg: Vec<char> = Vec::new();
                append_chars(&mut msg, "sandbox: boxlite unavailable (");
                append_chars(&mut msg, e.message().as_str());
                append_chars(&mut msg, "); falling back to passthrough (no isolation)");
                Ok((BackendKind::Passthrough, Some(string_of(&msg))))
            },
        },
    }
}

} // verus!
