//! Language servers: their configuration (built-ins overlaid by `lsp.toml`
//! layers), routing a file to a server by extension, and rendering the
//! diagnostics a server reports into a compact block for a tool result.

use vstd::prelude::*;

use crate::text::{append_chars, decimal, decimal_string, str_eq, string_of};
use vstd::relations::{sorted_by, total_ordering};

verus! {

broadcast use vstd::std_specs::vec::group_vec_axioms;

// ── Configuration ─────────────────────────────────────────────────────────

/// One language server.
#[derive(Debug, Clone, PartialEq, Eq)]
pub struct LspServerConfig {
    /// Unique name; a same-named server in a higher layer shadows this one.
    pub name: String,
    /// The executable, resolved through `PATH`.
    pub command: String,
    pub args: Vec<String>,
    /// Extra environment variables for the server process.
    pub env: Vec<(String, String)>,
    /// File extensions (without the dot) this server handles.
    pub extensions: Vec<String>,
    /// `false` is a tombstone: it disables a same-named server.
    pub enabled: bool,
    /// How long to wait for diagnostics after a change, in milliseconds.
    pub diag_timeout_ms: u64,
    /// How long to wait for the server to initialize, in milliseconds.
    pub init_timeout_ms: u64,
}

/// The mathematical form of an [`LspServerConfig`].
#[verifier::ext_equal]
pub struct ServerV {
    pub name: Seq<char>,
    pub command: Seq<char>,
    pub args: Seq<Seq<char>>,
    pub env: Seq<(Seq<char>, Seq<char>)>,
    pub extensions: Seq<Seq<char>>,
    pub enabled: bool,
    pub diag_timeout_ms: u64,
    pub init_timeout_ms: u64,
}

impl View for LspServerConfig {
    type V = ServerV;

    open spec fn view(&self) -> ServerV {
        ServerV {
            name: self.name@,
            command: self.command@,
            args: strs(self.args@),
            env: self.env@.map_values(|p: (String, String)| (p.0@, p.1@)),
            extensions: strs(self.extensions@),
            enabled: self.enabled,
            diag_timeout_ms: self.diag_timeout_ms,
            init_timeout_ms: self.init_timeout_ms,
        }
    }
}

/// The views of a list of servers.
pub open spec fn servers_view(s: Seq<LspServerConfig>) -> Seq<ServerV> {
    s.map_values(|c: LspServerConfig| c@)
}

/// The configured language servers, in routing order.
#[derive(Debug, Clone, PartialEq, Eq)]
pub struct LspConfig {
    pub servers: Vec<LspServerConfig>,
}

impl Default for LspConfig {
    fn default() -> (r: Self)
        ensures
            r.servers@.len() == 0,
    {
        LspConfig { servers: Vec::new() }
    }
}

/// The diagnostics wait when not configured: 400 ms.
pub fn default_diag_timeout_ms() -> (r: u64)
    ensures
        r == 400,
{
    400
}

/// Whether a configured server is enabled when not said: yes.
pub fn default_enabled() -> (r: bool)
    ensures
        r,
{
    true
}

/// The initialization wait when not configured: 2 s.
pub fn default_init_timeout_ms() -> (r: u64)
    ensures
        r == 2000,
{
    2_000
}

/// The built-in servers as (name, command, args, extensions), in routing
/// order.
pub open spec fn builtin_table() -> Seq<(Seq<char>, Seq<char>, Seq<Seq<char>>, Seq<Seq<char>>)> {
    seq![
        ("rust-analyzer"@, "rust-analyzer"@, seq![], seq!["rs"@]),
        ("pyright"@, "pyright-langserver"@, seq!["--stdio"@], seq!["py"@, "pyi"@]),
        ("ruff"@, "ruff"@, seq!["server"@], seq!["py"@, "pyi"@]),
        (
            "typescript-language-server"@,
            "typescript-language-server"@,
            seq!["--stdio"@],
            seq!["ts"@, "tsx"@, "mts"@, "cts"@, "js"@, "jsx"@, "mjs"@, "cjs"@],
        ),
        ("svelte"@, "svelteserver"@, seq!["--stdio"@], seq!["svelte"@]),
        ("gopls"@, "gopls"@, seq![], seq!["go"@]),
        ("clangd"@, "clangd"@, seq![], seq!["c"@, "cc"@, "cpp"@, "cxx"@, "h"@, "hh"@, "hpp"@]),
    ]
}

/// The views of a list of strings.
pub open spec fn strs(v: Seq<String>) -> Seq<Seq<char>> {
    v.map_values(|s: String| s@)
}

/// Whether a server is the built-in entry `e`: its fields, no extra
/// environment, enabled, default timeouts.
pub open spec fn is_builtin_entry(s: ServerV, e: (Seq<char>, Seq<char>, Seq<Seq<char>>, Seq<Seq<char>>)) -> bool {
    &&& s.name == e.0
    &&& s.command == e.1
    &&& s.args == e.2
    &&& s.extensions == e.3
    &&& s.env.len() == 0
    &&& s.enabled
    &&& s.diag_timeout_ms == 400
    &&& s.init_timeout_ms == 2000
}

fn strings(items: &[&str]) -> (r: Vec<String>)
    ensures
        strs(r@) == items@.map_values(|s: &str| s@),
{
    let mut out: Vec<String> = Vec::new();
    let mut i: usize = 0;
    while i < items.len()
        invariant
            i <= items@.len(),
            strs(out@) == items@.subrange(0, i as int).map_values(|s: &str| s@),
        decreases items.len() - i,
    {
        let ghost prev = out@;
        let o = crate::text::owned(items[i]);
        out.push(o);
        assert(strs(out@) =~= strs(prev).push(items@[i as int]@));
        assert(items@.subrange(0, i + 1).map_values(|s: &str| s@) =~= items@.subrange(0, i as int).map_values(
            |s: &str| s@,
        ).push(items@[i as int]@));
        i += 1;
    }
    assert(items@.subrange(0, items@.len() as int) =~= items@);
    out
}

fn entry(name: &str, command: &str, args: &[&str], extensions: &[&str]) -> (r: LspServerConfig)
    ensures
        r.name@ == name@,
        r.command@ == command@,
        strs(r.args@) == args@.map_values(|s: &str| s@),
        strs(r.extensions@) == extensions@.map_values(|s: &str| s@),
        r.env@.len() == 0,
        r.enabled,
        r.diag_timeout_ms == 400,
        r.init_timeout_ms == 2000,
{
    LspServerConfig {
        name: crate::text::owned(name),
        command: crate::text::owned(command),
        args: strings(args),
        env: Vec::new(),
        extensions: strings(extensions),
        enabled: default_enabled(),
        diag_timeout_ms: default_diag_timeout_ms(),
        init_timeout_ms: default_init_timeout_ms(),
    }
}

/// The built-in servers, the lowest configuration layer, in routing order
/// (see [`builtin_table`]): all enabled, with the default timeouts.
pub fn builtin_servers() -> (r: Vec<LspServerConfig>)
    ensures
        r@.len() == builtin_table().len(),
        forall|i: int| 0 <= i < r@.len() ==> is_builtin_entry((#[trigger] r@[i])@, builtin_table()[i]),
{
    let mut v: Vec<LspServerConfig> = Vec::new();
    v.push(entry("rust-analyzer", "rust-analyzer", &[], &["rs"]));
    v.push(entry("pyright", "pyright-langserver", &["--stdio"], &["py", "pyi"]));
    v.push(entry("ruff", "ruff", &["server"], &["py", "pyi"]));
    v.push(
        entry(
            "typescript-language-server",
            "typescript-language-server",
            &["--stdio"],
            &["ts", "tsx", "mts", "cts", "js", "jsx", "mjs", "cjs"],
        ),
    );
    v.push(entry("svelte", "svelteserver", &["--stdio"], &["svelte"]));
    v.push(entry("gopls", "gopls", &[], &["go"]));
    v.push(entry("clangd", "clangd", &[], &["c", "cc", "cpp", "cxx", "h", "hh", "hpp"]));
    proof {
        assert forall|i: int| 0 <= i < v@.len() implies is_builtin_entry((#[trigger] v@[i])@, builtin_table()[i]) by {
            assert(strs(v@[i].args@) =~= builtin_table()[i].2);
            assert(strs(v@[i].extensions@) =~= builtin_table()[i].3);
        }
    }
    v
}

/// Whether some server in `acc` has this name.
pub open spec fn has_server_named(acc: Seq<ServerV>, name: Seq<char>) -> bool {
    exists|i: int| 0 <= i < acc.len() && (#[trigger] acc[i]).name == name
}

/// The first `n` servers with every later duplicate of a name dropped.
pub open spec fn first_server_by_name(servers: Seq<ServerV>, n: int) -> Seq<ServerV>
    decreases n,
{
    if n <= 0 || n > servers.len() {
        Seq::empty()
    } else {
        let acc = first_server_by_name(servers, n - 1);
        if has_server_named(acc, servers[n - 1].name) {
            acc
        } else {
            acc.push(servers[n - 1])
        }
    }
}

/// All servers of the first `n` layers, in order.
pub open spec fn layer_servers(layers: Seq<LspConfig>, n: int) -> Seq<ServerV>
    decreases n,
{
    if n <= 0 || n > layers.len() {
        Seq::empty()
    } else {
        layer_servers(layers, n - 1) + servers_view(layers[n - 1].servers@)
    }
}

/// The index of the first server named `name`, or -1.
pub open spec fn server_index(s: Seq<ServerV>, name: Seq<char>, i: int) -> int
    decreases s.len() - i,
{
    if i < 0 || i >= s.len() {
        -1
    } else if s[i].name == name {
        i
    } else {
        server_index(s, name, i + 1)
    }
}

/// One user server overlaid on the base: it replaces the first same-named
/// server (a tombstone included), or is appended.
pub open spec fn overlay_one(base: Seq<ServerV>, s: ServerV) -> Seq<ServerV> {
    let k = server_index(base, s.name, 0);
    if k >= 0 {
        base.update(k, s)
    } else {
        base.push(s)
    }
}

/// The first `n` user servers overlaid on the base, in order.
pub open spec fn overlay_all(base: Seq<ServerV>, user: Seq<ServerV>, n: int) -> Seq<ServerV>
    decreases n,
{
    if n <= 0 || n > user.len() {
        base
    } else {
        overlay_one(overlay_all(base, user, n - 1), user[n - 1])
    }
}

/// The enabled servers among the first `n`, in order (tombstones dropped).
pub open spec fn enabled_only(s: Seq<ServerV>, n: int) -> Seq<ServerV>
    decreases n,
{
    if n <= 0 || n > s.len() {
        Seq::empty()
    } else if s[n - 1].enabled {
        enabled_only(s, n - 1).push(s[n - 1])
    } else {
        enabled_only(s, n - 1)
    }
}

/// The effective servers for `lsp.toml` layers (highest priority first)
/// over the built-ins: within the layers the first same-named server wins;
/// each survivor then replaces a same-named server of the base or is
/// appended; finally disabled entries are dropped.
pub open spec fn effective_servers(base: Seq<ServerV>, layers: Seq<LspConfig>) -> Seq<ServerV> {
    let all = layer_servers(layers, layers.len() as int);
    let user = first_server_by_name(all, all.len() as int);
    let over = overlay_all(base, user, user.len() as int);
    enabled_only(over, over.len() as int)
}

/// The built-in servers' views.
pub open spec fn builtin_views() -> Seq<ServerV> {
    Seq::new(
        builtin_table().len(),
        |i: int|
            ServerV {
                name: builtin_table()[i].0,
                command: builtin_table()[i].1,
                args: builtin_table()[i].2,
                env: Seq::empty(),
                extensions: builtin_table()[i].3,
                enabled: true,
                diag_timeout_ms: 400,
                init_timeout_ms: 2000,
            },
    )
}

fn duplicate_server(s: &LspServerConfig) -> (r: LspServerConfig)
    ensures
        r@ == s@,
{
    let mut args: Vec<String> = Vec::new();
    let mut i: usize = 0;
    while i < s.args.len()
        invariant
            i <= s.args@.len(),
            args@ == s.args@.subrange(0, i as int),
        decreases s.args.len() - i,
    {
        args.push(s.args[i].clone());
        i += 1;
    }
    let mut env: Vec<(String, String)> = Vec::new();
    let mut j: usize = 0;
    while j < s.env.len()
        invariant
            j <= s.env@.len(),
            env@ == s.env@.subrange(0, j as int),
        decreases s.env.len() - j,
    {
        env.push((s.env[j].0.clone(), s.env[j].1.clone()));
        j += 1;
    }
    let mut ext: Vec<String> = Vec::new();
    let mut k: usize = 0;
    while k < s.extensions.len()
        invariant
            k <= s.extensions@.len(),
            ext@ == s.extensions@.subrange(0, k as int),
        decreases s.extensions.len() - k,
    {
        ext.push(s.extensions[k].clone());
        k += 1;
    }
    assert(args@ =~= s.args@);
    assert(env@ =~= s.env@);
    assert(ext@ =~= s.extensions@);
    let r = LspServerConfig {
        name: s.name.clone(),
        command: s.command.clone(),
        args,
        env,
        extensions: ext,
        enabled: s.enabled,
        diag_timeout_ms: s.diag_timeout_ms,
        init_timeout_ms: s.init_timeout_ms,
    };
    assert(r@.env =~= s@.env);
    r
}

fn find_server(s: &Vec<LspServerConfig>, name: &str) -> (r: Option<usize>)
    ensures
        match r {
            Some(k) => k as int == server_index(servers_view(s@), name@, 0) && k < s@.len(),
            None => server_index(servers_view(s@), name@, 0) == -1,
        },
{
    let mut i: usize = 0;
    while i < s.len()
        invariant
            i <= s@.len(),
            server_index(servers_view(s@), name@, 0) == server_index(servers_view(s@), name@, i as int),
        decreases s.len() - i,
    {
        if str_eq(s[i].name.as_str(), name) {
            return Some(i);
        }
        i += 1;
    }
    None
}

impl LspConfig {
    /// The effective configuration for `lsp.toml` layers, highest priority
    /// first, over the built-in servers (see [`effective_servers`]). Reading
    /// and parsing the files is the caller's.
    pub fn merged(layers: &Vec<LspConfig>) -> (r: LspConfig)
        ensures
            servers_view(r.servers@) == effective_servers(builtin_views(), layers@),
    {
        let mut all: Vec<LspServerConfig> = Vec::new();
        let mut i: usize = 0;
        while i < layers.len()
            invariant
                i <= layers@.len(),
                servers_view(all@) == layer_servers(layers@, i as int),
            decreases layers.len() - i,
        {
            let servers = &layers[i].servers;
            let ghost before = servers_view(all@);
            let mut j: usize = 0;
            while j < servers.len()
                invariant
                    j <= servers@.len(),
                    servers_view(all@) == before + servers_view(servers@.subrange(0, j as int)),
                decreases servers.len() - j,
            {
                let ghost prev = all@;
                all.push(duplicate_server(&servers[j]));
                assert(servers_view(all@) =~= servers_view(prev).push(servers@[j as int]@));
                assert(servers_view(servers@.subrange(0, j + 1)) =~= servers_view(servers@.subrange(0, j as int)).push(
                    servers@[j as int]@,
                ));
                j += 1;
            }
            assert(servers@.subrange(0, servers@.len() as int) =~= servers@);
            i += 1;
        }
        let ghost all_v = servers_view(all@);
        let mut user: Vec<LspServerConfig> = Vec::new();
        let mut k: usize = 0;
        while k < all.len()
            invariant
                k <= all@.len(),
                all_v == servers_view(all@),
                servers_view(user@) == first_server_by_name(all_v, k as int),
            decreases all.len() - k,
        {
            let mut seen = false;
            let mut m: usize = 0;
            while m < user.len()
                invariant
                    m <= user@.len(),
                    k < all@.len(),
                    seen == exists|x: int| 0 <= x < m && (#[trigger] user@[x]).name@ == all@[k as int].name@,
                decreases user.len() - m,
            {
                if str_eq(user[m].name.as_str(), all[k].name.as_str()) {
                    seen = true;
                }
                m += 1;
            }
            let ghost prev = user@;
            proof {
                let acc = first_server_by_name(all_v, k as int);
                if seen {
                    let x = choose|x: int| 0 <= x < user@.len() && (#[trigger] user@[x]).name@ == all@[k as int].name@;
                    assert(acc[x].name == all_v[k as int].name);
                } else {
                    assert forall|x: int| 0 <= x < acc.len() implies (#[trigger] acc[x]).name != all_v[k as int].name by {
                        assert(acc[x] == user@[x]@);
                    }
                }
            }
            if !seen {
                user.push(duplicate_server(&all[k]));
                assert(servers_view(user@) =~= servers_view(prev).push(all_v[k as int]));
            }
            k += 1;
        }
        let ghost user_v = servers_view(user@);
        let base = builtin_servers();
        proof {
            assert(servers_view(base@) =~= builtin_views()) by {
                assert forall|x: int| 0 <= x < base@.len() implies #[trigger] servers_view(base@)[x] == builtin_views()[x] by {
                    assert(is_builtin_entry(base@[x]@, builtin_table()[x]));
                    assert(servers_view(base@)[x] =~= builtin_views()[x]);
                }
            }
        }
        let mut result = base;
        let mut u: usize = 0;
        while u < user.len()
            invariant
                u <= user@.len(),
                user_v == servers_view(user@),
                servers_view(result@) == overlay_all(builtin_views(), user_v, u as int),
            decreases user.len() - u,
        {
            let ghost prev = result@;
            match find_server(&result, user[u].name.as_str()) {
                Some(pos) => {
                    result.set(pos, duplicate_server(&user[u]));
                    assert(servers_view(result@) =~= servers_view(prev).update(pos as int, user_v[u as int]));
                },
                None => {
                    result.push(duplicate_server(&user[u]));
                    assert(servers_view(result@) =~= servers_view(prev).push(user_v[u as int]));
                },
            }
            u += 1;
        }
        let ghost over = servers_view(result@);
        let mut kept: Vec<LspServerConfig> = Vec::new();
        let mut w: usize = 0;
        while w < result.len()
            invariant
                w <= result@.len(),
                over == servers_view(result@),
                servers_view(kept@) == enabled_only(over, w as int),
            decreases result.len() - w,
        {
            let ghost prev = kept@;
            if result[w].enabled {
                kept.push(duplicate_server(&result[w]));
                assert(servers_view(kept@) =~= servers_view(prev).push(over[w as int]));
            }
            w += 1;
        }
        LspConfig { servers: kept }
    }
}

// ── Routing ───────────────────────────────────────────────────────────────

/// The extension of a path as `std::path::Path::extension` gives it.
pub uninterp spec fn extension_of(path: Seq<char>) -> Option<Seq<char>>;

/// Calls `std::path::Path::extension`; the contract claims only that the
/// result is that extension of exactly this path.
#[verifier::external_body]
fn path_extension(path: &str) -> (r: Option<String>)
    ensures
        crate::permission::opt_view(r) == extension_of(path@),
{
    std::path::Path::new(path).extension().and_then(|e| e.to_str()).map(|e| e.to_owned())
}

/// Whether a server claims an extension.
pub open spec fn claims(s: LspServerConfig, ext: Seq<char>) -> bool {
    exists|i: int| 0 <= i < s.extensions@.len() && (#[trigger] s.extensions@[i])@ == ext
}

/// The first server (from `i`) that claims `ext`, or -1.
pub open spec fn first_claiming(s: Seq<LspServerConfig>, ext: Seq<char>, i: int) -> int
    decreases s.len() - i,
{
    if i < 0 || i >= s.len() {
        -1
    } else if claims(s[i], ext) {
        i
    } else {
        first_claiming(s, ext, i + 1)
    }
}

fn server_claims(s: &LspServerConfig, ext: &str) -> (r: bool)
    ensures
        r == claims(*s, ext@),
{
    let mut i: usize = 0;
    while i < s.extensions.len()
        invariant
            i <= s.extensions@.len(),
            forall|k: int| 0 <= k < i ==> (#[trigger] s.extensions@[k])@ != ext@,
        decreases s.extensions.len() - i,
    {
        if str_eq(s.extensions[i].as_str(), ext) {
            return true;
        }
        i += 1;
    }
    false
}

impl LspConfig {
    /// The server a file routes to: the first one claiming the file's
    /// extension; none for a file without an extension or one no server
    /// claims.
    pub fn server_for(&self, path: &str) -> (r: Option<usize>)
        ensures
            match extension_of(path@) {
                None => r is None,
                Some(ext) => match r {
                    Some(k) => k as int == first_claiming(self.servers@, ext, 0),
                    None => first_claiming(self.servers@, ext, 0) == -1,
                },
            },
    {
        let ext = match path_extension(path) {
            Some(e) => e,
            None => return None,
        };
        let mut i: usize = 0;
        while i < self.servers.len()
            invariant
                i <= self.servers@.len(),
                extension_of(path@) == Some(ext@),
                first_claiming(self.servers@, ext@, 0) == first_claiming(self.servers@, ext@, i as int),
            decreases self.servers.len() - i,
        {
            if server_claims(&self.servers[i], ext.as_str()) {
                assert(claims(self.servers@[i as int], ext@));
                assert(first_claiming(self.servers@, ext@, i as int) == i);
                return Some(i);
            }
            i += 1;
        }
        None
    }
}

/// The LSP language id for a file extension: the canonical id for the
/// well-known mismatches, the extension itself otherwise.
pub open spec fn language_id(ext: Seq<char>) -> Seq<char> {
    if ext == "rs"@ {
        "rust"@
    } else if ext == "py"@ || ext == "pyi"@ {
        "python"@
    } else if ext == "js"@ || ext == "mjs"@ || ext == "cjs"@ || ext == "jsx"@ {
        "javascript"@
    } else if ext == "ts"@ || ext == "mts"@ || ext == "cts"@ {
        "typescript"@
    } else if ext == "tsx"@ {
        "typescriptreact"@
    } else if ext == "c"@ || ext == "h"@ {
        "c"@
    } else if ext == "cc"@ || ext == "cpp"@ || ext == "cxx"@ || ext == "hh"@ || ext == "hpp"@ {
        "cpp"@
    } else if ext == "rb"@ {
        "ruby"@
    } else if ext == "php"@ {
        "php"@
    } else {
        ext
    }
}

/// The LSP language id for a file extension (see [`language_id`]).
pub fn language_id_for(ext: &str) -> (r: String)
    ensures
        r@ == language_id(ext@),
{
    let e = |s: &str| -> (b: bool)
        ensures
            b == (ext@ == s@),
        { str_eq(ext, s) };
    let id: &str = if e("rs") {
        "rust"
    } else if e("py") || e("pyi") {
        "python"
    } else if e("js") || e("mjs") || e("cjs") || e("jsx") {
        "javascript"
    } else if e("ts") || e("mts") || e("cts") {
        "typescript"
    } else if e("tsx") {
        "typescriptreact"
    } else if e("c") || e("h") {
        "c"
    } else if e("cc") || e("cpp") || e("cxx") || e("hh") || e("hpp") {
        "cpp"
    } else if e("rb") {
        "ruby"
    } else if e("php") {
        "php"
    } else {
        ext
    };
    crate::text::owned(id)
}


/// The extensions whose LSP language id differs from the extension (or is
/// fixed by name), each with its id. TSX files get the React flavour of
/// TypeScript, kept apart from plain TypeScript.
pub open spec fn language_table() -> Seq<(Seq<char>, Seq<char>)> {
    seq![
        ("rs"@, "rust"@),
        ("py"@, "python"@),
        ("pyi"@, "python"@),
        ("js"@, "javascript"@),
        ("mjs"@, "javascript"@),
        ("cjs"@, "javascript"@),
        ("jsx"@, "javascript"@),
        ("ts"@, "typescript"@),
        ("mts"@, "typescript"@),
        ("cts"@, "typescript"@),
        ("tsx"@, "typescriptreact"@),
        ("c"@, "c"@),
        ("h"@, "c"@),
        ("cc"@, "cpp"@),
        ("cpp"@, "cpp"@),
        ("cxx"@, "cpp"@),
        ("hh"@, "cpp"@),
        ("hpp"@, "cpp"@),
        ("rb"@, "ruby"@),
        ("php"@, "php"@),
    ]
}

/// Every listed extension gets its listed language id, and every other
/// extension is its own id.
pub proof fn law_language_ids_follow_the_table(ext: Seq<char>)
    ensures
        forall|i: int| 0 <= i < language_table().len() ==> language_id(#[trigger] language_table()[i].0) == language_table()[i].1,
        (forall|i: int| 0 <= i < language_table().len() ==> #[trigger] language_table()[i].0 != ext) ==> language_id(ext) == ext,
{
    reveal_strlit("c");
    reveal_strlit("cc");
    reveal_strlit("cjs");
    reveal_strlit("cpp");
    reveal_strlit("cts");
    reveal_strlit("cxx");
    reveal_strlit("h");
    reveal_strlit("hh");
    reveal_strlit("hpp");
    reveal_strlit("javascript");
    reveal_strlit("js");
    reveal_strlit("jsx");
    reveal_strlit("mjs");
    reveal_strlit("mts");
    reveal_strlit("php");
    reveal_strlit("py");
    reveal_strlit("pyi");
    reveal_strlit("python");
    reveal_strlit("rb");
    reveal_strlit("rs");
    reveal_strlit("ruby");
    reveal_strlit("rust");
    reveal_strlit("ts");
    reveal_strlit("tsx");
    reveal_strlit("typescript");
    reveal_strlit("typescriptreact");
    assert("rs"@[0] == 'r');
    assert("rs"@[1] == 's');
    assert("py"@[0] == 'p');
    assert("py"@[1] == 'y');
    assert("pyi"@[0] == 'p');
    assert("pyi"@[1] == 'y');
    assert("js"@[0] == 'j');
    assert("js"@[1] == 's');
    assert("mjs"@[0] == 'm');
    assert("mjs"@[1] == 'j');
    assert("cjs"@[0] == 'c');
    assert("cjs"@[1] == 'j');
    assert("jsx"@[0] == 'j');
    assert("jsx"@[1] == 's');
    assert("ts"@[0] == 't');
    assert("ts"@[1] == 's');
    assert("mts"@[0] == 'm');
    assert("mts"@[1] == 't');
    assert("cts"@[0] == 'c');
    assert("cts"@[1] == 't');
    assert("tsx"@[0] == 't');
    assert("tsx"@[1] == 's');
    assert("c"@[0] == 'c');
    assert("h"@[0] == 'h');
    assert("cc"@[0] == 'c');
    assert("cc"@[1] == 'c');
    assert("cpp"@[0] == 'c');
    assert("cpp"@[1] == 'p');
    assert("cxx"@[0] == 'c');
    assert("cxx"@[1] == 'x');
    assert("hh"@[0] == 'h');
    assert("hh"@[1] == 'h');
    assert("hpp"@[0] == 'h');
    assert("hpp"@[1] == 'p');
    assert("rb"@[0] == 'r');
    assert("rb"@[1] == 'b');
    assert("php"@[0] == 'p');
    assert("php"@[1] == 'h');
    assert("rs"@.len() == 2);
    assert("py"@.len() == 2);
    assert("pyi"@.len() == 3);
    assert("pyi"@[2] == 'i');
    assert("js"@.len() == 2);
    assert("mjs"@.len() == 3);
    assert("mjs"@[2] == 's');
    assert("cjs"@.len() == 3);
    assert("cjs"@[2] == 's');
    assert("jsx"@.len() == 3);
    assert("jsx"@[2] == 'x');
    assert("ts"@.len() == 2);
    assert("mts"@.len() == 3);
    assert("mts"@[2] == 's');
    assert("cts"@.len() == 3);
    assert("cts"@[2] == 's');
    assert("tsx"@.len() == 3);
    assert("tsx"@[2] == 'x');
    assert("c"@.len() == 1);
    assert("h"@.len() == 1);
    assert("cc"@.len() == 2);
    assert("cpp"@.len() == 3);
    assert("cpp"@[2] == 'p');
    assert("cxx"@.len() == 3);
    assert("cxx"@[2] == 'x');
    assert("hh"@.len() == 2);
    assert("hpp"@.len() == 3);
    assert("hpp"@[2] == 'p');
    assert("rb"@.len() == 2);
    assert("php"@.len() == 3);
    assert("php"@[2] == 'p');
    let t = language_table();
    assert(language_id(t[0].0) == t[0].1);
    assert(language_id(t[1].0) == t[1].1);
    assert(language_id(t[2].0) == t[2].1);
    assert(language_id(t[3].0) == t[3].1);
    assert(language_id(t[4].0) == t[4].1);
    assert(language_id(t[5].0) == t[5].1);
    assert(language_id(t[6].0) == t[6].1);
    assert(language_id(t[7].0) == t[7].1);
    assert(language_id(t[8].0) == t[8].1);
    assert(language_id(t[9].0) == t[9].1);
    assert(language_id(t[10].0) == t[10].1);
    assert(language_id(t[11].0) == t[11].1);
    assert(language_id(t[12].0) == t[12].1);
    assert(language_id(t[13].0) == t[13].1);
    assert(language_id(t[14].0) == t[14].1);
    assert(language_id(t[15].0) == t[15].1);
    assert(language_id(t[16].0) == t[16].1);
    assert(language_id(t[17].0) == t[17].1);
    assert(language_id(t[18].0) == t[18].1);
    assert(language_id(t[19].0) == t[19].1);
    if forall|i: int| 0 <= i < t.len() ==> #[trigger] t[i].0 != ext {
        assert(t[0].0 != ext);
        assert(t[1].0 != ext);
        assert(t[2].0 != ext);
        assert(t[3].0 != ext);
        assert(t[4].0 != ext);
        assert(t[5].0 != ext);
        assert(t[6].0 != ext);
        assert(t[7].0 != ext);
        assert(t[8].0 != ext);
        assert(t[9].0 != ext);
        assert(t[10].0 != ext);
        assert(t[11].0 != ext);
        assert(t[12].0 != ext);
        assert(t[13].0 != ext);
        assert(t[14].0 != ext);
        assert(t[15].0 != ext);
        assert(t[16].0 != ext);
        assert(t[17].0 != ext);
        assert(t[18].0 != ext);
        assert(t[19].0 != ext);
    }
}

/// A TSX file's language id is the React flavour of TypeScript, never the id
/// of a plain TypeScript file.
pub proof fn law_tsx_is_typescriptreact(ts_ext: Seq<char>)
    requires
        ts_ext == "ts"@ || ts_ext == "mts"@ || ts_ext == "cts"@,
    ensures
        language_id("tsx"@) == "typescriptreact"@,
        language_id("tsx"@) != language_id(ts_ext),
{
    reveal_strlit("tsx");
    reveal_strlit("ts");
    reveal_strlit("mts");
    reveal_strlit("cts");
    reveal_strlit("typescript");
    reveal_strlit("typescriptreact");
    law_language_ids_follow_the_table("tsx"@);
    let t = language_table();
    assert(t[7].0 == "ts"@ && t[8].0 == "mts"@ && t[9].0 == "cts"@ && t[10].0 == "tsx"@);
    assert(language_id(t[7].0) == t[7].1);
    assert(language_id(t[8].0) == t[8].1);
    assert(language_id(t[9].0) == t[9].1);
    assert(language_id(t[10].0) == t[10].1);
    assert("typescript"@.len() != "typescriptreact"@.len());
}

/// The built-in servers have distinct names, each claims at least one
/// extension, and Python is claimed by two of them (a language server and a
/// linter).
pub proof fn law_builtins_are_well_formed()
    ensures
        forall|i: int, j: int|
            0 <= i < j < builtin_table().len() ==> (#[trigger] builtin_table()[i]).0 != (#[trigger] builtin_table()[j]).0,
        forall|i: int| 0 <= i < builtin_table().len() ==> (#[trigger] builtin_table()[i]).3.len() > 0,
        builtin_table()[1].3.contains("py"@) && builtin_table()[2].3.contains("py"@),
{
    reveal_strlit("rust-analyzer");
    reveal_strlit("pyright");
    reveal_strlit("ruff");
    reveal_strlit("typescript-language-server");
    reveal_strlit("svelte");
    reveal_strlit("gopls");
    reveal_strlit("clangd");
    let t = builtin_table();
    assert(t[1].3[0] == "py"@);
    assert(t[2].3[0] == "py"@);
    assert forall|i: int, j: int| 0 <= i < j < t.len() implies (#[trigger] t[i]).0 != (#[trigger] t[j]).0 by {
        assert(t[i].0.len() != t[j].0.len() || t[i].0[0] != t[j].0[0] || t[i].0[1] != t[j].0[1]);
    }
}

/// Every server of the effective configuration is enabled: a disabled
/// entry (a tombstone over a built-in, or a user server switched off) never
/// survives the merge.
pub proof fn law_effective_servers_are_enabled(base: Seq<ServerV>, layers: Seq<LspConfig>)
    ensures
        forall|i: int|
            0 <= i < effective_servers(base, layers).len() ==> (#[trigger] effective_servers(base, layers)[i]).enabled,
{
    let all = layer_servers(layers, layers.len() as int);
    let user = first_server_by_name(all, all.len() as int);
    let over = overlay_all(base, user, user.len() as int);
    lemma_enabled_only(over, over.len() as int);
}

proof fn lemma_enabled_only(s: Seq<ServerV>, n: int)
    ensures
        forall|i: int| 0 <= i < enabled_only(s, n).len() ==> (#[trigger] enabled_only(s, n)[i]).enabled,
    decreases n,
{
    if n > 0 && n <= s.len() {
        lemma_enabled_only(s, n - 1);
        let prev = enabled_only(s, n - 1);
        if s[n - 1].enabled {
            assert forall|i: int| 0 <= i < prev.push(s[n - 1]).len() implies (#[trigger] prev.push(
                s[n - 1],
            )[i]).enabled by {
                if i < prev.len() {
                    assert(prev.push(s[n - 1])[i] == prev[i]);
                }
            }
        }
    }
}

// ── Diagnostics ───────────────────────────────────────────────────────────

/// A position in a document (0-based line and character).
#[derive(Debug, Clone, Copy, PartialEq, Eq, Structural)]
pub struct Position {
    pub line: u32,
    pub character: u32,
}

/// A range in a document.
#[derive(Debug, Clone, Copy, PartialEq, Eq, Structural)]
pub struct Range {
    pub start: Position,
    pub end: Position,
}

/// How severe a diagnostic is.
#[derive(Debug, Clone, Copy, PartialEq, Eq, Structural)]
pub enum DiagnosticSeverity {
    Error,
    Warning,
    Information,
    Hint,
}

/// A severity's label in rendered output.
pub open spec fn severity_label(s: Option<DiagnosticSeverity>) -> Seq<char> {
    match s {
        Some(DiagnosticSeverity::Error) => "error"@,
        Some(DiagnosticSeverity::Warning) => "warning"@,
        Some(DiagnosticSeverity::Information) => "info"@,
        Some(DiagnosticSeverity::Hint) => "hint"@,
        None => "diagnostic"@,
    }
}

impl DiagnosticSeverity {
    /// The label rendered for this severity.
    pub fn label(self) -> (r: &'static str)
        ensures
            r@ == severity_label(Some(self)),
    {
        match self {
            DiagnosticSeverity::Error => "error",
            DiagnosticSeverity::Warning => "warning",
            DiagnosticSeverity::Information => "info",
            DiagnosticSeverity::Hint => "hint",
        }
    }
}

/// One diagnostic a server published.
#[derive(Debug, Clone, PartialEq, Eq)]
pub struct Diagnostic {
    pub range: Range,
    pub severity: Option<DiagnosticSeverity>,
    pub message: String,
}

/// How many diagnostics are rendered in full.
pub const RENDER_CAP: usize = 20;

/// A message on one line: each newline becomes a space.
pub open spec fn one_line(m: Seq<char>) -> Seq<char> {
    m.map_values(|c: char| if c == '\n' { ' ' } else { c })
}

/// The rendered line of one diagnostic: 1-based line and column, severity,
/// message on one line.
pub open spec fn detail_line(d: Diagnostic) -> Seq<char> {
    "\n  "@ + decimal(d.range.start.line as nat + 1) + ":"@ + decimal(d.range.start.character as nat + 1) + " "@
        + severity_label(d.severity) + ": "@ + one_line(d.message@)
}

/// The detail lines of the first `n` diagnostics.
pub open spec fn detail_lines(ds: Seq<Diagnostic>, n: int) -> Seq<char>
    decreases n,
{
    if n <= 0 || n > ds.len() {
        Seq::empty()
    } else {
        detail_lines(ds, n - 1) + detail_line(ds[n - 1])
    }
}

/// A run of consecutive lines: one number, or `lo-hi`.
pub open spec fn span_text(lo: int, hi: int) -> Seq<char> {
    if lo == hi {
        decimal(lo as nat)
    } else {
        decimal(lo as nat) + "-"@ + decimal(hi as nat)
    }
}

/// The runs of consecutive numbers in `lines` from index `i`, the current
/// run being `start..=prev`.
pub open spec fn runs(lines: Seq<int>, i: int, start: int, prev: int) -> Seq<Seq<char>>
    decreases lines.len() - i,
{
    if i < 0 || i >= lines.len() {
        seq![span_text(start, prev)]
    } else if lines[i] == prev + 1 {
        runs(lines, i + 1, start, lines[i])
    } else {
        seq![span_text(start, prev)] + runs(lines, i + 1, lines[i], lines[i])
    }
}

/// Texts joined with `, `.
pub open spec fn join_comma(parts: Seq<Seq<char>>) -> Seq<char>
    decreases parts.len(),
{
    if parts.len() == 0 {
        Seq::empty()
    } else if parts.len() == 1 {
        parts[0]
    } else {
        join_comma(parts.drop_last()) + ", "@ + parts.last()
    }
}

/// A sorted list of line numbers as comma-separated runs, such as
/// `3, 5-7, 10`.
pub open spec fn line_spans_text(lines: Seq<int>) -> Seq<char> {
    if lines.len() == 0 {
        Seq::empty()
    } else {
        join_comma(runs(lines, 1, lines[0], lines[0]))
    }
}

/// The 1-based lines of the diagnostics past the cap, in their order.
pub open spec fn omitted_lines(ds: Seq<Diagnostic>) -> Seq<int> {
    Seq::new(
        (ds.len() - RENDER_CAP) as nat,
        |i: int| ds[i + RENDER_CAP].range.start.line as int + 1,
    )
}

/// The block appended to a tool result: nothing for no diagnostics;
/// otherwise a header with the path and the true count, the first
/// [`RENDER_CAP`] diagnostics in full, and a summary of the rest by line
/// (sorted, runs collapsed).
pub open spec fn rendered(path_label: Seq<char>, ds: Seq<Diagnostic>) -> Seq<char> {
    if ds.len() == 0 {
        Seq::empty()
    } else {
        let shown = if ds.len() < RENDER_CAP { ds.len() as int } else { RENDER_CAP as int };
        let head = "\n[diagnostics: "@ + path_label + "] "@ + decimal(ds.len()) + " issue(s)"@ + detail_lines(
            ds,
            shown,
        );
        if ds.len() > RENDER_CAP {
            head + "\n  \u{2026} and "@ + decimal((ds.len() - RENDER_CAP) as nat) + " more (lines "@
                + line_spans_text(omitted_lines(ds).sort()) + ")"@
        } else {
            head
        }
    }
}


fn push_one_line(out: &mut Vec<char>, m: &str)
    ensures
        final(out)@ == old(out)@ + one_line(m@),
{
    let v = crate::text::chars_of(m);
    let mut i: usize = 0;
    while i < v.len()
        invariant
            v@ == m@,
            i <= v@.len(),
            out@ == old(out)@ + one_line(v@.subrange(0, i as int)),
        decreases v.len() - i,
    {
        let c = v[i];
        if c == '\n' {
            out.push(' ');
        } else {
            out.push(c);
        }
        i += 1;
        assert(one_line(v@.subrange(0, i as int)) =~= one_line(v@.subrange(0, i - 1)).push(
            if c == '\n' { ' ' } else { c },
        ));
        assert(out@ =~= old(out)@ + one_line(v@.subrange(0, i as int)));
    }
    assert(v@.subrange(0, v@.len() as int) =~= v@);
}

fn push_detail(out: &mut Vec<char>, d: &Diagnostic)
    requires
        d.range.start.line < u32::MAX,
        d.range.start.character < u32::MAX,
    ensures
        final(out)@ == old(out)@ + detail_line(*d),
{
    append_chars(out, "\n  ");
    append_chars(out, decimal_string(d.range.start.line as u64 + 1).as_str());
    append_chars(out, ":");
    append_chars(out, decimal_string(d.range.start.character as u64 + 1).as_str());
    append_chars(out, " ");
    let label: &str = match d.severity {
        Some(s) => s.label(),
        None => "diagnostic",
    };
    append_chars(out, label);
    append_chars(out, ": ");
    push_one_line(out, d.message.as_str());
    assert(final(out)@ =~= old(out)@ + detail_line(*d));
}

/// The integer views of a list of line numbers.
pub open spec fn ints(v: Seq<u64>) -> Seq<int> {
    v.map_values(|x: u64| x as int)
}

fn sorted_lines(lines: &Vec<u64>) -> (r: Vec<u64>)
    ensures
        ints(r@) == ints(lines@).sort(),
        r@.len() == lines@.len(),
{
    let mut out: Vec<u64> = Vec::new();
    let mut i: usize = 0;
    assert(ints(out@) =~= ints(lines@.subrange(0, 0)));
    while i < lines.len()
        invariant
            i <= lines@.len(),
            out@.len() == i,
            forall|a: int, b: int| 0 <= a < b < out@.len() ==> #[trigger] out@[a] <= #[trigger] out@[b],
            ints(out@).to_multiset() == ints(lines@.subrange(0, i as int)).to_multiset(),
        decreases lines.len() - i,
    {
        let x = lines[i];
        let mut p: usize = 0;
        while p < out.len() && out[p] <= x
            invariant
                p <= out@.len(),
                forall|k: int| 0 <= k < p ==> out@[k] <= x,
            decreases out.len() - p,
        {
            p += 1;
        }
        let ghost prev = out@;
        out.insert(p, x);
        proof {
            assert(ints(out@) =~= ints(prev).insert(p as int, x as int));
            assert(ints(lines@.subrange(0, i + 1)) =~= ints(lines@.subrange(0, i as int)).push(x as int));
            assert(ints(lines@.subrange(0, i as int)).push(x as int) =~= ints(lines@.subrange(0, i as int)).insert(
                i as int,
                x as int,
            ));
            let sub = ints(lines@.subrange(0, i as int));
            vstd::seq_lib::to_multiset_insert(ints(prev), p as int, x as int);
            vstd::seq_lib::to_multiset_insert(sub, i as int, x as int);
            assert(p < prev.len() ==> prev[p as int] > x);
            assert forall|a: int, b: int| 0 <= a < b < out@.len() implies #[trigger] out@[a] <= #[trigger] out@[b] by {
                if b < p {
                    assert(prev[a] <= prev[b]);
                } else if b == p {
                    assert(prev[a] <= x);
                } else {
                    assert(p < prev.len());
                    if b - 1 > p {
                        assert(prev[p as int] <= prev[b - 1]);
                    }
                    assert(prev[b - 1] > x);
                    if a < p {
                        assert(prev[a] <= x);
                    } else if a > p {
                        assert(prev[a - 1] <= prev[b - 1]);
                    }
                }
            }
        }
        i += 1;
    }
    proof {
        let leq = |x: int, y: int| x <= y;
        assert(lines@.subrange(0, lines@.len() as int) =~= lines@);
        ints(lines@).lemma_sort_ensures();
        assert(sorted_by(ints(out@), leq)) by {
            assert forall|a: int, b: int| 0 <= a < b < ints(out@).len() implies #[trigger] leq(ints(out@)[a], ints(out@)[b]) by {
                assert(out@[a] <= out@[b]);
            }
        }
        assert(total_ordering(leq));
        vstd::seq_lib::lemma_sorted_unique(ints(out@), ints(lines@).sort(), leq);
    }
    out
}


fn span(lo: u64, hi: u64) -> (r: String)
    ensures
        r@ == span_text(lo as int, hi as int),
{
    if lo == hi {
        decimal_string(lo)
    } else {
        let mut v: Vec<char> = Vec::new();
        append_chars(&mut v, decimal_string(lo).as_str());
        append_chars(&mut v, "-");
        append_chars(&mut v, decimal_string(hi).as_str());
        string_of(&v)
    }
}

fn line_spans(lines: &Vec<u64>) -> (r: String)
    requires
        lines@.len() > 0,
    ensures
        r@ == line_spans_text(ints(lines@)),
{
    let ghost l = ints(lines@);
    let mut parts: Vec<String> = Vec::new();
    let mut start: u64 = lines[0];
    let mut prev: u64 = lines[0];
    let mut i: usize = 1;
    while i < lines.len()
        invariant
            1 <= i <= lines@.len(),
            l == ints(lines@),
            strs(parts@) + runs(l, i as int, start as int, prev as int) == runs(l, 1, l[0], l[0]),
        decreases lines.len() - i,
    {
        let x = lines[i];
        if prev < u64::MAX && x == prev + 1 {
            prev = x;
        } else {
            let ghost before = strs(parts@);
            parts.push(span(start, prev));
            assert(strs(parts@) =~= before.push(span_text(start as int, prev as int)));
            assert(strs(parts@) + runs(l, i + 1, x as int, x as int) =~= before + (seq![span_text(start as int, prev as int)]
                + runs(l, i + 1, x as int, x as int)));
            start = x;
            prev = x;
        }
        i += 1;
    }
    let ghost before = strs(parts@);
    parts.push(span(start, prev));
    assert(strs(parts@) =~= before.push(span_text(start as int, prev as int)));
    assert(strs(parts@) == runs(l, 1, l[0], l[0]));
    let mut out: Vec<char> = Vec::new();
    let mut k: usize = 0;
    while k < parts.len()
        invariant
            k <= parts@.len(),
            out@ == join_comma(strs(parts@).subrange(0, k as int)),
        decreases parts.len() - k,
    {
        let ghost sub = strs(parts@).subrange(0, k + 1);
        assert(sub.drop_last() =~= strs(parts@).subrange(0, k as int));
        if k > 0 {
            append_chars(&mut out, ", ");
        }
        append_chars(&mut out, parts[k].as_str());
        if k == 0 {
            assert(out@ =~= join_comma(sub));
        } else {
            assert(out@ =~= join_comma(sub));
        }
        k += 1;
    }
    assert(strs(parts@).subrange(0, parts@.len() as int) =~= strs(parts@));
    string_of(&out)
}

/// Render diagnostics as a block for a tool result (see [`rendered`]).
pub fn render_diagnostics(path_label: &str, diagnostics: &[Diagnostic]) -> (r: String)
    requires
        forall|i: int|
            0 <= i < diagnostics@.len() && i < RENDER_CAP ==> (#[trigger] diagnostics@[i]).range.start.line
                < u32::MAX,
        forall|i: int|
            0 <= i < diagnostics@.len() && i < RENDER_CAP ==> (#[trigger] diagnostics@[i]).range.start.character
                < u32::MAX,
    ensures
        r@ == rendered(path_label@, diagnostics@),
{
    let n = diagnostics.len();
    if n == 0 {
        return String::new();
    }
    let ghost ds = diagnostics@;
    let mut out: Vec<char> = Vec::new();
    append_chars(&mut out, "\n[diagnostics: ");
    append_chars(&mut out, path_label);
    append_chars(&mut out, "] ");
    append_chars(&mut out, decimal_string(n as u64).as_str());
    append_chars(&mut out, " issue(s)");
    let ghost head0 = out@;
    let shown: usize = if n < RENDER_CAP {
        n
    } else {
        RENDER_CAP
    };
    let mut i: usize = 0;
    while i < shown
        invariant
            i <= shown,
            shown <= n,
            n == diagnostics@.len(),
            ds == diagnostics@,
            shown <= RENDER_CAP,
            forall|j: int| 0 <= j < ds.len() && j < RENDER_CAP ==> (#[trigger] ds[j]).range.start.line < u32::MAX,
            forall|j: int| 0 <= j < ds.len() && j < RENDER_CAP ==> (#[trigger] ds[j]).range.start.character < u32::MAX,
            out@ == head0 + detail_lines(ds, i as int),
        decreases shown - i,
    {
        push_detail(&mut out, &diagnostics[i]);
        assert(out@ =~= head0 + detail_lines(ds, i + 1));
        i += 1;
    }
    if n > RENDER_CAP {
        let mut lines: Vec<u64> = Vec::new();
        let mut k: usize = RENDER_CAP;
        while k < n
            invariant
                RENDER_CAP <= k <= n,
                n == diagnostics@.len(),
                ds == diagnostics@,
                ints(lines@) == omitted_lines(ds).subrange(0, k - RENDER_CAP),
            decreases n - k,
        {
            let ghost before = ints(lines@);
            lines.push(diagnostics[k].range.start.line as u64 + 1);
            assert(ints(lines@) =~= before.push(ds[k as int].range.start.line as int + 1));
            assert(omitted_lines(ds).subrange(0, k + 1 - RENDER_CAP) =~= omitted_lines(ds).subrange(
                0,
                k - RENDER_CAP,
            ).push(ds[k as int].range.start.line as int + 1));
            k += 1;
        }
        assert(omitted_lines(ds).subrange(0, n - RENDER_CAP) =~= omitted_lines(ds));
        let sorted = sorted_lines(&lines);
        let ghost before_tail = out@;
        append_chars(&mut out, "\n  \u{2026} and ");
        append_chars(&mut out, decimal_string((n - RENDER_CAP) as u64).as_str());
        append_chars(&mut out, " more (lines ");
        append_chars(&mut out, line_spans(&sorted).as_str());
        append_chars(&mut out, ")");
        assert(out@ =~= rendered(path_label@, ds));
    } else {
        assert(out@ =~= rendered(path_label@, ds));
    }
    string_of(&out)
}

} // verus!
