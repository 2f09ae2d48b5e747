//! The MCP server-list configuration store: named server definitions
//! over stdio or HTTP transports, plus shared settings.
//!
//! Callers load the configuration from its file, mutate it through the
//! manager, and persist it back; server names stay unique.

use vstd::prelude::*;

use crate::errors::ErrorKind;
use crate::errors::RhinolabsError;
use crate::text::concat2;
use crate::text::str_eq;

verus! {

/// One MCP server definition, over a stdio or an HTTP transport.
#[derive(Debug, Clone)]
pub struct McpServer {
    /// stdio transport: the command to run.
    pub command: Option<String>,
    /// stdio transport: the command's arguments.
    pub args: Vec<String>,
    /// stdio transport: extra environment variables.
    pub env: Option<Vec<(String, String)>>,
    /// HTTP transport: the server URL.
    pub url: Option<String>,
    /// HTTP transport: the transport tag.
    pub transport: Option<String>,
    /// HTTP transport: extra request headers.
    pub headers: Option<Vec<(String, String)>>,
}

impl McpServer {
    /// A stdio-based server.
    pub fn stdio(command: String, args: Vec<String>) -> (s: Self)
        ensures
            s.command == Some(command),
            s.args == args,
            s.env is None,
            s.url is None,
            s.transport is None,
            s.headers is None,
    {
        McpServer {
            command: Some(command),
            args,
            env: None,
            url: None,
            transport: None,
            headers: None,
        }
    }

    /// An HTTP-based server.
    pub fn http(url: String) -> (s: Self)
        ensures
            s.command is None,
            s.args@.len() == 0,
            s.env is None,
            s.url == Some(url),
            s.transport matches Some(t) && t@ == "http"@,
            s.headers is None,
    {
        McpServer {
            command: None,
            args: Vec::new(),
            env: None,
            url: Some(url),
            transport: Some(String::from_str("http")),
            headers: None,
        }
    }

    /// Whether this server uses the HTTP transport.
    pub fn is_http(&self) -> (r: bool)
        ensures
            r == ((self.transport matches Some(t) && t@ == "http"@) || self.url is Some),
    {
        let tagged = match &self.transport {
            Some(t) => str_eq(t.as_str(), "http"),
            None => false,
        };
        tagged || self.url.is_some()
    }

    /// Whether this server uses the stdio transport.
    pub fn is_stdio(&self) -> (r: bool)
        ensures
            r == (self.command is Some),
    {
        self.command.is_some()
    }
}

/// Shared settings of the MCP configuration.
#[derive(Debug, Clone)]
pub struct McpSettings {
    pub default_timeout: u32,
    pub retry_attempts: u32,
    pub log_level: String,
}

impl Default for McpSettings {
    /// The settings the store starts with.
    fn default() -> (s: Self)
        ensures
            s.default_timeout == 30000,
            s.retry_attempts == 3,
            s.log_level@ == "info"@,
    {
        McpSettings {
            default_timeout: 30000,
            retry_attempts: 3,
            log_level: String::from_str("info"),
        }
    }
}

/// One named server in the configuration.
#[derive(Debug, Clone)]
pub struct McpServerEntry {
    pub name: String,
    pub server: McpServer,
}

/// The whole MCP configuration: a note for readers of the file, the
/// named servers, and the shared settings.
#[derive(Debug, Clone)]
pub struct McpConfig {
    pub _note: Option<String>,
    pub mcp_servers: Vec<McpServerEntry>,
    pub settings: McpSettings,
}

impl Default for McpConfig {
    /// An empty configuration with default settings.
    fn default() -> (c: Self)
        ensures
            c.mcp_servers@.len() == 0,
            c.settings.default_timeout == 30000,
            c.settings.retry_attempts == 3,
            c.settings.log_level@ == "info"@,
            c._note is Some,
    {
        McpConfig {
            _note: Some(
                String::from_str(
                    "This file is managed by Rhinolabs GUI. See docs/MCP_CENTRALIZED_CONFIG.md for details.",
                ),
            ),
            mcp_servers: Vec::new(),
            settings: McpSettings::default(),
        }
    }
}

/// The server names of a configuration, in order.
pub open spec fn server_names(c: McpConfig) -> Seq<Seq<char>> {
    c.mcp_servers@.map_values(|e: McpServerEntry| e.name@)
}

/// Well-formedness: server names are unique.
pub open spec fn mcp_wf(c: McpConfig) -> bool {
    server_names(c).no_duplicates()
}

/// A server under `name` exists.
pub open spec fn has_server(c: McpConfig, name: Seq<char>) -> bool {
    server_names(c).contains(name)
}

/// The position of `name` among the servers.
pub open spec fn server_idx(c: McpConfig, name: Seq<char>) -> int {
    server_names(c).index_of(name)
}

/// The server stored under `name`.
pub open spec fn server_of(c: McpConfig, name: Seq<char>) -> McpServer {
    c.mcp_servers@[server_idx(c, name)].server
}

/// Two server definitions carrying the same data.
pub open spec fn server_like(a: McpServer, b: McpServer) -> bool {
    &&& a.command == b.command
    &&& a.args@ == b.args@
    &&& (match a.env {
        Some(v) => b.env matches Some(w) && v@ == w@,
        None => b.env is None,
    })
    &&& a.url == b.url
    &&& a.transport == b.transport
    &&& (match a.headers {
        Some(v) => b.headers matches Some(w) && v@ == w@,
        None => b.headers is None,
    })
}

/// Duplicate a list of string pairs.
fn dup_pairs(v: &Vec<(String, String)>) -> (r: Vec<(String, String)>)
    ensures
        r@ == v@,
{
    let mut r: Vec<(String, String)> = Vec::new();
    let mut i: usize = 0;
    while i < v.len()
        invariant
            0 <= i <= v@.len(),
            r@ == v@.subrange(0, i as int),
        decreases v@.len() - i,
    {
        let p = (v[i].0.clone(), v[i].1.clone());
        r.push(p);
        proof {
            assert(r@ =~= v@.subrange(0, i + 1));
        }
        i = i + 1;
    }
    proof {
        assert(v@.subrange(0, v@.len() as int) =~= v@);
    }
    r
}

/// Duplicate an optional list of string pairs.
fn dup_opt_pairs(o: &Option<Vec<(String, String)>>) -> (r: Option<Vec<(String, String)>>)
    ensures
        match r {
            Some(v) => o matches Some(w) && v@ == w@,
            None => o is None,
        },
{
    match o {
        Some(v) => Some(dup_pairs(v)),
        None => None,
    }
}

/// Duplicate an optional string.
fn dup_opt_str(o: &Option<String>) -> (r: Option<String>)
    ensures
        r == *o,
{
    match o {
        Some(s) => Some(s.clone()),
        None => None,
    }
}

/// Duplicate a list of strings.
fn dup_strs(v: &Vec<String>) -> (r: Vec<String>)
    ensures
        r@ == v@,
{
    let mut r: Vec<String> = Vec::new();
    let mut i: usize = 0;
    while i < v.len()
        invariant
            0 <= i <= v@.len(),
            r@ == v@.subrange(0, i as int),
        decreases v@.len() - i,
    {
        r.push(v[i].clone());
        proof {
            assert(r@ =~= v@.subrange(0, i + 1));
        }
        i = i + 1;
    }
    proof {
        assert(v@.subrange(0, v@.len() as int) =~= v@);
    }
    r
}

/// Duplicate a server definition.
pub fn dup_server(s: &McpServer) -> (r: McpServer)
    ensures
        server_like(r, *s),
{
    McpServer {
        command: dup_opt_str(&s.command),
        args: dup_strs(&s.args),
        env: dup_opt_pairs(&s.env),
        url: dup_opt_str(&s.url),
        transport: dup_opt_str(&s.transport),
        headers: dup_opt_pairs(&s.headers),
    }
}

/// The MCP configuration manager.
pub struct McpConfigManager;

impl McpConfigManager {
    /// The location of the configuration file under the home directory.
    pub fn config_path(home: &str) -> (r: String)
        ensures
            r@ == home@ + "/.rhinolabs/.mcp.json"@,
    {
        concat2(home, "/.rhinolabs/.mcp.json")
    }

    /// Find the entry carrying `name`.
    fn find_server(config: &McpConfig, name: &str) -> (r: Option<usize>)
        ensures
            match r {
                Some(i) => i < config.mcp_servers@.len() && config.mcp_servers@[i as int].name@
                    == name@,
                None => !has_server(*config, name@),
            },
    {
        let mut i: usize = 0;
        while i < config.mcp_servers.len()
            invariant
                0 <= i <= config.mcp_servers@.len(),
                forall|m: int| 0 <= m < i ==> #[trigger] config.mcp_servers@[m].name@ != name@,
            decreases config.mcp_servers@.len() - i,
        {
            if str_eq(config.mcp_servers[i].name.as_str(), name) {
                return Some(i);
            }
            i = i + 1;
        }
        proof {
            if has_server(*config, name@) {
                let k = choose|k: int|
                    0 <= k < server_names(*config).len() && server_names(*config)[k] == name@;
                assert(config.mcp_servers@[k].name@ == name@);
            }
        }
        None
    }

    proof fn lemma_server_idx(config: &McpConfig, i: int, name: Seq<char>)
        requires
            mcp_wf(*config),
            0 <= i < server_names(*config).len(),
            server_names(*config)[i] == name,
        ensures
            has_server(*config, name),
            server_idx(*config, name) == i,
    {
        assert(server_names(*config).contains(name));
        let k = server_names(*config).index_of(name);
        assert(server_names(*config)[k] == name);
        if k != i {
            assert(false);
        }
    }

    /// All servers, as name–definition pairs.
    pub fn list_servers(config: &McpConfig) -> (r: Vec<McpServerEntry>)
        ensures
            r@.len() == config.mcp_servers@.len(),
            forall|k: int|
                0 <= k < r@.len() ==> (#[trigger] r@[k]).name@ == config.mcp_servers@[k].name@
                    && server_like(r@[k].server, config.mcp_servers@[k].server),
    {
        let mut r: Vec<McpServerEntry> = Vec::new();
        let mut i: usize = 0;
        while i < config.mcp_servers.len()
            invariant
                0 <= i <= config.mcp_servers@.len(),
                r@.len() == i,
                forall|k: int|
                    0 <= k < i ==> (#[trigger] r@[k]).name@ == config.mcp_servers@[k].name@
                        && server_like(r@[k].server, config.mcp_servers@[k].server),
            decreases config.mcp_servers@.len() - i,
        {
            let e = McpServerEntry {
                name: config.mcp_servers[i].name.clone(),
                server: dup_server(&config.mcp_servers[i].server),
            };
            r.push(e);
            i = i + 1;
        }
        r
    }

    /// Look up one server by name.
    pub fn get_server(config: &McpConfig, name: &str) -> (r: Option<McpServer>)
        requires
            mcp_wf(*config),
        ensures
            r is Some <==> has_server(*config, name@),
            r matches Some(s) ==> server_like(s, server_of(*config, name@)),
    {
        match Self::find_server(config, name) {
            None => None,
            Some(i) => {
                proof {
                    Self::lemma_server_idx(config, i as int, name@);
                }
                Some(dup_server(&config.mcp_servers[i].server))
            },
        }
    }

    /// Add a new server; refused with `AlreadyExists` when the name is
    /// taken.
    pub fn add_server(config: &mut McpConfig, name: &str, server: McpServer) -> (r: Result<
        (),
        RhinolabsError,
    >)
        requires
            mcp_wf(*old(config)),
        ensures
            mcp_wf(*final(config)),
            has_server(*old(config), name@) ==> (r matches Err(e) && e.kind
                == ErrorKind::AlreadyExists && *final(config) == *old(config)),
            !has_server(*old(config), name@) ==> r is Ok && final(config).mcp_servers@.len() == old(config).mcp_servers@.len() + 1 && final(config).mcp_servers@.last().name@ == name@ && final(config).mcp_servers@.last().server == server && final(config).mcp_servers@.subrange(
                0,
                old(config).mcp_servers@.len() as int,
            ) == old(config).mcp_servers@ && final(config).settings == old(config).settings,
    {
        match Self::find_server(config, name) {
            Some(i) => {
                proof {
                    assert(server_names(*config)[i as int] == name@);
                }
                Err(
                    RhinolabsError::new(
                        ErrorKind::AlreadyExists,
                        crate::text::concat2("MCP server already exists: ", name),
                    ),
                )
            },
            None => {
                let ghost pre = *config;
                let entry = McpServerEntry { name: name.to_owned(), server };
                config.mcp_servers.push(entry);
                proof {
                    let n = pre.mcp_servers@.len() as int;
                    assert(server_names(*config) =~= server_names(pre).push(name@));
                    assert(server_names(*config)[n] == name@);
                    assert(forall|m: int|
                        0 <= m < n ==> #[trigger] server_names(*config)[m] == server_names(pre)[m]);
                    assert(mcp_wf(*config));
                    assert(config.mcp_servers@.subrange(0, n) =~= pre.mcp_servers@);
                }
                Ok(())
            },
        }
    }

    /// Replace an existing server; refused with `NotFound` when absent.
    pub fn update_server(config: &mut McpConfig, name: &str, server: McpServer) -> (r: Result<
        (),
        RhinolabsError,
    >)
        requires
            mcp_wf(*old(config)),
        ensures
            mcp_wf(*final(config)),
            !has_server(*old(config), name@) ==> (r matches Err(e) && e.kind == ErrorKind::NotFound
                && *final(config) == *old(config)),
            has_server(*old(config), name@) ==> r is Ok && server_names(*final(config))
                == server_names(*old(config)) && server_of(*final(config), name@) == server && (
            forall|other: Seq<char>|
                other != name@ && has_server(*old(config), other) ==> #[trigger] server_of(
                    *final(config),
                    other,
                ) == server_of(*old(config), other)) && final(config).settings == old(config).settings,
    {
        match Self::find_server(config, name) {
            None => Err(
                RhinolabsError::new(
                    ErrorKind::NotFound,
                    crate::text::concat2("MCP server not found: ", name),
                ),
            ),
            Some(i) => {
                proof {
                    Self::lemma_server_idx(config, i as int, name@);
                }
                let ghost pre = *config;
                let entry = McpServerEntry { name: name.to_owned(), server };
                config.mcp_servers.set(i, entry);
                proof {
                    assert(server_names(*config) =~= server_names(pre).update(i as int, name@));
                    assert(server_names(*config) =~= server_names(pre));
                    Self::lemma_server_idx(config, i as int, name@);
                    assert forall|other: Seq<char>|
                        other != name@ && has_server(pre, other) implies #[trigger] server_of(
                        *config,
                        other,
                    ) == server_of(pre, other) by {
                        let k = server_idx(pre, other);
                        Self::lemma_server_idx(&pre, k, other);
                        Self::lemma_server_idx(config, k, other);
                    }
                }
                Ok(())
            },
        }
    }

    /// Remove a server; refused with `NotFound` when absent.
    pub fn remove_server(config: &mut McpConfig, name: &str) -> (r: Result<(), RhinolabsError>)
        requires
            mcp_wf(*old(config)),
        ensures
            mcp_wf(*final(config)),
            !has_server(*old(config), name@) ==> (r matches Err(e) && e.kind == ErrorKind::NotFound
                && *final(config) == *old(config)),
            has_server(*old(config), name@) ==> r is Ok && final(config).mcp_servers@ == old(config).mcp_servers@.remove(server_idx(*old(config), name@)) && !has_server(
                *final(config),
                name@,
            ) && final(config).settings == old(config).settings,
    {
        match Self::find_server(config, name) {
            None => Err(
                RhinolabsError::new(
                    ErrorKind::NotFound,
                    crate::text::concat2("MCP server not found: ", name),
                ),
            ),
            Some(i) => {
                proof {
                    Self::lemma_server_idx(config, i as int, name@);
                }
                let ghost pre = *config;
                config.mcp_servers.remove(i);
                proof {
                    assert(server_names(*config) =~= server_names(pre).remove(i as int));
                    assert forall|p: int, q: int|
                        0 <= p < q < server_names(*config).len() implies server_names(*config)[p]
                        != server_names(*config)[q] by {
                        let p0 = if p < i as int {
                            p
                        } else {
                            p + 1
                        };
                        let q0 = if q < i as int {
                            q
                        } else {
                            q + 1
                        };
                        assert(server_names(*config)[p] == server_names(pre)[p0]);
                        assert(server_names(*config)[q] == server_names(pre)[q0]);
                    }
                    if has_server(*config, name@) {
                        let k = choose|k: int|
                            0 <= k < server_names(*config).len() && server_names(*config)[k]
                                == name@;
                        if k < i as int {
                            assert(server_names(pre)[k] == name@);
                            assert(false);
                        } else {
                            assert(server_names(pre)[k + 1] == name@);
                            assert(false);
                        }
                    }
                }
                Ok(())
            },
        }
    }

    /// The shared settings.
    pub fn get_settings(config: &McpConfig) -> (r: McpSettings)
        ensures
            r.default_timeout == config.settings.default_timeout,
            r.retry_attempts == config.settings.retry_attempts,
            r.log_level@ == config.settings.log_level@,
    {
        McpSettings {
            default_timeout: config.settings.default_timeout,
            retry_attempts: config.settings.retry_attempts,
            log_level: config.settings.log_level.clone(),
        }
    }

    /// Replace the shared settings.
    pub fn update_settings(config: &mut McpConfig, settings: McpSettings)
        ensures
            final(config).settings == settings,
            final(config).mcp_servers == old(config).mcp_servers,
            final(config)._note == old(config)._note,
    {
        config.settings = settings;
    }
}

} // verus!
