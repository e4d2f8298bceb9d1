//! The configuration data model — server specifications and the run's
//! command — and its validation: structural field checks, unique names,
//! resolvable dependencies, and an acyclic dependency graph.

use vstd::prelude::*;
use vstd::string::StringExecFns;
use crate::graph;
use crate::text::{blank, is_blank};

verus! {

pub const DEFAULT_TIMEOUT_SECONDS: u64 = 5;

pub const MAX_TIMEOUT_SECONDS: u64 = 300;

/// The per-probe timeout a server gets when its configuration names none.
pub fn default_timeout() -> (t: u64)
    ensures
        t == DEFAULT_TIMEOUT_SECONDS,
{
    DEFAULT_TIMEOUT_SECONDS
}

/// HTTP method of a health probe.
#[derive(Clone, Copy, Debug, PartialEq, Eq, Structural)]
pub enum HttpMethod {
    Get,
    Post,
    Head,
    Put,
    Patch,
    Delete,
}

/// Which method a configured method name selects; an unrecognized name
/// selects GET.
pub open spec fn method_of(s: Seq<char>) -> HttpMethod {
    if s == "POST"@ {
        HttpMethod::Post
    } else if s == "HEAD"@ {
        HttpMethod::Head
    } else if s == "PUT"@ {
        HttpMethod::Put
    } else if s == "PATCH"@ {
        HttpMethod::Patch
    } else if s == "DELETE"@ {
        HttpMethod::Delete
    } else {
        HttpMethod::Get
    }
}

fn eq_lit(a: &String, lit: &str) -> (r: bool)
    ensures
        r == (a@ == lit@),
{
    let owned: String = lit.to_owned();
    *a == owned
}

/// Maps a configured method name onto the closed method set.
pub fn parse_method(s: &String) -> (m: HttpMethod)
    ensures
        m == method_of(s@),
{
    if eq_lit(s, "POST") {
        HttpMethod::Post
    } else if eq_lit(s, "HEAD") {
        HttpMethod::Head
    } else if eq_lit(s, "PUT") {
        HttpMethod::Put
    } else if eq_lit(s, "PATCH") {
        HttpMethod::Patch
    } else if eq_lit(s, "DELETE") {
        HttpMethod::Delete
    } else {
        HttpMethod::Get
    }
}

/// How a probe is made: method, the response statuses that count as
/// Ready, and extra request headers.
#[derive(Clone, Debug)]
pub struct HealthCheck {
    pub method: HttpMethod,
    pub expected_status: Vec<u16>,
    pub headers: Vec<(String, String)>,
}

/// The three optional lifecycle hook commands.
#[derive(Clone, Debug)]
pub struct Hooks {
    pub before_start: Option<String>,
    pub after_ready: Option<String>,
    pub before_stop: Option<String>,
}

/// Where a spawned process's output goes: the parent's console, a null
/// sink, captured pipes with an optional line prefix, or append-to-file.
#[derive(Clone, Debug)]
pub enum OutputMode {
    Inherit,
    Null,
    Capture { prefix: Option<String> },
    File { stdout: Option<String>, stderr: Option<String> },
}

/// Which output mode a configured mode name selects, with the paths and
/// prefix that mode carries; an unrecognized name selects nothing, so a
/// loader rejects it instead of falling back.
pub open spec fn output_mode_of(
    mode: Seq<char>,
    stdout: Option<String>,
    stderr: Option<String>,
    prefix: Option<String>,
) -> Option<OutputMode> {
    if mode == "inherit"@ {
        Some(OutputMode::Inherit)
    } else if mode == "null"@ {
        Some(OutputMode::Null)
    } else if mode == "capture"@ {
        Some(OutputMode::Capture { prefix })
    } else if mode == "file"@ {
        Some(OutputMode::File { stdout, stderr })
    } else {
        None
    }
}

/// Maps a configured output-mode name onto the closed variant set.
pub fn parse_output_mode(
    mode: &String,
    stdout: Option<String>,
    stderr: Option<String>,
    prefix: Option<String>,
) -> (r: Option<OutputMode>)
    ensures
        r == output_mode_of(mode@, stdout, stderr, prefix),
{
    if eq_lit(mode, "inherit") {
        Some(OutputMode::Inherit)
    } else if eq_lit(mode, "null") {
        Some(OutputMode::Null)
    } else if eq_lit(mode, "capture") {
        Some(OutputMode::Capture { prefix })
    } else if eq_lit(mode, "file") {
        Some(OutputMode::File { stdout, stderr })
    } else {
        None
    }
}

/// File mode must name at least one output path.
pub open spec fn output_ok(o: OutputMode) -> bool {
    match o {
        OutputMode::File { stdout, stderr } => stdout is Some || stderr is Some,
        _ => true,
    }
}

/// One server specification, immutable for the run.
#[derive(Clone, Debug)]
pub struct Server {
    pub name: String,
    pub url: String,
    pub command: String,
    pub timeout: u64,
    pub priority: u32,
    pub depends_on: Vec<String>,
    pub retry_interval: u64,
    pub startup_delay: u64,
    pub env: Vec<(String, String)>,
    pub hooks: Hooks,
    pub health_check: HealthCheck,
    pub output: OutputMode,
}

/// The validated run configuration: the servers, the final command, and
/// the global environment overrides for that command.
#[derive(Clone, Debug)]
pub struct Config {
    pub servers: Vec<Server>,
    pub command: String,
    pub env: Vec<(String, String)>,
}

/// The first per-server field rule a specification breaks, if any,
/// in the order the rules are checked.
pub enum FieldFault {
    BlankName,
    BlankUrl,
    BlankCommand,
    ZeroTimeout,
    TimeoutTooLarge,
    FileWithoutPath,
}

pub open spec fn field_fault(s: Server) -> Option<FieldFault> {
    if blank(s.name@) {
        Some(FieldFault::BlankName)
    } else if blank(s.url@) {
        Some(FieldFault::BlankUrl)
    } else if blank(s.command@) {
        Some(FieldFault::BlankCommand)
    } else if s.timeout == 0 {
        Some(FieldFault::ZeroTimeout)
    } else if s.timeout > MAX_TIMEOUT_SECONDS {
        Some(FieldFault::TimeoutTooLarge)
    } else if !output_ok(s.output) {
        Some(FieldFault::FileWithoutPath)
    } else {
        None
    }
}

pub open spec fn names_unique(servers: Seq<Server>) -> bool {
    forall|i: int, j: int|
        0 <= i < j < servers.len() ==> (#[trigger] servers[i].name)@ != (#[trigger] servers[j].name)@
}

/// Dependency `k` of server `i` names some server.
pub open spec fn dep_target_exists(servers: Seq<Server>, i: int, k: int) -> bool {
    exists|j: int|
        0 <= j < servers.len() && (#[trigger] servers[j].name)@ == servers[i].depends_on@[k]@
}

/// Dependency `k` of server `i` is its own name or names no server.
pub open spec fn dep_fault(servers: Seq<Server>, i: int, k: int) -> bool {
    servers[i].depends_on@[k]@ == servers[i].name@ || !dep_target_exists(servers, i, k)
}

pub open spec fn deps_ok(servers: Seq<Server>) -> bool {
    forall|i: int, k: int|
        0 <= i < servers.len() && 0 <= k < servers[i].depends_on@.len() ==> !#[trigger] dep_fault(
            servers,
            i,
            k,
        )
}

/// Declared dependency by name: server `a` lists server `b`'s name.
pub open spec fn name_edge(servers: Seq<Server>, a: int, b: int) -> bool {
    &&& 0 <= a < servers.len()
    &&& 0 <= b < servers.len()
    &&& exists|k: int|
        0 <= k < servers[a].depends_on@.len() && (#[trigger] servers[a].depends_on@[k])@
            == servers[b].name@
}

pub open spec fn name_walk_ok(servers: Seq<Server>, p: Seq<usize>) -> bool {
    forall|m: int|
        0 <= m < p.len() - 1 ==> name_edge(servers, #[trigger] p[m] as int, p[m + 1] as int)
}

/// A dependency cycle: a walk over declared dependencies whose last server
/// repeats its first.
pub open spec fn is_dependency_cycle(servers: Seq<Server>, p: Seq<usize>) -> bool {
    &&& p.len() >= 2
    &&& name_walk_ok(servers, p)
    &&& p[0] == p[p.len() - 1]
}

pub open spec fn dependencies_acyclic(servers: Seq<Server>) -> bool {
    forall|p: Seq<usize>| !is_dependency_cycle(servers, p)
}

/// All field rules hold and the command and server list are present.
pub open spec fn scalar_ok(c: &Config) -> bool {
    &&& c.servers@.len() > 0
    &&& !blank(c.command@)
    &&& forall|i: int| 0 <= i < c.servers@.len() ==> field_fault(#[trigger] c.servers@[i]) is None
}

/// A configuration the orchestration engine accepts.
pub open spec fn config_ok(c: &Config) -> bool {
    &&& scalar_ok(c)
    &&& names_unique(c.servers@)
    &&& deps_ok(c.servers@)
    &&& dependencies_acyclic(c.servers@)
}

/// Why a configuration was rejected, surfaced before any process starts.
#[derive(Clone, Debug, PartialEq, Eq)]
pub enum ConfigError {
    NoServers,
    NoCommand,
    BlankServerName,
    BlankServerUrl,
    BlankServerCommand,
    ZeroTimeout,
    TimeoutTooLarge,
    FileOutputWithoutPath,
    DuplicateName(String),
    SelfDependency(String),
    UnknownDependency(String, String),
    DependencyCycle(Vec<String>),
}

/// A cycle path joined with arrows, last name first written last.
pub open spec fn arrow_join(names: Seq<Seq<char>>) -> Seq<char>
    decreases names.len(),
{
    if names.len() == 0 {
        Seq::empty()
    } else if names.len() == 1 {
        names[0]
    } else {
        arrow_join(names.drop_last()) + " -> "@ + names[names.len() - 1]
    }
}

/// The diagnostic each rejection prints.
pub open spec fn config_error_msg(e: &ConfigError) -> Seq<char> {
    match e {
        ConfigError::NoServers => "Configuration must include at least one server"@,
        ConfigError::NoCommand => "Configuration must include a command to run"@,
        ConfigError::BlankServerName => "Server name cannot be empty"@,
        ConfigError::BlankServerUrl => "Server URL cannot be empty"@,
        ConfigError::BlankServerCommand => "Server command cannot be empty"@,
        ConfigError::ZeroTimeout => "Server timeout must be greater than 0"@,
        ConfigError::TimeoutTooLarge => "Server timeout cannot exceed 300 seconds"@,
        ConfigError::FileOutputWithoutPath => "Output mode 'file' requires a stdout or stderr path"@,
        ConfigError::DuplicateName(n) => "Duplicate server name '"@ + n@ + "'"@,
        ConfigError::SelfDependency(n) => "Server '"@ + n@ + "' cannot depend on itself"@,
        ConfigError::UnknownDependency(n, d) => "Server '"@ + n@ + "' depends on unknown server '"@
            + d@ + "'"@,
        ConfigError::DependencyCycle(path) => "Dependency cycle detected: "@ + arrow_join(
            path@.map_values(|s: String| s@),
        ),
    }
}

impl ConfigError {
    /// The single-line diagnostic of this rejection.
    pub fn message(&self) -> (m: String)
        ensures
            m@ == config_error_msg(self),
    {
        match self {
            ConfigError::NoServers => String::from_str(
                "Configuration must include at least one server",
            ),
            ConfigError::NoCommand => String::from_str(
                "Configuration must include a command to run",
            ),
            ConfigError::BlankServerName => String::from_str("Server name cannot be empty"),
            ConfigError::BlankServerUrl => String::from_str("Server URL cannot be empty"),
            ConfigError::BlankServerCommand => String::from_str("Server command cannot be empty"),
            ConfigError::ZeroTimeout => String::from_str("Server timeout must be greater than 0"),
            ConfigError::TimeoutTooLarge => String::from_str(
                "Server timeout cannot exceed 300 seconds",
            ),
            ConfigError::FileOutputWithoutPath => String::from_str(
                "Output mode 'file' requires a stdout or stderr path",
            ),
            ConfigError::DuplicateName(n) => {
                let mut m = String::from_str("Duplicate server name '");
                m.append(n.as_str());
                m.append("'");
                proof {
                    assert(m@ =~= config_error_msg(self));
                }
                m
            },
            ConfigError::SelfDependency(n) => {
                let mut m = String::from_str("Server '");
                m.append(n.as_str());
                m.append("' cannot depend on itself");
                proof {
                    assert(m@ =~= config_error_msg(self));
                }
                m
            },
            ConfigError::UnknownDependency(n, d) => {
                let mut m = String::from_str("Server '");
                m.append(n.as_str());
                m.append("' depends on unknown server '");
                m.append(d.as_str());
                m.append("'");
                proof {
                    assert(m@ =~= config_error_msg(self));
                }
                m
            },
            ConfigError::DependencyCycle(path) => {
                let mut m = String::from_str("Dependency cycle detected: ");
                let plen = path.len();
                let mut k: usize = 0;
                while k < plen
                    invariant
                        k <= plen,
                        plen == path@.len(),
                        m@ == "Dependency cycle detected: "@ + arrow_join(
                            path@.map_values(|s: String| s@).take(k as int),
                        ),
                    decreases plen - k,
                {
                    if k > 0 {
                        m.append(" -> ");
                    }
                    m.append(path[k].as_str());
                    proof {
                        let names = path@.map_values(|s: String| s@);
                        assert(names.take(k + 1).drop_last() =~= names.take(k as int));
                        assert(names.take(k + 1)[k as int] == names[k as int]);
                        if k == 0 {
                            assert(arrow_join(names.take(1)) == names[0]);
                            assert(m@ =~= "Dependency cycle detected: "@ + arrow_join(
                                names.take(1),
                            ));
                        } else {
                            assert(m@ =~= "Dependency cycle detected: "@ + arrow_join(
                                names.take(k + 1),
                            ));
                        }
                    }
                    k += 1;
                }
                proof {
                    let names = path@.map_values(|s: String| s@);
                    assert(names.take(plen as int) =~= names);
                }
                m
            },
        }
    }
}

/// No dependency fault at any position before `(i, k)` in scan order.
pub open spec fn no_dep_fault_before(servers: Seq<Server>, i: int, k: int) -> bool {
    forall|i2: int, k2: int|
        0 <= i2 < servers.len() && 0 <= k2 < servers[i2].depends_on@.len() && (i2 < i || (i2 == i
            && k2 < k)) ==> !#[trigger] dep_fault(servers, i2, k2)
}

/// What each rejection says of the configuration: the error names the
/// first rule broken in validation order, with its witness data.
pub open spec fn error_witness(c: &Config, e: ConfigError) -> bool {
    let servers = c.servers@;
    match e {
        ConfigError::NoServers => servers.len() == 0,
        ConfigError::NoCommand => servers.len() > 0 && blank(c.command@),
        ConfigError::BlankServerName => first_field_fault_is(c, FieldFault::BlankName),
        ConfigError::BlankServerUrl => first_field_fault_is(c, FieldFault::BlankUrl),
        ConfigError::BlankServerCommand => first_field_fault_is(c, FieldFault::BlankCommand),
        ConfigError::ZeroTimeout => first_field_fault_is(c, FieldFault::ZeroTimeout),
        ConfigError::TimeoutTooLarge => first_field_fault_is(c, FieldFault::TimeoutTooLarge),
        ConfigError::FileOutputWithoutPath => first_field_fault_is(c, FieldFault::FileWithoutPath),
        ConfigError::DuplicateName(n) => {
            &&& scalar_ok(c)
            &&& !names_unique(servers)
            &&& exists|i: int, j: int|
                0 <= i < j < servers.len() && (#[trigger] servers[i].name)@ == (
                #[trigger] servers[j].name)@ && servers[i].name@ == n@
        },
        ConfigError::SelfDependency(n) => {
            &&& scalar_ok(c)
            &&& names_unique(servers)
            &&& exists|i: int, k: int|
                {
                    &&& 0 <= i < servers.len()
                    &&& 0 <= k < servers[i].depends_on@.len()
                    &&& no_dep_fault_before(servers, i, k)
                    &&& (#[trigger] servers[i].depends_on@[k])@ == servers[i].name@
                    &&& n@ == servers[i].name@
                }
        },
        ConfigError::UnknownDependency(n, d) => {
            &&& scalar_ok(c)
            &&& names_unique(servers)
            &&& exists|i: int, k: int|
                {
                    &&& 0 <= i < servers.len()
                    &&& 0 <= k < servers[i].depends_on@.len()
                    &&& no_dep_fault_before(servers, i, k)
                    &&& (#[trigger] servers[i].depends_on@[k])@ != servers[i].name@
                    &&& !dep_target_exists(servers, i, k)
                    &&& n@ == servers[i].name@
                    &&& d@ == servers[i].depends_on@[k]@
                }
        },
        ConfigError::DependencyCycle(path) => {
            &&& scalar_ok(c)
            &&& names_unique(servers)
            &&& deps_ok(servers)
            &&& exists|q: Seq<usize>|
                {
                    &&& is_dependency_cycle(servers, q)
                    &&& path@.len() == q.len()
                    &&& forall|m: int|
                        0 <= m < q.len() ==> (#[trigger] path@[m])@ == servers[q[m] as int].name@
                }
            &&& path@.len() >= 2
            &&& path@[0]@ == path@[path@.len() - 1]@
        },
    }
}

/// The first field fault in server order is `f`, and the list and command
/// checks before the field checks passed.
pub open spec fn first_field_fault_is(c: &Config, f: FieldFault) -> bool {
    let servers = c.servers@;
    &&& servers.len() > 0
    &&& !blank(c.command@)
    &&& exists|i: int|
        {
            &&& 0 <= i < servers.len()
            &&& field_fault(#[trigger] servers[i]) == Some(f)
            &&& forall|j: int| 0 <= j < i ==> field_fault(#[trigger] servers[j]) is None
        }
}

/// Law: validation is a function of the configuration alone — any two
/// runs of the validator over the same configuration accept or reject
/// alike, since `validate_config` accepts exactly when `config_ok` holds.
pub proof fn lemma_validation_deterministic(
    c: &Config,
    accepted_first: bool,
    accepted_second: bool,
)
    requires
        accepted_first == config_ok(c),
        accepted_second == config_ok(c),
    ensures
        accepted_first == accepted_second,
{
}

fn find_name_index(servers: &Vec<Server>, name: &String) -> (r: Option<usize>)
    ensures
        match r {
            Some(j) => j < servers@.len() && servers@[j as int].name@ == name@,
            None => forall|j: int|
                0 <= j < servers@.len() ==> (#[trigger] servers@[j].name)@ != name@,
        },
{
    let n = servers.len();
    let mut j: usize = 0;
    while j < n
        invariant
            j <= n,
            n == servers@.len(),
            forall|m: int| 0 <= m < j ==> (#[trigger] servers@[m].name)@ != name@,
        decreases n - j,
    {
        if servers[j].name == *name {
            return Some(j);
        }
        j += 1;
    }
    None
}

/// Resolves every declared dependency to a server index, in declaration
/// order, rejecting a self-dependency or an unknown name at the first
/// occurrence in scan order.
pub(crate) fn resolve_dependencies(servers: &Vec<Server>) -> (r: Result<Vec<Vec<usize>>, ConfigError>)
    ensures
        match r {
            Ok(adj) => {
                &&& adj@.len() == servers@.len()
                &&& forall|i: int|
                    0 <= i < servers@.len() ==> (#[trigger] adj@[i])@.len() == servers@[
                        i
                    ].depends_on@.len()
                &&& forall|i: int, k: int|
                    0 <= i < servers@.len() && 0 <= k < adj@[i]@.len() ==> {
                        &&& (#[trigger] adj@[i]@[k]) < servers@.len()
                        &&& servers@[adj@[i]@[k] as int].name@ == servers@[i].depends_on@[k]@
                    }
                &&& deps_ok(servers@)
            },
            Err(e) => {
                &&& !deps_ok(servers@)
                &&& match e {
                    ConfigError::SelfDependency(n) => exists|i: int, k: int|
                        {
                            &&& 0 <= i < servers@.len()
                            &&& 0 <= k < servers@[i].depends_on@.len()
                            &&& no_dep_fault_before(servers@, i, k)
                            &&& (#[trigger] servers@[i].depends_on@[k])@ == servers@[i].name@
                            &&& n@ == servers@[i].name@
                        },
                    ConfigError::UnknownDependency(n, d) => exists|i: int, k: int|
                        {
                            &&& 0 <= i < servers@.len()
                            &&& 0 <= k < servers@[i].depends_on@.len()
                            &&& no_dep_fault_before(servers@, i, k)
                            &&& (#[trigger] servers@[i].depends_on@[k])@ != servers@[i].name@
                            &&& !dep_target_exists(servers@, i, k)
                            &&& n@ == servers@[i].name@
                            &&& d@ == servers@[i].depends_on@[k]@
                        },
                    _ => false,
                }
            },
        },
{
    let n = servers.len();
    let mut adj: Vec<Vec<usize>> = Vec::new();
    let mut i: usize = 0;
    while i < n
        invariant
            i <= n,
            n == servers@.len(),
            adj@.len() == i as int,
            forall|a: int|
                0 <= a < i ==> (#[trigger] adj@[a])@.len() == servers@[a].depends_on@.len(),
            forall|a: int, k: int|
                0 <= a < i && 0 <= k < adj@[a]@.len() ==> {
                    &&& (#[trigger] adj@[a]@[k]) < n
                    &&& servers@[adj@[a]@[k] as int].name@ == servers@[a].depends_on@[k]@
                },
            forall|a: int, k: int|
                0 <= a < i && 0 <= k < servers@[a].depends_on@.len() ==> !#[trigger] dep_fault(
                    servers@,
                    a,
                    k,
                ),
        decreases n - i,
    {
        let dn = servers[i].depends_on.len();
        let mut row: Vec<usize> = Vec::new();
        let mut k: usize = 0;
        while k < dn
            invariant
                i < n,
                n == servers@.len(),
                k <= dn,
                dn == servers@[i as int].depends_on@.len(),
                row@.len() == k as int,
                forall|k2: int|
                    0 <= k2 < k ==> {
                        &&& (#[trigger] row@[k2]) < n
                        &&& servers@[row@[k2] as int].name@ == servers@[i as int].depends_on@[k2]@
                    },
                forall|k2: int| 0 <= k2 < k ==> !dep_fault(servers@, i as int, k2),
                forall|a: int, k2: int|
                    0 <= a < i && 0 <= k2 < servers@[a].depends_on@.len() ==> !#[trigger] dep_fault(
                        servers@,
                        a,
                        k2,
                    ),
            decreases dn - k,
        {
            let dep = &servers[i].depends_on[k];
            if servers[i].name == *dep {
                proof {
                    assert(no_dep_fault_before(servers@, i as int, k as int));
                    assert(dep_fault(servers@, i as int, k as int));
                }
                return Err(ConfigError::SelfDependency(servers[i].name.clone()));
            }
            match find_name_index(servers, dep) {
                Some(j) => {
                    proof {
                        assert(dep_target_exists(servers@, i as int, k as int)) by {
                            assert(servers@[j as int].name@ == servers@[i as int].depends_on@[k as int]@);
                        }
                    }
                    row.push(j);
                },
                None => {
                    proof {
                        assert(no_dep_fault_before(servers@, i as int, k as int));
                        assert(!dep_target_exists(servers@, i as int, k as int));
                        assert(dep_fault(servers@, i as int, k as int));
                    }
                    return Err(
                        ConfigError::UnknownDependency(servers[i].name.clone(), dep.clone()),
                    );
                },
            }
            k += 1;
        }
        adj.push(row);
        i += 1;
    }
    Ok(adj)
}

/// A resolved adjacency has exactly the declared name edges, so its cycles
/// are exactly the dependency cycles.
proof fn lemma_adj_cycles_match(servers: Seq<Server>, adj: Seq<Seq<usize>>)
    requires
        names_unique(servers),
        servers.len() <= usize::MAX,
        adj.len() == servers.len(),
        forall|i: int| 0 <= i < servers.len() ==> (#[trigger] adj[i]).len() == servers[i].depends_on@.len(),
        forall|i: int, k: int|
            0 <= i < servers.len() && 0 <= k < adj[i].len() ==> {
                &&& (#[trigger] adj[i][k]) < servers.len()
                &&& servers[adj[i][k] as int].name@ == servers[i].depends_on@[k]@
            },
    ensures
        forall|a: int, b: int| graph::adj_edge(adj, a, b) <==> name_edge(servers, a, b),
        forall|p: Seq<usize>| graph::is_cycle(adj, p) <==> is_dependency_cycle(servers, p),
        graph::acyclic(adj) <==> dependencies_acyclic(servers),
        graph::adj_wf(adj),
{
    assert forall|a: int, b: int| graph::adj_edge(adj, a, b) <==> name_edge(servers, a, b) by {
        if graph::adj_edge(adj, a, b) {
            let k = choose|k: int| 0 <= k < adj[a].len() && adj[a][k] == b as usize;
            assert(servers[a].depends_on@[k]@ == servers[b].name@);
            assert(name_edge(servers, a, b));
        }
        if name_edge(servers, a, b) {
            let k = choose|k: int|
                0 <= k < servers[a].depends_on@.len() && (servers[a].depends_on@[k])@
                    == servers[b].name@;
            let j = adj[a][k];
            assert(servers[j as int].name@ == servers[b].name@);
            if (j as int) != b {
                if (j as int) < b {
                    assert(servers[j as int].name@ != servers[b].name@);
                } else {
                    assert(servers[b].name@ != servers[j as int].name@);
                }
            }
            assert(adj[a].contains(b as usize)) by {
                assert(adj[a][k] == b as usize);
            }
        }
    }
    assert forall|p: Seq<usize>| graph::is_cycle(adj, p) <==> is_dependency_cycle(servers, p) by {
        if graph::is_cycle(adj, p) {
            assert forall|m: int| 0 <= m < p.len() - 1 implies name_edge(
                servers,
                #[trigger] p[m] as int,
                p[m + 1] as int,
            ) by {
                assert(graph::adj_edge(adj, p[m] as int, p[m + 1] as int));
            }
        }
        if is_dependency_cycle(servers, p) {
            assert forall|m: int| 0 <= m < p.len() - 1 implies graph::adj_edge(
                adj,
                #[trigger] p[m] as int,
                p[m + 1] as int,
            ) by {
                assert(name_edge(servers, p[m] as int, p[m + 1] as int));
            }
        }
    }
    assert(graph::adj_wf(adj));
}

fn first_field_fault(servers: &Vec<Server>) -> (r: Option<ConfigError>)
    ensures
        match r {
            None => forall|i: int|
                0 <= i < servers@.len() ==> field_fault(#[trigger] servers@[i]) is None,
            Some(e) => !(forall|i: int|
                0 <= i < servers@.len() ==> field_fault(#[trigger] servers@[i]) is None)
                && exists|i: int|
                {
                    &&& 0 <= i < servers@.len()
                    &&& forall|j: int| 0 <= j < i ==> field_fault(#[trigger] servers@[j]) is None
                    &&& match e {
                        ConfigError::BlankServerName => field_fault(servers@[i]) == Some(
                            FieldFault::BlankName,
                        ),
                        ConfigError::BlankServerUrl => field_fault(servers@[i]) == Some(
                            FieldFault::BlankUrl,
                        ),
                        ConfigError::BlankServerCommand => field_fault(servers@[i]) == Some(
                            FieldFault::BlankCommand,
                        ),
                        ConfigError::ZeroTimeout => field_fault(servers@[i]) == Some(
                            FieldFault::ZeroTimeout,
                        ),
                        ConfigError::TimeoutTooLarge => field_fault(servers@[i]) == Some(
                            FieldFault::TimeoutTooLarge,
                        ),
                        ConfigError::FileOutputWithoutPath => field_fault(servers@[i]) == Some(
                            FieldFault::FileWithoutPath,
                        ),
                        _ => false,
                    }
                },
        },
{
    let n = servers.len();
    let mut i: usize = 0;
    while i < n
        invariant
            i <= n,
            n == servers@.len(),
            forall|j: int| 0 <= j < i ==> field_fault(#[trigger] servers@[j]) is None,
        decreases n - i,
    {
        let s = &servers[i];
        if is_blank(s.name.as_str()) {
            return Some(ConfigError::BlankServerName);
        }
        if is_blank(s.url.as_str()) {
            return Some(ConfigError::BlankServerUrl);
        }
        if is_blank(s.command.as_str()) {
            return Some(ConfigError::BlankServerCommand);
        }
        if s.timeout == 0 {
            return Some(ConfigError::ZeroTimeout);
        }
        if s.timeout > MAX_TIMEOUT_SECONDS {
            return Some(ConfigError::TimeoutTooLarge);
        }
        let file_without_path = match &s.output {
            OutputMode::File { stdout, stderr } => stdout.is_none() && stderr.is_none(),
            _ => false,
        };
        if file_without_path {
            return Some(ConfigError::FileOutputWithoutPath);
        }
        i += 1;
    }
    None
}

fn find_duplicate(servers: &Vec<Server>) -> (r: Option<String>)
    ensures
        match r {
            None => names_unique(servers@),
            Some(n) => exists|i: int, j: int|
                0 <= i < j < servers@.len() && (#[trigger] servers@[i].name)@ == (
                #[trigger] servers@[j].name)@ && servers@[i].name@ == n@,
        },
{
    let n = servers.len();
    let mut i: usize = 0;
    while i < n
        invariant
            i <= n,
            n == servers@.len(),
            forall|a: int, b: int|
                0 <= a < b < servers@.len() && a < i ==> (#[trigger] servers@[a].name)@ != (
                #[trigger] servers@[b].name)@,
        decreases n - i,
    {
        let mut j: usize = i + 1;
        while j < n
            invariant
                i < j <= n,
                n == servers@.len(),
                forall|b: int|
                    i < b < j ==> (#[trigger] servers@[b].name)@ != servers@[i as int].name@,
            decreases n - j,
        {
            if servers[i].name == servers[j].name {
                return Some(servers[i].name.clone());
            }
            j += 1;
        }
        i += 1;
    }
    None
}

/// Validates a configuration: a non-empty server list, a non-blank
/// command, per-server field rules, unique names, dependencies that
/// resolve and are not self-referential, and an acyclic dependency graph.
/// Accepts exactly the configurations the engine can run; a rejection
/// names the first rule broken in validation order.
pub fn validate_config(config: &Config) -> (r: Result<(), ConfigError>)
    ensures
        r.is_ok() <==> config_ok(config),
        match r {
            Ok(_) => true,
            Err(e) => error_witness(config, e),
        },
{
    if config.servers.is_empty() {
        return Err(ConfigError::NoServers);
    }
    if is_blank(config.command.as_str()) {
        return Err(ConfigError::NoCommand);
    }
    match first_field_fault(&config.servers) {
        Some(e) => {
            return Err(e);
        },
        None => {},
    }
    match find_duplicate(&config.servers) {
        Some(n) => {
            proof {
                let (i, j) = choose|i: int, j: int|
                    0 <= i < j < config.servers@.len() && (#[trigger] config.servers@[i].name)@ == (
                    #[trigger] config.servers@[j].name)@ && config.servers@[i].name@ == n@;
                assert(!names_unique(config.servers@));
            }
            return Err(ConfigError::DuplicateName(n));
        },
        None => {},
    }
    let adj = match resolve_dependencies(&config.servers) {
        Ok(adj) => adj,
        Err(e) => {
            return Err(e);
        },
    };
    proof {
        assert(config.servers@.len() <= usize::MAX);
        lemma_adj_cycles_match(config.servers@, graph::adj_view(adj));
    }
    match graph::find_cycle(&adj) {
        Some(p) => {
            proof {
                assert forall|t: int| 0 <= t < p@.len() implies (#[trigger] p@[t])
                    < config.servers@.len() by {
                    if t < p@.len() - 1 {
                        assert(graph::adj_edge(graph::adj_view(adj), p@[t] as int, p@[t + 1] as int));
                    } else {
                        assert(p@[t] == p@[0]);
                        assert(graph::adj_edge(graph::adj_view(adj), p@[0] as int, p@[1] as int));
                    }
                }
            }
            let mut names: Vec<String> = Vec::new();
            let plen = p.len();
            let mut m: usize = 0;
            while m < plen
                invariant
                    m <= plen,
                    plen == p@.len(),
                    names@.len() == m as int,
                    forall|t: int| 0 <= t < p@.len() ==> (#[trigger] p@[t]) < config.servers@.len(),
                    forall|t: int|
                        0 <= t < m ==> (#[trigger] names@[t])@ == config.servers@[p@[t] as int].name@,
                decreases plen - m,
            {
                let idx = p[m];
                names.push(config.servers[idx].name.clone());
                m += 1;
            }
            proof {
                assert(is_dependency_cycle(config.servers@, p@));
                assert(!dependencies_acyclic(config.servers@));
                assert(names@[0]@ == config.servers@[p@[0] as int].name@);
            }
            return Err(ConfigError::DependencyCycle(names));
        },
        None => {},
    }
    Ok(())
}

} // verus!
