//! The MCP part of the agent configuration: upstream servers by id, each
//! reached over stdio or streamable HTTP, with the rules each must follow.
use vstd::prelude::*;
use crate::config_error::{ConfigError, ConfigFault};
use crate::strmap::{keys_sorted, pairs_last, sm_find, sm_from_pairs, sm_get, sm_insert, sm_remove};
use crate::text::{ascii_alnum, chars_of, is_ascii_alnum, is_ascii_upper, push_str, str_eq, string_from, trim, trim_str};
use crate::weburl::{parse_url, url_parse};

verus! {

#[derive(Clone, Debug, PartialEq, Eq)]
pub enum EnvBinding {
    /// A value written in the configuration.
    Config { value: String },
    /// The value of another environment variable.
    Env { key: String },
}

#[derive(Clone, Debug, PartialEq, Eq)]
pub struct StdioUpstreamConfig {
    pub command: String,
    pub args: Vec<String>,
    pub cwd: Option<String>,
    /// Environment bindings by variable name, in name order.
    pub env: Vec<(String, EnvBinding)>,
}

#[derive(Clone, Debug, PartialEq, Eq)]
pub struct StreamableHttpUpstreamConfig {
    pub url: String,
    pub bearer_token_env: Option<String>,
}

#[derive(Clone, Debug, PartialEq, Eq)]
pub enum McpTransport {
    Stdio(StdioUpstreamConfig),
    StreamableHttp(StreamableHttpUpstreamConfig),
}

#[derive(Clone, Debug, PartialEq, Eq)]
pub struct McpUpstreamConfig {
    pub id: String,
    pub enabled: bool,
    pub transport: McpTransport,
}

/// Whether an upstream is enabled when the configuration does not say.
pub fn default_enabled() -> (r: bool)
    ensures
        r,
{
    true
}

impl Default for McpTransport {
    /// A stdio transport with no command, arguments, directory or bindings.
    fn default() -> (r: McpTransport)
        ensures
            r matches McpTransport::Stdio(c) && c.command@.len() == 0 && c.args@.len() == 0
                && c.cwd is None && c.env@.len() == 0,
    {
        McpTransport::Stdio(
            StdioUpstreamConfig {
                command: String::new(),
                args: Vec::new(),
                cwd: None,
                env: Vec::new(),
            },
        )
    }
}

// ---------------------------------------------------------------------------
// Rules.
pub open spec fn is_upstream_id_char(c: char) -> bool {
    is_ascii_alnum(c) || c == '-' || c == '_' || c == '.'
}

/// Not blank, and only ASCII letters, digits, `-`, `_` and `.`.
pub open spec fn valid_upstream_id(id: Seq<char>) -> bool {
    trim(id).len() > 0 && forall|i: int| 0 <= i < id.len() ==> is_upstream_id_char(#[trigger] id[i])
}

pub open spec fn upstream_id_error(id: Seq<char>) -> ConfigFault {
    ConfigFault::InvalidConfig(
        "upstream id `"@ + id
            + "` must be non-empty and contain only ASCII alphanumerics, dash, underscore, or dot"@,
    )
}

pub fn validate_upstream_id(id: &str) -> (r: Result<(), ConfigError>)
    ensures
        valid_upstream_id(id@) ==> r is Ok,
        !valid_upstream_id(id@) ==> (r matches Err(e) && e@ == upstream_id_error(id@)),
{
    let t = trim_str(id);
    let v = chars_of(id);
    let mut ok = t.unicode_len() > 0;
    let mut i: usize = 0;
    while i < v.len()
        invariant
            i <= v@.len(),
            v@ == id@,
            ok == (t@.len() > 0 && forall|j: int| 0 <= j < i ==> is_upstream_id_char(#[trigger] v@[j])),
            t@ == trim(id@),
        decreases v@.len() - i,
    {
        let c = v[i];
        if !(ascii_alnum(c) || c == '-' || c == '_' || c == '.') {
            ok = false;
        }
        i = i + 1;
    }
    if ok {
        Ok(())
    } else {
        let mut m = string_from("upstream id `");
        push_str(&mut m, id);
        push_str(
            &mut m,
            "` must be non-empty and contain only ASCII alphanumerics, dash, underscore, or dot",
        );
        Err(ConfigError::InvalidConfig(m))
    }
}

pub open spec fn is_env_name_char(c: char) -> bool {
    ('A' <= c && c <= 'Z') || ('0' <= c && c <= '9') || c == '_'
}

/// `^[A-Z][A-Z0-9_]*$`.
pub open spec fn valid_env_name(k: Seq<char>) -> bool {
    k.len() > 0 && is_ascii_upper(k[0]) && forall|i: int|
        0 <= i < k.len() ==> is_env_name_char(#[trigger] k[i])
}

pub open spec fn env_name_error(k: Seq<char>) -> ConfigFault {
    ConfigFault::InvalidConfig("environment key `"@ + k + "` must match ^[A-Z][A-Z0-9_]*$"@)
}

/// Checks the name of an environment variable an upstream refers to.
pub fn validate_env_name(key: &str) -> (r: Result<(), ConfigError>)
    ensures
        valid_env_name(key@) ==> r is Ok,
        !valid_env_name(key@) ==> (r matches Err(e) && e@ == env_name_error(key@)),
{
    let v = chars_of(key);
    let mut ok = v.len() > 0 && 'A' <= v[0] && v[0] <= 'Z';
    let mut i: usize = 0;
    while i < v.len()
        invariant
            i <= v@.len(),
            v@ == key@,
            ok == (v@.len() > 0 && is_ascii_upper(v@[0]) && forall|j: int|
                0 <= j < i ==> is_env_name_char(#[trigger] v@[j])),
        decreases v@.len() - i,
    {
        let c = v[i];
        if !(('A' <= c && c <= 'Z') || ('0' <= c && c <= '9') || c == '_') {
            ok = false;
        }
        i = i + 1;
    }
    if ok {
        Ok(())
    } else {
        let mut m = string_from("environment key `");
        push_str(&mut m, key);
        push_str(&mut m, "` must match ^[A-Z][A-Z0-9_]*$");
        Err(ConfigError::InvalidConfig(m))
    }
}

/// The first binding name, in order, that is not a valid variable name.
pub open spec fn first_bad_env_name(env: Seq<(String, EnvBinding)>) -> Option<Seq<char>>
    decreases env.len(),
{
    if env.len() == 0 {
        None
    } else {
        match first_bad_env_name(env.drop_last()) {
            Some(k) => Some(k),
            None => if valid_env_name(env.last().0@) {
                None
            } else {
                Some(env.last().0@)
            },
        }
    }
}

/// What is wrong with a stdio upstream, if anything: a blank command, or
/// the first bad binding name.
pub open spec fn stdio_fault(c: StdioUpstreamConfig) -> Option<ConfigFault> {
    if trim(c.command@).len() == 0 {
        Some(ConfigFault::InvalidConfig("stdio upstream command cannot be blank"@))
    } else {
        match first_bad_env_name(c.env@) {
            Some(k) => Some(env_name_error(k)),
            None => None,
        }
    }
}

/// What is wrong with a streamable HTTP upstream, if anything: a URL that
/// does not parse, one that is neither http nor https, or a bad name for the
/// bearer token variable.
pub open spec fn http_fault(c: StreamableHttpUpstreamConfig) -> Option<ConfigFault> {
    match url_parse(c.url@) {
        Err(m) => Some(ConfigFault::InvalidConfig("invalid MCP URL: "@ + m)),
        Ok(u) => if u.scheme != "http"@ && u.scheme != "https"@ {
            Some(
                ConfigFault::InvalidConfig("streamable HTTP upstream URL must use http or https"@),
            )
        } else {
            match c.bearer_token_env {
                Some(k) => if valid_env_name(k@) {
                    None
                } else {
                    Some(env_name_error(k@))
                },
                None => None,
            }
        },
    }
}

pub open spec fn upstream_fault(u: McpUpstreamConfig) -> Option<ConfigFault> {
    match u.transport {
        McpTransport::Stdio(c) => stdio_fault(c),
        McpTransport::StreamableHttp(c) => http_fault(c),
    }
}

pub open spec fn check_result(f: Option<ConfigFault>, r: Result<(), ConfigError>) -> bool {
    match f {
        None => r is Ok,
        Some(fault) => r matches Err(e) && e@ == fault,
    }
}

impl StdioUpstreamConfig {
    pub fn validate(&self) -> (r: Result<(), ConfigError>)
        ensures
            check_result(stdio_fault(*self), r),
    {
        let t = trim_str(self.command.as_str());
        if t.unicode_len() == 0 {
            return Err(
                ConfigError::InvalidConfig(string_from("stdio upstream command cannot be blank")),
            );
        }
        let mut i: usize = 0;
        while i < self.env.len()
            invariant
                i <= self.env@.len(),
                trim(self.command@).len() > 0,
                first_bad_env_name(self.env@.take(i as int)) is None,
            decreases self.env@.len() - i,
        {
            let ghost t = self.env@.take(i + 1);
            assert(t.drop_last() =~= self.env@.take(i as int));
            match validate_env_name(self.env[i].0.as_str()) {
                Err(e) => {
                    proof {
                        lemma_first_bad_prefix(self.env@, i + 1);
                    }
                    return Err(e);
                },
                Ok(()) => {},
            }
            i = i + 1;
        }
        assert(self.env@.take(self.env@.len() as int) =~= self.env@);
        Ok(())
    }
}

proof fn lemma_first_bad_prefix(env: Seq<(String, EnvBinding)>, i: int)
    requires
        0 <= i <= env.len(),
        first_bad_env_name(env.take(i)) is Some,
    ensures
        first_bad_env_name(env) == first_bad_env_name(env.take(i)),
    decreases env.len() - i,
{
    if i < env.len() {
        assert(env.take(i + 1).drop_last() =~= env.take(i));
        lemma_first_bad_prefix(env, i + 1);
    } else {
        assert(env.take(i) =~= env);
    }
}

impl StreamableHttpUpstreamConfig {
    pub fn validate(&self) -> (r: Result<(), ConfigError>)
        ensures
            check_result(http_fault(*self), r),
    {
        let parts = match parse_url(self.url.as_str()) {
            Err(m) => {
                let mut msg = string_from("invalid MCP URL: ");
                push_str(&mut msg, m.as_str());
                return Err(ConfigError::InvalidConfig(msg));
            },
            Ok(u) => u,
        };
        if !str_eq(parts.scheme.as_str(), "http") && !str_eq(parts.scheme.as_str(), "https") {
            return Err(
                ConfigError::InvalidConfig(
                    string_from("streamable HTTP upstream URL must use http or https"),
                ),
            );
        }
        match &self.bearer_token_env {
            Some(k) => validate_env_name(k.as_str()),
            None => Ok(()),
        }
    }
}

impl McpUpstreamConfig {
    /// An enabled upstream with a checked id and transport.
    pub fn new(id: String, transport: McpTransport) -> (r: Result<McpUpstreamConfig, ConfigError>)
        ensures
            !valid_upstream_id(id@) ==> (r matches Err(e) && e@ == upstream_id_error(id@)),
            valid_upstream_id(id@) ==> match upstream_fault(
                McpUpstreamConfig { id, enabled: true, transport },
            ) {
                None => r matches Ok(u) && u.id == id && u.enabled && u.transport == transport,
                Some(f) => r matches Err(e) && e@ == f,
            },
    {
        match validate_upstream_id(id.as_str()) {
            Err(e) => {
                return Err(e);
            },
            Ok(()) => {},
        }
        let upstream = McpUpstreamConfig { id, enabled: true, transport };
        match upstream.validate() {
            Err(e) => Err(e),
            Ok(()) => Ok(upstream),
        }
    }

    /// Checks the transport of this upstream.
    pub fn validate(&self) -> (r: Result<(), ConfigError>)
        ensures
            check_result(upstream_fault(*self), r),
    {
        match &self.transport {
            McpTransport::Stdio(c) => c.validate(),
            McpTransport::StreamableHttp(c) => c.validate(),
        }
    }
}

// ---------------------------------------------------------------------------
// The configuration.
/// Upstream servers by id, in id order.
#[derive(Clone, Debug)]
pub struct McpConfig {
    upstreams: Vec<(String, McpUpstreamConfig)>,
}

/// Why an entry of the configuration is refused, if it is: its key is no
/// upstream id, or its upstream breaks a rule.
pub open spec fn entry_fault(key: Seq<char>, u: McpUpstreamConfig) -> Option<ConfigFault> {
    if !valid_upstream_id(key) {
        Some(upstream_id_error(key))
    } else {
        upstream_fault(u)
    }
}

/// The position of the first refused entry, or the number of entries.
pub open spec fn first_faulty(ps: Seq<(String, McpUpstreamConfig)>) -> int
    decreases ps.len(),
{
    if ps.len() == 0 {
        0
    } else {
        let p = first_faulty(ps.drop_last());
        if p < ps.len() - 1 {
            p
        } else if entry_fault(ps.last().0@, ps.last().1) is Some {
            ps.len() - 1
        } else {
            ps.len() as int
        }
    }
}

proof fn lemma_first_faulty(ps: Seq<(String, McpUpstreamConfig)>)
    ensures
        0 <= first_faulty(ps) <= ps.len(),
        first_faulty(ps) < ps.len() ==> entry_fault(ps[first_faulty(ps)].0@, ps[first_faulty(ps)].1) is Some,
        forall|j: int| 0 <= j < first_faulty(ps) ==> entry_fault(#[trigger] ps[j].0@, ps[j].1) is None,
    decreases ps.len(),
{
    if ps.len() > 0 {
        let d = ps.drop_last();
        lemma_first_faulty(d);
        assert forall|j: int| 0 <= j < first_faulty(ps) implies entry_fault(
            #[trigger] ps[j].0@,
            ps[j].1,
        ) is None by {
            if j < d.len() {
                assert(ps[j] == d[j]);
            }
        }
        if first_faulty(d) < d.len() {
            assert(ps[first_faulty(d)] == d[first_faulty(d)]);
        }
    }
}

proof fn lemma_first_faulty_at(ps: Seq<(String, McpUpstreamConfig)>, i: int)
    requires
        0 <= i < ps.len(),
        entry_fault(ps[i].0@, ps[i].1) is Some,
        forall|j: int| 0 <= j < i ==> entry_fault(#[trigger] ps[j].0@, ps[j].1) is None,
    ensures
        first_faulty(ps) == i,
{
    lemma_first_faulty(ps);
    let f = first_faulty(ps);
    if f < i {
        assert(entry_fault(ps[f].0@, ps[f].1) is None);
    }
    if f > i {
        assert(entry_fault(ps[i].0@, ps[i].1) is None);
    }
}

impl McpConfig {
    /// Ids in ascending order, each once.
    pub closed spec fn wf(self) -> bool {
        keys_sorted(self.upstreams@)
    }

    /// The upstreams by id, in id order.
    pub closed spec fn entries(self) -> Seq<(String, McpUpstreamConfig)> {
        self.upstreams@
    }

    /// The configuration with no upstream.
    pub fn new() -> (r: McpConfig)
        ensures
            r.wf(),
            r.entries() == Seq::<(String, McpUpstreamConfig)>::empty(),
    {
        McpConfig { upstreams: Vec::new() }
    }

    /// The configuration of these upstreams; an id given twice keeps its last
    /// upstream.
    pub fn from_upstreams(upstreams: Vec<(String, McpUpstreamConfig)>) -> (r: McpConfig)
        ensures
            r.wf(),
            forall|k: Seq<char>| #[trigger] sm_get(r.entries(), k) == pairs_last(upstreams@, k),
    {
        McpConfig { upstreams: sm_from_pairs(upstreams) }
    }

    /// The upstreams by id, in id order.
    pub fn upstreams(&self) -> (r: &Vec<(String, McpUpstreamConfig)>)
        ensures
            r@ == self.entries(),
    {
        &self.upstreams
    }

    /// The upstream with this id, if any.
    pub fn get(&self, id: &str) -> (r: Option<&McpUpstreamConfig>)
        requires
            self.wf(),
        ensures
            match sm_get(self.entries(), id@) {
                Some(u) => r == Some(&u),
                None => r is None,
            },
    {
        match sm_find(&self.upstreams, id) {
            Some(i) => Some(&self.upstreams[i].1),
            None => None,
        }
    }

    pub fn contains_key(&self, id: &str) -> (r: bool)
        requires
            self.wf(),
        ensures
            r == sm_get(self.entries(), id@) is Some,
    {
        sm_find(&self.upstreams, id).is_some()
    }

    /// Checks every entry in id order, giving each upstream its id; stops at
    /// the first refused entry, whose upstream has its id set only when the
    /// id itself is valid.
    pub fn validate(&mut self) -> (r: Result<(), ConfigError>)
        requires
            old(self).wf(),
        ensures
            final(self).wf(),
            ({
                let o = old(self).entries();
                let n = final(self).entries();
                let f = first_faulty(o);
                &&& n.len() == o.len()
                &&& f < o.len() ==> (r matches Err(e) && Some(e@) == entry_fault(o[f].0@, o[f].1))
                &&& f == o.len() ==> r is Ok
                &&& validated_entries(o, n)
            }),
    {
        let ghost o = self.upstreams@;
        let mut i: usize = 0;
        while i < self.upstreams.len()
            invariant
                i <= o.len(),
                o == old(self).upstreams@,
                self.upstreams@.len() == o.len(),
                keys_sorted(o),
                forall|j: int| 0 <= j < i ==> entry_fault(#[trigger] o[j].0@, o[j].1) is None,
                forall|j: int|
                    0 <= j < o.len() ==> (#[trigger] self.upstreams@[j]).0 == o[j].0
                        && self.upstreams@[j].1.enabled == o[j].1.enabled
                        && self.upstreams@[j].1.transport == o[j].1.transport && if j < i {
                        self.upstreams@[j].1.id@ == o[j].0@
                    } else {
                        self.upstreams@[j].1.id == o[j].1.id
                    },
            decreases o.len() - i,
        {
            let ghost before = self.upstreams@;
            let (k, mut u) = self.upstreams.remove(i);
            assert(k == o[i as int].0 && u == before[i as int].1);
            match validate_upstream_id(k.as_str()) {
                Err(e) => {
                    self.upstreams.insert(i, (k, u));
                    proof {
                        assert(self.upstreams@ =~= before);
                        lemma_first_faulty_at(o, i as int);
                        lemma_same_keys_sorted(o, self.upstreams@);
                    }
                    return Err(e);
                },
                Ok(()) => {},
            }
            u.id = k.clone();
            let res = u.validate();
            self.upstreams.insert(i, (k, u));
            proof {
                assert(self.upstreams@ =~= before.update(i as int, self.upstreams@[i as int]));
                assert(upstream_fault(u) == upstream_fault(o[i as int].1));
            }
            match res {
                Err(e) => {
                    proof {
                        lemma_first_faulty_at(o, i as int);
                        lemma_same_keys_sorted(o, self.upstreams@);
                    }
                    return Err(e);
                },
                Ok(()) => {},
            }
            i = i + 1;
        }
        proof {
            lemma_first_faulty(o);
            if first_faulty(o) < o.len() {
                assert(entry_fault(o[first_faulty(o)].0@, o[first_faulty(o)].1) is None);
            }
            lemma_same_keys_sorted(o, self.upstreams@);
        }
        Ok(())
    }
}

proof fn lemma_same_keys_sorted(
    o: Seq<(String, McpUpstreamConfig)>,
    n: Seq<(String, McpUpstreamConfig)>,
)
    requires
        keys_sorted(o),
        n.len() == o.len(),
        forall|j: int| 0 <= j < n.len() ==> (#[trigger] n[j]).0 == o[j].0,
    ensures
        keys_sorted(n),
{
    assert forall|a: int, b: int| 0 <= a < b < n.len() implies crate::text::str_less(
        #[trigger] n[a].0@,
        #[trigger] n[b].0@,
    ) by {
        assert(n[a].0 == o[a].0 && n[b].0 == o[b].0);
    }
}

/// `n` is `o` after validation: the same keys, `enabled` flags and
/// transports in the same order; each upstream checked (those before the
/// first refused entry, and that entry when its key is a valid id) has its
/// key as its id, the others keep theirs.
pub open spec fn validated_entries(
    o: Seq<(String, McpUpstreamConfig)>,
    n: Seq<(String, McpUpstreamConfig)>,
) -> bool {
    let f = first_faulty(o);
    &&& n.len() == o.len()
    &&& forall|j: int|
        0 <= j < n.len() ==> (#[trigger] n[j]).0 == o[j].0 && n[j].1.enabled == o[j].1.enabled
            && n[j].1.transport == o[j].1.transport && if j < f || (j == f && valid_upstream_id(
            o[j].0@,
        )) {
            n[j].1.id@ == o[j].0@
        } else {
            n[j].1.id == o[j].1.id
        }
}

/// The whole agent configuration.
#[derive(Clone, Debug)]
pub struct AgentConfig {
    pub mcp: McpConfig,
}

impl AgentConfig {
    /// Checks the configuration; see `McpConfig::validate`.
    pub fn validate(&mut self) -> (r: Result<(), ConfigError>)
        requires
            old(self).mcp.wf(),
        ensures
            final(self).mcp.wf(),
            final(self).mcp.entries().len() == old(self).mcp.entries().len(),
            validated_entries(old(self).mcp.entries(), final(self).mcp.entries()),
            ({
                let o = old(self).mcp.entries();
                let f = first_faulty(o);
                &&& f < o.len() ==> (r matches Err(e) && Some(e@) == entry_fault(o[f].0@, o[f].1))
                &&& f == o.len() ==> r is Ok
            }),
    {
        self.mcp.validate()
    }
}

/// Adds `upstream` under its id, replacing any upstream with that id, once
/// its transport passes the rules; returns the replaced upstream.
pub fn add_or_replace_upstream(config: &mut AgentConfig, upstream: McpUpstreamConfig) -> (r:
    Result<Option<McpUpstreamConfig>, ConfigError>)
    requires
        old(config).mcp.wf(),
    ensures
        final(config).mcp.wf(),
        match upstream_fault(upstream) {
            Some(f) => (r matches Err(e) && e@ == f) && final(config).mcp.entries() == old(
                config,
            ).mcp.entries(),
            None => r == Ok::<Option<McpUpstreamConfig>, ConfigError>(
                sm_get(old(config).mcp.entries(), upstream.id@),
            ) && forall|k: Seq<char>| #[trigger]
                sm_get(final(config).mcp.entries(), k) == if k == upstream.id@ {
                    Some(upstream)
                } else {
                    sm_get(old(config).mcp.entries(), k)
                },
        },
{
    match upstream.validate() {
        Err(e) => {
            return Err(e);
        },
        Ok(()) => {},
    }
    let key = upstream.id.clone();
    let prev = sm_insert(&mut config.mcp.upstreams, key, upstream);
    Ok(prev)
}

/// Removes the upstream with this id, returning it.
pub fn remove_upstream(config: &mut AgentConfig, id: &str) -> (r: Option<McpUpstreamConfig>)
    requires
        old(config).mcp.wf(),
    ensures
        final(config).mcp.wf(),
        r == sm_get(old(config).mcp.entries(), id@),
        forall|k: Seq<char>| #[trigger] sm_get(final(config).mcp.entries(), k) == if k == id@ {
            None
        } else {
            sm_get(old(config).mcp.entries(), k)
        },
{
    sm_remove(&mut config.mcp.upstreams, id)
}


/// An upstream id is valid exactly when it is non-empty and written with
/// ASCII letters, digits, `-`, `_` and `.` only (such an id is never
/// blank).
pub proof fn law_upstream_id_chars(id: Seq<char>)
    ensures
        valid_upstream_id(id) <==> id.len() > 0 && forall|i: int|
            0 <= i < id.len() ==> ({
                let c = #[trigger] id[i];
                ('a' <= c && c <= 'z') || ('A' <= c && c <= 'Z') || ('0' <= c && c <= '9') || c
                    == '-' || c == '_' || c == '.'
            }),
{
    if id.len() > 0 && forall|i: int|
        0 <= i < id.len() ==> ({
            let c = #[trigger] id[i];
            ('a' <= c && c <= 'z') || ('A' <= c && c <= 'Z') || ('0' <= c && c <= '9') || c == '-'
                || c == '_' || c == '.'
        }) {
        let c0 = id[0];
        let cl = id[id.len() - 1];
        assert(!crate::text::is_ws(c0));
        assert(!crate::text::is_ws(cl));
        crate::text::lemma_trim_fixed(id);
        assert forall|i: int| 0 <= i < id.len() implies is_upstream_id_char(#[trigger] id[i]) by {
            let c = id[i];
            assert(('a' <= c && c <= 'z') || ('A' <= c && c <= 'Z') || ('0' <= c && c <= '9') || c
                == '-' || c == '_' || c == '.');
        }
    }
    if valid_upstream_id(id) {
        if id.len() == 0 {
            crate::text::lemma_trim_fixed(id);
        }
        assert forall|i: int| 0 <= i < id.len() implies ({
            let c = #[trigger] id[i];
            ('a' <= c && c <= 'z') || ('A' <= c && c <= 'Z') || ('0' <= c && c <= '9') || c == '-'
                || c == '_' || c == '.'
        }) by {
            assert(is_upstream_id_char(id[i]));
        }
    }
}

} // verus!
