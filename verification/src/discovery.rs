//! Finding the MCP servers that MCP clients have configured, from the texts
//! of their configuration files.
use vstd::prelude::*;
use crate::config_error::{ConfigError, ConfigFault};
use crate::config_value::{copy_value, entries_model, lemma_entries_model, lemma_vt_index_model, value_model, vt_get, ConfigValue, ValueView};
use crate::document::{parse_toml, toml_parse, toml_tree};
use crate::json_value::{json_entries_model, json_parse, json_tree, lemma_json_entries_model, parse_json, JsonValue, JsonView};
use crate::jsonc::{strip_jsonc, strip_jsonc_comments};
use crate::mcp_json::{first_missing, import_servers, insert_by_name, jo_get, object_entries, object_get, server_entries, server_keys, server_ok, sort_by_name, McpServerConfig, McpTransportConfig};
use crate::paths::{join_path, path_join};
use crate::strmap::sm_position;
use crate::text::{str_eq, string_from};

verus! {

broadcast use vstd::std_specs::vec::group_vec_axioms;

/// A server found in a client's configuration file.
#[derive(Clone, Debug, PartialEq, Eq)]
pub struct DiscoveredMcpServer {
    pub config: McpServerConfig,
    pub source_client: String,
    pub source_path: String,
    pub env_key_count: usize,
}

// ---------------------------------------------------------------------------
// One server.
/// `d` is `c` with the values of a local server's environment dropped (the
/// names stay in `env_keys`).
pub open spec fn scrubbed(c: McpServerConfig, d: McpServerConfig) -> bool {
    &&& d.id == c.id
    &&& d.name == c.name
    &&& d.enabled == c.enabled
    &&& d.env_keys == c.env_keys
    &&& match c.transport {
        McpTransportConfig::Stdio { command, args, .. } => d.transport matches McpTransportConfig::Stdio {
            command: c2,
            args: a2,
            env: e2,
        } && c2 == command && a2 == args && e2@.len() == 0,
        McpTransportConfig::StreamableHttp { .. } => d.transport == c.transport,
    }
}

/// Drops the values of a local server's environment.
pub fn scrub_env_values(c: McpServerConfig) -> (r: McpServerConfig)
    ensures
        scrubbed(c, r),
{
    let ghost c0 = c;
    let McpServerConfig { id, name, enabled, transport, env_keys } = c;
    let transport = match transport {
        McpTransportConfig::Stdio { command, args, env: _ } => McpTransportConfig::Stdio {
            command,
            args,
            env: Vec::new(),
        },
        other => other,
    };
    McpServerConfig { id, name, enabled, transport, env_keys }
}

/// The value under the first of `keys` that the object holds.
pub open spec fn present_under(o: Seq<(Seq<char>, JsonView)>, keys: Seq<Seq<char>>) -> Option<
    JsonView,
>
    decreases keys.len(),
{
    if keys.len() == 0 {
        None
    } else {
        match jo_get(o, keys[0]) {
            Some(x) => Some(x),
            None => present_under(o, keys.drop_first()),
        }
    }
}

/// How many environment variables the raw file gives the server `name`:
/// its entry is looked for in the first of `mcpServers`, `servers`, `mcp`
/// that is present (if it is an object), else at the top level.
pub open spec fn env_count(cv: JsonView, name: Seq<char>) -> nat {
    let root = object_entries(cv);
    let in_servers = match present_under(root, server_keys()) {
        Some(JsonView::Object(s)) => jo_get(s, name),
        _ => None,
    };
    let entry = match in_servers {
        Some(e) => Some(e),
        None => jo_get(root, name),
    };
    match entry {
        Some(JsonView::Object(e)) => match jo_get(e, "env"@) {
            Some(JsonView::Object(env)) => env.len(),
            _ => 0,
        },
        _ => 0,
    }
}

fn env_count_of(cv: &JsonValue, name: &str) -> (r: usize)
    ensures
        r == env_count(cv@, name@),
{
    let empty: Vec<(String, JsonValue)> = Vec::new();
    let root = match cv {
        JsonValue::Object(o) => o,
        _ => &empty,
    };
    proof {
        lemma_json_entries_model(empty@);
        assert(json_entries_model(empty@) =~= Seq::<(Seq<char>, JsonView)>::empty());
        assert(json_entries_model(root@) == object_entries(cv@));
        reveal_strlit("mcpServers");
        reveal_strlit("servers");
        reveal_strlit("mcp");
        reveal_strlit("env");
        let ks = server_keys();
        assert(ks.drop_first() =~= seq!["servers"@, "mcp"@]);
        assert(ks.drop_first().drop_first() =~= seq!["mcp"@]);
        assert(ks.drop_first().drop_first().drop_first() =~= Seq::<Seq<char>>::empty());
    }
    let servers = match object_get(root, "mcpServers") {
        Some(x) => Some(x),
        None => match object_get(root, "servers") {
            Some(x) => Some(x),
            None => object_get(root, "mcp"),
        },
    };
    let in_servers = match servers {
        Some(JsonValue::Object(s)) => object_get(s, name),
        _ => None,
    };
    let entry = match in_servers {
        Some(e) => Some(e),
        None => object_get(root, name),
    };
    proof {
        let rm = json_entries_model(root@);
        let ks = server_keys();
        assert(ks[0] == "mcpServers"@);
        assert(ks.drop_first()[0] == "servers"@);
        assert(ks.drop_first().drop_first()[0] == "mcp"@);
        assert(present_under(rm, ks.drop_first().drop_first().drop_first()) is None);
        assert(present_under(rm, ks.drop_first().drop_first()) == jo_get(rm, "mcp"@));
        assert(present_under(rm, ks.drop_first()) == match jo_get(rm, "servers"@) {
            Some(x) => Some(x),
            None => jo_get(rm, "mcp"@),
        });
        assert(present_under(rm, ks) == match jo_get(rm, "mcpServers"@) {
            Some(x) => Some(x),
            None => match jo_get(rm, "servers"@) {
                Some(x) => Some(x),
                None => jo_get(rm, "mcp"@),
            },
        });
    }
    match entry {
        Some(JsonValue::Object(e)) => match object_get(e, "env") {
            Some(JsonValue::Object(env)) => {
                proof {
                    lemma_json_entries_model(env@);
                }
                env.len()
            },
            _ => 0,
        },
        _ => 0,
    }
}

/// `d` is the server `c` as found in the file at `path` of `client`, whose
/// raw value is `cv`.
pub open spec fn discovered_ok(
    c: McpServerConfig,
    d: DiscoveredMcpServer,
    client: Seq<char>,
    path: Seq<char>,
    cv: JsonView,
) -> bool {
    &&& scrubbed(c, d.config)
    &&& d.source_client@ == client
    &&& d.source_path@ == path
    &&& d.env_key_count == env_count(cv, c.name@)
}

/// `out` is what a file's value `v` (raw value `cv`) yields when every one
/// of its servers has a command or a URL: each server's configuration, in
/// name order, scrubbed and with its source.
pub open spec fn found_list(
    v: JsonView,
    cv: JsonView,
    path: Seq<char>,
    client: Seq<char>,
    allow_root_fallback: bool,
    out: Seq<DiscoveredMcpServer>,
) -> bool {
    let ss = server_entries(v, allow_root_fallback);
    exists|b: Seq<McpServerConfig>|
        b.len() == ss.len() && (forall|i: int|
            0 <= i < ss.len() ==> #[trigger] server_ok(ss[i].0, ss[i].1, b[i])) && out.len()
            == b.len() && (forall|i: int|
            0 <= i < b.len() ==> #[trigger] discovered_ok(
                sort_by_name(b)[i],
                out[i],
                client,
                path,
                cv,
            ))
}

proof fn lemma_insert_len(t: Seq<McpServerConfig>, x: McpServerConfig)
    ensures
        insert_by_name(t, x).len() == t.len() + 1,
    decreases t.len(),
{
    if t.len() > 0 {
        lemma_insert_len(t.drop_last(), x);
    }
}

proof fn lemma_sort_len(s: Seq<McpServerConfig>)
    ensures
        sort_by_name(s).len() == s.len(),
    decreases s.len(),
{
    if s.len() > 0 {
        lemma_sort_len(s.drop_last());
        lemma_insert_len(sort_by_name(s.drop_last()), s.last());
    }
}

/// The servers of a file's value `v` (raw value `cv`), scrubbed and with
/// their source.
pub fn discover_json_value(
    v: &JsonValue,
    cv: &JsonValue,
    path: &str,
    client: &str,
    allow_root_fallback: bool,
) -> (r: Result<Vec<DiscoveredMcpServer>, ConfigError>)
    ensures
        ({
            let ss = server_entries(v@, allow_root_fallback);
            let f = first_missing(ss);
            &&& f < ss.len() ==> (r matches Err(e) && e@ == ConfigFault::MissingTarget(ss[f].0))
            &&& f >= ss.len() ==> (r matches Ok(out) && found_list(
                v@,
                cv@,
                path@,
                client@,
                allow_root_fallback,
                out@,
            ))
        }),
{
    let imported = import_servers(v, allow_root_fallback);
    let mut configs = match imported {
        Err(e) => {
            return Err(e);
        },
        Ok(c) => c,
    };
    let ghost ss = server_entries(v@, allow_root_fallback);
    let ghost all = configs@;
    let ghost b = choose|b: Seq<McpServerConfig>|
        b.len() == ss.len() && (forall|i: int|
            0 <= i < ss.len() ==> #[trigger] server_ok(ss[i].0, ss[i].1, b[i])) && all
            == sort_by_name(b);
    proof {
        lemma_sort_len(b);
    }
    let mut out: Vec<DiscoveredMcpServer> = Vec::new();
    let ghost mut done: int = 0;
    while configs.len() > 0
        invariant
            0 <= done <= all.len(),
            configs@ == all.subrange(done, all.len() as int),
            out@.len() == done,
            forall|i: int| 0 <= i < done ==> #[trigger] discovered_ok(all[i], out@[i], client@, path@, cv@),
        decreases configs@.len(),
    {
        let c = configs.remove(0);
        let count = env_count_of(cv, c.name.as_str());
        let d = DiscoveredMcpServer {
            config: scrub_env_values(c),
            source_client: string_from(client),
            source_path: string_from(path),
            env_key_count: count,
        };
        assert(c == all[done]);
        out.push(d);
        proof {
            assert(configs@ =~= all.subrange(done + 1, all.len() as int));
            done = done + 1;
        }
    }
    Ok(out)
}

/// The raw value of a file for counting environment variables: the file as
/// JSON, or null where it is not JSON.
pub open spec fn count_value(raw: Seq<char>) -> JsonView {
    match json_parse(raw) {
        Ok(x) => x,
        Err(_) => JsonView::Null,
    }
}

/// The servers configured in a client's JSON (with comments) file.
pub fn discover_json_raw(raw: &str, path: &str, client: &str, allow_root_fallback: bool) -> (r: Result<
    Vec<DiscoveredMcpServer>,
    ConfigError,
>)
    ensures
        match json_parse(strip_jsonc(raw@, false, false)) {
            Err(m) => r matches Err(e) && e@ == ConfigFault::Json(m),
            Ok(v) => {
                let ss = server_entries(v, allow_root_fallback);
                let f = first_missing(ss);
                &&& f < ss.len() ==> (r matches Err(e) && e@ == ConfigFault::MissingTarget(ss[f].0))
                &&& f >= ss.len() ==> (r matches Ok(out) && found_list(
                    v,
                    count_value(raw@),
                    path@,
                    client@,
                    allow_root_fallback,
                    out@,
                ))
            },
        },
{
    let stripped = strip_jsonc_comments(raw);
    let v = match parse_json(stripped.as_str()) {
        Err(m) => {
            return Err(ConfigError::Json(m));
        },
        Ok(v) => v,
    };
    let cv = match parse_json(raw) {
        Ok(x) => x,
        Err(_) => JsonValue::Null,
    };
    discover_json_value(&v, &cv, path, client, allow_root_fallback)
}

// ---------------------------------------------------------------------------
// One file.
pub open spec fn opt_text(t: Option<String>) -> Option<Seq<char>> {
    match t {
        Some(s) => Some(s@),
        None => None,
    }
}

/// What a client's JSON file contributes: nothing when it is missing, not
/// JSON, or has a server with neither a command nor a URL.
pub open spec fn json_file_found(
    text: Option<Seq<char>>,
    path: Seq<char>,
    client: Seq<char>,
    allow_root_fallback: bool,
    part: Seq<DiscoveredMcpServer>,
) -> bool {
    match text {
        None => part.len() == 0,
        Some(t) => match json_parse(strip_jsonc(t, false, false)) {
            Err(_) => part.len() == 0,
            Ok(v) => if first_missing(server_entries(v, allow_root_fallback)) < server_entries(
                v,
                allow_root_fallback,
            ).len() {
                part.len() == 0
            } else {
                found_list(v, count_value(t), path, client, allow_root_fallback, part)
            },
        },
    }
}

fn discover_json_path(text: &Option<String>, path: &str, client: &str, allow_root_fallback: bool) -> (r: Vec<
    DiscoveredMcpServer,
>)
    ensures
        json_file_found(opt_text(*text), path@, client@, allow_root_fallback, r@),
{
    match text {
        None => Vec::new(),
        Some(t) => match discover_json_raw(t.as_str(), path, client, allow_root_fallback) {
            Ok(v) => v,
            Err(_) => Vec::new(),
        },
    }
}

/// What `serde_json::to_value` makes of a TOML value (as the `toml` crate
/// serializes it), or `None` where it refuses.
pub uninterp spec fn toml_json(v: ValueView) -> Option<JsonView>;

/// Converts a document value with `serde_json::to_value` over the
/// `toml::Value` it stands for; `None` where that conversion fails or a
/// float's or datetime's text does not parse. The JSON it builds is named
/// `toml_json`, not stated.
#[verifier::external_body]
fn toml_value_json(v: ConfigValue) -> (r: Option<JsonValue>)
    ensures
        match r {
            Some(j) => toml_json(v@) == Some(j@),
            None => toml_json(v@) is None,
        },
{
    toml_tree(v).and_then(|t| serde_json::to_value(t).ok()).map(json_tree)
}

/// The entries of the `mcp_servers` table of a Codex document.
pub open spec fn codex_servers(doc: ValueView) -> Option<Seq<(Seq<char>, ValueView)>> {
    match doc {
        ValueView::Table(t) => match vt_get(t, "mcp_servers"@) {
            Some(ValueView::Table(s)) => Some(s),
            _ => None,
        },
        _ => None,
    }
}

/// Each Codex server as JSON, those that do not convert left out.
pub open spec fn codex_pairs(s: Seq<(Seq<char>, ValueView)>) -> Seq<(Seq<char>, JsonView)>
    decreases s.len(),
{
    if s.len() == 0 {
        Seq::empty()
    } else {
        let p = codex_pairs(s.drop_last());
        match toml_json(s.last().1) {
            Some(j) => p.push((s.last().0, j)),
            None => p,
        }
    }
}

/// What the Codex TOML file contributes: its `mcp_servers` read as a JSON
/// map of servers.
pub open spec fn codex_file_found(
    text: Option<Seq<char>>,
    path: Seq<char>,
    client: Seq<char>,
    part: Seq<DiscoveredMcpServer>,
) -> bool {
    match text {
        None => part.len() == 0,
        Some(t) => match toml_parse(t) {
            Err(_) => part.len() == 0,
            Ok(doc) => match codex_servers(doc) {
                None => part.len() == 0,
                Some(s) => {
                    let v = JsonView::Object(codex_pairs(s));
                    if first_missing(server_entries(v, true)) < server_entries(v, true).len() {
                        part.len() == 0
                    } else {
                        found_list(v, v, path, client, true, part)
                    }
                },
            },
        },
    }
}

fn discover_codex(text: &Option<String>, path: &str, client: &str) -> (r: Vec<DiscoveredMcpServer>)
    ensures
        codex_file_found(opt_text(*text), path@, client@, r@),
{
    let t = match text {
        None => {
            return Vec::new();
        },
        Some(t) => t,
    };
    let doc = match parse_toml(t.as_str()) {
        Err(_) => {
            return Vec::new();
        },
        Ok(d) => d,
    };
    proof {
        reveal_strlit("mcp_servers");
    }
    let table = match &doc {
        ConfigValue::Table(t) => t,
        _ => {
            return Vec::new();
        },
    };
    let j = sm_position(table, "mcp_servers");
    proof {
        lemma_vt_index_model(table@, "mcp_servers"@);
        lemma_entries_model(table@);
    }
    if j >= table.len() {
        return Vec::new();
    }
    let servers = match &table[j].1 {
        ConfigValue::Table(s) => s,
        _ => {
            return Vec::new();
        },
    };
    let ghost sm = entries_model(servers@);
    assert(codex_servers(doc@) == Some(sm));
    proof {
        lemma_entries_model(servers@);
    }
    let mut entries: Vec<(String, JsonValue)> = Vec::new();
    let mut i: usize = 0;
    proof {
        lemma_json_entries_model(entries@);
        assert(json_entries_model(entries@) =~= Seq::<(Seq<char>, JsonView)>::empty());
        assert(sm.take(0) =~= Seq::<(Seq<char>, ValueView)>::empty());
    }
    while i < servers.len()
        invariant
            i <= servers@.len(),
            sm == entries_model(servers@),
            sm.len() == servers@.len(),
            forall|k: int| 0 <= k < sm.len() ==> #[trigger] sm[k] == (servers@[k].0@, value_model(servers@[k].1)),
            json_entries_model(entries@) == codex_pairs(sm.take(i as int)),
        decreases servers@.len() - i,
    {
        let converted = toml_value_json(copy_value(&servers[i].1));
        proof {
            let p = sm.take(i + 1);
            assert(p.drop_last() =~= sm.take(i as int));
            assert(p.last() == sm[i as int]);
        }
        match converted {
            Some(j) => {
                let ghost before = entries@;
                entries.push((servers[i].0.clone(), j));
                proof {
                    assert(entries@.subrange(0, entries@.len() - 1) =~= before);
                }
            },
            None => {},
        }
        i = i + 1;
    }
    proof {
        assert(sm.take(i as int) =~= sm);
    }
    let root = JsonValue::Object(entries);
    match discover_json_value(&root, &root, path, client, true) {
        Ok(v) => v,
        Err(_) => Vec::new(),
    }
}

// ---------------------------------------------------------------------------
// All clients.
/// How a client's configuration file is read.
#[derive(Clone, Debug, PartialEq, Eq)]
pub enum SourceFormat {
    /// JSON with comments; with `allow_root_fallback`, a top level that
    /// looks like a map of servers is read as one.
    Json { allow_root_fallback: bool },
    /// Codex's TOML, whose `mcp_servers` table is read as a map of servers
    /// (a bare server map allowed).
    CodexToml,
}

/// A client's configuration file: the client's label, the file's path, how
/// it is read, and its text (`None` where it could not be read).
#[derive(Clone, Debug, PartialEq, Eq)]
pub struct DiscoverySource {
    pub client: String,
    pub path: String,
    pub format: SourceFormat,
    pub text: Option<String>,
}

/// What one source contributes.
pub open spec fn source_found(src: DiscoverySource, part: Seq<DiscoveredMcpServer>) -> bool {
    match src.format {
        SourceFormat::Json { allow_root_fallback } => json_file_found(
            opt_text(src.text),
            src.path@,
            src.client@,
            allow_root_fallback,
            part,
        ),
        SourceFormat::CodexToml => codex_file_found(opt_text(src.text), src.path@, src.client@, part),
    }
}

/// The parts one after the other.
pub open spec fn flatten(parts: Seq<Seq<DiscoveredMcpServer>>) -> Seq<DiscoveredMcpServer>
    decreases parts.len(),
{
    if parts.len() == 0 {
        Seq::empty()
    } else {
        flatten(parts.drop_last()) + parts.last()
    }
}

/// The Codex and Gemini configuration files under `home`, in the order they
/// are read.
pub fn codex_and_gemini_sources(home: &str) -> (r: Vec<DiscoverySource>)
    ensures
        r@.len() == 3,
        r@[0].client@ == "codex"@ && r@[0].path@ == path_join(path_join(home@, ".codex"@), "config.toml"@)
            && r@[0].format == SourceFormat::CodexToml && r@[0].text is None,
        r@[1].client@ == "gemini"@ && r@[1].path@ == path_join(path_join(home@, ".gemini"@), "mcp.json"@)
            && r@[1].format == (SourceFormat::Json { allow_root_fallback: false }) && r@[1].text is None,
        r@[2].client@ == "gemini"@ && r@[2].path@ == path_join(path_join(home@, ".gemini"@), "settings.json"@)
            && r@[2].format == (SourceFormat::Json { allow_root_fallback: false }) && r@[2].text is None,
{
    let codex = join_path(home, ".codex");
    let gemini = join_path(home, ".gemini");
    let mut r: Vec<DiscoverySource> = Vec::new();
    r.push(DiscoverySource {
        client: string_from("codex"),
        path: join_path(codex.as_str(), "config.toml"),
        format: SourceFormat::CodexToml,
        text: None,
    });
    r.push(DiscoverySource {
        client: string_from("gemini"),
        path: join_path(gemini.as_str(), "mcp.json"),
        format: SourceFormat::Json { allow_root_fallback: false },
        text: None,
    });
    r.push(DiscoverySource {
        client: string_from("gemini"),
        path: join_path(gemini.as_str(), "settings.json"),
        format: SourceFormat::Json { allow_root_fallback: false },
        text: None,
    });
    r
}

/// A client that keeps its servers in a settings directory under the home
/// directory (`settings.local.json`, `settings.json` and `mcp.json` there)
/// and in a legacy file directly under the home directory: its label, the
/// directory's name and the legacy file's name.
#[derive(Clone, Debug, PartialEq, Eq)]
pub struct SettingsClient {
    pub client: String,
    pub dir: String,
    pub legacy_file: String,
}

/// The files read for discovery under `home`, in order: the settings
/// client's `settings.local.json` and `settings.json` (servers under a key
/// only), its `mcp.json` and legacy file (a bare server map too), then
/// Codex's and Gemini's files. A server name found twice is kept from the
/// first of these.
pub fn known_sources(home: &str, settings: &SettingsClient) -> (r: Vec<DiscoverySource>)
    ensures
        r@.len() == 7,
        forall|i: int| 0 <= i < 4 ==> (#[trigger] r@[i]).client@ == settings.client@ && r@[i].text is None,
        r@[0].path@ == path_join(path_join(home@, settings.dir@), "settings.local.json"@)
            && r@[0].format == (SourceFormat::Json { allow_root_fallback: false }),
        r@[1].path@ == path_join(path_join(home@, settings.dir@), "settings.json"@)
            && r@[1].format == (SourceFormat::Json { allow_root_fallback: false }),
        r@[2].path@ == path_join(path_join(home@, settings.dir@), "mcp.json"@)
            && r@[2].format == (SourceFormat::Json { allow_root_fallback: true }),
        r@[3].path@ == path_join(home@, settings.legacy_file@)
            && r@[3].format == (SourceFormat::Json { allow_root_fallback: true }),
        r@[4].client@ == "codex"@ && r@[4].path@ == path_join(path_join(home@, ".codex"@), "config.toml"@)
            && r@[4].format == SourceFormat::CodexToml && r@[4].text is None,
        r@[5].client@ == "gemini"@ && r@[5].path@ == path_join(path_join(home@, ".gemini"@), "mcp.json"@)
            && r@[5].format == (SourceFormat::Json { allow_root_fallback: false }) && r@[5].text is None,
        r@[6].client@ == "gemini"@ && r@[6].path@ == path_join(path_join(home@, ".gemini"@), "settings.json"@)
            && r@[6].format == (SourceFormat::Json { allow_root_fallback: false }) && r@[6].text is None,
{
    let dir = join_path(home, settings.dir.as_str());
    let mut r: Vec<DiscoverySource> = Vec::new();
    r.push(DiscoverySource {
        client: settings.client.clone(),
        path: join_path(dir.as_str(), "settings.local.json"),
        format: SourceFormat::Json { allow_root_fallback: false },
        text: None,
    });
    r.push(DiscoverySource {
        client: settings.client.clone(),
        path: join_path(dir.as_str(), "settings.json"),
        format: SourceFormat::Json { allow_root_fallback: false },
        text: None,
    });
    r.push(DiscoverySource {
        client: settings.client.clone(),
        path: join_path(dir.as_str(), "mcp.json"),
        format: SourceFormat::Json { allow_root_fallback: true },
        text: None,
    });
    r.push(DiscoverySource {
        client: settings.client.clone(),
        path: join_path(home, settings.legacy_file.as_str()),
        format: SourceFormat::Json { allow_root_fallback: true },
        text: None,
    });
    let rest = codex_and_gemini_sources(home);
    let ghost first = r@;
    let mut rest = rest;
    r.append(&mut rest);
    assert(r@[0] == first[0] && r@[1] == first[1] && r@[2] == first[2] && r@[3] == first[3]);
    r
}

/// The servers with the first occurrence of each name kept, in order.
pub open spec fn dedupe_first_seen_spec(s: Seq<DiscoveredMcpServer>) -> Seq<DiscoveredMcpServer>
    decreases s.len(),
{
    if s.len() == 0 {
        s
    } else {
        let p = dedupe_first_seen_spec(s.drop_last());
        if exists|i: int| 0 <= i < p.len() && #[trigger] p[i].config.name@ == s.last().config.name@ {
            p
        } else {
            p.push(s.last())
        }
    }
}

/// Keeps the first server of each name, in order.
pub fn dedupe_first_seen(servers: Vec<DiscoveredMcpServer>) -> (r: Vec<DiscoveredMcpServer>)
    ensures
        r@ == dedupe_first_seen_spec(servers@),
{
    let ghost all = servers@;
    let mut rest = servers;
    let mut out: Vec<DiscoveredMcpServer> = Vec::new();
    let ghost mut done: int = 0;
    while rest.len() > 0
        invariant
            0 <= done <= all.len(),
            rest@ == all.subrange(done, all.len() as int),
            out@ == dedupe_first_seen_spec(all.take(done)),
        decreases rest@.len(),
    {
        let x = rest.remove(0);
        proof {
            let p = all.take(done + 1);
            assert(p.drop_last() =~= all.take(done));
            assert(p.last() == x);
        }
        let mut seen = false;
        let mut k: usize = 0;
        while k < out.len()
            invariant
                k <= out@.len(),
                seen == exists|i: int| 0 <= i < k && #[trigger] out@[i].config.name@ == x.config.name@,
            decreases out@.len() - k,
        {
            if str_eq(out[k].config.name.as_str(), x.config.name.as_str()) {
                seen = true;
            }
            k = k + 1;
        }
        if !seen {
            out.push(x);
        }
        proof {
            assert(rest@ =~= all.subrange(done + 1, all.len() as int));
            done = done + 1;
        }
    }
    assert(all.take(done) =~= all);
    out
}

/// The servers configured in the given sources, read in order; the first
/// server of each name wins.
pub fn discover_known_mcp_configs(sources: &Vec<DiscoverySource>) -> (r: Vec<DiscoveredMcpServer>)
    ensures
        exists|p: Seq<Seq<DiscoveredMcpServer>>|
            p.len() == sources@.len() && (forall|i: int|
                0 <= i < p.len() ==> #[trigger] source_found(sources@[i], p[i])) && r@
                == dedupe_first_seen_spec(flatten(p)),
{
    let mut all: Vec<DiscoveredMcpServer> = Vec::new();
    let ghost mut parts: Seq<Seq<DiscoveredMcpServer>> = Seq::empty();
    let mut i: usize = 0;
    while i < sources.len()
        invariant
            i <= sources@.len(),
            parts.len() == i,
            forall|k: int| 0 <= k < i ==> #[trigger] source_found(sources@[k], parts[k]),
            all@ == flatten(parts),
        decreases sources@.len() - i,
    {
        let src = &sources[i];
        let mut part = match &src.format {
            SourceFormat::Json { allow_root_fallback } => discover_json_path(
                &src.text,
                src.path.as_str(),
                src.client.as_str(),
                *allow_root_fallback,
            ),
            SourceFormat::CodexToml => discover_codex(&src.text, src.path.as_str(), src.client.as_str()),
        };
        let ghost before = all@;
        let ghost this = part@;
        all.append(&mut part);
        proof {
            let np = parts.push(this);
            assert(np.drop_last() =~= parts);
            parts = np;
        }
        i = i + 1;
    }
    dedupe_first_seen(all)
}


/// No two discovered servers share a name.
pub proof fn law_discovered_names_distinct(s: Seq<DiscoveredMcpServer>)
    ensures
        forall|i: int, j: int|
            0 <= i < j < dedupe_first_seen_spec(s).len() ==> #[trigger] dedupe_first_seen_spec(s)[i].config.name@
                != #[trigger] dedupe_first_seen_spec(s)[j].config.name@,
    decreases s.len(),
{
    if s.len() > 0 {
        law_discovered_names_distinct(s.drop_last());
        let p = dedupe_first_seen_spec(s.drop_last());
        let r = dedupe_first_seen_spec(s);
        if !(exists|i: int| 0 <= i < p.len() && #[trigger] p[i].config.name@ == s.last().config.name@) {
            assert forall|i: int, j: int| 0 <= i < j < r.len() implies #[trigger] r[i].config.name@
                != #[trigger] r[j].config.name@ by {
                assert(r[i] == p[i]);
                if j < p.len() {
                    assert(r[j] == p[j]);
                } else {
                    assert(r[j] == s.last());
                }
            }
        }
    }
}

} // verus!
