//! Importing MCP server definitions from the JSON (with comments) files
//! that MCP clients keep.
use vstd::prelude::*;
use crate::config_error::{ConfigError, ConfigFault};
use crate::json_value::{
    json_entries_model, json_items_model, json_model, json_objects_sorted, json_parse,
    keys_ascending, lemma_entries_objects_sorted, lemma_json_entries_model,
    lemma_json_items_model, parse_json, JsonValue, JsonView,
};
use crate::jsonc::{strip_jsonc, strip_jsonc_comments};
use crate::strmap::{keys_sorted, lemma_sm_index, pairs_last, sm_from_pairs, sm_get, sm_index, sm_keys, sm_position};
use crate::text::{lemma_str_less_irrefl, lemma_str_less_total, lemma_str_less_trans, str_less, string_from, string_less};

verus! {

broadcast use vstd::std_specs::vec::group_vec_axioms;

/// The identifier of an MCP server.
#[derive(Clone, Debug, PartialEq, Eq)]
pub struct McpServerId {
    pub id: String,
}

impl McpServerId {
    /// The identifier for a server of the given name.
    pub fn new(name: &str) -> (r: McpServerId)
        ensures
            r.id@ == name@,
    {
        McpServerId { id: string_from(name) }
    }
}

/// How an imported server is reached.
#[derive(Clone, Debug, PartialEq, Eq)]
pub enum McpTransportConfig {
    /// A local process; `env` in ascending key order, each key once.
    Stdio { command: String, args: Vec<String>, env: Vec<(String, String)> },
    StreamableHttp { url: String, bearer_token_env: Option<String> },
}

/// An MCP server definition read from a client's configuration file.
#[derive(Clone, Debug, PartialEq, Eq)]
pub struct McpServerConfig {
    pub id: McpServerId,
    pub name: String,
    pub enabled: bool,
    pub transport: McpTransportConfig,
    pub env_keys: Vec<String>,
}

// ---------------------------------------------------------------------------
// Objects of the JSON model.
/// The position of the first entry under `k`, or the number of entries.
pub open spec fn jo_index(o: Seq<(Seq<char>, JsonView)>, k: Seq<char>) -> int
    decreases o.len(),
{
    if o.len() == 0 {
        0
    } else {
        let p = jo_index(o.drop_last(), k);
        if p < o.len() - 1 {
            p
        } else if o.last().0 == k {
            o.len() - 1
        } else {
            o.len() as int
        }
    }
}

/// The value under `k`, as a JSON object lookup finds it.
pub open spec fn jo_get(o: Seq<(Seq<char>, JsonView)>, k: Seq<char>) -> Option<JsonView> {
    if jo_index(o, k) < o.len() {
        Some(o[jo_index(o, k)].1)
    } else {
        None
    }
}

proof fn lemma_jo_index(o: Seq<(Seq<char>, JsonView)>, k: Seq<char>)
    ensures
        0 <= jo_index(o, k) <= o.len(),
        jo_index(o, k) < o.len() ==> o[jo_index(o, k)].0 == k,
        forall|j: int| 0 <= j < jo_index(o, k) ==> #[trigger] o[j].0 != k,
    decreases o.len(),
{
    if o.len() > 0 {
        let d = o.drop_last();
        lemma_jo_index(d, k);
        assert forall|j: int| 0 <= j < jo_index(o, k) implies #[trigger] o[j].0 != k by {
            if j < d.len() {
                assert(o[j] == d[j]);
            }
        }
        let p = jo_index(d, k);
        if p < d.len() {
            assert(o[p] == d[p]);
        }
    }
}

proof fn lemma_jo_index_at(o: Seq<(Seq<char>, JsonView)>, k: Seq<char>, i: int)
    requires
        0 <= i <= o.len(),
        i < o.len() ==> o[i].0 == k,
        forall|j: int| 0 <= j < i ==> #[trigger] o[j].0 != k,
    ensures
        jo_index(o, k) == i,
{
    lemma_jo_index(o, k);
    let f = jo_index(o, k);
    if f < i {
        assert(o[f].0 != k);
    }
    if i < f {
        assert(o[i].0 != k);
    }
}

proof fn lemma_jo_index_model(s: Seq<(String, JsonValue)>, k: Seq<char>)
    ensures
        jo_index(json_entries_model(s), k) == sm_index(s, k),
{
    lemma_json_entries_model(s);
    lemma_sm_index(s, k);
    let m = json_entries_model(s);
    let i = sm_index(s, k);
    assert forall|j: int| 0 <= j < i implies #[trigger] m[j].0 != k by {
        assert(m[j] == (s[j].0@, json_model(s[j].1)));
        assert(s[j].0@ != k);
    }
    if i < s.len() {
        assert(m[i] == (s[i].0@, json_model(s[i].1)));
    }
    lemma_jo_index_at(m, k, i);
}

/// The entries of an object; nothing for any other value.
pub open spec fn object_entries(v: JsonView) -> Seq<(Seq<char>, JsonView)> {
    match v {
        JsonView::Object(o) => o,
        _ => Seq::empty(),
    }
}

/// The value under `key` in an object.
pub(crate) fn object_get<'a>(o: &'a Vec<(String, JsonValue)>, key: &str) -> (r: Option<&'a JsonValue>)
    ensures
        match jo_get(json_entries_model(o@), key@) {
            Some(v) => r matches Some(x) && x@ == v,
            None => r is None,
        },
{
    let j = sm_position(o, key);
    proof {
        lemma_jo_index_model(o@, key@);
        lemma_json_entries_model(o@);
    }
    if j < o.len() {
        Some(&o[j].1)
    } else {
        None
    }
}

/// The string under `key` in an object, if it is a string.
pub open spec fn jo_str(o: Seq<(Seq<char>, JsonView)>, key: Seq<char>) -> Option<Seq<char>> {
    match jo_get(o, key) {
        Some(JsonView::String(s)) => Some(s),
        _ => None,
    }
}

fn object_str(o: &Vec<(String, JsonValue)>, key: &str) -> (r: Option<String>)
    ensures
        match jo_str(json_entries_model(o@), key@) {
            Some(s) => r matches Some(x) && x@ == s,
            None => r is None,
        },
{
    match object_get(o, key) {
        Some(JsonValue::String(s)) => Some(s.clone()),
        _ => None,
    }
}

// ---------------------------------------------------------------------------
// Which entries are servers.
/// The keys under which clients keep their servers, in the order they are
/// looked for.
pub open spec fn server_keys() -> Seq<Seq<char>> {
    seq!["mcpServers"@, "servers"@, "mcp"@]
}

/// The first of `keys` under which the object holds an object.
pub open spec fn first_object_under(o: Seq<(Seq<char>, JsonView)>, keys: Seq<Seq<char>>) -> Option<
    Seq<(Seq<char>, JsonView)>,
>
    decreases keys.len(),
{
    if keys.len() == 0 {
        None
    } else {
        match jo_get(o, keys[0]) {
            Some(JsonView::Object(s)) => Some(s),
            _ => first_object_under(o, keys.drop_first()),
        }
    }
}

/// An entry that looks like a server: an object with a `command` or `url`.
pub open spec fn looks_like_server(v: JsonView) -> bool {
    match v {
        JsonView::Object(e) => jo_get(e, "command"@) is Some || jo_get(e, "url"@) is Some,
        _ => false,
    }
}

/// Whether the top-level object itself looks like a map of servers.
pub open spec fn root_looks_like_servers(v: JsonView) -> bool {
    match v {
        JsonView::Object(o) => exists|i: int| 0 <= i < o.len() && looks_like_server(#[trigger] o[i].1),
        _ => false,
    }
}

/// The (name, definition) entries of the servers in a client's file.
pub open spec fn server_entries(v: JsonView, allow_root_fallback: bool) -> Seq<
    (Seq<char>, JsonView),
> {
    match first_object_under(object_entries(v), server_keys()) {
        Some(s) => s,
        None => if allow_root_fallback && root_looks_like_servers(v) {
            object_entries(v)
        } else {
            Seq::empty()
        },
    }
}

fn find_servers<'a>(v: &'a JsonValue, allow_root_fallback: bool) -> (r: Option<
    &'a Vec<(String, JsonValue)>,
>)
    ensures
        match r {
            Some(s) => json_entries_model(s@) == server_entries(v@, allow_root_fallback),
            None => server_entries(v@, allow_root_fallback).len() == 0,
        },
{
    let o = match v {
        JsonValue::Object(o) => o,
        _ => {
            proof {
                let e = Seq::<(Seq<char>, JsonView)>::empty();
                assert(server_keys().skip(1).drop_first() =~= server_keys().skip(2));
                assert(server_keys().skip(2).drop_first() =~= server_keys().skip(3));
                assert(server_keys().drop_first() =~= server_keys().skip(1));
                assert(server_keys().skip(3).len() == 0);
                assert(first_object_under(e, server_keys().skip(3)) is None);
                assert(first_object_under(e, server_keys().skip(2)) is None);
                assert(first_object_under(e, server_keys().skip(1)) is None);
            }
            return None;
        },
    };
    let ghost m = json_entries_model(o@);
    assert(m == object_entries(v@));
    let keys = ["mcpServers", "servers", "mcp"];
    let mut i: usize = 0;
    proof {
        assert(server_keys().skip(0) =~= server_keys());
    }
    while i < 3
        invariant
            i <= 3,
            m == json_entries_model(o@),
            m == object_entries(v@),
            v@ is Object,
            keys@ == seq!["mcpServers", "servers", "mcp"],
            first_object_under(m, server_keys()) == first_object_under(m, server_keys().skip(i as int)),
        decreases 3 - i,
    {
        let key = keys[i];
        proof {
            let ks = server_keys().skip(i as int);
            assert(ks[0] == key@) by {
                reveal_strlit("mcpServers");
                reveal_strlit("servers");
                reveal_strlit("mcp");
            }
            assert(ks.drop_first() =~= server_keys().skip(i + 1));
        }
        match object_get(o, key) {
            Some(JsonValue::Object(s)) => {
                return Some(s);
            },
            _ => {},
        }
        i = i + 1;
    }
    assert(server_keys().skip(3) =~= Seq::<Seq<char>>::empty());
    if allow_root_fallback && root_is_server_map(o) {
        return Some(o);
    }
    proof {
        if allow_root_fallback && root_looks_like_servers(v@) {
            let w = choose|i: int| 0 <= i < m.len() && looks_like_server(#[trigger] m[i].1);
            assert(looks_like_server(m[w].1));
        }
    }
    None
}

fn root_is_server_map(o: &Vec<(String, JsonValue)>) -> (r: bool)
    ensures
        r == exists|i: int|
            0 <= i < json_entries_model(o@).len() && looks_like_server(
                #[trigger] json_entries_model(o@)[i].1,
            ),
{
    let ghost m = json_entries_model(o@);
    proof {
        lemma_json_entries_model(o@);
    }
    let mut i: usize = 0;
    while i < o.len()
        invariant
            i <= o@.len(),
            m == json_entries_model(o@),
            m.len() == o@.len(),
            forall|j: int| 0 <= j < m.len() ==> #[trigger] m[j] == (o@[j].0@, json_model(o@[j].1)),
            forall|j: int| 0 <= j < i ==> !looks_like_server(#[trigger] m[j].1),
        decreases o@.len() - i,
    {
        assert(m[i as int].1 == json_model(o@[i as int].1));
        match &o[i].1 {
            JsonValue::Object(e) => {
                let c = object_get(e, "command");
                let u = object_get(e, "url");
                proof {
                    reveal_strlit("command");
                    reveal_strlit("url");
                }
                if c.is_some() || u.is_some() {
                    assert(looks_like_server(m[i as int].1));
                    return true;
                }
            },
            _ => {},
        }
        i = i + 1;
    }
    false
}


// ---------------------------------------------------------------------------
// One server.
/// The strings among the items, in order.
pub open spec fn string_items(a: Seq<JsonView>) -> Seq<Seq<char>>
    decreases a.len(),
{
    if a.len() == 0 {
        Seq::empty()
    } else {
        let p = string_items(a.drop_last());
        match a.last() {
            JsonView::String(s) => p.push(s),
            _ => p,
        }
    }
}

/// The strings of an array value; nothing for any other value.
pub open spec fn array_strings(v: Option<JsonView>) -> Seq<Seq<char>> {
    match v {
        Some(JsonView::Array(a)) => string_items(a),
        _ => Seq::empty(),
    }
}

/// The command and arguments of a server: `command` as a string with the
/// strings of `args`, or `command` as an array whose first item is the
/// command (a string) and whose further string items are the arguments
/// (`args` when it has none).
pub open spec fn command_and_args(o: Seq<(Seq<char>, JsonView)>) -> Option<
    (Seq<char>, Seq<Seq<char>>),
> {
    match jo_get(o, "command"@) {
        Some(JsonView::String(c)) => Some((c, array_strings(jo_get(o, "args"@)))),
        Some(JsonView::Array(a)) => if a.len() > 0 && a[0] is String {
            Some(
                (
                    a[0]->String_0,
                    if a.len() > 1 {
                        string_items(a.skip(1))
                    } else {
                        array_strings(jo_get(o, "args"@))
                    },
                ),
            )
        } else {
            None
        },
        _ => None,
    }
}

/// The keys under which a server's URL may stand, in the order they are
/// looked for.
pub open spec fn url_keys() -> Seq<Seq<char>> {
    seq!["url"@, "baseUrl"@, "base_url"@, "serverUrl"@, "server_url"@]
}

/// The first string held under one of `keys`.
pub open spec fn first_str_under(o: Seq<(Seq<char>, JsonView)>, keys: Seq<Seq<char>>) -> Option<
    Seq<char>,
>
    decreases keys.len(),
{
    if keys.len() == 0 {
        None
    } else {
        match jo_str(o, keys[0]) {
            Some(s) => Some(s),
            None => first_str_under(o, keys.drop_first()),
        }
    }
}

pub open spec fn str_or_empty(v: JsonView) -> Seq<char> {
    match v {
        JsonView::String(s) => s,
        _ => Seq::empty(),
    }
}

/// The `env` object's entries as (name, value) pairs, a value that is not a
/// string read as empty.
pub open spec fn env_pairs(o: Seq<(Seq<char>, JsonView)>) -> Seq<(Seq<char>, Seq<char>)> {
    match jo_get(o, "env"@) {
        Some(JsonView::Object(e)) => e.map_values(
            |p: (Seq<char>, JsonView)| (p.0, str_or_empty(p.1)),
        ),
        _ => Seq::empty(),
    }
}

/// The value of the last pair under `k`.
pub open spec fn pv_last(ps: Seq<(Seq<char>, Seq<char>)>, k: Seq<char>) -> Option<Seq<char>>
    decreases ps.len(),
{
    if ps.len() == 0 {
        None
    } else if ps.last().0 == k {
        Some(ps.last().1)
    } else {
        pv_last(ps.drop_last(), k)
    }
}

pub open spec fn opt_str(o: Option<String>) -> Option<Seq<char>> {
    match o {
        Some(s) => Some(s@),
        None => None,
    }
}

pub open spec fn strs(v: Seq<String>) -> Seq<Seq<char>> {
    v.map_values(|x: String| x@)
}

/// `env` is the map of the pairs: keys ascending, each key's last value.
pub open spec fn env_built(env: Seq<(String, String)>, pairs: Seq<(Seq<char>, Seq<char>)>) -> bool {
    &&& keys_sorted(env)
    &&& forall|k: Seq<char>| #[trigger] opt_str(sm_get(env, k)) == pv_last(pairs, k)
}

/// `c` is the server that the definition `spec` under `name` stands for.
pub open spec fn server_ok(name: Seq<char>, spec: JsonView, c: McpServerConfig) -> bool {
    let o = object_entries(spec);
    &&& c.id.id@ == name
    &&& c.name@ == name
    &&& !c.enabled
    &&& exists|env: Seq<(String, String)>|
        env_built(env, env_pairs(o)) && strs(c.env_keys@) == sm_keys(env) && (
        c.transport matches McpTransportConfig::Stdio { env: e, .. } ==> e@ == env)
    &&& match command_and_args(o) {
        Some((cmd, args)) => c.transport matches McpTransportConfig::Stdio { command, args: a, .. }
            && command@ == cmd && strs(a@) == args,
        None => match first_str_under(o, url_keys()) {
            Some(u) => c.transport matches McpTransportConfig::StreamableHttp {
                url,
                bearer_token_env,
            } && url@ == u && opt_str(bearer_token_env) == jo_str(o, "bearer_token_env"@),
            None => false,
        },
    }
}

/// A definition with neither a command nor a URL.
pub open spec fn server_missing(spec: JsonView) -> bool {
    command_and_args(object_entries(spec)) is None && first_str_under(
        object_entries(spec),
        url_keys(),
    ) is None
}

fn string_items_from(items: &Vec<JsonValue>, start: usize) -> (r: Vec<String>)
    requires
        start <= items@.len(),
    ensures
        strs(r@) == string_items(json_items_model(items@).skip(start as int)),
{
    let ghost m = json_items_model(items@);
    proof {
        lemma_json_items_model(items@);
        assert(m.subrange(start as int, start as int) =~= Seq::<JsonView>::empty());
    }
    let mut out: Vec<String> = Vec::new();
    let mut i: usize = start;
    while i < items.len()
        invariant
            start <= i <= items@.len(),
            m == json_items_model(items@),
            m.len() == items@.len(),
            forall|j: int| 0 <= j < m.len() ==> #[trigger] m[j] == json_model(items@[j]),
            strs(out@) == string_items(m.subrange(start as int, i as int)),
        decreases items@.len() - i,
    {
        proof {
            let p = m.subrange(start as int, i + 1);
            assert(p.drop_last() =~= m.subrange(start as int, i as int));
            assert(p.last() == json_model(items@[i as int]));
        }
        match &items[i] {
            JsonValue::String(x) => {
                let ghost before = out@;
                out.push(x.clone());
                proof {
                    assert(strs(out@) =~= strs(before).push(x@));
                }
            },
            _ => {},
        }
        i = i + 1;
    }
    assert(m.subrange(start as int, items@.len() as int) =~= m.skip(start as int));
    out
}

fn array_strings_of(v: Option<&JsonValue>) -> (r: Vec<String>)
    ensures
        strs(r@) == array_strings(match v {
            Some(x) => Some(x@),
            None => None,
        }),
{
    match v {
        Some(JsonValue::Array(a)) => {
            let r = string_items_from(a, 0);
            assert(json_items_model(a@).skip(0) =~= json_items_model(a@));
            r
        },
        _ => {
            let r: Vec<String> = Vec::new();
            assert(strs(r@) =~= Seq::<Seq<char>>::empty());
            r
        },
    }
}

fn command_and_args_of(o: &Vec<(String, JsonValue)>) -> (r: Option<(String, Vec<String>)>)
    ensures
        match command_and_args(json_entries_model(o@)) {
            Some((c, a)) => r matches Some(x) && x.0@ == c && strs(x.1@) == a,
            None => r is None,
        },
{
    proof {
        reveal_strlit("command");
        reveal_strlit("args");
    }
    match object_get(o, "command") {
        Some(JsonValue::String(c)) => Some((c.clone(), array_strings_of(object_get(o, "args")))),
        Some(JsonValue::Array(a)) => {
            proof {
                lemma_json_items_model(a@);
            }
            if a.len() == 0 {
                return None;
            }
            let first = match &a[0] {
                JsonValue::String(x) => x.clone(),
                _ => {
                    return None;
                },
            };
            let args = if a.len() > 1 {
                string_items_from(a, 1)
            } else {
                array_strings_of(object_get(o, "args"))
            };
            Some((first, args))
        },
        _ => None,
    }
}

fn url_of(o: &Vec<(String, JsonValue)>) -> (r: Option<String>)
    ensures
        match first_str_under(json_entries_model(o@), url_keys()) {
            Some(u) => r matches Some(x) && x@ == u,
            None => r is None,
        },
{
    let ghost m = json_entries_model(o@);
    let keys = ["url", "baseUrl", "base_url", "serverUrl", "server_url"];
    let mut i: usize = 0;
    proof {
        assert(url_keys().skip(0) =~= url_keys());
    }
    while i < 5
        invariant
            i <= 5,
            m == json_entries_model(o@),
            keys@ == seq!["url", "baseUrl", "base_url", "serverUrl", "server_url"],
            first_str_under(m, url_keys()) == first_str_under(m, url_keys().skip(i as int)),
        decreases 5 - i,
    {
        let key = keys[i];
        proof {
            let ks = url_keys().skip(i as int);
            assert(ks[0] == key@) by {
                reveal_strlit("url");
                reveal_strlit("baseUrl");
                reveal_strlit("base_url");
                reveal_strlit("serverUrl");
                reveal_strlit("server_url");
            }
            assert(ks.drop_first() =~= url_keys().skip(i + 1));
        }
        match object_str(o, key) {
            Some(u) => {
                return Some(u);
            },
            None => {},
        }
        i = i + 1;
    }
    assert(url_keys().skip(5) =~= Seq::<Seq<char>>::empty());
    None
}

proof fn lemma_pairs_last_view(pe: Seq<(String, String)>, pv: Seq<(Seq<char>, Seq<char>)>, k: Seq<char>)
    requires
        pe.len() == pv.len(),
        forall|i: int| 0 <= i < pe.len() ==> #[trigger] pv[i] == (pe[i].0@, pe[i].1@),
    ensures
        opt_str(pairs_last(pe, k)) == pv_last(pv, k),
    decreases pe.len(),
{
    if pe.len() > 0 {
        let dp = pe.drop_last();
        let dv = pv.drop_last();
        assert forall|i: int| 0 <= i < dp.len() implies #[trigger] dv[i] == (dp[i].0@, dp[i].1@) by {
            assert(dv[i] == pv[i]);
            assert(dp[i] == pe[i]);
        }
        assert(pv.last() == (pe.last().0@, pe.last().1@));
        lemma_pairs_last_view(dp, dv, k);
    }
}

/// The server that the definition `spec` under `name` stands for.
pub fn parse_server(name: &str, spec: &JsonValue) -> (r: Result<McpServerConfig, ConfigError>)
    ensures
        server_missing(spec@) ==> (r matches Err(e) && e@ == ConfigFault::MissingTarget(name@)),
        !server_missing(spec@) ==> (r matches Ok(c) && server_ok(name@, spec@, c)),
{
    let empty: Vec<(String, JsonValue)> = Vec::new();
    let o = match spec {
        JsonValue::Object(o) => o,
        _ => &empty,
    };
    let ghost m = json_entries_model(o@);
    proof {
        lemma_json_entries_model(empty@);
        assert(json_entries_model(empty@) =~= Seq::<(Seq<char>, JsonView)>::empty());
        assert(m == object_entries(spec@));
        reveal_strlit("env");
        reveal_strlit("bearer_token_env");
    }
    // The environment: the `env` object's entries, as a map.
    let mut pairs: Vec<(String, String)> = Vec::new();
    let ghost pv = env_pairs(m);
    match object_get(o, "env") {
        Some(JsonValue::Object(e)) => {
            proof {
                lemma_json_entries_model(e@);
            }
            let ghost em = json_entries_model(e@);
            let mut i: usize = 0;
            while i < e.len()
                invariant
                    i <= e@.len(),
                    em == json_entries_model(e@),
                    em.len() == e@.len(),
                    forall|j: int| 0 <= j < em.len() ==> #[trigger] em[j] == (e@[j].0@, json_model(e@[j].1)),
                    pv == em.map_values(|p: (Seq<char>, JsonView)| (p.0, str_or_empty(p.1))),
                    pairs@.len() == i,
                    forall|j: int| 0 <= j < i ==> #[trigger] pv[j] == (pairs@[j].0@, pairs@[j].1@),
                decreases e@.len() - i,
            {
                let value = match &e[i].1 {
                    JsonValue::String(x) => x.clone(),
                    _ => String::new(),
                };
                proof {
                    assert(em[i as int] == (e@[i as int].0@, json_model(e@[i as int].1)));
                    assert(pv[i as int] == (em[i as int].0, str_or_empty(em[i as int].1)));
                }
                pairs.push((e[i].0.clone(), value));
                i = i + 1;
            }
        },
        _ => {
            proof {
                assert(pv =~= Seq::<(Seq<char>, Seq<char>)>::empty());
            }
        },
    }
    let ghost pe = pairs@;
    proof {
        assert(pe.len() == pv.len());
    }
    let env = sm_from_pairs(pairs);
    proof {
        assert forall|k: Seq<char>| #[trigger] opt_str(sm_get(env@, k)) == pv_last(pv, k) by {
            lemma_pairs_last_view(pe, pv, k);
        }
    }
    let mut env_keys: Vec<String> = Vec::new();
    let mut i: usize = 0;
    while i < env.len()
        invariant
            i <= env@.len(),
            env_keys@.len() == i,
            forall|j: int| 0 <= j < i ==> #[trigger] env_keys@[j]@ == env@[j].0@,
        decreases env@.len() - i,
    {
        env_keys.push(env[i].0.clone());
        i = i + 1;
    }
    proof {
        assert(strs(env_keys@) =~= sm_keys(env@));
    }
    let id = McpServerId::new(name);
    match command_and_args_of(o) {
        Some((command, args)) => {
            let c = McpServerConfig {
                id,
                name: string_from(name),
                enabled: false,
                transport: McpTransportConfig::Stdio { command, args, env },
                env_keys,
            };
            assert(env_built(env@, env_pairs(m)));
            return Ok(c);
        },
        None => {},
    }
    match url_of(o) {
        Some(url) => {
            let bearer_token_env = object_str(o, "bearer_token_env");
            let c = McpServerConfig {
                id,
                name: string_from(name),
                enabled: false,
                transport: McpTransportConfig::StreamableHttp { url, bearer_token_env },
                env_keys,
            };
            assert(env_built(env@, env_pairs(m)));
            Ok(c)
        },
        None => Err(ConfigError::MissingTarget { name: string_from(name) }),
    }
}


// ---------------------------------------------------------------------------
// All servers of a file.
/// `t` with `x` inserted after the last server whose name is not greater
/// than its own (one step of a stable sort by name).
pub open spec fn insert_by_name(t: Seq<McpServerConfig>, x: McpServerConfig) -> Seq<McpServerConfig>
    decreases t.len(),
{
    if t.len() == 0 {
        seq![x]
    } else if str_less(x.name@, t.last().name@) {
        insert_by_name(t.drop_last(), x).push(t.last())
    } else {
        t.push(x)
    }
}

/// The servers stably sorted by name.
pub open spec fn sort_by_name(s: Seq<McpServerConfig>) -> Seq<McpServerConfig>
    decreases s.len(),
{
    if s.len() == 0 {
        s
    } else {
        insert_by_name(sort_by_name(s.drop_last()), s.last())
    }
}

proof fn lemma_insert_by_name(t: Seq<McpServerConfig>, x: McpServerConfig, j: int)
    requires
        0 <= j <= t.len(),
        forall|i: int| j <= i < t.len() ==> str_less(x.name@, #[trigger] t[i].name@),
        j > 0 ==> !str_less(x.name@, t[j - 1].name@),
    ensures
        insert_by_name(t, x) == t.take(j).push(x) + t.skip(j),
    decreases t.len(),
{
    if t.len() == 0 {
        assert(t.take(j).push(x) + t.skip(j) =~= seq![x]);
    } else if j == t.len() {
        assert(t.take(j).push(x) + t.skip(j) =~= t.push(x));
    } else {
        let d = t.drop_last();
        assert(str_less(x.name@, t[t.len() - 1].name@));
        assert forall|i: int| j <= i < d.len() implies str_less(x.name@, #[trigger] d[i].name@) by {
            assert(d[i] == t[i]);
        }
        if j > 0 {
            assert(d[j - 1] == t[j - 1]);
        }
        lemma_insert_by_name(d, x, j);
        assert((d.take(j).push(x) + d.skip(j)).push(t.last()) =~= t.take(j).push(x) + t.skip(j));
    }
}

fn insert_server(t: &mut Vec<McpServerConfig>, x: McpServerConfig)
    ensures
        final(t)@ == insert_by_name(old(t)@, x),
{
    let mut j: usize = t.len();
    while j > 0 && string_less(x.name.as_str(), t[j - 1].name.as_str())
        invariant
            j <= t@.len(),
            t@ == old(t)@,
            forall|i: int| j <= i < t@.len() ==> str_less(x.name@, #[trigger] t@[i].name@),
        decreases j,
    {
        j = j - 1;
    }
    proof {
        lemma_insert_by_name(t@, x, j as int);
    }
    let ghost before = t@;
    t.insert(j, x);
    assert(t@ =~= before.take(j as int).push(x) + before.skip(j as int));
}

/// The index of the first definition with neither a command nor a URL, or
/// the number of definitions.
pub open spec fn first_missing(ss: Seq<(Seq<char>, JsonView)>) -> int
    decreases ss.len(),
{
    if ss.len() == 0 {
        0
    } else {
        let p = first_missing(ss.drop_last());
        if p < ss.len() - 1 {
            p
        } else if server_missing(ss.last().1) {
            ss.len() - 1
        } else {
            ss.len() as int
        }
    }
}

/// What importing the servers of the value `v` gives: the first server
/// with neither a command nor a URL is an error; else each server's
/// configuration, stably sorted by name.
pub open spec fn import_result(
    v: JsonView,
    allow_root_fallback: bool,
    r: Result<Vec<McpServerConfig>, ConfigError>,
) -> bool {
    let ss = server_entries(v, allow_root_fallback);
    let f = first_missing(ss);
    &&& f < ss.len() ==> (r matches Err(e) && e@ == ConfigFault::MissingTarget(ss[f].0))
    &&& f >= ss.len() ==> (r matches Ok(out) && exists|b: Seq<McpServerConfig>|
        b.len() == ss.len() && (forall|i: int| 0 <= i < ss.len() ==> #[trigger] server_ok(ss[i].0, ss[i].1, b[i]))
            && out@ == sort_by_name(b))
}

proof fn lemma_first_missing(ss: Seq<(Seq<char>, JsonView)>)
    ensures
        0 <= first_missing(ss) <= ss.len(),
        first_missing(ss) < ss.len() ==> server_missing(ss[first_missing(ss)].1),
        forall|j: int| 0 <= j < first_missing(ss) ==> !server_missing(#[trigger] ss[j].1),
    decreases ss.len(),
{
    if ss.len() > 0 {
        let d = ss.drop_last();
        lemma_first_missing(d);
        assert forall|j: int| 0 <= j < first_missing(ss) implies !server_missing(#[trigger] ss[j].1) by {
            if j < d.len() {
                assert(ss[j] == d[j]);
            }
        }
        let p = first_missing(d);
        if p < d.len() {
            assert(ss[p] == d[p]);
        }
    }
}

/// The servers defined in an already parsed client file.
pub fn import_servers(v: &JsonValue, allow_root_fallback: bool) -> (r: Result<
    Vec<McpServerConfig>,
    ConfigError,
>)
    ensures
        import_result(v@, allow_root_fallback, r),
{
    let ghost ss = server_entries(v@, allow_root_fallback);
    proof {
        lemma_first_missing(ss);
    }
    let empty: Vec<(String, JsonValue)> = Vec::new();
    let servers = match find_servers(v, allow_root_fallback) {
        Some(s) => s,
        None => &empty,
    };
    proof {
        lemma_json_entries_model(empty@);
        lemma_json_entries_model(servers@);
        assert(json_entries_model(servers@) =~= ss);
    }
    let ghost mut built: Seq<McpServerConfig> = Seq::empty();
    let mut sorted: Vec<McpServerConfig> = Vec::new();
    let mut i: usize = 0;
    while i < servers.len()
        invariant
            i <= servers@.len(),
            ss == server_entries(v@, allow_root_fallback),
            ss == json_entries_model(servers@),
            ss.len() == servers@.len(),
            forall|j: int| 0 <= j < ss.len() ==> #[trigger] ss[j] == (servers@[j].0@, json_model(servers@[j].1)),
            0 <= first_missing(ss) <= ss.len(),
            first_missing(ss) < ss.len() ==> server_missing(ss[first_missing(ss)].1),
            forall|j: int| 0 <= j < first_missing(ss) ==> !server_missing(#[trigger] ss[j].1),
            i <= first_missing(ss),
            built.len() == i,
            forall|j: int| 0 <= j < i ==> #[trigger] server_ok(ss[j].0, ss[j].1, built[j]),
            sorted@ == sort_by_name(built),
        decreases servers@.len() - i,
    {
        assert(ss[i as int] == (servers@[i as int].0@, json_model(servers@[i as int].1)));
        let c = match parse_server(servers[i].0.as_str(), &servers[i].1) {
            Err(e) => {
                proof {
                    assert(server_missing(ss[i as int].1));
                    if (i as int) < first_missing(ss) {
                        assert(!server_missing(ss[i as int].1));
                    }
                    assert(first_missing(ss) == i);
                    assert(e@ == ConfigFault::MissingTarget(servers@[i as int].0@));
                    assert(e@ == ConfigFault::MissingTarget(ss[i as int].0));
                }
                return Err(e);
            },
            Ok(c) => c,
        };
        proof {
            if (i as int) == first_missing(ss) {
                assert(server_missing(ss[i as int].1));
            }
        }
        let ghost before = built;
        proof {
            built = built.push(c);
            assert(built.drop_last() =~= before);
        }
        insert_server(&mut sorted, c);
        i = i + 1;
    }
    Ok(sorted)
}

/// Each name smaller than the next: sorted, and no name twice.
pub open spec fn strictly_ascending(ks: Seq<Seq<char>>) -> bool {
    forall|i: int, j: int| 0 <= i < j < ks.len() ==> str_less(#[trigger] ks[i], #[trigger] ks[j])
}

/// Every imported server is disabled, and its environment names come
/// sorted, each once.
pub open spec fn imported_disabled_with_sorted_env(s: Seq<McpServerConfig>) -> bool {
    forall|i: int| 0 <= i < s.len() ==> !(#[trigger] s[i]).enabled && strictly_ascending(strs(s[i].env_keys@))
}

/// Each server's name is smaller than the next one's: sorted, and no name
/// twice.
pub open spec fn names_ascending(s: Seq<McpServerConfig>) -> bool {
    forall|i: int, j: int| 0 <= i < j < s.len() ==> str_less(#[trigger] s[i].name@, #[trigger] s[j].name@)
}

proof fn lemma_first_object_sorted(o: Seq<(Seq<char>, JsonView)>, keys: Seq<Seq<char>>)
    requires
        crate::json_value::entries_objects_sorted(o),
    ensures
        first_object_under(o, keys) matches Some(s) ==> keys_ascending(s),
    decreases keys.len(),
{
    if keys.len() > 0 {
        match jo_get(o, keys[0]) {
            Some(JsonView::Object(s)) => {
                lemma_jo_index(o, keys[0]);
                lemma_entries_objects_sorted(o, jo_index(o, keys[0]));
            },
            _ => {
                lemma_first_object_sorted(o, keys.drop_first());
            },
        }
    }
}

proof fn lemma_server_entries_ascending(v: JsonView, allow_root_fallback: bool)
    requires
        json_objects_sorted(v),
    ensures
        keys_ascending(server_entries(v, allow_root_fallback)),
{
    match v {
        JsonView::Object(o) => {
            lemma_first_object_sorted(o, server_keys());
        },
        _ => {
            let e = Seq::<(Seq<char>, JsonView)>::empty();
            assert(object_entries(v) == e);
            lemma_first_object_sorted(e, server_keys());
        },
    }
}

proof fn lemma_sort_sorted_identity(b: Seq<McpServerConfig>)
    requires
        names_ascending(b),
    ensures
        sort_by_name(b) == b,
    decreases b.len(),
{
    if b.len() > 0 {
        let d = b.drop_last();
        assert forall|i: int, j: int| 0 <= i < j < d.len() implies str_less(
            #[trigger] d[i].name@,
            #[trigger] d[j].name@,
        ) by {
            assert(d[i] == b[i] && d[j] == b[j]);
        }
        lemma_sort_sorted_identity(d);
        if d.len() > 0 {
            assert(d.last() == b[b.len() - 2]);
            lemma_str_less_total(b.last().name@, d.last().name@);
        }
        assert(d.push(b.last()) =~= b);
    }
}

/// The servers imported from a value whose objects have their keys once
/// each, in order (as the JSON parser gives them) come with strictly
/// ascending names.
proof fn lemma_import_names_ascending(
    v: JsonView,
    allow_root_fallback: bool,
    r: Result<Vec<McpServerConfig>, ConfigError>,
)
    requires
        json_objects_sorted(v),
        import_result(v, allow_root_fallback, r),
    ensures
        r matches Ok(out) ==> names_ascending(out@) && imported_disabled_with_sorted_env(out@),
{
    let ss = server_entries(v, allow_root_fallback);
    lemma_server_entries_ascending(v, allow_root_fallback);
    if first_missing(ss) >= ss.len() {
        let out = r->Ok_0;
        let b = choose|b: Seq<McpServerConfig>|
            b.len() == ss.len() && (forall|i: int|
                0 <= i < ss.len() ==> #[trigger] server_ok(ss[i].0, ss[i].1, b[i])) && out@
                == sort_by_name(b);
        assert forall|i: int, j: int| 0 <= i < j < b.len() implies str_less(
            #[trigger] b[i].name@,
            #[trigger] b[j].name@,
        ) by {
            assert(server_ok(ss[i].0, ss[i].1, b[i]));
            assert(server_ok(ss[j].0, ss[j].1, b[j]));
        }
        lemma_sort_sorted_identity(b);
        assert forall|i: int| 0 <= i < b.len() implies !(#[trigger] b[i]).enabled && strictly_ascending(
            strs(b[i].env_keys@),
        ) by {
            assert(server_ok(ss[i].0, ss[i].1, b[i]));
            let env = choose|env: Seq<(String, String)>|
                env_built(env, env_pairs(object_entries(ss[i].1))) && strs(b[i].env_keys@) == sm_keys(env)
                    && (b[i].transport matches McpTransportConfig::Stdio { env: e, .. } ==> e@ == env);
            let ks = strs(b[i].env_keys@);
            assert forall|x: int, y: int| 0 <= x < y < ks.len() implies str_less(#[trigger] ks[x], #[trigger] ks[y]) by {
                assert(ks[x] == env[x].0@ && ks[y] == env[y].0@);
            }
        }
    }
}

/// The servers defined in a client's JSON (with comments) file; with
/// `allow_root_fallback`, a top level that looks like a map of servers is
/// read as one.
pub fn parse_mcp_json_with_options(raw: &str, allow_root_fallback: bool) -> (r: Result<
    Vec<McpServerConfig>,
    ConfigError,
>)
    ensures
        match json_parse(strip_jsonc(raw@, false, false)) {
            Err(m) => r matches Err(e) && e@ == ConfigFault::Json(m),
            Ok(v) => import_result(v, allow_root_fallback, r),
        },
        r matches Ok(out) ==> names_ascending(out@) && imported_disabled_with_sorted_env(out@),
{
    let stripped = strip_jsonc_comments(raw);
    match parse_json(stripped.as_str()) {
        Err(m) => Err(ConfigError::Json(m)),
        Ok(v) => {
            let r = import_servers(&v, allow_root_fallback);
            proof {
                lemma_import_names_ascending(v@, allow_root_fallback, r);
            }
            r
        },
    }
}

/// The servers defined under `mcpServers`, `servers` or `mcp` in a
/// client's JSON (with comments) file.
pub fn parse_mcp_json(raw: &str) -> (r: Result<Vec<McpServerConfig>, ConfigError>)
    ensures
        match json_parse(strip_jsonc(raw@, false, false)) {
            Err(m) => r matches Err(e) && e@ == ConfigFault::Json(m),
            Ok(v) => import_result(v, false, r),
        },
        r matches Ok(out) ==> names_ascending(out@) && imported_disabled_with_sorted_env(out@),
{
    parse_mcp_json_with_options(raw, false)
}


// ---------------------------------------------------------------------------
// Laws.
/// No server comes before one whose name is smaller.
pub open spec fn sorted_by_name(s: Seq<McpServerConfig>) -> bool {
    forall|i: int, j: int| 0 <= i < j < s.len() ==> !str_less(#[trigger] s[j].name@, #[trigger] s[i].name@)
}

/// Every name in `s` is at most `y`.
pub open spec fn names_at_most(s: Seq<McpServerConfig>, y: Seq<char>) -> bool {
    forall|k: int| 0 <= k < s.len() ==> !str_less(y, #[trigger] s[k].name@)
}

proof fn lemma_not_less_trans(a: Seq<char>, b: Seq<char>, c: Seq<char>)
    requires
        !str_less(a, b),
        !str_less(b, c),
    ensures
        !str_less(a, c),
{
    if str_less(a, c) {
        lemma_str_less_total(a, b);
        lemma_str_less_total(b, c);
        if a != b && b != c {
            lemma_str_less_trans(b, a, c);
            lemma_str_less_total(b, c);
        } else if a == b {
        } else {
        }
    }
}

proof fn lemma_insert_bounded(t: Seq<McpServerConfig>, x: McpServerConfig, y: Seq<char>)
    requires
        names_at_most(t, y),
        !str_less(y, x.name@),
    ensures
        names_at_most(insert_by_name(t, x), y),
    decreases t.len(),
{
    if t.len() > 0 && str_less(x.name@, t.last().name@) {
        let d = t.drop_last();
        assert forall|k: int| 0 <= k < d.len() implies !str_less(y, #[trigger] d[k].name@) by {
            assert(d[k] == t[k]);
        }
        lemma_insert_bounded(d, x, y);
        assert(!str_less(y, t[t.len() - 1].name@));
    }
}

proof fn lemma_insert_sorted(t: Seq<McpServerConfig>, x: McpServerConfig)
    requires
        sorted_by_name(t),
    ensures
        sorted_by_name(insert_by_name(t, x)),
    decreases t.len(),
{
    if t.len() == 0 {
    } else if str_less(x.name@, t.last().name@) {
        let d = t.drop_last();
        let last = t.last();
        assert forall|i: int, j: int| 0 <= i < j < d.len() implies !str_less(
            #[trigger] d[j].name@,
            #[trigger] d[i].name@,
        ) by {
            assert(d[i] == t[i] && d[j] == t[j]);
        }
        lemma_insert_sorted(d, x);
        assert forall|k: int| 0 <= k < d.len() implies !str_less(last.name@, #[trigger] d[k].name@) by {
            assert(d[k] == t[k]);
            assert(t[t.len() - 1] == last);
        }
        lemma_str_less_total(x.name@, last.name@);
        lemma_insert_bounded(d, x, last.name@);
        let n = insert_by_name(d, x);
        assert forall|i: int, j: int| 0 <= i < j < n.push(last).len() implies !str_less(
            #[trigger] n.push(last)[j].name@,
            #[trigger] n.push(last)[i].name@,
        ) by {
            if j == n.len() {
                assert(n.push(last)[i] == n[i]);
                assert(!str_less(last.name@, n[i].name@));
            } else {
                assert(n.push(last)[i] == n[i] && n.push(last)[j] == n[j]);
            }
        }
    } else {
        let last = t.last();
        assert forall|i: int, j: int| 0 <= i < j < t.push(x).len() implies !str_less(
            #[trigger] t.push(x)[j].name@,
            #[trigger] t.push(x)[i].name@,
        ) by {
            if j == t.len() {
                assert(t.push(x)[i] == t[i]);
                if i < t.len() - 1 {
                    assert(!str_less(t[t.len() - 1].name@, t[i].name@));
                } else {
                    lemma_str_less_irrefl(last.name@);
                }
                lemma_not_less_trans(x.name@, last.name@, t[i].name@);
            } else {
                assert(t.push(x)[i] == t[i] && t.push(x)[j] == t[j]);
            }
        }
    }
}

/// The imported servers come in ascending order of their names.
pub proof fn law_import_sorted_by_name(b: Seq<McpServerConfig>)
    ensures
        sorted_by_name(sort_by_name(b)),
    decreases b.len(),
{
    if b.len() > 0 {
        law_import_sorted_by_name(b.drop_last());
        lemma_insert_sorted(sort_by_name(b.drop_last()), b.last());
    }
}

} // verus!
