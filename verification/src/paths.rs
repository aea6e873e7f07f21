//! Where the tool keeps its configuration.
use vstd::prelude::*;
use crate::text::{push_str, string_from};

verus! {

/// `Path::join` of a relative, separator-free component: a `/` is put
/// between unless the base is empty or already ends with one.
pub open spec fn path_join(base: Seq<char>, component: Seq<char>) -> Seq<char> {
    if base.len() == 0 {
        component
    } else if base.last() == '/' {
        base + component
    } else {
        base + seq!['/'] + component
    }
}

pub(crate) fn join_path(base: &str, component: &str) -> (r: String)
    ensures
        r@ == path_join(base@, component@),
{
    let mut r = string_from(base);
    let n = base.unicode_len();
    if n > 0 && base.get_char(n - 1) != '/' {
        crate::text::push_char(&mut r, '/');
    }
    push_str(&mut r, component);
    r
}

#[derive(Clone, Debug, PartialEq, Eq)]
pub struct AgentPaths {
    pub config_dir: String,
    pub config_file: String,
    pub env_file: String,
}

impl AgentPaths {
    /// `~/.agentcast`, its `config.toml` and its `.env`.
    pub fn from_home(home: &str) -> (r: AgentPaths)
        ensures
            r.config_dir@ == path_join(home@, ".agentcast"@),
            r.config_file@ == path_join(r.config_dir@, "config.toml"@),
            r.env_file@ == path_join(r.config_dir@, ".env"@),
    {
        let config_dir = join_path(home, ".agentcast");
        let config_file = join_path(config_dir.as_str(), "config.toml");
        let env_file = join_path(config_dir.as_str(), ".env");
        AgentPaths { config_dir, config_file, env_file }
    }
}

/// A path as written and as expanded.
#[derive(Clone, Debug, PartialEq, Eq)]
pub struct PathResolution {
    pub raw: String,
    pub expanded: String,
}

} // verus!
