//! Operator defaults: resolving a setting from a flag, an environment
//! variable and the operator config file, in that order.

use vstd::prelude::*;
use crate::text::{string_chars, from_chars, trim, trim_chars};

verus! {

/// The trimmed value of a candidate source, when it is present and not blank.
pub open spec fn candidate(o: Option<Seq<char>>) -> Option<Seq<char>> {
    match o {
        Some(s) => if trim(s).len() > 0 {
            Some(trim(s))
        } else {
            None
        },
        None => None,
    }
}

/// The view of an optional string.
pub open spec fn opt_view(o: Option<String>) -> Option<Seq<char>> {
    match o {
        Some(s) => Some(s@),
        None => None,
    }
}

/// The first source, in precedence order, that holds a non-blank value,
/// trimmed.
pub open spec fn picked(flag: Option<Seq<char>>, env: Option<Seq<char>>, config: Option<Seq<char>>) -> Option<Seq<char>> {
    if candidate(flag) is Some {
        candidate(flag)
    } else if candidate(env) is Some {
        candidate(env)
    } else {
        candidate(config)
    }
}

fn candidate_of(o: &Option<String>) -> (r: Option<String>)
    ensures
        opt_view(r) == candidate(opt_view(*o)),
{
    match o {
        Some(s) => {
            let c = string_chars(s);
            let t = trim_chars(&c);
            if t.len() > 0 {
                Some(from_chars(&t))
            } else {
                None
            }
        },
        None => None,
    }
}

/// Resolve a value by precedence: first non-empty of `flag`, then `env`, then
/// `config`. Whitespace-only values are treated as absent so an empty flag
/// falls through to the next source; the winner is trimmed.
pub fn pick(flag: Option<String>, env: Option<String>, config: Option<String>) -> (r: Option<String>)
    ensures
        opt_view(r) == picked(opt_view(flag), opt_view(env), opt_view(config)),
{
    let a = candidate_of(&flag);
    if a.is_some() {
        return a;
    }
    let b = candidate_of(&env);
    if b.is_some() {
        return b;
    }
    candidate_of(&config)
}

/// A flag, when given and not blank, wins over every other source.
pub proof fn law_flag_wins(flag: Seq<char>, env: Option<Seq<char>>, config: Option<Seq<char>>)
    requires
        trim(flag).len() > 0,
    ensures
        picked(Some(flag), env, config) == Some(trim(flag)),
{
}

/// Blank or absent sources are skipped: they never change the outcome.
pub proof fn law_blank_falls_through(blank: Option<Seq<char>>, env: Option<Seq<char>>, config: Option<Seq<char>>)
    requires
        candidate(blank) is None,
    ensures
        picked(blank, env, config) == picked(env, config, None),
        picked(env, blank, config) == picked(env, config, None),
{
}

/// Default flag values for commands that take an agent and a model.
#[derive(Debug)]
pub struct Defaults {
    /// Default agent for `ingest` when `-a` and `AGWIKI_AGENT` are absent.
    pub agent: Option<String>,
    /// Default model for `ingest` when `-m` and `AGWIKI_MODEL` are absent.
    pub model: Option<String>,
}

/// Shell commands run at lifecycle points (`[hooks]`), each optional, and
/// whether a failing hook only warns.
#[derive(Debug)]
pub struct Hooks {
    /// After each source is ingested.
    pub after_source: Option<String>,
    /// After a folder ingest.
    pub after_batch: Option<String>,
    /// After a successful `materialize`.
    pub after_materialize: Option<String>,
    /// When ingesting a source fails.
    pub on_error: Option<String>,
    /// A failing hook warns instead of failing the command.
    pub continue_on_error: bool,
}

impl Hooks {
    /// No hook is set.
    pub open spec fn none_set(&self) -> bool {
        &&& self.after_source is None
        &&& self.after_batch is None
        &&& self.after_materialize is None
        &&& self.on_error is None
        &&& !self.continue_on_error
    }
}

/// Operator settings from `<wiki-root>/.agwiki/config.toml`; every field
/// is optional and a missing file is an empty configuration.
#[derive(Debug)]
pub struct OperatorConfig {
    pub defaults: Defaults,
    pub hooks: Hooks,
}

impl Default for Defaults {
    fn default() -> (d: Defaults)
        ensures
            d.agent is None,
            d.model is None,
    {
        Defaults { agent: None, model: None }
    }
}

impl Default for OperatorConfig {
    fn default() -> (c: OperatorConfig)
        ensures
            c.defaults.agent is None,
            c.defaults.model is None,
            c.hooks.none_set(),
    {
        OperatorConfig {
            defaults: Defaults { agent: None, model: None },
            hooks: Hooks {
                after_source: None,
                after_batch: None,
                after_materialize: None,
                on_error: None,
                continue_on_error: false,
            },
        }
    }
}

impl OperatorConfig {
    /// The settings, given what reading `.agwiki/config.toml` found: `None`
    /// when the file does not exist, which gives the empty settings; else
    /// what parsing it gave, so that a malformed file is an error and is not
    /// silently ignored.
    pub fn load(found: Option<Result<OperatorConfig, String>>) -> (r: Result<OperatorConfig, String>)
        ensures
            found is None ==> (r matches Ok(c) && c.defaults.agent is None && c.defaults.model is None
                && c.hooks.none_set()),
            found matches Some(x) ==> r == x,
    {
        match found {
            None => Ok(OperatorConfig::default()),
            Some(x) => x,
        }
    }

    /// The agent for a run: the flag, then the environment, then this
    /// configuration (see [`pick`]).
    pub fn agent(&self, flag: Option<String>, env: Option<String>) -> (r: Option<String>)
        ensures
            opt_view(r) == picked(opt_view(flag), opt_view(env), opt_view(self.defaults.agent)),
    {
        let c = match &self.defaults.agent {
            Some(a) => Some(a.clone()),
            None => None,
        };
        pick(flag, env, c)
    }

    /// The model for a run: the flag, then the environment, then this
    /// configuration (see [`pick`]).
    pub fn model(&self, flag: Option<String>, env: Option<String>) -> (r: Option<String>)
        ensures
            opt_view(r) == picked(opt_view(flag), opt_view(env), opt_view(self.defaults.model)),
    {
        let c = match &self.defaults.model {
            Some(a) => Some(a.clone()),
            None => None,
        };
        pick(flag, env, c)
    }
}

} // verus!
