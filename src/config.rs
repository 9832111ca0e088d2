//! Persisted settings: per-integration switches and the tri-state exposure
//! policy of the protocol surface.
use vstd::prelude::*;
use crate::template::{contains_text, texts};

verus! {

/// Exposure policy for prompts or tools: `Bool(true)` hides every item,
/// `Bool(false)` hides none, `List(names)` hides exactly the named items.
#[derive(Debug, Clone)]
pub enum DisableOption {
    Bool(bool),
    List(Vec<String>),
}

impl DisableOption {
    /// The item called `name` is hidden by this policy.
    pub open spec fn hides(&self, name: Seq<char>) -> bool {
        match self {
            DisableOption::Bool(b) => *b,
            DisableOption::List(names) => texts(names@).contains(name),
        }
    }

    /// The policy hides every item.
    pub open spec fn hides_all(&self) -> bool {
        match self {
            DisableOption::Bool(b) => *b,
            DisableOption::List(_) => false,
        }
    }

    /// Whether the item called `name` is hidden.
    pub fn disables(&self, name: &str) -> (r: bool)
        ensures
            r == self.hides(name@),
    {
        match self {
            DisableOption::Bool(b) => *b,
            DisableOption::List(names) => contains_text(names, name),
        }
    }

    /// Whether the policy hides every item.
    pub fn disables_all(&self) -> (r: bool)
        ensures
            r == self.hides_all(),
    {
        match self {
            DisableOption::Bool(b) => *b,
            DisableOption::List(_) => false,
        }
    }
}

impl Default for DisableOption {
    fn default() -> (r: Self)
        ensures
            r == DisableOption::Bool(false),
    {
        DisableOption::Bool(false)
    }
}

/// `Bool(true)` hides every name, `Bool(false)` hides none, and a list of
/// one name hides that name and no other.
pub proof fn lemma_policy_table(opt: DisableOption, name: Seq<char>, listed: Seq<char>)
    ensures
        opt == DisableOption::Bool(true) ==> opt.hides(name),
        opt == DisableOption::Bool(false) ==> !opt.hides(name),
        (opt matches DisableOption::List(l) && texts(l@) == seq![listed]) ==> (
        opt.hides(name) <==> name == listed),
{
    if let DisableOption::List(l) = opt {
        if texts(l@) == seq![listed] {
            if name == listed {
                assert(seq![listed][0] == name);
            }
        }
    }
}

/// Per-integration switches.
#[derive(Debug, Clone, Copy, PartialEq, Eq, Structural)]
pub struct Agents {
    pub disable_claude: bool,
    pub disable_codex: bool,
}

/// Exposure of the protocol surface.
#[derive(Debug, Clone)]
pub struct McpConfig {
    pub disable_prompts: DisableOption,
    pub disable_tools: DisableOption,
}

impl McpConfig {
    /// The protocol surface is on unless prompts and tools are both hidden
    /// entirely.
    pub open spec fn enabled(&self) -> bool {
        !(self.disable_prompts.hides_all() && self.disable_tools.hides_all())
    }

    pub fn is_enabled(&self) -> (r: bool)
        ensures
            r == self.enabled(),
            r == !(self.disable_prompts == DisableOption::Bool(true)
                && self.disable_tools == DisableOption::Bool(true)),
    {
        !(self.disable_prompts.disables_all() && self.disable_tools.disables_all())
    }
}

impl Default for McpConfig {
    fn default() -> (r: Self)
        ensures
            r.disable_prompts == DisableOption::Bool(false),
            r.disable_tools == DisableOption::Bool(false),
    {
        McpConfig { disable_prompts: DisableOption::Bool(false), disable_tools: DisableOption::Bool(false) }
    }
}

/// Extension subcommands that may be run.
#[derive(Debug, Clone)]
pub struct ExtensionsConfig {
    pub allowed_subcommands: Vec<String>,
}

impl Default for ExtensionsConfig {
    fn default() -> (r: Self)
        ensures
            r.allowed_subcommands@.len() == 0,
    {
        ExtensionsConfig { allowed_subcommands: Vec::new() }
    }
}

/// The settings of one storage root.
#[derive(Debug, Clone)]
pub struct Config {
    pub agents: Agents,
    pub mcp: McpConfig,
    pub extensions: ExtensionsConfig,
}

impl Config {
    /// The settings that a new storage root starts with: every integration
    /// on, nothing hidden, no extension allowed.
    pub fn initial() -> (r: Config)
        ensures
            !r.agents.disable_claude,
            !r.agents.disable_codex,
            r.mcp.disable_prompts == DisableOption::Bool(false),
            r.mcp.disable_tools == DisableOption::Bool(false),
            r.extensions.allowed_subcommands@.len() == 0,
    {
        Config {
            agents: Agents { disable_claude: false, disable_codex: false },
            mcp: McpConfig::default(),
            extensions: ExtensionsConfig::default(),
        }
    }
}

} // verus!
