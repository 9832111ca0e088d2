//! The protocol-facing prompt server: which profiles it exposes, what it
//! announces for each, and what it returns for a request.
use vstd::prelude::*;
use crate::storage::{FileRead, ProfileError, Storage};
use crate::names::valid_profile_name;
use crate::template::{
    bindings_view, extract_placeholders, lemma_substitute_no_bindings, placeholders, substitute,
    substituted, texts,
};

verus! {

/// A value bound to a placeholder: text, or any other JSON value in its
/// canonical textual form.
#[derive(Debug, Clone)]
pub enum ArgValue {
    Text(String),
    Json(String),
}

/// `s` without its leading `"` characters.
pub open spec fn trim_start_quotes(s: Seq<char>) -> Seq<char>
    decreases s.len(),
{
    if s.len() > 0 && s[0] == '"' {
        trim_start_quotes(s.drop_first())
    } else {
        s
    }
}

/// `s` without its trailing `"` characters.
pub open spec fn trim_end_quotes(s: Seq<char>) -> Seq<char>
    decreases s.len(),
{
    if s.len() > 0 && s.last() == '"' {
        trim_end_quotes(s.drop_last())
    } else {
        s
    }
}

impl ArgValue {
    /// The text that replaces a placeholder bound to this value.
    pub open spec fn text_of(&self) -> Seq<char> {
        match self {
            ArgValue::Text(s) => s@,
            ArgValue::Json(s) => trim_end_quotes(trim_start_quotes(s@)),
        }
    }

    pub fn text(&self) -> (r: String)
        ensures
            r@ == self.text_of(),
    {
        match self {
            ArgValue::Text(s) => s.clone(),
            ArgValue::Json(s) => {
                let t = s.as_str();
                let n = t.unicode_len();
                let mut a: usize = 0;
                assert(t@.subrange(0, n as int) =~= t@);
                while a < n && t.get_char(a) == '"'
                    invariant
                        n == t@.len(),
                        a <= n,
                        trim_start_quotes(t@) == trim_start_quotes(t@.subrange(a as int, n as int)),
                    decreases n - a,
                {
                    assert(t@.subrange(a as int, n as int).drop_first() =~= t@.subrange(
                        a + 1,
                        n as int,
                    ));
                    a = a + 1;
                }
                let mut b: usize = n;
                while b > a && t.get_char(b - 1) == '"'
                    invariant
                        n == t@.len(),
                        a <= b <= n,
                        trim_start_quotes(t@) == t@.subrange(a as int, n as int),
                        trim_end_quotes(t@.subrange(a as int, n as int)) == trim_end_quotes(
                            t@.subrange(a as int, b as int),
                        ),
                    decreases b - a,
                {
                    assert(t@.subrange(a as int, b as int).drop_last() =~= t@.subrange(
                        a as int,
                        b - 1,
                    ));
                    b = b - 1;
                }
                String::from_str(t.substring_char(a, b))
            },
        }
    }
}

/// The bindings that a request's arguments give: none when it has none.
pub open spec fn arg_bindings(args: Option<Vec<(String, ArgValue)>>) -> Seq<(Seq<char>, Seq<char>)> {
    match args {
        Some(v) => v@.map_values(|p: (String, ArgValue)| (p.0@, p.1.text_of())),
        None => seq![],
    }
}

/// `Value for NAME`.
pub open spec fn argument_description(name: Seq<char>) -> Seq<char> {
    "Value for "@ + name
}

/// `System prompt: NAME`.
pub open spec fn prompt_description(name: Seq<char>) -> Seq<char> {
    "System prompt: "@ + name
}

/// One argument that a prompt takes.
#[derive(Debug, Clone)]
pub struct PromptArgument {
    pub name: String,
    pub description: Option<String>,
    pub required: Option<bool>,
}

/// One prompt as announced to a client.
#[derive(Debug, Clone)]
pub struct PromptEntry {
    pub name: String,
    pub description: Option<String>,
    pub arguments: Option<Vec<PromptArgument>>,
}

/// Why a prompt request failed.
#[derive(Debug, Clone)]
pub enum PromptError {
    /// The exposure policy hides the prompt.
    Disabled,
    /// The profile could not be resolved or read.
    Unavailable(ProfileError),
}

/// The arguments announced for `content`: one per distinct placeholder, in
/// order of first occurrence, each required.
pub open spec fn arguments_match(args: Seq<PromptArgument>, content: Seq<char>) -> bool {
    &&& args.len() == placeholders(content).len()
    &&& forall|k: int|
        0 <= k < args.len() ==> {
            &&& (#[trigger] args[k]).name@ == placeholders(content)[k]
            &&& args[k].description is Some
            &&& args[k].description->Some_0@ == argument_description(placeholders(content)[k])
            &&& args[k].required == Some(true)
        }
}

/// Names among the first `k` of `names` that `storage` exposes, in order.
pub open spec fn visible_before(storage: Storage, names: Seq<Seq<char>>, k: int) -> Seq<Seq<char>>
    decreases k,
{
    if k <= 0 {
        seq![]
    } else if storage.config.mcp.disable_prompts.hides(names[k - 1]) {
        visible_before(storage, names, k - 1)
    } else {
        visible_before(storage, names, k - 1).push(names[k - 1])
    }
}

/// Serves the profiles of one storage root as prompts.
#[derive(Debug, Clone)]
pub struct PmxMcpServer {
    pub storage: Storage,
}

impl PmxMcpServer {
    pub fn new(storage: Storage) -> (r: Self)
        ensures
            r.storage == storage,
    {
        PmxMcpServer { storage }
    }

    pub open spec fn enabled(&self, name: Seq<char>) -> bool {
        !self.storage.config.mcp.disable_prompts.hides(name)
    }

    /// Whether the exposure policy shows the prompt `prompt_name`.
    pub fn is_prompt_enabled(&self, prompt_name: &str) -> (r: bool)
        ensures
            r == self.enabled(prompt_name@),
    {
        !self.storage.config.mcp.disable_prompts.disables(prompt_name)
    }

    /// The arguments that `content` takes.
    pub fn extract_arguments_from_content(&self, content: &str) -> (r: Vec<PromptArgument>)
        ensures
            arguments_match(r@, content@),
    {
        let names = extract_placeholders(content);
        let ghost ps = placeholders(content@);
        let mut out: Vec<PromptArgument> = Vec::new();
        let mut i: usize = 0;
        proof {
            reveal_strlit("Value for ");
        }
        while i < names.len()
            invariant
                texts(names@) == ps,
                ps == placeholders(content@),
                i <= names@.len(),
                out@.len() == i,
                forall|k: int|
                    0 <= k < i ==> {
                        &&& (#[trigger] out@[k]).name@ == ps[k]
                        &&& out@[k].description is Some
                        &&& out@[k].description->Some_0@ == argument_description(ps[k])
                        &&& out@[k].required == Some(true)
                    },
            decreases names.len() - i,
        {
            let name = names[i].as_str();
            assert(ps[i as int] == name@);
            let mut d = String::from_str("Value for ");
            d.append(name);
            out.push(
                PromptArgument {
                    name: String::from_str(name),
                    description: Some(d),
                    required: Some(true),
                },
            );
            i = i + 1;
        }
        out
    }

    /// `content` with the placeholders that `arguments` binds replaced; as
    /// it is when there are no arguments.
    pub fn substitute_arguments(&self, content: &str, arguments: &Option<Vec<(String, ArgValue)>>) -> (r: String)
        ensures
            r@ == substituted(content@, arg_bindings(*arguments)),
    {
        match arguments {
            None => {
                proof {
                    lemma_substitute_no_bindings(content@);
                }
                String::from_str(content)
            },
            Some(args) => {
                let ghost want = arg_bindings(*arguments);
                let mut bindings: Vec<(String, String)> = Vec::new();
                let mut i: usize = 0;
                while i < args.len()
                    invariant
                        want == arg_bindings(*arguments),
                        *arguments == Some(*args),
                        i <= args@.len(),
                        bindings_view(bindings@) == want.subrange(0, i as int),
                    decreases args.len() - i,
                {
                    let name = String::from_str(args[i].0.as_str());
                    let value = args[i].1.text();
                    let ghost before = bindings_view(bindings@);
                    bindings.push((name, value));
                    assert(bindings_view(bindings@) =~= before.push((name@, value@)));
                    assert(want.subrange(0, i + 1) =~= want.subrange(0, i as int).push(want[i as int]));
                    i = i + 1;
                }
                assert(want.subrange(0, args@.len() as int) =~= want);
                substitute(content, &bindings)
            },
        }
    }

    /// The prompts among `profiles` that the policy shows, in order.
    pub fn visible_prompts(&self, profiles: &Vec<String>) -> (r: Vec<String>)
        ensures
            texts(r@) == visible_before(self.storage, texts(profiles@), profiles@.len() as int),
    {
        let ghost ns = texts(profiles@);
        let mut out: Vec<String> = Vec::new();
        let mut i: usize = 0;
        assert(texts(out@) =~= Seq::<Seq<char>>::empty());
        while i < profiles.len()
            invariant
                ns == texts(profiles@),
                i <= profiles@.len(),
                texts(out@) == visible_before(self.storage, ns, i as int),
            decreases profiles.len() - i,
        {
            let name = profiles[i].as_str();
            assert(ns[i as int] == name@);
            if self.is_prompt_enabled(name) {
                let ghost before = texts(out@);
                out.push(String::from_str(name));
                assert(texts(out@) =~= before.push(name@));
            }
            i = i + 1;
        }
        out
    }

    /// How the prompt `name` is announced, given what reading its document
    /// gave: with its arguments when it could be read and takes some,
    /// without when it takes none or could not be read.
    pub fn prompt_entry(&self, name: &str, read: FileRead) -> (r: PromptEntry)
        ensures
            r.name@ == name@,
            r.description is Some,
            r.description->Some_0@ == prompt_description(name@),
            match read {
                FileRead::Text(t) => if valid_profile_name(name@) && placeholders(t@).len() > 0 {
                    r.arguments is Some && arguments_match(r.arguments->Some_0@, t@)
                } else {
                    r.arguments is None
                },
                _ => r.arguments is None,
            },
    {
        proof {
            reveal_strlit("System prompt: ");
        }
        let mut d = String::from_str("System prompt: ");
        d.append(name);
        let arguments = match self.storage.get_content(name, read) {
            Ok(content) => {
                let args = self.extract_arguments_from_content(content.as_str());
                if args.len() == 0 {
                    None
                } else {
                    Some(args)
                }
            },
            Err(_) => None,
        };
        PromptEntry { name: String::from_str(name), description: Some(d), arguments }
    }

    /// Answers a request for the prompt `name`: refused if the policy hides
    /// it, otherwise its content, as reading its document gave it, with the
    /// arguments substituted.
    pub fn get_prompt(
        &self,
        name: &str,
        read: FileRead,
        arguments: &Option<Vec<(String, ArgValue)>>,
    ) -> (r: Result<String, PromptError>)
        ensures
            !self.enabled(name@) ==> r == Err::<String, PromptError>(PromptError::Disabled),
            self.enabled(name@) && !valid_profile_name(name@) ==> r is Err && (r->Err_0 matches PromptError::Unavailable(ProfileError::InvalidName(_))),
            self.enabled(name@) && valid_profile_name(name@) ==> match read {
                FileRead::Missing => r == Err::<String, PromptError>(
                    PromptError::Unavailable(ProfileError::NotFound),
                ),
                FileRead::Failed(m) => r == Err::<String, PromptError>(
                    PromptError::Unavailable(ProfileError::Io(m)),
                ),
                FileRead::Text(t) => r is Ok && r->Ok_0@ == substituted(
                    t@,
                    arg_bindings(*arguments),
                ),
            },
    {
        if !self.is_prompt_enabled(name) {
            return Err(PromptError::Disabled);
        }
        match self.storage.get_content(name, read) {
            Err(e) => Err(PromptError::Unavailable(e)),
            Ok(content) => Ok(self.substitute_arguments(content.as_str(), arguments)),
        }
    }
}

} // verus!
