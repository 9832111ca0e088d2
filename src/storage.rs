//! A storage root: where its profiles live, which requests on them succeed,
//! and how the files found under it become profile names.
use vstd::prelude::*;
use crate::cli::InternalCompletionCommand;
use crate::config::{Config, DisableOption};
use crate::names::{
    is_valid_subcommand_name, valid_profile_name, valid_subcommand_name, validate_profile_name,
    NameError,
};
use crate::template::{contains_text, texts};

verus! {

/// What a path was found to be on disk.
#[derive(Debug, Clone, Copy, PartialEq, Eq, Structural)]
pub enum PathKind {
    Missing,
    Directory,
    File,
    Other,
}

/// A storage root whose layout is wrong.
#[derive(Debug, Clone, Copy, PartialEq, Eq, Structural)]
pub enum LayoutError {
    RootMissing,
    RootNotDirectory,
    RepoMissing,
    RepoNotDirectory,
    ConfigMissing,
    ConfigNotFile,
}

/// The outcome of reading a profile document.
#[derive(Debug, Clone)]
pub enum FileRead {
    Missing,
    Failed(String),
    Text(String),
}

/// Why a request on a profile failed.
#[derive(Debug, Clone)]
pub enum ProfileError {
    InvalidName(NameError),
    NotFound,
    AlreadyExists,
    Io(String),
}

/// `base` joined with the relative path `part`, with one `/` between them.
pub open spec fn joined(base: Seq<char>, part: Seq<char>) -> Seq<char> {
    if base.len() == 0 {
        part
    } else if base.last() == '/' {
        base + part
    } else {
        base + seq!['/'] + part
    }
}

pub open spec fn md_suffix() -> Seq<char> {
    seq!['.', 'm', 'd']
}

/// The file that holds the profile `name` under the repository directory.
pub open spec fn profile_file_name(name: Seq<char>) -> Seq<char> {
    name + md_suffix()
}

/// A relative path whose file name has the extension `md`.
pub open spec fn is_profile_file(p: Seq<char>) -> bool {
    &&& p.len() >= 4
    &&& p.subrange(p.len() - 3, p.len() as int) == md_suffix()
    &&& p[p.len() - 4] != '/'
}

/// The profile name of such a path: the path without its extension.
pub open spec fn profile_name_of(p: Seq<char>) -> Seq<char> {
    p.subrange(0, p.len() - 3)
}

/// Profile names of the first `k` paths, in order.
pub open spec fn names_of_files(files: Seq<Seq<char>>, k: int) -> Seq<Seq<char>>
    decreases k,
{
    if k <= 0 {
        seq![]
    } else if is_profile_file(files[k - 1]) {
        names_of_files(files, k - 1).push(profile_name_of(files[k - 1]))
    } else {
        names_of_files(files, k - 1)
    }
}

/// Lexicographic order on code points (the byte order of UTF-8).
pub open spec fn lex_le(a: Seq<char>, b: Seq<char>) -> bool
    decreases a.len(),
{
    if a.len() == 0 {
        true
    } else if b.len() == 0 {
        false
    } else if (a[0] as u32) < (b[0] as u32) {
        true
    } else if (a[0] as u32) > (b[0] as u32) {
        false
    } else {
        lex_le(a.drop_first(), b.drop_first())
    }
}

pub open spec fn sorted(s: Seq<Seq<char>>) -> bool {
    forall|i: int, j: int| 0 <= i < j < s.len() ==> lex_le(#[trigger] s[i], #[trigger] s[j])
}

proof fn lemma_lex_total(a: Seq<char>, b: Seq<char>)
    ensures
        lex_le(a, b) || lex_le(b, a),
    decreases a.len(),
{
    if a.len() > 0 && b.len() > 0 && (a[0] as u32) == (b[0] as u32) {
        lemma_lex_total(a.drop_first(), b.drop_first());
    }
}

proof fn lemma_lex_trans(a: Seq<char>, b: Seq<char>, c: Seq<char>)
    requires
        lex_le(a, b),
        lex_le(b, c),
    ensures
        lex_le(a, c),
    decreases a.len(),
{
    if a.len() > 0 && b.len() > 0 && c.len() > 0 && (a[0] as u32) == (b[0] as u32) && (b[0] as u32)
        == (c[0] as u32) {
        lemma_lex_trans(a.drop_first(), b.drop_first(), c.drop_first());
    }
}

fn text_le(a: &str, b: &str) -> (r: bool)
    ensures
        r == lex_le(a@, b@),
{
    let n = a.unicode_len();
    let m = b.unicode_len();
    let mut i: usize = 0;
    assert(a@.subrange(0, n as int) =~= a@);
    assert(b@.subrange(0, m as int) =~= b@);
    while i < n && i < m
        invariant
            n == a@.len(),
            m == b@.len(),
            i <= n,
            i <= m,
            lex_le(a@, b@) == lex_le(a@.subrange(i as int, n as int), b@.subrange(i as int, m as int)),
        decreases n - i,
    {
        let x = a.get_char(i);
        let y = b.get_char(i);
        if (x as u32) < (y as u32) {
            return true;
        }
        if (x as u32) > (y as u32) {
            return false;
        }
        assert(a@.subrange(i as int, n as int).drop_first() =~= a@.subrange(i + 1, n as int));
        assert(b@.subrange(i as int, m as int).drop_first() =~= b@.subrange(i + 1, m as int));
        i = i + 1;
    }
    i == n
}

/// The state of one storage root: its directory and its settings.
#[derive(Debug, Clone)]
pub struct Storage {
    pub path: String,
    pub config: Config,
}

impl Storage {
    /// A storage root at `path` with the settings loaded from it.
    pub fn new(path: String, config: Config) -> (r: Storage)
        ensures
            r.path@ == path@,
            r.config == config,
    {
        Storage { path, config }
    }

    /// Checks what was found on disk for the root, its `repo` directory and
    /// its `config.toml`; the first problem in that order is the error.
    pub fn validate(root: PathKind, repo: PathKind, config_file: PathKind) -> (r: Result<(), LayoutError>)
        ensures
            r == Err::<(), LayoutError>(LayoutError::RootMissing) <==> root == PathKind::Missing,
            r == Err::<(), LayoutError>(LayoutError::RootNotDirectory) <==> root != PathKind::Missing
                && root != PathKind::Directory,
            r == Err::<(), LayoutError>(LayoutError::RepoMissing) <==> root == PathKind::Directory
                && repo == PathKind::Missing,
            r == Err::<(), LayoutError>(LayoutError::RepoNotDirectory) <==> root == PathKind::Directory
                && repo != PathKind::Missing && repo != PathKind::Directory,
            r == Err::<(), LayoutError>(LayoutError::ConfigMissing) <==> root == PathKind::Directory
                && repo == PathKind::Directory && config_file == PathKind::Missing,
            r == Err::<(), LayoutError>(LayoutError::ConfigNotFile) <==> root == PathKind::Directory
                && repo == PathKind::Directory && config_file != PathKind::Missing && config_file
                != PathKind::File,
            r is Ok <==> root == PathKind::Directory && repo == PathKind::Directory && config_file
                == PathKind::File,
    {
        if root == PathKind::Missing {
            Err(LayoutError::RootMissing)
        } else if root != PathKind::Directory {
            Err(LayoutError::RootNotDirectory)
        } else if repo == PathKind::Missing {
            Err(LayoutError::RepoMissing)
        } else if repo != PathKind::Directory {
            Err(LayoutError::RepoNotDirectory)
        } else if config_file == PathKind::Missing {
            Err(LayoutError::ConfigMissing)
        } else if config_file != PathKind::File {
            Err(LayoutError::ConfigNotFile)
        } else {
            Ok(())
        }
    }
}


/// The name of the directory under the root that holds the profiles.
pub open spec fn repo_segment() -> Seq<char> {
    seq!['r', 'e', 'p', 'o']
}

/// Joins the relative path `part` to `base`.
pub fn join_path(base: &str, part: &str) -> (r: String)
    ensures
        r@ == joined(base@, part@),
{
    let n = base.unicode_len();
    if n == 0 {
        return String::from_str(part);
    }
    let mut r = String::from_str(base);
    if base.get_char(n - 1) != '/' {
        proof {
            reveal_strlit("/");
        }
        r.append("/");
    }
    r.append(part);
    r
}

fn is_md_file(p: &str) -> (r: bool)
    ensures
        r == is_profile_file(p@),
{
    let n = p.unicode_len();
    if n < 4 {
        return false;
    }
    let r = p.get_char(n - 3) == '.' && p.get_char(n - 2) == 'm' && p.get_char(n - 1) == 'd'
        && p.get_char(n - 4) != '/';
    proof {
        if r {
            assert(p@.subrange(n - 3, n as int) =~= md_suffix());
        } else if p@.subrange(n - 3, n as int) == md_suffix() {
            assert(p@.subrange(n - 3, n as int)[0] == p@[n - 3]);
            assert(p@.subrange(n - 3, n as int)[1] == p@[n - 2]);
            assert(p@.subrange(n - 3, n as int)[2] == p@[n - 1]);
        }
    }
    r
}

/// Index at which `x` goes into the sorted `v`: after every element that
/// orders at or before it.
pub(crate) fn insertion_point(v: &Vec<String>, x: &str) -> (p: usize)
    requires
        sorted(texts(v@)),
    ensures
        p <= v@.len(),
        forall|k: int| 0 <= k < p ==> lex_le(#[trigger] texts(v@)[k], x@),
        forall|k: int| p <= k < v@.len() ==> lex_le(x@, #[trigger] texts(v@)[k]),
{
    let ghost vs = texts(v@);
    let mut k: usize = 0;
    while k < v.len() && text_le(v[k].as_str(), x)
        invariant
            vs == texts(v@),
            k <= v@.len(),
            forall|j: int| 0 <= j < k ==> lex_le(#[trigger] vs[j], x@),
        decreases v.len() - k,
    {
        k = k + 1;
    }
    proof {
        if k < v@.len() {
            assert(!lex_le(vs[k as int], x@));
            lemma_lex_total(vs[k as int], x@);
            assert forall|j: int| k <= j < v@.len() implies lex_le(x@, #[trigger] vs[j]) by {
                if j > k {
                    assert(lex_le(vs[k as int], vs[j]));
                    lemma_lex_trans(x@, vs[k as int], vs[j]);
                }
            }
        }
    }
    k
}

impl Storage {
    /// The directory that holds the profile documents.
    pub fn repo_dir(&self) -> (r: String)
        ensures
            r@ == joined(self.path@, repo_segment()),
    {
        proof {
            reveal_strlit("repo");
        }
        join_path(self.path.as_str(), "repo")
    }

    /// Where the profile `name` is stored, once the name is known to be safe.
    pub fn profile_path(&self, name: &str) -> (r: Result<String, ProfileError>)
        ensures
            match r {
                Ok(p) => valid_profile_name(name@) && p@ == joined(
                    joined(self.path@, repo_segment()),
                    profile_file_name(name@),
                ),
                Err(e) => !valid_profile_name(name@) && e is InvalidName,
            },
    {
        match validate_profile_name(name) {
            Err(e) => Err(ProfileError::InvalidName(e)),
            Ok(()) => {
                let dir = self.repo_dir();
                let mut file = String::from_str(name);
                proof {
                    reveal_strlit(".md");
                }
                file.append(".md");
                assert(file@ =~= profile_file_name(name@));
                Ok(join_path(dir.as_str(), file.as_str()))
            },
        }
    }

    /// Resolves an existing profile; `found` is what its path was found to
    /// be.
    pub fn get_repo_path(&self, name: &str, found: PathKind) -> (r: Result<String, ProfileError>)
        ensures
            !valid_profile_name(name@) ==> r is Err && r->Err_0 is InvalidName,
            valid_profile_name(name@) && found == PathKind::Missing ==> r == Err::<
                String,
                ProfileError,
            >(ProfileError::NotFound),
            valid_profile_name(name@) && found != PathKind::Missing ==> r is Ok && r->Ok_0@
                == joined(joined(self.path@, repo_segment()), profile_file_name(name@)),
    {
        let path = self.profile_path(name)?;
        if found == PathKind::Missing {
            Err(ProfileError::NotFound)
        } else {
            Ok(path)
        }
    }

    /// Where a new profile is to be written; it must not exist yet. The
    /// content is written as it is given.
    pub fn create_profile(&self, name: &str, found: PathKind) -> (r: Result<String, ProfileError>)
        ensures
            !valid_profile_name(name@) ==> r is Err && r->Err_0 is InvalidName,
            valid_profile_name(name@) && found != PathKind::Missing ==> r == Err::<
                String,
                ProfileError,
            >(ProfileError::AlreadyExists),
            valid_profile_name(name@) && found == PathKind::Missing ==> r is Ok && r->Ok_0@
                == joined(joined(self.path@, repo_segment()), profile_file_name(name@)),
    {
        let path = self.profile_path(name)?;
        if found != PathKind::Missing {
            Err(ProfileError::AlreadyExists)
        } else {
            Ok(path)
        }
    }

    /// The content of the profile `name`, given what reading its document
    /// gave.
    pub fn get_content(&self, name: &str, read: FileRead) -> (r: Result<String, ProfileError>)
        ensures
            !valid_profile_name(name@) ==> r is Err && r->Err_0 is InvalidName,
            valid_profile_name(name@) ==> r == match read {
                FileRead::Missing => Err(ProfileError::NotFound),
                FileRead::Failed(m) => Err(ProfileError::Io(m)),
                FileRead::Text(t) => Ok(t),
            },
    {
        if let Err(e) = validate_profile_name(name) {
            return Err(ProfileError::InvalidName(e));
        }
        match read {
            FileRead::Missing => Err(ProfileError::NotFound),
            FileRead::Failed(m) => Err(ProfileError::Io(m)),
            FileRead::Text(t) => Ok(t),
        }
    }

    /// The profile names among the files found under the repository
    /// directory (paths relative to it, `/`-separated): those with the
    /// extension `md`, without it, in lexicographic order.
    pub fn list_repos(&self, files: &Vec<String>) -> (r: Vec<String>)
        ensures
            sorted(texts(r@)),
            texts(r@).to_multiset() == names_of_files(texts(files@), files@.len() as int).to_multiset(),
    {
        let ghost fs = texts(files@);
        let mut out: Vec<String> = Vec::new();
        let mut i: usize = 0;
        assert(texts(out@) =~= Seq::<Seq<char>>::empty());
        while i < files.len()
            invariant
                fs == texts(files@),
                i <= files@.len(),
                sorted(texts(out@)),
                texts(out@).to_multiset() == names_of_files(fs, i as int).to_multiset(),
            decreases files.len() - i,
        {
            let f = files[i].as_str();
            assert(fs[i as int] == f@);
            if is_md_file(f) {
                let n = f.unicode_len();
                let name = f.substring_char(0, n - 3);
                let p = insertion_point(&out, name);
                let ghost before = texts(out@);
                out.insert(p, String::from_str(name));
                proof {
                    assert(texts(out@) =~= before.insert(p as int, name@));
                    vstd::seq_lib::to_multiset_insert(before, p as int, name@);
                    vstd::seq_lib::to_multiset_build(names_of_files(fs, i as int), name@);
                    let after = texts(out@);
                    assert forall|a: int, b: int| 0 <= a < b < after.len() implies lex_le(
                        #[trigger] after[a],
                        #[trigger] after[b],
                    ) by {
                        if b < p {
                            assert(after[a] == before[a] && after[b] == before[b]);
                        } else if b == p {
                            assert(after[a] == before[a]);
                        } else if a == p {
                            assert(after[b] == before[b - 1]);
                        } else if a < p {
                            assert(after[a] == before[a] && after[b] == before[b - 1]);
                        } else {
                            assert(after[a] == before[a - 1] && after[b] == before[b - 1]);
                        }
                    }
                }
            }
            i = i + 1;
        }
        out
    }

    /// Whether the protocol surface is on: unless prompts and tools are
    /// both hidden entirely.
    pub fn is_mcp_enabled(&self) -> (r: bool)
        ensures
            r == !(self.config.mcp.disable_prompts == DisableOption::Bool(true)
                && self.config.mcp.disable_tools == DisableOption::Bool(true)),
    {
        self.config.mcp.is_enabled()
    }
}


/// Why an extension subcommand may not run.
#[derive(Debug, Clone, Copy, PartialEq, Eq, Structural)]
pub enum ExtensionError {
    Empty,
    InvalidName,
    NotAllowed,
}

/// A command that completion may offer.
#[derive(Debug, Clone, Copy, PartialEq, Eq, Structural)]
pub enum CompletionWord {
    Profile,
    Completion,
    SetClaudeProfile,
    ResetClaudeProfile,
    AppendClaudeProfile,
    SetCodexProfile,
    ResetCodexProfile,
    AppendCodexProfile,
    Mcp,
}

/// The commands completion offers: `Profile` and `Completion` always, the
/// three `ClaudeProfile` commands unless `disable_claude`, the three
/// `CodexProfile` commands unless `disable_codex`, and `Mcp` when the
/// protocol surface is on.
pub open spec fn command_words(first: bool, second: bool, mcp: bool) -> Seq<CompletionWord> {
    let base = seq![CompletionWord::Profile, CompletionWord::Completion];
    let with_first = if first {
        base + seq![
            CompletionWord::SetClaudeProfile,
            CompletionWord::ResetClaudeProfile,
            CompletionWord::AppendClaudeProfile,
        ]
    } else {
        base
    };
    let with_second = if second {
        with_first + seq![
            CompletionWord::SetCodexProfile,
            CompletionWord::ResetCodexProfile,
            CompletionWord::AppendCodexProfile,
        ]
    } else {
        with_first
    };
    if mcp {
        with_second.push(CompletionWord::Mcp)
    } else {
        with_second
    }
}

/// `existing`, a blank line, then `addition`; `addition` alone when there
/// is nothing yet.
pub open spec fn appended(existing: Option<Seq<char>>, addition: Seq<char>) -> Seq<char> {
    match existing {
        Some(e) => e + seq!['\n', '\n'] + addition,
        None => addition,
    }
}

/// The document that results from appending a profile to an agent's
/// instructions file, which holds `existing` if it exists.
pub fn append_profile_text(existing: Option<String>, addition: &str) -> (r: String)
    ensures
        r@ == appended(
            match existing {
                Some(e) => Some(e@),
                None => None,
            },
            addition@,
        ),
{
    match existing {
        Some(e) => {
            let mut r = e;
            proof {
                reveal_strlit("\n\n");
            }
            r.append("\n\n");
            r.append(addition);
            r
        },
        None => String::from_str(addition),
    }
}

/// The editor to run: `$EDITOR` if set and not empty, else `$VISUAL` if set
/// and not empty, else none.
pub fn choose_editor(editor: Option<String>, visual: Option<String>) -> (r: Option<String>)
    ensures
        r == (match editor {
            Some(e) if e@.len() > 0 => Some(e),
            _ => match visual {
                Some(v) if v@.len() > 0 => Some(v),
                _ => None,
            },
        }),
{
    if let Some(e) = editor {
        if e.as_str().unicode_len() > 0 {
            return Some(e);
        }
    }
    if let Some(v) = visual {
        if v.as_str().unicode_len() > 0 {
            return Some(v);
        }
    }
    None
}

/// The executable that runs the extension subcommand `name`.
pub open spec fn extension_binary(name: Seq<char>) -> Seq<char> {
    seq!['p', 'm', 'x', '-'] + name
}

impl Storage {
    /// Whether `ClaudeProfile` commands may run.
    pub fn claude_enabled(&self) -> (r: bool)
        ensures
            r == !self.config.agents.disable_claude,
    {
        !self.config.agents.disable_claude
    }

    /// Whether `CodexProfile` commands may run.
    pub fn codex_enabled(&self) -> (r: bool)
        ensures
            r == !self.config.agents.disable_codex,
    {
        !self.config.agents.disable_codex
    }

    /// Whether an internal completion request answers with the profile
    /// names.
    pub fn completion_lists_profiles(&self, cmd: InternalCompletionCommand) -> (r: bool)
        ensures
            r == match cmd {
                InternalCompletionCommand::ClaudeProfiles => !self.config.agents.disable_claude,
                InternalCompletionCommand::CodexProfiles => !self.config.agents.disable_codex,
                InternalCompletionCommand::EnabledCommands => false,
                InternalCompletionCommand::ProfileNames => true,
            },
    {
        match cmd {
            InternalCompletionCommand::ClaudeProfiles => !self.config.agents.disable_claude,
            InternalCompletionCommand::CodexProfiles => !self.config.agents.disable_codex,
            InternalCompletionCommand::EnabledCommands => false,
            InternalCompletionCommand::ProfileNames => true,
        }
    }

    /// The commands that completion offers under this configuration.
    pub fn enabled_commands(&self) -> (r: Vec<CompletionWord>)
        ensures
            r@ == command_words(
                !self.config.agents.disable_claude,
                !self.config.agents.disable_codex,
                self.config.mcp.enabled(),
            ),
    {
        let mut v: Vec<CompletionWord> = Vec::new();
        v.push(CompletionWord::Profile);
        v.push(CompletionWord::Completion);
        let ghost base = v@;
        assert(base =~= seq![CompletionWord::Profile, CompletionWord::Completion]);
        if !self.config.agents.disable_claude {
            v.push(CompletionWord::SetClaudeProfile);
            v.push(CompletionWord::ResetClaudeProfile);
            v.push(CompletionWord::AppendClaudeProfile);
            assert(v@ =~= base + seq![
                CompletionWord::SetClaudeProfile,
                CompletionWord::ResetClaudeProfile,
                CompletionWord::AppendClaudeProfile,
            ]);
        }
        let ghost mid = v@;
        if !self.config.agents.disable_codex {
            v.push(CompletionWord::SetCodexProfile);
            v.push(CompletionWord::ResetCodexProfile);
            v.push(CompletionWord::AppendCodexProfile);
            assert(v@ =~= mid + seq![
                CompletionWord::SetCodexProfile,
                CompletionWord::ResetCodexProfile,
                CompletionWord::AppendCodexProfile,
            ]);
        }
        if self.config.mcp.is_enabled() {
            v.push(CompletionWord::Mcp);
        }
        v
    }

    /// Checks an extension invocation (`args[0]` is the subcommand) and
    /// gives the executable to run.
    pub fn check_extension(&self, args: &Vec<String>) -> (r: Result<String, ExtensionError>)
        ensures
            args@.len() == 0 <==> r == Err::<String, ExtensionError>(ExtensionError::Empty),
            args@.len() > 0 && !valid_subcommand_name(args@[0]@) <==> r == Err::<
                String,
                ExtensionError,
            >(ExtensionError::InvalidName),
            args@.len() > 0 && valid_subcommand_name(args@[0]@) && !texts(
                self.config.extensions.allowed_subcommands@,
            ).contains(args@[0]@) <==> r == Err::<String, ExtensionError>(
                ExtensionError::NotAllowed,
            ),
            r is Ok ==> r->Ok_0@ == extension_binary(args@[0]@),
    {
        if args.len() == 0 {
            return Err(ExtensionError::Empty);
        }
        let sub = args[0].as_str();
        if !is_valid_subcommand_name(sub) {
            return Err(ExtensionError::InvalidName);
        }
        if !contains_text(&self.config.extensions.allowed_subcommands, sub) {
            return Err(ExtensionError::NotAllowed);
        }
        proof {
            reveal_strlit("pmx-");
        }
        let mut bin = String::from_str("pmx-");
        bin.append(sub);
        Ok(bin)
    }
}

} // verus!
