//! The commands the program accepts, as plain values.
use vstd::prelude::*;

verus! {

/// The program's arguments: an optional storage directory and a command.
#[derive(Debug, Clone)]
pub struct Arg {
    pub config: Option<String>,
    pub command: Command,
}

#[derive(Debug, Clone)]
pub enum Command {
    SetClaudeProfile(ClaudeProfile),
    ResetClaudeProfile,
    AppendClaudeProfile(ClaudeProfile),
    SetCodexProfile(CodexProfile),
    ResetCodexProfile,
    AppendCodexProfile(CodexProfile),
    Profile(ProfileCommand),
    Completion(CompletionArgs),
    InternalCompletion(InternalCompletionCommand),
    Mcp,
}

/// The profile that `SetClaudeProfile` or `AppendClaudeProfile` applies.
#[derive(Debug, Clone)]
pub struct ClaudeProfile {
    pub path: String,
}

/// The profile that `SetCodexProfile` or `AppendCodexProfile` applies.
#[derive(Debug, Clone)]
pub struct CodexProfile {
    pub path: String,
}

#[derive(Debug, Clone, Copy, PartialEq, Eq, Structural)]
pub struct CompletionArgs {
    pub shell: Shell,
}

#[derive(Debug, Clone, Copy, PartialEq, Eq, Structural)]
pub enum Shell {
    Zsh,
}

#[derive(Debug, Clone)]
pub enum ProfileCommand {
    List,
    Edit(ProfileArgs),
    Delete(ProfileArgs),
    Create(ProfileArgs),
    Show(ProfileArgs),
    Copy(ProfileArgs),
}

#[derive(Debug, Clone)]
pub struct ProfileArgs {
    pub name: String,
}

#[derive(Debug, Clone, Copy, PartialEq, Eq, Structural)]
pub enum InternalCompletionCommand {
    ClaudeProfiles,
    CodexProfiles,
    EnabledCommands,
    ProfileNames,
}

} // verus!
