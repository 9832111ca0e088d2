use pmx::cli::InternalCompletionCommand;
use pmx::config::{Agents, Config, DisableOption, ExtensionsConfig, McpConfig};
use pmx::storage::{
    append_profile_text, choose_editor, join_path, CompletionWord, ExtensionError, FileRead, LayoutError,
    PathKind, ProfileError, Storage,
};

fn storage_with(prompts: DisableOption, tools: DisableOption) -> Storage {
    let config = Config {
        agents: Agents {
            disable_claude: false,
            disable_codex: false,
        },
        mcp: McpConfig {
            disable_prompts: prompts,
            disable_tools: tools,
        },
        extensions: ExtensionsConfig::default(),
    };
    Storage::new("/data/test_storage".to_string(), config)
}

fn storage_with_agents(disable_claude: bool, disable_codex: bool) -> Storage {
    let mut config = Config::initial();
    config.agents = Agents {
        disable_claude,
        disable_codex,
    };
    Storage::new("/data".to_string(), config)
}

fn storage_with_extensions(allowed: Vec<String>) -> Storage {
    let mut config = Config::initial();
    config.extensions = ExtensionsConfig {
        allowed_subcommands: allowed,
    };
    Storage::new("/data".to_string(), config)
}

fn strings(v: &[&str]) -> Vec<String> {
    v.iter().map(|s| s.to_string()).collect()
}

#[test]
fn test_is_mcp_enabled_both_disabled() {
    let storage = storage_with(DisableOption::Bool(true), DisableOption::Bool(true));
    assert!(!storage.is_mcp_enabled());
}

#[test]
fn test_is_mcp_enabled_prompts_enabled() {
    let storage = storage_with(DisableOption::Bool(false), DisableOption::Bool(true));
    assert!(storage.is_mcp_enabled());
}

#[test]
fn test_is_mcp_enabled_tools_enabled() {
    let storage = storage_with(DisableOption::Bool(true), DisableOption::Bool(false));
    assert!(storage.is_mcp_enabled());
}

#[test]
fn test_is_mcp_enabled_with_list() {
    let storage = storage_with(
        DisableOption::List(vec!["prompt1".to_string()]),
        DisableOption::Bool(true),
    );
    assert!(storage.is_mcp_enabled());
}

#[test]
fn test_internal_completion_enabled_commands_with_mcp() {
    let mut storage = storage_with(DisableOption::Bool(true), DisableOption::Bool(true));
    storage.config.agents = Agents {
        disable_claude: true,
        disable_codex: true,
    };
    assert!(!storage.is_mcp_enabled());
    assert_eq!(
        storage.enabled_commands(),
        vec![CompletionWord::Profile, CompletionWord::Completion]
    );
}

#[test]
fn mcp_enabled_for_every_other_combination() {
    let empty = || DisableOption::List(Vec::new());
    assert!(storage_with(empty(), DisableOption::Bool(true)).is_mcp_enabled());
    assert!(storage_with(DisableOption::Bool(true), empty()).is_mcp_enabled());
    assert!(storage_with(DisableOption::Bool(false), DisableOption::Bool(false)).is_mcp_enabled());
}

#[test]
fn enabled_commands_follow_the_switches() {
    assert_eq!(
        storage_with_agents(false, false).enabled_commands(),
        vec![
            CompletionWord::Profile,
            CompletionWord::Completion,
            CompletionWord::SetClaudeProfile,
            CompletionWord::ResetClaudeProfile,
            CompletionWord::AppendClaudeProfile,
            CompletionWord::SetCodexProfile,
            CompletionWord::ResetCodexProfile,
            CompletionWord::AppendCodexProfile,
            CompletionWord::Mcp,
        ]
    );
    assert_eq!(
        storage_with_agents(true, false).enabled_commands(),
        vec![
            CompletionWord::Profile,
            CompletionWord::Completion,
            CompletionWord::SetCodexProfile,
            CompletionWord::ResetCodexProfile,
            CompletionWord::AppendCodexProfile,
            CompletionWord::Mcp,
        ]
    );
    assert_eq!(
        storage_with_agents(false, true).enabled_commands(),
        vec![
            CompletionWord::Profile,
            CompletionWord::Completion,
            CompletionWord::SetClaudeProfile,
            CompletionWord::ResetClaudeProfile,
            CompletionWord::AppendClaudeProfile,
            CompletionWord::Mcp,
        ]
    );
}

#[test]
fn completion_lists_profiles_per_switch() {
    let on = storage_with_agents(false, false);
    let off = storage_with_agents(true, true);
    assert!(on.completion_lists_profiles(InternalCompletionCommand::ClaudeProfiles));
    assert!(!off.completion_lists_profiles(InternalCompletionCommand::ClaudeProfiles));
    assert!(on.completion_lists_profiles(InternalCompletionCommand::CodexProfiles));
    assert!(!off.completion_lists_profiles(InternalCompletionCommand::CodexProfiles));
    assert!(off.completion_lists_profiles(InternalCompletionCommand::ProfileNames));
    assert!(!on.completion_lists_profiles(InternalCompletionCommand::EnabledCommands));
    assert!(on.claude_enabled() && on.codex_enabled());
    assert!(!off.claude_enabled() && !off.codex_enabled());
}

#[test]
fn test_execute_extension_empty_args() {
    let storage = storage_with_extensions(vec![]);
    assert_eq!(storage.check_extension(&vec![]), Err(ExtensionError::Empty));
}

#[test]
fn test_execute_extension_invalid_name() {
    let storage = storage_with_extensions(vec![]);
    assert_eq!(
        storage.check_extension(&strings(&["../malicious"])),
        Err(ExtensionError::InvalidName)
    );
}

#[test]
fn test_execute_extension_not_allowed() {
    let storage = storage_with_extensions(strings(&["allowed-cmd"]));
    assert_eq!(
        storage.check_extension(&strings(&["not-allowed"])),
        Err(ExtensionError::NotAllowed)
    );
}

#[test]
fn allowed_extension_runs_its_binary() {
    let storage = storage_with_extensions(strings(&["test-cmd"]));
    assert_eq!(
        storage.check_extension(&strings(&["test-cmd", "--flag"])),
        Ok("pmx-test-cmd".to_string())
    );
}

#[test]
fn test_get_editor_with_env() {
    let result = choose_editor(Some("test-editor".to_string()), None);
    assert!(result.is_some());
    assert_eq!(result.unwrap(), "test-editor");
}

#[test]
fn editor_falls_back_to_visual_then_none() {
    assert_eq!(
        choose_editor(Some(String::new()), Some("vis".to_string())),
        Some("vis".to_string())
    );
    assert_eq!(choose_editor(None, Some(String::new())), None);
    assert_eq!(choose_editor(None, None), None);
}

#[test]
fn layout_errors_in_order() {
    assert_eq!(Storage::validate(PathKind::Directory, PathKind::Directory, PathKind::File), Ok(()));
    assert_eq!(Storage::validate(PathKind::Missing, PathKind::Missing, PathKind::Missing), Err(LayoutError::RootMissing));
    assert_eq!(Storage::validate(PathKind::File, PathKind::Directory, PathKind::File), Err(LayoutError::RootNotDirectory));
    assert_eq!(Storage::validate(PathKind::Directory, PathKind::Missing, PathKind::File), Err(LayoutError::RepoMissing));
    assert_eq!(Storage::validate(PathKind::Directory, PathKind::File, PathKind::File), Err(LayoutError::RepoNotDirectory));
    assert_eq!(Storage::validate(PathKind::Directory, PathKind::Directory, PathKind::Missing), Err(LayoutError::ConfigMissing));
    assert_eq!(Storage::validate(PathKind::Directory, PathKind::Directory, PathKind::Directory), Err(LayoutError::ConfigNotFile));
}

#[test]
fn paths_join_with_one_separator() {
    assert_eq!(join_path("/a", "b"), "/a/b");
    assert_eq!(join_path("/a/", "b"), "/a/b");
    assert_eq!(join_path("", "b"), "b");
    let storage = storage_with_agents(false, false);
    assert_eq!(storage.repo_dir(), "/data/repo");
    assert_eq!(
        storage.profile_path("design/plan").ok(),
        Some("/data/repo/design/plan.md".to_string())
    );
}

#[test]
fn resolving_a_missing_profile_is_not_found() {
    let storage = storage_with_agents(false, false);
    assert!(matches!(
        storage.get_repo_path("gone", PathKind::Missing),
        Err(ProfileError::NotFound)
    ));
    assert_eq!(
        storage.get_repo_path("here", PathKind::File).ok(),
        Some("/data/repo/here.md".to_string())
    );
    assert!(matches!(
        storage.get_repo_path("../etc/passwd", PathKind::File),
        Err(ProfileError::InvalidName(_))
    ));
}

#[test]
fn creating_an_existing_profile_is_refused() {
    let storage = storage_with_agents(false, false);
    assert_eq!(
        storage.create_profile("new/one", PathKind::Missing).ok(),
        Some("/data/repo/new/one.md".to_string())
    );
    assert!(matches!(
        storage.create_profile("new/one", PathKind::File),
        Err(ProfileError::AlreadyExists)
    ));
    assert!(matches!(
        storage.create_profile("bad|name", PathKind::Missing),
        Err(ProfileError::InvalidName(_))
    ));
}

#[test]
fn reading_content_reports_each_outcome() {
    let storage = storage_with_agents(false, false);
    assert_eq!(
        storage
            .get_content("p", FileRead::Text("body".to_string()))
            .ok(),
        Some("body".to_string())
    );
    assert!(matches!(
        storage.get_content("p", FileRead::Missing),
        Err(ProfileError::NotFound)
    ));
    match storage.get_content("p", FileRead::Failed("denied".to_string())) {
        Err(ProfileError::Io(m)) => assert_eq!(m, "denied"),
        _ => panic!("expected an I/O error"),
    }
}

#[test]
fn listing_an_empty_repository_is_empty() {
    let storage = storage_with_agents(false, false);
    assert!(storage.list_repos(&Vec::new()).is_empty());
}

#[test]
fn listing_keeps_markdown_sorted_without_extension() {
    let storage = storage_with_agents(false, false);
    let files = strings(&["b/c.md", "notes.txt", "a.md", "b/.md", "x.md.bak", "A.md"]);
    assert_eq!(storage.list_repos(&files), strings(&["A", "a", "b/c"]));
}

#[test]
fn appending_separates_with_a_blank_line() {
    assert_eq!(
        append_profile_text(Some("old".to_string()), "new"),
        "old\n\nnew"
    );
    assert_eq!(append_profile_text(None, "new"), "new");
}

#[test]
fn test_internal_completion_claude_profiles_enabled() {
    let storage = storage_with_agents(false, false);
    assert!(storage.completion_lists_profiles(InternalCompletionCommand::ClaudeProfiles));
}

#[test]
fn test_internal_completion_claude_profiles_disabled() {
    let storage = storage_with_agents(true, false);
    assert!(!storage.completion_lists_profiles(InternalCompletionCommand::ClaudeProfiles));
}

#[test]
fn test_internal_completion_codex_profiles_enabled() {
    let storage = storage_with_agents(false, false);
    assert!(storage.completion_lists_profiles(InternalCompletionCommand::CodexProfiles));
}

#[test]
fn test_internal_completion_codex_profiles_disabled() {
    let storage = storage_with_agents(false, true);
    assert!(!storage.completion_lists_profiles(InternalCompletionCommand::CodexProfiles));
}

#[test]
fn test_internal_completion_enabled_commands_all_enabled() {
    let storage = storage_with_agents(false, false);
    assert_eq!(storage.enabled_commands().len(), 9);
}

#[test]
fn test_internal_completion_enabled_commands_claude_disabled() {
    let storage = storage_with_agents(true, false);
    assert!(!storage
        .enabled_commands()
        .contains(&CompletionWord::SetClaudeProfile));
}

#[test]
fn test_internal_completion_enabled_commands_codex_disabled() {
    let storage = storage_with_agents(false, true);
    assert!(!storage
        .enabled_commands()
        .contains(&CompletionWord::SetCodexProfile));
}

#[test]
fn test_internal_completion_enabled_commands_all_disabled() {
    let storage = storage_with_agents(true, true);
    assert_eq!(
        storage.enabled_commands(),
        vec![
            CompletionWord::Profile,
            CompletionWord::Completion,
            CompletionWord::Mcp
        ]
    );
}
