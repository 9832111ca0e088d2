use pmx::config::{Config, DisableOption, McpConfig};
use pmx::server::{ArgValue, PmxMcpServer, PromptError};
use pmx::storage::{FileRead, ProfileError, Storage};

fn server_with(prompts: DisableOption) -> PmxMcpServer {
    let mut config = Config::initial();
    config.mcp = McpConfig {
        disable_prompts: prompts,
        disable_tools: DisableOption::Bool(false),
    };
    PmxMcpServer::new(Storage::new("/tmp/test_storage".to_string(), config))
}

fn args(pairs: Vec<(&str, ArgValue)>) -> Option<Vec<(String, ArgValue)>> {
    Some(pairs.into_iter().map(|(k, v)| (k.to_string(), v)).collect())
}

#[test]
fn test_is_prompt_enabled() {
    let server = server_with(DisableOption::Bool(false));
    assert!(server.is_prompt_enabled("test_prompt"));
}

#[test]
fn test_is_prompt_disabled_all() {
    let server = server_with(DisableOption::Bool(true));
    assert!(!server.is_prompt_enabled("test_prompt"));
}

#[test]
fn test_is_prompt_disabled_specific() {
    let server = server_with(DisableOption::List(vec!["disabled_prompt".to_string()]));
    assert!(!server.is_prompt_enabled("disabled_prompt"));
    assert!(server.is_prompt_enabled("enabled_prompt"));
}

#[test]
fn test_extract_arguments_from_content() {
    let server = server_with(DisableOption::Bool(false));

    let content1 = "Please visit <{{URL}}> for more information.";
    let args1 = server.extract_arguments_from_content(content1);
    assert_eq!(args1.len(), 1);
    assert_eq!(args1[0].name, "URL");
    assert_eq!(args1[0].description, Some("Value for URL".to_string()));
    assert_eq!(args1[0].required, Some(true));

    let content2 = "Connect to <{{HOST}}> on port <{{PORT}}> using <{{PROTOCOL}}>";
    let args2 = server.extract_arguments_from_content(content2);
    assert_eq!(args2.len(), 3);
    let names: Vec<&str> = args2.iter().map(|a| a.name.as_str()).collect();
    assert!(names.contains(&"HOST"));
    assert!(names.contains(&"PORT"));
    assert!(names.contains(&"PROTOCOL"));

    let content3 = "This is a simple prompt without variables.";
    let args3 = server.extract_arguments_from_content(content3);
    assert_eq!(args3.len(), 0);

    let content4 = "Use <{{URL}}> to access <{{URL}}> again.";
    let args4 = server.extract_arguments_from_content(content4);
    assert_eq!(args4.len(), 1);
    assert_eq!(args4[0].name, "URL");

    let content5 = "Invalid patterns: <{URL}> and {{URL}} and <URL>";
    let args5 = server.extract_arguments_from_content(content5);
    assert_eq!(args5.len(), 0);
}

#[test]
fn test_substitute_arguments() {
    let server = server_with(DisableOption::Bool(false));

    let content = "Please visit <{{URL}}> for more information.";
    let a = args(vec![("URL", ArgValue::Text("https://example.com".to_string()))]);
    let result = server.substitute_arguments(content, &a);
    assert_eq!(result, "Please visit https://example.com for more information.");

    let content2 = "Connect to <{{HOST}}> on port <{{PORT}}>";
    let a2 = args(vec![
        ("HOST", ArgValue::Text("localhost".to_string())),
        ("PORT", ArgValue::Json("8080".to_string())),
    ]);
    let result2 = server.substitute_arguments(content2, &a2);
    assert_eq!(result2, "Connect to localhost on port 8080");

    let content3 = "Use <{{MISSING}}> value.";
    let result3 = server.substitute_arguments(content3, &Some(Vec::new()));
    assert_eq!(result3, "Use <{{MISSING}}> value.");

    let content4 = "Use <{{URL}}> value.";
    let result4 = server.substitute_arguments(content4, &None);
    assert_eq!(result4, "Use <{{URL}}> value.");
}

#[test]
fn json_values_lose_their_surrounding_quotes() {
    assert_eq!(ArgValue::Json("\"\"x\"\"".to_string()).text(), "x");
    assert_eq!(ArgValue::Json("[1,\"a\"]".to_string()).text(), "[1,\"a\"]");
    assert_eq!(ArgValue::Json("\"a\"]\"".to_string()).text(), "a\"]");
    assert_eq!(ArgValue::Json("\"\"".to_string()).text(), "");
    assert_eq!(ArgValue::Text("\"kept\"".to_string()).text(), "\"kept\"");
}

#[test]
fn visible_prompts_follow_the_policy() {
    let names: Vec<String> = vec!["a".to_string(), "b".to_string(), "c".to_string()];
    assert!(server_with(DisableOption::Bool(true)).visible_prompts(&names).is_empty());
    assert_eq!(server_with(DisableOption::Bool(false)).visible_prompts(&names), names);
    assert_eq!(
        server_with(DisableOption::List(vec!["a".to_string()])).visible_prompts(&names),
        vec!["b".to_string(), "c".to_string()]
    );
}

#[test]
fn prompt_entry_lists_arguments_best_effort() {
    let server = server_with(DisableOption::Bool(false));
    let e = server.prompt_entry("p", FileRead::Text("Hi <{{WHO}}>".to_string()));
    assert_eq!(e.name, "p");
    assert_eq!(e.description, Some("System prompt: p".to_string()));
    let a = e.arguments.expect("arguments");
    assert_eq!(a.len(), 1);
    assert_eq!(a[0].name, "WHO");

    let plain = server.prompt_entry("p", FileRead::Text("Hi".to_string()));
    assert!(plain.arguments.is_none());
    let unreadable = server.prompt_entry("q", FileRead::Failed("denied".to_string()));
    assert_eq!(unreadable.name, "q");
    assert!(unreadable.arguments.is_none());
}

#[test]
fn get_prompt_distinguishes_disabled_from_missing() {
    let hidden = server_with(DisableOption::List(vec!["secret".to_string()]));
    assert!(matches!(
        hidden.get_prompt("secret", FileRead::Text("x".to_string()), &None),
        Err(PromptError::Disabled)
    ));
    assert!(matches!(
        hidden.get_prompt("gone", FileRead::Missing, &None),
        Err(PromptError::Unavailable(ProfileError::NotFound))
    ));
    let a = args(vec![("X", ArgValue::Text("1".to_string()))]);
    assert_eq!(
        hidden
            .get_prompt("open", FileRead::Text("v=<{{X}}>".to_string()), &a)
            .ok(),
        Some("v=1".to_string())
    );
}
