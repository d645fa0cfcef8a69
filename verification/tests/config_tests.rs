//! Tests for configuration data, validation, and the extension hook filter.

use claw_hooks::ChainOutcome;
use claw_hooks::Config;
use claw_hooks::ConfigService;
use claw_hooks::CustomFilter;
use claw_hooks::Decision;
use claw_hooks::ExtensionHook;
use claw_hooks::ExtensionHookFilter;
use claw_hooks::FileOperationInput;
use claw_hooks::FilterChain;
use claw_hooks::Format;
use claw_hooks::FormatAdapter;
use claw_hooks::HookInput;
use claw_hooks::PlannedJob;
use claw_hooks::StopHook;
use claw_hooks::ToolInput;

#[test]
fn test_default_config() {
    let config = Config::default();
    assert!(config.rm_block);
    assert!(config.kill_block);
    assert!(config.dd_block);
    assert!(!config.debug);
    assert!(config.custom_filters.is_empty());
    assert!(config.extension_hooks.is_empty());
    assert!(config.stop_hooks.is_empty());
    assert!(config.validate().is_ok());
}

#[test]
fn test_default_config_content_mentions_flags() {
    let content = ConfigService::default_config_content();
    assert!(content.contains("kill_block"));
    assert!(content.contains("rm_block"));
    assert!(content.contains("dd_block"));
}

#[test]
fn test_validate_rejects_invalid_regex() {
    let mut config = Config::default();
    config.custom_filters = vec![CustomFilter {
        command: "(".to_string(),
        args: vec![],
        message: "m".to_string(),
    }];
    let err = config.validate().unwrap_err();
    assert!(err.contains("invalid regex pattern"), "{}", err);
}

#[test]
fn test_validate_rejects_empty_fields() {
    let mut config = Config::default();
    config.custom_filters = vec![CustomFilter {
        command: String::new(),
        args: vec![],
        message: "m".to_string(),
    }];
    assert!(config.validate().unwrap_err().contains("command cannot be empty"));

    let mut config = Config::default();
    config.custom_filters = vec![CustomFilter {
        command: "x".to_string(),
        args: vec![],
        message: String::new(),
    }];
    assert!(config.validate().unwrap_err().contains("message cannot be empty"));

    let mut config = Config::default();
    config.stop_hooks = vec![StopHook {
        command: String::new(),
    }];
    assert!(config.validate().unwrap_err().contains("command cannot be empty"));
}

#[test]
fn test_validate_extension_hooks() {
    let mut config = Config::default();
    config.extension_hooks = vec![ExtensionHook {
        extension: "py".to_string(),
        commands: vec!["fmt {file}".to_string()],
    }];
    assert!(config.validate().unwrap_err().contains("must start with '.'"));

    let mut config = Config::default();
    config.extension_hooks = vec![ExtensionHook {
        extension: ".py".to_string(),
        commands: vec!["fmt".to_string()],
    }];
    assert!(config
        .validate()
        .unwrap_err()
        .contains("must contain the {file} placeholder"));

    let mut config = Config::default();
    config.extension_hooks = vec![ExtensionHook {
        extension: ".py".to_string(),
        commands: vec!["fmt {file}".to_string()],
    }];
    assert!(config.validate().is_ok());
}

#[test]
fn test_invalid_custom_pattern_is_skipped_by_chain() {
    let mut config = Config::default();
    config.rm_block = false;
    config.kill_block = false;
    config.dd_block = false;
    config.custom_filters = vec![CustomFilter {
        command: "(".to_string(),
        args: vec![],
        message: "broken".to_string(),
    }];
    let chain = FilterChain::new(&config);
    let input = HookInput {
        event: "PreToolUse".to_string(),
        tool_name: "Bash".to_string(),
        tool_input: ToolInput::Bash(claw_hooks::BashInput {
            command: "( anything".to_string(),
            timeout: None,
        }),
        session_id: None,
    };
    assert!(matches!(chain.execute(&input), ChainOutcome::Allow { .. }));
}

fn write_input(path: &str, event: &str) -> HookInput {
    HookInput {
        event: event.to_string(),
        tool_name: "Write".to_string(),
        tool_input: ToolInput::File(FileOperationInput {
            file_path: path.to_string(),
            content: None,
        }),
        session_id: None,
    }
}

fn formatter_config() -> Config {
    let mut config = Config::default();
    config.extension_hooks = vec![ExtensionHook {
        extension: ".py".to_string(),
        commands: vec!["formatter {file}".to_string()],
    }];
    config
}

#[test]
fn test_extension_hook_plans_formatter_for_matching_extension() {
    let chain = FilterChain::new(&formatter_config());
    let outcome = chain.execute(&write_input("report.py", "PostToolUse"));
    match outcome {
        ChainOutcome::Allow { ext_jobs, .. } => {
            assert_eq!(ext_jobs.len(), 1);
            match &ext_jobs[0] {
                PlannedJob::Run {
                    label,
                    program,
                    args,
                } => {
                    assert_eq!(label, "formatter {file}");
                    assert_eq!(program, "formatter");
                    assert_eq!(args, &vec!["report.py".to_string()]);
                }
                PlannedJob::Invalid { error } => panic!("unexpected error: {}", error),
            }
        }
        ChainOutcome::Block { .. } => panic!("side effects must not block"),
    }
}

#[test]
fn test_extension_hook_output_becomes_post_execution_context() {
    let chain = FilterChain::new(&formatter_config());
    let outcome = chain.execute(&write_input("report.py", "PostToolUse"));
    let decision = outcome.into_decision(&vec!["syntax error".to_string()]);
    match &decision {
        Decision::Allow {
            additional_context: Some(ctx),
        } => {
            assert!(ctx.contains("syntax error"), "{}", ctx);
            assert!(ctx.contains("[formatter {file}]"), "{}", ctx);
        }
        _ => panic!("expected allow with context"),
    }
    let adapter = FormatAdapter::new(Format::Claude);
    let post = adapter.format_output(&decision, "PostToolUse");
    assert!(post.contains("syntax error"));
    let pre = adapter.format_output(&decision, "PreToolUse");
    assert!(!pre.contains("syntax error"));
    assert!(pre.contains(r#""decision":"approve""#));
}

#[test]
fn test_extension_hook_skips_other_extensions() {
    let chain = FilterChain::new(&formatter_config());
    let outcome = chain.execute(&write_input("report.txt", "PostToolUse"));
    match outcome {
        ChainOutcome::Allow { ext_jobs, .. } => assert!(ext_jobs.is_empty()),
        ChainOutcome::Block { .. } => panic!("side effects must not block"),
    }
}

#[test]
fn test_extension_hook_rejects_unsafe_paths() {
    let chain = FilterChain::new(&formatter_config());
    let outcome = chain.execute(&write_input("../evil.py", "PostToolUse"));
    match outcome {
        ChainOutcome::Allow { ext_jobs, .. } => {
            assert_eq!(ext_jobs.len(), 1);
            match &ext_jobs[0] {
                PlannedJob::Invalid { error } => {
                    assert_eq!(error, "Path traversal detected");
                }
                PlannedJob::Run { .. } => panic!("unsafe path must not run"),
            }
        }
        ChainOutcome::Block { .. } => panic!("side effects must not block"),
    }
    let outcome = chain.execute(&write_input("a;b.py", "PostToolUse"));
    match outcome {
        ChainOutcome::Allow { ext_jobs, .. } => {
            assert!(matches!(&ext_jobs[0], PlannedJob::Invalid { .. }));
        }
        ChainOutcome::Block { .. } => panic!("side effects must not block"),
    }
}

#[test]
fn test_extension_hook_inline_placeholder() {
    let mut config = Config::default();
    config.extension_hooks = vec![ExtensionHook {
        extension: ".rs".to_string(),
        commands: vec!["linter --file={file} --fix".to_string()],
    }];
    let chain = FilterChain::new(&config);
    let outcome = chain.execute(&write_input("src.rs", "PreToolUse"));
    match outcome {
        ChainOutcome::Allow { ext_jobs, .. } => match &ext_jobs[0] {
            PlannedJob::Run { program, args, .. } => {
                assert_eq!(program, "linter");
                assert_eq!(args, &vec!["--file=src.rs".to_string(), "--fix".to_string()]);
            }
            PlannedJob::Invalid { error } => panic!("unexpected error: {}", error),
        },
        ChainOutcome::Block { .. } => panic!("side effects must not block"),
    }
}

#[test]
fn test_validate_file_path_rules() {
    assert!(claw_hooks::validate_file_path("report.py").is_ok());
    assert_eq!(
        claw_hooks::validate_file_path("../x").unwrap_err(),
        "Path traversal detected"
    );
    assert_eq!(
        claw_hooks::validate_file_path("-flag.py").unwrap_err(),
        "Path starting with '-' could be interpreted as flag"
    );
    assert_eq!(
        claw_hooks::validate_file_path("a$b.py").unwrap_err(),
        "Path contains a dangerous character"
    );
}

#[test]
fn test_parse_command_template_rules() {
    assert!(claw_hooks::parse_command_template("").is_err());
    assert!(claw_hooks::parse_command_template("fmt -w").is_err());
    let parsed = claw_hooks::parse_command_template("fmt -a {file} -b").unwrap();
    assert_eq!(parsed.program, "fmt");
    assert_eq!(parsed.args_before, vec!["-a".to_string()]);
    assert_eq!(parsed.args_after, vec!["-b".to_string()]);
    assert!(parsed.inline_template.is_none());
    let parsed = claw_hooks::parse_command_template("lint --file={file}").unwrap();
    assert_eq!(parsed.inline_template, Some("--file={file}".to_string()));
}

#[test]
fn test_extension_filter_lookup() {
    let filter = ExtensionHookFilter::new(vec![
        ExtensionHook {
            extension: ".go".to_string(),
            commands: vec!["gofmt -w {file}".to_string()],
        },
        ExtensionHook {
            extension: ".py".to_string(),
            commands: vec!["ruff format {file}".to_string()],
        },
    ]);
    assert_eq!(
        filter.get_matching_commands("pkg/main.go"),
        Some(vec!["gofmt -w {file}".to_string()])
    );
    assert_eq!(
        filter.get_matching_commands("x.py"),
        Some(vec!["ruff format {file}".to_string()])
    );
    assert_eq!(filter.get_matching_commands("x.txt"), None);
    assert_eq!(filter.get_matching_commands("noext"), None);
    assert_eq!(filter.get_matching_commands(".hidden"), None);
}

#[test]
fn test_validate_reports_entry_index() {
    let mut config = Config::default();
    config.custom_filters = vec![
        CustomFilter {
            command: "ok".to_string(),
            args: vec![],
            message: "fine".to_string(),
        },
        CustomFilter {
            command: "x".to_string(),
            args: vec![],
            message: String::new(),
        },
    ];
    assert_eq!(
        config.validate().unwrap_err(),
        "custom_filters[1]: message cannot be empty"
    );
}
