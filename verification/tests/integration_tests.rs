//! End-to-end tests: configuration to decision to wire output.

use claw_hooks::BashInput;
use claw_hooks::ChainOutcome;
use claw_hooks::Config;
use claw_hooks::CustomFilter;
use claw_hooks::Decision;
use claw_hooks::FileOperationInput;
use claw_hooks::Format;
use claw_hooks::FormatAdapter;
use claw_hooks::HookInput;
use claw_hooks::HookService;
use claw_hooks::StopInput;
use claw_hooks::ToolInput;

fn bash_input(command: &str) -> HookInput {
    HookInput {
        event: "PreToolUse".to_string(),
        tool_name: "Bash".to_string(),
        tool_input: ToolInput::Bash(BashInput {
            command: command.to_string(),
            timeout: None,
        }),
        session_id: None,
    }
}

/// Run one event through a service built from the configuration and render
/// the default wire format, with no side effects executed.
fn decide(config: Config, input: &HookInput) -> (String, i32) {
    let service = HookService::new(config, Format::Claude);
    let outcome = service.process(input);
    let ext_count = match &outcome {
        ChainOutcome::Allow { ext_jobs, .. } => ext_jobs.len(),
        ChainOutcome::Block { .. } => 0,
    };
    let outputs = vec![String::new(); ext_count];
    let decision = outcome.into_decision(&outputs);
    let adapter = FormatAdapter::new(Format::Claude);
    let exit = adapter.exit_code(&decision);
    (adapter.format_output(&decision, input.event.as_str()), exit)
}

#[test]
fn test_allow_safe_command() {
    let (stdout, exit_code) = decide(Config::default(), &bash_input("git status"));
    assert_eq!(exit_code, 0, "Safe command should be allowed");
    assert!(
        stdout.contains(r#""decision":"approve""#),
        "Output should indicate allow: {}",
        stdout
    );
}

#[test]
fn test_block_kill_command() {
    let (stdout, exit_code) = decide(Config::default(), &bash_input("kill -9 1234"));
    assert_eq!(exit_code, 2, "Kill command should be blocked");
    assert!(
        stdout.contains(r#""decision":"block""#),
        "Output should indicate block: {}",
        stdout
    );
}

#[test]
fn test_block_pkill_command() {
    let (stdout, exit_code) = decide(Config::default(), &bash_input("pkill node"));
    assert_eq!(exit_code, 2, "pkill command should be blocked");
    assert!(
        stdout.contains(r#""decision":"block""#),
        "Output should indicate block"
    );
}

#[test]
fn test_block_killall_command() {
    let (stdout, exit_code) = decide(Config::default(), &bash_input("killall python"));
    assert_eq!(exit_code, 2, "killall command should be blocked");
    assert!(
        stdout.contains(r#""decision":"block""#),
        "Output should indicate block"
    );
}

#[test]
fn test_block_rm_command() {
    let (stdout, exit_code) = decide(Config::default(), &bash_input("rm -rf /tmp/test"));
    assert_eq!(exit_code, 2, "rm command should be blocked");
    assert!(
        stdout.contains(r#""decision":"block""#),
        "Output should indicate block"
    );
}

#[test]
fn test_block_rmdir_command() {
    let (stdout, exit_code) = decide(Config::default(), &bash_input("rmdir old_folder"));
    assert_eq!(exit_code, 2, "rmdir command should be blocked");
    assert!(
        stdout.contains(r#""decision":"block""#),
        "Output should indicate block"
    );
}

#[test]
fn test_piped_command_with_kill() {
    let (stdout, exit_code) = decide(
        Config::default(),
        &bash_input("ps aux | grep node | xargs kill"),
    );
    assert_eq!(exit_code, 2, "Piped command with kill should be blocked");
    assert!(
        stdout.contains(r#""decision":"block""#),
        "Output should indicate block"
    );
}

#[test]
fn test_chained_command_with_rm() {
    let (stdout, exit_code) = decide(Config::default(), &bash_input("cd /tmp && rm -rf test"));
    assert_eq!(exit_code, 2, "Chained command with rm should be blocked");
    assert!(
        stdout.contains(r#""decision":"block""#),
        "Output should indicate block"
    );
}

#[test]
fn test_allow_file_read_operation() {
    let input = HookInput {
        event: "PreToolUse".to_string(),
        tool_name: "Read".to_string(),
        tool_input: ToolInput::File(FileOperationInput {
            file_path: "/tmp/test.txt".to_string(),
            content: None,
        }),
        session_id: None,
    };
    let (stdout, exit_code) = decide(Config::default(), &input);
    assert_eq!(exit_code, 0, "Read operation should be allowed");
    assert!(
        stdout.contains(r#""decision":"approve""#),
        "Output should indicate allow"
    );
}

#[test]
fn test_allow_file_write_operation() {
    let input = HookInput {
        event: "PreToolUse".to_string(),
        tool_name: "Write".to_string(),
        tool_input: ToolInput::File(FileOperationInput {
            file_path: "/tmp/test.rs".to_string(),
            content: None,
        }),
        session_id: None,
    };
    let (stdout, exit_code) = decide(Config::default(), &input);
    assert_eq!(exit_code, 0, "Write operation should be allowed");
    assert!(
        stdout.contains(r#""decision":"approve""#),
        "Output should indicate allow"
    );
}

#[test]
fn test_non_bash_tool_allowed() {
    let input = HookInput {
        event: "PreToolUse".to_string(),
        tool_name: "WebSearch".to_string(),
        tool_input: ToolInput::Other,
        session_id: None,
    };
    let (stdout, exit_code) = decide(Config::default(), &input);
    assert_eq!(exit_code, 0, "Non-bash tool should be allowed");
    assert!(
        stdout.contains(r#""decision":"approve""#),
        "Output should indicate allow"
    );
}

#[test]
fn test_post_tool_use_event() {
    let input = HookInput {
        event: "PostToolUse".to_string(),
        tool_name: "Bash".to_string(),
        tool_input: ToolInput::Bash(BashInput {
            command: "kill 1234".to_string(),
            timeout: None,
        }),
        session_id: None,
    };
    let (stdout, exit_code) = decide(Config::default(), &input);
    assert_eq!(exit_code, 0, "PostToolUse should be allowed");
    assert!(
        stdout.contains(r#""decision":"approve""#),
        "Output should indicate allow"
    );
}

#[test]
fn test_stop_event() {
    let input = HookInput {
        event: "Stop".to_string(),
        tool_name: "Stop".to_string(),
        tool_input: ToolInput::Stop(StopInput {
            status: None,
            loop_count: None,
            response: None,
        }),
        session_id: None,
    };
    let (stdout, exit_code) = decide(Config::default(), &input);
    assert_eq!(exit_code, 0, "Stop event should be allowed");
    assert!(
        stdout.contains(r#""decision":"approve""#),
        "Output should indicate allow"
    );
}

#[test]
fn test_block_dd_command_by_default() {
    let (stdout, exit_code) = decide(
        Config::default(),
        &bash_input("dd if=/dev/zero of=test.img bs=1M count=1"),
    );
    assert_eq!(exit_code, 2, "dd command should be blocked by default");
    assert!(
        stdout.contains(r#""decision":"block""#),
        "Output should indicate block: {}",
        stdout
    );
}

#[test]
fn test_invalid_json_input() {
    // Parsing happens at the boundary; a failure there is rendered
    // fail-closed with a non-success status.
    let adapter = FormatAdapter::new(Format::Claude);
    let stdout = adapter.format_error("Failed to parse input: not valid json");
    let exit_code = adapter.error_exit_code();
    assert_ne!(exit_code, 0, "Invalid JSON should fail");
    assert!(
        stdout.contains("Failed to parse"),
        "Should indicate parsing failure: {}",
        stdout
    );
}

fn yarn_config() -> Config {
    let mut config = Config::default();
    config.rm_block = false;
    config.kill_block = false;
    config.dd_block = false;
    config.custom_filters = vec![CustomFilter {
        command: "yarn".to_string(),
        args: vec![],
        message: "Use pnpm instead of yarn".to_string(),
    }];
    config
}

#[test]
fn test_custom_filter_blocks_yarn_after_semicolon() {
    let (stdout, exit_code) = decide(
        yarn_config(),
        &bash_input("echo \"install\"; yarn install"),
    );
    assert_eq!(exit_code, 2, "yarn command should be blocked");
    assert!(
        stdout.contains(r#""decision":"block""#),
        "Output should indicate block: {}",
        stdout
    );
    assert!(
        stdout.contains("pnpm"),
        "Block message should suggest pnpm: {}",
        stdout
    );
}

#[test]
fn test_custom_filter_allows_yarn_in_quotes() {
    let (stdout, exit_code) = decide(
        yarn_config(),
        &bash_input("echo \"not yarn install\"; pnpm install"),
    );
    assert_eq!(exit_code, 0, "Command with yarn in quotes should be allowed");
    assert!(
        stdout.contains(r#""decision":"approve""#),
        "Output should indicate approve: {}",
        stdout
    );
}

#[test]
fn test_custom_filter_blocks_direct_yarn_command() {
    let (stdout, exit_code) = decide(yarn_config(), &bash_input("yarn install"));
    assert_eq!(exit_code, 2, "Direct yarn command should be blocked");
    assert!(stdout.contains(r#""decision":"block""#));
}

#[test]
fn test_custom_filter_blocks_yarn_in_chained_commands() {
    let (stdout, exit_code) = decide(yarn_config(), &bash_input("cd project && yarn add react"));
    assert_eq!(exit_code, 2, "yarn in chained command should be blocked");
    assert!(stdout.contains(r#""decision":"block""#));
}

#[test]
fn test_custom_filter_blocks_yarn_after_pipe() {
    let (stdout, exit_code) = decide(
        yarn_config(),
        &bash_input("cat package.json | yarn install"),
    );
    assert_eq!(exit_code, 2, "yarn after pipe should be blocked");
    assert!(stdout.contains(r#""decision":"block""#));
}

#[test]
fn test_custom_filter_blocks_yarn_in_sh_c() {
    let (stdout, exit_code) = decide(yarn_config(), &bash_input("sh -c \"yarn install\""));
    assert_eq!(exit_code, 2, "yarn in sh -c should be blocked");
    assert!(stdout.contains(r#""decision":"block""#));
}

#[test]
fn test_custom_filter_blocks_yarn_in_bash_c() {
    let (stdout, exit_code) = decide(yarn_config(), &bash_input("bash -c \"yarn add react\""));
    assert_eq!(exit_code, 2, "yarn in bash -c should be blocked");
    assert!(stdout.contains(r#""decision":"block""#));
}

#[test]
fn test_custom_filter_blocks_yarn_in_subshell() {
    let (stdout, exit_code) = decide(yarn_config(), &bash_input("(cd project && yarn install)"));
    assert_eq!(exit_code, 2, "yarn in subshell should be blocked");
    assert!(stdout.contains(r#""decision":"block""#));
}

#[test]
fn test_custom_filter_blocks_yarn_in_command_substitution() {
    let (stdout, exit_code) = decide(yarn_config(), &bash_input("echo $(yarn --version)"));
    assert_eq!(exit_code, 2, "yarn in command substitution should be blocked");
    assert!(stdout.contains(r#""decision":"block""#));
}

#[test]
fn test_custom_filter_allows_yarn_string_in_pipe() {
    let (stdout, exit_code) = decide(yarn_config(), &bash_input("echo \"yarn\" | grep yarn"));
    assert_eq!(exit_code, 0, "yarn as string argument should be allowed");
    assert!(stdout.contains(r#""decision":"approve""#));
}

#[test]
fn test_custom_filter_blocks_yarn_in_complex_pipeline() {
    let (stdout, exit_code) = decide(
        yarn_config(),
        &bash_input("cat package.json | jq '.dependencies' | yarn install"),
    );
    assert_eq!(exit_code, 2, "yarn in complex pipeline should be blocked");
    assert!(stdout.contains(r#""decision":"block""#));
}

#[test]
fn test_custom_filter_blocks_yarn_with_env_prefix() {
    let (stdout, exit_code) = decide(yarn_config(), &bash_input("NODE_ENV=production yarn build"));
    assert_eq!(exit_code, 2, "yarn with env prefix should be blocked");
    assert!(stdout.contains(r#""decision":"block""#));
}

#[test]
fn test_kill_block_message_is_default() {
    let service = HookService::new(Config::default(), Format::Claude);
    let outcome = service.process(&bash_input("kill -9 1234"));
    match outcome {
        ChainOutcome::Block { message } => {
            let default_filter = claw_hooks::KillFilter::new(true, None);
            assert_eq!(message, default_filter.message);
        }
        ChainOutcome::Allow { .. } => panic!("kill must be blocked"),
    }
}

#[test]
fn test_allow_carries_no_advisory_context_by_default() {
    let service = HookService::new(Config::default(), Format::Claude);
    let outcome = service.process(&bash_input("git status"));
    let decision = outcome.into_decision(&vec![]);
    assert!(matches!(
        decision,
        Decision::Allow {
            additional_context: None
        }
    ));
}

#[test]
fn test_custom_filter_args_mode_through_chain() {
    let mut config = Config::default();
    config.custom_filters = vec![CustomFilter {
        command: "npm".to_string(),
        args: vec![
            "install".to_string(),
            "i".to_string(),
            "add".to_string(),
        ],
        message: "Use pnpm instead".to_string(),
    }];
    let (stdout, exit_code) = decide(config, &bash_input("npm run build"));
    assert_eq!(exit_code, 0);
    assert!(stdout.contains(r#""decision":"approve""#));
    let mut config = Config::default();
    config.custom_filters = vec![CustomFilter {
        command: "npm".to_string(),
        args: vec![
            "install".to_string(),
            "i".to_string(),
            "add".to_string(),
        ],
        message: "Use pnpm instead".to_string(),
    }];
    let (stdout, exit_code) = decide(config, &bash_input("npm install lodash"));
    assert_eq!(exit_code, 2);
    assert!(stdout.contains(r#""decision":"block""#));
}

#[test]
fn test_newline_separates_tokens() {
    // a trailing newline does not smuggle a denylisted name past the filter
    let (stdout, exit_code) = decide(Config::default(), &bash_input("ls; rm\n"));
    assert_eq!(exit_code, 2, "rm before a newline should be blocked");
    assert!(stdout.contains(r#""decision":"block""#));
}
