//! Tests for the built-in, custom and session-end filters.

use claw_hooks::BashInput;
use claw_hooks::ChainOutcome;
use claw_hooks::Config;
use claw_hooks::CustomCommandFilter;
use claw_hooks::DdFilter;
use claw_hooks::FilterChain;
use claw_hooks::HookInput;
use claw_hooks::KillFilter;
use claw_hooks::RmFilter;
use claw_hooks::StopHook;
use claw_hooks::StopHookFilter;
use claw_hooks::StopInput;
use claw_hooks::ToolInput;

#[test]
fn test_contains_dd_command() {
    assert!(DdFilter::contains_dd_command("dd if=/dev/zero of=/dev/sda"));
    assert!(DdFilter::contains_dd_command(
        "dd if=input.img of=output.img bs=4M"
    ));
    assert!(!DdFilter::contains_dd_command("ls -la"));
    assert!(!DdFilter::contains_dd_command("echo dd"));
    assert!(DdFilter::contains_dd_command("cat file | dd of=output.img"));
    assert!(DdFilter::contains_dd_command(
        "sync && dd if=/dev/sda of=backup.img"
    ));
}

#[test]
fn test_contains_kill_command() {
    assert!(KillFilter::contains_kill_command("kill 1234"));
    assert!(KillFilter::contains_kill_command("pkill node"));
    assert!(KillFilter::contains_kill_command("killall python"));
    assert!(!KillFilter::contains_kill_command("ls -la"));
    assert!(!KillFilter::contains_kill_command("echo kill"));
    assert!(KillFilter::contains_kill_command("taskkill /PID 1234"));
    assert!(KillFilter::contains_kill_command("taskkill /IM node.exe /F"));
    assert!(KillFilter::contains_kill_command(
        "ps aux | grep node | xargs kill"
    ));
    assert!(KillFilter::contains_kill_command("pgrep node | xargs kill -9"));
    assert!(KillFilter::contains_kill_command("cd /tmp && kill 1234"));
    assert!(KillFilter::contains_kill_command("echo test; pkill node"));
}

#[test]
fn test_contains_rm_command() {
    assert!(RmFilter::contains_rm_command("rm file.txt"));
    assert!(RmFilter::contains_rm_command("rm -rf /tmp/test"));
    assert!(RmFilter::contains_rm_command("rmdir empty_dir"));
    assert!(!RmFilter::contains_rm_command("ls -la"));
    assert!(!RmFilter::contains_rm_command("echo rm"));
    assert!(RmFilter::contains_rm_command("del file.txt"));
    assert!(RmFilter::contains_rm_command("del /F /Q temp.log"));
    assert!(RmFilter::contains_rm_command("erase old_file.bak"));
    assert!(RmFilter::contains_rm_command("cd /tmp && rm -rf test"));
    assert!(RmFilter::contains_rm_command("echo done; rmdir old"));
    assert!(RmFilter::contains_rm_command("dir && del *.tmp"));
}

#[test]
fn test_custom_filter_regex() {
    let filter = CustomCommandFilter::new("python", "Use uv instead".to_string()).unwrap();
    assert!(filter.matches("python script.py"));
    assert!(filter.matches("python"));
    assert!(!filter.matches("ls"));
}

#[test]
fn test_custom_filter_regex_with_semicolon() {
    let filter = CustomCommandFilter::new("yarn", "Use pnpm instead".to_string()).unwrap();
    assert!(filter.matches("echo \"install\"; yarn install"));
    assert!(!filter.matches("echo \"not yarn install\"; pnpm install"));
    assert!(filter.matches("yarn install"));
    assert!(filter.matches("yarn add react"));
    assert!(!filter.matches("pnpm install"));
}

#[test]
fn test_custom_filter_regex_with_chained_commands() {
    let filter = CustomCommandFilter::new("python", "Use uv instead".to_string()).unwrap();
    assert!(filter.matches("cd /app && python script.py"));
    assert!(filter.matches("echo done; python main.py"));
    assert!(filter.matches("ls | python filter.py"));
    assert!(!filter.matches("echo \"python is great\""));
}

#[test]
fn test_custom_filter_args_basic() {
    let filter = CustomCommandFilter::with_args(
        "npm",
        vec!["install".to_string(), "i".to_string(), "add".to_string()],
        "Use pnpm instead".to_string(),
    )
    .unwrap();
    assert!(filter.matches("npm install"));
    assert!(filter.matches("npm i"));
    assert!(filter.matches("npm add react"));
    assert!(filter.matches("npm install lodash"));
    assert!(!filter.matches("npm run build"));
    assert!(!filter.matches("npm test"));
    assert!(!filter.matches("npm --version"));
    assert!(!filter.matches("pnpm install"));
    assert!(!filter.matches("yarn add"));
}

#[test]
fn test_custom_filter_args_in_chained_commands() {
    let filter = CustomCommandFilter::with_args(
        "npm",
        vec!["install".to_string(), "i".to_string()],
        "Use pnpm instead".to_string(),
    )
    .unwrap();
    assert!(filter.matches("echo done; npm install"));
    assert!(filter.matches("cd /app && npm i lodash"));
    assert!(!filter.matches("echo \"npm install\""));
    assert!(!filter.matches("npm run build && echo done"));
}

#[test]
fn test_custom_filter_args_empty_args() {
    let filter =
        CustomCommandFilter::with_args("yarn", vec![], "Use pnpm instead".to_string()).unwrap();
    assert!(filter.matches("yarn"));
    assert!(filter.matches("yarn install"));
    assert!(filter.matches("yarn add react"));
    assert!(filter.matches("yarn run build"));
    assert!(!filter.matches("npm install"));
}

#[test]
fn test_custom_filter_args_with_flags() {
    let filter = CustomCommandFilter::with_args(
        "hoge",
        vec!["--fuga".to_string(), "-f".to_string()],
        "Block!!!".to_string(),
    )
    .unwrap();
    assert!(filter.matches("hoge --fuga"));
    assert!(filter.matches("hoge -f value"));
    assert!(!filter.matches("hoge --other"));
    assert!(!filter.matches("hoge run"));
}

#[test]
fn test_custom_filter_args_with_regex_command() {
    let filter = CustomCommandFilter::with_args(
        "pip3?",
        vec!["install".to_string(), "uninstall".to_string()],
        "Use uv pip instead".to_string(),
    )
    .unwrap();
    assert!(filter.matches("pip install requests"));
    assert!(filter.matches("pip3 install requests"));
    assert!(filter.matches("pip uninstall requests"));
    assert!(filter.matches("pip3 uninstall requests"));
    assert!(!filter.matches("pip list"));
    assert!(!filter.matches("pip3 --version"));
    assert!(!filter.matches("python install"));
}

#[test]
fn test_custom_filter_invalid_pattern_is_rejected() {
    assert!(CustomCommandFilter::new("(", "broken".to_string()).is_err());
    assert!(CustomCommandFilter::with_args("(", vec![], "broken".to_string()).is_err());
}

fn stop_input() -> HookInput {
    HookInput {
        event: "Stop".to_string(),
        tool_name: "Stop".to_string(),
        tool_input: ToolInput::Stop(StopInput {
            status: None,
            loop_count: None,
            response: None,
        }),
        session_id: None,
    }
}

#[test]
fn test_stop_hook_filter_applies_to_stop_event() {
    let hooks = vec![StopHook {
        command: "echo done".to_string(),
    }];
    let filter = StopHookFilter::new(hooks);
    assert!(filter.applies_to(&stop_input()));
}

#[test]
fn test_stop_hook_filter_does_not_apply_to_other_events() {
    let hooks = vec![StopHook {
        command: "echo done".to_string(),
    }];
    let filter = StopHookFilter::new(hooks);
    let bash_input = HookInput {
        event: "PreToolUse".to_string(),
        tool_name: "Bash".to_string(),
        tool_input: ToolInput::Bash(BashInput {
            command: "ls".to_string(),
            timeout: None,
        }),
        session_id: None,
    };
    assert!(!filter.applies_to(&bash_input));
}

#[test]
fn test_stop_hook_filter_execute_returns_allow() {
    let mut config = Config::default();
    config.stop_hooks = vec![StopHook {
        command: "echo done".to_string(),
    }];
    let chain = FilterChain::new(&config);
    let outcome = chain.execute(&stop_input());
    match outcome {
        ChainOutcome::Allow { stop_jobs, .. } => {
            assert_eq!(stop_jobs.len(), 1);
        }
        ChainOutcome::Block { .. } => panic!("stop hooks must not block"),
    }
}

#[test]
fn test_stop_hook_plan_splits_words() {
    let filter = StopHookFilter::new(vec![
        StopHook {
            command: "notify-send done now".to_string(),
        },
        StopHook {
            command: "   ".to_string(),
        },
    ]);
    let jobs = filter.plan();
    assert_eq!(jobs.len(), 2);
    match &jobs[0] {
        claw_hooks::PlannedJob::Run {
            label,
            program,
            args,
        } => {
            assert_eq!(label, "notify-send done now");
            assert_eq!(program, "notify-send");
            assert_eq!(args, &vec!["done".to_string(), "now".to_string()]);
        }
        _ => panic!("expected a runnable job"),
    }
    assert!(matches!(
        &jobs[1],
        claw_hooks::PlannedJob::Invalid { .. }
    ));
}

#[test]
fn test_empty_configured_message_falls_back_to_default() {
    let with_empty = KillFilter::new(true, Some(String::new()));
    let with_default = KillFilter::new(true, None);
    assert_eq!(with_empty.message, with_default.message);
    assert!(!with_empty.message.is_empty());
    assert!(!DdFilter::new(true, Some(String::new())).message.is_empty());
    assert!(!RmFilter::new(true, Some(String::new())).message.is_empty());
}

#[test]
fn test_custom_filter_rejects_empty_message() {
    assert!(CustomCommandFilter::new("yarn", String::new()).is_err());
    assert!(CustomCommandFilter::with_args("npm", vec![], String::new()).is_err());
}

#[test]
fn test_block_message_is_never_empty() {
    let mut config = Config::default();
    config.kill_block_message = Some(String::new());
    let chain = FilterChain::new(&config);
    let input = HookInput {
        event: "PreToolUse".to_string(),
        tool_name: "Bash".to_string(),
        tool_input: ToolInput::Bash(BashInput {
            command: "kill -9 1234".to_string(),
            timeout: None,
        }),
        session_id: None,
    };
    match chain.execute(&input) {
        ChainOutcome::Block { message } => assert!(!message.is_empty()),
        ChainOutcome::Allow { .. } => panic!("kill must be blocked"),
    }
}
