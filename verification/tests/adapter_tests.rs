//! Tests for the wire-format adapter.

use claw_hooks::Decision;
use claw_hooks::Format;
use claw_hooks::FormatAdapter;

#[test]
fn test_cursor_output_allow() {
    let adapter = FormatAdapter::new(Format::Cursor);
    let output = adapter.format_output(&Decision::allow(), "PreToolUse");
    assert!(output.contains(r#""permission":"allow""#));
}

#[test]
fn test_cursor_output_deny() {
    let adapter = FormatAdapter::new(Format::Cursor);
    let output = adapter.format_output(
        &Decision::Block {
            message: "Command blocked for safety".to_string(),
        },
        "PreToolUse",
    );
    assert!(output.contains(r#""permission":"deny""#));
    assert!(output.contains("Command blocked for safety"));
}

#[test]
fn test_claude_output_allow() {
    let adapter = FormatAdapter::new(Format::Claude);
    let output = adapter.format_output(&Decision::allow(), "PreToolUse");
    assert!(output.contains(r#""decision":"approve""#));
}

#[test]
fn test_claude_output_block() {
    let adapter = FormatAdapter::new(Format::Claude);
    let output = adapter.format_output(
        &Decision::Block {
            message: "Command blocked for safety".to_string(),
        },
        "PreToolUse",
    );
    assert!(output.contains(r#""decision":"block""#));
    assert!(output.contains("Command blocked for safety"));
}

#[test]
fn test_windsurf_output_matches_default_format() {
    let adapter = FormatAdapter::new(Format::Windsurf);
    let output = adapter.format_output(&Decision::allow(), "PreToolUse");
    assert!(output.contains(r#""decision":"approve""#));
    let output = adapter.format_windsurf_output(
        &Decision::Block {
            message: "no".to_string(),
        },
        "PreToolUse",
    );
    assert!(output.contains(r#""decision":"block""#));
}

#[test]
fn test_output_escapes_json_characters() {
    let adapter = FormatAdapter::new(Format::Claude);
    let output = adapter.format_output(
        &Decision::Block {
            message: "a \"quoted\"\nline\\end".to_string(),
        },
        "PreToolUse",
    );
    assert_eq!(
        output,
        "{\"decision\":\"block\",\"message\":\"a \\\"quoted\\\"\\nline\\\\end\"}"
    );
}

#[test]
fn test_post_tool_use_output_carries_context() {
    let adapter = FormatAdapter::new(Format::Claude);
    let decision = Decision::allow_with_context("lint warning".to_string());
    let output = adapter.format_output(&decision, "PostToolUse");
    assert!(output.contains(r#""hookSpecificOutput""#));
    assert!(output.contains(r#""hookEventName":"PostToolUse""#));
    assert!(output.contains(r#""additionalContext":"lint warning""#));
    let decision = Decision::allow_with_context("lint warning".to_string());
    let pre = adapter.format_output(&decision, "PreToolUse");
    assert_eq!(pre, r#"{"decision":"approve"}"#);
}

#[test]
fn test_format_error_is_fail_closed() {
    let adapter = FormatAdapter::new(Format::Claude);
    let output = adapter.format_error("Failed to parse input: bad data");
    assert!(output.contains(r#""decision":"block""#));
    assert!(output.contains("Failed to parse"));
    assert_ne!(adapter.error_exit_code(), 0);
    let cursor = FormatAdapter::new(Format::Cursor);
    let output = cursor.format_error("Failed to parse input: bad data");
    assert!(output.contains(r#""permission":"deny""#));
    assert!(output.contains("Failed to parse"));
}

#[test]
fn test_exit_codes() {
    let adapter = FormatAdapter::new(Format::Claude);
    assert_eq!(adapter.exit_code(&Decision::allow()), 0);
    assert_eq!(
        adapter.exit_code(&Decision::Block {
            message: "m".to_string()
        }),
        2
    );
    assert_eq!(adapter.error_exit_code(), 2);
}

#[test]
fn test_decision_methods() {
    let d = Decision::allow();
    assert_eq!(d.exit_code(), 0);
    let merged = d.merge_context(Some("extra".to_string()));
    assert!(matches!(
        &merged,
        Decision::Allow {
            additional_context: Some(c)
        } if c == "extra"
    ));
    let both = Decision::allow_with_context("one".to_string())
        .merge_context(Some("two".to_string()));
    assert!(matches!(
        &both,
        Decision::Allow {
            additional_context: Some(c)
        } if c == "one\ntwo"
    ));
    let blocked = Decision::Block {
        message: "stop".to_string(),
    }
    .merge_context(Some("ignored".to_string()));
    assert!(matches!(&blocked, Decision::Block { message } if message == "stop"));
    let output = Decision::allow_with_context("ctx".to_string()).into_output("PostToolUse");
    assert_eq!(output.decision, "approve");
    let hso = output.hook_specific_output.unwrap();
    assert_eq!(hso.hook_event_name, "PostToolUse");
    assert_eq!(hso.additional_context, Some("ctx".to_string()));
    let output = Decision::Block {
        message: "no".to_string(),
    }
    .into_output("PreToolUse");
    assert_eq!(output.decision, "block");
    assert_eq!(output.message, Some("no".to_string()));
}
