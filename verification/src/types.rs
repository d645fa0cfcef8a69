//! Core domain types for hook input and output.

use vstd::prelude::*;

use crate::textutil::str_eq;

verus! {

/// One tool-invocation event received from an AI coding agent.
pub struct HookInput {
    /// Event kind: "PreToolUse", "PostToolUse" or "Stop".
    pub event: String,
    /// Tool name: "Bash", "Write", "Edit", "MultiEdit", "Read", ...
    pub tool_name: String,
    /// Tool-specific payload.
    pub tool_input: ToolInput,
    /// Optional session identifier.
    pub session_id: Option<String>,
}

/// Tool-specific input payloads.
pub enum ToolInput {
    /// A shell command to execute.
    Bash(BashInput),
    /// A file operation (write, edit, read).
    File(FileOperationInput),
    /// A session-end event.
    Stop(StopInput),
    /// Any other tool; the payload carries nothing the filters read.
    Other,
}

/// Shell command payload.
pub struct BashInput {
    /// The literal, unexpanded command line; never executed by the core.
    pub command: String,
    /// Optional timeout in milliseconds.
    pub timeout: Option<u64>,
}

/// File operation payload.
pub struct FileOperationInput {
    /// Path of the file acted upon.
    pub file_path: String,
    /// Optional file content.
    pub content: Option<String>,
}

/// Session-end payload.
pub struct StopInput {
    /// Completion status.
    pub status: Option<String>,
    /// Number of automatic follow-ups triggered.
    pub loop_count: Option<u32>,
    /// Final response text.
    pub response: Option<String>,
}

impl Default for StopInput {
    /// An empty session-end payload.
    fn default() -> (r: StopInput)
        ensures
            r.status is None,
            r.loop_count is None,
            r.response is None,
    {
        StopInput { status: None, loop_count: None, response: None }
    }
}

/// Wire-shaped output sent back to the agent.
pub struct HookOutput {
    /// "approve" or "block".
    pub decision: String,
    /// Message, present when blocking.
    pub message: Option<String>,
    /// Event-specific output attached after tool use.
    pub hook_specific_output: Option<HookSpecificOutput>,
}

/// Event-specific output carrying advisory context after tool use.
pub struct HookSpecificOutput {
    /// The event this output belongs to.
    pub hook_event_name: String,
    /// Advisory context for the agent, such as lint warnings.
    pub additional_context: Option<String>,
}

/// The decision a filter chain renders for one event.
pub enum Decision {
    /// Let the operation proceed, optionally with advisory context.
    Allow { additional_context: Option<String> },
    /// Refuse the operation, with a user-facing message.
    Block { message: String },
}

impl Decision {
    /// An allow decision with no advisory context.
    pub fn allow() -> (r: Decision)
        ensures
            r == (Decision::Allow { additional_context: None::<String> }),
    {
        Decision::Allow { additional_context: None }
    }

    /// An allow decision carrying advisory context for the agent.
    pub fn allow_with_context(context: String) -> (r: Decision)
        ensures
            r == (Decision::Allow { additional_context: Some(context) }),
    {
        Decision::Allow { additional_context: Some(context) }
    }

    /// The wire-shaped output for this decision. Advisory context is attached
    /// only for post-execution events; a block carries its message.
    pub fn into_output(self, event: &str) -> (r: HookOutput)
        ensures
            self matches Decision::Block { message } ==> r.decision@ == "block"@ && r.message
                == Some(message) && r.hook_specific_output is None,
            self matches Decision::Allow { additional_context } ==> r.decision@ == "approve"@
                && r.message is None && (if event@ == "PostToolUse"@ && additional_context is Some {
                r.hook_specific_output matches Some(h) && h.hook_event_name@ == "PostToolUse"@
                    && h.additional_context == additional_context
            } else {
                r.hook_specific_output is None
            }),
    {
        match self {
            Decision::Allow { additional_context } => {
                let is_post = str_eq(event, "PostToolUse");
                match additional_context {
                    Some(ctx) if is_post => HookOutput {
                        decision: String::from_str("approve"),
                        message: None,
                        hook_specific_output: Some(
                            HookSpecificOutput {
                                hook_event_name: String::from_str("PostToolUse"),
                                additional_context: Some(ctx),
                            },
                        ),
                    },
                    _ => HookOutput {
                        decision: String::from_str("approve"),
                        message: None,
                        hook_specific_output: None,
                    },
                }
            },
            Decision::Block { message } => HookOutput {
                decision: String::from_str("block"),
                message: Some(message),
                hook_specific_output: None,
            },
        }
    }

    /// The process exit status this decision maps to: success for allow, a
    /// distinct blocked status for block.
    pub fn exit_code(&self) -> (r: i32)
        ensures
            self is Allow ==> r == 0,
            self is Block ==> r == 2,
    {
        match self {
            Decision::Allow { .. } => 0,
            Decision::Block { .. } => 2,
        }
    }

    /// Merge further advisory context into an allow decision; contexts are
    /// joined with a newline. A block is unchanged.
    pub fn merge_context(self, other_context: Option<String>) -> (r: Decision)
        ensures
            self is Block ==> r == self,
            self matches Decision::Allow { additional_context: a } ==> r matches Decision::Allow {
                additional_context: m,
            } && (match (a, other_context) {
                (Some(x), Some(y)) => m matches Some(s) && s@ == x@ + "\n"@ + y@,
                (Some(x), None) => m == Some(x),
                (None, Some(y)) => m == Some(y),
                (None, None) => m is None,
            }),
    {
        match self {
            Decision::Allow { additional_context } => {
                let merged = match (additional_context, other_context) {
                    (Some(x), Some(y)) => {
                        let mut s = x;
                        s.append("\n");
                        s.append(y.as_str());
                        Some(s)
                    },
                    (Some(x), None) => Some(x),
                    (None, Some(y)) => Some(y),
                    (None, None) => None,
                };
                Decision::Allow { additional_context: merged }
            },
            Decision::Block { message } => Decision::Block { message },
        }
    }
}

impl Default for Decision {
    /// Allow, with no advisory context.
    fn default() -> (r: Decision)
        ensures
            r == (Decision::Allow { additional_context: None::<String> }),
    {
        Decision::Allow { additional_context: None }
    }
}

} // verus!
