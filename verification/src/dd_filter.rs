//! The disk-dump denylist filter.

use vstd::prelude::*;

use crate::parser::extract_cmds;
use crate::parser::ShellParser;
use crate::textutil::str_eq;
use crate::textutil::str_views;
use crate::types::Decision;
use crate::types::HookInput;
use crate::types::ToolInput;

verus! {

/// A disk-dump program name.
pub open spec fn is_dd_name(t: Seq<char>) -> bool {
    t == "dd"@
}

/// The message used when no custom one is configured.
pub open spec fn default_dd_message() -> Seq<char> {
    "🚫 dd command is blocked for safety. Use cp or rsync for file operations. If you need dd specifically, use safe-dd or request explicit permission."@
}

/// Whether the command line invokes the disk-dump program.
pub open spec fn dd_command_spec(s: Seq<char>) -> bool {
    exists|k: int| 0 <= k < extract_cmds(s).len() && is_dd_name(#[trigger] extract_cmds(s)[k])
}

/// Filter that blocks the disk-dump command.
pub struct DdFilter {
    /// Whether the filter is active.
    pub enabled: bool,
    /// The message a block carries.
    pub message: String,
}

impl DdFilter {
    /// A disk-dump filter, with the configured message, or the default one
    /// when none is configured or the configured one is empty: a block
    /// always carries a non-empty message.
    pub fn new(enabled: bool, custom_message: Option<String>) -> (r: DdFilter)
        ensures
            r.enabled == enabled,
            (match custom_message {
                Some(m) => m@.len() > 0 ==> r.message == m,
                None => true,
            }),
            (match custom_message {
                Some(m) => m@.len() == 0,
                None => true,
            }) ==> r.message@ == default_dd_message(),
            r.message@.len() > 0,
    {
        let message = match custom_message {
            Some(m) => if m.as_str().unicode_len() > 0 {
                m
            } else {
                DdFilter::default_message()
            },
            None => DdFilter::default_message(),
        };
        DdFilter { enabled, message }
    }

    /// The default message, as a value.
    fn default_message() -> (r: String)
        ensures
            r@ == default_dd_message(),
            r@.len() > 0,
    {
        let r = String::from_str(
            "🚫 dd command is blocked for safety. Use cp or rsync for file operations. If you need dd specifically, use safe-dd or request explicit permission.",
        );
        proof {
            reveal_strlit(
                "🚫 dd command is blocked for safety. Use cp or rsync for file operations. If you need dd specifically, use safe-dd or request explicit permission.",
            );
        }
        r
    }

    /// Whether any extracted command is the disk-dump program.
    pub fn contains_dd_command(command: &str) -> (r: bool)
        ensures
            r == dd_command_spec(command@),
    {
        let parser = ShellParser::new();
        let commands = parser.extract_commands(command);
        let mut i: usize = 0;
        while i < commands.len()
            invariant
                i <= commands@.len(),
                str_views(commands@) == extract_cmds(command@),
                forall|j: int| 0 <= j < i ==> !is_dd_name(#[trigger] extract_cmds(command@)[j]),
            decreases commands@.len() - i,
        {
            proof {
                assert(extract_cmds(command@)[i as int] == commands@[i as int]@);
            }
            if str_eq(commands[i].as_str(), "dd") {
                return true;
            }
            i = i + 1;
        }
        false
    }

    /// This filter applies to enabled pre-execution shell events whose
    /// command line invokes the disk-dump program.
    pub fn applies_to(&self, input: &HookInput) -> (r: bool)
        ensures
            r == (self.enabled && input.event@ == "PreToolUse"@ && input.tool_name@ == "Bash"@ && (
            input.tool_input matches ToolInput::Bash(b) && dd_command_spec(b.command@))),
    {
        if !self.enabled {
            return false;
        }
        if !str_eq(input.event.as_str(), "PreToolUse") || !str_eq(input.tool_name.as_str(), "Bash")
        {
            return false;
        }
        match &input.tool_input {
            ToolInput::Bash(b) => Self::contains_dd_command(b.command.as_str()),
            _ => false,
        }
    }

    /// The decision this filter renders: block with its message.
    pub fn execute(&self, _input: &HookInput) -> (r: Decision)
        ensures
            r == (Decision::Block { message: self.message }),
    {
        Decision::Block { message: self.message.clone() }
    }

    /// Ordering key: after the kill filter, before the delete filter.
    pub fn priority(&self) -> (r: u32)
        ensures
            r == 15,
    {
        15
    }
}

} // verus!
