//! The destructive-delete denylist filter.

use vstd::prelude::*;

use crate::parser::extract_cmds;
use crate::parser::ShellParser;
use crate::textutil::str_eq;
use crate::textutil::str_views;
use crate::types::Decision;
use crate::types::HookInput;
use crate::types::ToolInput;

verus! {

/// A destructive-delete program name.
pub open spec fn is_rm_name(t: Seq<char>) -> bool {
    t == "rm"@ || t == "rmdir"@ || t == "del"@ || t == "erase"@
}

/// The message used when no custom one is configured.
pub open spec fn default_rm_message() -> Seq<char> {
    "🚫 rm/rmdir command blocked for safety. Configure rm_block_message in config.toml to customize this message."@
}

/// Whether the command line invokes a destructive-delete program.
pub open spec fn rm_command_spec(s: Seq<char>) -> bool {
    exists|k: int| 0 <= k < extract_cmds(s).len() && is_rm_name(#[trigger] extract_cmds(s)[k])
}

/// Whether the string is a destructive-delete program name.
fn is_rm_str(s: &str) -> (r: bool)
    ensures
        r == is_rm_name(s@),
{
    str_eq(s, "rm") || str_eq(s, "rmdir") || str_eq(s, "del") || str_eq(s, "erase")
}

/// Filter that blocks destructive-delete commands.
pub struct RmFilter {
    /// Whether the filter is active.
    pub enabled: bool,
    /// The message a block carries.
    pub message: String,
}

impl RmFilter {
    /// A delete filter, with the configured message, or the default one
    /// when none is configured or the configured one is empty: a block
    /// always carries a non-empty message.
    pub fn new(enabled: bool, custom_message: Option<String>) -> (r: RmFilter)
        ensures
            r.enabled == enabled,
            (match custom_message {
                Some(m) => m@.len() > 0 ==> r.message == m,
                None => true,
            }),
            (match custom_message {
                Some(m) => m@.len() == 0,
                None => true,
            }) ==> r.message@ == default_rm_message(),
            r.message@.len() > 0,
    {
        let message = match custom_message {
            Some(m) => if m.as_str().unicode_len() > 0 {
                m
            } else {
                RmFilter::default_message()
            },
            None => RmFilter::default_message(),
        };
        RmFilter { enabled, message }
    }

    /// The default message, as a value.
    fn default_message() -> (r: String)
        ensures
            r@ == default_rm_message(),
            r@.len() > 0,
    {
        let r = String::from_str(
            "🚫 rm/rmdir command blocked for safety. Configure rm_block_message in config.toml to customize this message.",
        );
        proof {
            reveal_strlit(
                "🚫 rm/rmdir command blocked for safety. Configure rm_block_message in config.toml to customize this message.",
            );
        }
        r
    }

    /// Whether any extracted command is a destructive-delete program.
    pub fn contains_rm_command(command: &str) -> (r: bool)
        ensures
            r == rm_command_spec(command@),
    {
        let parser = ShellParser::new();
        let commands = parser.extract_commands(command);
        let mut i: usize = 0;
        while i < commands.len()
            invariant
                i <= commands@.len(),
                str_views(commands@) == extract_cmds(command@),
                forall|j: int| 0 <= j < i ==> !is_rm_name(#[trigger] extract_cmds(command@)[j]),
            decreases commands@.len() - i,
        {
            proof {
                assert(extract_cmds(command@)[i as int] == commands@[i as int]@);
            }
            if is_rm_str(commands[i].as_str()) {
                return true;
            }
            i = i + 1;
        }
        false
    }

    /// This filter applies to enabled pre-execution shell events whose
    /// command line invokes a destructive-delete program.
    pub fn applies_to(&self, input: &HookInput) -> (r: bool)
        ensures
            r == (self.enabled && input.event@ == "PreToolUse"@ && input.tool_name@ == "Bash"@ && (
            input.tool_input matches ToolInput::Bash(b) && rm_command_spec(b.command@))),
    {
        if !self.enabled {
            return false;
        }
        if !str_eq(input.event.as_str(), "PreToolUse") || !str_eq(input.tool_name.as_str(), "Bash")
        {
            return false;
        }
        match &input.tool_input {
            ToolInput::Bash(b) => Self::contains_rm_command(b.command.as_str()),
            _ => false,
        }
    }

    /// The decision this filter renders: block with its message.
    pub fn execute(&self, _input: &HookInput) -> (r: Decision)
        ensures
            r == (Decision::Block { message: self.message }),
    {
        Decision::Block { message: self.message.clone() }
    }

    /// Ordering key: after the kill and disk-dump filters.
    pub fn priority(&self) -> (r: u32)
        ensures
            r == 20,
    {
        20
    }
}

} // verus!
