//! The process-kill denylist filter.

use vstd::prelude::*;

use crate::parser::extract_cmds;
use crate::parser::starts_dash;
use crate::parser::ShellParser;
use crate::textutil::bar_pieces;
use crate::textutil::bar_pieces_chars;
use crate::textutil::starts_with_chars;
use crate::textutil::starts_with_seq;
use crate::textutil::str_eq;
use crate::textutil::str_to_chars;
use crate::textutil::str_views;
use crate::textutil::views;
use crate::textutil::ws_words;
use crate::textutil::ws_words_chars;
use crate::types::Decision;
use crate::types::HookInput;
use crate::types::ToolInput;

verus! {

/// A process-kill program name.
pub open spec fn is_kill_name(t: Seq<char>) -> bool {
    t == "kill"@ || t == "pkill"@ || t == "killall"@ || t == "taskkill"@
}

/// The message used when no custom one is configured.
pub open spec fn default_kill_message() -> Seq<char> {
    "🚫 kill/pkill/killall command blocked for safety. Use safe-kill: safe-kill <PID>, safe-kill -N <name>, or safe-kill -p <port>."@
}

/// A quote-blind `|`-piece that starts with `xargs` and later names a
/// kill-family program outside of flags.
pub open spec fn piece_has_xargs_kill(piece: Seq<char>) -> bool {
    ws_words(piece).len() > 0 && starts_with_seq(ws_words(piece)[0], "xargs"@) && exists|k: int|
        1 <= k < ws_words(piece).len() && !starts_dash(#[trigger] ws_words(piece)[k])
            && is_kill_name(ws_words(piece)[k])
}

/// The secondary scan: some pipeline piece batches a kill through `xargs`.
pub open spec fn has_xargs_kill(s: Seq<char>) -> bool {
    exists|p: int| 0 <= p < bar_pieces(s).len() && piece_has_xargs_kill(#[trigger] bar_pieces(s)[p])
}

/// Whether the command line invokes a kill-family program: one is extracted,
/// or the secondary `xargs` scan finds one.
pub open spec fn kill_command_spec(s: Seq<char>) -> bool {
    (exists|k: int| 0 <= k < extract_cmds(s).len() && is_kill_name(#[trigger] extract_cmds(s)[k]))
        || has_xargs_kill(s)
}

/// Whether the string is a kill-family program name.
fn is_kill_str(s: &str) -> (r: bool)
    ensures
        r == is_kill_name(s@),
{
    str_eq(s, "kill") || str_eq(s, "pkill") || str_eq(s, "killall") || str_eq(s, "taskkill")
}

/// Whether the token is a kill-family program name.
fn is_kill_tok(t: &Vec<char>) -> (r: bool)
    ensures
        r == is_kill_name(t@),
{
    crate::textutil::chars_eq_str(t, "kill") || crate::textutil::chars_eq_str(t, "pkill")
        || crate::textutil::chars_eq_str(t, "killall") || crate::textutil::chars_eq_str(
        t,
        "taskkill",
    )
}

/// Filter that blocks process-kill commands.
pub struct KillFilter {
    /// Whether the filter is active.
    pub enabled: bool,
    /// The message a block carries.
    pub message: String,
}

impl KillFilter {
    /// A kill filter, with the configured message, or the default one when
    /// none is configured or the configured one is empty: a block always
    /// carries a non-empty message.
    pub fn new(enabled: bool, custom_message: Option<String>) -> (r: KillFilter)
        ensures
            r.enabled == enabled,
            (match custom_message {
                Some(m) => m@.len() > 0 ==> r.message == m,
                None => true,
            }),
            (match custom_message {
                Some(m) => m@.len() == 0,
                None => true,
            }) ==> r.message@ == default_kill_message(),
            r.message@.len() > 0,
    {
        let message = match custom_message {
            Some(m) => if m.as_str().unicode_len() > 0 {
                m
            } else {
                KillFilter::default_message()
            },
            None => KillFilter::default_message(),
        };
        KillFilter { enabled, message }
    }

    /// The default message, as a value.
    fn default_message() -> (r: String)
        ensures
            r@ == default_kill_message(),
            r@.len() > 0,
    {
        let r = String::from_str(
            "🚫 kill/pkill/killall command blocked for safety. Use safe-kill: safe-kill <PID>, safe-kill -N <name>, or safe-kill -p <port>.",
        );
        proof {
            reveal_strlit(
                "🚫 kill/pkill/killall command blocked for safety. Use safe-kill: safe-kill <PID>, safe-kill -N <name>, or safe-kill -p <port>.",
            );
        }
        r
    }

    /// Whether any extracted command is kill-family, or the secondary
    /// `xargs` scan finds one.
    pub fn contains_kill_command(command: &str) -> (r: bool)
        ensures
            r == kill_command_spec(command@),
    {
        let parser = ShellParser::new();
        let commands = parser.extract_commands(command);
        let mut i: usize = 0;
        while i < commands.len()
            invariant
                i <= commands@.len(),
                str_views(commands@) == extract_cmds(command@),
                forall|j: int| 0 <= j < i ==> !is_kill_name(#[trigger] extract_cmds(command@)[j]),
            decreases commands@.len() - i,
        {
            if is_kill_str(commands[i].as_str()) {
                proof {
                    assert(extract_cmds(command@)[i as int] == commands@[i as int]@);
                }
                return true;
            }
            proof {
                assert(extract_cmds(command@)[i as int] == commands@[i as int]@);
            }
            i = i + 1;
        }
        Self::contains_xargs_kill(command)
    }

    /// The secondary scan: split quote-blind at `|`; a piece whose first
    /// word starts with `xargs` and that later names a kill-family program
    /// outside of flags counts.
    pub fn contains_xargs_kill(command: &str) -> (r: bool)
        ensures
            r == has_xargs_kill(command@),
    {
        let chars = str_to_chars(command);
        let pieces = bar_pieces_chars(&chars);
        let mut p: usize = 0;
        while p < pieces.len()
            invariant
                p <= pieces@.len(),
                chars@ == command@,
                views(pieces@) == bar_pieces(command@),
                forall|q: int| 0 <= q < p ==> !piece_has_xargs_kill(
                    #[trigger] bar_pieces(command@)[q],
                ),
            decreases pieces@.len() - p,
        {
            let ghost piece = bar_pieces(command@)[p as int];
            proof {
                assert(piece == pieces@[p as int]@);
            }
            let words = ws_words_chars(&pieces[p]);
            if words.len() > 0 && starts_with_chars(&words[0], "xargs") {
                proof {
                    assert(ws_words(piece)[0] == views(words@)[0]);
                }
                let mut k: usize = 1;
                while k < words.len()
                    invariant
                        1 <= k <= words@.len(),
                        views(words@) == ws_words(piece),
                        ws_words(piece).len() > 0,
                        starts_with_seq(ws_words(piece)[0], "xargs"@),
                        0 <= p < bar_pieces(command@).len(),
                        piece == bar_pieces(command@)[p as int],
                        forall|j: int|
                            1 <= j < k ==> !(!starts_dash(#[trigger] ws_words(piece)[j])
                                && is_kill_name(ws_words(piece)[j])),
                    decreases words@.len() - k,
                {
                    proof {
                        assert(ws_words(piece)[k as int] == views(words@)[k as int]);
                    }
                    if !crate::parser::starts_dash_tok(&words[k]) && is_kill_tok(&words[k]) {
                        proof {
                            assert(piece_has_xargs_kill(piece));
                        }
                        return true;
                    }
                    k = k + 1;
                }
                proof {
                    assert(!piece_has_xargs_kill(piece));
                }
            } else {
                proof {
                    if ws_words(piece).len() > 0 {
                        assert(ws_words(piece)[0] == views(words@)[0]);
                    }
                    assert(!piece_has_xargs_kill(piece));
                }
            }
            p = p + 1;
        }
        false
    }

    /// This filter applies to enabled pre-execution shell events whose
    /// command line invokes a kill-family program.
    pub fn applies_to(&self, input: &HookInput) -> (r: bool)
        ensures
            r == (self.enabled && input.event@ == "PreToolUse"@ && input.tool_name@ == "Bash"@ && (
            input.tool_input matches ToolInput::Bash(b) && kill_command_spec(b.command@))),
    {
        if !self.enabled {
            return false;
        }
        if !str_eq(input.event.as_str(), "PreToolUse") || !str_eq(input.tool_name.as_str(), "Bash")
        {
            return false;
        }
        match &input.tool_input {
            ToolInput::Bash(b) => Self::contains_kill_command(b.command.as_str()),
            _ => false,
        }
    }

    /// The decision this filter renders: block with its message.
    pub fn execute(&self, _input: &HookInput) -> (r: Decision)
        ensures
            r == (Decision::Block { message: self.message }),
    {
        Decision::Block { message: self.message.clone() }
    }

    /// Ordering key: the kill filter runs first.
    pub fn priority(&self) -> (r: u32)
        ensures
            r == 10,
    {
        10
    }
}

} // verus!
