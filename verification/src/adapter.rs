//! Output formatting for the supported agent wire formats.
//!
//! The adapter turns a decision into the JSON text an agent expects, and
//! maps decisions to process exit statuses.  Parse failures are formatted
//! fail-closed: the error output always denies.

use vstd::prelude::*;

use crate::textutil::digit_char;
use crate::textutil::str_eq;
use crate::textutil::str_to_chars;
use crate::types::Decision;

verus! {

/// Input/output format for the supported agents.
#[derive(Clone, Copy, PartialEq, Eq, Structural, Debug)]
pub enum Format {
    /// The default format.
    Claude,
    /// The Cursor format.
    Cursor,
    /// The Windsurf format.
    Windsurf,
}

/// The character for one lowercase hex digit.
pub open spec fn hex_char(d: nat) -> char {
    if d < 10 {
        digit_char(d)
    } else if d == 10 {
        'a'
    } else if d == 11 {
        'b'
    } else if d == 12 {
        'c'
    } else if d == 13 {
        'd'
    } else if d == 14 {
        'e'
    } else {
        'f'
    }
}

/// The JSON string escape of one character.
pub open spec fn esc_char(c: char) -> Seq<char> {
    if c == '"' {
        seq!['\\', '"']
    } else if c == '\\' {
        seq!['\\', '\\']
    } else if c == '\n' {
        seq!['\\', 'n']
    } else if c == '\r' {
        seq!['\\', 'r']
    } else if c == '\t' {
        seq!['\\', 't']
    } else if c == '\u{8}' {
        seq!['\\', 'b']
    } else if c == '\u{c}' {
        seq!['\\', 'f']
    } else if (c as u32) < 32 {
        seq!['\\', 'u', '0', '0', hex_char((c as u32 / 16) as nat), hex_char((c as u32 % 16) as nat)]
    } else {
        seq![c]
    }
}

/// The JSON string escape of a text.
pub open spec fn json_escape(s: Seq<char>) -> Seq<char>
    decreases s.len(),
{
    if s.len() == 0 {
        Seq::empty()
    } else {
        esc_char(s[0]) + json_escape(s.skip(1))
    }
}

/// Append the characters of a literal to the builder.
fn push_lit(out: &mut Vec<char>, s: &str)
    ensures
        final(out)@ == old(out)@ + s@,
{
    let n = s.unicode_len();
    let mut i: usize = 0;
    proof {
        assert(out@ + s@.take(0) =~= out@);
    }
    while i < n
        invariant
            i <= n,
            n == s@.len(),
            out@ == old(out)@ + s@.take(i as int),
        decreases n - i,
    {
        out.push(s.get_char(i));
        i = i + 1;
        proof {
            assert(old(out)@ + s@.take(i as int) =~= (old(out)@ + s@.take(i as int - 1)).push(
                s@[i as int - 1],
            ));
        }
    }
    proof {
        assert(s@.take(n as int) =~= s@);
    }
}

/// Append the JSON escape of a text to the builder.
fn push_escaped(out: &mut Vec<char>, s: &str)
    ensures
        final(out)@ == old(out)@ + json_escape(s@),
{
    let chars = str_to_chars(s);
    let mut i: usize = 0;
    proof {
        assert(chars@.skip(0) =~= chars@);
        assert(out@ + json_escape(s@) =~= out@ + json_escape(s@));
    }
    while i < chars.len()
        invariant
            i <= chars@.len(),
            chars@ == s@,
            old(out)@ + json_escape(s@) == out@ + json_escape(s@.skip(i as int)),
        decreases chars@.len() - i,
    {
        let ghost pre = s@.skip(i as int);
        proof {
            assert(pre[0] == s@[i as int]);
            assert(pre.skip(1) =~= s@.skip(i as int + 1));
        }
        let ghost o0 = out@;
        let c = chars[i];
        if c == '"' {
            out.push('\\');
            out.push('"');
        } else if c == '\\' {
            out.push('\\');
            out.push('\\');
        } else if c == '\n' {
            out.push('\\');
            out.push('n');
        } else if c == '\r' {
            out.push('\\');
            out.push('r');
        } else if c == '\t' {
            out.push('\\');
            out.push('t');
        } else if c == '\u{8}' {
            out.push('\\');
            out.push('b');
        } else if c == '\u{c}' {
            out.push('\\');
            out.push('f');
        } else if (c as u32) < 32 {
            out.push('\\');
            out.push('u');
            out.push('0');
            out.push('0');
            let d = c as u32;
            let hi = d / 16;
            let lo = d % 16;
            let hic = if hi == 0 {
                '0'
            } else {
                '1'
            };
            let loc = if lo == 0 {
                '0'
            } else if lo == 1 {
                '1'
            } else if lo == 2 {
                '2'
            } else if lo == 3 {
                '3'
            } else if lo == 4 {
                '4'
            } else if lo == 5 {
                '5'
            } else if lo == 6 {
                '6'
            } else if lo == 7 {
                '7'
            } else if lo == 8 {
                '8'
            } else if lo == 9 {
                '9'
            } else if lo == 10 {
                'a'
            } else if lo == 11 {
                'b'
            } else if lo == 12 {
                'c'
            } else if lo == 13 {
                'd'
            } else if lo == 14 {
                'e'
            } else {
                'f'
            };
            out.push(hic);
            out.push(loc);
            proof {
                assert(hic == hex_char((c as u32 / 16) as nat));
                assert(loc == hex_char((c as u32 % 16) as nat));
            }
        } else {
            out.push(c);
        }
        proof {
            assert(out@ =~= o0 + esc_char(pre[0]));
            assert(o0 + (esc_char(pre[0]) + json_escape(pre.skip(1))) =~= out@ + json_escape(
                pre.skip(1),
            ));
        }
        i = i + 1;
    }
    proof {
        assert(s@.skip(i as int) =~= Seq::<char>::empty());
        assert(out@ + Seq::<char>::empty() =~= out@);
    }
}

/// The decision as the default wire format: "approve" or "block"; advisory
/// context is attached only for post-execution events.
pub open spec fn claude_decision_json(d: Decision, event: Seq<char>) -> Seq<char> {
    match d {
        Decision::Block { message } => "{\"decision\":\"block\",\"message\":\""@ + json_escape(
            message@,
        ) + "\"}"@,
        Decision::Allow { additional_context } => match additional_context {
            Some(ctx) => if event == "PostToolUse"@ {
                "{\"decision\":\"approve\",\"hookSpecificOutput\":{\"hookEventName\":\"PostToolUse\",\"additionalContext\":\""@
                    + json_escape(ctx@) + "\"}}"@
            } else {
                "{\"decision\":\"approve\"}"@
            },
            None => "{\"decision\":\"approve\"}"@,
        },
    }
}

/// The decision as the Cursor wire format: a permission with messages when
/// denying.
pub open spec fn cursor_decision_json(d: Decision) -> Seq<char> {
    match d {
        Decision::Allow { additional_context } => "{\"permission\":\"allow\"}"@,
        Decision::Block { message } => "{\"permission\":\"deny\",\"user_message\":\""@
            + json_escape(message@)
            + "\",\"agent_message\":\"Command blocked by claw-hooks\"}"@,
    }
}

/// The fail-closed error text.
pub open spec fn error_text(message: Seq<char>) -> Seq<char> {
    "🚫 Hook error (fail-closed): "@ + message
}

/// The fail-closed error output in the default format.
pub open spec fn claude_error_json(message: Seq<char>) -> Seq<char> {
    "{\"decision\":\"block\",\"message\":\""@ + json_escape(error_text(message)) + "\"}"@
}

/// The fail-closed error output in the Cursor format.
pub open spec fn cursor_error_json(message: Seq<char>) -> Seq<char> {
    "{\"agent_message\":\"Hook system encountered an error and blocked for safety\",\"permission\":\"deny\",\"user_message\":\""@
        + json_escape(error_text(message)) + "\"}"@
}

/// Adapter between decisions and an agent's wire format.
pub struct FormatAdapter {
    /// The format being served.
    pub format: Format,
}

impl FormatAdapter {
    /// An adapter for the given format.
    pub fn new(format: Format) -> (r: FormatAdapter)
        ensures
            r.format == format,
    {
        FormatAdapter { format }
    }

    /// The wire text for a decision under this adapter's format.
    pub fn format_output(&self, decision: &Decision, event: &str) -> (r: String)
        ensures
            self.format == Format::Claude || self.format == Format::Windsurf ==> r@
                == claude_decision_json(*decision, event@),
            self.format == Format::Cursor ==> r@ == cursor_decision_json(*decision),
    {
        match self.format {
            Format::Claude => Self::claude_output(decision, event),
            Format::Windsurf => Self::claude_output(decision, event),
            Format::Cursor => Self::cursor_output(decision),
        }
    }

    /// The wire text for a decision in the default format.
    fn claude_output(decision: &Decision, event: &str) -> (r: String)
        ensures
            r@ == claude_decision_json(*decision, event@),
    {
        match decision {
            Decision::Block { message } => {
                let mut out: Vec<char> = Vec::new();
                push_lit(&mut out, "{\"decision\":\"block\",\"message\":\"");
                push_escaped(&mut out, message.as_str());
                push_lit(&mut out, "\"}");
                proof {
                    assert(out@ =~= claude_decision_json(*decision, event@));
                }
                crate::textutil::chars_to_string(&out)
            },
            Decision::Allow { additional_context } => {
                let is_post = str_eq(event, "PostToolUse");
                match additional_context {
                    Some(ctx) if is_post => {
                        let mut out: Vec<char> = Vec::new();
                        push_lit(
                            &mut out,
                            "{\"decision\":\"approve\",\"hookSpecificOutput\":{\"hookEventName\":\"PostToolUse\",\"additionalContext\":\"",
                        );
                        push_escaped(&mut out, ctx.as_str());
                        push_lit(&mut out, "\"}}");
                        proof {
                            assert(out@ =~= claude_decision_json(*decision, event@));
                        }
                        crate::textutil::chars_to_string(&out)
                    },
                    _ => String::from_str("{\"decision\":\"approve\"}"),
                }
            },
        }
    }

    /// The wire text for a decision in the Cursor format.
    fn cursor_output(decision: &Decision) -> (r: String)
        ensures
            r@ == cursor_decision_json(*decision),
    {
        match decision {
            Decision::Allow { .. } => String::from_str("{\"permission\":\"allow\"}"),
            Decision::Block { message } => {
                let mut out: Vec<char> = Vec::new();
                push_lit(&mut out, "{\"permission\":\"deny\",\"user_message\":\"");
                push_escaped(&mut out, message.as_str());
                push_lit(&mut out, "\",\"agent_message\":\"Command blocked by claw-hooks\"}");
                proof {
                    assert(out@ =~= cursor_decision_json(*decision));
                }
                crate::textutil::chars_to_string(&out)
            },
        }
    }

    /// The process exit status for a decision: success for allow, the
    /// distinct blocked status for block.
    pub fn exit_code(&self, decision: &Decision) -> (r: i32)
        ensures
            decision is Allow ==> r == 0,
            decision is Block ==> r == 2,
    {
        decision.exit_code()
    }

    /// The fail-closed wire text for a failure to parse or decide: every
    /// format denies.
    pub fn format_error(&self, message: &str) -> (r: String)
        ensures
            self.format == Format::Claude || self.format == Format::Windsurf ==> r@
                == claude_error_json(message@),
            self.format == Format::Cursor ==> r@ == cursor_error_json(message@),
    {
        let mut out: Vec<char> = Vec::new();
        match self.format {
            Format::Claude | Format::Windsurf => {
                push_lit(&mut out, "{\"decision\":\"block\",\"message\":\"");
                push_err_text(&mut out, message);
                push_lit(&mut out, "\"}");
                proof {
                    assert(out@ =~= claude_error_json(message@));
                }
            },
            Format::Cursor => {
                push_lit(
                    &mut out,
                    "{\"agent_message\":\"Hook system encountered an error and blocked for safety\",\"permission\":\"deny\",\"user_message\":\"",
                );
                push_err_text(&mut out, message);
                push_lit(&mut out, "\"}");
                proof {
                    assert(out@ =~= cursor_error_json(message@));
                }
            },
        }
        crate::textutil::chars_to_string(&out)
    }

    /// The exit status for error scenarios: fail-closed, same as a block.
    pub fn error_exit_code(&self) -> (r: i32)
        ensures
            r == 2,
    {
        2
    }

    /// The wire text for a decision in the Windsurf format, which matches
    /// the default format.
    pub fn format_windsurf_output(&self, decision: &Decision, event: &str) -> (r: String)
        ensures
            r@ == claude_decision_json(*decision, event@),
    {
        Self::claude_output(decision, event)
    }
}

/// Append the escaped fail-closed error text for a message.
fn push_err_text(out: &mut Vec<char>, message: &str)
    ensures
        final(out)@ == old(out)@ + json_escape(error_text(message@)),
{
    let mut text: Vec<char> = Vec::new();
    push_lit(&mut text, "🚫 Hook error (fail-closed): ");
    push_lit(&mut text, message);
    let s = crate::textutil::chars_to_string(&text);
    push_escaped(out, s.as_str());
}

} // verus!
