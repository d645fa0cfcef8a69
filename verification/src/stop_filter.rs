//! The session-end hook filter: plans the configured commands to run when
//! the agent loop ends.  The caller runs them; failures never block.

use vstd::prelude::*;

use crate::config::StopHook;
use crate::extension_filter::PlannedJob;
use crate::textutil::chars_to_string;
use crate::textutil::str_eq;
use crate::textutil::str_to_chars;
use crate::textutil::str_views;
use crate::textutil::tail_toks;
use crate::textutil::toks_to_strings;
use crate::textutil::views;
use crate::textutil::ws_words;
use crate::textutil::ws_words_chars;
use crate::types::HookInput;

verus! {

/// What planning one session-end command must yield: its whitespace words
/// as program and arguments, or a record that it was empty.
pub open spec fn stop_job_matches(j: PlannedJob, command: Seq<char>) -> bool {
    if ws_words(command).len() == 0 {
        j matches PlannedJob::Invalid { error } && error@ == "Empty command"@
    } else {
        j matches PlannedJob::Run { label, program, args } && label@ == command && program@
            == ws_words(command)[0] && str_views(args@) == ws_words(command).skip(1)
    }
}

/// Filter that plans the session-end hooks.
pub struct StopHookFilter {
    /// The configured session-end hooks, in order.
    pub hooks: Vec<StopHook>,
}

impl StopHookFilter {
    /// A filter over the given session-end hooks.
    pub fn new(hooks: Vec<StopHook>) -> (r: StopHookFilter)
        ensures
            r.hooks == hooks,
    {
        StopHookFilter { hooks }
    }

    /// Plan every configured hook: whitespace-split each command into a
    /// program and arguments; an empty command is recorded, not run.
    pub fn plan(&self) -> (r: Vec<PlannedJob>)
        ensures
            r@.len() == self.hooks@.len(),
            forall|i: int|
                0 <= i < r@.len() ==> stop_job_matches(#[trigger] r@[i], self.hooks@[i].command@),
    {
        let mut jobs: Vec<PlannedJob> = Vec::new();
        let mut i: usize = 0;
        while i < self.hooks.len()
            invariant
                i <= self.hooks@.len(),
                jobs@.len() == i,
                forall|k: int|
                    0 <= k < i ==> stop_job_matches(
                        #[trigger] jobs@[k],
                        self.hooks@[k].command@,
                    ),
            decreases self.hooks@.len() - i,
        {
            let cmd = &self.hooks[i].command;
            let chars = str_to_chars(cmd.as_str());
            let words = ws_words_chars(&chars);
            if words.len() == 0 {
                let e = String::from_str("Empty command");
                proof {
                    reveal_strlit("Empty command");
                }
                jobs.push(PlannedJob::Invalid { error: e });
            } else {
                proof {
                    assert(views(words@)[0] == words@[0]@);
                }
                let program = chars_to_string(&words[0]);
                let rest = tail_toks(&words, 1);
                let args = toks_to_strings(&rest);
                let mut label = String::new();
                label.append(cmd.as_str());
                jobs.push(PlannedJob::Run { label, program, args });
            }
            i = i + 1;
        }
        jobs
    }

    /// This filter applies to session-end events only.
    pub fn applies_to(&self, input: &HookInput) -> (r: bool)
        ensures
            r == (input.event@ == "Stop"@),
    {
        str_eq(input.event.as_str(), "Stop")
    }

    /// Ordering key: side-effect filters run last.
    pub fn priority(&self) -> (r: u32)
        ensures
            r == 100,
    {
        100
    }
}

} // verus!
