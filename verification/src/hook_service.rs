//! The hook service: builds the filter chain from configuration and
//! dispatches one event through it.

use vstd::prelude::*;

use crate::adapter::Format;
use crate::adapter::FormatAdapter;
use crate::chain::chain_sorted;
use crate::chain::chain_wf;
use crate::chain::gate_messages_nonempty;
use crate::chain::outcome_ok;
use crate::chain::ChainOutcome;
use crate::chain::FilterChain;
use crate::config::Config;
use crate::textutil::str_eq;
use crate::types::HookInput;

verus! {

/// Service that decides one hook event.
pub struct HookService {
    /// The configuration the chain was built from.
    pub config: Config,
    /// The filter chain.
    pub filter_chain: FilterChain,
    /// The wire-format adapter.
    pub adapter: FormatAdapter,
}

impl HookService {
    /// A service for the given configuration and format.
    pub fn new(config: Config, format: Format) -> (r: HookService)
        ensures
            chain_wf(r.filter_chain.filters@, r.config),
            chain_sorted(r.filter_chain.filters@),
            gate_messages_nonempty(r.filter_chain.filters@),
            r.adapter.format == format,
    {
        let filter_chain = FilterChain::new(&config);
        let adapter = FormatAdapter::new(format);
        HookService { config, filter_chain, adapter }
    }

    /// Decide one event: pre-execution, file-write post-execution and
    /// session-end events run through the chain; anything else is allowed
    /// with nothing planned.
    pub fn process(&self, input: &HookInput) -> (r: ChainOutcome)
        ensures
            input.event@ == "PreToolUse"@ || input.event@ == "Stop"@ || (input.event@
                == "PostToolUse"@ && (input.tool_name@ == "Write"@ || input.tool_name@ == "Edit"@
                || input.tool_name@ == "MultiEdit"@)) ==> outcome_ok(
                self.filter_chain.filters@,
                *input,
                r,
            ),
            input.event@ == "PostToolUse"@ && !(input.tool_name@ == "Write"@ || input.tool_name@
                == "Edit"@ || input.tool_name@ == "MultiEdit"@) ==> (r matches ChainOutcome::Allow {
                ext_jobs,
                stop_jobs,
            } && ext_jobs@.len() == 0 && stop_jobs@.len() == 0),
            !(input.event@ == "PreToolUse"@ || input.event@ == "Stop"@ || input.event@
                == "PostToolUse"@) ==> (r matches ChainOutcome::Allow { ext_jobs, stop_jobs }
                && ext_jobs@.len() == 0 && stop_jobs@.len() == 0),
            gate_messages_nonempty(self.filter_chain.filters@) ==> (r matches ChainOutcome::Block {
                message,
            } ==> message@.len() > 0),
    {
        proof {
            reveal_strlit("PreToolUse");
            reveal_strlit("PostToolUse");
            reveal_strlit("Stop");
        }
        if str_eq(input.event.as_str(), "PreToolUse") || str_eq(input.event.as_str(), "Stop") {
            proof {
                assert("PreToolUse"@.len() == 10);
                assert("PostToolUse"@.len() == 11);
                assert("Stop"@.len() == 4);
                assert(input.event@ != "PostToolUse"@);
            }
            return self.filter_chain.execute(input);
        }
        if str_eq(input.event.as_str(), "PostToolUse") {
            if str_eq(input.tool_name.as_str(), "Write") || str_eq(input.tool_name.as_str(), "Edit")
                || str_eq(input.tool_name.as_str(), "MultiEdit") {
                return self.filter_chain.execute(input);
            }
            return ChainOutcome::Allow { ext_jobs: Vec::new(), stop_jobs: Vec::new() };
        }
        ChainOutcome::Allow { ext_jobs: Vec::new(), stop_jobs: Vec::new() }
    }
}

} // verus!
