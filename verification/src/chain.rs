//! The filter chain: builds the filters from configuration, applies them in
//! priority order, and lets the first blocking filter win.  Side-effect
//! filters never block; the chain returns what they planned, and
//! `ChainOutcome::into_decision` turns their captured outputs into the final
//! decision.

use vstd::prelude::*;

use crate::config::Config;
use crate::custom_filter::anchored_full;
use crate::custom_filter::anchored_start;
use crate::custom_filter::matches_spec;
use crate::custom_filter::CustomCommandFilter;
use crate::dd_filter::dd_command_spec;
use crate::dd_filter::default_dd_message;
use crate::dd_filter::DdFilter;
use crate::extension_filter::entries;
use crate::extension_filter::job_matches;
use crate::extension_filter::join_lines;
use crate::extension_filter::matching_commands;
use crate::extension_filter::ExtensionHookFilter;
use crate::extension_filter::PlannedJob;
use crate::kill_filter::default_kill_message;
use crate::kill_filter::kill_command_spec;
use crate::kill_filter::KillFilter;
use crate::pattern::regex_valid;
use crate::rm_filter::default_rm_message;
use crate::rm_filter::rm_command_spec;
use crate::rm_filter::RmFilter;
use crate::stop_filter::stop_job_matches;
use crate::stop_filter::StopHookFilter;
use crate::textutil::str_views;
use crate::types::Decision;
use crate::types::HookInput;
use crate::types::ToolInput;

verus! {

/// One filter of the chain.
pub enum FilterKind {
    /// The process-kill denylist filter.
    Kill(KillFilter),
    /// The disk-dump denylist filter.
    Dd(DdFilter),
    /// The destructive-delete denylist filter.
    Rm(RmFilter),
    /// A custom command filter.
    Custom(CustomCommandFilter),
    /// The extension hook filter.
    Extension(ExtensionHookFilter),
    /// The session-end hook filter.
    Stop(StopHookFilter),
}

/// The priority ordering key of a filter; lower runs earlier.
pub open spec fn priority_of(f: FilterKind) -> u32 {
    match f {
        FilterKind::Kill(_) => 10,
        FilterKind::Dd(_) => 15,
        FilterKind::Rm(_) => 20,
        FilterKind::Custom(_) => 50,
        FilterKind::Extension(_) => 100,
        FilterKind::Stop(_) => 100,
    }
}

/// Whether a gating filter applies to the event and would block it.
/// Side-effect filters never gate.
pub open spec fn gate_applies(f: FilterKind, input: HookInput) -> bool {
    match f {
        FilterKind::Kill(k) => k.enabled && input.event@ == "PreToolUse"@ && input.tool_name@
            == "Bash"@ && (input.tool_input matches ToolInput::Bash(b) && kill_command_spec(
            b.command@,
        )),
        FilterKind::Dd(d) => d.enabled && input.event@ == "PreToolUse"@ && input.tool_name@
            == "Bash"@ && (input.tool_input matches ToolInput::Bash(b) && dd_command_spec(
            b.command@,
        )),
        FilterKind::Rm(m) => m.enabled && input.event@ == "PreToolUse"@ && input.tool_name@
            == "Bash"@ && (input.tool_input matches ToolInput::Bash(b) && rm_command_spec(
            b.command@,
        )),
        FilterKind::Custom(cf) => input.event@ == "PreToolUse"@ && input.tool_name@ == "Bash"@ && (
        input.tool_input matches ToolInput::Bash(b) && regex_valid(cf.pattern@) && matches_spec(
            cf,
            b.command@,
        )),
        FilterKind::Extension(_) => false,
        FilterKind::Stop(_) => false,
    }
}

/// The message a gating filter blocks with.
pub open spec fn gate_message(f: FilterKind) -> Seq<char> {
    match f {
        FilterKind::Kill(k) => k.message@,
        FilterKind::Dd(d) => d.message@,
        FilterKind::Rm(m) => m.message@,
        FilterKind::Custom(cf) => cf.message@,
        FilterKind::Extension(_) => Seq::empty(),
        FilterKind::Stop(_) => Seq::empty(),
    }
}

/// The message of the first gating filter that applies, if any: the chain
/// blocks with exactly this message.
pub open spec fn first_block(fs: Seq<FilterKind>, input: HookInput) -> Option<Seq<char>>
    decreases fs.len(),
{
    if fs.len() == 0 {
        None
    } else if gate_applies(fs[0], input) {
        Some(gate_message(fs[0]))
    } else {
        first_block(fs.skip(1), input)
    }
}

/// Whether the extension filter applies to the event.
pub open spec fn ext_applies(e: ExtensionHookFilter, input: HookInput) -> bool {
    (input.event@ == "PreToolUse"@ || input.event@ == "PostToolUse"@) && (input.tool_name@
        == "Write"@ || input.tool_name@ == "Edit"@ || input.tool_name@ == "MultiEdit"@) && (
    input.tool_input matches ToolInput::File(f) && matching_commands(
        e.hooks@,
        f.file_path@,
    ) is Some)
}

/// The file path the event acts on, where it is a file operation.
pub open spec fn input_file_path(input: HookInput) -> Seq<char> {
    match input.tool_input {
        ToolInput::File(f) => f.file_path@,
        _ => Seq::empty(),
    }
}

/// The command templates of the first applicable extension filter, if any.
pub open spec fn ext_commands_for(fs: Seq<FilterKind>, input: HookInput) -> Option<Seq<Seq<char>>>
    decreases fs.len(),
{
    if fs.len() == 0 {
        None
    } else {
        match fs[0] {
            FilterKind::Extension(e) => if ext_applies(e, input) {
                matching_commands(e.hooks@, input_file_path(input))
            } else {
                ext_commands_for(fs.skip(1), input)
            },
            _ => ext_commands_for(fs.skip(1), input),
        }
    }
}

/// The hook commands of the first applicable session-end filter, if any.
pub open spec fn stop_cmds_for(fs: Seq<FilterKind>, input: HookInput) -> Option<Seq<Seq<char>>>
    decreases fs.len(),
{
    if fs.len() == 0 {
        None
    } else {
        match fs[0] {
            FilterKind::Stop(s) => if input.event@ == "Stop"@ {
                Some(s.hooks@.map_values(|h: crate::config::StopHook| h.command@))
            } else {
                stop_cmds_for(fs.skip(1), input)
            },
            _ => stop_cmds_for(fs.skip(1), input),
        }
    }
}

/// What the chain returns for one event before any side effect has run.
pub enum ChainOutcome {
    /// A gating filter blocked the event.
    Block {
        /// Its message.
        message: String,
    },
    /// No filter blocked; the planned side-effect jobs remain to be run.
    Allow {
        /// Extension hook invocations whose outputs become advisory context.
        ext_jobs: Vec<PlannedJob>,
        /// Session-end invocations, run best-effort.
        stop_jobs: Vec<PlannedJob>,
    },
}

/// The chain's contract for one event: block with the first applicable
/// gating filter's message, else return the side-effect jobs the applicable
/// side-effect filters planned.
pub open spec fn outcome_ok(fs: Seq<FilterKind>, input: HookInput, r: ChainOutcome) -> bool {
    match first_block(fs, input) {
        Some(m) => r matches ChainOutcome::Block { message } && message@ == m,
        None => r matches ChainOutcome::Allow { ext_jobs, stop_jobs } && (match ext_commands_for(
            fs,
            input,
        ) {
            Some(cmds) => ext_jobs@.len() == cmds.len() && forall|i: int|
                0 <= i < cmds.len() ==> job_matches(
                    #[trigger] ext_jobs@[i],
                    cmds[i],
                    input_file_path(input),
                ),
            None => ext_jobs@.len() == 0,
        }) && (match stop_cmds_for(fs, input) {
            Some(cmds) => stop_jobs@.len() == cmds.len() && forall|i: int|
                0 <= i < cmds.len() ==> stop_job_matches(#[trigger] stop_jobs@[i], cmds[i]),
            None => stop_jobs@.len() == 0,
        }),
    }
}

/// The custom filters the configuration yields, as (pattern, arguments,
/// message) triples: entries whose pattern does not compile are skipped.
pub open spec fn custom_specs(fs: Seq<crate::config::CustomFilter>) -> Seq<
    (Seq<char>, Seq<Seq<char>>, Seq<char>),
>
    decreases fs.len(),
{
    if fs.len() == 0 {
        Seq::empty()
    } else {
        let f = fs[0];
        let rest = custom_specs(fs.skip(1));
        if f.args@.len() == 0 {
            if regex_valid(anchored_start(f.command@)) && f.message@.len() > 0 {
                seq![(anchored_start(f.command@), Seq::<Seq<char>>::empty(), f.message@)] + rest
            } else {
                rest
            }
        } else {
            if regex_valid(anchored_full(f.command@)) && f.message@.len() > 0 {
                seq![(anchored_full(f.command@), str_views(f.args@), f.message@)] + rest
            } else {
                rest
            }
        }
    }
}

/// The triple a custom filter realizes.
pub open spec fn filter_triple(cf: CustomCommandFilter) -> (Seq<char>, Seq<Seq<char>>, Seq<char>) {
    (cf.pattern@, str_views(cf.args@), cf.message@)
}

/// The extension hook entries as (extension, commands) view pairs.
pub open spec fn ext_hook_views(hs: Seq<crate::config::ExtensionHook>) -> Seq<
    (Seq<char>, Seq<Seq<char>>),
> {
    hs.map_values(|h: crate::config::ExtensionHook| (h.extension@, str_views(h.commands@)))
}

/// The session-end hook commands as views.
pub open spec fn stop_views(hs: Seq<crate::config::StopHook>) -> Seq<Seq<char>> {
    hs.map_values(|h: crate::config::StopHook| h.command@)
}

/// The message a built-in filter carries: the configured one when it is
/// non-empty, else its default.
pub open spec fn message_or(custom: Option<String>, default: Seq<char>) -> Seq<char> {
    match custom {
        Some(m) => if m@.len() > 0 {
            m@
        } else {
            default
        },
        None => default,
    }
}

/// Whether a filter's block message is non-empty; side-effect filters
/// never block, so they pass trivially.
pub open spec fn gate_message_ok(f: FilterKind) -> bool {
    match f {
        FilterKind::Kill(k) => k.message@.len() > 0,
        FilterKind::Dd(d) => d.message@.len() > 0,
        FilterKind::Rm(m) => m.message@.len() > 0,
        FilterKind::Custom(cf) => cf.message@.len() > 0,
        FilterKind::Extension(_) => true,
        FilterKind::Stop(_) => true,
    }
}

/// Every gating filter of the chain carries a non-empty block message.
pub open spec fn gate_messages_nonempty(fs: Seq<FilterKind>) -> bool {
    forall|i: int| 0 <= i < fs.len() ==> gate_message_ok(#[trigger] fs[i])
}

/// A block always implies a non-empty message: whatever message the chain
/// blocks with came from a gating filter, and those all carry one.
pub proof fn lemma_block_message_nonempty(fs: Seq<FilterKind>, input: HookInput)
    requires
        gate_messages_nonempty(fs),
    ensures
        first_block(fs, input) matches Some(m) ==> m.len() > 0,
    decreases fs.len(),
{
    if fs.len() > 0 {
        if gate_applies(fs[0], input) {
            assert(gate_message_ok(fs[0]));
        } else {
            assert forall|i: int| 0 <= i < fs.skip(1).len() implies gate_message_ok(
                #[trigger] fs.skip(1)[i],
            ) by {
                assert(fs.skip(1)[i] == fs[i + 1]);
            }
            lemma_block_message_nonempty(fs.skip(1), input);
        }
    }
}

/// How a well-formed chain relates to its configuration: the three built-in
/// filters first, then one custom filter per configured entry whose pattern
/// compiles, then the extension filter if any mapping is configured, then
/// the session-end filter if any hook is.
pub open spec fn chain_wf(fs: Seq<FilterKind>, c: Config) -> bool {
    let ncustom = custom_specs(c.custom_filters@).len() as int;
    let next = if c.extension_hooks@.len() > 0 {
        1int
    } else {
        0int
    };
    let nstop = if c.stop_hooks@.len() > 0 {
        1int
    } else {
        0int
    };
    &&& fs.len() == 3 + ncustom + next + nstop
    &&& fs[0] matches FilterKind::Kill(k) && k.enabled == c.kill_block && k.message@ == message_or(
        c.kill_block_message,
        default_kill_message(),
    )
    &&& fs[1] matches FilterKind::Dd(d) && d.enabled == c.dd_block && d.message@ == message_or(
        c.dd_block_message,
        default_dd_message(),
    )
    &&& fs[2] matches FilterKind::Rm(m) && m.enabled == c.rm_block && m.message@ == message_or(
        c.rm_block_message,
        default_rm_message(),
    )
    &&& forall|i: int| 0 <= i < ncustom ==> (#[trigger] fs[3 + i] matches FilterKind::Custom(cf)
        && filter_triple(cf) == custom_specs(c.custom_filters@)[i])
    &&& next == 1 ==> (fs[3 + ncustom] matches FilterKind::Extension(e) && ext_hook_views(
        e.hooks@,
    ) == ext_hook_views(c.extension_hooks@))
    &&& nstop == 1 ==> (fs[3 + ncustom + next] matches FilterKind::Stop(s) && stop_views(s.hooks@)
        == stop_views(c.stop_hooks@))
}

/// Priorities never decrease along a well-formed chain: safety filters run
/// before custom filters, and those before side-effect filters.
pub open spec fn chain_sorted(fs: Seq<FilterKind>) -> bool {
    forall|i: int, j: int| 0 <= i <= j < fs.len() ==> priority_of(#[trigger] fs[i]) <= priority_of(
        #[trigger] fs[j],
    )
}

/// Chain of filters that processes hook events.
pub struct FilterChain {
    /// The filters, in priority order.
    pub filters: Vec<FilterKind>,
}

impl FilterChain {
    /// Build the chain from configuration: the built-in filters with their
    /// flags and messages, one custom filter per entry whose pattern
    /// compiles (invalid entries are skipped, not fatal), the extension
    /// filter when mappings exist, and the session-end filter when hooks
    /// exist; in priority order.
    pub fn new(config: &Config) -> (r: FilterChain)
        ensures
            chain_wf(r.filters@, *config),
            chain_sorted(r.filters@),
            gate_messages_nonempty(r.filters@),
    {
        let mut filters: Vec<FilterKind> = Vec::new();
        filters.push(
            FilterKind::Kill(
                KillFilter::new(config.kill_block, clone_opt(&config.kill_block_message)),
            ),
        );
        filters.push(
            FilterKind::Dd(DdFilter::new(config.dd_block, clone_opt(&config.dd_block_message))),
        );
        filters.push(
            FilterKind::Rm(RmFilter::new(config.rm_block, clone_opt(&config.rm_block_message))),
        );
        let ghost cs = custom_specs(config.custom_filters@);
        let mut i: usize = 0;
        proof {
            assert(config.custom_filters@.skip(0) =~= config.custom_filters@);
        }
        while i < config.custom_filters.len()
            invariant
                i <= config.custom_filters@.len(),
                cs == custom_specs(config.custom_filters@),
                filters@.len() >= 3,
                forall|k: int| 0 <= k < filters@.len() ==> gate_message_ok(
                    #[trigger] filters@[k],
                ),
                filters@.len() - 3 + custom_specs(config.custom_filters@.skip(i as int)).len()
                    == cs.len(),
                custom_specs(config.custom_filters@.skip(i as int)) == cs.skip(
                    filters@.len() - 3,
                ),
                forall|k: int| 0 <= k < filters@.len() - 3 ==> (#[trigger] filters@[3 + k]
                    matches FilterKind::Custom(cf) && filter_triple(cf) == cs[k]),
                filters@[0] matches FilterKind::Kill(k) && k.enabled == config.kill_block
                    && k.message@ == message_or(config.kill_block_message, default_kill_message()),
                filters@[1] matches FilterKind::Dd(d) && d.enabled == config.dd_block && d.message@
                    == message_or(config.dd_block_message, default_dd_message()),
                filters@[2] matches FilterKind::Rm(m) && m.enabled == config.rm_block && m.message@
                    == message_or(config.rm_block_message, default_rm_message()),
            decreases config.custom_filters@.len() - i,
        {
            let ghost fsv = config.custom_filters@.skip(i as int);
            proof {
                assert(fsv[0] == config.custom_filters@[i as int]);
                assert(fsv.skip(1) =~= config.custom_filters@.skip(i as int + 1));
            }
            let entry = &config.custom_filters[i];
            let ghost prelen = filters@.len();
            if entry.args.len() == 0 {
                match CustomCommandFilter::new(entry.command.as_str(), entry.message.clone()) {
                    Ok(f) => {
                        proof {
                            assert(custom_specs(fsv) == seq![
                                (
                                    anchored_start(entry.command@),
                                    Seq::<Seq<char>>::empty(),
                                    entry.message@,
                                ),
                            ] + custom_specs(fsv.skip(1)));
                            assert(filter_triple(f) == cs[prelen - 3]) by {
                                assert(custom_specs(fsv)[0] == cs.skip(prelen - 3)[0]);
                                assert(str_views(f.args@) =~= Seq::<Seq<char>>::empty());
                            }
                        }
                        filters.push(FilterKind::Custom(f));
                        proof {
                            assert(custom_specs(fsv.skip(1)) =~= custom_specs(fsv).skip(1));
                            assert(custom_specs(fsv).skip(1) =~= cs.skip(prelen - 3).skip(1));
                            assert(cs.skip(prelen - 3).skip(1) =~= cs.skip(filters@.len() - 3));
                        }
                    },
                    Err(_) => {
                        proof {
                            assert(custom_specs(fsv) == custom_specs(fsv.skip(1)));
                        }
                    },
                }
            } else {
                match CustomCommandFilter::with_args(
                    entry.command.as_str(),
                    clone_strings(&entry.args),
                    entry.message.clone(),
                ) {
                    Ok(f) => {
                        proof {
                            assert(custom_specs(fsv) == seq![
                                (anchored_full(entry.command@), str_views(entry.args@), entry.message@),
                            ] + custom_specs(fsv.skip(1)));
                            assert(filter_triple(f) == cs[prelen - 3]) by {
                                assert(custom_specs(fsv)[0] == cs.skip(prelen - 3)[0]);
                            }
                        }
                        filters.push(FilterKind::Custom(f));
                        proof {
                            assert(custom_specs(fsv.skip(1)) =~= custom_specs(fsv).skip(1));
                            assert(custom_specs(fsv).skip(1) =~= cs.skip(prelen - 3).skip(1));
                            assert(cs.skip(prelen - 3).skip(1) =~= cs.skip(filters@.len() - 3));
                        }
                    },
                    Err(_) => {
                        proof {
                            assert(custom_specs(fsv) == custom_specs(fsv.skip(1)));
                        }
                    },
                }
            }
            i = i + 1;
        }
        proof {
            assert(config.custom_filters@.skip(i as int) =~= Seq::<crate::config::CustomFilter>::empty());
            assert(custom_specs(config.custom_filters@.skip(i as int)).len() == 0);
            assert(filters@.len() - 3 == cs.len());
        }
        if config.extension_hooks.len() > 0 {
            let ghost pre = filters@;
            filters.push(
                FilterKind::Extension(
                    ExtensionHookFilter::new(clone_ext_hooks(&config.extension_hooks)),
                ),
            );
            proof {
                assert forall|k: int| 0 <= k < filters@.len() implies gate_message_ok(
                    #[trigger] filters@[k],
                ) by {
                    if k < pre.len() {
                        assert(filters@[k] == pre[k]);
                        assert(gate_message_ok(pre[k]));
                    }
                }
            }
        }
        if config.stop_hooks.len() > 0 {
            let ghost pre = filters@;
            filters.push(FilterKind::Stop(StopHookFilter::new(clone_stop_hooks(&config.stop_hooks))));
            proof {
                assert forall|k: int| 0 <= k < filters@.len() implies gate_message_ok(
                    #[trigger] filters@[k],
                ) by {
                    if k < pre.len() {
                        assert(filters@[k] == pre[k]);
                        assert(gate_message_ok(pre[k]));
                    }
                }
            }
        }
        let r = FilterChain { filters };
        proof {
            assert(chain_wf(r.filters@, *config));
            assert forall|a: int, b: int|
                0 <= a <= b < r.filters@.len() implies priority_of(#[trigger] r.filters@[a])
                <= priority_of(#[trigger] r.filters@[b]) by {
                let ncustom = custom_specs(config.custom_filters@).len();
                if 3 <= a < 3 + ncustom {
                    assert(r.filters@[3 + (a - 3)] matches FilterKind::Custom(cf) && filter_triple(
                        cf,
                    ) == custom_specs(config.custom_filters@)[a - 3]);
                }
                if 3 <= b < 3 + ncustom {
                    assert(r.filters@[3 + (b - 3)] matches FilterKind::Custom(cf) && filter_triple(
                        cf,
                    ) == custom_specs(config.custom_filters@)[b - 3]);
                }
            }
        }
        r
    }

    /// Apply the filters in priority order: the first gating filter that
    /// applies blocks with its message; otherwise the applicable side-effect
    /// filters plan their jobs and the event is allowed.
    pub fn execute(&self, input: &HookInput) -> (r: ChainOutcome)
        ensures
            outcome_ok(self.filters@, *input, r),
            gate_messages_nonempty(self.filters@) ==> (r matches ChainOutcome::Block { message }
                ==> message@.len() > 0),
    {
        let ghost fs = self.filters@;
        let mut ext_jobs: Vec<PlannedJob> = Vec::new();
        let mut stop_jobs: Vec<PlannedJob> = Vec::new();
        let mut ext_found = false;
        let mut stop_found = false;
        let mut i: usize = 0;
        proof {
            assert(fs.skip(0) =~= fs);
        }
        while i < self.filters.len()
            invariant
                i <= fs.len(),
                fs == self.filters@,
                first_block(fs, *input) == first_block(fs.skip(i as int), *input),
                !ext_found ==> ext_jobs@.len() == 0 && ext_commands_for(fs, *input)
                    == ext_commands_for(fs.skip(i as int), *input),
                ext_found ==> (match ext_commands_for(fs, *input) {
                    Some(cmds) => ext_jobs@.len() == cmds.len() && forall|k: int|
                        0 <= k < cmds.len() ==> job_matches(
                            #[trigger] ext_jobs@[k],
                            cmds[k],
                            input_file_path(*input),
                        ),
                    None => false,
                }),
                !stop_found ==> stop_jobs@.len() == 0 && stop_cmds_for(fs, *input)
                    == stop_cmds_for(fs.skip(i as int), *input),
                stop_found ==> (match stop_cmds_for(fs, *input) {
                    Some(cmds) => stop_jobs@.len() == cmds.len() && forall|k: int|
                        0 <= k < cmds.len() ==> stop_job_matches(#[trigger] stop_jobs@[k], cmds[k]),
                    None => false,
                }),
            decreases fs.len() - i,
        {
            let ghost tail = fs.skip(i as int);
            proof {
                assert(tail[0] == fs[i as int]);
                assert(tail.skip(1) =~= fs.skip(i as int + 1));
            }
            match &self.filters[i] {
                FilterKind::Kill(k) => {
                    if k.applies_to(input) {
                        proof {
                            if gate_messages_nonempty(fs) {
                                assert(gate_message_ok(fs[i as int]));
                            }
                        }
                        return ChainOutcome::Block { message: k.message.clone() };
                    }
                },
                FilterKind::Dd(d) => {
                    if d.applies_to(input) {
                        proof {
                            if gate_messages_nonempty(fs) {
                                assert(gate_message_ok(fs[i as int]));
                            }
                        }
                        return ChainOutcome::Block { message: d.message.clone() };
                    }
                },
                FilterKind::Rm(m) => {
                    if m.applies_to(input) {
                        proof {
                            if gate_messages_nonempty(fs) {
                                assert(gate_message_ok(fs[i as int]));
                            }
                        }
                        return ChainOutcome::Block { message: m.message.clone() };
                    }
                },
                FilterKind::Custom(cf) => {
                    if cf.applies_to(input) {
                        proof {
                            if gate_messages_nonempty(fs) {
                                assert(gate_message_ok(fs[i as int]));
                            }
                        }
                        return ChainOutcome::Block { message: cf.message.clone() };
                    }
                },
                FilterKind::Extension(e) => {
                    if !ext_found && e.applies_to(input) {
                        match &input.tool_input {
                            ToolInput::File(f) => {
                                match e.get_matching_commands(f.file_path.as_str()) {
                                    Some(cmds) => {
                                        ext_jobs = ExtensionHookFilter::plan_commands(
                                            &cmds,
                                            f.file_path.as_str(),
                                        );
                                        ext_found = true;
                                        proof {
                                            assert(ext_commands_for(tail, *input) == Some(
                                                str_views(cmds@),
                                            ));
                                        }
                                    },
                                    None => {
                                        proof {
                                            assert(false);
                                        }
                                    },
                                }
                            },
                            _ => {
                                proof {
                                    assert(false);
                                }
                            },
                        }
                    }
                },
                FilterKind::Stop(s) => {
                    if !stop_found && s.applies_to(input) {
                        stop_jobs = s.plan();
                        stop_found = true;
                        proof {
                            assert(stop_cmds_for(tail, *input) == Some(
                                s.hooks@.map_values(|h: crate::config::StopHook| h.command@),
                            ));
                            assert(s.hooks@.map_values(
                                |h: crate::config::StopHook| h.command@,
                            ).len() == s.hooks@.len());
                            assert forall|k: int|
                                0 <= k < s.hooks@.len() implies stop_job_matches(
                                #[trigger] stop_jobs@[k],
                                s.hooks@.map_values(|h: crate::config::StopHook| h.command@)[k],
                            ) by {
                                assert(s.hooks@.map_values(
                                    |h: crate::config::StopHook| h.command@,
                                )[k] == s.hooks@[k].command@);
                            }
                        }
                    }
                },
            }
            i = i + 1;
        }
        proof {
            assert(fs.skip(i as int) =~= Seq::<FilterKind>::empty());
        }
        ChainOutcome::Allow { ext_jobs, stop_jobs }
    }
}

impl ChainOutcome {
    /// The final decision, given the captured outputs of the extension jobs
    /// (one per job, in order): a block stays a block; an allow carries the
    /// aggregated outputs as advisory context when there are any.
    pub fn into_decision(self, ext_outputs: &Vec<String>) -> (r: Decision)
        requires
            self matches ChainOutcome::Allow { ext_jobs, .. } ==> ext_outputs@.len()
                == ext_jobs@.len(),
        ensures
            self matches ChainOutcome::Block { message } ==> r == (Decision::Block { message }),
            self matches ChainOutcome::Allow { ext_jobs, stop_jobs } ==> ({
                let es = entries(ext_jobs@, str_views(ext_outputs@), 0);
                if es.len() == 0 {
                    r == (Decision::Allow { additional_context: None::<String> })
                } else {
                    r matches Decision::Allow { additional_context: Some(ctx) } && ctx@
                        == join_lines(es)
                }
            }),
    {
        match self {
            ChainOutcome::Block { message } => Decision::Block { message },
            ChainOutcome::Allow { ext_jobs, stop_jobs } => {
                match ExtensionHookFilter::collect_output(&ext_jobs, ext_outputs) {
                    Some(ctx) => Decision::allow_with_context(ctx),
                    None => Decision::allow(),
                }
            },
        }
    }
}

/// A copy of an optional message.
fn clone_opt(m: &Option<String>) -> (r: Option<String>)
    ensures
        r == *m,
{
    match m {
        Some(s) => Some(s.clone()),
        None => None,
    }
}

/// A copy of a list of strings.
fn clone_strings(v: &Vec<String>) -> (r: Vec<String>)
    ensures
        r@ == v@,
{
    let mut r: Vec<String> = Vec::new();
    let mut i: usize = 0;
    while i < v.len()
        invariant
            i <= v@.len(),
            r@ == v@.take(i as int),
        decreases v@.len() - i,
    {
        r.push(v[i].clone());
        i = i + 1;
        proof {
            assert(v@.take(i as int) =~= v@.take(i as int - 1).push(v@[i as int - 1]));
        }
    }
    proof {
        assert(v@.take(v@.len() as int) =~= v@);
    }
    r
}

/// A copy of the extension hook entries.
fn clone_ext_hooks(v: &Vec<crate::config::ExtensionHook>) -> (r: Vec<crate::config::ExtensionHook>)
    ensures
        ext_hook_views(r@) == ext_hook_views(v@),
{
    let mut r: Vec<crate::config::ExtensionHook> = Vec::new();
    let mut i: usize = 0;
    proof {
        assert(ext_hook_views(r@) =~= ext_hook_views(v@.take(0)));
    }
    while i < v.len()
        invariant
            i <= v@.len(),
            ext_hook_views(r@) == ext_hook_views(v@.take(i as int)),
        decreases v@.len() - i,
    {
        let h = &v[i];
        let ghost pre = r@;
        let copy = crate::config::ExtensionHook {
            extension: h.extension.clone(),
            commands: clone_strings(&h.commands),
        };
        r.push(copy);
        i = i + 1;
        proof {
            assert(ext_hook_views(pre).len() == pre.len());
            assert(ext_hook_views(v@.take(i as int - 1)).len() == i as int - 1);
            assert(pre.len() == i as int - 1);
            assert(r@.len() == i as int);
            assert forall|j: int| 0 <= j < r@.len() implies #[trigger] ext_hook_views(r@)[j]
                == ext_hook_views(v@.take(i as int))[j] by {
                if j < pre.len() {
                    assert(r@[j] == pre[j]);
                    assert(ext_hook_views(pre)[j] == ext_hook_views(v@.take(i as int - 1))[j]);
                    assert(v@.take(i as int - 1)[j] == v@[j]);
                    assert(v@.take(i as int)[j] == v@[j]);
                } else {
                    assert(r@[j].extension@ == v@[i as int - 1].extension@);
                    assert(str_views(r@[j].commands@) == str_views(v@[i as int - 1].commands@));
                    assert(v@.take(i as int)[j] == v@[i as int - 1]);
                }
            }
            assert(ext_hook_views(r@) =~= ext_hook_views(v@.take(i as int)));
        }
    }
    proof {
        assert(ext_hook_views(v@.take(v@.len() as int)) =~= ext_hook_views(v@));
    }
    r
}

/// A copy of the session-end hook entries.
fn clone_stop_hooks(v: &Vec<crate::config::StopHook>) -> (r: Vec<crate::config::StopHook>)
    ensures
        r@ == v@,
{
    let mut r: Vec<crate::config::StopHook> = Vec::new();
    let mut i: usize = 0;
    while i < v.len()
        invariant
            i <= v@.len(),
            r@ == v@.take(i as int),
        decreases v@.len() - i,
    {
        r.push(crate::config::StopHook { command: v[i].command.clone() });
        i = i + 1;
        proof {
            assert(v@.take(i as int) =~= v@.take(i as int - 1).push(v@[i as int - 1]));
            assert(r@ =~= v@.take(i as int));
        }
    }
    proof {
        assert(v@.take(v@.len() as int) =~= v@);
    }
    r
}

} // verus!
