//! Configuration data: enable flags and messages for the built-in filters,
//! custom filter entries, extension hook mappings and session-end hooks.

use vstd::prelude::*;

use crate::pattern::regex_compile;
use crate::pattern::regex_valid;
use crate::textutil::contains_sub;
use crate::textutil::contains_sub_chars;
use crate::textutil::str_to_chars;
use crate::textutil::usize_to_string;

verus! {

/// Main configuration.
pub struct Config {
    /// Enable blocking of destructive-delete commands.
    pub rm_block: bool,
    /// Custom message for delete blocking.
    pub rm_block_message: Option<String>,
    /// Enable blocking of process-kill commands.
    pub kill_block: bool,
    /// Custom message for kill blocking.
    pub kill_block_message: Option<String>,
    /// Enable blocking of the disk-dump command.
    pub dd_block: bool,
    /// Custom message for disk-dump blocking.
    pub dd_block_message: Option<String>,
    /// Enable debug logging.
    pub debug: bool,
    /// Log directory path; empty when not configured.
    pub log_path: String,
    /// Custom command filters.
    pub custom_filters: Vec<CustomFilter>,
    /// Extension hooks, in configured order; extensions include the dot.
    pub extension_hooks: Vec<ExtensionHook>,
    /// Session-end hooks.
    pub stop_hooks: Vec<StopHook>,
}

/// One custom command filter entry.  With an empty `args` list the `command`
/// field is a pattern tested against each command text; with arguments it
/// must match the head token exactly and one argument the first argument.
pub struct CustomFilter {
    /// Pattern, or exact command name in argument mode.
    pub command: String,
    /// Argument values; empty selects pattern mode.
    pub args: Vec<String>,
    /// Message shown when the filter blocks.
    pub message: String,
}

/// One extension hook entry: commands to run when a file with the extension
/// is written.
pub struct ExtensionHook {
    /// The file extension, with its leading dot.
    pub extension: String,
    /// Command templates, each holding a `{file}` placeholder.
    pub commands: Vec<String>,
}

/// One session-end hook entry.
pub struct StopHook {
    /// The command to run when the session ends.
    pub command: String,
}

impl Default for Config {
    /// The default configuration: the three built-in filters enabled with
    /// their default messages, no custom filters and no hooks.
    fn default() -> (r: Config)
        ensures
            r.rm_block && r.kill_block && r.dd_block,
            r.rm_block_message is None,
            r.kill_block_message is None,
            r.dd_block_message is None,
            !r.debug,
            r.log_path@ == Seq::<char>::empty(),
            r.custom_filters@.len() == 0,
            r.extension_hooks@.len() == 0,
            r.stop_hooks@.len() == 0,
    {
        Config {
            rm_block: true,
            rm_block_message: None,
            kill_block: true,
            kill_block_message: None,
            dd_block: true,
            dd_block_message: None,
            debug: false,
            log_path: String::new(),
            custom_filters: Vec::new(),
            extension_hooks: Vec::new(),
            stop_hooks: Vec::new(),
        }
    }
}

/// A valid custom filter entry: non-empty command that compiles as a
/// pattern, non-empty message.
pub open spec fn custom_filter_ok(f: CustomFilter) -> bool {
    f.command@.len() > 0 && regex_valid(f.command@) && f.message@.len() > 0
}

/// A valid extension hook entry: dotted extension, at least one command,
/// each non-empty and holding the `{file}` placeholder.
pub open spec fn ext_hook_ok(h: ExtensionHook) -> bool {
    h.extension@.len() > 0 && h.extension@[0] == '.' && h.commands@.len() > 0 && forall|j: int|
        0 <= j < h.commands@.len() ==> h.commands@[j]@.len() > 0 && contains_sub(
            #[trigger] h.commands@[j]@,
            "{file}"@,
        )
}

/// A valid session-end hook entry: non-empty command.
pub open spec fn stop_hook_ok(h: StopHook) -> bool {
    h.command@.len() > 0
}

/// A valid configuration.
pub open spec fn config_valid(c: Config) -> bool {
    &&& !c.log_path@.contains('\0')
    &&& forall|i: int| 0 <= i < c.custom_filters@.len() ==> custom_filter_ok(
        #[trigger] c.custom_filters@[i],
    )
    &&& forall|i: int| 0 <= i < c.extension_hooks@.len() ==> ext_hook_ok(
        #[trigger] c.extension_hooks@[i],
    )
    &&& forall|i: int| 0 <= i < c.stop_hooks@.len() ==> stop_hook_ok(#[trigger] c.stop_hooks@[i])
}

/// Validate a configuration: accepts exactly the valid ones, and names the
/// first violation otherwise.
pub fn validate(config: &Config) -> (r: Result<(), String>)
    ensures
        r is Ok <==> config_valid(*config),
        r matches Err(m) ==> m@.len() > 0,
{
    let log_chars = str_to_chars(config.log_path.as_str());
    if crate::textutil::contains_char(&log_chars, '\0') {
        let m = String::from_str("Invalid log_path: contains null character");
        proof {
            reveal_strlit("Invalid log_path: contains null character");
            assert(m@.len() > 0);
        }
        return Err(m);
    }
    let placeholder = str_to_chars("{file}");
    proof {
        reveal_strlit("{file}");
    }
    let mut i: usize = 0;
    while i < config.custom_filters.len()
        invariant
            i <= config.custom_filters@.len(),
            forall|k: int| 0 <= k < i ==> custom_filter_ok(#[trigger] config.custom_filters@[k]),
        decreases config.custom_filters@.len() - i,
    {
        let f = &config.custom_filters[i];
        if f.command.as_str().unicode_len() == 0 {
            let mut m = String::from_str("custom_filters[");
            m.append(usize_to_string(i).as_str());
            m.append("]: command cannot be empty");
            proof {
                reveal_strlit("custom_filters[");
                assert(m@.len() > 0);
            }
            return Err(m);
        }
        if regex_compile(f.command.as_str()).is_none() {
            let mut m = String::from_str("custom_filters[");
            m.append(usize_to_string(i).as_str());
            m.append("]: invalid regex pattern '");
            m.append(f.command.as_str());
            m.append("'");
            proof {
                reveal_strlit("custom_filters[");
                assert(m@.len() > 0);
            }
            return Err(m);
        }
        if f.message.as_str().unicode_len() == 0 {
            let mut m = String::from_str("custom_filters[");
            m.append(usize_to_string(i).as_str());
            m.append("]: message cannot be empty");
            proof {
                reveal_strlit("custom_filters[");
                assert(m@.len() > 0);
            }
            return Err(m);
        }
        i = i + 1;
    }
    let mut i: usize = 0;
    while i < config.extension_hooks.len()
        invariant
            i <= config.extension_hooks@.len(),
            placeholder@ == "{file}"@,
            forall|k: int| 0 <= k < i ==> ext_hook_ok(#[trigger] config.extension_hooks@[k]),
        decreases config.extension_hooks@.len() - i,
    {
        let h = &config.extension_hooks[i];
        let ext_chars = str_to_chars(h.extension.as_str());
        if ext_chars.len() == 0 || ext_chars[0] != '.' {
            let mut m = String::from_str("extension_hooks: key '");
            m.append(h.extension.as_str());
            m.append("' must start with '.'");
            proof {
                reveal_strlit("extension_hooks: key '");
                assert(m@.len() > 0);
            }
            return Err(m);
        }
        if h.commands.len() == 0 {
            let mut m = String::from_str("extension_hooks['");
            m.append(h.extension.as_str());
            m.append("']: commands cannot be empty");
            proof {
                reveal_strlit("extension_hooks['");
                assert(m@.len() > 0);
            }
            return Err(m);
        }
        let mut j: usize = 0;
        while j < h.commands.len()
            invariant
                j <= h.commands@.len(),
                i < config.extension_hooks@.len(),
                *h == config.extension_hooks@[i as int],
                placeholder@ == "{file}"@,
                forall|k: int| 0 <= k < j ==> h.commands@[k]@.len() > 0 && contains_sub(
                    #[trigger] h.commands@[k]@,
                    "{file}"@,
                ),
            decreases h.commands@.len() - j,
        {
            let cmd_chars = str_to_chars(h.commands[j].as_str());
            if cmd_chars.len() == 0 {
                let mut m = String::from_str("extension_hooks['");
                m.append(h.extension.as_str());
                m.append("']: command[");
                m.append(usize_to_string(j).as_str());
                m.append("] cannot be empty");
                proof {
                    reveal_strlit("extension_hooks['");
                    assert(m@.len() > 0);
                    assert(h.commands@[j as int]@.len() == 0);
                    assert(!ext_hook_ok(config.extension_hooks@[i as int]));
                }
                return Err(m);
            }
            if !contains_sub_chars(&cmd_chars, &placeholder) {
                let mut m = String::from_str("extension_hooks['");
                m.append(h.extension.as_str());
                m.append("']: command[");
                m.append(usize_to_string(j).as_str());
                m.append("] must contain the {file} placeholder");
                proof {
                    reveal_strlit("extension_hooks['");
                    assert(m@.len() > 0);
                    assert(!contains_sub(h.commands@[j as int]@, "{file}"@));
                    assert(!ext_hook_ok(config.extension_hooks@[i as int]));
                }
                return Err(m);
            }
            j = j + 1;
        }
        i = i + 1;
    }
    let mut i: usize = 0;
    while i < config.stop_hooks.len()
        invariant
            i <= config.stop_hooks@.len(),
            forall|k: int| 0 <= k < i ==> stop_hook_ok(#[trigger] config.stop_hooks@[k]),
        decreases config.stop_hooks@.len() - i,
    {
        if config.stop_hooks[i].command.as_str().unicode_len() == 0 {
            let mut m = String::from_str("stop_hooks[");
            m.append(usize_to_string(i).as_str());
            m.append("]: command cannot be empty");
            proof {
                reveal_strlit("stop_hooks[");
                assert(m@.len() > 0);
            }
            return Err(m);
        }
        i = i + 1;
    }
    Ok(())
}

impl Config {
    /// Validate this configuration.
    pub fn validate(&self) -> (r: Result<(), String>)
        ensures
            r is Ok <==> config_valid(*self),
            r matches Err(m) ==> m@.len() > 0,
    {
        validate(self)
    }
}

/// The configuration file generator.
pub struct ConfigService {}

impl ConfigService {
    /// The text of the default configuration file.
    pub open spec fn default_config_text() -> Seq<char> {
        "# Configuration for the hook filter.\n\n# Block rm/rmdir/del/erase commands (default: true).\nrm_block = true\n# rm_block_message = \"Removal blocked; delete files through a reviewed path.\"\n\n# Block kill/pkill/killall/taskkill commands (default: true).\nkill_block = true\n# kill_block_message = \"Process kill blocked; stop processes through a reviewed path.\"\n\n# Block the dd command (default: true).\ndd_block = true\n# dd_block_message = \"dd blocked; use cp or rsync for file copies.\"\n\n# Write debug logs (default: false).\ndebug = false\n\n# Directory for log files (default: next to this file).\n# log_path = \"logs\"\n\n# Custom command filters.\n# [[custom_filters]]\n# command = \"yarn\"\n# message = \"Use pnpm instead of yarn\"\n\n# Commands to run when files with an extension are written.\n# [extension_hooks]\n# \".rs\" = [\"rustfmt {file}\"]\n# \".py\" = [\"ruff format {file}\", \"ruff check --fix {file}\"]\n\n# Commands to run when the session ends.\n# [[stop_hooks]]\n# command = \"notify-send 'Agent finished'\"\n"@
    }

    /// The default configuration file contents.
    pub fn default_config_content() -> (r: String)
        ensures
            r@ == Self::default_config_text(),
    {
        String::from_str(
            "# Configuration for the hook filter.\n\n# Block rm/rmdir/del/erase commands (default: true).\nrm_block = true\n# rm_block_message = \"Removal blocked; delete files through a reviewed path.\"\n\n# Block kill/pkill/killall/taskkill commands (default: true).\nkill_block = true\n# kill_block_message = \"Process kill blocked; stop processes through a reviewed path.\"\n\n# Block the dd command (default: true).\ndd_block = true\n# dd_block_message = \"dd blocked; use cp or rsync for file copies.\"\n\n# Write debug logs (default: false).\ndebug = false\n\n# Directory for log files (default: next to this file).\n# log_path = \"logs\"\n\n# Custom command filters.\n# [[custom_filters]]\n# command = \"yarn\"\n# message = \"Use pnpm instead of yarn\"\n\n# Commands to run when files with an extension are written.\n# [extension_hooks]\n# \".rs\" = [\"rustfmt {file}\"]\n# \".py\" = [\"ruff format {file}\", \"ruff check --fix {file}\"]\n\n# Commands to run when the session ends.\n# [[stop_hooks]]\n# command = \"notify-send 'Agent finished'\"\n",
        )
    }
}

} // verus!
