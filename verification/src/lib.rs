mod adapter;
mod chain;
mod config;
mod custom_filter;
mod dd_filter;
mod extension_filter;
mod hook_service;
mod kill_filter;
mod laws;
mod parser;
mod pattern;
mod rm_filter;
mod stop_filter;
mod textutil;
mod types;

pub use adapter::Format;
pub use adapter::FormatAdapter;
pub use chain::ChainOutcome;
pub use chain::FilterChain;
pub use chain::FilterKind;
pub use config::Config;
pub use config::ConfigService;
pub use config::CustomFilter;
pub use config::ExtensionHook;
pub use config::StopHook;
pub use config::validate;
pub use custom_filter::CustomCommandFilter;
pub use dd_filter::DdFilter;
pub use extension_filter::parse_command_template;
pub use extension_filter::validate_file_path;
pub use extension_filter::ExtensionHookFilter;
pub use extension_filter::ParsedCommand;
pub use extension_filter::PlannedJob;
pub use hook_service::HookService;
pub use kill_filter::KillFilter;
pub use parser::ShellParser;
pub use rm_filter::RmFilter;
pub use stop_filter::StopHookFilter;
pub use textutil::parse_shell_tokens;
pub use types::BashInput;
pub use types::Decision;
pub use types::FileOperationInput;
pub use types::HookInput;
pub use types::HookOutput;
pub use types::HookSpecificOutput;
pub use types::StopInput;
pub use types::ToolInput;
