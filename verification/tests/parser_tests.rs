//! Tests for the shell command extractor.

use claw_hooks::ShellParser;

#[test]
fn test_extract_simple_command() {
    let parser = ShellParser::new();
    let commands = parser.extract_commands("ls -la");
    assert!(commands.contains(&"ls".to_string()));
}

#[test]
fn test_extract_piped_commands() {
    let parser = ShellParser::new();
    let commands = parser.extract_commands("cat file.txt | grep error | wc -l");
    assert!(commands.contains(&"cat".to_string()));
    assert!(commands.contains(&"grep".to_string()));
    assert!(commands.contains(&"wc".to_string()));
}

#[test]
fn test_extract_logical_ops() {
    let parser = ShellParser::new();
    let commands = parser.extract_commands("mkdir -p dir && cd dir && ls");
    assert!(commands.contains(&"mkdir".to_string()));
    assert!(commands.contains(&"cd".to_string()));
    assert!(commands.contains(&"ls".to_string()));
}

#[test]
fn test_extract_semicolon() {
    let parser = ShellParser::new();
    let commands = parser.extract_commands("echo hello; echo world");
    assert!(commands.iter().filter(|c| *c == "echo").count() >= 1);
    assert!(commands.contains(&"echo".to_string()));
}

#[test]
fn test_extract_command_with_args() {
    let parser = ShellParser::new();
    let (cmd, args) = parser.extract_command_with_args("git commit -m \"Hello world\"");
    assert_eq!(cmd, "git");
    assert_eq!(args, vec!["commit", "-m", "Hello world"]);
}

#[test]
fn test_extract_command_with_single_quotes() {
    let parser = ShellParser::new();
    let (cmd, args) = parser.extract_command_with_args("echo 'hello world'");
    assert_eq!(cmd, "echo");
    assert_eq!(args, vec!["hello world"]);
}

#[test]
fn test_extract_sudo_wrapper() {
    let parser = ShellParser::new();
    let commands = parser.extract_commands("sudo rm -rf /tmp/test");
    assert!(commands.contains(&"sudo".to_string()));
    assert!(commands.contains(&"rm".to_string()));
}

#[test]
fn test_extract_sudo_with_flags() {
    let parser = ShellParser::new();
    let commands = parser.extract_commands("sudo -u root rm -rf /tmp/test");
    assert!(commands.contains(&"rm".to_string()));
}

#[test]
fn test_extract_env_wrapper() {
    let parser = ShellParser::new();
    let commands = parser.extract_commands("env PATH=/usr/bin rm file.txt");
    assert!(commands.contains(&"env".to_string()));
    assert!(commands.contains(&"rm".to_string()));
}

#[test]
fn test_extract_bash_c_subshell() {
    let parser = ShellParser::new();
    let commands = parser.extract_commands("bash -c 'rm -rf /tmp/test'");
    assert!(commands.contains(&"bash".to_string()));
    assert!(commands.contains(&"rm".to_string()));
}

#[test]
fn test_extract_sh_c_subshell() {
    let parser = ShellParser::new();
    let commands = parser.extract_commands("sh -c \"kill -9 1234\"");
    assert!(commands.contains(&"sh".to_string()));
    assert!(commands.contains(&"kill".to_string()));
}

#[test]
fn test_extract_xargs_command() {
    let parser = ShellParser::new();
    let commands = parser.extract_commands("find . -name '*.tmp' | xargs rm");
    assert!(commands.contains(&"find".to_string()));
    assert!(commands.contains(&"xargs".to_string()));
    assert!(commands.contains(&"rm".to_string()));
}

#[test]
fn test_extract_xargs_with_flags() {
    let parser = ShellParser::new();
    let commands = parser.extract_commands("pgrep node | xargs -r kill -9");
    assert!(commands.contains(&"xargs".to_string()));
    assert!(commands.contains(&"kill".to_string()));
}

#[test]
fn test_extract_nested_wrappers() {
    let parser = ShellParser::new();
    let commands = parser.extract_commands("sudo bash -c 'rm -rf /'");
    assert!(commands.contains(&"sudo".to_string()));
    assert!(commands.contains(&"bash".to_string()));
    assert!(commands.contains(&"rm".to_string()));
}

#[test]
fn test_extract_nohup_wrapper() {
    let parser = ShellParser::new();
    let commands = parser.extract_commands("nohup kill -9 1234 &");
    assert!(commands.contains(&"nohup".to_string()));
    assert!(commands.contains(&"kill".to_string()));
}

#[test]
fn test_extract_semicolon_with_yarn() {
    let parser = ShellParser::new();
    let commands = parser.extract_commands("echo \"install\"; yarn install");
    assert!(commands.contains(&"echo".to_string()));
    assert!(commands.contains(&"yarn".to_string()));
}

#[test]
fn test_extract_semicolon_with_pnpm() {
    let parser = ShellParser::new();
    let commands = parser.extract_commands("echo \"not yarn install\"; pnpm install");
    assert!(commands.contains(&"echo".to_string()));
    assert!(commands.contains(&"pnpm".to_string()));
    assert!(!commands.contains(&"yarn".to_string()));
}

#[test]
fn test_extract_commands_in_quotes_not_executed() {
    let parser = ShellParser::new();
    let commands = parser.extract_commands("echo 'rm -rf /'");
    assert!(commands.contains(&"echo".to_string()));
    assert!(!commands.contains(&"rm".to_string()));
}

#[test]
fn test_extract_command_substitution() {
    let parser = ShellParser::new();
    let commands = parser.extract_commands("echo $(yarn --version)");
    assert!(commands.contains(&"echo".to_string()));
    assert!(
        commands.contains(&"yarn".to_string()),
        "yarn should be extracted from command substitution: {:?}",
        commands
    );
}

#[test]
fn test_extract_command_substitution_backticks() {
    let parser = ShellParser::new();
    let commands = parser.extract_commands("echo `yarn --version`");
    assert!(commands.contains(&"echo".to_string()));
    assert!(
        commands.contains(&"yarn".to_string()),
        "yarn should be extracted from backtick command substitution: {:?}",
        commands
    );
}

#[test]
fn test_extract_subshell() {
    let parser = ShellParser::new();
    let commands = parser.extract_commands("(cd project && yarn install)");
    assert!(commands.contains(&"cd".to_string()));
    assert!(commands.contains(&"yarn".to_string()));
}

#[test]
fn test_extract_no_duplicates() {
    let parser = ShellParser::new();
    let commands = parser.extract_commands("echo a; echo b; echo c | echo d");
    assert_eq!(commands.iter().filter(|c| *c == "echo").count(), 1);
    let again = parser.extract_commands("echo a; echo b; echo c | echo d");
    assert_eq!(commands, again);
}

#[test]
fn test_parse_shell_tokens_quoting() {
    let tokens = claw_hooks::parse_shell_tokens("echo 'hello world'");
    assert_eq!(tokens, vec!["echo", "hello world"]);
    let tokens = claw_hooks::parse_shell_tokens("a\\ b \"c d\" e");
    assert_eq!(tokens, vec!["a b", "c d", "e"]);
}

#[test]
fn test_extract_empty_command_line() {
    let parser = ShellParser::new();
    assert!(parser.extract_commands("").is_empty());
    assert!(parser.extract_commands("   ").is_empty());
    let (cmd, args) = parser.extract_command_with_args("");
    assert_eq!(cmd, "");
    assert!(args.is_empty());
}

#[test]
fn test_unterminated_quote_is_best_effort() {
    let tokens = claw_hooks::parse_shell_tokens("echo 'abc");
    assert_eq!(tokens, vec!["echo", "abc"]);
    let parser = ShellParser::new();
    let commands = parser.extract_commands("echo 'rm -rf");
    assert!(commands.contains(&"echo".to_string()));
    assert!(!commands.contains(&"rm".to_string()));
}

#[test]
fn test_quoted_head_token_is_still_the_command() {
    // quote-stripping applies at the command position too: a quoted head
    // is an invocation, only quoted arguments are not
    let parser = ShellParser::new();
    let commands = parser.extract_commands("'rm' -rf /");
    assert!(commands.contains(&"rm".to_string()));
}

#[test]
fn test_extraction_order_is_script_order() {
    // names revealed by substitutions appear at their script position
    let parser = ShellParser::new();
    let commands = parser.extract_commands("a `b`;c");
    assert_eq!(commands, vec!["a", "b", "c"]);
    let commands = parser.extract_commands("echo $(yarn --version); rm x");
    assert_eq!(commands, vec!["echo", "yarn", "rm"]);
}

#[test]
fn test_separator_inside_substitution_does_not_split() {
    let parser = ShellParser::new();
    let commands = parser.extract_commands("echo $(a; b) tail");
    assert!(commands.contains(&"echo".to_string()));
    assert!(commands.contains(&"a".to_string()));
    assert!(commands.contains(&"b".to_string()));
}
