//! The extension hook filter: plans side-effect commands for file writes.
//!
//! The filter itself never spawns anything.  It validates the file path,
//! parses each configured command template, and produces planned jobs; the
//! caller runs them and hands the captured outputs back to
//! `collect_output`, which aggregates them into advisory context.

use vstd::prelude::*;

use crate::config::ExtensionHook;
use crate::textutil::chars_eq_str;
use crate::textutil::chars_to_string;
use crate::textutil::contains_char;
use crate::textutil::contains_sub;
use crate::textutil::contains_sub_chars;
use crate::textutil::replace_chars;
use crate::textutil::replace_sub;
use crate::textutil::str_eq;
use crate::textutil::str_to_chars;
use crate::textutil::str_views;
use crate::textutil::sub_chars;
use crate::textutil::tokenize;
use crate::textutil::tokenize_chars;
use crate::textutil::toks_to_strings;
use crate::textutil::views;
use crate::types::HookInput;
use crate::types::ToolInput;

verus! {

// ---------------------------------------------------------------------------
// File extensions.
// ---------------------------------------------------------------------------
/// The suffix of `s` strictly after the last occurrence of `c`; `s` itself
/// when `c` does not occur.
pub open spec fn after_last(s: Seq<char>, c: char) -> Seq<char>
    decreases s.len(),
{
    if s.len() == 0 {
        s
    } else if s[s.len() - 1] == c {
        Seq::empty()
    } else {
        after_last(s.take(s.len() - 1), c).push(s[s.len() - 1])
    }
}

proof fn lemma_after_last(s: Seq<char>, c: char, start: int)
    requires
        0 <= start <= s.len(),
        start == 0 || s[start - 1] == c,
        !s.skip(start).contains(c),
    ensures
        after_last(s, c) == s.skip(start),
    decreases s.len(),
{
    if s.len() == 0 {
        assert(s.skip(0) =~= s);
    } else if s[s.len() - 1] == c {
        if start < s.len() {
            assert(s.skip(start)[s.len() - 1 - start] == c);
        }
        assert(s.skip(start) =~= Seq::<char>::empty());
    } else {
        assert(start < s.len()) by {
            if start == s.len() {
                assert(s[start - 1] == c);
            }
        }
        let t = s.take(s.len() - 1);
        assert(!t.skip(start).contains(c)) by {
            if t.skip(start).contains(c) {
                let i = choose|i: int| 0 <= i < t.skip(start).len() && t.skip(start)[i] == c;
                assert(s.skip(start)[i] == c);
            }
        }
        if start > 0 {
            assert(t[start - 1] == c);
        }
        lemma_after_last(t, c, start);
        assert(t.skip(start).push(s[s.len() - 1]) =~= s.skip(start));
    }
}

/// The suffix after the last occurrence of `c`, executably.
pub fn after_last_exec(s: &Vec<char>, c: char) -> (r: Vec<char>)
    ensures
        r@ == after_last(s@, c),
{
    let mut j: usize = s.len();
    proof {
        assert(s@.skip(s@.len() as int) =~= Seq::<char>::empty());
    }
    while j > 0 && s[j - 1] != c
        invariant
            j <= s@.len(),
            !s@.skip(j as int).contains(c),
        decreases j,
    {
        proof {
            assert forall|k: int| 0 <= k < s@.skip(j as int - 1).len() implies #[trigger] s@.skip(
                j as int - 1,
            )[k] != c by {
                if k == 0 {
                    assert(s@.skip(j as int - 1)[0] == s@[j as int - 1]);
                } else {
                    assert(s@.skip(j as int - 1)[k] == s@.skip(j as int)[k - 1]);
                }
            }
        }
        j = j - 1;
    }
    proof {
        lemma_after_last(s@, c, j as int);
    }
    sub_chars(s, j, s.len())
}

/// The extension of a file path, without its dot: the part of the final
/// path component after its last dot, none when the component has no dot
/// past its first character.
pub open spec fn ext_of(path: Seq<char>) -> Option<Seq<char>> {
    let name = after_last(path, '/');
    if name.len() > 0 && name.skip(1).contains('.') {
        Some(after_last(name, '.'))
    } else {
        None
    }
}

/// The extension of a file path, executably.
pub fn ext_of_exec(path: &Vec<char>) -> (r: Option<Vec<char>>)
    ensures
        match r {
            Some(e) => ext_of(path@) == Some(e@),
            None => ext_of(path@) is None,
        },
{
    let name = after_last_exec(path, '/');
    if name.len() == 0 {
        return None;
    }
    let rest = sub_chars(&name, 1, name.len());
    proof {
        assert(rest@ =~= name@.skip(1));
    }
    if !contains_char(&rest, '.') {
        return None;
    }
    Some(after_last_exec(&name, '.'))
}

// ---------------------------------------------------------------------------
// Path validation.
// ---------------------------------------------------------------------------
/// Whether the path holds a character that could be interpreted by a shell
/// or tool.
pub open spec fn has_dangerous_char(p: Seq<char>) -> bool {
    p.contains('`') || p.contains('$') || p.contains('|') || p.contains('&') || p.contains(';')
        || p.contains('\n') || p.contains('\r') || p.contains('\0')
}

/// A path that is safe to hand to a hook command as an argument.
pub open spec fn path_safe(p: Seq<char>) -> bool {
    !contains_sub(p, ".."@) && !(p.len() > 0 && p[0] == '-') && !has_dangerous_char(p)
}

/// Validate a file path before planning hook commands: reject traversal,
/// flag-like paths and control or shell metacharacters.
pub fn validate_file_path(file_path: &str) -> (r: Result<(), String>)
    ensures
        r is Ok <==> path_safe(file_path@),
        contains_sub(file_path@, ".."@) ==> (r matches Err(m) && m@
            == "Path traversal detected"@),
        !contains_sub(file_path@, ".."@) && file_path@.len() > 0 && file_path@[0] == '-' ==> (r
            matches Err(m) && m@ == "Path starting with '-' could be interpreted as flag"@),
        !contains_sub(file_path@, ".."@) && !(file_path@.len() > 0 && file_path@[0] == '-')
            && has_dangerous_char(file_path@) ==> (r matches Err(m) && m@
            == "Path contains a dangerous character"@),
{
    let p = str_to_chars(file_path);
    let dots = str_to_chars("..");
    proof {
        reveal_strlit("..");
    }
    if contains_sub_chars(&p, &dots) {
        let m = String::from_str("Path traversal detected");
        proof {
            reveal_strlit("Path traversal detected");
        }
        return Err(m);
    }
    if p.len() > 0 && p[0] == '-' {
        let m = String::from_str("Path starting with '-' could be interpreted as flag");
        proof {
            reveal_strlit("Path starting with '-' could be interpreted as flag");
        }
        return Err(m);
    }
    if contains_char(&p, '`') || contains_char(&p, '$') || contains_char(&p, '|') || contains_char(
        &p,
        '&',
    ) || contains_char(&p, ';') || contains_char(&p, '\n') || contains_char(&p, '\r')
        || contains_char(&p, '\0') {
        let m = String::from_str("Path contains a dangerous character");
        proof {
            reveal_strlit("Path contains a dangerous character");
        }
        return Err(m);
    }
    Ok(())
}

// ---------------------------------------------------------------------------
// Command templates.
// ---------------------------------------------------------------------------
/// A parsed command template.
pub struct ParsedCommand {
    /// The program to run.
    pub program: String,
    /// Arguments before the `{file}` placeholder.
    pub args_before: Vec<String>,
    /// Arguments after the placeholder.
    pub args_after: Vec<String>,
    /// The token holding an inline placeholder, when the placeholder is not
    /// a token of its own.
    pub inline_template: Option<String>,
}

/// Fold over the argument tokens of a template, classifying each as the
/// standalone placeholder, an inline-placeholder token, or an ordinary
/// argument before or after the placeholder.
pub open spec fn tmpl_fold(
    parts: Seq<Seq<char>>,
    found: bool,
    inline: Option<Seq<char>>,
    before: Seq<Seq<char>>,
    after: Seq<Seq<char>>,
) -> (bool, Option<Seq<char>>, Seq<Seq<char>>, Seq<Seq<char>>)
    decreases parts.len(),
{
    if parts.len() == 0 {
        (found, inline, before, after)
    } else {
        let p = parts[0];
        if p == "{file}"@ {
            tmpl_fold(parts.skip(1), true, inline, before, after)
        } else if contains_sub(p, "{file}"@) {
            tmpl_fold(parts.skip(1), true, Some(p), before, after)
        } else if found {
            tmpl_fold(parts.skip(1), found, inline, before, after.push(p))
        } else {
            tmpl_fold(parts.skip(1), found, inline, before.push(p), after)
        }
    }
}

/// The classification of a whole template's argument tokens.
pub open spec fn tmpl_parts(template: Seq<char>) -> (bool, Option<Seq<char>>, Seq<Seq<char>>, Seq<
    Seq<char>,
>) {
    tmpl_fold(
        tokenize(template).skip(1),
        false,
        None,
        Seq::empty(),
        Seq::empty(),
    )
}

/// Parse a command template.  Fails on an empty template and on one without
/// the `{file}` placeholder; otherwise the head token is the program and the
/// remaining tokens are classified around the placeholder.
pub fn parse_command_template(template: &str) -> (r: Result<ParsedCommand, String>)
    ensures
        tokenize(template@).len() == 0 ==> (r matches Err(m) && m@ == "Empty command template"@),
        tokenize(template@).len() > 0 && !tmpl_parts(template@).0 ==> (r matches Err(m) && m@
            == "Command template must contain {file} placeholder"@),
        tokenize(template@).len() > 0 && tmpl_parts(template@).0 ==> (r matches Ok(pc)
            && pc.program@ == tokenize(template@)[0] && str_views(pc.args_before@) == tmpl_parts(
            template@,
        ).2 && str_views(pc.args_after@) == tmpl_parts(template@).3 && (match (
            pc.inline_template,
            tmpl_parts(template@).1,
        ) {
            (Some(t), Some(ts)) => t@ == ts,
            (None, None) => true,
            _ => false,
        })),
{
    let chars = str_to_chars(template);
    let toks = tokenize_chars(&chars);
    if toks.len() == 0 {
        let m = String::from_str("Empty command template");
        proof {
            reveal_strlit("Empty command template");
        }
        return Err(m);
    }
    let placeholder = str_to_chars("{file}");
    proof {
        reveal_strlit("{file}");
    }
    let ghost parts0 = views(toks@).skip(1);
    let mut found = false;
    let mut inline: Option<Vec<char>> = None;
    let mut before: Vec<Vec<char>> = Vec::new();
    let mut after: Vec<Vec<char>> = Vec::new();
    let mut i: usize = 1;
    proof {
        assert(views(toks@).skip(1) =~= parts0);
        assert(tmpl_parts(template@) == tmpl_fold(
            parts0,
            false,
            None,
            Seq::<Seq<char>>::empty(),
            Seq::<Seq<char>>::empty(),
        ));
        assert(views(before@) =~= Seq::<Seq<char>>::empty());
        assert(views(after@) =~= Seq::<Seq<char>>::empty());
    }
    while i < toks.len()
        invariant
            1 <= i <= toks@.len(),
            placeholder@ == "{file}"@,
            tmpl_parts(template@) == tmpl_fold(
                views(toks@).skip(i as int),
                found,
                match inline {
                    Some(t) => Some(t@),
                    None => None,
                },
                views(before@),
                views(after@),
            ),
            views(toks@) == tokenize(template@),
        decreases toks@.len() - i,
    {
        let ghost parts = views(toks@).skip(i as int);
        proof {
            assert(parts[0] == views(toks@)[i as int]);
            assert(parts.skip(1) =~= views(toks@).skip(i as int + 1));
        }
        let t = &toks[i];
        if chars_eq_str(t, "{file}") {
            found = true;
        } else if contains_sub_chars(t, &placeholder) {
            found = true;
            inline = Some(crate::textutil::copy_chars(t));
        } else if found {
            let ghost oldafter = views(after@);
            after.push(crate::textutil::copy_chars(t));
            proof {
                assert(views(after@) =~= oldafter.push(parts[0]));
            }
        } else {
            let ghost oldbefore = views(before@);
            before.push(crate::textutil::copy_chars(t));
            proof {
                assert(views(before@) =~= oldbefore.push(parts[0]));
            }
        }
        i = i + 1;
    }
    proof {
        assert(views(toks@).skip(i as int) =~= Seq::<Seq<char>>::empty());
    }
    if !found {
        let m = String::from_str("Command template must contain {file} placeholder");
        proof {
            reveal_strlit("Command template must contain {file} placeholder");
        }
        return Err(m);
    }
    let inline_template = match inline {
        Some(t) => Some(chars_to_string(&t)),
        None => None,
    };
    Ok(
        ParsedCommand {
            program: chars_to_string(&toks[0]),
            args_before: toks_to_strings(&before),
            args_after: toks_to_strings(&after),
            inline_template,
        },
    )
}

// ---------------------------------------------------------------------------
// Planned jobs.
// ---------------------------------------------------------------------------
/// One planned side-effect command: either an invocation ready to run, or a
/// record of why the template could not be used.
pub enum PlannedJob {
    /// A program to run, labelled with the template it came from.
    Run {
        /// The template this invocation came from.
        label: String,
        /// The program to run.
        program: String,
        /// Its arguments, the file path already substituted.
        args: Vec<String>,
    },
    /// A template or path that was rejected, with the reason.
    Invalid {
        /// Why nothing will run for this template.
        error: String,
    },
}

/// The argument the placeholder resolves to.
pub open spec fn resolved_file_arg(inline: Option<Seq<char>>, path: Seq<char>) -> Seq<char> {
    match inline {
        Some(t) => replace_sub(t, "{file}"@, path),
        None => path,
    }
}

/// The error text a rejected path yields, mirroring `validate_file_path`.
pub open spec fn path_error_text(p: Seq<char>) -> Seq<char> {
    if contains_sub(p, ".."@) {
        "Path traversal detected"@
    } else if p.len() > 0 && p[0] == '-' {
        "Path starting with '-' could be interpreted as flag"@
    } else {
        "Path contains a dangerous character"@
    }
}

/// What planning one template against one path must yield.
pub open spec fn job_matches(j: PlannedJob, template: Seq<char>, path: Seq<char>) -> bool {
    if !path_safe(path) {
        j matches PlannedJob::Invalid { error } && error@ == path_error_text(path)
    } else if tokenize(template).len() == 0 {
        j matches PlannedJob::Invalid { error } && error@ == "Empty command template"@
    } else if !tmpl_parts(template).0 {
        j matches PlannedJob::Invalid { error } && error@
            == "Command template must contain {file} placeholder"@
    } else {
        j matches PlannedJob::Run { label, program, args } && label@ == template && program@
            == tokenize(template)[0] && str_views(args@) == tmpl_parts(template).2 + seq![
            resolved_file_arg(tmpl_parts(template).1, path),
        ] + tmpl_parts(template).3
    }
}

/// Plan one template: validate the path, parse the template, substitute the
/// placeholder.
pub fn plan_command(template: &str, file_path: &str) -> (r: PlannedJob)
    ensures
        job_matches(r, template@, file_path@),
{
    match validate_file_path(file_path) {
        Err(e) => {
            return PlannedJob::Invalid { error: e };
        },
        Ok(()) => {},
    }
    let parsed = match parse_command_template(template) {
        Err(e) => {
            return PlannedJob::Invalid { error: e };
        },
        Ok(p) => p,
    };
    let file_arg: String = match &parsed.inline_template {
        Some(t) => {
            let tc = str_to_chars(t.as_str());
            let needle = str_to_chars("{file}");
            let pathc = str_to_chars(file_path);
            proof {
                reveal_strlit("{file}");
            }
            chars_to_string(&replace_chars(&tc, &needle, &pathc))
        },
        None => {
            let mut s = String::new();
            s.append(file_path);
            s
        },
    };
    let mut args: Vec<String> = Vec::new();
    let ghost bparts = tmpl_parts(template@).2;
    let ghost aparts = tmpl_parts(template@).3;
    let mut i: usize = 0;
    while i < parsed.args_before.len()
        invariant
            i <= parsed.args_before@.len(),
            str_views(args@) == str_views(parsed.args_before@).take(i as int),
        decreases parsed.args_before@.len() - i,
    {
        let ghost olda = str_views(args@);
        args.push(parsed.args_before[i].clone());
        i = i + 1;
        proof {
            assert(str_views(args@) =~= olda.push(str_views(parsed.args_before@)[i as int - 1]));
            assert(str_views(args@) =~= str_views(parsed.args_before@).take(i as int));
        }
    }
    proof {
        assert(str_views(parsed.args_before@).take(parsed.args_before@.len() as int) =~= str_views(
            parsed.args_before@,
        ));
    }
    let ghost with_file = str_views(args@).push(file_arg@);
    args.push(file_arg);
    proof {
        assert(str_views(args@) =~= with_file);
    }
    let mut i: usize = 0;
    let ghost base = str_views(args@);
    while i < parsed.args_after.len()
        invariant
            i <= parsed.args_after@.len(),
            str_views(args@) == base + str_views(parsed.args_after@).take(i as int),
        decreases parsed.args_after@.len() - i,
    {
        let ghost olda = str_views(args@);
        args.push(parsed.args_after[i].clone());
        i = i + 1;
        proof {
            assert(str_views(args@) =~= olda.push(str_views(parsed.args_after@)[i as int - 1]));
            assert(str_views(args@) =~= base + str_views(parsed.args_after@).take(i as int));
        }
    }
    proof {
        assert(str_views(parsed.args_after@).take(parsed.args_after@.len() as int) =~= str_views(
            parsed.args_after@,
        ));
        assert(str_views(args@) =~= bparts + seq![
            resolved_file_arg(tmpl_parts(template@).1, file_path@),
        ] + aparts);
    }
    let mut label = String::new();
    label.append(template);
    PlannedJob::Run { label, program: parsed.program, args }
}

// ---------------------------------------------------------------------------
// Aggregated output.
// ---------------------------------------------------------------------------
/// The aggregation entry one job contributes: a rejected template always
/// contributes its error; a run contributes its labelled output when that
/// output is non-empty.
pub open spec fn entry_for(j: PlannedJob, out: Seq<char>) -> Option<Seq<char>> {
    match j {
        PlannedJob::Invalid { error } => Some("[ERROR] "@ + error@),
        PlannedJob::Run { label, program, args } => if out.len() > 0 {
            Some("["@ + label@ + "] "@ + out)
        } else {
            None
        },
    }
}

/// All entries of a job list with its outputs, in order.
pub open spec fn entries(jobs: Seq<PlannedJob>, outs: Seq<Seq<char>>, i: int) -> Seq<Seq<char>>
    decreases jobs.len() - i,
{
    if i < 0 || i >= jobs.len() || outs.len() != jobs.len() {
        Seq::empty()
    } else {
        (match entry_for(jobs[i], outs[i]) {
            Some(e) => seq![e],
            None => Seq::<Seq<char>>::empty(),
        }) + entries(jobs, outs, i + 1)
    }
}

/// Lines joined with newlines.
pub open spec fn join_lines(ls: Seq<Seq<char>>) -> Seq<char> {
    crate::textutil::join_sep(ls, '\n')
}

/// Filter that plans side-effect commands when files with a configured
/// extension are written.
pub struct ExtensionHookFilter {
    /// Extension hook entries, in configured order.
    pub hooks: Vec<ExtensionHook>,
}

/// First-match lookup of an extension key among the hook entries.
pub open spec fn hook_lookup(hooks: Seq<ExtensionHook>, key: Seq<char>) -> Option<Seq<Seq<char>>>
    decreases hooks.len(),
{
    if hooks.len() == 0 {
        None
    } else if hooks[0].extension@ == key {
        Some(str_views(hooks[0].commands@))
    } else {
        hook_lookup(hooks.skip(1), key)
    }
}

/// The dotted-extension key of a file path, if it has an extension.
pub open spec fn ext_key(path: Seq<char>) -> Option<Seq<char>> {
    match ext_of(path) {
        Some(e) => Some(seq!['.'] + e),
        None => None,
    }
}

/// The configured commands for a file path, if its extension has a mapping.
pub open spec fn matching_commands(hooks: Seq<ExtensionHook>, path: Seq<char>) -> Option<
    Seq<Seq<char>>,
> {
    match ext_key(path) {
        Some(k) => hook_lookup(hooks, k),
        None => None,
    }
}

impl ExtensionHookFilter {
    /// A filter over the given extension hook entries.
    pub fn new(hooks: Vec<ExtensionHook>) -> (r: ExtensionHookFilter)
        ensures
            r.hooks == hooks,
    {
        ExtensionHookFilter { hooks }
    }

    /// The configured command templates for this file path, if any.
    pub fn get_matching_commands(&self, file_path: &str) -> (r: Option<Vec<String>>)
        ensures
            match r {
                Some(cmds) => matching_commands(self.hooks@, file_path@) == Some(
                    str_views(cmds@),
                ),
                None => matching_commands(self.hooks@, file_path@) is None,
            },
    {
        let pathc = str_to_chars(file_path);
        let ext = match ext_of_exec(&pathc) {
            Some(e) => e,
            None => {
                return None;
            },
        };
        let mut key: Vec<char> = Vec::new();
        key.push('.');
        let mut i: usize = 0;
        while i < ext.len()
            invariant
                i <= ext@.len(),
                key@ == seq!['.'] + ext@.take(i as int),
        decreases ext@.len() - i,
        {
            key.push(ext[i]);
            i = i + 1;
            proof {
                assert(seq!['.'] + ext@.take(i as int) =~= (seq!['.'] + ext@.take(i as int - 1)).push(
                    ext@[i as int - 1],
                ));
            }
        }
        proof {
            assert(ext@.take(ext@.len() as int) =~= ext@);
            assert(key@ =~= seq!['.'] + ext@);
        }
        let key_str = chars_to_string(&key);
        let mut h: usize = 0;
        proof {
            assert(self.hooks@.skip(0) =~= self.hooks@);
        }
        while h < self.hooks.len()
            invariant
                h <= self.hooks@.len(),
                key_str@ == seq!['.'] + ext@,
                ext_key(file_path@) == Some(key_str@),
                hook_lookup(self.hooks@, key_str@) == hook_lookup(
                    self.hooks@.skip(h as int),
                    key_str@,
                ),
            decreases self.hooks@.len() - h,
        {
            let ghost hs = self.hooks@.skip(h as int);
            proof {
                assert(hs[0] == self.hooks@[h as int]);
                assert(hs.skip(1) =~= self.hooks@.skip(h as int + 1));
            }
            if str_eq(self.hooks[h].extension.as_str(), key_str.as_str()) {
                let mut cmds: Vec<String> = Vec::new();
                let cs = &self.hooks[h].commands;
                let mut i: usize = 0;
                while i < cs.len()
                    invariant
                        i <= cs@.len(),
                        cs == self.hooks@[h as int].commands,
                        str_views(cmds@) == str_views(cs@).take(i as int),
                    decreases cs@.len() - i,
                {
                    let ghost oldc = str_views(cmds@);
                    cmds.push(cs[i].clone());
                    i = i + 1;
                    proof {
                        assert(str_views(cmds@) =~= oldc.push(str_views(cs@)[i as int - 1]));
                        assert(str_views(cmds@) =~= str_views(cs@).take(i as int));
                    }
                }
                proof {
                    assert(str_views(cs@).take(cs@.len() as int) =~= str_views(cs@));
                }
                return Some(cmds);
            }
            h = h + 1;
        }
        proof {
            assert(self.hooks@.skip(h as int) =~= Seq::<ExtensionHook>::empty());
        }
        None
    }

    /// Plan the configured commands for a file path: one job per template.
    pub fn plan_commands(commands: &Vec<String>, file_path: &str) -> (r: Vec<PlannedJob>)
        ensures
            r@.len() == commands@.len(),
            forall|i: int| 0 <= i < r@.len() ==> job_matches(#[trigger] r@[i], commands@[i]@, file_path@),
    {
        let mut jobs: Vec<PlannedJob> = Vec::new();
        let mut i: usize = 0;
        while i < commands.len()
            invariant
                i <= commands@.len(),
                jobs@.len() == i,
                forall|k: int| 0 <= k < i ==> job_matches(#[trigger] jobs@[k], commands@[k]@, file_path@),
            decreases commands@.len() - i,
        {
            let job = plan_command(commands[i].as_str(), file_path);
            jobs.push(job);
            i = i + 1;
        }
        jobs
    }

    /// Aggregate the jobs' captured outputs into advisory context: each
    /// rejected template contributes its error, each run its labelled
    /// non-empty output; nothing yields no context.
    pub fn collect_output(jobs: &Vec<PlannedJob>, outputs: &Vec<String>) -> (r: Option<String>)
        requires
            outputs@.len() == jobs@.len(),
        ensures
            entries(jobs@, str_views(outputs@), 0).len() == 0 ==> r is None,
            entries(jobs@, str_views(outputs@), 0).len() > 0 ==> (r matches Some(s) && s@
                == join_lines(entries(jobs@, str_views(outputs@), 0))),
    {
        let ghost outs = str_views(outputs@);
        let mut lines: Vec<Vec<char>> = Vec::new();
        let mut i: usize = 0;
        proof {
            assert(views(lines@) + entries(jobs@, outs, 0) =~= entries(jobs@, outs, 0));
        }
        while i < jobs.len()
            invariant
                i <= jobs@.len(),
                outs == str_views(outputs@),
                outs.len() == jobs@.len(),
                entries(jobs@, outs, 0) == views(lines@) + entries(jobs@, outs, i as int),
            decreases jobs@.len() - i,
        {
            let ghost pre = views(lines@);
            let ghost expect = entry_for(jobs@[i as int], outs[i as int]);
            match &jobs[i] {
                PlannedJob::Invalid { error } => {
                    let mut line = str_to_chars("[ERROR] ");
                    let ec = str_to_chars(error.as_str());
                    let ghost head = line@;
                    let mut k: usize = 0;
                    while k < ec.len()
                        invariant
                            k <= ec@.len(),
                            line@ == head + ec@.take(k as int),
                        decreases ec@.len() - k,
                    {
                        line.push(ec[k]);
                        k = k + 1;
                        proof {
                            assert(head + ec@.take(k as int) =~= (head + ec@.take(k as int - 1)).push(
                                ec@[k as int - 1],
                            ));
                        }
                    }
                    proof {
                        reveal_strlit("[ERROR] ");
                        assert(ec@.take(ec@.len() as int) =~= ec@);
                        assert(line@ =~= "[ERROR] "@ + error@);
                    }
                    lines.push(line);
                    proof {
                        assert(views(lines@) =~= pre.push("[ERROR] "@ + error@));
                        assert(expect == Some("[ERROR] "@ + error@));
                        assert(pre + (seq!["[ERROR] "@ + error@] + entries(jobs@, outs, i as int + 1))
                            =~= views(lines@) + entries(jobs@, outs, i as int + 1));
                    }
                },
                PlannedJob::Run { label, program, args } => {
                    let out = &outputs[i];
                    if out.as_str().unicode_len() > 0 {
                        let mut line = str_to_chars("[");
                        let lc = str_to_chars(label.as_str());
                        let ghost h0 = line@;
                        let mut k: usize = 0;
                        while k < lc.len()
                            invariant
                                k <= lc@.len(),
                                line@ == h0 + lc@.take(k as int),
                            decreases lc@.len() - k,
                        {
                            line.push(lc[k]);
                            k = k + 1;
                            proof {
                                assert(h0 + lc@.take(k as int) =~= (h0 + lc@.take(k as int - 1)).push(
                                    lc@[k as int - 1],
                                ));
                            }
                        }
                        proof {
                            assert(lc@.take(lc@.len() as int) =~= lc@);
                        }
                        line.push(']');
                        line.push(' ');
                        let oc = str_to_chars(out.as_str());
                        let ghost h1 = line@;
                        let mut k: usize = 0;
                        while k < oc.len()
                            invariant
                                k <= oc@.len(),
                                line@ == h1 + oc@.take(k as int),
                            decreases oc@.len() - k,
                        {
                            line.push(oc[k]);
                            k = k + 1;
                            proof {
                                assert(h1 + oc@.take(k as int) =~= (h1 + oc@.take(k as int - 1)).push(
                                    oc@[k as int - 1],
                                ));
                            }
                        }
                        proof {
                            reveal_strlit("[");
                            reveal_strlit("] ");
                            assert(oc@.take(oc@.len() as int) =~= oc@);
                            assert("["@.len() == 1);
                            assert(line@ =~= "["@ + label@ + "] "@ + out@);
                        }
                        lines.push(line);
                        proof {
                            assert(views(lines@) =~= pre.push("["@ + label@ + "] "@ + out@));
                            assert(outs[i as int] == out@);
                            assert(expect == Some("["@ + label@ + "] "@ + out@));
                            assert(pre + (seq!["["@ + label@ + "] "@ + out@] + entries(
                                jobs@,
                                outs,
                                i as int + 1,
                            )) =~= views(lines@) + entries(jobs@, outs, i as int + 1));
                        }
                    } else {
                        proof {
                            assert(outs[i as int] == out@);
                            assert(expect is None);
                            assert(pre + (Seq::<Seq<char>>::empty() + entries(
                                jobs@,
                                outs,
                                i as int + 1,
                            )) =~= pre + entries(jobs@, outs, i as int + 1));
                        }
                    }
                },
            }
            i = i + 1;
        }
        proof {
            assert(entries(jobs@, outs, i as int) =~= Seq::<Seq<char>>::empty());
            assert(views(lines@) + Seq::<Seq<char>>::empty() =~= views(lines@));
        }
        if lines.len() == 0 {
            return None;
        }
        let joined = crate::textutil::join_sep_chars(&lines, '\n');
        Some(chars_to_string(&joined))
    }

    /// This filter applies to pre- or post-execution file writes whose
    /// extension has a configured mapping.
    pub fn applies_to(&self, input: &HookInput) -> (r: bool)
        ensures
            r == ((input.event@ == "PreToolUse"@ || input.event@ == "PostToolUse"@) && (
            input.tool_name@ == "Write"@ || input.tool_name@ == "Edit"@ || input.tool_name@
                == "MultiEdit"@) && (input.tool_input matches ToolInput::File(f)
                && matching_commands(self.hooks@, f.file_path@) is Some)),
    {
        if !str_eq(input.event.as_str(), "PreToolUse") && !str_eq(
            input.event.as_str(),
            "PostToolUse",
        ) {
            return false;
        }
        if !str_eq(input.tool_name.as_str(), "Write") && !str_eq(input.tool_name.as_str(), "Edit")
            && !str_eq(input.tool_name.as_str(), "MultiEdit") {
            return false;
        }
        match &input.tool_input {
            ToolInput::File(f) => self.get_matching_commands(f.file_path.as_str()).is_some(),
            _ => false,
        }
    }

    /// Ordering key: side-effect filters run last.
    pub fn priority(&self) -> (r: u32)
        ensures
            r == 100,
    {
        100
    }
}

} // verus!
