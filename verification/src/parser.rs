//! Shell command analysis: the command extractor.
//!
//! `extract_commands` decomposes a compound command line into the ordered,
//! duplicate-free list of program names it would invoke, unwinding pipelines,
//! logical connectives, semicolons, command wrappers (`sudo`, `env`, ...),
//! subshell interpreters invoked with `-c`, `xargs`, parenthesized subshells
//! and command substitutions.

use vstd::prelude::*;

use crate::textutil::chars_eq_str;
use crate::textutil::contains_char;
use crate::textutil::contains_tok;
use crate::textutil::copy_chars;
use crate::textutil::sub_chars;
use crate::textutil::tokenize;
use crate::textutil::views;

verus! {

// ---------------------------------------------------------------------------
// Segment splitting: cut at unquoted `;`, `|` and `&&` boundaries.
// ---------------------------------------------------------------------------
/// Raw split of a command line at unquoted `;`, `|` and `&&` boundaries.
/// Characters are kept verbatim (quotes and escapes included); the split is
/// quote-aware, so separators inside quotes do not cut, and a matched
/// unquoted `(`...`)` group or backtick pair is consumed whole, so
/// separators inside a substitution or subshell do not cut either.
pub open spec fn seg_rec(s: Seq<char>, cur: Seq<char>, sq: bool, dq: bool, esc: bool) -> Seq<
    Seq<char>,
>
    decreases s.len(),
    via seg_rec_dec
{
    if s.len() == 0 {
        seq![cur]
    } else {
        let c = s[0];
        let rest = s.skip(1);
        if esc {
            seg_rec(rest, cur.push(c), sq, dq, false)
        } else if c == '\\' && !sq {
            seg_rec(rest, cur.push(c), sq, dq, true)
        } else if c == '\'' && !dq {
            seg_rec(rest, cur.push(c), !sq, dq, false)
        } else if c == '"' && !sq {
            seg_rec(rest, cur.push(c), sq, !dq, false)
        } else if !sq && !dq && (c == ';' || c == '|') {
            seq![cur] + seg_rec(rest, Seq::empty(), false, false, false)
        } else if !sq && !dq && c == '&' && rest.len() > 0 && rest[0] == '&' {
            seq![cur] + seg_rec(rest.skip(1), Seq::empty(), false, false, false)
        } else if !sq && !dq && c == '(' {
            match find_close(rest, 1) {
                Some(j) => seg_rec(rest.skip(j + 1), cur + s.take(j + 2), sq, dq, false),
                None => seg_rec(rest, cur.push(c), sq, dq, false),
            }
        } else if !sq && !dq && c == '`' {
            match find_tick(rest) {
                Some(j) => seg_rec(rest.skip(j + 1), cur + s.take(j + 2), sq, dq, false),
                None => seg_rec(rest, cur.push(c), sq, dq, false),
            }
        } else {
            seg_rec(rest, cur.push(c), sq, dq, false)
        }
    }
}

#[via_fn]
proof fn seg_rec_dec(s: Seq<char>, cur: Seq<char>, sq: bool, dq: bool, esc: bool) {
    if s.len() > 0 && !esc && !sq && !dq {
        if s[0] == '(' {
            lemma_find_close_bound(s.skip(1), 1);
        } else if s[0] == '`' {
            lemma_find_tick_bound(s.skip(1));
        }
    }
}

/// The atomic segments of a command line (raw text, possibly empty pieces).
pub open spec fn segments(s: Seq<char>) -> Seq<Seq<char>> {
    seg_rec(s, Seq::empty(), false, false, false)
}

// ---------------------------------------------------------------------------
// Token classification.
// ---------------------------------------------------------------------------
/// Programs that execute another program given as their arguments.
pub open spec fn is_wrapper_name(t: Seq<char>) -> bool {
    ||| t == "sudo"@
    ||| t == "env"@
    ||| t == "nohup"@
    ||| t == "nice"@
    ||| t == "ionice"@
    ||| t == "time"@
    ||| t == "timeout"@
    ||| t == "strace"@
    ||| t == "ltrace"@
    ||| t == "doas"@
}

/// Shell interpreters that run a nested script given after `-c`.
pub open spec fn is_shell_name(t: Seq<char>) -> bool {
    ||| t == "bash"@
    ||| t == "sh"@
    ||| t == "zsh"@
    ||| t == "ksh"@
    ||| t == "csh"@
    ||| t == "tcsh"@
    ||| t == "fish"@
    ||| t == "dash"@
}

/// Wrapper flags that consume a following value token.
pub open spec fn is_flag_with_value(t: Seq<char>) -> bool {
    ||| t == "-u"@
    ||| t == "-g"@
    ||| t == "-C"@
    ||| t == "-D"@
    ||| t == "-R"@
    ||| t == "-T"@
    ||| t == "-h"@
    ||| t == "-p"@
    ||| t == "-r"@
    ||| t == "-t"@
    ||| t == "-U"@
    ||| t == "-S"@
    ||| t == "-k"@
    ||| t == "-s"@
    ||| t == "-n"@
    ||| t == "-c"@
}

/// An environment-variable assignment prefix token: holds `=` and does not
/// look like a flag.
pub open spec fn is_assignment(t: Seq<char>) -> bool {
    t.len() > 0 && t[0] != '-' && t.contains('=')
}

/// A token that looks like a flag.
pub open spec fn starts_dash(t: Seq<char>) -> bool {
    t.len() > 0 && t[0] == '-'
}

/// Drop leading `key=value` assignment tokens; the next token is the
/// candidate command name.
pub open spec fn skip_assignments(ts: Seq<Seq<char>>) -> Seq<Seq<char>>
    decreases ts.len(),
{
    if ts.len() == 0 {
        ts
    } else if is_assignment(ts[0]) {
        skip_assignments(ts.skip(1))
    } else {
        ts
    }
}

/// The script string following a `-c` flag, if any.
pub open spec fn c_payload(ts: Seq<Seq<char>>) -> Option<Seq<char>>
    decreases ts.len(),
{
    if ts.len() == 0 {
        None
    } else if ts[0] == "-c"@ {
        if ts.len() >= 2 {
            Some(ts[1])
        } else {
            None
        }
    } else {
        c_payload(ts.skip(1))
    }
}

/// The first token not shaped like a flag: what `xargs` would run.
pub open spec fn xargs_target(ts: Seq<Seq<char>>) -> Option<Seq<char>>
    decreases ts.len(),
{
    if ts.len() == 0 {
        None
    } else if !starts_dash(ts[0]) {
        Some(ts[0])
    } else {
        xargs_target(ts.skip(1))
    }
}

// ---------------------------------------------------------------------------
// Nested scripts: parenthesized subshells / `$( )` substitutions (both are
// found by scanning for `(`), and backtick substitutions.  Recognized
// wherever they occur, regardless of quoting.
// ---------------------------------------------------------------------------
/// Position of the `)` that closes an already-open group at nesting `depth`.
pub open spec fn find_close(s: Seq<char>, depth: int) -> Option<int>
    decreases s.len(),
{
    if s.len() == 0 {
        None
    } else {
        let c = s[0];
        if c == ')' && depth == 1 {
            Some(0)
        } else {
            let d2 = if c == '(' {
                depth + 1
            } else if c == ')' {
                depth - 1
            } else {
                depth
            };
            match find_close(s.skip(1), d2) {
                Some(j) => Some(j + 1),
                None => None,
            }
        }
    }
}

/// Position of the next backtick.
pub open spec fn find_tick(s: Seq<char>) -> Option<int>
    decreases s.len(),
{
    if s.len() == 0 {
        None
    } else if s[0] == '`' {
        Some(0)
    } else {
        match find_tick(s.skip(1)) {
            Some(j) => Some(j + 1),
            None => None,
        }
    }
}

pub proof fn lemma_find_close_bound(s: Seq<char>, depth: int)
    ensures
        match find_close(s, depth) {
            Some(j) => 0 <= j < s.len(),
            None => true,
        },
    decreases s.len(),
{
    if s.len() > 0 {
        let c = s[0];
        if !(c == ')' && depth == 1) {
            let d2 = if c == '(' {
                depth + 1
            } else if c == ')' {
                depth - 1
            } else {
                depth
            };
            lemma_find_close_bound(s.skip(1), d2);
        }
    }
}

pub proof fn lemma_find_tick_bound(s: Seq<char>)
    ensures
        match find_tick(s) {
            Some(j) => 0 <= j < s.len(),
            None => true,
        },
    decreases s.len(),
{
    if s.len() > 0 && s[0] != '`' {
        lemma_find_tick_bound(s.skip(1));
    }
}

/// The contents of every nested construct of the command line, scanned left
/// to right: the inside of each `(`...`)` group (covering both `$( )` and
/// plain subshells) and of each `` ` ``...`` ` `` pair.
pub open spec fn nested_scripts(s: Seq<char>) -> Seq<Seq<char>>
    decreases s.len(),
    via nested_scripts_dec
{
    if s.len() == 0 {
        Seq::empty()
    } else if s[0] == '(' {
        match find_close(s.skip(1), 1) {
            Some(j) => seq![s.skip(1).take(j)] + nested_scripts(s.skip(1).skip(j + 1)),
            None => seq![s.skip(1)],
        }
    } else if s[0] == '`' {
        match find_tick(s.skip(1)) {
            Some(j) => seq![s.skip(1).take(j)] + nested_scripts(s.skip(1).skip(j + 1)),
            None => Seq::empty(),
        }
    } else {
        nested_scripts(s.skip(1))
    }
}

#[via_fn]
proof fn nested_scripts_dec(s: Seq<char>) {
    if s.len() > 0 {
        if s[0] == '(' {
            lemma_find_close_bound(s.skip(1), 1);
        } else if s[0] == '`' {
            lemma_find_tick_bound(s.skip(1));
        }
    }
}

// ---------------------------------------------------------------------------
// Deduplication: keep the first occurrence of each name.
// ---------------------------------------------------------------------------
pub open spec fn dedup_from(l: Seq<Seq<char>>, i: int) -> Seq<Seq<char>>
    decreases l.len() - i,
{
    if i < 0 || i >= l.len() {
        Seq::empty()
    } else if l.take(i).contains(l[i]) {
        dedup_from(l, i + 1)
    } else {
        seq![l[i]] + dedup_from(l, i + 1)
    }
}

/// The list with every later duplicate removed; first occurrences keep
/// their order.
pub open spec fn dedup(l: Seq<Seq<char>>) -> Seq<Seq<char>> {
    dedup_from(l, 0)
}

// ---------------------------------------------------------------------------
// The extractor.  `d` bounds the nesting depth of recursive unwinding; the
// top level supplies the input length, which lemmas below show is always
// enough.
// ---------------------------------------------------------------------------
/// Names discovered from a token suffix whose head is the candidate command:
/// the head itself, then what wrapper unwinding, `shell -c` unwinding and
/// `xargs` unwinding reveal.
pub open spec fn head_cmds(ts: Seq<Seq<char>>, d: nat) -> Seq<Seq<char>>
    decreases d, 0int, ts.len(), 0int,
{
    if ts.len() == 0 {
        Seq::empty()
    } else {
        let h = ts[0];
        seq![h] + (if is_wrapper_name(h) {
            wrapper_scan(ts.skip(1), d)
        } else {
            Seq::empty()
        }) + (if is_shell_name(h) {
            match c_payload(ts.skip(1)) {
                Some(p) => if d > 0 {
                    extract_d(p, (d - 1) as nat)
                } else {
                    Seq::empty()
                },
                None => Seq::empty(),
            }
        } else {
            Seq::empty()
        }) + (if h == "xargs"@ {
            match xargs_target(ts.skip(1)) {
                Some(t) => seq![t],
                None => Seq::empty(),
            }
        } else {
            Seq::empty()
        })
    }
}

/// Scan a wrapper's arguments, skipping flags (with their values) and
/// assignments, for the wrapped command; unwinding then continues from it.
pub open spec fn wrapper_scan(ts: Seq<Seq<char>>, d: nat) -> Seq<Seq<char>>
    decreases d, 0int, ts.len(), 1int,
{
    if ts.len() == 0 {
        Seq::empty()
    } else if starts_dash(ts[0]) {
        if is_flag_with_value(ts[0]) {
            if ts.len() >= 2 {
                wrapper_scan(ts.skip(2), d)
            } else {
                Seq::empty()
            }
        } else {
            wrapper_scan(ts.skip(1), d)
        }
    } else if is_assignment(ts[0]) {
        wrapper_scan(ts.skip(1), d)
    } else {
        head_cmds(ts, d)
    }
}

/// The names one atomic segment invokes, in script order: its candidate
/// command and what unwinding reveals, then the contents of each nested
/// construct of the segment, in scan order.
pub open spec fn seg_cmds(g: Seq<char>, d: nat) -> Seq<Seq<char>>
    decreases d, 2int, 0int, 0int,
{
    head_cmds(skip_assignments(tokenize(g)), d) + nested_cmds(nested_scripts(g), d)
}

/// The names invoked by a list of segments, in order.
pub open spec fn segs_cmds(pieces: Seq<Seq<char>>, d: nat) -> Seq<Seq<char>>
    decreases d, 3int, pieces.len(), 0int,
{
    if pieces.len() == 0 {
        Seq::empty()
    } else {
        seg_cmds(pieces[0], d) + segs_cmds(pieces.skip(1), d)
    }
}

/// The names invoked by the contents of nested constructs, in order.
pub open spec fn nested_cmds(scripts: Seq<Seq<char>>, d: nat) -> Seq<Seq<char>>
    decreases d, 1int, scripts.len(), 0int,
{
    if scripts.len() == 0 {
        Seq::empty()
    } else {
        (if d > 0 {
            extract_d(scripts[0], (d - 1) as nat)
        } else {
            Seq::empty()
        }) + nested_cmds(scripts.skip(1), d)
    }
}

/// Extraction at bounded nesting depth `d`.
pub open spec fn extract_d(s: Seq<char>, d: nat) -> Seq<Seq<char>>
    decreases d, 4int, 0int, 0int,
{
    dedup(segs_cmds(segments(s), d))
}

/// The ordered, duplicate-free list of program names a command line invokes.
pub open spec fn extract_cmds(s: Seq<char>) -> Seq<Seq<char>> {
    extract_d(s, s.len() as nat)
}

// ---------------------------------------------------------------------------
// Executable counterparts.
// ---------------------------------------------------------------------------
/// Split a command line into its atomic segments.
pub fn split_segments(s: &Vec<char>) -> (r: Vec<Vec<char>>)
    ensures
        views(r@) == segments(s@),
{
    let mut pieces: Vec<Vec<char>> = Vec::new();
    let mut cur: Vec<char> = Vec::new();
    let mut sq = false;
    let mut dq = false;
    let mut esc = false;
    let mut i: usize = 0;
    proof {
        assert(s@.skip(0) =~= s@);
        assert(cur@ =~= Seq::<char>::empty());
        assert(views(pieces@) + seg_rec(s@, cur@, false, false, false) =~= seg_rec(
            s@,
            cur@,
            false,
            false,
            false,
        ));
    }
    while i < s.len()
        invariant
            i <= s.len(),
            segments(s@) == views(pieces@) + seg_rec(s@.skip(i as int), cur@, sq, dq, esc),
        decreases s.len() - i,
    {
        let ghost pre = s@.skip(i as int);
        proof {
            assert(pre[0] == s@[i as int]);
            assert(pre.skip(1) =~= s@.skip(i as int + 1));
        }
        let c = s[i];
        if esc {
            cur.push(c);
            esc = false;
        } else if c == '\\' && !sq {
            cur.push(c);
            esc = true;
        } else if c == '\'' && !dq {
            cur.push(c);
            sq = !sq;
        } else if c == '"' && !sq {
            cur.push(c);
            dq = !dq;
        } else if !sq && !dq && (c == ';' || c == '|') {
            let ghost oldpieces = pieces@;
            let ghost oldcur = cur@;
            pieces.push(cur);
            cur = Vec::new();
            proof {
                assert(views(pieces@) =~= views(oldpieces).push(oldcur));
                assert(cur@ =~= Seq::<char>::empty());
                assert(views(oldpieces) + (seq![oldcur] + seg_rec(
                    pre.skip(1),
                    cur@,
                    false,
                    false,
                    false,
                )) =~= views(pieces@) + seg_rec(pre.skip(1), cur@, false, false, false));
            }
        } else if !sq && !dq && c == '&' && i + 1 < s.len() && s[i + 1] == '&' {
            let ghost oldpieces = pieces@;
            let ghost oldcur = cur@;
            pieces.push(cur);
            cur = Vec::new();
            i = i + 2;
            proof {
                assert(pre.skip(1)[0] == s@[i as int - 1]);
                assert(pre.skip(1).skip(1) =~= s@.skip(i as int));
                assert(views(pieces@) =~= views(oldpieces).push(oldcur));
                assert(cur@ =~= Seq::<char>::empty());
                assert(views(oldpieces) + (seq![oldcur] + seg_rec(
                    pre.skip(1).skip(1),
                    cur@,
                    false,
                    false,
                    false,
                )) =~= views(pieces@) + seg_rec(pre.skip(1).skip(1), cur@, false, false, false));
            }
            continue ;
        } else if !sq && !dq && c == '(' {
            match find_close_from(s, i + 1) {
                Some(j) => {
                    let n = s.len();
                    let ghost oldcur = cur@;
                    let mut t: usize = i;
                    while t <= j
                        invariant
                            i <= t <= j + 1,
                            j < n,
                            n == s@.len(),
                            cur@ == oldcur + s@.subrange(i as int, t as int),
                        decreases j + 1 - t,
                    {
                        cur.push(s[t]);
                        t = t + 1;
                        proof {
                            assert(oldcur + s@.subrange(i as int, t as int) =~= (oldcur
                                + s@.subrange(i as int, t as int - 1)).push(s@[t as int - 1]));
                        }
                    }
                    proof {
                        assert(find_close(pre.skip(1), 1) == Some(j - (i as int + 1)));
                        assert(pre.skip(1).skip(j - i as int) =~= s@.skip(j as int + 1));
                        assert(pre.take(j - i as int + 1) =~= s@.subrange(
                            i as int,
                            j as int + 1,
                        ));
                        assert(cur@ =~= oldcur + pre.take(j - i as int + 1));
                    }
                    i = j + 1;
                    continue ;
                },
                None => {
                    cur.push(c);
                },
            }
        } else if !sq && !dq && c == '`' {
            match find_tick_from(s, i + 1) {
                Some(j) => {
                    let n = s.len();
                    let ghost oldcur = cur@;
                    let mut t: usize = i;
                    while t <= j
                        invariant
                            i <= t <= j + 1,
                            j < n,
                            n == s@.len(),
                            cur@ == oldcur + s@.subrange(i as int, t as int),
                        decreases j + 1 - t,
                    {
                        cur.push(s[t]);
                        t = t + 1;
                        proof {
                            assert(oldcur + s@.subrange(i as int, t as int) =~= (oldcur
                                + s@.subrange(i as int, t as int - 1)).push(s@[t as int - 1]));
                        }
                    }
                    proof {
                        assert(find_tick(pre.skip(1)) == Some(j - (i as int + 1)));
                        assert(pre.skip(1).skip(j - i as int) =~= s@.skip(j as int + 1));
                        assert(pre.take(j - i as int + 1) =~= s@.subrange(
                            i as int,
                            j as int + 1,
                        ));
                        assert(cur@ =~= oldcur + pre.take(j - i as int + 1));
                    }
                    i = j + 1;
                    continue ;
                },
                None => {
                    cur.push(c);
                },
            }
        } else {
            cur.push(c);
        }
        i = i + 1;
    }
    proof {
        assert(s@.skip(i as int) =~= Seq::<char>::empty());
    }
    let ghost oldpieces = pieces@;
    let ghost oldcur = cur@;
    pieces.push(cur);
    proof {
        assert(views(pieces@) =~= views(oldpieces).push(oldcur));
        assert(views(oldpieces) + seq![oldcur] =~= views(pieces@));
    }
    pieces
}

/// Whether the token names a command wrapper.
pub fn is_wrapper_tok(t: &Vec<char>) -> (r: bool)
    ensures
        r == is_wrapper_name(t@),
{
    chars_eq_str(t, "sudo") || chars_eq_str(t, "env") || chars_eq_str(t, "nohup") || chars_eq_str(
        t,
        "nice",
    ) || chars_eq_str(t, "ionice") || chars_eq_str(t, "time") || chars_eq_str(t, "timeout")
        || chars_eq_str(t, "strace") || chars_eq_str(t, "ltrace") || chars_eq_str(t, "doas")
}

/// Whether the token names a shell interpreter.
pub fn is_shell_tok(t: &Vec<char>) -> (r: bool)
    ensures
        r == is_shell_name(t@),
{
    chars_eq_str(t, "bash") || chars_eq_str(t, "sh") || chars_eq_str(t, "zsh") || chars_eq_str(
        t,
        "ksh",
    ) || chars_eq_str(t, "csh") || chars_eq_str(t, "tcsh") || chars_eq_str(t, "fish")
        || chars_eq_str(t, "dash")
}

/// Whether the token is a wrapper flag that consumes a value.
pub fn is_flag_value_tok(t: &Vec<char>) -> (r: bool)
    ensures
        r == is_flag_with_value(t@),
{
    chars_eq_str(t, "-u") || chars_eq_str(t, "-g") || chars_eq_str(t, "-C") || chars_eq_str(
        t,
        "-D",
    ) || chars_eq_str(t, "-R") || chars_eq_str(t, "-T") || chars_eq_str(t, "-h") || chars_eq_str(
        t,
        "-p",
    ) || chars_eq_str(t, "-r") || chars_eq_str(t, "-t") || chars_eq_str(t, "-U") || chars_eq_str(
        t,
        "-S",
    ) || chars_eq_str(t, "-k") || chars_eq_str(t, "-s") || chars_eq_str(t, "-n") || chars_eq_str(
        t,
        "-c",
    )
}

/// Whether the token is an assignment prefix.
pub fn is_assignment_tok(t: &Vec<char>) -> (r: bool)
    ensures
        r == is_assignment(t@),
{
    t.len() > 0 && t[0] != '-' && contains_char(t, '=')
}

/// Whether the token starts with a dash.
pub fn starts_dash_tok(t: &Vec<char>) -> (r: bool)
    ensures
        r == starts_dash(t@),
{
    t.len() > 0 && t[0] == '-'
}

/// Index of the first token that is not an assignment prefix.
pub fn skip_assignments_idx(ts: &Vec<Vec<char>>) -> (k: usize)
    ensures
        k <= ts@.len(),
        skip_assignments(views(ts@)) == views(ts@).skip(k as int),
{
    let mut i: usize = 0;
    proof {
        assert(views(ts@).skip(0) =~= views(ts@));
    }
    while i < ts.len()
        invariant
            i <= ts@.len(),
            skip_assignments(views(ts@)) == skip_assignments(views(ts@).skip(i as int)),
        decreases ts@.len() - i,
    {
        let ghost tv = views(ts@).skip(i as int);
        proof {
            assert(tv[0] == views(ts@)[i as int]);
            assert(tv.skip(1) =~= views(ts@).skip(i as int + 1));
        }
        if !is_assignment_tok(&ts[i]) {
            return i;
        }
        i = i + 1;
    }
    proof {
        assert(views(ts@).skip(i as int) =~= Seq::<Seq<char>>::empty());
    }
    i
}

/// The `-c` script among the tokens from `from` on, if any.
pub fn c_payload_exec(ts: &Vec<Vec<char>>, from: usize) -> (r: Option<Vec<char>>)
    requires
        from <= ts@.len(),
    ensures
        match r {
            Some(p) => c_payload(views(ts@).skip(from as int)) == Some(p@),
            None => c_payload(views(ts@).skip(from as int)) is None,
        },
{
    let mut i: usize = from;
    while i < ts.len()
        invariant
            from <= i <= ts@.len(),
            c_payload(views(ts@).skip(from as int)) == c_payload(views(ts@).skip(i as int)),
        decreases ts@.len() - i,
    {
        let ghost tv = views(ts@).skip(i as int);
        proof {
            assert(tv[0] == views(ts@)[i as int]);
            assert(tv.skip(1) =~= views(ts@).skip(i as int + 1));
        }
        if chars_eq_str(&ts[i], "-c") {
            if i + 1 < ts.len() {
                proof {
                    assert(tv[1] == views(ts@)[i as int + 1]);
                }
                return Some(copy_chars(&ts[i + 1]));
            } else {
                return None;
            }
        }
        i = i + 1;
    }
    proof {
        assert(views(ts@).skip(i as int) =~= Seq::<Seq<char>>::empty());
    }
    None
}

/// The first non-flag token from `from` on, if any.
pub fn xargs_target_exec(ts: &Vec<Vec<char>>, from: usize) -> (r: Option<Vec<char>>)
    requires
        from <= ts@.len(),
    ensures
        match r {
            Some(t) => xargs_target(views(ts@).skip(from as int)) == Some(t@),
            None => xargs_target(views(ts@).skip(from as int)) is None,
        },
{
    let mut i: usize = from;
    while i < ts.len()
        invariant
            from <= i <= ts@.len(),
            xargs_target(views(ts@).skip(from as int)) == xargs_target(views(ts@).skip(i as int)),
        decreases ts@.len() - i,
    {
        let ghost tv = views(ts@).skip(i as int);
        proof {
            assert(tv[0] == views(ts@)[i as int]);
            assert(tv.skip(1) =~= views(ts@).skip(i as int + 1));
        }
        if !starts_dash_tok(&ts[i]) {
            return Some(copy_chars(&ts[i]));
        }
        i = i + 1;
    }
    proof {
        assert(views(ts@).skip(i as int) =~= Seq::<Seq<char>>::empty());
    }
    None
}

/// Position of the closing `)` for a group opened just before `start`.
pub fn find_close_from(s: &Vec<char>, start: usize) -> (r: Option<usize>)
    requires
        start <= s@.len(),
    ensures
        match r {
            Some(j) => start <= j < s@.len() && find_close(s@.skip(start as int), 1) == Some(
                j - start,
            ),
            None => find_close(s@.skip(start as int), 1) is None,
        },
{
    let mut i: usize = start;
    let mut depth: i128 = 1;
    while i < s.len()
        invariant
            start <= i <= s@.len(),
            1 - (i as int - start as int) <= depth as int <= 1 + (i as int - start as int),
            find_close(s@.skip(start as int), 1) == match find_close(
                s@.skip(i as int),
                depth as int,
            ) {
                Some(j) => Some(i - start + j),
                None => None::<int>,
            },
        decreases s@.len() - i,
    {
        let ghost pre = s@.skip(i as int);
        proof {
            assert(pre[0] == s@[i as int]);
            assert(pre.skip(1) =~= s@.skip(i as int + 1));
        }
        let c = s[i];
        if c == ')' && depth == 1 {
            return Some(i);
        }
        if c == '(' {
            depth = depth + 1;
        } else if c == ')' {
            depth = depth - 1;
        }
        i = i + 1;
    }
    proof {
        assert(s@.skip(i as int) =~= Seq::<char>::empty());
    }
    None
}

/// Position of the next backtick at or after `start`.
pub fn find_tick_from(s: &Vec<char>, start: usize) -> (r: Option<usize>)
    requires
        start <= s@.len(),
    ensures
        match r {
            Some(j) => start <= j < s@.len() && find_tick(s@.skip(start as int)) == Some(j - start),
            None => find_tick(s@.skip(start as int)) is None,
        },
{
    let mut i: usize = start;
    while i < s.len()
        invariant
            start <= i <= s@.len(),
            find_tick(s@.skip(start as int)) == match find_tick(s@.skip(i as int)) {
                Some(j) => Some(i - start + j),
                None => None::<int>,
            },
        decreases s@.len() - i,
    {
        let ghost pre = s@.skip(i as int);
        proof {
            assert(pre[0] == s@[i as int]);
            assert(pre.skip(1) =~= s@.skip(i as int + 1));
        }
        if s[i] == '`' {
            return Some(i);
        }
        i = i + 1;
    }
    proof {
        assert(s@.skip(i as int) =~= Seq::<char>::empty());
    }
    None
}

proof fn lemma_toks_contains_push(s: Seq<Seq<char>>, e: Seq<char>, x: Seq<char>)
    ensures
        s.push(e).contains(x) <==> (s.contains(x) || x == e),
{
    if s.push(e).contains(x) {
        let i = choose|i: int| 0 <= i < s.push(e).len() && s.push(e)[i] == x;
        if i < s.len() {
            assert(s[i] == x);
        }
    }
    if s.contains(x) {
        let i = choose|i: int| 0 <= i < s.len() && s[i] == x;
        assert(s.push(e)[i] == x);
    }
    if x == e {
        assert(s.push(e)[s.len() as int] == x);
    }
}

/// Remove every later duplicate, keeping first occurrences in order.
pub fn dedup_exec(l: &Vec<Vec<char>>) -> (r: Vec<Vec<char>>)
    ensures
        views(r@) == dedup(views(l@)),
{
    let ghost lv = views(l@);
    let mut out: Vec<Vec<char>> = Vec::new();
    let mut i: usize = 0;
    proof {
        assert(views(out@) + dedup_from(lv, 0) =~= dedup_from(lv, 0));
    }
    while i < l.len()
        invariant
            i <= l@.len(),
            lv == views(l@),
            dedup(views(l@)) == views(out@) + dedup_from(lv, i as int),
            forall|x: Seq<char>| #[trigger]
                views(out@).contains(x) <==> lv.take(i as int).contains(x),
        decreases l@.len() - i,
    {
        proof {
            assert(lv[i as int] == views(l@)[i as int]);
            assert(lv.take(i as int + 1) =~= lv.take(i as int).push(lv[i as int]));
            lemma_toks_contains_push(lv.take(i as int), lv[i as int], lv[i as int]);
        }
        if !contains_tok(&out, &l[i]) {
            let ghost preout = views(out@);
            out.push(copy_chars(&l[i]));
            proof {
                assert(views(out@) =~= preout.push(lv[i as int]));
                assert(preout + (seq![lv[i as int]] + dedup_from(lv, i as int + 1)) =~= views(out@)
                    + dedup_from(lv, i as int + 1));
                assert forall|x: Seq<char>| #[trigger]
                    views(out@).contains(x) <==> lv.take(i as int + 1).contains(x) by {
                    lemma_toks_contains_push(preout, lv[i as int], x);
                    lemma_toks_contains_push(lv.take(i as int), lv[i as int], x);
                }
            }
        } else {
            proof {
                assert forall|x: Seq<char>| #[trigger]
                    views(out@).contains(x) <==> lv.take(i as int + 1).contains(x) by {
                    lemma_toks_contains_push(lv.take(i as int), lv[i as int], x);
                }
            }
        }
        i = i + 1;
    }
    proof {
        assert(views(out@) + dedup_from(lv, i as int) =~= views(out@));
    }
    out
}

/// The contents of every nested construct at or after `from`.
pub fn nested_scripts_exec(s: &Vec<char>, from: usize) -> (r: Vec<Vec<char>>)
    requires
        from <= s@.len(),
    ensures
        views(r@) == nested_scripts(s@.skip(from as int)),
    decreases s@.len() - from,
{
    let ghost tail = s@.skip(from as int);
    if from >= s.len() {
        let r: Vec<Vec<char>> = Vec::new();
        proof {
            assert(tail =~= Seq::<char>::empty());
            assert(views(r@) =~= nested_scripts(tail));
        }
        return r;
    }
    proof {
        assert(tail[0] == s@[from as int]);
        assert(tail.skip(1) =~= s@.skip(from as int + 1));
    }
    let c = s[from];
    if c == '(' {
        match find_close_from(s, from + 1) {
            Some(j) => {
                let ghost jrel = j - (from + 1);
                let contents = sub_chars(s, from + 1, j);
                let rest = nested_scripts_exec(s, j + 1);
                let mut r: Vec<Vec<char>> = Vec::new();
                r.push(contents);
                let ghost r1 = views(r@);
                crate::textutil::append_toks(&mut r, &rest);
                proof {
                    assert(r1 =~= seq![s@.subrange(from as int + 1, j as int)]);
                    assert(tail.skip(1).take(jrel) =~= s@.subrange(from as int + 1, j as int));
                    assert(tail.skip(1).skip(jrel + 1) =~= s@.skip(j as int + 1));
                    assert(views(r@) =~= seq![tail.skip(1).take(jrel)] + nested_scripts(
                        tail.skip(1).skip(jrel + 1),
                    ));
                }
                r
            },
            None => {
                let contents = sub_chars(s, from + 1, s.len());
                let mut r: Vec<Vec<char>> = Vec::new();
                r.push(contents);
                proof {
                    assert(tail.skip(1) =~= s@.subrange(from as int + 1, s@.len() as int));
                    assert(views(r@) =~= seq![tail.skip(1)]);
                }
                r
            },
        }
    } else if c == '`' {
        match find_tick_from(s, from + 1) {
            Some(j) => {
                let ghost jrel = j - (from + 1);
                let contents = sub_chars(s, from + 1, j);
                let rest = nested_scripts_exec(s, j + 1);
                let mut r: Vec<Vec<char>> = Vec::new();
                r.push(contents);
                let ghost r1 = views(r@);
                crate::textutil::append_toks(&mut r, &rest);
                proof {
                    assert(r1 =~= seq![s@.subrange(from as int + 1, j as int)]);
                    assert(tail.skip(1).take(jrel) =~= s@.subrange(from as int + 1, j as int));
                    assert(tail.skip(1).skip(jrel + 1) =~= s@.skip(j as int + 1));
                    assert(views(r@) =~= seq![tail.skip(1).take(jrel)] + nested_scripts(
                        tail.skip(1).skip(jrel + 1),
                    ));
                }
                r
            },
            None => {
                let r: Vec<Vec<char>> = Vec::new();
                proof {
                    assert(views(r@) =~= nested_scripts(tail));
                }
                r
            },
        }
    } else {
        nested_scripts_exec(s, from + 1)
    }
}

/// Names discovered from the token suffix starting at `from`, whose head is
/// the candidate command name.
pub fn head_cmds_exec(ts: &Vec<Vec<char>>, from: usize, d: usize) -> (r: Vec<Vec<char>>)
    requires
        from <= ts@.len(),
    ensures
        views(r@) == head_cmds(views(ts@).skip(from as int), d as nat),
    decreases d, 0int, ts@.len() - from, 0int,
{
    let ghost tv = views(ts@).skip(from as int);
    let mut r: Vec<Vec<char>> = Vec::new();
    if from >= ts.len() {
        proof {
            assert(tv =~= Seq::<Seq<char>>::empty());
            assert(views(r@) =~= head_cmds(tv, d as nat));
        }
        return r;
    }
    proof {
        assert(tv[0] == views(ts@)[from as int]);
        assert(tv.skip(1) =~= views(ts@).skip(from as int + 1));
    }
    let h = copy_chars(&ts[from]);
    r.push(h);
    let ghost r0 = views(r@);
    proof {
        assert(r0 =~= seq![tv[0]]);
    }
    let ghost wpart = if is_wrapper_name(tv[0]) {
        wrapper_scan(tv.skip(1), d as nat)
    } else {
        Seq::<Seq<char>>::empty()
    };
    if is_wrapper_tok(&ts[from]) {
        let w = wrapper_scan_exec(ts, from + 1, d);
        crate::textutil::append_toks(&mut r, &w);
    }
    let ghost ra = views(r@);
    proof {
        assert(ra =~= r0 + wpart);
    }
    let ghost spart = if is_shell_name(tv[0]) {
        match c_payload(tv.skip(1)) {
            Some(p) => if d > 0 {
                extract_d(p, (d - 1) as nat)
            } else {
                Seq::<Seq<char>>::empty()
            },
            None => Seq::<Seq<char>>::empty(),
        }
    } else {
        Seq::<Seq<char>>::empty()
    };
    if is_shell_tok(&ts[from]) {
        match c_payload_exec(ts, from + 1) {
            Some(p) => {
                if d > 0 {
                    let sub = extract_rec(&p, d - 1);
                    crate::textutil::append_toks(&mut r, &sub);
                }
            },
            None => {},
        }
    }
    let ghost rb = views(r@);
    proof {
        assert(rb =~= ra + spart);
    }
    let ghost xpart = if tv[0] == "xargs"@ {
        match xargs_target(tv.skip(1)) {
            Some(t) => seq![t],
            None => Seq::<Seq<char>>::empty(),
        }
    } else {
        Seq::<Seq<char>>::empty()
    };
    if chars_eq_str(&ts[from], "xargs") {
        match xargs_target_exec(ts, from + 1) {
            Some(t) => {
                r.push(t);
            },
            None => {},
        }
    }
    proof {
        assert(views(r@) =~= rb + xpart);
        assert(views(r@) =~= seq![tv[0]] + wpart + spart + xpart);
        assert(views(r@) =~= head_cmds(tv, d as nat));
    }
    r
}

/// Scan wrapper arguments from `from` for the wrapped command.
pub fn wrapper_scan_exec(ts: &Vec<Vec<char>>, from: usize, d: usize) -> (r: Vec<Vec<char>>)
    requires
        from <= ts@.len(),
    ensures
        views(r@) == wrapper_scan(views(ts@).skip(from as int), d as nat),
    decreases d, 0int, ts@.len() - from, 1int,
{
    let ghost tv = views(ts@).skip(from as int);
    if from >= ts.len() {
        let r: Vec<Vec<char>> = Vec::new();
        proof {
            assert(tv =~= Seq::<Seq<char>>::empty());
            assert(views(r@) =~= wrapper_scan(tv, d as nat));
        }
        return r;
    }
    proof {
        assert(tv[0] == views(ts@)[from as int]);
        assert(tv.skip(1) =~= views(ts@).skip(from as int + 1));
    }
    if starts_dash_tok(&ts[from]) {
        if is_flag_value_tok(&ts[from]) {
            if ts.len() >= 2 && from <= ts.len() - 2 {
                proof {
                    assert(tv.skip(2) =~= views(ts@).skip(from as int + 2));
                }
                wrapper_scan_exec(ts, from + 2, d)
            } else {
                let r: Vec<Vec<char>> = Vec::new();
                proof {
                    assert(views(r@) =~= wrapper_scan(tv, d as nat));
                }
                r
            }
        } else {
            wrapper_scan_exec(ts, from + 1, d)
        }
    } else if is_assignment_tok(&ts[from]) {
        wrapper_scan_exec(ts, from + 1, d)
    } else {
        head_cmds_exec(ts, from, d)
    }
}

/// Extraction at bounded nesting depth `d`.
pub fn extract_rec(s: &Vec<char>, d: usize) -> (r: Vec<Vec<char>>)
    ensures
        views(r@) == extract_d(s@, d as nat),
    decreases d, 4int, 0int, 0int,
{
    let pieces = split_segments(s);
    let ghost pv = views(pieces@);
    let mut all: Vec<Vec<char>> = Vec::new();
    let mut i: usize = 0;
    proof {
        assert(pv.skip(0) =~= pv);
        assert(views(all@) + segs_cmds(pv, d as nat) =~= segs_cmds(pv, d as nat));
    }
    while i < pieces.len()
        invariant
            i <= pieces@.len(),
            pv == views(pieces@),
            segs_cmds(pv, d as nat) == views(all@) + segs_cmds(pv.skip(i as int), d as nat),
        decreases pieces@.len() - i,
    {
        let ghost pvs = pv.skip(i as int);
        proof {
            assert(pvs[0] == pv[i as int]);
            assert(pvs.skip(1) =~= pv.skip(i as int + 1));
        }
        let toks = crate::textutil::tokenize_chars(&pieces[i]);
        let k = skip_assignments_idx(&toks);
        let seg = head_cmds_exec(&toks, k, d);
        let ghost preall = views(all@);
        crate::textutil::append_toks(&mut all, &seg);
        // the contents of this segment's nested constructs follow its own
        // names, in scan order
        let scripts = nested_scripts_exec(&pieces[i], 0);
        proof {
            assert(pieces@[i as int]@.skip(0) =~= pieces@[i as int]@);
            assert(views(scripts@) == nested_scripts(pvs[0]));
        }
        let ghost sv = views(scripts@);
        let ghost base = views(all@);
        let mut j: usize = 0;
        proof {
            assert(sv.skip(0) =~= sv);
        }
        while j < scripts.len()
            invariant
                j <= scripts@.len(),
                sv == views(scripts@),
                base + nested_cmds(sv, d as nat) == views(all@) + nested_cmds(
                    sv.skip(j as int),
                    d as nat,
                ),
            decreases scripts@.len() - j,
        {
            let ghost svs = sv.skip(j as int);
            proof {
                assert(svs[0] == sv[j as int]);
                assert(svs.skip(1) =~= sv.skip(j as int + 1));
            }
            let ghost pren = views(all@);
            if d > 0 {
                let sub = extract_rec(&scripts[j], d - 1);
                crate::textutil::append_toks(&mut all, &sub);
                proof {
                    assert(pren + (extract_d(svs[0], (d - 1) as nat) + nested_cmds(
                        svs.skip(1),
                        d as nat,
                    )) =~= (pren + extract_d(svs[0], (d - 1) as nat)) + nested_cmds(
                        svs.skip(1),
                        d as nat,
                    ));
                }
            } else {
                proof {
                    assert(pren + (Seq::<Seq<char>>::empty() + nested_cmds(
                        svs.skip(1),
                        d as nat,
                    )) =~= pren + nested_cmds(svs.skip(1), d as nat));
                }
            }
            j = j + 1;
        }
        proof {
            assert(sv.skip(j as int) =~= Seq::<Seq<char>>::empty());
            assert(views(all@) + Seq::<Seq<char>>::empty() =~= views(all@));
            assert(views(seg@) == head_cmds(skip_assignments(tokenize(pvs[0])), d as nat));
            assert(base == preall + views(seg@));
            assert(sv == nested_scripts(pvs[0]));
            assert(views(all@) == base + nested_cmds(nested_scripts(pvs[0]), d as nat));
            assert(seg_cmds(pvs[0], d as nat) == head_cmds(
                skip_assignments(tokenize(pvs[0])),
                d as nat,
            ) + nested_cmds(nested_scripts(pvs[0]), d as nat));
            assert(segs_cmds(pvs, d as nat) == seg_cmds(pvs[0], d as nat) + segs_cmds(
                pvs.skip(1),
                d as nat,
            ));
            assert(preall + ((head_cmds(skip_assignments(tokenize(pvs[0])), d as nat)
                + nested_cmds(nested_scripts(pvs[0]), d as nat)) + segs_cmds(
                pvs.skip(1),
                d as nat,
            )) =~= views(all@) + segs_cmds(pvs.skip(1), d as nat));
        }
        i = i + 1;
    }
    proof {
        assert(pv.skip(i as int) =~= Seq::<Seq<char>>::empty());
        assert(views(all@) + Seq::<Seq<char>>::empty() =~= views(all@));
        assert(views(all@) == segs_cmds(segments(s@), d as nat));
    }
    dedup_exec(&all)
}

/// The shell command parser.
pub struct ShellParser {}

impl ShellParser {
    /// Create a new parser.
    pub fn new() -> (r: ShellParser) {
        ShellParser {  }
    }

    /// Extract the ordered, duplicate-free list of program names the command
    /// line would invoke, unwinding pipelines, connectives, wrappers,
    /// `shell -c` scripts, `xargs`, subshells and command substitutions.
    /// Order follows first occurrence in left-to-right script order: each
    /// segment's names come before the names its nested constructs reveal,
    /// and those before the next segment's.
    pub fn extract_commands(&self, command: &str) -> (r: Vec<String>)
        ensures
            crate::textutil::str_views(r@) == extract_cmds(command@),
    {
        let chars = crate::textutil::str_to_chars(command);
        let out = extract_rec(&chars, chars.len());
        crate::textutil::toks_to_strings(&out)
    }

    /// Split a command line into its first token and the remaining tokens,
    /// under shell quoting rules.
    pub fn extract_command_with_args(&self, command: &str) -> (r: (String, Vec<String>))
        ensures
            tokenize(command@).len() == 0 ==> r.0@ == Seq::<char>::empty() && r.1@.len() == 0,
            tokenize(command@).len() > 0 ==> r.0@ == tokenize(command@)[0]
                && crate::textutil::str_views(r.1@) == tokenize(command@).skip(1),
    {
        let chars = crate::textutil::str_to_chars(command);
        let toks = crate::textutil::tokenize_chars(&chars);
        if toks.len() == 0 {
            (String::new(), Vec::new())
        } else {
            let head = crate::textutil::chars_to_string(&toks[0]);
            let mut rest: Vec<String> = Vec::new();
            let mut i: usize = 1;
            proof {
                assert(crate::textutil::str_views(rest@) =~= views(toks@).subrange(1, 1));
            }
            while i < toks.len()
                invariant
                    1 <= i <= toks@.len(),
                    crate::textutil::str_views(rest@) == views(toks@).subrange(1, i as int),
                decreases toks@.len() - i,
            {
                let ghost oldrest = rest@;
                let t = crate::textutil::chars_to_string(&toks[i]);
                rest.push(t);
                i = i + 1;
                proof {
                    assert(crate::textutil::str_views(rest@) =~= crate::textutil::str_views(
                        oldrest,
                    ).push(views(toks@)[i as int - 1]));
                    assert(crate::textutil::str_views(rest@) =~= views(toks@).subrange(
                        1,
                        i as int,
                    ));
                }
            }
            proof {
                assert(views(toks@).subrange(1, toks@.len() as int) =~= views(toks@).skip(1));
            }
            (head, rest)
        }
    }
}

// ---------------------------------------------------------------------------
// Command texts: for pattern-based filters, each atomic segment is turned
// into its word list, with quoted content stripped and assignment prefixes
// dropped, and `shell -c` scripts and nested constructs unwound into word
// lists of their own.
// ---------------------------------------------------------------------------
/// The words of one segment: quoted content stripped, whitespace-split,
/// leading assignments dropped.
pub open spec fn seg_words(g: Seq<char>) -> Seq<Seq<char>> {
    skip_assignments(crate::textutil::ws_words(crate::textutil::strip_quoted(g)))
}

/// The word lists contributed by one segment.
pub open spec fn seg_texts(g: Seq<char>, d: nat) -> Seq<Seq<Seq<char>>>
    decreases d, 2int, 0int, 1int,
{
    (if seg_words(g).len() > 0 {
        seq![seg_words(g)]
    } else {
        Seq::<Seq<Seq<char>>>::empty()
    }) + ({
        let ts = skip_assignments(tokenize(g));
        if ts.len() > 0 && is_shell_name(ts[0]) {
            match c_payload(ts.skip(1)) {
                Some(p) => if d > 0 {
                    texts_d(p, (d - 1) as nat)
                } else {
                    Seq::<Seq<Seq<char>>>::empty()
                },
                None => Seq::<Seq<Seq<char>>>::empty(),
            }
        } else {
            Seq::<Seq<Seq<char>>>::empty()
        }
    }) + nested_texts(nested_scripts(g), d)
}

/// The word lists of a list of segments, in order.
pub open spec fn segs_texts(pieces: Seq<Seq<char>>, d: nat) -> Seq<Seq<Seq<char>>>
    decreases d, 3int, pieces.len(), 1int,
{
    if pieces.len() == 0 {
        Seq::empty()
    } else {
        seg_texts(pieces[0], d) + segs_texts(pieces.skip(1), d)
    }
}

/// The word lists of nested construct contents, in order.
pub open spec fn nested_texts(scripts: Seq<Seq<char>>, d: nat) -> Seq<Seq<Seq<char>>>
    decreases d, 1int, scripts.len(), 1int,
{
    if scripts.len() == 0 {
        Seq::empty()
    } else {
        (if d > 0 {
            texts_d(scripts[0], (d - 1) as nat)
        } else {
            Seq::<Seq<Seq<char>>>::empty()
        }) + nested_texts(scripts.skip(1), d)
    }
}

/// Command texts at bounded nesting depth `d`.
pub open spec fn texts_d(s: Seq<char>, d: nat) -> Seq<Seq<Seq<char>>>
    decreases d, 4int, 0int, 1int,
{
    segs_texts(segments(s), d)
}

/// The word list of every atomic segment the command line would run,
/// including segments revealed by `shell -c` scripts, subshells and command
/// substitutions.
pub open spec fn extract_texts(s: Seq<char>) -> Seq<Seq<Seq<char>>> {
    texts_d(s, s.len() as nat)
}

/// Append copies of all of `src` to `dst`.
fn append_segs(dst: &mut Vec<Vec<Vec<char>>>, src: &Vec<Vec<Vec<char>>>)
    ensures
        crate::textutil::views3(final(dst)@) == crate::textutil::views3(old(dst)@)
            + crate::textutil::views3(src@),
{
    let mut i: usize = 0;
    while i < src.len()
        invariant
            i <= src@.len(),
            crate::textutil::views3(dst@) == crate::textutil::views3(old(dst)@)
                + crate::textutil::views3(src@).take(i as int),
        decreases src@.len() - i,
    {
        let ghost pre = crate::textutil::views3(dst@);
        dst.push(crate::textutil::tail_toks(&src[i], 0));
        i = i + 1;
        proof {
            assert(views(src@[i as int - 1]@).skip(0) =~= views(src@[i as int - 1]@));
            assert(crate::textutil::views3(dst@) =~= pre.push(
                crate::textutil::views3(src@)[i as int - 1],
            ));
            assert(crate::textutil::views3(dst@) =~= crate::textutil::views3(old(dst)@)
                + crate::textutil::views3(src@).take(i as int));
        }
    }
    proof {
        assert(crate::textutil::views3(src@).take(src@.len() as int) =~= crate::textutil::views3(
            src@,
        ));
    }
}

/// The words of one segment, executably.
pub fn seg_words_exec(g: &Vec<char>) -> (r: Vec<Vec<char>>)
    ensures
        views(r@) == seg_words(g@),
{
    let stripped = crate::textutil::strip_quoted_chars(g);
    let words = crate::textutil::ws_words_chars(&stripped);
    let k = skip_assignments_idx(&words);
    crate::textutil::tail_toks(&words, k)
}

/// Command texts at bounded nesting depth `d`, executably.
pub fn texts_exec(s: &Vec<char>, d: usize) -> (r: Vec<Vec<Vec<char>>>)
    ensures
        crate::textutil::views3(r@) == texts_d(s@, d as nat),
    decreases d, 4int, 0int, 1int,
{
    let pieces = split_segments(s);
    let ghost pv = views(pieces@);
    let mut all: Vec<Vec<Vec<char>>> = Vec::new();
    let mut i: usize = 0;
    proof {
        assert(pv.skip(0) =~= pv);
        assert(crate::textutil::views3(all@) + segs_texts(pv, d as nat) =~= segs_texts(
            pv,
            d as nat,
        ));
    }
    while i < pieces.len()
        invariant
            i <= pieces@.len(),
            pv == views(pieces@),
            segs_texts(pv, d as nat) == crate::textutil::views3(all@) + segs_texts(
                pv.skip(i as int),
                d as nat,
            ),
        decreases pieces@.len() - i,
    {
        let ghost pvs = pv.skip(i as int);
        proof {
            assert(pvs[0] == pv[i as int]);
            assert(pvs.skip(1) =~= pv.skip(i as int + 1));
        }
        let ghost pre0 = crate::textutil::views3(all@);
        let ghost wordpart = if seg_words(pvs[0]).len() > 0 {
            seq![seg_words(pvs[0])]
        } else {
            Seq::<Seq<Seq<char>>>::empty()
        };
        let words = seg_words_exec(&pieces[i]);
        if words.len() > 0 {
            all.push(words);
            proof {
                assert(crate::textutil::views3(all@) =~= pre0.push(seg_words(pvs[0])));
                assert(crate::textutil::views3(all@) =~= pre0 + wordpart);
            }
        } else {
            proof {
                assert(views(words@).len() == 0);
                assert(crate::textutil::views3(all@) =~= pre0 + wordpart);
            }
        }
        let ghost pre1 = crate::textutil::views3(all@);
        let ghost shellpart = ({
            let ts = skip_assignments(tokenize(pvs[0]));
            if ts.len() > 0 && is_shell_name(ts[0]) {
                match c_payload(ts.skip(1)) {
                    Some(p) => if d > 0 {
                        texts_d(p, (d - 1) as nat)
                    } else {
                        Seq::<Seq<Seq<char>>>::empty()
                    },
                    None => Seq::<Seq<Seq<char>>>::empty(),
                }
            } else {
                Seq::<Seq<Seq<char>>>::empty()
            }
        });
        let toks = crate::textutil::tokenize_chars(&pieces[i]);
        let k = skip_assignments_idx(&toks);
        if k < toks.len() {
            proof {
                assert(views(toks@).skip(k as int)[0] == views(toks@)[k as int]);
                assert(views(toks@).skip(k as int).skip(1) =~= views(toks@).skip(k as int + 1));
            }
            if is_shell_tok(&toks[k]) {
                match c_payload_exec(&toks, k + 1) {
                    Some(p) => {
                        if d > 0 {
                            let sub = texts_exec(&p, d - 1);
                            append_segs(&mut all, &sub);
                        }
                    },
                    None => {},
                }
            }
        }
        proof {
            assert(crate::textutil::views3(all@) =~= pre1 + shellpart);
        }
        // the contents of this segment's nested constructs come last
        let ghost nestpart = nested_texts(nested_scripts(pvs[0]), d as nat);
        let scripts = nested_scripts_exec(&pieces[i], 0);
        proof {
            assert(pieces@[i as int]@.skip(0) =~= pieces@[i as int]@);
            assert(views(scripts@) == nested_scripts(pvs[0]));
        }
        let ghost sv = views(scripts@);
        let ghost base = crate::textutil::views3(all@);
        let mut j: usize = 0;
        proof {
            assert(sv.skip(0) =~= sv);
        }
        while j < scripts.len()
            invariant
                j <= scripts@.len(),
                sv == views(scripts@),
                base + nested_texts(sv, d as nat) == crate::textutil::views3(all@) + nested_texts(
                    sv.skip(j as int),
                    d as nat,
                ),
            decreases scripts@.len() - j,
        {
            let ghost svs = sv.skip(j as int);
            proof {
                assert(svs[0] == sv[j as int]);
                assert(svs.skip(1) =~= sv.skip(j as int + 1));
            }
            let ghost pren = crate::textutil::views3(all@);
            if d > 0 {
                let sub = texts_exec(&scripts[j], d - 1);
                append_segs(&mut all, &sub);
                proof {
                    assert(pren + (texts_d(svs[0], (d - 1) as nat) + nested_texts(
                        svs.skip(1),
                        d as nat,
                    )) =~= (pren + texts_d(svs[0], (d - 1) as nat)) + nested_texts(
                        svs.skip(1),
                        d as nat,
                    ));
                }
            } else {
                proof {
                    assert(pren + (Seq::<Seq<Seq<char>>>::empty() + nested_texts(
                        svs.skip(1),
                        d as nat,
                    )) =~= pren + nested_texts(svs.skip(1), d as nat));
                }
            }
            j = j + 1;
        }
        proof {
            assert(sv.skip(j as int) =~= Seq::<Seq<char>>::empty());
            assert(crate::textutil::views3(all@) + Seq::<Seq<Seq<char>>>::empty()
                =~= crate::textutil::views3(all@));
            assert(nested_texts(sv.skip(j as int), d as nat) == Seq::<Seq<Seq<char>>>::empty());
            assert(crate::textutil::views3(all@) == base + nestpart);
            assert(crate::textutil::views3(all@) =~= pre0 + ((wordpart + shellpart) + nestpart));
            assert(seg_texts(pvs[0], d as nat) == (wordpart + shellpart) + nestpart);
            assert(crate::textutil::views3(all@) =~= pre0 + seg_texts(pvs[0], d as nat));
            assert(pre0 + (seg_texts(pvs[0], d as nat) + segs_texts(pvs.skip(1), d as nat)) =~= (
            pre0 + seg_texts(pvs[0], d as nat)) + segs_texts(pvs.skip(1), d as nat));
        }
        i = i + 1;
    }
    proof {
        assert(pv.skip(i as int) =~= Seq::<Seq<char>>::empty());
        assert(crate::textutil::views3(all@) + Seq::<Seq<Seq<char>>>::empty()
            =~= crate::textutil::views3(all@));
        assert(crate::textutil::views3(all@) == segs_texts(segments(s@), d as nat));
    }
    all
}

/// The command texts of a command line: one word list per atomic segment,
/// nested scripts included.
pub fn extract_texts_exec(command: &str) -> (r: Vec<Vec<Vec<char>>>)
    ensures
        crate::textutil::views3(r@) == extract_texts(command@),
{
    let chars = crate::textutil::str_to_chars(command);
    texts_exec(&chars, chars.len())
}

impl Default for ShellParser {
    /// A parser with default settings.
    fn default() -> (r: ShellParser)
        ensures
            r == (ShellParser {  }),
    {
        ShellParser::new()
    }
}

} // verus!
