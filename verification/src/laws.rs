//! Properties of the command extractor, stated and proved once for all
//! inputs: what deduplication guarantees, that deeper unwinding never loses
//! names, that every segment head is found, and that wrapper, subshell and
//! substitution indirection cannot hide a command.

use vstd::prelude::*;

use crate::dd_filter::dd_command_spec;
use crate::dd_filter::is_dd_name;
use crate::kill_filter::default_kill_message;
use crate::kill_filter::is_kill_name;
use crate::kill_filter::kill_command_spec;
use crate::parser::c_payload;
use crate::parser::dedup;
use crate::parser::dedup_from;
use crate::parser::extract_cmds;
use crate::parser::extract_d;
use crate::parser::head_cmds;
use crate::parser::is_shell_name;
use crate::parser::is_wrapper_name;
use crate::parser::nested_cmds;
use crate::parser::nested_scripts;
use crate::parser::seg_cmds;
use crate::parser::segments;
use crate::parser::segs_cmds;
use crate::parser::skip_assignments;
use crate::parser::wrapper_scan;
use crate::parser::xargs_target;
use crate::rm_filter::is_rm_name;
use crate::rm_filter::rm_command_spec;
use crate::parser::is_assignment;
use crate::parser::seg_rec;
use crate::textutil::tok_rec;
use crate::textutil::tokenize;

verus! {

// ---------------------------------------------------------------------------
// Membership helpers.
// ---------------------------------------------------------------------------
pub proof fn lemma_concat_contains(a: Seq<Seq<char>>, b: Seq<Seq<char>>, x: Seq<char>)
    ensures
        (a + b).contains(x) <==> a.contains(x) || b.contains(x),
{
    if (a + b).contains(x) {
        let i = choose|i: int| 0 <= i < (a + b).len() && (a + b)[i] == x;
        if i < a.len() {
            assert(a[i] == x);
        } else {
            assert(b[i - a.len()] == x);
        }
    }
    if a.contains(x) {
        let i = choose|i: int| 0 <= i < a.len() && a[i] == x;
        assert((a + b)[i] == x);
    }
    if b.contains(x) {
        let i = choose|i: int| 0 <= i < b.len() && b[i] == x;
        assert((a + b)[a.len() + i] == x);
    }
}

pub proof fn lemma_dedup_from_contains(l: Seq<Seq<char>>, i: int, x: Seq<char>)
    requires
        0 <= i <= l.len(),
        !l.take(i).contains(x),
    ensures
        dedup_from(l, i).contains(x) <==> (exists|j: int| i <= j < l.len() && l[j] == x),
    decreases l.len() - i,
{
    if i < l.len() {
        if x == l[i] {
            assert(!l.take(i).contains(l[i]));
            assert(dedup_from(l, i)[0] == x);
            assert(dedup_from(l, i).contains(x));
        } else {
            assert(!l.take(i + 1).contains(x)) by {
                if l.take(i + 1).contains(x) {
                    let j = choose|j: int| 0 <= j < i + 1 && #[trigger] l.take(i + 1)[j] == x;
                    if j < i {
                        assert(l.take(i)[j] == x);
                    }
                }
            }
            lemma_dedup_from_contains(l, i + 1, x);
            if l.take(i).contains(l[i]) {
                if exists|j: int| i <= j < l.len() && l[j] == x {
                    let j = choose|j: int| i <= j < l.len() && l[j] == x;
                    assert(i + 1 <= j < l.len() && l[j] == x);
                }
            } else {
                if dedup_from(l, i).contains(x) {
                    let k = choose|k: int|
                        0 <= k < dedup_from(l, i).len() && #[trigger] dedup_from(l, i)[k] == x;
                    if k == 0 {
                        assert(l[i] == x);
                    } else {
                        assert(dedup_from(l, i + 1)[k - 1] == x);
                        assert(dedup_from(l, i + 1).contains(x));
                    }
                }
                if exists|j: int| i <= j < l.len() && l[j] == x {
                    let j = choose|j: int| i <= j < l.len() && l[j] == x;
                    assert(i + 1 <= j < l.len() && l[j] == x);
                    assert(dedup_from(l, i + 1).contains(x));
                    let k = choose|k: int|
                        0 <= k < dedup_from(l, i + 1).len() && #[trigger] dedup_from(l, i + 1)[k]
                            == x;
                    assert(dedup_from(l, i)[k + 1] == x);
                }
            }
        }
    }
}

/// Membership in a dedup is membership in the underlying list.
pub proof fn lemma_dedup_contains(l: Seq<Seq<char>>, x: Seq<char>)
    ensures
        dedup(l).contains(x) <==> l.contains(x),
{
    assert(l.take(0) =~= Seq::<Seq<char>>::empty());
    lemma_dedup_from_contains(l, 0, x);
    if exists|j: int| 0 <= j < l.len() && l[j] == x {
        let j = choose|j: int| 0 <= j < l.len() && l[j] == x;
        assert(l.contains(x));
    }
}

/// Membership in the extraction, unfolded one level: a name is extracted
/// exactly when some segment yields it.
pub proof fn lemma_extract_membership(s: Seq<char>, d: nat, x: Seq<char>)
    ensures
        extract_d(s, d).contains(x) <==> segs_cmds(segments(s), d).contains(x),
{
    lemma_dedup_contains(segs_cmds(segments(s), d), x);
}

/// Membership in one segment's names, unfolded: the head-derived names or
/// the names of one of its nested scripts.
pub proof fn lemma_seg_membership(g: Seq<char>, d: nat, x: Seq<char>)
    ensures
        seg_cmds(g, d).contains(x) <==> (head_cmds(skip_assignments(tokenize(g)), d).contains(x)
            || nested_cmds(nested_scripts(g), d).contains(x)),
{
    lemma_concat_contains(
        head_cmds(skip_assignments(tokenize(g)), d),
        nested_cmds(nested_scripts(g), d),
        x,
    );
}

/// A name yielded by the `k`-th segment is yielded by the segment list.
pub proof fn lemma_segs_cmds_contains(pieces: Seq<Seq<char>>, d: nat, k: int, x: Seq<char>)
    requires
        0 <= k < pieces.len(),
        seg_cmds(pieces[k], d).contains(x),
    ensures
        segs_cmds(pieces, d).contains(x),
    decreases k,
{
    if k == 0 {
        lemma_concat_contains(seg_cmds(pieces[0], d), segs_cmds(pieces.skip(1), d), x);
    } else {
        assert(pieces.skip(1)[k - 1] == pieces[k]);
        lemma_segs_cmds_contains(pieces.skip(1), d, k - 1, x);
        lemma_concat_contains(seg_cmds(pieces[0], d), segs_cmds(pieces.skip(1), d), x);
    }
}

/// A name yielded by the `k`-th nested script is yielded by the list.
pub proof fn lemma_nested_cmds_contains(scripts: Seq<Seq<char>>, d: nat, k: int, x: Seq<char>)
    requires
        0 <= k < scripts.len(),
        d > 0,
        extract_d(scripts[k], (d - 1) as nat).contains(x),
    ensures
        nested_cmds(scripts, d).contains(x),
    decreases k,
{
    if k == 0 {
        lemma_concat_contains(
            extract_d(scripts[0], (d - 1) as nat),
            nested_cmds(scripts.skip(1), d),
            x,
        );
    } else {
        assert(scripts.skip(1)[k - 1] == scripts[k]);
        lemma_nested_cmds_contains(scripts.skip(1), d, k - 1, x);
        lemma_concat_contains(
            if d > 0 {
                extract_d(scripts[0], (d - 1) as nat)
            } else {
                Seq::<Seq<char>>::empty()
            },
            nested_cmds(scripts.skip(1), d),
            x,
        );
    }
}

// ---------------------------------------------------------------------------
// Depth monotonicity: unwinding deeper never loses a name.  The public
// extraction always supplies enough depth, so these lemmas let results at
// different depths be compared.
// ---------------------------------------------------------------------------
pub proof fn lemma_mono_head(ts: Seq<Seq<char>>, d1: nat, d2: nat, x: Seq<char>)
    requires
        d2 <= d1,
        head_cmds(ts, d2).contains(x),
    ensures
        head_cmds(ts, d1).contains(x),
    decreases d2, 0int, ts.len(), 0int,
{
    if ts.len() > 0 {
        let h = ts[0];
        let w2 = if is_wrapper_name(h) {
            wrapper_scan(ts.skip(1), d2)
        } else {
            Seq::<Seq<char>>::empty()
        };
        let s2 = if is_shell_name(h) {
            match c_payload(ts.skip(1)) {
                Some(p) => if d2 > 0 {
                    extract_d(p, (d2 - 1) as nat)
                } else {
                    Seq::<Seq<char>>::empty()
                },
                None => Seq::<Seq<char>>::empty(),
            }
        } else {
            Seq::<Seq<char>>::empty()
        };
        let x2 = if h == "xargs"@ {
            match xargs_target(ts.skip(1)) {
                Some(t) => seq![t],
                None => Seq::<Seq<char>>::empty(),
            }
        } else {
            Seq::<Seq<char>>::empty()
        };
        let w1 = if is_wrapper_name(h) {
            wrapper_scan(ts.skip(1), d1)
        } else {
            Seq::<Seq<char>>::empty()
        };
        let s1 = if is_shell_name(h) {
            match c_payload(ts.skip(1)) {
                Some(p) => if d1 > 0 {
                    extract_d(p, (d1 - 1) as nat)
                } else {
                    Seq::<Seq<char>>::empty()
                },
                None => Seq::<Seq<char>>::empty(),
            }
        } else {
            Seq::<Seq<char>>::empty()
        };
        lemma_concat_contains(seq![h] + w2 + s2, x2, x);
        lemma_concat_contains(seq![h] + w2, s2, x);
        lemma_concat_contains(seq![h], w2, x);
        if seq![h].contains(x) {
            assert((seq![h])[0] == x);
        } else if w2.contains(x) {
            lemma_mono_wrapper(ts.skip(1), d1, d2, x);
        } else if s2.contains(x) {
            let p = c_payload(ts.skip(1))->Some_0;
            lemma_mono_extract(p, (d1 - 1) as nat, (d2 - 1) as nat, x);
        }
        lemma_concat_contains(seq![h], w1, x);
        lemma_concat_contains(seq![h] + w1, s1, x);
        lemma_concat_contains(seq![h] + w1 + s1, x2, x);
    }
}

pub proof fn lemma_mono_wrapper(ts: Seq<Seq<char>>, d1: nat, d2: nat, x: Seq<char>)
    requires
        d2 <= d1,
        wrapper_scan(ts, d2).contains(x),
    ensures
        wrapper_scan(ts, d1).contains(x),
    decreases d2, 0int, ts.len(), 1int,
{
    if ts.len() > 0 {
        if crate::parser::starts_dash(ts[0]) {
            if crate::parser::is_flag_with_value(ts[0]) {
                if ts.len() >= 2 {
                    lemma_mono_wrapper(ts.skip(2), d1, d2, x);
                }
            } else {
                lemma_mono_wrapper(ts.skip(1), d1, d2, x);
            }
        } else if crate::parser::is_assignment(ts[0]) {
            lemma_mono_wrapper(ts.skip(1), d1, d2, x);
        } else {
            lemma_mono_head(ts, d1, d2, x);
        }
    }
}

pub proof fn lemma_mono_seg(g: Seq<char>, d1: nat, d2: nat, x: Seq<char>)
    requires
        d2 <= d1,
        seg_cmds(g, d2).contains(x),
    ensures
        seg_cmds(g, d1).contains(x),
    decreases d2, 2int, 0int, 0int,
{
    lemma_concat_contains(
        head_cmds(skip_assignments(tokenize(g)), d2),
        nested_cmds(nested_scripts(g), d2),
        x,
    );
    if head_cmds(skip_assignments(tokenize(g)), d2).contains(x) {
        lemma_mono_head(skip_assignments(tokenize(g)), d1, d2, x);
    } else {
        lemma_mono_nested(nested_scripts(g), d1, d2, x);
    }
    lemma_concat_contains(
        head_cmds(skip_assignments(tokenize(g)), d1),
        nested_cmds(nested_scripts(g), d1),
        x,
    );
}

pub proof fn lemma_mono_segs(pieces: Seq<Seq<char>>, d1: nat, d2: nat, x: Seq<char>)
    requires
        d2 <= d1,
        segs_cmds(pieces, d2).contains(x),
    ensures
        segs_cmds(pieces, d1).contains(x),
    decreases d2, 3int, pieces.len(), 0int,
{
    if pieces.len() > 0 {
        lemma_concat_contains(seg_cmds(pieces[0], d2), segs_cmds(pieces.skip(1), d2), x);
        if seg_cmds(pieces[0], d2).contains(x) {
            lemma_mono_seg(pieces[0], d1, d2, x);
        } else {
            lemma_mono_segs(pieces.skip(1), d1, d2, x);
        }
        lemma_concat_contains(seg_cmds(pieces[0], d1), segs_cmds(pieces.skip(1), d1), x);
    }
}

pub proof fn lemma_mono_nested(scripts: Seq<Seq<char>>, d1: nat, d2: nat, x: Seq<char>)
    requires
        d2 <= d1,
        nested_cmds(scripts, d2).contains(x),
    ensures
        nested_cmds(scripts, d1).contains(x),
    decreases d2, 1int, scripts.len(), 0int,
{
    if scripts.len() > 0 {
        let h2 = if d2 > 0 {
            extract_d(scripts[0], (d2 - 1) as nat)
        } else {
            Seq::<Seq<char>>::empty()
        };
        let h1 = if d1 > 0 {
            extract_d(scripts[0], (d1 - 1) as nat)
        } else {
            Seq::<Seq<char>>::empty()
        };
        lemma_concat_contains(h2, nested_cmds(scripts.skip(1), d2), x);
        if h2.contains(x) {
            lemma_mono_extract(scripts[0], (d1 - 1) as nat, (d2 - 1) as nat, x);
        } else {
            lemma_mono_nested(scripts.skip(1), d1, d2, x);
        }
        lemma_concat_contains(h1, nested_cmds(scripts.skip(1), d1), x);
    }
}

/// Deeper unwinding never loses a name.
pub proof fn lemma_mono_extract(s: Seq<char>, d1: nat, d2: nat, x: Seq<char>)
    requires
        d2 <= d1,
        extract_d(s, d2).contains(x),
    ensures
        extract_d(s, d1).contains(x),
    decreases d2, 4int, 0int, 0int,
{
    lemma_extract_membership(s, d2, x);
    lemma_mono_segs(segments(s), d1, d2, x);
    lemma_extract_membership(s, d1, x);
}

// ---------------------------------------------------------------------------
// Deduplication (law): extraction is an ordered, duplicate-free sequence,
// and as a pure function of its input it is the same on every run.
// ---------------------------------------------------------------------------
proof fn lemma_dedup_from_nodup(l: Seq<Seq<char>>, i: int)
    requires
        0 <= i <= l.len(),
    ensures
        forall|p: int, q: int|
            0 <= p < q < dedup_from(l, i).len() ==> dedup_from(l, i)[p] != dedup_from(l, i)[q],
    decreases l.len() - i,
{
    if i < l.len() {
        lemma_dedup_from_nodup(l, i + 1);
        if !l.take(i).contains(l[i]) {
            assert forall|p: int, q: int|
                0 <= p < q < dedup_from(l, i).len() implies dedup_from(l, i)[p] != dedup_from(
                l,
                i,
            )[q] by {
                if p == 0 {
                    assert(dedup_from(l, i)[0] == l[i]);
                    assert(dedup_from(l, i)[q] == dedup_from(l, i + 1)[q - 1]);
                    if dedup_from(l, i)[q] == l[i] {
                        // a later duplicate of l[i] is skipped: dedup keeps
                        // only first occurrences
                        assert forall|j: int|
                            i + 1 <= j < l.len() && l[j] == l[i] implies l.take(j).contains(
                            l[i],
                        ) by {
                            assert(l.take(j)[i] == l[i]);
                        }
                        lemma_dedup_from_first(l, i + 1, l[i]);
                        assert(dedup_from(l, i + 1).contains(l[i])) by {
                            assert(dedup_from(l, i + 1)[q - 1] == l[i]);
                        }
                    }
                } else {
                    assert(dedup_from(l, i)[p] == dedup_from(l, i + 1)[p - 1]);
                    assert(dedup_from(l, i)[q] == dedup_from(l, i + 1)[q - 1]);
                }
            }
        } else {
            assert(dedup_from(l, i) == dedup_from(l, i + 1));
            assert forall|p: int, q: int|
                0 <= p < q < dedup_from(l, i).len() implies dedup_from(l, i)[p] != dedup_from(
                l,
                i,
            )[q] by {
                assert(dedup_from(l, i + 1)[p] != dedup_from(l, i + 1)[q]);
            }
        }
    }
}

/// A value whose first occurrence is before `i` is not in `dedup_from(l, i)`.
proof fn lemma_dedup_from_first(l: Seq<Seq<char>>, i: int, x: Seq<char>)
    requires
        0 <= i <= l.len(),
        forall|j: int| i <= j < l.len() && l[j] == x ==> l.take(j).contains(x),
    ensures
        !dedup_from(l, i).contains(x),
    decreases l.len() - i,
{
    if i < l.len() {
        assert forall|j: int| i + 1 <= j < l.len() && l[j] == x implies l.take(j).contains(x) by {
            assert(i <= j < l.len());
        }
        lemma_dedup_from_first(l, i + 1, x);
        if !l.take(i).contains(l[i]) {
            if dedup_from(l, i).contains(x) {
                let k = choose|k: int|
                    0 <= k < dedup_from(l, i).len() && #[trigger] dedup_from(l, i)[k] == x;
                if k == 0 {
                    assert(l[i] == x);
                    assert(l.take(i).contains(x));
                } else {
                    assert(dedup_from(l, i + 1)[k - 1] == x);
                    assert(dedup_from(l, i + 1).contains(x));
                }
            }
        } else {
            if dedup_from(l, i).contains(x) {
                assert(dedup_from(l, i + 1).contains(x));
            }
        }
    }
}

/// Deduplication (law): the extracted command list holds no duplicates;
/// being a function of the command line alone, extracting twice yields the
/// same ordered, duplicate-free sequence.
pub proof fn lemma_extract_no_duplicates(s: Seq<char>)
    ensures
        forall|p: int, q: int|
            0 <= p < q < extract_cmds(s).len() ==> extract_cmds(s)[p] != extract_cmds(s)[q],
{
    lemma_dedup_from_nodup(segs_cmds(segments(s), s.len() as nat), 0);
}

// ---------------------------------------------------------------------------
// Segment heads (law): the candidate command of every atomic segment is
// extracted, so a denylisted name heading any pipeline, chain or semicolon
// segment is seen by the corresponding built-in filter.
// ---------------------------------------------------------------------------
/// The candidate command name of the `k`-th atomic segment.
pub open spec fn segment_head(s: Seq<char>, k: int) -> Seq<char> {
    skip_assignments(tokenize(segments(s)[k]))[0]
}

/// Whether the `k`-th atomic segment has a candidate command.
pub open spec fn segment_has_head(s: Seq<char>, k: int) -> bool {
    0 <= k < segments(s).len() && skip_assignments(tokenize(segments(s)[k])).len() > 0
}

/// Segment heads (law): the candidate command of every atomic segment is
/// among the extracted names; if it is denylisted, the corresponding
/// built-in filter's test holds of the command line, so that filter blocks
/// the event it applies to.
pub proof fn lemma_segment_head_extracted(s: Seq<char>, k: int)
    requires
        segment_has_head(s, k),
    ensures
        extract_cmds(s).contains(segment_head(s, k)),
        is_kill_name(segment_head(s, k)) ==> kill_command_spec(s),
        is_dd_name(segment_head(s, k)) ==> dd_command_spec(s),
        is_rm_name(segment_head(s, k)) ==> rm_command_spec(s),
{
    let d = s.len() as nat;
    let g = segments(s)[k];
    let ts = skip_assignments(tokenize(g));
    let h = ts[0];
    assert(head_cmds(ts, d)[0] == h);
    assert(head_cmds(ts, d).contains(h));
    lemma_seg_membership(g, d, h);
    assert(seg_cmds(g, d).contains(h));
    lemma_segs_cmds_contains(segments(s), d, k, h);
    lemma_extract_membership(s, d, h);
    let cs = extract_cmds(s);
    let i = choose|i: int| 0 <= i < cs.len() && cs[i] == h;
    assert(cs[i] == segment_head(s, k));
}


// ---------------------------------------------------------------------------
// Character classes and prefix lemmas: prepending plain text shifts the
// splitters without changing their behaviour on the rest.
// ---------------------------------------------------------------------------
/// A character that no splitter treats specially: it is pushed through the
/// tokenizer, the segment splitter and the nested-construct scanner alike,
/// and cannot make a token an assignment or a flag.
pub open spec fn cmdword_char(c: char) -> bool {
    c != '\\' && c != '\'' && c != '"' && c != ';' && c != '|' && c != '&' && c != ' ' && c
        != '\t' && c != '\n' && c != '\r' && c != '(' && c != '`' && c != '=' && c != '-'
}

/// Character facts for the literal "sudo".
proof fn lemma_word_chars_sudo()
    ensures
        "sudo"@.len() == 4,
        forall|i: int| 0 <= i < "sudo"@.len() ==> cmdword_char(#[trigger] "sudo"@[i]),
{
    reveal_strlit("sudo");
    assert forall|i: int| 0 <= i < "sudo"@.len() implies cmdword_char(
        #[trigger] "sudo"@[i],
    ) by {
            if i == 0 {
                assert("sudo"@[0] == 's');
            } else if i == 1 {
                assert("sudo"@[1] == 'u');
            } else if i == 2 {
                assert("sudo"@[2] == 'd');
            } else if i == 3 {
                assert("sudo"@[3] == 'o');
            }
    }
}

/// Character facts for the literal "bash".
proof fn lemma_word_chars_bash()
    ensures
        "bash"@.len() == 4,
        forall|i: int| 0 <= i < "bash"@.len() ==> cmdword_char(#[trigger] "bash"@[i]),
{
    reveal_strlit("bash");
    assert forall|i: int| 0 <= i < "bash"@.len() implies cmdword_char(
        #[trigger] "bash"@[i],
    ) by {
            if i == 0 {
                assert("bash"@[0] == 'b');
            } else if i == 1 {
                assert("bash"@[1] == 'a');
            } else if i == 2 {
                assert("bash"@[2] == 's');
            } else if i == 3 {
                assert("bash"@[3] == 'h');
            }
    }
}

/// Character facts for the literal "sh".
proof fn lemma_word_chars_sh()
    ensures
        "sh"@.len() == 2,
        forall|i: int| 0 <= i < "sh"@.len() ==> cmdword_char(#[trigger] "sh"@[i]),
{
    reveal_strlit("sh");
    assert forall|i: int| 0 <= i < "sh"@.len() implies cmdword_char(
        #[trigger] "sh"@[i],
    ) by {
            if i == 0 {
                assert("sh"@[0] == 's');
            } else if i == 1 {
                assert("sh"@[1] == 'h');
            }
    }
}

/// Character facts for the literal "zsh".
proof fn lemma_word_chars_zsh()
    ensures
        "zsh"@.len() == 3,
        forall|i: int| 0 <= i < "zsh"@.len() ==> cmdword_char(#[trigger] "zsh"@[i]),
{
    reveal_strlit("zsh");
    assert forall|i: int| 0 <= i < "zsh"@.len() implies cmdword_char(
        #[trigger] "zsh"@[i],
    ) by {
            if i == 0 {
                assert("zsh"@[0] == 'z');
            } else if i == 1 {
                assert("zsh"@[1] == 's');
            } else if i == 2 {
                assert("zsh"@[2] == 'h');
            }
    }
}

/// Character facts for the literal "ksh".
proof fn lemma_word_chars_ksh()
    ensures
        "ksh"@.len() == 3,
        forall|i: int| 0 <= i < "ksh"@.len() ==> cmdword_char(#[trigger] "ksh"@[i]),
{
    reveal_strlit("ksh");
    assert forall|i: int| 0 <= i < "ksh"@.len() implies cmdword_char(
        #[trigger] "ksh"@[i],
    ) by {
            if i == 0 {
                assert("ksh"@[0] == 'k');
            } else if i == 1 {
                assert("ksh"@[1] == 's');
            } else if i == 2 {
                assert("ksh"@[2] == 'h');
            }
    }
}

/// Character facts for the literal "csh".
proof fn lemma_word_chars_csh()
    ensures
        "csh"@.len() == 3,
        forall|i: int| 0 <= i < "csh"@.len() ==> cmdword_char(#[trigger] "csh"@[i]),
{
    reveal_strlit("csh");
    assert forall|i: int| 0 <= i < "csh"@.len() implies cmdword_char(
        #[trigger] "csh"@[i],
    ) by {
            if i == 0 {
                assert("csh"@[0] == 'c');
            } else if i == 1 {
                assert("csh"@[1] == 's');
            } else if i == 2 {
                assert("csh"@[2] == 'h');
            }
    }
}

/// Character facts for the literal "tcsh".
proof fn lemma_word_chars_tcsh()
    ensures
        "tcsh"@.len() == 4,
        forall|i: int| 0 <= i < "tcsh"@.len() ==> cmdword_char(#[trigger] "tcsh"@[i]),
{
    reveal_strlit("tcsh");
    assert forall|i: int| 0 <= i < "tcsh"@.len() implies cmdword_char(
        #[trigger] "tcsh"@[i],
    ) by {
            if i == 0 {
                assert("tcsh"@[0] == 't');
            } else if i == 1 {
                assert("tcsh"@[1] == 'c');
            } else if i == 2 {
                assert("tcsh"@[2] == 's');
            } else if i == 3 {
                assert("tcsh"@[3] == 'h');
            }
    }
}

/// Character facts for the literal "fish".
proof fn lemma_word_chars_fish()
    ensures
        "fish"@.len() == 4,
        forall|i: int| 0 <= i < "fish"@.len() ==> cmdword_char(#[trigger] "fish"@[i]),
{
    reveal_strlit("fish");
    assert forall|i: int| 0 <= i < "fish"@.len() implies cmdword_char(
        #[trigger] "fish"@[i],
    ) by {
            if i == 0 {
                assert("fish"@[0] == 'f');
            } else if i == 1 {
                assert("fish"@[1] == 'i');
            } else if i == 2 {
                assert("fish"@[2] == 's');
            } else if i == 3 {
                assert("fish"@[3] == 'h');
            }
    }
}

/// Character facts for the literal "dash".
proof fn lemma_word_chars_dash()
    ensures
        "dash"@.len() == 4,
        forall|i: int| 0 <= i < "dash"@.len() ==> cmdword_char(#[trigger] "dash"@[i]),
{
    reveal_strlit("dash");
    assert forall|i: int| 0 <= i < "dash"@.len() implies cmdword_char(
        #[trigger] "dash"@[i],
    ) by {
            if i == 0 {
                assert("dash"@[0] == 'd');
            } else if i == 1 {
                assert("dash"@[1] == 'a');
            } else if i == 2 {
                assert("dash"@[2] == 's');
            } else if i == 3 {
                assert("dash"@[3] == 'h');
            }
    }
}


proof fn lemma_neq_by_char(a: Seq<char>, b: Seq<char>, i: int)
    requires
        0 <= i < a.len(),
        i < b.len(),
        a[i] != b[i],
    ensures
        a != b,
{
    if a == b {
        assert(a[i] == b[i]);
    }
}

proof fn lemma_neq_by_len(a: Seq<char>, b: Seq<char>)
    requires
        a.len() != b.len(),
    ensures
        a != b,
{
}

/// Facts every supported interpreter name enjoys: its characters are plain,
/// and it is not a wrapper, not `xargs`, not an assignment, not a flag.
pub proof fn lemma_shell_props(t: Seq<char>)
    requires
        is_shell_name(t),
    ensures
        t.len() >= 2,
        forall|i: int| 0 <= i < t.len() ==> cmdword_char(#[trigger] t[i]),
        !is_wrapper_name(t),
        t != "xargs"@,
        !is_assignment(t),
        !crate::parser::starts_dash(t),
{
    reveal_strlit("xargs");
    reveal_strlit("bash");
    reveal_strlit("sh");
    reveal_strlit("zsh");
    reveal_strlit("ksh");
    reveal_strlit("csh");
    reveal_strlit("tcsh");
    reveal_strlit("fish");
    reveal_strlit("dash");
    reveal_strlit("sudo");
    reveal_strlit("env");
    reveal_strlit("nohup");
    reveal_strlit("nice");
    reveal_strlit("ionice");
    reveal_strlit("time");
    reveal_strlit("timeout");
    reveal_strlit("strace");
    reveal_strlit("ltrace");
    reveal_strlit("doas");
    if t == "bash"@ {
        lemma_word_chars_bash();
        lemma_neq_by_char("bash"@, "sudo"@, 0);
        lemma_neq_by_len("bash"@, "env"@);
        lemma_neq_by_len("bash"@, "nohup"@);
        lemma_neq_by_char("bash"@, "nice"@, 0);
        lemma_neq_by_len("bash"@, "ionice"@);
        lemma_neq_by_char("bash"@, "time"@, 0);
        lemma_neq_by_len("bash"@, "timeout"@);
        lemma_neq_by_len("bash"@, "strace"@);
        lemma_neq_by_len("bash"@, "ltrace"@);
        lemma_neq_by_char("bash"@, "doas"@, 0);
        lemma_neq_by_len("bash"@, "xargs"@);
    } else if t == "sh"@ {
        reveal_strlit("sh");
        lemma_neq_by_len("sh"@, "sudo"@);
        lemma_neq_by_len("sh"@, "env"@);
        lemma_neq_by_len("sh"@, "nohup"@);
        lemma_neq_by_len("sh"@, "nice"@);
        lemma_neq_by_len("sh"@, "ionice"@);
        lemma_neq_by_len("sh"@, "time"@);
        lemma_neq_by_len("sh"@, "timeout"@);
        lemma_neq_by_len("sh"@, "strace"@);
        lemma_neq_by_len("sh"@, "ltrace"@);
        lemma_neq_by_len("sh"@, "doas"@);
        lemma_neq_by_len("sh"@, "xargs"@);
        assert forall|i: int| 0 <= i < "sh"@.len() implies cmdword_char(#[trigger] "sh"@[i]) by {
            if i == 0 {
                assert("sh"@[0] == 's');
            } else if i == 1 {
                assert("sh"@[1] == 'h');
            }
        }
    } else if t == "zsh"@ {
        lemma_word_chars_zsh();
        lemma_neq_by_len("zsh"@, "sudo"@);
        lemma_neq_by_char("zsh"@, "env"@, 0);
        lemma_neq_by_len("zsh"@, "nohup"@);
        lemma_neq_by_len("zsh"@, "nice"@);
        lemma_neq_by_len("zsh"@, "ionice"@);
        lemma_neq_by_len("zsh"@, "time"@);
        lemma_neq_by_len("zsh"@, "timeout"@);
        lemma_neq_by_len("zsh"@, "strace"@);
        lemma_neq_by_len("zsh"@, "ltrace"@);
        lemma_neq_by_len("zsh"@, "doas"@);
        lemma_neq_by_len("zsh"@, "xargs"@);
    } else if t == "ksh"@ {
        lemma_word_chars_ksh();
        lemma_neq_by_len("ksh"@, "sudo"@);
        lemma_neq_by_char("ksh"@, "env"@, 0);
        lemma_neq_by_len("ksh"@, "nohup"@);
        lemma_neq_by_len("ksh"@, "nice"@);
        lemma_neq_by_len("ksh"@, "ionice"@);
        lemma_neq_by_len("ksh"@, "time"@);
        lemma_neq_by_len("ksh"@, "timeout"@);
        lemma_neq_by_len("ksh"@, "strace"@);
        lemma_neq_by_len("ksh"@, "ltrace"@);
        lemma_neq_by_len("ksh"@, "doas"@);
        lemma_neq_by_len("ksh"@, "xargs"@);
    } else if t == "csh"@ {
        lemma_word_chars_csh();
        lemma_neq_by_len("csh"@, "sudo"@);
        lemma_neq_by_char("csh"@, "env"@, 0);
        lemma_neq_by_len("csh"@, "nohup"@);
        lemma_neq_by_len("csh"@, "nice"@);
        lemma_neq_by_len("csh"@, "ionice"@);
        lemma_neq_by_len("csh"@, "time"@);
        lemma_neq_by_len("csh"@, "timeout"@);
        lemma_neq_by_len("csh"@, "strace"@);
        lemma_neq_by_len("csh"@, "ltrace"@);
        lemma_neq_by_len("csh"@, "doas"@);
        lemma_neq_by_len("csh"@, "xargs"@);
    } else if t == "tcsh"@ {
        lemma_word_chars_tcsh();
        lemma_neq_by_char("tcsh"@, "sudo"@, 0);
        lemma_neq_by_len("tcsh"@, "env"@);
        lemma_neq_by_len("tcsh"@, "nohup"@);
        lemma_neq_by_char("tcsh"@, "nice"@, 0);
        lemma_neq_by_len("tcsh"@, "ionice"@);
        lemma_neq_by_char("tcsh"@, "time"@, 1);
        lemma_neq_by_len("tcsh"@, "timeout"@);
        lemma_neq_by_len("tcsh"@, "strace"@);
        lemma_neq_by_len("tcsh"@, "ltrace"@);
        lemma_neq_by_char("tcsh"@, "doas"@, 0);
        lemma_neq_by_len("tcsh"@, "xargs"@);
    } else if t == "fish"@ {
        lemma_word_chars_fish();
        lemma_neq_by_char("fish"@, "sudo"@, 0);
        lemma_neq_by_len("fish"@, "env"@);
        lemma_neq_by_len("fish"@, "nohup"@);
        lemma_neq_by_char("fish"@, "nice"@, 0);
        lemma_neq_by_len("fish"@, "ionice"@);
        lemma_neq_by_char("fish"@, "time"@, 0);
        lemma_neq_by_len("fish"@, "timeout"@);
        lemma_neq_by_len("fish"@, "strace"@);
        lemma_neq_by_len("fish"@, "ltrace"@);
        lemma_neq_by_char("fish"@, "doas"@, 0);
        lemma_neq_by_len("fish"@, "xargs"@);
    } else {
        lemma_word_chars_dash();
        lemma_neq_by_char("dash"@, "sudo"@, 0);
        lemma_neq_by_len("dash"@, "env"@);
        lemma_neq_by_len("dash"@, "nohup"@);
        lemma_neq_by_char("dash"@, "nice"@, 0);
        lemma_neq_by_len("dash"@, "ionice"@);
        lemma_neq_by_char("dash"@, "time"@, 0);
        lemma_neq_by_len("dash"@, "timeout"@);
        lemma_neq_by_len("dash"@, "strace"@);
        lemma_neq_by_len("dash"@, "ltrace"@);
        lemma_neq_by_char("dash"@, "doas"@, 1);
        lemma_neq_by_len("dash"@, "xargs"@);
    }
    if is_assignment(t) {
        let i = choose|i: int| 0 <= i < t.len() && t[i] == '=';
        assert(cmdword_char(t[i]));
    }
}

proof fn lemma_seg_plain_prefix(p: Seq<char>, s: Seq<char>, cur: Seq<char>)
    requires
        forall|i: int| 0 <= i < p.len() ==> #[trigger] p[i] != '\\' && p[i] != '\'' && p[i]
            != '"' && p[i] != ';' && p[i] != '|' && p[i] != '&' && p[i] != '(' && p[i] != '`',
    ensures
        seg_rec(p + s, cur, false, false, false) == seg_rec(s, cur + p, false, false, false),
    decreases p.len(),
{
    if p.len() == 0 {
        assert(p + s =~= s);
        assert(cur + p =~= cur);
    } else {
        let c = p[0];
        assert((p + s)[0] == c);
        assert((p + s).skip(1) =~= p.skip(1) + s);
        lemma_seg_plain_prefix(p.skip(1), s, cur.push(c));
        assert(cur.push(c) + p.skip(1) =~= cur + p);
    }
}

proof fn lemma_seg_dq_prefix(p: Seq<char>, s: Seq<char>, cur: Seq<char>)
    requires
        forall|i: int| 0 <= i < p.len() ==> #[trigger] p[i] != '"' && p[i] != '\\',
    ensures
        seg_rec(p + s, cur, false, true, false) == seg_rec(s, cur + p, false, true, false),
    decreases p.len(),
{
    if p.len() == 0 {
        assert(p + s =~= s);
        assert(cur + p =~= cur);
    } else {
        let c = p[0];
        assert((p + s)[0] == c);
        assert((p + s).skip(1) =~= p.skip(1) + s);
        lemma_seg_dq_prefix(p.skip(1), s, cur.push(c));
        assert(cur.push(c) + p.skip(1) =~= cur + p);
    }
}

proof fn lemma_tok_plain_prefix(p: Seq<char>, s: Seq<char>, cur: Seq<char>)
    requires
        forall|i: int| 0 <= i < p.len() ==> #[trigger] p[i] != '\\' && p[i] != '\'' && p[i]
            != '"' && p[i] != ' ' && p[i] != '\t' && p[i] != '\n' && p[i] != '\r',
    ensures
        tok_rec(p + s, cur, false, false, false) == tok_rec(s, cur + p, false, false, false),
    decreases p.len(),
{
    if p.len() == 0 {
        assert(p + s =~= s);
        assert(cur + p =~= cur);
    } else {
        let c = p[0];
        assert((p + s)[0] == c);
        assert((p + s).skip(1) =~= p.skip(1) + s);
        lemma_tok_plain_prefix(p.skip(1), s, cur.push(c));
        assert(cur.push(c) + p.skip(1) =~= cur + p);
    }
}

proof fn lemma_tok_dq_prefix(p: Seq<char>, s: Seq<char>, cur: Seq<char>)
    requires
        forall|i: int| 0 <= i < p.len() ==> #[trigger] p[i] != '"' && p[i] != '\\',
    ensures
        tok_rec(p + s, cur, false, true, false) == tok_rec(s, cur + p, false, true, false),
    decreases p.len(),
{
    if p.len() == 0 {
        assert(p + s =~= s);
        assert(cur + p =~= cur);
    } else {
        let c = p[0];
        assert((p + s)[0] == c);
        assert((p + s).skip(1) =~= p.skip(1) + s);
        lemma_tok_dq_prefix(p.skip(1), s, cur.push(c));
        assert(cur.push(c) + p.skip(1) =~= cur + p);
    }
}

proof fn lemma_ns_plain_prefix(p: Seq<char>, s: Seq<char>)
    requires
        forall|i: int| 0 <= i < p.len() ==> #[trigger] p[i] != '(' && p[i] != '`',
    ensures
        nested_scripts(p + s) == nested_scripts(s),
    decreases p.len(),
{
    if p.len() == 0 {
        assert(p + s =~= s);
    } else {
        assert((p + s)[0] == p[0]);
        assert((p + s).skip(1) =~= p.skip(1) + s);
        lemma_ns_plain_prefix(p.skip(1), s);
    }
}

/// The pieces under any accumulated prefix: the prefix lands at the front
/// of the first piece; later pieces do not depend on it.
proof fn lemma_seg_cur(s: Seq<char>, cur: Seq<char>, sq: bool, dq: bool, esc: bool)
    ensures
        seg_rec(s, cur, sq, dq, esc).len() == seg_rec(s, Seq::<char>::empty(), sq, dq, esc).len(),
        seg_rec(s, cur, sq, dq, esc).len() >= 1,
        seg_rec(s, cur, sq, dq, esc)[0] == cur + seg_rec(s, Seq::<char>::empty(), sq, dq, esc)[0],
        forall|i: int|
            1 <= i < seg_rec(s, cur, sq, dq, esc).len() ==> seg_rec(s, cur, sq, dq, esc)[i]
                == seg_rec(s, Seq::<char>::empty(), sq, dq, esc)[i],
    decreases s.len(),
{
    let e = Seq::<char>::empty();
    if s.len() == 0 {
        assert(seg_rec(s, cur, sq, dq, esc) == seq![cur]);
        assert(cur + e =~= cur);
    } else {
        let c = s[0];
        let rest = s.skip(1);
        // case split mirrors seg_rec's branches
        if esc {
            lemma_seg_cur(rest, cur.push(c), sq, dq, false);
            lemma_seg_cur(rest, e.push(c), sq, dq, false);
            assert(cur + (e.push(c) + seg_rec(rest, e, sq, dq, false)[0]) =~= cur.push(c)
                + seg_rec(rest, e, sq, dq, false)[0]);
        } else if c == '\\' && !sq {
            lemma_seg_cur(rest, cur.push(c), sq, dq, true);
            lemma_seg_cur(rest, e.push(c), sq, dq, true);
            assert(cur + (e.push(c) + seg_rec(rest, e, sq, dq, true)[0]) =~= cur.push(c)
                + seg_rec(rest, e, sq, dq, true)[0]);
        } else if c == '\'' && !dq {
            lemma_seg_cur(rest, cur.push(c), !sq, dq, false);
            lemma_seg_cur(rest, e.push(c), !sq, dq, false);
            assert(cur + (e.push(c) + seg_rec(rest, e, !sq, dq, false)[0]) =~= cur.push(c)
                + seg_rec(rest, e, !sq, dq, false)[0]);
        } else if c == '"' && !sq {
            lemma_seg_cur(rest, cur.push(c), sq, !dq, false);
            lemma_seg_cur(rest, e.push(c), sq, !dq, false);
            assert(cur + (e.push(c) + seg_rec(rest, e, sq, !dq, false)[0]) =~= cur.push(c)
                + seg_rec(rest, e, sq, !dq, false)[0]);
        } else if !sq && !dq && (c == ';' || c == '|') {
            assert(cur + e =~= cur);
        } else if !sq && !dq && c == '&' && rest.len() > 0 && rest[0] == '&' {
            assert(cur + e =~= cur);
        } else if !sq && !dq && c == '(' {
            match crate::parser::find_close(rest, 1) {
                Some(j) => {
                    crate::parser::lemma_find_close_bound(rest, 1);
                    let t = s.take(j + 2);
                    lemma_seg_cur(rest.skip(j + 1), cur + t, sq, dq, false);
                    lemma_seg_cur(rest.skip(j + 1), e + t, sq, dq, false);
                    assert(e + t =~= t);
                    assert(cur + ((e + t) + seg_rec(rest.skip(j + 1), e, sq, dq, false)[0]) =~= (
                    cur + t) + seg_rec(rest.skip(j + 1), e, sq, dq, false)[0]);
                },
                None => {
                    lemma_seg_cur(rest, cur.push(c), sq, dq, false);
                    lemma_seg_cur(rest, e.push(c), sq, dq, false);
                    assert(cur + (e.push(c) + seg_rec(rest, e, sq, dq, false)[0]) =~= cur.push(c)
                        + seg_rec(rest, e, sq, dq, false)[0]);
                },
            }
        } else if !sq && !dq && c == '`' {
            match crate::parser::find_tick(rest) {
                Some(j) => {
                    crate::parser::lemma_find_tick_bound(rest);
                    let t = s.take(j + 2);
                    lemma_seg_cur(rest.skip(j + 1), cur + t, sq, dq, false);
                    lemma_seg_cur(rest.skip(j + 1), e + t, sq, dq, false);
                    assert(e + t =~= t);
                    assert(cur + ((e + t) + seg_rec(rest.skip(j + 1), e, sq, dq, false)[0]) =~= (
                    cur + t) + seg_rec(rest.skip(j + 1), e, sq, dq, false)[0]);
                },
                None => {
                    lemma_seg_cur(rest, cur.push(c), sq, dq, false);
                    lemma_seg_cur(rest, e.push(c), sq, dq, false);
                    assert(cur + (e.push(c) + seg_rec(rest, e, sq, dq, false)[0]) =~= cur.push(c)
                        + seg_rec(rest, e, sq, dq, false)[0]);
                },
            }
        } else {
            lemma_seg_cur(rest, cur.push(c), sq, dq, false);
            lemma_seg_cur(rest, e.push(c), sq, dq, false);
            assert(cur + (e.push(c) + seg_rec(rest, e, sq, dq, false)[0]) =~= cur.push(c)
                + seg_rec(rest, e, sq, dq, false)[0]);
        }
    }
}


/// A name yielded by a segment list came from one of its segments.
pub proof fn lemma_segs_member_inv(pieces: Seq<Seq<char>>, d: nat, x: Seq<char>)
    requires
        segs_cmds(pieces, d).contains(x),
    ensures
        exists|k: int|
            0 <= k < pieces.len() && #[trigger] seg_cmds(pieces[k], d).contains(x),
    decreases pieces.len(),
{
    lemma_concat_contains(seg_cmds(pieces[0], d), segs_cmds(pieces.skip(1), d), x);
    if seg_cmds(pieces[0], d).contains(x) {
        assert(seg_cmds(pieces[0], d).contains(x));
    } else {
        lemma_segs_member_inv(pieces.skip(1), d, x);
        let k = choose|k: int|
            0 <= k < pieces.skip(1).len() && #[trigger] seg_cmds(pieces.skip(1)[k], d).contains(x);
        assert(pieces.skip(1)[k] == pieces[k + 1]);
        assert(seg_cmds(pieces[k + 1], d).contains(x));
    }
}

/// Scanning a wrapper's arguments finds exactly the commands of the
/// remaining tokens, when the candidate after the assignments is not
/// flag-like.
pub proof fn lemma_wrapper_scan_eq(ts: Seq<Seq<char>>, d: nat)
    requires
        skip_assignments(ts).len() > 0 ==> !crate::parser::starts_dash(skip_assignments(ts)[0]),
    ensures
        wrapper_scan(ts, d) == head_cmds(skip_assignments(ts), d),
    decreases ts.len(),
{
    if ts.len() == 0 {
    } else if is_assignment(ts[0]) {
        assert(!crate::parser::starts_dash(ts[0]));
        lemma_wrapper_scan_eq(ts.skip(1), d);
    } else {
        assert(skip_assignments(ts) == ts);
    }
}

/// Facts about the wrapper name "sudo".
proof fn lemma_sudo_props()
    ensures
        is_wrapper_name("sudo"@),
        !is_shell_name("sudo"@),
        "sudo"@ != "xargs"@,
        !is_assignment("sudo"@),
        "sudo"@.len() == 4,
        forall|i: int| 0 <= i < "sudo"@.len() ==> cmdword_char(#[trigger] "sudo"@[i]),
{
    reveal_strlit("sudo");
    reveal_strlit("xargs");
    reveal_strlit("bash");
    reveal_strlit("sh");
    reveal_strlit("zsh");
    reveal_strlit("ksh");
    reveal_strlit("csh");
    reveal_strlit("tcsh");
    reveal_strlit("fish");
    reveal_strlit("dash");
    lemma_word_chars_sudo();
    lemma_neq_by_char("sudo"@, "bash"@, 0);
    lemma_neq_by_len("sudo"@, "sh"@);
    lemma_neq_by_len("sudo"@, "zsh"@);
    lemma_neq_by_len("sudo"@, "ksh"@);
    lemma_neq_by_len("sudo"@, "csh"@);
    lemma_neq_by_char("sudo"@, "tcsh"@, 0);
    lemma_neq_by_char("sudo"@, "fish"@, 0);
    lemma_neq_by_char("sudo"@, "dash"@, 0);
    lemma_neq_by_len("sudo"@, "xargs"@);
    if is_assignment("sudo"@) {
        let i = choose|i: int| 0 <= i < "sudo"@.len() && "sudo"@[i] == '=';
        assert(cmdword_char("sudo"@[i]));
    }
}

/// Wrapper idempotence (law): prefixing any command line with "sudo "
/// yields every name the bare line yields, and "sudo" itself.  The one
/// family of inputs left out: command lines whose first segment's candidate
/// command itself looks like a flag, which the wrapper scan would skip.
pub proof fn lemma_wrapper_idempotence(x: Seq<char>)
    requires
        ({
            let ts = skip_assignments(tokenize(segments(x)[0]));
            ts.len() > 0 ==> !crate::parser::starts_dash(ts[0])
        }),
    ensures
        extract_cmds("sudo "@ + x).contains("sudo"@),
        forall|c: Seq<char>|
            extract_cmds(x).contains(c) ==> extract_cmds("sudo "@ + x).contains(c),
{
    let w = "sudo "@ + x;
    let d1 = w.len() as nat;
    let d2 = x.len() as nat;
    reveal_strlit("sudo ");
    reveal_strlit("sudo");
    reveal_strlit(" ");
    lemma_sudo_props();
    assert("sudo "@ =~= "sudo"@ + " "@);
    assert forall|i: int| 0 <= i < "sudo "@.len() implies cmdword_char(#[trigger] "sudo "@[i])
        || "sudo "@[i] == ' ' by {
        if i < 4 {
            assert("sudo "@[i] == "sudo"@[i]);
        } else {
            assert("sudo "@[4] == ' ');
        }
    }
    let e = Seq::<char>::empty();
    // segments of the prefixed line: the prefix joins the first piece
    lemma_seg_plain_prefix("sudo "@, x, e);
    assert(e + "sudo "@ =~= "sudo "@);
    lemma_seg_cur(x, "sudo "@, false, false, false);
    let segw = segments(w);
    let segx = segments(x);
    assert(segw.len() == segx.len());
    assert(segw[0] == "sudo "@ + segx[0]);
    let g0 = segx[0];
    // tokens of the first piece: "sudo" then the bare line's tokens
    lemma_tok_plain_prefix("sudo"@, " "@ + g0, e);
    assert("sudo "@ + g0 =~= "sudo"@ + (" "@ + g0));
    assert(e + "sudo"@ =~= "sudo"@);
    assert((" "@ + g0)[0] == ' ');
    assert((" "@ + g0).skip(1) =~= g0);
    assert(tokenize(segw[0]) == seq!["sudo"@] + tokenize(g0));
    // the candidate of the first piece is "sudo", a wrapper
    let tsw = skip_assignments(tokenize(segw[0]));
    assert(tokenize(segw[0])[0] == "sudo"@);
    assert(tsw == tokenize(segw[0]));
    assert(tsw.skip(1) =~= tokenize(g0));
    lemma_wrapper_scan_eq(tokenize(g0), d1);
    lemma_ns_plain_prefix("sudo "@, g0);
    assert(head_cmds(tsw, d1) =~= seq!["sudo"@] + head_cmds(
        skip_assignments(tokenize(g0)),
        d1,
    ));
    assert(nested_scripts(segw[0]) == nested_scripts(g0)) by {
        assert(segw[0] == "sudo "@ + g0);
    }
    assert(seg_cmds(segw[0], d1) =~= seq!["sudo"@] + seg_cmds(g0, d1));
    // "sudo" is extracted
    assert(seg_cmds(segw[0], d1).contains("sudo"@)) by {
        assert(seg_cmds(segw[0], d1)[0] == "sudo"@);
    }
    lemma_segs_cmds_contains(segw, d1, 0, "sudo"@);
    lemma_extract_membership(w, d1, "sudo"@);
    // nothing is lost
    assert forall|c: Seq<char>| extract_cmds(x).contains(c) implies extract_cmds(w).contains(
        c,
    ) by {
        lemma_extract_membership(x, d2, c);
        lemma_segs_member_inv(segx, d2, c);
        let k = choose|k: int|
            0 <= k < segx.len() && #[trigger] seg_cmds(segx[k], d2).contains(c);
        lemma_mono_seg(segx[k], d1, d2, c);
        if k == 0 {
            assert(seg_cmds(segw[0], d1).contains(c)) by {
                lemma_concat_contains(seq!["sudo"@], seg_cmds(g0, d1), c);
            }
            lemma_segs_cmds_contains(segw, d1, 0, c);
        } else {
            assert(segw[k] == segx[k]);
            lemma_segs_cmds_contains(segw, d1, k, c);
        }
        lemma_extract_membership(w, d1, c);
    }
}


// ---------------------------------------------------------------------------
// Substitution transparency (law): what a command substitution's contents
// yield, the surrounding line yields.
// ---------------------------------------------------------------------------
/// The parenthesis-depth contribution of one character.
pub open spec fn pdelta(c: char) -> int {
    if c == '(' {
        1
    } else if c == ')' {
        -1
    } else {
        0
    }
}

/// The net parenthesis depth of a text.
pub open spec fn pdepth(s: Seq<char>) -> int
    decreases s.len(),
{
    if s.len() == 0 {
        0
    } else {
        pdelta(s[0]) + pdepth(s.skip(1))
    }
}

/// Balanced parentheses: net depth zero, never negative on a prefix.
pub open spec fn paren_balanced(s: Seq<char>) -> bool {
    pdepth(s) == 0 && forall|i: int| 0 <= i <= s.len() ==> pdepth(#[trigger] s.take(i)) >= 0
}

proof fn lemma_pdepth_step(s: Seq<char>, i: int)
    requires
        0 <= i < s.len(),
    ensures
        pdepth(s.take(i + 1)) == pdepth(s.take(i)) + pdelta(s[i]),
    decreases i,
{
    if i == 0 {
        assert(s.take(1)[0] == s[0]);
        assert(s.take(1).skip(1) =~= Seq::<char>::empty());
        assert(s.take(0) =~= Seq::<char>::empty());
    } else {
        lemma_pdepth_step(s.skip(1), i - 1);
        assert(s.take(i + 1)[0] == s[0]);
        assert(s.take(i + 1).skip(1) =~= s.skip(1).take(i));
        assert(s.take(i)[0] == s[0]);
        assert(s.take(i).skip(1) =~= s.skip(1).take(i - 1));
        assert(s.skip(1)[i - 1] == s[i]);
    }
}

proof fn lemma_find_close_through(cmd: Seq<char>, rest: Seq<char>, d: int)
    requires
        d >= 1,
        forall|i: int|
            0 <= i < cmd.len() && #[trigger] cmd[i] == ')' ==> d + pdepth(cmd.take(i)) != 1,
    ensures
        crate::parser::find_close(cmd + rest, d) == match crate::parser::find_close(
            rest,
            d + pdepth(cmd),
        ) {
            Some(j) => Some(cmd.len() + j),
            None => None::<int>,
        },
    decreases cmd.len(),
{
    if cmd.len() == 0 {
        assert(cmd + rest =~= rest);
    } else {
        let c = cmd[0];
        assert((cmd + rest)[0] == c);
        assert((cmd + rest).skip(1) =~= cmd.skip(1) + rest);
        assert(cmd.take(0) =~= Seq::<char>::empty());
        let d2 = d + pdelta(c);
        assert(d2 >= 1) by {
            if c == ')' {
                assert(d + pdepth(cmd.take(0)) != 1);
            }
        }
        assert forall|i: int|
            0 <= i < cmd.skip(1).len() && #[trigger] cmd.skip(1)[i] == ')' implies d2 + pdepth(
            cmd.skip(1).take(i),
        ) != 1 by {
            assert(cmd.skip(1)[i] == cmd[i + 1]);
            assert(cmd.take(i + 1)[0] == c);
            assert(cmd.take(i + 1).skip(1) =~= cmd.skip(1).take(i));
            assert(pdepth(cmd.take(i + 1)) == pdelta(c) + pdepth(cmd.skip(1).take(i)));
        }
        lemma_find_close_through(cmd.skip(1), rest, d2);
        assert(pdepth(cmd) == pdelta(c) + pdepth(cmd.skip(1)));
    }
}

proof fn lemma_find_tick_through(cmd: Seq<char>, rest: Seq<char>)
    requires
        !cmd.contains('`'),
    ensures
        crate::parser::find_tick(cmd + rest) == match crate::parser::find_tick(rest) {
            Some(j) => Some(cmd.len() + j),
            None => None::<int>,
        },
    decreases cmd.len(),
{
    if cmd.len() == 0 {
        assert(cmd + rest =~= rest);
    } else {
        assert((cmd + rest)[0] == cmd[0]);
        assert((cmd + rest).skip(1) =~= cmd.skip(1) + rest);
        assert(cmd[0] != '`');
        assert(!cmd.skip(1).contains('`')) by {
            if cmd.skip(1).contains('`') {
                let i = choose|i: int| 0 <= i < cmd.skip(1).len() && cmd.skip(1)[i] == '`';
                assert(cmd[i + 1] == '`');
            }
        }
        lemma_find_tick_through(cmd.skip(1), rest);
    }
}

/// Substitution transparency (law): both `echo $(CMD)` and backtick
/// substitution around `CMD` yield every name `CMD` yields.  The dollar
/// form asks for balanced parentheses in `CMD`, the backtick form for no
/// backtick in `CMD`; otherwise the construct would close early.
pub proof fn lemma_substitution_transparency(cmd: Seq<char>)
    ensures
        paren_balanced(cmd) ==> forall|c: Seq<char>|
            extract_cmds(cmd).contains(c) ==> extract_cmds(
                "echo $("@ + cmd + ")"@,
            ).contains(c),
        !cmd.contains('`') ==> forall|c: Seq<char>|
            extract_cmds(cmd).contains(c) ==> extract_cmds(
                "echo `"@ + cmd + "`"@,
            ).contains(c),
{
    reveal_strlit("echo $(");
    reveal_strlit("echo $");
    reveal_strlit("echo `");
    reveal_strlit("echo ");
    reveal_strlit("(");
    reveal_strlit(")");
    reveal_strlit("`");
    if paren_balanced(cmd) {
        let w = "echo $("@ + cmd + ")"@;
        let d1 = w.len() as nat;
        let d2 = cmd.len() as nat;
        assert("echo $("@ =~= "echo $"@ + "("@);
        assert(w =~= "echo $"@ + ("("@ + cmd + ")"@));
        assert forall|i: int|
            0 <= i < "echo $"@.len() implies #[trigger] "echo $"@[i] != '(' && "echo $"@[i]
            != '`' by {
            if i == 0 {
                assert("echo $"@[0] == 'e');
            } else if i == 1 {
                assert("echo $"@[1] == 'c');
            } else if i == 2 {
                assert("echo $"@[2] == 'h');
            } else if i == 3 {
                assert("echo $"@[3] == 'o');
            } else if i == 4 {
                assert("echo $"@[4] == ' ');
            } else {
                assert("echo $"@[5] == '$');
            }
        }
        lemma_ns_plain_prefix("echo $"@, "("@ + cmd + ")"@);
        let inner = "("@ + cmd + ")"@;
        assert(inner[0] == '(');
        assert(inner.skip(1) =~= cmd + ")"@);
        assert forall|i: int|
            0 <= i < cmd.len() && #[trigger] cmd[i] == ')' implies 1 + pdepth(cmd.take(i))
            != 1 by {
            lemma_pdepth_step(cmd, i);
            assert(pdepth(cmd.take(i + 1)) >= 0);
        }
        lemma_find_close_through(cmd, ")"@, 1);
        assert(")"@.len() == 1);
        assert(")"@[0] == ')');
        assert(")"@.skip(1) =~= Seq::<char>::empty());
        assert(crate::parser::find_close(")"@, 1) == Some(0int));
        assert(crate::parser::find_close(cmd + ")"@, 1) == Some(cmd.len() as int));
        assert(inner.skip(1).take(cmd.len() as int) =~= cmd);
        assert(inner.skip(1).skip(cmd.len() as int + 1) =~= Seq::<char>::empty());
        assert(crate::parser::find_close(inner.skip(1), 1) == Some(cmd.len() as int));
        assert(nested_scripts(inner) == seq![inner.skip(1).take(cmd.len() as int)]
            + nested_scripts(inner.skip(1).skip(cmd.len() as int + 1)));
        assert(nested_scripts(inner.skip(1).skip(cmd.len() as int + 1)) == Seq::<
            Seq<char>,
        >::empty());
        assert(nested_scripts(inner) =~= seq![cmd]);
        assert(nested_scripts(w) == seq![cmd]);
        // the construct is consumed whole: the line is one segment
        let e = Seq::<char>::empty();
        assert forall|i: int|
            0 <= i < "echo $"@.len() implies #[trigger] "echo $"@[i] != '\\' && "echo $"@[i]
            != '\'' && "echo $"@[i] != '"' && "echo $"@[i] != ';' && "echo $"@[i] != '|'
            && "echo $"@[i] != '&' && "echo $"@[i] != '(' && "echo $"@[i] != '`' by {
            if i == 0 {
                assert("echo $"@[0] == 'e');
            } else if i == 1 {
                assert("echo $"@[1] == 'c');
            } else if i == 2 {
                assert("echo $"@[2] == 'h');
            } else if i == 3 {
                assert("echo $"@[3] == 'o');
            } else if i == 4 {
                assert("echo $"@[4] == ' ');
            } else if i == 5 {
                assert("echo $"@[5] == '$');
            }
        }
        lemma_seg_plain_prefix("echo $"@, inner, e);
        assert(e + "echo $"@ =~= "echo $"@);
        assert(inner.take(cmd.len() as int + 2) =~= inner);
        assert(inner.skip(1).skip(cmd.len() as int + 1) =~= e);
        assert(segments(w) == seq![w]) by {
            assert(segments(w) == seg_rec(inner, "echo $"@, false, false, false));
            assert(seg_rec(inner, "echo $"@, false, false, false) == seg_rec(
                inner.skip(1).skip(cmd.len() as int + 1),
                "echo $"@ + inner.take(cmd.len() as int + 2),
                false,
                false,
                false,
            ));
            assert(seg_rec(e, "echo $"@ + inner, false, false, false) == seq![
                "echo $"@ + inner,
            ]);
            assert("echo $"@ + inner =~= w);
        }
        assert(d1 >= d2 + 1);
        assert forall|c: Seq<char>| extract_cmds(cmd).contains(c) implies extract_cmds(
            w,
        ).contains(c) by {
            lemma_mono_extract(cmd, (d1 - 1) as nat, d2, c);
            lemma_nested_cmds_contains(nested_scripts(w), d1, 0, c);
            lemma_seg_membership(w, d1, c);
            assert(segments(w)[0] == w);
            lemma_segs_cmds_contains(segments(w), d1, 0, c);
            lemma_extract_membership(w, d1, c);
        }
    }
    if !cmd.contains('`') {
        let w = "echo `"@ + cmd + "`"@;
        let d1 = w.len() as nat;
        let d2 = cmd.len() as nat;
        assert("echo `"@ =~= "echo "@ + "`"@);
        assert(w =~= "echo "@ + ("`"@ + cmd + "`"@));
        assert forall|i: int|
            0 <= i < "echo "@.len() implies #[trigger] "echo "@[i] != '(' && "echo "@[i]
            != '`' by {
            if i == 0 {
                assert("echo "@[0] == 'e');
            } else if i == 1 {
                assert("echo "@[1] == 'c');
            } else if i == 2 {
                assert("echo "@[2] == 'h');
            } else if i == 3 {
                assert("echo "@[3] == 'o');
            } else {
                assert("echo "@[4] == ' ');
            }
        }
        lemma_ns_plain_prefix("echo "@, "`"@ + cmd + "`"@);
        let inner = "`"@ + cmd + "`"@;
        assert("`"@.len() == 1);
        assert("`"@[0] == '`');
        assert(inner[0] == '`');
        assert(inner.skip(1) =~= cmd + "`"@);
        lemma_find_tick_through(cmd, "`"@);
        assert("`"@.skip(1) =~= Seq::<char>::empty());
        assert(crate::parser::find_tick("`"@) == Some(0int));
        assert(crate::parser::find_tick(cmd + "`"@) == Some(cmd.len() as int));
        assert(inner.skip(1).take(cmd.len() as int) =~= cmd);
        assert(inner.skip(1).skip(cmd.len() as int + 1) =~= Seq::<char>::empty());
        assert(inner[0] != '(');
        assert(crate::parser::find_tick(inner.skip(1)) == Some(cmd.len() as int));
        assert(nested_scripts(inner) == seq![inner.skip(1).take(cmd.len() as int)]
            + nested_scripts(inner.skip(1).skip(cmd.len() as int + 1)));
        assert(nested_scripts(inner.skip(1).skip(cmd.len() as int + 1)) == Seq::<
            Seq<char>,
        >::empty());
        assert(nested_scripts(inner) =~= seq![cmd]);
        assert(nested_scripts(w) == seq![cmd]);
        // the construct is consumed whole: the line is one segment
        let e = Seq::<char>::empty();
        assert forall|i: int|
            0 <= i < "echo "@.len() implies #[trigger] "echo "@[i] != '\\' && "echo "@[i]
            != '\'' && "echo "@[i] != '"' && "echo "@[i] != ';' && "echo "@[i] != '|'
            && "echo "@[i] != '&' && "echo "@[i] != '(' && "echo "@[i] != '`' by {
            if i == 0 {
                assert("echo "@[0] == 'e');
            } else if i == 1 {
                assert("echo "@[1] == 'c');
            } else if i == 2 {
                assert("echo "@[2] == 'h');
            } else if i == 3 {
                assert("echo "@[3] == 'o');
            } else if i == 4 {
                assert("echo "@[4] == ' ');
            }
        }
        lemma_seg_plain_prefix("echo "@, inner, e);
        assert(e + "echo "@ =~= "echo "@);
        assert(inner.take(cmd.len() as int + 2) =~= inner);
        assert(inner.skip(1).skip(cmd.len() as int + 1) =~= e);
        assert(segments(w) == seq![w]) by {
            assert(segments(w) == seg_rec(inner, "echo "@, false, false, false));
            assert(seg_rec(inner, "echo "@, false, false, false) == seg_rec(
                inner.skip(1).skip(cmd.len() as int + 1),
                "echo "@ + inner.take(cmd.len() as int + 2),
                false,
                false,
                false,
            ));
            assert(seg_rec(e, "echo "@ + inner, false, false, false) == seq![
                "echo "@ + inner,
            ]);
            assert("echo "@ + inner =~= w);
        }
        assert(d1 >= d2 + 1);
        assert forall|c: Seq<char>| extract_cmds(cmd).contains(c) implies extract_cmds(
            w,
        ).contains(c) by {
            lemma_mono_extract(cmd, (d1 - 1) as nat, d2, c);
            lemma_nested_cmds_contains(nested_scripts(w), d1, 0, c);
            lemma_seg_membership(w, d1, c);
            assert(segments(w)[0] == w);
            lemma_segs_cmds_contains(segments(w), d1, 0, c);
            lemma_extract_membership(w, d1, c);
        }
    }
}


/// Subshell transparency (law): for each supported interpreter name,
/// running a script through `shell -c "X"` yields the shell itself and
/// every name `X` yields.  The one family of inputs left out: scripts
/// holding a double quote or a backslash, which would change the quoted
/// script text itself.
pub proof fn lemma_subshell_transparency(shell: Seq<char>, x: Seq<char>)
    requires
        is_shell_name(shell),
        !x.contains('"'),
        !x.contains('\\'),
    ensures
        extract_cmds(shell + " -c \""@ + x + "\""@).contains(shell),
        forall|c: Seq<char>|
            extract_cmds(x).contains(c) ==> extract_cmds(
                shell + " -c \""@ + x + "\""@,
            ).contains(c),
{
    reveal_strlit(" -c \"");
    reveal_strlit(" -c ");
    reveal_strlit("-c \"");
    reveal_strlit("-c");
    reveal_strlit(" \"");
    reveal_strlit(" ");
    reveal_strlit("\"");
    lemma_shell_props(shell);
    let e = Seq::<char>::empty();
    let w = shell + " -c \""@ + x + "\""@;
    let d1 = w.len() as nat;
    let d2 = x.len() as nat;
    assert forall|i: int|
        0 <= i < shell.len() implies #[trigger] shell[i] != '\\' && shell[i] != '\'' && shell[i]
        != '"' && shell[i] != ';' && shell[i] != '|' && shell[i] != '&' && shell[i] != ' '
        && shell[i] != '\t' by {
        assert(cmdword_char(shell[i]));
    }
    assert(" -c \""@.len() == 5);
    assert(" -c \""@[0] == ' ');
    assert(" -c \""@[1] == '-');
    assert(" -c \""@[2] == 'c');
    assert(" -c \""@[3] == ' ');
    assert(" -c \""@[4] == '"');
    assert(" -c "@.len() == 4);
    // --- segments: the whole line is one piece ---
    let r1 = " -c \""@ + x + "\""@;
    assert(w =~= shell + r1);
    lemma_seg_plain_prefix(shell, r1, e);
    assert(e + shell =~= shell);
    assert(" -c "@[0] == ' ');
    assert(" -c "@[1] == '-');
    assert(" -c "@[2] == 'c');
    assert(" -c "@[3] == ' ');
    // split the connective text into its plain part and the opening quote
    let p3 = " -c \""@.take(4);
    assert(" -c \""@ =~= p3 + "\""@);
    assert(p3.len() == 4);
    assert(p3[0] == ' ');
    assert(p3[1] == '-');
    assert(p3[2] == 'c');
    assert(p3[3] == ' ');
    let r2 = "\""@ + x + "\""@;
    assert(r1 =~= p3 + r2);
    lemma_seg_plain_prefix(p3, r2, shell);
    assert("\""@.len() == 1);
    assert("\""@[0] == '"');
    assert(r2[0] == '"');
    assert(r2.skip(1) =~= x + "\""@);
    let cur1 = (shell + p3).push('"');
    lemma_seg_dq_prefix(x, "\""@, cur1);
    assert((x + "\""@).skip(x.len() as int) =~= "\""@);
    assert(x + "\""@ =~= x + "\""@);
    assert(("\""@)[0] == '"');
    assert(("\""@).skip(1) =~= e);
    let cur2 = (cur1 + x).push('"');
    assert(seg_rec(e, cur2, false, false, false) == seq![cur2]);
    assert(cur2 =~= w);
    assert(segments(w) == seq![w]) by {
        assert(segments(w) == seg_rec(r1, shell, false, false, false));
        assert(seg_rec(r1, shell, false, false, false) == seg_rec(r2, shell + p3, false, false, false));
        assert(seg_rec(r2, shell + p3, false, false, false) == seg_rec(
            x + "\""@,
            cur1,
            false,
            true,
            false,
        ));
        assert(seg_rec(x + "\""@, cur1, false, true, false) == seg_rec(
            "\""@,
            cur1 + x,
            false,
            true,
            false,
        ));
        assert(seg_rec("\""@, cur1 + x, false, true, false) == seg_rec(e, cur2, false, false, false));
    }
    // --- tokens: the shell, "-c", and the script as one token ---
    lemma_tok_plain_prefix(shell, r1, e);
    assert(r1[0] == ' ');
    assert(r1.skip(1) =~= "-c"@ + (" \""@ + x + "\""@));
    assert("-c"@.len() == 2);
    assert("-c"@[0] == '-');
    assert("-c"@[1] == 'c');
    let r3 = " \""@ + x + "\""@;
    lemma_tok_plain_prefix("-c"@, r3, e);
    assert(e + "-c"@ =~= "-c"@);
    assert(" \""@.len() == 2);
    assert(" \""@[0] == ' ');
    assert(" \""@[1] == '"');
    assert(r3[0] == ' ');
    assert(r3.skip(1) =~= "\""@ + (x + "\""@));
    let r4 = "\""@ + (x + "\""@);
    assert(r4[0] == '"');
    assert(r4.skip(1) =~= x + "\""@);
    lemma_tok_dq_prefix(x, "\""@, e);
    assert(e + x =~= x);
    let toks = tokenize(w);
    assert(toks == seq![shell, "-c"@] + (if x.len() > 0 {
        seq![x]
    } else {
        Seq::<Seq<char>>::empty()
    })) by {
        assert(tokenize(w) == tok_rec(r1, shell, false, false, false));
        assert(tok_rec(r1, shell, false, false, false) == seq![shell] + tok_rec(
            r1.skip(1),
            e,
            false,
            false,
            false,
        ));
        assert(tok_rec(r1.skip(1), e, false, false, false) == tok_rec(r3, "-c"@, false, false, false));
        assert(tok_rec(r3, "-c"@, false, false, false) == seq!["-c"@] + tok_rec(
            r3.skip(1),
            e,
            false,
            false,
            false,
        ));
        assert(tok_rec(r3.skip(1), e, false, false, false) == tok_rec(
            x + "\""@,
            e,
            false,
            true,
            false,
        ));
        assert(tok_rec(x + "\""@, e, false, true, false) == tok_rec("\""@, x, false, true, false));
        assert(("\""@).skip(1) =~= e);
        assert(tok_rec("\""@, x, false, true, false) == tok_rec(e, x, false, false, false));
        if x.len() > 0 {
            assert(seq![shell] + (seq!["-c"@] + seq![x]) =~= seq![shell, "-c"@] + seq![x]);
        } else {
            assert(x =~= e);
            assert(seq![shell] + (seq!["-c"@] + Seq::<Seq<char>>::empty()) =~= seq![shell, "-c"@]
                + Seq::<Seq<char>>::empty());
        }
    }
    // --- the head of the one segment is the shell, and its -c payload is x
    let ts = skip_assignments(tokenize(w));
    assert(toks[0] == shell);
    assert(ts == toks);
    if x.len() > 0 {
        assert(ts.skip(1) =~= seq!["-c"@, x]);
        assert(c_payload(ts.skip(1)) == Some(x)) by {
            assert(ts.skip(1)[0] == "-c"@);
            assert(ts.skip(1).len() == 2);
        }
        assert(head_cmds(ts, d1) =~= seq![shell] + extract_d(x, (d1 - 1) as nat));
    } else {
        assert(ts.skip(1) =~= seq!["-c"@]);
        assert(c_payload(ts.skip(1)) is None) by {
            assert(ts.skip(1)[0] == "-c"@);
            assert(ts.skip(1).len() == 1);
        }
        assert(head_cmds(ts, d1) =~= seq![shell]);
    }
    assert(seg_cmds(w, d1) == head_cmds(ts, d1) + nested_cmds(nested_scripts(w), d1));
    assert(seg_cmds(w, d1).contains(shell)) by {
        assert(head_cmds(ts, d1)[0] == shell);
        assert(seg_cmds(w, d1)[0] == shell);
    }
    assert(segments(w)[0] == w);
    lemma_segs_cmds_contains(segments(w), d1, 0, shell);
    lemma_extract_membership(w, d1, shell);
    // --- nothing of the script is lost ---
    assert(d1 >= d2 + 1);
    assert forall|c: Seq<char>| extract_cmds(x).contains(c) implies extract_cmds(w).contains(
        c,
    ) by {
        if x.len() > 0 {
            lemma_mono_extract(x, (d1 - 1) as nat, d2, c);
            assert(head_cmds(ts, d1).contains(c)) by {
                lemma_concat_contains(seq![shell], extract_d(x, (d1 - 1) as nat), c);
            }
            assert(seg_cmds(w, d1).contains(c)) by {
                lemma_concat_contains(
                    head_cmds(ts, d1),
                    nested_cmds(nested_scripts(w), d1),
                    c,
                );
            }
            lemma_segs_cmds_contains(segments(w), d1, 0, c);
            lemma_extract_membership(w, d1, c);
        } else {
            // the empty script yields nothing
            assert(segments(x) == seq![e]) by {
                assert(x =~= e);
                assert(seg_rec(e, e, false, false, false) == seq![e]);
            }
            assert(tokenize(e) == Seq::<Seq<char>>::empty());
            assert(seg_cmds(e, d2) =~= Seq::<Seq<char>>::empty()) by {
                assert(skip_assignments(Seq::<Seq<char>>::empty()) == Seq::<Seq<char>>::empty());
                assert(nested_scripts(e) == Seq::<Seq<char>>::empty());
            }
            assert(x =~= e);
            lemma_extract_membership(x, d2, c);
            lemma_segs_member_inv(segments(x), d2, c);
            let k = choose|k: int|
                0 <= k < segments(x).len() && #[trigger] seg_cmds(segments(x)[k], d2).contains(c);
            assert(seg_cmds(segments(x)[0], d2).contains(c));
            assert(false);
        }
    }
}


// ---------------------------------------------------------------------------
// Chain-level blocking (law): a denylisted name heading any segment makes
// the chain of an enabled configuration block the event.
// ---------------------------------------------------------------------------
/// A pre-execution shell event whose command line triggers an enabled
/// built-in filter is blocked by the chain; with the kill filter it blocks
/// first, with exactly the configured or default kill message.
pub proof fn lemma_chain_blocks_denylisted(
    fs: Seq<crate::chain::FilterKind>,
    c: crate::config::Config,
    input: crate::types::HookInput,
)
    requires
        crate::chain::chain_wf(fs, c),
        input.event@ == "PreToolUse"@,
        input.tool_name@ == "Bash"@,
        input.tool_input matches crate::types::ToolInput::Bash(b) && ((c.kill_block
            && kill_command_spec(b.command@)) || (c.dd_block && dd_command_spec(b.command@)) || (
        c.rm_block && rm_command_spec(b.command@))),
    ensures
        crate::chain::first_block(fs, input) is Some,
        input.tool_input matches crate::types::ToolInput::Bash(b) && c.kill_block
            && kill_command_spec(b.command@) ==> crate::chain::first_block(fs, input) == Some(
            crate::chain::message_or(c.kill_block_message, default_kill_message()),
        ),
{
    let b = input.tool_input->Bash_0;
    assert(fs.len() >= 3);
    assert(fs.skip(1)[0] == fs[1]);
    assert(fs.skip(1).skip(1) =~= fs.skip(2));
    assert(fs.skip(2)[0] == fs[2]);
    if c.kill_block && kill_command_spec(b.command@) {
        assert(crate::chain::gate_applies(fs[0], input));
        assert(crate::chain::first_block(fs, input) == Some(crate::chain::gate_message(fs[0])));
    } else if c.dd_block && dd_command_spec(b.command@) {
        if crate::chain::gate_applies(fs[0], input) {
        } else {
            assert(crate::chain::gate_applies(fs[1], input));
            assert(crate::chain::first_block(fs.skip(1), input) == Some(
                crate::chain::gate_message(fs[1]),
            ));
        }
    } else {
        if crate::chain::gate_applies(fs[0], input) {
        } else if crate::chain::gate_applies(fs[1], input) {
            assert(crate::chain::first_block(fs.skip(1), input) == Some(
                crate::chain::gate_message(fs[1]),
            ));
        } else {
            assert(crate::chain::gate_applies(fs[2], input));
            assert(crate::chain::first_block(fs.skip(2), input) == Some(
                crate::chain::gate_message(fs[2]),
            ));
        }
    }
}

} // verus!
