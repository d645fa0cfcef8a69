//! Custom command filters: pattern mode and argument mode.

use vstd::prelude::*;

use crate::parser::extract_texts;
use crate::parser::extract_texts_exec;
use crate::pattern::regex_compile;
use crate::pattern::regex_is_match;
use crate::pattern::regex_match;
use crate::pattern::regex_pattern;
use crate::pattern::regex_valid;
use crate::textutil::chars_eq_str;
use crate::textutil::chars_to_string;
use crate::textutil::str_eq;
use crate::textutil::str_views;
use crate::textutil::views;
use crate::textutil::views3;
use crate::types::Decision;
use crate::types::HookInput;
use crate::types::ToolInput;

verus! {

/// The pattern anchored at the start, unless it already is.
pub open spec fn anchored_start(p: Seq<char>) -> Seq<char> {
    if p.len() > 0 && p[0] == '^' {
        p
    } else {
        seq!['^'] + p
    }
}

/// The pattern anchored at both ends.
pub open spec fn anchored_full(p: Seq<char>) -> Seq<char> {
    seq!['^'] + p + seq!['$']
}

/// Words joined with single spaces.
pub open spec fn join_words(ws: Seq<Seq<char>>) -> Seq<char> {
    crate::textutil::join_sep(ws, ' ')
}

/// Pattern mode: the anchored pattern matches the text rebuilt from the
/// segment's words.
pub open spec fn text_matches_pattern(pat: Seq<char>, words: Seq<Seq<char>>) -> bool {
    regex_match(pat, join_words(words))
}

/// Argument mode: the fully anchored pattern matches the head token, and
/// either no argument values are configured or the first argument equals
/// one of them exactly.
pub open spec fn text_matches_args(pat: Seq<char>, args: Seq<Seq<char>>, words: Seq<
    Seq<char>,
>) -> bool {
    words.len() > 0 && regex_match(pat, words[0]) && (args.len() == 0 || (words.len() > 1
        && args.contains(words[1])))
}

/// Filter for custom command patterns.  An empty argument list selects
/// pattern mode; otherwise the head token must match and the first argument
/// must equal one of the configured values.
pub struct CustomCommandFilter {
    /// The anchored pattern actually tested.
    pub pattern: String,
    /// Configured argument values; only read in argument mode.
    pub args: Vec<String>,
    /// Whether the filter is in argument mode: the pattern must match the
    /// head token, with the argument values as an extra condition.
    pub args_mode: bool,
    /// The message a block carries.
    pub message: String,
}

/// Whether the filter matches the command line: some command text of the
/// line satisfies the filter's mode.
pub open spec fn matches_spec(f: CustomCommandFilter, s: Seq<char>) -> bool {
    if !f.args_mode {
        exists|t: int| 0 <= t < extract_texts(s).len() && text_matches_pattern(
            f.pattern@,
            #[trigger] extract_texts(s)[t],
        )
    } else {
        exists|t: int| 0 <= t < extract_texts(s).len() && text_matches_args(
            f.pattern@,
            str_views(f.args@),
            #[trigger] extract_texts(s)[t],
        )
    }
}

/// Join a segment's words with single spaces.
fn join_words_exec(words: &Vec<Vec<char>>) -> (r: Vec<char>)
    ensures
        r@ == join_words(views(words@)),
{
    crate::textutil::join_sep_chars(words, ' ')
}

impl CustomCommandFilter {
    /// A pattern-mode filter.  The pattern is anchored at the start so that
    /// it matches the command position, not an argument; construction
    /// succeeds exactly when the anchored pattern compiles and the message
    /// is non-empty (a block always carries a non-empty message).
    pub fn new(pattern: &str, message: String) -> (r: Result<CustomCommandFilter, String>)
        ensures
            r is Ok <==> regex_valid(anchored_start(pattern@)) && message@.len() > 0,
            r matches Ok(f) ==> f.pattern@ == anchored_start(pattern@) && f.args@.len() == 0
                && !f.args_mode && f.message == message,
    {
        if message.as_str().unicode_len() == 0 {
            return Err(String::from_str("empty filter message"));
        }
        let n = pattern.unicode_len();
        let anchored = if n > 0 && pattern.get_char(0) == '^' {
            let mut s = String::new();
            s.append(pattern);
            proof {
                assert(s@ =~= anchored_start(pattern@));
            }
            s
        } else {
            let mut s = String::from_str("^");
            s.append(pattern);
            proof {
                reveal_strlit("^");
                assert("^"@ =~= seq!['^']);
                assert(s@ =~= anchored_start(pattern@));
            }
            s
        };
        match regex_compile(anchored.as_str()) {
            Some(_) => Ok(
                CustomCommandFilter { pattern: anchored, args: Vec::new(), args_mode: false, message },
            ),
            None => Err(String::from_str("invalid filter pattern")),
        }
    }

    /// An argument-mode filter.  The command pattern is anchored at both
    /// ends so it must match the whole head token; construction succeeds
    /// exactly when the anchored pattern compiles and the message is
    /// non-empty (a block always carries a non-empty message).
    pub fn with_args(command: &str, args: Vec<String>, message: String) -> (r: Result<
        CustomCommandFilter,
        String,
    >)
        ensures
            r is Ok <==> regex_valid(anchored_full(command@)) && message@.len() > 0,
            r matches Ok(f) ==> f.pattern@ == anchored_full(command@) && f.args@ == args@
                && f.args_mode && f.message == message,
    {
        if message.as_str().unicode_len() == 0 {
            return Err(String::from_str("empty filter message"));
        }
        let mut s = String::from_str("^");
        s.append(command);
        s.append("$");
        proof {
            reveal_strlit("^");
            reveal_strlit("$");
            assert("^"@ =~= seq!['^']);
            assert("$"@ =~= seq!['$']);
            assert(s@ =~= anchored_full(command@));
        }
        match regex_compile(s.as_str()) {
            Some(_) => Ok(CustomCommandFilter { pattern: s, args, args_mode: true, message }),
            None => Err(String::from_str("invalid filter pattern")),
        }
    }

    /// Whether the filter matches the command line.  With a pattern that
    /// does not compile, nothing matches.
    pub fn matches(&self, command: &str) -> (r: bool)
        ensures
            regex_valid(self.pattern@) ==> r == matches_spec(*self, command@),
            !regex_valid(self.pattern@) ==> r == false,
    {
        let re = match regex_compile(self.pattern.as_str()) {
            Some(re) => re,
            None => {
                return false;
            },
        };
        let texts = extract_texts_exec(command);
        let ghost tv = extract_texts(command@);
        let mut t: usize = 0;
        while t < texts.len()
            invariant
                t <= texts@.len(),
                regex_valid(self.pattern@),
                views3(texts@) == tv,
                tv == extract_texts(command@),
                regex_pattern(re) == self.pattern@,
                !self.args_mode ==> forall|q: int|
                    0 <= q < t ==> !text_matches_pattern(self.pattern@, #[trigger] tv[q]),
                self.args_mode ==> forall|q: int|
                    0 <= q < t ==> !text_matches_args(
                        self.pattern@,
                        str_views(self.args@),
                        #[trigger] tv[q],
                    ),
            decreases texts@.len() - t,
        {
            let words = &texts[t];
            proof {
                assert(tv[t as int] == views(words@));
            }
            if !self.args_mode {
                let subject = join_words_exec(words);
                let subject_str = chars_to_string(&subject);
                if regex_is_match(&re, subject_str.as_str()) {
                    return true;
                }
            } else {
                if words.len() > 0 {
                    proof {
                        assert(views(words@)[0] == words@[0]@);
                    }
                    let head = chars_to_string(&words[0]);
                    if regex_is_match(&re, head.as_str()) {
                        if self.args.len() == 0 {
                            proof {
                                assert(str_views(self.args@).len() == 0);
                                assert(tv[t as int] == views(words@));
                                assert(views(words@).len() > 0);
                                assert(regex_match(self.pattern@, views(words@)[0]));
                                assert(text_matches_args(
                                    self.pattern@,
                                    str_views(self.args@),
                                    tv[t as int],
                                ));
                                assert(extract_texts(command@)[t as int] == tv[t as int]);
                                assert(matches_spec(*self, command@));
                            }
                            return true;
                        }
                        if words.len() > 1 {
                            proof {
                                assert(views(words@)[1] == words@[1]@);
                            }
                            let mut k: usize = 0;
                            while k < self.args.len()
                                invariant
                                    k <= self.args@.len(),
                                    self.args_mode,
                                    regex_valid(self.pattern@),
                                    t < texts@.len(),
                                    views3(texts@) == tv,
                                    tv == extract_texts(command@),
                                    tv[t as int] == views(texts@[t as int]@),
                                    words == &texts@[t as int],
                                    words@.len() > 1,
                                    views(words@)[1] == words@[1]@,
                                    regex_match(self.pattern@, views(words@)[0]),
                                    forall|j: int|
                                        0 <= j < k ==> str_views(self.args@)[j] != views(
                                            words@,
                                        )[1],
                                decreases self.args@.len() - k,
                            {
                                if chars_eq_str(&words[1], self.args[k].as_str()) {
                                    proof {
                                        assert(str_views(self.args@)[k as int] == words@[1]@);
                                        assert(str_views(self.args@).contains(views(words@)[1]));
                                        assert(text_matches_args(
                                            self.pattern@,
                                            str_views(self.args@),
                                            tv[t as int],
                                        ));
                                    }
                                    return true;
                                }
                                proof {
                                    assert(str_views(self.args@)[k as int] == self.args@[
                                        k as int]@);
                                }
                                k = k + 1;
                            }
                            proof {
                                assert(!str_views(self.args@).contains(views(words@)[1]));
                            }
                        }
                    }
                }
                proof {
                    assert(!text_matches_args(
                        self.pattern@,
                        str_views(self.args@),
                        tv[t as int],
                    ));
                }
            }
            t = t + 1;
        }
        false
    }

    /// This filter applies to pre-execution shell events whose command line
    /// it matches.
    pub fn applies_to(&self, input: &HookInput) -> (r: bool)
        ensures
            r == (input.event@ == "PreToolUse"@ && input.tool_name@ == "Bash"@ && (input.tool_input
                matches ToolInput::Bash(b) && regex_valid(self.pattern@) && matches_spec(
                *self,
                b.command@,
            ))),
    {
        if !str_eq(input.event.as_str(), "PreToolUse") || !str_eq(input.tool_name.as_str(), "Bash")
        {
            return false;
        }
        match &input.tool_input {
            ToolInput::Bash(b) => self.matches(b.command.as_str()),
            _ => false,
        }
    }

    /// The decision this filter renders: block with its message.
    pub fn execute(&self, _input: &HookInput) -> (r: Decision)
        ensures
            r == (Decision::Block { message: self.message }),
    {
        Decision::Block { message: self.message.clone() }
    }

    /// Ordering key: between the built-in filters and the side-effect
    /// filters.
    pub fn priority(&self) -> (r: u32)
        ensures
            r == 50,
    {
        50
    }
}

} // verus!
