//! Shell-quote-aware tokenizing and small string utilities.
//!
//! The tokenizer splits a command string on unquoted whitespace, honouring
//! single quotes, double quotes and backslash escaping, as a shell would for
//! argument boundary detection.

use vstd::prelude::*;

verus! {

/// Views of a sequence of character vectors.
pub open spec fn views(v: Seq<Vec<char>>) -> Seq<Seq<char>> {
    v.map_values(|x: Vec<char>| x@)
}

/// Views of a sequence of strings.
pub open spec fn str_views(v: Seq<String>) -> Seq<Seq<char>> {
    v.map_values(|x: String| x@)
}

/// One step of tokenizing: `cur` is the token being accumulated, `sq`/`dq`
/// record an open single/double quote, `esc` a pending backslash escape.
pub open spec fn tok_rec(s: Seq<char>, cur: Seq<char>, sq: bool, dq: bool, esc: bool) -> Seq<
    Seq<char>,
>
    decreases s.len(),
{
    if s.len() == 0 {
        if cur.len() > 0 {
            seq![cur]
        } else {
            Seq::empty()
        }
    } else {
        let c = s[0];
        let rest = s.skip(1);
        if esc {
            tok_rec(rest, cur.push(c), sq, dq, false)
        } else if c == '\\' && !sq {
            tok_rec(rest, cur, sq, dq, true)
        } else if c == '\'' && !dq {
            tok_rec(rest, cur, !sq, dq, false)
        } else if c == '"' && !sq {
            tok_rec(rest, cur, sq, !dq, false)
        } else if (c == ' ' || c == '\t' || c == '\n' || c == '\r') && !sq && !dq {
            if cur.len() > 0 {
                seq![cur] + tok_rec(rest, Seq::empty(), sq, dq, false)
            } else {
                tok_rec(rest, Seq::empty(), sq, dq, false)
            }
        } else {
            tok_rec(rest, cur.push(c), sq, dq, false)
        }
    }
}

/// The tokens of a command string under shell quoting rules.
pub open spec fn tokenize(s: Seq<char>) -> Seq<Seq<char>> {
    tok_rec(s, Seq::empty(), false, false, false)
}

/// The characters of a string slice, as a vector.
pub fn str_to_chars(s: &str) -> (r: Vec<char>)
    ensures
        r@ == s@,
{
    let n = s.unicode_len();
    let mut r: Vec<char> = Vec::new();
    let mut i: usize = 0;
    while i < n
        invariant
            i <= n,
            n == s@.len(),
            r@ == s@.take(i as int),
        decreases n - i,
    {
        let c = s.get_char(i);
        r.push(c);
        i = i + 1;
        proof {
            assert(s@.take(i as int) =~= s@.take(i as int - 1).push(s@[i as int - 1]));
        }
    }
    proof {
        assert(s@.take(n as int) =~= s@);
    }
    r
}

/// Relies on `core::iter::Iterator::collect`: builds the `String` holding
/// exactly the given characters, in order.
#[verifier::external_body]
pub(crate) fn chars_to_string(v: &Vec<char>) -> (s: String)
    ensures
        s@ == v@,
{
    v.iter().collect()
}

/// Character-by-character equality of two string slices.
pub fn str_eq(a: &str, b: &str) -> (r: bool)
    ensures
        r == (a@ == b@),
{
    let na = a.unicode_len();
    let nb = b.unicode_len();
    if na != nb {
        return false;
    }
    let mut i: usize = 0;
    while i < na
        invariant
            i <= na,
            na == a@.len(),
            na == b@.len(),
            forall|j: int| 0 <= j < i ==> a@[j] == b@[j],
        decreases na - i,
    {
        if a.get_char(i) != b.get_char(i) {
            return false;
        }
        i = i + 1;
    }
    proof {
        assert(a@ =~= b@);
    }
    true
}

/// Equality of a character vector and a string slice.
pub fn chars_eq_str(v: &Vec<char>, s: &str) -> (r: bool)
    ensures
        r == (v@ == s@),
{
    let n = s.unicode_len();
    if v.len() != n {
        return false;
    }
    let mut i: usize = 0;
    while i < n
        invariant
            i <= n,
            n == s@.len(),
            n == v@.len(),
            forall|j: int| 0 <= j < i ==> v@[j] == s@[j],
        decreases n - i,
    {
        if v[i] != s.get_char(i) {
            return false;
        }
        i = i + 1;
    }
    proof {
        assert(v@ =~= s@);
    }
    true
}

/// Tokenize a character vector under shell quoting rules.
pub fn tokenize_chars(s: &Vec<char>) -> (r: Vec<Vec<char>>)
    ensures
        views(r@) == tokenize(s@),
{
    let mut toks: Vec<Vec<char>> = Vec::new();
    let mut cur: Vec<char> = Vec::new();
    let mut sq = false;
    let mut dq = false;
    let mut esc = false;
    let mut i: usize = 0;
    proof {
        assert(s@.skip(0) =~= s@);
        assert(cur@ =~= Seq::<char>::empty());
        assert(views(toks@) + tok_rec(s@, cur@, false, false, false) =~= tok_rec(
            s@,
            cur@,
            false,
            false,
            false,
        ));
    }
    while i < s.len()
        invariant
            i <= s.len(),
            tokenize(s@) == views(toks@) + tok_rec(s@.skip(i as int), cur@, sq, dq, esc),
        decreases s.len() - i,
    {
        let ghost pre = s@.skip(i as int);
        proof {
            assert(pre[0] == s@[i as int]);
            assert(pre.skip(1) =~= s@.skip(i as int + 1));
        }
        let c = s[i];
        if esc {
            cur.push(c);
            esc = false;
        } else if c == '\\' && !sq {
            esc = true;
        } else if c == '\'' && !dq {
            sq = !sq;
        } else if c == '"' && !sq {
            dq = !dq;
        } else if (c == ' ' || c == '\t' || c == '\n' || c == '\r') && !sq && !dq {
            if cur.len() > 0 {
                let ghost oldtoks = toks@;
                let ghost oldcur = cur@;
                toks.push(cur);
                cur = Vec::new();
                proof {
                    assert(views(toks@) =~= views(oldtoks).push(oldcur));
                    assert(cur@ =~= Seq::<char>::empty());
                    assert(views(oldtoks) + (seq![oldcur] + tok_rec(
                        pre.skip(1),
                        cur@,
                        sq,
                        dq,
                        false,
                    )) =~= views(toks@) + tok_rec(pre.skip(1), cur@, sq, dq, false));
                }
            } else {
                proof {
                    assert(cur@ =~= Seq::<char>::empty());
                }
            }
        } else {
            cur.push(c);
        }
        i = i + 1;
    }
    proof {
        assert(s@.skip(i as int) =~= Seq::<char>::empty());
    }
    if cur.len() > 0 {
        let ghost oldtoks = toks@;
        let ghost oldcur = cur@;
        toks.push(cur);
        proof {
            assert(views(toks@) =~= views(oldtoks).push(oldcur));
            assert(views(oldtoks) + seq![oldcur] =~= views(toks@));
        }
    } else {
        proof {
            assert(views(toks@) + Seq::<Seq<char>>::empty() =~= views(toks@));
        }
    }
    toks
}

/// Equality of two character vectors.
pub fn chars_eq(a: &Vec<char>, b: &Vec<char>) -> (r: bool)
    ensures
        r == (a@ == b@),
{
    let n = a.len();
    if b.len() != n {
        return false;
    }
    let mut i: usize = 0;
    while i < n
        invariant
            i <= n,
            n == a@.len(),
            n == b@.len(),
            forall|j: int| 0 <= j < i ==> a@[j] == b@[j],
        decreases n - i,
    {
        if a[i] != b[i] {
            return false;
        }
        i = i + 1;
    }
    proof {
        assert(a@ =~= b@);
    }
    true
}

/// A copy of a character vector.
pub fn copy_chars(v: &Vec<char>) -> (r: Vec<char>)
    ensures
        r@ == v@,
{
    sub_chars(v, 0, v.len())
}

/// The characters of `v` from `from` (inclusive) to `to` (exclusive).
pub fn sub_chars(v: &Vec<char>, from: usize, to: usize) -> (r: Vec<char>)
    requires
        from <= to <= v@.len(),
    ensures
        r@ == v@.subrange(from as int, to as int),
{
    let mut r: Vec<char> = Vec::new();
    let mut i: usize = from;
    while i < to
        invariant
            from <= i <= to <= v@.len(),
            r@ == v@.subrange(from as int, i as int),
        decreases to - i,
    {
        r.push(v[i]);
        i = i + 1;
        proof {
            assert(v@.subrange(from as int, i as int) =~= v@.subrange(from as int, i as int - 1).push(
                v@[i as int - 1],
            ));
        }
    }
    proof {
        assert(r@ =~= v@.subrange(from as int, to as int));
    }
    r
}

/// Whether a character occurs in the vector.
pub fn contains_char(v: &Vec<char>, c: char) -> (r: bool)
    ensures
        r == v@.contains(c),
{
    let mut i: usize = 0;
    while i < v.len()
        invariant
            i <= v@.len(),
            forall|j: int| 0 <= j < i ==> v@[j] != c,
        decreases v@.len() - i,
    {
        if v[i] == c {
            return true;
        }
        i = i + 1;
    }
    false
}

/// Whether a token occurs in a list of tokens.
pub fn contains_tok(l: &Vec<Vec<char>>, t: &Vec<char>) -> (r: bool)
    ensures
        r == views(l@).contains(t@),
{
    let mut i: usize = 0;
    while i < l.len()
        invariant
            i <= l@.len(),
            forall|j: int| 0 <= j < i ==> views(l@)[j] != t@,
        decreases l@.len() - i,
    {
        if chars_eq(&l[i], t) {
            proof {
                assert(views(l@)[i as int] == t@);
            }
            return true;
        }
        i = i + 1;
    }
    false
}

/// Append copies of all of `src` to `dst`.
pub fn append_toks(dst: &mut Vec<Vec<char>>, src: &Vec<Vec<char>>)
    ensures
        views(final(dst)@) == views(old(dst)@) + views(src@),
{
    let mut i: usize = 0;
    while i < src.len()
        invariant
            i <= src@.len(),
            views(dst@) == views(old(dst)@) + views(src@).take(i as int),
        decreases src@.len() - i,
    {
        let ghost pre = dst@;
        dst.push(copy_chars(&src[i]));
        i = i + 1;
        proof {
            assert(views(dst@) =~= views(pre).push(views(src@)[i as int - 1]));
            assert(views(dst@) =~= views(old(dst)@) + views(src@).take(i as int));
        }
    }
    proof {
        assert(views(src@).take(src@.len() as int) =~= views(src@));
    }
}

/// The tokens as `String`s.
pub fn toks_to_strings(v: &Vec<Vec<char>>) -> (r: Vec<String>)
    ensures
        str_views(r@) == views(v@),
{
    let mut r: Vec<String> = Vec::new();
    let mut i: usize = 0;
    proof {
        assert(str_views(r@) =~= views(v@).take(0));
    }
    while i < v.len()
        invariant
            i <= v@.len(),
            str_views(r@) == views(v@).take(i as int),
        decreases v@.len() - i,
    {
        let ghost oldr = r@;
        let s = chars_to_string(&v[i]);
        r.push(s);
        i = i + 1;
        proof {
            assert(str_views(r@) =~= str_views(oldr).push(s@));
            assert(views(v@).take(i as int) =~= views(v@).take(i as int - 1).push(
                views(v@)[i as int - 1],
            ));
            assert(str_views(r@) =~= views(v@).take(i as int));
        }
    }
    proof {
        assert(views(v@).take(v@.len() as int) =~= views(v@));
    }
    r
}

/// Views of a sequence of token lists.
pub open spec fn views3(v: Seq<Vec<Vec<char>>>) -> Seq<Seq<Seq<char>>> {
    v.map_values(|x: Vec<Vec<char>>| views(x@))
}

/// Whether `p` is a prefix of `t`.
pub open spec fn starts_with_seq(t: Seq<char>, p: Seq<char>) -> bool {
    t.len() >= p.len() && t.take(p.len() as int) == p
}

/// Whether `p` is a prefix of `t`, executably.
pub fn starts_with_chars(t: &Vec<char>, p: &str) -> (r: bool)
    ensures
        r == starts_with_seq(t@, p@),
{
    let n = p.unicode_len();
    if t.len() < n {
        return false;
    }
    let mut i: usize = 0;
    while i < n
        invariant
            i <= n,
            n == p@.len(),
            n <= t@.len(),
            forall|j: int| 0 <= j < i ==> t@[j] == p@[j],
        decreases n - i,
    {
        if t[i] != p.get_char(i) {
            proof {
                assert(t@.take(n as int)[i as int] != p@[i as int]);
            }
            return false;
        }
        i = i + 1;
    }
    proof {
        assert(t@.take(n as int) =~= p@);
    }
    true
}

/// Whether `n` occurs in `h` starting at position `i`.
pub open spec fn is_match_at(h: Seq<char>, n: Seq<char>, i: int) -> bool {
    0 <= i && i + n.len() <= h.len() && h.subrange(i, i + n.len() as int) == n
}

/// Whether `n` occurs anywhere in `h`.
pub open spec fn contains_sub(h: Seq<char>, n: Seq<char>) -> bool {
    exists|i: int| is_match_at(h, n, i)
}

/// Whether `n` occurs in `h` at position `i`, executably.
#[verifier::loop_isolation(false)]
pub fn match_at(h: &Vec<char>, n: &Vec<char>, i: usize) -> (r: bool)
    requires
        i + n@.len() <= h@.len(),
    ensures
        r == is_match_at(h@, n@, i as int),
{
    let hn = h.len();
    let mut j: usize = 0;
    proof {
        assert(hn == h@.len());
    }
    while j < n.len()
        invariant
            j <= n@.len(),
            i + n@.len() <= h@.len(),
            forall|k: int| 0 <= k < j ==> h@[i + k] == n@[k],
        decreases n@.len() - j,
    {
        if h[i + j] != n[j] {
            proof {
                assert(h@.subrange(i as int, i + n@.len() as int)[j as int] != n@[j as int]);
            }
            return false;
        }
        j = j + 1;
    }
    proof {
        assert(h@.subrange(i as int, i + n@.len() as int) =~= n@);
    }
    true
}

/// Whether `n` occurs anywhere in `h`, executably.
#[verifier::loop_isolation(false)]
pub fn contains_sub_chars(h: &Vec<char>, n: &Vec<char>) -> (r: bool)
    ensures
        r == contains_sub(h@, n@),
{
    if n.len() == 0 {
        proof {
            assert(h@.subrange(0, 0) =~= n@);
            assert(is_match_at(h@, n@, 0));
        }
        return true;
    }
    if n.len() > h.len() {
        proof {
            assert(forall|i: int| !is_match_at(h@, n@, i));
        }
        return false;
    }
    let mut i: usize = 0;
    while i <= h.len() - n.len()
        invariant
            n@.len() <= h@.len(),
            i <= h@.len() - n@.len() + 1,
            forall|k: int| 0 <= k < i ==> !is_match_at(h@, n@, k),
        decreases h@.len() - n@.len() - i + 1,
    {
        if match_at(h, n, i) {
            return true;
        }
        i = i + 1;
    }
    proof {
        assert(forall|k: int| is_match_at(h@, n@, k) ==> 0 <= k <= h@.len() - n@.len());
    }
    false
}

/// The text with every occurrence of `n` replaced by `r`, left to right.
pub open spec fn replace_sub(h: Seq<char>, n: Seq<char>, r: Seq<char>) -> Seq<char>
    decreases h.len(),
{
    if n.len() == 0 || h.len() < n.len() {
        h
    } else if h.take(n.len() as int) == n {
        r + replace_sub(h.skip(n.len() as int), n, r)
    } else {
        seq![h[0]] + replace_sub(h.skip(1), n, r)
    }
}

/// Replace every occurrence of `n` in `h` by `rep`, left to right.
#[verifier::loop_isolation(false)]
pub fn replace_chars(h: &Vec<char>, n: &Vec<char>, rep: &Vec<char>) -> (out: Vec<char>)
    requires
        n@.len() > 0,
    ensures
        out@ == replace_sub(h@, n@, rep@),
{
    let mut out: Vec<char> = Vec::new();
    let mut i: usize = 0;
    proof {
        assert(h@.skip(0) =~= h@);
        assert(out@ + replace_sub(h@, n@, rep@) =~= replace_sub(h@, n@, rep@));
    }
    while i < h.len()
        invariant
            i <= h@.len(),
            n@.len() > 0,
            replace_sub(h@, n@, rep@) == out@ + replace_sub(h@.skip(i as int), n@, rep@),
        decreases h@.len() - i,
    {
        let ghost pre = h@.skip(i as int);
        proof {
            assert(pre[0] == h@[i as int]);
            assert(pre.skip(1) =~= h@.skip(i as int + 1));
        }
        if n.len() <= h.len() - i && match_at(h, n, i) {
            let ghost oldout = out@;
            let mut j: usize = 0;
            while j < rep.len()
                invariant
                    j <= rep@.len(),
                    out@ == oldout + rep@.take(j as int),
                decreases rep@.len() - j,
            {
                out.push(rep[j]);
                j = j + 1;
                proof {
                    assert(oldout + rep@.take(j as int) =~= (oldout + rep@.take(j as int - 1)).push(
                        rep@[j as int - 1],
                    ));
                }
            }
            proof {
                assert(rep@.take(rep@.len() as int) =~= rep@);
                assert(pre.take(n@.len() as int) =~= h@.subrange(i as int, i + n@.len() as int));
                assert(pre.skip(n@.len() as int) =~= h@.skip(i as int + n@.len() as int));
                assert(oldout + (rep@ + replace_sub(pre.skip(n@.len() as int), n@, rep@)) =~= out@
                    + replace_sub(pre.skip(n@.len() as int), n@, rep@));
            }
            i = i + n.len();
        } else {
            let ghost oldout = out@;
            out.push(h[i]);
            proof {
                if i + n@.len() <= h@.len() {
                    assert(pre.take(n@.len() as int) =~= h@.subrange(
                        i as int,
                        i + n@.len() as int,
                    ));
                } else {
                    assert(pre.len() < n@.len());
                }
                assert(oldout + (seq![pre[0]] + replace_sub(pre.skip(1), n@, rep@)) =~= out@
                    + replace_sub(pre.skip(1), n@, rep@));
            }
            i = i + 1;
        }
    }
    proof {
        assert(h@.skip(i as int) =~= Seq::<char>::empty());
        assert(out@ + Seq::<char>::empty() =~= out@);
    }
    out
}

/// The decimal digits of a number, most significant first.
pub open spec fn dec_str(n: nat) -> Seq<char>
    decreases n,
{
    if n < 10 {
        seq![digit_char(n)]
    } else {
        dec_str(n / 10) + seq![digit_char(n % 10)]
    }
}

/// The character for one decimal digit.
pub open spec fn digit_char(d: nat) -> char {
    if d == 0 {
        '0'
    } else if d == 1 {
        '1'
    } else if d == 2 {
        '2'
    } else if d == 3 {
        '3'
    } else if d == 4 {
        '4'
    } else if d == 5 {
        '5'
    } else if d == 6 {
        '6'
    } else if d == 7 {
        '7'
    } else if d == 8 {
        '8'
    } else {
        '9'
    }
}

fn push_dec(n: usize, out: &mut Vec<char>)
    ensures
        final(out)@ == old(out)@ + dec_str(n as nat),
    decreases n,
{
    if n >= 10 {
        push_dec(n / 10, out);
    }
    let m = n % 10;
    let c = if m == 0 {
        '0'
    } else if m == 1 {
        '1'
    } else if m == 2 {
        '2'
    } else if m == 3 {
        '3'
    } else if m == 4 {
        '4'
    } else if m == 5 {
        '5'
    } else if m == 6 {
        '6'
    } else if m == 7 {
        '7'
    } else if m == 8 {
        '8'
    } else {
        '9'
    };
    proof {
        assert(c == digit_char((n % 10) as nat));
    }
    out.push(c);
    proof {
        if n < 10 {
            assert(old(out)@ + dec_str(n as nat) =~= out@);
        } else {
            assert(old(out)@ + dec_str(n as nat) =~= out@);
        }
    }
}

/// The decimal rendering of a number.
pub fn usize_to_string(n: usize) -> (r: String)
    ensures
        r@ == dec_str(n as nat),
{
    let mut v: Vec<char> = Vec::new();
    push_dec(n, &mut v);
    proof {
        assert(Seq::<char>::empty() + dec_str(n as nat) =~= dec_str(n as nat));
    }
    chars_to_string(&v)
}

/// `strip_quoted` one step at a time: removes quote characters and everything
/// inside quotes; a backslash outside single quotes drops itself and the
/// following character.
pub open spec fn strip_rec(s: Seq<char>, sq: bool, dq: bool) -> Seq<char>
    decreases s.len(),
{
    if s.len() == 0 {
        Seq::empty()
    } else {
        let c = s[0];
        if c == '\\' && !sq {
            if s.len() >= 2 {
                strip_rec(s.skip(2), sq, dq)
            } else {
                Seq::empty()
            }
        } else if c == '\'' && !dq {
            strip_rec(s.skip(1), !sq, dq)
        } else if c == '"' && !sq {
            strip_rec(s.skip(1), sq, !dq)
        } else if !sq && !dq {
            seq![c] + strip_rec(s.skip(1), sq, dq)
        } else {
            strip_rec(s.skip(1), sq, dq)
        }
    }
}

/// The text with quoted substrings and quote characters removed.
pub open spec fn strip_quoted(s: Seq<char>) -> Seq<char> {
    strip_rec(s, false, false)
}

/// Remove quoted content from a piece of command text.
pub fn strip_quoted_chars(s: &Vec<char>) -> (r: Vec<char>)
    ensures
        r@ == strip_quoted(s@),
{
    let mut out: Vec<char> = Vec::new();
    let mut sq = false;
    let mut dq = false;
    let mut i: usize = 0;
    proof {
        assert(s@.skip(0) =~= s@);
        assert(out@ + strip_rec(s@, false, false) =~= strip_rec(s@, false, false));
    }
    while i < s.len()
        invariant
            i <= s.len(),
            strip_quoted(s@) == out@ + strip_rec(s@.skip(i as int), sq, dq),
        decreases s.len() - i,
    {
        let ghost pre = s@.skip(i as int);
        proof {
            assert(pre[0] == s@[i as int]);
            assert(pre.skip(1) =~= s@.skip(i as int + 1));
        }
        let c = s[i];
        if c == '\\' && !sq {
            if i + 1 < s.len() {
                proof {
                    assert(pre.skip(2) =~= s@.skip(i as int + 2));
                }
                i = i + 2;
            } else {
                proof {
                    assert(pre.len() == 1);
                    assert(out@ + Seq::<char>::empty() =~= out@);
                }
                i = i + 1;
                proof {
                    assert(s@.skip(i as int) =~= Seq::<char>::empty());
                }
            }
            continue ;
        } else if c == '\'' && !dq {
            sq = !sq;
        } else if c == '"' && !sq {
            dq = !dq;
        } else if !sq && !dq {
            let ghost oldout = out@;
            out.push(c);
            proof {
                assert(oldout + (seq![pre[0]] + strip_rec(pre.skip(1), sq, dq)) =~= out@
                    + strip_rec(pre.skip(1), sq, dq));
            }
        }
        i = i + 1;
    }
    proof {
        assert(s@.skip(i as int) =~= Seq::<char>::empty());
        assert(out@ + Seq::<char>::empty() =~= out@);
    }
    out
}

/// A whitespace character for word splitting.
pub open spec fn is_space(c: char) -> bool {
    c == ' ' || c == '\t' || c == '\n' || c == '\r'
}

/// Word splitting on whitespace.
pub open spec fn ws_rec(s: Seq<char>, cur: Seq<char>) -> Seq<Seq<char>>
    decreases s.len(),
{
    if s.len() == 0 {
        if cur.len() > 0 {
            seq![cur]
        } else {
            Seq::empty()
        }
    } else if is_space(s[0]) {
        if cur.len() > 0 {
            seq![cur] + ws_rec(s.skip(1), Seq::empty())
        } else {
            ws_rec(s.skip(1), Seq::empty())
        }
    } else {
        ws_rec(s.skip(1), cur.push(s[0]))
    }
}

/// The whitespace-separated words of a text.
pub open spec fn ws_words(s: Seq<char>) -> Seq<Seq<char>> {
    ws_rec(s, Seq::empty())
}

/// Split a text into its whitespace-separated words.
pub fn ws_words_chars(s: &Vec<char>) -> (r: Vec<Vec<char>>)
    ensures
        views(r@) == ws_words(s@),
{
    let mut words: Vec<Vec<char>> = Vec::new();
    let mut cur: Vec<char> = Vec::new();
    let mut i: usize = 0;
    proof {
        assert(s@.skip(0) =~= s@);
        assert(cur@ =~= Seq::<char>::empty());
        assert(views(words@) + ws_rec(s@, cur@) =~= ws_rec(s@, cur@));
    }
    while i < s.len()
        invariant
            i <= s.len(),
            ws_words(s@) == views(words@) + ws_rec(s@.skip(i as int), cur@),
        decreases s.len() - i,
    {
        let ghost pre = s@.skip(i as int);
        proof {
            assert(pre[0] == s@[i as int]);
            assert(pre.skip(1) =~= s@.skip(i as int + 1));
        }
        let c = s[i];
        if c == ' ' || c == '\t' || c == '\n' || c == '\r' {
            if cur.len() > 0 {
                let ghost oldwords = words@;
                let ghost oldcur = cur@;
                words.push(cur);
                cur = Vec::new();
                proof {
                    assert(views(words@) =~= views(oldwords).push(oldcur));
                    assert(cur@ =~= Seq::<char>::empty());
                    assert(views(oldwords) + (seq![oldcur] + ws_rec(pre.skip(1), cur@)) =~= views(
                        words@,
                    ) + ws_rec(pre.skip(1), cur@));
                }
            } else {
                proof {
                    assert(cur@ =~= Seq::<char>::empty());
                }
            }
        } else {
            cur.push(c);
        }
        i = i + 1;
    }
    proof {
        assert(s@.skip(i as int) =~= Seq::<char>::empty());
    }
    if cur.len() > 0 {
        let ghost oldwords = words@;
        let ghost oldcur = cur@;
        words.push(cur);
        proof {
            assert(views(words@) =~= views(oldwords).push(oldcur));
            assert(views(oldwords) + seq![oldcur] =~= views(words@));
        }
    } else {
        proof {
            assert(views(words@) + Seq::<Seq<char>>::empty() =~= views(words@));
        }
    }
    words
}

/// Naive split on `|`, with no quote awareness.
pub open spec fn bar_rec(s: Seq<char>, cur: Seq<char>) -> Seq<Seq<char>>
    decreases s.len(),
{
    if s.len() == 0 {
        seq![cur]
    } else if s[0] == '|' {
        seq![cur] + bar_rec(s.skip(1), Seq::empty())
    } else {
        bar_rec(s.skip(1), cur.push(s[0]))
    }
}

/// The pieces of the text between `|` characters, quote-blind.
pub open spec fn bar_pieces(s: Seq<char>) -> Seq<Seq<char>> {
    bar_rec(s, Seq::empty())
}

/// Split a text at every `|` character, with no quote awareness.
pub fn bar_pieces_chars(s: &Vec<char>) -> (r: Vec<Vec<char>>)
    ensures
        views(r@) == bar_pieces(s@),
{
    let mut pieces: Vec<Vec<char>> = Vec::new();
    let mut cur: Vec<char> = Vec::new();
    let mut i: usize = 0;
    proof {
        assert(s@.skip(0) =~= s@);
        assert(cur@ =~= Seq::<char>::empty());
        assert(views(pieces@) + bar_rec(s@, cur@) =~= bar_rec(s@, cur@));
    }
    while i < s.len()
        invariant
            i <= s.len(),
            bar_pieces(s@) == views(pieces@) + bar_rec(s@.skip(i as int), cur@),
        decreases s.len() - i,
    {
        let ghost pre = s@.skip(i as int);
        proof {
            assert(pre[0] == s@[i as int]);
            assert(pre.skip(1) =~= s@.skip(i as int + 1));
        }
        let c = s[i];
        if c == '|' {
            let ghost oldpieces = pieces@;
            let ghost oldcur = cur@;
            pieces.push(cur);
            cur = Vec::new();
            proof {
                assert(views(pieces@) =~= views(oldpieces).push(oldcur));
                assert(cur@ =~= Seq::<char>::empty());
                assert(views(oldpieces) + (seq![oldcur] + bar_rec(pre.skip(1), cur@)) =~= views(
                    pieces@,
                ) + bar_rec(pre.skip(1), cur@));
            }
        } else {
            cur.push(c);
        }
        i = i + 1;
    }
    proof {
        assert(s@.skip(i as int) =~= Seq::<char>::empty());
    }
    let ghost oldpieces = pieces@;
    let ghost oldcur = cur@;
    pieces.push(cur);
    proof {
        assert(views(pieces@) =~= views(oldpieces).push(oldcur));
        assert(views(oldpieces) + seq![oldcur] =~= views(pieces@));
    }
    pieces
}

/// Pieces joined with a single separator character.
pub open spec fn join_sep(ws: Seq<Seq<char>>, sep: char) -> Seq<char>
    decreases ws.len(),
{
    if ws.len() == 0 {
        Seq::empty()
    } else if ws.len() == 1 {
        ws[0]
    } else {
        ws[0] + seq![sep] + join_sep(ws.skip(1), sep)
    }
}

/// Join pieces with a single separator character.
pub fn join_sep_chars(words: &Vec<Vec<char>>, sep: char) -> (r: Vec<char>)
    ensures
        r@ == join_sep(views(words@), sep),
{
    let mut r: Vec<char> = Vec::new();
    let mut i: usize = 0;
    proof {
        assert(views(words@).skip(0) =~= views(words@));
        assert(r@ + join_sep(views(words@), sep) =~= join_sep(views(words@), sep));
    }
    while i < words.len()
        invariant
            i <= words@.len(),
            join_sep(views(words@), sep) == r@ + join_sep(views(words@).skip(i as int), sep),
        decreases words@.len() - i,
    {
        let ghost ws = views(words@).skip(i as int);
        proof {
            assert(ws[0] == views(words@)[i as int]);
            assert(ws.skip(1) =~= views(words@).skip(i as int + 1));
        }
        let ghost oldr = r@;
        let w = &words[i];
        let mut j: usize = 0;
        while j < w.len()
            invariant
                j <= w@.len(),
                r@ == oldr + w@.take(j as int),
            decreases w@.len() - j,
        {
            r.push(w[j]);
            j = j + 1;
            proof {
                assert(oldr + w@.take(j as int) =~= (oldr + w@.take(j as int - 1)).push(
                    w@[j as int - 1],
                ));
            }
        }
        proof {
            assert(w@.take(w@.len() as int) =~= w@);
        }
        if i + 1 < words.len() {
            r.push(sep);
            proof {
                assert(ws.len() > 1);
                assert(oldr + (ws[0] + seq![sep] + join_sep(ws.skip(1), sep)) =~= r@ + join_sep(
                    ws.skip(1),
                    sep,
                ));
            }
        } else {
            proof {
                assert(ws.len() == 1);
                assert(oldr + ws[0] =~= r@);
                assert(join_sep(views(words@).skip(i as int + 1), sep) =~= Seq::<char>::empty());
                assert(r@ + Seq::<char>::empty() =~= r@);
            }
        }
        i = i + 1;
    }
    proof {
        if words@.len() == 0 {
            assert(r@ =~= join_sep(views(words@), sep));
        } else {
            assert(r@ + join_sep(views(words@).skip(i as int), sep) =~= r@);
        }
    }
    r
}

/// Copies of all tokens from `from` on.
pub fn tail_toks(v: &Vec<Vec<char>>, from: usize) -> (r: Vec<Vec<char>>)
    requires
        from <= v@.len(),
    ensures
        views(r@) == views(v@).skip(from as int),
{
    let mut r: Vec<Vec<char>> = Vec::new();
    let mut i: usize = from;
    proof {
        assert(views(r@) =~= views(v@).subrange(from as int, from as int));
    }
    while i < v.len()
        invariant
            from <= i <= v@.len(),
            views(r@) == views(v@).subrange(from as int, i as int),
        decreases v@.len() - i,
    {
        let ghost oldr = views(r@);
        r.push(copy_chars(&v[i]));
        i = i + 1;
        proof {
            assert(views(r@) =~= oldr.push(views(v@)[i as int - 1]));
            assert(views(r@) =~= views(v@).subrange(from as int, i as int));
        }
    }
    proof {
        assert(views(v@).subrange(from as int, v@.len() as int) =~= views(v@).skip(from as int));
    }
    r
}

/// Parse a command string into tokens, respecting shell quoting rules:
/// unquoted whitespace separates tokens, quotes group, backslash escapes.
pub fn parse_shell_tokens(command: &str) -> (r: Vec<String>)
    ensures
        str_views(r@) == tokenize(command@),
{
    let chars = str_to_chars(command);
    let toks = tokenize_chars(&chars);
    toks_to_strings(&toks)
}

} // verus!
