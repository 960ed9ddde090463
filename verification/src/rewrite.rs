//! Replacing the placeholder in the text of an output file.
//!
//! The placeholder is the token `__import_meta_env_placeholder__` written as
//! a string literal, in double or in single quotes. Rewriting one quote style
//! takes two passes over the text. The first looks for call sites: an arrow
//! `=>`, any run of whitespace, then the placeholder. There the serialized
//! object is put in parentheses, because a bare object literal right after an
//! arrow would be read as a block. The second pass replaces every placeholder
//! that is left by the bare serialized object.

use vstd::prelude::*;
use crate::text::{
    contains, contains_chars, from_chars, is_whitespace, is_whitespace_char, lemma_occurs_at_skip,
    matches_at, occurs_at, push_all, push_range, to_chars,
};

verus! {

/// The quote style of a placeholder literal.
#[derive(Clone, Copy, Debug, PartialEq, Eq, Structural)]
pub enum Quote {
    Double,
    Single,
}

/// The token between the quotes of a placeholder.
pub open spec fn token() -> Seq<char> {
    "__import_meta_env_placeholder__"@
}

/// The character that opens and closes a literal of style `quote`.
pub open spec fn quote_char(quote: Quote) -> char {
    match quote {
        Quote::Double => '"',
        Quote::Single => '\'',
    }
}

/// The placeholder literal of style `quote`.
pub open spec fn placeholder(quote: Quote) -> Seq<char> {
    seq![quote_char(quote)] + token() + seq![quote_char(quote)]
}

/// `text` holds a placeholder of either quote style.
pub open spec fn has_placeholder(text: Seq<char>) -> bool {
    contains(text, placeholder(Quote::Double)) || contains(text, placeholder(Quote::Single))
}

/// The arrow that opens the body of an arrow function.
pub open spec fn arrow() -> Seq<char> {
    seq!['=', '>']
}

/// The length of the longest prefix of `text` that is whitespace only.
pub open spec fn leading_whitespace(text: Seq<char>) -> nat
    decreases text.len(),
{
    if text.len() > 0 && is_whitespace(text[0]) {
        1 + leading_whitespace(text.skip(1))
    } else {
        0
    }
}

/// Where the whitespace ends that follows an arrow at the start of `text`.
pub open spec fn gap_end(text: Seq<char>) -> int {
    2 + leading_whitespace(text.skip(2)) as int
}

/// `text` begins with a call site of `pat`: an arrow, the longest run of
/// whitespace that follows it, then `pat`.
pub open spec fn at_call_site(text: Seq<char>, pat: Seq<char>) -> bool {
    &&& occurs_at(text, arrow(), 0)
    &&& occurs_at(text, pat, gap_end(text))
}

/// The first pass: at every call site of `pat`, read from left to right, the
/// arrow and the whitespace stay and `pat` becomes `value` in parentheses.
/// Everything else is kept.
pub open spec fn fix_call_sites(text: Seq<char>, pat: Seq<char>, value: Seq<char>) -> Seq<char>
    decreases text.len(),
{
    if text.len() == 0 {
        text
    } else if at_call_site(text, pat) {
        text.take(gap_end(text)) + seq!['('] + value + seq![')'] + fix_call_sites(
            text.skip(gap_end(text) + pat.len()),
            pat,
            value,
        )
    } else {
        text.take(1) + fix_call_sites(text.skip(1), pat, value)
    }
}

/// The second pass: every occurrence of `pat`, read from left to right and
/// without overlap, becomes `value`. An empty `pat` occurs nowhere.
pub open spec fn substitute(text: Seq<char>, pat: Seq<char>, value: Seq<char>) -> Seq<char>
    decreases text.len(),
{
    if text.len() == 0 {
        text
    } else if pat.len() > 0 && occurs_at(text, pat, 0) {
        value + substitute(text.skip(pat.len() as int), pat, value)
    } else {
        text.take(1) + substitute(text.skip(1), pat, value)
    }
}

/// Both passes for one quote style, the call sites first.
pub open spec fn rewrite_quote(text: Seq<char>, quote: Quote, value: Seq<char>) -> Seq<char> {
    substitute(fix_call_sites(text, placeholder(quote), value), placeholder(quote), value)
}

/// The text of a file after population: the double-quoted placeholders are
/// rewritten first, then the single-quoted ones in what came out.
pub open spec fn rewrite_text(text: Seq<char>, value: Seq<char>) -> Seq<char> {
    rewrite_quote(rewrite_quote(text, Quote::Double, value), Quote::Single, value)
}

/// Text in which `pat` stands nowhere comes out of the second pass as it
/// went in.
pub proof fn lemma_substitute_absent(text: Seq<char>, pat: Seq<char>, value: Seq<char>)
    requires
        !contains(text, pat),
    ensures
        substitute(text, pat, value) == text,
    decreases text.len(),
{
    if text.len() > 0 {
        assert(!occurs_at(text, pat, 0));
        assert forall|at: int| !occurs_at(text.skip(1), pat, at) by {
            if 0 <= at {
                lemma_occurs_at_skip(text, pat, 1, at);
            }
        }
        lemma_substitute_absent(text.skip(1), pat, value);
        assert(text.take(1) + text.skip(1) =~= text);
    }
}

/// Text in which `pat` stands nowhere comes out of the first pass as it
/// went in.
pub proof fn lemma_fix_call_sites_absent(text: Seq<char>, pat: Seq<char>, value: Seq<char>)
    requires
        !contains(text, pat),
    ensures
        fix_call_sites(text, pat, value) == text,
    decreases text.len(),
{
    if text.len() > 0 {
        assert(!occurs_at(text, pat, gap_end(text)));
        assert forall|at: int| !occurs_at(text.skip(1), pat, at) by {
            if 0 <= at {
                lemma_occurs_at_skip(text, pat, 1, at);
            }
        }
        lemma_fix_call_sites_absent(text.skip(1), pat, value);
        assert(text.take(1) + text.skip(1) =~= text);
    }
}

/// A file without a placeholder is left as it is: population changes no
/// character of a text that holds the placeholder in neither quote style.
pub proof fn lemma_rewrite_without_placeholder(text: Seq<char>, value: Seq<char>)
    requires
        !has_placeholder(text),
    ensures
        rewrite_text(text, value) == text,
{
    lemma_fix_call_sites_absent(text, placeholder(Quote::Double), value);
    lemma_substitute_absent(text, placeholder(Quote::Double), value);
    lemma_fix_call_sites_absent(text, placeholder(Quote::Single), value);
    lemma_substitute_absent(text, placeholder(Quote::Single), value);
}

/// A run of whitespace followed by something that is no whitespace is the
/// whole leading whitespace of the two together.
pub proof fn lemma_leading_whitespace_run(gap: Seq<char>, tail: Seq<char>)
    requires
        forall|i: int| 0 <= i < gap.len() ==> is_whitespace(gap[i]),
        tail.len() > 0 ==> !is_whitespace(tail[0]),
    ensures
        leading_whitespace(gap + tail) == gap.len(),
    decreases gap.len(),
{
    if gap.len() == 0 {
        assert(gap + tail =~= tail);
    } else {
        assert((gap + tail).skip(1) =~= gap.skip(1) + tail);
        lemma_leading_whitespace_run(gap.skip(1), tail);
    }
}

/// The body of an arrow function is put in parentheses, and the whitespace
/// between the arrow and the placeholder is kept as it was: where an arrow,
/// a run `gap` of whitespace and the placeholder are followed by `rest`, the
/// first pass gives the arrow, `gap`, `value` in parentheses, and then what
/// it makes of `rest`.
pub proof fn lemma_call_site_is_wrapped(
    gap: Seq<char>,
    quote: Quote,
    rest: Seq<char>,
    value: Seq<char>,
)
    requires
        forall|i: int| 0 <= i < gap.len() ==> is_whitespace(gap[i]),
    ensures
        fix_call_sites(arrow() + gap + placeholder(quote) + rest, placeholder(quote), value)
            == arrow() + gap + seq!['('] + value + seq![')'] + fix_call_sites(
            rest,
            placeholder(quote),
            value,
        ),
{
    let pat = placeholder(quote);
    let text = arrow() + gap + pat + rest;
    assert(text.subrange(0, 2) =~= arrow());
    assert(text.skip(2) =~= gap + (pat + rest));
    assert((pat + rest)[0] == quote_char(quote));
    lemma_leading_whitespace_run(gap, pat + rest);
    assert(text.subrange(gap_end(text), gap_end(text) + pat.len()) =~= pat);
    assert(text.take(gap_end(text)) =~= arrow() + gap);
    assert(text.skip(gap_end(text) + pat.len()) =~= rest);
}

/// A placeholder that is no body of an arrow function becomes the bare
/// value: where the placeholder is followed by `rest`, the second pass gives
/// `value` and then what it makes of `rest`.
pub proof fn lemma_placeholder_is_replaced(quote: Quote, rest: Seq<char>, value: Seq<char>)
    ensures
        substitute(placeholder(quote) + rest, placeholder(quote), value) == value + substitute(
            rest,
            placeholder(quote),
            value,
        ),
{
    let pat = placeholder(quote);
    let text = pat + rest;
    assert(text.subrange(0, pat.len() as int) =~= pat);
    assert(text.skip(pat.len() as int) =~= rest);
}

/// The placeholder literal of style `quote`, as characters.
pub(crate) fn placeholder_chars(quote: Quote) -> (r: Vec<char>)
    ensures
        r@ == placeholder(quote),
{
    let q = match quote {
        Quote::Double => '"',
        Quote::Single => '\'',
    };
    let inner = to_chars("__import_meta_env_placeholder__");
    let mut out: Vec<char> = Vec::new();
    out.push(q);
    push_all(&mut out, &inner);
    out.push(q);
    out
}

/// Decides whether `text` holds a placeholder of either quote style.
pub(crate) fn has_placeholder_chars(text: &Vec<char>) -> (r: bool)
    ensures
        r == has_placeholder(text@),
{
    let double = placeholder_chars(Quote::Double);
    if contains_chars(text, &double) {
        return true;
    }
    let single = placeholder_chars(Quote::Single);
    contains_chars(text, &single)
}

/// The index at which the whitespace that starts at `from` ends.
fn whitespace_end(text: &Vec<char>, from: usize) -> (r: usize)
    requires
        from <= text.len(),
    ensures
        r == from + leading_whitespace(text@.skip(from as int)),
        r <= text.len(),
{
    let mut j: usize = from;
    while j < text.len() && is_whitespace_char(text[j])
        invariant
            from <= j <= text.len(),
            from + leading_whitespace(text@.skip(from as int)) == j + leading_whitespace(
                text@.skip(j as int),
            ),
        decreases text.len() - j,
    {
        assert(text@.skip(j as int).skip(1) =~= text@.skip(j + 1));
        j += 1;
    }
    j
}

/// Looks for a call site of `pat` that begins at index `at`. Where there is
/// one, the result is the index at which `pat` stands.
fn call_site_at(text: &Vec<char>, at: usize, pat: &Vec<char>) -> (r: Option<usize>)
    requires
        at < text.len(),
    ensures
        r is Some <==> at_call_site(text@.skip(at as int), pat@),
        r matches Some(j) ==> j == at + gap_end(text@.skip(at as int)) && j + pat.len()
            <= text.len(),
{
    let ghost rest = text@.skip(at as int);
    if text[at] != '=' || text.len() - at < 2 || text[at + 1] != '>' {
        assert(!occurs_at(rest, arrow(), 0)) by {
            if occurs_at(rest, arrow(), 0) {
                assert(rest.subrange(0, 2)[0] == '=');
                assert(rest.subrange(0, 2)[1] == '>');
            }
        }
        return None;
    }
    assert(rest.subrange(0, 2) =~= arrow());
    assert(rest.skip(2) =~= text@.skip(at + 2));
    let j = whitespace_end(text, at + 2);
    proof {
        lemma_occurs_at_skip(text@, pat@, at as int, j - at);
    }
    if matches_at(text, j, pat) {
        Some(j)
    } else {
        None
    }
}

/// The first pass on characters: see [`fix_call_sites`].
pub(crate) fn fix_call_sites_chars(text: &Vec<char>, pat: &Vec<char>, value: &Vec<char>) -> (r: Vec<char>)
    ensures
        r@ == fix_call_sites(text@, pat@, value@),
{
    let mut out: Vec<char> = Vec::new();
    let mut i: usize = 0;
    proof {
        assert(text@.skip(0) =~= text@);
        assert(out@ + fix_call_sites(text@, pat@, value@) =~= fix_call_sites(text@, pat@, value@));
    }
    while i < text.len()
        invariant
            i <= text.len(),
            fix_call_sites(text@, pat@, value@) == out@ + fix_call_sites(
                text@.skip(i as int),
                pat@,
                value@,
            ),
        decreases text.len() - i,
    {
        let ghost rest = text@.skip(i as int);
        let ghost before = out@;
        match call_site_at(text, i, pat) {
            Some(j) => {
                push_range(&mut out, text, i, j);
                out.push('(');
                push_all(&mut out, value);
                out.push(')');
                proof {
                    assert(rest.take(gap_end(rest)) =~= text@.subrange(i as int, j as int));
                    assert(rest.skip(gap_end(rest) + pat@.len()) =~= text@.skip(j + pat.len()));
                    assert(out@ =~= before + (rest.take(gap_end(rest)) + seq!['('] + value@
                        + seq![')']));
                }
                i = j + pat.len();
            },
            None => {
                out.push(text[i]);
                proof {
                    assert(rest.take(1) =~= seq![text@[i as int]]);
                    assert(rest.skip(1) =~= text@.skip(i + 1));
                    assert(out@ =~= before + rest.take(1));
                }
                i += 1;
            },
        }
    }
    assert(out@ + Seq::<char>::empty() =~= out@);
    out
}

/// The second pass on characters: see [`substitute`].
pub(crate) fn substitute_chars(text: &Vec<char>, pat: &Vec<char>, value: &Vec<char>) -> (r: Vec<char>)
    ensures
        r@ == substitute(text@, pat@, value@),
{
    let mut out: Vec<char> = Vec::new();
    let mut i: usize = 0;
    proof {
        assert(text@.skip(0) =~= text@);
        assert(out@ + substitute(text@, pat@, value@) =~= substitute(text@, pat@, value@));
    }
    while i < text.len()
        invariant
            i <= text.len(),
            substitute(text@, pat@, value@) == out@ + substitute(
                text@.skip(i as int),
                pat@,
                value@,
            ),
        decreases text.len() - i,
    {
        let ghost rest = text@.skip(i as int);
        let ghost before = out@;
        proof {
            lemma_occurs_at_skip(text@, pat@, i as int, 0);
        }
        if pat.len() > 0 && matches_at(text, i, pat) {
            push_all(&mut out, value);
            proof {
                assert(rest.skip(pat@.len() as int) =~= text@.skip(i + pat.len()));
                assert(out@ =~= before + value@);
            }
            i = i + pat.len();
        } else {
            out.push(text[i]);
            proof {
                assert(rest.take(1) =~= seq![text@[i as int]]);
                assert(rest.skip(1) =~= text@.skip(i + 1));
                assert(out@ =~= before + rest.take(1));
            }
            i += 1;
        }
    }
    assert(out@ + Seq::<char>::empty() =~= out@);
    out
}

/// Both passes for one quote style on characters: see [`rewrite_quote`].
pub(crate) fn rewrite_quote_chars(text: &Vec<char>, quote: Quote, value: &Vec<char>) -> (r: Vec<char>)
    ensures
        r@ == rewrite_quote(text@, quote, value@),
{
    let pat = placeholder_chars(quote);
    let fixed = fix_call_sites_chars(text, &pat, value);
    substitute_chars(&fixed, &pat, value)
}

/// Population on characters: see [`rewrite_text`].
pub(crate) fn rewrite_chars(text: &Vec<char>, value: &Vec<char>) -> (r: Vec<char>)
    ensures
        r@ == rewrite_text(text@, value@),
{
    let double = rewrite_quote_chars(text, Quote::Double, value);
    rewrite_quote_chars(&double, Quote::Single, value)
}

/// Decides whether `contents` holds a placeholder of either quote style.
pub fn contains_placeholder(contents: &str) -> (r: bool)
    ensures
        r == has_placeholder(contents@),
{
    let text = to_chars(contents);
    has_placeholder_chars(&text)
}

/// Rewrites the call sites of the placeholder of style `quote` in
/// `contents`, putting `serialized` in parentheses at each of them.
pub fn fix_arrow_functions(contents: &str, quote: Quote, serialized: &str) -> (r: String)
    ensures
        r@ == fix_call_sites(contents@, placeholder(quote), serialized@),
{
    let text = to_chars(contents);
    let value = to_chars(serialized);
    let pat = placeholder_chars(quote);
    let out = fix_call_sites_chars(&text, &pat, &value);
    from_chars(&out)
}

/// Replaces every placeholder of style `quote` in `contents` by
/// `serialized`.
pub fn substitute_placeholder(contents: &str, quote: Quote, serialized: &str) -> (r: String)
    ensures
        r@ == substitute(contents@, placeholder(quote), serialized@),
{
    let text = to_chars(contents);
    let value = to_chars(serialized);
    let pat = placeholder_chars(quote);
    let out = substitute_chars(&text, &pat, &value);
    from_chars(&out)
}

/// Populates `contents`: every placeholder, of either quote style, becomes
/// `serialized`, in parentheses where it is the body of an arrow function.
pub fn rewrite(contents: &str, serialized: &str) -> (r: String)
    ensures
        r@ == rewrite_text(contents@, serialized@),
{
    let text = to_chars(contents);
    let value = to_chars(serialized);
    let out = rewrite_chars(&text, &value);
    from_chars(&out)
}

} // verus!
