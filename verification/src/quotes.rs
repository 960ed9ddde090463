//! One placeholder in a text without quotes.
//!
//! Where the text around a placeholder holds no quote character, and the
//! value holds no placeholder, what population gives can be written down
//! outright: the text before, the value, the text after. The value stands in
//! parentheses exactly where the text before ends in an arrow, with nothing
//! but whitespace behind it. The quote style of the placeholder makes no
//! difference.

use vstd::prelude::*;
use crate::rewrite::{
    arrow, at_call_site, fix_call_sites, gap_end, has_placeholder, leading_whitespace,
    lemma_call_site_is_wrapped, lemma_fix_call_sites_absent, lemma_leading_whitespace_run,
    lemma_placeholder_is_replaced, lemma_substitute_absent, placeholder, quote_char,
    rewrite_quote, rewrite_text, substitute, token, Quote,
};
use crate::text::{contains, is_whitespace, lemma_occurs_at_skip, occurs_at};

verus! {

/// `c` is a double or a single quote.
pub open spec fn is_quote(c: char) -> bool {
    c == '"' || c == '\''
}

/// `text` holds no quote character.
pub open spec fn quote_free(text: Seq<char>) -> bool {
    forall|i: int| 0 <= i < text.len() ==> !is_quote(#[trigger] text[i])
}

/// From index `at` on, `text` is an arrow and then whitespace to its end.
pub open spec fn arrow_tail(text: Seq<char>, at: int) -> bool {
    &&& occurs_at(text, arrow(), at)
    &&& at + 2 + leading_whitespace(text.skip(at + 2)) == text.len()
}

/// `text` ends in an arrow, with nothing but whitespace behind it.
pub open spec fn ends_in_arrow(text: Seq<char>) -> bool {
    exists|at: int| arrow_tail(text, at)
}

/// The value as it stands in place of a placeholder that follows `before`.
pub open spec fn value_after(before: Seq<char>, value: Seq<char>) -> Seq<char> {
    if ends_in_arrow(before) {
        seq!['('] + value + seq![')']
    } else {
        value
    }
}

/// The token holds no quote character.
proof fn lemma_token_quote_free()
    ensures
        quote_free(token()),
        token().len() == 31,
{
    reveal_strlit("__import_meta_env_placeholder__");
}

/// A placeholder begins and ends with its quote character.
proof fn lemma_placeholder_ends(text: Seq<char>, quote: Quote, at: int)
    requires
        occurs_at(text, placeholder(quote), at),
    ensures
        placeholder(quote).len() == 33,
        text[at] == quote_char(quote),
        text[at + 32] == quote_char(quote),
{
    lemma_token_quote_free();
    let pat = placeholder(quote);
    assert(text.subrange(at, at + 33)[0] == pat[0]);
    assert(text.subrange(at, at + 33)[32] == pat[32]);
}

/// A text without quotes holds no placeholder.
proof fn lemma_quote_free_no_placeholder(text: Seq<char>, quote: Quote)
    requires
        quote_free(text),
    ensures
        !contains(text, placeholder(quote)),
{
    assert forall|at: int| !occurs_at(text, placeholder(quote), at) by {
        if occurs_at(text, placeholder(quote), at) {
            lemma_placeholder_ends(text, quote, at);
            assert(is_quote(text[at]));
        }
    }
}

/// Between two texts without quotes, a placeholder is the only one.
proof fn lemma_only_occurrence(
    before: Seq<char>,
    quote: Quote,
    after: Seq<char>,
    other: Quote,
    at: int,
)
    requires
        quote_free(before),
        quote_free(after),
        occurs_at(before + placeholder(quote) + after, placeholder(other), at),
    ensures
        other == quote,
        at == before.len(),
{
    lemma_token_quote_free();
    let pat = placeholder(quote);
    let text = before + pat + after;
    lemma_placeholder_ends(text, other, at);
    let b = before.len() as int;
    assert forall|i: int| 0 <= i < text.len() && is_quote(text[i]) implies (i == b || i == b + 32)
        && text[i] == quote_char(quote) by {
        if i < b {
            assert(text[i] == before[i]);
        } else if i < b + 33 {
            assert(text[i] == pat[i - b]);
            if 0 < i - b < 32 {
                assert(pat[i - b] == token()[i - b - 1]);
            }
        } else {
            assert(text[i] == after[i - b - 33]);
        }
    }
    assert(is_quote(text[at]));
    assert(is_quote(text[at + 32]));
}

/// A placeholder in a text that has quotes in its middle part only stands
/// within that part.
proof fn lemma_occurrence_within(
    before: Seq<char>,
    middle: Seq<char>,
    after: Seq<char>,
    quote: Quote,
    at: int,
)
    requires
        quote_free(before),
        quote_free(after),
        occurs_at(before + middle + after, placeholder(quote), at),
    ensures
        occurs_at(middle, placeholder(quote), at - before.len()),
{
    let text = before + middle + after;
    let b = before.len() as int;
    let m = middle.len() as int;
    lemma_placeholder_ends(text, quote, at);
    assert(is_quote(text[at]));
    assert(is_quote(text[at + 32]));
    if at < b {
        assert(text[at] == before[at]);
    }
    if at + 32 >= b + m {
        assert(text[at + 32] == after[at + 32 - b - m]);
    }
    assert(middle.subrange(at - b, at - b + 33) =~= text.subrange(at, at + 33));
}

/// No placeholder stands in a text that has its quotes in a middle part
/// which holds no placeholder.
proof fn lemma_no_placeholder_around(
    before: Seq<char>,
    middle: Seq<char>,
    after: Seq<char>,
    quote: Quote,
)
    requires
        quote_free(before),
        quote_free(after),
        !contains(middle, placeholder(quote)),
    ensures
        !contains(before + middle + after, placeholder(quote)),
{
    assert forall|at: int| !occurs_at(before + middle + after, placeholder(quote), at) by {
        if occurs_at(before + middle + after, placeholder(quote), at) {
            lemma_occurrence_within(before, middle, after, quote, at);
        }
    }
}

/// The leading whitespace of a text is whitespace.
proof fn lemma_leading_whitespace_is_whitespace(text: Seq<char>, j: int)
    requires
        0 <= j < leading_whitespace(text),
    ensures
        j < text.len(),
        is_whitespace(text[j]),
    decreases text.len(),
{
    if j > 0 {
        lemma_leading_whitespace_is_whitespace(text.skip(1), j - 1);
    }
}

/// What follows a text does not change its leading whitespace, if it does
/// not begin with whitespace itself.
proof fn lemma_leading_whitespace_before(text: Seq<char>, rest: Seq<char>)
    requires
        rest.len() > 0,
        !is_whitespace(rest[0]),
    ensures
        leading_whitespace(text + rest) == leading_whitespace(text),
    decreases text.len(),
{
    if text.len() == 0 {
        assert(text + rest =~= rest);
    } else {
        assert((text + rest).skip(1) =~= text.skip(1) + rest);
        lemma_leading_whitespace_before(text.skip(1), rest);
    }
}

/// The first pass keeps a beginning in which no call site begins.
proof fn lemma_fix_call_sites_prefix(text: Seq<char>, pat: Seq<char>, value: Seq<char>, k: int)
    requires
        0 <= k <= text.len(),
        forall|i: int| 0 <= i < k ==> !at_call_site(#[trigger] text.skip(i), pat),
    ensures
        fix_call_sites(text, pat, value) == text.take(k) + fix_call_sites(text.skip(k), pat, value),
    decreases k,
{
    if k == 0 {
        assert(text.skip(0) =~= text);
        assert(text.take(0) + fix_call_sites(text, pat, value) =~= fix_call_sites(
            text,
            pat,
            value,
        ));
    } else {
        lemma_fix_call_sites_prefix(text, pat, value, k - 1);
        let rest = text.skip(k - 1);
        assert(!at_call_site(rest, pat));
        assert(rest.skip(1) =~= text.skip(k));
        assert(text.take(k - 1) + rest.take(1) =~= text.take(k));
    }
}

/// The second pass keeps a beginning in which no occurrence begins.
proof fn lemma_substitute_prefix(text: Seq<char>, pat: Seq<char>, value: Seq<char>, k: int)
    requires
        0 <= k <= text.len(),
        forall|i: int| 0 <= i < k ==> !occurs_at(text, pat, i),
    ensures
        substitute(text, pat, value) == text.take(k) + substitute(text.skip(k), pat, value),
    decreases k,
{
    if k == 0 {
        assert(text.skip(0) =~= text);
        assert(text.take(0) + substitute(text, pat, value) =~= substitute(text, pat, value));
    } else {
        lemma_substitute_prefix(text, pat, value, k - 1);
        let rest = text.skip(k - 1);
        lemma_occurs_at_skip(text, pat, k - 1, 0);
        assert(!occurs_at(rest, pat, 0));
        assert(rest.skip(1) =~= text.skip(k));
        assert(text.take(k - 1) + rest.take(1) =~= text.take(k));
    }
}

/// A call site of the only placeholder begins where the text before it
/// begins its closing arrow.
proof fn lemma_call_site_is_arrow_tail(
    before: Seq<char>,
    quote: Quote,
    after: Seq<char>,
    at: int,
)
    requires
        quote_free(before),
        quote_free(after),
        0 <= at < (before + placeholder(quote) + after).len(),
        at_call_site((before + placeholder(quote) + after).skip(at), placeholder(quote)),
    ensures
        arrow_tail(before, at),
{
    lemma_token_quote_free();
    let pat = placeholder(quote);
    let text = before + pat + after;
    let b = before.len() as int;
    let rest = text.skip(at);
    let g = gap_end(rest);
    lemma_occurs_at_skip(text, pat, at, g);
    lemma_only_occurrence(before, quote, after, quote, at + g);
    lemma_occurs_at_skip(text, arrow(), at, 0);
    assert(before.subrange(at, at + 2) =~= text.subrange(at, at + 2));
    assert(rest.skip(2) =~= before.skip(at + 2) + (pat + after));
    assert((pat + after)[0] == quote_char(quote));
    lemma_leading_whitespace_before(before.skip(at + 2), pat + after);
}

/// A text has one closing arrow at most.
proof fn lemma_arrow_tail_is_one(text: Seq<char>, first: int, second: int)
    requires
        arrow_tail(text, first),
        arrow_tail(text, second),
    ensures
        first == second,
{
    if first != second {
        let (i, j) = if first < second {
            (first, second)
        } else {
            (second, first)
        };
        assert(text.subrange(i, i + 2)[0] == '=');
        assert(text.subrange(i, i + 2)[1] == '>');
        assert(text.subrange(j, j + 2)[0] == '=');
        if j >= i + 2 {
            lemma_leading_whitespace_is_whitespace(text.skip(i + 2), j - i - 2);
            assert(text.skip(i + 2)[j - i - 2] == text[j]);
        }
    }
}

/// The first pass on a text with one placeholder: the placeholder becomes
/// the value in parentheses where the text before it ends in an arrow, and
/// stays where it does not.
proof fn lemma_first_pass_alone(
    before: Seq<char>,
    quote: Quote,
    after: Seq<char>,
    value: Seq<char>,
)
    requires
        quote_free(before),
        quote_free(after),
    ensures
        fix_call_sites(before + placeholder(quote) + after, placeholder(quote), value) == if ends_in_arrow(
            before,
        ) {
            before + (seq!['('] + value + seq![')']) + after
        } else {
            before + placeholder(quote) + after
        },
{
    let pat = placeholder(quote);
    let text = before + pat + after;
    let b = before.len() as int;
    if ends_in_arrow(before) {
        let site = choose|at: int| arrow_tail(before, at);
        assert forall|i: int| 0 <= i < site implies !at_call_site(#[trigger] text.skip(i), pat) by {
            if at_call_site(text.skip(i), pat) {
                lemma_call_site_is_arrow_tail(before, quote, after, i);
                lemma_arrow_tail_is_one(before, i, site);
            }
        }
        lemma_fix_call_sites_prefix(text, pat, value, site);
        let gap = before.subrange(site + 2, b);
        assert forall|j: int| 0 <= j < gap.len() implies is_whitespace(gap[j]) by {
            lemma_leading_whitespace_is_whitespace(before.skip(site + 2), j);
        }
        assert(text.skip(site) =~= arrow() + gap + pat + after) by {
            assert(before.subrange(site, site + 2) == arrow());
            assert(before.skip(site) =~= before.subrange(site, site + 2) + gap);
        }
        lemma_call_site_is_wrapped(gap, quote, after, value);
        lemma_quote_free_no_placeholder(after, quote);
        lemma_fix_call_sites_absent(after, pat, value);
        assert(text.take(site) + (arrow() + gap + seq!['('] + value + seq![')'] + after) =~= before
            + (seq!['('] + value + seq![')']) + after) by {
            assert(before =~= text.take(site) + (arrow() + gap)) by {
                assert(before.subrange(site, site + 2) == arrow());
            }
        }
    } else {
        assert forall|i: int| 0 <= i < text.len() implies !at_call_site(
            #[trigger] text.skip(i),
            pat,
        ) by {
            if at_call_site(text.skip(i), pat) {
                lemma_call_site_is_arrow_tail(before, quote, after, i);
            }
        }
        lemma_fix_call_sites_prefix(text, pat, value, text.len() as int);
        assert(text.take(text.len() as int) + text.skip(text.len() as int) =~= text);
    }
}

/// Both passes for the quote style of the only placeholder.
proof fn lemma_rewrite_same_quote(
    before: Seq<char>,
    quote: Quote,
    after: Seq<char>,
    value: Seq<char>,
)
    requires
        quote_free(before),
        quote_free(after),
        !contains(value, placeholder(quote)),
    ensures
        rewrite_quote(before + placeholder(quote) + after, quote, value) == before + value_after(
            before,
            value,
        ) + after,
{
    let pat = placeholder(quote);
    let text = before + pat + after;
    let b = before.len() as int;
    lemma_first_pass_alone(before, quote, after, value);
    if ends_in_arrow(before) {
        let open = before + seq!['('];
        let close = seq![')'] + after;
        let fixed = before + (seq!['('] + value + seq![')']) + after;
        assert(fixed =~= open + value + close);
        lemma_no_placeholder_around(open, value, close, quote);
        lemma_substitute_absent(fixed, pat, value);
    } else {
        assert forall|i: int| 0 <= i < b implies !occurs_at(text, pat, i) by {
            if occurs_at(text, pat, i) {
                lemma_only_occurrence(before, quote, after, quote, i);
            }
        }
        lemma_substitute_prefix(text, pat, value, b);
        assert(text.skip(b) =~= pat + after);
        assert(text.take(b) =~= before);
        lemma_placeholder_is_replaced(quote, after, value);
        lemma_quote_free_no_placeholder(after, quote);
        lemma_substitute_absent(after, pat, value);
        assert(before + (value + after) =~= before + value + after);
    }
}

/// Both passes for a quote style in which the text holds no placeholder
/// change nothing.
proof fn lemma_rewrite_quote_absent(text: Seq<char>, quote: Quote, value: Seq<char>)
    requires
        !contains(text, placeholder(quote)),
    ensures
        rewrite_quote(text, quote, value) == text,
{
    lemma_fix_call_sites_absent(text, placeholder(quote), value);
    lemma_substitute_absent(text, placeholder(quote), value);
}

/// One placeholder in a text without quotes becomes the value, and nothing
/// else changes: with no quote character in `before` and in `after`, and no
/// placeholder in `value`, population of `before`, the placeholder and
/// `after` gives `before`, the value and `after`; the value stands in
/// parentheses exactly where `before` ends in an arrow.
pub proof fn lemma_placeholder_alone(
    before: Seq<char>,
    quote: Quote,
    after: Seq<char>,
    value: Seq<char>,
)
    requires
        quote_free(before),
        quote_free(after),
        !has_placeholder(value),
    ensures
        rewrite_text(before + placeholder(quote) + after, value) == before + value_after(
            before,
            value,
        ) + after,
{
    let other = match quote {
        Quote::Double => Quote::Single,
        Quote::Single => Quote::Double,
    };
    let text = before + placeholder(quote) + after;
    let populated = before + value_after(before, value) + after;
    lemma_rewrite_same_quote(before, quote, after, value);
    assert(!contains(text, placeholder(other))) by {
        assert forall|at: int| !occurs_at(text, placeholder(other), at) by {
            if occurs_at(text, placeholder(other), at) {
                lemma_only_occurrence(before, quote, after, other, at);
            }
        }
    }
    lemma_rewrite_quote_absent(text, other, value);
    assert(!contains(populated, placeholder(other))) by {
        if ends_in_arrow(before) {
            let open = before + seq!['('];
            let close = seq![')'] + after;
            assert(populated =~= open + value + close);
            lemma_no_placeholder_around(open, value, close, other);
        } else {
            lemma_no_placeholder_around(before, value, after, other);
        }
    }
    lemma_rewrite_quote_absent(populated, other, value);
}

/// The quote style makes no difference: in a text without quotes, and with
/// a value that holds no placeholder, the placeholder in double quotes and
/// the placeholder in single quotes give the same text.
pub proof fn lemma_quote_styles_agree(before: Seq<char>, after: Seq<char>, value: Seq<char>)
    requires
        quote_free(before),
        quote_free(after),
        !has_placeholder(value),
    ensures
        rewrite_text(before + placeholder(Quote::Double) + after, value) == rewrite_text(
            before + placeholder(Quote::Single) + after,
            value,
        ),
{
    lemma_placeholder_alone(before, Quote::Double, after, value);
    lemma_placeholder_alone(before, Quote::Single, after, value);
}

/// An arrow and whitespace behind a text without quotes hold no quote
/// either, and the arrow is the closing arrow of the whole.
proof fn lemma_arrow_and_gap(before: Seq<char>, gap: Seq<char>)
    requires
        quote_free(before),
        forall|i: int| 0 <= i < gap.len() ==> is_whitespace(gap[i]),
    ensures
        quote_free(before + arrow() + gap),
        arrow_tail(before + arrow() + gap, before.len() as int),
{
    let head = before + arrow() + gap;
    let b = before.len() as int;
    assert forall|i: int| 0 <= i < head.len() implies !is_quote(#[trigger] head[i]) by {
        if i < b {
            assert(head[i] == before[i]);
        } else if i >= b + 2 {
            assert(head[i] == gap[i - b - 2]);
            assert(is_whitespace(gap[i - b - 2]));
        }
    }
    assert(head.subrange(b, b + 2) =~= arrow());
    assert(head.skip(b + 2) =~= gap + Seq::<char>::empty());
    lemma_leading_whitespace_run(gap, Seq::<char>::empty());
}

/// A value in parentheses between two texts, written in one run.
proof fn lemma_parentheses_between(before: Seq<char>, value: Seq<char>, after: Seq<char>)
    ensures
        before + (seq!['('] + value + seq![')']) + after == before + seq!['('] + value + seq![')']
            + after,
{
    assert(before + (seq!['('] + value + seq![')']) + after =~= before + seq!['('] + value
        + seq![')'] + after);
}

/// The body of an arrow function stands in parentheses after population,
/// behind the whitespace that stood there: with no quote character in
/// `before` and in `after`, whitespace only in `gap`, and no placeholder in
/// `value`, population of `before`, an arrow, `gap`, the placeholder and
/// `after` gives `before`, the arrow, `gap`, the value in parentheses and
/// `after`.
pub proof fn lemma_arrow_body_is_parenthesized(
    before: Seq<char>,
    gap: Seq<char>,
    quote: Quote,
    after: Seq<char>,
    value: Seq<char>,
)
    requires
        quote_free(before),
        quote_free(after),
        forall|i: int| 0 <= i < gap.len() ==> is_whitespace(gap[i]),
        !has_placeholder(value),
    ensures
        rewrite_text(before + arrow() + gap + placeholder(quote) + after, value) == before + arrow()
            + gap + seq!['('] + value + seq![')'] + after,
{
    let head = before + arrow() + gap;
    lemma_arrow_and_gap(before, gap);
    lemma_placeholder_alone(head, quote, after, value);
    lemma_parentheses_between(head, value, after);
}

} // verus!
