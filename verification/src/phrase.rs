//! Short texts for display: summaries, titles, and the first text that says something.
use vstd::prelude::*;

use crate::text::{
    clip, clipped, cut_texts_begin_alike, fold_whitespace, folded, is_blank, is_space, trim, trimmed,
};

verus! {

/// The first of the values that is there and not blank, without white space at its ends.
pub open spec fn first_filled(values: Seq<Option<Seq<char>>>) -> Option<Seq<char>>
    decreases values.len(),
{
    if values.len() == 0 {
        None
    } else {
        match values[0] {
            Some(s) if trimmed(s).len() > 0 => Some(trimmed(s)),
            _ => first_filled(values.drop_first()),
        }
    }
}

/// The first of the values that is there and not blank, without white space at its ends.
pub fn first_non_empty<'a>(values: &[Option<&'a str>]) -> (r: Option<&'a str>)
    ensures
        r.deep_view() == first_filled(values.deep_view()),
{
    let ghost all = values.deep_view();
    let mut i: usize = 0;
    proof {
        assert(all.skip(0) == all);
    }
    while i < values.len()
        invariant
            all == values.deep_view(),
            i <= values@.len(),
            first_filled(all) == first_filled(all.skip(i as int)),
        decreases values@.len() - i,
    {
        proof {
            assert(all.skip(i as int).drop_first() == all.skip(i + 1));
            assert(all.skip(i as int)[0] == values@[i as int].deep_view());
        }
        if let Some(value) = values[i] {
            let short = trim(value);
            if !short.is_empty() {
                return Some(short);
            }
        }
        i += 1;
    }
    None
}

/// The first of the values that is there and not blank, without white space at its ends; where
/// there is none, the empty text.
pub fn first_non_empty_owned(values: &[Option<String>]) -> (r: String)
    ensures
        r@ == (match first_filled(values.deep_view()) {
            Some(s) => s,
            None => Seq::empty(),
        }),
{
    let ghost all = values.deep_view();
    let mut i: usize = 0;
    proof {
        assert(all.skip(0) == all);
    }
    while i < values.len()
        invariant
            all == values.deep_view(),
            i <= values@.len(),
            first_filled(all) == first_filled(all.skip(i as int)),
        decreases values@.len() - i,
    {
        proof {
            assert(all.skip(i as int).drop_first() == all.skip(i + 1));
            assert(all.skip(i as int)[0] == values@[i as int].deep_view());
        }
        if let Some(value) = &values[i] {
            let short = trim(value.as_str());
            if !short.is_empty() {
                return short.to_owned();
            }
        }
        i += 1;
    }
    String::new()
}

/// A text on one line, cut to `limit` characters.
pub open spec fn summary_of(value: Seq<char>, limit: nat) -> Seq<char> {
    clipped(folded(value), limit)
}

/// The text with its white space folded, and cut to `limit` characters with three dots after them
/// where there are more.
pub fn summarize_text(value: &str, limit: usize) -> (r: String)
    ensures
        r@ == summary_of(value@, limit as nat),
{
    let folded_text = fold_whitespace(value);
    clip(&folded_text, limit)
}

/// A title: the text with its white space folded, and cut to 120 characters.
pub fn normalize_title(value: &str) -> (r: String)
    ensures
        r@ == summary_of(value@, 120),
{
    summarize_text(value, 120)
}

// ---------------------------------------------------------------------------------------------
// Laws
// ---------------------------------------------------------------------------------------------
/// Whether `s` has no white space but single spaces between words.
pub open spec fn is_folded(s: Seq<char>) -> bool {
    &&& s.len() > 0 ==> !is_space(s[0]) && !is_space(s.last())
    &&& forall|i: int| 0 <= i < s.len() && is_space(#[trigger] s[i]) ==> s[i] == ' '
    &&& forall|i: int, j: int|
        0 <= i < s.len() && j == i + 1 && j < s.len() && is_space(#[trigger] s[i]) ==> !is_space(
            #[trigger] s[j],
        )
}

/// Folding leaves no white space but single spaces between words.
pub proof fn folding_leaves_single_spaces(s: Seq<char>)
    ensures
        is_folded(folded(s)),
    decreases s.len(),
{
    if s.len() > 0 {
        folding_leaves_single_spaces(s.drop_last());
    }
}

/// Folding changes nothing in a text that is folded already.
pub proof fn folding_keeps_folded_text(s: Seq<char>)
    requires
        is_folded(s),
    ensures
        folded(s) == s,
    decreases s.len(),
{
    if s.len() > 0 {
        let n = s.len() - 1;
        let before = s.drop_last();
        if n == 0 {
            assert(folded(before) == before);
            assert(before.push(s.last()) == s);
        } else if is_space(s[n - 1]) {
            let shorter = before.drop_last();
            if n >= 2 {
                assert(!is_space(s[n - 2]));
            }
            assert(is_folded(shorter)) by {
                assert forall|i: int| 0 <= i < shorter.len() implies #[trigger] shorter[i] == s[i] by {}
            }
            folding_keeps_folded_text(shorter);
            assert(folded(before) == shorter);
            assert(s[n - 1] == ' ');
            assert(shorter.push(' ').push(s.last()) == s);
        } else {
            assert(is_folded(before)) by {
                assert forall|i: int| 0 <= i < before.len() implies #[trigger] before[i] == s[i] by {}
            }
            folding_keeps_folded_text(before);
            assert(before.push(s.last()) == s);
        }
    }
}

/// A summary has at most three characters more than its limit, holds no line break or other white
/// space but single spaces, and is its own summary.
pub proof fn summary_is_short_and_stable(value: Seq<char>, limit: nat)
    ensures
        summary_of(value, limit).len() <= limit + 3,
        is_folded(summary_of(value, limit)),
        summary_of(summary_of(value, limit), limit) == summary_of(value, limit),
{
    reveal_strlit("...");
    let f = folded(value);
    let r = summary_of(value, limit);
    folding_leaves_single_spaces(value);
    if f.len() > limit {
        assert(r == f.take(limit as int) + "..."@);
        assert forall|i: int| 0 <= i < r.len() implies #[trigger] r[i] == (if i < limit {
            f[i]
        } else {
            '.'
        }) by {}
        assert(!is_space('.'));
        assert(is_folded(r));
        folding_keeps_folded_text(r);
        assert(r.take(limit as int) == f.take(limit as int));
    } else {
        folding_keeps_folded_text(r);
    }
}

/// The summary of a text is empty exactly when the text is blank.
pub proof fn summary_is_empty_for_blank_text(value: Seq<char>, limit: nat)
    ensures
        (summary_of(value, limit).len() == 0) <==> (forall|i: int|
            0 <= i < value.len() ==> is_space(#[trigger] value[i])),
{
    reveal_strlit("...");
    lemma_folded_blank(value);
}

proof fn lemma_folded_blank(s: Seq<char>)
    ensures
        (folded(s).len() == 0) <==> (forall|i: int| 0 <= i < s.len() ==> is_space(#[trigger] s[i])),
    decreases s.len(),
{
    if s.len() > 0 {
        let before = s.drop_last();
        lemma_folded_blank(before);
        if is_space(s.last()) {
            if folded(before).len() == 0 {
                assert forall|i: int| 0 <= i < s.len() implies is_space(#[trigger] s[i]) by {
                    if i < before.len() {
                        assert(before[i] == s[i]);
                    }
                }
            } else {
                let i = choose|i: int| 0 <= i < before.len() && !is_space(#[trigger] before[i]);
                assert(s[i] == before[i]);
            }
        }
    }
}

/// The first value that is there and not blank is the one that counts, and white space at its ends does
/// not; there is none only where all are missing or blank.
pub proof fn the_first_that_says_something_counts(values: Seq<Option<Seq<char>>>)
    ensures
        match first_filled(values) {
            Some(s) => exists|i: int|
                0 <= i < values.len() && (#[trigger] values[i] matches Some(v) && !is_blank(v) && s
                    == trimmed(v)) && forall|j: int|
                    0 <= j < i ==> (#[trigger] values[j] matches Some(v) ==> is_blank(v)),
            None => forall|j: int|
                0 <= j < values.len() ==> (#[trigger] values[j] matches Some(v) ==> is_blank(v)),
        },
    decreases values.len(),
{
    if values.len() > 0 {
        let said = values[0] matches Some(v) && trimmed(v).len() > 0;
        if !said {
            let rest = values.drop_first();
            the_first_that_says_something_counts(rest);
            match first_filled(values) {
                Some(s) => {
                    let i = choose|i: int|
                        0 <= i < rest.len() && (#[trigger] rest[i] matches Some(v) && !is_blank(v)
                            && s == trimmed(v)) && forall|j: int|
                            0 <= j < i ==> (#[trigger] rest[j] matches Some(v) ==> is_blank(v));
                    assert(values[i + 1] == rest[i]);
                    assert forall|j: int| 0 <= j < i + 1 implies (
                    #[trigger] values[j] matches Some(v) ==> is_blank(v)) by {
                        if j > 0 {
                            assert(rest[j - 1] == values[j]);
                        }
                    }
                },
                None => {
                    assert forall|j: int| 0 <= j < values.len() implies (
                    #[trigger] values[j] matches Some(v) ==> is_blank(v)) by {
                        if j > 0 {
                            assert(rest[j - 1] == values[j]);
                        }
                    }
                },
            }
        }
    }
}

/// A summary is the text with its white space folded, cut where it is too long: it begins as that text
/// does, and has three dots behind it where something was cut.
pub proof fn summaries_begin_like_their_text(value: Seq<char>, limit: nat)
    ensures
        folded(value).len() <= limit ==> summary_of(value, limit) == folded(value),
        folded(value).len() > limit ==> {
            &&& summary_of(value, limit).len() == limit + 3
            &&& forall|i: int|
                0 <= i < limit ==> #[trigger] summary_of(value, limit)[i] == folded(value)[i]
            &&& forall|i: int| limit <= i < limit + 3 ==> #[trigger] summary_of(value, limit)[i] == '.'
        },
{
    cut_texts_begin_alike(folded(value), limit);
}

} // verus!
